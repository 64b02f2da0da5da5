//! Effects: changes to the game state that conditions apply.
use vstd::prelude::*;
use crate::engine::game::{
    all_items_exist, item_exists, item_of, lemma_wf_set_item, lemma_wf_set_item_at,
    lemma_wf_set_room_at, lemma_item_views_update, lemma_room_views_update, set_item, set_item_at,
    set_room_at, well_formed, Game, GameView,
};
use crate::engine::game::lemma_contents_exist;
use crate::models::behavior::{
    at_most_one, has_b, hidden, is_hidden_b, is_lock_b, is_open_state, lemma_hidden_state,
    lemma_lock_state, lemma_open_state, locked, openable, container_of, lemma_container_of_with_contents, lemma_container_of_with_locked,
    lemma_container_of_with_open, lemma_container_of_with_revealed, with_contents, with_locked,
    with_open, with_revealed,
};
use crate::models::item::{lemma_lookup_item_views, ItemView};
use crate::models::room::RoomView;
use crate::models::world::WorldView;
use crate::tables::inserted;
use crate::util::{
    contains_id, first_index, has_key, key_index, key_is, lemma_first_index,
    lemma_remove_first_subset, lookup, position_of, remove_first, remove_first_id, texts,
};

verus! {

/// A ConditionEffect modifies the state of the game.
#[derive(Debug, Clone)]
pub enum ConditionEffect {
    /// The block action effect stops whatever action the player was attempting to execute.
    BlockAction { message: Option<String> },
    // Messaging
    /// Print message after action result text
    PrintMessage { text: String },
    /// Print message before everything action result text
    PrintMessageBefore { text: String },
    // State modification
    RevealItem { item_id: i32 },
    HideItem { item_id: i32 },
    UnlockItem { item_id: i32 },
    LockItem { item_id: i32 },
    OpenItem { item_id: i32 },
    CloseItem { item_id: i32 },
    MoveItem { item_id: i32, to_room: i32 },
    MovePlayer { to_room: i32 },
    /// Sets a named flag of the world
    SetFlag { flag_name: String, value: bool },
    // Game state
    EndGame { message: Option<String> },
}

/// A ConditionResult stores output of an executed trigger.
/// It also stores a flag stating if the default action behavior has been blocked by the
/// executed effect.
pub struct ConditionResult {
    pub output: Vec<String>,
    pub output_before: Vec<String>,
    pub blocked: bool,
}

/// The lines an effect prints after the action's own text.
pub open spec fn after_lines(e: ConditionEffect) -> Seq<Seq<char>> {
    match e {
        ConditionEffect::BlockAction { message: Some(m) } => seq![m@],
        ConditionEffect::PrintMessage { text } => seq![text@],
        ConditionEffect::EndGame { message: Some(m) } => seq![m@],
        _ => Seq::empty(),
    }
}

/// The lines an effect prints before the action's own text.
pub open spec fn before_lines(e: ConditionEffect) -> Seq<Seq<char>> {
    match e {
        ConditionEffect::PrintMessageBefore { text } => seq![text@],
        _ => Seq::empty(),
    }
}

/// The lines that `es` print after the action's text, in order.
pub open spec fn effects_after(es: Seq<ConditionEffect>) -> Seq<Seq<char>>
    decreases es.len(),
{
    if es.len() == 0 {
        Seq::empty()
    } else {
        effects_after(es.drop_last()) + after_lines(es.last())
    }
}

/// The lines that `es` print before the action's text, in order.
pub open spec fn effects_before(es: Seq<ConditionEffect>) -> Seq<Seq<char>>
    decreases es.len(),
{
    if es.len() == 0 {
        Seq::empty()
    } else {
        effects_before(es.drop_last()) + before_lines(es.last())
    }
}

/// The game with the item `id` replaced by `v`, when there is such an item.
pub open spec fn change_item(g: GameView, id: i32, v: ItemView) -> GameView {
    if item_exists(g, id) {
        set_item(g, id, v)
    } else {
        g
    }
}

/// Position of the first room entry that holds the item `id`.
pub open spec fn room_holding(g: GameView, id: i32) -> int {
    first_index(g.world.rooms, |e: (i32, RoomView)| e.1.items.contains(id))
}

/// Position of the first item entry whose container holds the item `id`.
pub open spec fn item_holding(g: GameView, id: i32) -> int {
    first_index(
        g.world.items,
        |e: (i32, ItemView)| container_of(e.1.behaviors) matches Some(cs) && cs.contains(id),
    )
}

/// The game with the item `id` laid down in the room `to`, when that room exists.
pub open spec fn lay_in_room(g: GameView, id: i32, to: i32) -> GameView {
    if has_key(g.world.rooms, to) {
        let i = key_index(g.world.rooms, to);
        let r = g.world.rooms[i].1;
        set_room_at(g, i, RoomView { items: r.items.push(id), ..r })
    } else {
        g
    }
}

/// The game after moving the item `id` to the room `to`: it leaves the inventory, or
/// else the first room that holds it, or else the first container that holds it, and
/// then lies in `to`; an item found nowhere stays where it is.
pub open spec fn moved_item(g: GameView, id: i32, to: i32) -> GameView {
    if g.inventory.contains(id) {
        lay_in_room(GameView { inventory: remove_first(g.inventory, id), ..g }, id, to)
    } else if room_holding(g, id) >= 0 {
        let i = room_holding(g, id);
        let r = g.world.rooms[i].1;
        lay_in_room(set_room_at(g, i, RoomView { items: remove_first(r.items, id), ..r }), id, to)
    } else if item_holding(g, id) >= 0 {
        let j = item_holding(g, id);
        let v = g.world.items[j].1;
        lay_in_room(
            set_item_at(g, j, with_contents(v, remove_first(container_of(v.behaviors)->0, id))),
            id,
            to,
        )
    } else {
        g
    }
}

/// The game after one effect.
pub open spec fn effect_step(g: GameView, e: ConditionEffect) -> GameView {
    match e {
        ConditionEffect::RevealItem { item_id } => change_item(g, item_id, with_revealed(item_of(g, item_id), true)),
        ConditionEffect::HideItem { item_id } => change_item(g, item_id, with_revealed(item_of(g, item_id), false)),
        ConditionEffect::UnlockItem { item_id } => change_item(g, item_id, with_locked(item_of(g, item_id), false)),
        ConditionEffect::LockItem { item_id } => change_item(g, item_id, with_locked(item_of(g, item_id), true)),
        ConditionEffect::OpenItem { item_id } => change_item(g, item_id, with_open(item_of(g, item_id), true)),
        ConditionEffect::CloseItem { item_id } => change_item(g, item_id, with_open(item_of(g, item_id), false)),
        ConditionEffect::MoveItem { item_id, to_room } => moved_item(g, item_id, to_room),
        ConditionEffect::MovePlayer { to_room } => if has_key(g.world.rooms, to_room) {
            GameView { current_room: to_room, ..g }
        } else {
            g
        },
        ConditionEffect::SetFlag { flag_name, value } => GameView {
            world: WorldView { flags: inserted(g.world.flags, flag_name@, value), ..g.world },
            ..g
        },
        ConditionEffect::EndGame { .. } => GameView { game_over: true, ..g },
        _ => g,
    }
}

/// The game after the effects `es`, applied in order.
pub open spec fn effects_state(g: GameView, es: Seq<ConditionEffect>) -> GameView
    decreases es.len(),
{
    if es.len() == 0 {
        g
    } else {
        effect_step(effects_state(g, es.drop_last()), es.last())
    }
}

/// Some effect of `es` blocks the action.
pub open spec fn blocks(es: Seq<ConditionEffect>) -> bool {
    exists|i: int| 0 <= i < es.len() && #[trigger] es[i] is BlockAction
}

/// Applying one list of effects and then another is applying the two joined: the same
/// game, the lines of both in order, and a block when either blocks.
pub proof fn lemma_effects_compose(g: GameView, a: Seq<ConditionEffect>, b: Seq<ConditionEffect>)
    ensures
        effects_state(g, a + b) == effects_state(effects_state(g, a), b),
        effects_after(a + b) == effects_after(a) + effects_after(b),
        effects_before(a + b) == effects_before(a) + effects_before(b),
        blocks(a + b) == (blocks(a) || blocks(b)),
    decreases b.len(),
{
    if b.len() == 0 {
        assert(a + b =~= a);
        assert(effects_after(a) + effects_after(b) =~= effects_after(a));
        assert(effects_before(a) + effects_before(b) =~= effects_before(a));
    } else {
        lemma_effects_compose(g, a, b.drop_last());
        assert((a + b).drop_last() =~= a + b.drop_last());
        assert((a + b).last() == b.last());
        assert(effects_after(a + b) =~= effects_after(a) + effects_after(b));
        assert(effects_before(a + b) =~= effects_before(a) + effects_before(b));
    }
    let ab = a + b;
    if blocks(ab) {
        let k = choose|k: int| 0 <= k < ab.len() && #[trigger] ab[k] is BlockAction;
        if k < a.len() {
            assert(a[k] is BlockAction);
        } else {
            assert(b[k - a.len()] is BlockAction);
        }
    }
    if blocks(a) {
        let k = choose|k: int| 0 <= k < a.len() && #[trigger] a[k] is BlockAction;
        assert(ab[k] is BlockAction);
    }
    if blocks(b) {
        let k = choose|k: int| 0 <= k < b.len() && #[trigger] b[k] is BlockAction;
        assert(ab[k + a.len()] is BlockAction);
    }
}

/// Effects that change one item change that item alone: the others, the rooms, the
/// inventory and the player's place stay as they were.
proof fn lemma_change_item_frame(g: GameView, id: i32, v: ItemView)
    ensures
        forall|k: i32| k != id ==> #[trigger] item_of(change_item(g, id, v), k) == item_of(g, k),
        change_item(g, id, v).world.rooms == g.world.rooms,
        change_item(g, id, v).inventory == g.inventory,
        change_item(g, id, v).current_room == g.current_room,
        item_exists(g, id) ==> item_of(change_item(g, id, v), id) == v,
{
    if item_exists(g, id) {
        crate::engine::game::lemma_set_item(g, id, v);
    }
}

/// Unlocking an item with a single lock leaves it unlocked, and locking an item with a
/// lock leaves it locked; no other item changes.
pub proof fn lemma_lock_effects(g: GameView, id: i32)
    ensures
        item_exists(g, id) && has_b(item_of(g, id).behaviors, is_lock_b()) && at_most_one(item_of(g, id), is_lock_b())
            ==> !locked(item_of(effect_step(g, ConditionEffect::UnlockItem { item_id: id }), id)),
        item_exists(g, id) && has_b(item_of(g, id).behaviors, is_lock_b()) ==> locked(
            item_of(effect_step(g, ConditionEffect::LockItem { item_id: id }), id),
        ),
        forall|k: i32| k != id ==> #[trigger] item_of(effect_step(g, ConditionEffect::UnlockItem { item_id: id }), k)
            == item_of(g, k) && item_of(effect_step(g, ConditionEffect::LockItem { item_id: id }), k) == item_of(g, k),
{
    let v = item_of(g, id);
    lemma_change_item_frame(g, id, with_locked(v, false));
    lemma_change_item_frame(g, id, with_locked(v, true));
    if item_exists(g, id) && has_b(v.behaviors, is_lock_b()) {
        lemma_lock_state(v, false);
        lemma_lock_state(v, true);
    }
}

/// Opening an item that can be opened leaves it open and closing it leaves it closed;
/// no other item changes.
pub proof fn lemma_open_effects(g: GameView, id: i32)
    ensures
        item_exists(g, id) && openable(item_of(g, id)) ==> is_open_state(
            item_of(effect_step(g, ConditionEffect::OpenItem { item_id: id }), id),
        ),
        item_exists(g, id) && openable(item_of(g, id)) ==> !is_open_state(
            item_of(effect_step(g, ConditionEffect::CloseItem { item_id: id }), id),
        ),
        forall|k: i32| k != id ==> #[trigger] item_of(effect_step(g, ConditionEffect::OpenItem { item_id: id }), k)
            == item_of(g, k) && item_of(effect_step(g, ConditionEffect::CloseItem { item_id: id }), k) == item_of(g, k),
{
    let v = item_of(g, id);
    lemma_change_item_frame(g, id, with_open(v, true));
    lemma_change_item_frame(g, id, with_open(v, false));
    if item_exists(g, id) && openable(v) {
        lemma_open_state(v, true);
        lemma_open_state(v, false);
    }
}

/// Hiding an item with a Hidden behavior hides it, and revealing an item with a single
/// Hidden behavior shows it; no other item changes.
pub proof fn lemma_reveal_effects(g: GameView, id: i32)
    ensures
        item_exists(g, id) && has_b(item_of(g, id).behaviors, is_hidden_b()) && at_most_one(
            item_of(g, id),
            is_hidden_b(),
        ) ==> !hidden(item_of(effect_step(g, ConditionEffect::RevealItem { item_id: id }), id)),
        item_exists(g, id) && has_b(item_of(g, id).behaviors, is_hidden_b()) ==> hidden(
            item_of(effect_step(g, ConditionEffect::HideItem { item_id: id }), id),
        ),
        forall|k: i32| k != id ==> #[trigger] item_of(effect_step(g, ConditionEffect::RevealItem { item_id: id }), k)
            == item_of(g, k) && item_of(effect_step(g, ConditionEffect::HideItem { item_id: id }), k) == item_of(g, k),
{
    let v = item_of(g, id);
    lemma_change_item_frame(g, id, with_revealed(v, true));
    lemma_change_item_frame(g, id, with_revealed(v, false));
    if item_exists(g, id) && has_b(v.behaviors, is_hidden_b()) {
        lemma_hidden_state(v, true);
        lemma_hidden_state(v, false);
    }
}

/// Moving the player takes them into the room named when it exists, and leaves them
/// where they are otherwise; setting a flag gives it the value named; ending the game
/// ends it; the effects that only print or block change nothing.
pub proof fn lemma_world_effects(g: GameView, to: i32, name: String, value: bool, e: ConditionEffect)
    ensures
        effect_step(g, ConditionEffect::MovePlayer { to_room: to }).current_room == if has_key(g.world.rooms, to) {
            to
        } else {
            g.current_room
        },
        effect_step(g, ConditionEffect::MovePlayer { to_room: to }).world == g.world,
        lookup(effect_step(g, ConditionEffect::SetFlag { flag_name: name, value }).world.flags, name@) == Some(value),
        e is EndGame ==> effect_step(g, e).game_over,
        (e is BlockAction || e is PrintMessage || e is PrintMessageBefore) ==> effect_step(g, e) == g,
{
    crate::tables::lemma_lookup_inserted(g.world.flags, name@, value, name@);
}

/// Moving an item to a room that exists takes it out of the inventory, else out of the
/// first room that holds it, else out of the first container that holds it, and lays
/// it last in that room; an item found nowhere stays where it is.
pub proof fn lemma_move_item_effect(g: GameView, id: i32, to: i32)
    ensures
        ({
            let h = effect_step(g, ConditionEffect::MoveItem { item_id: id, to_room: to });
            &&& (has_key(g.world.rooms, to) && (g.inventory.contains(id) || room_holding(g, id) >= 0
                || item_holding(g, id) >= 0)) ==> (lookup(h.world.rooms, to)->0).items.last() == id
            &&& g.inventory.contains(id) ==> h.inventory == remove_first(g.inventory, id)
            &&& !g.inventory.contains(id) ==> h.inventory == g.inventory
            &&& !(g.inventory.contains(id) || room_holding(g, id) >= 0 || item_holding(g, id) >= 0) ==> h == g
        }),
{
    let h = effect_step(g, ConditionEffect::MoveItem { item_id: id, to_room: to });
    lemma_first_index(g.world.rooms, |e: (i32, RoomView)| e.1.items.contains(id));
    lemma_first_index(g.world.items, |e: (i32, ItemView)| container_of(e.1.behaviors) matches Some(cs) && cs.contains(id));
    let g1 = if g.inventory.contains(id) {
        GameView { inventory: remove_first(g.inventory, id), ..g }
    } else if room_holding(g, id) >= 0 {
        let i = room_holding(g, id);
        let r = g.world.rooms[i].1;
        set_room_at(g, i, RoomView { items: remove_first(r.items, id), ..r })
    } else if item_holding(g, id) >= 0 {
        let j = item_holding(g, id);
        let v = g.world.items[j].1;
        set_item_at(g, j, with_contents(v, remove_first(container_of(v.behaviors)->0, id)))
    } else {
        g
    };
    if g.inventory.contains(id) || room_holding(g, id) >= 0 || item_holding(g, id) >= 0 {
        assert(h == lay_in_room(g1, id, to));
        assert(g1.world.rooms.len() == g.world.rooms.len());
        assert forall|j: int| 0 <= j < g.world.rooms.len() implies #[trigger] g1.world.rooms[j].0 == g.world.rooms[j].0 by {}
        crate::util::lemma_same_keys(g.world.rooms, g1.world.rooms);
        if has_key(g.world.rooms, to) {
            let k = key_index(g1.world.rooms, to);
            lemma_first_index(g1.world.rooms, key_is::<i32, RoomView>(to));
            let t = h.world.rooms;
            assert forall|j: int| 0 <= j < g1.world.rooms.len() implies #[trigger] g1.world.rooms[j].0 == t[j].0 by {}
            crate::util::lemma_same_keys(g1.world.rooms, t);
        }
    }
}

/// A copy of the optional text `o`.
fn copy_text(o: &Option<String>) -> (r: Option<String>)
    ensures
        r == *o,
{
    match o {
        Some(t) => Some(t.clone()),
        None => None,
    }
}

/// A copy of the effect `e`.
fn copy_effect(e: &ConditionEffect) -> (r: ConditionEffect)
    ensures
        r == *e,
{
    match e {
        ConditionEffect::BlockAction { message } => ConditionEffect::BlockAction { message: copy_text(message) },
        ConditionEffect::PrintMessage { text } => ConditionEffect::PrintMessage { text: text.clone() },
        ConditionEffect::PrintMessageBefore { text } => ConditionEffect::PrintMessageBefore { text: text.clone() },
        ConditionEffect::RevealItem { item_id } => ConditionEffect::RevealItem { item_id: *item_id },
        ConditionEffect::HideItem { item_id } => ConditionEffect::HideItem { item_id: *item_id },
        ConditionEffect::UnlockItem { item_id } => ConditionEffect::UnlockItem { item_id: *item_id },
        ConditionEffect::LockItem { item_id } => ConditionEffect::LockItem { item_id: *item_id },
        ConditionEffect::OpenItem { item_id } => ConditionEffect::OpenItem { item_id: *item_id },
        ConditionEffect::CloseItem { item_id } => ConditionEffect::CloseItem { item_id: *item_id },
        ConditionEffect::MoveItem { item_id, to_room } => ConditionEffect::MoveItem {
            item_id: *item_id,
            to_room: *to_room,
        },
        ConditionEffect::MovePlayer { to_room } => ConditionEffect::MovePlayer { to_room: *to_room },
        ConditionEffect::SetFlag { flag_name, value } => ConditionEffect::SetFlag {
            flag_name: flag_name.clone(),
            value: *value,
        },
        ConditionEffect::EndGame { message } => ConditionEffect::EndGame { message: copy_text(message) },
    }
}

/// A copy of the effects `es`, in order.
pub(crate) fn copy_effects(es: &Vec<ConditionEffect>) -> (r: Vec<ConditionEffect>)
    ensures
        r@ == es@,
{
    let mut r: Vec<ConditionEffect> = Vec::new();
    let mut i: usize = 0;
    while i < es.len()
        invariant
            i <= es@.len(),
            r@ == es@.take(i as int),
        decreases es@.len() - i,
    {
        r.push(copy_effect(&es[i]));
        assert(r@ =~= es@.take(i + 1));
        i = i + 1;
    }
    assert(es@.take(i as int) =~= es@);
    r
}

/// `h` has the triggers and turn count of `g`: the same global conditions, the same
/// room keys in the same places with the same room conditions, and the same turn.
pub open spec fn keeps_triggers(g: GameView, h: GameView) -> bool {
    &&& h.world.global_conditions == g.world.global_conditions
    &&& h.world.rooms.len() == g.world.rooms.len()
    &&& forall|i: int| 0 <= i < g.world.rooms.len() ==> (#[trigger] h.world.rooms[i]).0 == g.world.rooms[i].0
    &&& forall|i: int|
        0 <= i < g.world.rooms.len() ==> (#[trigger] h.world.rooms[i]).1.conditions == g.world.rooms[i].1.conditions
    &&& h.turn == g.turn
}

/// Keeping the triggers is transitive.
pub proof fn lemma_keeps_triggers_trans(g: GameView, h: GameView, k: GameView)
    requires
        keeps_triggers(g, h),
        keeps_triggers(h, k),
    ensures
        keeps_triggers(g, k),
{
    assert forall|i: int| 0 <= i < g.world.rooms.len() implies (#[trigger] k.world.rooms[i]).0 == g.world.rooms[i].0
        && k.world.rooms[i].1.conditions == g.world.rooms[i].1.conditions by {
        assert(h.world.rooms[i].0 == g.world.rooms[i].0);
        assert(h.world.rooms[i].1.conditions == g.world.rooms[i].1.conditions);
    }
}

/// Laying an item in a room keeps the triggers.
proof fn lemma_lay_keeps(g: GameView, id: i32, to: i32)
    ensures
        keeps_triggers(g, lay_in_room(g, id, to)),
{
    lemma_first_index(g.world.rooms, key_is::<i32, RoomView>(to));
}

/// No effect changes a condition or the turn count.
pub proof fn lemma_effect_keeps_triggers(g: GameView, e: ConditionEffect)
    ensures
        keeps_triggers(g, effect_step(g, e)),
{
    match e {
        ConditionEffect::MoveItem { item_id, to_room } => {
            if g.inventory.contains(item_id) {
                lemma_lay_keeps(GameView { inventory: remove_first(g.inventory, item_id), ..g }, item_id, to_room);
            } else if room_holding(g, item_id) >= 0 {
                lemma_first_index(g.world.rooms, |e: (i32, RoomView)| e.1.items.contains(item_id));
                let i = room_holding(g, item_id);
                let r = g.world.rooms[i].1;
                let h = set_room_at(g, i, RoomView { items: remove_first(r.items, item_id), ..r });
                assert(keeps_triggers(g, h));
                lemma_lay_keeps(h, item_id, to_room);
                lemma_keeps_triggers_trans(g, h, lay_in_room(h, item_id, to_room));
            } else if item_holding(g, item_id) >= 0 {
                let j = item_holding(g, item_id);
                let v = g.world.items[j].1;
                let h = set_item_at(g, j, with_contents(v, remove_first(container_of(v.behaviors)->0, item_id)));
                lemma_lay_keeps(h, item_id, to_room);
            }
        },
        _ => {},
    }
}

/// Applying effects keeps every condition and the turn count.
pub proof fn lemma_effects_keep_triggers(g: GameView, es: Seq<ConditionEffect>)
    ensures
        keeps_triggers(g, effects_state(g, es)),
    decreases es.len(),
{
    if es.len() > 0 {
        lemma_effects_keep_triggers(g, es.drop_last());
        let h = effects_state(g, es.drop_last());
        lemma_effect_keeps_triggers(h, es.last());
        lemma_keeps_triggers_trans(g, h, effect_step(h, es.last()));
    }
}

impl Game {
    /// Executes a slice of [`ConditionEffect`]s against the game, modifying state.
    ///
    /// Returns a [`ConditionResult`] containing output text and whether the action the user is
    /// was using should be blocked.
    ///
    /// Effects are processed in order.
    pub fn execute_effect(&mut self, effects: &[ConditionEffect]) -> (r: ConditionResult)
        ensures
            final(self)@ == effects_state(old(self)@, effects@),
            well_formed(old(self)@) ==> well_formed(final(self)@),
            texts(r.output@) == effects_after(effects@),
            texts(r.output_before@) == effects_before(effects@),
            r.blocked == blocks(effects@),
    {
        let ghost g0 = self@;
        let ghost es = effects@;
        let mut output: Vec<String> = Vec::new();
        let mut output_before: Vec<String> = Vec::new();
        let mut blocked = false;
        let mut i: usize = 0;
        assert(es.take(0) =~= Seq::<ConditionEffect>::empty());
        while i < effects.len()
            invariant
                es == effects@,
                i <= es.len(),
                well_formed(g0) ==> well_formed(self@),
                self@ == effects_state(g0, es.take(i as int)),
                texts(output@) == effects_after(es.take(i as int)),
                texts(output_before@) == effects_before(es.take(i as int)),
                blocked == blocks(es.take(i as int)),
            decreases es.len() - i,
        {
            let effect = &effects[i];
            assert(es.take(i + 1).drop_last() =~= es.take(i as int));
            assert(es.take(i + 1).last() == *effect);
            let ghost out0 = texts(output@);
            let ghost before0 = texts(output_before@);
            let ghost prefix = es.take(i as int);
            let ghost longer = es.take(i + 1);
            match effect {
                ConditionEffect::BlockAction { message } => {
                    if let Some(msg) = message {
                        output.push(msg.clone());
                    }
                    blocked = true;
                },
                ConditionEffect::PrintMessage { text } => output.push(text.clone()),
                ConditionEffect::PrintMessageBefore { text } => output_before.push(text.clone()),
                ConditionEffect::RevealItem { item_id } => self.change_item(*item_id, 0),
                ConditionEffect::HideItem { item_id } => self.change_item(*item_id, 1),
                ConditionEffect::UnlockItem { item_id } => self.change_item(*item_id, 2),
                ConditionEffect::LockItem { item_id } => self.change_item(*item_id, 3),
                ConditionEffect::OpenItem { item_id } => self.change_item(*item_id, 4),
                ConditionEffect::CloseItem { item_id } => self.change_item(*item_id, 5),
                ConditionEffect::MoveItem { item_id, to_room } => self.move_item(*item_id, *to_room),
                ConditionEffect::MovePlayer { to_room } => {
                    // Only move if target room exists
                    if self.world.rooms.contains_key(to_room) {
                        proof {
                            crate::engine::game::lemma_lookup_room_views(self.world.rooms@, *to_room);
                        }
                        self.current_room = *to_room;
                    }
                    proof {
                        crate::engine::game::lemma_lookup_room_views(self.world.rooms@, *to_room);
                    }
                },
                ConditionEffect::SetFlag { flag_name, value } => {
                    self.world.flags.insert(flag_name.clone(), *value);
                },
                ConditionEffect::EndGame { message } => {
                    if let Some(msg) = message {
                        output.push(msg.clone());
                    }
                    self.game_over = true;
                },
            }
            assert(texts(output@) =~= out0 + after_lines(*effect));
            assert(texts(output_before@) =~= before0 + before_lines(*effect));
            assert(blocked == blocks(longer)) by {
                if effect is BlockAction {
                    assert(longer[i as int] is BlockAction);
                } else {
                    if blocks(longer) {
                        let k = choose|k: int| 0 <= k < longer.len() && #[trigger] longer[k] is BlockAction;
                        if k < i {
                            assert(prefix[k] is BlockAction);
                        }
                    }
                    if blocks(prefix) {
                        let k = choose|k: int| 0 <= k < prefix.len() && #[trigger] prefix[k] is BlockAction;
                        assert(longer[k] is BlockAction);
                    }
                }
            }
            i = i + 1;
        }
        assert(es.take(i as int) =~= es);
        ConditionResult { output, output_before, blocked }
    }

    /// Reveals (0), hides (1), unlocks (2), locks (3), opens (4) or closes (5) the item
    /// `id`, when there is one.
    fn change_item(&mut self, id: i32, how: u8)
        requires
            how < 6,
        ensures
            final(self)@ == change_item(
                old(self)@,
                id,
                if how == 0 {
                    with_revealed(item_of(old(self)@, id), true)
                } else if how == 1 {
                    with_revealed(item_of(old(self)@, id), false)
                } else if how == 2 {
                    with_locked(item_of(old(self)@, id), false)
                } else if how == 3 {
                    with_locked(item_of(old(self)@, id), true)
                } else if how == 4 {
                    with_open(item_of(old(self)@, id), true)
                } else {
                    with_open(item_of(old(self)@, id), false)
                },
            ),
            well_formed(old(self)@) ==> well_formed(final(self)@),
    {
        let ghost g = self@;
        proof {
            lemma_lookup_item_views(self.world.items@, id);
        }
        let i = match self.world.items.index_of(id) {
            Some(i) => i,
            None => return,
        };
        let ghost v = item_of(g, id);
        let ghost before = self.world.items@;
        if how == 0 {
            self.world.items.entries[i].1.uncover();
        } else if how == 1 {
            self.world.items.entries[i].1.conceal();
        } else if how == 2 {
            self.world.items.entries[i].1.set_locked(false);
        } else if how == 3 {
            self.world.items.entries[i].1.set_locked(true);
        } else if how == 4 {
            self.world.items.entries[i].1.set_open(true);
        } else {
            self.world.items.entries[i].1.set_open(false);
        }
        proof {
            lemma_item_views_update(before, i as int, self.world.items@[i as int]);
            lemma_container_of_with_revealed(v, true);
            lemma_container_of_with_revealed(v, false);
            lemma_container_of_with_locked(v, true);
            lemma_container_of_with_locked(v, false);
            lemma_container_of_with_open(v, true);
            lemma_container_of_with_open(v, false);
            assert(self@ == set_item(g, id, self.world.items@[i as int].1@));
            if well_formed(g) {
                lemma_contents_exist(g, id);
                lemma_wf_set_item(g, id, self.world.items@[i as int].1@);
            }
        }
    }

    /// Moves the item `id` from wherever it is to the room `to`.
    fn move_item(&mut self, id: i32, to: i32)
        ensures
            final(self)@ == moved_item(old(self)@, id, to),
            well_formed(old(self)@) ==> well_formed(final(self)@),
    {
        let ghost g = self@;
        // Remove item from current location (room or inventory or container)
        let mut found = false;
        // Check player inventory first
        proof {
            lemma_first_index(g.inventory, crate::util::equals(id));
            lemma_remove_first_subset(g.inventory, id);
        }
        match position_of(&self.player.inventory, id) {
            Some(pos) => {
                assert(g.inventory.contains(id)) by {
                    assert(g.inventory[pos as int] == id);
                }
                self.player.inventory.remove(pos);
                found = true;
                proof {
                    if well_formed(g) {
                        assert forall|k: int| 0 <= k < self@.inventory.len() implies has_key(
                            self@.world.items,
                            #[trigger] self@.inventory[k],
                        ) by {
                            assert(remove_first(g.inventory, id).contains(self@.inventory[k]));
                            let j = choose|j: int| 0 <= j < g.inventory.len() && g.inventory[j] == self@.inventory[k];
                            assert(has_key(g.world.items, g.inventory[j]));
                        }
                        assert(has_key(g.world.items, g.inventory[pos as int]));
                    }
                }
            },
            None => {
                assert(!g.inventory.contains(id)) by {
                    if g.inventory.contains(id) {
                        let j = choose|j: int| 0 <= j < g.inventory.len() && g.inventory[j] == id;
                        assert(crate::util::equals(id)(g.inventory[j]));
                    }
                }
            },
        }
        // Check all rooms
        if !found {
            match self.room_holding_index(id) {
                Some(ri) => {
                    let ghost r = g.world.rooms[ri as int].1;
                    proof {
                        lemma_remove_first_subset(r.items, id);
                    }
                    proof {
                      if well_formed(g) {
                        assert(all_items_exist(g.world.items, r.items));
                        assert forall|k: int| 0 <= k < remove_first(r.items, id).len() implies has_key(
                            g.world.items,
                            #[trigger] remove_first(r.items, id)[k],
                        ) by {
                            assert(remove_first(r.items, id).contains(remove_first(r.items, id)[k]));
                            let j = choose|j: int| 0 <= j < r.items.len() && r.items[j] == remove_first(r.items, id)[k];
                            assert(has_key(g.world.items, r.items[j]));
                        }
                        assert forall|j: int| 0 <= j < r.exits.len() implies has_key(
                            g.world.rooms,
                            #[trigger] r.exits[j].1,
                        ) by {
                            assert(has_key(g.world.rooms, g.world.rooms[ri as int].1.exits[j].1));
                        }
                        lemma_wf_set_room_at(g, ri as int, RoomView { items: remove_first(r.items, id), ..r });
                        let j = choose|j: int| 0 <= j < r.items.len() && r.items[j] == id;
                        assert(has_key(g.world.items, r.items[j]));
                      }
                    }
                    let ghost before = self.world.rooms@;
                    remove_first_id(&mut self.world.rooms.entries[ri].1.items, id);
                    proof {
                        lemma_room_views_update(before, ri as int, self.world.rooms@[ri as int]);
                    }
                    found = true;
                },
                None => {},
            }
        }
        // Check all containers
        if !found {
            match self.item_holding_index(id) {
                Some(ci) => {
                    let ghost v = g.world.items[ci as int].1;
                    let ghost cs = container_of(v.behaviors)->0;
                    proof {
                        lemma_remove_first_subset(cs, id);
                        lemma_container_of_with_contents(v, remove_first(cs, id));
                    }
                    proof {
                      if well_formed(g) {
                        assert(container_of(g.world.items[ci as int].1.behaviors) matches Some(c) ==> all_items_exist(g.world.items, c));
                        assert forall|k: int| 0 <= k < remove_first(cs, id).len() implies has_key(
                            g.world.items,
                            #[trigger] remove_first(cs, id)[k],
                        ) by {
                            assert(remove_first(cs, id).contains(remove_first(cs, id)[k]));
                            let j = choose|j: int| 0 <= j < cs.len() && cs[j] == remove_first(cs, id)[k];
                            assert(has_key(g.world.items, cs[j]));
                        }
                        lemma_container_of_with_contents(v, remove_first(cs, id));
                        lemma_wf_set_item_at(g, ci as int, with_contents(v, remove_first(cs, id)));
                        let j = choose|j: int| 0 <= j < cs.len() && cs[j] == id;
                        assert(has_key(g.world.items, cs[j]));
                      }
                    }
                    let ghost before = self.world.items@;
                    self.world.items.entries[ci].1.container_remove(id);
                    proof {
                        lemma_item_views_update(before, ci as int, self.world.items@[ci as int]);
                    }
                    found = true;
                },
                None => {},
            }
        }
        // Add to target room if it exists
        if found {
            let ghost g1 = self@;
            assert(well_formed(g) ==> has_key(g1.world.items, id));
            match self.world.rooms.index_of(to) {
                Some(ri) => {
                    proof {
                        crate::engine::game::lemma_lookup_room_views(self.world.rooms@, to);
                    }
                    proof {
                      if well_formed(g) {
                        let r = g1.world.rooms[ri as int].1;
                        assert(all_items_exist(g1.world.items, r.items));
                        assert forall|k: int| 0 <= k < r.items.push(id).len() implies has_key(
                            g1.world.items,
                            #[trigger] r.items.push(id)[k],
                        ) by {
                            if k < r.items.len() {
                                assert(r.items.push(id)[k] == r.items[k]);
                            }
                        }
                        assert forall|j: int| 0 <= j < r.exits.len() implies has_key(
                            g1.world.rooms,
                            #[trigger] r.exits[j].1,
                        ) by {
                            assert(has_key(g1.world.rooms, g1.world.rooms[ri as int].1.exits[j].1));
                        }
                        lemma_wf_set_room_at(g1, ri as int, RoomView { items: r.items.push(id), ..r });
                      }
                    }
                    let ghost before = self.world.rooms@;
                    self.world.rooms.entries[ri].1.items.push(id);
                    proof {
                        lemma_room_views_update(before, ri as int, self.world.rooms@[ri as int]);
                    }
                },
                None => {
                    proof {
                        crate::engine::game::lemma_lookup_room_views(self.world.rooms@, to);
                    }
                },
            }
        }
    }

    /// Position of the first room entry whose items include `id`.
    fn room_holding_index(&self, id: i32) -> (r: Option<usize>)
        ensures
            match r {
                Some(i) => i as int == room_holding(self@, id) && i < self@.world.rooms.len()
                    && self@.world.rooms[i as int].1.items.contains(id),
                None => room_holding(self@, id) == -1,
            },
    {
        let ghost rooms = self@.world.rooms;
        let ghost p = |e: (i32, RoomView)| e.1.items.contains(id);
        proof {
            lemma_first_index(rooms, p);
        }
        let mut i: usize = 0;
        while i < self.world.rooms.entries.len()
            invariant
                rooms == self@.world.rooms,
                p == (|e: (i32, RoomView)| e.1.items.contains(id)),
                rooms.len() == self.world.rooms.entries@.len(),
                i <= rooms.len(),
                forall|j: int| 0 <= j < i ==> !p(#[trigger] rooms[j]),
                -1 <= first_index(rooms, p) < rooms.len(),
                first_index(rooms, p) >= 0 ==> p(rooms[first_index(rooms, p)]),
                forall|j: int| 0 <= j < first_index(rooms, p) ==> !p(#[trigger] rooms[j]),
                first_index(rooms, p) == -1 ==> forall|j: int| 0 <= j < rooms.len() ==> !p(#[trigger] rooms[j]),
            decreases rooms.len() - i,
        {
            assert(rooms[i as int].1 == self.world.rooms.entries@[i as int].1@);
            if contains_id(&self.world.rooms.entries[i].1.items, id) {
                assert(p(rooms[i as int]));
                return Some(i);
            }
            i = i + 1;
        }
        None
    }

    /// Position of the first item entry whose container holds `id`.
    fn item_holding_index(&self, id: i32) -> (r: Option<usize>)
        ensures
            match r {
                Some(i) => i as int == item_holding(self@, id) && i < self@.world.items.len()
                    && (container_of(self@.world.items[i as int].1.behaviors) matches Some(cs) && cs.contains(id)),
                None => item_holding(self@, id) == -1,
            },
    {
        let ghost items = self@.world.items;
        let ghost p = |e: (i32, ItemView)| container_of(e.1.behaviors) matches Some(cs) && cs.contains(id);
        proof {
            lemma_first_index(items, p);
        }
        let mut i: usize = 0;
        while i < self.world.items.entries.len()
            invariant
                items == self@.world.items,
                p == (|e: (i32, ItemView)| container_of(e.1.behaviors) matches Some(cs) && cs.contains(id)),
                items.len() == self.world.items.entries@.len(),
                i <= items.len(),
                forall|j: int| 0 <= j < i ==> !p(#[trigger] items[j]),
                -1 <= first_index(items, p) < items.len(),
                first_index(items, p) >= 0 ==> p(items[first_index(items, p)]),
                forall|j: int| 0 <= j < first_index(items, p) ==> !p(#[trigger] items[j]),
                first_index(items, p) == -1 ==> forall|j: int| 0 <= j < items.len() ==> !p(#[trigger] items[j]),
            decreases items.len() - i,
        {
            assert(items[i as int].1 == self.world.items.entries@[i as int].1@);
            let held = match self.world.items.entries[i].1.get_container() {
                Some(contents) => contains_id(contents, id),
                None => false,
            };
            if held {
                assert(p(items[i as int]));
                return Some(i);
            }
            i = i + 1;
        }
        None
    }
}

} // verus!
