//! The game module defines the interactions between the game world and the player.
use vstd::prelude::*;
use crate::models::item::{lemma_lookup_item_views, Item, ItemView};
use crate::models::player::Player;
use crate::models::room::{Room, RoomView};
use crate::models::world::{room_views, World, WorldView};
use crate::models::behavior::container_of;
use crate::models::item::item_views;
use crate::util::{first_index, has_key, key_index, key_is, lemma_first_index, lemma_same_keys, lookup, owned, texts};
use crate::models::behavior::{hidden, is_open_state};
use crate::models::item::room_description;
use crate::engine::action::{Action, ActionView};
use crate::engine::executor::{
    append_lines, long_or_short, next_output, next_state, ready, takes_turn, took,
    two_lines,
};
use crate::models::condition::ConditionEffect;
use crate::engine::resolver::{can_resolve, resolved};
use crate::models::condition::ConditionTrigger;
use crate::models::condition::effect::{
    blocks, copy_effects, effects_after, effects_before, effects_state, keeps_triggers,
    lemma_effects_keep_triggers, lemma_keeps_triggers_trans, ConditionResult,
};
use crate::models::condition::predicate::eval_with;
use crate::errors::{
    action_error_message, is_message_for, parse_error_message, GameErrorView, UserFriendlyError,
};
use crate::parser::{parse, parsed};

verus! {

/// The game object holds all information about the running game session.
pub struct Game {
    /// The player object.
    pub player: Player,
    /// The world the player is in.
    pub world: World,
    /// The id the of the current room
    pub current_room: i32,
    /// The amount of actions a player has made
    pub turn: u32,
    /// Whether the game has ended.
    pub game_over: bool,
}

/// The game state: inventory, world, location, turn count and whether it has ended.
pub struct GameView {
    pub inventory: Seq<i32>,
    pub world: WorldView,
    pub current_room: i32,
    pub turn: u32,
    pub game_over: bool,
}

impl View for Game {
    type V = GameView;

    open spec fn view(&self) -> GameView {
        GameView {
            inventory: self.player.inventory@,
            world: self.world@,
            current_room: self.current_room,
            turn: self.turn,
            game_over: self.game_over,
        }
    }
}

/// The item with id `id`.
pub open spec fn item_of(g: GameView, id: i32) -> ItemView {
    lookup(g.world.items, id)->0
}

/// Some item has id `id`.
pub open spec fn item_exists(g: GameView, id: i32) -> bool {
    has_key(g.world.items, id)
}

/// The room the player is in.
pub open spec fn room_here(g: GameView) -> RoomView {
    lookup(g.world.rooms, g.current_room)->0
}

/// Every id of `ids` names an item of `items`.
pub open spec fn all_items_exist(items: Seq<(i32, ItemView)>, ids: Seq<i32>) -> bool {
    forall|k: int| 0 <= k < ids.len() ==> has_key(items, #[trigger] ids[k])
}

/// The game is well formed: the player stands in a room of the world, every exit
/// leads to a room of the world, and every item id that a room, the inventory or a
/// container holds names an item of the world.
pub open spec fn well_formed(g: GameView) -> bool {
    let rooms = g.world.rooms;
    let items = g.world.items;
    &&& has_key(rooms, g.current_room)
    &&& forall|i: int, j: int|
        0 <= i < rooms.len() && 0 <= j < rooms[i].1.exits.len() ==> has_key(
            rooms,
            #[trigger] rooms[i].1.exits[j].1,
        )
    &&& forall|i: int| 0 <= i < rooms.len() ==> all_items_exist(items, #[trigger] rooms[i].1.items)
    &&& all_items_exist(items, g.inventory)
    &&& forall|i: int|
        0 <= i < items.len() ==> (crate::models::behavior::container_of(#[trigger] items[i].1.behaviors) matches Some(c)
            ==> all_items_exist(items, c))
}

/// The player's room exists, and so does every item lying in it.
pub open spec fn room_ok(g: GameView) -> bool {
    has_key(g.world.rooms, g.current_room) && all_items_exist(g.world.items, room_here(g).items)
}

/// Every item the player carries exists.
pub open spec fn held_ok(g: GameView) -> bool {
    all_items_exist(g.world.items, g.inventory)
}

/// The player's room and its items exist, and so does every item inside an open
/// container lying there: all that looking around the room reads.
pub open spec fn sight_ok(g: GameView) -> bool {
    &&& room_ok(g)
    &&& forall|k: int|
        0 <= k < room_here(g).items.len() ==> (is_open_state(item_of(g, #[trigger] room_here(g).items[k]))
            ==> (container_of(item_of(g, room_here(g).items[k]).behaviors) matches Some(cs) ==> all_items_exist(
            g.world.items,
            cs,
        )))
}

/// A well formed game holds all that resolving any command reads, so every input can
/// be played in it.
pub proof fn lemma_well_formed_local(g: GameView)
    requires
        well_formed(g),
    ensures
        room_ok(g),
        held_ok(g),
        sight_ok(g),
        forall|c: crate::parser::command::CommandView| #[trigger] can_resolve(g, c),
{
    lemma_room_items_exist(g);
    assert forall|k: int| 0 <= k < room_here(g).items.len() implies (is_open_state(
        item_of(g, #[trigger] room_here(g).items[k]),
    ) ==> (container_of(item_of(g, room_here(g).items[k]).behaviors) matches Some(cs) ==> all_items_exist(
        g.world.items,
        cs,
    ))) by {
        assert(has_key(g.world.items, room_here(g).items[k]));
        lemma_contents_exist(g, room_here(g).items[k]);
    }
}

/// Replacing the player's room keeps every room key and changes no other room.
pub proof fn lemma_set_room_here(g: GameView, r: RoomView)
    requires
        has_key(g.world.rooms, g.current_room),
    ensures
        room_here(set_room_here(g, r)) == r,
        forall|k: i32| #[trigger] has_key(set_room_here(g, r).world.rooms, k) == has_key(g.world.rooms, k),
        forall|k: i32| k != g.current_room ==> #[trigger] lookup(set_room_here(g, r).world.rooms, k) == lookup(
            g.world.rooms,
            k,
        ),
{
    let s = g.world.rooms;
    let i = key_index(s, g.current_room);
    lemma_first_index(s, key_is::<i32, RoomView>(g.current_room));
    let t = s.update(i, (g.current_room, r));
    assert forall|j: int| 0 <= j < s.len() implies #[trigger] s[j].0 == t[j].0 by {}
    lemma_same_keys(s, t);
    assert forall|k: i32| k != g.current_room implies #[trigger] lookup(t, k) == lookup(s, k) by {
        lemma_first_index(s, key_is::<i32, RoomView>(k));
        assert(key_index(t, k) == key_index(s, k));
    }
}

/// The game with the item `id` replaced by `v`.
pub open spec fn set_item(g: GameView, id: i32, v: ItemView) -> GameView {
    GameView {
        world: WorldView { items: g.world.items.update(key_index(g.world.items, id), (id, v)), ..g.world },
        ..g
    }
}

/// The game with the player's room replaced by `r`.
pub open spec fn set_room_here(g: GameView, r: RoomView) -> GameView {
    GameView {
        world: WorldView {
            rooms: g.world.rooms.update(key_index(g.world.rooms, g.current_room), (g.current_room, r)),
            ..g.world
        },
        ..g
    }
}

/// The game one turn later.
pub open spec fn tick(g: GameView) -> GameView {
    GameView { turn: (g.turn + 1) as u32, ..g }
}

/// Replacing an item keeps every key of the item table, changes that item alone and
/// leaves the rooms as they were.
pub proof fn lemma_set_item(g: GameView, id: i32, v: ItemView)
    requires
        item_exists(g, id),
    ensures
        forall|k: i32| #[trigger] has_key(set_item(g, id, v).world.items, k) == has_key(g.world.items, k),
        forall|k: i32| #[trigger] item_of(set_item(g, id, v), k) == if k == id {
            v
        } else {
            item_of(g, k)
        },
        room_here(set_item(g, id, v)) == room_here(g),
{
    let s = g.world.items;
    let i = key_index(s, id);
    lemma_first_index(s, key_is::<i32, ItemView>(id));
    let t = s.update(i, (id, v));
    assert forall|j: int| 0 <= j < s.len() implies #[trigger] s[j].0 == t[j].0 by {}
    lemma_same_keys(s, t);
    assert forall|k: i32| #[trigger] item_of(set_item(g, id, v), k) == if k == id {
        v
    } else {
        item_of(g, k)
    } by {
        lemma_first_index(s, key_is::<i32, ItemView>(k));
        assert(key_index(t, k) == key_index(s, k));
    }
}

/// Replacing an item by one whose container holds only items of the world keeps the
/// game well formed.
pub proof fn lemma_wf_set_item(g: GameView, id: i32, v: ItemView)
    requires
        well_formed(g),
        item_exists(g, id),
        container_of(v.behaviors) matches Some(cs) ==> all_items_exist(g.world.items, cs),
    ensures
        well_formed(set_item(g, id, v)),
{
    lemma_set_item(g, id, v);
    let g2 = set_item(g, id, v);
    let s = g.world.items;
    let t = g2.world.items;
    let i = key_index(s, id);
    lemma_first_index(s, key_is::<i32, ItemView>(id));
    assert(t.len() == s.len());
    assert forall|ids: Seq<i32>| all_items_exist(s, ids) implies all_items_exist(t, ids) by {
        assert forall|k: int| 0 <= k < ids.len() implies has_key(t, #[trigger] ids[k]) by {
            assert(has_key(s, ids[k]));
        }
    }
    assert forall|j: int| 0 <= j < t.len() implies (container_of(#[trigger] t[j].1.behaviors) matches Some(c)
        ==> all_items_exist(t, c)) by {
        if j == i {
        } else {
            assert(t[j] == s[j]);
            assert(container_of(s[j].1.behaviors) matches Some(c) ==> all_items_exist(s, c));
        }
    }
    let rooms = g.world.rooms;
    assert forall|j: int| 0 <= j < rooms.len() implies all_items_exist(t, #[trigger] rooms[j].1.items) by {
        assert(all_items_exist(s, rooms[j].1.items));
    }
}

/// Replacing the player's room by one whose items and exits lead into the world keeps
/// the game well formed; the other rooms stay as they were.
pub proof fn lemma_wf_set_room_here(g: GameView, r: RoomView)
    requires
        well_formed(g),
        all_items_exist(g.world.items, r.items),
        forall|j: int| 0 <= j < r.exits.len() ==> has_key(g.world.rooms, #[trigger] r.exits[j].1),
    ensures
        well_formed(set_room_here(g, r)),
        room_here(set_room_here(g, r)) == r,
        forall|k: i32| #[trigger] has_key(set_room_here(g, r).world.rooms, k) == has_key(g.world.rooms, k),
        forall|k: i32| k != g.current_room ==> #[trigger] lookup(set_room_here(g, r).world.rooms, k) == lookup(
            g.world.rooms,
            k,
        ),
{
    let s = g.world.rooms;
    let i = key_index(s, g.current_room);
    lemma_first_index(s, key_is::<i32, RoomView>(g.current_room));
    let t = s.update(i, (g.current_room, r));
    assert forall|j: int| 0 <= j < s.len() implies #[trigger] s[j].0 == t[j].0 by {}
    lemma_same_keys(s, t);
    assert forall|k: i32| k != g.current_room implies #[trigger] lookup(t, k) == lookup(s, k) by {
        lemma_first_index(s, key_is::<i32, RoomView>(k));
        assert(key_index(t, k) == key_index(s, k));
    }
    assert forall|j: int, m: int| 0 <= j < t.len() && 0 <= m < t[j].1.exits.len() implies has_key(
        t,
        #[trigger] t[j].1.exits[m].1,
    ) by {
        if j != i {
            assert(has_key(s, s[j].1.exits[m].1));
        } else {
            assert(has_key(s, r.exits[m].1));
        }
    }
    assert forall|j: int| 0 <= j < t.len() implies all_items_exist(g.world.items, #[trigger] t[j].1.items) by {
        if j != i {
            assert(all_items_exist(g.world.items, s[j].1.items));
        }
    }
}

/// The game with the item of entry `i` replaced by `v`, its key kept.
pub open spec fn set_item_at(g: GameView, i: int, v: ItemView) -> GameView {
    GameView {
        world: WorldView { items: g.world.items.update(i, (g.world.items[i].0, v)), ..g.world },
        ..g
    }
}

/// The game with the room of entry `i` replaced by `r`, its key kept.
pub open spec fn set_room_at(g: GameView, i: int, r: RoomView) -> GameView {
    GameView {
        world: WorldView { rooms: g.world.rooms.update(i, (g.world.rooms[i].0, r)), ..g.world },
        ..g
    }
}

/// Replacing the item of one entry by one whose container holds only items of the
/// world keeps the game well formed and every key of the item table.
pub proof fn lemma_wf_set_item_at(g: GameView, i: int, v: ItemView)
    requires
        well_formed(g),
        0 <= i < g.world.items.len(),
        container_of(v.behaviors) matches Some(cs) ==> all_items_exist(g.world.items, cs),
    ensures
        well_formed(set_item_at(g, i, v)),
        forall|k: i32| #[trigger] has_key(set_item_at(g, i, v).world.items, k) == has_key(g.world.items, k),
{
    let s = g.world.items;
    let t = s.update(i, (s[i].0, v));
    assert forall|j: int| 0 <= j < s.len() implies #[trigger] s[j].0 == t[j].0 by {}
    lemma_same_keys(s, t);
    assert forall|ids: Seq<i32>| all_items_exist(s, ids) implies all_items_exist(t, ids) by {
        assert forall|k: int| 0 <= k < ids.len() implies has_key(t, #[trigger] ids[k]) by {
            assert(has_key(s, ids[k]));
        }
    }
    assert forall|j: int| 0 <= j < t.len() implies (container_of(#[trigger] t[j].1.behaviors) matches Some(c)
        ==> all_items_exist(t, c)) by {
        if j != i {
            assert(t[j] == s[j]);
            assert(container_of(s[j].1.behaviors) matches Some(c) ==> all_items_exist(s, c));
        }
    }
    let rooms = g.world.rooms;
    assert forall|j: int| 0 <= j < rooms.len() implies all_items_exist(t, #[trigger] rooms[j].1.items) by {
        assert(all_items_exist(s, rooms[j].1.items));
    }
}

/// Replacing the room of one entry by one whose items and exits lead into the world
/// keeps the game well formed and every key of the room table.
pub proof fn lemma_wf_set_room_at(g: GameView, i: int, r: RoomView)
    requires
        well_formed(g),
        0 <= i < g.world.rooms.len(),
        all_items_exist(g.world.items, r.items),
        forall|j: int| 0 <= j < r.exits.len() ==> has_key(g.world.rooms, #[trigger] r.exits[j].1),
    ensures
        well_formed(set_room_at(g, i, r)),
        forall|k: i32| #[trigger] has_key(set_room_at(g, i, r).world.rooms, k) == has_key(g.world.rooms, k),
{
    let s = g.world.rooms;
    let t = s.update(i, (s[i].0, r));
    assert forall|j: int| 0 <= j < s.len() implies #[trigger] s[j].0 == t[j].0 by {}
    lemma_same_keys(s, t);
    assert forall|j: int, m: int| 0 <= j < t.len() && 0 <= m < t[j].1.exits.len() implies has_key(
        t,
        #[trigger] t[j].1.exits[m].1,
    ) by {
        if j != i {
            assert(has_key(s, s[j].1.exits[m].1));
        } else {
            assert(has_key(s, r.exits[m].1));
        }
    }
    assert forall|j: int| 0 <= j < t.len() implies all_items_exist(g.world.items, #[trigger] t[j].1.items) by {
        if j != i {
            assert(all_items_exist(g.world.items, s[j].1.items));
        }
    }
}

/// Viewing a table after replacing one entry views the new entry in its place.
pub proof fn lemma_item_views_update(s: Seq<(i32, Item)>, i: int, e: (i32, Item))
    requires
        0 <= i < s.len(),
    ensures
        item_views(s.update(i, e)) == item_views(s).update(i, (e.0, e.1@)),
{
    assert(item_views(s.update(i, e)) =~= item_views(s).update(i, (e.0, e.1@)));
}

/// Viewing a table after replacing one entry views the new entry in its place.
pub proof fn lemma_room_views_update(s: Seq<(i32, Room)>, i: int, e: (i32, Room))
    requires
        0 <= i < s.len(),
    ensures
        room_views(s.update(i, e)) == room_views(s).update(i, (e.0, e.1@)),
{
    assert(room_views(s.update(i, e)) =~= room_views(s).update(i, (e.0, e.1@)));
}

/// A game is well formed when the player stands in a room of the world, every exit
/// leads to a room, and every id that a room, the inventory or a Container behavior
/// holds names an item.
pub proof fn lemma_well_formed_intro(g: GameView)
    requires
        has_key(g.world.rooms, g.current_room),
        forall|i: int, j: int|
            0 <= i < g.world.rooms.len() && 0 <= j < g.world.rooms[i].1.exits.len() ==> has_key(
                g.world.rooms,
                #[trigger] g.world.rooms[i].1.exits[j].1,
            ),
        forall|i: int| 0 <= i < g.world.rooms.len() ==> all_items_exist(g.world.items, #[trigger] g.world.rooms[i].1.items),
        all_items_exist(g.world.items, g.inventory),
        forall|i: int, b: int|
            0 <= i < g.world.items.len() && 0 <= b < g.world.items[i].1.behaviors.len()
                && #[trigger] g.world.items[i].1.behaviors[b] is Container ==> all_items_exist(
                g.world.items,
                g.world.items[i].1.behaviors[b]->contents,
            ),
    ensures
        well_formed(g),
{
    let items = g.world.items;
    assert forall|i: int| 0 <= i < items.len() implies (container_of(#[trigger] items[i].1.behaviors) matches Some(c)
        ==> all_items_exist(items, c)) by {
        let bs = items[i].1.behaviors;
        lemma_first_index(bs, crate::models::behavior::is_container_b());
        let b = first_index(bs, crate::models::behavior::is_container_b());
        if b >= 0 {
            assert(bs[b] is Container);
        }
    }
}

/// The items lying in the player's room are items of the world.
pub proof fn lemma_room_items_exist(g: GameView)
    requires
        well_formed(g),
    ensures
        all_items_exist(g.world.items, room_here(g).items),
{
    lemma_first_index(g.world.rooms, key_is::<i32, RoomView>(g.current_room));
    let i = key_index(g.world.rooms, g.current_room);
    assert(all_items_exist(g.world.items, g.world.rooms[i].1.items));
}

/// What a container of a well formed game holds are items of the world.
pub proof fn lemma_contents_exist(g: GameView, c: i32)
    requires
        well_formed(g),
        item_exists(g, c),
    ensures
        crate::models::behavior::container_of(item_of(g, c).behaviors) matches Some(cs)
            ==> all_items_exist(g.world.items, cs),
{
    lemma_first_index(g.world.items, key_is::<i32, ItemView>(c));
    let i = key_index(g.world.items, c);
    let bs = g.world.items[i].1.behaviors;
    assert(crate::models::behavior::container_of(bs) matches Some(cs) ==> all_items_exist(g.world.items, cs));
}

/// The descriptions of the items of `ids` that are not hidden.
pub open spec fn visible_descriptions(ids: Seq<i32>, items: Seq<(i32, ItemView)>) -> Seq<Seq<char>>
    decreases ids.len(),
{
    if ids.len() == 0 {
        Seq::empty()
    } else {
        let rest = visible_descriptions(ids.drop_last(), items);
        let it = lookup(items, ids.last())->0;
        if hidden(it) {
            rest
        } else {
            rest.push(room_description(it))
        }
    }
}

/// What starting the game prints: the opening texts, the starting room's name and
/// description, its visible items and an empty line.
pub open spec fn start_output(g: GameView) -> Seq<Seq<char>> {
    let r = lookup(g.world.rooms, 0)->0;
    let opening = match g.world.initial_prints {
        Some(p) => p,
        None => Seq::empty(),
    };
    let description = match long_or_short(r) {
        Some(d) => d,
        None => "You see nothing special."@,
    };
    opening + seq![r.name, description] + visible_descriptions(r.items, g.world.items) + seq![""@]
}

/// The game once started: the opening texts are spent and the starting room is entered.
pub open spec fn start_state(g: GameView) -> GameView {
    let i = key_index(g.world.rooms, 0);
    let g1 = GameView { world: WorldView { initial_prints: None, ..g.world }, ..g };
    set_room_at(g1, i, RoomView { entered: true, ..g.world.rooms[i].1 })
}

/// `out` is what an execution outcome prints: its lines, or the error's message and an
/// empty line.
pub open spec fn printed(r: Result<Seq<Seq<char>>, GameErrorView>, out: Seq<Seq<char>>) -> bool {
    match r {
        Ok(lines) => out == lines,
        Err(e) => out.len() == 2 && is_message_for(e, out[0]) && out[1] == ""@,
    }
}

/// The triggers that apply in game state `g`: the world's global conditions, then the
/// conditions of the player's room.
pub open spec fn triggers_of(g: GameView) -> Seq<ConditionTrigger> {
    g.world.global_conditions + if has_key(g.world.rooms, g.current_room) {
        room_here(g).conditions
    } else {
        Seq::empty()
    }
}

/// The outcome of firing triggers: the game after their effects, the lines to print
/// before and after the action's own, and whether some effect blocks the action.
pub struct Fired {
    pub game: GameView,
    pub before: Seq<Seq<char>>,
    pub after: Seq<Seq<char>>,
    pub blocked: bool,
}

/// Firing the triggers `ts` in order, for the action `a`, from the game `g`: each trigger
/// whose predicate holds in the game as the triggers before it left it applies its
/// effects in order.
pub open spec fn fire(g: GameView, ts: Seq<ConditionTrigger>, a: ActionView) -> Fired
    decreases ts.len(),
{
    if ts.len() == 0 {
        Fired { game: g, before: Seq::empty(), after: Seq::empty(), blocked: false }
    } else {
        let f = fire(g, ts.drop_last(), a);
        let t = ts.last();
        if eval_with(f.game, t.predicates, a) {
            Fired {
                game: effects_state(f.game, t.effects@),
                before: f.before + effects_before(t.effects@),
                after: f.after + effects_after(t.effects@),
                blocked: f.blocked || blocks(t.effects@),
            }
        } else {
            f
        }
    }
}

/// When no trigger's predicate holds, firing the triggers leaves the game as it was,
/// prints nothing and blocks nothing.
pub proof fn lemma_fire_idle(g: GameView, ts: Seq<ConditionTrigger>, a: ActionView)
    requires
        forall|i: int| 0 <= i < ts.len() ==> !eval_with(g, (#[trigger] ts[i]).predicates, a),
    ensures
        fire(g, ts, a) == (Fired { game: g, before: Seq::empty(), after: Seq::empty(), blocked: false }),
    decreases ts.len(),
{
    if ts.len() > 0 {
        lemma_fire_idle(g, ts.drop_last(), a);
        assert(!eval_with(g, ts[ts.len() - 1].predicates, a));
    }
}

/// Once a trigger has blocked the action, it stays blocked whatever the later triggers
/// do: when the first trigger holds and one of its effects blocks, the action is blocked.
pub proof fn lemma_first_trigger_blocks(g: GameView, ts: Seq<ConditionTrigger>, a: ActionView)
    requires
        ts.len() > 0,
        eval_with(g, ts[0].predicates, a),
        blocks(ts[0].effects@),
    ensures
        fire(g, ts, a).blocked,
    decreases ts.len(),
{
    if ts.len() > 1 {
        assert(ts.drop_last()[0] == ts[0]);
        lemma_first_trigger_blocks(g, ts.drop_last(), a);
    } else {
        assert(ts.drop_last() =~= Seq::<ConditionTrigger>::empty());
        assert(fire(g, ts.drop_last(), a).game == g);
        assert(ts.last() == ts[0]);
    }
}

/// `out` starts with the lines `before` and ends with the lines `after`.
pub open spec fn framed_by(out: Seq<Seq<char>>, before: Seq<Seq<char>>, after: Seq<Seq<char>>) -> bool {
    &&& out.len() >= before.len() + after.len()
    &&& out.subrange(0, before.len() as int) == before
    &&& out.subrange(out.len() - after.len(), out.len() as int) == after
}

/// The lines of `out` between its first `before.len()` and its last `after.len()`.
pub open spec fn middle(out: Seq<Seq<char>>, before: Seq<Seq<char>>, after: Seq<Seq<char>>) -> Seq<Seq<char>> {
    out.subrange(before.len() as int, out.len() - after.len())
}

/// What playing an input prints when the triggers left the world without what the
/// action reads.
pub open spec fn unready_lines() -> Seq<Seq<char>> {
    seq!["That wasn't supposed to happen..."@, ""@]
}

/// Playing the input `input` leads from `g` to `g2` and prints `out`: an input that does
/// not parse, or names nothing that can be acted on, prints why and changes nothing.
/// Else the triggers that apply fire for the action it names; when one of them blocks
/// it, their lines are printed and the action is not executed; else the action is
/// executed in the game they left, and its lines are printed between theirs.
pub open spec fn played(g: GameView, input: Seq<char>, g2: GameView, out: Seq<Seq<char>>) -> bool {
    match parsed(input) {
        Err(e) => g2 == g && out == seq![parse_error_message(e), ""@],
        Ok(c) => match resolved(g, c) {
            Err(e) => g2 == g && out == seq![action_error_message(e), ""@],
            Ok(a) => {
                let f = fire(g, triggers_of(g), a);
                if f.blocked {
                    g2 == f.game && out == f.before + f.after + seq![""@]
                } else {
                    &&& framed_by(out, f.before, f.after)
                    &&& if !ready(f.game, a) {
                        g2 == f.game && middle(out, f.before, f.after) == unready_lines()
                    } else {
                        match a {
                            ActionView::Get { items } => took(f.game, items, g2, Ok(middle(out, f.before, f.after))),
                            _ => g2 == next_state(f.game, a) && printed(next_output(f.game, a), middle(out, f.before, f.after)),
                        }
                    }
                }
            },
        },
    }
}

/// Playing the input `input` takes a turn: it names an action that no trigger blocks,
/// that can be executed once the triggers have fired, and that counts as a turn.
pub open spec fn input_takes_turn(g: GameView, input: Seq<char>) -> bool {
    &&& parsed(input) matches Ok(c)
    &&& resolved(g, c) matches Ok(a)
    &&& !fire(g, triggers_of(g), a).blocked
    &&& ready(fire(g, triggers_of(g), a).game, a)
    &&& takes_turn(fire(g, triggers_of(g), a).game, a)
}

/// Viewing a table after replacing any entry at `i` views the new entry in its place.
pub proof fn lemma_room_views_update_any(s: Seq<(i32, Room)>, i: int)
    requires
        0 <= i < s.len(),
    ensures
        forall|e: (i32, Room)| #[trigger] room_views(s.update(i, e)) == room_views(s).update(i, (e.0, e.1@)),
{
    assert forall|e: (i32, Room)| #[trigger] room_views(s.update(i, e)) == room_views(s).update(i, (e.0, e.1@)) by {
        lemma_room_views_update(s, i, e);
    }
}

/// Looking an id up in the viewed rooms gives the view of the room looked up.
pub proof fn lemma_lookup_room_views(s: Seq<(i32, Room)>, id: i32)
    ensures
        lookup(room_views(s), id) == match lookup(s, id) {
            Some(r) => Some(r@),
            None => None::<RoomView>,
        },
        key_index(room_views(s), id) == key_index(s, id),
{
    lemma_first_index(s, key_is::<i32, Room>(id));
    lemma_first_index(room_views(s), key_is::<i32, RoomView>(id));
    let a = key_index(s, id);
    let b = key_index(room_views(s), id);
    if a >= 0 {
        assert(key_is::<i32, RoomView>(id)(room_views(s)[a]));
    }
    if b >= 0 {
        assert(key_is::<i32, Room>(id)(s[b]));
    }
}

impl Game {
    /// Creates a new game.
    ///
    /// Creation fails if the world does not contain a room with id 0
    pub fn new(player: Player, world: World) -> (r: Option<Self>)
        ensures
            r is Some <==> has_key(world@.rooms, 0),
            r matches Some(g) ==> g@ == (GameView {
                inventory: player.inventory@,
                world: world@,
                current_room: 0,
                turn: 0,
                game_over: false,
            }),
    {
        proof {
            lemma_lookup_room_views(world.rooms@, 0);
        }
        if !world.rooms.contains_key(&0) {
            return None;
        }
        Some(Game { player, world, current_room: 0, turn: 0, game_over: false })
    }

    /// Gets reference to the current room
    pub fn get_current_room(&self) -> (r: &Room)
        requires
            has_key(self@.world.rooms, self.current_room),
        ensures
            r@ == room_here(self@),
    {
        proof {
            lemma_lookup_room_views(self.world.rooms@, self.current_room);
        }
        self.world.rooms.get(&self.current_room).unwrap()
    }

    /// The item with id `id`.
    pub(crate) fn item_by_id(&self, id: i32) -> (r: &Item)
        requires
            item_exists(self@, id),
        ensures
            r@ == item_of(self@, id),
    {
        proof {
            lemma_lookup_item_views(self.world.items@, id);
        }
        self.world.items.get(&id).unwrap()
    }

    /// Position of the item `id` among the world's items.
    pub(crate) fn item_index(&self, id: i32) -> (r: usize)
        requires
            item_exists(self@, id),
        ensures
            r as int == key_index(self@.world.items, id),
            r < self.world.items@.len(),
            self.world.items@[r as int].0 == id,
            self.world.items@[r as int].1@ == item_of(self@, id),
    {
        proof {
            lemma_lookup_item_views(self.world.items@, id);
        }
        self.world.items.index_of(id).unwrap()
    }

    /// Whether the starting room exists and every item lying in it exists.
    pub fn can_start(&self) -> (b: bool)
        ensures
            b == (has_key(self@.world.rooms, 0) && all_items_exist(
                self@.world.items,
                (lookup(self@.world.rooms, 0)->0).items,
            )),
    {
        proof {
            lemma_lookup_room_views(self.world.rooms@, 0);
        }
        match self.world.rooms.get(&0) {
            Some(room) => self.all_exist(&room.items),
            None => false,
        }
    }

    /// Starts the game, returning any text that should be printed before user input
    pub fn start(&mut self) -> (r: Vec<String>)
        requires
            has_key(old(self)@.world.rooms, 0),
            all_items_exist(old(self)@.world.items, (lookup(old(self)@.world.rooms, 0)->0).items),
        ensures
            texts(r@) == start_output(old(self)@),
            final(self)@ == start_state(old(self)@),
            well_formed(old(self)@) ==> well_formed(final(self)@),
    {
        let ghost g = self@;
        let mut prints = match self.world.initial_prints.take() {
            Some(p) => p,
            None => Vec::new(),
        };
        let ghost g1 = self@;
        assert(texts(prints@) =~= match g.world.initial_prints {
            Some(p) => p,
            None => Seq::<Seq<char>>::empty(),
        });
        proof {
            lemma_lookup_room_views(self.world.rooms@, 0);
            lemma_first_index(g.world.rooms, key_is::<i32, RoomView>(0));
        }
        // Add room description (long desc on first visit, fallback to short desc)
        let ri = self.world.rooms.index_of(0).unwrap();
        let room = &self.world.rooms.entries[ri].1;
        let ghost rv = g.world.rooms[ri as int].1;
        assert(room@ == rv);
        prints.push(room.name.clone());
        // Use long_desc if available, otherwise fallback to desc
        let description = if let Some(d) = &room.long_desc {
            d.clone()
        } else if let Some(d) = &room.desc {
            d.clone()
        } else {
            owned("You see nothing special.")
        };
        prints.push(description);
        // List visible items in starting room
        let ghost head = texts(prints@);
        assert(all_items_exist(g.world.items, rv.items));
        let mut k: usize = 0;
        assert(rv.items.take(0) =~= Seq::<i32>::empty());
        while k < room.items.len()
            invariant
                g1.world.items == g.world.items,
                self@ == g1,
                room@ == rv,
                all_items_exist(g.world.items, rv.items),
                k <= rv.items.len(),
                texts(prints@) == head + visible_descriptions(rv.items.take(k as int), g.world.items),
            decreases rv.items.len() - k,
        {
            let id = room.items[k];
            assert(has_key(g.world.items, rv.items[k as int]));
            let item = self.item_by_id(id);
            assert(rv.items.take(k + 1).drop_last() =~= rv.items.take(k as int));
            assert(rv.items.take(k + 1).last() == id);
            let ghost before = texts(prints@);
            if !item.is_hidden() {
                prints.push(item.get_room_description());
                assert(texts(prints@) =~= before.push(room_description(item@)));
            }
            k = k + 1;
        }
        assert(rv.items.take(k as int) =~= rv.items);
        proof {
            if well_formed(g) {
                assert(well_formed(g1));
                assert forall|j: int| 0 <= j < rv.exits.len() implies has_key(g1.world.rooms, #[trigger] rv.exits[j].1) by {
                    assert(has_key(g1.world.rooms, g1.world.rooms[ri as int].1.exits[j].1));
                }
                lemma_wf_set_room_at(g1, ri as int, RoomView { entered: true, ..rv });
            }
        }
        // Mark starting room as entered
        let ghost before_rooms = self.world.rooms@;
        self.world.rooms.entries[ri].1.entered = true;
        proof {
            lemma_room_views_update(before_rooms, ri as int, self.world.rooms@[ri as int]);
        }
        let ghost before = texts(prints@);
        prints.push(owned(""));  // Empty line
        assert(texts(prints@) =~= before.push(""@));
        assert(texts(prints@) =~= start_output(g));
        prints
    }

    /// Applies the effects `effects`, adding their lines to `before` and `after` and
    /// whether they block to `blocked`.
    fn apply_effects(
        &mut self,
        effects: &Vec<ConditionEffect>,
        before: &mut Vec<String>,
        after: &mut Vec<String>,
        blocked: &mut bool,
    )
        ensures
            final(self)@ == effects_state(old(self)@, effects@),
            texts(final(before)@) == texts(old(before)@) + effects_before(effects@),
            texts(final(after)@) == texts(old(after)@) + effects_after(effects@),
            *final(blocked) == (*old(blocked) || blocks(effects@)),
            keeps_triggers(old(self)@, final(self)@),
            well_formed(old(self)@) ==> well_formed(final(self)@),
    {
        let ghost g0 = self@;
        let res = self.execute_effect(effects.as_slice());
        proof {
            lemma_effects_keep_triggers(g0, effects@);
        }
        append_lines(before, res.output_before);
        append_lines(after, res.output);
        *blocked = *blocked || res.blocked;
    }

    /// Fires the triggers that apply for `action`: the world's global conditions, then
    /// those of the player's room; each whose predicate holds applies its effects.
    fn fire_triggers(&mut self, action: &Action) -> (r: ConditionResult)
        ensures
            final(self)@ == fire(old(self)@, triggers_of(old(self)@), action@).game,
            texts(r.output_before@) == fire(old(self)@, triggers_of(old(self)@), action@).before,
            texts(r.output@) == fire(old(self)@, triggers_of(old(self)@), action@).after,
            r.blocked == fire(old(self)@, triggers_of(old(self)@), action@).blocked,
            keeps_triggers(old(self)@, final(self)@),
            well_formed(old(self)@) ==> well_formed(final(self)@),
    {
        let ghost g = self@;
        let ghost ts = triggers_of(g);
        let ghost a = action@;
        let start_room = self.current_room;
        let mut before: Vec<String> = Vec::new();
        let mut after: Vec<String> = Vec::new();
        let mut blocked = false;
        let n = self.world.global_conditions.len();
        let mut i: usize = 0;
        assert(texts(before@) =~= Seq::<Seq<char>>::empty());
        assert(texts(after@) =~= Seq::<Seq<char>>::empty());
        assert(ts.take(0) =~= Seq::<ConditionTrigger>::empty());
        while i < n
            invariant
                n == g.world.global_conditions.len(),
                i <= n,
                start_room == g.current_room,
                ts == triggers_of(g),
                a == action@,
                keeps_triggers(g, self@),
                well_formed(g) ==> well_formed(self@),
                self@ == fire(g, ts.take(i as int), a).game,
                texts(before@) == fire(g, ts.take(i as int), a).before,
                texts(after@) == fire(g, ts.take(i as int), a).after,
                blocked == fire(g, ts.take(i as int), a).blocked,
            decreases n - i,
        {
            assert(ts[i as int] == self.world.global_conditions@[i as int]);
            assert(ts.take(i + 1).drop_last() =~= ts.take(i as int));
            assert(ts.take(i + 1).last() == ts[i as int]);
            let holds = self.evaluate_predicate_with_action(&self.world.global_conditions[i].predicates, action);
            if holds {
                let effects = copy_effects(&self.world.global_conditions[i].effects);
                let ghost s0 = self@;
                self.apply_effects(&effects, &mut before, &mut after, &mut blocked);
                proof {
                    lemma_keeps_triggers_trans(g, s0, self@);
                }
            }
            i = i + 1;
        }
        assert(ts.take(n as int) =~= g.world.global_conditions);
        proof {
            lemma_same_keys(g.world.rooms, self@.world.rooms);
            lemma_lookup_room_views(self.world.rooms@, start_room);
            lemma_first_index(g.world.rooms, key_is::<i32, RoomView>(start_room));
        }
        match self.world.rooms.index_of(start_room) {
            None => {
                assert(ts =~= g.world.global_conditions);
            },
            Some(ri) => {
                let ghost rc = g.world.rooms[ri as int].1.conditions;
                assert(room_here(g).conditions == rc);
                assert(ts =~= g.world.global_conditions + rc);
                let m = self.world.rooms.entries[ri].1.conditions.len();
                let mut j: usize = 0;
                while j < m
                    invariant
                        n == g.world.global_conditions.len(),
                        m == rc.len(),
                        ri < g.world.rooms.len(),
                        rc == g.world.rooms[ri as int].1.conditions,
                        ts == g.world.global_conditions + rc,
                        j <= m,
                        a == action@,
                        keeps_triggers(g, self@),
                        well_formed(g) ==> well_formed(self@),
                        self@ == fire(g, ts.take(n + j), a).game,
                        texts(before@) == fire(g, ts.take(n + j), a).before,
                        texts(after@) == fire(g, ts.take(n + j), a).after,
                        blocked == fire(g, ts.take(n + j), a).blocked,
                    decreases m - j,
                {
                    assert(self@.world.rooms[ri as int].1.conditions == rc);
                    assert(ts[n + j] == self.world.rooms.entries@[ri as int].1.conditions@[j as int]);
                    assert(ts.take(n + j + 1).drop_last() =~= ts.take(n + j));
                    assert(ts.take(n + j + 1).last() == ts[n + j]);
                    let holds = self.evaluate_predicate_with_action(
                        &self.world.rooms.entries[ri].1.conditions[j].predicates,
                        action,
                    );
                    if holds {
                        let effects = copy_effects(&self.world.rooms.entries[ri].1.conditions[j].effects);
                        let ghost s0 = self@;
                        self.apply_effects(&effects, &mut before, &mut after, &mut blocked);
                        proof {
                            lemma_keeps_triggers_trans(g, s0, self@);
                        }
                    }
                    j = j + 1;
                }
                assert(ts.take(n + j) =~= ts);
            },
        }
        ConditionResult { output: after, output_before: before, blocked }
    }

    /// Executes a string command and returns output messages
    ///
    /// The triggers that apply, the world's global conditions and then those of the
    /// player's room, fire before the action; an effect that blocks the action keeps it
    /// from being executed. The lines the effects print before the action's come first,
    /// then the action's own, then the rest of theirs.
    pub fn execute_str(&mut self, input: &str) -> (out: Vec<String>)
        requires
            parsed(input@) matches Ok(c) ==> can_resolve(old(self)@, c),
            input_takes_turn(old(self)@, input@) ==> old(self).turn < u32::MAX,
        ensures
            played(old(self)@, input@, final(self)@, texts(out@)),
            well_formed(old(self)@) ==> well_formed(final(self)@),
    {
        // Parse input into Command
        let command = match parse(input) {
            Ok(cmd) => cmd,
            Err(e) => return two_lines(e.get_user_error()),
        };
        // Resolve Command into Action
        let action = match self.resolve_command(command) {
            Ok(act) => act,
            Err(e) => return two_lines(e.get_user_error()),
        };
        let ghost g = self@;
        let ghost a = action@;
        // Fire the conditions that apply
        let fired = self.fire_triggers(&action);
        let ghost f = fire(g, triggers_of(g), a);
        let mut out = fired.output_before;
        if fired.blocked {
            append_lines(&mut out, fired.output);
            let ghost before = texts(out@);
            assert(before == f.before + f.after);
            out.push(owned(""));
            assert(texts(out@) =~= before.push(""@));
            assert(texts(out@) =~= f.before + f.after + seq![""@]);
            assert(self@ == f.game);
            assert(f.blocked);
            return out;
        }
        let ghost b = texts(out@);
        let ghost af = texts(fired.output@);
        let lines = if !self.is_ready(&action) {
            let r = two_lines(owned("That wasn't supposed to happen..."));
            r
        } else {
            // Execute Action
            match self.execute_action(action) {
                Ok(output) => output,
                Err(e) => {
                    let r = two_lines(e.get_user_error());
                    assert(!(a is Get));
                    r
                },
            }
        };
        let ghost mid = texts(lines@);
        append_lines(&mut out, lines);
        append_lines(&mut out, fired.output);
        proof {
            let o = texts(out@);
            assert(o =~= b + mid + af);
            assert(o.subrange(0, b.len() as int) =~= b);
            assert(o.subrange(o.len() - af.len(), o.len() as int) =~= af);
            assert(o.subrange(b.len() as int, o.len() - af.len()) =~= mid);
        }
        out
    }

    /// Plays the input `input` when the world holds all that resolving it reads and the
    /// turn counter can still count another turn; otherwise gives `None` and changes
    /// nothing.
    pub fn play(&mut self, input: &str) -> (r: Option<Vec<String>>)
        ensures
            r is None <==> (!(parsed(input@) matches Ok(c) ==> can_resolve(old(self)@, c))
                || old(self).turn == u32::MAX),
            r is None ==> final(self)@ == old(self)@,
            r matches Some(out) ==> played(old(self)@, input@, final(self)@, texts(out@)),
            well_formed(old(self)@) ==> well_formed(final(self)@),
    {
        if !self.can_resolve_input(input) || self.turn == u32::MAX {
            return None;
        }
        Some(self.execute_str(input))
    }

    /// Gets a mutable reference to the current room
    pub fn get_current_room_mut(&mut self) -> (r: &mut Room)
        requires
            has_key(old(self)@.world.rooms, old(self).current_room),
        ensures
            (*r)@ == room_here(old(self)@),
            final(self)@ == set_room_here(old(self)@, (*final(r))@),
    {
        let i = self.current_room_index();
        proof {
            lemma_room_views_update_any(self.world.rooms@, i as int);
        }
        &mut self.world.rooms.entries[i].1
    }

    /// Whether the game is well formed: the player stands in a room of the world, every
    /// exit leads to a room, and every item id that a room, the inventory or a
    /// container holds names an item.
    pub fn is_well_formed(&self) -> (b: bool)
        ensures
            b == well_formed(self@),
    {
        let ghost g = self@;
        let ghost rooms = g.world.rooms;
        let ghost items = g.world.items;
        proof {
            lemma_lookup_room_views(self.world.rooms@, self.current_room);
        }
        if !self.world.rooms.contains_key(&self.current_room) {
            return false;
        }
        let mut i: usize = 0;
        while i < self.world.rooms.entries.len()
            invariant
                g == self@,
                rooms == g.world.rooms,
                items == g.world.items,
                rooms.len() == self.world.rooms.entries@.len(),
                i <= rooms.len(),
                forall|a: int, b: int|
                    0 <= a < i && 0 <= b < rooms[a].1.exits.len() ==> has_key(rooms, #[trigger] rooms[a].1.exits[b].1),
                forall|a: int| 0 <= a < i ==> all_items_exist(items, #[trigger] rooms[a].1.items),
            decreases rooms.len() - i,
        {
            let room = &self.world.rooms.entries[i].1;
            assert(rooms[i as int].1 == room@);
            let mut j: usize = 0;
            while j < room.exits.entries.len()
                invariant
                    g == self@,
                    rooms == g.world.rooms,
                    i < rooms.len(),
                    rooms[i as int].1 == room@,
                    j <= room@.exits.len(),
                    forall|b: int| 0 <= b < j ==> has_key(rooms, #[trigger] room@.exits[b].1),
                decreases room@.exits.len() - j,
            {
                let to = room.exits.entries[j].1;
                proof {
                    lemma_lookup_room_views(self.world.rooms@, to);
                }
                if !self.world.rooms.contains_key(&to) {
                    assert(!has_key(rooms, rooms[i as int].1.exits[j as int].1));
                    return false;
                }
                j = j + 1;
            }
            if !self.all_exist(&room.items) {
                assert(!all_items_exist(items, rooms[i as int].1.items));
                return false;
            }
            i = i + 1;
        }
        if !self.all_exist(&self.player.inventory) {
            return false;
        }
        let mut k: usize = 0;
        while k < self.world.items.entries.len()
            invariant
                g == self@,
                items == g.world.items,
                items.len() == self.world.items.entries@.len(),
                k <= items.len(),
                forall|a: int| 0 <= a < k ==> (container_of(#[trigger] items[a].1.behaviors) matches Some(c)
                    ==> all_items_exist(items, c)),
            decreases items.len() - k,
        {
            assert(items[k as int].1 == self.world.items.entries@[k as int].1@);
            match self.world.items.entries[k].1.get_container() {
                Some(contents) => {
                    if !self.all_exist(contents) {
                        return false;
                    }
                },
                None => {},
            }
            k = k + 1;
        }
        true
    }

    /// Whether every id of `ids` names an item of the world.
    pub(crate) fn all_exist(&self, ids: &Vec<i32>) -> (b: bool)
        ensures
            b == all_items_exist(self@.world.items, ids@),
    {
        let mut i: usize = 0;
        while i < ids.len()
            invariant
                i <= ids@.len(),
                forall|k: int| 0 <= k < i ==> has_key(self@.world.items, #[trigger] ids@[k]),
            decreases ids@.len() - i,
        {
            let id = ids[i];
            proof {
                lemma_lookup_item_views(self.world.items@, id);
            }
            if !self.world.items.contains_key(&id) {
                assert(!has_key(self@.world.items, ids@[i as int]));
                return false;
            }
            i = i + 1;
        }
        true
    }

    /// Position of the current room among the world's rooms.
    pub(crate) fn current_room_index(&self) -> (r: usize)
        requires
            has_key(self@.world.rooms, self.current_room),
        ensures
            r as int == key_index(self@.world.rooms, self.current_room),
            r < self.world.rooms@.len(),
            self.world.rooms@[r as int].0 == self.current_room,
            self.world.rooms@[r as int].1@ == room_here(self@),
    {
        proof {
            lemma_lookup_room_views(self.world.rooms@, self.current_room);
        }
        self.world.rooms.index_of(self.current_room).unwrap()
    }
}

} // verus!
