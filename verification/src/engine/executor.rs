//! Action execution makes actions actually modify game state.
use vstd::prelude::*;
use crate::engine::action::{Action, ActionView};
use crate::engine::game::{
    all_items_exist, item_exists, item_of, lemma_contents_exist, lemma_item_views_update,
    lemma_room_items_exist, lemma_room_views_update, lemma_set_item, lemma_wf_set_item,
    lemma_set_room_here, lemma_wf_set_room_here, room_here, room_ok, set_item, set_room_here, tick,
    well_formed, Game, GameView,
};
use crate::errors::{cant_do_that, is_refusal, ActionError, ActionErrorView, GameError, GameErrorView};
use crate::models::behavior::{
    container_of, full, has_container, hidden, holdable, is_open_state, key_of, locked, openable,
    readable_text, with_contents, with_locked, with_moved, with_open,
};
use crate::models::item::{canonical_name, container_lines, room_description, ItemView};
use crate::models::room::RoomView;
use crate::models::world::Direction;
use crate::util::{
    capitalize, capitalized, cat, cat3, contains_id, first_index, has_key, key_index, key_is,
    lemma_first_index, lemma_remove_all_subset, lemma_remove_first_subset, lookup, owned,
    position_of, remove_all, remove_all_id, remove_first, remove_first_id, texts,
};

verus! {

// ---------------------------------------------------------------------------
// What executing an action prints and does
// ---------------------------------------------------------------------------
/// The text as a line, when there is one.
pub open spec fn opt_line(o: Option<Seq<char>>) -> Seq<Seq<char>> {
    match o {
        Some(t) => seq![t],
        None => Seq::empty(),
    }
}

/// The long description of a room, else its short one.
pub open spec fn long_or_short(r: RoomView) -> Option<Seq<char>> {
    if r.long_desc is Some {
        r.long_desc
    } else {
        r.desc
    }
}

/// The lines that list the items `ids` lying in a room: each item that is not hidden
/// is described, followed by the contents of an open container.
pub open spec fn listing(ids: Seq<i32>, items: Seq<(i32, ItemView)>) -> Seq<Seq<char>>
    decreases ids.len(),
{
    if ids.len() == 0 {
        Seq::empty()
    } else {
        let rest = listing(ids.drop_last(), items);
        let it = lookup(items, ids.last())->0;
        if hidden(it) {
            rest
        } else {
            rest.push(room_description(it)) + if has_container(it) && is_open_state(it) {
                container_lines(it, items)
            } else {
                Seq::empty()
            }
        }
    }
}

/// The room that direction `dir` leads to from the player's room.
pub open spec fn move_target(g: GameView, dir: Direction) -> i32 {
    lookup(room_here(g).exits, dir)->0
}

/// The game once the player has walked through the exit `dir`, one turn later.
pub open spec fn arrived(g: GameView, dir: Direction) -> GameView {
    tick(GameView { current_room: move_target(g, dir), ..g })
}

/// The game after a move: the player stands in the new room, which is marked entered.
pub open spec fn moved_state(g: GameView, dir: Direction) -> GameView {
    let g1 = arrived(g, dir);
    let r = room_here(g1);
    if r.entered {
        g1
    } else {
        set_room_here(g1, RoomView { entered: true, ..r })
    }
}

/// What a move prints: the new room's name; on a first visit its long description and
/// its items, else its short description.
pub open spec fn move_output(g: GameView, dir: Direction) -> Seq<Seq<char>> {
    let r = room_here(arrived(g, dir));
    seq![r.name] + (if r.entered {
        opt_line(r.desc)
    } else {
        opt_line(long_or_short(r)) + listing(r.items, g.world.items)
    }) + seq![""@]
}

/// The container `c` holds the item `id`.
pub open spec fn holds(g: GameView, id: i32) -> spec_fn(i32) -> bool {
    |c: i32| container_of(item_of(g, c).behaviors) matches Some(cs) && cs.contains(id)
}

/// Position, among the items of the player's room, of the first container holding `id`.
pub open spec fn holder_index(g: GameView, id: i32) -> int {
    first_index(room_here(g).items, holds(g, id))
}

/// The game after the player receives the item `id`: it is marked moved and carried.
pub open spec fn received(g: GameView, id: i32) -> GameView {
    let g1 = set_item(g, id, with_moved(item_of(g, id)));
    GameView { inventory: g1.inventory.push(id), ..g1 }
}

/// The game after trying to take the item `id`: a holdable item leaves the room, or
/// else the first container in the room that holds it, for the inventory.
pub open spec fn take_step(g: GameView, id: i32) -> GameView {
    let it = item_of(g, id);
    let r = room_here(g);
    if !holdable(it) {
        g
    } else if r.items.contains(id) {
        received(set_room_here(g, RoomView { items: remove_first(r.items, id), ..r }), id)
    } else if holder_index(g, id) >= 0 {
        let c = r.items[holder_index(g, id)];
        let cv = item_of(g, c);
        received(set_item(g, c, with_contents(cv, remove_first(container_of(cv.behaviors)->0, id))), id)
    } else {
        g
    }
}

/// The game after trying to take each of `ids` in turn.
pub open spec fn taken_all(g: GameView, ids: Seq<i32>) -> GameView
    decreases ids.len(),
{
    if ids.len() == 0 {
        g
    } else {
        take_step(taken_all(g, ids.drop_last()), ids.last())
    }
}

#[verifier::opaque]
/// `line` is what trying to take the item `id` prints: a refusal for an item that
/// cannot be held, else whether it was taken; when several items are taken, each
/// line starts with the item's name.
pub open spec fn take_message(g: GameView, id: i32, single: bool, line: Seq<char>) -> bool {
    let it = item_of(g, id);
    if !holdable(it) {
        if single {
            is_refusal(line)
        } else {
            exists|p: Seq<char>| #[trigger] is_refusal(p) && line == it.name + ": "@ + p
        }
    } else if room_here(g).items.contains(id) || holder_index(g, id) >= 0 {
        line == if single {
            "You grab the "@ + it.name + "."@
        } else {
            it.name + ": taken."@
        }
    } else {
        line == if single {
            "You can't find the "@ + it.name + "."@
        } else {
            it.name + ": can't find it."@
        }
    }
}

/// Taking the items `ids` leads from `g` to `g2` and prints `out`.
pub open spec fn took(g: GameView, ids: Seq<i32>, g2: GameView, out: Result<Seq<Seq<char>>, GameErrorView>) -> bool {
    &&& g2 == tick(taken_all(g, ids))
    &&& out matches Ok(lines)
    &&& lines.len() == ids.len() + 1
    &&& lines[ids.len() as int] == ""@
    &&& forall|k: int|
        0 <= k < ids.len() ==> take_message(taken_all(g, ids.take(k)), #[trigger] ids[k], ids.len() == 1, lines[k])
}

/// The game after dropping the item `id`: it leaves the inventory, is marked moved and
/// lies in the player's room.
pub open spec fn drop_step(g: GameView, id: i32) -> GameView {
    let g1 = GameView { inventory: remove_all(g.inventory, id), ..g };
    let g2 = set_item(g1, id, with_moved(item_of(g1, id)));
    let r = room_here(g2);
    set_room_here(g2, RoomView { items: r.items.push(id), ..r })
}

/// The game after dropping each of `ids` in turn.
pub open spec fn dropped_all(g: GameView, ids: Seq<i32>) -> GameView
    decreases ids.len(),
{
    if ids.len() == 0 {
        g
    } else {
        drop_step(dropped_all(g, ids.drop_last()), ids.last())
    }
}

/// One line for each dropped item.
pub open spec fn drop_output(g: GameView, ids: Seq<i32>) -> Seq<Seq<char>>
    decreases ids.len(),
{
    if ids.len() == 0 {
        Seq::empty()
    } else {
        drop_output(g, ids.drop_last()).push(
            "Dropped: "@ + item_of(dropped_all(g, ids.drop_last()), ids.last()).name,
        )
    }
}

/// The item `i` can be put into the item `c`: both exist, and `c` is a container that
/// is neither closed nor full.
pub open spec fn put_ok(g: GameView, i: i32, c: i32) -> bool {
    &&& item_exists(g, i)
    &&& item_exists(g, c)
    &&& has_container(item_of(g, c))
    &&& !(openable(item_of(g, c)) && !is_open_state(item_of(g, c)))
    &&& !full(item_of(g, c))
}

/// The game after putting the item `i` into the container `c`.
pub open spec fn put_state(g: GameView, i: i32, c: i32) -> GameView {
    if put_ok(g, i, c) {
        let g1 = GameView { inventory: remove_all(g.inventory, i), ..g };
        let cv = item_of(g1, c);
        let g2 = set_item(g1, c, with_contents(cv, container_of(cv.behaviors)->0.push(i)));
        tick(set_item(g2, i, with_moved(item_of(g2, i))))
    } else {
        g
    }
}

/// What putting the item `i` into `c` prints.
pub open spec fn put_output(g: GameView, i: i32, c: i32) -> Result<Seq<Seq<char>>, GameErrorView> {
    if !item_exists(g, i) || !item_exists(g, c) {
        Err(GameErrorView::Unknown)
    } else {
        let cv = item_of(g, c);
        if !has_container(cv) {
            Ok(seq!["You can't put things in the "@ + cv.name + "."@, ""@])
        } else if openable(cv) && !is_open_state(cv) {
            Ok(seq!["The "@ + cv.name + " is closed."@, ""@])
        } else if full(cv) {
            Ok(seq!["The "@ + cv.name + " is full."@, ""@])
        } else {
            Ok(seq!["You put the "@ + item_of(g, i).name + " in the "@ + cv.name + "."@, ""@])
        }
    }
}

/// What looking prints: the room with its description and items, or an item's "look"
/// text, else its readable text, else its canonical name.
pub open spec fn look_output(g: GameView, target: Option<i32>) -> Seq<Seq<char>> {
    match target {
        None => {
            let r = room_here(g);
            seq![r.name] + opt_line(long_or_short(r)) + listing(r.items, g.world.items) + seq![""@]
        },
        Some(id) => {
            let it = item_of(g, id);
            seq![
                match lookup(it.print, "look"@) {
                    Some(t) => t,
                    None => match readable_text(it) {
                        Some(t) => t,
                        None => "It's "@ + canonical_name(it) + "."@,
                    },
                },
                ""@,
            ]
        },
    }
}

/// What reading an item prints.
pub open spec fn read_output(g: GameView, target: i32) -> Seq<Seq<char>> {
    match readable_text(item_of(g, target)) {
        Some(t) => seq![t, ""@],
        None => seq!["You cannot read that..."@, ""@],
    }
}

/// The item `t` exists, can be opened, is not locked and is closed.
pub open spec fn opens(g: GameView, t: i32) -> bool {
    item_exists(g, t) && openable(item_of(g, t)) && !locked(item_of(g, t)) && !is_open_state(item_of(g, t))
}

/// The game after trying to open the item `t`.
pub open spec fn open_state(g: GameView, t: i32) -> GameView {
    if opens(g, t) {
        tick(set_item(g, t, with_open(item_of(g, t), true)))
    } else {
        g
    }
}

/// What trying to open the item `t` prints; an opened container shows its contents.
pub open spec fn open_output(g: GameView, t: i32) -> Result<Seq<Seq<char>>, GameErrorView> {
    if !item_exists(g, t) {
        Err(GameErrorView::Unknown)
    } else {
        let it = item_of(g, t);
        if !openable(it) {
            Ok(seq!["You can't open the "@ + it.name + "."@, ""@])
        } else if locked(it) {
            Ok(seq!["The "@ + it.name + " is locked."@, ""@])
        } else if is_open_state(it) {
            Ok(seq!["The "@ + it.name + " is already open."@, ""@])
        } else {
            let g1 = set_item(g, t, with_open(it, true));
            Ok(seq!["You open the "@ + it.name + "."@] + container_lines(item_of(g1, t), g1.world.items)
                + seq![""@])
        }
    }
}

/// The item `t` exists, can be opened and is open.
pub open spec fn closes(g: GameView, t: i32) -> bool {
    item_exists(g, t) && openable(item_of(g, t)) && is_open_state(item_of(g, t))
}

/// The game after trying to close the item `t`.
pub open spec fn close_state(g: GameView, t: i32) -> GameView {
    if closes(g, t) {
        tick(set_item(g, t, with_open(item_of(g, t), false)))
    } else {
        g
    }
}

/// What trying to close the item `t` prints.
pub open spec fn close_output(g: GameView, t: i32) -> Result<Seq<Seq<char>>, GameErrorView> {
    if !item_exists(g, t) {
        Err(GameErrorView::Unknown)
    } else {
        let it = item_of(g, t);
        if !openable(it) {
            Ok(seq!["You can't close the "@ + it.name + "."@, ""@])
        } else if !is_open_state(it) {
            Ok(seq!["The "@ + it.name + " is already closed."@, ""@])
        } else {
            Ok(seq!["You close the "@ + it.name + "."@, ""@])
        }
    }
}

/// The item `v` asks for a key other than `k`.
pub open spec fn wrong_key(v: ItemView, k: i32) -> bool {
    match key_of(v) {
        Some(required) => required != k,
        None => false,
    }
}

/// The item `t` is locked and `k` is a key that fits it.
pub open spec fn unlocks(g: GameView, t: i32, k: i32) -> bool {
    locked(item_of(g, t)) && !wrong_key(item_of(g, t), k)
}

/// The game after trying to unlock `t` with `k`.
pub open spec fn unlock_state(g: GameView, t: i32, k: i32) -> GameView {
    if unlocks(g, t, k) {
        set_item(g, t, with_locked(item_of(g, t), false))
    } else {
        g
    }
}

/// What trying to unlock `t` with `k` prints, or the error it ends in.
pub open spec fn unlock_output(g: GameView, t: i32, k: i32) -> Result<Seq<Seq<char>>, GameErrorView> {
    let tv = item_of(g, t);
    let kv = item_of(g, k);
    if !locked(tv) {
        Err(
            GameErrorView::Action(
                ActionErrorView::InvalidCommand(capitalized(canonical_name(tv)) + " is not locked."@),
            ),
        )
    } else if wrong_key(tv, k) {
        Err(
            GameErrorView::Action(
                ActionErrorView::InvalidCommand(capitalized(canonical_name(kv)) + " doesn't seem to work."@),
            ),
        )
    } else {
        Ok(seq!["You unlock "@ + canonical_name(tv) + " with "@ + canonical_name(kv) + "."@, ""@])
    }
}

/// The game after any action but "get".
pub open spec fn next_state(g: GameView, a: ActionView) -> GameView {
    match a {
        ActionView::Move { dir } => moved_state(g, dir),
        ActionView::Drop { items } => tick(dropped_all(g, items)),
        ActionView::Put { item, container } => put_state(g, item, container),
        ActionView::Open { target } => open_state(g, target),
        ActionView::Close { target } => close_state(g, target),
        ActionView::Unlock { target, key } => unlock_state(g, target, key),
        _ => g,
    }
}

/// What any action but "get" prints, or the error it ends in.
pub open spec fn next_output(g: GameView, a: ActionView) -> Result<Seq<Seq<char>>, GameErrorView> {
    match a {
        ActionView::Move { dir } => Ok(move_output(g, dir)),
        ActionView::Drop { items } => Ok(drop_output(g, items).push(""@)),
        ActionView::Put { item, container } => put_output(g, item, container),
        ActionView::Look { target } => Ok(look_output(g, target)),
        ActionView::Read { target } => Ok(read_output(g, target)),
        ActionView::Open { target } => open_output(g, target),
        ActionView::Close { target } => close_output(g, target),
        ActionView::Attack { .. } => Err(
            GameErrorView::Action(ActionErrorView::InvalidCommand("What good is violence?"@)),
        ),
        ActionView::Unlock { target, key } => unlock_output(g, target, key),
        ActionView::Get { .. } => Ok(Seq::empty()),
    }
}

/// Executing action `a` leads from `g` to `g2` and gives `out`.
pub open spec fn execution(g: GameView, a: ActionView, g2: GameView, out: Result<Seq<Seq<char>>, GameErrorView>) -> bool {
    match a {
        ActionView::Get { items } => took(g, items, g2, out),
        _ => g2 == next_state(g, a) && out == next_output(g, a),
    }
}

/// The action counts as a turn: a move, "get", "drop", or a "put", "open" or "close"
/// that succeeds.
pub open spec fn takes_turn(g: GameView, a: ActionView) -> bool {
    match a {
        ActionView::Move { .. } | ActionView::Get { .. } | ActionView::Drop { .. } => true,
        ActionView::Put { item, container } => put_ok(g, item, container),
        ActionView::Open { target } => opens(g, target),
        ActionView::Close { target } => closes(g, target),
        _ => false,
    }
}

/// The world holds what executing action `a` reads: the items the action names, and
/// for a move, "get", "drop" or a look around, the player's room; for a move, also the
/// room the exit leads to and the items lying there, and for "get" or a look around, the
/// items lying in the player's room.
pub open spec fn ready(g: GameView, a: ActionView) -> bool {
    &&& crate::engine::resolver::action_ok(g, a)
    &&& match a {
        ActionView::Move { .. } | ActionView::Drop { .. } => has_key(g.world.rooms, g.current_room),
        _ => true,
    }
    &&& match a {
        ActionView::Move { dir } => room_ok(arrived(g, dir)),
        ActionView::Get { .. } => room_ok(g),
        ActionView::Look { target } => target is None ==> room_ok(g),
        _ => true,
    }
}

/// The view of an execution outcome.
pub open spec fn output_view(r: Result<Vec<String>, GameError>) -> Result<Seq<Seq<char>>, GameErrorView> {
    match r {
        Ok(v) => Ok(texts(v@)),
        Err(e) => Err(e@),
    }
}

// ---------------------------------------------------------------------------
// What actions keep and undo
// ---------------------------------------------------------------------------
/// Looking, reading and attacking leave the game as it was.
pub proof fn lemma_observing_keeps_state(g: GameView, a: ActionView)
    requires
        a is Look || a is Read || a is Attack,
    ensures
        next_state(g, a) == g,
{
}

/// Closing an item that was just opened gives back the game as it was, two turns later.
pub proof fn lemma_close_undoes_open(g: GameView, t: i32)
    requires
        opens(g, t),
    ensures
        closes(open_state(g, t), t),
        close_state(open_state(g, t), t) == tick(tick(g)),
{
    let v = item_of(g, t);
    let w = with_open(v, true);
    let g1 = set_item(g, t, w);
    lemma_set_item(g, t, w);
    let bs = v.behaviors;
    let i = first_index(bs, crate::models::behavior::is_openable_b());
    lemma_first_index(bs, crate::models::behavior::is_openable_b());
    let ws = w.behaviors;
    assert forall|j: int| 0 <= j < bs.len() implies crate::models::behavior::is_openable_b()(#[trigger] bs[j])
        == crate::models::behavior::is_openable_b()(ws[j]) by {}
    crate::util::lemma_first_index_agree(bs, ws, crate::models::behavior::is_openable_b(), crate::models::behavior::is_openable_b());
    let g2 = tick(g1);
    assert(item_of(g2, t) == item_of(g1, t));
    assert(item_of(g1, t) == w);
    assert(ws[i] == crate::models::behavior::BehaviorView::Openable { is_open: true });
    assert(closes(g2, t));
    lemma_set_item(g2, t, with_open(w, false));
    assert(with_open(w, false).behaviors =~= bs);
    assert(with_open(w, false) == v);
    let s = g.world.items;
    let k = key_index(s, t);
    lemma_first_index(s, key_is::<i32, ItemView>(t));
    let s1 = s.update(k, (t, w));
    assert forall|j: int| 0 <= j < s.len() implies #[trigger] s[j].0 == s1[j].0 by {}
    crate::util::lemma_same_keys(s, s1);
    assert(key_index(s1, t) == k);
    assert(s1.update(k, (t, v)) =~= s);
    assert(set_item(g2, t, v).world == g.world);
}

/// Taking items counts no turn by itself.
proof fn lemma_taken_all_turn(g: GameView, ids: Seq<i32>)
    ensures
        taken_all(g, ids).turn == g.turn,
    decreases ids.len(),
{
    if ids.len() > 0 {
        lemma_taken_all_turn(g, ids.drop_last());
    }
}

/// Dropping items counts no turn by itself.
proof fn lemma_dropped_all_turn(g: GameView, ids: Seq<i32>)
    ensures
        dropped_all(g, ids).turn == g.turn,
    decreases ids.len(),
{
    if ids.len() > 0 {
        lemma_dropped_all_turn(g, ids.drop_last());
    }
}

/// Executing an action counts one turn exactly when the action counts as one, and none
/// otherwise. It fails exactly for an attack, which is refused as violence, and for
/// unlocking an item that is not locked or with a key that does not fit; a failed action
/// leaves the game as it was.
pub proof fn lemma_execution_outcome(
    g: GameView,
    a: ActionView,
    g2: GameView,
    out: Result<Seq<Seq<char>>, GameErrorView>,
)
    requires
        execution(g, a, g2, out),
        takes_turn(g, a) ==> g.turn < u32::MAX,
        a matches ActionView::Put { item, container } ==> item_exists(g, item) && item_exists(g, container),
        a matches ActionView::Open { target } ==> item_exists(g, target),
        a matches ActionView::Close { target } ==> item_exists(g, target),
    ensures
        g2.turn == if takes_turn(g, a) {
            g.turn + 1
        } else {
            g.turn as int
        },
        out is Err <==> (a is Attack || (a matches ActionView::Unlock { target, key } && !unlocks(g, target, key))),
        out is Err ==> g2 == g,
        a is Attack ==> out == Err::<Seq<Seq<char>>, GameErrorView>(
            GameErrorView::Action(ActionErrorView::InvalidCommand("What good is violence?"@)),
        ),
{
    match a {
        ActionView::Get { items } => {
            lemma_taken_all_turn(g, items);
        },
        ActionView::Drop { items } => {
            lemma_dropped_all_turn(g, items);
        },
        _ => {},
    }
}

/// A put that succeeds takes the item out of the inventory and adds it last to the
/// container's contents; the item is marked moved, and no other item or room changes.
pub proof fn lemma_put_places_item(g: GameView, i: i32, c: i32)
    requires
        put_ok(g, i, c),
    ensures
        container_of(item_of(put_state(g, i, c), c).behaviors) == Some(
            container_of(item_of(g, c).behaviors)->0.push(i),
        ),
        !put_state(g, i, c).inventory.contains(i),
        forall|k: i32| #[trigger] g.inventory.contains(k) && k != i ==> put_state(g, i, c).inventory.contains(k),
        item_of(put_state(g, i, c), i).moved,
        forall|k: i32| k != i && k != c ==> #[trigger] item_of(put_state(g, i, c), k) == item_of(g, k),
        put_state(g, i, c).world.rooms == g.world.rooms,
        put_state(g, i, c).turn == g.turn + 1 || g.turn == u32::MAX,
{
    let g1 = GameView { inventory: remove_all(g.inventory, i), ..g };
    let cv = item_of(g1, c);
    let cs = container_of(cv.behaviors)->0;
    crate::models::behavior::lemma_has_container(cv);
    crate::models::behavior::lemma_container_of_with_contents(cv, cs.push(i));
    lemma_set_item(g1, c, with_contents(cv, cs.push(i)));
    let g2 = set_item(g1, c, with_contents(cv, cs.push(i)));
    assert(item_of(g1, c) == item_of(g, c));
    assert(item_of(g2, c) == with_contents(cv, cs.push(i)));
    lemma_set_item(g2, i, with_moved(item_of(g2, i)));
    crate::models::behavior::lemma_container_of_with_moved(item_of(g2, i));
    let g3 = set_item(g2, i, with_moved(item_of(g2, i)));
    assert(put_state(g, i, c) == tick(g3));
    assert(item_of(g3, i) == with_moved(item_of(g2, i)));
    if i != c {
        assert(item_of(g3, c) == item_of(g2, c));
    }
    assert(item_of(tick(g3), c) == item_of(g3, c));
    assert(item_of(tick(g3), i) == item_of(g3, i));
    assert forall|k: i32| k != i && k != c implies #[trigger] item_of(put_state(g, i, c), k) == item_of(g, k) by {
        assert(item_of(tick(g3), k) == item_of(g3, k));
        assert(item_of(g3, k) == item_of(g2, k));
        assert(item_of(g2, k) == item_of(g1, k));
    }
    lemma_remove_all_subset(g.inventory, i);
    crate::util::lemma_remove_all_keeps(g.inventory, i);
}

/// A put never fills a container past its capacity.
pub proof fn lemma_put_respects_capacity(g: GameView, i: i32, c: i32)
    requires
        put_ok(g, i, c),
    ensures
        crate::models::behavior::capacity_of(item_of(g, c)) matches Some(k) ==> container_of(
            item_of(put_state(g, i, c), c).behaviors,
        )->0.len() <= k,
{
    lemma_put_places_item(g, i, c);
}

/// Taking a holdable item that is not in the player's room but inside a container
/// lying there carries it and takes it out of that container.
pub proof fn lemma_take_from_container(g: GameView, id: i32)
    requires
        room_ok(g),
        item_exists(g, id),
        holdable(item_of(g, id)),
        !room_here(g).items.contains(id),
        holder_index(g, id) >= 0,
    ensures
        take_step(g, id).inventory == g.inventory.push(id),
        container_of(item_of(g, room_here(g).items[holder_index(g, id)]).behaviors)->0.contains(id),
        container_of(item_of(take_step(g, id), room_here(g).items[holder_index(g, id)]).behaviors) == Some(
            remove_first(container_of(item_of(g, room_here(g).items[holder_index(g, id)]).behaviors)->0, id),
        ),
        item_of(take_step(g, id), id).moved,
{
    let r = room_here(g);
    lemma_first_index(r.items, holds(g, id));
    let k = holder_index(g, id);
    let c = r.items[k];
    assert(holds(g, id)(c));
    assert(has_key(g.world.items, r.items[k]));
    let cv = item_of(g, c);
    let cs = container_of(cv.behaviors)->0;
    crate::models::behavior::lemma_container_of_with_contents(cv, remove_first(cs, id));
    lemma_set_item(g, c, with_contents(cv, remove_first(cs, id)));
    let g1 = set_item(g, c, with_contents(cv, remove_first(cs, id)));
    lemma_set_item(g1, id, with_moved(item_of(g1, id)));
    crate::models::behavior::lemma_container_of_with_moved(item_of(g1, id));
    let g2 = set_item(g1, id, with_moved(item_of(g1, id)));
    assert(item_of(g2, c).behaviors == item_of(g1, c).behaviors);
    assert(item_of(g2, id) == with_moved(item_of(g1, id)));
    assert(take_step(g, id) == received(g1, id));
    assert(received(g1, id).world == g2.world);
}

/// Opening an item leaves it open and closing it leaves it closed; unlocking an item
/// with a single lock, with a key that fits, leaves it unlocked.
pub proof fn lemma_open_close_unlock_states(g: GameView, t: i32, k: i32)
    ensures
        opens(g, t) ==> is_open_state(item_of(open_state(g, t), t)),
        closes(g, t) ==> !is_open_state(item_of(close_state(g, t), t)),
        item_exists(g, t) && unlocks(g, t, k) && crate::models::behavior::at_most_one(
            item_of(g, t),
            crate::models::behavior::is_lock_b(),
        ) ==> !locked(item_of(unlock_state(g, t, k), t)),
{
    let v = item_of(g, t);
    if opens(g, t) {
        lemma_set_item(g, t, with_open(v, true));
        crate::models::behavior::lemma_open_state(v, true);
        let g1 = set_item(g, t, with_open(v, true));
        assert(item_of(g1, t) == with_open(v, true));
        assert(item_of(tick(g1), t) == item_of(g1, t));
    }
    if closes(g, t) {
        lemma_set_item(g, t, with_open(v, false));
        crate::models::behavior::lemma_open_state(v, false);
        let g1 = set_item(g, t, with_open(v, false));
        assert(item_of(g1, t) == with_open(v, false));
        assert(item_of(tick(g1), t) == item_of(g1, t));
    }
    if item_exists(g, t) && unlocks(g, t, k) {
        let bs = v.behaviors;
        lemma_first_index(bs, crate::models::behavior::is_engaged_lock_b());
        lemma_first_index(bs, crate::models::behavior::is_lock_b());
        let e = first_index(bs, crate::models::behavior::is_engaged_lock_b());
        assert(crate::models::behavior::is_lock_b()(bs[e]));
        lemma_set_item(g, t, with_locked(v, false));
        crate::models::behavior::lemma_lock_state(v, false);
    }
}

/// A room lists none of its hidden items: when every item is hidden, the listing is
/// empty, and a hidden item adds nothing to it.
pub proof fn lemma_hidden_not_listed(ids: Seq<i32>, items: Seq<(i32, ItemView)>, id: i32)
    ensures
        (forall|k: int| 0 <= k < ids.len() ==> hidden(#[trigger] lookup(items, ids[k])->0)) ==> listing(ids, items)
            == Seq::<Seq<char>>::empty(),
        hidden(lookup(items, id)->0) ==> listing(ids.push(id), items) == listing(ids, items),
    decreases ids.len(),
{
    assert(ids.push(id).drop_last() =~= ids);
    if ids.len() > 0 {
        lemma_hidden_not_listed(ids.drop_last(), items, id);
        if forall|k: int| 0 <= k < ids.len() ==> hidden(#[trigger] lookup(items, ids[k])->0) {
            assert forall|k: int| 0 <= k < ids.drop_last().len() implies hidden(
                #[trigger] lookup(items, ids.drop_last()[k])->0,
            ) by {
                assert(ids.drop_last()[k] == ids[k]);
            }
            assert(hidden(lookup(items, ids[ids.len() - 1])->0));
        }
    }
}

/// Dropping an item takes it out of the inventory and lays it last in the player's room.
pub proof fn lemma_drop_lays_down(g: GameView, id: i32)
    requires
        has_key(g.world.rooms, g.current_room),
        item_exists(g, id),
    ensures
        !drop_step(g, id).inventory.contains(id),
        room_here(drop_step(g, id)).items == room_here(g).items.push(id),
        item_of(drop_step(g, id), id).moved,
{
    lemma_remove_all_subset(g.inventory, id);
    let g1 = GameView { inventory: remove_all(g.inventory, id), ..g };
    lemma_set_item(g1, id, with_moved(item_of(g1, id)));
    let g2 = set_item(g1, id, with_moved(item_of(g1, id)));
    let r = room_here(g2);
    let rooms = g2.world.rooms;
    lemma_first_index(rooms, key_is::<i32, RoomView>(g2.current_room));
    let i = key_index(rooms, g2.current_room);
    let t = rooms.update(i, (g2.current_room, RoomView { items: r.items.push(id), ..r }));
    assert forall|j: int| 0 <= j < rooms.len() implies #[trigger] rooms[j].0 == t[j].0 by {}
    crate::util::lemma_same_keys(rooms, t);
    assert(item_of(drop_step(g, id), id) == item_of(g2, id));
}

/// Taking a holdable item that lies in the player's room carries it and takes it out of
/// the room.
pub proof fn lemma_take_from_room(g: GameView, id: i32)
    requires
        has_key(g.world.rooms, g.current_room),
        item_exists(g, id),
        holdable(item_of(g, id)),
        room_here(g).items.contains(id),
    ensures
        take_step(g, id).inventory == g.inventory.push(id),
        room_here(take_step(g, id)).items == remove_first(room_here(g).items, id),
        item_of(take_step(g, id), id).moved,
{
    let r = room_here(g);
    let rooms = g.world.rooms;
    lemma_first_index(rooms, key_is::<i32, RoomView>(g.current_room));
    let i = key_index(rooms, g.current_room);
    let t = rooms.update(i, (g.current_room, RoomView { items: remove_first(r.items, id), ..r }));
    assert forall|j: int| 0 <= j < rooms.len() implies #[trigger] rooms[j].0 == t[j].0 by {}
    crate::util::lemma_same_keys(rooms, t);
    let g1 = set_room_here(g, RoomView { items: remove_first(r.items, id), ..r });
    lemma_set_item(g1, id, with_moved(item_of(g1, id)));
    let g2 = set_item(g1, id, with_moved(item_of(g1, id)));
    assert(item_of(take_step(g, id), id) == item_of(g2, id));
}

/// A move takes the player, one turn later, into the room the exit leads to, which is
/// then entered.
pub proof fn lemma_move_arrives(g: GameView, dir: Direction)
    requires
        has_key(g.world.rooms, move_target(g, dir)),
    ensures
        moved_state(g, dir).current_room == move_target(g, dir),
        moved_state(g, dir).turn == g.turn + 1 || g.turn == u32::MAX,
        room_here(moved_state(g, dir)).entered,
        moved_state(g, dir).inventory == g.inventory,
{
    let g1 = arrived(g, dir);
    let r = room_here(g1);
    if !r.entered {
        let rooms = g1.world.rooms;
        lemma_first_index(rooms, key_is::<i32, RoomView>(g1.current_room));
        let i = key_index(rooms, g1.current_room);
        let t = rooms.update(i, (g1.current_room, RoomView { entered: true, ..r }));
        assert forall|j: int| 0 <= j < rooms.len() implies #[trigger] rooms[j].0 == t[j].0 by {}
        crate::util::lemma_same_keys(rooms, t);
    }
}

// ---------------------------------------------------------------------------
// Changing one item or the player's room
// ---------------------------------------------------------------------------
/// Opens or closes the item `id`.
fn set_item_open(game: &mut Game, id: i32, open: bool)
    requires
        item_exists(old(game)@, id),
    ensures
        final(game)@ == set_item(old(game)@, id, with_open(item_of(old(game)@, id), open)),
{
    let i = game.item_index(id);
    let ghost before = game.world.items@;
    game.world.items.entries[i].1.set_open(open);
    proof {
        lemma_item_views_update(before, i as int, game.world.items@[i as int]);
    }
}

/// Locks or unlocks the item `id`.
fn set_item_locked(game: &mut Game, id: i32, lock: bool)
    requires
        item_exists(old(game)@, id),
    ensures
        final(game)@ == set_item(old(game)@, id, with_locked(item_of(old(game)@, id), lock)),
{
    let i = game.item_index(id);
    let ghost before = game.world.items@;
    game.world.items.entries[i].1.set_locked(lock);
    proof {
        lemma_item_views_update(before, i as int, game.world.items@[i as int]);
    }
}

/// Marks the item `id` as moved from where it started.
fn set_item_moved(game: &mut Game, id: i32)
    requires
        item_exists(old(game)@, id),
    ensures
        final(game)@ == set_item(old(game)@, id, with_moved(item_of(old(game)@, id))),
{
    let i = game.item_index(id);
    let ghost before = game.world.items@;
    game.world.items.entries[i].1.moved = true;
    proof {
        lemma_item_views_update(before, i as int, game.world.items@[i as int]);
    }
}

/// Puts the item `id` at the end of the contents of the container `c`.
fn push_into(game: &mut Game, c: i32, id: i32)
    requires
        item_exists(old(game)@, c),
        container_of(item_of(old(game)@, c).behaviors) is Some,
    ensures
        final(game)@ == set_item(
            old(game)@,
            c,
            with_contents(
                item_of(old(game)@, c),
                container_of(item_of(old(game)@, c).behaviors)->0.push(id),
            ),
        ),
{
    let i = game.item_index(c);
    let ghost before = game.world.items@;
    game.world.items.entries[i].1.container_push(id);
    proof {
        lemma_item_views_update(before, i as int, game.world.items@[i as int]);
    }
}

/// Takes the first occurrence of `id` out of the container `c`.
fn remove_from(game: &mut Game, c: i32, id: i32)
    requires
        item_exists(old(game)@, c),
        container_of(item_of(old(game)@, c).behaviors) is Some,
    ensures
        final(game)@ == set_item(
            old(game)@,
            c,
            with_contents(
                item_of(old(game)@, c),
                remove_first(container_of(item_of(old(game)@, c).behaviors)->0, id),
            ),
        ),
{
    let i = game.item_index(c);
    let ghost before = game.world.items@;
    game.world.items.entries[i].1.container_remove(id);
    proof {
        lemma_item_views_update(before, i as int, game.world.items@[i as int]);
    }
}

/// Takes the first occurrence of `id` out of the player's room.
fn remove_from_room(game: &mut Game, id: i32)
    requires
        has_key(old(game)@.world.rooms, old(game).current_room),
    ensures
        final(game)@ == set_room_here(
            old(game)@,
            RoomView { items: remove_first(room_here(old(game)@).items, id), ..room_here(old(game)@) },
        ),
{
    let ri = game.current_room_index();
    let ghost before = game.world.rooms@;
    remove_first_id(&mut game.world.rooms.entries[ri].1.items, id);
    proof {
        lemma_room_views_update(before, ri as int, game.world.rooms@[ri as int]);
    }
}

/// Lays the item `id` down in the player's room.
fn push_to_room(game: &mut Game, id: i32)
    requires
        has_key(old(game)@.world.rooms, old(game).current_room),
    ensures
        final(game)@ == set_room_here(
            old(game)@,
            RoomView { items: room_here(old(game)@).items.push(id), ..room_here(old(game)@) },
        ),
{
    let ri = game.current_room_index();
    let ghost before = game.world.rooms@;
    game.world.rooms.entries[ri].1.items.push(id);
    proof {
        lemma_room_views_update(before, ri as int, game.world.rooms@[ri as int]);
    }
}

/// Marks the player's room as entered.
fn enter_room(game: &mut Game)
    requires
        has_key(old(game)@.world.rooms, old(game).current_room),
    ensures
        final(game)@ == set_room_here(old(game)@, RoomView { entered: true, ..room_here(old(game)@) }),
{
    let ri = game.current_room_index();
    let ghost before = game.world.rooms@;
    game.world.rooms.entries[ri].1.entered = true;
    proof {
        lemma_room_views_update(before, ri as int, game.world.rooms@[ri as int]);
    }
}

/// The line `a` followed by an empty line.
pub(crate) fn two_lines(a: String) -> (r: Vec<String>)
    ensures
        texts(r@) == seq![a@, ""@],
{
    let mut r: Vec<String> = Vec::new();
    r.push(a);
    r.push(owned(""));
    assert(texts(r@) =~= seq![a@, ""@]);
    r
}

/// Appends `more` to `output`.
pub(crate) fn append_lines(output: &mut Vec<String>, more: Vec<String>)
    ensures
        texts(final(output)@) == texts(old(output)@) + texts(more@),
{
    let mut more = more;
    let ghost m = more@;
    output.append(&mut more);
    assert(texts(output@) =~= texts(old(output)@) + texts(m));
}

/// Appends to `output` the lines that list the items `ids`.
fn push_listing(game: &Game, ids: &Vec<i32>, output: &mut Vec<String>)
    requires
        all_items_exist(game@.world.items, ids@),
    ensures
        texts(final(output)@) == texts(old(output)@) + listing(ids@, game@.world.items),
{
    let ghost start = texts(output@);
    let mut i: usize = 0;
    assert(ids@.take(0) =~= Seq::<i32>::empty());
    assert(start + listing(Seq::<i32>::empty(), game@.world.items) =~= start);
    while i < ids.len()
        invariant
            all_items_exist(game@.world.items, ids@),
            i <= ids@.len(),
            texts(output@) == start + listing(ids@.take(i as int), game@.world.items),
        decreases ids@.len() - i,
    {
        let id = ids[i];
        assert(has_key(game@.world.items, ids@[i as int]));
        let item = game.item_by_id(id);
        assert(ids@.take(i + 1).drop_last() =~= ids@.take(i as int));
        assert(ids@.take(i + 1).last() == id);
        let ghost before = texts(output@);
        if !item.is_hidden() {
            output.push(item.get_room_description());
            assert(texts(output@) =~= before.push(room_description(item@)));
            if item.has_container() && item.is_open() {
                let lines = item.format_container_contents(&game.world.items);
                append_lines(output, lines);
                assert(texts(output@) =~= start + listing(ids@.take(i + 1), game@.world.items));
            } else {
                assert(texts(output@) =~= start + listing(ids@.take(i + 1), game@.world.items));
            }
        }
        i = i + 1;
    }
    assert(ids@.take(i as int) =~= ids@);
}

// ---------------------------------------------------------------------------
// Executing actions
// ---------------------------------------------------------------------------
impl Game {
    /// Whether the player's room exists and every item lying in it exists.
    fn room_is_ok(&self) -> (b: bool)
        ensures
            b == room_ok(self@),
    {
        proof {
            crate::engine::game::lemma_lookup_room_views(self.world.rooms@, self.current_room);
        }
        if !self.world.rooms.contains_key(&self.current_room) {
            return false;
        }
        self.all_exist(&self.get_current_room().items)
    }

    /// Whether the world holds what executing `action` reads.
    pub fn is_ready(&self, action: &Action) -> (b: bool)
        ensures
            b == ready(self@, action@),
    {
        proof {
            crate::engine::game::lemma_lookup_room_views(self.world.rooms@, self.current_room);
        }
        match action {
            Action::Move { dir } => {
                if !self.world.rooms.contains_key(&self.current_room) {
                    return false;
                }
                match self.get_current_room().exits.get(dir) {
                    None => false,
                    Some(to) => {
                        proof {
                            crate::engine::game::lemma_lookup_room_views(self.world.rooms@, to);
                        }
                        match self.world.rooms.get(&to) {
                            None => false,
                            Some(room) => self.all_exist(&room.items),
                        }
                    },
                }
            },
            Action::Get { items } => self.all_exist(items) && self.room_is_ok(),
            Action::Drop { items } => self.all_exist(items) && self.world.rooms.contains_key(&self.current_room),
            Action::Look { target } => match target {
                Some(id) => {
                    proof {
                        crate::models::item::lemma_lookup_item_views(self.world.items@, *id);
                    }
                    self.world.items.contains_key(id)
                },
                None => self.room_is_ok(),
            },
            Action::Read { target } => {
                proof {
                    crate::models::item::lemma_lookup_item_views(self.world.items@, *target);
                }
                self.world.items.contains_key(target)
            },
            Action::Unlock { target, key } => {
                proof {
                    crate::models::item::lemma_lookup_item_views(self.world.items@, *target);
                    crate::models::item::lemma_lookup_item_views(self.world.items@, *key);
                }
                self.world.items.contains_key(target) && self.world.items.contains_key(key)
            },
            _ => true,
        }
    }

    /// Executes an action, modifying game state and returning output messages
    pub fn execute_action(&mut self, action: Action) -> (r: Result<Vec<String>, GameError>)
        requires
            ready(old(self)@, action@),
            takes_turn(old(self)@, action@) ==> old(self).turn < u32::MAX,
        ensures
            execution(old(self)@, action@, final(self)@, output_view(r)),
            well_formed(old(self)@) ==> well_formed(final(self)@),
    {
        match action {
            Action::Move { dir } => execute_move(self, dir),
            Action::Get { items } => execute_get(self, items),
            Action::Drop { items } => execute_drop(self, items),
            Action::Put { item, container } => execute_put(self, item, container),
            Action::Look { target } => execute_look(self, target),
            Action::Read { target } => execute_read(self, target),
            Action::Open { target } => execute_open(self, target),
            Action::Close { target } => execute_close(self, target),
            Action::Attack { target, weapon } => execute_attack(self, target, weapon),
            Action::Unlock { target, key } => execute_unlock(self, target, key),
        }
    }
}

/// Executes a move action, changing the players current room
fn execute_move(game: &mut Game, dir: Direction) -> (r: Result<Vec<String>, GameError>)
    requires
        has_key(old(game)@.world.rooms, old(game).current_room),
        has_key(room_here(old(game)@).exits, dir),
        room_ok(arrived(old(game)@, dir)),
        old(game).turn < u32::MAX,
    ensures
        output_view(r) == Ok::<Seq<Seq<char>>, GameErrorView>(move_output(old(game)@, dir)),
        final(game)@ == moved_state(old(game)@, dir),
        well_formed(old(game)@) ==> well_formed(final(game)@),
{
    let ghost g = game@;
    let new_room_id = game.get_current_room().exits.get(&dir).unwrap();
    // Change room
    game.current_room = new_room_id;
    game.turn = game.turn + 1;
    assert(game@ == arrived(g, dir));
    let ghost g1 = game@;
    // Get new room description
    let new_room = game.get_current_room();
    let mut output: Vec<String> = Vec::new();
    output.push(new_room.name.clone());
    if !new_room.entered {
        // Show long_desc if first visit, otherwise short desc
        if let Some(desc) = &new_room.long_desc {
            output.push(desc.clone());
        } else if let Some(desc) = &new_room.desc {
            output.push(desc.clone());
        }
        assert(texts(output@) =~= seq![new_room@.name] + opt_line(long_or_short(new_room@)));
        // List visible items on first visit
        push_listing(game, &new_room.items, &mut output);
        // Mark room as entered
        let ghost r = room_here(g1);
        proof {
            if well_formed(g) {
                assert forall|j: int| 0 <= j < r.exits.len() implies has_key(g1.world.rooms, #[trigger] r.exits[j].1) by {
                    lemma_first_index(g1.world.rooms, key_is::<i32, RoomView>(g1.current_room));
                    let i = key_index(g1.world.rooms, g1.current_room);
                    assert(has_key(g1.world.rooms, g1.world.rooms[i].1.exits[j].1));
                }
                lemma_wf_set_room_here(g1, RoomView { entered: true, ..r });
            }
        }
        enter_room(game);
    } else {
        if let Some(desc) = &new_room.desc {
            // show short desc only on re-entry
            output.push(desc.clone());
        }
        assert(texts(output@) =~= seq![new_room@.name] + opt_line(new_room@.desc));
    }
    let ghost before = texts(output@);
    output.push(owned(""));
    assert(texts(output@) =~= before.push(""@));
    assert(texts(output@) =~= move_output(g, dir));
    Ok(output)
}

/// Tries to take the item `id`, out of the room or else out of a container in it.
fn take_one(game: &mut Game, id: i32, single: bool) -> (line: String)
    requires
        room_ok(old(game)@),
        item_exists(old(game)@, id),
    ensures
        final(game)@ == take_step(old(game)@, id),
        take_message(old(game)@, id, single, line@),
        room_ok(final(game)@),
        well_formed(old(game)@) ==> well_formed(final(game)@),
        final(game)@.turn == old(game)@.turn,
        forall|k: i32| #[trigger] has_key(final(game)@.world.items, k) == has_key(old(game)@.world.items, k),
{
    let ghost g = game@;
    reveal(take_message);
    let item = game.item_by_id(id);
    let ghost it = item@;
    let name = item.name.clone();
    // Skip unholdable items
    if !item.is_holdable() {
        let refusal = cant_do_that();
        if single {
            return refusal;
        }
        let line = cat3(name.as_str(), ": ", refusal.as_str());
        assert(is_refusal(refusal@) && line@ == it.name + ": "@ + refusal@);
        return line;
    }
    let ri = game.current_room_index();
    // Try to remove from room first
    let was_in_room = position_of(&game.world.rooms.entries[ri].1.items, id);
    proof {
        lemma_first_index(room_here(g).items, crate::util::equals(id));
    }
    let in_room = was_in_room.is_some();
    if in_room {
        assert(room_here(g).items.contains(id)) by {
            assert(room_here(g).items[crate::util::pos_of(room_here(g).items, id)] == id);
        }
        let ghost r = room_here(g);
        proof {
            lemma_remove_first_subset(r.items, id);
            assert forall|k: int| 0 <= k < remove_first(r.items, id).len() implies has_key(
                g.world.items,
                #[trigger] remove_first(r.items, id)[k],
            ) by {
                assert(remove_first(r.items, id).contains(remove_first(r.items, id)[k]));
                let j = choose|j: int| 0 <= j < r.items.len() && r.items[j] == remove_first(r.items, id)[k];
                assert(has_key(g.world.items, r.items[j]));
            }
            lemma_set_room_here(g, RoomView { items: remove_first(r.items, id), ..r });
            if well_formed(g) {
                assert forall|j: int| 0 <= j < r.exits.len() implies has_key(g.world.rooms, #[trigger] r.exits[j].1) by {
                    lemma_first_index(g.world.rooms, key_is::<i32, RoomView>(g.current_room));
                    let i = key_index(g.world.rooms, g.current_room);
                    assert(has_key(g.world.rooms, g.world.rooms[i].1.exits[j].1));
                }
                lemma_wf_set_room_here(g, RoomView { items: remove_first(r.items, id), ..r });
            }
        }
        remove_from_room(game, id);
    } else {
        assert(!room_here(g).items.contains(id)) by {
            if room_here(g).items.contains(id) {
                let j = choose|j: int| 0 <= j < room_here(g).items.len() && room_here(g).items[j] == id;
                assert(crate::util::equals(id)(room_here(g).items[j]));
            }
        }
        // Not in room, must be in a container
        match holder_position(game, id) {
            Some(k) => {
                let c = game.world.rooms.entries[ri].1.items[k];
                assert(c == room_here(g).items[k as int]);
                proof {
                    lemma_first_index(room_here(g).items, holds(g, id));
                    assert(holds(g, id)(c));
                }
                assert(has_key(g.world.items, room_here(g).items[k as int]));
                let ghost cv = item_of(g, c);
                proof {
                    let cs = container_of(cv.behaviors)->0;
                    lemma_set_item(g, c, with_contents(cv, remove_first(cs, id)));
                    if well_formed(g) {
                        lemma_contents_exist(g, c);
                        lemma_remove_first_subset(cs, id);
                        crate::models::behavior::lemma_container_of_with_contents(cv, remove_first(cs, id));
                        assert forall|m: int| 0 <= m < remove_first(cs, id).len() implies has_key(
                            g.world.items,
                            #[trigger] remove_first(cs, id)[m],
                        ) by {
                            assert(remove_first(cs, id).contains(remove_first(cs, id)[m]));
                            let j = choose|j: int| 0 <= j < cs.len() && cs[j] == remove_first(cs, id)[m];
                            assert(has_key(g.world.items, cs[j]));
                        }
                        lemma_wf_set_item(g, c, with_contents(cv, remove_first(cs, id)));
                    }
                }
                remove_from(game, c, id);
            },
            None => {
                // Shouldn't happen if resolver worked correctly
                if single {
                    return cat3("You can't find the ", name.as_str(), ".");
                } else {
                    return cat(name.as_str(), ": can't find it.");
                }
            },
        }
    }
    let ghost g1 = game@;
    assert(room_ok(g1));
    proof {
        lemma_set_item(g1, id, with_moved(item_of(g1, id)));
        if well_formed(g1) {
            crate::models::behavior::lemma_container_of_with_moved(item_of(g1, id));
            lemma_contents_exist(g1, id);
            lemma_wf_set_item(g1, id, with_moved(item_of(g1, id)));
        }
    }
    // Mark item as moved when taken
    set_item_moved(game, id);
    // Add to inventory
    game.player.inventory.push(id);
    let ghost g2 = game@;
    proof {
        if well_formed(g1) {
            assert forall|k: int| 0 <= k < g2.inventory.len() implies has_key(g2.world.items, #[trigger] g2.inventory[k]) by {
                if k < g2.inventory.len() - 1 {
                    assert(g2.inventory[k] == g1.inventory[k]);
                }
            }
        }
    }
    if single {
        cat3("You grab the ", name.as_str(), ".")
    } else {
        cat(name.as_str(), ": taken.")
    }
}

/// The position, among the items of the player's room, of the first container that
/// holds the item `id`.
fn holder_position(game: &Game, id: i32) -> (r: Option<usize>)
    requires
        room_ok(game@),
    ensures
        match r {
            Some(k) => k as int == holder_index(game@, id) && k < room_here(game@).items.len(),
            None => holder_index(game@, id) == -1,
        },
{
    let ghost g = game@;
    let ghost p = holds(g, id);
    proof {
        lemma_first_index(room_here(g).items, p);
    }
    let room = game.get_current_room();
    let mut k: usize = 0;
    while k < room.items.len()
        invariant
            g == game@,
            p == holds(g, id),
            room@ == room_here(g),
            all_items_exist(g.world.items, room@.items),
            k <= room@.items.len(),
            forall|j: int| 0 <= j < k ==> !p(#[trigger] room@.items[j]),
            -1 <= first_index(room@.items, p) < room@.items.len(),
            first_index(room@.items, p) >= 0 ==> p(room@.items[first_index(room@.items, p)]),
            forall|j: int| 0 <= j < first_index(room@.items, p) ==> !p(#[trigger] room@.items[j]),
            first_index(room@.items, p) == -1 ==> forall|j: int| 0 <= j < room@.items.len() ==> !p(#[trigger] room@.items[j]),
        decreases room@.items.len() - k,
    {
        let c = room.items[k];
        assert(has_key(g.world.items, room@.items[k as int]));
        let container = game.item_by_id(c);
        let held = match container.get_container() {
            Some(contents) => contains_id(contents, id),
            None => false,
        };
        if held {
            assert(p(room@.items[k as int]));
            return Some(k);
        }
        k = k + 1;
    }
    None
}

/// Executes a get action transferring items from room or containers to inventory
fn execute_get(game: &mut Game, item_ids: Vec<i32>) -> (r: Result<Vec<String>, GameError>)
    requires
        room_ok(old(game)@),
        all_items_exist(old(game)@.world.items, item_ids@),
        old(game).turn < u32::MAX,
    ensures
        took(old(game)@, item_ids@, final(game)@, output_view(r)),
        well_formed(old(game)@) ==> well_formed(final(game)@),
{
    let ghost g = game@;
    let ghost ids = item_ids@;
    let mut output: Vec<String> = Vec::new();
    let is_single = item_ids.len() == 1;  // for formatting
    let mut i: usize = 0;
    assert(ids.take(0) =~= Seq::<i32>::empty());
    while i < item_ids.len()
        invariant
            ids == item_ids@,
            is_single == (ids.len() == 1),
            i <= ids.len(),
            room_ok(game@),
            well_formed(g) ==> well_formed(game@),
            game@ == taken_all(g, ids.take(i as int)),
            game@.turn == g.turn,
            g.turn < u32::MAX,
            forall|k: i32| #[trigger] has_key(game@.world.items, k) == has_key(g.world.items, k),
            all_items_exist(g.world.items, ids),
            output@.len() == i,
            forall|k: int|
                0 <= k < i ==> take_message(taken_all(g, ids.take(k)), #[trigger] ids[k], is_single, texts(output@)[k]),
        decreases ids.len() - i,
    {
        let item_id = item_ids[i];
        assert(has_key(g.world.items, ids[i as int]));
        assert(ids.take(i + 1).drop_last() =~= ids.take(i as int));
        assert(ids.take(i + 1).last() == item_id);
        let ghost before = output@;
        let line = take_one(game, item_id, is_single);
        output.push(line);
        assert forall|k: int| 0 <= k < i + 1 implies take_message(
            taken_all(g, ids.take(k)),
            #[trigger] ids[k],
            is_single,
            texts(output@)[k],
        ) by {
            if k < i {
                assert(texts(output@)[k] == texts(before)[k]);
            }
        }
        i = i + 1;
    }
    assert(ids.take(i as int) =~= ids);
    game.turn = game.turn + 1;
    let ghost before = output@;
    output.push(owned(""));  // Empty line
    assert forall|k: int| 0 <= k < ids.len() implies take_message(
        taken_all(g, ids.take(k)),
        #[trigger] ids[k],
        ids.len() == 1,
        texts(output@)[k],
    ) by {
        assert(texts(output@)[k] == texts(before)[k]);
    }
    Ok(output)
}

/// Executes a drop action, moving items from inventory to the room
fn execute_drop(game: &mut Game, item_ids: Vec<i32>) -> (r: Result<Vec<String>, GameError>)
    requires
        has_key(old(game)@.world.rooms, old(game).current_room),
        all_items_exist(old(game)@.world.items, item_ids@),
        old(game).turn < u32::MAX,
    ensures
        output_view(r) == Ok::<Seq<Seq<char>>, GameErrorView>(drop_output(old(game)@, item_ids@).push(""@)),
        final(game)@ == tick(dropped_all(old(game)@, item_ids@)),
        well_formed(old(game)@) ==> well_formed(final(game)@),
{
    let ghost g = game@;
    let ghost ids = item_ids@;
    let mut output: Vec<String> = Vec::new();
    let mut i: usize = 0;
    assert(ids.take(0) =~= Seq::<i32>::empty());
    while i < item_ids.len()
        invariant
            ids == item_ids@,
            i <= ids.len(),
            has_key(game@.world.rooms, game@.current_room),
            well_formed(g) ==> well_formed(game@),
            game@ == dropped_all(g, ids.take(i as int)),
            game@.turn == g.turn,
            g.turn < u32::MAX,
            forall|k: i32| #[trigger] has_key(game@.world.items, k) == has_key(g.world.items, k),
            all_items_exist(g.world.items, ids),
            texts(output@) == drop_output(g, ids.take(i as int)),
        decreases ids.len() - i,
    {
        let item_id = item_ids[i];
        assert(has_key(g.world.items, ids[i as int]));
        assert(ids.take(i + 1).drop_last() =~= ids.take(i as int));
        assert(ids.take(i + 1).last() == item_id);
        let ghost g0 = game@;
        // Remove from inventory
        remove_all_id(&mut game.player.inventory, item_id);
        let ghost g1 = game@;
        proof {
            lemma_set_item(g1, item_id, with_moved(item_of(g1, item_id)));
            if well_formed(g0) {
                lemma_remove_all_subset(g0.inventory, item_id);
                assert forall|k: int| 0 <= k < g1.inventory.len() implies has_key(g1.world.items, #[trigger] g1.inventory[k]) by {
                    assert(g1.inventory.contains(g1.inventory[k]));
                    assert(remove_all(g0.inventory, item_id).contains(g1.inventory[k]));
                    let j = choose|j: int| 0 <= j < g0.inventory.len() && g0.inventory[j] == g1.inventory[k];
                    assert(has_key(g0.world.items, g0.inventory[j]));
                }
                assert(well_formed(g1));
                crate::models::behavior::lemma_container_of_with_moved(item_of(g1, item_id));
                lemma_contents_exist(g1, item_id);
                lemma_wf_set_item(g1, item_id, with_moved(item_of(g1, item_id)));
            }
        }
        // Mark item as moved when dropped
        set_item_moved(game, item_id);
        let ghost g2 = game@;
        // Add to room
        proof {
            let r = room_here(g2);
            lemma_set_room_here(g2, RoomView { items: r.items.push(item_id), ..r });
            if well_formed(g2) {
                lemma_room_items_exist(g2);
                assert forall|k: int| 0 <= k < r.items.push(item_id).len() implies has_key(
                    g2.world.items,
                    #[trigger] r.items.push(item_id)[k],
                ) by {
                    if k < r.items.len() {
                        assert(r.items.push(item_id)[k] == r.items[k]);
                    }
                }
                assert forall|j: int| 0 <= j < r.exits.len() implies has_key(g2.world.rooms, #[trigger] r.exits[j].1) by {
                    lemma_first_index(g2.world.rooms, key_is::<i32, RoomView>(g2.current_room));
                    let x = key_index(g2.world.rooms, g2.current_room);
                    assert(has_key(g2.world.rooms, g2.world.rooms[x].1.exits[j].1));
                }
                lemma_wf_set_room_here(g2, RoomView { items: r.items.push(item_id), ..r });
            }
        }
        push_to_room(game, item_id);
        // Get item name for output
        assert(item_of(g1, item_id) == item_of(g0, item_id));
        assert(item_of(g2, item_id).name == item_of(g0, item_id).name);
        assert(item_of(game@, item_id).name == item_of(g0, item_id).name);
        let item = game.item_by_id(item_id);
        let ghost before = texts(output@);
        output.push(cat("Dropped: ", item.name.as_str()));
        assert(texts(output@) =~= before.push("Dropped: "@ + item_of(g0, item_id).name));
        i = i + 1;
    }
    assert(ids.take(i as int) =~= ids);
    game.turn = game.turn + 1;
    let ghost before = texts(output@);
    output.push(owned(""));  // Empty line
    assert(texts(output@) =~= before.push(""@));
    Ok(output)
}

/// Executes a put action, moving items into a container
fn execute_put(game: &mut Game, item_id: i32, container_id: i32) -> (r: Result<Vec<String>, GameError>)
    requires
        put_ok(old(game)@, item_id, container_id) ==> old(game).turn < u32::MAX,
    ensures
        output_view(r) == put_output(old(game)@, item_id, container_id),
        final(game)@ == put_state(old(game)@, item_id, container_id),
        well_formed(old(game)@) ==> well_formed(final(game)@),
{
    let ghost g = game@;
    // Get item and container names before mutation
    if !game.world.items.contains_key(&item_id) {
        proof { crate::models::item::lemma_lookup_item_views(game.world.items@, item_id); }
        return Err(GameError::Unknown);
    }
    if !game.world.items.contains_key(&container_id) {
        proof { crate::models::item::lemma_lookup_item_views(game.world.items@, container_id); }
        return Err(GameError::Unknown);
    }
    proof {
        crate::models::item::lemma_lookup_item_views(game.world.items@, item_id);
        crate::models::item::lemma_lookup_item_views(game.world.items@, container_id);
    }
    let item_name = game.item_by_id(item_id).name.clone();
    let container = game.item_by_id(container_id);
    let container_name = container.name.clone();
    // Validate container has Container behavior
    if !container.has_container() {
        return Ok(two_lines(cat3("You can't put things in the ", container_name.as_str(), ".")));
    }
    // Validate container is openable and open
    if container.has_openable() && !container.is_open() {
        return Ok(two_lines(cat3("The ", container_name.as_str(), " is closed.")));
    }
    // A container holds no more items than its capacity
    if container.is_full() {
        return Ok(two_lines(cat3("The ", container_name.as_str(), " is full.")));
    }
    proof {
        crate::models::behavior::lemma_has_container(container@);
    }
    // Remove item from inventory
    remove_all_id(&mut game.player.inventory, item_id);
    let ghost g1 = game@;
    proof {
        let cv = item_of(g1, container_id);
        let cs = container_of(cv.behaviors)->0;
        lemma_set_item(g1, container_id, with_contents(cv, cs.push(item_id)));
        if well_formed(g) {
            lemma_remove_all_subset(g.inventory, item_id);
            assert forall|k: int| 0 <= k < g1.inventory.len() implies has_key(g1.world.items, #[trigger] g1.inventory[k]) by {
                assert(g1.inventory.contains(g1.inventory[k]));
                assert(remove_all(g.inventory, item_id).contains(g1.inventory[k]));
                let j = choose|j: int| 0 <= j < g.inventory.len() && g.inventory[j] == g1.inventory[k];
                assert(has_key(g.world.items, g.inventory[j]));
            }
            assert(well_formed(g1));
            lemma_contents_exist(g1, container_id);
            crate::models::behavior::lemma_container_of_with_contents(cv, cs.push(item_id));
            assert forall|m: int| 0 <= m < cs.push(item_id).len() implies has_key(g1.world.items, #[trigger] cs.push(item_id)[m]) by {
                if m < cs.len() {
                    assert(cs.push(item_id)[m] == cs[m]);
                }
            }
            lemma_wf_set_item(g1, container_id, with_contents(cv, cs.push(item_id)));
        }
    }
    // Add item to container
    push_into(game, container_id, item_id);
    let ghost g2 = game@;
    proof {
        lemma_set_item(g2, item_id, with_moved(item_of(g2, item_id)));
        if well_formed(g2) {
            crate::models::behavior::lemma_container_of_with_moved(item_of(g2, item_id));
            lemma_contents_exist(g2, item_id);
            lemma_wf_set_item(g2, item_id, with_moved(item_of(g2, item_id)));
        }
    }
    // Mark item as moved
    set_item_moved(game, item_id);
    game.turn = game.turn + 1;
    Ok(two_lines(cat3("You put the ", item_name.as_str(), " in the ").concat(container_name.as_str()).concat(".")))
}

/// Executes a look action, displaying room or item information
///
/// If the item being examined has a "look" print, it will be shown to the player.
/// Otherwise, if the item being examined has the Readable behavior, its text will be displayed.
fn execute_look(game: &Game, target: Option<i32>) -> (r: Result<Vec<String>, GameError>)
    requires
        target matches Some(id) ==> item_exists(game@, id),
        target is None ==> room_ok(game@),
    ensures
        output_view(r) == Ok::<Seq<Seq<char>>, GameErrorView>(look_output(game@, target)),
{
    let mut output: Vec<String> = Vec::new();
    match target {
        None => {
            // Look at room
            let room = game.get_current_room();
            output.push(room.name.clone());
            if let Some(long_desc) = &room.long_desc {
                output.push(long_desc.clone());
            } else if let Some(desc) = &room.desc {
                output.push(desc.clone());
            }
            assert(texts(output@) =~= seq![room@.name] + opt_line(long_or_short(room@)));
            // List visible items
            push_listing(game, &room.items, &mut output);
        },
        Some(item_id) => {
            // Look at specific item
            let item = game.item_by_id(item_id);
            // Check for custom "look" print, or readable print
            if let Some(look_text) = item.get_print("look") {
                output.push(look_text.clone());
            } else if let Some(readable_text) = item.get_readable_text() {
                output.push(owned(readable_text));
            } else {
                // Default: "It's a red sword."
                output.push(cat3("It's ", item.get_canonical_name().as_str(), "."));
            }
        },
    }
    let ghost before = texts(output@);
    output.push(owned(""));  // Empty line
    assert(texts(output@) =~= before.push(""@));
    assert(texts(output@) =~= look_output(game@, target));
    Ok(output)
}

/// Executes the read action, displaying item text if it is readable
fn execute_read(game: &Game, target: i32) -> (r: Result<Vec<String>, GameError>)
    requires
        item_exists(game@, target),
    ensures
        output_view(r) == Ok::<Seq<Seq<char>>, GameErrorView>(read_output(game@, target)),
{
    let item = game.item_by_id(target);
    let r = match item.get_readable_text() {
        Some(text) => two_lines(owned(text)),
        None => two_lines(owned("You cannot read that...")),
    };
    assert(texts(r@) =~= read_output(game@, target));
    Ok(r)
}

/// Executes the open action, attempting to open the specified object.
///
/// Fails if:
/// - The item cannot be opened
/// - The item is locked
/// - The Item is already open
fn execute_open(game: &mut Game, target: i32) -> (r: Result<Vec<String>, GameError>)
    requires
        opens(old(game)@, target) ==> old(game).turn < u32::MAX,
    ensures
        output_view(r) == open_output(old(game)@, target),
        final(game)@ == open_state(old(game)@, target),
        well_formed(old(game)@) ==> well_formed(final(game)@),
{
    let ghost g = game@;
    proof {
        crate::models::item::lemma_lookup_item_views(game.world.items@, target);
    }
    if !game.world.items.contains_key(&target) {
        return Err(GameError::Unknown);
    }
    let item = game.item_by_id(target);
    let item_name = item.name.clone();
    // Check if item can be opened
    if !item.has_openable() {
        let r = two_lines(cat3("You can't open the ", item_name.as_str(), "."));
        assert(texts(r@) =~= open_output(g, target)->Ok_0);
        return Ok(r);
    }
    // Check if locked
    if item.is_locked() {
        let r = two_lines(cat3("The ", item_name.as_str(), " is locked."));
        assert(texts(r@) =~= open_output(g, target)->Ok_0);
        return Ok(r);
    }
    // Check if already open
    if item.is_open() {
        let r = two_lines(cat3("The ", item_name.as_str(), " is already open."));
        assert(texts(r@) =~= open_output(g, target)->Ok_0);
        return Ok(r);
    }
    proof {
        let v = with_open(item_of(g, target), true);
        lemma_set_item(g, target, v);
        if well_formed(g) {
            crate::models::behavior::lemma_container_of_with_open(item_of(g, target), true);
            lemma_contents_exist(g, target);
            lemma_wf_set_item(g, target, v);
        }
    }
    // Open it
    set_item_open(game, target, true);
    let mut output: Vec<String> = Vec::new();
    output.push(cat3("You open the ", item_name.as_str(), "."));
    // Print contents if the item is a container
    let item = game.item_by_id(target);
    let lines = item.format_container_contents(&game.world.items);
    append_lines(&mut output, lines);
    game.turn = game.turn + 1;
    let ghost before = texts(output@);
    output.push(owned(""));
    assert(texts(output@) =~= before.push(""@));
    assert(texts(output@) =~= open_output(g, target)->Ok_0);
    Ok(output)
}

/// Executes the close action against an item
fn execute_close(game: &mut Game, target: i32) -> (r: Result<Vec<String>, GameError>)
    requires
        closes(old(game)@, target) ==> old(game).turn < u32::MAX,
    ensures
        output_view(r) == close_output(old(game)@, target),
        final(game)@ == close_state(old(game)@, target),
        well_formed(old(game)@) ==> well_formed(final(game)@),
{
    let ghost g = game@;
    proof {
        crate::models::item::lemma_lookup_item_views(game.world.items@, target);
    }
    if !game.world.items.contains_key(&target) {
        return Err(GameError::Unknown);
    }
    let item = game.item_by_id(target);
    let item_name = item.name.clone();
    // Check if item can be closed
    if !item.has_openable() {
        let r = two_lines(cat3("You can't close the ", item_name.as_str(), "."));
        assert(texts(r@) =~= close_output(g, target)->Ok_0);
        return Ok(r);
    }
    // Check if already closed
    if !item.is_open() {
        let r = two_lines(cat3("The ", item_name.as_str(), " is already closed."));
        assert(texts(r@) =~= close_output(g, target)->Ok_0);
        return Ok(r);
    }
    proof {
        let v = with_open(item_of(g, target), false);
        if well_formed(g) {
            crate::models::behavior::lemma_container_of_with_open(item_of(g, target), false);
            lemma_contents_exist(g, target);
            lemma_wf_set_item(g, target, v);
        }
    }
    // Close it
    set_item_open(game, target, false);
    game.turn = game.turn + 1;
    let r = two_lines(cat3("You close the ", item_name.as_str(), "."));
    assert(texts(r@) =~= close_output(g, target)->Ok_0);
    Ok(r)
}

/// Executes the attack action, reminding the user that kindness is always an option
fn execute_attack(_game: &mut Game, _target: i32, _weapon: Option<i32>) -> (r: Result<Vec<String>, GameError>)
    ensures
        output_view(r) == Err::<Seq<Seq<char>>, GameErrorView>(
            GameErrorView::Action(ActionErrorView::InvalidCommand("What good is violence?"@)),
        ),
        *final(_game) == *old(_game),
{
    Err(GameError::Action(ActionError::InvalidCommand(owned("What good is violence?"))))
}

/// Executes the unlock action against an item
fn execute_unlock(game: &mut Game, target_id: i32, key_id: i32) -> (r: Result<Vec<String>, GameError>)
    requires
        item_exists(old(game)@, target_id),
        item_exists(old(game)@, key_id),
    ensures
        output_view(r) == unlock_output(old(game)@, target_id, key_id),
        final(game)@ == unlock_state(old(game)@, target_id, key_id),
        well_formed(old(game)@) ==> well_formed(final(game)@),
{
    let ghost g = game@;
    let target = game.item_by_id(target_id);
    let target_name = target.get_canonical_name();
    let key_name = game.item_by_id(key_id).get_canonical_name();
    if !target.is_locked() {
        return Err(
            GameError::Action(
                ActionError::InvalidCommand(capitalize(target_name.as_str()).concat(" is not locked.")),
            ),
        );
    }
    // Validate correct key
    match target.get_key_id() {
        Some(required) => {
            if required != key_id {
                return Err(
                    GameError::Action(
                        ActionError::InvalidCommand(
                            capitalize(key_name.as_str()).concat(" doesn't seem to work."),
                        ),
                    ),
                );
            }
        },
        None => {},
    }
    proof {
        let v = with_locked(item_of(g, target_id), false);
        if well_formed(g) {
            crate::models::behavior::lemma_container_of_with_locked(item_of(g, target_id), false);
            lemma_contents_exist(g, target_id);
            lemma_wf_set_item(g, target_id, v);
        }
    }
    // Unlock
    set_item_locked(game, target_id, false);
    let r = two_lines(cat3("You unlock ", target_name.as_str(), " with ").concat(key_name.as_str()).concat("."));
    assert(texts(r@) =~= unlock_output(g, target_id, key_id)->Ok_0);
    Ok(r)
}

} // verus!
