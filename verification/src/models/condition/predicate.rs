//! Predicates: checks against the game state.
use vstd::prelude::*;
use crate::engine::action::{Action, ActionView};
use crate::engine::game::{Game, GameView};
use crate::models::behavior::{is_open_state, locked};
use crate::parser::grammar::Verb;
use crate::util::{has_key, lookup};

verus! {

/// Specifies which role an item plays in an action (direct target vs indirect/tool).
#[derive(Debug, Clone, Copy, PartialEq, Eq, Structural)]
pub enum ItemRole {
    /// The primary target (e.g., item being taken, door being opened)
    Direct,
    /// The secondary target (e.g., container in "put X in Y", key in "unlock X with Y")
    Indirect,
}

/// A ConditionPredicate is a check against the game state.
#[derive(Debug)]
pub enum ConditionPredicate {
    // Inventory checks
    HasItem { item_id: i32 },
    LacksItem { item_id: i32 },
    InventoryCount { min: Option<usize>, max: Option<usize> },
    // Room/location checks
    InRoom { room_id: i32 },
    NotInRoom { room_id: i32 },
    RoomVisited { room_id: i32 },
    /// True only when entering a room (a Move action)
    EnteringRoom,
    // Item state checks
    ItemState { item_id: i32, is_open: Option<bool>, is_locked: Option<bool>, moved: Option<bool> },
    // Action/verb checks
    UsingVerb { verb: Verb },
    TargetingItem { item_id: i32, role: Option<ItemRole> },
    // World state checks
    TurnCount { min: Option<u32>, max: Option<u32> },
    GameFlag { flag_name: String, value: bool },
    // Composable logic
    And { predicates: Vec<ConditionPredicate> },
    Or { predicates: Vec<ConditionPredicate> },
    Not { predicate: Box<ConditionPredicate> },
    // Always true/false (useful for testing)
    Always,
    Never,
}

/// `x` is at least `min` and at most `max`, where given.
pub open spec fn within(x: int, min: Option<int>, max: Option<int>) -> bool {
    (min matches Some(m) ==> x >= m) && (max matches Some(m) ==> x <= m)
}

pub open spec fn opt_int_usize(o: Option<usize>) -> Option<int> {
    match o {
        Some(x) => Some(x as int),
        None => None,
    }
}

pub open spec fn opt_int_u32(o: Option<u32>) -> Option<int> {
    match o {
        Some(x) => Some(x as int),
        None => None,
    }
}

/// `actual` matches `expected` where one is given.
pub open spec fn agrees(expected: Option<bool>, actual: bool) -> bool {
    expected matches Some(e) ==> actual == e
}

/// The value of a predicate in game state `g`, without an action.
pub open spec fn eval(g: GameView, p: ConditionPredicate) -> bool
    decreases p,
{
    match p {
        ConditionPredicate::HasItem { item_id } => g.inventory.contains(item_id),
        ConditionPredicate::LacksItem { item_id } => !g.inventory.contains(item_id),
        ConditionPredicate::InventoryCount { min, max } => within(
            g.inventory.len() as int,
            opt_int_usize(min),
            opt_int_usize(max),
        ),
        ConditionPredicate::InRoom { room_id } => g.current_room == room_id,
        ConditionPredicate::NotInRoom { room_id } => g.current_room != room_id,
        ConditionPredicate::RoomVisited { room_id } => lookup(g.world.rooms, room_id) matches Some(r)
            && r.entered,
        ConditionPredicate::EnteringRoom => false,
        ConditionPredicate::ItemState { item_id, is_open, is_locked, moved } => match lookup(
            g.world.items,
            item_id,
        ) {
            None => false,
            Some(it) => agrees(is_open, is_open_state(it)) && agrees(is_locked, locked(it)) && agrees(
                moved,
                it.moved,
            ),
        },
        ConditionPredicate::UsingVerb { .. } => false,
        ConditionPredicate::TargetingItem { .. } => false,
        ConditionPredicate::TurnCount { min, max } => within(
            g.turn as int,
            opt_int_u32(min),
            opt_int_u32(max),
        ),
        ConditionPredicate::GameFlag { flag_name, value } => lookup(g.world.flags, flag_name@) == Some(
            value,
        ),
        ConditionPredicate::And { predicates } => eval_all(g, predicates@),
        ConditionPredicate::Or { predicates } => eval_any(g, predicates@),
        ConditionPredicate::Not { predicate } => !eval(g, *predicate),
        ConditionPredicate::Always => true,
        ConditionPredicate::Never => false,
    }
}

/// Every predicate of `ps` holds.
pub open spec fn eval_all(g: GameView, ps: Seq<ConditionPredicate>) -> bool
    decreases ps,
{
    if ps.len() == 0 {
        true
    } else {
        eval(g, ps[0]) && eval_all(g, ps.drop_first())
    }
}

/// Some predicate of `ps` holds.
pub open spec fn eval_any(g: GameView, ps: Seq<ConditionPredicate>) -> bool
    decreases ps,
{
    if ps.len() == 0 {
        false
    } else {
        eval(g, ps[0]) || eval_any(g, ps.drop_first())
    }
}

/// The action is the verb's action; a move verb without a direction matches every move.
pub open spec fn matches_verb(a: ActionView, verb: Verb) -> bool {
    match (a, verb) {
        (ActionView::Move { .. }, Verb::Move { dir: None }) => true,
        (ActionView::Move { dir }, Verb::Move { dir: Some(d) }) => dir == d,
        (ActionView::Get { .. }, Verb::Get) => true,
        (ActionView::Drop { .. }, Verb::Drop) => true,
        (ActionView::Look { .. }, Verb::Look) => true,
        (ActionView::Open { .. }, Verb::Open) => true,
        (ActionView::Close { .. }, Verb::Close) => true,
        (ActionView::Attack { .. }, Verb::Attack) => true,
        (ActionView::Unlock { .. }, Verb::Unlock) => true,
        (ActionView::Put { .. }, Verb::Put) => true,
        (ActionView::Read { .. }, Verb::Read) => true,
        _ => false,
    }
}

/// The direct target of the action is `id`.
pub open spec fn targets_direct(a: ActionView, id: i32) -> bool {
    match a {
        ActionView::Get { items } => items.contains(id),
        ActionView::Drop { items } => items.contains(id),
        ActionView::Put { item, .. } => item == id,
        ActionView::Look { target } => target == Some(id),
        ActionView::Open { target } => target == id,
        ActionView::Close { target } => target == id,
        ActionView::Read { target } => target == id,
        ActionView::Attack { target, .. } => target == id,
        ActionView::Unlock { target, .. } => target == id,
        ActionView::Move { .. } => false,
    }
}

/// The indirect target (container, weapon, key) of the action is `id`.
pub open spec fn targets_indirect(a: ActionView, id: i32) -> bool {
    match a {
        ActionView::Put { container, .. } => container == id,
        ActionView::Attack { weapon, .. } => weapon == Some(id),
        ActionView::Unlock { key, .. } => key == id,
        _ => false,
    }
}

/// The action targets `id` in the given role; without a role, in either.
pub open spec fn targets(a: ActionView, id: i32, role: Option<ItemRole>) -> bool {
    match role {
        None => targets_direct(a, id) || targets_indirect(a, id),
        Some(ItemRole::Direct) => targets_direct(a, id),
        Some(ItemRole::Indirect) => targets_indirect(a, id),
    }
}

/// Without a role, an action targets an item exactly when it targets it directly or
/// indirectly; only "put", "attack" and "unlock" have an indirect target.
pub proof fn lemma_any_role(a: ActionView, id: i32)
    ensures
        targets(a, id, None) == (targets(a, id, Some(ItemRole::Direct)) || targets(a, id, Some(ItemRole::Indirect))),
        !(a is Put || a is Attack || a is Unlock) ==> !targets(a, id, Some(ItemRole::Indirect)),
        a is Move ==> !targets(a, id, None),
{
}

/// The value of a predicate in game state `g` while action `a` is taken.
pub open spec fn eval_with(g: GameView, p: ConditionPredicate, a: ActionView) -> bool
    decreases p,
{
    match p {
        ConditionPredicate::UsingVerb { verb } => matches_verb(a, verb),
        ConditionPredicate::TargetingItem { item_id, role } => targets(a, item_id, role),
        ConditionPredicate::EnteringRoom => a is Move,
        ConditionPredicate::And { predicates } => eval_all_with(g, predicates@, a),
        ConditionPredicate::Or { predicates } => eval_any_with(g, predicates@, a),
        ConditionPredicate::Not { predicate } => !eval_with(g, *predicate, a),
        _ => eval(g, p),
    }
}

pub open spec fn eval_all_with(g: GameView, ps: Seq<ConditionPredicate>, a: ActionView) -> bool
    decreases ps,
{
    if ps.len() == 0 {
        true
    } else {
        eval_with(g, ps[0], a) && eval_all_with(g, ps.drop_first(), a)
    }
}

pub open spec fn eval_any_with(g: GameView, ps: Seq<ConditionPredicate>, a: ActionView) -> bool
    decreases ps,
{
    if ps.len() == 0 {
        false
    } else {
        eval_with(g, ps[0], a) || eval_any_with(g, ps.drop_first(), a)
    }
}

/// What the predicates about the player, the rooms, the turn and the flags check:
/// carrying an item, standing in a room, having entered a room, the turn count lying
/// within bounds, a flag having a value.
pub proof fn lemma_state_predicates(g: GameView, id: i32, lo: u32, hi: u32, name: String, value: bool)
    ensures
        eval(g, ConditionPredicate::HasItem { item_id: id }) == g.inventory.contains(id),
        eval(g, ConditionPredicate::LacksItem { item_id: id }) == !g.inventory.contains(id),
        eval(g, ConditionPredicate::InRoom { room_id: id }) == (g.current_room == id),
        eval(g, ConditionPredicate::NotInRoom { room_id: id }) == (g.current_room != id),
        eval(g, ConditionPredicate::RoomVisited { room_id: id }) == (has_key(g.world.rooms, id) && (lookup(
            g.world.rooms,
            id,
        )->0).entered),
        eval(g, ConditionPredicate::TurnCount { min: Some(lo), max: None }) == (g.turn >= lo),
        eval(g, ConditionPredicate::TurnCount { min: None, max: Some(hi) }) == (g.turn <= hi),
        eval(g, ConditionPredicate::TurnCount { min: Some(lo), max: Some(hi) }) == (lo <= g.turn <= hi),
        eval(g, ConditionPredicate::InventoryCount { min: Some(lo as usize), max: None }) == (g.inventory.len() >= lo),
        eval(g, ConditionPredicate::GameFlag { flag_name: name, value }) == (lookup(g.world.flags, name@) == Some(
            value,
        )),
        eval(g, ConditionPredicate::Always),
        !eval(g, ConditionPredicate::Never),
{
}

/// `ItemState` checks each given field of an existing item against the item itself:
/// whether it is open, whether it is locked, whether it has moved; each field on its
/// own, and all given fields together. For an item that does not exist it fails.
pub proof fn lemma_item_state(g: GameView, id: i32, b: bool, o: Option<bool>, l: Option<bool>, m: Option<bool>)
    ensures
        has_key(g.world.items, id) ==> eval(
            g,
            ConditionPredicate::ItemState { item_id: id, is_open: Some(b), is_locked: None, moved: None },
        ) == (is_open_state(lookup(g.world.items, id)->0) == b),
        has_key(g.world.items, id) ==> eval(
            g,
            ConditionPredicate::ItemState { item_id: id, is_open: None, is_locked: Some(b), moved: None },
        ) == (locked(lookup(g.world.items, id)->0) == b),
        has_key(g.world.items, id) ==> eval(
            g,
            ConditionPredicate::ItemState { item_id: id, is_open: None, is_locked: None, moved: Some(b) },
        ) == ((lookup(g.world.items, id)->0).moved == b),
        has_key(g.world.items, id) ==> eval(
            g,
            ConditionPredicate::ItemState { item_id: id, is_open: None, is_locked: None, moved: None },
        ),
        eval(g, ConditionPredicate::ItemState { item_id: id, is_open: o, is_locked: l, moved: m }) == (eval(
            g,
            ConditionPredicate::ItemState { item_id: id, is_open: o, is_locked: None, moved: None },
        ) && eval(g, ConditionPredicate::ItemState { item_id: id, is_open: None, is_locked: l, moved: None })
            && eval(g, ConditionPredicate::ItemState { item_id: id, is_open: None, is_locked: None, moved: m })),
        !has_key(g.world.items, id) ==> !eval(
            g,
            ConditionPredicate::ItemState { item_id: id, is_open: o, is_locked: l, moved: m },
        ),
{
}

/// Which items an action targets in which role: the items it takes or drops, the item
/// it puts and the container it puts it in, the item it looks at, reads, opens or
/// closes, and the target of an attack or an unlock with the weapon or key they use.
pub proof fn lemma_targets_meaning(a: ActionView, id: i32)
    ensures
        a matches ActionView::Get { items } ==> targets(a, id, Some(ItemRole::Direct)) == items.contains(id),
        a matches ActionView::Drop { items } ==> targets(a, id, Some(ItemRole::Direct)) == items.contains(id),
        a matches ActionView::Put { item, container } ==> targets(a, id, Some(ItemRole::Direct)) == (item == id)
            && targets(a, id, Some(ItemRole::Indirect)) == (container == id),
        a matches ActionView::Look { target } ==> targets(a, id, Some(ItemRole::Direct)) == (target == Some(id)),
        a matches ActionView::Read { target } ==> targets(a, id, Some(ItemRole::Direct)) == (target == id),
        a matches ActionView::Open { target } ==> targets(a, id, Some(ItemRole::Direct)) == (target == id),
        a matches ActionView::Close { target } ==> targets(a, id, Some(ItemRole::Direct)) == (target == id),
        a matches ActionView::Attack { target, weapon } ==> targets(a, id, Some(ItemRole::Direct)) == (target == id)
            && targets(a, id, Some(ItemRole::Indirect)) == (weapon == Some(id)),
        a matches ActionView::Unlock { target, key } ==> targets(a, id, Some(ItemRole::Direct)) == (target == id)
            && targets(a, id, Some(ItemRole::Indirect)) == (key == id),
{
}

/// The predicates about the action check its verb: a verb holds exactly for actions
/// of that verb, a move verb with a direction only for a move that way, and entering a
/// room exactly for a move.
pub proof fn lemma_verb_predicates(g: GameView, a: ActionView, d: crate::models::world::Direction)
    ensures
        eval_with(g, ConditionPredicate::UsingVerb { verb: Verb::Get }, a) == a is Get,
        eval_with(g, ConditionPredicate::UsingVerb { verb: Verb::Drop }, a) == a is Drop,
        eval_with(g, ConditionPredicate::UsingVerb { verb: Verb::Put }, a) == a is Put,
        eval_with(g, ConditionPredicate::UsingVerb { verb: Verb::Look }, a) == a is Look,
        eval_with(g, ConditionPredicate::UsingVerb { verb: Verb::Read }, a) == a is Read,
        eval_with(g, ConditionPredicate::UsingVerb { verb: Verb::Open }, a) == a is Open,
        eval_with(g, ConditionPredicate::UsingVerb { verb: Verb::Close }, a) == a is Close,
        eval_with(g, ConditionPredicate::UsingVerb { verb: Verb::Attack }, a) == a is Attack,
        eval_with(g, ConditionPredicate::UsingVerb { verb: Verb::Unlock }, a) == a is Unlock,
        eval_with(g, ConditionPredicate::UsingVerb { verb: Verb::Move { dir: None } }, a) == a is Move,
        eval_with(g, ConditionPredicate::UsingVerb { verb: Verb::Move { dir: Some(d) } }, a) == (a matches ActionView::Move {
            dir,
        } && dir == d),
        eval_with(g, ConditionPredicate::EnteringRoom, a) == a is Move,
{
}

/// `LacksItem` holds exactly when `HasItem` for the same item does not.
pub proof fn lemma_lacks_is_not_has(g: GameView, item_id: i32)
    ensures
        eval(g, ConditionPredicate::LacksItem { item_id }) == !eval(g, ConditionPredicate::HasItem { item_id }),
{
}

/// `NotInRoom` holds exactly when `InRoom` for the same room does not.
pub proof fn lemma_not_in_room_is_not_in_room(g: GameView, room_id: i32)
    ensures
        eval(g, ConditionPredicate::NotInRoom { room_id }) == !eval(g, ConditionPredicate::InRoom { room_id }),
{
}

/// Negating a predicate twice gives the predicate back, with or without an action.
pub proof fn lemma_double_negation(g: GameView, p: ConditionPredicate, a: ActionView)
    ensures
        eval(g, ConditionPredicate::Not { predicate: Box::new(ConditionPredicate::Not { predicate: Box::new(p) }) })
            == eval(g, p),
        eval_with(g, ConditionPredicate::Not { predicate: Box::new(ConditionPredicate::Not { predicate: Box::new(p) }) }, a)
            == eval_with(g, p, a),
{
    let inner = ConditionPredicate::Not { predicate: Box::new(p) };
    let outer = ConditionPredicate::Not { predicate: Box::new(inner) };
    assert(eval(g, inner) == !eval(g, p));
    assert(eval(g, outer) == !eval(g, inner));
    assert(eval_with(g, inner, a) == !eval_with(g, p, a));
    assert(eval_with(g, outer, a) == !eval_with(g, inner, a));
}

/// `And` holds exactly when every one of its predicates holds.
pub proof fn lemma_eval_all(g: GameView, ps: Seq<ConditionPredicate>)
    ensures
        eval_all(g, ps) == forall|i: int| 0 <= i < ps.len() ==> eval(g, #[trigger] ps[i]),
    decreases ps.len(),
{
    if ps.len() > 0 {
        lemma_eval_all(g, ps.drop_first());
        if eval_all(g, ps) {
            assert forall|i: int| 0 <= i < ps.len() implies eval(g, #[trigger] ps[i]) by {
                if i > 0 {
                    assert(ps[i] == ps.drop_first()[i - 1]);
                }
            }
        }
        if forall|i: int| 0 <= i < ps.len() ==> eval(g, #[trigger] ps[i]) {
            assert forall|i: int| 0 <= i < ps.drop_first().len() implies eval(g, #[trigger] ps.drop_first()[i]) by {
                assert(ps.drop_first()[i] == ps[i + 1]);
            }
        }
    }
}

/// `Or` holds exactly when some one of its predicates holds.
pub proof fn lemma_eval_any(g: GameView, ps: Seq<ConditionPredicate>)
    ensures
        eval_any(g, ps) == exists|i: int| 0 <= i < ps.len() && eval(g, #[trigger] ps[i]),
    decreases ps.len(),
{
    if ps.len() > 0 {
        lemma_eval_any(g, ps.drop_first());
        if eval_any(g, ps.drop_first()) {
            let i = choose|i: int| 0 <= i < ps.drop_first().len() && eval(g, #[trigger] ps.drop_first()[i]);
            assert(ps.drop_first()[i] == ps[i + 1]);
        }
        if exists|i: int| 0 <= i < ps.len() && eval(g, #[trigger] ps[i]) {
            let i = choose|i: int| 0 <= i < ps.len() && eval(g, #[trigger] ps[i]);
            if i > 0 {
                assert(ps[i] == ps.drop_first()[i - 1]);
            }
        }
    }
}

/// The predicate mentions neither verbs, targeted items nor room entry.
pub open spec fn action_free(p: ConditionPredicate) -> bool
    decreases p,
{
    match p {
        ConditionPredicate::UsingVerb { .. } => false,
        ConditionPredicate::TargetingItem { .. } => false,
        ConditionPredicate::EnteringRoom => false,
        ConditionPredicate::And { predicates } => all_action_free(predicates@),
        ConditionPredicate::Or { predicates } => all_action_free(predicates@),
        ConditionPredicate::Not { predicate } => action_free(*predicate),
        _ => true,
    }
}

pub open spec fn all_action_free(ps: Seq<ConditionPredicate>) -> bool
    decreases ps,
{
    if ps.len() == 0 {
        true
    } else {
        action_free(ps[0]) && all_action_free(ps.drop_first())
    }
}

/// A predicate that does not look at the action has the same value with any action
/// as without one.
pub proof fn lemma_action_free_agrees(g: GameView, p: ConditionPredicate, a: ActionView)
    requires
        action_free(p),
    ensures
        eval_with(g, p, a) == eval(g, p),
    decreases p,
{
    match p {
        ConditionPredicate::And { predicates } => {
            assert(decreases_to!(p => p->And_predicates));
            lemma_all_action_free_agrees(g, predicates@, a);
        },
        ConditionPredicate::Or { predicates } => {
            assert(decreases_to!(p => p->Or_predicates));
            lemma_all_action_free_agrees(g, predicates@, a);
        },
        ConditionPredicate::Not { predicate } => {
            lemma_action_free_agrees(g, *predicate, a);
        },
        _ => {},
    }
}

pub proof fn lemma_all_action_free_agrees(g: GameView, ps: Seq<ConditionPredicate>, a: ActionView)
    requires
        all_action_free(ps),
    ensures
        eval_all_with(g, ps, a) == eval_all(g, ps),
        eval_any_with(g, ps, a) == eval_any(g, ps),
    decreases ps,
{
    if ps.len() > 0 {
        lemma_action_free_agrees(g, ps[0], a);
        lemma_all_action_free_agrees(g, ps.drop_first(), a);
    }
}

impl Game {
    /// Evaluates a [`ConditionPredicate`] against the current game state.
    ///
    /// Composable predicates (And, Or, Not) short-circuit.
    /// Action-based predicates (UsingVerb, TargetingItem, EnteringRoom) are false here;
    /// use [`Self::evaluate_predicate_with_action`] for those.
    pub fn evaluate_predicate(&self, pred: &ConditionPredicate) -> (r: bool)
        ensures
            r == eval(self@, *pred),
        decreases pred,
    {
        match pred {
            // Inventory checks
            ConditionPredicate::HasItem { item_id } => crate::util::contains_id(
                &self.player.inventory,
                *item_id,
            ),
            ConditionPredicate::LacksItem { item_id } => !crate::util::contains_id(
                &self.player.inventory,
                *item_id,
            ),
            ConditionPredicate::InventoryCount { min, max } => {
                let count = self.player.inventory.len();
                let min_ok = match min {
                    Some(m) => count >= *m,
                    None => true,
                };
                let max_ok = match max {
                    Some(m) => count <= *m,
                    None => true,
                };
                min_ok && max_ok
            },
            // Room/location checks
            ConditionPredicate::InRoom { room_id } => self.current_room == *room_id,
            ConditionPredicate::NotInRoom { room_id } => self.current_room != *room_id,
            ConditionPredicate::RoomVisited { room_id } => {
                proof {
                    crate::engine::game::lemma_lookup_room_views(self.world.rooms@, *room_id);
                }
                match self.world.rooms.get(room_id) {
                    Some(room) => room.entered,
                    None => false,
                }
            },
            // This is only meaningful with an action; always false without.
            ConditionPredicate::EnteringRoom => false,
            // Item state checks
            ConditionPredicate::ItemState { item_id, is_open, is_locked, moved } => {
                proof {
                    crate::models::item::lemma_lookup_item_views(self.world.items@, *item_id);
                }
                let item = match self.world.items.get(item_id) {
                    Some(item) => item,
                    None => return false,
                };
                // Check each optional state condition
                let open_ok = match is_open {
                    Some(expected) => item.is_open() == *expected,
                    None => true,
                };
                let locked_ok = match is_locked {
                    Some(expected) => item.is_locked() == *expected,
                    None => true,
                };
                let moved_ok = match moved {
                    Some(expected) => item.moved == *expected,
                    None => true,
                };
                open_ok && locked_ok && moved_ok
            },
            // Action/verb checks - Require Action context
            ConditionPredicate::UsingVerb { .. } => false,
            ConditionPredicate::TargetingItem { .. } => false,
            // World state checks
            ConditionPredicate::TurnCount { min, max } => {
                let min_ok = match min {
                    Some(m) => self.turn >= *m,
                    None => true,
                };
                let max_ok = match max {
                    Some(m) => self.turn <= *m,
                    None => true,
                };
                min_ok && max_ok
            },
            ConditionPredicate::GameFlag { flag_name, value } => match self.world.flags.get(
                flag_name.as_str(),
            ) {
                Some(v) => *v == *value,
                None => false,
            },
            // Composable logic (with short-circuit evaluation)
            ConditionPredicate::And { predicates } => {
                let mut i: usize = 0;
                assert(predicates@.subrange(0, predicates@.len() as int) == predicates@);
                while i < predicates.len()
                    invariant
                        i <= predicates@.len(),
                        *pred == (ConditionPredicate::And { predicates: *predicates }),
                        eval_all(self@, predicates@) == eval_all(
                            self@,
                            predicates@.subrange(i as int, predicates@.len() as int),
                        ),
                    decreases predicates@.len() - i,
                {
                    let ghost rest = predicates@.subrange(i as int, predicates@.len() as int);
                    assert(rest.drop_first() == predicates@.subrange(i + 1, predicates@.len() as int));
                    assert(rest[0] == predicates@[i as int]);
                    proof {
                        assert(decreases_to!(*pred => (*pred)->And_predicates));
                        assert(decreases_to!(*predicates => predicates@));
                        assert(decreases_to!(predicates@ => predicates@[i as int]));
                    }
                    if !self.evaluate_predicate(&predicates[i]) {
                        return false;
                    }
                    i = i + 1;
                }
                true
            },
            ConditionPredicate::Or { predicates } => {
                let mut i: usize = 0;
                assert(predicates@.subrange(0, predicates@.len() as int) == predicates@);
                while i < predicates.len()
                    invariant
                        i <= predicates@.len(),
                        *pred == (ConditionPredicate::Or { predicates: *predicates }),
                        eval_any(self@, predicates@) == eval_any(
                            self@,
                            predicates@.subrange(i as int, predicates@.len() as int),
                        ),
                    decreases predicates@.len() - i,
                {
                    let ghost rest = predicates@.subrange(i as int, predicates@.len() as int);
                    assert(rest.drop_first() == predicates@.subrange(i + 1, predicates@.len() as int));
                    assert(rest[0] == predicates@[i as int]);
                    proof {
                        assert(decreases_to!(*pred => (*pred)->Or_predicates));
                        assert(decreases_to!(*predicates => predicates@));
                        assert(decreases_to!(predicates@ => predicates@[i as int]));
                    }
                    if self.evaluate_predicate(&predicates[i]) {
                        return true;
                    }
                    i = i + 1;
                }
                false
            },
            ConditionPredicate::Not { predicate } => !self.evaluate_predicate(predicate),
            // Testing helpers
            ConditionPredicate::Always => true,
            ConditionPredicate::Never => false,
        }
    }

    /// Evaluates a [`ConditionPredicate`] with action context for verb/targeting checks.
    ///
    /// For predicates that don't need action context, delegates to [`Self::evaluate_predicate`].
    pub fn evaluate_predicate_with_action(&self, pred: &ConditionPredicate, action: &Action) -> (r: bool)
        ensures
            r == eval_with(self@, *pred, action@),
        decreases pred,
    {
        match pred {
            ConditionPredicate::UsingVerb { verb } => action_matches_verb(action, verb),
            ConditionPredicate::TargetingItem { item_id, role } => action_targets_item(
                action,
                *item_id,
                *role,
            ),
            ConditionPredicate::EnteringRoom => {
                // Only true for Move actions (entering a room)
                match action {
                    Action::Move { .. } => true,
                    _ => false,
                }
            },
            // Composable predicates recurse with action context
            ConditionPredicate::And { predicates } => {
                let mut i: usize = 0;
                assert(predicates@.subrange(0, predicates@.len() as int) == predicates@);
                while i < predicates.len()
                    invariant
                        i <= predicates@.len(),
                        *pred == (ConditionPredicate::And { predicates: *predicates }),
                        eval_all_with(self@, predicates@, action@) == eval_all_with(
                            self@,
                            predicates@.subrange(i as int, predicates@.len() as int),
                            action@,
                        ),
                    decreases predicates@.len() - i,
                {
                    let ghost rest = predicates@.subrange(i as int, predicates@.len() as int);
                    assert(rest.drop_first() == predicates@.subrange(i + 1, predicates@.len() as int));
                    assert(rest[0] == predicates@[i as int]);
                    proof {
                        assert(decreases_to!(*pred => (*pred)->And_predicates));
                        assert(decreases_to!(*predicates => predicates@));
                        assert(decreases_to!(predicates@ => predicates@[i as int]));
                    }
                    if !self.evaluate_predicate_with_action(&predicates[i], action) {
                        return false;
                    }
                    i = i + 1;
                }
                true
            },
            ConditionPredicate::Or { predicates } => {
                let mut i: usize = 0;
                assert(predicates@.subrange(0, predicates@.len() as int) == predicates@);
                while i < predicates.len()
                    invariant
                        i <= predicates@.len(),
                        *pred == (ConditionPredicate::Or { predicates: *predicates }),
                        eval_any_with(self@, predicates@, action@) == eval_any_with(
                            self@,
                            predicates@.subrange(i as int, predicates@.len() as int),
                            action@,
                        ),
                    decreases predicates@.len() - i,
                {
                    let ghost rest = predicates@.subrange(i as int, predicates@.len() as int);
                    assert(rest.drop_first() == predicates@.subrange(i + 1, predicates@.len() as int));
                    assert(rest[0] == predicates@[i as int]);
                    proof {
                        assert(decreases_to!(*pred => (*pred)->Or_predicates));
                        assert(decreases_to!(*predicates => predicates@));
                        assert(decreases_to!(predicates@ => predicates@[i as int]));
                    }
                    if self.evaluate_predicate_with_action(&predicates[i], action) {
                        return true;
                    }
                    i = i + 1;
                }
                false
            },
            ConditionPredicate::Not { predicate } => !self.evaluate_predicate_with_action(
                predicate,
                action,
            ),
            // All other predicates delegate to regular evaluation
            _ => self.evaluate_predicate(pred),
        }
    }
}

/// Checks if an action corresponds to a specific verb.
fn action_matches_verb(action: &Action, verb: &Verb) -> (r: bool)
    ensures
        r == matches_verb(action@, *verb),
{
    match (action, verb) {
        // A move verb without a direction matches all movement
        (Action::Move { .. }, Verb::Move { dir: None }) => true,
        // Otherwise compare dirs
        (Action::Move { dir }, Verb::Move { dir: Some(dir2) }) => *dir == *dir2,
        (Action::Get { .. }, Verb::Get) => true,
        (Action::Drop { .. }, Verb::Drop) => true,
        (Action::Look { .. }, Verb::Look) => true,
        (Action::Open { .. }, Verb::Open) => true,
        (Action::Close { .. }, Verb::Close) => true,
        (Action::Attack { .. }, Verb::Attack) => true,
        (Action::Unlock { .. }, Verb::Unlock) => true,
        (Action::Put { .. }, Verb::Put) => true,
        (Action::Read { .. }, Verb::Read) => true,
        _ => false,
    }
}

/// Checks if an action targets a specific item in a specific role.
///
/// If `role` is `None`, checks if the item appears anywhere in the action (direct or indirect).
/// If `role` is `Some(ItemRole::Direct)`, checks only direct targets.
/// If `role` is `Some(ItemRole::Indirect)`, checks only indirect targets.
pub fn action_targets_item(action: &Action, item_id: i32, role: Option<ItemRole>) -> (r: bool)
    ensures
        r == targets(action@, item_id, role),
{
    match action {
        Action::Get { items } | Action::Drop { items } => {
            // These only have direct targets
            match role {
                None | Some(ItemRole::Direct) => crate::util::contains_id(items, item_id),
                Some(ItemRole::Indirect) => false,
            }
        },
        Action::Put { item, container } => {
            match role {
                None => *item == item_id || *container == item_id,
                Some(ItemRole::Direct) => *item == item_id,
                Some(ItemRole::Indirect) => *container == item_id,
            }
        },
        Action::Look { target } => {
            // These only have direct targets
            match role {
                None | Some(ItemRole::Direct) => match target {
                    Some(t) => *t == item_id,
                    None => false,
                },
                Some(ItemRole::Indirect) => false,
            }
        },
        Action::Open { target } | Action::Close { target } | Action::Read { target } => {
            // These only have direct targets
            match role {
                None | Some(ItemRole::Direct) => *target == item_id,
                Some(ItemRole::Indirect) => false,
            }
        },
        Action::Attack { target, weapon } => {
            let weapon_is = match weapon {
                Some(w) => *w == item_id,
                None => false,
            };
            match role {
                None => *target == item_id || weapon_is,
                Some(ItemRole::Direct) => *target == item_id,
                Some(ItemRole::Indirect) => weapon_is,
            }
        },
        Action::Unlock { target, key } => {
            match role {
                None => *target == item_id || *key == item_id,
                Some(ItemRole::Direct) => *target == item_id,
                Some(ItemRole::Indirect) => *key == item_id,
            }
        },
        Action::Move { .. } => false,
    }
}

} // verus!
