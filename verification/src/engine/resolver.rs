//! Command resolution converts a parsed [Command] into an executable [Action].
//!
//! During this step, specified nouns are resolved from strings of text provided by the user
//! and converted into ID's for lookup in the game object.
use vstd::prelude::*;
use crate::engine::action::{Action, ActionView};
use crate::engine::game::{
    all_items_exist, held_ok, item_exists, item_of, room_here, sight_ok, Game, GameView,
};
use crate::errors::{ActionError, ActionErrorView};
use crate::models::behavior::{container_of, hidden, is_open_state};
use crate::models::item::{Item, ItemView};
use crate::models::world::{direction_of, Direction};
use crate::parser::command::{Command, CommandView};
use crate::parser::grammar::{NounPhrase, NounPhraseView, Verb};
use crate::util::{eq_ascii_case, eq_ignore_ascii_case, has_key, owned};

verus! {

// ---------------------------------------------------------------------------
// Naming items
// ---------------------------------------------------------------------------
/// The item has an adjective equal to `adj` up to ASCII case.
pub open spec fn has_adjective(v: ItemView, adj: Seq<char>) -> bool {
    exists|j: int| 0 <= j < v.adjectives.len() && eq_ascii_case(#[trigger] v.adjectives[j], adj)
}

/// The noun phrase names the item: the nouns agree up to ASCII case, and every
/// adjective of the phrase is one of the item's.
pub open spec fn item_named(v: ItemView, n: NounPhraseView) -> bool {
    &&& eq_ascii_case(v.name, n.noun)
    &&& forall|i: int| 0 <= i < n.adjectives.len() ==> has_adjective(v, #[trigger] n.adjectives[i])
}

/// Texts equal up to ASCII case are equal to the same texts up to ASCII case.
proof fn lemma_case_trans(a: Seq<char>, b: Seq<char>, c: Seq<char>)
    requires
        eq_ascii_case(a, b),
    ensures
        eq_ascii_case(a, c) == eq_ascii_case(b, c),
{
    if eq_ascii_case(a, c) {
        assert forall|i: int| 0 <= i < b.len() implies crate::util::ascii_lower(#[trigger] b[i]) == crate::util::ascii_lower(c[i]) by {
            assert(crate::util::ascii_lower(a[i]) == crate::util::ascii_lower(b[i]));
            assert(crate::util::ascii_lower(a[i]) == crate::util::ascii_lower(c[i]));
        }
    }
    if eq_ascii_case(b, c) {
        assert forall|i: int| 0 <= i < a.len() implies crate::util::ascii_lower(#[trigger] a[i]) == crate::util::ascii_lower(c[i]) by {
            assert(crate::util::ascii_lower(a[i]) == crate::util::ascii_lower(b[i]));
            assert(crate::util::ascii_lower(b[i]) == crate::util::ascii_lower(c[i]));
        }
    }
}

/// Naming is blind to ASCII case: a phrase names an item only when its noun is the
/// item's name up to ASCII case, a phrase without adjectives names every item so
/// named, and two items whose names and adjectives differ only in ASCII case are
/// named by the same phrases.
pub proof fn lemma_naming_ignores_case(v: ItemView, w: ItemView, n: NounPhraseView)
    requires
        eq_ascii_case(v.name, w.name),
        v.adjectives.len() == w.adjectives.len(),
        forall|j: int| 0 <= j < v.adjectives.len() ==> eq_ascii_case(#[trigger] v.adjectives[j], w.adjectives[j]),
    ensures
        item_named(v, n) ==> eq_ascii_case(v.name, n.noun),
        eq_ascii_case(v.name, n.noun) && n.adjectives.len() == 0 ==> item_named(v, n),
        item_named(v, n) == item_named(w, n),
{
    lemma_case_trans(v.name, w.name, n.noun);
    assert forall|a: Seq<char>| has_adjective(v, a) == has_adjective(w, a) by {
        if has_adjective(v, a) {
            let j = choose|j: int| 0 <= j < v.adjectives.len() && eq_ascii_case(#[trigger] v.adjectives[j], a);
            lemma_case_trans(v.adjectives[j], w.adjectives[j], a);
            assert(eq_ascii_case(w.adjectives[j], a));
        }
        if has_adjective(w, a) {
            let j = choose|j: int| 0 <= j < w.adjectives.len() && eq_ascii_case(#[trigger] w.adjectives[j], a);
            lemma_case_trans(v.adjectives[j], w.adjectives[j], a);
            assert(eq_ascii_case(v.adjectives[j], a));
        }
    }
    assert forall|i: int| 0 <= i < n.adjectives.len() implies has_adjective(v, #[trigger] n.adjectives[i])
        == has_adjective(w, n.adjectives[i]) by {}
}

/// The item `id` is not hidden and the phrase names it.
pub open spec fn visible_named(g: GameView, n: NounPhraseView) -> spec_fn(i32) -> bool {
    |id: i32| !hidden(item_of(g, id)) && item_named(item_of(g, id), n)
}

/// The phrase names the item `id`.
pub open spec fn held_named(g: GameView, n: NounPhraseView) -> spec_fn(i32) -> bool {
    |id: i32| item_named(item_of(g, id), n)
}

/// The visible items named by `n` inside the item `c`, when it is an open container.
pub open spec fn inside_matches(g: GameView, n: NounPhraseView, c: i32) -> Seq<i32> {
    let it = item_of(g, c);
    if is_open_state(it) {
        match container_of(it.behaviors) {
            Some(cs) => cs.filter(visible_named(g, n)),
            None => Seq::empty(),
        }
    } else {
        Seq::empty()
    }
}

/// The visible items named by `n` inside the open containers among `cs`, in order.
pub open spec fn contained_matches(g: GameView, n: NounPhraseView, cs: Seq<i32>) -> Seq<i32>
    decreases cs.len(),
{
    if cs.len() == 0 {
        Seq::empty()
    } else {
        contained_matches(g, n, cs.drop_last()) + inside_matches(g, n, cs.last())
    }
}

/// The visible items of the player's room named by `n`; when none lies in the room
/// itself, those inside the room's open containers.
pub open spec fn visible_matches(g: GameView, n: NounPhraseView) -> Seq<i32> {
    let direct = room_here(g).items.filter(visible_named(g, n));
    if direct.len() == 0 {
        contained_matches(g, n, room_here(g).items)
    } else {
        direct
    }
}

/// The one id of `m`; an error when there is none or more than one.
pub open spec fn single_match(m: Seq<i32>, not_found: ActionErrorView, noun: Seq<char>) -> Result<
    i32,
    ActionErrorView,
> {
    if m.len() == 0 {
        Err(not_found)
    } else if m.len() == 1 {
        Ok(m[0])
    } else {
        Err(ActionErrorView::AmbiguousItem(noun))
    }
}

/// The item visible in the player's room that `n` names.
pub open spec fn find_visible(g: GameView, n: NounPhraseView) -> Result<i32, ActionErrorView> {
    single_match(visible_matches(g, n), ActionErrorView::ItemNotFound(n.noun), n.noun)
}

/// The item of the inventory that `n` names.
pub open spec fn find_held(g: GameView, n: NounPhraseView) -> Result<i32, ActionErrorView> {
    single_match(
        g.inventory.filter(held_named(g, n)),
        ActionErrorView::ItemNotFoundInventory(n.noun),
        n.noun,
    )
}

/// A visible item, else one of the inventory; the inventory's error when both fail.
pub open spec fn seen_or_held(g: GameView, n: NounPhraseView) -> Result<i32, ActionErrorView> {
    match find_visible(g, n) {
        Ok(id) => Ok(id),
        Err(_) => find_held(g, n),
    }
}

/// An item of the inventory, else a visible one; the room's error when both fail.
pub open spec fn held_or_seen(g: GameView, n: NounPhraseView) -> Result<i32, ActionErrorView> {
    match find_held(g, n) {
        Ok(id) => Ok(id),
        Err(_) => find_visible(g, n),
    }
}

/// The items that the phrases `ns` name, in order; the error of the first phrase
/// that names none or several.
pub open spec fn ids_of(g: GameView, ns: Seq<NounPhraseView>, held: bool) -> Result<Seq<i32>, ActionErrorView>
    decreases ns.len(),
{
    if ns.len() == 0 {
        Ok(Seq::empty())
    } else {
        match ids_of(g, ns.drop_last(), held) {
            Err(e) => Err(e),
            Ok(ids) => match (if held {
                find_held(g, ns.last())
            } else {
                find_visible(g, ns.last())
            }) {
                Err(e) => Err(e),
                Ok(id) => Ok(ids.push(id)),
            },
        }
    }
}

/// What a filter keeps passes the test and comes from the filtered sequence.
pub proof fn lemma_filter_kept(s: Seq<i32>, p: spec_fn(i32) -> bool)
    ensures
        forall|k: int| 0 <= k < s.filter(p).len() ==> p(#[trigger] s.filter(p)[k]) && s.contains(s.filter(p)[k]),
    decreases s.len(),
{
    reveal(Seq::filter);
    if s.len() > 0 {
        lemma_filter_kept(s.drop_last(), p);
        let f = s.filter(p);
        let d = s.drop_last().filter(p);
        assert forall|k: int| 0 <= k < f.len() implies p(#[trigger] f[k]) && s.contains(f[k]) by {
            if k < d.len() {
                assert(f[k] == d[k]);
                let j = choose|j: int| 0 <= j < s.drop_last().len() && s.drop_last()[j] == d[k];
                assert(s[j] == d[k]);
            } else {
                assert(f[k] == s.last());
                assert(s[s.len() - 1] == s.last());
            }
        }
    }
}

/// The item `id` lies inside an open container among `cs`.
pub open spec fn inside_open_container(g: GameView, cs: Seq<i32>, id: i32) -> bool {
    exists|j: int|
        0 <= j < cs.len() && is_open_state(item_of(g, #[trigger] cs[j])) && (container_of(
            item_of(g, cs[j]).behaviors,
        ) matches Some(xs) && xs.contains(id))
}

/// What the search inside containers finds is visible, named by the phrase, and lies
/// in one of the open containers searched.
pub proof fn lemma_contained_matches(g: GameView, n: NounPhraseView, cs: Seq<i32>)
    ensures
        forall|k: int|
            0 <= k < contained_matches(g, n, cs).len() ==> visible_named(g, n)(
                #[trigger] contained_matches(g, n, cs)[k],
            ) && inside_open_container(g, cs, contained_matches(g, n, cs)[k]),
    decreases cs.len(),
{
    if cs.len() > 0 {
        let p = visible_named(g, n);
        let rest = contained_matches(g, n, cs.drop_last());
        let c = cs.last();
        let inside = inside_matches(g, n, c);
        lemma_contained_matches(g, n, cs.drop_last());
        let all = contained_matches(g, n, cs);
        assert(all == rest + inside);
        if let Some(xs) = container_of(item_of(g, c).behaviors) {
            lemma_filter_kept(xs, p);
        }
        assert forall|k: int| 0 <= k < all.len() implies p(#[trigger] all[k]) && inside_open_container(g, cs, all[k]) by {
            if k < rest.len() {
                assert(all[k] == rest[k]);
                let j = choose|j: int|
                    0 <= j < cs.drop_last().len() && is_open_state(item_of(g, #[trigger] cs.drop_last()[j])) && (
                    container_of(item_of(g, cs.drop_last()[j]).behaviors) matches Some(ys) && ys.contains(rest[k]));
                assert(cs[j] == cs.drop_last()[j]);
            } else {
                assert(all[k] == inside[k - rest.len()]);
                assert(cs[cs.len() - 1] == c);
            }
        }
    }
}

/// The item a phrase resolves to is the one it names: a visible item is not hidden
/// and lies in the player's room or in an open container there; a held item is in
/// the inventory.
pub proof fn lemma_found_is_named(g: GameView, n: NounPhraseView)
    ensures
        find_visible(g, n) matches Ok(id) ==> !hidden(item_of(g, id)) && item_named(item_of(g, id), n) && (
        room_here(g).items.contains(id) || inside_open_container(g, room_here(g).items, id)),
        find_held(g, n) matches Ok(id) ==> item_named(item_of(g, id), n) && g.inventory.contains(id),
{
    let items = room_here(g).items;
    lemma_filter_kept(items, visible_named(g, n));
    lemma_contained_matches(g, n, items);
    lemma_filter_kept(g.inventory, held_named(g, n));
    let m = visible_matches(g, n);
    if m.len() == 1 {
        assert(visible_named(g, n)(m[0]));
    }
    let h = g.inventory.filter(held_named(g, n));
    if h.len() == 1 {
        assert(held_named(g, n)(h[0]));
    }
}

// ---------------------------------------------------------------------------
// Sorted id lists
// ---------------------------------------------------------------------------
/// Each id of `s` is smaller than the next.
pub open spec fn strictly_sorted(s: Seq<i32>) -> bool {
    forall|i: int, j: int| 0 <= i < j < s.len() ==> s[i] < s[j]
}

/// `out` lists the ids of `ids` in increasing order, each once.
pub open spec fn sorts_uniquely(ids: Seq<i32>, out: Seq<i32>) -> bool {
    strictly_sorted(out) && forall|x: i32| out.contains(x) <==> ids.contains(x)
}

/// The ids of `ids` in increasing order, each once.
pub open spec fn sorted_unique(ids: Seq<i32>) -> Seq<i32> {
    choose|out: Seq<i32>| sorts_uniquely(ids, out)
}

/// Two strictly increasing lists with the same ids are the same list.
pub proof fn lemma_sorted_lists_equal(a: Seq<i32>, b: Seq<i32>)
    requires
        strictly_sorted(a),
        strictly_sorted(b),
        forall|x: i32| a.contains(x) <==> b.contains(x),
    ensures
        a == b,
    decreases a.len(),
{
    if a.len() == 0 {
        if b.len() > 0 {
            assert(b.contains(b[0]));
        }
        assert(a =~= b);
    } else {
        assert(a.contains(a[0]));
        assert(b.len() > 0);
        assert(b.contains(b[0]));
        let i = choose|i: int| 0 <= i < b.len() && b[i] == a[0];
        let j = choose|j: int| 0 <= j < a.len() && a[j] == b[0];
        if i > 0 {
            assert(b[0] < b[i]);
            if j > 0 {
                assert(a[0] < a[j]);
            }
        }
        assert(a[0] == b[0]);
        let a2 = a.drop_first();
        let b2 = b.drop_first();
        assert forall|x: i32| a2.contains(x) implies b2.contains(x) by {
            let k = choose|k: int| 0 <= k < a2.len() && a2[k] == x;
            assert(a.contains(a[k + 1]));
            assert(a[0] < a[k + 1]);
            let m = choose|m: int| 0 <= m < b.len() && b[m] == x;
            assert(m != 0);
            assert(b2[m - 1] == x);
        }
        assert forall|x: i32| b2.contains(x) implies a2.contains(x) by {
            let k = choose|k: int| 0 <= k < b2.len() && b2[k] == x;
            assert(b.contains(b[k + 1]));
            assert(b[0] < b[k + 1]);
            let m = choose|m: int| 0 <= m < a.len() && a[m] == x;
            assert(m != 0);
            assert(a2[m - 1] == x);
        }
        lemma_sorted_lists_equal(a2, b2);
        assert forall|k: int| 0 <= k < a.len() implies a[k] == b[k] by {
            if k > 0 {
                assert(a[k] == a2[k - 1]);
                assert(b[k] == b2[k - 1]);
            }
        }
        assert(a =~= b);
    }
}

/// Filtering one more element of `s` keeps it when it passes.
pub proof fn lemma_filter_step(s: Seq<i32>, p: spec_fn(i32) -> bool, i: int)
    requires
        0 <= i < s.len(),
    ensures
        s.take(i + 1).filter(p) == if p(s[i]) {
            s.take(i).filter(p).push(s[i])
        } else {
            s.take(i).filter(p)
        },
{
    reveal(Seq::filter);
    assert(s.take(i + 1).drop_last() =~= s.take(i));
    assert(s.take(i + 1).last() == s[i]);
}

/// Inserting `x` where the smaller ids end keeps a strictly increasing list so, with
/// `x` added to its ids.
proof fn lemma_insert_sorted(before: Seq<i32>, j: int, x: i32)
    requires
        strictly_sorted(before),
        0 <= j <= before.len(),
        forall|k: int| 0 <= k < j ==> before[k] < x,
        j < before.len() ==> before[j] > x,
    ensures
        strictly_sorted(before.insert(j, x)),
        forall|y: i32| #[trigger] before.insert(j, x).contains(y) <==> (before.contains(y) || y == x),
{
    let out = before.insert(j, x);
    assert forall|k: int| j <= k < before.len() implies before[k] > x by {
        if k > j {
            assert(before[j] < before[k]);
        }
    }
    assert forall|a: int, b: int| 0 <= a < b < out.len() implies out[a] < out[b] by {
        if b < j {
            assert(before[a] < before[b]);
        } else if b == j {
            assert(out[a] == before[a]);
        } else if a < j {
            assert(out[a] == before[a]);
            assert(out[b] == before[b - 1]);
        } else if a == j {
            assert(out[b] == before[b - 1]);
        } else {
            assert(before[a - 1] < before[b - 1]);
        }
    }
    assert forall|y: i32| #[trigger] out.contains(y) <==> (before.contains(y) || y == x) by {
        if out.contains(y) {
            let k = choose|k: int| 0 <= k < out.len() && out[k] == y;
            if k < j {
                assert(before[k] == y);
            } else if k > j {
                assert(before[k - 1] == y);
            }
        }
        if before.contains(y) {
            let k = choose|k: int| 0 <= k < before.len() && before[k] == y;
            if k < j {
                assert(out[k] == y);
            } else {
                assert(out[k + 1] == y);
            }
        }
        if y == x {
            assert(out[j] == y);
        }
    }
}

/// The first `i + 1` ids hold those of the first `i` and the next one.
proof fn lemma_take_one_more(s: Seq<i32>, i: int)
    requires
        0 <= i < s.len(),
    ensures
        forall|y: i32| #[trigger] s.take(i + 1).contains(y) <==> (s.take(i).contains(y) || y == s[i]),
{
    let prefix = s.take(i);
    let longer = s.take(i + 1);
    assert forall|y: i32| #[trigger] longer.contains(y) <==> (prefix.contains(y) || y == s[i]) by {
        if longer.contains(y) {
            let k = choose|k: int| 0 <= k < longer.len() && longer[k] == y;
            if k < i {
                assert(prefix[k] == y);
            }
        }
        if prefix.contains(y) {
            let k = choose|k: int| 0 <= k < prefix.len() && prefix[k] == y;
            assert(longer[k] == y);
        }
        if y == s[i] {
            assert(longer[i] == y);
        }
    }
}

/// The ids of `ids`, in increasing order and each once.
#[verifier::spinoff_prover]
fn sorted_ids(ids: &Vec<i32>) -> (out: Vec<i32>)
    ensures
        out@ == sorted_unique(ids@),
        sorts_uniquely(ids@, out@),
{
    let mut out: Vec<i32> = Vec::new();
    let mut i: usize = 0;
    while i < ids.len()
        invariant
            i <= ids@.len(),
            sorts_uniquely(ids@.take(i as int), out@),
        decreases ids@.len() - i,
    {
        let x = ids[i];
        proof {
            lemma_take_one_more(ids@, i as int);
        }
        let mut j: usize = 0;
        while j < out.len() && out[j] < x
            invariant
                j <= out@.len(),
                forall|k: int| 0 <= k < j ==> out@[k] < x,
            decreases out@.len() - j,
        {
            j = j + 1;
        }
        if j < out.len() && out[j] == x {
            assert(out@.contains(x));
            assert forall|y: i32| #[trigger] out@.contains(y) <==> ids@.take(i + 1).contains(y) by {}
        } else {
            let ghost before = out@;
            proof {
                lemma_insert_sorted(before, j as int, x);
            }
            out.insert(j, x);
            assert forall|y: i32| #[trigger] out@.contains(y) <==> ids@.take(i + 1).contains(y) by {
                assert(before.contains(y) <==> ids@.take(i as int).contains(y));
            }
        }
        i = i + 1;
    }
    assert(ids@.take(i as int) =~= ids@);
    proof {
        let c = choose|c: Seq<i32>| sorts_uniquely(ids@, c);
        assert(sorts_uniquely(ids@, out@));
        lemma_sorted_lists_equal(c, out@);
    }
    out
}

// ---------------------------------------------------------------------------
// Resolving commands
// ---------------------------------------------------------------------------
/// The direction a move command names, or why it names none.
pub open spec fn move_direction(c: CommandView) -> Result<Direction, ActionErrorView> {
    match c.verb {
        Verb::Move { dir: Some(d) } => Ok(d),
        _ => if c.direct.len() == 0 {
            Err(ActionErrorView::DirectionNotFound(Seq::empty()))
        } else {
            match direction_of(c.direct[0].noun) {
                Some(d) => Ok(d),
                None => Err(ActionErrorView::DirectionNotFound(c.direct[0].noun)),
            }
        },
    }
}

pub open spec fn resolved_move(g: GameView, c: CommandView) -> Result<ActionView, ActionErrorView> {
    match move_direction(c) {
        Err(e) => Err(e),
        Ok(d) => if has_key(room_here(g).exits, d) {
            Ok(ActionView::Move { dir: d })
        } else {
            Err(ActionErrorView::NoExit(d))
        },
    }
}

pub open spec fn resolved_put(g: GameView, c: CommandView) -> Result<ActionView, ActionErrorView> {
    if c.direct.len() != 1 {
        Err(ActionErrorView::InvalidCommand("Put requires exactly one item"@))
    } else {
        match c.indirect {
            None => Err(ActionErrorView::InvalidCommand("Put requires a container (use 'put X in Y')"@)),
            Some(ind) => match find_held(g, c.direct[0]) {
                Err(e) => Err(e),
                Ok(item) => match held_or_seen(g, ind) {
                    Err(e) => Err(e),
                    Ok(container) => Ok(ActionView::Put { item, container }),
                },
            },
        }
    }
}

pub open spec fn resolved_unlock(g: GameView, c: CommandView) -> Result<ActionView, ActionErrorView> {
    if c.direct.len() == 0 {
        Err(ActionErrorView::InvalidCommand("What do you want to unlock?"@))
    } else {
        match find_visible(g, c.direct[0]) {
            Err(e) => Err(e),
            Ok(target) => match c.indirect {
                None => Err(ActionErrorView::InvalidCommand("What do you want to unlock it with?"@)),
                Some(k) => match find_held(g, k) {
                    Err(e) => Err(e),
                    Ok(key) => Ok(ActionView::Unlock { target, key }),
                },
            },
        }
    }
}

/// The action of a look, read, open or close command: the one item it names, visible
/// or else held.
pub open spec fn resolved_one(g: GameView, c: CommandView, verb: Verb) -> Result<ActionView, ActionErrorView> {
    match verb {
        Verb::Look => if c.direct.len() > 1 {
            Err(ActionErrorView::InvalidCommand("Cannot Look at more than 1 object"@))
        } else if c.direct.len() == 0 {
            Ok(ActionView::Look { target: None })
        } else {
            match seen_or_held(g, c.direct[0]) {
                Ok(id) => Ok(ActionView::Look { target: Some(id) }),
                Err(e) => Err(e),
            }
        },
        Verb::Read => if c.direct.len() > 1 {
            Err(ActionErrorView::InvalidCommand("Cannot Read more than 1 object"@))
        } else if c.direct.len() == 0 {
            Err(ActionErrorView::InvalidCommand("What do you want to read?"@))
        } else {
            match seen_or_held(g, c.direct[0]) {
                Ok(id) => Ok(ActionView::Read { target: id }),
                Err(e) => Err(e),
            }
        },
        Verb::Open => if c.direct.len() != 1 {
            Err(ActionErrorView::InvalidCommand("Open requires exactly one item"@))
        } else {
            match seen_or_held(g, c.direct[0]) {
                Ok(id) => Ok(ActionView::Open { target: id }),
                Err(e) => Err(e),
            }
        },
        _ => if c.direct.len() != 1 {
            Err(ActionErrorView::InvalidCommand("Close requires exactly one item"@))
        } else {
            match seen_or_held(g, c.direct[0]) {
                Ok(id) => Ok(ActionView::Close { target: id }),
                Err(e) => Err(e),
            }
        },
    }
}

/// What resolving command `c` in game state `g` gives.
pub open spec fn resolved(g: GameView, c: CommandView) -> Result<ActionView, ActionErrorView> {
    match c.verb {
        Verb::Move { .. } => resolved_move(g, c),
        Verb::Get => match ids_of(g, c.direct, false) {
            Ok(ids) => Ok(ActionView::Get { items: sorted_unique(ids) }),
            Err(e) => Err(e),
        },
        Verb::Drop => match ids_of(g, c.direct, true) {
            Ok(ids) => Ok(ActionView::Drop { items: sorted_unique(ids) }),
            Err(e) => Err(e),
        },
        Verb::Put => resolved_put(g, c),
        Verb::Look | Verb::Read | Verb::Open | Verb::Close => resolved_one(g, c, c.verb),
        Verb::Attack => Ok(ActionView::Attack { target: -1i32, weapon: None }),
        Verb::Unlock => resolved_unlock(g, c),
    }
}

/// Resolving `c` in `g` reads only items that exist: a move reads the player's room once
/// it knows its direction, "get" looks around the room, "drop" goes through what the
/// player carries, and the other verbs that name an item do both.
pub open spec fn can_resolve(g: GameView, c: CommandView) -> bool {
    match c.verb {
        Verb::Move { .. } => move_direction(c) is Ok ==> has_key(g.world.rooms, g.current_room),
        Verb::Get => c.direct.len() > 0 ==> sight_ok(g),
        Verb::Drop => c.direct.len() > 0 ==> held_ok(g),
        Verb::Attack => true,
        _ => c.direct.len() > 0 ==> sight_ok(g) && held_ok(g),
    }
}

/// The action can be executed in game state `g`: a move leads through an exit of the
/// player's room, and every item the action reads from the world exists.
pub open spec fn action_ok(g: GameView, a: ActionView) -> bool {
    match a {
        ActionView::Move { dir } => has_key(room_here(g).exits, dir),
        ActionView::Get { items } => all_items_exist(g.world.items, items),
        ActionView::Drop { items } => all_items_exist(g.world.items, items),
        ActionView::Look { target } => target matches Some(id) ==> item_exists(g, id),
        ActionView::Read { target } => item_exists(g, target),
        ActionView::Unlock { target, key } => item_exists(g, target) && item_exists(g, key),
        _ => true,
    }
}

/// The view of a resolution outcome.
pub open spec fn action_result(r: Result<Action, ActionError>) -> Result<ActionView, ActionErrorView> {
    match r {
        Ok(a) => Ok(a@),
        Err(e) => Err(e@),
    }
}

/// The view of a search outcome.
pub open spec fn id_result(r: Result<i32, ActionError>) -> Result<i32, ActionErrorView> {
    match r {
        Ok(id) => Ok(id),
        Err(e) => Err(e@),
    }
}

/// An error met by a prefix of the phrases is the error of all of them.
pub proof fn lemma_ids_of_error(g: GameView, ns: Seq<NounPhraseView>, i: int, held: bool)
    requires
        0 <= i <= ns.len(),
        ids_of(g, ns.take(i), held) is Err,
    ensures
        ids_of(g, ns, held) == ids_of(g, ns.take(i), held),
    decreases ns.len(),
{
    if i == ns.len() {
        assert(ns.take(i) =~= ns);
    } else {
        assert(ns.drop_last().take(i) =~= ns.take(i));
        lemma_ids_of_error(g, ns.drop_last(), i, held);
    }
}

impl Game {
    /// Whether the player's room and its items exist, and so does every item inside an
    /// open container lying there.
    fn sight_is_ok(&self) -> (b: bool)
        ensures
            b == sight_ok(self@),
    {
        let ghost g = self@;
        proof {
            crate::engine::game::lemma_lookup_room_views(self.world.rooms@, self.current_room);
        }
        if !self.world.rooms.contains_key(&self.current_room) {
            return false;
        }
        let room = self.get_current_room();
        if !self.all_exist(&room.items) {
            return false;
        }
        let mut k: usize = 0;
        while k < room.items.len()
            invariant
                g == self@,
                room@ == room_here(g),
                crate::engine::game::room_ok(g),
                k <= room@.items.len(),
                forall|j: int|
                    0 <= j < k ==> (is_open_state(item_of(g, #[trigger] room@.items[j]))
                        ==> (container_of(item_of(g, room@.items[j]).behaviors) matches Some(cs)
                        ==> all_items_exist(g.world.items, cs))),
            decreases room@.items.len() - k,
        {
            let id = room.items[k];
            assert(has_key(g.world.items, room@.items[k as int]));
            let item = self.item_by_id(id);
            if item.is_open() {
                match item.get_container() {
                    Some(cs) => {
                        if !self.all_exist(cs) {
                            return false;
                        }
                    },
                    None => {},
                }
            }
            k = k + 1;
        }
        true
    }

    /// Whether the input `input` can be resolved here: it does not parse, or the world
    /// holds what resolving it reads.
    pub fn can_resolve_input(&self, input: &str) -> (b: bool)
        ensures
            b == (crate::parser::parsed(input@) matches Ok(c) ==> can_resolve(self@, c)),
    {
        proof {
            crate::engine::game::lemma_lookup_room_views(self.world.rooms@, self.current_room);
        }
        let cmd = match crate::parser::parse(input) {
            Ok(c) => c,
            Err(_) => return true,
        };
        match cmd.verb {
            Verb::Move { dir } => {
                let found = match dir {
                    Some(_) => true,
                    None => {
                        if cmd.direct.len() == 0 {
                            false
                        } else {
                            assert(cmd@.direct[0] == cmd.direct[0]@);
                            Direction::try_from(cmd.direct[0].noun.as_str()).is_ok()
                        }
                    },
                };
                !found || self.world.rooms.contains_key(&self.current_room)
            },
            Verb::Get => cmd.direct.len() == 0 || self.sight_is_ok(),
            Verb::Drop => cmd.direct.len() == 0 || self.all_exist(&self.player.inventory),
            Verb::Attack => true,
            _ => cmd.direct.len() == 0 || (self.sight_is_ok() && self.all_exist(&self.player.inventory)),
        }
    }

    /// Converts a parsed Command into an executable Action
    pub fn resolve_command(&self, cmd: Command) -> (r: Result<Action, ActionError>)
        requires
            can_resolve(self@, cmd@),
        ensures
            action_result(r) == resolved(self@, cmd@),
            r matches Ok(a) ==> action_ok(self@, a@),
    {
        match cmd.verb {
            Verb::Move { .. } => resolve_move(self, cmd),
            Verb::Get => resolve_get(self, cmd),
            Verb::Drop => resolve_drop(self, cmd),
            Verb::Put => resolve_put(self, cmd),
            Verb::Look => resolve_look(self, cmd),
            Verb::Open => resolve_open(self, cmd),
            Verb::Close => resolve_close(self, cmd),
            Verb::Attack => resolve_attack(self, cmd),
            Verb::Unlock => resolve_unlock(self, cmd),
            Verb::Read => resolve_read(self, cmd),
        }
    }
}

fn resolve_move(game: &Game, cmd: Command) -> (r: Result<Action, ActionError>)
    requires
        move_direction(cmd@) is Ok ==> has_key(game@.world.rooms, game.current_room),
        cmd.verb is Move,
    ensures
        action_result(r) == resolved_move(game@, cmd@),
        r matches Ok(a) ==> action_ok(game@, a@),
{
    // Extract direction from the verb or from direct object
    let direction = match cmd.verb {
        // Direction already in verb (e.g., player typed "north")
        Verb::Move { dir: Some(d) } => d,
        // Need to parse from direct object (e.g., "go north")
        _ => {
            if cmd.direct.len() == 0 {
                return Err(ActionError::DirectionNotFound(String::new()));
            }
            let phrase = &cmd.direct[0];
            assert(cmd@.direct[0] == phrase@);
            match Direction::try_from(phrase.noun.as_str()) {
                Ok(d) => d,
                Err(_) => return Err(ActionError::DirectionNotFound(phrase.noun.clone())),
            }
        },
    };
    // Verify the current room has an exit in this direction
    let current_room = game.get_current_room();
    if !current_room.exits.contains_key(&direction) {
        return Err(ActionError::NoExit(direction));
    }
    Ok(Action::Move { dir: direction })
}

/// Resolves "get": the items named, visible in the room, each once.
fn resolve_get(game: &Game, cmd: Command) -> (r: Result<Action, ActionError>)
    requires
        cmd@.direct.len() > 0 ==> sight_ok(game@),
    ensures
        action_result(r) == resolved(game@, CommandView { verb: Verb::Get, ..cmd@ }),
        r matches Ok(a) ==> action_ok(game@, a@),
{
    resolve_many(game, cmd, false)
}

/// Resolves "drop": the items named, held, each once.
fn resolve_drop(game: &Game, cmd: Command) -> (r: Result<Action, ActionError>)
    requires
        cmd@.direct.len() > 0 ==> held_ok(game@),
    ensures
        action_result(r) == resolved(game@, CommandView { verb: Verb::Drop, ..cmd@ }),
        r matches Ok(a) ==> action_ok(game@, a@),
{
    resolve_many(game, cmd, true)
}

/// Resolves "attack": there is nothing to fight yet, so the action names no target.
fn resolve_attack(_game: &Game, _cmd: Command) -> (r: Result<Action, ActionError>)
    ensures
        action_result(r) == Ok::<ActionView, ActionErrorView>(ActionView::Attack { target: -1i32, weapon: None }),
{
    Ok(Action::Attack { target: -1, weapon: None })
}

/// Resolves "get" (items visible in the room) or "drop" (items held).
fn resolve_many(game: &Game, cmd: Command, held: bool) -> (r: Result<Action, ActionError>)
    requires
        cmd@.direct.len() > 0 ==> if held { held_ok(game@) } else { sight_ok(game@) },
    ensures
        action_result(r) == match ids_of(game@, cmd@.direct, held) {
            Ok(ids) => if held {
                Ok(ActionView::Drop { items: sorted_unique(ids) })
            } else {
                Ok(ActionView::Get { items: sorted_unique(ids) })
            },
            Err(e) => Err::<ActionView, ActionErrorView>(e),
        },
        r matches Ok(a) ==> action_ok(game@, a@),
{
    let ghost g = game@;
    let ghost ns = cmd@.direct;
    let mut ids: Vec<i32> = Vec::new();
    let mut i: usize = 0;
    assert(ns.take(0) =~= Seq::<NounPhraseView>::empty());
    while i < cmd.direct.len()
        invariant
            g == game@,
            ns == cmd@.direct,
            ns.len() > 0 ==> if held { held_ok(g) } else { sight_ok(g) },
            i <= cmd.direct@.len(),
            ns.len() == cmd.direct@.len(),
            ids_of(g, ns.take(i as int), held) == Ok::<Seq<i32>, ActionErrorView>(ids@),
            all_items_exist(g.world.items, ids@),
        decreases cmd.direct@.len() - i,
    {
        let noun = &cmd.direct[i];
        assert(ns[i as int] == noun@);
        assert(ns.take(i + 1).drop_last() =~= ns.take(i as int));
        assert(ns.take(i + 1).last() == noun@);
        let found = if held {
            find_item_in_inventory(game, noun)
        } else {
            find_visible_item(game, noun)
        };
        match found {
            Ok(id) => {
                ids.push(id);
                assert forall|k: int| 0 <= k < ids@.len() implies has_key(g.world.items, #[trigger] ids@[k]) by {
                    if k < ids@.len() - 1 {
                        assert(ids@[k] == ids@.drop_last()[k]);
                    }
                }
            },
            Err(e) => {
                proof {
                    lemma_ids_of_error(g, ns, i + 1, held);
                }
                return Err(e);
            },
        }
        i = i + 1;
    }
    assert(ns.take(i as int) =~= ns);
    // keep only unique item IDs
    let sorted = sorted_ids(&ids);
    assert forall|k: int| 0 <= k < sorted@.len() implies has_key(g.world.items, #[trigger] sorted@[k]) by {
        assert(sorted@.contains(sorted@[k]));
        assert(ids@.contains(sorted@[k]));
    }
    if held {
        Ok(Action::Drop { items: sorted })
    } else {
        Ok(Action::Get { items: sorted })
    }
}

fn resolve_put(game: &Game, cmd: Command) -> (r: Result<Action, ActionError>)
    requires
        cmd@.direct.len() > 0 ==> sight_ok(game@) && held_ok(game@),
    ensures
        action_result(r) == resolved_put(game@, cmd@),
{
    // Put requires exactly one direct object and one indirect object
    if cmd.direct.len() != 1 {
        return Err(ActionError::InvalidCommand(owned("Put requires exactly one item")));
    }
    let indirect = match &cmd.indirect {
        Some(n) => n,
        None => return Err(
            ActionError::InvalidCommand(owned("Put requires a container (use 'put X in Y')")),
        ),
    };
    assert(cmd@.direct[0] == cmd.direct@[0]@);
    // Resolve the item from inventory
    let item_id = match find_item_in_inventory(game, &cmd.direct[0]) {
        Ok(id) => id,
        Err(e) => return Err(e),
    };
    // Try to find container in inventory first, then in current room
    let container_id = match find_item_in_inventory(game, indirect) {
        Ok(id) => id,
        Err(_) => match find_visible_item(game, indirect) {
            Ok(id) => id,
            Err(e) => return Err(e),
        },
    };
    Ok(Action::Put { item: item_id, container: container_id })
}

/// The visible item `noun` names, else the held one.
fn find_seen_or_held(game: &Game, noun: &NounPhrase) -> (r: Result<i32, ActionError>)
    requires
        sight_ok(game@) && held_ok(game@),
    ensures
        id_result(r) == seen_or_held(game@, noun@),
        r matches Ok(id) ==> item_exists(game@, id),
{
    match find_visible_item(game, noun) {
        Ok(id) => Ok(id),
        Err(_) => find_item_in_inventory(game, noun),
    }
}

fn resolve_look(game: &Game, cmd: Command) -> (r: Result<Action, ActionError>)
    requires
        cmd@.direct.len() > 0 ==> sight_ok(game@) && held_ok(game@),
    ensures
        action_result(r) == resolved_one(game@, cmd@, Verb::Look),
        r matches Ok(a) ==> action_ok(game@, a@),
{
    if cmd.direct.len() > 1 {
        return Err(ActionError::InvalidCommand(owned("Cannot Look at more than 1 object")));
    }
    if cmd.direct.len() == 0 {
        // target: None says to look at the room
        return Ok(Action::Look { target: None });
    }
    assert(cmd@.direct[0] == cmd.direct@[0]@);
    match find_seen_or_held(game, &cmd.direct[0]) {
        Ok(id) => Ok(Action::Look { target: Some(id) }),
        Err(e) => Err(e),
    }
}

fn resolve_read(game: &Game, cmd: Command) -> (r: Result<Action, ActionError>)
    requires
        cmd@.direct.len() > 0 ==> sight_ok(game@) && held_ok(game@),
    ensures
        action_result(r) == resolved_one(game@, cmd@, Verb::Read),
        r matches Ok(a) ==> action_ok(game@, a@),
{
    if cmd.direct.len() > 1 {
        return Err(ActionError::InvalidCommand(owned("Cannot Read more than 1 object")));
    }
    if cmd.direct.len() == 0 {
        return Err(ActionError::InvalidCommand(owned("What do you want to read?")));
    }
    assert(cmd@.direct[0] == cmd.direct@[0]@);
    match find_seen_or_held(game, &cmd.direct[0]) {
        Ok(id) => Ok(Action::Read { target: id }),
        Err(e) => Err(e),
    }
}

fn resolve_open(game: &Game, cmd: Command) -> (r: Result<Action, ActionError>)
    requires
        cmd@.direct.len() > 0 ==> sight_ok(game@) && held_ok(game@),
    ensures
        action_result(r) == resolved_one(game@, cmd@, Verb::Open),
{
    if cmd.direct.len() != 1 {
        return Err(ActionError::InvalidCommand(owned("Open requires exactly one item")));
    }
    assert(cmd@.direct[0] == cmd.direct@[0]@);
    match find_seen_or_held(game, &cmd.direct[0]) {
        Ok(id) => Ok(Action::Open { target: id }),
        Err(e) => Err(e),
    }
}

fn resolve_close(game: &Game, cmd: Command) -> (r: Result<Action, ActionError>)
    requires
        cmd@.direct.len() > 0 ==> sight_ok(game@) && held_ok(game@),
    ensures
        action_result(r) == resolved_one(game@, cmd@, Verb::Close),
{
    if cmd.direct.len() != 1 {
        return Err(ActionError::InvalidCommand(owned("Close requires exactly one item")));
    }
    assert(cmd@.direct[0] == cmd.direct@[0]@);
    match find_seen_or_held(game, &cmd.direct[0]) {
        Ok(id) => Ok(Action::Close { target: id }),
        Err(e) => Err(e),
    }
}

fn resolve_unlock(game: &Game, cmd: Command) -> (r: Result<Action, ActionError>)
    requires
        cmd@.direct.len() > 0 ==> sight_ok(game@) && held_ok(game@),
    ensures
        action_result(r) == resolved_unlock(game@, cmd@),
        r matches Ok(a) ==> action_ok(game@, a@),
{
    if cmd.direct.len() == 0 {
        return Err(ActionError::InvalidCommand(owned("What do you want to unlock?")));
    }
    assert(cmd@.direct[0] == cmd.direct@[0]@);
    let target_id = match find_visible_item(game, &cmd.direct[0]) {
        Ok(id) => id,
        Err(e) => return Err(e),
    };
    let key_id = match &cmd.indirect {
        Some(key_noun) => match find_item_in_inventory(game, key_noun) {
            Ok(id) => id,
            Err(e) => return Err(e),
        },
        None => {
            return Err(ActionError::InvalidCommand(owned("What do you want to unlock it with?")));
        },
    };
    Ok(Action::Unlock { target: target_id, key: key_id })
}

// ---------------------------------------------------------------------------
// Finding items
// ---------------------------------------------------------------------------
/// The one id of `matches`, or the error for none or several.
fn single_of(matches: &Vec<i32>, noun: &NounPhrase, held: bool) -> (r: Result<i32, ActionError>)
    ensures
        id_result(r) == single_match(
            matches@,
            if held {
                ActionErrorView::ItemNotFoundInventory(noun@.noun)
            } else {
                ActionErrorView::ItemNotFound(noun@.noun)
            },
            noun@.noun,
        ),
{
    if matches.len() == 0 {
        if held {
            Err(ActionError::ItemNotFoundInventory(noun.noun.clone()))
        } else {
            Err(ActionError::ItemNotFound(noun.noun.clone()))
        }
    } else if matches.len() == 1 {
        Ok(matches[0])
    } else {
        Err(ActionError::AmbiguousItem(noun.noun.clone()))
    }
}

/// Finds a visible item in the current room by noun phrase.
/// Searches room items first, then inside open containers.
/// Returns the item ID if found, or an error if not found or ambiguous.
fn find_visible_item(game: &Game, noun: &NounPhrase) -> (r: Result<i32, ActionError>)
    requires
        sight_ok(game@),
    ensures
        id_result(r) == find_visible(game@, noun@),
        r matches Ok(id) ==> item_exists(game@, id),
{
    let ghost g = game@;
    let ghost n = noun@;
    let ghost p = visible_named(g, n);
    let current_room = game.get_current_room();
    // Search items in the current room
    let mut matches: Vec<i32> = Vec::new();
    let mut i: usize = 0;
    assert(current_room.items@.take(0) =~= Seq::<i32>::empty());
    proof {
        reveal(Seq::filter);
    }
    while i < current_room.items.len()
        invariant
            g == game@,
            n == noun@,
            p == visible_named(g, n),
            sight_ok(g),
            current_room@ == room_here(g),
            all_items_exist(g.world.items, current_room.items@),
            i <= current_room.items@.len(),
            matches@ == current_room.items@.take(i as int).filter(p),
            all_items_exist(g.world.items, matches@),
        decreases current_room.items@.len() - i,
    {
        let id = current_room.items[i];
        assert(has_key(g.world.items, current_room.items@[i as int]));
        let item = game.item_by_id(id);
        proof {
            lemma_filter_step(current_room.items@, p, i as int);
        }
        if !item.is_hidden() && item_matches(item, noun) {
            matches.push(id);
            assert forall|k: int| 0 <= k < matches@.len() implies has_key(g.world.items, #[trigger] matches@[k]) by {
                if k < matches@.len() - 1 {
                    assert(matches@[k] == matches@.drop_last()[k]);
                }
            }
        }
        i = i + 1;
    }
    assert(current_room.items@.take(i as int) =~= current_room.items@);
    // If no direct match, search inside open containers in the room
    if matches.len() == 0 {
        let mut k: usize = 0;
        assert(current_room.items@.take(0) =~= Seq::<i32>::empty());
        while k < current_room.items.len()
            invariant
                g == game@,
                n == noun@,
                p == visible_named(g, n),
                sight_ok(g),
                current_room@ == room_here(g),
                all_items_exist(g.world.items, current_room.items@),
                k <= current_room.items@.len(),
                matches@ == contained_matches(g, n, current_room.items@.take(k as int)),
                all_items_exist(g.world.items, matches@),
            decreases current_room.items@.len() - k,
        {
            let container_id = current_room.items[k];
            assert(has_key(g.world.items, current_room.items@[k as int]));
            let container = game.item_by_id(container_id);
            assert(is_open_state(item_of(g, room_here(g).items[k as int])) ==> (container_of(
                item_of(g, room_here(g).items[k as int]).behaviors,
            ) matches Some(cs) ==> all_items_exist(g.world.items, cs)));
            assert(current_room.items@.take(k + 1).drop_last() =~= current_room.items@.take(k as int));
            assert(current_room.items@.take(k + 1).last() == container_id);
            let ghost before = matches@;
            // Skip if not a container or if closed
            if container.is_open() {
                // Search inside this container
                if let Some(contents) = container.get_container() {
                    let mut j: usize = 0;
                    assert(contents@.take(0) =~= Seq::<i32>::empty());
                    proof {
                        reveal(Seq::filter);
                    }
                    assert(before + contents@.take(0).filter(p) =~= before);
                    while j < contents.len()
                        invariant
                            g == game@,
                            n == noun@,
                            p == visible_named(g, n),
                            sight_ok(g),
                            all_items_exist(g.world.items, contents@),
                            j <= contents@.len(),
                            matches@ == before + contents@.take(j as int).filter(p),
                            all_items_exist(g.world.items, matches@),
                        decreases contents@.len() - j,
                    {
                        let id = contents[j];
                        assert(has_key(g.world.items, contents@[j as int]));
                        let item = game.item_by_id(id);
                        proof {
                            lemma_filter_step(contents@, p, j as int);
                        }
                        if !item.is_hidden() && item_matches(item, noun) {
                            matches.push(id);
                            assert(matches@ =~= before + contents@.take(j + 1).filter(p));
                            assert forall|m: int| 0 <= m < matches@.len() implies has_key(g.world.items, #[trigger] matches@[m]) by {
                                if m < matches@.len() - 1 {
                                    assert(matches@[m] == matches@.drop_last()[m]);
                                }
                            }
                        } else {
                            assert(matches@ =~= before + contents@.take(j + 1).filter(p));
                        }
                        j = j + 1;
                    }
                    assert(contents@.take(j as int) =~= contents@);
                } else {
                    assert(matches@ =~= before + Seq::<i32>::empty());
                }
            } else {
                assert(matches@ =~= before + Seq::<i32>::empty());
            }
            k = k + 1;
        }
        assert(current_room.items@.take(k as int) =~= current_room.items@);
    }
    single_of(&matches, noun, false)
}

/// Finds an item in the player inventory.
/// Returns the item ID if found, or an error if not found or ambiguous.
fn find_item_in_inventory(game: &Game, noun: &NounPhrase) -> (r: Result<i32, ActionError>)
    requires
        held_ok(game@),
    ensures
        id_result(r) == find_held(game@, noun@),
        r matches Ok(id) ==> item_exists(game@, id),
{
    let ghost g = game@;
    let ghost n = noun@;
    let ghost p = held_named(g, n);
    let inventory = &game.player.inventory;
    let mut matches: Vec<i32> = Vec::new();
    let mut i: usize = 0;
    assert(inventory@.take(0) =~= Seq::<i32>::empty());
    proof {
        reveal(Seq::filter);
    }
    while i < inventory.len()
        invariant
            g == game@,
            n == noun@,
            p == held_named(g, n),
            held_ok(g),
            inventory@ == g.inventory,
            i <= inventory@.len(),
            matches@ == inventory@.take(i as int).filter(p),
            all_items_exist(g.world.items, matches@),
        decreases inventory@.len() - i,
    {
        let id = inventory[i];
        assert(has_key(g.world.items, g.inventory[i as int]));
        let item = game.item_by_id(id);
        proof {
            lemma_filter_step(inventory@, p, i as int);
        }
        if item_matches(item, noun) {
            matches.push(id);
            assert forall|k: int| 0 <= k < matches@.len() implies has_key(g.world.items, #[trigger] matches@[k]) by {
                if k < matches@.len() - 1 {
                    assert(matches@[k] == matches@.drop_last()[k]);
                }
            }
        }
        i = i + 1;
    }
    assert(inventory@.take(i as int) =~= inventory@);
    single_of(&matches, noun, true)
}

/// Checks if an item matches a noun phrase.
/// Returns true if the item's name matches the noun AND all adjectives match.
fn item_matches(item: &Item, noun: &NounPhrase) -> (r: bool)
    ensures
        r == item_named(item@, noun@),
{
    // Check if the noun matches the item name (case-insensitive)
    if !eq_ignore_ascii_case(item.name.as_str(), noun.noun.as_str()) {
        return false;
    }
    // If there are adjectives in the noun phrase, ALL must match
    // the item's adjectives (case-insensitive)
    let mut i: usize = 0;
    while i < noun.adjectives.len()
        invariant
            i <= noun.adjectives@.len(),
            eq_ascii_case(item@.name, noun@.noun),
            forall|k: int| 0 <= k < i ==> has_adjective(item@, #[trigger] noun@.adjectives[k]),
        decreases noun.adjectives@.len() - i,
    {
        let adj = &noun.adjectives[i];
        assert(noun@.adjectives[i as int] == adj@);
        let mut found = false;
        let mut j: usize = 0;
        while j < item.adjectives.len()
            invariant
                j <= item.adjectives@.len(),
                found ==> has_adjective(item@, adj@),
                !found ==> forall|k: int| 0 <= k < j ==> !eq_ascii_case(#[trigger] item@.adjectives[k], adj@),
            decreases item.adjectives@.len() - j,
        {
            assert(item@.adjectives[j as int] == item.adjectives@[j as int]@);
            if eq_ignore_ascii_case(item.adjectives[j].as_str(), adj.as_str()) {
                found = true;
            }
            j = j + 1;
        }
        if !found {
            return false;
        }
        i = i + 1;
    }
    true
}

} // verus!
