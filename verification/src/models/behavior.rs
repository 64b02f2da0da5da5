//! Item behaviors define capabilities and state for items
use vstd::prelude::*;
use crate::models::item::{behavior_views, Item, ItemView};
use crate::util::{first_index, lemma_first_index, lemma_first_index_agree};

verus! {

/// Defines a capability or additional state that an item can have.
/// Items can have multiple behaviors via `Vec<ItemBehavior>`.
#[derive(Debug, Clone)]
pub enum ItemBehavior {
    /// Can be picked up and placed in inventory
    Holdable,
    /// Can store other items inside it
    Container {
        /// Items contained within this item
        contents: Vec<i32>,
        /// Maximum number of items it can hold (None = unlimited)
        capacity: Option<usize>,
    },
    /// Can be opened and closed (affects access to contents, doorways, etc.)
    Openable {
        /// Whether the item is currently open
        is_open: bool,
    },
    /// Hidden from view until revealed by some trigger
    Hidden {
        /// Whether the item has been revealed to the player
        revealed: bool,
    },
    /// Scenery item that doesn't show in automatic room listings
    Scenery,
    /// Can be used as a weapon in combat
    Weapon {
        /// Damage dealt when attacking with this weapon
        damage: i32,
    },
    /// Has text that can be read
    Readable {
        /// The text displayed when reading this item
        text: String,
    },
    /// Has a physical size
    Size {
        /// The size value
        value: u8,
    },
    /// Locked and requires a key to open
    Locked {
        /// Whether the item is currently locked
        is_locked: bool,
        /// ID of the key item required (None = any key works)
        key_id: Option<i32>,
    },
}

/// A behavior with its contents and text as sequences.
pub enum BehaviorView {
    Holdable,
    Container { contents: Seq<i32>, capacity: Option<usize> },
    Openable { is_open: bool },
    Hidden { revealed: bool },
    Scenery,
    Weapon { damage: i32 },
    Readable { text: Seq<char> },
    Size { value: u8 },
    Locked { is_locked: bool, key_id: Option<i32> },
}

impl View for ItemBehavior {
    type V = BehaviorView;

    open spec fn view(&self) -> BehaviorView {
        match self {
            ItemBehavior::Holdable => BehaviorView::Holdable,
            ItemBehavior::Container { contents, capacity } => BehaviorView::Container {
                contents: contents@,
                capacity: *capacity,
            },
            ItemBehavior::Openable { is_open } => BehaviorView::Openable { is_open: *is_open },
            ItemBehavior::Hidden { revealed } => BehaviorView::Hidden { revealed: *revealed },
            ItemBehavior::Scenery => BehaviorView::Scenery,
            ItemBehavior::Weapon { damage } => BehaviorView::Weapon { damage: *damage },
            ItemBehavior::Readable { text } => BehaviorView::Readable { text: text@ },
            ItemBehavior::Size { value } => BehaviorView::Size { value: *value },
            ItemBehavior::Locked { is_locked, key_id } => BehaviorView::Locked {
                is_locked: *is_locked,
                key_id: *key_id,
            },
        }
    }
}

// ---------------------------------------------------------------------------
// Which behavior a query looks at
// ---------------------------------------------------------------------------
pub open spec fn is_holdable_b() -> spec_fn(BehaviorView) -> bool {
    |b: BehaviorView| b is Holdable
}

pub open spec fn is_container_b() -> spec_fn(BehaviorView) -> bool {
    |b: BehaviorView| b is Container
}

pub open spec fn is_openable_b() -> spec_fn(BehaviorView) -> bool {
    |b: BehaviorView| b is Openable
}

pub open spec fn is_readable_b() -> spec_fn(BehaviorView) -> bool {
    |b: BehaviorView| b is Readable
}

pub open spec fn is_weapon_b() -> spec_fn(BehaviorView) -> bool {
    |b: BehaviorView| b is Weapon
}

pub open spec fn is_size_b() -> spec_fn(BehaviorView) -> bool {
    |b: BehaviorView| b is Size
}

pub open spec fn is_hidden_b() -> spec_fn(BehaviorView) -> bool {
    |b: BehaviorView| b is Hidden
}

pub open spec fn is_unrevealed_b() -> spec_fn(BehaviorView) -> bool {
    |b: BehaviorView| b matches BehaviorView::Hidden { revealed: false }
}

pub open spec fn is_scenery_b() -> spec_fn(BehaviorView) -> bool {
    |b: BehaviorView| b is Scenery
}

pub open spec fn is_lock_b() -> spec_fn(BehaviorView) -> bool {
    |b: BehaviorView| b is Locked
}

pub open spec fn is_engaged_lock_b() -> spec_fn(BehaviorView) -> bool {
    |b: BehaviorView| b matches BehaviorView::Locked { is_locked: true, .. }
}

pub open spec fn is_keyed_lock_b() -> spec_fn(BehaviorView) -> bool {
    |b: BehaviorView| b matches BehaviorView::Locked { key_id: Some(_), .. }
}

/// Some behavior of `bs` satisfies `p`.
pub open spec fn has_b(bs: Seq<BehaviorView>, p: spec_fn(BehaviorView) -> bool) -> bool {
    first_index(bs, p) >= 0
}

// ---------------------------------------------------------------------------
// Queries on the model
// ---------------------------------------------------------------------------
pub open spec fn holdable(v: ItemView) -> bool {
    has_b(v.behaviors, is_holdable_b())
}

pub open spec fn has_container(v: ItemView) -> bool {
    has_b(v.behaviors, is_container_b())
}

pub open spec fn openable(v: ItemView) -> bool {
    has_b(v.behaviors, is_openable_b())
}

pub open spec fn readable(v: ItemView) -> bool {
    has_b(v.behaviors, is_readable_b())
}

pub open spec fn weapon(v: ItemView) -> bool {
    has_b(v.behaviors, is_weapon_b())
}

pub open spec fn hidden(v: ItemView) -> bool {
    has_b(v.behaviors, is_unrevealed_b())
}

pub open spec fn scenery(v: ItemView) -> bool {
    has_b(v.behaviors, is_scenery_b())
}

pub open spec fn locked(v: ItemView) -> bool {
    has_b(v.behaviors, is_engaged_lock_b())
}

/// Open state of the first Openable behavior; items without one are open.
pub open spec fn is_open_state(v: ItemView) -> bool {
    let i = first_index(v.behaviors, is_openable_b());
    if i >= 0 {
        v.behaviors[i]->is_open
    } else {
        true
    }
}

/// Contents of the first Container behavior.
pub open spec fn container_of(bs: Seq<BehaviorView>) -> Option<Seq<i32>> {
    let i = first_index(bs, is_container_b());
    if i >= 0 {
        Some(bs[i]->contents)
    } else {
        None
    }
}

/// Capacity of the first Container behavior.
pub open spec fn capacity_of(v: ItemView) -> Option<usize> {
    let i = first_index(v.behaviors, is_container_b());
    if i >= 0 {
        v.behaviors[i]->capacity
    } else {
        None
    }
}

/// The item's container holds as many items as its capacity allows.
pub open spec fn full(v: ItemView) -> bool {
    match (container_of(v.behaviors), capacity_of(v)) {
        (Some(cs), Some(k)) => cs.len() >= k,
        _ => false,
    }
}

/// Damage of the first Weapon behavior.
pub open spec fn weapon_damage(v: ItemView) -> Option<i32> {
    let i = first_index(v.behaviors, is_weapon_b());
    if i >= 0 {
        Some(v.behaviors[i]->damage)
    } else {
        None
    }
}

/// Value of the first Size behavior.
pub open spec fn size_of(v: ItemView) -> Option<u8> {
    let i = first_index(v.behaviors, is_size_b());
    if i >= 0 {
        Some(v.behaviors[i]->Size_value)
    } else {
        None
    }
}

/// Text of the first Readable behavior.
pub open spec fn readable_text(v: ItemView) -> Option<Seq<char>> {
    let i = first_index(v.behaviors, is_readable_b());
    if i >= 0 {
        Some(v.behaviors[i]->text)
    } else {
        None
    }
}

/// Key of the first Locked behavior that names one.
pub open spec fn key_of(v: ItemView) -> Option<i32> {
    let i = first_index(v.behaviors, is_keyed_lock_b());
    if i >= 0 {
        v.behaviors[i]->key_id
    } else {
        None
    }
}

/// The behaviors after setting the first behavior satisfying `p` to `b`.
pub open spec fn set_first(bs: Seq<BehaviorView>, p: spec_fn(BehaviorView) -> bool, b: BehaviorView) -> Seq<BehaviorView> {
    let i = first_index(bs, p);
    if i >= 0 {
        bs.update(i, b)
    } else {
        bs
    }
}

/// The item after setting the open state of its first Openable behavior.
pub open spec fn with_open(v: ItemView, open: bool) -> ItemView {
    ItemView {
        behaviors: set_first(v.behaviors, is_openable_b(), BehaviorView::Openable { is_open: open }),
        ..v
    }
}

/// The item after setting the lock state of its first Locked behavior.
pub open spec fn with_locked(v: ItemView, lock: bool) -> ItemView {
    let i = first_index(v.behaviors, is_lock_b());
    if i >= 0 {
        ItemView {
            behaviors: v.behaviors.update(
                i,
                BehaviorView::Locked { is_locked: lock, key_id: v.behaviors[i]->key_id },
            ),
            ..v
        }
    } else {
        v
    }
}

/// The item after setting the revealed state of its first Hidden behavior.
pub open spec fn with_revealed(v: ItemView, revealed: bool) -> ItemView {
    ItemView {
        behaviors: set_first(v.behaviors, is_hidden_b(), BehaviorView::Hidden { revealed }),
        ..v
    }
}

/// The item with new contents in its first Container behavior.
pub open spec fn with_contents(v: ItemView, contents: Seq<i32>) -> ItemView {
    let i = first_index(v.behaviors, is_container_b());
    if i >= 0 {
        ItemView {
            behaviors: v.behaviors.update(
                i,
                BehaviorView::Container { contents, capacity: v.behaviors[i]->capacity },
            ),
            ..v
        }
    } else {
        v
    }
}

/// The item marked as moved.
pub open spec fn with_moved(v: ItemView) -> ItemView {
    ItemView { moved: true, ..v }
}

/// The item has at most one behavior satisfying `p`.
pub open spec fn at_most_one(v: ItemView, p: spec_fn(BehaviorView) -> bool) -> bool {
    forall|i: int, j: int|
        0 <= i < v.behaviors.len() && 0 <= j < v.behaviors.len() && p(#[trigger] v.behaviors[i]) && p(
            #[trigger] v.behaviors[j],
        ) ==> i == j
}

/// Locking an item with a lock leaves it locked; unlocking an item with a single lock
/// leaves it unlocked. The key the lock asks for stays the same.
pub proof fn lemma_lock_state(v: ItemView, lock: bool)
    requires
        has_b(v.behaviors, is_lock_b()),
    ensures
        lock ==> locked(with_locked(v, lock)),
        at_most_one(v, is_lock_b()) ==> locked(with_locked(v, lock)) == lock,
{
    let bs = v.behaviors;
    let i = first_index(bs, is_lock_b());
    lemma_first_index(bs, is_lock_b());
    let ws = with_locked(v, lock).behaviors;
    lemma_first_index(ws, is_engaged_lock_b());
    if lock {
        assert(is_engaged_lock_b()(ws[i]));
    } else if at_most_one(v, is_lock_b()) {
        let k = first_index(ws, is_engaged_lock_b());
        if k >= 0 {
            assert(is_lock_b()(bs[k]));
            assert(k == i);
        }
    }
}

/// Opening an item that can be opened leaves it open; closing it leaves it closed.
pub proof fn lemma_open_state(v: ItemView, open: bool)
    requires
        openable(v),
    ensures
        is_open_state(with_open(v, open)) == open,
        openable(with_open(v, open)),
{
    let bs = v.behaviors;
    lemma_first_index(bs, is_openable_b());
    let i = first_index(bs, is_openable_b());
    let ws = with_open(v, open).behaviors;
    lemma_first_index(ws, is_openable_b());
    assert(is_openable_b()(ws[i]));
    let k = first_index(ws, is_openable_b());
    if k < i {
        assert(is_openable_b()(bs[k]));
    }
}

/// Hiding an item that has a Hidden behavior hides it; revealing an item with a single
/// Hidden behavior shows it.
pub proof fn lemma_hidden_state(v: ItemView, revealed: bool)
    requires
        has_b(v.behaviors, is_hidden_b()),
    ensures
        !revealed ==> hidden(with_revealed(v, revealed)),
        at_most_one(v, is_hidden_b()) ==> hidden(with_revealed(v, revealed)) == !revealed,
{
    let bs = v.behaviors;
    let i = first_index(bs, is_hidden_b());
    lemma_first_index(bs, is_hidden_b());
    let ws = with_revealed(v, revealed).behaviors;
    lemma_first_index(ws, is_unrevealed_b());
    if !revealed {
        assert(is_unrevealed_b()(ws[i]));
    } else if at_most_one(v, is_hidden_b()) {
        let k = first_index(ws, is_unrevealed_b());
        if k >= 0 {
            assert(is_hidden_b()(bs[k]));
            assert(k == i);
        }
    }
}

/// Setting a container's contents makes them the contents it holds.
pub proof fn lemma_contents_state(v: ItemView, contents: Seq<i32>)
    requires
        has_container(v),
    ensures
        container_of(with_contents(v, contents).behaviors) == Some(contents),
{
    lemma_container_of_with_contents(v, contents);
    lemma_has_container(v);
}

/// An item with a Container behavior has contents.
pub proof fn lemma_has_container(v: ItemView)
    ensures
        has_container(v) == container_of(v.behaviors) is Some,
{
}

/// Marking an item moved leaves its contents as they were.
pub proof fn lemma_container_of_with_moved(v: ItemView)
    ensures
        container_of(with_moved(v).behaviors) == container_of(v.behaviors),
{
}

/// New contents are what the container then holds.
pub proof fn lemma_container_of_with_contents(v: ItemView, cs: Seq<i32>)
    ensures
        container_of(with_contents(v, cs).behaviors) == match container_of(v.behaviors) {
            Some(_) => Some(cs),
            None => None::<Seq<i32>>,
        },
{
    let bs = v.behaviors;
    let i = first_index(bs, is_container_b());
    lemma_first_index(bs, is_container_b());
    if i >= 0 {
        let t = with_contents(v, cs).behaviors;
        assert forall|j: int| 0 <= j < bs.len() implies is_container_b()(#[trigger] bs[j]) == is_container_b()(t[j]) by {}
        lemma_first_index_agree(bs, t, is_container_b(), is_container_b());
    }
}

/// Opening or closing an item leaves its contents as they were.
pub proof fn lemma_container_of_with_open(v: ItemView, open: bool)
    ensures
        container_of(with_open(v, open).behaviors) == container_of(v.behaviors),
{
    let bs = v.behaviors;
    let t = with_open(v, open).behaviors;
    lemma_first_index(bs, is_openable_b());
    assert forall|j: int| 0 <= j < bs.len() implies is_container_b()(#[trigger] bs[j]) == is_container_b()(t[j]) by {}
    lemma_first_index_agree(bs, t, is_container_b(), is_container_b());
    let i = first_index(bs, is_container_b());
    lemma_first_index(bs, is_container_b());
    if i >= 0 {
        assert(t[i] == bs[i]);
    }
}

/// Hiding or revealing an item leaves its contents as they were.
pub proof fn lemma_container_of_with_revealed(v: ItemView, revealed: bool)
    ensures
        container_of(with_revealed(v, revealed).behaviors) == container_of(v.behaviors),
{
    let bs = v.behaviors;
    let t = with_revealed(v, revealed).behaviors;
    lemma_first_index(bs, is_hidden_b());
    assert forall|j: int| 0 <= j < bs.len() implies is_container_b()(#[trigger] bs[j]) == is_container_b()(t[j]) by {}
    lemma_first_index_agree(bs, t, is_container_b(), is_container_b());
    let i = first_index(bs, is_container_b());
    lemma_first_index(bs, is_container_b());
    if i >= 0 {
        assert(t[i] == bs[i]);
    }
}

/// Locking or unlocking an item leaves its contents as they were.
pub proof fn lemma_container_of_with_locked(v: ItemView, lock: bool)
    ensures
        container_of(with_locked(v, lock).behaviors) == container_of(v.behaviors),
{
    let bs = v.behaviors;
    let t = with_locked(v, lock).behaviors;
    lemma_first_index(bs, is_lock_b());
    assert forall|j: int| 0 <= j < bs.len() implies is_container_b()(#[trigger] bs[j]) == is_container_b()(t[j]) by {}
    lemma_first_index_agree(bs, t, is_container_b(), is_container_b());
    let i = first_index(bs, is_container_b());
    lemma_first_index(bs, is_container_b());
    if i >= 0 {
        assert(t[i] == bs[i]);
    }
}

impl Item {
    /// Index of the first behavior whose view satisfies `p`.
    fn find_first(&self, Ghost(p): Ghost<spec_fn(BehaviorView) -> bool>, kind: u8) -> (r: Option<usize>)
        requires
            kind < 12,
            p == behavior_test(kind),
        ensures
            match r {
                Some(i) => i as int == first_index(self@.behaviors, p) && i < self.behaviors@.len()
                    && p(self@.behaviors[i as int]) && self@.behaviors[i as int] == self.behaviors@[i as int]@,
                None => first_index(self@.behaviors, p) == -1,
            },
    {
        let ghost bs = self@.behaviors;
        proof {
            lemma_first_index(bs, p);
        }
        let mut i: usize = 0;
        while i < self.behaviors.len()
            invariant
                i <= self.behaviors@.len(),
                bs == self@.behaviors,
                bs.len() == self.behaviors@.len(),
                p == behavior_test(kind),
                kind < 12,
                forall|j: int| 0 <= j < i ==> !p(#[trigger] bs[j]),
                -1 <= first_index(bs, p) < bs.len(),
                first_index(bs, p) >= 0 ==> p(bs[first_index(bs, p)]),
                forall|j: int| 0 <= j < first_index(bs, p) ==> !p(#[trigger] bs[j]),
                first_index(bs, p) == -1 ==> forall|j: int| 0 <= j < bs.len() ==> !p(#[trigger] bs[j]),
            decreases self.behaviors@.len() - i,
        {
            assert(bs[i as int] == self.behaviors@[i as int]@);
            if test_behavior(&self.behaviors[i], kind) {
                return Some(i);
            }
            i = i + 1;
        }
        None
    }

    // Query Methods
    /// Returns true if the item can be picked up
    pub fn is_holdable(&self) -> (r: bool)
        ensures
            r == holdable(self@),
    {
        self.find_first(Ghost(is_holdable_b()), 0).is_some()
    }

    /// Returns true if the item has a container
    pub fn has_container(&self) -> (r: bool)
        ensures
            r == has_container(self@),
    {
        self.find_first(Ghost(is_container_b()), 1).is_some()
    }

    /// Returns true if the item can be opened/closed
    pub fn has_openable(&self) -> (r: bool)
        ensures
            r == openable(self@),
    {
        self.find_first(Ghost(is_openable_b()), 2).is_some()
    }

    /// Returns true if the item can be read
    pub fn has_readable(&self) -> (r: bool)
        ensures
            r == readable(self@),
    {
        self.find_first(Ghost(is_readable_b()), 3).is_some()
    }

    /// Returns true if the item is a weapon
    pub fn has_weapon(&self) -> (r: bool)
        ensures
            r == weapon(self@),
    {
        self.find_first(Ghost(is_weapon_b()), 4).is_some()
    }

    /// Returns true if the item is currently hidden from view
    pub fn is_hidden(&self) -> (r: bool)
        ensures
            r == hidden(self@),
    {
        self.find_first(Ghost(is_unrevealed_b()), 7).is_some()
    }

    /// Returns true if the item is scenery (doesn't show in room listings)
    pub fn is_scenery(&self) -> (r: bool)
        ensures
            r == scenery(self@),
    {
        self.find_first(Ghost(is_scenery_b()), 8).is_some()
    }

    /// Returns true if the item should be shown in automatic room listings
    /// (not hidden and not scenery)
    pub fn should_list_in_room(&self) -> (r: bool)
        ensures
            r == (!hidden(self@) && !scenery(self@)),
    {
        !self.is_hidden() && !self.is_scenery()
    }

    /// Returns true if the item is currently open (or has no Openable behavior)
    pub fn is_open(&self) -> (r: bool)
        ensures
            r == is_open_state(self@),
    {
        match self.find_first(Ghost(is_openable_b()), 2) {
            Some(i) => match &self.behaviors[i] {
                ItemBehavior::Openable { is_open } => *is_open,
                _ => true,
            },
            None => true,
        }
    }

    /// Returns true if the item's container holds as many items as its capacity allows
    pub fn is_full(&self) -> (r: bool)
        ensures
            r == full(self@),
    {
        match self.find_first(Ghost(is_container_b()), 1) {
            Some(i) => match &self.behaviors[i] {
                ItemBehavior::Container { contents, capacity } => match capacity {
                    Some(k) => contents.len() >= *k,
                    None => false,
                },
                _ => false,
            },
            None => false,
        }
    }

    /// Returns true if the item is currently locked
    pub fn is_locked(&self) -> (r: bool)
        ensures
            r == locked(self@),
    {
        self.find_first(Ghost(is_engaged_lock_b()), 10).is_some()
    }

    // Getter Methods
    /// Returns a reference to the container contents if this item is a container
    pub fn get_container(&self) -> (r: Option<&Vec<i32>>)
        ensures
            match r {
                Some(c) => container_of(self@.behaviors) == Some(c@),
                None => container_of(self@.behaviors) is None,
            },
    {
        match self.find_first(Ghost(is_container_b()), 1) {
            Some(i) => match &self.behaviors[i] {
                ItemBehavior::Container { contents, .. } => Some(contents),
                _ => None,
            },
            None => None,
        }
    }

    /// Returns a mutable reference to the container contents if this item is a container
    pub fn get_container_mut(&mut self) -> (r: Option<&mut Vec<i32>>)
        ensures
            match r {
                Some(c) => container_of(old(self)@.behaviors) == Some(c@) && final(self)@ == with_contents(
                    old(self)@,
                    final(c)@,
                ),
                None => container_of(old(self)@.behaviors) is None && final(self)@ == old(self)@,
            },
    {
        match self.find_first(Ghost(is_container_b()), 1) {
            Some(i) => {
                let ghost old_bs = self.behaviors@;
                assert forall|x: Vec<i32>, cap: Option<usize>| #[trigger] behavior_views(
                    old_bs.update(i as int, ItemBehavior::Container { contents: x, capacity: cap }),
                ) == behavior_views(old_bs).update(
                    i as int,
                    BehaviorView::Container { contents: x@, capacity: cap },
                ) by {
                    assert(behavior_views(
                        old_bs.update(i as int, ItemBehavior::Container { contents: x, capacity: cap }),
                    ) =~= behavior_views(old_bs).update(
                        i as int,
                        BehaviorView::Container { contents: x@, capacity: cap },
                    ));
                }
                match &mut self.behaviors[i] {
                    ItemBehavior::Container { contents, .. } => Some(contents),
                    _ => None,
                }
            },
            None => None,
        }
    }

    /// Returns the weapon damage if this item is a weapon
    pub fn get_weapon_damage(&self) -> (r: Option<i32>)
        ensures
            r == weapon_damage(self@),
    {
        match self.find_first(Ghost(is_weapon_b()), 4) {
            Some(i) => match &self.behaviors[i] {
                ItemBehavior::Weapon { damage } => Some(*damage),
                _ => None,
            },
            None => None,
        }
    }

    /// Returns the item's size if it has a Size behavior
    pub fn get_size(&self) -> (r: Option<u8>)
        ensures
            r == size_of(self@),
    {
        match self.find_first(Ghost(is_size_b()), 5) {
            Some(i) => match &self.behaviors[i] {
                ItemBehavior::Size { value } => Some(*value),
                _ => None,
            },
            None => None,
        }
    }

    /// Returns the readable text if this item is readable
    pub fn get_readable_text(&self) -> (r: Option<&str>)
        ensures
            match r {
                Some(t) => readable_text(self@) == Some(t@),
                None => readable_text(self@) is None,
            },
    {
        match self.find_first(Ghost(is_readable_b()), 3) {
            Some(i) => match &self.behaviors[i] {
                ItemBehavior::Readable { text } => Some(text.as_str()),
                _ => None,
            },
            None => None,
        }
    }

    /// Returns the key_id if this item is locked
    pub fn get_key_id(&self) -> (r: Option<i32>)
        ensures
            r == key_of(self@),
    {
        match self.find_first(Ghost(is_keyed_lock_b()), 11) {
            Some(i) => match &self.behaviors[i] {
                ItemBehavior::Locked { key_id, .. } => *key_id,
                _ => None,
            },
            None => None,
        }
    }

    // Setter Methods
    /// Sets the open state for Openable behavior. Returns true if successful.
    pub fn set_open(&mut self, open: bool) -> (r: bool)
        ensures
            r == openable(old(self)@),
            final(self)@ == with_open(old(self)@, open),
    {
        match self.find_first(Ghost(is_openable_b()), 2) {
            Some(i) => {
                self.behaviors.set(i, ItemBehavior::Openable { is_open: open });
                proof {
                    assert(behavior_views(self.behaviors@) =~= behavior_views(old(self).behaviors@).update(
                        i as int,
                        BehaviorView::Openable { is_open: open },
                    ));
                }
                true
            },
            None => false,
        }
    }

    /// Sets the locked state for Locked behavior. Returns true if successful.
    pub fn set_locked(&mut self, locked: bool) -> (r: bool)
        ensures
            r == has_b(old(self)@.behaviors, is_lock_b()),
            final(self)@ == with_locked(old(self)@, locked),
    {
        match self.find_first(Ghost(is_lock_b()), 9) {
            Some(i) => {
                let key = match &self.behaviors[i] {
                    ItemBehavior::Locked { key_id, .. } => *key_id,
                    _ => None,
                };
                self.behaviors.set(i, ItemBehavior::Locked { is_locked: locked, key_id: key });
                proof {
                    assert(behavior_views(self.behaviors@) =~= behavior_views(old(self).behaviors@).update(
                        i as int,
                        BehaviorView::Locked { is_locked: locked, key_id: key },
                    ));
                }
                true
            },
            None => false,
        }
    }

    /// Reveals a hidden item. Returns true if successful.
    pub fn uncover(&mut self) -> (r: bool)
        ensures
            r == has_b(old(self)@.behaviors, is_hidden_b()),
            final(self)@ == with_revealed(old(self)@, true),
    {
        self.set_revealed(true)
    }

    /// Hides an item again. Returns true if successful.
    pub fn conceal(&mut self) -> (r: bool)
        ensures
            r == has_b(old(self)@.behaviors, is_hidden_b()),
            final(self)@ == with_revealed(old(self)@, false),
    {
        self.set_revealed(false)
    }

    fn set_revealed(&mut self, revealed: bool) -> (r: bool)
        ensures
            r == has_b(old(self)@.behaviors, is_hidden_b()),
            final(self)@ == with_revealed(old(self)@, revealed),
    {
        match self.find_first(Ghost(is_hidden_b()), 6) {
            Some(i) => {
                self.behaviors.set(i, ItemBehavior::Hidden { revealed });
                proof {
                    assert(behavior_views(self.behaviors@) =~= behavior_views(old(self).behaviors@).update(
                        i as int,
                        BehaviorView::Hidden { revealed },
                    ));
                }
                true
            },
            None => false,
        }
    }

    /// Appends `id` to the contents of the first Container behavior. Returns true if there is one.
    pub fn container_push(&mut self, id: i32) -> (r: bool)
        ensures
            r == has_container(old(self)@),
            final(self)@ == match container_of(old(self)@.behaviors) {
                Some(c) => with_contents(old(self)@, c.push(id)),
                None => old(self)@,
            },
    {
        match self.find_first(Ghost(is_container_b()), 1) {
            Some(i) => {
                if let ItemBehavior::Container { contents, .. } = &mut self.behaviors[i] {
                    contents.push(id);
                }
                proof {
                    assert(behavior_views(self.behaviors@) =~= behavior_views(old(self).behaviors@).update(
                        i as int,
                        self.behaviors@[i as int]@,
                    ));
                }
                true
            },
            None => false,
        }
    }

    /// Removes the first occurrence of `id` from the contents of the first Container behavior.
    /// Returns true if the item was there.
    pub fn container_remove(&mut self, id: i32) -> (r: bool)
        ensures
            r == (container_of(old(self)@.behaviors) matches Some(c) && c.contains(id)),
            final(self)@ == match container_of(old(self)@.behaviors) {
                Some(c) => with_contents(old(self)@, crate::util::remove_first(c, id)),
                None => old(self)@,
            },
    {
        match self.find_first(Ghost(is_container_b()), 1) {
            Some(i) => {
                let mut found = false;
                if let ItemBehavior::Container { contents, .. } = &mut self.behaviors[i] {
                    proof {
                        lemma_first_index(contents@, crate::util::equals(id));
                    }
                    found = crate::util::remove_first_id(contents, id);
                    proof {
                        if contents@.contains(id) {
                            let j = choose|j: int| 0 <= j < old(self).behaviors@[i as int]@->contents.len() && old(self).behaviors@[i as int]@->contents[j] == id;
                            assert(crate::util::equals(id)(old(self).behaviors@[i as int]@->contents[j]));
                        }
                    }
                }
                proof {
                    assert(behavior_views(self.behaviors@) =~= behavior_views(old(self).behaviors@).update(
                        i as int,
                        self.behaviors@[i as int]@,
                    ));
                }
                found
            },
            None => false,
        }
    }
}

/// The test that `test_behavior` performs for each kind.
pub open spec fn behavior_test(kind: u8) -> spec_fn(BehaviorView) -> bool {
    if kind == 0 {
        is_holdable_b()
    } else if kind == 1 {
        is_container_b()
    } else if kind == 2 {
        is_openable_b()
    } else if kind == 3 {
        is_readable_b()
    } else if kind == 4 {
        is_weapon_b()
    } else if kind == 5 {
        is_size_b()
    } else if kind == 6 {
        is_hidden_b()
    } else if kind == 7 {
        is_unrevealed_b()
    } else if kind == 8 {
        is_scenery_b()
    } else if kind == 9 {
        is_lock_b()
    } else if kind == 10 {
        is_engaged_lock_b()
    } else {
        is_keyed_lock_b()
    }
}

fn test_behavior(b: &ItemBehavior, kind: u8) -> (r: bool)
    requires
        kind < 12,
    ensures
        r == behavior_test(kind)(b@),
{
    match b {
        ItemBehavior::Holdable => kind == 0,
        ItemBehavior::Container { .. } => kind == 1,
        ItemBehavior::Openable { .. } => kind == 2,
        ItemBehavior::Readable { .. } => kind == 3,
        ItemBehavior::Weapon { .. } => kind == 4,
        ItemBehavior::Size { .. } => kind == 5,
        ItemBehavior::Hidden { revealed } => kind == 6 || (kind == 7 && !*revealed),
        ItemBehavior::Scenery => kind == 8,
        ItemBehavior::Locked { is_locked, key_id } => kind == 9 || (kind == 10 && *is_locked) || (
        kind == 11 && key_id.is_some()),
    }
}

} // verus!
