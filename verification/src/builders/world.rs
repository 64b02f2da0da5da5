//! Building worlds.
use vstd::prelude::*;
use crate::models::condition::ConditionTrigger;
use crate::models::item::{item_views, Item};
use crate::models::room::Room;
use crate::models::world::{room_views, World, WorldView};
use crate::tables::{inserted, lemma_insert_twice, IdMap, NameMap};
use crate::util::{owned, texts};

verus! {

/// Adding a room under an id the world already has replaces the earlier room: the
/// rooms are those that adding the later one alone would leave.
pub proof fn lemma_later_room_wins(rooms: Seq<(i32, Room)>, id: i32, first: Room, second: Room)
    ensures
        inserted(inserted(rooms, id, first), id, second) == inserted(rooms, id, second),
{
    lemma_insert_twice(rooms, id, first, second);
}

/// The WorldBuilder is used to construct a [World] object
pub struct WorldBuilder {
    pub rooms: IdMap<Room>,
    pub items: IdMap<Item>,
    pub initial_prints: Option<Vec<String>>,
    pub global_conditions: Vec<ConditionTrigger>,
    pub flags: NameMap<bool>,
}

impl View for WorldBuilder {
    type V = WorldView;

    open spec fn view(&self) -> WorldView {
        WorldView {
            rooms: room_views(self.rooms@),
            items: item_views(self.items@),
            initial_prints: match self.initial_prints {
                Some(v) => Some(texts(v@)),
                None => None,
            },
            global_conditions: self.global_conditions@,
            flags: self.flags@,
        }
    }
}

impl WorldBuilder {
    /// Creates a new world build
    pub fn new() -> (b: Self)
        ensures
            b.rooms@.len() == 0,
            b.items@.len() == 0,
            b@.initial_prints is None,
            b@.global_conditions.len() == 0,
            b@.flags.len() == 0,
    {
        WorldBuilder {
            rooms: IdMap::new(),
            items: IdMap::new(),
            initial_prints: None,
            global_conditions: Vec::new(),
            flags: NameMap::new(),
        }
    }

    /// Adds a room to the world
    pub fn with_room(self, id: i32, room: Room) -> (b: Self)
        ensures
            b.rooms@ == inserted(self.rooms@, id, room),
            b.items@ == self.items@,
            b@ == (WorldView { rooms: room_views(inserted(self.rooms@, id, room)), ..self@ }),
    {
        let mut b = self;
        let _ = b.rooms.insert(id, room);
        b
    }

    /// Adds an item to the world
    pub fn with_item(self, id: i32, item: Item) -> (b: Self)
        ensures
            b.items@ == inserted(self.items@, id, item),
            b.rooms@ == self.rooms@,
            b@ == (WorldView { items: item_views(inserted(self.items@, id, item)), ..self@ }),
    {
        let mut b = self;
        let _ = b.items.insert(id, item);
        b
    }

    /// Sets the given text to the initial prints
    pub fn with_initial_prints(self, prints: Vec<String>) -> (b: Self)
        ensures
            b.rooms@ == self.rooms@,
            b.items@ == self.items@,
            b@ == (WorldView { initial_prints: Some(texts(prints@)), ..self@ }),
    {
        let mut b = self;
        b.initial_prints = Some(prints);
        b
    }

    /// Adds a global condition that is evaluated every turn
    pub fn with_global_condition(self, cond: ConditionTrigger) -> (b: Self)
        ensures
            b.rooms@ == self.rooms@,
            b.items@ == self.items@,
            b@ == (WorldView { global_conditions: self@.global_conditions.push(cond), ..self@ }),
    {
        let mut b = self;
        b.global_conditions.push(cond);
        b
    }

    /// Sets an initial flag value
    pub fn with_flag(self, name: &str, value: bool) -> (b: Self)
        ensures
            b.rooms@ == self.rooms@,
            b.items@ == self.items@,
            b@ == (WorldView { flags: inserted(self@.flags, name@, value), ..self@ }),
    {
        let mut b = self;
        b.flags.insert(owned(name), value);
        b
    }

    /// Consumes self and builds the world object
    pub fn build(self) -> (w: World)
        ensures
            w@ == self@,
            w.rooms@ == self.rooms@,
            w.items@ == self.items@,
    {
        World {
            rooms: self.rooms,
            items: self.items,
            initial_prints: self.initial_prints,
            global_conditions: self.global_conditions,
            flags: self.flags,
        }
    }
}

} // verus!
