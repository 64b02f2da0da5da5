//! Building rooms.
use vstd::prelude::*;
use crate::models::condition::{ConditionPredicate, ConditionTrigger};
use crate::models::room::{opt_text, ConditionalDescription, Room, RoomView};
use crate::models::world::Direction;
use crate::tables::{inserted, lemma_insert_twice, ExitMap};
use crate::util::owned;

verus! {

/// Giving a room an exit in a direction it already has one in replaces the earlier
/// exit: the exits are those that giving the later one alone would leave.
pub proof fn lemma_later_exit_wins(exits: Seq<(Direction, i32)>, dir: Direction, first: i32, second: i32)
    ensures
        inserted(inserted(exits, dir, first), dir, second) == inserted(exits, dir, second),
{
    lemma_insert_twice(exits, dir, first, second);
}

/// A room builder object, used to create rooms
pub struct RoomBuilder {
    pub name: String,
    pub desc: Option<String>,
    pub long_desc: Option<String>,
    pub exits: ExitMap,
    pub entered: bool,
    pub items: Vec<i32>,
    pub conditions: Vec<ConditionTrigger>,
    pub conditional_descriptions: Vec<ConditionalDescription>,
}

impl View for RoomBuilder {
    type V = RoomView;

    open spec fn view(&self) -> RoomView {
        RoomView {
            name: self.name@,
            desc: opt_text(self.desc),
            long_desc: opt_text(self.long_desc),
            exits: self.exits@,
            entered: self.entered,
            items: self.items@,
            conditions: self.conditions@,
            conditional_descriptions: self.conditional_descriptions@,
        }
    }
}

impl RoomBuilder {
    /// Creates a new room builder
    pub fn new(name: &str) -> (b: Self)
        ensures
            b@ == (RoomView {
                name: name@,
                desc: None,
                long_desc: None,
                exits: Seq::empty(),
                entered: false,
                items: Seq::empty(),
                conditions: Seq::empty(),
                conditional_descriptions: Seq::empty(),
            }),
    {
        RoomBuilder {
            name: owned(name),
            desc: None,
            long_desc: None,
            exits: ExitMap::new(),
            entered: false,
            items: Vec::new(),
            conditions: Vec::new(),
            conditional_descriptions: Vec::new(),
        }
    }

    /// Adds a description to the room
    pub fn with_desc(self, desc: &str) -> (b: Self)
        ensures
            b@ == (RoomView { desc: Some(desc@), ..self@ }),
    {
        let mut b = self;
        b.desc = Some(owned(desc));
        b
    }

    /// Adds a long description to the room
    pub fn with_long_desc(self, long_desc: &str) -> (b: Self)
        ensures
            b@ == (RoomView { long_desc: Some(long_desc@), ..self@ }),
    {
        let mut b = self;
        b.long_desc = Some(owned(long_desc));
        b
    }

    /// Adds an exit to the room
    pub fn with_exit(self, dir: Direction, room_id: i32) -> (b: Self)
        ensures
            b@ == (RoomView { exits: inserted(self@.exits, dir, room_id), ..self@ }),
    {
        let mut b = self;
        b.exits.insert(dir, room_id);
        b
    }

    /// Adds an item to the room
    pub fn with_item(self, item: i32) -> (b: Self)
        ensures
            b@ == (RoomView { items: self@.items.push(item), ..self@ }),
    {
        let mut b = self;
        b.items.push(item);
        b
    }

    /// Adds a condition that triggers when entering this room
    pub fn with_condition(self, cond: ConditionTrigger) -> (b: Self)
        ensures
            b@ == (RoomView { conditions: self@.conditions.push(cond), ..self@ }),
    {
        let mut b = self;
        b.conditions.push(cond);
        b
    }

    /// Adds text to the room's description, shown when `predicate` holds; with
    /// `show_in_short` it is shown on re-entry too, else only with the long description.
    pub fn with_conditional_desc(self, predicate: ConditionPredicate, text: &str, show_in_short: bool) -> (b: Self)
        ensures
            b@ == (RoomView { conditional_descriptions: b@.conditional_descriptions, ..self@ }),
            b@.conditional_descriptions.len() == self@.conditional_descriptions.len() + 1,
            b@.conditional_descriptions.drop_last() == self@.conditional_descriptions,
            b@.conditional_descriptions.last().predicate == predicate,
            b@.conditional_descriptions.last().text@ == text@,
            b@.conditional_descriptions.last().show_in_short == show_in_short,
    {
        let mut b = self;
        b.conditional_descriptions.push(ConditionalDescription { predicate, text: owned(text), show_in_short });
        assert(b@.conditional_descriptions.drop_last() =~= self@.conditional_descriptions);
        b
    }

    /// Constructs the room object
    pub fn build(self) -> (r: Room)
        ensures
            r@ == self@,
    {
        Room {
            name: self.name,
            desc: self.desc,
            long_desc: self.long_desc,
            exits: self.exits,
            entered: self.entered,
            items: self.items,
            conditions: self.conditions,
            conditional_descriptions: self.conditional_descriptions,
        }
    }
}

} // verus!
