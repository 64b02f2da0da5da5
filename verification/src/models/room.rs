//! Rooms: places the player can enter.
use vstd::prelude::*;
use crate::engine::game::{Game, GameView};
use crate::models::condition::predicate::{eval, ConditionPredicate};
use crate::models::condition::ConditionTrigger;
use crate::tables::ExitMap;
use crate::util::texts;

verus! {

/// Conditional text that appears in room descriptions based on game state
#[derive(Debug)]
pub struct ConditionalDescription {
    /// Predicate that must be true for text to display
    pub predicate: ConditionPredicate,
    /// Text to append to room description
    pub text: String,
    /// If true, show with both long and short descriptions;
    /// if false, show only when long_desc is displayed
    pub show_in_short: bool,
}

/// Represents a place the player can enter.
/// A room may contain entities the player can interact with.
/// It may also connect to other rooms.
#[derive(Debug)]
pub struct Room {
    /// Name of the room
    pub name: String,
    /// Text printed on re-entry of a room
    pub desc: Option<String>,
    /// Text printed on inital entry or explicit look
    pub long_desc: Option<String>,
    /// Surrounding rooms
    pub exits: ExitMap,
    /// Stores if the room has been entered
    pub entered: bool,
    /// All Items in the room
    pub items: Vec<i32>,
    /// Conditions that can trigger in this room.
    pub conditions: Vec<ConditionTrigger>,
    /// Conditional descriptions that appear based on game state
    pub conditional_descriptions: Vec<ConditionalDescription>,
}

/// A room with its texts as sequences.
pub struct RoomView {
    pub name: Seq<char>,
    pub desc: Option<Seq<char>>,
    pub long_desc: Option<Seq<char>>,
    pub exits: Seq<(crate::models::world::Direction, i32)>,
    pub entered: bool,
    pub items: Seq<i32>,
    pub conditions: Seq<ConditionTrigger>,
    pub conditional_descriptions: Seq<ConditionalDescription>,
}

/// The characters of an optional text.
pub open spec fn opt_text(s: Option<String>) -> Option<Seq<char>> {
    match s {
        Some(t) => Some(t@),
        None => None,
    }
}

impl View for Room {
    type V = RoomView;

    open spec fn view(&self) -> RoomView {
        RoomView {
            name: self.name@,
            desc: opt_text(self.desc),
            long_desc: opt_text(self.long_desc),
            exits: self.exits@,
            entered: self.entered,
            items: self.items@,
            conditions: self.conditions@,
            conditional_descriptions: self.conditional_descriptions@,
        }
    }
}

/// The base description line of a room: the long description when asked for and
/// present, else the short one.
pub open spec fn base_description(r: RoomView, use_long_desc: bool) -> Seq<Seq<char>> {
    if use_long_desc && r.long_desc is Some {
        seq![r.long_desc->0]
    } else if r.desc is Some {
        seq![r.desc->0]
    } else {
        Seq::empty()
    }
}

/// The conditional texts of `cds` that apply in game state `g`.
pub open spec fn conditional_lines(cds: Seq<ConditionalDescription>, g: GameView, use_long_desc: bool) -> Seq<
    Seq<char>,
>
    decreases cds.len(),
{
    if cds.len() == 0 {
        Seq::empty()
    } else {
        let rest = conditional_lines(cds.drop_last(), g, use_long_desc);
        let cd = cds.last();
        if (use_long_desc || cd.show_in_short) && eval(g, cd.predicate) {
            rest.push(cd.text@)
        } else {
            rest
        }
    }
}

/// The full description of a room: its name, its base description and the
/// conditional texts that apply.
pub open spec fn full_description(r: RoomView, g: GameView, use_long_desc: bool) -> Seq<Seq<char>> {
    seq![r.name] + base_description(r, use_long_desc) + conditional_lines(
        r.conditional_descriptions,
        g,
        use_long_desc,
    )
}

impl Room {
    /// Gets the full room description including conditional text
    ///
    /// # Arguments
    /// * `game` - Current game state for evaluating predicates
    /// * `use_long_desc` - If true, use long_desc (first visit/look). If false, use desc (re-entry)
    pub fn get_full_description(&self, game: &Game, use_long_desc: bool) -> (r: Vec<String>)
        ensures
            texts(r@) == full_description(self@, game@, use_long_desc),
    {
        let mut output: Vec<String> = Vec::new();
        // Add room name
        output.push(self.name.clone());
        // Add base description
        if use_long_desc {
            if let Some(long_desc) = &self.long_desc {
                output.push(long_desc.clone());
            } else if let Some(desc) = &self.desc {
                output.push(desc.clone());
            }
        } else {
            if let Some(desc) = &self.desc {
                output.push(desc.clone());
            }
        }
        let ghost head = texts(output@);
        assert(head =~= seq![self@.name] + base_description(self@, use_long_desc));
        // Add conditional descriptions (in order)
        let mut i: usize = 0;
        while i < self.conditional_descriptions.len()
            invariant
                i <= self.conditional_descriptions@.len(),
                texts(output@) == head + conditional_lines(
                    self.conditional_descriptions@.take(i as int),
                    game@,
                    use_long_desc,
                ),
            decreases self.conditional_descriptions@.len() - i,
        {
            let cond_desc = &self.conditional_descriptions[i];
            proof {
                assert(self.conditional_descriptions@.take(i + 1).drop_last()
                    == self.conditional_descriptions@.take(i as int));
            }
            // Skip if this is short desc and condition isn't marked for short
            if use_long_desc || cond_desc.show_in_short {
                // Evaluate predicate
                if game.evaluate_predicate(&cond_desc.predicate) {
                    let ghost prev = output@;
                    output.push(cond_desc.text.clone());
                    assert(texts(output@) =~= texts(prev).push(cond_desc.text@));
                }
            }
            i = i + 1;
        }
        assert(self.conditional_descriptions@.take(i as int) == self.conditional_descriptions@);
        output
    }
}

} // verus!
