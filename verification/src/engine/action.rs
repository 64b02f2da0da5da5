//! Actions: player interactions resolved against the game world.
use vstd::prelude::*;
use crate::models::world::Direction;

verus! {

/// An action is a resolved player interaction with the game.
///
/// Actions are created from a parsed command, and require proper
/// game context to be constructed.
///
/// An action uses entity ID's to reference what object the player is attempting to interact with.
#[derive(Debug, Clone, PartialEq)]
pub enum Action {
    /// The player wants to move somewhere.
    Move { dir: Direction },
    /// The player wants to get items.
    Get { items: Vec<i32> },
    /// The player wants to drop items.
    Drop { items: Vec<i32> },
    /// The player wants to put an item in a container.
    Put { item: i32, container: i32 },
    /// The player is looking at an item or the surrounding area.
    Look { target: Option<i32> },
    /// The player is opening something.
    Open { target: i32 },
    /// The player is closing something.
    Close { target: i32 },
    /// The player is attacking something, optionally with an item.
    Attack { target: i32, weapon: Option<i32> },
    /// The player is unlocking something with a key.
    Unlock { target: i32, key: i32 },
    /// The player is trying to read something.
    Read { target: i32 },
}

/// An action with its item lists as sequences.
pub enum ActionView {
    Move { dir: Direction },
    Get { items: Seq<i32> },
    Drop { items: Seq<i32> },
    Put { item: i32, container: i32 },
    Look { target: Option<i32> },
    Open { target: i32 },
    Close { target: i32 },
    Attack { target: i32, weapon: Option<i32> },
    Unlock { target: i32, key: i32 },
    Read { target: i32 },
}

impl View for Action {
    type V = ActionView;

    open spec fn view(&self) -> ActionView {
        match self {
            Action::Move { dir } => ActionView::Move { dir: *dir },
            Action::Get { items } => ActionView::Get { items: items@ },
            Action::Drop { items } => ActionView::Drop { items: items@ },
            Action::Put { item, container } => ActionView::Put { item: *item, container: *container },
            Action::Look { target } => ActionView::Look { target: *target },
            Action::Open { target } => ActionView::Open { target: *target },
            Action::Close { target } => ActionView::Close { target: *target },
            Action::Attack { target, weapon } => ActionView::Attack { target: *target, weapon: *weapon },
            Action::Unlock { target, key } => ActionView::Unlock { target: *target, key: *key },
            Action::Read { target } => ActionView::Read { target: *target },
        }
    }
}

} // verus!
