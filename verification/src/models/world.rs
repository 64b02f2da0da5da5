//! Everything that exists inside the game world.
use vstd::prelude::*;
use crate::errors::ParseError;
use crate::models::condition::ConditionTrigger;
use crate::models::item::{item_views, Item, ItemView};
use crate::models::room::{Room, RoomView};
use crate::tables::{IdMap, NameMap};
use crate::util::{owned, text_is, texts};

verus! {

/// Represents the entire world of the game.
#[derive(Debug)]
pub struct World {
    /// The list of all rooms in the game.
    /// The starting room is the room with the 0 Id.
    /// If no starting room is given, the game does not start.
    pub rooms: IdMap<Room>,
    /// The list of all items in the game.
    pub items: IdMap<Item>,
    /// Any text that should be printed before the game starts.
    pub initial_prints: Option<Vec<String>>,
    /// Global conditions that are checked every turn or at specific events
    pub global_conditions: Vec<ConditionTrigger>,
    /// Named boolean flags for tracking game state
    pub flags: NameMap<bool>,
}

/// The world with rooms, items and texts as views.
pub struct WorldView {
    pub rooms: Seq<(i32, RoomView)>,
    pub items: Seq<(i32, ItemView)>,
    pub initial_prints: Option<Seq<Seq<char>>>,
    pub global_conditions: Seq<ConditionTrigger>,
    pub flags: Seq<(Seq<char>, bool)>,
}

/// The rooms of a table, each as its view.
pub open spec fn room_views(s: Seq<(i32, Room)>) -> Seq<(i32, RoomView)> {
    s.map_values(|e: (i32, Room)| (e.0, e.1@))
}

impl View for World {
    type V = WorldView;

    open spec fn view(&self) -> WorldView {
        WorldView {
            rooms: room_views(self.rooms@),
            items: item_views(self.items@),
            initial_prints: match self.initial_prints {
                Some(v) => Some(texts(v@)),
                None => None,
            },
            global_conditions: self.global_conditions@,
            flags: self.flags@,
        }
    }
}

impl World {
    /// Creates a new empty world
    pub fn empty() -> (w: World)
        ensures
            w@.rooms.len() == 0,
            w@.items.len() == 0,
            w@.initial_prints is None,
            w@.global_conditions.len() == 0,
            w@.flags.len() == 0,
    {
        World {
            rooms: IdMap::new(),
            items: IdMap::new(),
            initial_prints: None,
            global_conditions: Vec::new(),
            flags: NameMap::new(),
        }
    }
}

/// Represents a direction in the world
#[derive(Debug, Eq, PartialEq, Hash, Clone, Copy, Structural)]
pub enum Direction {
    North,
    NorthEast,
    East,
    SouthEast,
    South,
    SouthWest,
    West,
    NorthWest,
    Up,
    Down,
}

/// The direction that a word names, if any.
pub open spec fn direction_of(w: Seq<char>) -> Option<Direction> {
    if w == "n"@ || w == "north"@ {
        Some(Direction::North)
    } else if w == "e"@ || w == "east"@ {
        Some(Direction::East)
    } else if w == "s"@ || w == "south"@ {
        Some(Direction::South)
    } else if w == "w"@ || w == "west"@ {
        Some(Direction::West)
    } else if w == "ne"@ || w == "northeast"@ || w == "north-east"@ {
        Some(Direction::NorthEast)
    } else if w == "se"@ || w == "southeast"@ || w == "south-east"@ {
        Some(Direction::SouthEast)
    } else if w == "nw"@ || w == "northwest"@ || w == "north-west"@ {
        Some(Direction::NorthWest)
    } else if w == "sw"@ || w == "southwest"@ || w == "south-west"@ {
        Some(Direction::SouthWest)
    } else if w == "u"@ || w == "up"@ {
        Some(Direction::Up)
    } else if w == "d"@ || w == "down"@ {
        Some(Direction::Down)
    } else {
        None
    }
}

/// How a direction is written for the player.
pub open spec fn direction_name(d: Direction) -> Seq<char> {
    match d {
        Direction::North => "north"@,
        Direction::NorthEast => "north-east"@,
        Direction::East => "east"@,
        Direction::SouthEast => "south-east"@,
        Direction::South => "south"@,
        Direction::SouthWest => "south-west"@,
        Direction::West => "west"@,
        Direction::NorthWest => "north-west"@,
        Direction::Up => "up"@,
        Direction::Down => "down"@,
    }
}

/// The variant name of a direction in lower case.
pub open spec fn direction_word(d: Direction) -> Seq<char> {
    match d {
        Direction::North => "north"@,
        Direction::NorthEast => "northeast"@,
        Direction::East => "east"@,
        Direction::SouthEast => "southeast"@,
        Direction::South => "south"@,
        Direction::SouthWest => "southwest"@,
        Direction::West => "west"@,
        Direction::NorthWest => "northwest"@,
        Direction::Up => "up"@,
        Direction::Down => "down"@,
    }
}

fn is_one_of(word: &str, a: &str, b: &str) -> (r: bool)
    ensures
        r == (word@ == a@ || word@ == b@),
{
    text_is(word, a) || text_is(word, b)
}

fn is_one_of3(word: &str, a: &str, b: &str, c: &str) -> (r: bool)
    ensures
        r == (word@ == a@ || word@ == b@ || word@ == c@),
{
    text_is(word, a) || text_is(word, b) || text_is(word, c)
}

impl Direction {
    /// Reads a direction from a word such as "north", "ne" or "south-west".
    pub fn try_from(s: &str) -> (r: Result<Direction, ParseError>)
        ensures
            match direction_of(s@) {
                Some(d) => r == Ok::<Direction, ParseError>(d),
                None => r matches Err(ParseError::NotADirection(w)) && w@ == s@,
            },
    {
        if is_one_of(s, "n", "north") {
            Ok(Direction::North)
        } else if is_one_of(s, "e", "east") {
            Ok(Direction::East)
        } else if is_one_of(s, "s", "south") {
            Ok(Direction::South)
        } else if is_one_of(s, "w", "west") {
            Ok(Direction::West)
        } else if is_one_of3(s, "ne", "northeast", "north-east") {
            Ok(Direction::NorthEast)
        } else if is_one_of3(s, "se", "southeast", "south-east") {
            Ok(Direction::SouthEast)
        } else if is_one_of3(s, "nw", "northwest", "north-west") {
            Ok(Direction::NorthWest)
        } else if is_one_of3(s, "sw", "southwest", "south-west") {
            Ok(Direction::SouthWest)
        } else if is_one_of(s, "u", "up") {
            Ok(Direction::Up)
        } else if is_one_of(s, "d", "down") {
            Ok(Direction::Down)
        } else {
            Err(ParseError::NotADirection(owned(s)))
        }
    }

    /// How the direction is written for the player, e.g. "north-east".
    pub fn to_string(&self) -> (r: String)
        ensures
            r@ == direction_name(*self),
    {
        let s = match self {
            Direction::North => "north",
            Direction::NorthEast => "north-east",
            Direction::East => "east",
            Direction::SouthEast => "south-east",
            Direction::South => "south",
            Direction::SouthWest => "south-west",
            Direction::West => "west",
            Direction::NorthWest => "north-west",
            Direction::Up => "up",
            Direction::Down => "down",
        };
        owned(s)
    }

    /// The variant name in lower case, e.g. "northeast".
    pub fn to_word(&self) -> (r: String)
        ensures
            r@ == direction_word(*self),
    {
        let s = match self {
            Direction::North => "north",
            Direction::NorthEast => "northeast",
            Direction::East => "east",
            Direction::SouthEast => "southeast",
            Direction::South => "south",
            Direction::SouthWest => "southwest",
            Direction::West => "west",
            Direction::NorthWest => "northwest",
            Direction::Up => "up",
            Direction::Down => "down",
        };
        owned(s)
    }
}

} // verus!
