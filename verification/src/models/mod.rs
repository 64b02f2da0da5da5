//! The models module holds information about any game objects in the game.
pub mod behavior;
pub mod condition;
pub mod item;
pub mod player;
pub mod room;
pub mod world;

pub use behavior::ItemBehavior;
pub use condition::{ConditionEffect, ConditionPredicate, ConditionTrigger};
pub use item::{Determiner, Item};
pub use player::Player;
pub use room::{ConditionalDescription, Room};
pub use world::{Direction, World};
