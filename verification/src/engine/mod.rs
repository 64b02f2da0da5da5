//! The engine module defines how objects are interacted with the player
pub mod action;
pub mod executor;
pub mod game;
pub mod resolver;

pub use game::Game;
