//! Example game worlds.
pub mod dungeon;
pub mod simple;
