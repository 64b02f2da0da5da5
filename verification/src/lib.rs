//! A text adventure game engine: a parser for player sentences, a world model of
//! rooms and items, and an engine that resolves and executes player actions.
pub mod builders;
pub mod engine;
pub mod errors;
pub mod models;
pub mod parser;
pub mod tables;
pub mod util;
pub mod worlds;
