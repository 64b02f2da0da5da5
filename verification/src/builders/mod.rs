//! The builders module defines builders used to construct a game world
pub mod item;
pub mod room;
pub mod world;

pub use item::ItemBuilder;
pub use room::RoomBuilder;
pub use world::WorldBuilder;
