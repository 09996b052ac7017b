//! Simulation core of a turn-paced dungeon crawler: level generation, field of
//! view, monster navigation and combat resolution over an arena of actors.
//!
//! - [`grid`]: positions, directions and row-major tile fields.
//! - [`map_builder`]: rooms and corridors carved into a field of walls.
//! - [`fov`]: what an actor sees from a cell.
//! - [`components`]: the data attached to actors, the turn clock, the log.
//! - [`arena`]: the actors of a world and the queries on them.
//! - [`pathing`]: route finding, carried out by the `pathfinding` crate.
//! - [`random`]: the draws taken from the `rand` crate.
//! - [`systems`]: the stages of a frame.
//! - [`world`]: a whole world and its advance by one frame.

pub mod arena;
pub mod components;
pub mod fov;
pub mod grid;
pub mod map_builder;
pub mod pathing;
mod random;
pub mod systems;
pub mod world;
