//! The stages of a frame, each a function over the arena of actors and the
//! level.

pub mod combat;
pub mod monster;
pub mod player;
pub mod timer;
pub mod visibility;
