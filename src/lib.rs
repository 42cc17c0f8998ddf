//! Simulation core of a grid-based crate-pushing puzzle in which crates can
//! be dropped into holes: tiles, crates, goals, the player, reversible
//! push/pull actions with an undo history, and the win condition.
//!
//! A level is built from a plain description of a map ([`map::MapData`]),
//! changed only by the player's moves and their undoing, and polled for
//! what to draw. Every operation is verified against its contract; the laws
//! that relate several operations are proved in [`runs`] and [`level`].

pub mod action;
pub mod grid;
pub mod input_system;
pub mod level;
pub mod load;
pub mod map;
pub mod objects;
pub mod player;
pub mod runs;
pub mod tilemap;
pub mod ui;
