//! # Game of Life
//!
//! Conway's Game of Life on a fixed-size, periodic universe: cells on the
//! edges have neighbors that wrap around to the other side, so patterns such
//! as gliders keep running forever.

pub mod cells;
pub mod error;
pub mod grid;
pub mod laws;
pub mod patterns;
pub mod universe;

pub use cells::Cell;
pub use error::UniverseError;
pub use grid::Grid;
pub use universe::Universe;
