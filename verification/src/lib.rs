//! A verified Conway's Game of Life engine on a toroidal grid.
//!
//! The grid is a rectangular lattice whose edges wrap around (a torus).
//! Every cell is Dead or Alive and the whole grid evolves synchronously
//! under the standard B3/S23 rule: a live cell survives with two or three
//! live neighbors, a dead cell comes to life with exactly three.

pub mod cell;
pub mod grid;
pub mod laws;
pub mod universe;

pub use cell::Cell;
pub use universe::Universe;
