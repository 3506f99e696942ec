//! A toroidal Conway's Game of Life engine over a packed bit grid.
//!
//! `grid` holds the mathematical model (boards, wrapping, the transition
//! rule and the text rendering), `bitset` the packed storage, `universe`
//! the executable engine proved against the model, and `laws` the general
//! facts about generations that follow from the model.

pub mod bitset;
pub mod grid;
pub mod laws;
pub mod universe;

pub use grid::{Board, Cell};
pub use universe::{Universe, DEFAULT_HEIGHT, DEFAULT_WIDTH};
