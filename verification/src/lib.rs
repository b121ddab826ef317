//! Simulation core of a falling-block puzzle game: board state, the active
//! piece, shuffled-bag piece sequencing, input handling, gravity timing and
//! line-clear logic, each operation carrying a proved contract.

pub mod geom;
pub mod piece;
pub mod active;
pub mod cells;
pub mod board;
pub mod sack;
pub mod game;
