//! Core simulation of a falling-block puzzle game: the piece shape table,
//! the active piece and its rotation system, the board of settled blocks with
//! row-clear logic, and the orchestrating game state machine.
//!
//! Rendering, input polling and frame timing are left to the surrounding
//! program; the library exposes read accessors for the settled blocks, the
//! active piece, the ghost projection and the score, and accepts discrete
//! input events and gravity ticks.

use vstd::prelude::*;

pub mod board;
pub mod game;
pub mod tetromino;

verus! {

/// Number of columns of the board.
pub const WIDTH: usize = 10;

/// Number of rows of the board.
pub const HEIGHT: usize = 20;

/// Number of cleared lines that advance the level by one.
pub const LINES_TO_LEVEL: usize = 10;

} // verus!
