//! A falling-sand cellular automaton on a fixed grid.
//!
//! The world is a dense grid of cells, each empty or holding one grain of
//! sand. A tick lets every grain fall one row, straight down or diagonally,
//! and a brush stamps a disc of sand or of emptiness onto the grid.

pub mod brush;
pub mod cell;
pub mod draws;
pub mod grid;
pub mod host;
pub mod motion;
pub mod rule;
pub mod tick;

pub use cell::{Cell, Tool};
pub use draws::{Choice, Draws, RowDraws, Side};
pub use grid::{World, HEIGHT, WIDTH};
pub use host::{cell_of_pixel, CELL_SIZE, ROLL_PERCENT, TICKS_PER_FRAME};
