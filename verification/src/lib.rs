//! The board engine of a grid-based mine-clearing puzzle.
//!
//! A [`Board`] owns a rectangular grid of [`Cell`]s. Mines are scattered
//! over it while one chosen cell is kept safe, every safe cell learns how
//! many mines touch it, and each click of the player either reveals cells,
//! cascading over regions without adjacent mines, or toggles a flag.
//! Every function carries a contract that Verus proves.

pub mod board;
pub mod cascade;
pub mod cell;
pub mod entropy;
pub mod flood;
pub mod grid;
pub mod neighbors;
pub mod placement;
pub mod play;
pub mod queries;
pub mod tally;
pub mod theorems;

pub use board::{Board, BoardError, Click};
pub use cell::{Cell, CellState};
