//! Core engine of a terminal Sudoku game.
//!
//! The board is held as three synchronized views (rows, columns and 3x3
//! boxes) of the same 81 cells.  The engine generates a solved board by
//! seeding the three independent diagonal boxes and completing the rest
//! with a per-(box, value) backtracking search, reveals a difficulty-driven
//! number of clues, and answers per-position read/write and completion
//! queries for the interactive front end.

pub mod container;
pub mod display;
pub mod fifo;
pub mod generate;
pub mod grid;
pub mod menu;
pub mod puzzle;
pub mod rng;
pub mod saves;
pub mod sudoku;
