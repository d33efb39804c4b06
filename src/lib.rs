//! A generalised Sudoku board: an N x N grid of optional values split into
//! rectangular sections, with row, column and section views, validation,
//! bulk population from text and a box-drawn text rendering.
pub mod cells;
pub mod error;
pub mod board;
pub mod section;
pub mod sec_iter;
pub mod validate;
pub mod populate;
pub mod render;
pub mod laws;

pub use board::Sudoku;
pub use error::{CreateSudokuError, PopulateError};
pub use sec_iter::SudokuSecIter;
