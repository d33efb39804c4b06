//! Errors of construction and of population from text.
use vstd::prelude::*;

verus! {

/// Why a board could not be constructed.
#[derive(Debug, Clone, Copy, PartialEq, Eq, Structural)]
pub enum CreateSudokuError {
    InvalidSize,
    InvalidSecWidth,
    InvalidSecHeight,
    InvalidCombination,
}

impl CreateSudokuError {
    /// A human-readable description of the error.
    pub fn message(&self) -> (r: &'static str)
        ensures
            r@ == match self {
                CreateSudokuError::InvalidSize => "'size' must be a positive integer"@,
                CreateSudokuError::InvalidSecWidth => "'sec_width' must be a positive integer"@,
                CreateSudokuError::InvalidSecHeight => "'sec_height' must be a positive integer"@,
                CreateSudokuError::InvalidCombination =>
                    "'size' must be equal to 'sec_width' * 'sec_height'"@,
            },
    {
        match self {
            CreateSudokuError::InvalidSize => "'size' must be a positive integer",
            CreateSudokuError::InvalidSecWidth => "'sec_width' must be a positive integer",
            CreateSudokuError::InvalidSecHeight => "'sec_height' must be a positive integer",
            CreateSudokuError::InvalidCombination =>
                "'size' must be equal to 'sec_width' * 'sec_height'",
        }
    }
}

/// Why a population text was rejected.
#[derive(Debug, Clone, Copy, PartialEq, Eq, Structural)]
pub enum PopulateError {
    /// The text does not have exactly `size` lines.
    LineCount,
    /// A line does not have exactly `size` tokens.
    TokenCount,
    /// A token is neither `_` nor a decimal number (optionally after `+`).
    NotANumber,
    /// A number lies outside `1..=size`.
    OutOfRange,
}

} // verus!
