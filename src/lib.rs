//! Extraction of two daily puzzles from fetched web pages: a word game's
//! answer out of an HTML answers table, and a 9x9 number puzzle out of a
//! script blob embedded in a page.
use vstd::prelude::*;

pub mod digits;
pub mod json;
pub mod label;
pub mod sudoku;
pub mod text;
pub mod wordle;

pub use crate::sudoku::SudokuData;
pub use crate::wordle::WordleData;

verus! {

} // verus!
