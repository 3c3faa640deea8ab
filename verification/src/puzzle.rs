//! A saved game: the display matrix values, the per-cell color states and
//! the name of the save they came from.

use vstd::prelude::*;
use crate::display::ColorPair;

verus! {

/// Holds the data of a saved game that is selected to be resumed.
pub struct SavedPuzzle {
    /// A 27x27 matrix containing the values in the puzzle display cells
    puzzle: [[u8; 27]; 27],
    /// A 27x27 matrix containing the current color codes of the puzzle cells
    color_codes: [[ColorPair; 27]; 27],
    /// The name of the file the puzzle is saved under
    filename: String,
}

impl SavedPuzzle {
    /// The saved display-matrix values.
    pub closed spec fn spec_puzzle(self) -> [[u8; 27]; 27] {
        self.puzzle
    }

    /// The saved color states.
    pub closed spec fn spec_color_codes(self) -> [[ColorPair; 27]; 27] {
        self.color_codes
    }

    /// The name of the save.
    pub closed spec fn spec_filename(self) -> Seq<char> {
        self.filename@
    }

    /// An empty saved puzzle: zeroed values, default colors, no name.
    pub fn new() -> (p: SavedPuzzle)
        ensures
            forall|i: int, j: int|
                0 <= i < 27 && 0 <= j < 27 ==> #[trigger] p.spec_puzzle()@[i]@[j] == 0,
            forall|i: int, j: int|
                0 <= i < 27 && 0 <= j < 27 ==> #[trigger] p.spec_color_codes()@[i]@[j]
                    == ColorPair::Default,
            p.spec_filename().len() == 0,
    {
        SavedPuzzle {
            puzzle: [[0; 27]; 27],
            color_codes: [[ColorPair::Default; 27]; 27],
            filename: String::new(),
        }
    }

    /// Stores the values of the saved puzzle.
    pub fn set_puzzle(&mut self, puzzle: [[u8; 27]; 27])
        ensures
            final(self).spec_puzzle() == puzzle,
            final(self).spec_color_codes() == old(self).spec_color_codes(),
            final(self).spec_filename() == old(self).spec_filename(),
    {
        self.puzzle = puzzle;
    }

    /// Stores the color states of the saved puzzle.
    pub fn set_color_codes(&mut self, color_codes: [[ColorPair; 27]; 27])
        ensures
            final(self).spec_color_codes() == color_codes,
            final(self).spec_puzzle() == old(self).spec_puzzle(),
            final(self).spec_filename() == old(self).spec_filename(),
    {
        self.color_codes = color_codes;
    }

    /// Records the name the puzzle has been saved under.
    pub fn set_filename(&mut self, filename: &str)
        ensures
            final(self).spec_filename() == filename@,
            final(self).spec_puzzle() == old(self).spec_puzzle(),
            final(self).spec_color_codes() == old(self).spec_color_codes(),
    {
        self.filename = filename.to_string();
    }

    /// The name of the save.
    pub fn filename(&self) -> (r: &str)
        ensures
            r@ == self.spec_filename(),
    {
        self.filename.as_str()
    }

    /// The saved display-matrix values.
    pub fn puzzle(&self) -> (r: [[u8; 27]; 27])
        ensures
            r == self.spec_puzzle(),
    {
        self.puzzle
    }

    /// The saved color states.
    pub fn color_codes(&self) -> (r: [[ColorPair; 27]; 27])
        ensures
            r == self.spec_color_codes(),
    {
        self.color_codes
    }
}

} // verus!
