//! Data shared between the engine and the terminal front end: display
//! cells, the display-matrix geometry, color codes and key inputs.  The
//! terminal itself is the front end's concern; everything here is plain
//! data and arithmetic.

use vstd::prelude::*;

verus! {

/// Rows of the display matrix (box borders excluded).
pub const DISPLAY_MATRIX_ROWS: usize = 27;

/// Columns of the display matrix (box borders excluded).
pub const DISPLAY_MATRIX_COLUMNS: usize = 27;

/// Terminal row of the display matrix origin: the empty space kept above
/// the board.
pub const TOP_PADDING: u8 = 3;

/// Terminal column of the display matrix origin: the empty space kept to
/// the left of the board.
pub const LEFT_PADDING: u8 = 6;

/// Lines and columns needed for the board: 27 display cells plus 2 border
/// lines between boxes.
pub const PUZZLE_SPACE: u8 = 29;

/// A cell in the terminal display, as (row, column) with the origin at
/// the top left.
#[derive(Eq, Hash, PartialEq, Structural, Copy, Clone, Debug)]
pub struct Cell(pub u8, pub u8);

impl Cell {
    /// A cell at the given row and column.
    pub fn new(row: u8, column: u8) -> (c: Cell)
        ensures
            c.0 == row,
            c.1 == column,
    {
        Cell(row, column)
    }

    /// The y-coordinate (row) of the cell.
    pub fn y(&self) -> (r: u8)
        ensures
            r == self.0,
    {
        self.0
    }

    /// The x-coordinate (column) of the cell.
    pub fn x(&self) -> (r: u8)
        ensures
            r == self.1,
    {
        self.1
    }

    /// The row number of the cell.
    pub fn row_no(&self) -> (r: u8)
        ensures
            r == self.0,
    {
        self.0
    }

    /// The column number of the cell.
    pub fn col_no(&self) -> (r: u8)
        ensures
            r == self.1,
    {
        self.1
    }

    /// Changes the coordinates of the cell.
    pub fn set(&mut self, row: u8, column: u8)
        ensures
            final(self).0 == row,
            final(self).1 == column,
    {
        self.0 = row;
        self.1 = column;
    }
}

/// Cursor visibility levels the front end toggles between.
pub enum CursorVisibility {
    /// Do not display the cursor at all.
    NoCursor,
    /// Display the cursor as a block.
    Block,
}

/// The keyboard inputs the game reacts to.
#[derive(Eq, PartialEq, Structural, Copy, Clone, Debug)]
pub enum Input {
    /// A letter (e.g. 'a') or control (e.g. '\n') character
    Character(char),
    /// The Enter key
    KeyEnter,
    /// The Up arrow key
    KeyUp,
    /// The Down arrow key
    KeyDown,
    /// The Left arrow key
    KeyLeft,
    /// The Right arrow key
    KeyRight,
    /// The Backspace key
    KeyBackspace,
    /// The Delete key
    KeyDC,
}

/// The coloring states a display cell can be in.
#[derive(Eq, PartialEq, Structural, Copy, Clone, Debug)]
pub enum ColorPair {
    /// The uninteresting default of white text on black background.
    Default,
    /// The currently highlighted option in the current menu.
    MenuSelection,
    /// The default coloring of an unsolved board cell.
    Unknown,
    /// The color of a given clue in a puzzle.
    Given,
    /// One possible color option of a candidate (note-taking) cell.
    CandidatesY,
    /// The other possible color option of a candidate cell.
    CandidatesB,
    /// The color of a guess cell.
    Guess,
}

/// The single-character code a color state is saved under.
pub open spec fn spec_color_code(c: ColorPair) -> u8 {
    match c {
        ColorPair::Unknown => 117,  // 'u'
        ColorPair::Given => 114,  // 'r'
        ColorPair::CandidatesY => 121,  // 'y'
        ColorPair::CandidatesB => 98,  // 'b'
        ColorPair::Guess => 103,  // 'g'
        _ => 110,  // 'n'
    }
}

/// The color state a saved single-character code stands for.
pub open spec fn spec_color_of_code(b: u8) -> ColorPair {
    if b == 117 {
        ColorPair::Unknown
    } else if b == 114 {
        ColorPair::Given
    } else if b == 121 {
        ColorPair::CandidatesY
    } else if b == 98 {
        ColorPair::CandidatesB
    } else if b == 103 {
        ColorPair::Guess
    } else {
        ColorPair::Default
    }
}

/// Encodes a color state as its save-file character code.
pub fn color_code(c: ColorPair) -> (b: u8)
    ensures
        b == spec_color_code(c),
{
    match c {
        ColorPair::Unknown => 117,
        ColorPair::Given => 114,
        ColorPair::CandidatesY => 121,
        ColorPair::CandidatesB => 98,
        ColorPair::Guess => 103,
        _ => 110,
    }
}

/// Decodes a save-file character code back into a color state.
pub fn color_of_code(b: u8) -> (c: ColorPair)
    ensures
        c == spec_color_of_code(b),
{
    if b == 117 {
        ColorPair::Unknown
    } else if b == 114 {
        ColorPair::Given
    } else if b == 121 {
        ColorPair::CandidatesY
    } else if b == 98 {
        ColorPair::CandidatesB
    } else if b == 103 {
        ColorPair::Guess
    } else {
        ColorPair::Default
    }
}

/// Decoding a saved color code restores the color it was saved from,
/// except that the menu-selection highlight is never saved and comes back
/// as the default color.
pub proof fn lemma_color_code_round_trip(c: ColorPair)
    ensures
        c != ColorPair::MenuSelection ==> spec_color_of_code(spec_color_code(c)) == c,
        c == ColorPair::MenuSelection ==> spec_color_of_code(spec_color_code(c))
            == ColorPair::Default,
{
}

} // verus!
