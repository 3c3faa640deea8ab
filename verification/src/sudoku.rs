//! The live game: the 27x27 display matrix the player edits, the per-cell
//! color states, and the board behind them, kept in lockstep.  Every
//! board position owns the center cell of one 3x3 block of the display
//! matrix; the eight cells around it are the player's note-taking area.

use vstd::prelude::*;
use crate::container::UNKNOWN;
use crate::display::{Cell, ColorPair, Input};
use crate::grid::{spec_col_of, spec_row_of, Grid};
use crate::menu::DifficultyMenuOption;
use crate::puzzle::SavedPuzzle;

verus! {

broadcast use crate::grid::grid_known_len;

/// Display row (no offset applied) of a board position: the center row of
/// its 3x3 display block.
pub open spec fn spec_display_row(p: int) -> int {
    1 + 3 * (p / 9)
}

/// Display column (no offset applied) of a board position.
pub open spec fn spec_display_col(p: int) -> int {
    1 + 3 * (p % 9)
}

/// The board position owning a display cell, if the cell is the center of
/// a 3x3 display block.
pub open spec fn spec_cell_grid_pos(i: int, j: int) -> Option<int> {
    if 0 <= i < 27 && 0 <= j < 27 && i % 3 == 1 && j % 3 == 1 {
        Some(9 * ((i - 1) / 3) + (j - 1) / 3)
    } else {
        Option::<int>::None
    }
}

/// Terminal row of a display-matrix row: the top padding plus one border
/// line for every block of nine rows above it.
pub open spec fn spec_offset_row(i: int) -> int {
    i + 3 + i / 9
}

/// Terminal column of a display-matrix column.
pub open spec fn spec_offset_col(j: int) -> int {
    j + 6 + j / 9
}

/// The display-matrix row shown on a terminal row, if any; terminal rows
/// holding a box border line or lying outside the board map to nothing.
pub open spec fn spec_actual_row(y: int) -> Option<int> {
    if 3 <= y <= 11 {
        Some(y - 3)
    } else if 13 <= y <= 21 {
        Some(y - 4)
    } else if 23 <= y <= 31 {
        Some(y - 5)
    } else {
        Option::<int>::None
    }
}

/// The display-matrix column shown on a terminal column, if any.
pub open spec fn spec_actual_col(x: int) -> Option<int> {
    if 6 <= x <= 14 {
        Some(x - 6)
    } else if 16 <= x <= 24 {
        Some(x - 7)
    } else if 26 <= x <= 34 {
        Some(x - 8)
    } else {
        Option::<int>::None
    }
}

/// The terminal-to-display row maps are inverse to each other.
pub proof fn lemma_offset_row_round_trip(i: int)
    requires
        0 <= i < 27,
    ensures
        spec_actual_row(spec_offset_row(i)) == Some(i),
{
}

/// The terminal-to-display column maps are inverse to each other.
pub proof fn lemma_offset_col_round_trip(j: int)
    requires
        0 <= j < 27,
    ensures
        spec_actual_col(spec_offset_col(j)) == Some(j),
{
}

/// The display cell of a board position, as a `Cell`.
pub fn grid2display(pos: u8) -> (c: Cell)
    requires
        pos < 81,
    ensures
        c.0 == spec_display_row(pos as int),
        c.1 == spec_display_col(pos as int),
        spec_cell_grid_pos(c.0 as int, c.1 as int) == Some(pos as int),
{
    let c = Cell::new(1 + 3 * (pos / 9), 1 + 3 * (pos % 9));
    proof {
        let i = 1 + 3 * ((pos as int) / 9);
        let j = 1 + 3 * ((pos as int) % 9);
        assert(i % 3 == 1 && j % 3 == 1);
        assert((i - 1) / 3 == (pos as int) / 9);
        assert((j - 1) / 3 == (pos as int) % 9);
    }
    c
}

/// The board position owning a display cell, if the cell is a block
/// center.
pub fn display2grid(c: Cell) -> (r: Option<u8>)
    ensures
        match r {
            Some(pos) => pos < 81 && spec_cell_grid_pos(c.0 as int, c.1 as int) == Some(
                pos as int,
            ) && spec_display_row(pos as int) == c.0 && spec_display_col(pos as int) == c.1,
            None => spec_cell_grid_pos(c.0 as int, c.1 as int) is None,
        },
{
    if c.0 < 27 && c.1 < 27 && c.0 % 3 == 1 && c.1 % 3 == 1 {
        let pos = 9 * ((c.0 - 1) / 3) + (c.1 - 1) / 3;
        proof {
            let i = c.0 as int;
            let j = c.1 as int;
            assert(1 + 3 * ((9 * ((i - 1) / 3) + (j - 1) / 3) / 9) == i && 1 + 3 * ((9 * ((i - 1)
                / 3) + (j - 1) / 3) % 9) == j) by {
                assert(i == 3 * ((i - 1) / 3) + 1);
                assert(j == 3 * ((j - 1) / 3) + 1);
                vstd::arithmetic::div_mod::lemma_fundamental_div_mod_converse(
                    9 * ((i - 1) / 3) + (j - 1) / 3,
                    9,
                    (i - 1) / 3,
                    (j - 1) / 3,
                );
            }
        }
        Some(pos)
    } else {
        None
    }
}

/// The mapping of the 81 board positions to their display cells, with its
/// reverse mapping.
pub fn create_maps() -> (r: (Vec<(u8, Cell)>, Vec<(Cell, u8)>))
    ensures
        r.0@.len() == 81,
        r.1@.len() == 81,
        forall|p: int|
            0 <= p < 81 ==> #[trigger] r.0@[p] == (
                p as u8,
                Cell((1 + 3 * (p / 9)) as u8, (1 + 3 * (p % 9)) as u8),
            ),
        forall|p: int|
            0 <= p < 81 ==> #[trigger] r.1@[p] == (
                Cell((1 + 3 * (p / 9)) as u8, (1 + 3 * (p % 9)) as u8),
                p as u8,
            ),
{
    let mut grid2display_map: Vec<(u8, Cell)> = Vec::new();
    let mut display2grid_map: Vec<(Cell, u8)> = Vec::new();
    let mut p: u8 = 0;
    while p < 81
        invariant
            p <= 81,
            grid2display_map@.len() == p as int,
            display2grid_map@.len() == p as int,
            forall|q: int|
                0 <= q < p ==> #[trigger] grid2display_map@[q] == (
                    q as u8,
                    Cell((1 + 3 * (q / 9)) as u8, (1 + 3 * (q % 9)) as u8),
                ),
            forall|q: int|
                0 <= q < p ==> #[trigger] display2grid_map@[q] == (
                    Cell((1 + 3 * (q / 9)) as u8, (1 + 3 * (q % 9)) as u8),
                    q as u8,
                ),
        decreases 81 - p,
    {
        let cell = grid2display(p);
        grid2display_map.push((p, cell));
        display2grid_map.push((cell, p));
        p = p + 1;
    }
    (grid2display_map, display2grid_map)
}

/// The mapping of display-matrix cells to their terminal cells, with its
/// reverse mapping.
pub fn map_display_matrix_offset() -> (r: (Vec<(Cell, Cell)>, Vec<(Cell, Cell)>))
    ensures
        r.0@.len() == 729,
        r.1@.len() == 729,
        forall|k: int|
            0 <= k < 729 ==> #[trigger] r.0@[k] == (
                Cell(
                    spec_offset_row(k / 27) as u8,
                    spec_offset_col(k % 27) as u8,
                ),
                Cell((k / 27) as u8, (k % 27) as u8),
            ),
        forall|k: int|
            0 <= k < 729 ==> #[trigger] r.1@[k] == (
                Cell((k / 27) as u8, (k % 27) as u8),
                Cell(
                    spec_offset_row(k / 27) as u8,
                    spec_offset_col(k % 27) as u8,
                ),
            ),
{
    let mut offset2actual: Vec<(Cell, Cell)> = Vec::new();
    let mut actual2offset: Vec<(Cell, Cell)> = Vec::new();
    let mut k: usize = 0;
    while k < 729
        invariant
            k <= 729,
            offset2actual@.len() == k as int,
            actual2offset@.len() == k as int,
            forall|q: int|
                0 <= q < k ==> #[trigger] offset2actual@[q] == (
                    Cell(
                        spec_offset_row(q / 27) as u8,
                        spec_offset_col(q % 27) as u8,
                    ),
                    Cell((q / 27) as u8, (q % 27) as u8),
                ),
            forall|q: int|
                0 <= q < k ==> #[trigger] actual2offset@[q] == (
                    Cell((q / 27) as u8, (q % 27) as u8),
                    Cell(
                        spec_offset_row(q / 27) as u8,
                        spec_offset_col(q % 27) as u8,
                    ),
                ),
        decreases 729 - k,
    {
        let i = (k / 27) as u8;
        let j = (k % 27) as u8;
        let actual = Cell::new(i, j);
        let offset = Cell::new(i + 3 + i / 9, j + 6 + j / 9);
        offset2actual.push((offset, actual));
        actual2offset.push((actual, offset));
        k = k + 1;
    }
    (offset2actual, actual2offset)
}

/// Whether a terminal cell lies on one of the box border lines drawn
/// between the blocks of the board.
pub fn is_box_border_cell(c: Cell) -> (r: bool)
    ensures
        r == (c.0 == 12 || c.0 == 22 || c.1 == 15 || c.1 == 25),
{
    c.0 == 12 || c.0 == 22 || c.1 == 15 || c.1 == 25
}

/// What a display cell shows when a fresh game starts: the board value at
/// a block center, a blank everywhere else.
pub open spec fn spec_init_display(g: Grid, i: int, j: int) -> u8 {
    match spec_cell_grid_pos(i, j) {
        Some(p) => g.value_at(p),
        None => 32,
    }
}

/// How a display cell is colored when a fresh game starts: clues in the
/// given color, empty block centers in the unknown color, everything else
/// default.
pub open spec fn spec_init_color(g: Grid, i: int, j: int) -> ColorPair {
    match spec_cell_grid_pos(i, j) {
        Some(p) => if g.known()[p] {
            ColorPair::Given
        } else {
            ColorPair::Unknown
        },
        None => ColorPair::Default,
    }
}

/// A live game of sudoku: the display matrix the player edits, its color
/// states, the board behind it, the cursor, and the current save name.
pub struct Sudoku {
    display_matrix: [[u8; 27]; 27],
    color_codes: [[ColorPair; 27]; 27],
    grid: Grid,
    cursor_pos: Cell,
    save_file_name: String,
}

impl Sudoku {
    /// The value shown in one display cell.
    pub closed spec fn display_at(self, i: int, j: int) -> u8 {
        self.display_matrix@[i]@[j]
    }

    /// The color state of one display cell.
    pub closed spec fn color_at(self, i: int, j: int) -> ColorPair {
        self.color_codes@[i]@[j]
    }

    /// The board behind the display.
    pub closed spec fn board(self) -> Grid {
        self.grid
    }

    /// The cursor, in terminal coordinates.
    pub closed spec fn cursor(self) -> Cell {
        self.cursor_pos
    }

    /// The name the game is currently saved under.
    pub closed spec fn spec_filename(self) -> Seq<char> {
        self.save_file_name@
    }

    /// The cursor sits on a display cell, never on a border line or
    /// outside the board.
    pub open spec fn cursor_ok(self) -> bool {
        &&& spec_actual_row(self.cursor().0 as int) is Some
        &&& spec_actual_col(self.cursor().1 as int) is Some
    }

    /// The display mirrors the board: wherever the center cell of a
    /// block is colored as an unknown, a given or a guess, it shows the
    /// board's value for that position.
    pub open spec fn display_sync(self) -> bool {
        forall|p: int|
            0 <= p < 81 && ((#[trigger] self.color_at(spec_display_row(p), spec_display_col(p)))
                == ColorPair::Unknown || self.color_at(spec_display_row(p), spec_display_col(p))
                == ColorPair::Given || self.color_at(spec_display_row(p), spec_display_col(p))
                == ColorPair::Guess) ==> self.display_at(spec_display_row(p), spec_display_col(p))
                == self.board().value_at(p)
    }

    /// Well-formedness: the board is well-formed, the display mirrors the
    /// board, and the cursor sits on a display cell.
    pub open spec fn wf(self) -> bool {
        &&& self.board().wf()
        &&& self.display_sync()
        &&& self.cursor_ok()
    }

    /// Starts a live game: either resumes the given saved puzzle, or
    /// generates a fresh board of the chosen difficulty and shows its
    /// clues as givens and everything else as unknown.
    /// Resumes a saved game: the saved display matrix and colors are
    /// shown as they were, and the board is rebuilt from the block-center
    /// cells of the saved matrix.
    fn from_saved(puzzle: &SavedPuzzle) -> (s: Sudoku)
        ensures
            s.wf(),
            s.cursor() == Cell(3, 6),
            forall|i: int, j: int|
                0 <= i < 27 && 0 <= j < 27 ==> #[trigger] s.display_at(i, j)
                    == puzzle.spec_puzzle()@[i]@[j],
            forall|i: int, j: int|
                0 <= i < 27 && 0 <= j < 27 ==> #[trigger] s.color_at(i, j)
                    == puzzle.spec_color_codes()@[i]@[j],
            s.spec_filename() == puzzle.spec_filename(),
            forall|q: int|
                0 <= q < 81 ==> #[trigger] s.board().value_at(q)
                    == puzzle.spec_puzzle()@[spec_display_row(q)]@[spec_display_col(q)],
            forall|q: int|
                0 <= q < 81 ==> #[trigger] s.board().known()[q] == (
                puzzle.spec_puzzle()@[spec_display_row(q)]@[spec_display_col(q)] != UNKNOWN),
    {
        let mat = puzzle.puzzle();
        let saved_colors = puzzle.color_codes();
        let mut grid_mat: [[u8; 9]; 9] = [[0; 9]; 9];
        let mut gi: usize = 0;
        while gi < 9
            invariant
                gi <= 9,
                forall|a: int, b: int|
                    0 <= a < gi && 0 <= b < 9 ==> #[trigger] grid_mat@[a]@[b] == mat@[1 + 3
                        * a]@[1 + 3 * b],
            decreases 9 - gi,
        {
            let mut row: [u8; 9] = [0; 9];
            let mut gj: usize = 0;
            while gj < 9
                invariant
                    gi < 9,
                    gj <= 9,
                    forall|b: int|
                        0 <= b < gj ==> #[trigger] row@[b] == mat@[1 + 3 * (gi as int)]@[1 + 3
                            * b],
                decreases 9 - gj,
            {
                let mrow = mat[1 + 3 * gi];
                row[gj] = mrow[1 + 3 * gj];
                gj = gj + 1;
            }
            grid_mat[gi] = row;
            gi = gi + 1;
        }
        let grid = Grid::from_matrix(grid_mat);
        let filename = puzzle.filename();
        let s = Sudoku {
            display_matrix: mat,
            color_codes: saved_colors,
            grid,
            cursor_pos: Cell::new(3, 6),
            save_file_name: filename.to_string(),
        };
        proof {
            assert forall|p: int|
                0 <= p < 81 implies #[trigger] s.display_at(
                spec_display_row(p),
                spec_display_col(p),
            ) == s.board().value_at(p) by {
                assert(s.board().value_at(p) == grid_mat@[spec_row_of(p)]@[spec_col_of(p)]);
                assert(grid_mat@[p / 9]@[p % 9] == mat@[1 + 3 * (p / 9)]@[1 + 3 * (p % 9)]);
            }
            assert(s.display_sync());
            assert forall|q: int|
                0 <= q < 81 implies #[trigger] s.board().value_at(q)
                == puzzle.spec_puzzle()@[spec_display_row(q)]@[spec_display_col(q)]
                && s.board().known()[q] == (puzzle.spec_puzzle()@[spec_display_row(
                q,
            )]@[spec_display_col(q)] != UNKNOWN) by {
                assert(s.board().value_at(q) == grid_mat@[spec_row_of(q)]@[spec_col_of(q)]);
                assert(s.board().known()[q] == (grid_mat@[spec_row_of(q)]@[spec_col_of(q)]
                    != UNKNOWN));
                assert(grid_mat@[q / 9]@[q % 9] == mat@[1 + 3 * (q / 9)]@[1 + 3 * (q % 9)]);
            }
        }
        s
    }

    /// Starts a fresh game of the chosen difficulty: clue positions show
    /// their digit in the given color, the other block centers show the
    /// unknown marker, and every note-taking cell starts blank.
    fn fresh(diff: DifficultyMenuOption) -> (s: Sudoku)
        ensures
            s.wf(),
            s.cursor() == Cell(3, 6),
            crate::grid::count_true(s.board().known()) == crate::menu::spec_clue_count(diff),
            forall|i: int, j: int|
                0 <= i < 27 && 0 <= j < 27 ==> #[trigger] s.display_at(i, j) == spec_init_display(
                    s.board(),
                    i,
                    j,
                ),
            forall|i: int, j: int|
                0 <= i < 27 && 0 <= j < 27 ==> #[trigger] s.color_at(i, j) == spec_init_color(
                    s.board(),
                    i,
                    j,
                ),
            s.spec_filename().len() == 0,
    {
        let grid = Grid::new(diff);
        let mut mat: [[u8; 27]; 27] = [[32; 27]; 27];
        let mut colors: [[ColorPair; 27]; 27] = [[ColorPair::Default; 27]; 27];
        let mut i: usize = 0;
        while i < 27
            invariant
                i <= 27,
                grid.wf(),
                forall|q: int|
                    0 <= q < 81 && grid.known()[q] ==> 1 <= #[trigger] grid.value_at(q) <= 9,
                forall|q: int|
                    0 <= q < 81 && !grid.known()[q] ==> #[trigger] grid.value_at(q) == UNKNOWN,
                forall|a: int, b: int|
                    0 <= a < i && 0 <= b < 27 ==> #[trigger] mat@[a]@[b] == spec_init_display(
                        grid,
                        a,
                        b,
                    ),
                forall|a: int, b: int|
                    0 <= a < i && 0 <= b < 27 ==> #[trigger] colors@[a]@[b] == spec_init_color(
                        grid,
                        a,
                        b,
                    ),
            decreases 27 - i,
        {
            let mut vrow: [u8; 27] = [32; 27];
            let mut crow: [ColorPair; 27] = [ColorPair::Default; 27];
            let mut j: usize = 0;
            while j < 27
                invariant
                    i < 27,
                    j <= 27,
                    grid.wf(),
                    forall|q: int|
                        0 <= q < 81 && grid.known()[q] ==> 1 <= #[trigger] grid.value_at(q)
                            <= 9,
                    forall|q: int|
                        0 <= q < 81 && !grid.known()[q] ==> #[trigger] grid.value_at(q)
                            == UNKNOWN,
                    forall|b: int|
                        0 <= b < j ==> #[trigger] vrow@[b] == spec_init_display(
                            grid,
                            i as int,
                            b,
                        ),
                    forall|b: int|
                        0 <= b < j ==> #[trigger] crow@[b] == spec_init_color(grid, i as int, b),
                    forall|b: int| j <= b < 27 ==> #[trigger] vrow@[b] == 32,
                    forall|b: int| j <= b < 27 ==> #[trigger] crow@[b] == ColorPair::Default,
                decreases 27 - j,
            {
                if i % 3 == 1 && j % 3 == 1 {
                    let pos = match display2grid(Cell::new(i as u8, j as u8)) {
                        Some(p) => p,
                        None => vstd::pervasive::unreached(),
                    };
                    let v = grid.at(pos);
                    vrow[j] = v;
                    crow[j] = if v != UNKNOWN {
                        ColorPair::Given
                    } else {
                        ColorPair::Unknown
                    };
                    proof {
                        assert(spec_cell_grid_pos(i as int, j as int) == Some(pos as int));
                        assert(grid.known()[pos as int] <==> grid.value_at(pos as int)
                            != UNKNOWN);
                    }
                } else {
                    proof {
                        assert(spec_cell_grid_pos(i as int, j as int) is None);
                    }
                }
                j = j + 1;
            }
            mat[i] = vrow;
            colors[i] = crow;
            i = i + 1;
        }
        let s = Sudoku {
            display_matrix: mat,
            color_codes: colors,
            grid,
            cursor_pos: Cell::new(3, 6),
            save_file_name: String::new(),
        };
        proof {
            assert forall|p: int|
                0 <= p < 81 implies #[trigger] s.display_at(
                spec_display_row(p),
                spec_display_col(p),
            ) == s.board().value_at(p) by {
                let a = spec_display_row(p);
                let b = spec_display_col(p);
                assert((a - 1) / 3 == p / 9 && (b - 1) / 3 == p % 9);
                assert(spec_cell_grid_pos(a, b) == Some(p));
                assert(s.display_at(a, b) == spec_init_display(s.board(), a, b));
            }
            assert(s.display_sync());
        }
        s
    }

    /// Starts a live game: either resumes the given saved puzzle, or
    /// generates a fresh board of the chosen difficulty.
    pub fn new(saved_puzzle: Option<SavedPuzzle>, diff: DifficultyMenuOption) -> (s: Sudoku)
        ensures
            s.wf(),
            s.cursor() == Cell(3, 6),
            match saved_puzzle {
                Some(p) => {
                    &&& forall|i: int, j: int|
                        0 <= i < 27 && 0 <= j < 27 ==> #[trigger] s.display_at(i, j)
                            == p.spec_puzzle()@[i]@[j]
                    &&& forall|i: int, j: int|
                        0 <= i < 27 && 0 <= j < 27 ==> #[trigger] s.color_at(i, j)
                            == p.spec_color_codes()@[i]@[j]
                    &&& s.spec_filename() == p.spec_filename()
                    &&& forall|q: int|
                        0 <= q < 81 ==> #[trigger] s.board().value_at(q)
                            == p.spec_puzzle()@[spec_display_row(q)]@[spec_display_col(q)]
                    &&& forall|q: int|
                        0 <= q < 81 ==> #[trigger] s.board().known()[q] == (
                        p.spec_puzzle()@[spec_display_row(q)]@[spec_display_col(q)] != UNKNOWN)
                },
                None => {
                    &&& crate::grid::count_true(s.board().known())
                        == crate::menu::spec_clue_count(diff)
                    &&& forall|i: int, j: int|
                        0 <= i < 27 && 0 <= j < 27 ==> #[trigger] s.display_at(i, j)
                            == spec_init_display(s.board(), i, j)
                    &&& forall|i: int, j: int|
                        0 <= i < 27 && 0 <= j < 27 ==> #[trigger] s.color_at(i, j)
                            == spec_init_color(s.board(), i, j)
                    &&& s.spec_filename().len() == 0
                },
            },
    {
        match &saved_puzzle {
            Some(puzzle) => Self::from_saved(puzzle),
            None => Self::fresh(diff),
        }
    }

    /// The display matrix, as shown to the player.
    pub fn display_matrix(&self) -> (r: [[u8; 27]; 27])
        ensures
            forall|i: int, j: int|
                0 <= i < 27 && 0 <= j < 27 ==> #[trigger] r@[i]@[j] == self.display_at(i, j),
    {
        self.display_matrix
    }

    /// The color states of the display matrix.
    pub fn color_codes(&self) -> (r: [[ColorPair; 27]; 27])
        ensures
            forall|i: int, j: int|
                0 <= i < 27 && 0 <= j < 27 ==> #[trigger] r@[i]@[j] == self.color_at(i, j),
    {
        self.color_codes
    }

    /// The name the game is currently saved under.
    pub fn filename(&self) -> (r: String)
        ensures
            r@ == self.spec_filename(),
    {
        self.save_file_name.as_str().to_string()
    }

    /// Records the name the game was saved under.
    pub fn set_filename(&mut self, name: &str)
        ensures
            final(self).spec_filename() == name@,
            final(self).board() == old(self).board(),
            final(self).cursor() == old(self).cursor(),
            forall|i: int, j: int| #[trigger] final(self).display_at(i, j) == old(
                self,
            ).display_at(i, j),
            forall|i: int, j: int| #[trigger] final(self).color_at(i, j) == old(self).color_at(
                i,
                j,
            ),
            old(self).wf() ==> final(self).wf(),
    {
        self.save_file_name = name.to_string();
        proof {
            if old(self).wf() {
                crate::sudoku::lemma_wf_transfer(*old(self), *self);
            }
        }
    }

    /// The cursor, in terminal coordinates.
    pub fn cursor_pos(&self) -> (c: Cell)
        ensures
            c == self.cursor(),
    {
        self.cursor_pos
    }

    /// Whether the board as it stands is a valid solved puzzle.
    pub fn evaluate(&self) -> (r: bool)
        ensures
            r == self.board().is_solved_grid(),
    {
        self.grid.evaluate()
    }
}

/// Where the cursor moves for one navigation input: one cell in the keyed
/// direction, skipping over a box border line, and never leaving the
/// board area.
pub open spec fn spec_move_target(cursor: Cell, direction: Option<Input>) -> Cell {
    let y = cursor.0 as int;
    let x = cursor.1 as int;
    match direction {
        Some(Input::KeyUp) | Some(Input::Character('w')) | Some(Input::Character('W')) => if y
            > 3 {
            if y - 1 == 12 || y - 1 == 22 || x == 15 || x == 25 {
                Cell((y - 2) as u8, cursor.1)
            } else {
                Cell((y - 1) as u8, cursor.1)
            }
        } else {
            cursor
        },
        Some(Input::KeyDown) | Some(Input::Character('s')) | Some(Input::Character('S')) => if y
            < 31 {
            if y + 1 == 12 || y + 1 == 22 || x == 15 || x == 25 {
                Cell((y + 2) as u8, cursor.1)
            } else {
                Cell((y + 1) as u8, cursor.1)
            }
        } else {
            cursor
        },
        Some(Input::KeyLeft) | Some(Input::Character('a')) | Some(Input::Character('A')) => if x
            > 6 {
            if y == 12 || y == 22 || x - 1 == 15 || x - 1 == 25 {
                Cell(cursor.0, (x - 2) as u8)
            } else {
                Cell(cursor.0, (x - 1) as u8)
            }
        } else {
            cursor
        },
        Some(Input::KeyRight) | Some(Input::Character('d')) | Some(Input::Character('D')) => if x
            < 34 {
            if y == 12 || y == 22 || x + 1 == 15 || x + 1 == 25 {
                Cell(cursor.0, (x + 2) as u8)
            } else {
                Cell(cursor.0, (x + 1) as u8)
            }
        } else {
            cursor
        },
        _ => cursor,
    }
}

/// A game state that shows the same display, colors and board as a
/// well-formed one, with its cursor on a display cell, is well-formed.
proof fn lemma_wf_transfer(a: Sudoku, b: Sudoku)
    requires
        forall|i: int, j: int| #[trigger] b.display_at(i, j) == a.display_at(i, j),
        forall|i: int, j: int| #[trigger] b.color_at(i, j) == a.color_at(i, j),
        b.board() == a.board(),
        a.wf(),
        b.cursor_ok(),
    ensures
        b.wf(),
{
    assert forall|p: int|
        0 <= p < 81 && ((#[trigger] b.color_at(spec_display_row(p), spec_display_col(p)))
            == ColorPair::Unknown || b.color_at(spec_display_row(p), spec_display_col(p))
            == ColorPair::Given || b.color_at(spec_display_row(p), spec_display_col(p))
            == ColorPair::Guess) implies b.display_at(spec_display_row(p), spec_display_col(p))
        == b.board().value_at(p) by {
        assert(b.color_at(spec_display_row(p), spec_display_col(p)) == a.color_at(
            spec_display_row(p),
            spec_display_col(p),
        ));
        assert(b.display_at(spec_display_row(p), spec_display_col(p)) == a.display_at(
            spec_display_row(p),
            spec_display_col(p),
        ));
    }
}

impl Sudoku {
    /// Moves the cursor one cell in the keyed direction, skipping over box
    /// border lines and stopping at the edge of the board.
    pub fn move_cursor(&mut self, direction: Option<Input>)
        requires
            old(self).wf(),
        ensures
            final(self).wf(),
            final(self).cursor() == spec_move_target(old(self).cursor(), direction),
            final(self).board() == old(self).board(),
            final(self).spec_filename() == old(self).spec_filename(),
            forall|i: int, j: int| #[trigger] final(self).display_at(i, j) == old(
                self,
            ).display_at(i, j),
            forall|i: int, j: int| #[trigger] final(self).color_at(i, j) == old(self).color_at(
                i,
                j,
            ),
    {
        let y = self.cursor_pos.y();
        let x = self.cursor_pos.x();
        let new_pos: Cell = match direction {
            Some(Input::KeyUp) | Some(Input::Character('w')) | Some(Input::Character('W')) => {
                if y > 3 {
                    let pos = Cell::new(y - 1, x);
                    if is_box_border_cell(pos) {
                        Cell::new(y - 2, x)
                    } else {
                        pos
                    }
                } else {
                    self.cursor_pos
                }
            },
            Some(Input::KeyDown) | Some(Input::Character('s')) | Some(Input::Character('S')) => {
                if y < 31 {
                    let pos = Cell::new(y + 1, x);
                    if is_box_border_cell(pos) {
                        Cell::new(y + 2, x)
                    } else {
                        pos
                    }
                } else {
                    self.cursor_pos
                }
            },
            Some(Input::KeyLeft) | Some(Input::Character('a')) | Some(Input::Character('A')) => {
                if x > 6 {
                    let pos = Cell::new(y, x - 1);
                    if is_box_border_cell(pos) {
                        Cell::new(y, x - 2)
                    } else {
                        pos
                    }
                } else {
                    self.cursor_pos
                }
            },
            Some(Input::KeyRight) | Some(Input::Character('d')) | Some(Input::Character('D')) => {
                if x < 34 {
                    let pos = Cell::new(y, x + 1);
                    if is_box_border_cell(pos) {
                        Cell::new(y, x + 2)
                    } else {
                        pos
                    }
                } else {
                    self.cursor_pos
                }
            },
            _ => self.cursor_pos,
        };
        self.cursor_pos = new_pos;
        proof {
            lemma_wf_transfer(*old(self), *self);
        }
    }
}

/// The display-matrix row shown on a terminal row, if any.
pub fn actual_row_of_offset(y: u8) -> (r: Option<u8>)
    ensures
        match r {
            Some(i) => i < 27 && spec_actual_row(y as int) == Some(i as int),
            None => spec_actual_row(y as int) is None,
        },
{
    if 3 <= y && y <= 11 {
        Some(y - 3)
    } else if 13 <= y && y <= 21 {
        Some(y - 4)
    } else if 23 <= y && y <= 31 {
        Some(y - 5)
    } else {
        None
    }
}

/// The display-matrix column shown on a terminal column, if any.
pub fn actual_col_of_offset(x: u8) -> (r: Option<u8>)
    ensures
        match r {
            Some(j) => j < 27 && spec_actual_col(x as int) == Some(j as int),
            None => spec_actual_col(x as int) is None,
        },
{
    if 6 <= x && x <= 14 {
        Some(x - 6)
    } else if 16 <= x && x <= 24 {
        Some(x - 7)
    } else if 26 <= x && x <= 34 {
        Some(x - 8)
    } else {
        None
    }
}

impl Sudoku {
    /// The color state shown on a terminal cell: the color of the display
    /// cell there, or the default color on border lines and outside the
    /// board.
    pub open spec fn spec_color_at_offset(self, y: int, x: int) -> ColorPair {
        match (spec_actual_row(y), spec_actual_col(x)) {
            (Some(i), Some(j)) => self.color_at(i, j),
            _ => ColorPair::Default,
        }
    }

    /// The color state shown on a terminal cell.
    pub fn color_at_offset(&self, c: Cell) -> (r: ColorPair)
        ensures
            r == self.spec_color_at_offset(c.0 as int, c.1 as int),
    {
        match (actual_row_of_offset(c.0), actual_col_of_offset(c.1)) {
            (Some(i), Some(j)) => {
                let crow = self.color_codes[i as usize];
                crow[j as usize]
            },
            _ => ColorPair::Default,
        }
    }

    /// The eight terminal cells bordering the cursor, clockwise from the
    /// top left.
    pub fn get_surrounding_cells(&self) -> (r: [Cell; 8])
        requires
            self.wf(),
        ensures
            ({
                let y = self.cursor().0;
                let x = self.cursor().1;
                &&& r@[0] == Cell((y - 1) as u8, (x - 1) as u8)
                &&& r@[1] == Cell((y - 1) as u8, x)
                &&& r@[2] == Cell((y - 1) as u8, (x + 1) as u8)
                &&& r@[3] == Cell(y, (x - 1) as u8)
                &&& r@[4] == Cell(y, (x + 1) as u8)
                &&& r@[5] == Cell((y + 1) as u8, (x - 1) as u8)
                &&& r@[6] == Cell((y + 1) as u8, x)
                &&& r@[7] == Cell((y + 1) as u8, (x + 1) as u8)
            }),
    {
        let y = self.cursor_pos.y();
        let x = self.cursor_pos.x();
        [
            Cell::new(y - 1, x - 1),
            Cell::new(y - 1, x),
            Cell::new(y - 1, x + 1),
            Cell::new(y, x - 1),
            Cell::new(y, x + 1),
            Cell::new(y + 1, x - 1),
            Cell::new(y + 1, x),
            Cell::new(y + 1, x + 1),
        ]
    }

    /// A given clue sits on the cursor's terminal cell or one of the
    /// eight cells around it.
    pub open spec fn given_near(self) -> bool {
        let y = self.cursor().0 as int;
        let x = self.cursor().1 as int;
        ||| self.spec_color_at_offset(y - 1, x - 1) == ColorPair::Given
        ||| self.spec_color_at_offset(y - 1, x) == ColorPair::Given
        ||| self.spec_color_at_offset(y - 1, x + 1) == ColorPair::Given
        ||| self.spec_color_at_offset(y, x - 1) == ColorPair::Given
        ||| self.spec_color_at_offset(y, x + 1) == ColorPair::Given
        ||| self.spec_color_at_offset(y + 1, x - 1) == ColorPair::Given
        ||| self.spec_color_at_offset(y + 1, x) == ColorPair::Given
        ||| self.spec_color_at_offset(y + 1, x + 1) == ColorPair::Given
        ||| self.spec_color_at_offset(y, x) == ColorPair::Given
    }

    /// Whether a value entry must be ignored: the cursor's cell or one of
    /// its eight neighbors holds a given clue.
    pub fn do_nothing(&self) -> (r: bool)
        requires
            self.wf(),
        ensures
            r == self.given_near(),
    {
        let surrounding = self.get_surrounding_cells();
        let mut found: bool = false;
        let mut k: usize = 0;
        while k < 8
            invariant
                self.wf(),
                k <= 8,
                surrounding@[0] == Cell(
                    (self.cursor().0 - 1) as u8,
                    (self.cursor().1 - 1) as u8,
                ),
                surrounding@[1] == Cell((self.cursor().0 - 1) as u8, self.cursor().1),
                surrounding@[2] == Cell(
                    (self.cursor().0 - 1) as u8,
                    (self.cursor().1 + 1) as u8,
                ),
                surrounding@[3] == Cell(self.cursor().0, (self.cursor().1 - 1) as u8),
                surrounding@[4] == Cell(self.cursor().0, (self.cursor().1 + 1) as u8),
                surrounding@[5] == Cell(
                    (self.cursor().0 + 1) as u8,
                    (self.cursor().1 - 1) as u8,
                ),
                surrounding@[6] == Cell((self.cursor().0 + 1) as u8, self.cursor().1),
                surrounding@[7] == Cell(
                    (self.cursor().0 + 1) as u8,
                    (self.cursor().1 + 1) as u8,
                ),
                found == exists|m: int|
                    0 <= m < k && self.spec_color_at_offset(
                        surrounding@[m].0 as int,
                        surrounding@[m].1 as int,
                    ) == ColorPair::Given,
            decreases 8 - k,
        {
            let color = self.color_at_offset(surrounding[k]);
            if color == ColorPair::Given {
                found = true;
                assert(self.spec_color_at_offset(
                    surrounding@[k as int].0 as int,
                    surrounding@[k as int].1 as int,
                ) == ColorPair::Given);
            }
            k = k + 1;
        }
        let at_cursor = self.color_at_offset(self.cursor_pos);
        proof {
            let y = self.cursor().0 as int;
            let x = self.cursor().1 as int;
            assert(self.cursor().0 >= 3 && self.cursor().1 >= 6);
            if found {
                let m = choose|m: int|
                    0 <= m < 8 && self.spec_color_at_offset(
                        surrounding@[m].0 as int,
                        surrounding@[m].1 as int,
                    ) == ColorPair::Given;
                assert(self.given_near());
            }
        }
        found || at_cursor == ColorPair::Given
    }
}

/// The terminal-coordinate shift of the k-th neighbor of a cell,
/// clockwise from the top left.
pub open spec fn spec_neighbor_delta(k: int) -> (int, int) {
    if k == 0 {
        (-1, -1)
    } else if k == 1 {
        (-1, 0)
    } else if k == 2 {
        (-1, 1)
    } else if k == 3 {
        (0, -1)
    } else if k == 4 {
        (0, 1)
    } else if k == 5 {
        (1, -1)
    } else if k == 6 {
        (1, 0)
    } else {
        (1, 1)
    }
}

impl Sudoku {
    /// The note color chosen after scanning the first `k` neighbors of
    /// the cursor: the parity color of the last neighboring board cell
    /// still open or guessed, or the default color if there is none.
    pub open spec fn spec_candidate_color_upto(self, k: int) -> ColorPair
        decreases k,
    {
        if k <= 0 {
            ColorPair::Default
        } else {
            let prev = self.spec_candidate_color_upto(k - 1);
            let d = spec_neighbor_delta(k - 1);
            let y = self.cursor().0 as int + d.0;
            let x = self.cursor().1 as int + d.1;
            let c = self.spec_color_at_offset(y, x);
            if c == ColorPair::Unknown || c == ColorPair::Guess {
                match (spec_actual_row(y), spec_actual_col(x)) {
                    (Some(i), Some(j)) => match spec_cell_grid_pos(i, j) {
                        Some(p) => if p % 2 == 1 {
                            ColorPair::CandidatesB
                        } else {
                            ColorPair::CandidatesY
                        },
                        None => prev,
                    },
                    _ => prev,
                }
            } else {
                prev
            }
        }
    }

    /// The note color used when the player writes into a note-taking
    /// cell.
    pub open spec fn candidate_color(self) -> ColorPair {
        self.spec_candidate_color_upto(8)
    }

    /// Picks the note color by scanning the cursor's eight neighbors.
    fn pick_candidate_color(&self) -> (r: ColorPair)
        requires
            self.wf(),
        ensures
            r == self.candidate_color(),
    {
        let y = self.cursor_pos.y();
        let x = self.cursor_pos.x();
        let surrounding = self.get_surrounding_cells();
        let mut cp = ColorPair::Default;
        let mut k: usize = 0;
        while k < 8
            invariant
                self.wf(),
                k <= 8,
                y == self.cursor().0,
                x == self.cursor().1,
                y >= 3,
                x >= 6,
                forall|m: int|
                    0 <= m < 8 ==> #[trigger] surrounding@[m] == Cell(
                        (self.cursor().0 + spec_neighbor_delta(m).0) as u8,
                        (self.cursor().1 + spec_neighbor_delta(m).1) as u8,
                    ),
                cp == self.spec_candidate_color_upto(k as int),
            decreases 8 - k,
        {
            let cell = surrounding[k];
            let color = self.color_at_offset(cell);
            if color == ColorPair::Unknown || color == ColorPair::Guess {
                match (actual_row_of_offset(cell.y()), actual_col_of_offset(cell.x())) {
                    (Some(i), Some(j)) => {
                        match display2grid(Cell::new(i, j)) {
                            Some(pos) => {
                                cp = if pos % 2 == 1 {
                                    ColorPair::CandidatesB
                                } else {
                                    ColorPair::CandidatesY
                                };
                            },
                            None => {},
                        }
                    },
                    _ => {},
                }
            }
            k = k + 1;
        }
        cp
    }
}

/// Whether display cell (i, j) is one of the eight cells around (i0, j0).
pub open spec fn is_neighbor_cell(i0: int, j0: int, i: int, j: int) -> bool {
    &&& -1 <= i - i0 <= 1
    &&& -1 <= j - j0 <= 1
    &&& !(i == i0 && j == j0)
}

/// Two games agree on the board, the display and the colors.
pub open spec fn unchanged_game(a: Sudoku, b: Sudoku) -> bool {
    &&& b.board() == a.board()
    &&& forall|i: int, j: int|
        0 <= i < 27 && 0 <= j < 27 ==> #[trigger] b.display_at(i, j) == a.display_at(i, j)
    &&& forall|i: int, j: int|
        0 <= i < 27 && 0 <= j < 27 ==> #[trigger] b.color_at(i, j) == a.color_at(i, j)
}

/// Erasing the open board cell `p` shown at display cell (i0, j0):
/// the board holds the unknown sentinel there, the display shows it, the
/// cell is colored unknown again, and nothing else changes.
pub open spec fn erased_at_center(a: Sudoku, b: Sudoku, p: int, i0: int, j0: int) -> bool {
    &&& b.board().values() == a.board().values().update(p, crate::container::UNKNOWN)
    &&& forall|i: int, j: int|
        0 <= i < 27 && 0 <= j < 27 ==> #[trigger] b.display_at(i, j) == (if i == i0 && j == j0 {
            crate::container::UNKNOWN
        } else {
            a.display_at(i, j)
        })
    &&& forall|i: int, j: int|
        0 <= i < 27 && 0 <= j < 27 ==> #[trigger] b.color_at(i, j) == (if i == i0 && j == j0 {
            ColorPair::Unknown
        } else {
            a.color_at(i, j)
        })
}

/// Writing digit `d` into the open board cell `p` shown at display cell
/// (i0, j0): the board and the display hold `d` there, the cell is
/// colored as a guess, the eight note cells around it are wiped, and
/// nothing else changes.
pub open spec fn placed_at_center(a: Sudoku, b: Sudoku, p: int, i0: int, j0: int, d: u8) -> bool {
    &&& b.board().values() == a.board().values().update(p, d)
    &&& forall|i: int, j: int|
        0 <= i < 27 && 0 <= j < 27 ==> #[trigger] b.display_at(i, j) == (if i == i0 && j == j0 {
            d
        } else if is_neighbor_cell(i0, j0, i, j) {
            32
        } else {
            a.display_at(i, j)
        })
    &&& forall|i: int, j: int|
        0 <= i < 27 && 0 <= j < 27 ==> #[trigger] b.color_at(i, j) == (if i == i0 && j == j0 {
            ColorPair::Guess
        } else if is_neighbor_cell(i0, j0, i, j) {
            ColorPair::Default
        } else {
            a.color_at(i, j)
        })
}

/// Erasing a note cell: it goes blank with the default color; the board
/// and everything else stay as they were.
pub open spec fn erased_note(a: Sudoku, b: Sudoku, i0: int, j0: int) -> bool {
    &&& b.board() == a.board()
    &&& forall|i: int, j: int|
        0 <= i < 27 && 0 <= j < 27 ==> #[trigger] b.display_at(i, j) == (if i == i0 && j == j0 {
            32
        } else {
            a.display_at(i, j)
        })
    &&& forall|i: int, j: int|
        0 <= i < 27 && 0 <= j < 27 ==> #[trigger] b.color_at(i, j) == (if i == i0 && j == j0 {
            ColorPair::Default
        } else {
            a.color_at(i, j)
        })
}

/// Writing digit `d` into a note cell: it shows `d` in the note color
/// chosen from the neighbors; the board and everything else stay as they
/// were.
pub open spec fn placed_note(a: Sudoku, b: Sudoku, i0: int, j0: int, d: u8) -> bool {
    &&& b.board() == a.board()
    &&& forall|i: int, j: int|
        0 <= i < 27 && 0 <= j < 27 ==> #[trigger] b.display_at(i, j) == (if i == i0 && j == j0 {
            d
        } else {
            a.display_at(i, j)
        })
    &&& forall|i: int, j: int|
        0 <= i < 27 && 0 <= j < 27 ==> #[trigger] b.color_at(i, j) == (if i == i0 && j == j0 {
            a.candidate_color()
        } else {
            a.color_at(i, j)
        })
}

impl Sudoku {
    /// The display row the cursor sits on.
    pub open spec fn cursor_row(self) -> int {
        match spec_actual_row(self.cursor().0 as int) {
            Some(i) => i,
            None => 0,
        }
    }

    /// The display column the cursor sits on.
    pub open spec fn cursor_col(self) -> int {
        match spec_actual_col(self.cursor().1 as int) {
            Some(j) => j,
            None => 0,
        }
    }

    /// The board position under the cursor, if the cursor is on a block
    /// center.
    pub open spec fn cursor_grid_pos(self) -> Option<int> {
        spec_cell_grid_pos(self.cursor_row(), self.cursor_col())
    }

    /// The cursor sits on a block center that is open to the player: an
    /// unknown or previously guessed cell.
    pub open spec fn on_open_cell(self) -> bool {
        &&& self.cursor_grid_pos() is Some
        &&& (self.color_at(self.cursor_row(), self.cursor_col()) == ColorPair::Unknown
            || self.color_at(self.cursor_row(), self.cursor_col()) == ColorPair::Guess)
    }

    /// Writes one value into a display cell and its color state.
    fn write_cell(&mut self, i0: usize, j0: usize, v: u8, c: ColorPair)
        requires
            i0 < 27,
            j0 < 27,
        ensures
            final(self).board() == old(self).board(),
            final(self).cursor() == old(self).cursor(),
            final(self).spec_filename() == old(self).spec_filename(),
            forall|i: int, j: int|
                0 <= i < 27 && 0 <= j < 27 ==> #[trigger] final(self).display_at(i, j) == (if i
                    == i0 && j == j0 {
                    v
                } else {
                    old(self).display_at(i, j)
                }),
            forall|i: int, j: int|
                0 <= i < 27 && 0 <= j < 27 ==> #[trigger] final(self).color_at(i, j) == (if i
                    == i0 && j == j0 {
                    c
                } else {
                    old(self).color_at(i, j)
                }),
    {
        let mut vrow = self.display_matrix[i0];
        vrow[j0] = v;
        self.display_matrix[i0] = vrow;
        let mut crow = self.color_codes[i0];
        crow[j0] = c;
        self.color_codes[i0] = crow;
    }

    /// Wipes the eight note cells around the block center under the
    /// cursor.  This happens when a digit is written into the center, so
    /// stale notes never survive a placed value.
    pub fn clear_surrounding_cells(&mut self)
        requires
            old(self).wf(),
            old(self).cursor_grid_pos() is Some,
        ensures
            final(self).wf(),
            final(self).board() == old(self).board(),
            final(self).cursor() == old(self).cursor(),
            final(self).spec_filename() == old(self).spec_filename(),
            forall|i: int, j: int|
                0 <= i < 27 && 0 <= j < 27 ==> #[trigger] final(self).display_at(i, j) == (
                if is_neighbor_cell(old(self).cursor_row(), old(self).cursor_col(), i, j) {
                    32
                } else {
                    old(self).display_at(i, j)
                }),
            forall|i: int, j: int|
                0 <= i < 27 && 0 <= j < 27 ==> #[trigger] final(self).color_at(i, j) == (
                if is_neighbor_cell(old(self).cursor_row(), old(self).cursor_col(), i, j) {
                    ColorPair::Default
                } else {
                    old(self).color_at(i, j)
                }),
    {
        let i0 = match actual_row_of_offset(self.cursor_pos.y()) {
            Some(i) => i as usize,
            None => vstd::pervasive::unreached(),
        };
        let j0 = match actual_col_of_offset(self.cursor_pos.x()) {
            Some(j) => j as usize,
            None => vstd::pervasive::unreached(),
        };
        proof {
            assert(spec_cell_grid_pos(i0 as int, j0 as int) is Some);
            assert(1 <= i0 as int <= 25 && 1 <= j0 as int <= 25);
        }
        let ghost a = *self;
        self.write_cell(i0 - 1, j0 - 1, 32, ColorPair::Default);
        self.write_cell(i0 - 1, j0, 32, ColorPair::Default);
        self.write_cell(i0 - 1, j0 + 1, 32, ColorPair::Default);
        self.write_cell(i0, j0 - 1, 32, ColorPair::Default);
        self.write_cell(i0, j0 + 1, 32, ColorPair::Default);
        self.write_cell(i0 + 1, j0 - 1, 32, ColorPair::Default);
        self.write_cell(i0 + 1, j0, 32, ColorPair::Default);
        self.write_cell(i0 + 1, j0 + 1, 32, ColorPair::Default);
        proof {
            assert forall|i: int, j: int|
                0 <= i < 27 && 0 <= j < 27 implies #[trigger] self.display_at(i, j) == (
            if is_neighbor_cell(i0 as int, j0 as int, i, j) {
                32u8
            } else {
                a.display_at(i, j)
            }) && self.color_at(i, j) == (if is_neighbor_cell(i0 as int, j0 as int, i, j) {
                ColorPair::Default
            } else {
                a.color_at(i, j)
            }) by {}
            assert forall|p: int|
                0 <= p < 81 && ((#[trigger] self.color_at(spec_display_row(p), spec_display_col(
                    p,
                ))) == ColorPair::Unknown || self.color_at(spec_display_row(p), spec_display_col(
                    p,
                )) == ColorPair::Given || self.color_at(spec_display_row(p), spec_display_col(p))
                == ColorPair::Guess) implies self.display_at(
                spec_display_row(p),
                spec_display_col(p),
            ) == self.board().value_at(p) by {
                assert(!is_neighbor_cell(
                    i0 as int,
                    j0 as int,
                    spec_display_row(p),
                    spec_display_col(p),
                ));
            }
        }
    }

    /// Reacts to a value key over the current cursor cell: a digit is
    /// placed (or Backspace/Delete erases) in the board cell under the
    /// cursor when that cell is open to the player, in the note area
    /// otherwise, and nothing happens at all when a given clue sits on or
    /// next to the cursor.  That last clause is the given-immutability
    /// convention: no sequence of value keys can ever change a given clue
    /// or the board cell it colors, because the only entry path is blocked
    /// whenever a given is in reach.
    pub fn set_value(&mut self, value: Option<Input>)
        requires
            old(self).wf(),
            match value {
                Some(Input::Character(c)) => '1' <= c && c <= '9',
                Some(_) => true,
                None => false,
            },
        ensures
            final(self).wf(),
            final(self).cursor() == old(self).cursor(),
            final(self).spec_filename() == old(self).spec_filename(),
            final(self).board().known() == old(self).board().known(),
            old(self).given_near() ==> unchanged_game(*old(self), *final(self)),
            !old(self).given_near() && old(self).on_open_cell() ==> (match value {
                Some(Input::KeyDC) | Some(Input::KeyBackspace) => (match old(
                    self,
                ).cursor_grid_pos() {
                    Some(p) => erased_at_center(
                        *old(self),
                        *final(self),
                        p,
                        old(self).cursor_row(),
                        old(self).cursor_col(),
                    ),
                    None => false,
                }),
                Some(Input::Character(c)) => (match old(self).cursor_grid_pos() {
                    Some(p) => placed_at_center(
                        *old(self),
                        *final(self),
                        p,
                        old(self).cursor_row(),
                        old(self).cursor_col(),
                        ((c as u8) - 48) as u8,
                    ),
                    None => false,
                }),
                _ => unchanged_game(*old(self), *final(self)),
            }),
            !old(self).given_near() && !old(self).on_open_cell() ==> (match value {
                Some(Input::KeyDC) | Some(Input::KeyBackspace) => erased_note(
                    *old(self),
                    *final(self),
                    old(self).cursor_row(),
                    old(self).cursor_col(),
                ),
                Some(Input::Character(c)) => placed_note(
                    *old(self),
                    *final(self),
                    old(self).cursor_row(),
                    old(self).cursor_col(),
                    ((c as u8) - 48) as u8,
                ),
                _ => unchanged_game(*old(self), *final(self)),
            }),
    {
        if self.do_nothing() {
            // a given clue on or next to the cursor blocks the entry
            return ;
        }
        let i0 = match actual_row_of_offset(self.cursor_pos.y()) {
            Some(i) => i,
            None => vstd::pervasive::unreached(),
        };
        let j0 = match actual_col_of_offset(self.cursor_pos.x()) {
            Some(j) => j,
            None => vstd::pervasive::unreached(),
        };
        let center = display2grid(Cell::new(i0, j0));
        let cursor_color = {
            let crow = self.color_codes[i0 as usize];
            crow[j0 as usize]
        };
        let open_cell = match center {
            Some(_) => cursor_color == ColorPair::Unknown || cursor_color == ColorPair::Guess,
            None => false,
        };
        if open_cell {
            let pos = match center {
                Some(p) => p,
                None => vstd::pervasive::unreached(),
            };
            match value {
                Some(Input::KeyDC) | Some(Input::KeyBackspace) => {
                    let ghost a = *self;
                    self.grid.set_value(pos, UNKNOWN);
                    let ghost mid = *self;
                    self.write_cell(i0 as usize, j0 as usize, UNKNOWN, ColorPair::Unknown);
                    proof {
                        assert forall|i: int, j: int|
                            #![trigger self.display_at(i, j)]
                            #![trigger self.color_at(i, j)]
                            0 <= i < 27 && 0 <= j < 27 && !(i == i0 as int && j == j0 as int)
                            implies self.display_at(i, j) == a.display_at(i, j)
                            && self.color_at(i, j) == a.color_at(i, j) by {
                            assert(mid.display_at(i, j) == a.display_at(i, j));
                            assert(mid.color_at(i, j) == a.color_at(i, j));
                        }
                        assert(self.board().values() =~= a.board().values().update(
                            pos as int,
                            UNKNOWN,
                        ));
                        assert(self.display_at(i0 as int, j0 as int) == UNKNOWN);
                        assert(spec_display_row(pos as int) == i0 as int && spec_display_col(
                            pos as int,
                        ) == j0 as int);
                        assert(self.board().value_at(pos as int) == UNKNOWN);
                        lemma_set_value_center_wf(a, *self, pos as int);
                    }
                },
                Some(Input::Character(c)) => {
                    let ghost a = *self;
                    self.clear_surrounding_cells();
                    let ghost cleared = *self;
                    let val = (c as u8) - 48;
                    self.grid.set_value(pos, val);
                    let ghost mid = *self;
                    self.write_cell(i0 as usize, j0 as usize, val, ColorPair::Guess);
                    proof {
                        assert(a.cursor_row() == i0 as int && a.cursor_col() == j0 as int);
                        assert forall|i: int, j: int|
                            #![trigger self.display_at(i, j)]
                            #![trigger self.color_at(i, j)]
                            0 <= i < 27 && 0 <= j < 27 implies self.display_at(i, j)
                            == (if i == i0 as int && j == j0 as int {
                            val
                        } else if is_neighbor_cell(i0 as int, j0 as int, i, j) {
                            32u8
                        } else {
                            a.display_at(i, j)
                        }) && self.color_at(i, j) == (if i == i0 as int && j == j0 as int {
                            ColorPair::Guess
                        } else if is_neighbor_cell(i0 as int, j0 as int, i, j) {
                            ColorPair::Default
                        } else {
                            a.color_at(i, j)
                        }) by {
                            assert(mid.display_at(i, j) == cleared.display_at(i, j));
                            assert(mid.color_at(i, j) == cleared.color_at(i, j));
                        }
                        assert(self.board().values() =~= a.board().values().update(
                            pos as int,
                            val,
                        ));
                        assert(spec_display_row(pos as int) == i0 as int && spec_display_col(
                            pos as int,
                        ) == j0 as int);
                        assert(self.display_at(i0 as int, j0 as int) == val);
                        assert(self.board().value_at(pos as int) == val);
                        assert forall|i: int, j: int|
                            0 <= i < 27 && 0 <= j < 27 && !(i == spec_display_row(pos as int) && j
                                == spec_display_col(pos as int)) && ((#[trigger] self.color_at(
                                i,
                                j,
                            )) == ColorPair::Unknown || self.color_at(i, j) == ColorPair::Given
                                || self.color_at(i, j) == ColorPair::Guess) implies self.display_at(
                            i,
                            j,
                        ) == a.display_at(i, j) && self.color_at(i, j) == a.color_at(i, j) by {
                            assert(!(self.color_at(i, j) == ColorPair::Default)
                                ==> !is_neighbor_cell(i0 as int, j0 as int, i, j));
                        }
                        lemma_set_value_center_wf(a, *self, pos as int);
                    }
                },
                _ => {},
            }
        } else {
            match value {
                Some(Input::KeyDC) | Some(Input::KeyBackspace) => {
                    self.write_cell(i0 as usize, j0 as usize, 32, ColorPair::Default);
                    proof {
                        lemma_note_write_wf(*old(self), *self, i0 as int, j0 as int);
                    }
                },
                Some(Input::Character(c)) => {
                    let cp = self.pick_candidate_color();
                    let val = (c as u8) - 48;
                    self.write_cell(i0 as usize, j0 as usize, val, cp);
                    proof {
                        lemma_candidate_color_range(*old(self), 8);
                        lemma_note_write_wf(*old(self), *self, i0 as int, j0 as int);
                    }
                },
                _ => {},
            }
        }
    }
}

/// A game that changed its board and display only at one block center,
/// writing the same value to both (or coloring the cell neither unknown,
/// given nor guess), stays well-formed.
proof fn lemma_set_value_center_wf(a: Sudoku, b: Sudoku, p: int)
    requires
        a.wf(),
        0 <= p < 81,
        b.cursor() == a.cursor(),
        b.board().wf(),
        forall|q: int|
            0 <= q < 81 && q != p ==> #[trigger] b.board().value_at(q) == a.board().value_at(q),
        forall|i: int, j: int|
            0 <= i < 27 && 0 <= j < 27 && !(i == spec_display_row(p) && j == spec_display_col(p))
                && ((#[trigger] b.color_at(i, j)) == ColorPair::Unknown || b.color_at(i, j)
                == ColorPair::Given || b.color_at(i, j) == ColorPair::Guess) ==> b.display_at(
                i,
                j,
            ) == a.display_at(i, j) && b.color_at(i, j) == a.color_at(i, j),
        b.display_at(spec_display_row(p), spec_display_col(p)) == b.board().value_at(p),
    ensures
        b.wf(),
{
    assert forall|q: int|
        0 <= q < 81 && ((#[trigger] b.color_at(spec_display_row(q), spec_display_col(q)))
            == ColorPair::Unknown || b.color_at(spec_display_row(q), spec_display_col(q))
            == ColorPair::Given || b.color_at(spec_display_row(q), spec_display_col(q))
            == ColorPair::Guess) implies b.display_at(spec_display_row(q), spec_display_col(q))
        == b.board().value_at(q) by {
        if q != p {
            assert((spec_display_row(q) - 1) / 3 == q / 9 && (spec_display_col(q) - 1) / 3 == q
                % 9);
            assert(!(spec_display_row(q) == spec_display_row(p) && spec_display_col(q)
                == spec_display_col(p)));
            assert(a.color_at(spec_display_row(q), spec_display_col(q)) == b.color_at(
                spec_display_row(q),
                spec_display_col(q),
            ));
        }
    }
}

/// The note color is always one of the two candidate colors or the
/// default; in particular it is never the color of a given, an unknown
/// or a guessed cell.
proof fn lemma_candidate_color_range(s: Sudoku, k: int)
    ensures
        s.spec_candidate_color_upto(k) == ColorPair::Default || s.spec_candidate_color_upto(k)
            == ColorPair::CandidatesY || s.spec_candidate_color_upto(k)
            == ColorPair::CandidatesB,
    decreases k,
{
    if k > 0 {
        lemma_candidate_color_range(s, k - 1);
    }
}

/// A game that changed its display only at one cell that is not a block
/// center, and its board not at all, stays well-formed.
proof fn lemma_note_write_wf(a: Sudoku, b: Sudoku, i0: int, j0: int)
    requires
        a.wf(),
        b.cursor() == a.cursor(),
        b.board() == a.board(),
        spec_cell_grid_pos(i0, j0) is None || !(b.color_at(i0, j0) == ColorPair::Unknown
            || b.color_at(i0, j0) == ColorPair::Given || b.color_at(i0, j0) == ColorPair::Guess),
        forall|i: int, j: int|
            0 <= i < 27 && 0 <= j < 27 && !(i == i0 && j == j0) ==> #[trigger] b.display_at(i, j)
                == a.display_at(i, j) && b.color_at(i, j) == a.color_at(i, j),
    ensures
        b.wf(),
{
    assert forall|q: int|
        0 <= q < 81 && ((#[trigger] b.color_at(spec_display_row(q), spec_display_col(q)))
            == ColorPair::Unknown || b.color_at(spec_display_row(q), spec_display_col(q))
            == ColorPair::Given || b.color_at(spec_display_row(q), spec_display_col(q))
            == ColorPair::Guess) implies b.display_at(spec_display_row(q), spec_display_col(q))
        == b.board().value_at(q) by {
        assert((spec_display_row(q) - 1) / 3 == q / 9 && (spec_display_col(q) - 1) / 3 == q % 9);
        assert(spec_cell_grid_pos(spec_display_row(q), spec_display_col(q)) == Some(q));
        if spec_display_row(q) == i0 && spec_display_col(q) == j0 {
            assert(!(b.color_at(i0, j0) == ColorPair::Unknown || b.color_at(i0, j0)
                == ColorPair::Given || b.color_at(i0, j0) == ColorPair::Guess));
        } else {
            assert(b.display_at(spec_display_row(q), spec_display_col(q)) == a.display_at(
                spec_display_row(q),
                spec_display_col(q),
            ));
            assert(b.color_at(spec_display_row(q), spec_display_col(q)) == a.color_at(
                spec_display_row(q),
                spec_display_col(q),
            ));
            assert(a.display_at(spec_display_row(q), spec_display_col(q)) == a.board().value_at(
                q,
            ));
        }
    }
}

} // verus!
