//! The 81-cell board, held through three synchronized views: nine row,
//! nine column and nine box containers.  Every write goes through
//! [`Grid::set_value`], which updates all three views at once; the
//! well-formedness predicate [`Grid::wf`] states that the views never
//! disagree.

use vstd::prelude::*;
use crate::container::{Container, ContainerKind, UNKNOWN, container_complete};

verus! {

broadcast use crate::container::container_len;

/// Row number (0-8) of a position 0-80, numbered row-major.
pub open spec fn spec_row_of(p: int) -> int {
    p / 9
}

/// Column number (0-8) of a position.
pub open spec fn spec_col_of(p: int) -> int {
    p % 9
}

/// Box number (0-8) of a position: `3*(row/3) + col/3`.
pub open spec fn spec_box_of(p: int) -> int {
    3 * ((p / 9) / 3) + (p % 9) / 3
}

/// Slot of a position inside its row container.
pub open spec fn spec_row_slot(p: int) -> int {
    p % 9
}

/// Slot of a position inside its column container.
pub open spec fn spec_col_slot(p: int) -> int {
    p / 9
}

/// Slot of a position inside its box container: `3*(row%3) + col%3`.
pub open spec fn spec_box_slot(p: int) -> int {
    3 * ((p / 9) % 3) + (p % 9) % 3
}

/// Each of the three (container, slot) addressings of the board is
/// injective: two distinct positions never share an address.
pub proof fn lemma_position_maps_injective(p: int, q: int)
    requires
        0 <= p < 81,
        0 <= q < 81,
    ensures
        spec_row_of(p) == spec_row_of(q) && spec_row_slot(p) == spec_row_slot(q) ==> p == q,
        spec_col_of(p) == spec_col_of(q) && spec_col_slot(p) == spec_col_slot(q) ==> p == q,
        spec_box_of(p) == spec_box_of(q) && spec_box_slot(p) == spec_box_slot(q) ==> p == q,
{
    let r = p / 9;
    let c = p % 9;
    let r2 = q / 9;
    let c2 = q % 9;
    assert(p == 9 * r + c);
    assert(q == 9 * r2 + c2);
    if spec_box_of(p) == spec_box_of(q) && spec_box_slot(p) == spec_box_slot(q) {
        assert(0 <= c / 3 < 3);
        assert(0 <= c2 / 3 < 3);
        assert(0 <= c % 3 < 3);
        assert(0 <= c2 % 3 < 3);
        assert(r / 3 == r2 / 3 && c / 3 == c2 / 3);
        assert(r % 3 == r2 % 3 && c % 3 == c2 % 3);
        assert(r == 3 * (r / 3) + r % 3);
        assert(r2 == 3 * (r2 / 3) + r2 % 3);
        assert(c == 3 * (c / 3) + c % 3);
        assert(c2 == 3 * (c2 / 3) + c2 % 3);
        assert(p == q);
    }
}

/// Every grid tracks exactly 81 clue marks.
pub broadcast proof fn grid_known_len(g: Grid)
    ensures
        (#[trigger] g.known()).len() == 81,
{
}

/// Every row, column and box container of a grid has nine slots.
pub broadcast proof fn grid_unit_lens(g: Grid, k: int)
    requires
        0 <= k < 9,
    ensures
        (#[trigger] g.row_at(k)).len() == 9,
        (#[trigger] g.column_at(k)).len() == 9,
        (#[trigger] g.box_at(k)).len() == 9,
{
}

/// Two grids with identical container views agree on every per-position
/// reading; well-formedness carries over.
proof fn lemma_same_views(a: Grid, b: Grid)
    requires
        b.rows == a.rows,
        b.columns == a.columns,
        b.boxes == a.boxes,
    ensures
        forall|p: int| #[trigger] b.value_at(p) == a.value_at(p),
        forall|p: int| #[trigger] b.col_val(p) == a.col_val(p),
        forall|p: int| #[trigger] b.box_val(p) == a.box_val(p),
        a.wf() ==> b.wf(),
{
    assert forall|p: int| #[trigger] b.value_at(p) == a.value_at(p) && b.col_val(p) == a.col_val(
        p,
    ) && b.box_val(p) == a.box_val(p) by {}
    if a.wf() {
        assert forall|p: int|
            #![trigger b.col_val(p)]
            #![trigger b.box_val(p)]
            #![trigger b.value_at(p)]
            0 <= p < 81 implies b.col_val(p) == b.value_at(p) && b.box_val(p) == b.value_at(
            p,
        ) by {
            assert(a.col_val(p) == a.value_at(p));
            assert(a.box_val(p) == a.value_at(p));
        }
    }
}

/// The 81-cell board: three aliased views of the same cells plus the marks
/// for the immutable clue positions.
pub struct Grid {
    known_positions: [bool; 81],
    rows: [Container; 9],
    columns: [Container; 9],
    boxes: [Container; 9],
}

impl Grid {
    /// The slots of row container `k`.
    pub closed spec fn row_at(self, k: int) -> Seq<u8> {
        self.rows[k]@
    }

    /// The slots of column container `k`.
    pub closed spec fn column_at(self, k: int) -> Seq<u8> {
        self.columns[k]@
    }

    /// The slots of box container `k`.
    pub closed spec fn box_at(self, k: int) -> Seq<u8> {
        self.boxes[k]@
    }

    /// The clue marks, one per position.
    pub closed spec fn known(self) -> Seq<bool> {
        self.known_positions@
    }

    /// The value of position `p`, read through its row container.
    pub open spec fn value_at(self, p: int) -> u8 {
        self.row_at(spec_row_of(p))[spec_row_slot(p)]
    }

    /// The value of position `p`, read through its column container.
    pub open spec fn col_val(self, p: int) -> u8 {
        self.column_at(spec_col_of(p))[spec_col_slot(p)]
    }

    /// The value of position `p`, read through its box container.
    pub open spec fn box_val(self, p: int) -> u8 {
        self.box_at(spec_box_of(p))[spec_box_slot(p)]
    }

    /// All 81 values, position-ordered.
    pub open spec fn values(self) -> Seq<u8> {
        Seq::new(81, |p: int| self.value_at(p))
    }

    /// Well-formedness: for every position the row, column and box views
    /// hold the same value.
    pub open spec fn wf(self) -> bool {
        forall|p: int|
            #![trigger self.col_val(p)]
            #![trigger self.box_val(p)]
            #![trigger self.value_at(p)]
            0 <= p < 81 ==> self.col_val(p) == self.value_at(p) && self.box_val(p)
                == self.value_at(p)
    }

    /// All 27 containers form finished, valid units: the win condition.
    pub open spec fn is_solved_grid(self) -> bool {
        forall|k: int|
            0 <= k < 9 ==> container_complete(#[trigger] self.row_at(k)) && container_complete(
                self.column_at(k),
            ) && container_complete(self.box_at(k))
    }

    /// An empty board: all slots unknown, no position marked as a clue.
    pub fn init() -> (g: Grid)
        ensures
            g.wf(),
            forall|p: int| 0 <= p < 81 ==> #[trigger] g.value_at(p) == UNKNOWN,
            forall|p: int| 0 <= p < 81 ==> !(#[trigger] g.known()[p]),
    {
        let rows = [
            Container::new(ContainerKind::Row, [UNKNOWN; 9]),
            Container::new(ContainerKind::Row, [UNKNOWN; 9]),
            Container::new(ContainerKind::Row, [UNKNOWN; 9]),
            Container::new(ContainerKind::Row, [UNKNOWN; 9]),
            Container::new(ContainerKind::Row, [UNKNOWN; 9]),
            Container::new(ContainerKind::Row, [UNKNOWN; 9]),
            Container::new(ContainerKind::Row, [UNKNOWN; 9]),
            Container::new(ContainerKind::Row, [UNKNOWN; 9]),
            Container::new(ContainerKind::Row, [UNKNOWN; 9]),
        ];
        let columns = [
            Container::new(ContainerKind::Column, [UNKNOWN; 9]),
            Container::new(ContainerKind::Column, [UNKNOWN; 9]),
            Container::new(ContainerKind::Column, [UNKNOWN; 9]),
            Container::new(ContainerKind::Column, [UNKNOWN; 9]),
            Container::new(ContainerKind::Column, [UNKNOWN; 9]),
            Container::new(ContainerKind::Column, [UNKNOWN; 9]),
            Container::new(ContainerKind::Column, [UNKNOWN; 9]),
            Container::new(ContainerKind::Column, [UNKNOWN; 9]),
            Container::new(ContainerKind::Column, [UNKNOWN; 9]),
        ];
        let boxes = [
            Container::new(ContainerKind::Box, [UNKNOWN; 9]),
            Container::new(ContainerKind::Box, [UNKNOWN; 9]),
            Container::new(ContainerKind::Box, [UNKNOWN; 9]),
            Container::new(ContainerKind::Box, [UNKNOWN; 9]),
            Container::new(ContainerKind::Box, [UNKNOWN; 9]),
            Container::new(ContainerKind::Box, [UNKNOWN; 9]),
            Container::new(ContainerKind::Box, [UNKNOWN; 9]),
            Container::new(ContainerKind::Box, [UNKNOWN; 9]),
            Container::new(ContainerKind::Box, [UNKNOWN; 9]),
        ];
        let g = Grid { known_positions: [false; 81], rows, columns, boxes };
        assert forall|p: int| 0 <= p < 81 implies #[trigger] g.value_at(p) == UNKNOWN && g.col_val(
            p,
        ) == UNKNOWN && g.box_val(p) == UNKNOWN by {
            assert(0 <= spec_row_of(p) < 9);
            assert(0 <= spec_col_of(p) < 9);
            assert(0 <= spec_box_of(p) < 9);
            assert(0 <= spec_row_slot(p) < 9);
            assert(0 <= spec_col_slot(p) < 9);
            assert(0 <= spec_box_slot(p) < 9);
        }
        g
    }

    /// Row number of a position.
    pub fn map_row(pos: u8) -> (r: usize)
        requires
            pos < 81,
        ensures
            r == spec_row_of(pos as int),
    {
        (pos / 9) as usize
    }

    /// Column number of a position.
    pub fn map_column(pos: u8) -> (r: usize)
        requires
            pos < 81,
        ensures
            r == spec_col_of(pos as int),
    {
        (pos % 9) as usize
    }

    /// Box number from a previously mapped row and column number.
    pub fn map_box(row: usize, column: usize) -> (r: usize)
        requires
            row < 9,
            column < 9,
        ensures
            r == 3 * ((row as int) / 3) + (column as int) / 3,
    {
        3 * (row / 3) + column / 3
    }

    /// Row, column and box numbers of a position.
    pub fn map_containers(pos: u8) -> (r: (usize, usize, usize))
        requires
            pos < 81,
        ensures
            r.0 == spec_row_of(pos as int),
            r.1 == spec_col_of(pos as int),
            r.2 == spec_box_of(pos as int),
    {
        let row_number = Self::map_row(pos);
        let column_number = Self::map_column(pos);
        (row_number, column_number, Self::map_box(row_number, column_number))
    }

    /// Slot of a position inside its row container.
    pub fn get_row_index(pos: u8) -> (r: usize)
        requires
            pos < 81,
        ensures
            r == spec_row_slot(pos as int),
    {
        (pos % 9) as usize
    }

    /// Slot of a position inside its column container.
    pub fn get_column_index(pos: u8) -> (r: usize)
        requires
            pos < 81,
        ensures
            r == spec_col_slot(pos as int),
    {
        (pos / 9) as usize
    }

    /// Slot of a position inside its box container.
    pub fn get_box_index(pos: u8) -> (r: usize)
        requires
            pos < 81,
        ensures
            r == spec_box_slot(pos as int),
    {
        let row = (pos / 9) as usize;
        let column = (pos % 9) as usize;
        3 * (row % 3) + column % 3
    }

    /// Row, column and box slots of a position.
    pub fn get_container_indeces(pos: u8) -> (r: (usize, usize, usize))
        requires
            pos < 81,
        ensures
            r.0 == spec_row_slot(pos as int),
            r.1 == spec_col_slot(pos as int),
            r.2 == spec_box_slot(pos as int),
    {
        (Self::get_row_index(pos), Self::get_column_index(pos), Self::get_box_index(pos))
    }

    /// Whether a position is an immutable clue from generation time.
    pub fn is_known(&self, index: usize) -> (r: bool)
        requires
            index < 81,
        ensures
            r == self.known()[index as int],
    {
        self.known_positions[index]
    }

    /// Row container `index`, as a copy.
    pub fn get_row(&self, index: usize) -> (c: Container)
        requires
            index < 9,
        ensures
            c@ == self.row_at(index as int),
    {
        self.rows[index]
    }

    /// Column container `index`, as a copy.
    pub fn get_column(&self, index: usize) -> (c: Container)
        requires
            index < 9,
        ensures
            c@ == self.column_at(index as int),
    {
        self.columns[index]
    }

    /// Box container `index`, as a copy.
    pub fn get_box(&self, index: usize) -> (c: Container)
        requires
            index < 9,
        ensures
            c@ == self.box_at(index as int),
    {
        self.boxes[index]
    }

    /// Writes `value` at position `pos` in all three views at once, leaving
    /// every other position and all clue marks unchanged.
    pub fn set_value(&mut self, pos: u8, value: u8)
        requires
            old(self).wf(),
            pos < 81,
        ensures
            final(self).wf(),
            final(self).values() == old(self).values().update(pos as int, value),
            final(self).value_at(pos as int) == value,
            forall|p: int|
                0 <= p < 81 && p != pos as int ==> #[trigger] final(self).value_at(p) == old(
                    self,
                ).value_at(p),
            final(self).known() == old(self).known(),
    {
        let ghost p = pos as int;
        let row_number = Self::map_row(pos);
        let column_number = Self::map_column(pos);
        let box_number = Self::map_box(row_number, column_number);
        let (index_row, index_column, index_box) = Self::get_container_indeces(pos);

        let mut row = self.rows[row_number];
        row.set_value(index_row, value);
        self.rows[row_number] = row;

        let mut column = self.columns[column_number];
        column.set_value(index_column, value);
        self.columns[column_number] = column;

        let mut bx = self.boxes[box_number];
        bx.set_value(index_box, value);
        self.boxes[box_number] = bx;

        proof {
            assert forall|q: int| 0 <= q < 81 && q != p implies #[trigger] self.value_at(q) == old(
                self,
            ).value_at(q) && self.col_val(q) == old(self).col_val(q) && self.box_val(q) == old(
                self,
            ).box_val(q) by {
                lemma_position_maps_injective(q, p);
            }
            assert(self.value_at(p) == value);
            assert(self.col_val(p) == value);
            assert(self.box_val(p) == value);
            assert forall|q: int|
                #![trigger self.col_val(q)]
                #![trigger self.box_val(q)]
                #![trigger self.value_at(q)]
                0 <= q < 81 implies self.col_val(q) == self.value_at(q) && self.box_val(q)
                == self.value_at(q) by {
                if q != p {
                    assert(old(self).col_val(q) == old(self).value_at(q));
                }
            }
            assert(self.values() =~= old(self).values().update(p, value));
        }
    }

    /// Sets or clears one clue mark, leaving every cell value untouched.
    pub(crate) fn set_known(&mut self, pos: usize, mark: bool)
        requires
            pos < 81,
        ensures
            final(self).known() == old(self).known().update(pos as int, mark),
            forall|p: int| #[trigger] final(self).value_at(p) == old(self).value_at(p),
            final(self).values() == old(self).values(),
            old(self).wf() ==> final(self).wf(),
    {
        let ghost g0 = *self;
        let mut known = self.known_positions;
        known[pos] = mark;
        self.known_positions = known;
        proof {
            lemma_same_views(g0, *self);
            assert(self.values() =~= g0.values());
            assert(self.known() =~= g0.known().update(pos as int, mark));
        }
    }

    /// The value at a position, read through its row container.
    pub fn at(&self, index: u8) -> (v: u8)
        requires
            index < 81,
        ensures
            v == self.value_at(index as int),
    {
        self.get_row(Self::map_row(index)).at(Self::get_row_index(index))
    }

    /// Whether the board as it stands is a solved puzzle: every row, column
    /// and box is a finished, valid unit.
    pub fn evaluate(&self) -> (r: bool)
        ensures
            r == self.is_solved_grid(),
    {
        let mut completed: bool = true;
        let mut k: usize = 0;
        while k < 9
            invariant
                k <= 9,
                completed == (forall|j: int|
                    0 <= j < k ==> container_complete(#[trigger] self.row_at(j))
                        && container_complete(self.column_at(j)) && container_complete(
                        self.box_at(j),
                    )),
            decreases 9 - k,
        {
            let row = self.rows[k];
            let column = self.columns[k];
            let bx = self.boxes[k];
            let rc = row.evaluate();
            let cc = column.evaluate();
            let bc = bx.evaluate();
            proof {
                assert(row@ == self.row_at(k as int));
                assert(column@ == self.column_at(k as int));
                assert(bx@ == self.box_at(k as int));
            }
            let next_completed = completed && rc && cc && bc;
            proof {
                if next_completed {
                    assert(completed);
                    assert(forall|j: int|
                        0 <= j < k ==> container_complete(#[trigger] self.row_at(j))
                            && container_complete(self.column_at(j)) && container_complete(
                            self.box_at(j),
                        ));
                    assert forall|j: int|
                        0 <= j < k + 1 implies container_complete(#[trigger] self.row_at(j))
                        && container_complete(self.column_at(j)) && container_complete(
                        self.box_at(j),
                    ) by {}
                } else {
                    if completed {
                        assert(!(container_complete(self.row_at(k as int))
                            && container_complete(self.column_at(k as int))
                            && container_complete(self.box_at(k as int))));
                    } else {
                        let j = choose|j: int|
                            0 <= j < k && !(container_complete(#[trigger] self.row_at(j))
                                && container_complete(self.column_at(j)) && container_complete(
                                self.box_at(j),
                            ));
                        assert(0 <= j < k + 1 && !(container_complete(self.row_at(j))
                            && container_complete(self.column_at(j)) && container_complete(
                            self.box_at(j),
                        )));
                    }
                }
            }
            completed = next_completed;
            k = k + 1;
        }
        completed
    }

    /// Rebuilds a board from a 9x9 matrix of saved digits (the unknown
    /// sentinel marks an empty cell).  Every cell that holds a digit is
    /// marked as a clue; no legality check is performed.
    pub fn from_matrix(mat: [[u8; 9]; 9]) -> (g: Grid)
        ensures
            g.wf(),
            forall|p: int|
                0 <= p < 81 ==> #[trigger] g.value_at(p) == mat@[spec_row_of(p)]@[spec_col_of(p)],
            forall|p: int|
                0 <= p < 81 ==> #[trigger] g.known()[p] == (mat@[spec_row_of(p)]@[spec_col_of(p)]
                    != UNKNOWN),
    {
        let mut g = Self::init();
        let mut count: usize = 0;
        while count < 81
            invariant
                count <= 81,
                g.wf(),
                forall|p: int|
                    0 <= p < count ==> #[trigger] g.value_at(p) == mat@[spec_row_of(p)]@[spec_col_of(
                        p,
                    )],
                forall|p: int|
                    0 <= p < count ==> #[trigger] g.known()[p] == (mat@[spec_row_of(p)]@[spec_col_of(
                        p,
                    )] != UNKNOWN),
                forall|p: int| count <= p < 81 ==> !(#[trigger] g.known()[p]),
            decreases 81 - count,
        {
            let i = count / 9;
            let j = count % 9;
            let val = mat[i][j];
            g.set_value(count as u8, val);
            let ghost g0 = g;
            let mut known = g.known_positions;
            known[count] = val != UNKNOWN;
            g.known_positions = known;
            proof {
                lemma_same_views(g0, g);
            }
            count = count + 1;
        }
        g
    }
}

/// How many entries of a boolean sequence are set.
pub open spec fn count_true(s: Seq<bool>) -> int
    decreases s.len(),
{
    if s.len() == 0 {
        0
    } else {
        count_true(s.drop_last()) + if s.last() {
            1int
        } else {
            0int
        }
    }
}

/// A sequence with no entry set has count zero.
pub proof fn lemma_count_true_zero(s: Seq<bool>)
    requires
        forall|i: int| 0 <= i < s.len() ==> !(#[trigger] s[i]),
    ensures
        count_true(s) == 0,
    decreases s.len(),
{
    if s.len() > 0 {
        lemma_count_true_zero(s.drop_last());
    }
}

/// Overwriting one entry changes the count exactly by the difference at
/// that entry.
pub proof fn lemma_count_true_update(s: Seq<bool>, i: int, b: bool)
    requires
        0 <= i < s.len(),
    ensures
        count_true(s.update(i, b)) == count_true(s) + (if b {
            1int
        } else {
            0int
        }) - (if s[i] {
            1int
        } else {
            0int
        }),
    decreases s.len(),
{
    let t = s.update(i, b);
    if i == s.len() - 1 {
        assert(t.drop_last() =~= s.drop_last());
    } else {
        assert(t.drop_last() =~= s.drop_last().update(i, b));
        lemma_count_true_update(s.drop_last(), i, b);
    }
}

/// Evaluating a board is a pure reading of its state: two win checks of
/// the same unmutated grid return the same verdict, since each returns
/// exactly `is_solved_grid`.
pub proof fn lemma_evaluate_idempotent(g: Grid, first: bool, second: bool)
    requires
        first == g.is_solved_grid(),
        second == g.is_solved_grid(),
    ensures
        first == second,
{
}

/// View synchronization: for any position of a well-formed grid, the row,
/// column and box containers all hold the position's value at that
/// position's slot.
pub proof fn lemma_view_synchronization(g: Grid, p: int)
    requires
        g.wf(),
        0 <= p < 81,
    ensures
        g.row_at(spec_row_of(p))[spec_row_slot(p)] == g.value_at(p),
        g.column_at(spec_col_of(p))[spec_col_slot(p)] == g.value_at(p),
        g.box_at(spec_box_of(p))[spec_box_slot(p)] == g.value_at(p),
{
    assert(g.col_val(p) == g.value_at(p));
    assert(g.box_val(p) == g.value_at(p));
}

} // verus!
