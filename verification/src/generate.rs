//! Solved-puzzle generation: diagonal-box seeding plus a per-(box, value)
//! backtracking search over the six remaining boxes, a verified legality
//! check on every board it hands out, and the difficulty-driven clue
//! selection that turns a solved board into a playable puzzle.

use vstd::prelude::*;
use vstd::arithmetic::div_mod::{
    lemma_fundamental_div_mod,
    lemma_fundamental_div_mod_converse,
};
use crate::container::{container_complete, no_digit_dups, value_in, UNKNOWN};
use crate::container::{lemma_all_digits_complete, lemma_distinct_digits_complete, lemma_no_dups_update};
use crate::grid::{
    count_true,
    lemma_count_true_update,
    spec_box_of,
    spec_box_slot,
    spec_col_of,
    spec_col_slot,
    spec_row_of,
    spec_row_slot,
    Grid,
};
use crate::menu::{clue_count, spec_clue_count, DifficultyMenuOption};
use crate::rng::{new_rng, shuffle_values};
use crate::fifo::{queue_add, queue_new, queue_peek, queue_remove, queue_size, queue_vals};

verus! {

broadcast use crate::grid::grid_known_len, crate::grid::grid_unit_lens, crate::container::container_len;

/// Two positions share a row, a column or a box.
pub open spec fn same_unit(p: int, q: int) -> bool {
    ||| spec_row_of(p) == spec_row_of(q)
    ||| spec_col_of(p) == spec_col_of(q)
    ||| spec_box_of(p) == spec_box_of(q)
}

/// An 81-value board is a legal solved puzzle: every cell holds a digit
/// 1-9 and no two cells of the same row, column or box agree.
pub open spec fn solved_ok(s: Seq<u8>) -> bool {
    &&& s.len() == 81
    &&& forall|p: int| 0 <= p < 81 ==> 1 <= #[trigger] s[p] <= 9
    &&& forall|p: int, q: int|
        #![trigger s[p], s[q]]
        0 <= p < 81 && 0 <= q < 81 && p != q && same_unit(p, q) ==> s[p] != s[q]
}

/// Position of slot `i` (raster order) of box `b`.
pub open spec fn spec_box_position(b: int, i: int) -> int {
    27 * (b / 3) + 3 * (b % 3) + 9 * (i / 3) + i % 3
}

/// The slot positions of a box land where they should: slot `i` of box `b`
/// is a board position whose box number is `b` and box slot is `i`, in row
/// `3*(b/3) + i/3` and column `3*(b%3) + i%3`.
pub proof fn lemma_box_position(b: int, i: int)
    requires
        0 <= b < 9,
        0 <= i < 9,
    ensures
        0 <= spec_box_position(b, i) < 81,
        spec_row_of(spec_box_position(b, i)) == 3 * (b / 3) + i / 3,
        spec_col_of(spec_box_position(b, i)) == 3 * (b % 3) + i % 3,
        spec_box_of(spec_box_position(b, i)) == b,
        spec_box_slot(spec_box_position(b, i)) == i,
{
    let p = spec_box_position(b, i);
    let row = 3 * (b / 3) + i / 3;
    let col = 3 * (b % 3) + i % 3;
    assert(b == 3 * (b / 3) + b % 3);
    assert(i == 3 * (i / 3) + i % 3);
    assert(p == 9 * row + col);
    lemma_fundamental_div_mod_converse(p, 9, row, col);
    lemma_fundamental_div_mod_converse(row, 3, b / 3, i / 3);
    lemma_fundamental_div_mod_converse(col, 3, b % 3, i % 3);
}

/// Position of slot `i` (raster order) of box `b`.
pub fn box_position(b: u8, i: usize) -> (pos: u8)
    requires
        b < 9,
        i < 9,
    ensures
        pos < 81,
        pos as int == spec_box_position(b as int, i as int),
{
    proof {
        lemma_box_position(b as int, i as int);
    }
    27 * (b / 3) + 3 * (b % 3) + 9 * ((i as u8) / 3) + (i as u8) % 3
}

/// Whether two positions share a row, a column or a box.
pub fn same_unit_positions(p: u8, q: u8) -> (r: bool)
    requires
        p < 81,
        q < 81,
    ensures
        r == same_unit(p as int, q as int),
{
    let (pr, pc, pb) = Grid::map_containers(p);
    let (qr, qc, qb) = Grid::map_containers(q);
    pr == qr || pc == qc || pb == qb
}

/// Checks a candidate 81-value board for being a legal solved puzzle.
pub fn check_solved(s: &Vec<u8>) -> (r: bool)
    ensures
        r == solved_ok(s@),
{
    if s.len() != 81 {
        return false;
    }
    let mut p: usize = 0;
    while p < 81
        invariant
            s@.len() == 81,
            p <= 81,
            forall|j: int| 0 <= j < p ==> 1 <= #[trigger] s@[j] <= 9,
        decreases 81 - p,
    {
        let v = s[p];
        if v < 1 || v > 9 {
            return false;
        }
        p = p + 1;
    }
    let mut a: usize = 0;
    while a < 81
        invariant
            s@.len() == 81,
            a <= 81,
            forall|j: int| 0 <= j < 81 ==> 1 <= #[trigger] s@[j] <= 9,
            forall|i: int, j: int|
                #![trigger s@[i], s@[j]]
                0 <= i < a && 0 <= j < 81 && i != j && same_unit(i, j) ==> s@[i] != s@[j],
        decreases 81 - a,
    {
        let mut b: usize = 0;
        while b < 81
            invariant
                s@.len() == 81,
                a < 81,
                b <= 81,
                forall|j: int|
                    #![trigger s@[j]]
                    0 <= j < b && a as int != j && same_unit(a as int, j) ==> s@[a as int]
                        != s@[j],
            decreases 81 - b,
        {
            if b != a && same_unit_positions(a as u8, b as u8) && s[a] == s[b] {
                return false;
            }
            b = b + 1;
        }
        a = a + 1;
    }
    true
}

/// Two numbers less than nine apart cannot share a remainder modulo nine
/// unless they are equal.
proof fn lemma_mod9_distinct(a: int, b: int)
    requires
        0 <= a,
        0 <= b,
        a != b,
        -9 < a - b < 9,
    ensures
        a % 9 != b % 9,
{
    lemma_fundamental_div_mod(a, 9);
    lemma_fundamental_div_mod(b, 9);
    if a % 9 == b % 9 {
        assert(a - b == 9 * (a / 9) - 9 * (b / 9));
        assert(a - b == 9 * (a / 9 - b / 9));
        assert(a / 9 - b / 9 == 0);
        assert(false);
    }
}

/// The deterministic fall-back pattern: position (row, col) holds
/// `(row/3 + 3*(row%3) + col) % 9 + 1`, a classic shifted-rows solved
/// board.
pub open spec fn cyclic_value(p: int) -> u8 {
    (((p / 9) / 3 + 3 * ((p / 9) % 3) + p % 9) % 9 + 1) as u8
}

/// No two cells of the same row, column or box of the fall-back pattern
/// hold the same digit.
proof fn lemma_cyclic_distinct(p: int, q: int)
    requires
        0 <= p < 81,
        0 <= q < 81,
        p != q,
        same_unit(p, q),
    ensures
        cyclic_value(p) != cyclic_value(q),
{
    let r1 = p / 9;
    let c1 = p % 9;
    let r2 = q / 9;
    let c2 = q % 9;
    let a1 = r1 / 3;
    let u1 = r1 % 3;
    let a2 = r2 / 3;
    let u2 = r2 % 3;
    let s1 = a1 + 3 * u1 + c1;
    let s2 = a2 + 3 * u2 + c2;
    lemma_fundamental_div_mod(p, 9);
    lemma_fundamental_div_mod(q, 9);
    lemma_fundamental_div_mod(r1, 3);
    lemma_fundamental_div_mod(r2, 3);
    lemma_fundamental_div_mod(c1, 3);
    lemma_fundamental_div_mod(c2, 3);
    if s1 == s2 {
        // equal sums would force the two positions to coincide
        if spec_row_of(p) == spec_row_of(q) {
            assert(c1 == c2);
            assert(p == q);
        } else if spec_col_of(p) == spec_col_of(q) {
            assert(a1 + 3 * u1 == a2 + 3 * u2);
            assert(0 <= a1 < 3 && 0 <= a2 < 3 && 0 <= u1 < 3 && 0 <= u2 < 3);
            assert(a1 == a2 && u1 == u2);
            assert(r1 == r2);
            assert(p == q);
        } else {
            assert(spec_box_of(p) == spec_box_of(q));
            assert(3 * a1 + c1 / 3 == 3 * a2 + c2 / 3);
            assert(0 <= c1 / 3 < 3 && 0 <= c2 / 3 < 3);
            assert(a1 == a2 && c1 / 3 == c2 / 3);
            assert(3 * u1 + c1 % 3 == 3 * u2 + c2 % 3);
            assert(u1 == u2 && c1 % 3 == c2 % 3);
            assert(r1 == r2 && c1 == c2);
            assert(p == q);
        }
        assert(false);
    }
    assert(0 <= s1 && 0 <= s2);
    assert(-9 < s1 - s2 < 9) by {
        if spec_row_of(p) == spec_row_of(q) {
            assert(s1 - s2 == c1 - c2);
        } else if spec_col_of(p) == spec_col_of(q) {
            assert(s1 - s2 == (a1 - a2) + 3 * (u1 - u2));
        } else {
            assert(spec_box_of(p) == spec_box_of(q));
            assert(3 * a1 + c1 / 3 == 3 * a2 + c2 / 3);
            assert(0 <= c1 / 3 < 3 && 0 <= c2 / 3 < 3);
            assert(a1 == a2 && c1 / 3 == c2 / 3);
            assert(s1 - s2 == 3 * (u1 - u2) + (c1 % 3 - c2 % 3));
        }
    }
    lemma_mod9_distinct(s1, s2);
}

/// The fall-back board is a legal solved puzzle.
proof fn lemma_cyclic_solved(s: Seq<u8>)
    requires
        s.len() == 81,
        forall|j: int| 0 <= j < 81 ==> #[trigger] s[j] == cyclic_value(j),
    ensures
        solved_ok(s),
{
    assert forall|p: int| 0 <= p < 81 implies 1 <= #[trigger] s[p] <= 9 by {
        lemma_fundamental_div_mod((p / 9) / 3 + 3 * ((p / 9) % 3) + p % 9, 9);
    }
    assert forall|p: int, q: int|
        #![trigger s[p], s[q]]
        0 <= p < 81 && 0 <= q < 81 && p != q && same_unit(p, q) implies s[p] != s[q] by {
        lemma_cyclic_distinct(p, q);
    }
}

/// A fixed legal solved board, used only if the randomized generator were
/// ever to exhaust its attempts.
fn fallback_solved() -> (s: Vec<u8>)
    ensures
        solved_ok(s@),
{
    let mut s: Vec<u8> = Vec::new();
    let mut p: usize = 0;
    while p < 81
        invariant
            p <= 81,
            s@.len() == p,
            forall|j: int| 0 <= j < p ==> #[trigger] s@[j] == cyclic_value(j),
        decreases 81 - p,
    {
        let r = p / 9;
        let c = p % 9;
        let v = (r / 3 + 3 * (r % 3) + c) % 9 + 1;
        s.push(v as u8);
        p = p + 1;
    }
    proof {
        lemma_cyclic_solved(s@);
    }
    s
}

/// How many boxes the search still has to visit for the current value
/// after the given one, following the fixed order 1, 2, 3, 5, 6, 7.
pub open spec fn box_rank(b: int) -> int {
    if b == 1 {
        5
    } else if b == 2 {
        4
    } else if b == 3 {
        3
    } else if b == 5 {
        2
    } else if b == 6 {
        1
    } else {
        0
    }
}

/// The boxes the backtracking search walks, in the fixed order 1, 2, 3,
/// 5, 6, 7; the diagonal boxes 0, 4 and 8 are seeded beforehand and never
/// searched.
pub open spec fn search_box(b: int) -> bool {
    b == 1 || b == 2 || b == 3 || b == 5 || b == 6 || b == 7
}

/// The (box, value) pairs the search still has to place when it stands at
/// (b0, v0): that pair itself, the rest of the current value's boxes, and
/// every searched box for each later value.
pub open spec fn plan_contains(b0: int, v0: int, b: int, v: int) -> bool {
    &&& search_box(b)
    &&& 1 <= v <= 9
    &&& (v > v0 || (v == v0 && box_rank(b) <= box_rank(b0)))
}

/// One step of the search plan: the plan from (b0, v0) is that pair plus
/// the plan from the next (box, value) pair in the fixed order.
proof fn lemma_plan_unfold(b0: int, v0: int)
    requires
        search_box(b0),
        1 <= v0 <= 9,
        !(b0 == 7 && v0 == 9),
    ensures
        forall|b: int, v: int| #[trigger]
            plan_contains(b0, v0, b, v) <==> ((b == b0 && v == v0) || plan_contains(
                if b0 == 3 {
                    5int
                } else if b0 == 7 {
                    1int
                } else {
                    b0 + 1
                },
                if b0 == 7 {
                    v0 + 1
                } else {
                    v0
                },
                b,
                v,
            )),
{
}

/// A successful search that started at box 1 with value 1 has worked
/// through the whole plan: each of the six searched boxes holds every
/// digit 1-9, so each is a finished, valid unit.  Together with the
/// untouched pre-seeded diagonal boxes, success therefore completes all
/// nine boxes of the board.
pub proof fn lemma_search_completes_boxes(g: Grid)
    requires
        g.wf(),
        forall|b: int, v: u8|
            plan_contains(1, 1, b, v as int) ==> #[trigger] value_in(g.box_at(b), v),
    ensures
        forall|b: int| search_box(b) ==> container_complete(#[trigger] g.box_at(b)),
{
    assert forall|b: int| search_box(b) implies container_complete(#[trigger] g.box_at(b)) by {
        crate::grid::grid_unit_lens(g, b);
        assert forall|v: u8| 1 <= v <= 9 implies value_in(g.box_at(b), v) by {
            assert(plan_contains(1, 1, b, v as int));
        }
        lemma_all_digits_complete(g.box_at(b));
    }
}

/// Each slot of a row, column or box container reads exactly one board
/// position.
proof fn lemma_unit_slots(g: Grid, k: int, j: int)
    requires
        g.wf(),
        0 <= k < 9,
        0 <= j < 9,
    ensures
        g.row_at(k)[j] == g.value_at(9 * k + j),
        g.column_at(k)[j] == g.value_at(9 * j + k),
        g.box_at(k)[j] == g.value_at(spec_box_position(k, j)),
{
    lemma_fundamental_div_mod_converse(9 * k + j, 9, k, j);
    lemma_fundamental_div_mod_converse(9 * j + k, 9, j, k);
    assert(g.col_val(9 * j + k) == g.column_at(k)[j]);
    assert(g.col_val(9 * j + k) == g.value_at(9 * j + k));
    lemma_box_position(k, j);
    assert(g.box_val(spec_box_position(k, j)) == g.box_at(k)[j]);
    assert(g.box_val(spec_box_position(k, j)) == g.value_at(spec_box_position(k, j)));
}

/// What one legal placement does to the scratch board: the placed cell's
/// box gains the value, every other cell keeps its value and its mark,
/// no row or column acquires a duplicate digit, and the placed cell ends
/// up marked.
proof fn lemma_placement_facts(entry: Grid, mid: Grid, pos: int, value: u8, box_no: int)
    requires
        entry.wf(),
        mid.wf(),
        1 <= value <= 9,
        0 <= pos < 81,
        spec_box_of(pos) == box_no,
        !value_in(entry.row_at(spec_row_of(pos)), value),
        !value_in(entry.column_at(spec_col_of(pos)), value),
        mid.values() == entry.values().update(pos, value),
        mid.known() == entry.known().update(pos, true),
    ensures
        mid.known()[pos],
        mid.value_at(pos) == value,
        value_in(mid.box_at(box_no), value),
        forall|p: int|
            #![trigger entry.known()[p]]
            0 <= p < 81 && entry.known()[p] ==> mid.known()[p] && mid.value_at(p)
                == entry.value_at(p) || p == pos,
        forall|p: int|
            #![trigger mid.value_at(p)]
            0 <= p < 81 && p != pos ==> mid.value_at(p) == entry.value_at(p) && mid.known()[p]
                == entry.known()[p],
        forall|k: int|
            #![trigger mid.row_at(k)]
            #![trigger mid.column_at(k)]
            0 <= k < 9 ==> (no_digit_dups(entry.row_at(k)) ==> no_digit_dups(mid.row_at(k)))
                && (no_digit_dups(entry.column_at(k)) ==> no_digit_dups(mid.column_at(k))),
{
    assert forall|p: int|
        0 <= p < 81 implies #[trigger] mid.value_at(p) == (if p == pos {
        value
    } else {
        entry.value_at(p)
    }) && mid.known()[p] == (if p == pos {
        true
    } else {
        entry.known()[p]
    }) by {
        assert(mid.values()[p] == mid.value_at(p));
        assert(entry.values()[p] == entry.value_at(p));
        assert(mid.values()[p] == entry.values().update(pos, value)[p]);
    }

    // the placed value shows through the box view
    crate::grid::grid_unit_lens(mid, box_no);
    assert(0 <= spec_box_slot(pos) < 9);
    assert(mid.box_at(box_no)[spec_box_slot(pos)] == mid.box_val(pos));
    assert(mid.box_val(pos) == mid.value_at(pos));
    assert(value_in(mid.box_at(box_no), value));

    // every unit slot of both boards, read back through the positions
    let rk = spec_row_of(pos);
    let rs = spec_row_slot(pos);
    let ck = spec_col_of(pos);
    let cs = spec_col_slot(pos);
    assert(pos == 9 * rk + rs);
    assert forall|k: int|
        #![trigger mid.row_at(k)]
        #![trigger mid.column_at(k)]
        0 <= k < 9 implies (no_digit_dups(entry.row_at(k)) ==> no_digit_dups(mid.row_at(k)))
        && (no_digit_dups(entry.column_at(k)) ==> no_digit_dups(mid.column_at(k))) by {
        crate::grid::grid_unit_lens(mid, k);
        crate::grid::grid_unit_lens(entry, k);
        assert forall|j: int|
            #![trigger mid.row_at(k)[j]]
            #![trigger mid.column_at(k)[j]]
            0 <= j < 9 implies mid.row_at(k)[j] == (if 9 * k + j == pos {
            value
        } else {
            entry.row_at(k)[j]
        }) && mid.column_at(k)[j] == (if 9 * j + k == pos {
            value
        } else {
            entry.column_at(k)[j]
        }) by {
            lemma_unit_slots(mid, k, j);
            lemma_unit_slots(entry, k, j);
        }
        if no_digit_dups(entry.row_at(k)) {
            if k == rk {
                lemma_no_dups_update(entry.row_at(k), rs, value);
                assert forall|j: int| 0 <= j < 9 implies #[trigger] mid.row_at(k)[j]
                    == entry.row_at(k).update(rs, value)[j] by {
                    lemma_fundamental_div_mod_converse(9 * k + j, 9, k, j);
                }
                assert(mid.row_at(k) =~= entry.row_at(k).update(rs, value));
            } else {
                assert forall|j: int| 0 <= j < 9 implies #[trigger] mid.row_at(k)[j]
                    == entry.row_at(k)[j] by {
                    lemma_fundamental_div_mod_converse(9 * k + j, 9, k, j);
                }
                assert(mid.row_at(k) =~= entry.row_at(k));
            }
        }
        if no_digit_dups(entry.column_at(k)) {
            if k == ck {
                lemma_no_dups_update(entry.column_at(k), cs, value);
                assert forall|j: int| 0 <= j < 9 implies #[trigger] mid.column_at(k)[j]
                    == entry.column_at(k).update(cs, value)[j] by {
                    lemma_fundamental_div_mod_converse(9 * j + k, 9, j, k);
                }
                assert(mid.column_at(k) =~= entry.column_at(k).update(cs, value));
            } else {
                assert forall|j: int| 0 <= j < 9 implies #[trigger] mid.column_at(k)[j]
                    == entry.column_at(k)[j] by {
                    lemma_fundamental_div_mod_converse(9 * j + k, 9, j, k);
                }
                assert(mid.column_at(k) =~= entry.column_at(k));
            }
        }
    }
}

impl Grid {
    /// One level of the backtracking search on a scratch board: try to
    /// place `value` in each still-legal cell of box `box_no` in turn,
    /// recursing on the next (box, value) pair, and undo the placement when
    /// the recursion fails.  The scratch board reuses the clue marks as its
    /// "filled by the search" marks.  On failure the board and the marks
    /// are exactly as they were before the call.  On success, every cell
    /// already filled keeps its value and its mark, cells outside the
    /// searched boxes are untouched, every (box, value) pair of the
    /// remaining plan has its value placed in its box, and no row or
    /// column acquires a duplicate digit: placements go only to cells
    /// whose row and column lacked the value.
    pub(crate) fn solve(&mut self, box_no: u8, value: u8) -> (r: bool)
        requires
            old(self).wf(),
            1 <= value <= 9,
            box_no == 1 || box_no == 2 || box_no == 3 || box_no == 5 || box_no == 6 || box_no
                == 7,
        ensures
            final(self).wf(),
            !r ==> final(self).values() == old(self).values() && final(self).known() == old(
                self,
            ).known(),
            r ==> forall|p: int|
                #![trigger old(self).known()[p]]
                0 <= p < 81 && old(self).known()[p] ==> final(self).known()[p]
                    && final(self).value_at(p) == old(self).value_at(p),
            r ==> forall|p: int|
                #![trigger final(self).value_at(p)]
                0 <= p < 81 && !search_box(spec_box_of(p)) ==> final(self).value_at(p) == old(
                    self,
                ).value_at(p) && final(self).known()[p] == old(self).known()[p],
            r ==> forall|b: int, v: u8|
                plan_contains(box_no as int, value as int, b, v as int) ==> #[trigger] value_in(
                    final(self).box_at(b),
                    v,
                ),
            r ==> forall|k: int|
                #![trigger final(self).row_at(k)]
                #![trigger final(self).column_at(k)]
                0 <= k < 9 ==> (no_digit_dups(old(self).row_at(k)) ==> no_digit_dups(
                    final(self).row_at(k),
                )) && (no_digit_dups(old(self).column_at(k)) ==> no_digit_dups(
                    final(self).column_at(k),
                )),
        decreases 9 - value, box_rank(box_no as int),
    {
        // the nine cells of this box, in raster order
        let mut positions: [u8; 9] = [0; 9];
        let mut i: usize = 0;
        while i < 9
            invariant
                i <= 9,
                box_no < 9,
                forall|j: int|
                    0 <= j < i ==> #[trigger] positions@[j] < 81 && spec_box_of(
                        positions@[j] as int,
                    ) == box_no as int,
            decreases 9 - i,
        {
            positions[i] = box_position(box_no, i);
            proof {
                lemma_box_position(box_no as int, i as int);
            }
            i = i + 1;
        }

        // candidates: cells not yet filled whose row and column do not
        // already hold `value`
        let mut q = queue_new();
        let mut c: usize = 0;
        while c < 9
            invariant
                c <= 9,
                forall|j: int|
                    0 <= j < 9 ==> #[trigger] positions@[j] < 81 && spec_box_of(
                        positions@[j] as int,
                    ) == box_no as int,
                forall|j: int|
                    0 <= j < queue_vals(q).len() ==> {
                        let pq = #[trigger] queue_vals(q)[j];
                        &&& pq < 81
                        &&& spec_box_of(pq as int) == box_no as int
                        &&& !self.known()[pq as int]
                        &&& !value_in(self.row_at(spec_row_of(pq as int)), value)
                        &&& !value_in(self.column_at(spec_col_of(pq as int)), value)
                    },
            decreases 9 - c,
        {
            let pos = positions[c];
            let row_number = Grid::map_row(pos);
            let column_number = Grid::map_column(pos);
            let row = self.get_row(row_number);
            let column = self.get_column(column_number);
            if !row.value_exists(value) && !column.value_exists(value) && !self.is_known(
                pos as usize,
            ) {
                queue_add(&mut q, pos);
            }
            c = c + 1;
        }

        loop
            invariant
                self.wf(),
                old(self).wf(),
                1 <= value <= 9,
                box_no == 1 || box_no == 2 || box_no == 3 || box_no == 5 || box_no == 6
                    || box_no == 7,
                self.values() == old(self).values(),
                self.known() == old(self).known(),
                forall|j: int|
                    0 <= j < queue_vals(q).len() ==> {
                        let pq = #[trigger] queue_vals(q)[j];
                        &&& pq < 81
                        &&& spec_box_of(pq as int) == box_no as int
                        &&& !old(self).known()[pq as int]
                        &&& !value_in(old(self).row_at(spec_row_of(pq as int)), value)
                        &&& !value_in(old(self).column_at(spec_col_of(pq as int)), value)
                    },
            decreases queue_vals(q).len(),
        {
            let ghost it0 = *self;
            let n = queue_size(&q);
            if n == 0 {
                return false;
            }
            let next_pos = match queue_peek(&q) {
                Some(p) => p,
                None => vstd::pervasive::unreached(),
            };
            assert(next_pos == queue_vals(q)[0]);
            let ghost pq = next_pos as int;
            assert(next_pos < 81 && spec_box_of(pq) == box_no as int && !old(self).known()[pq]
                && !value_in(old(self).row_at(spec_row_of(pq)), value) && !value_in(
                old(self).column_at(spec_col_of(pq)),
                value,
            ));

            let prev = self.at(next_pos);
            let was_filled = self.is_known(next_pos as usize);
            self.set_value(next_pos, value);
            self.set_known(next_pos as usize, true);
            let ghost mid = *self;
            proof {
                assert(mid.values() =~= old(self).values().update(pq, value));
                assert(mid.known() =~= old(self).known().update(pq, true));
                lemma_placement_facts(*old(self), mid, pq, value, box_no as int);
            }

            if box_no == 7 && value == 9 {
                proof {
                    assert forall|p: int|
                        #![trigger old(self).known()[p]]
                        0 <= p < 81 && old(self).known()[p] implies self.known()[p]
                        && self.value_at(p) == old(self).value_at(p) by {
                        assert(p != pq);
                        assert(mid.value_at(p) == old(self).value_at(p) && mid.known()[p]
                            == old(self).known()[p]);
                    }
                    assert forall|p: int|
                        #![trigger self.value_at(p)]
                        0 <= p < 81 && !search_box(spec_box_of(p)) implies self.value_at(p)
                        == old(self).value_at(p) && self.known()[p] == old(self).known()[p] by {
                        assert(p != pq);
                        assert(mid.value_at(p) == old(self).value_at(p) && mid.known()[p]
                            == old(self).known()[p]);
                    }
                    assert forall|b: int, v: u8|
                        plan_contains(box_no as int, value as int, b, v as int)
                        implies #[trigger] value_in(self.box_at(b), v) by {
                        assert(b == 7 && v == 9);
                        assert(value_in(mid.box_at(box_no as int), value));
                    }
                    assert forall|k: int|
                        #![trigger self.row_at(k)]
                        #![trigger self.column_at(k)]
                        0 <= k < 9 implies (no_digit_dups(old(self).row_at(k))
                        ==> no_digit_dups(self.row_at(k))) && (no_digit_dups(
                        old(self).column_at(k),
                    ) ==> no_digit_dups(self.column_at(k))) by {
                        assert(mid.row_at(k) == self.row_at(k));
                        assert(mid.column_at(k) == self.column_at(k));
                    }
                }
                return true;
            }

            let next_box: u8 = if box_no == 3 {
                5
            } else if box_no == 7 {
                1
            } else {
                box_no + 1
            };
            let next_value: u8 = if box_no == 7 {
                value + 1
            } else {
                value
            };

            let soln = self.solve(next_box, next_value);
            if soln {
                proof {
                    lemma_plan_unfold(box_no as int, value as int);
                    let fin = *self;
                    assert forall|p: int|
                        #![trigger old(self).known()[p]]
                        0 <= p < 81 && old(self).known()[p] implies fin.known()[p]
                        && fin.value_at(p) == old(self).value_at(p) by {
                        assert(p != pq);
                        assert(mid.known()[p] && mid.value_at(p) == old(self).value_at(p));
                        assert(fin.known()[p] && fin.value_at(p) == mid.value_at(p));
                    }
                    assert forall|p: int|
                        #![trigger fin.value_at(p)]
                        0 <= p < 81 && !search_box(spec_box_of(p)) implies fin.value_at(p)
                        == old(self).value_at(p) && fin.known()[p] == old(self).known()[p] by {
                        assert(p != pq);
                        assert(mid.value_at(p) == old(self).value_at(p) && mid.known()[p]
                            == old(self).known()[p]);
                        assert(fin.value_at(p) == mid.value_at(p) && fin.known()[p]
                            == mid.known()[p]);
                    }
                    assert forall|k: int|
                        #![trigger fin.row_at(k)]
                        #![trigger fin.column_at(k)]
                        0 <= k < 9 implies (no_digit_dups(old(self).row_at(k))
                        ==> no_digit_dups(fin.row_at(k))) && (no_digit_dups(
                        old(self).column_at(k),
                    ) ==> no_digit_dups(fin.column_at(k))) by {
                        if no_digit_dups(old(self).row_at(k)) {
                            assert(no_digit_dups(mid.row_at(k)));
                            assert(no_digit_dups(fin.row_at(k)));
                        }
                        if no_digit_dups(old(self).column_at(k)) {
                            assert(no_digit_dups(mid.column_at(k)));
                            assert(no_digit_dups(fin.column_at(k)));
                        }
                    }
                    assert(mid.known()[pq]);
                    assert(fin.value_at(pq) == mid.value_at(pq));
                    assert(fin.value_at(pq) == value);
                    crate::grid::grid_unit_lens(fin, box_no as int);
                    assert(0 <= spec_box_slot(pq) < 9);
                    assert(fin.box_at(box_no as int)[spec_box_slot(pq)] == fin.box_val(pq));
                    assert(fin.box_val(pq) == fin.value_at(pq));
                    assert(value_in(fin.box_at(box_no as int), value));
                    assert forall|b: int, v: u8|
                        plan_contains(box_no as int, value as int, b, v as int)
                        implies #[trigger] value_in(fin.box_at(b), v) by {
                        if b == box_no as int && v as int == value as int {
                            assert(v == value);
                        } else {
                            assert(plan_contains(next_box as int, next_value as int, b, v as int));
                            assert(value_in(fin.box_at(b), v));
                        }
                    }
                }
                return true;
            }

            // undo the placement before trying the next candidate
            self.set_value(next_pos, prev);
            self.set_known(next_pos as usize, was_filled);
            proof {
                assert(prev == it0.value_at(next_pos as int));
                assert(it0.values()[next_pos as int] == it0.value_at(next_pos as int));
                assert(was_filled == it0.known()[next_pos as int]);
                assert(self.values() =~= it0.values());
                assert(self.known() =~= it0.known());
            }
            let _ = queue_remove(&mut q);
        }
    }

    /// One randomized generation attempt: seed the three diagonal boxes
    /// with shuffled digits, run the backtracking search from box 1 and
    /// value 1, and flatten the board row-major.
    fn attempt_solved(rng: &mut rand::rngs::ThreadRng) -> (s: Vec<u8>)
        ensures
            s@.len() == 81,
    {
        let mut g = Grid::init();
        let mut d: usize = 0;
        while d < 3
            invariant
                d <= 3,
                g.wf(),
            decreases 3 - d,
        {
            let mut values: Vec<u8> = Vec::new();
            let mut v: u8 = 1;
            while v <= 9
                invariant
                    1 <= v <= 10,
                    values@.len() == v - 1,
                decreases 10 - v,
            {
                values.push(v);
                v = v + 1;
            }
            shuffle_values(rng, &mut values);
            let b = (4 * d) as u8;
            let mut i: usize = 0;
            while i < 9
                invariant
                    i <= 9,
                    g.wf(),
                    values@.len() == 9,
                    b < 9,
                decreases 9 - i,
            {
                let pos = box_position(b, i);
                g.set_value(pos, values[i]);
                i = i + 1;
            }
            d = d + 1;
        }
        let _ = g.solve(1, 1);
        let mut soln: Vec<u8> = Vec::new();
        let mut p: usize = 0;
        while p < 81
            invariant
                p <= 81,
                soln@.len() == p,
            decreases 81 - p,
        {
            soln.push(g.at(p as u8));
            p = p + 1;
        }
        soln
    }

    /// Generates a solved board: randomized attempts checked by
    /// [`check_solved`], with a bounded number of retries and a fixed legal
    /// board as the final fall-back, so that every board handed out is a
    /// legal solved puzzle.
    pub fn generate_solved_puzzle() -> (s: Vec<u8>)
        ensures
            solved_ok(s@),
    {
        let mut rng = new_rng();
        let mut attempts: usize = 0;
        while attempts < 64
            invariant
                attempts <= 64,
            decreases 64 - attempts,
        {
            let candidate = Self::attempt_solved(&mut rng);
            if check_solved(&candidate) {
                return candidate;
            }
            attempts = attempts + 1;
        }
        fallback_solved()
    }

    /// Reveals a difficulty-driven number of clues of a freshly generated
    /// solved board at uniformly shuffled positions, marking exactly those
    /// positions as known.
    pub(crate) fn set_starting_positions(&mut self, diff: DifficultyMenuOption)
        requires
            old(self).wf(),
            forall|p: int| 0 <= p < 81 ==> #[trigger] old(self).value_at(p) == UNKNOWN,
            forall|p: int| 0 <= p < 81 ==> !(#[trigger] old(self).known()[p]),
        ensures
            final(self).wf(),
            count_true(final(self).known()) == spec_clue_count(diff),
            forall|p: int|
                0 <= p < 81 && #[trigger] final(self).known()[p] ==> 1 <= final(self).value_at(p)
                    <= 9,
            forall|p: int|
                0 <= p < 81 && !(#[trigger] final(self).known()[p]) ==> final(self).value_at(p)
                    == UNKNOWN,
            forall|p: int, q: int|
                #![trigger final(self).value_at(p), final(self).value_at(q)]
                0 <= p < 81 && 0 <= q < 81 && p != q && same_unit(p, q) && final(self).known()[p]
                    && final(self).known()[q] ==> final(self).value_at(p)
                    != final(self).value_at(q),
    {
        let solved = Self::generate_solved_puzzle();

        // a uniformly shuffled ordering of the 81 positions
        let mut rng = new_rng();
        let mut positions: Vec<u8> = Vec::new();
        let mut pv: u8 = 0;
        while pv < 81
            invariant
                pv <= 81,
                positions@.len() == pv as int,
                forall|j: int| 0 <= j < pv ==> #[trigger] positions@[j] == j as u8,
            decreases 81 - pv,
        {
            positions.push(pv);
            pv = pv + 1;
        }
        let ghost before = positions@;
        shuffle_values(&mut rng, &mut positions);
        proof {
            broadcast use vstd::seq_lib::group_to_multiset_ensures;

            assert(before.no_duplicates());
            before.lemma_multiset_has_no_duplicates();
            assert forall|x: u8| positions@.to_multiset().contains(x) implies positions@.to_multiset().count(x) == 1 by {
                assert(before.to_multiset().contains(x));
            }
            positions@.lemma_multiset_has_no_duplicates_conv();
            assert forall|i: int| 0 <= i < positions@.len() implies #[trigger] positions@[i]
                < 81 by {
                assert(positions@.to_multiset().count(positions@[i]) > 0);
                assert(before.to_multiset().count(positions@[i]) > 0);
                assert(before.contains(positions@[i]));
                let j = choose|j: int| 0 <= j < before.len() && before[j] == positions@[i];
                assert(before[j] < 81);
            }
        }

        let num_positions: usize = clue_count(diff);
        proof {
            crate::grid::lemma_count_true_zero(self.known());
        }
        let mut i: usize = 0;
        while i < num_positions
            invariant
                i <= num_positions,
                num_positions == spec_clue_count(diff),
                num_positions <= 81,
                self.wf(),
                solved@.len() == 81,
                solved_ok(solved@),
                positions@.len() == 81,
                positions@.no_duplicates(),
                forall|j: int| 0 <= j < 81 ==> #[trigger] positions@[j] < 81,
                count_true(self.known()) == i,
                forall|j: int| 0 <= j < i ==> #[trigger] self.known()[positions@[j] as int],
                forall|p: int|
                    0 <= p < 81 && #[trigger] self.known()[p] ==> exists|j: int|
                        0 <= j < i && positions@[j] as int == p,
                forall|p: int|
                    0 <= p < 81 && #[trigger] self.known()[p] ==> self.value_at(p) == solved@[p],
                forall|p: int|
                    0 <= p < 81 && !(#[trigger] self.known()[p]) ==> self.value_at(p) == UNKNOWN,
            decreases num_positions - i,
        {
            let ghost it0 = *self;
            let pos = positions[i];
            let val = solved[pos as usize];
            proof {
                if it0.known()[pos as int] {
                    let j = choose|j: int| 0 <= j < i && positions@[j] as int == pos as int;
                    assert(positions@[j] == positions@[i as int]);
                    assert(false);
                }
            }
            self.set_value(pos, val);
            self.set_known(pos as usize, true);
            proof {
                lemma_count_true_update(it0.known(), pos as int, true);
                assert(self.known() =~= it0.known().update(pos as int, true));
                assert(count_true(self.known()) == i + 1);
                assert forall|j: int| 0 <= j < i + 1 implies #[trigger] self.known()[positions@[j] as int] by {
                    if j < i {
                        assert(it0.known()[positions@[j] as int]);
                    }
                }
                assert forall|p: int|
                    0 <= p < 81 && #[trigger] self.known()[p] implies exists|j: int|
                        0 <= j < i + 1 && positions@[j] as int == p by {
                    if p != pos as int {
                        assert(it0.known()[p]);
                        let j = choose|j: int| 0 <= j < i && positions@[j] as int == p;
                        assert(0 <= j < i + 1 && positions@[j] as int == p);
                    } else {
                        assert(positions@[i as int] as int == p);
                    }
                }
                assert forall|p: int|
                    0 <= p < 81 && #[trigger] self.known()[p] implies self.value_at(p)
                    == solved@[p] by {
                    if p == pos as int {
                        assert(self.value_at(p) == val);
                    } else {
                        assert(self.value_at(p) == it0.value_at(p));
                        assert(it0.known()[p]);
                    }
                }
                assert forall|p: int|
                    0 <= p < 81 && !(#[trigger] self.known()[p]) implies self.value_at(p)
                    == UNKNOWN by {
                    assert(p != pos as int);
                    assert(self.value_at(p) == it0.value_at(p));
                    assert(!it0.known()[p]);
                }
            }
            i = i + 1;
        }
        proof {
            assert forall|p: int, q: int|
                #![trigger self.value_at(p), self.value_at(q)]
                0 <= p < 81 && 0 <= q < 81 && p != q && same_unit(p, q) && self.known()[p]
                    && self.known()[q] implies self.value_at(p) != self.value_at(q) by {
                assert(self.value_at(p) == solved@[p]);
                assert(self.value_at(q) == solved@[q]);
                assert(solved@[p] != solved@[q]);
            }
            assert forall|p: int|
                0 <= p < 81 && #[trigger] self.known()[p] implies 1 <= self.value_at(p)
                <= 9 by {
                assert(self.value_at(p) == solved@[p]);
                assert(1 <= solved@[p] <= 9);
            }
        }
    }

    /// A fresh playable puzzle: an empty board with a difficulty-driven
    /// number of clue positions revealed from a random legal solved board.
    /// Exactly the revealed positions are marked known, every other
    /// position stays unknown, and no two revealed clues in one row,
    /// column or box agree.
    pub fn new(diff: DifficultyMenuOption) -> (g: Grid)
        ensures
            g.wf(),
            count_true(g.known()) == spec_clue_count(diff),
            forall|p: int|
                0 <= p < 81 && #[trigger] g.known()[p] ==> 1 <= g.value_at(p) <= 9,
            forall|p: int|
                0 <= p < 81 && !(#[trigger] g.known()[p]) ==> g.value_at(p) == UNKNOWN,
            forall|p: int, q: int|
                #![trigger g.value_at(p), g.value_at(q)]
                0 <= p < 81 && 0 <= q < 81 && p != q && same_unit(p, q) && g.known()[p]
                    && g.known()[q] ==> g.value_at(p) != g.value_at(q),
    {
        let mut grid = Self::init();
        grid.set_starting_positions(diff);
        grid
    }
}

/// Row `k` of an 81-value board, as a nine-slot sequence.
pub open spec fn row_seq(s: Seq<u8>, k: int) -> Seq<u8> {
    Seq::new(9, |j: int| s[9 * k + j])
}

/// Column `k` of an 81-value board, as a nine-slot sequence.
pub open spec fn col_seq(s: Seq<u8>, k: int) -> Seq<u8> {
    Seq::new(9, |j: int| s[9 * j + k])
}

/// Box `k` of an 81-value board, as a nine-slot sequence in raster order.
pub open spec fn box_seq(s: Seq<u8>, k: int) -> Seq<u8> {
    Seq::new(9, |j: int| s[spec_box_position(k, j)])
}

/// Splitting a legal solved board into its nine rows, nine columns and
/// nine boxes yields 27 complete containers: each holds every digit 1-9.
pub proof fn lemma_solved_units_complete(s: Seq<u8>)
    requires
        solved_ok(s),
    ensures
        forall|k: int| 0 <= k < 9 ==> container_complete(#[trigger] row_seq(s, k)),
        forall|k: int| 0 <= k < 9 ==> container_complete(#[trigger] col_seq(s, k)),
        forall|k: int| 0 <= k < 9 ==> container_complete(#[trigger] box_seq(s, k)),
{
    assert forall|k: int| 0 <= k < 9 implies container_complete(#[trigger] row_seq(s, k)) by {
        let u = row_seq(s, k);
        assert forall|i: int, j: int|
            0 <= i < 9 && 0 <= j < 9 && i != j implies u[i] != u[j] by {
            lemma_fundamental_div_mod_converse(9 * k + i, 9, k, i);
            lemma_fundamental_div_mod_converse(9 * k + j, 9, k, j);
            assert(same_unit(9 * k + i, 9 * k + j));
        }
        lemma_distinct_digits_complete(u);
    }
    assert forall|k: int| 0 <= k < 9 implies container_complete(#[trigger] col_seq(s, k)) by {
        let u = col_seq(s, k);
        assert forall|i: int, j: int|
            0 <= i < 9 && 0 <= j < 9 && i != j implies u[i] != u[j] by {
            lemma_fundamental_div_mod_converse(9 * i + k, 9, i, k);
            lemma_fundamental_div_mod_converse(9 * j + k, 9, j, k);
            assert(same_unit(9 * i + k, 9 * j + k));
        }
        lemma_distinct_digits_complete(u);
    }
    assert forall|k: int| 0 <= k < 9 implies container_complete(#[trigger] box_seq(s, k)) by {
        let u = box_seq(s, k);
        assert forall|i: int, j: int|
            0 <= i < 9 && 0 <= j < 9 && i != j implies u[i] != u[j] by {
            lemma_box_position(k, i);
            lemma_box_position(k, j);
            assert(spec_box_position(k, i) != spec_box_position(k, j));
            assert(same_unit(spec_box_position(k, i), spec_box_position(k, j)));
        }
        assert forall|i: int| 0 <= i < 9 implies 1 <= #[trigger] u[i] <= 9 by {
            lemma_box_position(k, i);
        }
        lemma_distinct_digits_complete(u);
    }
}

/// A well-formed grid whose cells hold a legal solved board passes the
/// win check: every row, column and box container is complete.
pub proof fn lemma_solved_grid_evaluates(g: Grid, s: Seq<u8>)
    requires
        g.wf(),
        solved_ok(s),
        forall|p: int| 0 <= p < 81 ==> #[trigger] g.value_at(p) == s[p],
    ensures
        g.is_solved_grid(),
{
    lemma_solved_units_complete(s);
    assert forall|k: int|
        0 <= k < 9 implies container_complete(#[trigger] g.row_at(k)) && container_complete(
        g.column_at(k),
    ) && container_complete(g.box_at(k)) by {
        crate::grid::grid_unit_lens(g, k);
        assert forall|j: int| 0 <= j < 9 implies #[trigger] g.row_at(k)[j] == row_seq(s, k)[j] by {
            let p = 9 * k + j;
            lemma_fundamental_div_mod_converse(p, 9, k, j);
            assert(g.value_at(p) == g.row_at(k)[j]);
        }
        assert(g.row_at(k) =~= row_seq(s, k));
        assert forall|j: int| 0 <= j < 9 implies #[trigger] g.column_at(k)[j] == col_seq(s, k)[j] by {
            let p = 9 * j + k;
            lemma_fundamental_div_mod_converse(p, 9, j, k);
            assert(g.col_val(p) == g.column_at(k)[j]);
            assert(g.col_val(p) == g.value_at(p));
        }
        assert(g.column_at(k) =~= col_seq(s, k));
        assert forall|j: int| 0 <= j < 9 implies #[trigger] g.box_at(k)[j] == box_seq(s, k)[j] by {
            let p = spec_box_position(k, j);
            lemma_box_position(k, j);
            assert(g.box_val(p) == g.box_at(k)[j]);
            assert(g.box_val(p) == g.value_at(p));
        }
        assert(g.box_at(k) =~= box_seq(s, k));
    }
}

/// Round trip: a board whose clue marks agree with its values (as a
/// freshly generated puzzle's do), saved as a matrix of its values and
/// rebuilt from it, comes back with the same values and the same clue
/// marks.  The two premises on `h` are exactly what `Grid::from_matrix`
/// guarantees of a grid rebuilt from `g`'s values.
pub proof fn lemma_round_trip(g: Grid, h: Grid)
    requires
        forall|p: int| 0 <= p < 81 ==> (#[trigger] g.known()[p] <==> g.value_at(p) != UNKNOWN),
        forall|p: int| 0 <= p < 81 ==> #[trigger] h.value_at(p) == g.value_at(p),
        forall|p: int| 0 <= p < 81 ==> #[trigger] h.known()[p] == (g.value_at(p) != UNKNOWN),
    ensures
        h.values() == g.values(),
        h.known() == g.known(),
{
    assert(h.values() =~= g.values());
    assert forall|p: int| 0 <= p < 81 implies h.known()[p] == g.known()[p] by {
        assert(h.value_at(p) == g.value_at(p));
    }
    assert(h.known() =~= g.known());
}

} // verus!
