//! A `Container` is one row, column or 3x3 box of the board: nine slots,
//! each holding a digit 1-9 or the unknown sentinel.

use vstd::prelude::*;
use vstd::seq_lib::*;
use vstd::set_lib::lemma_subset_equality;

verus! {

/// Sentinel held by a slot that has not been filled in: the ASCII code of
/// `?`, distinct from every digit 1-9.
pub const UNKNOWN: u8 = 63;

/// The semantic role a `Container` plays on the board.  Rows, columns and
/// boxes share one representation and differ only in this tag.
#[derive(Clone, Copy, PartialEq, Eq, Structural, Debug)]
pub enum ContainerKind {
    Row,
    Column,
    Box,
}

/// Some slot of `s` holds exactly `v`.
pub open spec fn value_in(s: Seq<u8>, v: u8) -> bool {
    exists|i: int| 0 <= i < s.len() && s[i] == v
}

/// A container's slots form a valid, finished unit: no slot is unknown and
/// every digit 1-9 occurs.  With nine slots this forces each digit to occur
/// exactly once.
pub open spec fn container_complete(s: Seq<u8>) -> bool {
    &&& !value_in(s, UNKNOWN)
    &&& forall|v: u8| 1 <= v <= 9 ==> value_in(s, v)
}

/// No digit occurs twice among the slots; empty (unknown) slots may
/// repeat freely.
pub open spec fn no_digit_dups(s: Seq<u8>) -> bool {
    forall|a: int, b: int|
        0 <= a < s.len() && 0 <= b < s.len() && a != b && 1 <= #[trigger] s[a] <= 9 ==> s[a]
            != #[trigger] s[b]
}

/// Writing a digit into a unit that does not yet hold it anywhere cannot
/// create a duplicate digit.
pub proof fn lemma_no_dups_update(s: Seq<u8>, i: int, v: u8)
    requires
        0 <= i < s.len(),
        1 <= v <= 9,
        !value_in(s, v),
        no_digit_dups(s),
    ensures
        no_digit_dups(s.update(i, v)),
{
    let t = s.update(i, v);
    assert forall|a: int, b: int|
        0 <= a < t.len() && 0 <= b < t.len() && a != b && 1 <= #[trigger] t[a] <= 9 implies t[a]
        != #[trigger] t[b] by {
        if a == i {
            assert(s[b] != v);
        } else if b == i {
            assert(s[a] != v);
        } else {
            assert(t[a] == s[a] && t[b] == s[b]);
        }
    }
}

/// Nine slots holding all nine digits leave no room for an unknown:
/// the nine digits need nine pairwise-distinct slots, which is all of
/// them.
pub proof fn lemma_all_digits_complete(s: Seq<u8>)
    requires
        s.len() == 9,
        forall|v: u8| 1 <= v <= 9 ==> value_in(s, v),
    ensures
        container_complete(s),
{
    broadcast use seq_to_set_is_finite;

    let w = Seq::new(9, |k: int| choose|i: int| 0 <= i < 9 && s[i] == (k + 1) as u8);
    assert forall|k: int| 0 <= k < 9 implies 0 <= #[trigger] w[k] < 9 && s[w[k]] == (k
        + 1) as u8 by {
        assert(value_in(s, (k + 1) as u8));
        let i = choose|i: int| 0 <= i < s.len() && s[i] == (k + 1) as u8;
        assert(0 <= i < 9 && s[i] == (k + 1) as u8);
    }
    assert(w.no_duplicates());
    w.unique_seq_to_set();
    if value_in(s, UNKNOWN) {
        let i0 = choose|i: int| 0 <= i < s.len() && s[i] == UNKNOWN;
        let indices: Seq<int> = seq![0int, 1int, 2int, 3int, 4int, 5int, 6int, 7int, 8int];
        assert(indices.no_duplicates());
        indices.unique_seq_to_set();
        assert(w.to_set().subset_of(indices.to_set().remove(i0))) by {
            assert forall|x: int| w.to_set().contains(x) implies indices.to_set().remove(
                i0,
            ).contains(x) by {
                let k = choose|k: int| 0 <= k < w.len() && w[k] == x;
                assert(s[x] == (k + 1) as u8);
                assert(x != i0);
                assert(indices[x] == x);
                assert(indices.contains(x));
            }
        }
        vstd::set_lib::lemma_len_subset(w.to_set(), indices.to_set().remove(i0));
        assert(indices.to_set().remove(i0).len() == 8) by {
            assert(indices.to_set().contains(i0)) by {
                assert(indices[i0] == i0);
            }
        }
        assert(false);
    }
}

/// Nine slots holding digits 1-9 with no repeats must hold every digit:
/// pairwise-distinct slot values form a nine-element subset of the nine
/// digits, hence all of them.
pub proof fn lemma_distinct_digits_complete(s: Seq<u8>)
    requires
        s.len() == 9,
        forall|i: int| 0 <= i < 9 ==> 1 <= #[trigger] s[i] <= 9,
        forall|i: int, j: int| 0 <= i < 9 && 0 <= j < 9 && i != j ==> s[i] != s[j],
    ensures
        container_complete(s),
{
    broadcast use seq_to_set_is_finite;

    let digits: Seq<u8> = seq![1u8, 2u8, 3u8, 4u8, 5u8, 6u8, 7u8, 8u8, 9u8];
    assert(digits.no_duplicates());
    digits.unique_seq_to_set();
    assert(s.no_duplicates());
    s.unique_seq_to_set();
    assert(s.to_set().subset_of(digits.to_set())) by {
        assert forall|x: u8| s.to_set().contains(x) implies digits.to_set().contains(x) by {
            let i = choose|i: int| 0 <= i < s.len() && s[i] == x;
            assert(digits[x - 1] == x);
            assert(digits.contains(x));
        }
    }
    lemma_subset_equality(s.to_set(), digits.to_set());
    assert forall|v: u8| 1 <= v <= 9 implies value_in(s, v) by {
        assert(digits[v - 1] == v);
        assert(digits.contains(v));
        assert(digits.to_set().contains(v));
        assert(s.contains(v));
        let i = choose|i: int| 0 <= i < s.len() && s[i] == v;
        assert(s[i] == v);
    }
    assert(!value_in(s, UNKNOWN));
}

/// Nine slots for one row, column or box.
#[derive(Clone, Copy)]
pub struct Container {
    kind: ContainerKind,
    arr: [u8; 9],
}

/// Every container has exactly nine slots.
pub broadcast proof fn container_len(c: Container)
    ensures
        (#[trigger] c@).len() == 9,
{
}

impl View for Container {
    type V = Seq<u8>;

    closed spec fn view(&self) -> Seq<u8> {
        self.arr@
    }
}

impl Container {
    /// The role this container plays on the board.
    pub closed spec fn kind(self) -> ContainerKind {
        self.kind
    }

    /// A container holding the given nine slot values.
    pub fn new(kind: ContainerKind, arr: [u8; 9]) -> (c: Container)
        ensures
            c@ == arr@,
            c.kind() == kind,
    {
        Container { kind, arr }
    }

    /// The value at one slot.
    pub fn at(&self, index: usize) -> (v: u8)
        requires
            index < 9,
        ensures
            v == self@[index as int],
    {
        self.arr[index]
    }

    /// Whether any slot currently holds exactly `value`.
    pub fn value_exists(&self, value: u8) -> (r: bool)
        ensures
            r == value_in(self@, value),
    {
        let mut found: bool = false;
        let mut i: usize = 0;
        while i < 9
            invariant
                i <= 9,
                found == exists|j: int| 0 <= j < i && self@[j] == value,
            decreases 9 - i,
        {
            if self.arr[i] == value {
                found = true;
                assert(self@[i as int] == value);
            }
            i = i + 1;
        }
        found
    }

    /// Overwrites one slot.  Sudoku legality is the caller's concern, not
    /// this container's.
    pub fn set_value(&mut self, index: usize, value: u8)
        requires
            index < 9,
        ensures
            final(self)@ == old(self)@.update(index as int, value),
            final(self).kind() == old(self).kind(),
    {
        self.arr[index] = value;
    }

    /// Whether the nine slots form a finished, valid unit.
    pub fn evaluate(&self) -> (r: bool)
        ensures
            r == container_complete(self@),
    {
        let mut completed: bool = !self.value_exists(UNKNOWN);
        let mut v: u8 = 1;
        while v <= 9
            invariant
                1 <= v <= 10,
                completed == (!value_in(self@, UNKNOWN) && forall|w: u8|
                    1 <= w < v ==> value_in(self@, w)),
            decreases 10 - v,
        {
            let present = self.value_exists(v);
            completed = completed && present;
            v = v + 1;
        }
        completed
    }
}

} // verus!
