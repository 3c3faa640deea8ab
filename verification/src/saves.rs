//! The save-file encoding: a saved game is two flat files, one with the
//! 27x27 display-matrix values and one with the per-cell color codes.
//! Both are fixed-shape comma-separated text: 27 lines, each line 27
//! cells joined by commas and closed by a newline.  Values are written as
//! three decimal digits, colors as their one-character code.

use vstd::prelude::*;
use vstd::arithmetic::div_mod::{lemma_fundamental_div_mod, lemma_fundamental_div_mod_converse};
use crate::display::{spec_color_code, spec_color_of_code, color_code, color_of_code, ColorPair};

verus! {

/// Offset of byte `o` of cell (i, j) in the numeric file: cells take
/// three digits and a separator, lines are 108 bytes.
pub open spec fn npos(i: int, j: int, o: int) -> int {
    108 * i + 4 * j + o
}

/// Offset of byte `o` of cell (i, j) in the color file: cells take one
/// code character and a separator, lines are 54 bytes.
pub open spec fn cpos(i: int, j: int, o: int) -> int {
    54 * i + 2 * j + o
}

/// Byte `k` of the numeric save file of matrix `m`.
pub open spec fn spec_numeric_byte(m: [[u8; 27]; 27], k: int) -> u8 {
    let i = k / 108;
    let r = k % 108;
    let j = r / 4;
    let o = r % 4;
    if o == 3 {
        if j == 26 {
            10
        } else {
            44
        }
    } else {
        let v = m@[i]@[j];
        if o == 0 {
            (48 + v / 100) as u8
        } else if o == 1 {
            (48 + (v / 10) % 10) as u8
        } else {
            (48 + v % 10) as u8
        }
    }
}

/// The numeric save file of a display matrix: 2916 bytes.
pub open spec fn spec_numeric_file(m: [[u8; 27]; 27]) -> Seq<u8> {
    Seq::new(2916, |k: int| spec_numeric_byte(m, k))
}

/// Byte `k` of the color save file of matrix `m`.
pub open spec fn spec_color_byte(m: [[ColorPair; 27]; 27], k: int) -> u8 {
    let i = k / 54;
    let r = k % 54;
    let j = r / 2;
    let o = r % 2;
    if o == 1 {
        if j == 26 {
            10
        } else {
            44
        }
    } else {
        spec_color_code(m@[i]@[j])
    }
}

/// The color save file of a color matrix: 1458 bytes.
pub open spec fn spec_color_file(m: [[ColorPair; 27]; 27]) -> Seq<u8> {
    Seq::new(1458, |k: int| spec_color_byte(m, k))
}

/// Locates byte `npos(i, j, o)` inside the numeric file layout.
proof fn lemma_numeric_index(i: int, j: int, o: int)
    requires
        0 <= i < 27,
        0 <= j < 27,
        0 <= o < 4,
    ensures
        0 <= npos(i, j, o) < 2916,
        npos(i, j, o) / 108 == i,
        npos(i, j, o) % 108 == 4 * j + o,
        (4 * j + o) / 4 == j,
        (4 * j + o) % 4 == o,
{
    lemma_fundamental_div_mod_converse(npos(i, j, o), 108, i, 4 * j + o);
    lemma_fundamental_div_mod_converse(4 * j + o, 4, j, o);
}

/// Locates byte `cpos(i, j, o)` inside the color file layout.
proof fn lemma_color_index(i: int, j: int, o: int)
    requires
        0 <= i < 27,
        0 <= j < 27,
        0 <= o < 2,
    ensures
        0 <= cpos(i, j, o) < 1458,
        cpos(i, j, o) / 54 == i,
        cpos(i, j, o) % 54 == 2 * j + o,
        (2 * j + o) / 2 == j,
        (2 * j + o) % 2 == o,
{
    lemma_fundamental_div_mod_converse(cpos(i, j, o), 54, i, 2 * j + o);
    lemma_fundamental_div_mod_converse(2 * j + o, 2, j, o);
}

/// Renders the numeric half of a saved game.
pub fn render_numeric_file(m: &[[u8; 27]; 27]) -> (out: Vec<u8>)
    ensures
        out@ == spec_numeric_file(*m),
{
    let mut out: Vec<u8> = Vec::new();
    let mut i: usize = 0;
    while i < 27
        invariant
            i <= 27,
            out@.len() == 108 * i,
            forall|k: int| 0 <= k < out@.len() ==> #[trigger] out@[k] == spec_numeric_byte(*m, k),
        decreases 27 - i,
    {
        let mut j: usize = 0;
        while j < 27
            invariant
                i < 27,
                j <= 27,
                out@.len() == 108 * i + 4 * j,
                forall|k: int|
                    0 <= k < out@.len() ==> #[trigger] out@[k] == spec_numeric_byte(*m, k),
            decreases 27 - j,
        {
            let row = m[i];
            let v = row[j];
            proof {
                lemma_numeric_index(i as int, j as int, 0);
                lemma_numeric_index(i as int, j as int, 1);
                lemma_numeric_index(i as int, j as int, 2);
                lemma_numeric_index(i as int, j as int, 3);
            }
            out.push(48 + v / 100);
            out.push(48 + (v / 10) % 10);
            out.push(48 + v % 10);
            if j == 26 {
                out.push(10);
            } else {
                out.push(44);
            }
            j = j + 1;
        }
        i = i + 1;
    }
    proof {
        assert(out@ =~= spec_numeric_file(*m));
    }
    out
}

/// Renders the color half of a saved game.
pub fn render_color_file(m: &[[ColorPair; 27]; 27]) -> (out: Vec<u8>)
    ensures
        out@ == spec_color_file(*m),
{
    let mut out: Vec<u8> = Vec::new();
    let mut i: usize = 0;
    while i < 27
        invariant
            i <= 27,
            out@.len() == 54 * i,
            forall|k: int| 0 <= k < out@.len() ==> #[trigger] out@[k] == spec_color_byte(*m, k),
        decreases 27 - i,
    {
        let mut j: usize = 0;
        while j < 27
            invariant
                i < 27,
                j <= 27,
                out@.len() == 54 * i + 2 * j,
                forall|k: int|
                    0 <= k < out@.len() ==> #[trigger] out@[k] == spec_color_byte(*m, k),
            decreases 27 - j,
        {
            let row = m[i];
            let c = row[j];
            proof {
                lemma_color_index(i as int, j as int, 0);
                lemma_color_index(i as int, j as int, 1);
            }
            out.push(color_code(c));
            if j == 26 {
                out.push(10);
            } else {
                out.push(44);
            }
            j = j + 1;
        }
        i = i + 1;
    }
    proof {
        assert(out@ =~= spec_color_file(*m));
    }
    out
}

/// Reads back the numeric half of a saved game.  Exactly the outputs of
/// [`render_numeric_file`] are accepted: a rejected input matches no
/// matrix at all, so a saved file either loads to precisely the matrix it
/// was written from or is reported as corrupt.
pub fn parse_numeric_file(data: &Vec<u8>) -> (r: Option<[[u8; 27]; 27]>)
    ensures
        match r {
            Some(m) => data@ == spec_numeric_file(m),
            None => forall|w: [[u8; 27]; 27]| data@ != spec_numeric_file(w),
        },
{
    if data.len() != 2916 {
        proof {
            assert forall|w: [[u8; 27]; 27]| data@ != spec_numeric_file(w) by {
                assert(spec_numeric_file(w).len() == 2916);
            }
        }
        return None;
    }
    let mut m: [[u8; 27]; 27] = [[0; 27]; 27];
    let mut i: usize = 0;
    while i < 27
        invariant
            i <= 27,
            data@.len() == 2916,
            forall|a: int, b: int, o: int|
                0 <= a < i && 0 <= b < 27 && 0 <= o < 4 ==> data@[#[trigger] npos(a, b, o)]
                    == spec_numeric_byte(m, npos(a, b, o)),
        decreases 27 - i,
    {
        let mut row: [u8; 27] = [0; 27];
        let ghost m_entry = m;
        let mut j: usize = 0;
        while j < 27
            invariant
                i < 27,
                j <= 27,
                data@.len() == 2916,
                m == m_entry,
                forall|a: int, b: int, o: int|
                    0 <= a < i && 0 <= b < 27 && 0 <= o < 4 ==> data@[#[trigger] npos(a, b, o)]
                        == spec_numeric_byte(m_entry, npos(a, b, o)),
                forall|b: int|
                    0 <= b < j ==> data@[#[trigger] npos(i as int, b, 3)] == (if b == 26 {
                        10u8
                    } else {
                        44u8
                    }),
                forall|b: int|
                    0 <= b < j ==> data@[#[trigger] npos(i as int, b, 0)] == (48 + row@[b]
                        / 100) as u8,
                forall|b: int|
                    0 <= b < j ==> data@[#[trigger] npos(i as int, b, 1)] == (48 + (row@[b] / 10)
                        % 10) as u8,
                forall|b: int|
                    0 <= b < j ==> data@[#[trigger] npos(i as int, b, 2)] == (48 + row@[b]
                        % 10) as u8,
            decreases 27 - j,
        {
            let base = 108 * i + 4 * j;
            proof {
                lemma_numeric_index(i as int, j as int, 0);
                lemma_numeric_index(i as int, j as int, 1);
                lemma_numeric_index(i as int, j as int, 2);
                lemma_numeric_index(i as int, j as int, 3);
            }
            let d0 = data[base];
            let d1 = data[base + 1];
            let d2 = data[base + 2];
            let sep = data[base + 3];
            let expected_sep: u8 = if j == 26 {
                10
            } else {
                44
            };
            if d0 < 48 || d0 > 57 || d1 < 48 || d1 > 57 || d2 < 48 || d2 > 57 || sep
                != expected_sep {
                proof {
                    assert forall|w: [[u8; 27]; 27]| data@ != spec_numeric_file(w) by {
                        if data@ == spec_numeric_file(w) {
                            assert(data@[npos(i as int, j as int, 0)] == spec_numeric_byte(
                                w,
                                npos(i as int, j as int, 0),
                            ));
                            assert(data@[npos(i as int, j as int, 1)] == spec_numeric_byte(
                                w,
                                npos(i as int, j as int, 1),
                            ));
                            assert(data@[npos(i as int, j as int, 2)] == spec_numeric_byte(
                                w,
                                npos(i as int, j as int, 2),
                            ));
                            assert(data@[npos(i as int, j as int, 3)] == spec_numeric_byte(
                                w,
                                npos(i as int, j as int, 3),
                            ));
                            assert(w@[i as int]@[j as int] / 100 <= 9);
                            assert(false);
                        }
                    }
                }
                return None;
            }
            let value: usize = (d0 - 48) as usize * 100 + (d1 - 48) as usize * 10 + (d2
                - 48) as usize;
            if value > 255 {
                proof {
                    assert forall|w: [[u8; 27]; 27]| data@ != spec_numeric_file(w) by {
                        if data@ == spec_numeric_file(w) {
                            let v = w@[i as int]@[j as int];
                            assert(data@[npos(i as int, j as int, 0)] == spec_numeric_byte(
                                w,
                                npos(i as int, j as int, 0),
                            ));
                            assert(data@[npos(i as int, j as int, 1)] == spec_numeric_byte(
                                w,
                                npos(i as int, j as int, 1),
                            ));
                            assert(data@[npos(i as int, j as int, 2)] == spec_numeric_byte(
                                w,
                                npos(i as int, j as int, 2),
                            ));
                            assert(v == 100 * (v / 100) + 10 * ((v / 10) % 10) + v % 10) by {
                                lemma_fundamental_div_mod(v as int, 10);
                                lemma_fundamental_div_mod(v as int / 10, 10);
                                lemma_fundamental_div_mod(v as int, 100);
                                assert(v / 100 == (v / 10) / 10) by {
                                    lemma_fundamental_div_mod_converse(
                                        v as int,
                                        100,
                                        (v as int / 10) / 10,
                                        10 * ((v as int / 10) % 10) + v as int % 10,
                                    );
                                }
                            }
                            assert(false);
                        }
                    }
                }
                return None;
            }
            row[j] = value as u8;
            proof {
                let v = row@[j as int] as int;
                assert(v == 100 * ((d0 - 48) as int) + 10 * ((d1 - 48) as int) + ((d2
                    - 48) as int));
                lemma_fundamental_div_mod_converse(
                    v,
                    10,
                    10 * ((d0 - 48) as int) + ((d1 - 48) as int),
                    (d2 - 48) as int,
                );
                lemma_fundamental_div_mod_converse(
                    v / 10,
                    10,
                    (d0 - 48) as int,
                    (d1 - 48) as int,
                );
                lemma_fundamental_div_mod_converse(
                    v,
                    100,
                    (d0 - 48) as int,
                    10 * ((d1 - 48) as int) + ((d2 - 48) as int),
                );
            }
            j = j + 1;
        }
        m[i] = row;
        proof {
            assert forall|a: int, b: int, o: int|
                0 <= a < i + 1 && 0 <= b < 27 && 0 <= o < 4 implies data@[#[trigger] npos(
                a,
                b,
                o,
            )] == spec_numeric_byte(m, npos(a, b, o)) by {
                lemma_numeric_index(a, b, o);
                if a < i {
                    assert(data@[npos(a, b, o)] == spec_numeric_byte(m_entry, npos(a, b, o)));
                    assert(m@[a] == m_entry@[a]);
                } else {
                    assert(m@[a] == row);
                }
            }
        }
        i = i + 1;
    }
    proof {
        assert forall|k: int| 0 <= k < 2916 implies data@[k] == spec_numeric_byte(m, k) by {
            let a = k / 108;
            let b = (k % 108) / 4;
            let o = (k % 108) % 4;
            lemma_fundamental_div_mod(k, 108);
            lemma_fundamental_div_mod(k % 108, 4);
            assert(k == npos(a, b, o));
            assert(0 <= a < 27 && 0 <= b < 27 && 0 <= o < 4);
            assert(data@[npos(a, b, o)] == spec_numeric_byte(m, npos(a, b, o)));
        }
        assert(data@ =~= spec_numeric_file(m));
    }
    Some(m)
}

/// Reads back the color half of a saved game.  The file shape must be
/// exactly what [`render_color_file`] writes; each code character decodes
/// on its own, so a rejected input matches no color matrix at all.
pub fn parse_color_file(data: &Vec<u8>) -> (r: Option<[[ColorPair; 27]; 27]>)
    ensures
        match r {
            Some(m) => {
                &&& forall|i: int, j: int|
                    0 <= i < 27 && 0 <= j < 27 ==> #[trigger] m@[i]@[j] == spec_color_of_code(
                        data@[cpos(i, j, 0)],
                    )
                &&& data@.len() == 1458
                &&& forall|i: int, j: int|
                    0 <= i < 27 && 0 <= j < 27 ==> data@[#[trigger] cpos(i, j, 1)] == (if j == 26 {
                        10u8
                    } else {
                        44u8
                    })
            },
            None => forall|w: [[ColorPair; 27]; 27]| data@ != spec_color_file(w),
        },
{
    if data.len() != 1458 {
        proof {
            assert forall|w: [[ColorPair; 27]; 27]| data@ != spec_color_file(w) by {
                assert(spec_color_file(w).len() == 1458);
            }
        }
        return None;
    }
    let mut m: [[ColorPair; 27]; 27] = [[ColorPair::Default; 27]; 27];
    let mut i: usize = 0;
    while i < 27
        invariant
            i <= 27,
            data@.len() == 1458,
            forall|a: int, b: int|
                0 <= a < i && 0 <= b < 27 ==> #[trigger] m@[a]@[b] == spec_color_of_code(
                    data@[cpos(a, b, 0)],
                ),
            forall|a: int, b: int|
                0 <= a < i && 0 <= b < 27 ==> data@[#[trigger] cpos(a, b, 1)] == (if b == 26 {
                    10u8
                } else {
                    44u8
                }),
        decreases 27 - i,
    {
        let mut row: [ColorPair; 27] = [ColorPair::Default; 27];
        let ghost m_entry = m;
        let mut j: usize = 0;
        while j < 27
            invariant
                i < 27,
                j <= 27,
                data@.len() == 1458,
                m == m_entry,
                forall|a: int, b: int|
                    0 <= a < i && 0 <= b < 27 ==> #[trigger] m_entry@[a]@[b] == spec_color_of_code(
                        data@[cpos(a, b, 0)],
                    ),
                forall|a: int, b: int|
                    0 <= a < i && 0 <= b < 27 ==> data@[#[trigger] cpos(a, b, 1)] == (if b == 26 {
                        10u8
                    } else {
                        44u8
                    }),
                forall|b: int|
                    0 <= b < j ==> #[trigger] row@[b] == spec_color_of_code(
                        data@[cpos(i as int, b, 0)],
                    ),
                forall|b: int|
                    0 <= b < j ==> data@[#[trigger] cpos(i as int, b, 1)] == (if b == 26 {
                        10u8
                    } else {
                        44u8
                    }),
            decreases 27 - j,
        {
            let base = 54 * i + 2 * j;
            proof {
                lemma_color_index(i as int, j as int, 0);
                lemma_color_index(i as int, j as int, 1);
            }
            let code = data[base];
            let sep = data[base + 1];
            let expected_sep: u8 = if j == 26 {
                10
            } else {
                44
            };
            if sep != expected_sep {
                proof {
                    assert forall|w: [[ColorPair; 27]; 27]| data@ != spec_color_file(w) by {
                        if data@ == spec_color_file(w) {
                            assert(data@[cpos(i as int, j as int, 1)] == spec_color_byte(
                                w,
                                cpos(i as int, j as int, 1),
                            ));
                            assert(false);
                        }
                    }
                }
                return None;
            }
            row[j] = color_of_code(code);
            j = j + 1;
        }
        m[i] = row;
        proof {
            assert forall|a: int, b: int|
                0 <= a < i + 1 && 0 <= b < 27 implies #[trigger] m@[a]@[b] == spec_color_of_code(
                data@[cpos(a, b, 0)],
            ) by {
                if a < i {
                    assert(m@[a] == m_entry@[a]);
                    assert(m_entry@[a]@[b] == spec_color_of_code(data@[cpos(a, b, 0)]));
                } else {
                    assert(m@[a] == row);
                }
            }
        }
        i = i + 1;
    }
    Some(m)
}

/// Round trip for the color file: rendering a color matrix and reading
/// it back restores every color except the never-saved menu highlight,
/// which comes back as the default color.
pub proof fn lemma_color_file_round_trip(m: [[ColorPair; 27]; 27], i: int, j: int)
    requires
        0 <= i < 27,
        0 <= j < 27,
    ensures
        spec_color_file(m).len() == 1458,
        spec_color_of_code(spec_color_file(m)[cpos(i, j, 0)]) == (if m@[i]@[j]
            == ColorPair::MenuSelection {
            ColorPair::Default
        } else {
            m@[i]@[j]
        }),
{
    lemma_color_index(i, j, 0);
    crate::display::lemma_color_code_round_trip(m@[i]@[j]);
}

} // verus!
