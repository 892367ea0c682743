//! General laws of the DSL, stated once and proved for every input
//! they speak of.
//!
//! `Identity` changes nothing; a primitive composed with its declared
//! inverse restores the grid it was given, except on the inputs where
//! the pair genuinely loses information: rotations and transposition
//! need a grid without zero-width rows, a color swap needs the target
//! color absent, and inversion needs a two-valued grid with a clear
//! cell (or no cells at all). Determinism of `apply` is the ensures
//! clause of `Prim::apply` itself: the result equals `prim_apply_s`
//! of the arguments, a mathematical function.

use vstd::prelude::*;
use crate::grid::{wf, rows_of, cols_of, mk_grid};
use crate::dsl::{Prim, prim_apply_s};
use crate::bidir::inverse_s;
use crate::model::{
    rotate_cw_s, rotate_ccw_s, rotate180_s, flip_h_s, flip_v_s, transpose_s, replace_color_s,
    invert_s, invert_max_s, grid_max, row_max,
};

verus! {

/// The identity program returns its input unchanged.
pub proof fn lemma_identity_apply(s: Seq<Seq<u8>>)
    ensures
        prim_apply_s(Prim::Identity, s) == s,
{
}

/// A grid without zero-width rows (rotations of degenerate grids
/// collapse them, so the round trips below exclude them).
pub open spec fn proper(s: Seq<Seq<u8>>) -> bool {
    rows_of(s) == 0 || cols_of(s) > 0
}

/// Each rotation undoes the other on proper grids.
pub proof fn lemma_rotate_round_trip(s: Seq<Seq<u8>>)
    requires
        wf(s),
        proper(s),
    ensures
        rotate_ccw_s(rotate_cw_s(s)) =~~= s,
        rotate_cw_s(rotate_ccw_s(s)) =~~= s,
        transpose_s(transpose_s(s)) =~~= s,
        rotate180_s(rotate180_s(s)) =~~= s,
{
    let t = rotate_cw_s(s);
    assert(rotate_ccw_s(rotate_cw_s(s)) =~~= s);
    assert(rotate_cw_s(rotate_ccw_s(s)) =~~= s);
    assert(transpose_s(transpose_s(s)) =~~= s);
    let u = rotate_cw_s(rotate_cw_s(s));
    assert(rotate180_s(rotate180_s(s)) == rotate_cw_s(rotate_cw_s(u)));
    assert(rotate_cw_s(rotate_cw_s(u)) =~~= s);
}

/// Each flip undoes itself on any well-formed grid.
pub proof fn lemma_flip_round_trip(s: Seq<Seq<u8>>)
    requires
        wf(s),
    ensures
        flip_h_s(flip_h_s(s)) =~~= s,
        flip_v_s(flip_v_s(s)) =~~= s,
{
}

/// Swapping colors back restores the grid when the target color was
/// absent (a grid already holding the target color keeps those cells
/// under the reverse swap, so such inputs are excluded).
pub proof fn lemma_replace_color_round_trip(s: Seq<Seq<u8>>, a: u8, b: u8)
    requires
        wf(s),
        a == b || forall|r: int, c: int|
            0 <= r < rows_of(s) && 0 <= c < cols_of(s) ==> #[trigger] s[r][c] != b,
    ensures
        replace_color_s(replace_color_s(s, a, b), b, a) =~~= s,
{
}

/// The grid holds only clear cells and its own maximum.
pub open spec fn two_valued(s: Seq<Seq<u8>>) -> bool {
    forall|r: int, c: int|
        0 <= r < rows_of(s) && 0 <= c < cols_of(s) ==> #[trigger] s[r][c] == 0 || s[r][c]
            == invert_max_s(s)
}

/// Some cell is clear.
pub open spec fn has_zero(s: Seq<Seq<u8>>) -> bool {
    exists|r: int, c: int|
        0 <= r < rows_of(s) && 0 <= c < cols_of(s) && #[trigger] s[r][c] == 0
}

/// The grid maximum never exceeds a bound that every cell obeys, and
/// is attained by some cell when one is nonzero.
proof fn lemma_grid_max_le(s: Seq<Seq<u8>>, m: u8, n: int)
    requires
        0 <= n <= rows_of(s),
        forall|r: int, c: int|
            0 <= r < rows_of(s) && 0 <= c < s[r].len() ==> (#[trigger] s[r][c]) <= m,
    ensures
        grid_max(s, n) <= m || grid_max(s, n) == 0,
    decreases n,
{
    if n > 0 {
        lemma_grid_max_le(s, m, n - 1);
        lemma_row_max_le(s, s[n - 1], n - 1, m, s[n - 1].len() as int);
    }
}

proof fn lemma_row_max_le(s: Seq<Seq<u8>>, row: Seq<u8>, ri: int, m: u8, n: int)
    requires
        0 <= ri < rows_of(s),
        row == s[ri],
        0 <= n <= row.len(),
        forall|r: int, c: int|
            0 <= r < rows_of(s) && 0 <= c < s[r].len() ==> (#[trigger] s[r][c]) <= m,
    ensures
        row_max(row, n) <= m || row_max(row, n) == 0,
    decreases n,
{
    if n > 0 {
        lemma_row_max_le(s, row, ri, m, n - 1);
        assert(s[ri][n - 1] <= m);
    }
}

/// Every cell is bounded by the grid maximum.
proof fn lemma_grid_max_ge(s: Seq<Seq<u8>>, r: int, c: int, n: int)
    requires
        0 <= r < n <= rows_of(s),
        0 <= c < s[r].len(),
    ensures
        s[r][c] <= grid_max(s, n),
    decreases n,
{
    if r < n - 1 {
        lemma_grid_max_ge(s, r, c, n - 1);
    } else {
        lemma_row_max_ge(s[n - 1], c, s[n - 1].len() as int);
    }
}

proof fn lemma_row_max_ge(row: Seq<u8>, c: int, n: int)
    requires
        0 <= c < n <= row.len(),
    ensures
        row[c] <= row_max(row, n),
    decreases n,
{
    if c < n - 1 {
        lemma_row_max_ge(row, c, n - 1);
    }
}

/// Inverting twice restores a two-valued grid that has a clear cell
/// or no cells at all; other grids genuinely lose information (all
/// cells collapse to clear), so they are excluded.
pub proof fn lemma_invert_round_trip(s: Seq<Seq<u8>>)
    requires
        wf(s),
        two_valued(s),
        has_zero(s) || rows_of(s) == 0 || cols_of(s) == 0,
    ensures
        invert_s(invert_s(s)) =~~= s,
{
    let m = invert_max_s(s);
    let t = invert_s(s);
    if rows_of(s) == 0 || cols_of(s) == 0 {
        assert(invert_s(invert_s(s)) =~~= s);
    } else {
        let n = rows_of(s) as int;
        assert forall|r: int, c: int|
            0 <= r < rows_of(s) && 0 <= c < s[r].len() implies (#[trigger] s[r][c]) <= m by {
            assert(s[r].len() == cols_of(s));
            lemma_grid_max_ge(s, r, c, n);
        }
        if m == 0 {
            // every cell is clear, and stays clear through both inversions
            assert forall|r: int, c: int|
                0 <= r < rows_of(s) && 0 <= c < cols_of(s) implies #[trigger] s[r][c] == 0 by {}
            assert(rows_of(t) == rows_of(s) && cols_of(t) == cols_of(s));
            assert forall|r: int, c: int|
                0 <= r < rows_of(t) && 0 <= c < t[r].len() implies (#[trigger] t[r][c]) <= 0 by {
                assert(t[r][c] == (if s[r][c] == 0 {
                    m
                } else {
                    0u8
                }));
            }
            lemma_grid_max_le(t, 0, rows_of(t) as int);
            assert(invert_max_s(t) == 0);
            assert(invert_s(invert_s(s)) =~~= s);
        } else {
            // the clear witness carries the maximum into the inverted grid
            let (zr, zc) = choose|r: int, c: int|
                0 <= r < rows_of(s) && 0 <= c < cols_of(s) && #[trigger] s[r][c] == 0;
            assert(t[zr][zc] == m);
            assert(rows_of(t) == rows_of(s) && cols_of(t) == cols_of(s));
            assert forall|r: int, c: int|
                0 <= r < rows_of(t) && 0 <= c < t[r].len() implies (#[trigger] t[r][c]) <= m by {
                assert(t[r][c] == (if s[r][c] == 0 {
                    m
                } else {
                    0u8
                }));
            }
            lemma_grid_max_le(t, m, rows_of(t) as int);
            assert(t[zr].len() == cols_of(t));
            lemma_grid_max_ge(t, zr, zc, rows_of(t) as int);
            assert(grid_max(t, rows_of(t) as int) == m);
            assert(invert_max_s(t) == m);
            assert(invert_s(invert_s(s)) =~~= s);
        }
    }
}

/// The round-trip law over the declared inverses: applying a
/// primitive and then its declared inverse restores the grid, on the
/// inputs stated above for each family.
pub proof fn lemma_inverse_round_trip(p: Prim, q: Prim, s: Seq<Seq<u8>>)
    requires
        wf(s),
        inverse_s(p) == Some(q),
        p matches Prim::ReplaceColor(a, b) ==> (a == b || forall|r: int, c: int|
            0 <= r < rows_of(s) && 0 <= c < cols_of(s) ==> #[trigger] s[r][c] != b),
        (p is RotateCW || p is RotateCCW || p is Rotate180 || p is Transpose) ==> proper(s),
        p is Invert ==> two_valued(s) && (has_zero(s) || rows_of(s) == 0 || cols_of(s) == 0),
    ensures
        prim_apply_s(q, prim_apply_s(p, s)) =~~= s,
{
    match p {
        Prim::Identity => {},
        Prim::RotateCW => {
            lemma_rotate_round_trip(s);
        },
        Prim::RotateCCW => {
            lemma_rotate_round_trip(s);
        },
        Prim::Rotate180 => {
            lemma_rotate_round_trip(s);
        },
        Prim::Transpose => {
            lemma_rotate_round_trip(s);
        },
        Prim::FlipH => {
            lemma_flip_round_trip(s);
        },
        Prim::FlipV => {
            lemma_flip_round_trip(s);
        },
        Prim::Invert => {
            lemma_invert_round_trip(s);
        },
        Prim::ReplaceColor(a, b) => {
            lemma_replace_color_round_trip(s, a, b);
        },
        _ => {},
    }
}

} // verus!
