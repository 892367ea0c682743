//! The mathematical model of every grid primitive.
//!
//! Each executable primitive of the DSL returns exactly the grid that
//! its spec function here describes, so `apply` as a whole is a pure
//! mathematical function of the program and the input grid. Search and
//! reachability primitives are modelled as a bounded fixpoint: one
//! local step, iterated as many times as the grid has cells, which is
//! enough for any propagation to settle.

use vstd::prelude::*;
use crate::grid::{mk_grid, rows_of, cols_of, GRID_MAX};

verus! {

/// Within-bounds test for a model grid.
pub open spec fn in_grid(s: Seq<Seq<u8>>, r: int, c: int) -> bool {
    0 <= r < rows_of(s) && 0 <= c < cols_of(s)
}

/// Dimensions that a well-formed grid may have.
pub open spec fn dims_ok(r: int, c: int) -> bool {
    0 <= r <= GRID_MAX && 0 <= c <= GRID_MAX
}

// --- geometry ---

pub open spec fn rotate_cw_s(s: Seq<Seq<u8>>) -> Seq<Seq<u8>> {
    mk_grid(cols_of(s), rows_of(s), |r: int, c: int| s[rows_of(s) - 1 - c][r])
}

pub open spec fn rotate_ccw_s(s: Seq<Seq<u8>>) -> Seq<Seq<u8>> {
    mk_grid(cols_of(s), rows_of(s), |r: int, c: int| s[c][cols_of(s) - 1 - r])
}

pub open spec fn rotate180_s(s: Seq<Seq<u8>>) -> Seq<Seq<u8>> {
    rotate_cw_s(rotate_cw_s(s))
}

pub open spec fn flip_h_s(s: Seq<Seq<u8>>) -> Seq<Seq<u8>> {
    mk_grid(rows_of(s), cols_of(s), |r: int, c: int| s[r][cols_of(s) - 1 - c])
}

pub open spec fn flip_v_s(s: Seq<Seq<u8>>) -> Seq<Seq<u8>> {
    mk_grid(rows_of(s), cols_of(s), |r: int, c: int| s[rows_of(s) - 1 - r][c])
}

pub open spec fn transpose_s(s: Seq<Seq<u8>>) -> Seq<Seq<u8>> {
    mk_grid(cols_of(s), rows_of(s), |r: int, c: int| s[c][r])
}

// --- plain color maps ---

pub open spec fn fill_color_s(s: Seq<Seq<u8>>, color: u8) -> Seq<Seq<u8>> {
    mk_grid(
        rows_of(s),
        cols_of(s),
        |r: int, c: int| if s[r][c] != 0 { color } else { 0u8 },
    )
}

pub open spec fn replace_color_s(s: Seq<Seq<u8>>, from: u8, to: u8) -> Seq<Seq<u8>> {
    mk_grid(
        rows_of(s),
        cols_of(s),
        |r: int, c: int| if s[r][c] == from { to } else { s[r][c] },
    )
}

pub open spec fn filter_color_s(s: Seq<Seq<u8>>, color: u8) -> Seq<Seq<u8>> {
    mk_grid(
        rows_of(s),
        cols_of(s),
        |r: int, c: int| if s[r][c] == color { color } else { 0u8 },
    )
}

pub open spec fn border_fill_s(s: Seq<Seq<u8>>, color: u8) -> Seq<Seq<u8>> {
    mk_grid(
        rows_of(s),
        cols_of(s),
        |r: int, c: int|
            if r == 0 || r == rows_of(s) - 1 || c == 0 || c == cols_of(s) - 1 {
                color
            } else {
                s[r][c]
            },
    )
}

/// A cell is outlined when it is set and touches the grid edge or a
/// clear 4-neighbor.
pub open spec fn on_object_border(s: Seq<Seq<u8>>, r: int, c: int) -> bool {
    ||| r == 0
    ||| r == rows_of(s) - 1
    ||| c == 0
    ||| c == cols_of(s) - 1
    ||| s[r - 1][c] == 0
    ||| s[r + 1][c] == 0
    ||| s[r][c - 1] == 0
    ||| s[r][c + 1] == 0
}

pub open spec fn outline_objects_s(s: Seq<Seq<u8>>, color: u8) -> Seq<Seq<u8>> {
    mk_grid(
        rows_of(s),
        cols_of(s),
        |r: int, c: int|
            if s[r][c] != 0 && on_object_border(s, r, c) {
                color
            } else {
                s[r][c]
            },
    )
}

// --- size changes ---

pub open spec fn crop_rows_s(s: Seq<Seq<u8>>, r0: int, h: int) -> int {
    if r0 >= rows_of(s) {
        0
    } else if h <= rows_of(s) - r0 {
        h
    } else {
        rows_of(s) - r0
    }
}

pub open spec fn crop_cols_s(s: Seq<Seq<u8>>, c0: int, w: int) -> int {
    if c0 >= cols_of(s) {
        0
    } else if w <= cols_of(s) - c0 {
        w
    } else {
        cols_of(s) - c0
    }
}

pub open spec fn crop_s(s: Seq<Seq<u8>>, r0: int, c0: int, h: int, w: int) -> Seq<Seq<u8>> {
    mk_grid(
        crop_rows_s(s, r0, h) as nat,
        crop_cols_s(s, c0, w) as nat,
        |r: int, c: int| s[r0 + r][c0 + c],
    )
}

pub open spec fn pad_s(s: Seq<Seq<u8>>, n: int, color: u8) -> Seq<Seq<u8>> {
    if rows_of(s) == 0 || !dims_ok(rows_of(s) + 2 * n, cols_of(s) + 2 * n) {
        s
    } else {
        mk_grid(
            (rows_of(s) + 2 * n) as nat,
            (cols_of(s) + 2 * n) as nat,
            |r: int, c: int|
                if n <= r < n + rows_of(s) && n <= c < n + cols_of(s) {
                    s[r - n][c - n]
                } else {
                    color
                },
        )
    }
}

pub open spec fn scale_s(s: Seq<Seq<u8>>, k: int) -> Seq<Seq<u8>> {
    if k <= 0 {
        Seq::empty()
    } else if !dims_ok(rows_of(s) * k, cols_of(s) * k) {
        s
    } else {
        mk_grid((rows_of(s) * k) as nat, (cols_of(s) * k) as nat, |r: int, c: int| s[r / k][c / k])
    }
}

pub open spec fn upscale_objects_s(s: Seq<Seq<u8>>, k: int) -> Seq<Seq<u8>> {
    if k <= 0 || rows_of(s) == 0 {
        s
    } else if !dims_ok(rows_of(s) * k, cols_of(s) * k) {
        s
    } else {
        mk_grid((rows_of(s) * k) as nat, (cols_of(s) * k) as nat, |r: int, c: int| s[r / k][c / k])
    }
}

pub open spec fn repeat_h_s(s: Seq<Seq<u8>>, k: int) -> Seq<Seq<u8>> {
    if k < 0 || cols_of(s) == 0 {
        mk_grid(rows_of(s), 0, |r: int, c: int| 0u8)
    } else if !dims_ok(rows_of(s) as int, cols_of(s) * k) {
        s
    } else {
        mk_grid(rows_of(s), (cols_of(s) * k) as nat, |r: int, c: int| s[r][c % (cols_of(s) as int)])
    }
}

pub open spec fn repeat_v_s(s: Seq<Seq<u8>>, k: int) -> Seq<Seq<u8>> {
    if k < 0 || rows_of(s) == 0 {
        Seq::empty()
    } else if !dims_ok(rows_of(s) * k, cols_of(s) as int) {
        s
    } else {
        mk_grid((rows_of(s) * k) as nat, cols_of(s), |r: int, c: int| s[r % (rows_of(s) as int)][c])
    }
}

pub open spec fn mirror_h_s(s: Seq<Seq<u8>>) -> Seq<Seq<u8>> {
    if !dims_ok(rows_of(s) as int, 2 * (cols_of(s) as int)) {
        s
    } else {
        mk_grid(
            rows_of(s),
            (2 * cols_of(s)) as nat,
            |r: int, c: int|
                if c < cols_of(s) {
                    s[r][c]
                } else {
                    s[r][2 * cols_of(s) - 1 - c]
                },
        )
    }
}

pub open spec fn mirror_v_s(s: Seq<Seq<u8>>) -> Seq<Seq<u8>> {
    if !dims_ok(2 * (rows_of(s) as int), cols_of(s) as int) {
        s
    } else {
        mk_grid(
            (2 * rows_of(s)) as nat,
            cols_of(s),
            |r: int, c: int|
                if r < rows_of(s) {
                    s[r][c]
                } else {
                    s[2 * rows_of(s) - 1 - r][c]
                },
        )
    }
}

pub open spec fn translate_s(s: Seq<Seq<u8>>, dr: int, dc: int) -> Seq<Seq<u8>> {
    mk_grid(
        rows_of(s),
        cols_of(s),
        |r: int, c: int|
            if in_grid(s, r - dr, c - dc) && s[r - dr][c - dc] != 0 {
                s[r - dr][c - dc]
            } else {
                0u8
            },
    )
}

// --- aggregates over the grid ---

/// Largest value among the first `n` cells of a row.
pub open spec fn row_max(row: Seq<u8>, n: int) -> u8
    decreases n,
{
    if n <= 0 {
        0u8
    } else if row[n - 1] > row_max(row, n - 1) {
        row[n - 1]
    } else {
        row_max(row, n - 1)
    }
}

/// Largest cell value among the first `n` rows.
pub open spec fn grid_max(s: Seq<Seq<u8>>, n: int) -> u8
    decreases n,
{
    if n <= 0 {
        0u8
    } else if row_max(s[n - 1], s[n - 1].len() as int) > grid_max(s, n - 1) {
        row_max(s[n - 1], s[n - 1].len() as int)
    } else {
        grid_max(s, n - 1)
    }
}

/// The reference color used by `Invert`: the grid maximum, or 1 when
/// the grid has no cells at all.
pub open spec fn invert_max_s(s: Seq<Seq<u8>>) -> u8 {
    if rows_of(s) == 0 || cols_of(s) == 0 {
        1u8
    } else {
        grid_max(s, rows_of(s) as int)
    }
}

pub open spec fn invert_s(s: Seq<Seq<u8>>) -> Seq<Seq<u8>> {
    mk_grid(
        rows_of(s),
        cols_of(s),
        |r: int, c: int| if s[r][c] == 0 { invert_max_s(s) } else { 0u8 },
    )
}

/// How many of the first `n` cells of a row hold color `v`.
pub open spec fn row_count(row: Seq<u8>, v: u8, n: int) -> int
    decreases n,
{
    if n <= 0 {
        0
    } else {
        row_count(row, v, n - 1) + if row[n - 1] == v { 1int } else { 0int }
    }
}

/// How many cells of the first `n` rows hold color `v`.
pub open spec fn grid_count(s: Seq<Seq<u8>>, v: u8, n: int) -> int
    decreases n,
{
    if n <= 0 {
        0
    } else {
        grid_count(s, v, n - 1) + row_count(s[n - 1], v, s[n - 1].len() as int)
    }
}

/// Count used by the most-frequent-color fill: color 0 never counts.
pub open spec fn mfc_count(s: Seq<Seq<u8>>, v: u8) -> int {
    if v == 0 {
        0
    } else {
        grid_count(s, v, rows_of(s) as int)
    }
}

/// Best color among 0..=i, preferring the later color on ties.
pub open spec fn mfc_best(s: Seq<Seq<u8>>, i: int) -> u8
    decreases i,
{
    if i <= 0 {
        0u8
    } else if mfc_count(s, i as u8) >= mfc_count(s, mfc_best(s, i - 1)) {
        i as u8
    } else {
        mfc_best(s, i - 1)
    }
}

pub open spec fn most_frequent_fill_s(s: Seq<Seq<u8>>) -> Seq<Seq<u8>> {
    fill_color_s(s, mfc_best(s, 9))
}

// --- gravity ---

/// The set colors of the first `n` cells of column `c`, top to bottom.
pub open spec fn col_nz(s: Seq<Seq<u8>>, c: int, n: int) -> Seq<u8>
    decreases n,
{
    if n <= 0 {
        Seq::empty()
    } else if s[n - 1][c] != 0 {
        col_nz(s, c, n - 1).push(s[n - 1][c])
    } else {
        col_nz(s, c, n - 1)
    }
}

pub open spec fn gravity_down_cell(s: Seq<Seq<u8>>, r: int, c: int) -> u8 {
    let nz = col_nz(s, c, rows_of(s) as int);
    if r < rows_of(s) - nz.len() {
        0u8
    } else {
        nz[r - (rows_of(s) - nz.len())]
    }
}

pub open spec fn gravity_down_s(s: Seq<Seq<u8>>) -> Seq<Seq<u8>> {
    mk_grid(rows_of(s), cols_of(s), |r: int, c: int| gravity_down_cell(s, r, c))
}

// --- row sorting ---

/// Sort key of a row: its first set color, or 255 for an all-clear row.
pub open spec fn row_key(row: Seq<u8>, i: int) -> u8
    decreases row.len() - i,
{
    if i < 0 || i >= row.len() {
        255u8
    } else if row[i] != 0 {
        row[i]
    } else {
        row_key(row, i + 1)
    }
}

/// Stable insertion of a row into an already sorted row list.
pub open spec fn insert_row_s(rows: Seq<Seq<u8>>, x: Seq<u8>) -> Seq<Seq<u8>>
    decreases rows.len(),
{
    if rows.len() == 0 {
        seq![x]
    } else if row_key(x, 0) < row_key(rows[0], 0) {
        seq![x] + rows
    } else {
        seq![rows[0]] + insert_row_s(rows.drop_first(), x)
    }
}

/// Stable insertion sort of the first `n` rows by `row_key`.
pub open spec fn sort_rows_s(s: Seq<Seq<u8>>, n: int) -> Seq<Seq<u8>>
    decreases n,
{
    if n <= 0 {
        Seq::empty()
    } else {
        insert_row_s(sort_rows_s(s, n - 1), s[n - 1])
    }
}

pub open spec fn sort_rows_by_color_s(s: Seq<Seq<u8>>) -> Seq<Seq<u8>> {
    sort_rows_s(s, rows_of(s) as int)
}

pub open spec fn sort_cols_by_color_s(s: Seq<Seq<u8>>) -> Seq<Seq<u8>> {
    transpose_s(sort_rows_by_color_s(transpose_s(s)))
}

// --- line extension ---

/// The last set color among the first `n` cells of a row, or 0.
pub open spec fn last_nz_row(row: Seq<u8>, n: int) -> u8
    decreases n,
{
    if n <= 0 {
        0u8
    } else if row[n - 1] != 0 {
        row[n - 1]
    } else {
        last_nz_row(row, n - 1)
    }
}

/// The last set color among the first `n` rows of column `c`, or 0.
pub open spec fn last_nz_col(s: Seq<Seq<u8>>, c: int, n: int) -> u8
    decreases n,
{
    if n <= 0 {
        0u8
    } else if s[n - 1][c] != 0 {
        s[n - 1][c]
    } else {
        last_nz_col(s, c, n - 1)
    }
}

pub open spec fn extend_h_lines_s(s: Seq<Seq<u8>>) -> Seq<Seq<u8>> {
    mk_grid(rows_of(s), cols_of(s), |r: int, c: int| last_nz_row(s[r], cols_of(s) as int))
}

pub open spec fn extend_v_lines_s(s: Seq<Seq<u8>>) -> Seq<Seq<u8>> {
    mk_grid(rows_of(s), cols_of(s), |r: int, c: int| last_nz_col(s, c, rows_of(s) as int))
}

/// Index of the first set cell of a row at or after `i`, or -1.
pub open spec fn left_nz(row: Seq<u8>, i: int) -> int
    decreases row.len() - i,
{
    if i < 0 || i >= row.len() {
        -1
    } else if row[i] != 0 {
        i
    } else {
        left_nz(row, i + 1)
    }
}

/// Index of the first row at or below `i` whose cell in column `c` is
/// set, or -1.
pub open spec fn top_nz(s: Seq<Seq<u8>>, c: int, i: int) -> int
    decreases rows_of(s) - i,
{
    if i < 0 || i >= rows_of(s) {
        -1
    } else if s[i][c] != 0 {
        i
    } else {
        top_nz(s, c, i + 1)
    }
}

/// A clear cell takes the color of the earliest (in row-major order)
/// set cell of its row or column; set cells keep their color.
pub open spec fn extend_cross_cell(s: Seq<Seq<u8>>, r: int, c: int) -> u8 {
    if s[r][c] != 0 {
        s[r][c]
    } else {
        let t = top_nz(s, c, 0);
        let l = left_nz(s[r], 0);
        if t >= 0 && t < r {
            s[t][c]
        } else if l >= 0 {
            s[r][l]
        } else if t >= 0 {
            s[t][c]
        } else {
            0u8
        }
    }
}

pub open spec fn extend_cross_s(s: Seq<Seq<u8>>) -> Seq<Seq<u8>> {
    mk_grid(rows_of(s), cols_of(s), |r: int, c: int| extend_cross_cell(s, r, c))
}

/// First row at or after `i` whose cell on the top-left diagonal `d`
/// (cells with row - col == d) is set, or -1.
pub open spec fn diag_top_tl(s: Seq<Seq<u8>>, d: int, i: int) -> int
    decreases rows_of(s) - i,
{
    if i < 0 || i >= rows_of(s) {
        -1
    } else if 0 <= i - d < cols_of(s) && s[i][i - d] != 0 {
        i
    } else {
        diag_top_tl(s, d, i + 1)
    }
}

pub open spec fn diag_fill_tl_cell(s: Seq<Seq<u8>>, r: int, c: int) -> u8 {
    if s[r][c] != 0 {
        s[r][c]
    } else {
        let t = diag_top_tl(s, r - c, 0);
        if t >= 0 {
            s[t][t - (r - c)]
        } else {
            0u8
        }
    }
}

pub open spec fn diag_fill_tl_s(s: Seq<Seq<u8>>) -> Seq<Seq<u8>> {
    mk_grid(rows_of(s), cols_of(s), |r: int, c: int| diag_fill_tl_cell(s, r, c))
}

/// First row at or after `i` whose cell on the top-right diagonal `d`
/// (cells with row + col == d) is set, or -1.
pub open spec fn diag_top_tr(s: Seq<Seq<u8>>, d: int, i: int) -> int
    decreases rows_of(s) - i,
{
    if i < 0 || i >= rows_of(s) {
        -1
    } else if 0 <= d - i < cols_of(s) && s[i][d - i] != 0 {
        i
    } else {
        diag_top_tr(s, d, i + 1)
    }
}

pub open spec fn diag_fill_tr_cell(s: Seq<Seq<u8>>, r: int, c: int) -> u8 {
    if s[r][c] != 0 {
        s[r][c]
    } else {
        let t = diag_top_tr(s, r + c, 0);
        if t >= 0 {
            s[t][r + c - t]
        } else {
            0u8
        }
    }
}

pub open spec fn diag_fill_tr_s(s: Seq<Seq<u8>>) -> Seq<Seq<u8>> {
    mk_grid(rows_of(s), cols_of(s), |r: int, c: int| diag_fill_tr_cell(s, r, c))
}

// --- bounding box crop ---

/// Index of the last set cell of a row before `i`, or -1.
pub open spec fn right_nz(row: Seq<u8>, i: int) -> int
    decreases i,
{
    if i <= 0 {
        -1
    } else if row[i - 1] != 0 {
        i - 1
    } else {
        right_nz(row, i - 1)
    }
}

/// First row among the first `n` with a set cell, or -1.
pub open spec fn bbox_min_r(s: Seq<Seq<u8>>, n: int) -> int
    decreases n,
{
    if n <= 0 {
        -1
    } else if bbox_min_r(s, n - 1) >= 0 {
        bbox_min_r(s, n - 1)
    } else if left_nz(s[n - 1], 0) >= 0 {
        n - 1
    } else {
        -1
    }
}

/// Last row among the first `n` with a set cell, or -1.
pub open spec fn bbox_max_r(s: Seq<Seq<u8>>, n: int) -> int
    decreases n,
{
    if n <= 0 {
        -1
    } else if left_nz(s[n - 1], 0) >= 0 {
        n - 1
    } else {
        bbox_max_r(s, n - 1)
    }
}

/// Leftmost set column among the first `n` rows, or `cols_of(s)`.
pub open spec fn bbox_min_c(s: Seq<Seq<u8>>, n: int) -> int
    decreases n,
{
    if n <= 0 {
        cols_of(s) as int
    } else {
        let m = bbox_min_c(s, n - 1);
        let l = left_nz(s[n - 1], 0);
        if l >= 0 && l < m {
            l
        } else {
            m
        }
    }
}

/// Rightmost set column among the first `n` rows, or -1.
pub open spec fn bbox_max_c(s: Seq<Seq<u8>>, n: int) -> int
    decreases n,
{
    if n <= 0 {
        -1
    } else {
        let m = bbox_max_c(s, n - 1);
        let r = right_nz(s[n - 1], s[n - 1].len() as int);
        if r > m {
            r
        } else {
            m
        }
    }
}

pub open spec fn crop_to_bbox_s(s: Seq<Seq<u8>>) -> Seq<Seq<u8>> {
    if rows_of(s) == 0 {
        s
    } else {
        let minr = bbox_min_r(s, rows_of(s) as int);
        let maxr = bbox_max_r(s, rows_of(s) as int);
        let minc = bbox_min_c(s, rows_of(s) as int);
        let maxc = bbox_max_c(s, rows_of(s) as int);
        if minr < 0 {
            mk_grid(1, 1, |r: int, c: int| 0u8)
        } else {
            crop_s(s, minr, minc, maxr - minr + 1, maxc - minc + 1)
        }
    }
}

// --- bounded reachability ---

/// The cell predicate a reachability pass spreads through.
#[derive(Clone, Copy)]
pub enum CellTest {
    IsColor(u8),
    NotColor(u8),
}

pub open spec fn test_ok(t: CellTest, v: u8) -> bool {
    match t {
        CellTest::IsColor(c) => v == c,
        CellTest::NotColor(c) => v != c,
    }
}

/// Does any 4-neighbor of `(r, c)` carry a mark?
pub open spec fn nbr4_marked(m: Seq<Seq<bool>>, r: int, c: int) -> bool {
    ||| (r > 0 && m[r - 1][c])
    ||| (r + 1 < m.len() && m[r + 1][c])
    ||| (c > 0 && m[r][c - 1])
    ||| (m.len() > 0 && c + 1 < m[0].len() && m[r][c + 1])
}

/// One propagation step: a cell becomes marked when it passes the test
/// and touches a marked 4-neighbor.
pub open spec fn step_reach(s: Seq<Seq<u8>>, t: CellTest, m: Seq<Seq<bool>>) -> Seq<Seq<bool>> {
    Seq::new(
        rows_of(s),
        |r: int|
            Seq::new(
                cols_of(s),
                |c: int| m[r][c] || (test_ok(t, s[r][c]) && nbr4_marked(m, r, c)),
            ),
    )
}

/// `n` propagation steps from `m`.
pub open spec fn iter_reach(s: Seq<Seq<u8>>, t: CellTest, m: Seq<Seq<bool>>, n: int) -> Seq<
    Seq<bool>,
>
    decreases n,
{
    if n <= 0 {
        m
    } else {
        step_reach(s, t, iter_reach(s, t, m, n - 1))
    }
}

/// A step that changes nothing never changes anything after.
pub proof fn lemma_reach_fixpoint(s: Seq<Seq<u8>>, t: CellTest, m: Seq<Seq<bool>>, n: int)
    requires
        step_reach(s, t, m) == m,
        n >= 0,
    ensures
        iter_reach(s, t, m, n) == m,
    decreases n,
{
    if n > 0 {
        lemma_reach_fixpoint(s, t, m, n - 1);
    }
}

/// Seed marking only `(sr, sc)`.
pub open spec fn seed_at(s: Seq<Seq<u8>>, sr: int, sc: int) -> Seq<Seq<bool>> {
    Seq::new(rows_of(s), |r: int| Seq::new(cols_of(s), |c: int| r == sr && c == sc))
}

/// Seed marking every border cell that passes the test.
pub open spec fn seed_border(s: Seq<Seq<u8>>, t: CellTest) -> Seq<Seq<bool>> {
    Seq::new(
        rows_of(s),
        |r: int|
            Seq::new(
                cols_of(s),
                |c: int| (r == 0 || r == rows_of(s) - 1 || c == 0 || c == cols_of(s) - 1)
                    && test_ok(t, s[r][c]),
            ),
    )
}

/// Cells reachable from the seed through test-passing cells, after as
/// many steps as the grid has cells.
pub open spec fn full_reach(s: Seq<Seq<u8>>, t: CellTest, m0: Seq<Seq<bool>>) -> Seq<Seq<bool>> {
    iter_reach(s, t, m0, (rows_of(s) * cols_of(s)) as int)
}

pub open spec fn flood_fill_s(s: Seq<Seq<u8>>, sr: int, sc: int, color: u8) -> Seq<Seq<u8>> {
    if !in_grid(s, sr, sc) {
        s
    } else {
        let old = s[sr][sc];
        if old == color {
            s
        } else {
            let m = full_reach(s, CellTest::IsColor(old), seed_at(s, sr, sc));
            mk_grid(
                rows_of(s),
                cols_of(s),
                |r: int, c: int| if m[r][c] { color } else { s[r][c] },
            )
        }
    }
}

pub open spec fn fill_enclosed_s(s: Seq<Seq<u8>>, wall: u8) -> Seq<Seq<u8>> {
    if rows_of(s) == 0 {
        s
    } else {
        let m = full_reach(s, CellTest::NotColor(wall), seed_border(s, CellTest::NotColor(wall)));
        mk_grid(
            rows_of(s),
            cols_of(s),
            |r: int, c: int| if s[r][c] == 0 && !m[r][c] { wall } else { s[r][c] },
        )
    }
}

pub open spec fn fill_inside_objects_s(s: Seq<Seq<u8>>, fill: u8) -> Seq<Seq<u8>> {
    if rows_of(s) == 0 {
        s
    } else {
        let m = full_reach(s, CellTest::IsColor(0), seed_border(s, CellTest::IsColor(0)));
        mk_grid(
            rows_of(s),
            cols_of(s),
            |r: int, c: int| if s[r][c] == 0 && !m[r][c] { fill } else { s[r][c] },
        )
    }
}


// --- shape preservation of the models ---

/// Shape facts needed again and again below.
pub proof fn lemma_mk_wf(m: Seq<Seq<u8>>, rows: int, cols: int)
    requires
        m.len() == rows,
        forall|i: int| 0 <= i < rows ==> (#[trigger] m[i]).len() == cols,
        0 <= rows <= GRID_MAX,
        0 <= cols <= GRID_MAX,
    ensures
        crate::grid::wf(m),
{
}

/// Every sized model above returns a well-formed grid on well-formed
/// input; the object-based ones are handled beside their definitions.
pub proof fn lemma_rotate_cw_wf(s: Seq<Seq<u8>>)
    requires
        crate::grid::wf(s),
    ensures
        crate::grid::wf(rotate_cw_s(s)),
{
    lemma_mk_wf(rotate_cw_s(s), cols_of(s) as int, rows_of(s) as int);
}

pub proof fn lemma_rotate_ccw_wf(s: Seq<Seq<u8>>)
    requires
        crate::grid::wf(s),
    ensures
        crate::grid::wf(rotate_ccw_s(s)),
{
    lemma_mk_wf(rotate_ccw_s(s), cols_of(s) as int, rows_of(s) as int);
}

pub proof fn lemma_transpose_wf(s: Seq<Seq<u8>>)
    requires
        crate::grid::wf(s),
    ensures
        crate::grid::wf(transpose_s(s)),
{
    lemma_mk_wf(transpose_s(s), cols_of(s) as int, rows_of(s) as int);
}

/// A model of the input's own shape is well formed.
pub proof fn lemma_same_shape_wf(s: Seq<Seq<u8>>, m: Seq<Seq<u8>>)
    requires
        crate::grid::wf(s),
        m.len() == rows_of(s),
        forall|i: int| 0 <= i < m.len() ==> (#[trigger] m[i]).len() == cols_of(s),
    ensures
        crate::grid::wf(m),
{
    lemma_mk_wf(m, rows_of(s) as int, cols_of(s) as int);
}

pub proof fn lemma_crop_wf(s: Seq<Seq<u8>>, r0: int, c0: int, h: int, w: int)
    requires
        crate::grid::wf(s),
        0 <= r0,
        0 <= c0,
        0 <= h,
        0 <= w,
    ensures
        crate::grid::wf(crop_s(s, r0, c0, h, w)),
{
    lemma_mk_wf(crop_s(s, r0, c0, h, w), crop_rows_s(s, r0, h), crop_cols_s(s, c0, w));
}

pub proof fn lemma_pad_wf(s: Seq<Seq<u8>>, n: int, color: u8)
    requires
        crate::grid::wf(s),
        n >= 0,
    ensures
        crate::grid::wf(pad_s(s, n, color)),
{
    if !(rows_of(s) == 0 || !dims_ok(rows_of(s) + 2 * n, cols_of(s) + 2 * n)) {
        lemma_mk_wf(pad_s(s, n, color), rows_of(s) + 2 * n, cols_of(s) + 2 * n);
    }
}

pub proof fn lemma_scale_wf(s: Seq<Seq<u8>>, k: int)
    requires
        crate::grid::wf(s),
    ensures
        crate::grid::wf(scale_s(s, k)),
        crate::grid::wf(upscale_objects_s(s, k)),
{
    if k > 0 && dims_ok(rows_of(s) * k, cols_of(s) * k) {
        lemma_mk_wf(scale_s(s, k), rows_of(s) * k, cols_of(s) * k);
    }
}

pub proof fn lemma_repeat_h_wf(s: Seq<Seq<u8>>, k: int)
    requires
        crate::grid::wf(s),
    ensures
        crate::grid::wf(repeat_h_s(s, k)),
{
    if k < 0 || cols_of(s) == 0 {
        lemma_mk_wf(repeat_h_s(s, k), rows_of(s) as int, 0);
    } else if dims_ok(rows_of(s) as int, cols_of(s) * k) {
        lemma_mk_wf(repeat_h_s(s, k), rows_of(s) as int, cols_of(s) * k);
    }
}

pub proof fn lemma_repeat_v_wf(s: Seq<Seq<u8>>, k: int)
    requires
        crate::grid::wf(s),
    ensures
        crate::grid::wf(repeat_v_s(s, k)),
{
    if !(k < 0 || rows_of(s) == 0) && dims_ok(rows_of(s) * k, cols_of(s) as int) {
        lemma_mk_wf(repeat_v_s(s, k), rows_of(s) * k, cols_of(s) as int);
    }
}

pub proof fn lemma_mirror_wf(s: Seq<Seq<u8>>)
    requires
        crate::grid::wf(s),
    ensures
        crate::grid::wf(mirror_h_s(s)),
        crate::grid::wf(mirror_v_s(s)),
{
    if dims_ok(rows_of(s) as int, 2 * (cols_of(s) as int)) {
        lemma_mk_wf(mirror_h_s(s), rows_of(s) as int, 2 * (cols_of(s) as int));
    }
    if dims_ok(2 * (rows_of(s) as int), cols_of(s) as int) {
        lemma_mk_wf(mirror_v_s(s), 2 * (rows_of(s) as int), cols_of(s) as int);
    }
}

pub proof fn lemma_crop_to_bbox_wf(s: Seq<Seq<u8>>)
    requires
        crate::grid::wf(s),
    ensures
        crate::grid::wf(crop_to_bbox_s(s)),
{
    if rows_of(s) != 0 {
        let n = rows_of(s) as int;
        let minr = bbox_min_r(s, n);
        let maxr = bbox_max_r(s, n);
        let minc = bbox_min_c(s, n);
        let maxc = bbox_max_c(s, n);
        if minr < 0 {
            lemma_mk_wf(crop_to_bbox_s(s), 1, 1);
        } else {
            crate::prims_scan::lemma_bbox(s, n);
            lemma_crop_wf(s, minr, minc, maxr - minr + 1, maxc - minc + 1);
        }
    }
}

pub proof fn lemma_reach_paint_wf(s: Seq<Seq<u8>>, m: Seq<Seq<u8>>)
    requires
        crate::grid::wf(s),
        m.len() == rows_of(s),
        forall|i: int| 0 <= i < m.len() ==> (#[trigger] m[i]).len() == cols_of(s),
    ensures
        crate::grid::wf(m),
{
    lemma_same_shape_wf(s, m);
}

} // verus!
