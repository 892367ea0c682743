//! Executable grid primitives that aggregate over rows, columns or
//! diagonals: inversion, most-frequent-color fill, gravity, line and
//! diagonal extension, bounding-box crop and row sorting. Each returns
//! exactly the grid its model in `model` describes.

use vstd::prelude::*;
use crate::grid::{Grid, grid_view, grid_wf, rows_of, cols_of, grid_filled, mk_grid, GRID_MAX};
use crate::model::{
    row_max, grid_max, invert_max_s, invert_s, row_count, grid_count, mfc_count, mfc_best,
    most_frequent_fill_s, fill_color_s, col_nz, gravity_down_cell, gravity_down_s, flip_v_s,
    transpose_s, row_key, insert_row_s, sort_rows_s, sort_rows_by_color_s, sort_cols_by_color_s,
    last_nz_row, last_nz_col, extend_h_lines_s, extend_v_lines_s, left_nz, top_nz,
    extend_cross_cell, extend_cross_s, diag_top_tl, diag_fill_tl_cell, diag_fill_tl_s,
    diag_top_tr, diag_fill_tr_cell, diag_fill_tr_s, right_nz, bbox_min_r, bbox_max_r, bbox_min_c,
    bbox_max_c, crop_to_bbox_s, crop_s,
};
use crate::prims_basic::{clone_grid, fill_color, flip_v, transpose, crop};

verus! {

broadcast use crate::grid::lemma_grid_row_len;

// --- invert ---

fn grid_max_exec(g: &Grid) -> (m: u8)
    requires
        grid_wf(g),
    ensures
        m == grid_max(grid_view(g), rows_of(grid_view(g)) as int),
{
    let ghost s = grid_view(g);
    let mut m: u8 = 0;
    let mut i: usize = 0;
    while i < g.len()
        invariant
            0 <= i <= g.len(),
            grid_wf(g),
            s == grid_view(g),
            m == grid_max(s, i as int),
        decreases g.len() - i,
    {
        let row = &g[i];
        let mut rm: u8 = 0;
        let mut j: usize = 0;
        assert(row@ == s[i as int]);
        while j < row.len()
            invariant
                0 <= j <= row.len(),
                rm == row_max(row@, j as int),
            decreases row.len() - j,
        {
            if row[j] > rm {
                rm = row[j];
            }
            j += 1;
        }
        if rm > m {
            m = rm;
        }
        i += 1;
    }
    m
}

pub(crate) fn invert(g: &Grid) -> (r: Grid)
    requires
        grid_wf(g),
    ensures
        grid_view(&r) == invert_s(grid_view(g)),
        grid_wf(&r),
{
    let ghost s = grid_view(g);
    let rows = g.len();
    let cols = if rows == 0 { 0 } else { g[0].len() };
    let mc: u8 = if rows == 0 || cols == 0 { 1 } else { grid_max_exec(g) };
    assert(mc == invert_max_s(s));
    let mut out: Grid = Vec::new();
    let mut i: usize = 0;
    while i < rows
        invariant
            0 <= i <= rows,
            grid_wf(g),
            s == grid_view(g),
            rows == rows_of(s),
            cols == cols_of(s),
            mc == invert_max_s(s),
            out@.len() == i,
            forall|k: int| 0 <= k < i ==> #[trigger] out@[k]@ =~= Seq::new(
                cols as nat,
                |c: int| if s[k][c] == 0 { invert_max_s(s) } else { 0u8 },
            ),
        decreases rows - i,
    {
        let mut nr: Vec<u8> = Vec::new();
        let mut j: usize = 0;
        while j < cols
            invariant
                0 <= j <= cols,
                0 <= i < rows,
                grid_wf(g),
                s == grid_view(g),
                rows == rows_of(s),
                cols == cols_of(s),
                mc == invert_max_s(s),
                nr@.len() == j,
                forall|k: int| 0 <= k < j ==> nr@[k] == (if s[i as int][k] == 0 {
                    invert_max_s(s)
                } else {
                    0u8
                }),
            decreases cols - j,
        {
            nr.push(if g[i][j] == 0 { mc } else { 0 });
            j += 1;
        }
        assert(nr@ =~= Seq::new(
            cols as nat,
            |c: int| if s[i as int][c] == 0 { invert_max_s(s) } else { 0u8 },
        ));
        out.push(nr);
        i += 1;
    }
    assert(grid_view(&out) =~~= invert_s(s));
    out
}

// --- most frequent color ---

pub(crate) fn most_frequent_fill(g: &Grid) -> (r: Grid)
    requires
        grid_wf(g),
    ensures
        grid_view(&r) == most_frequent_fill_s(grid_view(g)),
        grid_wf(&r),
{
    let ghost s = grid_view(g);
    let rows = g.len();
    let mut counts: Vec<u128> = Vec::new();
    let mut v: usize = 0;
    while v < 10
        invariant
            0 <= v <= 10,
            counts@.len() == v,
            forall|k: int| 0 <= k < v ==> counts@[k] == 0,
        decreases 10 - v,
    {
        counts.push(0);
        v += 1;
    }
    let mut i: usize = 0;
    while i < rows
        invariant
            0 <= i <= rows,
            grid_wf(g),
            s == grid_view(g),
            rows == rows_of(s),
            counts@.len() == 10,
            forall|k: int| 0 <= k < 10 ==> #[trigger] counts@[k] == grid_count(s, k as u8, i as int),
            forall|k: int| 0 <= k < 10 ==> #[trigger] counts@[k] <= (i as int) * (GRID_MAX as int),
        decreases rows - i,
    {
        let row = &g[i];
        assert(row@ == s[i as int]);
        let ghost cols = row@.len() as int;
        let mut j: usize = 0;
        while j < row.len()
            invariant
                0 <= j <= row.len(),
                0 <= i < rows,
                grid_wf(g),
                s == grid_view(g),
                rows == rows_of(s),
                row@ == s[i as int],
                row@.len() <= GRID_MAX,
                counts@.len() == 10,
                forall|k: int| 0 <= k < 10 ==> #[trigger] counts@[k] == grid_count(s, k as u8, i as int)
                    + row_count(s[i as int], k as u8, j as int),
                forall|k: int| 0 <= k < 10 ==> #[trigger] counts@[k] <= (i as int) * (
                GRID_MAX as int) + j,
            decreases row.len() - j,
        {
            let val = row[j];
            if val < 10 {
                let cur = counts[val as usize];
                counts.set(val as usize, cur + 1);
            }
            j += 1;
        }
        assert((i as int) * (GRID_MAX as int) + GRID_MAX == ((i as int) + 1) * (GRID_MAX as int))
            by (nonlinear_arith);
        i += 1;
    }
    counts.set(0, 0);
    assert(forall|k: int| 0 <= k < 10 ==> #[trigger] counts@[k] == mfc_count(s, k as u8));
    let mut best: u8 = 0;
    let mut c: usize = 1;
    while c < 10
        invariant
            1 <= c <= 10,
            counts@.len() == 10,
            forall|k: int| 0 <= k < 10 ==> #[trigger] counts@[k] == mfc_count(s, k as u8),
            best == mfc_best(s, c as int - 1),
            best < 10,
        decreases 10 - c,
    {
        if counts[c] >= counts[best as usize] {
            best = c as u8;
        }
        c += 1;
    }
    assert(best == mfc_best(s, 9));
    let r = fill_color(g, best);
    assert(grid_view(&r) == most_frequent_fill_s(s));
    r
}

// --- gravity ---

/// `col_nz` never collects more entries than it scans.
proof fn lemma_col_nz_len(s: Seq<Seq<u8>>, c: int, n: int)
    ensures
        col_nz(s, c, n).len() <= (if n >= 0 { n } else { 0 }),
    decreases n,
{
    if n > 0 {
        lemma_col_nz_len(s, c, n - 1);
    }
}

fn col_nz_exec(g: &Grid, c: usize) -> (v: Vec<u8>)
    requires
        grid_wf(g),
        c < cols_of(grid_view(g)),
    ensures
        v@ == col_nz(grid_view(g), c as int, rows_of(grid_view(g)) as int),
{
    let ghost s = grid_view(g);
    let mut v: Vec<u8> = Vec::new();
    let mut i: usize = 0;
    while i < g.len()
        invariant
            0 <= i <= g.len(),
            grid_wf(g),
            s == grid_view(g),
            c < cols_of(s),
            v@ == col_nz(s, c as int, i as int),
        decreases g.len() - i,
    {
        let val = g[i][c];
        if val != 0 {
            v.push(val);
        }
        i += 1;
    }
    v
}

pub(crate) fn gravity_down(g: &Grid) -> (r: Grid)
    requires
        grid_wf(g),
    ensures
        grid_view(&r) == gravity_down_s(grid_view(g)),
        grid_wf(&r),
{
    let ghost s = grid_view(g);
    let rows = g.len();
    let cols = if rows == 0 { 0 } else { g[0].len() };
    let mut nzs: Vec<Vec<u8>> = Vec::new();
    let mut c: usize = 0;
    while c < cols
        invariant
            0 <= c <= cols,
            grid_wf(g),
            s == grid_view(g),
            rows == rows_of(s),
            cols == cols_of(s),
            nzs@.len() == c,
            forall|k: int| 0 <= k < c ==> #[trigger] nzs@[k]@ == col_nz(s, k, rows as int),
        decreases cols - c,
    {
        let v = col_nz_exec(g, c);
        nzs.push(v);
        c += 1;
    }
    let mut out: Grid = Vec::new();
    let mut i: usize = 0;
    while i < rows
        invariant
            0 <= i <= rows,
            grid_wf(g),
            s == grid_view(g),
            rows == rows_of(s),
            cols == cols_of(s),
            nzs@.len() == cols,
            forall|k: int| 0 <= k < cols ==> #[trigger] nzs@[k]@ == col_nz(s, k, rows as int),
            out@.len() == i,
            forall|k: int| 0 <= k < i ==> #[trigger] out@[k]@ =~= Seq::new(
                cols as nat,
                |c2: int| gravity_down_cell(s, k, c2),
            ),
        decreases rows - i,
    {
        let mut nr: Vec<u8> = Vec::new();
        let mut j: usize = 0;
        while j < cols
            invariant
                0 <= j <= cols,
                0 <= i < rows,
                grid_wf(g),
                s == grid_view(g),
                rows == rows_of(s),
                cols == cols_of(s),
                nzs@.len() == cols,
                forall|k: int| 0 <= k < cols ==> #[trigger] nzs@[k]@ == col_nz(s, k, rows as int),
                nr@.len() == j,
                forall|k: int| 0 <= k < j ==> nr@[k] == gravity_down_cell(s, i as int, k),
            decreases cols - j,
        {
            proof {
                lemma_col_nz_len(s, j as int, rows as int);
            }
            let nz = &nzs[j];
            let offset = rows - nz.len();
            let val = if i < offset {
                0
            } else {
                nz[i - offset]
            };
            assert(val == gravity_down_cell(s, i as int, j as int));
            nr.push(val);
            j += 1;
        }
        assert(nr@ =~= Seq::new(cols as nat, |c2: int| gravity_down_cell(s, i as int, c2)));
        out.push(nr);
        i += 1;
    }
    assert(grid_view(&out) =~~= gravity_down_s(s));
    out
}

// --- line extension ---

pub(crate) fn extend_h_lines(g: &Grid) -> (r: Grid)
    requires
        grid_wf(g),
    ensures
        grid_view(&r) == extend_h_lines_s(grid_view(g)),
        grid_wf(&r),
{
    let ghost s = grid_view(g);
    let rows = g.len();
    let cols = if rows == 0 { 0 } else { g[0].len() };
    let mut out: Grid = Vec::new();
    let mut i: usize = 0;
    while i < rows
        invariant
            0 <= i <= rows,
            grid_wf(g),
            s == grid_view(g),
            rows == rows_of(s),
            cols == cols_of(s),
            out@.len() == i,
            forall|k: int| 0 <= k < i ==> #[trigger] out@[k]@ =~= Seq::new(
                cols as nat,
                |c: int| last_nz_row(s[k], cols as int),
            ),
        decreases rows - i,
    {
        let row = &g[i];
        assert(row@ == s[i as int]);
        let mut last: u8 = 0;
        let mut j: usize = 0;
        while j < row.len()
            invariant
                0 <= j <= row.len(),
                last == last_nz_row(row@, j as int),
            decreases row.len() - j,
        {
            if row[j] != 0 {
                last = row[j];
            }
            j += 1;
        }
        let mut nr: Vec<u8> = Vec::new();
        let mut j2: usize = 0;
        while j2 < cols
            invariant
                0 <= j2 <= cols,
                nr@.len() == j2,
                forall|k: int| 0 <= k < j2 ==> nr@[k] == last,
            decreases cols - j2,
        {
            nr.push(last);
            j2 += 1;
        }
        assert(nr@ =~= Seq::new(cols as nat, |c: int| last_nz_row(s[i as int], cols as int)));
        out.push(nr);
        i += 1;
    }
    assert(grid_view(&out) =~~= extend_h_lines_s(s));
    out
}

pub(crate) fn extend_v_lines(g: &Grid) -> (r: Grid)
    requires
        grid_wf(g),
    ensures
        grid_view(&r) == extend_v_lines_s(grid_view(g)),
        grid_wf(&r),
{
    let ghost s = grid_view(g);
    let rows = g.len();
    let cols = if rows == 0 { 0 } else { g[0].len() };
    let mut lasts: Vec<u8> = Vec::new();
    let mut c: usize = 0;
    while c < cols
        invariant
            0 <= c <= cols,
            grid_wf(g),
            s == grid_view(g),
            rows == rows_of(s),
            cols == cols_of(s),
            lasts@.len() == c,
            forall|k: int| 0 <= k < c ==> lasts@[k] == last_nz_col(s, k, rows as int),
        decreases cols - c,
    {
        let mut last: u8 = 0;
        let mut i: usize = 0;
        while i < rows
            invariant
                0 <= i <= rows,
                0 <= c < cols,
                grid_wf(g),
                s == grid_view(g),
                rows == rows_of(s),
                cols == cols_of(s),
                last == last_nz_col(s, c as int, i as int),
            decreases rows - i,
        {
            if g[i][c] != 0 {
                last = g[i][c];
            }
            i += 1;
        }
        lasts.push(last);
        c += 1;
    }
    let mut out: Grid = Vec::new();
    let mut i: usize = 0;
    while i < rows
        invariant
            0 <= i <= rows,
            grid_wf(g),
            s == grid_view(g),
            rows == rows_of(s),
            cols == cols_of(s),
            lasts@.len() == cols,
            forall|k: int| 0 <= k < cols ==> lasts@[k] == last_nz_col(s, k, rows as int),
            out@.len() == i,
            forall|k: int| 0 <= k < i ==> #[trigger] out@[k]@ =~= Seq::new(
                cols as nat,
                |c2: int| last_nz_col(s, c2, rows as int),
            ),
        decreases rows - i,
    {
        let mut nr: Vec<u8> = Vec::new();
        let mut j: usize = 0;
        while j < cols
            invariant
                0 <= j <= cols,
                lasts@.len() == cols,
                forall|k: int| 0 <= k < cols ==> lasts@[k] == last_nz_col(s, k, rows as int),
                nr@.len() == j,
                forall|k: int| 0 <= k < j ==> nr@[k] == last_nz_col(s, k, rows as int),
            decreases cols - j,
        {
            nr.push(lasts[j]);
            j += 1;
        }
        assert(nr@ =~= Seq::new(cols as nat, |c2: int| last_nz_col(s, c2, rows as int)));
        out.push(nr);
        i += 1;
    }
    assert(grid_view(&out) =~~= extend_v_lines_s(s));
    out
}

// --- cross extension ---

fn left_nz_exec(row: &Vec<u8>) -> (t: i64)
    requires
        row@.len() <= GRID_MAX,
    ensures
        t == left_nz(row@, 0),
{
    let mut j: usize = 0;
    while j < row.len()
        invariant
            0 <= j <= row.len(),
            row@.len() <= GRID_MAX,
            left_nz(row@, 0) == left_nz(row@, j as int),
        decreases row.len() - j,
    {
        if row[j] != 0 {
            return j as i64;
        }
        j += 1;
    }
    -1
}

fn top_nz_exec(g: &Grid, c: usize) -> (t: i64)
    requires
        grid_wf(g),
        c < cols_of(grid_view(g)),
    ensures
        t == top_nz(grid_view(g), c as int, 0),
{
    let ghost s = grid_view(g);
    let mut i: usize = 0;
    while i < g.len()
        invariant
            0 <= i <= g.len(),
            grid_wf(g),
            s == grid_view(g),
            c < cols_of(s),
            top_nz(s, c as int, 0) == top_nz(s, c as int, i as int),
        decreases g.len() - i,
    {
        if g[i][c] != 0 {
            return i as i64;
        }
        i += 1;
    }
    -1
}

/// The index `left_nz` finds points at a set cell at or after `i`.
proof fn lemma_left_nz_bounds(row: Seq<u8>, i: int)
    requires
        0 <= i,
    ensures
        left_nz(row, i) == -1 || (i <= left_nz(row, i) < row.len() && row[left_nz(row, i)] != 0),
    decreases row.len() - i,
{
    if 0 <= i < row.len() && row[i] == 0 {
        lemma_left_nz_bounds(row, i + 1);
    }
}

/// The index `top_nz` finds points at a set cell at or after `i`.
proof fn lemma_top_nz_bounds(s: Seq<Seq<u8>>, c: int, i: int)
    requires
        0 <= i,
    ensures
        top_nz(s, c, i) == -1 || (i <= top_nz(s, c, i) < s.len() && s[top_nz(s, c, i)][c] != 0),
    decreases s.len() - i,
{
    if 0 <= i < s.len() && s[i][c] == 0 {
        lemma_top_nz_bounds(s, c, i + 1);
    }
}

pub(crate) fn extend_cross(g: &Grid) -> (r: Grid)
    requires
        grid_wf(g),
    ensures
        grid_view(&r) == extend_cross_s(grid_view(g)),
        grid_wf(&r),
{
    let ghost s = grid_view(g);
    let rows = g.len();
    let cols = if rows == 0 { 0 } else { g[0].len() };
    let mut tops: Vec<i64> = Vec::new();
    let mut c: usize = 0;
    while c < cols
        invariant
            0 <= c <= cols,
            grid_wf(g),
            s == grid_view(g),
            rows == rows_of(s),
            cols == cols_of(s),
            tops@.len() == c,
            forall|k: int| 0 <= k < c ==> tops@[k] == top_nz(s, k, 0),
        decreases cols - c,
    {
        tops.push(top_nz_exec(g, c));
        c += 1;
    }
    let mut out: Grid = Vec::new();
    let mut i: usize = 0;
    while i < rows
        invariant
            0 <= i <= rows,
            grid_wf(g),
            s == grid_view(g),
            rows == rows_of(s),
            cols == cols_of(s),
            tops@.len() == cols,
            forall|k: int| 0 <= k < cols ==> tops@[k] == top_nz(s, k, 0),
            out@.len() == i,
            forall|k: int| 0 <= k < i ==> #[trigger] out@[k]@ =~= Seq::new(
                cols as nat,
                |c2: int| extend_cross_cell(s, k, c2),
            ),
        decreases rows - i,
    {
        let row = &g[i];
        assert(row@ == s[i as int]);
        let l = left_nz_exec(row);
        proof {
            lemma_left_nz_bounds(row@, 0);
        }
        let mut nr: Vec<u8> = Vec::new();
        let mut j: usize = 0;
        while j < cols
            invariant
                0 <= j <= cols,
                0 <= i < rows,
                grid_wf(g),
                s == grid_view(g),
                rows == rows_of(s),
                cols == cols_of(s),
                row@ == s[i as int],
                l == left_nz(s[i as int], 0),
                l == -1 || (0 <= l < cols && s[i as int][l as int] != 0),
                tops@.len() == cols,
                forall|k: int| 0 <= k < cols ==> tops@[k] == top_nz(s, k, 0),
                nr@.len() == j,
                forall|k: int| 0 <= k < j ==> nr@[k] == extend_cross_cell(s, i as int, k),
            decreases cols - j,
        {
            let v = row[j];
            let val: u8;
            if v != 0 {
                val = v;
            } else {
                let t = tops[j];
                proof {
                    lemma_top_nz_bounds(s, j as int, 0);
                }
                if t >= 0 && (t as usize) < i {
                    val = g[t as usize][j];
                } else if l >= 0 {
                    val = row[l as usize];
                } else if t >= 0 {
                    val = g[t as usize][j];
                } else {
                    val = 0;
                }
            }
            assert(val == extend_cross_cell(s, i as int, j as int));
            nr.push(val);
            j += 1;
        }
        assert(nr@ =~= Seq::new(cols as nat, |c2: int| extend_cross_cell(s, i as int, c2)));
        out.push(nr);
        i += 1;
    }
    assert(grid_view(&out) =~~= extend_cross_s(s));
    out
}

// --- diagonal fills ---

fn diag_top_tl_exec(g: &Grid, d: i64) -> (t: i64)
    requires
        grid_wf(g),
        -2 * (GRID_MAX as i64) <= d <= 2 * (GRID_MAX as i64),
    ensures
        t == diag_top_tl(grid_view(g), d as int, 0),
{
    let ghost s = grid_view(g);
    let rows = g.len();
    let cols = if rows == 0 { 0 } else { g[0].len() };
    let mut i: usize = 0;
    while i < rows
        invariant
            0 <= i <= rows,
            grid_wf(g),
            s == grid_view(g),
            rows == rows_of(s),
            cols == cols_of(s),
            -2 * (GRID_MAX as i64) <= d <= 2 * (GRID_MAX as i64),
            diag_top_tl(s, d as int, 0) == diag_top_tl(s, d as int, i as int),
        decreases rows - i,
    {
        let c = i as i64 - d;
        if c >= 0 && (c as usize) < cols && g[i][c as usize] != 0 {
            assert(diag_top_tl(s, d as int, i as int) == i as int);
            return i as i64;
        }
        i += 1;
    }
    -1
}

/// The row `diag_top_tl` finds carries a set cell on diagonal `d`.
proof fn lemma_diag_top_tl_bounds(s: Seq<Seq<u8>>, d: int, i: int)
    requires
        0 <= i,
    ensures
        diag_top_tl(s, d, i) == -1 || (i <= diag_top_tl(s, d, i) < s.len() && 0 <= diag_top_tl(
            s,
            d,
            i,
        ) - d < cols_of(s) && s[diag_top_tl(s, d, i)][diag_top_tl(s, d, i) - d] != 0),
    decreases s.len() - i,
{
    if 0 <= i < s.len() && !(0 <= i - d < cols_of(s) && s[i][i - d] != 0) {
        lemma_diag_top_tl_bounds(s, d, i + 1);
    }
}

pub(crate) fn diag_fill_tl(g: &Grid) -> (r: Grid)
    requires
        grid_wf(g),
    ensures
        grid_view(&r) == diag_fill_tl_s(grid_view(g)),
        grid_wf(&r),
{
    let ghost s = grid_view(g);
    let rows = g.len();
    let cols = if rows == 0 { 0 } else { g[0].len() };
    let mut out: Grid = Vec::new();
    let mut i: usize = 0;
    while i < rows
        invariant
            0 <= i <= rows,
            grid_wf(g),
            s == grid_view(g),
            rows == rows_of(s),
            cols == cols_of(s),
            out@.len() == i,
            forall|k: int| 0 <= k < i ==> #[trigger] out@[k]@ =~= Seq::new(
                cols as nat,
                |c2: int| diag_fill_tl_cell(s, k, c2),
            ),
        decreases rows - i,
    {
        let mut nr: Vec<u8> = Vec::new();
        let mut j: usize = 0;
        while j < cols
            invariant
                0 <= j <= cols,
                0 <= i < rows,
                grid_wf(g),
                s == grid_view(g),
                rows == rows_of(s),
                cols == cols_of(s),
                nr@.len() == j,
                forall|k: int| 0 <= k < j ==> nr@[k] == diag_fill_tl_cell(s, i as int, k),
            decreases cols - j,
        {
            let v = g[i][j];
            let val: u8;
            if v != 0 {
                val = v;
            } else {
                let d = i as i64 - j as i64;
                let t = diag_top_tl_exec(g, d);
                proof {
                    lemma_diag_top_tl_bounds(s, d as int, 0);
                }
                if t >= 0 {
                    val = g[t as usize][(t - d) as usize];
                } else {
                    val = 0;
                }
            }
            assert(val == diag_fill_tl_cell(s, i as int, j as int));
            nr.push(val);
            j += 1;
        }
        assert(nr@ =~= Seq::new(cols as nat, |c2: int| diag_fill_tl_cell(s, i as int, c2)));
        out.push(nr);
        i += 1;
    }
    assert(grid_view(&out) =~~= diag_fill_tl_s(s));
    out
}

fn diag_top_tr_exec(g: &Grid, d: i64) -> (t: i64)
    requires
        grid_wf(g),
        0 <= d <= 2 * GRID_MAX,
    ensures
        t == diag_top_tr(grid_view(g), d as int, 0),
{
    let ghost s = grid_view(g);
    let rows = g.len();
    let cols = if rows == 0 { 0 } else { g[0].len() };
    let mut i: usize = 0;
    while i < rows
        invariant
            0 <= i <= rows,
            grid_wf(g),
            s == grid_view(g),
            rows == rows_of(s),
            cols == cols_of(s),
            0 <= d <= 2 * GRID_MAX,
            diag_top_tr(s, d as int, 0) == diag_top_tr(s, d as int, i as int),
        decreases rows - i,
    {
        let c = d - i as i64;
        if c >= 0 && (c as usize) < cols && g[i][c as usize] != 0 {
            return i as i64;
        }
        i += 1;
    }
    -1
}

/// The row `diag_top_tr` finds carries a set cell on anti-diagonal `d`.
proof fn lemma_diag_top_tr_bounds(s: Seq<Seq<u8>>, d: int, i: int)
    requires
        0 <= i,
    ensures
        diag_top_tr(s, d, i) == -1 || (i <= diag_top_tr(s, d, i) < s.len() && 0 <= d - diag_top_tr(
            s,
            d,
            i,
        ) < cols_of(s) && s[diag_top_tr(s, d, i)][d - diag_top_tr(s, d, i)] != 0),
    decreases s.len() - i,
{
    if 0 <= i < s.len() && !(0 <= d - i < cols_of(s) && s[i][d - i] != 0) {
        lemma_diag_top_tr_bounds(s, d, i + 1);
    }
}

pub(crate) fn diag_fill_tr(g: &Grid) -> (r: Grid)
    requires
        grid_wf(g),
    ensures
        grid_view(&r) == diag_fill_tr_s(grid_view(g)),
        grid_wf(&r),
{
    let ghost s = grid_view(g);
    let rows = g.len();
    let cols = if rows == 0 { 0 } else { g[0].len() };
    let mut out: Grid = Vec::new();
    let mut i: usize = 0;
    while i < rows
        invariant
            0 <= i <= rows,
            grid_wf(g),
            s == grid_view(g),
            rows == rows_of(s),
            cols == cols_of(s),
            out@.len() == i,
            forall|k: int| 0 <= k < i ==> #[trigger] out@[k]@ =~= Seq::new(
                cols as nat,
                |c2: int| diag_fill_tr_cell(s, k, c2),
            ),
        decreases rows - i,
    {
        let mut nr: Vec<u8> = Vec::new();
        let mut j: usize = 0;
        while j < cols
            invariant
                0 <= j <= cols,
                0 <= i < rows,
                grid_wf(g),
                s == grid_view(g),
                rows == rows_of(s),
                cols == cols_of(s),
                nr@.len() == j,
                forall|k: int| 0 <= k < j ==> nr@[k] == diag_fill_tr_cell(s, i as int, k),
            decreases cols - j,
        {
            let v = g[i][j];
            let val: u8;
            if v != 0 {
                val = v;
            } else {
                let d = i as i64 + j as i64;
                let t = diag_top_tr_exec(g, d);
                proof {
                    lemma_diag_top_tr_bounds(s, d as int, 0);
                }
                if t >= 0 {
                    val = g[t as usize][(d - t) as usize];
                } else {
                    val = 0;
                }
            }
            assert(val == diag_fill_tr_cell(s, i as int, j as int));
            nr.push(val);
            j += 1;
        }
        assert(nr@ =~= Seq::new(cols as nat, |c2: int| diag_fill_tr_cell(s, i as int, c2)));
        out.push(nr);
        i += 1;
    }
    assert(grid_view(&out) =~~= diag_fill_tr_s(s));
    out
}

// --- bounding box ---

/// The index `right_nz` finds points at a set cell before `i`.
proof fn lemma_right_nz_bounds(row: Seq<u8>, i: int)
    requires
        i <= row.len(),
    ensures
        right_nz(row, i) == -1 || (0 <= right_nz(row, i) < i && row[right_nz(row, i)] != 0),
    decreases i,
{
    if i > 0 && row[i - 1] == 0 {
        lemma_right_nz_bounds(row, i - 1);
    }
}

/// When a row has a first set cell it also has a last one, no earlier.
proof fn lemma_left_right_nz(row: Seq<u8>, i: int)
    requires
        0 <= i <= row.len(),
        left_nz(row, i) >= 0,
    ensures
        right_nz(row, row.len() as int) >= left_nz(row, i),
    decreases row.len() - i,
{
    lemma_left_nz_bounds(row, i);
    let l = left_nz(row, i);
    lemma_right_after(row, row.len() as int, l);
}

/// A set cell at `p` forces `right_nz` past `p` to find `p` or later.
proof fn lemma_right_after(row: Seq<u8>, i: int, p: int)
    requires
        0 <= p < i <= row.len(),
        row[p] != 0,
    ensures
        right_nz(row, i) >= p,
    decreases i,
{
    if i - 1 > p && row[i - 1] == 0 {
        lemma_right_after(row, i - 1, p);
    }
}

/// A row with no first set cell has no set cell at all.
proof fn lemma_left_nz_none(row: Seq<u8>, i: int)
    requires
        0 <= i,
        left_nz(row, i) == -1,
    ensures
        forall|k: int| i <= k < row.len() ==> row[k] == 0,
    decreases row.len() - i,
{
    if i < row.len() {
        lemma_left_nz_none(row, i + 1);
    }
}

/// An all-clear prefix yields no last set cell.
proof fn lemma_right_nz_none(row: Seq<u8>, i: int)
    requires
        0 <= i <= row.len(),
        forall|k: int| 0 <= k < i ==> row[k] == 0,
    ensures
        right_nz(row, i) == -1,
    decreases i,
{
    if i > 0 {
        lemma_right_nz_none(row, i - 1);
    }
}

/// Facts tying the four bounding-box scans together: either no cell is
/// set and all scans are empty, or the box is ordered and inside the
/// grid.
pub(crate) proof fn lemma_bbox(s: Seq<Seq<u8>>, n: int)
    requires
        0 <= n <= s.len(),
        crate::grid::rect(s),
    ensures
        bbox_min_r(s, n) == -1 ==> bbox_max_r(s, n) == -1 && bbox_min_c(s, n) == cols_of(s)
            && bbox_max_c(s, n) == -1,
        bbox_min_r(s, n) >= 0 ==> bbox_min_r(s, n) <= bbox_max_r(s, n) < n && 0 <= bbox_min_c(
            s,
            n,
        ) <= bbox_max_c(s, n) < cols_of(s),
    decreases n,
{
    if n > 0 {
        let row = s[n - 1];
        assert(row.len() == cols_of(s));
        lemma_left_nz_bounds(row, 0);
        lemma_right_nz_bounds(row, row.len() as int);
        lemma_bbox(s, n - 1);
        if left_nz(row, 0) >= 0 {
            lemma_left_right_nz(row, 0);
        } else {
            lemma_left_nz_none(row, 0);
            lemma_right_nz_none(row, row.len() as int);
        }
    }
}

pub(crate) fn crop_to_bbox(g: &Grid) -> (r: Grid)
    requires
        grid_wf(g),
    ensures
        grid_view(&r) == crop_to_bbox_s(grid_view(g)),
        grid_wf(&r),
{
    let ghost s = grid_view(g);
    let rows = g.len();
    let cols = if rows == 0 { 0 } else { g[0].len() };
    if rows == 0 {
        let r = clone_grid(g);
        assert(grid_view(&r) == crop_to_bbox_s(s));
        return r;
    }
    let mut minr: i64 = -1;
    let mut maxr: i64 = -1;
    let mut minc: i64 = cols as i64;
    let mut maxc: i64 = -1;
    let mut i: usize = 0;
    while i < rows
        invariant
            0 <= i <= rows,
            grid_wf(g),
            s == grid_view(g),
            rows == rows_of(s),
            cols == cols_of(s),
            minr == bbox_min_r(s, i as int),
            maxr == bbox_max_r(s, i as int),
            minc == bbox_min_c(s, i as int),
            maxc == bbox_max_c(s, i as int),
            -1 <= minr < rows,
            -1 <= maxr < rows,
            0 <= minc <= cols,
            -1 <= maxc < cols,
        decreases rows - i,
    {
        let row = &g[i];
        assert(row@ == s[i as int]);
        let l = left_nz_exec(row);
        let rr = right_nz_exec(row);
        proof {
            lemma_left_nz_bounds(row@, 0);
            lemma_right_nz_bounds(row@, row@.len() as int);
        }
        if l >= 0 {
            if minr == -1 {
                minr = i as i64;
            }
            maxr = i as i64;
            if l < minc {
                minc = l;
            }
        }
        if rr > maxc {
            maxc = rr;
        }
        i += 1;
    }
    if minr < 0 {
        let r = grid_filled(1, 1, 0);
        assert(grid_view(&r) =~~= crop_to_bbox_s(s));
        return r;
    }
    proof {
        lemma_bbox(s, rows as int);
    }
    let r = crop(
        g,
        minr as usize,
        minc as usize,
        (maxr - minr + 1) as usize,
        (maxc - minc + 1) as usize,
    );
    assert(grid_view(&r) == crop_to_bbox_s(s));
    r
}

fn right_nz_exec(row: &Vec<u8>) -> (t: i64)
    requires
        row@.len() <= GRID_MAX,
    ensures
        t == right_nz(row@, row@.len() as int),
{
    let mut j: usize = row.len();
    while j > 0
        invariant
            0 <= j <= row.len(),
            row@.len() <= GRID_MAX,
            right_nz(row@, row@.len() as int) == right_nz(row@, j as int),
        decreases j,
    {
        if row[j - 1] != 0 {
            return (j - 1) as i64;
        }
        j -= 1;
    }
    -1
}

// --- row sorting ---

fn row_key_exec(row: &Vec<u8>) -> (k: u8)
    ensures
        k == row_key(row@, 0),
{
    let mut j: usize = 0;
    while j < row.len()
        invariant
            0 <= j <= row.len(),
            row_key(row@, 0) == row_key(row@, j as int),
        decreases row.len() - j,
    {
        if row[j] != 0 {
            return row[j];
        }
        j += 1;
    }
    255
}

/// Inserting at the position the scan found matches the recursive
/// stable insertion.
proof fn lemma_insert_at(rows: Seq<Seq<u8>>, x: Seq<u8>, p: int)
    requires
        0 <= p <= rows.len(),
        forall|q: int| 0 <= q < p ==> !(row_key(x, 0) < row_key(#[trigger] rows[q], 0)),
        p < rows.len() ==> row_key(x, 0) < row_key(rows[p], 0),
    ensures
        insert_row_s(rows, x) =~= rows.insert(p, x),
    decreases rows.len(),
{
    if rows.len() == 0 {
    } else if row_key(x, 0) < row_key(rows[0], 0) {
        assert(p == 0);
    } else {
        assert(p >= 1);
        lemma_insert_at(rows.drop_first(), x, p - 1);
        assert(insert_row_s(rows, x) =~= seq![rows[0]] + insert_row_s(rows.drop_first(), x));
        assert(seq![rows[0]] + rows.drop_first().insert(p - 1, x) =~= rows.insert(p, x));
    }
}

/// Stable insertion keeps the row count and the row lengths.
pub(crate) proof fn lemma_insert_row_wf(rows: Seq<Seq<u8>>, x: Seq<u8>, len: int)
    requires
        forall|q: int| 0 <= q < rows.len() ==> (#[trigger] rows[q]).len() == len,
        x.len() == len,
    ensures
        insert_row_s(rows, x).len() == rows.len() + 1,
        forall|q: int| 0 <= q < rows.len() + 1 ==> (#[trigger] insert_row_s(rows, x)[q]).len()
            == len,
    decreases rows.len(),
{
    if rows.len() == 0 {
    } else if row_key(x, 0) < row_key(rows[0], 0) {
    } else {
        lemma_insert_row_wf(rows.drop_first(), x, len);
    }
}

/// Sorting keeps the row count and the row lengths.
pub(crate) proof fn lemma_sort_rows_wf(s: Seq<Seq<u8>>, n: int, len: int)
    requires
        0 <= n <= s.len(),
        forall|q: int| 0 <= q < s.len() ==> (#[trigger] s[q]).len() == len,
    ensures
        sort_rows_s(s, n).len() == n,
        forall|q: int| 0 <= q < n ==> (#[trigger] sort_rows_s(s, n)[q]).len() == len,
    decreases n,
{
    if n > 0 {
        lemma_sort_rows_wf(s, n - 1, len);
        lemma_insert_row_wf(sort_rows_s(s, n - 1), s[n - 1], len);
    }
}

pub(crate) fn sort_rows_by_color(g: &Grid) -> (r: Grid)
    requires
        grid_wf(g),
    ensures
        grid_view(&r) == sort_rows_by_color_s(grid_view(g)),
        grid_wf(&r),
{
    let ghost s = grid_view(g);
    let rows = g.len();
    let cols = if rows == 0 { 0 } else { g[0].len() };
    let mut out: Grid = Vec::new();
    let mut i: usize = 0;
    while i < rows
        invariant
            0 <= i <= rows,
            grid_wf(g),
            s == grid_view(g),
            rows == rows_of(s),
            cols == cols_of(s),
            out@.len() == i,
            Seq::new(out@.len(), |k: int| out@[k]@) =~= sort_rows_s(s, i as int),
        decreases rows - i,
    {
        let ghost sorted = sort_rows_s(s, i as int);
        let row = &g[i];
        assert(row@ == s[i as int]);
        let mut nr: Vec<u8> = Vec::new();
        let mut j: usize = 0;
        while j < row.len()
            invariant
                0 <= j <= row.len(),
                nr@.len() == j,
                forall|k: int| 0 <= k < j ==> nr@[k] == row@[k],
            decreases row.len() - j,
        {
            nr.push(row[j]);
            j += 1;
        }
        assert(nr@ =~= s[i as int]);
        let kx = row_key_exec(&nr);
        let mut p: usize = 0;
        while p < out.len()
            invariant_except_break
                0 <= p <= out.len(),
                out@.len() == i,
                kx == row_key(nr@, 0),
                Seq::new(out@.len(), |k: int| out@[k]@) =~= sorted,
                forall|q: int| 0 <= q < p ==> !(row_key(nr@, 0) < row_key(
                    #[trigger] sorted[q],
                    0,
                )),
            ensures
                0 <= p <= out.len(),
                out@.len() == i,
                kx == row_key(nr@, 0),
                Seq::new(out@.len(), |k: int| out@[k]@) =~= sorted,
                forall|q: int| 0 <= q < p ==> !(row_key(nr@, 0) < row_key(
                    #[trigger] sorted[q],
                    0,
                )),
                p < out.len() ==> row_key(nr@, 0) < row_key(sorted[p as int], 0),
            decreases out.len() - p,
        {
            let ko = row_key_exec(&out[p]);
            assert(out@[p as int]@ == sorted[p as int]);
            if kx < ko {
                break;
            }
            p += 1;
        }
        proof {
            lemma_insert_at(sorted, nr@, p as int);
        }
        let ghost before = out@;
        out.insert(p, nr);
        assert(insert_row_s(sorted, nr@) =~= sorted.insert(p as int, nr@));
        assert forall|k: int| 0 <= k < out@.len() implies #[trigger] out@[k]@ == insert_row_s(
            sorted,
            nr@,
        )[k] by {
            if k < p {
                assert(out@[k] == before[k]);
            } else if k == p {
                assert(out@[k] == nr);
            } else {
                assert(out@[k] == before[k - 1]);
            }
        }
        assert(Seq::new(out@.len(), |k: int| out@[k]@) =~= sort_rows_s(s, i as int + 1));
        i += 1;
    }
    proof {
        lemma_sort_rows_wf(s, rows as int, cols as int);
    }
    assert(grid_view(&out) =~~= sort_rows_by_color_s(s));
    out
}

pub(crate) fn sort_cols_by_color(g: &Grid) -> (r: Grid)
    requires
        grid_wf(g),
    ensures
        grid_view(&r) == sort_cols_by_color_s(grid_view(g)),
        grid_wf(&r),
{
    let t = transpose(g);
    let t2 = sort_rows_by_color(&t);
    transpose(&t2)
}

} // verus!
