//! Executable grid primitives whose result is a per-cell function of
//! the input: geometry, color maps, and size changes. Each returns
//! exactly the grid its model in `model` describes.

use vstd::prelude::*;
use crate::grid::{Grid, grid_view, grid_wf, rows_of, cols_of, GRID_MAX};
use crate::model::{
    rotate_cw_s, rotate_ccw_s, rotate180_s, flip_h_s, flip_v_s, transpose_s, fill_color_s,
    replace_color_s, filter_color_s, border_fill_s, outline_objects_s, on_object_border,
    crop_s, crop_rows_s, crop_cols_s, pad_s, scale_s, upscale_objects_s, repeat_h_s, repeat_v_s,
    mirror_h_s, mirror_v_s, translate_s, in_grid, dims_ok,
};

verus! {

broadcast use crate::grid::lemma_grid_row_len;

/// An element-wise copy of a grid.
pub fn clone_grid(g: &Grid) -> (r: Grid)
    ensures
        grid_view(&r) =~~= grid_view(g),
        grid_view(&r) == grid_view(g),
{
    let mut out: Grid = Vec::new();
    let mut i: usize = 0;
    while i < g.len()
        invariant
            0 <= i <= g.len(),
            out@.len() == i,
            forall|k: int| 0 <= k < i ==> #[trigger] out@[k]@ =~= grid_view(g)[k],
        decreases g.len() - i,
    {
        let row = &g[i];
        let mut nr: Vec<u8> = Vec::new();
        let mut j: usize = 0;
        while j < row.len()
            invariant
                0 <= j <= row.len(),
                nr@.len() == j,
                forall|k: int| 0 <= k < j ==> nr@[k] == row@[k],
            decreases row.len() - j,
        {
            nr.push(row[j]);
            j += 1;
        }
        assert(nr@ =~= grid_view(g)[i as int]);
        out.push(nr);
        i += 1;
    }
    assert(grid_view(&out) =~~= grid_view(g));
    out
}

pub(crate) fn rotate_cw(g: &Grid) -> (r: Grid)
    requires
        grid_wf(g),
    ensures
        grid_view(&r) == rotate_cw_s(grid_view(g)),
        grid_wf(&r),
{
    let ghost s = grid_view(g);
    let rows = g.len();
    let cols = if rows == 0 { 0 } else { g[0].len() };
    let mut out: Grid = Vec::new();
    let mut i: usize = 0;
    while i < cols
        invariant
            0 <= i <= cols,
            grid_wf(g),
            s == grid_view(g),
            rows == rows_of(s),
            cols == cols_of(s),
            out@.len() == i,
            forall|k: int| 0 <= k < i ==> #[trigger] out@[k]@ =~= Seq::new(
                rows as nat,
                |c: int| s[rows - 1 - c][k],
            ),
        decreases cols - i,
    {
        let mut nr: Vec<u8> = Vec::new();
        let mut j: usize = 0;
        while j < rows
            invariant
                0 <= j <= rows,
                0 <= i < cols,
                grid_wf(g),
                s == grid_view(g),
                rows == rows_of(s),
                cols == cols_of(s),
                nr@.len() == j,
                forall|k: int| 0 <= k < j ==> nr@[k] == s[rows - 1 - k][i as int],
            decreases rows - j,
        {
            nr.push(g[rows - 1 - j][i]);
            j += 1;
        }
        assert(nr@ =~= Seq::new(rows as nat, |c: int| s[rows - 1 - c][i as int]));
        out.push(nr);
        i += 1;
    }
    assert(grid_view(&out) =~~= rotate_cw_s(s));
    out
}

pub(crate) fn rotate_ccw(g: &Grid) -> (r: Grid)
    requires
        grid_wf(g),
    ensures
        grid_view(&r) == rotate_ccw_s(grid_view(g)),
        grid_wf(&r),
{
    let ghost s = grid_view(g);
    let rows = g.len();
    let cols = if rows == 0 { 0 } else { g[0].len() };
    let mut out: Grid = Vec::new();
    let mut i: usize = 0;
    while i < cols
        invariant
            0 <= i <= cols,
            grid_wf(g),
            s == grid_view(g),
            rows == rows_of(s),
            cols == cols_of(s),
            out@.len() == i,
            forall|k: int| 0 <= k < i ==> #[trigger] out@[k]@ =~= Seq::new(
                rows as nat,
                |c: int| s[c][cols - 1 - k],
            ),
        decreases cols - i,
    {
        let mut nr: Vec<u8> = Vec::new();
        let mut j: usize = 0;
        while j < rows
            invariant
                0 <= j <= rows,
                0 <= i < cols,
                grid_wf(g),
                s == grid_view(g),
                rows == rows_of(s),
                cols == cols_of(s),
                nr@.len() == j,
                forall|k: int| 0 <= k < j ==> nr@[k] == s[k][cols - 1 - i],
            decreases rows - j,
        {
            nr.push(g[j][cols - 1 - i]);
            j += 1;
        }
        assert(nr@ =~= Seq::new(rows as nat, |c: int| s[c][cols - 1 - i]));
        out.push(nr);
        i += 1;
    }
    assert(grid_view(&out) =~~= rotate_ccw_s(s));
    out
}

pub(crate) fn flip_h(g: &Grid) -> (r: Grid)
    requires
        grid_wf(g),
    ensures
        grid_view(&r) == flip_h_s(grid_view(g)),
        grid_wf(&r),
{
    let ghost s = grid_view(g);
    let rows = g.len();
    let cols = if rows == 0 { 0 } else { g[0].len() };
    let mut out: Grid = Vec::new();
    let mut i: usize = 0;
    while i < rows
        invariant
            0 <= i <= rows,
            grid_wf(g),
            s == grid_view(g),
            rows == rows_of(s),
            cols == cols_of(s),
            out@.len() == i,
            forall|k: int| 0 <= k < i ==> #[trigger] out@[k]@ =~= Seq::new(
                cols as nat,
                |c: int| s[k][cols - 1 - c],
            ),
        decreases rows - i,
    {
        let mut nr: Vec<u8> = Vec::new();
        let mut j: usize = 0;
        while j < cols
            invariant
                0 <= j <= cols,
                0 <= i < rows,
                grid_wf(g),
                s == grid_view(g),
                rows == rows_of(s),
                cols == cols_of(s),
                nr@.len() == j,
                forall|k: int| 0 <= k < j ==> nr@[k] == s[i as int][cols - 1 - k],
            decreases cols - j,
        {
            nr.push(g[i][cols - 1 - j]);
            j += 1;
        }
        assert(nr@ =~= Seq::new(cols as nat, |c: int| s[i as int][cols - 1 - c]));
        out.push(nr);
        i += 1;
    }
    assert(grid_view(&out) =~~= flip_h_s(s));
    out
}

pub(crate) fn flip_v(g: &Grid) -> (r: Grid)
    requires
        grid_wf(g),
    ensures
        grid_view(&r) == flip_v_s(grid_view(g)),
        grid_wf(&r),
{
    let ghost s = grid_view(g);
    let rows = g.len();
    let cols = if rows == 0 { 0 } else { g[0].len() };
    let mut out: Grid = Vec::new();
    let mut i: usize = 0;
    while i < rows
        invariant
            0 <= i <= rows,
            grid_wf(g),
            s == grid_view(g),
            rows == rows_of(s),
            cols == cols_of(s),
            out@.len() == i,
            forall|k: int| 0 <= k < i ==> #[trigger] out@[k]@ =~= Seq::new(
                cols as nat,
                |c: int| s[rows - 1 - k][c],
            ),
        decreases rows - i,
    {
        let mut nr: Vec<u8> = Vec::new();
        let mut j: usize = 0;
        while j < cols
            invariant
                0 <= j <= cols,
                0 <= i < rows,
                grid_wf(g),
                s == grid_view(g),
                rows == rows_of(s),
                cols == cols_of(s),
                nr@.len() == j,
                forall|k: int| 0 <= k < j ==> nr@[k] == s[rows - 1 - i][k],
            decreases cols - j,
        {
            nr.push(g[rows - 1 - i][j]);
            j += 1;
        }
        assert(nr@ =~= Seq::new(cols as nat, |c: int| s[rows - 1 - i][c]));
        out.push(nr);
        i += 1;
    }
    assert(grid_view(&out) =~~= flip_v_s(s));
    out
}

pub(crate) fn transpose(g: &Grid) -> (r: Grid)
    requires
        grid_wf(g),
    ensures
        grid_view(&r) == transpose_s(grid_view(g)),
        grid_wf(&r),
{
    let ghost s = grid_view(g);
    let rows = g.len();
    let cols = if rows == 0 { 0 } else { g[0].len() };
    let mut out: Grid = Vec::new();
    let mut i: usize = 0;
    while i < cols
        invariant
            0 <= i <= cols,
            grid_wf(g),
            s == grid_view(g),
            rows == rows_of(s),
            cols == cols_of(s),
            out@.len() == i,
            forall|k: int| 0 <= k < i ==> #[trigger] out@[k]@ =~= Seq::new(
                rows as nat,
                |c: int| s[c][k],
            ),
        decreases cols - i,
    {
        let mut nr: Vec<u8> = Vec::new();
        let mut j: usize = 0;
        while j < rows
            invariant
                0 <= j <= rows,
                0 <= i < cols,
                grid_wf(g),
                s == grid_view(g),
                rows == rows_of(s),
                cols == cols_of(s),
                nr@.len() == j,
                forall|k: int| 0 <= k < j ==> nr@[k] == s[k][i as int],
            decreases rows - j,
        {
            nr.push(g[j][i]);
            j += 1;
        }
        assert(nr@ =~= Seq::new(rows as nat, |c: int| s[c][i as int]));
        out.push(nr);
        i += 1;
    }
    assert(grid_view(&out) =~~= transpose_s(s));
    out
}

pub(crate) fn rotate180(g: &Grid) -> (r: Grid)
    requires
        grid_wf(g),
    ensures
        grid_view(&r) == rotate180_s(grid_view(g)),
        grid_wf(&r),
{
    let t = rotate_cw(g);
    rotate_cw(&t)
}

/// Shared shape of all per-cell recolorings: `FillColor`, `ReplaceColor`,
/// `FilterColor`, `BorderFill` and `OutlineObjects` differ only in the
/// cell formula, so each gets its own small builder below.
pub(crate) fn fill_color(g: &Grid, color: u8) -> (r: Grid)
    requires
        grid_wf(g),
    ensures
        grid_view(&r) == fill_color_s(grid_view(g), color),
        grid_wf(&r),
{
    let ghost s = grid_view(g);
    let rows = g.len();
    let cols = if rows == 0 { 0 } else { g[0].len() };
    let mut out: Grid = Vec::new();
    let mut i: usize = 0;
    while i < rows
        invariant
            0 <= i <= rows,
            grid_wf(g),
            s == grid_view(g),
            rows == rows_of(s),
            cols == cols_of(s),
            out@.len() == i,
            forall|k: int| 0 <= k < i ==> #[trigger] out@[k]@ =~= Seq::new(
                cols as nat,
                |c: int| if s[k][c] != 0 { color } else { 0u8 },
            ),
        decreases rows - i,
    {
        let mut nr: Vec<u8> = Vec::new();
        let mut j: usize = 0;
        while j < cols
            invariant
                0 <= j <= cols,
                0 <= i < rows,
                grid_wf(g),
                s == grid_view(g),
                rows == rows_of(s),
                cols == cols_of(s),
                nr@.len() == j,
                forall|k: int| 0 <= k < j ==> nr@[k] == (if s[i as int][k] != 0 {
                    color
                } else {
                    0u8
                }),
            decreases cols - j,
        {
            nr.push(if g[i][j] != 0 { color } else { 0 });
            j += 1;
        }
        assert(nr@ =~= Seq::new(
            cols as nat,
            |c: int| if s[i as int][c] != 0 { color } else { 0u8 },
        ));
        out.push(nr);
        i += 1;
    }
    assert(grid_view(&out) =~~= fill_color_s(s, color));
    out
}

pub(crate) fn replace_color(g: &Grid, from: u8, to: u8) -> (r: Grid)
    requires
        grid_wf(g),
    ensures
        grid_view(&r) == replace_color_s(grid_view(g), from, to),
        grid_wf(&r),
{
    let ghost s = grid_view(g);
    let rows = g.len();
    let cols = if rows == 0 { 0 } else { g[0].len() };
    let mut out: Grid = Vec::new();
    let mut i: usize = 0;
    while i < rows
        invariant
            0 <= i <= rows,
            grid_wf(g),
            s == grid_view(g),
            rows == rows_of(s),
            cols == cols_of(s),
            out@.len() == i,
            forall|k: int| 0 <= k < i ==> #[trigger] out@[k]@ =~= Seq::new(
                cols as nat,
                |c: int| if s[k][c] == from { to } else { s[k][c] },
            ),
        decreases rows - i,
    {
        let mut nr: Vec<u8> = Vec::new();
        let mut j: usize = 0;
        while j < cols
            invariant
                0 <= j <= cols,
                0 <= i < rows,
                grid_wf(g),
                s == grid_view(g),
                rows == rows_of(s),
                cols == cols_of(s),
                nr@.len() == j,
                forall|k: int| 0 <= k < j ==> nr@[k] == (if s[i as int][k] == from {
                    to
                } else {
                    s[i as int][k]
                }),
            decreases cols - j,
        {
            let v = g[i][j];
            nr.push(if v == from { to } else { v });
            j += 1;
        }
        assert(nr@ =~= Seq::new(
            cols as nat,
            |c: int| if s[i as int][c] == from { to } else { s[i as int][c] },
        ));
        out.push(nr);
        i += 1;
    }
    assert(grid_view(&out) =~~= replace_color_s(s, from, to));
    out
}

pub(crate) fn filter_color(g: &Grid, color: u8) -> (r: Grid)
    requires
        grid_wf(g),
    ensures
        grid_view(&r) == filter_color_s(grid_view(g), color),
        grid_wf(&r),
{
    let ghost s = grid_view(g);
    let rows = g.len();
    let cols = if rows == 0 { 0 } else { g[0].len() };
    let mut out: Grid = Vec::new();
    let mut i: usize = 0;
    while i < rows
        invariant
            0 <= i <= rows,
            grid_wf(g),
            s == grid_view(g),
            rows == rows_of(s),
            cols == cols_of(s),
            out@.len() == i,
            forall|k: int| 0 <= k < i ==> #[trigger] out@[k]@ =~= Seq::new(
                cols as nat,
                |c: int| if s[k][c] == color { color } else { 0u8 },
            ),
        decreases rows - i,
    {
        let mut nr: Vec<u8> = Vec::new();
        let mut j: usize = 0;
        while j < cols
            invariant
                0 <= j <= cols,
                0 <= i < rows,
                grid_wf(g),
                s == grid_view(g),
                rows == rows_of(s),
                cols == cols_of(s),
                nr@.len() == j,
                forall|k: int| 0 <= k < j ==> nr@[k] == (if s[i as int][k] == color {
                    color
                } else {
                    0u8
                }),
            decreases cols - j,
        {
            let v = g[i][j];
            nr.push(if v == color { v } else { 0 });
            j += 1;
        }
        assert(nr@ =~= Seq::new(
            cols as nat,
            |c: int| if s[i as int][c] == color { color } else { 0u8 },
        ));
        out.push(nr);
        i += 1;
    }
    assert(grid_view(&out) =~~= filter_color_s(s, color));
    out
}

pub(crate) fn border_fill(g: &Grid, color: u8) -> (r: Grid)
    requires
        grid_wf(g),
    ensures
        grid_view(&r) == border_fill_s(grid_view(g), color),
        grid_wf(&r),
{
    let ghost s = grid_view(g);
    let rows = g.len();
    let cols = if rows == 0 { 0 } else { g[0].len() };
    let mut out: Grid = Vec::new();
    let mut i: usize = 0;
    while i < rows
        invariant
            0 <= i <= rows,
            grid_wf(g),
            s == grid_view(g),
            rows == rows_of(s),
            cols == cols_of(s),
            out@.len() == i,
            forall|k: int| 0 <= k < i ==> #[trigger] out@[k]@ =~= Seq::new(
                cols as nat,
                |c: int| if k == 0 || k == rows - 1 || c == 0 || c == cols - 1 {
                    color
                } else {
                    s[k][c]
                },
            ),
        decreases rows - i,
    {
        let mut nr: Vec<u8> = Vec::new();
        let mut j: usize = 0;
        while j < cols
            invariant
                0 <= j <= cols,
                0 <= i < rows,
                grid_wf(g),
                s == grid_view(g),
                rows == rows_of(s),
                cols == cols_of(s),
                nr@.len() == j,
                forall|k: int| 0 <= k < j ==> nr@[k] == (if i == 0 || i == rows - 1 || k == 0 || k
                    == cols - 1 {
                    color
                } else {
                    s[i as int][k]
                }),
            decreases cols - j,
        {
            let on_border = i == 0 || i == rows - 1 || j == 0 || j == cols - 1;
            nr.push(if on_border { color } else { g[i][j] });
            j += 1;
        }
        assert(nr@ =~= Seq::new(
            cols as nat,
            |c: int| if i as int == 0 || i as int == rows - 1 || c == 0 || c == cols - 1 {
                color
            } else {
                s[i as int][c]
            },
        ));
        out.push(nr);
        i += 1;
    }
    assert(grid_view(&out) =~~= border_fill_s(s, color));
    out
}

pub(crate) fn outline_objects(g: &Grid, color: u8) -> (r: Grid)
    requires
        grid_wf(g),
    ensures
        grid_view(&r) == outline_objects_s(grid_view(g), color),
        grid_wf(&r),
{
    let ghost s = grid_view(g);
    let rows = g.len();
    let cols = if rows == 0 { 0 } else { g[0].len() };
    let mut out: Grid = Vec::new();
    let mut i: usize = 0;
    while i < rows
        invariant
            0 <= i <= rows,
            grid_wf(g),
            s == grid_view(g),
            rows == rows_of(s),
            cols == cols_of(s),
            out@.len() == i,
            forall|k: int| 0 <= k < i ==> #[trigger] out@[k]@ =~= Seq::new(
                cols as nat,
                |c: int| if s[k][c] != 0 && on_object_border(s, k, c) {
                    color
                } else {
                    s[k][c]
                },
            ),
        decreases rows - i,
    {
        let mut nr: Vec<u8> = Vec::new();
        let mut j: usize = 0;
        while j < cols
            invariant
                0 <= j <= cols,
                0 <= i < rows,
                grid_wf(g),
                s == grid_view(g),
                rows == rows_of(s),
                cols == cols_of(s),
                nr@.len() == j,
                forall|k: int| 0 <= k < j ==> nr@[k] == (if s[i as int][k] != 0
                    && on_object_border(s, i as int, k) {
                    color
                } else {
                    s[i as int][k]
                }),
            decreases cols - j,
        {
            let v = g[i][j];
            let mut edge = i == 0 || i == rows - 1 || j == 0 || j == cols - 1;
            if !edge {
                edge = g[i - 1][j] == 0 || g[i + 1][j] == 0 || g[i][j - 1] == 0 || g[i][j + 1]
                    == 0;
            }
            assert(edge == on_object_border(s, i as int, j as int));
            nr.push(if v != 0 && edge { color } else { v });
            j += 1;
        }
        assert(nr@ =~= Seq::new(
            cols as nat,
            |c: int| if s[i as int][c] != 0 && on_object_border(s, i as int, c) {
                color
            } else {
                s[i as int][c]
            },
        ));
        out.push(nr);
        i += 1;
    }
    assert(grid_view(&out) =~~= outline_objects_s(s, color));
    out
}

pub(crate) fn crop(g: &Grid, r0: usize, c0: usize, h: usize, w: usize) -> (r: Grid)
    requires
        grid_wf(g),
    ensures
        grid_view(&r) == crop_s(grid_view(g), r0 as int, c0 as int, h as int, w as int),
        grid_wf(&r),
{
    let ghost s = grid_view(g);
    let rows = g.len();
    let cols = if rows == 0 { 0 } else { g[0].len() };
    let nrows = if r0 >= rows { 0 } else if h <= rows - r0 { h } else { rows - r0 };
    let ncols = if c0 >= cols { 0 } else if w <= cols - c0 { w } else { cols - c0 };
    assert(nrows == crop_rows_s(s, r0 as int, h as int));
    assert(ncols == crop_cols_s(s, c0 as int, w as int));
    let mut out: Grid = Vec::new();
    let mut i: usize = 0;
    while i < nrows
        invariant
            0 <= i <= nrows,
            grid_wf(g),
            s == grid_view(g),
            rows == rows_of(s),
            cols == cols_of(s),
            nrows == 0 || r0 + nrows <= rows,
            ncols == 0 || c0 + ncols <= cols,
            out@.len() == i,
            forall|k: int| 0 <= k < i ==> #[trigger] out@[k]@ =~= Seq::new(
                ncols as nat,
                |c: int| s[r0 + k][c0 + c],
            ),
        decreases nrows - i,
    {
        let mut nr: Vec<u8> = Vec::new();
        let mut j: usize = 0;
        while j < ncols
            invariant
                0 <= j <= ncols,
                0 <= i < nrows,
                grid_wf(g),
                s == grid_view(g),
                rows == rows_of(s),
                cols == cols_of(s),
                nrows == 0 || r0 + nrows <= rows,
                ncols == 0 || c0 + ncols <= cols,
                nr@.len() == j,
                forall|k: int| 0 <= k < j ==> nr@[k] == s[r0 + i][c0 + k],
            decreases ncols - j,
        {
            nr.push(g[r0 + i][c0 + j]);
            j += 1;
        }
        assert(nr@ =~= Seq::new(ncols as nat, |c: int| s[r0 + i][c0 + c]));
        out.push(nr);
        i += 1;
    }
    assert(grid_view(&out) =~~= crop_s(s, r0 as int, c0 as int, h as int, w as int));
    out
}

pub(crate) fn pad(g: &Grid, n: usize, color: u8) -> (r: Grid)
    requires
        grid_wf(g),
    ensures
        grid_view(&r) == pad_s(grid_view(g), n as int, color),
        grid_wf(&r),
{
    let ghost s = grid_view(g);
    let rows = g.len();
    let cols = if rows == 0 { 0 } else { g[0].len() };
    if rows == 0 || n > (GRID_MAX - rows) / 2 || n > (GRID_MAX - cols) / 2 {
        assert(rows_of(s) == 0 || !dims_ok(rows_of(s) + 2 * (n as int), cols_of(s) + 2 * (
        n as int)));
        let r = clone_grid(g);
        assert(grid_view(&r) == pad_s(s, n as int, color));
        return r;
    }
    let nrows = rows + 2 * n;
    let ncols = cols + 2 * n;
    let mut out: Grid = Vec::new();
    let mut i: usize = 0;
    while i < nrows
        invariant
            0 <= i <= nrows,
            grid_wf(g),
            s == grid_view(g),
            rows == rows_of(s),
            cols == cols_of(s),
            nrows == rows + 2 * n <= GRID_MAX,
            ncols == cols + 2 * n <= GRID_MAX,
            out@.len() == i,
            forall|k: int| 0 <= k < i ==> #[trigger] out@[k]@ =~= Seq::new(
                ncols as nat,
                |c: int| if n <= k < n + rows && n <= c < n + cols {
                    s[k - n][c - n]
                } else {
                    color
                },
            ),
        decreases nrows - i,
    {
        let mut nr: Vec<u8> = Vec::new();
        let mut j: usize = 0;
        while j < ncols
            invariant
                0 <= j <= ncols,
                0 <= i < nrows,
                grid_wf(g),
                s == grid_view(g),
                rows == rows_of(s),
                cols == cols_of(s),
                nrows == rows + 2 * n <= GRID_MAX,
                ncols == cols + 2 * n <= GRID_MAX,
                nr@.len() == j,
                forall|k: int| 0 <= k < j ==> nr@[k] == (if n <= i < n + rows && n <= k < n
                    + cols {
                    s[i - n][k - n]
                } else {
                    color
                }),
            decreases ncols - j,
        {
            let inside = n <= i && i < n + rows && n <= j && j < n + cols;
            nr.push(if inside { g[i - n][j - n] } else { color });
            j += 1;
        }
        assert(nr@ =~= Seq::new(
            ncols as nat,
            |c: int| if n <= (i as int) < n + rows && n <= c < n + cols {
                s[i - n][c - n]
            } else {
                color
            },
        ));
        out.push(nr);
        i += 1;
    }
    assert(grid_view(&out) =~~= pad_s(s, n as int, color));
    out
}

pub(crate) fn scale(g: &Grid, k: usize) -> (r: Grid)
    requires
        grid_wf(g),
    ensures
        grid_view(&r) == scale_s(grid_view(g), k as int),
        grid_wf(&r),
{
    let ghost s = grid_view(g);
    let rows = g.len();
    let cols = if rows == 0 { 0 } else { g[0].len() };
    if k == 0 {
        let out: Grid = Vec::new();
        assert(grid_view(&out) =~~= scale_s(s, k as int));
        return out;
    }
    if (rows > 0 && k > GRID_MAX / rows) || (cols > 0 && k > GRID_MAX / cols) {
        assert(!dims_ok(rows_of(s) * (k as int), cols_of(s) * (k as int))) by (nonlinear_arith)
            requires
                rows == rows_of(s),
                cols == cols_of(s),
                k > 0,
                (rows > 0 && k > GRID_MAX / rows) || (cols > 0 && k > GRID_MAX / cols),
        ;
        let r = clone_grid(g);
        assert(grid_view(&r) == scale_s(s, k as int));
        return r;
    }
    assert(rows * k <= GRID_MAX && cols * k <= GRID_MAX) by (nonlinear_arith)
        requires
            k > 0,
            rows == 0 || k <= GRID_MAX / rows,
            cols == 0 || k <= GRID_MAX / cols,
    ;
    let nrows = rows * k;
    let ncols = cols * k;
    let mut out: Grid = Vec::new();
    let mut i: usize = 0;
    while i < nrows
        invariant
            0 <= i <= nrows,
            grid_wf(g),
            s == grid_view(g),
            rows == rows_of(s),
            cols == cols_of(s),
            k > 0,
            nrows == rows * k <= GRID_MAX,
            ncols == cols * k <= GRID_MAX,
            out@.len() == i,
            forall|q: int| 0 <= q < i ==> #[trigger] out@[q]@ =~= Seq::new(
                ncols as nat,
                |c: int| s[q / (k as int)][c / (k as int)],
            ),
        decreases nrows - i,
    {
        let mut nr: Vec<u8> = Vec::new();
        let mut j: usize = 0;
        assert(i / k < rows) by (nonlinear_arith)
            requires
                k > 0,
                i < nrows,
                nrows == rows * k,
        ;
        while j < ncols
            invariant
                0 <= j <= ncols,
                0 <= i < nrows,
                grid_wf(g),
                s == grid_view(g),
                rows == rows_of(s),
                cols == cols_of(s),
                k > 0,
                nrows == rows * k,
                ncols == cols * k,
                i / k < rows,
                nr@.len() == j,
                forall|q: int| 0 <= q < j ==> nr@[q] == s[i as int / (k as int)][q / (k as int)],
            decreases ncols - j,
        {
            assert(j / k < cols) by (nonlinear_arith)
                requires
                    k > 0,
                    j < ncols,
                    ncols == cols * k,
            ;
            nr.push(g[i / k][j / k]);
            j += 1;
        }
        assert(nr@ =~= Seq::new(ncols as nat, |c: int| s[i as int / (k as int)][c / (k as int)]));
        out.push(nr);
        i += 1;
    }
    assert(grid_view(&out) =~~= scale_s(s, k as int));
    out
}

pub(crate) fn upscale_objects(g: &Grid, k: usize) -> (r: Grid)
    requires
        grid_wf(g),
    ensures
        grid_view(&r) == upscale_objects_s(grid_view(g), k as int),
        grid_wf(&r),
{
    let rows = g.len();
    if k == 0 || rows == 0 {
        let r = clone_grid(g);
        assert(grid_view(&r) == upscale_objects_s(grid_view(g), k as int));
        return r;
    }
    let r = scale(g, k);
    assert(grid_view(&r) == upscale_objects_s(grid_view(g), k as int));
    r
}

pub(crate) fn repeat_h(g: &Grid, k: usize) -> (r: Grid)
    requires
        grid_wf(g),
    ensures
        grid_view(&r) == repeat_h_s(grid_view(g), k as int),
        grid_wf(&r),
{
    let ghost s = grid_view(g);
    let rows = g.len();
    let cols = if rows == 0 { 0 } else { g[0].len() };
    if cols == 0 {
        let mut out: Grid = Vec::new();
        let mut i: usize = 0;
        while i < rows
            invariant
                0 <= i <= rows,
                out@.len() == i,
                forall|q: int| 0 <= q < i ==> #[trigger] out@[q]@ =~= Seq::<u8>::empty(),
            decreases rows - i,
        {
            let nr: Vec<u8> = Vec::new();
            assert(nr@ =~= Seq::<u8>::empty());
            out.push(nr);
            i += 1;
        }
        assert(grid_view(&out) =~~= repeat_h_s(s, k as int));
        return out;
    }
    if k > GRID_MAX / cols {
        assert(!dims_ok(rows_of(s) as int, cols_of(s) * (k as int))) by (nonlinear_arith)
            requires
                cols == cols_of(s),
                cols > 0,
                k > GRID_MAX / cols,
        ;
        let r = clone_grid(g);
        assert(grid_view(&r) == repeat_h_s(s, k as int));
        return r;
    }
    assert(cols * k <= GRID_MAX) by (nonlinear_arith)
        requires
            cols > 0,
            k <= GRID_MAX / cols,
    ;
    let ncols = cols * k;
    let mut out: Grid = Vec::new();
    let mut i: usize = 0;
    while i < rows
        invariant
            0 <= i <= rows,
            grid_wf(g),
            s == grid_view(g),
            rows == rows_of(s),
            cols == cols_of(s),
            cols > 0,
            ncols == cols * k <= GRID_MAX,
            out@.len() == i,
            forall|q: int| 0 <= q < i ==> #[trigger] out@[q]@ =~= Seq::new(
                ncols as nat,
                |c: int| s[q][c % (cols as int)],
            ),
        decreases rows - i,
    {
        let mut nr: Vec<u8> = Vec::new();
        let mut j: usize = 0;
        while j < ncols
            invariant
                0 <= j <= ncols,
                0 <= i < rows,
                grid_wf(g),
                s == grid_view(g),
                rows == rows_of(s),
                cols == cols_of(s),
                cols > 0,
                ncols == cols * k,
                nr@.len() == j,
                forall|q: int| 0 <= q < j ==> nr@[q] == s[i as int][q % (cols as int)],
            decreases ncols - j,
        {
            nr.push(g[i][j % cols]);
            j += 1;
        }
        assert(nr@ =~= Seq::new(ncols as nat, |c: int| s[i as int][c % (cols as int)]));
        out.push(nr);
        i += 1;
    }
    assert(grid_view(&out) =~~= repeat_h_s(s, k as int));
    out
}

pub(crate) fn repeat_v(g: &Grid, k: usize) -> (r: Grid)
    requires
        grid_wf(g),
    ensures
        grid_view(&r) == repeat_v_s(grid_view(g), k as int),
        grid_wf(&r),
{
    let ghost s = grid_view(g);
    let rows = g.len();
    let cols = if rows == 0 { 0 } else { g[0].len() };
    if rows == 0 {
        let out: Grid = Vec::new();
        assert(grid_view(&out) =~~= repeat_v_s(s, k as int));
        return out;
    }
    if k > GRID_MAX / rows {
        assert(!dims_ok(rows_of(s) * (k as int), cols_of(s) as int)) by (nonlinear_arith)
            requires
                rows == rows_of(s),
                rows > 0,
                k > GRID_MAX / rows,
        ;
        let r = clone_grid(g);
        assert(grid_view(&r) == repeat_v_s(s, k as int));
        return r;
    }
    assert(rows * k <= GRID_MAX) by (nonlinear_arith)
        requires
            rows > 0,
            k <= GRID_MAX / rows,
    ;
    let nrows = rows * k;
    let mut out: Grid = Vec::new();
    let mut i: usize = 0;
    while i < nrows
        invariant
            0 <= i <= nrows,
            grid_wf(g),
            s == grid_view(g),
            rows == rows_of(s),
            cols == cols_of(s),
            rows > 0,
            nrows == rows * k <= GRID_MAX,
            out@.len() == i,
            forall|q: int| 0 <= q < i ==> #[trigger] out@[q]@ =~= Seq::new(
                cols as nat,
                |c: int| s[q % (rows as int)][c],
            ),
        decreases nrows - i,
    {
        let mut nr: Vec<u8> = Vec::new();
        let mut j: usize = 0;
        while j < cols
            invariant
                0 <= j <= cols,
                0 <= i < nrows,
                grid_wf(g),
                s == grid_view(g),
                rows == rows_of(s),
                cols == cols_of(s),
                rows > 0,
                nr@.len() == j,
                forall|q: int| 0 <= q < j ==> nr@[q] == s[i as int % (rows as int)][q],
            decreases cols - j,
        {
            nr.push(g[i % rows][j]);
            j += 1;
        }
        assert(nr@ =~= Seq::new(cols as nat, |c: int| s[i as int % (rows as int)][c]));
        out.push(nr);
        i += 1;
    }
    assert(grid_view(&out) =~~= repeat_v_s(s, k as int));
    out
}

pub(crate) fn mirror_h(g: &Grid) -> (r: Grid)
    requires
        grid_wf(g),
    ensures
        grid_view(&r) == mirror_h_s(grid_view(g)),
        grid_wf(&r),
{
    let ghost s = grid_view(g);
    let rows = g.len();
    let cols = if rows == 0 { 0 } else { g[0].len() };
    if cols > GRID_MAX / 2 {
        let r = clone_grid(g);
        assert(grid_view(&r) == mirror_h_s(s));
        return r;
    }
    let ncols = 2 * cols;
    let mut out: Grid = Vec::new();
    let mut i: usize = 0;
    while i < rows
        invariant
            0 <= i <= rows,
            grid_wf(g),
            s == grid_view(g),
            rows == rows_of(s),
            cols == cols_of(s),
            ncols == 2 * cols <= GRID_MAX,
            out@.len() == i,
            forall|q: int| 0 <= q < i ==> #[trigger] out@[q]@ =~= Seq::new(
                ncols as nat,
                |c: int| if c < cols { s[q][c] } else { s[q][2 * cols - 1 - c] },
            ),
        decreases rows - i,
    {
        let mut nr: Vec<u8> = Vec::new();
        let mut j: usize = 0;
        while j < ncols
            invariant
                0 <= j <= ncols,
                0 <= i < rows,
                grid_wf(g),
                s == grid_view(g),
                rows == rows_of(s),
                cols == cols_of(s),
                ncols == 2 * cols,
                nr@.len() == j,
                forall|q: int| 0 <= q < j ==> nr@[q] == (if q < cols {
                    s[i as int][q]
                } else {
                    s[i as int][2 * cols - 1 - q]
                }),
            decreases ncols - j,
        {
            nr.push(if j < cols { g[i][j] } else { g[i][2 * cols - 1 - j] });
            j += 1;
        }
        assert(nr@ =~= Seq::new(
            ncols as nat,
            |c: int| if c < cols { s[i as int][c] } else { s[i as int][2 * cols - 1 - c] },
        ));
        out.push(nr);
        i += 1;
    }
    assert(grid_view(&out) =~~= mirror_h_s(s));
    out
}

pub(crate) fn mirror_v(g: &Grid) -> (r: Grid)
    requires
        grid_wf(g),
    ensures
        grid_view(&r) == mirror_v_s(grid_view(g)),
        grid_wf(&r),
{
    let ghost s = grid_view(g);
    let rows = g.len();
    let cols = if rows == 0 { 0 } else { g[0].len() };
    if rows > GRID_MAX / 2 {
        let r = clone_grid(g);
        assert(grid_view(&r) == mirror_v_s(s));
        return r;
    }
    let nrows = 2 * rows;
    let mut out: Grid = Vec::new();
    let mut i: usize = 0;
    while i < nrows
        invariant
            0 <= i <= nrows,
            grid_wf(g),
            s == grid_view(g),
            rows == rows_of(s),
            cols == cols_of(s),
            nrows == 2 * rows <= GRID_MAX,
            out@.len() == i,
            forall|q: int| 0 <= q < i ==> #[trigger] out@[q]@ =~= Seq::new(
                cols as nat,
                |c: int| if q < rows { s[q][c] } else { s[2 * rows - 1 - q][c] },
            ),
        decreases nrows - i,
    {
        let src = if i < rows { i } else { 2 * rows - 1 - i };
        let mut nr: Vec<u8> = Vec::new();
        let mut j: usize = 0;
        while j < cols
            invariant
                0 <= j <= cols,
                0 <= i < nrows,
                0 <= src < rows,
                src == (if i < rows { i as int } else { 2 * rows - 1 - i }),
                grid_wf(g),
                s == grid_view(g),
                rows == rows_of(s),
                cols == cols_of(s),
                nrows == 2 * rows,
                nr@.len() == j,
                forall|q: int| 0 <= q < j ==> nr@[q] == s[src as int][q],
            decreases cols - j,
        {
            nr.push(g[src][j]);
            j += 1;
        }
        assert(nr@ =~= Seq::new(
            cols as nat,
            |c: int| if (i as int) < rows { s[i as int][c] } else { s[2 * rows - 1 - i][c] },
        ));
        out.push(nr);
        i += 1;
    }
    assert(grid_view(&out) =~~= mirror_v_s(s));
    out
}

pub(crate) fn translate(g: &Grid, dr: i32, dc: i32) -> (r: Grid)
    requires
        grid_wf(g),
    ensures
        grid_view(&r) == translate_s(grid_view(g), dr as int, dc as int),
        grid_wf(&r),
{
    let ghost s = grid_view(g);
    let rows = g.len();
    let cols = if rows == 0 { 0 } else { g[0].len() };
    let mut out: Grid = Vec::new();
    let mut i: usize = 0;
    while i < rows
        invariant
            0 <= i <= rows,
            grid_wf(g),
            s == grid_view(g),
            rows == rows_of(s),
            cols == cols_of(s),
            out@.len() == i,
            forall|q: int| 0 <= q < i ==> #[trigger] out@[q]@ =~= Seq::new(
                cols as nat,
                |c: int| if in_grid(s, q - dr, c - dc) && s[q - dr][c - dc] != 0 {
                    s[q - dr][c - dc]
                } else {
                    0u8
                },
            ),
        decreases rows - i,
    {
        let mut nr: Vec<u8> = Vec::new();
        let mut j: usize = 0;
        while j < cols
            invariant
                0 <= j <= cols,
                0 <= i < rows,
                grid_wf(g),
                s == grid_view(g),
                rows == rows_of(s),
                cols == cols_of(s),
                nr@.len() == j,
                forall|q: int| 0 <= q < j ==> nr@[q] == (if in_grid(s, i - dr, q - dc) && s[i
                    - dr][q - dc] != 0 {
                    s[i - dr][q - dc]
                } else {
                    0u8
                }),
            decreases cols - j,
        {
            let sr = i as i64 - dr as i64;
            let sc = j as i64 - dc as i64;
            let v: u8 = if sr >= 0 && sc >= 0 && (sr as usize) < rows && (sc as usize) < cols {
                let cell = g[sr as usize][sc as usize];
                if cell != 0 {
                    cell
                } else {
                    0
                }
            } else {
                0
            };
            assert(v == (if in_grid(s, i - dr, j - dc) && s[i - dr][j - dc] != 0 {
                s[i - dr][j - dc]
            } else {
                0u8
            }));
            nr.push(v);
            j += 1;
        }
        assert(nr@ =~= Seq::new(
            cols as nat,
            |c: int| if in_grid(s, i - dr, c - dc) && s[i - dr][c - dc] != 0 {
                s[i - dr][c - dc]
            } else {
                0u8
            },
        ));
        out.push(nr);
        i += 1;
    }
    assert(grid_view(&out) =~~= translate_s(s, dr as int, dc as int));
    out
}

} // verus!
