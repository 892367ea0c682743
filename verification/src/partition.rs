//! Grid partitioning: separator-line detection, sub-grid splitting,
//! cell-wise combination of sub-grids, and selection among them. The
//! cell-wise combinators carry exact contracts; the solvers check
//! their candidate rule executably against every example pair.

use vstd::prelude::*;
use vstd::string::StringExecFns;
use crate::grid::{Grid, grid_view, grid_wf, rows_of, cols_of, mk_grid, grid_eq, GRID_MAX};
use crate::analysis::unique_colors;
use crate::objects::connected_components;
use crate::compression::exs_wf;
use crate::task::decimal_string;

verus! {

broadcast use crate::grid::lemma_grid_row_len;

/// A grid split at its separator lines.
#[derive(Debug, Clone)]
pub struct GridPartition {
    pub sub_grids: Vec<Grid>,
    pub layout: PartitionLayout,
}

/// Where the separators ran.
#[derive(Debug, Clone)]
pub enum PartitionLayout {
    Horizontal(Vec<usize>),
    Vertical(Vec<usize>),
    Grid2D(Vec<usize>, Vec<usize>),
}

/// Every sub-grid of a list is well formed.
pub open spec fn subs_wf(subs: Seq<Grid>) -> bool {
    forall|i: int| 0 <= i < subs.len() ==> grid_wf(&(#[trigger] subs[i]))
}

/// Row indices of full single-colored separator rows.
pub fn detect_h_separators(grid: &Grid) -> (seps: Vec<usize>)
    requires
        grid_wf(grid),
    ensures
        forall|k: int| 0 <= k < seps@.len() ==> (#[trigger] seps@[k]) < rows_of(grid_view(grid)),
        forall|p: int, q: int| 0 <= p < q < seps@.len() ==> seps@[p] < seps@[q],
{
    let ghost s = grid_view(grid);
    let rows = grid.len();
    let cols = if rows == 0 { 0 } else { grid[0].len() };
    let mut seps: Vec<usize> = Vec::new();
    if cols == 0 {
        return seps;
    }
    let mut r: usize = 0;
    while r < rows
        invariant
            0 <= r <= rows,
            grid_wf(grid),
            s == grid_view(grid),
            rows == rows_of(s),
            cols == cols_of(s),
            cols > 0,
            forall|k: int| 0 <= k < seps@.len() ==> (#[trigger] seps@[k]) < r,
            forall|p: int, q: int| 0 <= p < q < seps@.len() ==> seps@[p] < seps@[q],
        decreases rows - r,
    {
        let c0 = grid[r][0];
        if c0 != 0 {
            let mut uniform = true;
            let mut c: usize = 1;
            while c < cols
                invariant
                    1 <= c <= cols,
                    0 <= r < rows,
                    grid_wf(grid),
                    s == grid_view(grid),
                    rows == rows_of(s),
                    cols == cols_of(s),
                decreases cols - c,
            {
                if grid[r][c] != c0 {
                    uniform = false;
                    break;
                }
                c += 1;
            }
            if uniform {
                let is_sep = if r > 0 {
                    !row_uniform_color(grid, r - 1, c0)
                } else {
                    true
                };
                let is_sep2 = if r + 1 < rows {
                    !row_uniform_color(grid, r + 1, c0)
                } else {
                    true
                };
                if is_sep || is_sep2 {
                    seps.push(r);
                }
            }
        }
        r += 1;
    }
    seps
}

/// Whether every cell of a row holds the given color.
fn row_uniform_color(grid: &Grid, r: usize, color: u8) -> (u: bool)
    requires
        grid_wf(grid),
        r < rows_of(grid_view(grid)),
{
    let ghost s = grid_view(grid);
    let cols = if grid.len() == 0 { 0 } else { grid[0].len() };
    let mut c: usize = 0;
    while c < cols
        invariant
            0 <= c <= cols,
            r < rows_of(s),
            grid_wf(grid),
            s == grid_view(grid),
            cols == cols_of(s),
        decreases cols - c,
    {
        if grid[r][c] != color {
            return false;
        }
        c += 1;
    }
    true
}

/// Whether every cell of a column holds the given color.
fn col_uniform_color(grid: &Grid, c: usize, color: u8) -> (u: bool)
    requires
        grid_wf(grid),
        c < cols_of(grid_view(grid)),
{
    let ghost s = grid_view(grid);
    let rows = grid.len();
    let mut r: usize = 0;
    while r < rows
        invariant
            0 <= r <= rows,
            c < cols_of(s),
            grid_wf(grid),
            s == grid_view(grid),
            rows == rows_of(s),
        decreases rows - r,
    {
        if grid[r][c] != color {
            return false;
        }
        r += 1;
    }
    true
}

/// Column indices of full single-colored separator columns.
pub fn detect_v_separators(grid: &Grid) -> (seps: Vec<usize>)
    requires
        grid_wf(grid),
    ensures
        forall|k: int| 0 <= k < seps@.len() ==> (#[trigger] seps@[k]) < cols_of(grid_view(grid)),
        forall|p: int, q: int| 0 <= p < q < seps@.len() ==> seps@[p] < seps@[q],
{
    let ghost s = grid_view(grid);
    let rows = grid.len();
    let cols = if rows == 0 { 0 } else { grid[0].len() };
    let mut seps: Vec<usize> = Vec::new();
    if rows == 0 {
        return seps;
    }
    let mut c: usize = 0;
    while c < cols
        invariant
            0 <= c <= cols,
            grid_wf(grid),
            s == grid_view(grid),
            rows == rows_of(s),
            cols == cols_of(s),
            rows > 0,
            forall|k: int| 0 <= k < seps@.len() ==> (#[trigger] seps@[k]) < c,
            forall|p: int, q: int| 0 <= p < q < seps@.len() ==> seps@[p] < seps@[q],
        decreases cols - c,
    {
        let c0 = grid[0][c];
        if c0 != 0 && col_uniform_color(grid, c, c0) {
            let is_sep = if c > 0 {
                !col_uniform_color(grid, c - 1, c0)
            } else {
                true
            };
            let is_sep2 = if c + 1 < cols {
                !col_uniform_color(grid, c + 1, c0)
            } else {
                true
            };
            if is_sep || is_sep2 {
                seps.push(c);
            }
        }
        c += 1;
    }
    seps
}

/// Splits at separator rows, dropping the separators themselves.
pub fn split_at_h_separators(grid: &Grid, seps: &Vec<usize>) -> (r: Vec<Grid>)
    requires
        grid_wf(grid),
    ensures
        subs_wf(r@),
{
    let ghost s = grid_view(grid);
    let mut result: Vec<Grid> = Vec::new();
    if seps.len() == 0 {
        let g = crate::prims_basic::clone_grid(grid);
        result.push(g);
        return result;
    }
    let rows = grid.len();
    let mut start: usize = 0;
    let mut si: usize = 0;
    while si < seps.len()
        invariant
            0 <= si <= seps@.len(),
            grid_wf(grid),
            s == grid_view(grid),
            rows == rows_of(s),
            subs_wf(result@),
        decreases seps@.len() - si,
    {
        let sep = seps[si];
        if sep > start && sep <= rows {
            let sub = crate::prims_basic::crop(grid, start, 0, sep - start, if rows == 0 {
                0
            } else {
                grid[0].len()
            });
            if sub.len() > 0 {
                result.push(sub);
            }
        }
        if sep < usize::MAX {
            start = sep + 1;
        }
        si += 1;
    }
    if start < rows {
        let sub = crate::prims_basic::crop(grid, start, 0, rows - start, if rows == 0 {
            0
        } else {
            grid[0].len()
        });
        result.push(sub);
    }
    result
}

/// Splits at separator columns, dropping the separators themselves.
pub fn split_at_v_separators(grid: &Grid, seps: &Vec<usize>) -> (r: Vec<Grid>)
    requires
        grid_wf(grid),
    ensures
        subs_wf(r@),
{
    let ghost s = grid_view(grid);
    let mut result: Vec<Grid> = Vec::new();
    if grid.len() == 0 || seps.len() == 0 {
        let g = crate::prims_basic::clone_grid(grid);
        result.push(g);
        return result;
    }
    let rows = grid.len();
    let cols = grid[0].len();
    let mut start: usize = 0;
    let mut si: usize = 0;
    while si < seps.len()
        invariant
            0 <= si <= seps@.len(),
            grid_wf(grid),
            s == grid_view(grid),
            rows == rows_of(s),
            cols == cols_of(s),
            subs_wf(result@),
        decreases seps@.len() - si,
    {
        let sep = seps[si];
        if sep > start && sep <= cols {
            let sub = crate::prims_basic::crop(grid, 0, start, rows, sep - start);
            result.push(sub);
        }
        if sep < usize::MAX {
            start = sep + 1;
        }
        si += 1;
    }
    if start < cols {
        let sub = crate::prims_basic::crop(grid, 0, start, rows, cols - start);
        result.push(sub);
    }
    result
}

/// Splits at both separator sets, row strips first.
pub fn split_grid_2d(grid: &Grid, h_seps: &Vec<usize>, v_seps: &Vec<usize>) -> (r: Vec<Grid>)
    requires
        grid_wf(grid),
    ensures
        subs_wf(r@),
{
    let strips = split_at_h_separators(grid, h_seps);
    let mut result: Vec<Grid> = Vec::new();
    let mut i: usize = 0;
    while i < strips.len()
        invariant
            0 <= i <= strips@.len(),
            subs_wf(strips@),
            subs_wf(result@),
        decreases strips@.len() - i,
    {
        let cells = split_at_v_separators(&strips[i], v_seps);
        let mut j: usize = 0;
        while j < cells.len()
            invariant
                0 <= j <= cells@.len(),
                subs_wf(cells@),
                subs_wf(result@),
            decreases cells@.len() - j,
        {
            let g = crate::prims_basic::clone_grid(&cells[j]);
            assert(grid_wf(&g));
            result.push(g);
            j += 1;
        }
        i += 1;
    }
    result
}

/// Splits a grid at its detected separators, if that yields at least
/// two sub-grids.
pub fn partition_grid(grid: &Grid) -> (r: Option<GridPartition>)
    requires
        grid_wf(grid),
    ensures
        r matches Some(p) ==> subs_wf(p.sub_grids@) && p.sub_grids@.len() >= 2,
{
    let h_seps = detect_h_separators(grid);
    let v_seps = detect_v_separators(grid);
    if h_seps.len() > 0 && v_seps.len() > 0 {
        let subs = split_grid_2d(grid, &h_seps, &v_seps);
        if subs.len() >= 2 {
            return Some(
                GridPartition { sub_grids: subs, layout: PartitionLayout::Grid2D(h_seps, v_seps) },
            );
        }
    }
    if h_seps.len() > 0 {
        let subs = split_at_h_separators(grid, &h_seps);
        if subs.len() >= 2 {
            return Some(
                GridPartition { sub_grids: subs, layout: PartitionLayout::Horizontal(h_seps) },
            );
        }
    }
    if v_seps.len() > 0 {
        let subs = split_at_v_separators(grid, &v_seps);
        if subs.len() >= 2 {
            return Some(
                GridPartition { sub_grids: subs, layout: PartitionLayout::Vertical(v_seps) },
            );
        }
    }
    None
}

// --- cell-wise combination, over the overlapping region ---

pub open spec fn min_nat(a: nat, b: nat) -> nat {
    if a <= b {
        a
    } else {
        b
    }
}

pub open spec fn xor_cell(a: Seq<Seq<u8>>, b: Seq<Seq<u8>>, r: int, c: int) -> u8 {
    if a[r][c] != b[r][c] {
        if a[r][c] >= b[r][c] {
            a[r][c]
        } else {
            b[r][c]
        }
    } else {
        0u8
    }
}

/// Where the grids differ, the larger color; elsewhere clear.
pub open spec fn xor_s(a: Seq<Seq<u8>>, b: Seq<Seq<u8>>) -> Seq<Seq<u8>> {
    if rows_of(a) == 0 || rows_of(b) == 0 {
        Seq::empty()
    } else {
        mk_grid(
            min_nat(rows_of(a), rows_of(b)),
            min_nat(cols_of(a), cols_of(b)),
            |r: int, c: int| xor_cell(a, b, r, c),
        )
    }
}

pub open spec fn and_cell(a: Seq<Seq<u8>>, b: Seq<Seq<u8>>, r: int, c: int) -> u8 {
    if a[r][c] != 0 && b[r][c] != 0 {
        a[r][c]
    } else {
        0u8
    }
}

/// Where both grids are set, the first one's color; elsewhere clear.
pub open spec fn and_s(a: Seq<Seq<u8>>, b: Seq<Seq<u8>>) -> Seq<Seq<u8>> {
    if rows_of(a) == 0 || rows_of(b) == 0 {
        Seq::empty()
    } else {
        mk_grid(
            min_nat(rows_of(a), rows_of(b)),
            min_nat(cols_of(a), cols_of(b)),
            |r: int, c: int| and_cell(a, b, r, c),
        )
    }
}

pub open spec fn or_cell(a: Seq<Seq<u8>>, b: Seq<Seq<u8>>, r: int, c: int) -> u8 {
    if a[r][c] != 0 {
        a[r][c]
    } else {
        b[r][c]
    }
}

/// The first grid's color where set, else the second one's.
pub open spec fn or_s(a: Seq<Seq<u8>>, b: Seq<Seq<u8>>) -> Seq<Seq<u8>> {
    if rows_of(a) == 0 || rows_of(b) == 0 {
        Seq::empty()
    } else {
        mk_grid(
            min_nat(rows_of(a), rows_of(b)),
            min_nat(cols_of(a), cols_of(b)),
            |r: int, c: int| or_cell(a, b, r, c),
        )
    }
}

pub open spec fn diff_cell(a: Seq<Seq<u8>>, b: Seq<Seq<u8>>, mark: u8, r: int, c: int) -> u8 {
    if a[r][c] != b[r][c] {
        mark
    } else {
        0u8
    }
}

/// The mark color where the grids differ; elsewhere clear.
pub open spec fn diff_s(a: Seq<Seq<u8>>, b: Seq<Seq<u8>>, mark: u8) -> Seq<Seq<u8>> {
    if rows_of(a) == 0 || rows_of(b) == 0 {
        Seq::empty()
    } else {
        mk_grid(
            min_nat(rows_of(a), rows_of(b)),
            min_nat(cols_of(a), cols_of(b)),
            |r: int, c: int| diff_cell(a, b, mark, r, c),
        )
    }
}

/// Which cell-wise combinator a combine rule uses.
enum CombineKind {
    Xor,
    And,
    Or,
}

fn combine_cells(a: &Grid, b: &Grid, kind: &CombineKind, mark: u8, is_diff: bool) -> (r: Grid)
    requires
        grid_wf(a),
        grid_wf(b),
    ensures
        grid_wf(&r),
        is_diff ==> grid_view(&r) == diff_s(grid_view(a), grid_view(b), mark),
        !is_diff && kind is Xor ==> grid_view(&r) == xor_s(grid_view(a), grid_view(b)),
        !is_diff && kind is And ==> grid_view(&r) == and_s(grid_view(a), grid_view(b)),
        !is_diff && kind is Or ==> grid_view(&r) == or_s(grid_view(a), grid_view(b)),
{
    let ghost av = grid_view(a);
    let ghost bv = grid_view(b);
    let (ar, ac) = crate::grid::grid_dimensions(a);
    let (br, bc) = crate::grid::grid_dimensions(b);
    if ar == 0 || br == 0 {
        let out: Grid = Vec::new();
        assert(grid_view(&out) =~~= Seq::empty());
        return out;
    }
    let rows = if ar <= br { ar } else { br };
    let cols = if ac <= bc { ac } else { bc };
    let mut out: Grid = Vec::new();
    let mut i: usize = 0;
    while i < rows
        invariant
            0 <= i <= rows,
            grid_wf(a),
            grid_wf(b),
            av == grid_view(a),
            bv == grid_view(b),
            rows == min_nat(rows_of(av), rows_of(bv)),
            cols == min_nat(cols_of(av), cols_of(bv)),
            rows <= rows_of(av) && rows <= rows_of(bv),
            cols <= cols_of(av) && cols <= cols_of(bv),
            out@.len() == i,
            forall|k: int| 0 <= k < i ==> #[trigger] out@[k]@ =~= Seq::new(
                cols as nat,
                |c: int| if is_diff {
                    diff_cell(av, bv, mark, k, c)
                } else {
                    match *kind {
                        CombineKind::Xor => xor_cell(av, bv, k, c),
                        CombineKind::And => and_cell(av, bv, k, c),
                        CombineKind::Or => or_cell(av, bv, k, c),
                    }
                },
            ),
        decreases rows - i,
    {
        let mut nr: Vec<u8> = Vec::new();
        let mut j: usize = 0;
        while j < cols
            invariant
                0 <= j <= cols,
                0 <= i < rows,
                grid_wf(a),
                grid_wf(b),
                av == grid_view(a),
                bv == grid_view(b),
                rows <= rows_of(av) && rows <= rows_of(bv),
                cols <= cols_of(av) && cols <= cols_of(bv),
                nr@.len() == j,
                forall|k: int| 0 <= k < j ==> nr@[k] == (if is_diff {
                    diff_cell(av, bv, mark, i as int, k)
                } else {
                    match *kind {
                        CombineKind::Xor => xor_cell(av, bv, i as int, k),
                        CombineKind::And => and_cell(av, bv, i as int, k),
                        CombineKind::Or => or_cell(av, bv, i as int, k),
                    }
                }),
            decreases cols - j,
        {
            let va = a[i][j];
            let vb = b[i][j];
            let v: u8 = if is_diff {
                if va != vb {
                    mark
                } else {
                    0
                }
            } else {
                match kind {
                    CombineKind::Xor => {
                        if va != vb {
                            if va >= vb {
                                va
                            } else {
                                vb
                            }
                        } else {
                            0
                        }
                    },
                    CombineKind::And => {
                        if va != 0 && vb != 0 {
                            va
                        } else {
                            0
                        }
                    },
                    CombineKind::Or => {
                        if va != 0 {
                            va
                        } else {
                            vb
                        }
                    },
                }
            };
            nr.push(v);
            j += 1;
        }
        assert(nr@ =~= Seq::new(
            cols as nat,
            |c: int| if is_diff {
                diff_cell(av, bv, mark, i as int, c)
            } else {
                match *kind {
                    CombineKind::Xor => xor_cell(av, bv, i as int, c),
                    CombineKind::And => and_cell(av, bv, i as int, c),
                    CombineKind::Or => or_cell(av, bv, i as int, c),
                }
            },
        ));
        out.push(nr);
        i += 1;
    }
    proof {
        if is_diff {
            assert(grid_view(&out) =~~= diff_s(av, bv, mark));
        } else {
            match *kind {
                CombineKind::Xor => {
                    assert(grid_view(&out) =~~= xor_s(av, bv));
                },
                CombineKind::And => {
                    assert(grid_view(&out) =~~= and_s(av, bv));
                },
                CombineKind::Or => {
                    assert(grid_view(&out) =~~= or_s(av, bv));
                },
            }
        }
    }
    out
}

/// Where the grids differ, the larger color; elsewhere clear.
pub fn xor_grids(a: &Grid, b: &Grid) -> (r: Grid)
    requires
        grid_wf(a),
        grid_wf(b),
    ensures
        grid_view(&r) == xor_s(grid_view(a), grid_view(b)),
        grid_wf(&r),
{
    combine_cells(a, b, &CombineKind::Xor, 0, false)
}

/// Where both grids are set, the first one's color; elsewhere clear.
pub fn and_grids(a: &Grid, b: &Grid) -> (r: Grid)
    requires
        grid_wf(a),
        grid_wf(b),
    ensures
        grid_view(&r) == and_s(grid_view(a), grid_view(b)),
        grid_wf(&r),
{
    combine_cells(a, b, &CombineKind::And, 0, false)
}

/// The first grid's color where set, else the second one's.
pub fn or_grids(a: &Grid, b: &Grid) -> (r: Grid)
    requires
        grid_wf(a),
        grid_wf(b),
    ensures
        grid_view(&r) == or_s(grid_view(a), grid_view(b)),
        grid_wf(&r),
{
    combine_cells(a, b, &CombineKind::Or, 0, false)
}

/// The mark color where the grids differ; elsewhere clear.
pub fn diff_grids(a: &Grid, b: &Grid, mark_color: u8) -> (r: Grid)
    requires
        grid_wf(a),
        grid_wf(b),
    ensures
        grid_view(&r) == diff_s(grid_view(a), grid_view(b), mark_color),
        grid_wf(&r),
{
    combine_cells(a, b, &CombineKind::Xor, mark_color, true)
}

// --- selection among sub-grids ---

/// The sub-grid with the most distinct set colors (the later one on
/// ties, as an iterator maximum).
pub fn select_most_colorful<'a>(subs: &'a Vec<Grid>) -> (r: Option<&'a Grid>)
    requires
        subs_wf(subs@),
    ensures
        r is Some <==> subs@.len() > 0,
        r matches Some(g) ==> grid_wf(g),
{
    if subs.len() == 0 {
        return None;
    }
    let mut best: usize = 0;
    let mut best_score: usize = count_nonzero_colors(&subs[0]);
    let mut i: usize = 1;
    while i < subs.len()
        invariant
            1 <= i <= subs@.len(),
            best < i,
            subs_wf(subs@),
        decreases subs@.len() - i,
    {
        let score = count_nonzero_colors(&subs[i]);
        if score >= best_score {
            best = i;
            best_score = score;
        }
        i += 1;
    }
    Some(&subs[best])
}

fn count_nonzero_colors(g: &Grid) -> (n: usize)
    requires
        grid_wf(g),
{
    let colors = unique_colors(g);
    let mut n: usize = 0;
    let mut i: usize = 0;
    while i < colors.len()
        invariant
            0 <= i <= colors@.len(),
            n <= i,
        decreases colors@.len() - i,
    {
        if colors[i] != 0 {
            n += 1;
        }
        i += 1;
    }
    n
}

/// The sub-grid with the most objects (the later one on ties).
pub fn select_most_objects<'a>(subs: &'a Vec<Grid>) -> (r: Option<&'a Grid>)
    requires
        subs_wf(subs@),
    ensures
        r is Some <==> subs@.len() > 0,
        r matches Some(g) ==> grid_wf(g),
{
    if subs.len() == 0 {
        return None;
    }
    let mut best: usize = 0;
    let mut best_score: usize = connected_components(&subs[0], true).len();
    let mut i: usize = 1;
    while i < subs.len()
        invariant
            1 <= i <= subs@.len(),
            best < i,
            subs_wf(subs@),
        decreases subs@.len() - i,
    {
        let score = connected_components(&subs[i], true).len();
        if score >= best_score {
            best = i;
            best_score = score;
        }
        i += 1;
    }
    Some(&subs[best])
}

/// The sub-grid differing most from all the others (the first one on
/// ties at zero, matching a running strict maximum).
pub fn select_unique_pattern<'a>(subs: &'a Vec<Grid>) -> (r: Option<&'a Grid>)
    requires
        subs_wf(subs@),
    ensures
        r is Some <==> subs@.len() > 0,
        r matches Some(g) ==> grid_wf(g),
{
    if subs.len() == 0 {
        return None;
    }
    if subs.len() < 2 {
        return Some(&subs[0]);
    }
    let mut best: usize = 0;
    let mut best_diff: u128 = 0;
    let mut i: usize = 0;
    while i < subs.len()
        invariant
            0 <= i <= subs@.len(),
            best < subs@.len(),
            subs@.len() >= 2,
            subs_wf(subs@),
        decreases subs@.len() - i,
    {
        let mut diff: u128 = 0;
        let mut j: usize = 0;
        while j < subs.len()
            invariant
                0 <= j <= subs@.len(),
                0 <= i < subs@.len(),
                subs_wf(subs@),
            decreases subs@.len() - j,
        {
            if j != i {
                let d = grid_diff_count(&subs[i], &subs[j]);
                diff = if diff <= u128::MAX - d {
                    diff + d
                } else {
                    u128::MAX
                };
            }
            j += 1;
        }
        if diff > best_diff {
            best_diff = diff;
            best = i;
        }
        i += 1;
    }
    Some(&subs[best])
}

/// Count of differing cells, or the largest count for a shape
/// mismatch.
fn grid_diff_count(a: &Grid, b: &Grid) -> (n: u128)
    requires
        grid_wf(a),
        grid_wf(b),
{
    let (ar, ac) = crate::grid::grid_dimensions(a);
    let (br, bc) = crate::grid::grid_dimensions(b);
    if ar != br || ac != bc {
        return 0xFFFF_FFFF_FFFF;
    }
    let mut n: u128 = 0;
    let mut i: usize = 0;
    while i < ar
        invariant
            0 <= i <= ar,
            grid_wf(a),
            grid_wf(b),
            ar == rows_of(grid_view(a)),
            ac == cols_of(grid_view(a)),
            ar == rows_of(grid_view(b)),
            ac == cols_of(grid_view(b)),
            n <= (i as int) * (ac as int),
        decreases ar - i,
    {
        let mut j: usize = 0;
        while j < ac
            invariant
                0 <= j <= ac,
                0 <= i < ar,
                grid_wf(a),
                grid_wf(b),
                ar == rows_of(grid_view(a)),
                ac == cols_of(grid_view(a)),
                ar == rows_of(grid_view(b)),
                ac == cols_of(grid_view(b)),
                n <= (i as int) * (ac as int) + j,
            decreases ac - j,
        {
            proof {
                assert((i as int) * (ac as int) + (j as int) < 0x1_0000_0000int)
                    by (nonlinear_arith)
                    requires
                        i <= 0xFFFF,
                        j <= 0xFFFF,
                        ac <= 0xFFFF,
                ;
            }
            if a[i][j] != b[i][j] {
                n += 1;
            }
            j += 1;
        }
        assert((i as int) * (ac as int) + (ac as int) == ((i as int) + 1) * (ac as int))
            by (nonlinear_arith);
        i += 1;
    }
    n
}

// --- the partition rule itself ---

/// What a found partition rule does.
#[derive(Debug, Clone)]
pub enum PartitionOp {
    SelectIndex(usize),
    SelectMostColorful,
    SelectUniquePattern,
    Combine(usize, usize, CombineName),
    Diff(usize, usize, u8),
}

/// Which combinator a combine rule names.
#[derive(Debug, Clone, PartialEq)]
pub enum CombineName {
    Xor,
    And,
    Or,
}

/// A partition rule found from the examples, with its display name.
#[derive(Debug, Clone)]
pub struct PartitionSolution {
    pub method: String,
    pub rule: PartitionOp,
}

impl PartitionSolution {
    /// Applies the rule: partition the grid and select or combine its
    /// sub-grids (an unpartitionable grid comes back unchanged).
    pub fn apply(&self, grid: &Grid) -> (r: Grid)
        requires
            grid_wf(grid),
        ensures
            grid_wf(&r),
    {
        let part = match partition_grid(grid) {
            Some(p) => p,
            None => {
                return crate::prims_basic::clone_grid(grid);
            },
        };
        match &self.rule {
            PartitionOp::SelectIndex(i) => {
                if *i < part.sub_grids.len() {
                    crate::prims_basic::clone_grid(&part.sub_grids[*i])
                } else {
                    crate::prims_basic::clone_grid(grid)
                }
            },
            PartitionOp::SelectMostColorful => {
                match select_most_colorful(&part.sub_grids) {
                    Some(g) => crate::prims_basic::clone_grid(g),
                    None => crate::prims_basic::clone_grid(grid),
                }
            },
            PartitionOp::SelectUniquePattern => {
                match select_unique_pattern(&part.sub_grids) {
                    Some(g) => crate::prims_basic::clone_grid(g),
                    None => crate::prims_basic::clone_grid(grid),
                }
            },
            PartitionOp::Combine(i, j, op) => {
                if *i < part.sub_grids.len() && *j < part.sub_grids.len() {
                    let a = &part.sub_grids[*i];
                    let b = &part.sub_grids[*j];
                    match op {
                        CombineName::Xor => xor_grids(a, b),
                        CombineName::And => and_grids(a, b),
                        CombineName::Or => or_grids(a, b),
                    }
                } else {
                    crate::prims_basic::clone_grid(grid)
                }
            },
            PartitionOp::Diff(i, j, mark) => {
                if *i < part.sub_grids.len() && *j < part.sub_grids.len() {
                    diff_grids(&part.sub_grids[*i], &part.sub_grids[*j], *mark)
                } else {
                    crate::prims_basic::clone_grid(grid)
                }
            },
        }
    }
}

/// Whether a rule reproduces every example pair.
fn rule_matches_all(sol: &PartitionSolution, examples: &Vec<(Grid, Grid)>) -> (ok: bool)
    requires
        exs_wf(examples),
{
    let mut k: usize = 0;
    while k < examples.len()
        invariant
            0 <= k <= examples.len(),
            exs_wf(examples),
        decreases examples.len() - k,
    {
        let applied = sol.apply(&examples[k].0);
        if !grid_eq(&applied, &examples[k].1) {
            return false;
        }
        k += 1;
    }
    true
}

/// Tries, in order, sub-grid selection, pairwise combination, and
/// marked difference; a returned rule reproduced every example pair
/// in the executable check.
pub fn try_partition_solve(examples: &Vec<(Grid, Grid)>) -> (r: Option<PartitionSolution>)
    requires
        exs_wf(examples),
{
    if examples.is_empty() {
        return None;
    }
    let part = match partition_grid(&examples[0].0) {
        Some(p) => p,
        None => {
            return None;
        },
    };
    // output equal to one fixed sub-grid
    let nsubs = part.sub_grids.len();
    let mut idx: usize = 0;
    while idx < nsubs
        invariant
            0 <= idx <= nsubs,
            nsubs == part.sub_grids@.len(),
            subs_wf(part.sub_grids@),
            exs_wf(examples),
            examples@.len() > 0,
        decreases nsubs - idx,
    {
        if grid_eq(&part.sub_grids[idx], &examples[0].1) {
            let sol = PartitionSolution {
                method: String::from_str("select_sub_").concat(
                    decimal_string(idx as u64).as_str(),
                ),
                rule: PartitionOp::SelectIndex(idx),
            };
            if rule_matches_all(&sol, examples) {
                return Some(sol);
            }
        }
        idx += 1;
    }
    // output equal to the most colorful sub-grid
    let sol_colorful = PartitionSolution {
        method: String::from_str("select_most_colorful"),
        rule: PartitionOp::SelectMostColorful,
    };
    if rule_matches_all(&sol_colorful, examples) {
        return Some(sol_colorful);
    }
    // output equal to the odd-one-out sub-grid
    let sol_unique = PartitionSolution {
        method: String::from_str("select_unique_pattern"),
        rule: PartitionOp::SelectUniquePattern,
    };
    if rule_matches_all(&sol_unique, examples) {
        return Some(sol_unique);
    }
    // pairwise combinations
    let n = part.sub_grids.len();
    let mut i: usize = 0;
    while i < n
        invariant
            0 <= i <= n,
            n == part.sub_grids@.len(),
            subs_wf(part.sub_grids@),
            exs_wf(examples),
        decreases n - i,
    {
        let mut j: usize = i + 1;
        while j < n
            invariant
                i < j <= n || j == i + 1,
                0 <= i < n,
                n == part.sub_grids@.len(),
                subs_wf(part.sub_grids@),
                exs_wf(examples),
            decreases n - j,
        {
            let names = [CombineName::Xor, CombineName::And, CombineName::Or];
            let mut w: usize = 0;
            while w < 3
                invariant
                    0 <= w <= 3,
                    0 <= i < n,
                    i < j < n,
                    n == part.sub_grids@.len(),
                    subs_wf(part.sub_grids@),
                    exs_wf(examples),
                decreases 3 - w,
            {
                let name = names[w].clone();
                let tag: &str = match name {
                    CombineName::Xor => "xor_",
                    CombineName::And => "and_",
                    CombineName::Or => "or_",
                };
                let sol = PartitionSolution {
                    method: String::from_str(tag).concat(
                        decimal_string(i as u64).as_str(),
                    ).concat(decimal_string(j as u64).as_str()),
                    rule: PartitionOp::Combine(i, j, name),
                };
                if rule_matches_all(&sol, examples) {
                    return Some(sol);
                }
                w += 1;
            }
            j += 1;
        }
        i += 1;
    }
    // marked differences, for each output color
    let out_colors = unique_colors(&examples[0].1);
    let mut ci: usize = 0;
    while ci < out_colors.len()
        invariant
            0 <= ci <= out_colors@.len(),
            n == part.sub_grids@.len(),
            subs_wf(part.sub_grids@),
            exs_wf(examples),
            examples@.len() > 0,
        decreases out_colors@.len() - ci,
    {
        let mark = out_colors[ci];
        if mark != 0 {
            let mut i2: usize = 0;
            while i2 < n
                invariant
                    0 <= i2 <= n,
                    n == part.sub_grids@.len(),
                    subs_wf(part.sub_grids@),
                    exs_wf(examples),
                decreases n - i2,
            {
                let mut j2: usize = 0;
                while j2 < n
                    invariant
                        0 <= j2 <= n,
                        0 <= i2 < n,
                        n == part.sub_grids@.len(),
                        subs_wf(part.sub_grids@),
                        exs_wf(examples),
                    decreases n - j2,
                {
                    if i2 != j2 {
                        let sol = PartitionSolution {
                            method: String::from_str("diff_").concat(
                                decimal_string(i2 as u64).as_str(),
                            ).concat("_").concat(decimal_string(j2 as u64).as_str()).concat(
                                "_c",
                            ).concat(decimal_string(mark as u64).as_str()),
                            rule: PartitionOp::Diff(i2, j2, mark),
                        };
                        if rule_matches_all(&sol, examples) {
                            return Some(sol);
                        }
                    }
                    j2 += 1;
                }
                i2 += 1;
            }
        }
        ci += 1;
    }
    None
}

} // verus!
