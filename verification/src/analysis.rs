//! Whole-grid analysis: color inventory, overlay, symmetry and
//! periodicity tests. These feed the feature profiler and the smart
//! transforms.

use vstd::prelude::*;
use crate::grid::{Grid, grid_view, grid_wf, rows_of, cols_of, mk_grid, GRID_MAX};
use crate::prims_basic::clone_grid;

verus! {

broadcast use crate::grid::lemma_grid_row_len;

// --- color inventory ---

/// Colors seen among the first `p` cells in scan order, first
/// occurrence first.
pub open spec fn uniq_upto(s: Seq<Seq<u8>>, p: int) -> Seq<u8>
    decreases p,
{
    if p <= 0 || cols_of(s) <= 0 {
        Seq::empty()
    } else {
        let q = p - 1;
        let v = s[q / (cols_of(s) as int)][q % (cols_of(s) as int)];
        let rest = uniq_upto(s, q);
        if rest.contains(v) {
            rest
        } else {
            rest.push(v)
        }
    }
}

/// All colors of a grid in first-seen scan order.
pub open spec fn unique_colors_s(s: Seq<Seq<u8>>) -> Seq<u8> {
    uniq_upto(s, (rows_of(s) * cols_of(s)) as int)
}

/// Exact membership test on a color list.
pub fn colors_contain(v: &Vec<u8>, x: u8) -> (b: bool)
    ensures
        b == v@.contains(x),
{
    let mut i: usize = 0;
    while i < v.len()
        invariant
            0 <= i <= v.len(),
            forall|k: int| 0 <= k < i ==> v@[k] != x,
        decreases v.len() - i,
    {
        if v[i] == x {
            assert(v@[i as int] == x);
            return true;
        }
        i += 1;
    }
    assert(!v@.contains(x));
    false
}

/// The colors of a grid in order of first appearance.
pub fn unique_colors(grid: &Grid) -> (r: Vec<u8>)
    requires
        grid_wf(grid),
    ensures
        r@ == unique_colors_s(grid_view(grid)),
{
    let ghost s = grid_view(grid);
    let rows = grid.len();
    let cols = if rows == 0 { 0 } else { grid[0].len() };
    let mut v: Vec<u8> = Vec::new();
    let mut i: usize = 0;
    while i < rows
        invariant
            0 <= i <= rows,
            grid_wf(grid),
            s == grid_view(grid),
            rows == rows_of(s),
            cols == cols_of(s),
            v@ == uniq_upto(s, (i as int) * (cols as int)),
        decreases rows - i,
    {
        let mut j: usize = 0;
        while j < cols
            invariant
                0 <= j <= cols,
                0 <= i < rows,
                grid_wf(grid),
                s == grid_view(grid),
                rows == rows_of(s),
                cols == cols_of(s),
                v@ == uniq_upto(s, (i as int) * (cols as int) + j),
            decreases cols - j,
        {
            let ghost q = (i as int) * (cols as int) + j;
            assert(q / (cols as int) == i as int && q % (cols as int) == j as int)
                by (nonlinear_arith)
                requires
                    q == (i as int) * (cols as int) + j,
                    0 <= j < cols,
                    0 <= i,
                    cols > 0,
            ;
            let c = grid[i][j];
            if !colors_contain(&v, c) {
                v.push(c);
            }
            assert(v@ == uniq_upto(s, q + 1));
            j += 1;
        }
        assert((i as int) * (cols as int) + (cols as int) == ((i as int) + 1) * (cols as int))
            by (nonlinear_arith);
        i += 1;
    }
    v
}

// --- overlay ---

pub open spec fn overlay_cell(b: Seq<Seq<u8>>, t: Seq<Seq<u8>>, r: int, c: int) -> u8 {
    let bv: u8 = if r < rows_of(b) && c < cols_of(b) {
        b[r][c]
    } else {
        0u8
    };
    let tv: u8 = if r < rows_of(t) && c < cols_of(t) {
        t[r][c]
    } else {
        0u8
    };
    if tv != 0 {
        tv
    } else {
        bv
    }
}

/// Top over base: a set top cell wins, a clear one shows the base.
pub open spec fn overlay_s(b: Seq<Seq<u8>>, t: Seq<Seq<u8>>) -> Seq<Seq<u8>> {
    if rows_of(b) == 0 {
        t
    } else {
        let rows = if rows_of(b) >= rows_of(t) {
            rows_of(b)
        } else {
            rows_of(t)
        };
        let cols = if cols_of(b) >= cols_of(t) {
            cols_of(b)
        } else {
            cols_of(t)
        };
        mk_grid(rows, cols, |r: int, c: int| overlay_cell(b, t, r, c))
    }
}

pub fn overlay_grids(base: &Grid, top: &Grid) -> (r: Grid)
    requires
        grid_wf(base),
        grid_wf(top),
    ensures
        grid_view(&r) == overlay_s(grid_view(base), grid_view(top)),
        grid_wf(&r),
{
    let ghost b = grid_view(base);
    let ghost t = grid_view(top);
    if base.is_empty() {
        let r = clone_grid(top);
        assert(grid_view(&r) == overlay_s(b, t));
        return r;
    }
    let brows = base.len();
    let bcols = base[0].len();
    let trows = top.len();
    let tcols = if trows == 0 { 0 } else { top[0].len() };
    let rows = if brows >= trows { brows } else { trows };
    let cols = if bcols >= tcols { bcols } else { tcols };
    let mut out: Grid = Vec::new();
    let mut i: usize = 0;
    while i < rows
        invariant
            0 <= i <= rows,
            grid_wf(base),
            grid_wf(top),
            b == grid_view(base),
            t == grid_view(top),
            brows == rows_of(b),
            bcols == cols_of(b),
            trows == rows_of(t),
            tcols == cols_of(t),
            brows > 0,
            rows == (if rows_of(b) >= rows_of(t) { rows_of(b) } else { rows_of(t) }),
            cols == (if cols_of(b) >= cols_of(t) { cols_of(b) } else { cols_of(t) }),
            out@.len() == i,
            forall|k: int| 0 <= k < i ==> #[trigger] out@[k]@ =~= Seq::new(
                cols as nat,
                |c: int| overlay_cell(b, t, k, c),
            ),
        decreases rows - i,
    {
        let mut nr: Vec<u8> = Vec::new();
        let mut j: usize = 0;
        while j < cols
            invariant
                0 <= j <= cols,
                0 <= i < rows,
                grid_wf(base),
                grid_wf(top),
                b == grid_view(base),
                t == grid_view(top),
                brows == rows_of(b),
                bcols == cols_of(b),
                trows == rows_of(t),
                tcols == cols_of(t),
                nr@.len() == j,
                forall|k: int| 0 <= k < j ==> nr@[k] == overlay_cell(b, t, i as int, k),
            decreases cols - j,
        {
            let bv: u8 = if i < brows && j < bcols {
                base[i][j]
            } else {
                0
            };
            let tv: u8 = if i < trows && j < tcols {
                top[i][j]
            } else {
                0
            };
            nr.push(if tv != 0 { tv } else { bv });
            j += 1;
        }
        assert(nr@ =~= Seq::new(cols as nat, |c: int| overlay_cell(b, t, i as int, c)));
        out.push(nr);
        i += 1;
    }
    assert(grid_view(&out) =~~= overlay_s(b, t));
    out
}

// --- symmetry ---

/// Every row reads the same forwards and backwards.
pub open spec fn sym_h_s(s: Seq<Seq<u8>>) -> bool {
    forall|r: int, i: int|
        0 <= r < rows_of(s) && 0 <= i < cols_of(s) / 2 ==> #[trigger] s[r][i] == s[r][cols_of(s)
            - 1 - i]
}

pub fn is_symmetric_h(grid: &Grid) -> (r: bool)
    requires
        grid_wf(grid),
    ensures
        r == sym_h_s(grid_view(grid)),
{
    let ghost s = grid_view(grid);
    let rows = grid.len();
    let cols = if rows == 0 { 0 } else { grid[0].len() };
    let half = cols / 2;
    let mut i: usize = 0;
    while i < rows
        invariant
            0 <= i <= rows,
            grid_wf(grid),
            s == grid_view(grid),
            rows == rows_of(s),
            cols == cols_of(s),
            half == cols / 2,
            forall|r: int, k: int| 0 <= r < i && 0 <= k < half ==> #[trigger] s[r][k] == s[r][cols
                - 1 - k],
        decreases rows - i,
    {
        let mut j: usize = 0;
        while j < half
            invariant
                0 <= j <= half,
                0 <= i < rows,
                grid_wf(grid),
                s == grid_view(grid),
                rows == rows_of(s),
                cols == cols_of(s),
                half == cols / 2,
                forall|k: int| 0 <= k < j ==> #[trigger] s[i as int][k] == s[i as int][cols - 1
                    - k],
            decreases half - j,
        {
            if grid[i][j] != grid[i][cols - 1 - j] {
                assert(s[i as int][j as int] != s[i as int][cols - 1 - j]);
                assert(!sym_h_s(s));
                return false;
            }
            j += 1;
        }
        i += 1;
    }
    true
}

/// The row list reads the same top-down and bottom-up.
pub open spec fn sym_v_s(s: Seq<Seq<u8>>) -> bool {
    forall|r: int, c: int|
        0 <= r < rows_of(s) / 2 && 0 <= c < cols_of(s) ==> #[trigger] s[r][c] == s[rows_of(s) - 1
            - r][c]
}

pub fn is_symmetric_v(grid: &Grid) -> (r: bool)
    requires
        grid_wf(grid),
    ensures
        r == sym_v_s(grid_view(grid)),
{
    let ghost s = grid_view(grid);
    let rows = grid.len();
    let cols = if rows == 0 { 0 } else { grid[0].len() };
    let half = rows / 2;
    let mut i: usize = 0;
    while i < half
        invariant
            0 <= i <= half,
            grid_wf(grid),
            s == grid_view(grid),
            rows == rows_of(s),
            cols == cols_of(s),
            half == rows / 2,
            forall|r: int, c: int| 0 <= r < i && 0 <= c < cols ==> #[trigger] s[r][c] == s[rows - 1
                - r][c],
        decreases half - i,
    {
        let mut j: usize = 0;
        while j < cols
            invariant
                0 <= j <= cols,
                0 <= i < half,
                grid_wf(grid),
                s == grid_view(grid),
                rows == rows_of(s),
                cols == cols_of(s),
                half == rows / 2,
                forall|c: int| 0 <= c < j ==> #[trigger] s[i as int][c] == s[rows - 1 - i][c],
            decreases cols - j,
        {
            if grid[i][j] != grid[rows - 1 - i][j] {
                assert(s[i as int][j as int] != s[rows - 1 - i][j as int]);
                assert(!sym_v_s(s));
                return false;
            }
            j += 1;
        }
        i += 1;
    }
    true
}

/// The grid is square and equals its transpose.
pub open spec fn sym_diag_s(s: Seq<Seq<u8>>) -> bool {
    &&& rows_of(s) == cols_of(s)
    &&& forall|r: int, c: int|
        0 <= r < rows_of(s) && 0 <= c < cols_of(s) ==> #[trigger] s[r][c] == s[c][r]
}

pub fn is_symmetric_diag(grid: &Grid) -> (r: bool)
    requires
        grid_wf(grid),
    ensures
        r == sym_diag_s(grid_view(grid)),
{
    let ghost s = grid_view(grid);
    let rows = grid.len();
    let cols = if rows == 0 { 0 } else { grid[0].len() };
    if rows != cols {
        return false;
    }
    let mut i: usize = 0;
    while i < rows
        invariant
            0 <= i <= rows,
            grid_wf(grid),
            s == grid_view(grid),
            rows == rows_of(s),
            cols == cols_of(s),
            rows == cols,
            forall|r: int, c: int| 0 <= r < i && 0 <= c < cols ==> #[trigger] s[r][c] == s[c][r],
        decreases rows - i,
    {
        let mut j: usize = 0;
        while j < cols
            invariant
                0 <= j <= cols,
                0 <= i < rows,
                grid_wf(grid),
                s == grid_view(grid),
                rows == rows_of(s),
                cols == cols_of(s),
                rows == cols,
                forall|c: int| 0 <= c < j ==> #[trigger] s[i as int][c] == s[c][i as int],
            decreases cols - j,
        {
            if grid[i][j] != grid[j][i] {
                assert(s[i as int][j as int] != s[j as int][i as int]);
                assert(!sym_diag_s(s));
                return false;
            }
            j += 1;
        }
        i += 1;
    }
    true
}

// --- periodicity ---

/// The rows repeat with column period `p`.
pub open spec fn periodic_h(s: Seq<Seq<u8>>, p: int) -> bool {
    forall|r: int, c: int|
        0 <= r < rows_of(s) && p <= c < cols_of(s) ==> #[trigger] s[r][c] == s[r][c % p]
}

fn check_periodic_h(grid: &Grid, p: usize) -> (b: bool)
    requires
        grid_wf(grid),
        p >= 1,
    ensures
        b == periodic_h(grid_view(grid), p as int),
{
    let ghost s = grid_view(grid);
    let rows = grid.len();
    let cols = if rows == 0 { 0 } else { grid[0].len() };
    let mut i: usize = 0;
    while i < rows
        invariant
            0 <= i <= rows,
            grid_wf(grid),
            s == grid_view(grid),
            rows == rows_of(s),
            cols == cols_of(s),
            p >= 1,
            forall|r: int, c: int| 0 <= r < i && p <= c < cols ==> #[trigger] s[r][c] == s[r][c % (
            p as int)],
        decreases rows - i,
    {
        let mut j: usize = p;
        while j < cols
            invariant
                p <= j <= cols || (j == p && cols < p),
                0 <= i < rows,
                grid_wf(grid),
                s == grid_view(grid),
                rows == rows_of(s),
                cols == cols_of(s),
                p >= 1,
                forall|c: int| p <= c < j ==> #[trigger] s[i as int][c] == s[i as int][c % (
                p as int)],
            decreases cols - j,
        {
            if grid[i][j] != grid[i][j % p] {
                assert(s[i as int][j as int] != s[i as int][(j as int) % (p as int)]);
                assert(!periodic_h(s, p as int));
                return false;
            }
            j += 1;
        }
        i += 1;
    }
    true
}

/// What a horizontal-period answer means: the smallest proper
/// divisor period, or that none exists.
pub open spec fn period_h_spec(s: Seq<Seq<u8>>, r: Option<usize>) -> bool {
    match r {
        Some(p) => {
            &&& 1 <= p <= cols_of(s) / 2
            &&& (cols_of(s) as int) % (p as int) == 0
            &&& periodic_h(s, p as int)
            &&& forall|q: int| 1 <= q < p && (cols_of(s) as int) % q == 0 ==> !periodic_h(s, q)
        },
        None => forall|q: int|
            1 <= q <= cols_of(s) / 2 && (cols_of(s) as int) % q == 0 ==> !periodic_h(s, q),
    }
}

/// The smallest proper horizontal period, if any.
pub fn detect_period_h(grid: &Grid) -> (r: Option<usize>)
    requires
        grid_wf(grid),
    ensures
        period_h_spec(grid_view(grid), r),
{
    let ghost s = grid_view(grid);
    let rows = grid.len();
    if rows == 0 {
        return None;
    }
    let cols = grid[0].len();
    let half = cols / 2;
    let mut p: usize = 1;
    while p <= half
        invariant
            1 <= p <= half + 1,
            grid_wf(grid),
            s == grid_view(grid),
            rows == rows_of(s),
            rows > 0,
            cols == cols_of(s),
            half == cols / 2,
            forall|q: int| 1 <= q < p && (cols as int) % q == 0 ==> !periodic_h(s, q),
        decreases half + 1 - p,
    {
        if cols % p == 0 {
            if check_periodic_h(grid, p) {
                return Some(p);
            }
        }
        p += 1;
    }
    None
}

/// The rows repeat with row period `p`.
pub open spec fn periodic_v(s: Seq<Seq<u8>>, p: int) -> bool {
    forall|r: int, c: int|
        p <= r < rows_of(s) && 0 <= c < cols_of(s) ==> #[trigger] s[r][c] == s[r % p][c]
}

fn check_periodic_v(grid: &Grid, p: usize) -> (b: bool)
    requires
        grid_wf(grid),
        p >= 1,
    ensures
        b == periodic_v(grid_view(grid), p as int),
{
    let ghost s = grid_view(grid);
    let rows = grid.len();
    let cols = if rows == 0 { 0 } else { grid[0].len() };
    let mut i: usize = p;
    while i < rows
        invariant
            p <= i <= rows || (i == p && rows < p),
            grid_wf(grid),
            s == grid_view(grid),
            rows == rows_of(s),
            cols == cols_of(s),
            p >= 1,
            forall|r: int, c: int| p <= r < i && 0 <= c < cols ==> #[trigger] s[r][c] == s[r % (
            p as int)][c],
        decreases rows - i,
    {
        let mut j: usize = 0;
        while j < cols
            invariant
                0 <= j <= cols,
                p <= i < rows,
                grid_wf(grid),
                s == grid_view(grid),
                rows == rows_of(s),
                cols == cols_of(s),
                p >= 1,
                forall|c: int| 0 <= c < j ==> #[trigger] s[i as int][c] == s[(i as int) % (
                p as int)][c],
            decreases cols - j,
        {
            if grid[i][j] != grid[i % p][j] {
                assert(s[i as int][j as int] != s[(i as int) % (p as int)][j as int]);
                assert(!periodic_v(s, p as int));
                return false;
            }
            j += 1;
        }
        i += 1;
    }
    true
}

/// What a vertical-period answer means: the smallest proper divisor
/// period, or that none exists.
pub open spec fn period_v_spec(s: Seq<Seq<u8>>, r: Option<usize>) -> bool {
    match r {
        Some(p) => {
            &&& 1 <= p <= rows_of(s) / 2
            &&& (rows_of(s) as int) % (p as int) == 0
            &&& periodic_v(s, p as int)
            &&& forall|q: int| 1 <= q < p && (rows_of(s) as int) % q == 0 ==> !periodic_v(s, q)
        },
        None => forall|q: int|
            1 <= q <= rows_of(s) / 2 && (rows_of(s) as int) % q == 0 ==> !periodic_v(s, q),
    }
}

/// The smallest proper vertical period, if any.
pub fn detect_period_v(grid: &Grid) -> (r: Option<usize>)
    requires
        grid_wf(grid),
    ensures
        period_v_spec(grid_view(grid), r),
{
    let ghost s = grid_view(grid);
    let rows = grid.len();
    let half = rows / 2;
    let mut p: usize = 1;
    while p <= half
        invariant
            1 <= p <= half + 1,
            grid_wf(grid),
            s == grid_view(grid),
            rows == rows_of(s),
            half == rows / 2,
            forall|q: int| 1 <= q < p && (rows as int) % q == 0 ==> !periodic_v(s, q),
        decreases half + 1 - p,
    {
        if rows % p == 0 {
            if check_periodic_v(grid, p) {
                return Some(p);
            }
        }
        p += 1;
    }
    None
}

} // verus!
