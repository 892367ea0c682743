//! Connected-component labelling as a bounded fixpoint.
//!
//! Every cell starts with its own scan index as label (background
//! cells carry a sentinel when they are ignored); one step lowers each
//! label to the least label among the cell and its same-colored
//! neighbors. After as many steps as the grid has cells every label
//! has settled on the least scan index of its component, so two cells
//! share a label exactly when they are connected.

use vstd::prelude::*;
use crate::grid::{Grid, grid_view, grid_wf, rows_of, cols_of, GRID_MAX};

verus! {

broadcast use crate::grid::lemma_grid_row_len;

/// Label of cells that take no part in labelling.
pub const LAB_NONE: u64 = u64::MAX;

/// The model of a label grid.
pub open spec fn lview(m: &Vec<Vec<u64>>) -> Seq<Seq<u64>> {
    Seq::new(m@.len(), |i: int| m@[i]@)
}

/// A label grid shaped like the model grid `s`.
pub open spec fn lab_wf(s: Seq<Seq<u8>>, m: Seq<Seq<u64>>) -> bool {
    &&& m.len() == rows_of(s)
    &&& forall|i: int| 0 <= i < m.len() ==> (#[trigger] m[i]).len() == cols_of(s)
}

/// The scan index of cell `(r, c)`.
pub open spec fn scan_id(s: Seq<Seq<u8>>, r: int, c: int) -> int {
    r * cols_of(s) + c
}

/// Starting labels: each participating cell gets its scan index.
pub open spec fn lab0(s: Seq<Seq<u8>>, ignore_bg: bool) -> Seq<Seq<u64>> {
    Seq::new(
        rows_of(s),
        |r: int|
            Seq::new(
                cols_of(s),
                |c: int|
                    if ignore_bg && s[r][c] == 0 {
                        LAB_NONE
                    } else {
                        scan_id(s, r, c) as u64
                    },
            ),
    )
}

/// Takes the lower of a candidate neighbor label and the current one,
/// when the neighbor exists and has the cell's color.
pub open spec fn lab_min_at(
    s: Seq<Seq<u8>>,
    lv: Seq<Seq<u64>>,
    color: u8,
    r: int,
    c: int,
    cur: u64,
) -> u64 {
    if 0 <= r < rows_of(s) && 0 <= c < cols_of(s) && s[r][c] == color && lv[r][c] < cur {
        lv[r][c]
    } else {
        cur
    }
}

/// One step of a cell: least label among itself and its same-colored
/// neighbors (4 or 8 of them).
pub open spec fn lab_cell_step(
    s: Seq<Seq<u8>>,
    conn8: bool,
    lv: Seq<Seq<u64>>,
    r: int,
    c: int,
) -> u64 {
    if lv[r][c] == LAB_NONE {
        LAB_NONE
    } else {
        let color = s[r][c];
        let m0 = lv[r][c];
        let m1 = lab_min_at(s, lv, color, r - 1, c, m0);
        let m2 = lab_min_at(s, lv, color, r + 1, c, m1);
        let m3 = lab_min_at(s, lv, color, r, c - 1, m2);
        let m4 = lab_min_at(s, lv, color, r, c + 1, m3);
        if conn8 {
            let m5 = lab_min_at(s, lv, color, r - 1, c - 1, m4);
            let m6 = lab_min_at(s, lv, color, r - 1, c + 1, m5);
            let m7 = lab_min_at(s, lv, color, r + 1, c - 1, m6);
            lab_min_at(s, lv, color, r + 1, c + 1, m7)
        } else {
            m4
        }
    }
}

/// One propagation step over the whole grid.
pub open spec fn step_lab(s: Seq<Seq<u8>>, conn8: bool, lv: Seq<Seq<u64>>) -> Seq<Seq<u64>> {
    Seq::new(
        rows_of(s),
        |r: int| Seq::new(cols_of(s), |c: int| lab_cell_step(s, conn8, lv, r, c)),
    )
}

/// `n` propagation steps.
pub open spec fn iter_lab(s: Seq<Seq<u8>>, conn8: bool, lv: Seq<Seq<u64>>, n: int) -> Seq<
    Seq<u64>,
>
    decreases n,
{
    if n <= 0 {
        lv
    } else {
        step_lab(s, conn8, iter_lab(s, conn8, lv, n - 1))
    }
}

/// A step that changes nothing never changes anything after.
pub proof fn lemma_lab_fixpoint(s: Seq<Seq<u8>>, conn8: bool, lv: Seq<Seq<u64>>, n: int)
    requires
        step_lab(s, conn8, lv) == lv,
        n >= 0,
    ensures
        iter_lab(s, conn8, lv, n) == lv,
    decreases n,
{
    if n > 0 {
        lemma_lab_fixpoint(s, conn8, lv, n - 1);
    }
}

/// Splitting an iteration in two runs the steps in sequence.
proof fn lemma_lab_add(s: Seq<Seq<u8>>, conn8: bool, lv: Seq<Seq<u64>>, a: int, b: int)
    requires
        a >= 0,
        b >= 0,
    ensures
        iter_lab(s, conn8, lv, a + b) == iter_lab(s, conn8, iter_lab(s, conn8, lv, a), b),
    decreases b,
{
    if b > 0 {
        lemma_lab_add(s, conn8, lv, a, b - 1);
    }
}

/// The labels every cell settles on.
pub open spec fn full_lab(s: Seq<Seq<u8>>, conn8: bool, ignore_bg: bool) -> Seq<Seq<u64>> {
    iter_lab(s, conn8, lab0(s, ignore_bg), (rows_of(s) * cols_of(s)) as int)
}

fn lab0_exec(g: &Grid, ignore_bg: bool) -> (m: Vec<Vec<u64>>)
    requires
        grid_wf(g),
    ensures
        lview(&m) == lab0(grid_view(g), ignore_bg),
        lab_wf(grid_view(g), lview(&m)),
{
    let ghost s = grid_view(g);
    let rows = g.len();
    let cols = if rows == 0 { 0 } else { g[0].len() };
    let mut out: Vec<Vec<u64>> = Vec::new();
    let mut i: usize = 0;
    while i < rows
        invariant
            0 <= i <= rows,
            grid_wf(g),
            s == grid_view(g),
            rows == rows_of(s),
            cols == cols_of(s),
            out@.len() == i,
            forall|k: int| 0 <= k < i ==> #[trigger] out@[k]@ =~= Seq::new(
                cols as nat,
                |c: int| if ignore_bg && s[k][c] == 0 {
                    LAB_NONE
                } else {
                    scan_id(s, k, c) as u64
                },
            ),
        decreases rows - i,
    {
        let mut nr: Vec<u64> = Vec::new();
        let mut j: usize = 0;
        while j < cols
            invariant
                0 <= j <= cols,
                0 <= i < rows,
                grid_wf(g),
                s == grid_view(g),
                rows == rows_of(s),
                cols == cols_of(s),
                nr@.len() == j,
                forall|k: int| 0 <= k < j ==> nr@[k] == (if ignore_bg && s[i as int][k] == 0 {
                    LAB_NONE
                } else {
                    scan_id(s, i as int, k) as u64
                }),
            decreases cols - j,
        {
            assert((i as int) * (cols as int) + (j as int) < 0x1_0000_0000int) by (nonlinear_arith)
                requires
                    i <= 0xFFFF,
                    j <= 0xFFFF,
                    cols <= 0xFFFF,
            ;
            let id: u64 = (i as u64) * (cols as u64) + (j as u64);
            assert(id == scan_id(s, i as int, j as int));
            let v = g[i][j];
            nr.push(if ignore_bg && v == 0 { LAB_NONE } else { id });
            j += 1;
        }
        assert(nr@ =~= Seq::new(
            cols as nat,
            |c: int| if ignore_bg && s[i as int][c] == 0 {
                LAB_NONE
            } else {
                scan_id(s, i as int, c) as u64
            },
        ));
        out.push(nr);
        i += 1;
    }
    assert(lview(&out) =~~= lab0(s, ignore_bg));
    out
}

/// Looks one neighbor up, mirroring `lab_min_at`.
fn lab_min_at_exec(
    g: &Grid,
    m: &Vec<Vec<u64>>,
    color: u8,
    r: i64,
    c: i64,
    cur: u64,
) -> (v: u64)
    requires
        grid_wf(g),
        lab_wf(grid_view(g), lview(m)),
        -2 * (GRID_MAX as i64) <= r <= 2 * (GRID_MAX as i64),
        -2 * (GRID_MAX as i64) <= c <= 2 * (GRID_MAX as i64),
    ensures
        v == lab_min_at(grid_view(g), lview(m), color, r as int, c as int, cur),
{
    let ghost s = grid_view(g);
    let ghost mv = lview(m);
    let rows = g.len();
    let cols = if rows == 0 { 0 } else { g[0].len() };
    if r >= 0 && (r as usize) < rows && c >= 0 && (c as usize) < cols {
        assert(m@[r as int]@ == mv[r as int]);
        let lab = m[r as usize][c as usize];
        if g[r as usize][c as usize] == color && lab < cur {
            return lab;
        }
    }
    cur
}

fn step_lab_exec(g: &Grid, conn8: bool, m: &Vec<Vec<u64>>) -> (m2: Vec<Vec<u64>>)
    requires
        grid_wf(g),
        lab_wf(grid_view(g), lview(m)),
    ensures
        lview(&m2) == step_lab(grid_view(g), conn8, lview(m)),
        lab_wf(grid_view(g), lview(&m2)),
{
    let ghost s = grid_view(g);
    let ghost mv = lview(m);
    let rows = g.len();
    let cols = if rows == 0 { 0 } else { g[0].len() };
    proof {
        assert forall|k: int| 0 <= k < rows implies (#[trigger] m@[k])@.len() == cols by {
            assert(lview(m)[k] == m@[k]@);
        }
        assert(m@.len() == rows);
    }
    let mut out: Vec<Vec<u64>> = Vec::new();
    let mut i: usize = 0;
    while i < rows
        invariant
            0 <= i <= rows,
            grid_wf(g),
            s == grid_view(g),
            mv == lview(m),
            lab_wf(s, mv),
            m@.len() == rows,
            forall|k: int| 0 <= k < rows ==> (#[trigger] m@[k])@.len() == cols,
            rows == rows_of(s),
            cols == cols_of(s),
            out@.len() == i,
            forall|k: int| 0 <= k < i ==> #[trigger] out@[k]@ =~= Seq::new(
                cols as nat,
                |c: int| lab_cell_step(s, conn8, mv, k, c),
            ),
        decreases rows - i,
    {
        let mut nr: Vec<u64> = Vec::new();
        let mut j: usize = 0;
        while j < cols
            invariant
                0 <= j <= cols,
                0 <= i < rows,
                grid_wf(g),
                s == grid_view(g),
                mv == lview(m),
                lab_wf(s, mv),
                m@.len() == rows,
                forall|k: int| 0 <= k < rows ==> (#[trigger] m@[k])@.len() == cols,
                rows == rows_of(s),
                cols == cols_of(s),
                nr@.len() == j,
                forall|k: int| 0 <= k < j ==> nr@[k] == lab_cell_step(s, conn8, mv, i as int, k),
            decreases cols - j,
        {
            assert(m@[i as int]@ == mv[i as int]);
            let own = m[i][j];
            let val: u64;
            if own == LAB_NONE {
                val = LAB_NONE;
            } else {
                let color = g[i][j];
                let ri = i as i64;
                let ci = j as i64;
                let m1 = lab_min_at_exec(g, m, color, ri - 1, ci, own);
                let m2 = lab_min_at_exec(g, m, color, ri + 1, ci, m1);
                let m3 = lab_min_at_exec(g, m, color, ri, ci - 1, m2);
                let m4 = lab_min_at_exec(g, m, color, ri, ci + 1, m3);
                if conn8 {
                    let m5 = lab_min_at_exec(g, m, color, ri - 1, ci - 1, m4);
                    let m6 = lab_min_at_exec(g, m, color, ri - 1, ci + 1, m5);
                    let m7 = lab_min_at_exec(g, m, color, ri + 1, ci - 1, m6);
                    val = lab_min_at_exec(g, m, color, ri + 1, ci + 1, m7);
                } else {
                    val = m4;
                }
            }
            assert(val == lab_cell_step(s, conn8, mv, i as int, j as int));
            nr.push(val);
            j += 1;
        }
        assert(nr@ =~= Seq::new(cols as nat, |c: int| lab_cell_step(s, conn8, mv, i as int, c)));
        out.push(nr);
        i += 1;
    }
    assert(lview(&out) =~~= step_lab(s, conn8, mv));
    out
}

fn labs_eq(a: &Vec<Vec<u64>>, b: &Vec<Vec<u64>>) -> (r: bool)
    ensures
        r <==> lview(a) =~~= lview(b),
{
    if a.len() != b.len() {
        assert(lview(a).len() != lview(b).len());
        return false;
    }
    let mut i: usize = 0;
    while i < a.len()
        invariant
            0 <= i <= a.len(),
            a.len() == b.len(),
            forall|k: int| 0 <= k < i ==> lview(a)[k] =~= lview(b)[k],
        decreases a.len() - i,
    {
        let ra = &a[i];
        let rb = &b[i];
        if ra.len() != rb.len() {
            assert(lview(a)[i as int].len() != lview(b)[i as int].len());
            return false;
        }
        let mut j: usize = 0;
        while j < ra.len()
            invariant
                0 <= j <= ra.len(),
                ra.len() == rb.len(),
                ra@ == lview(a)[i as int],
                rb@ == lview(b)[i as int],
                forall|k: int| 0 <= k < j ==> ra@[k] == rb@[k],
            decreases ra.len() - j,
        {
            if ra[j] != rb[j] {
                assert(lview(a)[i as int][j as int] != lview(b)[i as int][j as int]);
                return false;
            }
            j += 1;
        }
        assert(lview(a)[i as int] =~= lview(b)[i as int]);
        i += 1;
    }
    assert(lview(a) =~~= lview(b));
    true
}

/// Computes the settled labels of a grid.
pub(crate) fn run_labels(g: &Grid, conn8: bool, ignore_bg: bool) -> (m: Vec<Vec<u64>>)
    requires
        grid_wf(g),
    ensures
        lview(&m) == full_lab(grid_view(g), conn8, ignore_bg),
        lab_wf(grid_view(g), lview(&m)),
{
    let ghost s = grid_view(g);
    let rows = g.len();
    let cols = if rows == 0 { 0 } else { g[0].len() };
    assert(rows * cols <= GRID_MAX * GRID_MAX) by (nonlinear_arith)
        requires
            rows <= GRID_MAX,
            cols <= GRID_MAX,
    ;
    let total: usize = rows * cols;
    let mut m = lab0_exec(g, ignore_bg);
    let ghost seed_v = lview(&m);
    let mut n: usize = 0;
    while n < total
        invariant
            0 <= n <= total,
            grid_wf(g),
            s == grid_view(g),
            seed_v == lab0(s, ignore_bg),
            total == rows_of(s) * cols_of(s),
            lview(&m) == iter_lab(s, conn8, seed_v, n as int),
            lab_wf(s, lview(&m)),
        decreases total - n,
    {
        let m2 = step_lab_exec(g, conn8, &m);
        if labs_eq(&m2, &m) {
            proof {
                assert(step_lab(s, conn8, lview(&m)) == lview(&m));
                lemma_lab_fixpoint(s, conn8, lview(&m), total - n);
                lemma_lab_add(s, conn8, seed_v, n as int, total - n);
            }
            return m;
        }
        m = m2;
        n += 1;
    }
    m
}

} // verus!
