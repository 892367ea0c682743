//! Bounded reachability: the executable counterpart of the fixpoint
//! model in `model`. A mark grid is propagated one local step at a
//! time until it settles (or the cell-count cap is reached, which the
//! fixpoint lemma shows is the same thing), and `FloodFill`,
//! `FillEnclosed` and `FillInsideObjects` recolor cells from the final
//! marking.

use vstd::prelude::*;
use crate::grid::{Grid, grid_view, grid_wf, rows_of, cols_of, GRID_MAX};
use crate::model::{
    CellTest, test_ok, nbr4_marked, step_reach, iter_reach, lemma_reach_fixpoint, seed_at,
    seed_border, full_reach, flood_fill_s, fill_enclosed_s, fill_inside_objects_s, in_grid,
};

verus! {

broadcast use crate::grid::lemma_grid_row_len;

/// The model of a mark grid.
pub open spec fn bview(m: &Vec<Vec<bool>>) -> Seq<Seq<bool>> {
    Seq::new(m@.len(), |i: int| m@[i]@)
}

/// A mark grid shaped like the model grid `s`.
pub open spec fn mark_wf(s: Seq<Seq<u8>>, m: Seq<Seq<bool>>) -> bool {
    &&& m.len() == rows_of(s)
    &&& forall|i: int| 0 <= i < m.len() ==> (#[trigger] m[i]).len() == cols_of(s)
}

fn test_ok_exec(t: CellTest, v: u8) -> (b: bool)
    ensures
        b == test_ok(t, v),
{
    match t {
        CellTest::IsColor(c) => v == c,
        CellTest::NotColor(c) => v != c,
    }
}

/// Splitting an iteration in two runs the steps in sequence.
proof fn lemma_reach_add(s: Seq<Seq<u8>>, t: CellTest, m: Seq<Seq<bool>>, a: int, b: int)
    requires
        a >= 0,
        b >= 0,
    ensures
        iter_reach(s, t, m, a + b) == iter_reach(s, t, iter_reach(s, t, m, a), b),
    decreases b,
{
    if b > 0 {
        lemma_reach_add(s, t, m, a, b - 1);
    }
}

fn step_mark(g: &Grid, t: CellTest, m: &Vec<Vec<bool>>) -> (m2: Vec<Vec<bool>>)
    requires
        grid_wf(g),
        mark_wf(grid_view(g), bview(m)),
    ensures
        bview(&m2) == step_reach(grid_view(g), t, bview(m)),
        mark_wf(grid_view(g), bview(&m2)),
{
    let ghost s = grid_view(g);
    let ghost mv = bview(m);
    let rows = g.len();
    let cols = if rows == 0 { 0 } else { g[0].len() };
    proof {
        assert forall|k: int| 0 <= k < rows implies (#[trigger] m@[k])@.len() == cols by {
            assert(bview(m)[k] == m@[k]@);
        }
        assert(m@.len() == rows);
    }
    let mut out: Vec<Vec<bool>> = Vec::new();
    let mut i: usize = 0;
    while i < rows
        invariant
            0 <= i <= rows,
            grid_wf(g),
            s == grid_view(g),
            mv == bview(m),
            mark_wf(s, mv),
            m@.len() == rows,
            forall|k: int| 0 <= k < rows ==> (#[trigger] m@[k])@.len() == cols,
            rows == rows_of(s),
            cols == cols_of(s),
            out@.len() == i,
            forall|k: int| 0 <= k < i ==> #[trigger] out@[k]@ =~= Seq::new(
                cols as nat,
                |c: int| mv[k][c] || (test_ok(t, s[k][c]) && nbr4_marked(mv, k, c)),
            ),
        decreases rows - i,
    {
        let mut nr: Vec<bool> = Vec::new();
        let mut j: usize = 0;
        while j < cols
            invariant
                0 <= j <= cols,
                0 <= i < rows,
                grid_wf(g),
                s == grid_view(g),
                mv == bview(m),
                mark_wf(s, mv),
                m@.len() == rows,
                forall|k: int| 0 <= k < rows ==> (#[trigger] m@[k])@.len() == cols,
                rows == rows_of(s),
                cols == cols_of(s),
                nr@.len() == j,
                forall|k: int| 0 <= k < j ==> nr@[k] == (mv[i as int][k] || (test_ok(
                    t,
                    s[i as int][k],
                ) && nbr4_marked(mv, i as int, k))),
            decreases cols - j,
        {
            let own = m[i][j];
            let mut nbr = false;
            if i > 0 && m[i - 1][j] {
                nbr = true;
            }
            if i + 1 < rows && m[i + 1][j] {
                nbr = true;
            }
            if j > 0 && m[i][j - 1] {
                nbr = true;
            }
            if j + 1 < cols && m[i][j + 1] {
                nbr = true;
            }
            assert(nbr == nbr4_marked(mv, i as int, j as int));
            let ok = test_ok_exec(t, g[i][j]);
            nr.push(own || (ok && nbr));
            j += 1;
        }
        assert(nr@ =~= Seq::new(
            cols as nat,
            |c: int| mv[i as int][c] || (test_ok(t, s[i as int][c]) && nbr4_marked(
                mv,
                i as int,
                c,
            )),
        ));
        out.push(nr);
        i += 1;
    }
    assert(bview(&out) =~~= step_reach(s, t, mv));
    out
}

fn marks_eq(a: &Vec<Vec<bool>>, b: &Vec<Vec<bool>>) -> (r: bool)
    ensures
        r <==> bview(a) =~~= bview(b),
{
    if a.len() != b.len() {
        assert(bview(a).len() != bview(b).len());
        return false;
    }
    let mut i: usize = 0;
    while i < a.len()
        invariant
            0 <= i <= a.len(),
            a.len() == b.len(),
            forall|k: int| 0 <= k < i ==> bview(a)[k] =~= bview(b)[k],
        decreases a.len() - i,
    {
        let ra = &a[i];
        let rb = &b[i];
        if ra.len() != rb.len() {
            assert(bview(a)[i as int].len() != bview(b)[i as int].len());
            return false;
        }
        let mut j: usize = 0;
        while j < ra.len()
            invariant
                0 <= j <= ra.len(),
                ra.len() == rb.len(),
                ra@ == bview(a)[i as int],
                rb@ == bview(b)[i as int],
                forall|k: int| 0 <= k < j ==> ra@[k] == rb@[k],
            decreases ra.len() - j,
        {
            if ra[j] != rb[j] {
                assert(bview(a)[i as int][j as int] != bview(b)[i as int][j as int]);
                return false;
            }
            j += 1;
        }
        assert(bview(a)[i as int] =~= bview(b)[i as int]);
        i += 1;
    }
    assert(bview(a) =~~= bview(b));
    true
}

/// Runs the propagation to its bounded fixpoint.
fn run_reach(g: &Grid, t: CellTest, seed: Vec<Vec<bool>>) -> (m: Vec<Vec<bool>>)
    requires
        grid_wf(g),
        mark_wf(grid_view(g), bview(&seed)),
    ensures
        bview(&m) == full_reach(grid_view(g), t, bview(&seed)),
        mark_wf(grid_view(g), bview(&m)),
{
    let ghost s = grid_view(g);
    let ghost seed_v = bview(&seed);
    let rows = g.len();
    let cols = if rows == 0 { 0 } else { g[0].len() };
    assert(rows * cols <= GRID_MAX * GRID_MAX) by (nonlinear_arith)
        requires
            rows <= GRID_MAX,
            cols <= GRID_MAX,
    ;
    let total: usize = rows * cols;
    let mut m = seed;
    let mut n: usize = 0;
    while n < total
        invariant
            0 <= n <= total,
            grid_wf(g),
            s == grid_view(g),
            seed_v == bview(&seed),
            total == rows_of(s) * cols_of(s),
            bview(&m) == iter_reach(s, t, seed_v, n as int),
            mark_wf(s, bview(&m)),
        decreases total - n,
    {
        let m2 = step_mark(g, t, &m);
        if marks_eq(&m2, &m) {
            proof {
                assert(step_reach(s, t, bview(&m)) == bview(&m));
                lemma_reach_fixpoint(s, t, bview(&m), total - n);
                lemma_reach_add(s, t, seed_v, n as int, total - n);
            }
            return m;
        }
        m = m2;
        n += 1;
    }
    m
}

fn seed_at_exec(g: &Grid, sr: usize, sc: usize) -> (m: Vec<Vec<bool>>)
    requires
        grid_wf(g),
    ensures
        bview(&m) == seed_at(grid_view(g), sr as int, sc as int),
        mark_wf(grid_view(g), bview(&m)),
{
    let ghost s = grid_view(g);
    let rows = g.len();
    let cols = if rows == 0 { 0 } else { g[0].len() };
    let mut out: Vec<Vec<bool>> = Vec::new();
    let mut i: usize = 0;
    while i < rows
        invariant
            0 <= i <= rows,
            s == grid_view(g),
            rows == rows_of(s),
            cols == cols_of(s),
            out@.len() == i,
            forall|k: int| 0 <= k < i ==> #[trigger] out@[k]@ =~= Seq::new(
                cols as nat,
                |c: int| k == sr as int && c == sc as int,
            ),
        decreases rows - i,
    {
        let mut nr: Vec<bool> = Vec::new();
        let mut j: usize = 0;
        while j < cols
            invariant
                0 <= j <= cols,
                nr@.len() == j,
                forall|k: int| 0 <= k < j ==> nr@[k] == (i as int == sr as int && k == sc as int),
            decreases cols - j,
        {
            nr.push(i == sr && j == sc);
            j += 1;
        }
        assert(nr@ =~= Seq::new(cols as nat, |c: int| i as int == sr as int && c == sc as int));
        out.push(nr);
        i += 1;
    }
    assert(bview(&out) =~~= seed_at(s, sr as int, sc as int));
    out
}

fn seed_border_exec(g: &Grid, t: CellTest) -> (m: Vec<Vec<bool>>)
    requires
        grid_wf(g),
    ensures
        bview(&m) == seed_border(grid_view(g), t),
        mark_wf(grid_view(g), bview(&m)),
{
    let ghost s = grid_view(g);
    let rows = g.len();
    let cols = if rows == 0 { 0 } else { g[0].len() };
    let mut out: Vec<Vec<bool>> = Vec::new();
    let mut i: usize = 0;
    while i < rows
        invariant
            0 <= i <= rows,
            grid_wf(g),
            s == grid_view(g),
            rows == rows_of(s),
            cols == cols_of(s),
            out@.len() == i,
            forall|k: int| 0 <= k < i ==> #[trigger] out@[k]@ =~= Seq::new(
                cols as nat,
                |c: int| (k == 0 || k == rows_of(s) - 1 || c == 0 || c == cols_of(s) - 1)
                    && test_ok(t, s[k][c]),
            ),
        decreases rows - i,
    {
        let mut nr: Vec<bool> = Vec::new();
        let mut j: usize = 0;
        while j < cols
            invariant
                0 <= j <= cols,
                0 <= i < rows,
                grid_wf(g),
                s == grid_view(g),
                rows == rows_of(s),
                cols == cols_of(s),
                nr@.len() == j,
                forall|k: int| 0 <= k < j ==> nr@[k] == ((i as int == 0 || i as int == rows_of(s)
                    - 1 || k == 0 || k == cols_of(s) - 1) && test_ok(t, s[i as int][k])),
            decreases cols - j,
        {
            let edge = i == 0 || i == rows - 1 || j == 0 || j == cols - 1;
            let ok = test_ok_exec(t, g[i][j]);
            nr.push(edge && ok);
            j += 1;
        }
        assert(nr@ =~= Seq::new(
            cols as nat,
            |c: int| (i as int == 0 || i as int == rows_of(s) - 1 || c == 0 || c == cols_of(s)
                - 1) && test_ok(t, s[i as int][c]),
        ));
        out.push(nr);
        i += 1;
    }
    assert(bview(&out) =~~= seed_border(s, t));
    out
}

/// Recolors the cells chosen by `pick` from the mark grid.
fn paint_marked(g: &Grid, m: &Vec<Vec<bool>>, color: u8, only_zero: bool) -> (r: Grid)
    requires
        grid_wf(g),
        mark_wf(grid_view(g), bview(m)),
    ensures
        grid_view(&r) =~~= Seq::new(
            rows_of(grid_view(g)),
            |i: int| Seq::new(
                cols_of(grid_view(g)),
                |c: int| if only_zero {
                    if grid_view(g)[i][c] == 0 && !bview(m)[i][c] {
                        color
                    } else {
                        grid_view(g)[i][c]
                    }
                } else {
                    if bview(m)[i][c] {
                        color
                    } else {
                        grid_view(g)[i][c]
                    }
                },
            ),
        ),
        grid_wf(&r),
{
    let ghost s = grid_view(g);
    let ghost mv = bview(m);
    let rows = g.len();
    let cols = if rows == 0 { 0 } else { g[0].len() };
    proof {
        assert forall|k: int| 0 <= k < rows implies (#[trigger] m@[k])@.len() == cols by {
            assert(bview(m)[k] == m@[k]@);
        }
        assert(m@.len() == rows);
    }
    let mut out: Grid = Vec::new();
    let mut i: usize = 0;
    while i < rows
        invariant
            0 <= i <= rows,
            grid_wf(g),
            s == grid_view(g),
            mv == bview(m),
            mark_wf(s, mv),
            m@.len() == rows,
            forall|k: int| 0 <= k < rows ==> (#[trigger] m@[k])@.len() == cols,
            rows == rows_of(s),
            cols == cols_of(s),
            out@.len() == i,
            forall|k: int| 0 <= k < i ==> #[trigger] out@[k]@ =~= Seq::new(
                cols as nat,
                |c: int| if only_zero {
                    if s[k][c] == 0 && !mv[k][c] {
                        color
                    } else {
                        s[k][c]
                    }
                } else {
                    if mv[k][c] {
                        color
                    } else {
                        s[k][c]
                    }
                },
            ),
        decreases rows - i,
    {
        let mut nr: Vec<u8> = Vec::new();
        let mut j: usize = 0;
        while j < cols
            invariant
                0 <= j <= cols,
                0 <= i < rows,
                grid_wf(g),
                s == grid_view(g),
                mv == bview(m),
                mark_wf(s, mv),
                m@.len() == rows,
                forall|k: int| 0 <= k < rows ==> (#[trigger] m@[k])@.len() == cols,
                rows == rows_of(s),
                cols == cols_of(s),
                nr@.len() == j,
                forall|k: int| 0 <= k < j ==> nr@[k] == (if only_zero {
                    if s[i as int][k] == 0 && !mv[i as int][k] {
                        color
                    } else {
                        s[i as int][k]
                    }
                } else {
                    if mv[i as int][k] {
                        color
                    } else {
                        s[i as int][k]
                    }
                }),
            decreases cols - j,
        {
            let v = g[i][j];
            let mk = m[i][j];
            let val = if only_zero {
                if v == 0 && !mk {
                    color
                } else {
                    v
                }
            } else {
                if mk {
                    color
                } else {
                    v
                }
            };
            nr.push(val);
            j += 1;
        }
        assert(nr@ =~= Seq::new(
            cols as nat,
            |c: int| if only_zero {
                if s[i as int][c] == 0 && !mv[i as int][c] {
                    color
                } else {
                    s[i as int][c]
                }
            } else {
                if mv[i as int][c] {
                    color
                } else {
                    s[i as int][c]
                }
            },
        ));
        out.push(nr);
        i += 1;
    }
    out
}

pub(crate) fn flood_fill(g: &Grid, sr: usize, sc: usize, color: u8) -> (r: Grid)
    requires
        grid_wf(g),
    ensures
        grid_view(&r) == flood_fill_s(grid_view(g), sr as int, sc as int, color),
        grid_wf(&r),
{
    let ghost s = grid_view(g);
    let rows = g.len();
    let cols = if rows == 0 { 0 } else { g[0].len() };
    if sr >= rows || sc >= cols {
        let r = crate::prims_basic::clone_grid(g);
        assert(grid_view(&r) == flood_fill_s(s, sr as int, sc as int, color));
        return r;
    }
    let old = g[sr][sc];
    if old == color {
        let r = crate::prims_basic::clone_grid(g);
        assert(grid_view(&r) == flood_fill_s(s, sr as int, sc as int, color));
        return r;
    }
    let seed = seed_at_exec(g, sr, sc);
    let m = run_reach(g, CellTest::IsColor(old), seed);
    let r = paint_marked(g, &m, color, false);
    assert(grid_view(&r) =~~= flood_fill_s(s, sr as int, sc as int, color));
    r
}

pub(crate) fn fill_enclosed(g: &Grid, wall: u8) -> (r: Grid)
    requires
        grid_wf(g),
    ensures
        grid_view(&r) == fill_enclosed_s(grid_view(g), wall),
        grid_wf(&r),
{
    let ghost s = grid_view(g);
    let rows = g.len();
    if rows == 0 {
        let r = crate::prims_basic::clone_grid(g);
        assert(grid_view(&r) == fill_enclosed_s(s, wall));
        return r;
    }
    let seed = seed_border_exec(g, CellTest::NotColor(wall));
    let m = run_reach(g, CellTest::NotColor(wall), seed);
    let r = paint_marked(g, &m, wall, true);
    assert(grid_view(&r) =~~= fill_enclosed_s(s, wall));
    r
}

pub(crate) fn fill_inside_objects(g: &Grid, fill: u8) -> (r: Grid)
    requires
        grid_wf(g),
    ensures
        grid_view(&r) == fill_inside_objects_s(grid_view(g), fill),
        grid_wf(&r),
{
    let ghost s = grid_view(g);
    let rows = g.len();
    if rows == 0 {
        let r = crate::prims_basic::clone_grid(g);
        assert(grid_view(&r) == fill_inside_objects_s(s, fill));
        return r;
    }
    let seed = seed_border_exec(g, CellTest::IsColor(0));
    let m = run_reach(g, CellTest::IsColor(0), seed);
    let r = paint_marked(g, &m, fill, true);
    assert(grid_view(&r) =~~= fill_inside_objects_s(s, fill));
    r
}

} // verus!
