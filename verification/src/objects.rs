//! Objects: connected components of same-colored cells.
//!
//! Components are read off the settled label grid of `labels`: the
//! roots (cells whose label is their own scan index) in scan order are
//! the objects, and a component's cells are the cells sharing its
//! root's label, in scan order. All contracts are exact over these
//! definitions.

use vstd::prelude::*;
use crate::grid::{Grid, grid_view, grid_wf, rows_of, cols_of, grid_filled, mk_grid, GRID_MAX};
use crate::labels::{lview, lab_wf, scan_id, full_lab, run_labels, LAB_NONE};

verus! {

broadcast use crate::grid::lemma_grid_row_len;

/// A connected set of same-colored cells with its bounding box.
#[derive(Debug, Clone, PartialEq, Eq, Hash)]
pub struct Object {
    pub cells: Vec<(usize, usize)>,
    pub color: u8,
    pub min_r: usize,
    pub min_c: usize,
    pub max_r: usize,
    pub max_c: usize,
}

// --- extrema over a cell list ---

pub open spec fn cells_min_r(cs: Seq<(usize, usize)>, n: int) -> usize
    decreases n,
{
    if n <= 0 {
        0
    } else if n == 1 {
        cs[0].0
    } else if cs[n - 1].0 < cells_min_r(cs, n - 1) {
        cs[n - 1].0
    } else {
        cells_min_r(cs, n - 1)
    }
}

pub open spec fn cells_min_c(cs: Seq<(usize, usize)>, n: int) -> usize
    decreases n,
{
    if n <= 0 {
        0
    } else if n == 1 {
        cs[0].1
    } else if cs[n - 1].1 < cells_min_c(cs, n - 1) {
        cs[n - 1].1
    } else {
        cells_min_c(cs, n - 1)
    }
}

pub open spec fn cells_max_r(cs: Seq<(usize, usize)>, n: int) -> usize
    decreases n,
{
    if n <= 0 {
        0
    } else if n == 1 {
        cs[0].0
    } else if cs[n - 1].0 > cells_max_r(cs, n - 1) {
        cs[n - 1].0
    } else {
        cells_max_r(cs, n - 1)
    }
}

pub open spec fn cells_max_c(cs: Seq<(usize, usize)>, n: int) -> usize
    decreases n,
{
    if n <= 0 {
        0
    } else if n == 1 {
        cs[0].1
    } else if cs[n - 1].1 > cells_max_c(cs, n - 1) {
        cs[n - 1].1
    } else {
        cells_max_c(cs, n - 1)
    }
}

/// An object's bounding-box fields agree with its cell list.
pub open spec fn obj_wf(o: Object) -> bool {
    &&& o.min_r == cells_min_r(o.cells@, o.cells@.len() as int)
    &&& o.min_c == cells_min_c(o.cells@, o.cells@.len() as int)
    &&& o.max_r == cells_max_r(o.cells@, o.cells@.len() as int)
    &&& o.max_c == cells_max_c(o.cells@, o.cells@.len() as int)
}

/// Every cell lies inside the box the extrema describe.
pub proof fn lemma_cells_in_box(cs: Seq<(usize, usize)>, n: int)
    requires
        1 <= n <= cs.len(),
    ensures
        cells_min_r(cs, n) <= cells_max_r(cs, n),
        cells_min_c(cs, n) <= cells_max_c(cs, n),
        forall|k: int| 0 <= k < n ==> cells_min_r(cs, n) <= (#[trigger] cs[k]).0 <= cells_max_r(
            cs,
            n,
        ) && cells_min_c(cs, n) <= cs[k].1 <= cells_max_c(cs, n),
    decreases n,
{
    if n > 1 {
        lemma_cells_in_box(cs, n - 1);
    }
}

impl Object {
    /// Builds an object from its cells, computing the bounding box.
    pub fn from_cells(cells: Vec<(usize, usize)>, color: u8) -> (o: Object)
        ensures
            o.cells@ == cells@,
            o.color == color,
            obj_wf(o),
    {
        let ghost cs = cells@;
        let n = cells.len();
        let mut min_r: usize = 0;
        let mut min_c: usize = 0;
        let mut max_r: usize = 0;
        let mut max_c: usize = 0;
        if n > 0 {
            min_r = cells[0].0;
            min_c = cells[0].1;
            max_r = cells[0].0;
            max_c = cells[0].1;
            let mut i: usize = 1;
            while i < n
                invariant
                    1 <= i <= n,
                    n == cs.len(),
                    cs == cells@,
                    min_r == cells_min_r(cs, i as int),
                    min_c == cells_min_c(cs, i as int),
                    max_r == cells_max_r(cs, i as int),
                    max_c == cells_max_c(cs, i as int),
                decreases n - i,
            {
                let (r, c) = cells[i];
                if r < min_r {
                    min_r = r;
                }
                if c < min_c {
                    min_c = c;
                }
                if r > max_r {
                    max_r = r;
                }
                if c > max_c {
                    max_c = c;
                }
                i += 1;
            }
        }
        Object { cells, color, min_r, min_c, max_r, max_c }
    }

    /// Width of the bounding box.
    pub fn width(&self) -> (w: usize)
        requires
            self.min_c <= self.max_c,
            self.max_c - self.min_c < usize::MAX,
        ensures
            w == self.max_c - self.min_c + 1,
    {
        self.max_c - self.min_c + 1
    }

    /// Height of the bounding box.
    pub fn height(&self) -> (h: usize)
        requires
            self.min_r <= self.max_r,
            self.max_r - self.min_r < usize::MAX,
        ensures
            h == self.max_r - self.min_r + 1,
    {
        self.max_r - self.min_r + 1
    }

    /// Number of cells.
    pub fn area(&self) -> (a: usize)
        ensures
            a == self.cells@.len(),
    {
        self.cells.len()
    }

    /// Midpoint of the bounding box.
    pub fn center(&self) -> (p: (usize, usize))
        requires
            self.min_r + self.max_r <= usize::MAX,
            self.min_c + self.max_c <= usize::MAX,
        ensures
            p.0 == (self.min_r + self.max_r) / 2,
            p.1 == (self.min_c + self.max_c) / 2,
    {
        ((self.min_r + self.max_r) / 2, (self.min_c + self.max_c) / 2)
    }

    /// Corner and extent of the bounding box.
    pub fn bounding_box(&self) -> (b: (usize, usize, usize, usize))
        requires
            self.min_r <= self.max_r,
            self.max_r - self.min_r < usize::MAX,
            self.min_c <= self.max_c,
            self.max_c - self.min_c < usize::MAX,
        ensures
            b == (
                self.min_r,
                self.min_c,
                (self.max_r - self.min_r + 1) as usize,
                (self.max_c - self.min_c + 1) as usize,
            ),
    {
        (self.min_r, self.min_c, self.max_r - self.min_r + 1, self.max_c - self.min_c + 1)
    }

    /// Paints the object's cells, at bounding-box offset, on a fresh
    /// grid of the box's size.
    pub fn to_grid(&self) -> (r: Grid)
        requires
            obj_wf(*self),
            self.max_r - self.min_r < usize::MAX,
            self.max_c - self.min_c < usize::MAX,
        ensures
            grid_view(&r) == obj_grid_s(self.cells@, self.color),
    {
        let ghost cs = self.cells@;
        proof {
            if cs.len() > 0 {
                lemma_cells_in_box(cs, cs.len() as int);
            }
        }
        let h = self.max_r - self.min_r + 1;
        let w = self.max_c - self.min_c + 1;
        let min_r = self.min_r;
        let min_c = self.min_c;
        let color = self.color;
        let mut out: Grid = Vec::new();
        let mut i: usize = 0;
        while i < h
            invariant
                0 <= i <= h,
                cs == self.cells@,
                obj_wf(*self),
                h == self.max_r - self.min_r + 1,
                w == self.max_c - self.min_c + 1,
                min_r == self.min_r,
                min_c == self.min_c,
                color == self.color,
                out@.len() == i,
                forall|k: int| 0 <= k < i ==> #[trigger] out@[k]@ =~= Seq::new(
                    w as nat,
                    |c: int| if cs.contains((((min_r + k) as usize), ((min_c + c) as usize))) {
                        color
                    } else {
                        0u8
                    },
                ),
            decreases h - i,
        {
            let mut nr: Vec<u8> = Vec::new();
            let mut j: usize = 0;
            while j < w
                invariant
                    0 <= j <= w,
                    0 <= i < h,
                    cs == self.cells@,
                    obj_wf(*self),
                    h == self.max_r - self.min_r + 1,
                    w == self.max_c - self.min_c + 1,
                    min_r == self.min_r,
                    min_c == self.min_c,
                    color == self.color,
                    nr@.len() == j,
                    forall|k: int| 0 <= k < j ==> nr@[k] == (if cs.contains(
                        (((min_r + i as int) as usize), ((min_c + k) as usize)),
                    ) {
                        color
                    } else {
                        0u8
                    }),
                decreases w - j,
            {
                let hit = cells_contain(&self.cells, min_r + i, min_c + j);
                nr.push(if hit { color } else { 0 });
                j += 1;
            }
            assert(nr@ =~= Seq::new(
                w as nat,
                |c: int| if cs.contains((((min_r + i as int) as usize), ((min_c + c) as usize))) {
                    color
                } else {
                    0u8
                },
            ));
            out.push(nr);
            i += 1;
        }
        assert(grid_view(&out) =~~= obj_grid_s(cs, color));
        out
    }
}

/// The grid `to_grid` paints: the cells, shifted by the least row and
/// column they use, on a clear background.
pub open spec fn obj_grid_s(cs: Seq<(usize, usize)>, color: u8) -> Seq<Seq<u8>> {
    let minr = cells_min_r(cs, cs.len() as int);
    let minc = cells_min_c(cs, cs.len() as int);
    let maxr = cells_max_r(cs, cs.len() as int);
    let maxc = cells_max_c(cs, cs.len() as int);
    mk_grid(
        (maxr - minr + 1) as nat,
        (maxc - minc + 1) as nat,
        |r: int, c: int| if cs.contains((((minr + r) as usize), ((minc + c) as usize))) {
            color
        } else {
            0u8
        },
    )
}

/// Exact membership test on a cell list.
fn cells_contain(cells: &Vec<(usize, usize)>, r: usize, c: usize) -> (b: bool)
    ensures
        b == cells@.contains((r, c)),
{
    let mut i: usize = 0;
    while i < cells.len()
        invariant
            0 <= i <= cells.len(),
            forall|k: int| 0 <= k < i ==> #[trigger] cells@[k] !== (r, c),
        decreases cells.len() - i,
    {
        let (a, b2) = cells[i];
        if a == r && b2 == c {
            assert(cells@[i as int] == (r, c));
            return true;
        }
        i += 1;
    }
    assert(!cells@.contains((r, c)));
    false
}

// --- components from the label grid ---

/// Roots among the first `p` scan positions, in scan order.
pub open spec fn roots_upto(lv: Seq<Seq<u64>>, cols: int, p: int) -> Seq<(usize, usize)>
    decreases p,
{
    if p <= 0 || cols <= 0 {
        Seq::empty()
    } else {
        let q = p - 1;
        let rest = roots_upto(lv, cols, q);
        if lv[q / cols][q % cols] == q as u64 {
            rest.push((((q / cols) as usize), ((q % cols) as usize)))
        } else {
            rest
        }
    }
}

/// Cells labelled `lab` among the first `p` scan positions, in scan
/// order.
pub open spec fn comp_cells_upto(lv: Seq<Seq<u64>>, cols: int, lab: u64, p: int) -> Seq<
    (usize, usize),
>
    decreases p,
{
    if p <= 0 || cols <= 0 {
        Seq::empty()
    } else {
        let q = p - 1;
        let rest = comp_cells_upto(lv, cols, lab, q);
        if lv[q / cols][q % cols] == lab {
            rest.push((((q / cols) as usize), ((q % cols) as usize)))
        } else {
            rest
        }
    }
}

/// The roots of a grid's settled labels.
pub open spec fn comp_roots(s: Seq<Seq<u8>>, conn8: bool, ignore_bg: bool) -> Seq<(usize, usize)> {
    roots_upto(
        full_lab(s, conn8, ignore_bg),
        cols_of(s) as int,
        (rows_of(s) * cols_of(s)) as int,
    )
}

/// The cells of the component rooted at scan index `lab`.
pub open spec fn comp_cells(s: Seq<Seq<u8>>, conn8: bool, ignore_bg: bool, lab: u64) -> Seq<
    (usize, usize),
> {
    comp_cells_upto(
        full_lab(s, conn8, ignore_bg),
        cols_of(s) as int,
        lab,
        (rows_of(s) * cols_of(s)) as int,
    )
}

/// Every collected position lies inside the grid.
pub(crate) proof fn lemma_scan_bounds(lv: Seq<Seq<u64>>, rows: int, cols: int, p: int)
    requires
        0 <= p <= rows * cols,
        cols >= 0,
    ensures
        forall|k: int| 0 <= k < roots_upto(lv, cols, p).len() ==> 0 <= (
        #[trigger] roots_upto(lv, cols, p)[k]).0 < rows && 0 <= roots_upto(lv, cols, p)[k].1
            < cols,
    decreases p,
{
    if p > 0 && cols > 0 {
        lemma_scan_bounds(lv, rows, cols, p - 1);
        let q = p - 1;
        assert(0 <= q / cols < rows && 0 <= q % cols < cols) by (nonlinear_arith)
            requires
                0 <= q,
                q < rows * cols,
                cols > 0,
        ;
        let rest = roots_upto(lv, cols, q);
        let cur = roots_upto(lv, cols, p);
        assert forall|k: int| 0 <= k < cur.len() implies 0 <= (#[trigger] cur[k]).0 < rows && 0
            <= cur[k].1 < cols by {
            if k < rest.len() {
                assert(cur[k] == rest[k]);
            } else {
                assert(cur[k] == (((q / cols) as usize), ((q % cols) as usize)));
            }
        }
    }
}

/// Every collected component cell lies inside the grid.
pub(crate) proof fn lemma_comp_bounds(lv: Seq<Seq<u64>>, rows: int, cols: int, lab: u64, p: int)
    requires
        0 <= p <= rows * cols,
        cols >= 0,
    ensures
        forall|k: int| 0 <= k < comp_cells_upto(lv, cols, lab, p).len() ==> 0 <= (
        #[trigger] comp_cells_upto(lv, cols, lab, p)[k]).0 < rows && 0 <= comp_cells_upto(
            lv,
            cols,
            lab,
            p,
        )[k].1 < cols,
    decreases p,
{
    if p > 0 && cols > 0 {
        lemma_comp_bounds(lv, rows, cols, lab, p - 1);
        let q = p - 1;
        assert(0 <= q / cols < rows && 0 <= q % cols < cols) by (nonlinear_arith)
            requires
                0 <= q,
                q < rows * cols,
                cols > 0,
        ;
        let rest = comp_cells_upto(lv, cols, lab, q);
        let cur = comp_cells_upto(lv, cols, lab, p);
        assert forall|k: int| 0 <= k < cur.len() implies 0 <= (#[trigger] cur[k]).0 < rows && 0
            <= cur[k].1 < cols by {
            if k < rest.len() {
                assert(cur[k] == rest[k]);
            } else {
                assert(cur[k] == (((q / cols) as usize), ((q % cols) as usize)));
            }
        }
    }
}

fn collect_roots(g: &Grid, labs: &Vec<Vec<u64>>) -> (v: Vec<(usize, usize)>)
    requires
        grid_wf(g),
        lab_wf(grid_view(g), lview(labs)),
    ensures
        v@ == roots_upto(
            lview(labs),
            cols_of(grid_view(g)) as int,
            (rows_of(grid_view(g)) * cols_of(grid_view(g))) as int,
        ),
{
    let ghost s = grid_view(g);
    let ghost lv = lview(labs);
    let rows = g.len();
    let cols = if rows == 0 { 0 } else { g[0].len() };
    proof {
        assert forall|k: int| 0 <= k < rows implies (#[trigger] labs@[k])@.len() == cols by {
            assert(lview(labs)[k] == labs@[k]@);
        }
        assert(labs@.len() == rows);
    }
    let mut v: Vec<(usize, usize)> = Vec::new();
    let mut i: usize = 0;
    while i < rows
        invariant
            0 <= i <= rows,
            grid_wf(g),
            s == grid_view(g),
            lv == lview(labs),
            labs@.len() == rows,
            forall|k: int| 0 <= k < rows ==> (#[trigger] labs@[k])@.len() == cols,
            rows == rows_of(s),
            cols == cols_of(s),
            v@ == roots_upto(lv, cols as int, (i as int) * (cols as int)),
        decreases rows - i,
    {
        let mut j: usize = 0;
        while j < cols
            invariant
                0 <= j <= cols,
                0 <= i < rows,
                grid_wf(g),
                s == grid_view(g),
                lv == lview(labs),
                labs@.len() == rows,
                forall|k: int| 0 <= k < rows ==> (#[trigger] labs@[k])@.len() == cols,
                rows == rows_of(s),
                cols == cols_of(s),
                v@ == roots_upto(lv, cols as int, (i as int) * (cols as int) + j),
            decreases cols - j,
        {
            let ghost q = (i as int) * (cols as int) + j;
            assert(q / (cols as int) == i as int && q % (cols as int) == j as int)
                by (nonlinear_arith)
                requires
                    q == (i as int) * (cols as int) + j,
                    0 <= j < cols,
                    0 <= i,
                    cols > 0,
            ;
            assert((i as int) * (cols as int) + (j as int) < 0x1_0000_0000int)
                by (nonlinear_arith)
                requires
                    i <= 0xFFFF,
                    j <= 0xFFFF,
                    cols <= 0xFFFF,
            ;
            let id: u64 = (i as u64) * (cols as u64) + (j as u64);
            assert(labs@[i as int]@ == lv[i as int]);
            if labs[i][j] == id {
                v.push((i, j));
            }
            assert(v@ == roots_upto(lv, cols as int, q + 1));
            j += 1;
        }
        assert((i as int) * (cols as int) + (cols as int) == ((i as int) + 1) * (cols as int))
            by (nonlinear_arith);
        i += 1;
    }
    v
}

fn collect_comp_cells(g: &Grid, labs: &Vec<Vec<u64>>, lab: u64) -> (v: Vec<(usize, usize)>)
    requires
        grid_wf(g),
        lab_wf(grid_view(g), lview(labs)),
    ensures
        v@ == comp_cells_upto(
            lview(labs),
            cols_of(grid_view(g)) as int,
            lab,
            (rows_of(grid_view(g)) * cols_of(grid_view(g))) as int,
        ),
{
    let ghost s = grid_view(g);
    let ghost lv = lview(labs);
    let rows = g.len();
    let cols = if rows == 0 { 0 } else { g[0].len() };
    proof {
        assert forall|k: int| 0 <= k < rows implies (#[trigger] labs@[k])@.len() == cols by {
            assert(lview(labs)[k] == labs@[k]@);
        }
        assert(labs@.len() == rows);
    }
    let mut v: Vec<(usize, usize)> = Vec::new();
    let mut i: usize = 0;
    while i < rows
        invariant
            0 <= i <= rows,
            grid_wf(g),
            s == grid_view(g),
            lv == lview(labs),
            labs@.len() == rows,
            forall|k: int| 0 <= k < rows ==> (#[trigger] labs@[k])@.len() == cols,
            rows == rows_of(s),
            cols == cols_of(s),
            v@ == comp_cells_upto(lv, cols as int, lab, (i as int) * (cols as int)),
        decreases rows - i,
    {
        let mut j: usize = 0;
        while j < cols
            invariant
                0 <= j <= cols,
                0 <= i < rows,
                grid_wf(g),
                s == grid_view(g),
                lv == lview(labs),
                labs@.len() == rows,
                forall|k: int| 0 <= k < rows ==> (#[trigger] labs@[k])@.len() == cols,
                rows == rows_of(s),
                cols == cols_of(s),
                v@ == comp_cells_upto(lv, cols as int, lab, (i as int) * (cols as int) + j),
            decreases cols - j,
        {
            let ghost q = (i as int) * (cols as int) + j;
            assert(q / (cols as int) == i as int && q % (cols as int) == j as int)
                by (nonlinear_arith)
                requires
                    q == (i as int) * (cols as int) + j,
                    0 <= j < cols,
                    0 <= i,
                    cols > 0,
            ;
            assert(labs@[i as int]@ == lv[i as int]);
            if labs[i][j] == lab {
                v.push((i, j));
            }
            assert(v@ == comp_cells_upto(lv, cols as int, lab, q + 1));
            j += 1;
        }
        assert((i as int) * (cols as int) + (cols as int) == ((i as int) + 1) * (cols as int))
            by (nonlinear_arith);
        i += 1;
    }
    v
}

/// What `connected_components` promises of its result, against the
/// settled labels of the grid.
pub open spec fn components_ok(
    s: Seq<Seq<u8>>,
    conn8: bool,
    ignore_bg: bool,
    res: Seq<Object>,
) -> bool {
    let rs = comp_roots(s, conn8, ignore_bg);
    &&& res.len() == rs.len()
    &&& forall|k: int| 0 <= k < rs.len() ==> {
        let root = (#[trigger] rs[k]);
        &&& res[k].cells@ == comp_cells(s, conn8, ignore_bg, scan_id(
            s,
            root.0 as int,
            root.1 as int,
        ) as u64)
        &&& res[k].color == s[root.0 as int][root.1 as int]
        &&& obj_wf(res[k])
    }
}

fn components_with(g: &Grid, conn8: bool, ignore_bg: bool) -> (res: Vec<Object>)
    requires
        grid_wf(g),
    ensures
        components_ok(grid_view(g), conn8, ignore_bg, res@),
{
    let ghost s = grid_view(g);
    let rows = g.len();
    let cols = if rows == 0 { 0 } else { g[0].len() };
    let labs = run_labels(g, conn8, ignore_bg);
    let ghost lv = lview(&labs);
    let roots = collect_roots(g, &labs);
    proof {
        lemma_scan_bounds(lv, rows as int, cols as int, (rows as int) * (cols as int));
    }
    let mut res: Vec<Object> = Vec::new();
    let mut i: usize = 0;
    while i < roots.len()
        invariant
            0 <= i <= roots.len(),
            grid_wf(g),
            s == grid_view(g),
            lv == lview(&labs),
            lab_wf(s, lv),
            rows == rows_of(s),
            cols == cols_of(s),
            lv == full_lab(s, conn8, ignore_bg),
            roots@ == comp_roots(s, conn8, ignore_bg),
            forall|k: int| 0 <= k < roots@.len() ==> 0 <= (#[trigger] roots@[k]).0 < rows && 0 <= roots@[k].1 < cols,
            res@.len() == i,
            forall|k: int| 0 <= k < i ==> {
                let root = #[trigger] roots@[k];
                &&& (#[trigger] res@[k]).cells@ == comp_cells(s, conn8, ignore_bg, scan_id(
                    s,
                    root.0 as int,
                    root.1 as int,
                ) as u64)
                &&& res@[k].color == s[root.0 as int][root.1 as int]
                &&& obj_wf(res@[k])
            },
        decreases roots.len() - i,
    {
        let (rr, rc) = roots[i];
        assert((rr as int) * (cols as int) + (rc as int) < 0x1_0000_0000int) by (nonlinear_arith)
            requires
                rr <= 0xFFFF,
                rc <= 0xFFFF,
                cols <= 0xFFFF,
        ;
        let lab: u64 = (rr as u64) * (cols as u64) + (rc as u64);
        assert(lab == scan_id(s, rr as int, rc as int));
        let cells = collect_comp_cells(g, &labs, lab);
        let color = g[rr][rc];
        let obj = Object::from_cells(cells, color);
        res.push(obj);
        i += 1;
    }
    res
}

/// 4-connected components; background cells (color 0) are skipped
/// when `ignore_bg` is set.
pub fn connected_components(grid: &Grid, ignore_bg: bool) -> (res: Vec<Object>)
    requires
        grid_wf(grid),
    ensures
        components_ok(grid_view(grid), false, ignore_bg, res@),
{
    components_with(grid, false, ignore_bg)
}

/// 8-connected components (diagonal neighbors join too).
pub fn connected_components_8(grid: &Grid, ignore_bg: bool) -> (res: Vec<Object>)
    requires
        grid_wf(grid),
    ensures
        components_ok(grid_view(grid), true, ignore_bg, res@),
{
    components_with(grid, true, ignore_bg)
}

/// How many 4-connected non-background objects a grid has.
pub fn count_objects(grid: &Grid) -> (n: usize)
    requires
        grid_wf(grid),
    ensures
        n == comp_roots(grid_view(grid), false, true).len(),
{
    let objs = connected_components(grid, true);
    objs.len()
}

/// There are never more roots than scan positions, so never more
/// than the grid has cells.
pub proof fn lemma_roots_len_bound(s: Seq<Seq<u8>>)
    requires
        crate::grid::wf(s),
    ensures
        comp_roots(s, false, true).len() <= 0xFFFF_FFFF_FFFF,
{
    lemma_roots_upto_len(
        full_lab(s, false, true),
        cols_of(s) as int,
        (rows_of(s) * cols_of(s)) as int,
    );
    assert(rows_of(s) * cols_of(s) <= 0xFFFF * 0xFFFF) by (nonlinear_arith)
        requires
            rows_of(s) <= 0xFFFF,
            cols_of(s) <= 0xFFFF,
    ;
}

proof fn lemma_roots_upto_len(lv: Seq<Seq<u64>>, cols: int, p: int)
    ensures
        roots_upto(lv, cols, p).len() <= (if p >= 0 { p } else { 0 }),
    decreases p,
{
    if p > 0 && cols > 0 {
        lemma_roots_upto_len(lv, cols, p - 1);
    }
}

// --- keeping one object ---

/// The label a root cell carries.
pub open spec fn root_lab(s: Seq<Seq<u8>>, root: (usize, usize)) -> u64 {
    scan_id(s, root.0 as int, root.1 as int) as u64
}

/// Cell count of the component rooted at `root`.
pub open spec fn comp_area(s: Seq<Seq<u8>>, root: (usize, usize)) -> int {
    comp_cells(s, false, true, root_lab(s, root)).len() as int
}

/// Index of the largest component among the first `n` roots, taking
/// the later one on ties.
pub open spec fn best_large(s: Seq<Seq<u8>>, rs: Seq<(usize, usize)>, n: int) -> int
    decreases n,
{
    if n <= 1 {
        0
    } else if comp_area(s, rs[n - 1]) >= comp_area(s, rs[best_large(s, rs, n - 1)]) {
        n - 1
    } else {
        best_large(s, rs, n - 1)
    }
}

/// Index of the smallest component among the first `n` roots, taking
/// the earlier one on ties.
pub open spec fn best_small(s: Seq<Seq<u8>>, rs: Seq<(usize, usize)>, n: int) -> int
    decreases n,
{
    if n <= 1 {
        0
    } else if comp_area(s, rs[n - 1]) < comp_area(s, rs[best_small(s, rs, n - 1)]) {
        n - 1
    } else {
        best_small(s, rs, n - 1)
    }
}

/// The grid holding only the component rooted at `root`, in place.
pub open spec fn keep_one_s(s: Seq<Seq<u8>>, root: (usize, usize)) -> Seq<Seq<u8>> {
    let cells = comp_cells(s, false, true, root_lab(s, root));
    mk_grid(
        rows_of(s),
        cols_of(s),
        |r: int, c: int| if cells.contains(((r as usize), (c as usize))) {
            s[root.0 as int][root.1 as int]
        } else {
            0u8
        },
    )
}

pub open spec fn keep_largest_s(s: Seq<Seq<u8>>) -> Seq<Seq<u8>> {
    let rs = comp_roots(s, false, true);
    if rs.len() == 0 {
        s
    } else {
        keep_one_s(s, rs[best_large(s, rs, rs.len() as int)])
    }
}

pub open spec fn keep_smallest_s(s: Seq<Seq<u8>>) -> Seq<Seq<u8>> {
    let rs = comp_roots(s, false, true);
    if rs.len() == 0 {
        s
    } else {
        keep_one_s(s, rs[best_small(s, rs, rs.len() as int)])
    }
}

/// Paints one component's cells on a clear grid of the input's size.
fn keep_one(g: &Grid, obj: &Object, root: (usize, usize)) -> (r: Grid)
    requires
        grid_wf(g),
        obj.cells@ == comp_cells(grid_view(g), false, true, root_lab(grid_view(g), root)),
        root.0 < rows_of(grid_view(g)),
        root.1 < cols_of(grid_view(g)),
        obj.color == grid_view(g)[root.0 as int][root.1 as int],
    ensures
        grid_view(&r) == keep_one_s(grid_view(g), root),
        grid_wf(&r),
{
    let ghost s = grid_view(g);
    let ghost cells = obj.cells@;
    let rows = g.len();
    let cols = if rows == 0 { 0 } else { g[0].len() };
    let mut out: Grid = Vec::new();
    let mut i: usize = 0;
    while i < rows
        invariant
            0 <= i <= rows,
            grid_wf(g),
            s == grid_view(g),
            rows == rows_of(s),
            cols == cols_of(s),
            cells == obj.cells@,
            root.0 < rows,
            root.1 < cols,
            obj.color == s[root.0 as int][root.1 as int],
            out@.len() == i,
            forall|k: int| 0 <= k < i ==> #[trigger] out@[k]@ =~= Seq::new(
                cols as nat,
                |c: int| if cells.contains(((k as usize), (c as usize))) {
                    s[root.0 as int][root.1 as int]
                } else {
                    0u8
                },
            ),
        decreases rows - i,
    {
        let mut nr: Vec<u8> = Vec::new();
        let mut j: usize = 0;
        while j < cols
            invariant
                0 <= j <= cols,
                0 <= i < rows,
                grid_wf(g),
                s == grid_view(g),
                rows == rows_of(s),
                cols == cols_of(s),
                cells == obj.cells@,
                root.0 < rows,
                root.1 < cols,
                obj.color == s[root.0 as int][root.1 as int],
                nr@.len() == j,
                forall|k: int| 0 <= k < j ==> nr@[k] == (if cells.contains(
                    ((i as usize), (k as usize)),
                ) {
                    s[root.0 as int][root.1 as int]
                } else {
                    0u8
                }),
            decreases cols - j,
        {
            let hit = cells_contain(&obj.cells, i, j);
            nr.push(if hit { obj.color } else { 0 });
            j += 1;
        }
        assert(nr@ =~= Seq::new(
            cols as nat,
            |c: int| if cells.contains(((i as usize), (c as usize))) {
                s[root.0 as int][root.1 as int]
            } else {
                0u8
            },
        ));
        out.push(nr);
        i += 1;
    }
    assert(grid_view(&out) =~~= keep_one_s(s, root));
    out
}

pub(crate) fn keep_largest_object(g: &Grid) -> (r: Grid)
    requires
        grid_wf(g),
    ensures
        grid_view(&r) == keep_largest_s(grid_view(g)),
        grid_wf(&r),
{
    let ghost s = grid_view(g);
    let labs = run_labels(g, false, true);
    let roots = collect_roots(g, &labs);
    let objs = components_with_parts(g, &labs, &roots);
    if objs.len() == 0 {
        let r = crate::prims_basic::clone_grid(g);
        assert(grid_view(&r) == keep_largest_s(s));
        return r;
    }
    let ghost rs = roots@;
    let mut best: usize = 0;
    let mut k: usize = 1;
    while k < objs.len()
        invariant
            1 <= k <= objs.len(),
            objs@.len() == rs.len(),
            rs == comp_roots(s, false, true),
            forall|q: int| 0 <= q < rs.len() ==> (#[trigger] objs@[q]).cells@ == comp_cells(
                s,
                false,
                true,
                root_lab(s, rs[q]),
            ),
            best < k,
            best == best_large(s, rs, k as int),
        decreases objs.len() - k,
    {
        if objs[k].cells.len() >= objs[best].cells.len() {
            best = k;
        }
        k += 1;
    }
    proof {
        lemma_scan_bounds(
            lview(&labs),
            rows_of(s) as int,
            cols_of(s) as int,
            (rows_of(s) * cols_of(s)) as int,
        );
    }
    let root = roots[best];
    let r = keep_one(g, &objs[best], root);
    assert(grid_view(&r) == keep_largest_s(s));
    r
}

pub(crate) fn keep_smallest_object(g: &Grid) -> (r: Grid)
    requires
        grid_wf(g),
    ensures
        grid_view(&r) == keep_smallest_s(grid_view(g)),
        grid_wf(&r),
{
    let ghost s = grid_view(g);
    let labs = run_labels(g, false, true);
    let roots = collect_roots(g, &labs);
    let objs = components_with_parts(g, &labs, &roots);
    if objs.len() == 0 {
        let r = crate::prims_basic::clone_grid(g);
        assert(grid_view(&r) == keep_smallest_s(s));
        return r;
    }
    let ghost rs = roots@;
    let mut best: usize = 0;
    let mut k: usize = 1;
    while k < objs.len()
        invariant
            1 <= k <= objs.len(),
            objs@.len() == rs.len(),
            rs == comp_roots(s, false, true),
            forall|q: int| 0 <= q < rs.len() ==> (#[trigger] objs@[q]).cells@ == comp_cells(
                s,
                false,
                true,
                root_lab(s, rs[q]),
            ),
            best < k,
            best == best_small(s, rs, k as int),
        decreases objs.len() - k,
    {
        if objs[k].cells.len() < objs[best].cells.len() {
            best = k;
        }
        k += 1;
    }
    proof {
        lemma_scan_bounds(
            lview(&labs),
            rows_of(s) as int,
            cols_of(s) as int,
            (rows_of(s) * cols_of(s)) as int,
        );
    }
    let root = roots[best];
    let r = keep_one(g, &objs[best], root);
    assert(grid_view(&r) == keep_smallest_s(s));
    r
}

/// Like `components_with`, but reusing already computed labels and
/// roots.
fn components_with_parts(g: &Grid, labs: &Vec<Vec<u64>>, roots: &Vec<(usize, usize)>) -> (res:
    Vec<Object>)
    requires
        grid_wf(g),
        lab_wf(grid_view(g), lview(labs)),
        roots@ == roots_upto(
            lview(labs),
            cols_of(grid_view(g)) as int,
            (rows_of(grid_view(g)) * cols_of(grid_view(g))) as int,
        ),
    ensures
        res@.len() == roots@.len(),
        forall|k: int| 0 <= k < roots@.len() ==> {
            let root = #[trigger] roots@[k];
            &&& (#[trigger] res@[k]).cells@ == comp_cells_upto(
                lview(labs),
                cols_of(grid_view(g)) as int,
                scan_id(grid_view(g), root.0 as int, root.1 as int) as u64,
                (rows_of(grid_view(g)) * cols_of(grid_view(g))) as int,
            )
            &&& res@[k].color == grid_view(g)[root.0 as int][root.1 as int]
            &&& obj_wf(res@[k])
        },
{
    let ghost s = grid_view(g);
    let ghost lv = lview(labs);
    let rows = g.len();
    let cols = if rows == 0 { 0 } else { g[0].len() };
    proof {
        lemma_scan_bounds(lv, rows as int, cols as int, (rows as int) * (cols as int));
    }
    let mut res: Vec<Object> = Vec::new();
    let mut i: usize = 0;
    while i < roots.len()
        invariant
            0 <= i <= roots.len(),
            grid_wf(g),
            s == grid_view(g),
            lv == lview(labs),
            lab_wf(s, lv),
            rows == rows_of(s),
            cols == cols_of(s),
            roots@ == roots_upto(lv, cols as int, (rows as int) * (cols as int)),
            forall|k: int| 0 <= k < roots@.len() ==> 0 <= (#[trigger] roots@[k]).0 < rows && 0 <= roots@[k].1 < cols,
            res@.len() == i,
            forall|k: int| 0 <= k < i ==> {
                let root = #[trigger] roots@[k];
                &&& (#[trigger] res@[k]).cells@ == comp_cells_upto(
                    lv,
                    cols as int,
                    scan_id(s, root.0 as int, root.1 as int) as u64,
                    (rows as int) * (cols as int),
                )
                &&& res@[k].color == s[root.0 as int][root.1 as int]
                &&& obj_wf(res@[k])
            },
        decreases roots.len() - i,
    {
        let (rr, rc) = roots[i];
        assert((rr as int) * (cols as int) + (rc as int) < 0x1_0000_0000int) by (nonlinear_arith)
            requires
                rr <= 0xFFFF,
                rc <= 0xFFFF,
                cols <= 0xFFFF,
        ;
        let lab: u64 = (rr as u64) * (cols as u64) + (rc as u64);
        assert(lab == scan_id(s, rr as int, rc as int));
        let cells = collect_comp_cells(g, labs, lab);
        let color = g[rr][rc];
        let obj = Object::from_cells(cells, color);
        res.push(obj);
        i += 1;
    }
    res
}

/// Keeping one object preserves the grid's shape.
pub proof fn lemma_keep_wf(s: Seq<Seq<u8>>)
    requires
        crate::grid::wf(s),
    ensures
        crate::grid::wf(keep_largest_s(s)),
        crate::grid::wf(keep_smallest_s(s)),
{
    let rs = comp_roots(s, false, true);
    if rs.len() != 0 {
        crate::model::lemma_mk_wf(
            keep_one_s(s, rs[best_large(s, rs, rs.len() as int)]),
            rows_of(s) as int,
            cols_of(s) as int,
        );
        crate::model::lemma_mk_wf(
            keep_one_s(s, rs[best_small(s, rs, rs.len() as int)]),
            rows_of(s) as int,
            cols_of(s) as int,
        );
    }
}

/// Extracting one object yields a well-formed grid.
pub proof fn lemma_extract_wf(s: Seq<Seq<u8>>, idx: int)
    requires
        crate::grid::wf(s),
        idx >= 0,
    ensures
        crate::grid::wf(extract_object_s(s, idx)),
{
    let rs = comp_roots(s, false, true);
    if 0 <= idx < rs.len() {
        let lv = full_lab(s, false, true);
        let rows = rows_of(s) as int;
        let cols = cols_of(s) as int;
        let lab = root_lab(s, rs[idx]);
        lemma_comp_bounds(lv, rows, cols, lab, rows * cols);
        let cs = comp_cells(s, false, true, lab);
        let h = cells_max_r(cs, cs.len() as int) - cells_min_r(cs, cs.len() as int) + 1;
        let w = cells_max_c(cs, cs.len() as int) - cells_min_c(cs, cs.len() as int) + 1;
        if cs.len() > 0 {
            lemma_cells_extrema_bound(cs, cs.len() as int, rows, cols);
            lemma_cells_in_box(cs, cs.len() as int);
        }
        crate::model::lemma_mk_wf(extract_object_s(s, idx), h, w);
    }
}

// --- extracting one object ---

pub open spec fn extract_object_s(s: Seq<Seq<u8>>, idx: int) -> Seq<Seq<u8>> {
    let rs = comp_roots(s, false, true);
    if idx >= rs.len() {
        s
    } else {
        obj_grid_s(
            comp_cells(s, false, true, root_lab(s, rs[idx])),
            s[rs[idx].0 as int][rs[idx].1 as int],
        )
    }
}

/// The extrema of in-grid cells stay inside the grid.
pub(crate) proof fn lemma_cells_extrema_bound(cs: Seq<(usize, usize)>, n: int, rows: int, cols: int)
    requires
        0 <= n <= cs.len(),
        forall|k: int| 0 <= k < cs.len() ==> 0 <= (#[trigger] cs[k]).0 < rows && 0 <= cs[k].1
            < cols,
        rows >= 1,
        cols >= 1,
    ensures
        cells_max_r(cs, n) < rows,
        cells_max_c(cs, n) < cols,
        cells_min_r(cs, n) < rows,
        cells_min_c(cs, n) < cols,
    decreases n,
{
    if n > 0 {
        lemma_cells_extrema_bound(cs, n - 1, rows, cols);
    }
}

pub(crate) fn extract_object(g: &Grid, idx: usize) -> (r: Grid)
    requires
        grid_wf(g),
    ensures
        grid_view(&r) == extract_object_s(grid_view(g), idx as int),
        grid_wf(&r),
{
    let ghost s = grid_view(g);
    let rows = g.len();
    let cols = if rows == 0 { 0 } else { g[0].len() };
    let objs = connected_components(g, true);
    if idx >= objs.len() {
        let r = crate::prims_basic::clone_grid(g);
        assert(grid_view(&r) == extract_object_s(s, idx as int));
        return r;
    }
    let obj = &objs[idx];
    proof {
        let lv = full_lab(s, false, true);
        lemma_comp_bounds(
            lv,
            rows as int,
            cols as int,
            root_lab(s, comp_roots(s, false, true)[idx as int]),
            (rows as int) * (cols as int),
        );
        if rows == 0 || cols == 0 {
            assert(obj.cells@.len() == 0);
            lemma_cells_extrema_bound(obj.cells@, 0, 1, 1);
        } else {
            lemma_cells_extrema_bound(obj.cells@, obj.cells@.len() as int, rows as int, cols as int);
        }
    }
    let r = obj.to_grid();
    assert(grid_view(&r) == extract_object_s(s, idx as int));
    proof {
        if obj.cells@.len() > 0 {
            lemma_cells_in_box(obj.cells@, obj.cells@.len() as int);
        }
        assert(grid_wf(&r));
    }
    r
}

// --- spatial relations ---

/// `a` lies entirely above `b`.
pub fn is_above(a: &Object, b: &Object) -> (r: bool)
    ensures
        r == (a.max_r < b.min_r),
{
    a.max_r < b.min_r
}

/// `a` lies entirely below `b`.
pub fn is_below(a: &Object, b: &Object) -> (r: bool)
    ensures
        r == (a.min_r > b.max_r),
{
    a.min_r > b.max_r
}

/// `a` lies entirely to the left of `b`.
pub fn is_left_of(a: &Object, b: &Object) -> (r: bool)
    ensures
        r == (a.max_c < b.min_c),
{
    a.max_c < b.min_c
}

/// `a` lies entirely to the right of `b`.
pub fn is_right_of(a: &Object, b: &Object) -> (r: bool)
    ensures
        r == (a.min_c > b.max_c),
{
    a.min_c > b.max_c
}

/// Two cells touch along an edge.
pub open spec fn cells_adjacent(p: (usize, usize), q: (usize, usize)) -> bool {
    ||| (p.0 == q.0 && (p.1 + 1 == q.1 || q.1 + 1 == p.1))
    ||| (p.1 == q.1 && (p.0 + 1 == q.0 || q.0 + 1 == p.0))
}

/// Some cell of `a` touches some cell of `b` along an edge.
pub fn is_adjacent(a: &Object, b: &Object) -> (r: bool)
    ensures
        r == exists|i: int, j: int|
            0 <= i < a.cells@.len() && 0 <= j < b.cells@.len() && cells_adjacent(
                a.cells@[i],
                b.cells@[j],
            ),
{
    let mut i: usize = 0;
    while i < a.cells.len()
        invariant
            0 <= i <= a.cells.len(),
            forall|x: int, y: int|
                0 <= x < i && 0 <= y < b.cells@.len() ==> !cells_adjacent(
                    a.cells@[x],
                    b.cells@[y],
                ),
        decreases a.cells.len() - i,
    {
        let (ar, ac) = a.cells[i];
        let mut j: usize = 0;
        while j < b.cells.len()
            invariant
                0 <= j <= b.cells.len(),
                0 <= i < a.cells.len(),
                (ar, ac) == a.cells@[i as int],
                forall|x: int, y: int|
                    0 <= x < i && 0 <= y < b.cells@.len() ==> !cells_adjacent(
                        a.cells@[x],
                        b.cells@[y],
                    ),
                forall|y: int| 0 <= y < j ==> !cells_adjacent(a.cells@[i as int], #[trigger] b.cells@[y]),
            decreases b.cells.len() - j,
        {
            let (br, bc) = b.cells[j];
            let row_adj = ar == br && ((bc > ac && bc - ac == 1) || (ac > bc && ac - bc == 1));
            let col_adj = ac == bc && ((br > ar && br - ar == 1) || (ar > br && ar - br == 1));
            if row_adj || col_adj {
                assert(cells_adjacent(a.cells@[i as int], b.cells@[j as int]));
                return true;
            }
            j += 1;
        }
        i += 1;
    }
    false
}

/// `inner`'s bounding box lies strictly inside `outer`'s.
pub fn is_inside(inner: &Object, outer: &Object) -> (r: bool)
    ensures
        r == (inner.min_r > outer.min_r && inner.max_r < outer.max_r && inner.min_c > outer.min_c
            && inner.max_c < outer.max_c),
{
    inner.min_r > outer.min_r && inner.max_r < outer.max_r && inner.min_c > outer.min_c
        && inner.max_c < outer.max_c
}

/// Some cell belongs to both objects.
pub fn objects_overlap(a: &Object, b: &Object) -> (r: bool)
    ensures
        r == exists|i: int, j: int|
            0 <= i < a.cells@.len() && 0 <= j < b.cells@.len() && a.cells@[i] == b.cells@[j],
{
    let mut i: usize = 0;
    while i < a.cells.len()
        invariant
            0 <= i <= a.cells.len(),
            forall|x: int, y: int|
                0 <= x < i && 0 <= y < b.cells@.len() ==> a.cells@[x] !== b.cells@[y],
        decreases a.cells.len() - i,
    {
        let (ar, ac) = a.cells[i];
        let mut j: usize = 0;
        while j < b.cells.len()
            invariant
                0 <= j <= b.cells.len(),
                0 <= i < a.cells.len(),
                (ar, ac) == a.cells@[i as int],
                forall|x: int, y: int|
                    0 <= x < i && 0 <= y < b.cells@.len() ==> a.cells@[x] !== b.cells@[y],
                forall|y: int| 0 <= y < j ==> a.cells@[i as int] !== #[trigger] b.cells@[y],
            decreases b.cells.len() - j,
        {
            let (br, bc) = b.cells[j];
            if ar == br && ac == bc {
                assert(a.cells@[i as int] == b.cells@[j as int]);
                return true;
            }
            j += 1;
        }
        i += 1;
    }
    false
}

} // verus!
