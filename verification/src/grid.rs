//! The grid value type and its mathematical model.
//!
//! A grid is a rectangular array of small integer colors, held as a
//! `Vec` of rows. `grid_view` lifts a grid to its `Seq<Seq<u8>>` model,
//! over which every contract of this crate is stated. A well-formed
//! grid is rectangular and no wider or taller than `GRID_MAX`, the
//! largest extent the storage format and the fingerprint shape field
//! can carry; every primitive preserves well-formedness.

use vstd::prelude::*;

verus! {

/// A rectangular array of color values, row-major.
pub type Grid = Vec<Vec<u8>>;

/// Largest row or column count of a well-formed grid.
pub const GRID_MAX: usize = 65535;

/// The mathematical model of a grid: a sequence of rows.
pub open spec fn grid_view(g: &Grid) -> Seq<Seq<u8>> {
    Seq::new(g@.len(), |i: int| g@[i]@)
}

/// A model grid is rectangular: every row has the length of the first.
pub open spec fn rect(s: Seq<Seq<u8>>) -> bool {
    forall|i: int| 0 <= i < s.len() ==> #[trigger] s[i].len() == s[0].len()
}

/// Number of rows of a model grid.
pub open spec fn rows_of(s: Seq<Seq<u8>>) -> nat {
    s.len()
}

/// Number of columns of a model grid (0 when there are no rows).
pub open spec fn cols_of(s: Seq<Seq<u8>>) -> nat {
    if s.len() == 0 {
        0
    } else {
        s[0].len()
    }
}

/// A well-formed model grid: rectangular and within `GRID_MAX`.
pub open spec fn wf(s: Seq<Seq<u8>>) -> bool {
    &&& rect(s)
    &&& rows_of(s) <= GRID_MAX
    &&& cols_of(s) <= GRID_MAX
}

/// A well-formed grid value.
pub open spec fn grid_wf(g: &Grid) -> bool {
    wf(grid_view(g))
}

/// The grid whose cell at `(r, c)` is `f(r, c)`.
pub open spec fn mk_grid(rows: nat, cols: nat, f: spec_fn(int, int) -> u8) -> Seq<Seq<u8>> {
    Seq::new(rows, |r: int| Seq::new(cols, |c: int| f(r, c)))
}

/// A freshly made grid is rectangular.
pub proof fn lemma_mk_grid_rect(rows: nat, cols: nat, f: spec_fn(int, int) -> u8)
    ensures
        rect(mk_grid(rows, cols, f)),
        rows_of(mk_grid(rows, cols, f)) == rows,
        rows > 0 ==> cols_of(mk_grid(rows, cols, f)) == cols,
{
}

/// A grid whose rows all share one in-range length is well formed.
pub proof fn lemma_wf_from_shape(m: Seq<Seq<u8>>, rows: int, cols: int)
    requires
        m.len() == rows,
        forall|i: int| 0 <= i < rows ==> (#[trigger] m[i]).len() == cols,
        0 <= rows <= GRID_MAX,
        0 <= cols <= GRID_MAX,
    ensures
        wf(m),
{
}

/// Every row of a well-formed grid has the grid's column count.
pub broadcast proof fn lemma_grid_row_len(g: &Grid, i: int)
    requires
        grid_wf(g),
        0 <= i < g@.len(),
    ensures
        (#[trigger] g@[i])@.len() == cols_of(grid_view(g)),
{
    assert(grid_view(g)[i] == g@[i]@);
    assert(grid_view(g)[i].len() == grid_view(g)[0].len());
}

/// Reports the row and column count of a grid.
pub fn grid_dimensions(grid: &Grid) -> (d: (usize, usize))
    ensures
        d.0 == rows_of(grid_view(grid)),
        d.1 == cols_of(grid_view(grid)),
{
    if grid.is_empty() {
        (0, 0)
    } else {
        (grid.len(), grid[0].len())
    }
}

/// Exact element-wise grid equality.
pub fn grid_eq(a: &Grid, b: &Grid) -> (r: bool)
    ensures
        r <==> grid_view(a) =~~= grid_view(b),
{
    if a.len() != b.len() {
        assert(grid_view(a).len() != grid_view(b).len());
        return false;
    }
    let mut i: usize = 0;
    while i < a.len()
        invariant
            0 <= i <= a.len(),
            a.len() == b.len(),
            forall|k: int| 0 <= k < i ==> grid_view(a)[k] =~= grid_view(b)[k],
        decreases a.len() - i,
    {
        let ra = &a[i];
        let rb = &b[i];
        if ra.len() != rb.len() {
            assert(grid_view(a)[i as int].len() != grid_view(b)[i as int].len());
            return false;
        }
        let mut j: usize = 0;
        while j < ra.len()
            invariant
                0 <= j <= ra.len(),
                ra.len() == rb.len(),
                ra@ == grid_view(a)[i as int],
                rb@ == grid_view(b)[i as int],
                forall|k: int| 0 <= k < j ==> ra@[k] == rb@[k],
            decreases ra.len() - j,
        {
            if ra[j] != rb[j] {
                assert(grid_view(a)[i as int][j as int] != grid_view(b)[i as int][j as int]);
                return false;
            }
            j += 1;
        }
        assert(grid_view(a)[i as int] =~= grid_view(b)[i as int]);
        i += 1;
    }
    assert(grid_view(a) =~~= grid_view(b));
    true
}

/// Builds the all-`fill` grid of the given size.
pub fn grid_filled(rows: usize, cols: usize, fill: u8) -> (r: Grid)
    ensures
        grid_view(&r) =~~= mk_grid(rows as nat, cols as nat, |i: int, j: int| fill),
        rows <= GRID_MAX && cols <= GRID_MAX ==> grid_wf(&r),
{
    let mut out: Grid = Vec::new();
    let mut i: usize = 0;
    while i < rows
        invariant
            0 <= i <= rows,
            out@.len() == i,
            forall|k: int| 0 <= k < i ==> #[trigger] out@[k]@ =~= Seq::new(
                cols as nat,
                |j: int| fill,
            ),
        decreases rows - i,
    {
        let mut row: Vec<u8> = Vec::new();
        let mut j: usize = 0;
        while j < cols
            invariant
                0 <= j <= cols,
                row@.len() == j,
                forall|k: int| 0 <= k < j ==> row@[k] == fill,
            decreases cols - j,
        {
            row.push(fill);
            j += 1;
        }
        assert(row@ =~= Seq::new(cols as nat, |j: int| fill));
        out.push(row);
        i += 1;
    }
    assert(grid_view(&out) =~~= mk_grid(rows as nat, cols as nat, |i: int, j: int| fill));
    out
}

} // verus!
