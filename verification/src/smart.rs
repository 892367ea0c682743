//! Learned transforms: operations whose parameters are inferred from
//! one example pair and then checked against all pairs — a global
//! color remap, self-tiling and fixed tiling, fixed-offset subgrid
//! extraction, row/column deduplication, and periodic-pattern repair.

use vstd::prelude::*;
use rustc_hash::FxHashMap;
use crate::grid::{Grid, grid_view, grid_wf, rows_of, cols_of, mk_grid, grid_eq, GRID_MAX};
use crate::fxmap::{fx_color_map_new, fx_color_map_insert, fx_color_map_get};
use crate::prims_basic::{clone_grid, crop};
use crate::model::{crop_s, dims_ok};

verus! {

broadcast use crate::grid::lemma_grid_row_len;

// --- color maps ---

/// The map sends every input cell to the matching output cell.
pub open spec fn map_explains(m: Map<u8, u8>, a: Seq<Seq<u8>>, b: Seq<Seq<u8>>) -> bool {
    &&& rows_of(a) == rows_of(b)
    &&& cols_of(a) == cols_of(b)
    &&& forall|r: int, c: int|
        0 <= r < rows_of(a) && 0 <= c < cols_of(a) ==> m.contains_key(#[trigger] a[r][c])
            && m[a[r][c]] == b[r][c]
}

/// Color `k` appears somewhere in the grid.
pub open spec fn color_occurs(a: Seq<Seq<u8>>, k: u8) -> bool {
    exists|r: int, c: int| 0 <= r < rows_of(a) && 0 <= c < cols_of(a) && #[trigger] a[r][c] == k
}

/// The map's domain is exactly the grid's set of colors.
pub open spec fn map_dom_exact(m: Map<u8, u8>, a: Seq<Seq<u8>>) -> bool {
    forall|k: u8| #[trigger] m.contains_key(k) <==> color_occurs(a, k)
}

/// The pair's cell-wise color relation is single-valued: equal input
/// colors force equal output colors.
pub open spec fn pair_consistent(a: Seq<Seq<u8>>, b: Seq<Seq<u8>>) -> bool {
    forall|r1: int, c1: int, r2: int, c2: int|
        0 <= r1 < rows_of(a) && 0 <= c1 < cols_of(a) && 0 <= r2 < rows_of(a) && 0 <= c2 < cols_of(
            a,
        ) && #[trigger] a[r1][c1] == #[trigger] a[r2][c2] ==> b[r1][c1] == b[r2][c2]
}

/// A pair's cell relation has one map with exactly the input's colors
/// as domain: any two maps that explain the pair and carry no extra
/// colors agree everywhere.
pub proof fn lemma_color_map_unique(m1: Map<u8, u8>, m2: Map<u8, u8>, a: Seq<Seq<u8>>, b: Seq<
    Seq<u8>>)
    requires
        map_explains(m1, a, b),
        map_dom_exact(m1, a),
        map_explains(m2, a, b),
        map_dom_exact(m2, a),
    ensures
        m1 == m2,
{
    assert forall|k: u8| #[trigger] m1.dom().contains(k) implies m2.dom().contains(k) by {
        assert(m1.contains_key(k));
        assert(color_occurs(a, k));
        assert(m2.contains_key(k));
    }
    assert forall|k: u8| #[trigger] m2.dom().contains(k) implies m1.dom().contains(k) by {
        assert(m2.contains_key(k));
        assert(color_occurs(a, k));
        assert(m1.contains_key(k));
    }
    assert forall|k: u8| #[trigger] m1.dom().contains(k) implies m1[k] == m2[k] by {
        assert(m1.contains_key(k));
        assert(color_occurs(a, k));
        let (r, c) = choose|r: int, c: int|
            0 <= r < rows_of(a) && 0 <= c < cols_of(a) && #[trigger] a[r][c] == k;
        assert(m1[a[r][c]] == b[r][c]);
        assert(m2[a[r][c]] == b[r][c]);
    }
    assert(m1 =~= m2);
}

/// Learns the cell-wise color map of one example pair. Succeeds
/// exactly when the shapes match and no color maps two ways, and the
/// learned map then has exactly the input's colors as its domain.
pub fn learn_color_map(input: &Grid, output: &Grid) -> (r: Option<FxHashMap<u8, u8>>)
    requires
        grid_wf(input),
        grid_wf(output),
    ensures
        r is Some <==> (rows_of(grid_view(input)) == rows_of(grid_view(output)) && cols_of(
            grid_view(input),
        ) == cols_of(grid_view(output)) && pair_consistent(grid_view(input), grid_view(output))),
        r matches Some(m) ==> map_explains(m@, grid_view(input), grid_view(output))
            && map_dom_exact(m@, grid_view(input)),
{
    let ghost a = grid_view(input);
    let ghost b = grid_view(output);
    if input.len() != output.len() {
        return None;
    }
    if input.is_empty() {
        let m = fx_color_map_new();
        assert(map_dom_exact(m@, a)) by {
            assert(forall|k: u8| !color_occurs(a, k));
        }
        return Some(m);
    }
    if input[0].len() != output[0].len() {
        return None;
    }
    let rows = input.len();
    let cols = input[0].len();
    let mut mapping = fx_color_map_new();
    let mut i: usize = 0;
    while i < rows
        invariant
            0 <= i <= rows,
            grid_wf(input),
            grid_wf(output),
            a == grid_view(input),
            b == grid_view(output),
            rows == rows_of(a),
            cols == cols_of(a),
            rows == rows_of(b),
            cols == cols_of(b),
            forall|r: int, c: int|
                0 <= r < i && 0 <= c < cols ==> mapping@.contains_key(#[trigger] a[r][c])
                    && mapping@[a[r][c]] == b[r][c],
            forall|k: u8| #[trigger] mapping@.contains_key(k) ==> exists|r: int, c: int|
                0 <= r < i && 0 <= c < cols && #[trigger] a[r][c] == k && b[r][c] == mapping@[k],
        decreases rows - i,
    {
        let mut j: usize = 0;
        while j < cols
            invariant
                0 <= j <= cols,
                0 <= i < rows,
                grid_wf(input),
                grid_wf(output),
                a == grid_view(input),
                b == grid_view(output),
                rows == rows_of(a),
                cols == cols_of(a),
                rows == rows_of(b),
                cols == cols_of(b),
                forall|r: int, c: int|
                    0 <= r < i && 0 <= c < cols ==> mapping@.contains_key(#[trigger] a[r][c])
                        && mapping@[a[r][c]] == b[r][c],
                forall|c: int|
                    0 <= c < j ==> mapping@.contains_key(#[trigger] a[i as int][c])
                        && mapping@[a[i as int][c]] == b[i as int][c],
                forall|k: u8| #[trigger] mapping@.contains_key(k) ==> exists|r: int, c: int|
                    0 <= r < rows && 0 <= c < cols && (r < i || (r == i && c < j))
                        && #[trigger] a[r][c] == k && b[r][c] == mapping@[k],
            decreases cols - j,
        {
            let ic = input[i][j];
            let oc = output[i][j];
            assert(ic == a[i as int][j as int]);
            assert(oc == b[i as int][j as int]);
            match fx_color_map_get(&mapping, ic) {
                Some(existing) => {
                    if existing != oc {
                        proof {
                            let (r0, c0) = choose|r: int, c: int|
                                0 <= r < rows && 0 <= c < cols && (r < i || (r == i && c < j))
                                    && #[trigger] a[r][c] == ic && b[r][c] == mapping@[ic];
                            assert(a[r0][c0] == a[i as int][j as int]);
                            assert(b[r0][c0] != b[i as int][j as int]);
                            assert(!pair_consistent(a, b));
                        }
                        return None;
                    }
                },
                None => {
                    fx_color_map_insert(&mut mapping, ic, oc);
                    proof {
                        assert forall|k: u8| #[trigger] mapping@.contains_key(k) implies exists|
                            r: int,
                            c: int,
                        |
                            0 <= r < rows && 0 <= c < cols && (r < i || (r == i && c < j + 1))
                                && #[trigger] a[r][c] == k && b[r][c] == mapping@[k] by {
                            if k == ic {
                                assert(a[i as int][j as int] == k && b[i as int][j as int]
                                    == mapping@[k]);
                            }
                        }
                    }
                },
            }
            j += 1;
        }
        i += 1;
    }
    proof {
        assert forall|k: u8| #[trigger] mapping@.contains_key(k) implies color_occurs(a, k) by {
            let (r0, c0) = choose|r: int, c: int|
                0 <= r < rows && 0 <= c < cols && (r < i || (r == i && c < 0))
                    && #[trigger] a[r][c] == k && b[r][c] == mapping@[k];
            assert(a[r0][c0] == k);
        }
        assert forall|k: u8| color_occurs(a, k) implies mapping@.contains_key(k) by {
            let (r0, c0) = choose|r: int, c: int|
                0 <= r < rows_of(a) && 0 <= c < cols_of(a) && #[trigger] a[r][c] == k;
            assert(mapping@.contains_key(a[r0][c0]));
        }
        assert(map_dom_exact(mapping@, a));
        assert forall|r1: int, c1: int, r2: int, c2: int|
            0 <= r1 < rows_of(a) && 0 <= c1 < cols_of(a) && 0 <= r2 < rows_of(a) && 0 <= c2
                < cols_of(a) && #[trigger] a[r1][c1] == #[trigger] a[r2][c2] implies b[r1][c1]
            == b[r2][c2] by {
            assert(mapping@[a[r1][c1]] == b[r1][c1]);
            assert(mapping@[a[r2][c2]] == b[r2][c2]);
        }
        assert(pair_consistent(a, b));
    }
    Some(mapping)
}

/// Whether the map explains every example pair, cell for cell.
pub fn verify_color_map(map: &FxHashMap<u8, u8>, examples: &Vec<(Grid, Grid)>) -> (r: bool)
    requires
        crate::compression::exs_wf(examples),
    ensures
        r == forall|k: int|
            0 <= k < examples@.len() ==> map_explains(
                map@,
                grid_view(&(#[trigger] examples@[k]).0),
                grid_view(&examples@[k].1),
            ),
        r ==> forall|k: int|
            0 <= k < examples@.len() ==> grid_view(&(#[trigger] examples@[k]).1)
                == color_map_apply_s(map@, grid_view(&examples@[k].0)),
{
    proof {
        if forall|k: int|
            0 <= k < examples@.len() ==> map_explains(
                map@,
                grid_view(&(#[trigger] examples@[k]).0),
                grid_view(&examples@[k].1),
            ) {
            assert forall|k: int| 0 <= k < examples@.len() implies grid_view(
                &(#[trigger] examples@[k]).1,
            ) == color_map_apply_s(map@, grid_view(&examples@[k].0)) by {
                assert(map_explains(map@, grid_view(&examples@[k].0), grid_view(
                    &examples@[k].1,
                )));
                lemma_map_explains_applies(map@, grid_view(&examples@[k].0), grid_view(
                    &examples@[k].1,
                ));
            }
        }
    }
    let mut k: usize = 0;
    while k < examples.len()
        invariant
            0 <= k <= examples.len(),
            crate::compression::exs_wf(examples),
            forall|q: int|
                0 <= q < k ==> map_explains(
                    map@,
                    grid_view(&(#[trigger] examples@[q]).0),
                    grid_view(&examples@[q].1),
                ),
        decreases examples.len() - k,
    {
        let input = &examples[k].0;
        let output = &examples[k].1;
        let ghost a = grid_view(input);
        let ghost b = grid_view(output);
        proof {
            assert(a == grid_view(&examples@[k as int].0));
            assert(b == grid_view(&examples@[k as int].1));
        }
        if input.len() != output.len() {
            assert(!map_explains(map@, a, b));
            assert(!map_explains(map@, grid_view(&examples@[k as int].0), grid_view(
                &examples@[k as int].1,
            )));
            return false;
        }
        if !input.is_empty() {
            if input[0].len() != output[0].len() {
                assert(!map_explains(map@, a, b));
                assert(!map_explains(map@, grid_view(&examples@[k as int].0), grid_view(
                    &examples@[k as int].1,
                )));
                return false;
            }
            let rows = input.len();
            let cols = input[0].len();
            let mut i: usize = 0;
            while i < rows
                invariant
                    0 <= i <= rows,
                    grid_wf(input),
                    grid_wf(output),
                    a == grid_view(input),
                    b == grid_view(output),
                    k < examples@.len(),
                    a == grid_view(&examples@[k as int].0),
                    b == grid_view(&examples@[k as int].1),
                    rows == rows_of(a),
                    cols == cols_of(a),
                    rows == rows_of(b),
                    cols == cols_of(b),
                    forall|r: int, c: int|
                        0 <= r < i && 0 <= c < cols ==> map@.contains_key(#[trigger] a[r][c])
                            && map@[a[r][c]] == b[r][c],
                decreases rows - i,
            {
                let mut j: usize = 0;
                while j < cols
                    invariant
                        0 <= j <= cols,
                        0 <= i < rows,
                        grid_wf(input),
                        grid_wf(output),
                        a == grid_view(input),
                        b == grid_view(output),
                        k < examples@.len(),
                        a == grid_view(&examples@[k as int].0),
                        b == grid_view(&examples@[k as int].1),
                        rows == rows_of(a),
                        cols == cols_of(a),
                        rows == rows_of(b),
                        cols == cols_of(b),
                        forall|r: int, c: int|
                            0 <= r < i && 0 <= c < cols ==> map@.contains_key(
                                #[trigger] a[r][c],
                            ) && map@[a[r][c]] == b[r][c],
                        forall|c: int|
                            0 <= c < j ==> map@.contains_key(#[trigger] a[i as int][c])
                                && map@[a[i as int][c]] == b[i as int][c],
                    decreases cols - j,
                {
                    let ic = input[i][j];
                    let oc = output[i][j];
                    assert(ic == a[i as int][j as int]);
                    assert(oc == b[i as int][j as int]);
                    let ok = match fx_color_map_get(map, ic) {
                        Some(v) => v == oc,
                        None => false,
                    };
                    if !ok {
                        assert(!(map@.contains_key(a[i as int][j as int]) && map@[a[i as int][
                            j as int]] == b[i as int][j as int]));
                        assert(!map_explains(map@, a, b));
                        assert(!map_explains(map@, grid_view(&examples@[k as int].0), grid_view(
                            &examples@[k as int].1,
                        )));
                        return false;
                    }
                    j += 1;
                }
                i += 1;
            }
        }
        assert(map_explains(map@, grid_view(&examples@[k as int].0), grid_view(
            &examples@[k as int].1,
        )));
        k += 1;
    }
    true
}

/// The grid with every color sent through the map (unmapped colors
/// stay).
pub open spec fn color_map_apply_s(m: Map<u8, u8>, s: Seq<Seq<u8>>) -> Seq<Seq<u8>> {
    mk_grid(
        rows_of(s),
        cols_of(s),
        |r: int, c: int| if m.contains_key(s[r][c]) {
            m[s[r][c]]
        } else {
            s[r][c]
        },
    )
}

/// Applies a color map to a grid.
pub fn apply_color_map(grid: &Grid, map: &FxHashMap<u8, u8>) -> (r: Grid)
    requires
        grid_wf(grid),
    ensures
        grid_view(&r) == color_map_apply_s(map@, grid_view(grid)),
        grid_wf(&r),
{
    let ghost s = grid_view(grid);
    let rows = grid.len();
    let cols = if rows == 0 { 0 } else { grid[0].len() };
    let mut out: Grid = Vec::new();
    let mut i: usize = 0;
    while i < rows
        invariant
            0 <= i <= rows,
            grid_wf(grid),
            s == grid_view(grid),
            rows == rows_of(s),
            cols == cols_of(s),
            out@.len() == i,
            forall|k: int| 0 <= k < i ==> #[trigger] out@[k]@ =~= Seq::new(
                cols as nat,
                |c: int| if map@.contains_key(s[k][c]) {
                    map@[s[k][c]]
                } else {
                    s[k][c]
                },
            ),
        decreases rows - i,
    {
        let mut nr: Vec<u8> = Vec::new();
        let mut j: usize = 0;
        while j < cols
            invariant
                0 <= j <= cols,
                0 <= i < rows,
                grid_wf(grid),
                s == grid_view(grid),
                rows == rows_of(s),
                cols == cols_of(s),
                nr@.len() == j,
                forall|k: int| 0 <= k < j ==> nr@[k] == (if map@.contains_key(s[i as int][k]) {
                    map@[s[i as int][k]]
                } else {
                    s[i as int][k]
                }),
            decreases cols - j,
        {
            let v = grid[i][j];
            let nv = match fx_color_map_get(map, v) {
                Some(w) => w,
                None => v,
            };
            nr.push(nv);
            j += 1;
        }
        assert(nr@ =~= Seq::new(
            cols as nat,
            |c: int| if map@.contains_key(s[i as int][c]) {
                map@[s[i as int][c]]
            } else {
                s[i as int][c]
            },
        ));
        out.push(nr);
        i += 1;
    }
    assert(grid_view(&out) =~~= color_map_apply_s(map@, s));
    out
}

// --- tiling ---

/// A grid tiled `nr` by `nc` times; degenerate parameters give the
/// empty grid.
pub open spec fn tile_grid_s(s: Seq<Seq<u8>>, nr: int, nc: int) -> Seq<Seq<u8>> {
    if rows_of(s) == 0 || nr <= 0 || nc <= 0 || !dims_ok(rows_of(s) * nr, cols_of(s) * nc) {
        Seq::empty()
    } else {
        mk_grid(
            (rows_of(s) * nr) as nat,
            (cols_of(s) * nc) as nat,
            |r: int, c: int| s[r % (rows_of(s) as int)][c % (cols_of(s) as int)],
        )
    }
}

/// Tiles a grid `n_r` by `n_c` times.
pub fn tile_grid(grid: &Grid, n_r: usize, n_c: usize) -> (r: Grid)
    requires
        grid_wf(grid),
    ensures
        grid_view(&r) == tile_grid_s(grid_view(grid), n_r as int, n_c as int),
        grid_wf(&r),
{
    let ghost s = grid_view(grid);
    let rows = grid.len();
    let cols = if rows == 0 { 0 } else { grid[0].len() };
    if rows == 0 || n_r == 0 || n_c == 0 {
        let out: Grid = Vec::new();
        assert(grid_view(&out) =~~= tile_grid_s(s, n_r as int, n_c as int));
        return out;
    }
    if n_r > GRID_MAX / rows || (cols > 0 && n_c > GRID_MAX / cols) || cols == 0 {
        if cols == 0 {
            if n_r <= GRID_MAX / rows {
                assert(cols_of(s) * (n_c as int) == 0) by (nonlinear_arith)
                    requires
                        cols_of(s) == 0,
                ;
                assert(rows * n_r <= GRID_MAX) by (nonlinear_arith)
                    requires
                        rows >= 1,
                        n_r >= 1,
                        n_r <= GRID_MAX / rows,
                ;
                let nrows = rows * n_r;
                let mut out: Grid = Vec::new();
                let mut i: usize = 0;
                while i < nrows
                    invariant
                        0 <= i <= nrows,
                        out@.len() == i,
                        forall|k: int| 0 <= k < i ==> #[trigger] out@[k]@ =~= Seq::<u8>::empty(),
                    decreases nrows - i,
                {
                    let nr: Vec<u8> = Vec::new();
                    assert(nr@ =~= Seq::<u8>::empty());
                    out.push(nr);
                    i += 1;
                }
                assert(grid_view(&out) =~~= tile_grid_s(s, n_r as int, n_c as int));
                return out;
            }
        }
        assert(!dims_ok(rows_of(s) * (n_r as int), cols_of(s) * (n_c as int)))
            by (nonlinear_arith)
            requires
                rows == rows_of(s),
                cols == cols_of(s),
                rows >= 1,
                n_r >= 1,
                n_c >= 1,
                (n_r > GRID_MAX / rows) || (cols > 0 && n_c > GRID_MAX / cols),
        ;
        let out: Grid = Vec::new();
        assert(grid_view(&out) =~~= tile_grid_s(s, n_r as int, n_c as int));
        return out;
    }
    assert(rows * n_r <= GRID_MAX && cols * n_c <= GRID_MAX) by (nonlinear_arith)
        requires
            rows >= 1,
            cols >= 1,
            n_r >= 1,
            n_c >= 1,
            n_r <= GRID_MAX / rows,
            n_c <= GRID_MAX / cols,
    ;
    let nrows = rows * n_r;
    let ncols = cols * n_c;
    let mut out: Grid = Vec::new();
    let mut i: usize = 0;
    while i < nrows
        invariant
            0 <= i <= nrows,
            grid_wf(grid),
            s == grid_view(grid),
            rows == rows_of(s),
            cols == cols_of(s),
            rows >= 1,
            cols >= 1,
            nrows == rows * n_r <= GRID_MAX,
            ncols == cols * n_c <= GRID_MAX,
            out@.len() == i,
            forall|k: int| 0 <= k < i ==> #[trigger] out@[k]@ =~= Seq::new(
                ncols as nat,
                |c: int| s[k % (rows as int)][c % (cols as int)],
            ),
        decreases nrows - i,
    {
        let mut nr: Vec<u8> = Vec::new();
        let mut j: usize = 0;
        while j < ncols
            invariant
                0 <= j <= ncols,
                0 <= i < nrows,
                grid_wf(grid),
                s == grid_view(grid),
                rows == rows_of(s),
                cols == cols_of(s),
                rows >= 1,
                cols >= 1,
                nr@.len() == j,
                forall|k: int| 0 <= k < j ==> nr@[k] == s[i as int % (rows as int)][k % (
                cols as int)],
            decreases ncols - j,
        {
            nr.push(grid[i % rows][j % cols]);
            j += 1;
        }
        assert(nr@ =~= Seq::new(
            ncols as nat,
            |c: int| s[i as int % (rows as int)][c % (cols as int)],
        ));
        out.push(nr);
        i += 1;
    }
    assert(grid_view(&out) =~~= tile_grid_s(s, n_r as int, n_c as int));
    out
}

/// Self-tiling: each set cell becomes a copy of the whole grid, each
/// clear cell a clear block.
pub open spec fn tile_self_s(s: Seq<Seq<u8>>) -> Seq<Seq<u8>> {
    if rows_of(s) == 0 || !dims_ok(
        rows_of(s) * rows_of(s) as int,
        cols_of(s) * cols_of(s) as int,
    ) {
        s
    } else {
        mk_grid(
            (rows_of(s) * rows_of(s)) as nat,
            (cols_of(s) * cols_of(s)) as nat,
            |r: int, c: int|
                {
                    let rr = rows_of(s) as int;
                    let cc = cols_of(s) as int;
                    if s[r / rr][c / cc] != 0 {
                        s[r % rr][c % cc]
                    } else {
                        0u8
                    }
                },
        )
    }
}

/// Replaces each set cell by a copy of the grid itself.
pub fn tile_with_self(grid: &Grid) -> (r: Grid)
    requires
        grid_wf(grid),
    ensures
        grid_view(&r) == tile_self_s(grid_view(grid)),
        grid_wf(&r),
{
    let ghost s = grid_view(grid);
    let rows = grid.len();
    let cols = if rows == 0 { 0 } else { grid[0].len() };
    if rows == 0 {
        let r = clone_grid(grid);
        assert(grid_view(&r) == tile_self_s(s));
        return r;
    }
    if rows > GRID_MAX / rows || (cols > 0 && cols > GRID_MAX / cols) {
        assert(!dims_ok(rows_of(s) * rows_of(s) as int, cols_of(s) * cols_of(s) as int))
            by (nonlinear_arith)
            requires
                rows == rows_of(s),
                cols == cols_of(s),
                rows >= 1,
                (rows > GRID_MAX / rows) || (cols > 0 && cols > GRID_MAX / cols),
        ;
        let r = clone_grid(grid);
        assert(grid_view(&r) == tile_self_s(s));
        return r;
    }
    assert(rows * rows <= GRID_MAX && cols * cols <= GRID_MAX) by (nonlinear_arith)
        requires
            rows >= 1,
            rows <= GRID_MAX / rows,
            cols == 0 || cols <= GRID_MAX / cols,
    ;
    let nrows = rows * rows;
    let ncols = cols * cols;
    let mut out: Grid = Vec::new();
    let mut i: usize = 0;
    while i < nrows
        invariant
            0 <= i <= nrows,
            grid_wf(grid),
            s == grid_view(grid),
            rows == rows_of(s),
            cols == cols_of(s),
            rows >= 1,
            nrows == rows * rows <= GRID_MAX,
            ncols == cols * cols <= GRID_MAX,
            out@.len() == i,
            forall|k: int| 0 <= k < i ==> #[trigger] out@[k]@ =~= Seq::new(
                ncols as nat,
                |c: int| if s[k / (rows as int)][c / (cols as int)] != 0 {
                    s[k % (rows as int)][c % (cols as int)]
                } else {
                    0u8
                },
            ),
        decreases nrows - i,
    {
        assert(i / rows < rows) by (nonlinear_arith)
            requires
                rows >= 1,
                i < nrows,
                nrows == rows * rows,
        ;
        let mut nr: Vec<u8> = Vec::new();
        let mut j: usize = 0;
        while j < ncols
            invariant
                0 <= j <= ncols,
                0 <= i < nrows,
                grid_wf(grid),
                s == grid_view(grid),
                rows == rows_of(s),
                cols == cols_of(s),
                rows >= 1,
                nrows == rows * rows,
                ncols == cols * cols,
                i / rows < rows,
                nr@.len() == j,
                forall|k: int| 0 <= k < j ==> nr@[k] == (if s[i as int / (rows as int)][k / (
                cols as int)] != 0 {
                    s[i as int % (rows as int)][k % (cols as int)]
                } else {
                    0u8
                }),
            decreases ncols - j,
        {
            assert(cols >= 1 && j / cols < cols) by (nonlinear_arith)
                requires
                    j < ncols,
                    ncols == cols * cols,
                    cols >= 0,
            ;
            let v = if grid[i / rows][j / cols] != 0 {
                grid[i % rows][j % cols]
            } else {
                0
            };
            nr.push(v);
            j += 1;
        }
        assert(nr@ =~= Seq::new(
            ncols as nat,
            |c: int| if s[i as int / (rows as int)][c / (cols as int)] != 0 {
                s[i as int % (rows as int)][c % (cols as int)]
            } else {
                0u8
            },
        ));
        out.push(nr);
        i += 1;
    }
    assert(grid_view(&out) =~~= tile_self_s(s));
    out
}

/// Valid tiling factors are forced by the dimensions.
proof fn lemma_tiling_witness(a: Seq<Seq<u8>>, b: Seq<Seq<u8>>, nr: int, nc: int)
    requires
        1 <= nr,
        1 <= nc,
        rows_of(a) >= 1,
        cols_of(a) >= 1,
        rows_of(b) >= 1,
        tile_grid_s(a, nr, nc) == b,
    ensures
        rows_of(b) == rows_of(a) * nr,
        cols_of(b) == cols_of(a) * nc,
        (rows_of(b) as int) % (rows_of(a) as int) == 0,
        (cols_of(b) as int) % (cols_of(a) as int) == 0,
        nr == rows_of(b) as int / (rows_of(a) as int),
        nc == cols_of(b) as int / (cols_of(a) as int),
{
    if !crate::model::dims_ok(rows_of(a) * nr, cols_of(a) * nc) {
        assert(rows_of(b) == 0);
    }
    assert(rows_of(a) * nr >= 1) by (nonlinear_arith)
        requires
            rows_of(a) >= 1,
            nr >= 1,
    ;
    assert(rows_of(b) == rows_of(a) * nr);
    assert(cols_of(b) == cols_of(a) * nc);
    assert((rows_of(a) as int * nr) % (rows_of(a) as int) == 0 && nr == (rows_of(a) as int * nr)
        / (rows_of(a) as int)) by (nonlinear_arith)
        requires
            rows_of(a) >= 1,
            nr >= 1,
    ;
    assert((cols_of(a) as int * nc) % (cols_of(a) as int) == 0 && nc == (cols_of(a) as int * nc)
        / (cols_of(a) as int)) by (nonlinear_arith)
        requires
            cols_of(a) >= 1,
            nc >= 1,
    ;
}

/// Detects whether the output is the input tiled a whole number of
/// times. A find reproduces the output; and whenever valid factors
/// exist at all, a find is owed.
pub fn detect_tiling(input: &Grid, output: &Grid) -> (r: Option<(usize, usize)>)
    requires
        grid_wf(input),
        grid_wf(output),
    ensures
        match r {
            Some(f) => {
                &&& f.0 >= 1 && f.1 >= 1
                &&& grid_view(output) == tile_grid_s(grid_view(input), f.0 as int, f.1 as int)
            },
            None => true,
        },
        forall|nr: int, nc: int|
            (1 <= nr && 1 <= nc && rows_of(grid_view(input)) >= 1 && cols_of(grid_view(input))
                >= 1 && rows_of(grid_view(output)) >= 1 && #[trigger] tile_grid_s(
                grid_view(input),
                nr,
                nc,
            ) == grid_view(output)) ==> r is Some,
{
    let ghost a = grid_view(input);
    let ghost b = grid_view(output);
    if input.is_empty() || output.is_empty() {
        return None;
    }
    let in_r = input.len();
    let in_c = input[0].len();
    let out_r = output.len();
    let out_c = output[0].len();
    if in_c == 0 {
        return None;
    }
    if out_r % in_r != 0 || out_c % in_c != 0 {
        proof {
            assert forall|nr: int, nc: int|
                (1 <= nr && 1 <= nc && rows_of(a) >= 1 && cols_of(a) >= 1 && rows_of(b) >= 1
                    && #[trigger] tile_grid_s(a, nr, nc) == b) implies false by {
                lemma_tiling_witness(a, b, nr, nc);
            }
        }
        return None;
    }
    let n_r = out_r / in_r;
    let n_c = out_c / in_c;
    if n_r == 0 || n_c == 0 {
        proof {
            assert forall|nr: int, nc: int|
                (1 <= nr && 1 <= nc && rows_of(a) >= 1 && cols_of(a) >= 1 && rows_of(b) >= 1
                    && #[trigger] tile_grid_s(a, nr, nc) == b) implies false by {
                lemma_tiling_witness(a, b, nr, nc);
            }
        }
        return None;
    }
    let tiled = tile_grid(input, n_r, n_c);
    if grid_eq(&tiled, output) {
        Some((n_r, n_c))
    } else {
        proof {
            assert forall|nr: int, nc: int|
                (1 <= nr && 1 <= nc && rows_of(a) >= 1 && cols_of(a) >= 1 && rows_of(b) >= 1
                    && #[trigger] tile_grid_s(a, nr, nc) == b) implies false by {
                lemma_tiling_witness(a, b, nr, nc);
                assert(nr == n_r && nc == n_c);
                assert(grid_view(&tiled) == tile_grid_s(a, n_r as int, n_c as int));
            }
        }
        None
    }
}

/// Detects whether the output is the input self-tiled.
pub fn detect_self_tiling(input: &Grid, output: &Grid) -> (r: bool)
    requires
        grid_wf(input),
        grid_wf(output),
    ensures
        r == (tile_self_s(grid_view(input)) == grid_view(output)),
{
    let t = tile_with_self(input);
    grid_eq(&t, output)
}

// --- subgrids ---

/// Extracts the `h` by `w` subgrid at `(r, c)` (clipped to the grid).
pub fn extract_subgrid(grid: &Grid, r: usize, c: usize, h: usize, w: usize) -> (out: Grid)
    requires
        grid_wf(grid),
    ensures
        grid_view(&out) == crop_s(grid_view(grid), r as int, c as int, h as int, w as int),
        grid_wf(&out),
{
    crop(grid, r, c, h, w)
}

/// Searches row-major for the first offset where the output appears
/// as a subgrid of the input. A find is the first match in scan
/// order; and whenever the output occurs anywhere, a find is owed.
pub fn detect_subgrid(input: &Grid, output: &Grid) -> (r: Option<(usize, usize, usize, usize)>)
    requires
        grid_wf(input),
        grid_wf(output),
    ensures
        match r {
            Some(q) => {
                &&& q.2 == rows_of(grid_view(output)) && q.3 == cols_of(grid_view(output))
                &&& crop_s(
                    grid_view(input),
                    q.0 as int,
                    q.1 as int,
                    q.2 as int,
                    q.3 as int,
                ) == grid_view(output)
                &&& forall|r2: int, c2: int|
                    (0 <= r2 && 0 <= c2 && (r2 < q.0 || (r2 == q.0 && c2 < q.1)) && r2 + rows_of(
                        grid_view(output),
                    ) <= rows_of(grid_view(input)) && c2 + cols_of(grid_view(output)) <= cols_of(
                        grid_view(input),
                    )) ==> #[trigger] crop_s(
                        grid_view(input),
                        r2,
                        c2,
                        rows_of(grid_view(output)) as int,
                        cols_of(grid_view(output)) as int,
                    ) != grid_view(output)
            },
            None => true,
        },
        (rows_of(grid_view(output)) >= 1 && exists|r2: int, c2: int|
            0 <= r2 && 0 <= c2 && r2 + rows_of(grid_view(output)) <= rows_of(grid_view(input))
                && c2 + cols_of(grid_view(output)) <= cols_of(grid_view(input))
                && #[trigger] crop_s(
                grid_view(input),
                r2,
                c2,
                rows_of(grid_view(output)) as int,
                cols_of(grid_view(output)) as int,
            ) == grid_view(output)) ==> r is Some,
{
    let ghost a = grid_view(input);
    let ghost b = grid_view(output);
    if output.is_empty() {
        return None;
    }
    let out_r = output.len();
    let out_c = output[0].len();
    let in_r = input.len();
    let in_c = if in_r == 0 { 0 } else { input[0].len() };
    if out_r > in_r || out_c > in_c {
        return None;
    }
    assert(in_r <= GRID_MAX && in_c <= GRID_MAX);
    let mut r0: usize = 0;
    while r0 <= in_r - out_r
        invariant
            0 <= r0 <= in_r - out_r + 1,
            out_r <= in_r,
            out_c <= in_c,
            in_r <= GRID_MAX,
            in_c <= GRID_MAX,
            in_r == rows_of(a),
            in_c == cols_of(a),
            out_r == rows_of(b),
            out_c == cols_of(b),
            grid_wf(input),
            grid_wf(output),
            a == grid_view(input),
            b == grid_view(output),
            forall|r2: int, c2: int|
                (0 <= r2 < r0 && 0 <= c2 && c2 + out_c <= in_c) ==> #[trigger] crop_s(
                    a,
                    r2,
                    c2,
                    out_r as int,
                    out_c as int,
                ) != b,
        decreases in_r - out_r - r0 + 1,
    {
        let mut c0: usize = 0;
        while c0 <= in_c - out_c
            invariant
                0 <= c0 <= in_c - out_c + 1,
                0 <= r0 <= in_r - out_r,
                out_r <= in_r,
                out_c <= in_c,
                in_r <= GRID_MAX,
                in_c <= GRID_MAX,
                in_r == rows_of(a),
                in_c == cols_of(a),
                out_r == rows_of(b),
                out_c == cols_of(b),
                grid_wf(input),
                grid_wf(output),
                a == grid_view(input),
                b == grid_view(output),
                forall|r2: int, c2: int|
                    (0 <= r2 < r0 && 0 <= c2 && c2 + out_c <= in_c) ==> #[trigger] crop_s(
                        a,
                        r2,
                        c2,
                        out_r as int,
                        out_c as int,
                    ) != b,
                forall|c2: int| 0 <= c2 < c0 ==> #[trigger] crop_s(
                    a,
                    r0 as int,
                    c2,
                    out_r as int,
                    out_c as int,
                ) != b,
            decreases in_c - out_c - c0 + 1,
        {
            let sub = extract_subgrid(input, r0, c0, out_r, out_c);
            if grid_eq(&sub, output) {
                assert(grid_view(&sub) == b);
                assert(crop_s(a, r0 as int, c0 as int, out_r as int, out_c as int) == b);
                return Some((r0, c0, out_r, out_c));
            }
            c0 += 1;
        }
        r0 += 1;
    }
    proof {
        assert forall|r2: int, c2: int|
            (0 <= r2 && 0 <= c2 && r2 + out_r <= in_r && c2 + out_c <= in_c) implies
            #[trigger] crop_s(a, r2, c2, out_r as int, out_c as int) != b by {
            assert(r2 < in_r - out_r + 1);
        }
    }
    None
}

// --- row and column deduplication ---

/// Rows kept after collapsing runs of identical consecutive rows.
pub open spec fn dedup_rows_s(s: Seq<Seq<u8>>, n: int) -> Seq<Seq<u8>>
    decreases n,
{
    if n <= 0 {
        Seq::empty()
    } else if n == 1 || s[n - 1] != s[n - 2] {
        dedup_rows_s(s, n - 1).push(s[n - 1])
    } else {
        dedup_rows_s(s, n - 1)
    }
}

fn rows_equal(a: &Vec<u8>, b: &Vec<u8>) -> (r: bool)
    ensures
        r == (a@ =~= b@),
{
    if a.len() != b.len() {
        return false;
    }
    let mut i: usize = 0;
    while i < a.len()
        invariant
            0 <= i <= a.len(),
            a.len() == b.len(),
            forall|k: int| 0 <= k < i ==> a@[k] == b@[k],
        decreases a.len() - i,
    {
        if a[i] != b[i] {
            return false;
        }
        i += 1;
    }
    assert(a@ =~= b@);
    true
}

/// Collapses runs of identical consecutive rows to one row.
pub fn dedup_rows(grid: &Grid) -> (r: Grid)
    requires
        grid_wf(grid),
    ensures
        grid_view(&r) == dedup_rows_s(grid_view(grid), rows_of(grid_view(grid)) as int),
{
    let ghost s = grid_view(grid);
    let mut out: Grid = Vec::new();
    let mut i: usize = 0;
    while i < grid.len()
        invariant
            0 <= i <= grid.len(),
            grid_wf(grid),
            s == grid_view(grid),
            Seq::new(out@.len(), |k: int| out@[k]@) =~= dedup_rows_s(s, i as int),
        decreases grid.len() - i,
    {
        let keep = if i == 0 {
            true
        } else {
            !rows_equal(&grid[i], &grid[i - 1])
        };
        if keep {
            let row = &grid[i];
            let mut nr: Vec<u8> = Vec::new();
            let mut j: usize = 0;
            while j < row.len()
                invariant
                    0 <= j <= row.len(),
                    nr@.len() == j,
                    forall|k: int| 0 <= k < j ==> nr@[k] == row@[k],
                decreases row.len() - j,
            {
                nr.push(row[j]);
                j += 1;
            }
            assert(nr@ =~= s[i as int]);
            out.push(nr);
        }
        assert(Seq::new(out@.len(), |k: int| out@[k]@) =~= dedup_rows_s(s, i as int + 1));
        i += 1;
    }
    assert(grid_view(&out) =~~= dedup_rows_s(s, rows_of(s) as int));
    out
}

/// Two whole columns hold the same cells.
pub open spec fn cols_equal_s(s: Seq<Seq<u8>>, c1: int, c2: int) -> bool {
    forall|r: int| 0 <= r < rows_of(s) ==> #[trigger] s[r][c1] == s[r][c2]
}

/// Column indices kept after collapsing runs of identical columns.
pub open spec fn kept_cols(s: Seq<Seq<u8>>, n: int) -> Seq<int>
    decreases n,
{
    if n <= 0 {
        Seq::empty()
    } else if n == 1 || !cols_equal_s(s, n - 1, n - 2) {
        kept_cols(s, n - 1).push(n - 1)
    } else {
        kept_cols(s, n - 1)
    }
}

/// The grid restricted to its kept columns.
pub open spec fn dedup_cols_s(s: Seq<Seq<u8>>) -> Seq<Seq<u8>> {
    let kept = kept_cols(s, cols_of(s) as int);
    mk_grid(rows_of(s), kept.len(), |r: int, k: int| s[r][kept[k]])
}

/// Kept column indices stay inside the scanned range.
proof fn lemma_kept_cols_bounds(s: Seq<Seq<u8>>, n: int)
    ensures
        forall|k: int| 0 <= k < kept_cols(s, n).len() ==> 0 <= #[trigger] kept_cols(s, n)[k] < n,
    decreases n,
{
    if n > 0 {
        lemma_kept_cols_bounds(s, n - 1);
        let rest = kept_cols(s, n - 1);
        let cur = kept_cols(s, n);
        assert forall|k: int| 0 <= k < cur.len() implies 0 <= #[trigger] cur[k] < n by {
            if k < rest.len() {
                assert(cur[k] == rest[k]);
            }
        }
    }
}

fn cols_equal(grid: &Grid, c1: usize, c2: usize) -> (r: bool)
    requires
        grid_wf(grid),
        c1 < cols_of(grid_view(grid)),
        c2 < cols_of(grid_view(grid)),
    ensures
        r == cols_equal_s(grid_view(grid), c1 as int, c2 as int),
{
    let ghost s = grid_view(grid);
    let mut i: usize = 0;
    while i < grid.len()
        invariant
            0 <= i <= grid.len(),
            grid_wf(grid),
            s == grid_view(grid),
            c1 < cols_of(s),
            c2 < cols_of(s),
            forall|r: int| 0 <= r < i ==> #[trigger] s[r][c1 as int] == s[r][c2 as int],
        decreases grid.len() - i,
    {
        if grid[i][c1] != grid[i][c2] {
            assert(s[i as int][c1 as int] != s[i as int][c2 as int]);
            return false;
        }
        i += 1;
    }
    true
}

/// Collapses runs of identical consecutive columns to one column.
pub fn dedup_cols(grid: &Grid) -> (r: Grid)
    requires
        grid_wf(grid),
    ensures
        grid_view(&r) == dedup_cols_s(grid_view(grid)),
        grid_wf(&r),
{
    let ghost s = grid_view(grid);
    let rows = grid.len();
    let cols = if rows == 0 { 0 } else { grid[0].len() };
    let mut kept: Vec<usize> = Vec::new();
    let mut c: usize = 0;
    while c < cols
        invariant
            0 <= c <= cols,
            grid_wf(grid),
            s == grid_view(grid),
            rows == rows_of(s),
            cols == cols_of(s),
            kept@.len() == kept_cols(s, c as int).len(),
            kept@.len() <= c,
            forall|k: int| 0 <= k < kept@.len() ==> #[trigger] kept@[k] == kept_cols(
                s,
                c as int,
            )[k] && kept@[k] < cols,
        decreases cols - c,
    {
        let keep = if c == 0 {
            true
        } else {
            !cols_equal(grid, c, c - 1)
        };
        if keep {
            kept.push(c);
        }
        c += 1;
    }
    let klen = kept.len();
    let ghost kseq = kept_cols(s, cols as int);
    proof {
        assert(kept@.len() == kseq.len());
        assert forall|q: int| 0 <= q < klen implies #[trigger] kept@[q] == kseq[q] && kept@[q]
            < cols by {
            assert(kept@[q] == kept_cols(s, cols as int)[q]);
        }
    }
    let mut out: Grid = Vec::new();
    let mut i: usize = 0;
    while i < rows
        invariant
            0 <= i <= rows,
            grid_wf(grid),
            s == grid_view(grid),
            rows == rows_of(s),
            cols == cols_of(s),
            klen == kept@.len(),
            klen == kseq.len(),
            klen <= cols,
            kseq == kept_cols(s, cols as int),
            forall|k: int| 0 <= k < klen ==> #[trigger] kept@[k] == kseq[k] && kept@[k] < cols,
            out@.len() == i,
            forall|q: int| 0 <= q < i ==> #[trigger] out@[q]@ =~= Seq::new(
                klen as nat,
                |k: int| s[q][kseq[k]],
            ),
        decreases rows - i,
    {
        let mut nr: Vec<u8> = Vec::new();
        let mut k: usize = 0;
        while k < klen
            invariant
                0 <= k <= klen,
                0 <= i < rows,
                grid_wf(grid),
                s == grid_view(grid),
                rows == rows_of(s),
                cols == cols_of(s),
                klen == kept@.len(),
                klen == kseq.len(),
                forall|q: int| 0 <= q < klen ==> #[trigger] kept@[q] == kseq[q] && kept@[q]
                    < cols,
                nr@.len() == k,
                forall|q: int| 0 <= q < k ==> nr@[q] == s[i as int][kseq[q]],
            decreases klen - k,
        {
            nr.push(grid[i][kept[k]]);
            k += 1;
        }
        assert(nr@ =~= Seq::new(klen as nat, |k2: int| s[i as int][kseq[k2]]));
        out.push(nr);
        i += 1;
    }
    assert(grid_view(&out) =~~= dedup_cols_s(s));
    proof {
        crate::model::lemma_mk_wf(dedup_cols_s(s), rows as int, klen as int);
    }
    out
}

// --- majority vote and period repair ---

/// How many of the first `n` grids have color `v` at cell `(r, c)`;
/// a grid too small to reach the cell casts no vote there.
pub open spec fn vote_count(gs: Seq<Grid>, r: int, c: int, v: u8, n: int) -> nat
    decreases n,
{
    if n <= 0 {
        0
    } else {
        vote_count(gs, r, c, v, n - 1) + (if 0 <= r < gs[n - 1]@.len() && 0 <= c < gs[n
            - 1]@[r]@.len() && gs[n - 1]@[r]@[c] == v {
            1nat
        } else {
            0nat
        })
    }
}

/// `b` is the winning color at `(r, c)`: no color out-votes it, and
/// among equal vote counts the largest color wins.
pub open spec fn is_best_vote(gs: Seq<Grid>, r: int, c: int, n: int, b: u8) -> bool {
    &&& b < 10
    &&& forall|v: u8| v < 10 ==> #[trigger] vote_count(gs, r, c, v, n) <= vote_count(gs, r, c, b, n)
    &&& forall|v: u8| b < v < 10 ==> #[trigger] vote_count(gs, r, c, v, n) < vote_count(
        gs,
        r,
        c,
        b,
        n,
    )
}

/// Per-cell majority vote across several grids. The result has the
/// first grid's shape; each cell takes the color with the most votes
/// at that cell, ties going to the largest color.
pub fn majority_vote(grids: &Vec<Grid>) -> (r: Grid)
    requires
        forall|i: int| 0 <= i < grids@.len() ==> grid_wf(&(#[trigger] grids@[i])),
    ensures
        grids@.len() == 0 || rows_of(grid_view(&grids@[0])) == 0 ==> grid_view(&r)
            =~~= Seq::empty(),
        grids@.len() > 0 && rows_of(grid_view(&grids@[0])) > 0 ==> rows_of(grid_view(&r))
            == rows_of(grid_view(&grids@[0])) && cols_of(grid_view(&r)) == cols_of(
            grid_view(&grids@[0]),
        ),
        grids@.len() > 0 && rows_of(grid_view(&grids@[0])) > 0 ==> forall|a: int, b: int|
            0 <= a < rows_of(grid_view(&grids@[0])) && 0 <= b < cols_of(grid_view(&grids@[0]))
                ==> is_best_vote(grids@, a, b, grids@.len() as int, #[trigger] grid_view(
                &r,
            )[a][b]),
        grid_wf(&r),
{
    let ghost gs = grids@;
    if grids.is_empty() {
        let out: Grid = Vec::new();
        return out;
    }
    let rows = grids[0].len();
    if rows == 0 {
        let out: Grid = Vec::new();
        return out;
    }
    let cols = grids[0][0].len();
    let mut out: Grid = Vec::new();
    let mut i: usize = 0;
    while i < rows
        invariant
            0 <= i <= rows,
            gs == grids@,
            gs.len() > 0,
            forall|q: int| 0 <= q < gs.len() ==> grid_wf(&(#[trigger] gs[q])),
            rows == rows_of(grid_view(&gs[0])),
            cols == cols_of(grid_view(&gs[0])),
            rows > 0,
            out@.len() == i,
            forall|q: int| 0 <= q < i ==> (#[trigger] out@[q])@.len() == cols,
            forall|a: int, b: int|
                0 <= a < i && 0 <= b < cols ==> is_best_vote(
                    gs,
                    a,
                    b,
                    gs.len() as int,
                    #[trigger] out@[a]@[b],
                ),
        decreases rows - i,
    {
        let mut nr: Vec<u8> = Vec::new();
        let mut j: usize = 0;
        while j < cols
            invariant
                0 <= j <= cols,
                0 <= i < rows,
                gs == grids@,
                gs.len() > 0,
                forall|q: int| 0 <= q < gs.len() ==> grid_wf(&(#[trigger] gs[q])),
                rows == rows_of(grid_view(&gs[0])),
                cols == cols_of(grid_view(&gs[0])),
                nr@.len() == j,
                forall|b: int|
                    0 <= b < j ==> is_best_vote(gs, i as int, b, gs.len() as int, #[trigger] nr@[b]),
            decreases cols - j,
        {
            let mut counts: Vec<u64> = Vec::new();
            let mut v: usize = 0;
            while v < 10
                invariant
                    0 <= v <= 10,
                    counts@.len() == v,
                    forall|k: int| 0 <= k < v ==> counts@[k] == 0,
                decreases 10 - v,
            {
                counts.push(0);
                v += 1;
            }
            let mut gidx: usize = 0;
            while gidx < grids.len()
                invariant
                    0 <= gidx <= grids.len(),
                    gs == grids@,
                    forall|q: int| 0 <= q < gs.len() ==> grid_wf(&(#[trigger] gs[q])),
                    counts@.len() == 10,
                    forall|k: int| 0 <= k < 10 ==> #[trigger] counts@[k] <= gidx,
                    forall|k: u8|
                        k < 10 ==> #[trigger] counts@[k as int] == vote_count(
                            gs,
                            i as int,
                            j as int,
                            k,
                            gidx as int,
                        ),
                decreases grids.len() - gidx,
            {
                let g = &grids[gidx];
                let ghost prec = counts@;
                if i < g.len() {
                    let grow = &g[i];
                    if j < grow.len() {
                        let cv = grow[j];
                        if cv < 10 {
                            let cur = counts[cv as usize];
                            counts.set(cv as usize, cur + 1);
                        }
                    }
                }
                proof {
                    assert forall|k: u8| k < 10 implies #[trigger] counts@[k as int] == vote_count(
                        gs,
                        i as int,
                        j as int,
                        k,
                        gidx + 1,
                    ) by {
                        let cell_in = 0 <= (i as int) < gs[gidx as int]@.len() && 0 <= (j as int)
                            < gs[gidx as int]@[i as int]@.len();
                        if cell_in && gs[gidx as int]@[i as int]@[j as int] == k {
                            assert(counts@[k as int] == prec[k as int] + 1);
                        } else {
                            assert(counts@[k as int] == prec[k as int]);
                        }
                    }
                }
                gidx += 1;
            }
            let mut best: usize = 0;
            let mut v2: usize = 1;
            while v2 < 10
                invariant
                    1 <= v2 <= 10,
                    best < v2,
                    counts@.len() == 10,
                    forall|k: u8|
                        k < 10 ==> #[trigger] counts@[k as int] == vote_count(
                            gs,
                            i as int,
                            j as int,
                            k,
                            gs.len() as int,
                        ),
                    forall|k: int| 0 <= k < v2 ==> #[trigger] counts@[k] <= counts@[best as int],
                    forall|k: int|
                        best < k < v2 ==> #[trigger] counts@[k] < counts@[best as int],
                decreases 10 - v2,
            {
                if counts[v2] >= counts[best] {
                    best = v2;
                }
                v2 += 1;
            }
            proof {
                assert forall|vv: u8| vv < 10 implies #[trigger] vote_count(
                    gs,
                    i as int,
                    j as int,
                    vv,
                    gs.len() as int,
                ) <= vote_count(gs, i as int, j as int, best as u8, gs.len() as int) by {
                    assert(counts@[vv as int] <= counts@[best as int]);
                }
                assert forall|vv: u8| (best as u8) < vv < 10 implies #[trigger] vote_count(
                    gs,
                    i as int,
                    j as int,
                    vv,
                    gs.len() as int,
                ) < vote_count(gs, i as int, j as int, best as u8, gs.len() as int) by {
                    assert(counts@[vv as int] < counts@[best as int]);
                }
                assert(is_best_vote(gs, i as int, j as int, gs.len() as int, best as u8));
            }
            nr.push(best as u8);
            j += 1;
        }
        out.push(nr);
        i += 1;
    }
    assert forall|q: int| 0 <= q < out@.len() implies (#[trigger] grid_view(&out)[q]).len()
        == cols by {
        assert(grid_view(&out)[q] == out@[q]@);
    }
    proof {
        assert forall|a: int, b: int|
            0 <= a < rows_of(grid_view(&gs[0])) && 0 <= b < cols_of(grid_view(&gs[0]))
                implies is_best_vote(gs, a, b, gs.len() as int, #[trigger] grid_view(
            &out,
        )[a][b]) by {
            assert(grid_view(&out)[a][b] == out@[a]@[b]);
        }
    }
    out
}

/// The output is exactly periodic with period `(pr, pc)`.
pub open spec fn out_periodic(b: Seq<Seq<u8>>, pr: int, pc: int) -> bool {
    forall|r: int, c: int|
        0 <= r < rows_of(b) && 0 <= c < cols_of(b) ==> #[trigger] b[r][c] == b[r % pr][c % pc]
}

/// The input equals the output except at clear "holes".
pub open spec fn in_consistent(a: Seq<Seq<u8>>, b: Seq<Seq<u8>>) -> bool {
    forall|r: int, c: int|
        0 <= r < rows_of(a) && 0 <= c < cols_of(a) ==> #[trigger] a[r][c] == 0 || a[r][c] == b[r][c]
}

/// Some hole actually gets filled.
pub open spec fn has_damage(a: Seq<Seq<u8>>, b: Seq<Seq<u8>>) -> bool {
    exists|r: int, c: int|
        0 <= r < rows_of(a) && 0 <= c < cols_of(a) && #[trigger] a[r][c] == 0 && b[r][c] != 0
}

fn check_out_periodic(output: &Grid, pr: usize, pc: usize) -> (ok: bool)
    requires
        grid_wf(output),
        pr >= 1,
        pc >= 1,
    ensures
        ok == out_periodic(grid_view(output), pr as int, pc as int),
{
    let ghost b = grid_view(output);
    let rows = output.len();
    let cols = if rows == 0 { 0 } else { output[0].len() };
    let mut i: usize = 0;
    while i < rows
        invariant
            0 <= i <= rows,
            grid_wf(output),
            b == grid_view(output),
            rows == rows_of(b),
            cols == cols_of(b),
            pr >= 1,
            pc >= 1,
            forall|r: int, c: int| 0 <= r < i && 0 <= c < cols ==> #[trigger] b[r][c] == b[r % (
            pr as int)][c % (pc as int)],
        decreases rows - i,
    {
        let mut j: usize = 0;
        while j < cols
            invariant
                0 <= j <= cols,
                0 <= i < rows,
                grid_wf(output),
                b == grid_view(output),
                rows == rows_of(b),
                cols == cols_of(b),
                pr >= 1,
                pc >= 1,
                forall|c: int| 0 <= c < j ==> #[trigger] b[i as int][c] == b[(i as int) % (
                pr as int)][c % (pc as int)],
            decreases cols - j,
        {
            proof {
                assert((i as int) % (pr as int) <= i as int && (j as int) % (pc as int)
                    <= j as int) by (nonlinear_arith)
                    requires
                        pr >= 1,
                        pc >= 1,
                        i >= 0,
                        j >= 0,
                ;
            }
            if output[i][j] != output[i % pr][j % pc] {
                assert(b[i as int][j as int] != b[(i as int) % (pr as int)][(j as int) % (
                pc as int)]);
                assert(!out_periodic(b, pr as int, pc as int));
                return false;
            }
            j += 1;
        }
        i += 1;
    }
    true
}

fn check_in_consistent(input: &Grid, output: &Grid) -> (ok: bool)
    requires
        grid_wf(input),
        grid_wf(output),
        rows_of(grid_view(input)) == rows_of(grid_view(output)),
        cols_of(grid_view(input)) == cols_of(grid_view(output)),
    ensures
        ok == in_consistent(grid_view(input), grid_view(output)),
{
    let ghost a = grid_view(input);
    let ghost b = grid_view(output);
    let rows = input.len();
    let cols = if rows == 0 { 0 } else { input[0].len() };
    let mut i: usize = 0;
    while i < rows
        invariant
            0 <= i <= rows,
            grid_wf(input),
            grid_wf(output),
            a == grid_view(input),
            b == grid_view(output),
            rows == rows_of(a),
            cols == cols_of(a),
            rows == rows_of(b),
            cols == cols_of(b),
            forall|r: int, c: int| 0 <= r < i && 0 <= c < cols ==> #[trigger] a[r][c] == 0
                || a[r][c] == b[r][c],
        decreases rows - i,
    {
        let mut j: usize = 0;
        while j < cols
            invariant
                0 <= j <= cols,
                0 <= i < rows,
                grid_wf(input),
                grid_wf(output),
                a == grid_view(input),
                b == grid_view(output),
                rows == rows_of(a),
                cols == cols_of(a),
                rows == rows_of(b),
                cols == cols_of(b),
                forall|c: int| 0 <= c < j ==> #[trigger] a[i as int][c] == 0 || a[i as int][c]
                    == b[i as int][c],
            decreases cols - j,
        {
            let av = input[i][j];
            if av != 0 && av != output[i][j] {
                assert(!(a[i as int][j as int] == 0 || a[i as int][j as int] == b[i as int][
                    j as int]));
                assert(!in_consistent(a, b));
                return false;
            }
            j += 1;
        }
        i += 1;
    }
    true
}

fn check_has_damage(input: &Grid, output: &Grid) -> (ok: bool)
    requires
        grid_wf(input),
        grid_wf(output),
        rows_of(grid_view(input)) == rows_of(grid_view(output)),
        cols_of(grid_view(input)) == cols_of(grid_view(output)),
    ensures
        ok == has_damage(grid_view(input), grid_view(output)),
{
    let ghost a = grid_view(input);
    let ghost b = grid_view(output);
    let rows = input.len();
    let cols = if rows == 0 { 0 } else { input[0].len() };
    let mut i: usize = 0;
    while i < rows
        invariant
            0 <= i <= rows,
            grid_wf(input),
            grid_wf(output),
            a == grid_view(input),
            b == grid_view(output),
            rows == rows_of(a),
            cols == cols_of(a),
            rows == rows_of(b),
            cols == cols_of(b),
            forall|r: int, c: int| 0 <= r < i && 0 <= c < cols ==> !(#[trigger] a[r][c] == 0
                && b[r][c] != 0),
        decreases rows - i,
    {
        let mut j: usize = 0;
        while j < cols
            invariant
                0 <= j <= cols,
                0 <= i < rows,
                grid_wf(input),
                grid_wf(output),
                a == grid_view(input),
                b == grid_view(output),
                rows == rows_of(a),
                cols == cols_of(a),
                rows == rows_of(b),
                cols == cols_of(b),
                forall|c: int| 0 <= c < j ==> !(#[trigger] a[i as int][c] == 0 && b[i as int][c]
                    != 0),
            decreases cols - j,
        {
            if input[i][j] == 0 && output[i][j] != 0 {
                assert(a[i as int][j as int] == 0 && b[i as int][j as int] != 0);
                return true;
            }
            j += 1;
        }
        i += 1;
    }
    assert(!has_damage(a, b));
    false
}

/// A usable damaged-period hypothesis: a proper divisor period in
/// each direction, an exactly periodic output, an input equal to the
/// output outside clear holes, and at least one filled hole.
pub open spec fn damaged_period_ok(a: Seq<Seq<u8>>, b: Seq<Seq<u8>>, pr: int, pc: int) -> bool {
    &&& 1 <= pr <= rows_of(a) / 2
    &&& 1 <= pc <= cols_of(a) / 2
    &&& (rows_of(a) as int) % pr == 0
    &&& (cols_of(a) as int) % pc == 0
    &&& out_periodic(b, pr, pc)
    &&& in_consistent(a, b)
    &&& has_damage(a, b)
}

/// Finds a period such that the output is exactly periodic and the
/// input is the output with some clear holes; whenever shapes agree
/// and some period would do, a find is owed.
#[verifier::rlimit(100)]
#[verifier::spinoff_prover]
pub fn detect_damaged_period(input: &Grid, output: &Grid) -> (r: Option<(usize, usize)>)
    requires
        grid_wf(input),
        grid_wf(output),
    ensures
        match r {
            Some(p) => {
                &&& p.0 >= 1 && p.1 >= 1
                &&& p.0 <= rows_of(grid_view(input)) / 2
                &&& p.1 <= cols_of(grid_view(input)) / 2
                &&& (rows_of(grid_view(input)) as int) % (p.0 as int) == 0
                &&& (cols_of(grid_view(input)) as int) % (p.1 as int) == 0
                &&& rows_of(grid_view(input)) == rows_of(grid_view(output))
                &&& cols_of(grid_view(input)) == cols_of(grid_view(output))
                &&& out_periodic(grid_view(output), p.0 as int, p.1 as int)
                &&& in_consistent(grid_view(input), grid_view(output))
                &&& has_damage(grid_view(input), grid_view(output))
            },
            None => true,
        },
        rows_of(grid_view(input)) != rows_of(grid_view(output)) || cols_of(grid_view(input))
            != cols_of(grid_view(output)) ==> r is None,
        rows_of(grid_view(input)) == rows_of(grid_view(output)) && cols_of(grid_view(input))
            == cols_of(grid_view(output)) && (exists|pr: int, pc: int|
            #[trigger] damaged_period_ok(grid_view(input), grid_view(output), pr, pc)) ==> r
            is Some,
{
    let ghost a = grid_view(input);
    let ghost b = grid_view(output);
    let rows = input.len();
    if rows != output.len() || rows == 0 {
        proof {
            if rows_of(a) == rows_of(b) && exists|pr: int, pc: int|
                #[trigger] damaged_period_ok(a, b, pr, pc) {
                let (pr, pc) = choose|pr: int, pc: int| #[trigger] damaged_period_ok(a, b, pr, pc);
                assert(1 <= pr <= rows_of(a) / 2);
            }
        }
        return None;
    }
    let cols = input[0].len();
    if cols != output[0].len() {
        return None;
    }
    let mut pr: usize = 1;
    while pr <= rows / 2
        invariant
            1 <= pr <= rows / 2 + 1,
            grid_wf(input),
            grid_wf(output),
            a == grid_view(input),
            b == grid_view(output),
            rows == rows_of(a),
            cols == cols_of(a),
            rows == rows_of(b),
            cols == cols_of(b),
            rows > 0,
            forall|p2: int, q2: int| 1 <= p2 < pr ==> !#[trigger] damaged_period_ok(a, b, p2, q2),
        decreases rows / 2 + 1 - pr,
    {
        if rows % pr == 0 {
            let mut pc: usize = 1;
            while pc <= cols / 2
                invariant
                    1 <= pc <= cols / 2 + 1,
                    1 <= pr,
                    pr <= rows / 2,
                    (rows as int) % (pr as int) == 0,
                    grid_wf(input),
                    grid_wf(output),
                    a == grid_view(input),
                    b == grid_view(output),
                    rows == rows_of(a),
                    cols == cols_of(a),
                    rows == rows_of(b),
                    cols == cols_of(b),
                    forall|p2: int, q2: int|
                        1 <= p2 < pr ==> !#[trigger] damaged_period_ok(a, b, p2, q2),
                    forall|q2: int|
                        q2 < pc ==> !#[trigger] damaged_period_ok(a, b, pr as int, q2),
                decreases cols / 2 + 1 - pc,
            {
                if cols % pc == 0 {
                    let c1 = check_out_periodic(output, pr, pc);
                    let c2 = check_in_consistent(input, output);
                    let c3 = check_has_damage(input, output);
                    if c1 && c2 && c3 {
                        return Some((pr, pc));
                    }
                    proof {
                        assert(!c1 || !c2 || !c3);
                        assert(!damaged_period_ok(a, b, pr as int, pc as int));
                    }
                } else {
                    proof {
                        assert((cols_of(a) as int) % (pc as int) != 0);
                        assert(!damaged_period_ok(a, b, pr as int, pc as int));
                    }
                }
                pc += 1;
            }
            proof {
                assert forall|q2: int| !#[trigger] damaged_period_ok(a, b, pr as int, q2) by {
                    if q2 < pc {
                    } else {
                        assert(q2 > cols_of(a) / 2);
                    }
                }
            }
        } else {
            proof {
                assert forall|q2: int| !#[trigger] damaged_period_ok(a, b, pr as int, q2) by {
                    assert((rows_of(a) as int) % (pr as int) != 0);
                }
            }
        }
        pr += 1;
    }
    proof {
        if exists|pr2: int, pc2: int| #[trigger] damaged_period_ok(a, b, pr2, pc2) {
            let (pr2, pc2) = choose|pr2: int, pc2: int| #[trigger] damaged_period_ok(a, b, pr2, pc2);
            assert(1 <= pr2 <= rows_of(a) / 2 && pr2 < pr);
            assert(false);
        }
    }
    None
}

/// Votes for color `v` along one row, at columns `cc`, `cc + pc`, ...
pub open spec fn row_class_count(row: Seq<u8>, cc: int, pc: int, v: u8) -> nat
    decreases row.len() - cc,
{
    if cc < 0 || cc >= row.len() || pc < 1 {
        0
    } else if cc + pc > row.len() {
        if row[cc] == v {
            1
        } else {
            0
        }
    } else {
        (if row[cc] == v {
            1nat
        } else {
            0nat
        }) + row_class_count(row, cc + pc, pc, v)
    }
}

/// Votes for color `v` over the whole residue class: rows `rr`,
/// `rr + pr`, ... at columns `tc`, `tc + pc`, ...
pub open spec fn class_count(s: Seq<Seq<u8>>, rr: int, tc: int, pr: int, pc: int, v: u8) -> nat
    decreases s.len() - rr,
{
    if rr < 0 || rr >= s.len() || pr < 1 {
        0
    } else if rr + pr > s.len() {
        row_class_count(s[rr], tc, pc, v)
    } else {
        row_class_count(s[rr], tc, pc, v) + class_count(s, rr + pr, tc, pr, pc, v)
    }
}

/// `b` wins the vote of residue class `(tr, tc)`: clear when no
/// nonzero color got a vote; otherwise a voted color that no color
/// out-votes, ties going to the largest color.
pub open spec fn class_best(s: Seq<Seq<u8>>, tr: int, tc: int, pr: int, pc: int, b: u8) -> bool {
    if forall|v: u8| 1 <= v < 10 ==> #[trigger] class_count(s, tr, tc, pr, pc, v) == 0 {
        b == 0
    } else {
        &&& 1 <= b < 10
        &&& class_count(s, tr, tc, pr, pc, b) > 0
        &&& forall|v: u8|
            1 <= v < 10 ==> #[trigger] class_count(s, tr, tc, pr, pc, v) <= class_count(
                s,
                tr,
                tc,
                pr,
                pc,
                b,
            )
        &&& forall|v: u8|
            b < v < 10 ==> #[trigger] class_count(s, tr, tc, pr, pc, v) < class_count(
                s,
                tr,
                tc,
                pr,
                pc,
                b,
            )
    }
}

/// A class has one winner.
pub proof fn lemma_class_best_unique(
    s: Seq<Seq<u8>>,
    tr: int,
    tc: int,
    pr: int,
    pc: int,
    b1: u8,
    b2: u8,
)
    requires
        class_best(s, tr, tc, pr, pc, b1),
        class_best(s, tr, tc, pr, pc, b2),
    ensures
        b1 == b2,
{
    if !(forall|v: u8| 1 <= v < 10 ==> #[trigger] class_count(s, tr, tc, pr, pc, v) == 0) {
        if b1 < b2 {
            assert(class_count(s, tr, tc, pr, pc, b2) < class_count(s, tr, tc, pr, pc, b1));
            assert(class_count(s, tr, tc, pr, pc, b1) <= class_count(s, tr, tc, pr, pc, b2));
        }
        if b2 < b1 {
            assert(class_count(s, tr, tc, pr, pc, b1) < class_count(s, tr, tc, pr, pc, b2));
            assert(class_count(s, tr, tc, pr, pc, b2) <= class_count(s, tr, tc, pr, pc, b1));
        }
    }
}

/// One row casts no more votes than it has reachable cells.
proof fn lemma_row_class_count_le(row: Seq<u8>, cc: int, pc: int, v: u8)
    requires
        0 <= cc,
    ensures
        cc <= row.len() ==> row_class_count(row, cc, pc, v) <= row.len() - cc,
        cc > row.len() ==> row_class_count(row, cc, pc, v) == 0,
    decreases row.len() - cc,
{
    if cc < row.len() && pc >= 1 && cc + pc <= row.len() {
        lemma_row_class_count_le(row, cc + pc, pc, v);
    }
}

/// A class casts no more votes than the grid has cells.
proof fn lemma_class_count_le(s: Seq<Seq<u8>>, rr: int, tc: int, pr: int, pc: int, v: u8)
    requires
        0 <= rr,
        0 <= tc,
        forall|q: int| 0 <= q < s.len() ==> (#[trigger] s[q]).len() == cols_of(s),
    ensures
        rr <= s.len() ==> class_count(s, rr, tc, pr, pc, v) <= (s.len() - rr) * cols_of(s),
        rr > s.len() ==> class_count(s, rr, tc, pr, pc, v) == 0,
    decreases s.len() - rr,
{
    if rr < s.len() && pr >= 1 {
        lemma_row_class_count_le(s[rr], tc, pc, v);
        assert(row_class_count(s[rr], tc, pc, v) <= cols_of(s));
        if rr + pr <= s.len() {
            lemma_class_count_le(s, rr + pr, tc, pr, pc, v);
            assert((s.len() - rr) * cols_of(s) >= cols_of(s) + (s.len() - rr - pr) * cols_of(
                s,
            )) by (nonlinear_arith)
                requires
                    pr >= 1,
                    rr + pr <= s.len(),
                    cols_of(s) >= 0,
            ;
        } else {
            assert((s.len() - rr) * cols_of(s) >= cols_of(s)) by (nonlinear_arith)
                requires
                    rr < s.len(),
                    cols_of(s) >= 0,
            ;
        }
    }
}

/// The winning color of residue class `(tr, tc)`, by walking the
/// class and counting nonzero votes.
fn class_vote(grid: &Grid, tr: usize, tc: usize, pr: usize, pc: usize) -> (b: u8)
    requires
        grid_wf(grid),
        pr >= 1,
        pc >= 1,
    ensures
        class_best(grid_view(grid), tr as int, tc as int, pr as int, pc as int, b),
{
    let ghost s = grid_view(grid);
    let rows = grid.len();
    let cols = if rows == 0 { 0 } else { grid[0].len() };
    let mut counts: Vec<u64> = Vec::new();
    let mut v: usize = 0;
    while v < 10
        invariant
            0 <= v <= 10,
            counts@.len() == v,
            forall|k: int| 0 <= k < v ==> counts@[k] == 0,
        decreases 10 - v,
    {
        counts.push(0);
        v += 1;
    }
    proof {
        assert forall|k: u8| 1 <= k < 10 implies #[trigger] class_count(
            s,
            tr as int,
            tc as int,
            pr as int,
            pc as int,
            k,
        ) <= 0xFFFE_0001 by {
            lemma_class_count_le(s, tr as int, tc as int, pr as int, pc as int, k);
            if tr <= s.len() {
                assert((s.len() - tr) * cols_of(s) <= 65535 * 65535) by (nonlinear_arith)
                    requires
                        0 <= s.len() - tr <= 65535,
                        0 <= cols_of(s) <= 65535,
                ;
            }
        }
    }
    let mut rr: usize = tr;
    while rr < rows
        invariant
            tr <= rr,
            pr >= 1,
            pc >= 1,
            grid_wf(grid),
            s == grid_view(grid),
            rows == rows_of(s),
            cols == cols_of(s),
            counts@.len() == 10,
            forall|k: u8|
                1 <= k < 10 ==> #[trigger] counts@[k as int] + class_count(
                    s,
                    rr as int,
                    tc as int,
                    pr as int,
                    pc as int,
                    k,
                ) == class_count(s, tr as int, tc as int, pr as int, pc as int, k),
            forall|k: u8|
                1 <= k < 10 ==> #[trigger] class_count(
                    s,
                    tr as int,
                    tc as int,
                    pr as int,
                    pc as int,
                    k,
                ) <= 0xFFFE_0001,
        decreases rows - rr,
    {
        let ghost entry = counts@;
        proof {
            assert forall|k: u8| 1 <= k < 10 implies #[trigger] entry[k as int]
                + row_class_count(s[rr as int], tc as int, pc as int, k) <= 0xFFFE_0001 by {
                if rr as int + pr as int > s.len() {
                    assert(class_count(s, rr as int + pr as int, tc as int, pr as int, pc as int, k)
                        == 0);
                }
                assert(class_count(s, rr as int, tc as int, pr as int, pc as int, k)
                    == row_class_count(s[rr as int], tc as int, pc as int, k) + class_count(
                    s,
                    rr as int + pr as int,
                    tc as int,
                    pr as int,
                    pc as int,
                    k,
                ));
            }
        }
        let mut cc: usize = tc;
        while cc < cols
            invariant
                tc <= cc,
                pc >= 1,
                0 <= rr < rows,
                grid_wf(grid),
                s == grid_view(grid),
                rows == rows_of(s),
                cols == cols_of(s),
                counts@.len() == 10,
                forall|k: u8|
                    1 <= k < 10 ==> #[trigger] counts@[k as int] + row_class_count(
                        s[rr as int],
                        cc as int,
                        pc as int,
                        k,
                    ) == entry[k as int] + row_class_count(s[rr as int], tc as int, pc as int, k),
                forall|k: u8|
                    1 <= k < 10 ==> #[trigger] entry[k as int] + row_class_count(
                        s[rr as int],
                        tc as int,
                        pc as int,
                        k,
                    ) <= 0xFFFE_0001,
            decreases cols - cc,
        {
            let cv = grid[rr][cc];
            let ghost prec = counts@;
            if cv > 0 && cv < 10 {
                let cur = counts[cv as usize];
                proof {
                    assert(row_class_count(s[rr as int], cc as int, pc as int, cv) >= 1);
                }
                if cur < 0xFFFF_FFFF {
                    counts.set(cv as usize, cur + 1);
                }
            }
            proof {
                let ghost nxt = cc as int + pc as int;
                assert forall|k: u8| 1 <= k < 10 implies #[trigger] counts@[k as int]
                    + row_class_count(s[rr as int], nxt, pc as int, k) == entry[k as int]
                    + row_class_count(s[rr as int], tc as int, pc as int, k) by {
                    if nxt > cols {
                        assert(row_class_count(s[rr as int], nxt, pc as int, k) == 0);
                    }
                    assert(row_class_count(s[rr as int], cc as int, pc as int, k) == (if s[
                        rr as int][cc as int] == k {
                        1nat
                    } else {
                        0nat
                    }) + row_class_count(s[rr as int], nxt, pc as int, k));
                }
            }
            if pc < cols && cc < cols - pc {
                cc += pc;
            } else {
                proof {
                    let ghost nxt = cc as int + pc as int;
                    assert(nxt >= cols);
                    assert forall|k: u8| 1 <= k < 10 implies #[trigger] counts@[k as int]
                        + row_class_count(s[rr as int], cols as int, pc as int, k) == entry[
                        k as int] + row_class_count(s[rr as int], tc as int, pc as int, k) by {
                        assert(row_class_count(s[rr as int], nxt, pc as int, k) == 0);
                        assert(row_class_count(s[rr as int], cols as int, pc as int, k) == 0);
                    }
                }
                cc = cols;
            }
        }
        proof {
            if rr as int + pr as int > s.len() {
                assert(class_count(s, rr as int + pr as int, tc as int, pr as int, pc as int, 1u8)
                    == 0);
            }
            assert forall|k: u8| 1 <= k < 10 implies #[trigger] counts@[k as int] + class_count(
                s,
                rr as int + pr as int,
                tc as int,
                pr as int,
                pc as int,
                k,
            ) == class_count(s, tr as int, tc as int, pr as int, pc as int, k) by {
                assert(row_class_count(s[rr as int], cc as int, pc as int, k) == 0);
                if rr as int + pr as int > s.len() {
                    assert(class_count(s, rr as int + pr as int, tc as int, pr as int, pc as int, k)
                        == 0);
                }
                assert(class_count(s, rr as int, tc as int, pr as int, pc as int, k)
                    == row_class_count(s[rr as int], tc as int, pc as int, k) + class_count(
                    s,
                    rr as int + pr as int,
                    tc as int,
                    pr as int,
                    pc as int,
                    k,
                ));
            }
        }
        if pr < rows && rr < rows - pr {
            rr += pr;
        } else {
            proof {
                assert forall|k: u8| 1 <= k < 10 implies #[trigger] counts@[k as int]
                    + class_count(s, rows as int, tc as int, pr as int, pc as int, k)
                    == class_count(s, tr as int, tc as int, pr as int, pc as int, k) by {
                    assert(class_count(s, rr as int + pr as int, tc as int, pr as int, pc as int, k)
                        == 0);
                    assert(class_count(s, rows as int, tc as int, pr as int, pc as int, k) == 0);
                }
            }
            rr = rows;
        }
    }
    proof {
        assert forall|k: u8| 1 <= k < 10 implies #[trigger] counts@[k as int] == class_count(
            s,
            tr as int,
            tc as int,
            pr as int,
            pc as int,
            k,
        ) by {
            assert(class_count(s, rr as int, tc as int, pr as int, pc as int, k) == 0);
        }
    }
    let mut best: usize = 0;
    let mut bestc: u64 = 0;
    let mut v2: usize = 1;
    while v2 < 10
        invariant
            1 <= v2 <= 10,
            best < v2,
            counts@.len() == 10,
            forall|k: u8|
                1 <= k < 10 ==> #[trigger] counts@[k as int] == class_count(
                    s,
                    tr as int,
                    tc as int,
                    pr as int,
                    pc as int,
                    k,
                ),
            best == 0 ==> bestc == 0,
            best > 0 ==> bestc == counts@[best as int] && bestc > 0,
            bestc == 0 ==> forall|k: int| 1 <= k < v2 ==> #[trigger] counts@[k] == 0,
            forall|k: int| 1 <= k < v2 ==> #[trigger] counts@[k] <= bestc,
            bestc > 0 ==> forall|k: int|
                best < k < v2 ==> #[trigger] counts@[k] < bestc,
        decreases 10 - v2,
    {
        if counts[v2] >= bestc && counts[v2] > 0 {
            best = v2;
            bestc = counts[v2];
        }
        v2 += 1;
    }
    proof {
        if bestc == 0 {
            assert forall|vv: u8| 1 <= vv < 10 implies #[trigger] class_count(
                s,
                tr as int,
                tc as int,
                pr as int,
                pc as int,
                vv,
            ) == 0 by {
                assert(counts@[vv as int] == 0);
            }
            assert(best == 0);
        } else {
            assert(class_count(s, tr as int, tc as int, pr as int, pc as int, best as u8) > 0);
            assert forall|vv: u8| 1 <= vv < 10 implies #[trigger] class_count(
                s,
                tr as int,
                tc as int,
                pr as int,
                pc as int,
                vv,
            ) <= class_count(s, tr as int, tc as int, pr as int, pc as int, best as u8) by {
                assert(counts@[vv as int] <= bestc);
            }
            assert forall|vv: u8| (best as u8) < vv < 10 implies #[trigger] class_count(
                s,
                tr as int,
                tc as int,
                pr as int,
                pc as int,
                vv,
            ) < class_count(s, tr as int, tc as int, pr as int, pc as int, best as u8) by {
                assert(counts@[vv as int] < bestc);
            }
        }
        assert(class_best(s, tr as int, tc as int, pr as int, pc as int, best as u8));
    }
    best as u8
}

/// Rebuilds each period residue by majority vote over its positions
/// and tiles the result: the grid keeps its shape, every cell takes
/// its residue class's winning color, and the result is periodic.
pub fn repair_period(grid: &Grid, pr: usize, pc: usize) -> (r: Grid)
    requires
        grid_wf(grid),
    ensures
        rows_of(grid_view(&r)) == rows_of(grid_view(grid)),
        pr >= 1 && pc >= 1 && rows_of(grid_view(grid)) > 0 ==> cols_of(grid_view(&r)) == cols_of(
            grid_view(grid),
        ),
        pr >= 1 && pc >= 1 && rows_of(grid_view(grid)) > 0 ==> forall|a: int, b: int|
            0 <= a < rows_of(grid_view(grid)) && 0 <= b < cols_of(grid_view(grid))
                ==> class_best(
                grid_view(grid),
                a % (pr as int),
                b % (pc as int),
                pr as int,
                pc as int,
                #[trigger] grid_view(&r)[a][b],
            ),
        pr >= 1 && pc >= 1 && rows_of(grid_view(grid)) > 0 ==> out_periodic(
            grid_view(&r),
            pr as int,
            pc as int,
        ),
        pr == 0 || pc == 0 || rows_of(grid_view(grid)) == 0 ==> grid_view(&r) == grid_view(grid),
        grid_wf(&r),
{
    let ghost s = grid_view(grid);
    let rows = grid.len();
    let cols = if rows == 0 { 0 } else { grid[0].len() };
    if rows == 0 || pr == 0 || pc == 0 {
        let r = clone_grid(grid);
        return r;
    }
    let mut out: Grid = Vec::new();
    let mut i: usize = 0;
    while i < rows
        invariant
            0 <= i <= rows,
            grid_wf(grid),
            s == grid_view(grid),
            rows == rows_of(s),
            cols == cols_of(s),
            pr >= 1,
            pc >= 1,
            out@.len() == i,
            forall|q: int| 0 <= q < i ==> (#[trigger] out@[q])@.len() == cols,
            forall|a: int, b: int|
                0 <= a < i && 0 <= b < cols ==> class_best(
                    s,
                    a % (pr as int),
                    b % (pc as int),
                    pr as int,
                    pc as int,
                    #[trigger] out@[a]@[b],
                ),
        decreases rows - i,
    {
        let mut nr: Vec<u8> = Vec::new();
        let mut j: usize = 0;
        while j < cols
            invariant
                0 <= j <= cols,
                0 <= i < rows,
                grid_wf(grid),
                s == grid_view(grid),
                rows == rows_of(s),
                cols == cols_of(s),
                pr >= 1,
                pc >= 1,
                nr@.len() == j,
                forall|b: int|
                    0 <= b < j ==> class_best(
                        s,
                        (i as int) % (pr as int),
                        b % (pc as int),
                        pr as int,
                        pc as int,
                        #[trigger] nr@[b],
                    ),
            decreases cols - j,
        {
            let tr = i % pr;
            let tc = j % pc;
            let v = class_vote(grid, tr, tc, pr, pc);
            nr.push(v);
            j += 1;
        }
        out.push(nr);
        i += 1;
    }
    assert forall|q: int| 0 <= q < out@.len() implies (#[trigger] grid_view(&out)[q]).len()
        == cols by {
        assert(grid_view(&out)[q] == out@[q]@);
    }
    proof {
        assert forall|a: int, b: int| 0 <= a < rows && 0 <= b < cols implies class_best(
            s,
            a % (pr as int),
            b % (pc as int),
            pr as int,
            pc as int,
            #[trigger] grid_view(&out)[a][b],
        ) by {
            assert(grid_view(&out)[a][b] == out@[a]@[b]);
        }
        assert forall|a: int, b: int| 0 <= a < rows && 0 <= b < cols implies #[trigger] grid_view(
            &out,
        )[a][b] == grid_view(&out)[a % (pr as int)][b % (pc as int)] by {
            let ta = a % (pr as int);
            let tb = b % (pc as int);
            assert(0 <= ta < pr as int && 0 <= tb < pc as int);
            assert(ta <= a && tb <= b) by (nonlinear_arith)
                requires
                    ta == a % (pr as int),
                    tb == b % (pc as int),
                    0 <= a,
                    0 <= b,
                    pr >= 1,
                    pc >= 1,
            ;
            assert(ta % (pr as int) == ta && tb % (pc as int) == tb) by (nonlinear_arith)
                requires
                    0 <= ta < pr as int,
                    0 <= tb < pc as int,
            ;
            assert(class_best(s, ta, tb, pr as int, pc as int, grid_view(&out)[a][b]));
            assert(class_best(s, ta, tb, pr as int, pc as int, grid_view(&out)[ta][tb]));
            lemma_class_best_unique(
                s,
                ta,
                tb,
                pr as int,
                pc as int,
                grid_view(&out)[a][b],
                grid_view(&out)[ta][tb],
            );
        }
    }
    out
}

// --- the learned transform itself ---

/// A transform inferred from one example pair.
#[derive(Debug, Clone)]
pub enum SmartTransform {
    ColorMap(FxHashMap<u8, u8>),
    SelfTile,
    Tile(usize, usize),
    Subgrid(usize, usize, usize, usize),
    DedupRows,
    DedupCols,
    RepairPeriod(usize, usize),
}

impl SmartTransform {
    /// Applies the learned transform to a grid. Every variant is an
    /// exact function stated over the model.
    pub fn apply(&self, grid: &Grid) -> (r: Grid)
        requires
            grid_wf(grid),
        ensures
            grid_wf(&r),
            transform_applies(*self, grid_view(grid), grid_view(&r)),
            match *self {
                SmartTransform::ColorMap(m) => grid_view(&r) == color_map_apply_s(
                    m@,
                    grid_view(grid),
                ),
                SmartTransform::SelfTile => grid_view(&r) == tile_self_s(grid_view(grid)),
                SmartTransform::Tile(nr, nc) => grid_view(&r) == tile_grid_s(
                    grid_view(grid),
                    nr as int,
                    nc as int,
                ),
                SmartTransform::Subgrid(r0, c0, h, w) => grid_view(&r) == crop_s(
                    grid_view(grid),
                    r0 as int,
                    c0 as int,
                    h as int,
                    w as int,
                ),
                SmartTransform::DedupRows => grid_view(&r) == dedup_rows_s(
                    grid_view(grid),
                    rows_of(grid_view(grid)) as int,
                ),
                SmartTransform::DedupCols => grid_view(&r) == dedup_cols_s(grid_view(grid)),
                SmartTransform::RepairPeriod(pr, pc) => {
                    &&& rows_of(grid_view(&r)) == rows_of(grid_view(grid))
                    &&& pr >= 1 && pc >= 1 && rows_of(grid_view(grid)) > 0 ==> cols_of(
                        grid_view(&r),
                    ) == cols_of(grid_view(grid)) && (forall|a: int, b: int|
                        0 <= a < rows_of(grid_view(grid)) && 0 <= b < cols_of(grid_view(grid))
                            ==> class_best(
                            grid_view(grid),
                            a % (pr as int),
                            b % (pc as int),
                            pr as int,
                            pc as int,
                            #[trigger] grid_view(&r)[a][b],
                        )) && out_periodic(grid_view(&r), pr as int, pc as int)
                    &&& pr == 0 || pc == 0 || rows_of(grid_view(grid)) == 0 ==> grid_view(&r)
                        == grid_view(grid)
                },
            },
    {
        match self {
            SmartTransform::ColorMap(map) => apply_color_map(grid, map),
            SmartTransform::SelfTile => tile_with_self(grid),
            SmartTransform::Tile(nr, nc) => tile_grid(grid, *nr, *nc),
            SmartTransform::Subgrid(r0, c0, h, w) => extract_subgrid(grid, *r0, *c0, *h, *w),
            SmartTransform::DedupRows => {
                let r = dedup_rows(grid);
                proof {
                    lemma_dedup_rows_wf(grid_view(grid), rows_of(grid_view(grid)) as int);
                }
                r
            },
            SmartTransform::DedupCols => dedup_cols(grid),
            SmartTransform::RepairPeriod(pr, pc) => repair_period(grid, *pr, *pc),
        }
    }

    /// Short name of the variant.
    pub fn name(&self) -> (r: &'static str)
        ensures
            self is ColorMap ==> r@ == "color_map"@,
            self is SelfTile ==> r@ == "self_tile"@,
            self is Tile ==> r@ == "tile"@,
            self is Subgrid ==> r@ == "subgrid"@,
            self is DedupRows ==> r@ == "dedup_rows"@,
            self is DedupCols ==> r@ == "dedup_cols"@,
            self is RepairPeriod ==> r@ == "repair_period"@,
    {
        match self {
            SmartTransform::ColorMap(_) => "color_map",
            SmartTransform::SelfTile => "self_tile",
            SmartTransform::Tile(_, _) => "tile",
            SmartTransform::Subgrid(_, _, _, _) => "subgrid",
            SmartTransform::DedupRows => "dedup_rows",
            SmartTransform::DedupCols => "dedup_cols",
            SmartTransform::RepairPeriod(_, _) => "repair_period",
        }
    }
}

/// Deduplicated rows are rows of the input grid, so they stay well
/// formed.
proof fn lemma_dedup_rows_wf(s: Seq<Seq<u8>>, n: int)
    requires
        crate::grid::wf(s),
        0 <= n <= rows_of(s),
    ensures
        dedup_rows_s(s, n).len() <= n,
        forall|k: int| 0 <= k < dedup_rows_s(s, n).len() ==> (#[trigger] dedup_rows_s(s, n)[
            k]).len() == cols_of(s),
        crate::grid::wf(dedup_rows_s(s, n)),
    decreases n,
{
    if n > 0 {
        lemma_dedup_rows_wf(s, n - 1);
        let rest = dedup_rows_s(s, n - 1);
        let cur = dedup_rows_s(s, n);
        assert forall|k: int| 0 <= k < cur.len() implies (#[trigger] cur[k]).len() == cols_of(
            s,
        ) by {
            if k < rest.len() {
                assert(cur[k] == rest[k]);
            } else {
                assert(cur[k] == s[n - 1]);
            }
        }
    }
}

/// One map explains every example pair, with exactly the first
/// input's colors as its domain.
pub open spec fn cm_explains_all(m: Map<u8, u8>, examples: &Vec<(Grid, Grid)>) -> bool {
    &&& map_dom_exact(m, grid_view(&examples@[0].0))
    &&& forall|k: int|
        0 <= k < examples@.len() ==> map_explains(
            m,
            grid_view(&(#[trigger] examples@[k]).0),
            grid_view(&examples@[k].1),
        )
}

/// Some single color map explains every example pair.
pub open spec fn some_color_map_explains(examples: &Vec<(Grid, Grid)>) -> bool {
    examples@.len() > 0 && exists|m: Map<u8, u8>| #[trigger] cm_explains_all(m, examples)
}

/// A returned color-map transform carries a map that explains every
/// pair and has exactly the first input's colors as domain.
pub open spec fn smart_cm_ok(t: SmartTransform, examples: &Vec<(Grid, Grid)>) -> bool {
    t matches SmartTransform::ColorMap(m) ==> cm_explains_all(m@, examples)
}

/// The pair's output is exactly what applying the transform to its
/// input yields, stated over each variant's model.
pub open spec fn transform_applies(t: SmartTransform, a: Seq<Seq<u8>>, b: Seq<Seq<u8>>) -> bool {
    match t {
        SmartTransform::ColorMap(m) => b == color_map_apply_s(m@, a),
        SmartTransform::SelfTile => b == tile_self_s(a),
        SmartTransform::Tile(nr, nc) => b == tile_grid_s(a, nr as int, nc as int),
        SmartTransform::Subgrid(r0, c0, h, w) => b == crop_s(
            a,
            r0 as int,
            c0 as int,
            h as int,
            w as int,
        ),
        SmartTransform::DedupRows => b == dedup_rows_s(a, rows_of(a) as int),
        SmartTransform::DedupCols => b == dedup_cols_s(a),
        SmartTransform::RepairPeriod(pr, pc) => repaired_matches(a, b, pr as int, pc as int),
    }
}

/// A rectangular pair a map explains is exactly the map's image of
/// its input.
pub proof fn lemma_map_explains_applies(m: Map<u8, u8>, a: Seq<Seq<u8>>, b: Seq<Seq<u8>>)
    requires
        map_explains(m, a, b),
        crate::grid::rect(b),
    ensures
        b == color_map_apply_s(m, a),
{
    assert forall|r: int| 0 <= r < rows_of(b) implies (#[trigger] b[r]).len() == cols_of(a) by {}
    assert(b =~~= color_map_apply_s(m, a));
}

fn all_self_tile(examples: &Vec<(Grid, Grid)>) -> (ok: bool)
    requires
        crate::compression::exs_wf(examples),
    ensures
        ok == forall|q: int|
            0 <= q < examples@.len() ==> tile_self_s(grid_view(&(#[trigger] examples@[q]).0))
                == grid_view(&examples@[q].1),
{
    let mut k: usize = 0;
    while k < examples.len()
        invariant
            0 <= k <= examples.len(),
            crate::compression::exs_wf(examples),
            forall|q: int|
                0 <= q < k ==> tile_self_s(grid_view(&(#[trigger] examples@[q]).0)) == grid_view(
                    &examples@[q].1,
                ),
        decreases examples.len() - k,
    {
        if !detect_self_tiling(&examples[k].0, &examples[k].1) {
            assert(tile_self_s(grid_view(&examples@[k as int].0)) != grid_view(
                &examples@[k as int].1,
            ));
            return false;
        }
        k += 1;
    }
    true
}

fn all_tile(examples: &Vec<(Grid, Grid)>, nr: usize, nc: usize) -> (ok: bool)
    requires
        crate::compression::exs_wf(examples),
    ensures
        ok ==> forall|q: int|
            0 <= q < examples@.len() ==> tile_grid_s(
                grid_view(&(#[trigger] examples@[q]).0),
                nr as int,
                nc as int,
            ) == grid_view(&examples@[q].1),
{
    let mut k: usize = 0;
    while k < examples.len()
        invariant
            0 <= k <= examples.len(),
            crate::compression::exs_wf(examples),
            forall|q: int|
                0 <= q < k ==> tile_grid_s(
                    grid_view(&(#[trigger] examples@[q]).0),
                    nr as int,
                    nc as int,
                ) == grid_view(&examples@[q].1),
        decreases examples.len() - k,
    {
        let t = tile_grid(&examples[k].0, nr, nc);
        if !grid_eq(&t, &examples[k].1) {
            return false;
        }
        k += 1;
    }
    true
}

fn all_subgrid(examples: &Vec<(Grid, Grid)>, r0: usize, c0: usize, h: usize, w: usize) -> (ok:
    bool)
    requires
        crate::compression::exs_wf(examples),
    ensures
        ok ==> forall|q: int|
            0 <= q < examples@.len() ==> crop_s(
                grid_view(&(#[trigger] examples@[q]).0),
                r0 as int,
                c0 as int,
                h as int,
                w as int,
            ) == grid_view(&examples@[q].1),
{
    let mut k: usize = 0;
    while k < examples.len()
        invariant
            0 <= k <= examples.len(),
            crate::compression::exs_wf(examples),
            forall|q: int|
                0 <= q < k ==> crop_s(
                    grid_view(&(#[trigger] examples@[q]).0),
                    r0 as int,
                    c0 as int,
                    h as int,
                    w as int,
                ) == grid_view(&examples@[q].1),
        decreases examples.len() - k,
    {
        let sub = extract_subgrid(&examples[k].0, r0, c0, h, w);
        if !grid_eq(&sub, &examples[k].1) {
            return false;
        }
        k += 1;
    }
    true
}

fn all_dedup_rows(examples: &Vec<(Grid, Grid)>) -> (ok: bool)
    requires
        crate::compression::exs_wf(examples),
    ensures
        ok ==> forall|q: int|
            0 <= q < examples@.len() ==> dedup_rows_s(
                grid_view(&(#[trigger] examples@[q]).0),
                rows_of(grid_view(&examples@[q].0)) as int,
            ) == grid_view(&examples@[q].1),
{
    let mut k: usize = 0;
    while k < examples.len()
        invariant
            0 <= k <= examples.len(),
            crate::compression::exs_wf(examples),
            forall|q: int|
                0 <= q < k ==> dedup_rows_s(
                    grid_view(&(#[trigger] examples@[q]).0),
                    rows_of(grid_view(&examples@[q].0)) as int,
                ) == grid_view(&examples@[q].1),
        decreases examples.len() - k,
    {
        let d = dedup_rows(&examples[k].0);
        if !grid_eq(&d, &examples[k].1) {
            return false;
        }
        k += 1;
    }
    true
}

fn all_dedup_cols(examples: &Vec<(Grid, Grid)>) -> (ok: bool)
    requires
        crate::compression::exs_wf(examples),
    ensures
        ok ==> forall|q: int|
            0 <= q < examples@.len() ==> dedup_cols_s(grid_view(&(#[trigger] examples@[q]).0))
                == grid_view(&examples@[q].1),
{
    let mut k: usize = 0;
    while k < examples.len()
        invariant
            0 <= k <= examples.len(),
            crate::compression::exs_wf(examples),
            forall|q: int|
                0 <= q < k ==> dedup_cols_s(grid_view(&(#[trigger] examples@[q]).0)) == grid_view(
                    &examples@[q].1,
                ),
        decreases examples.len() - k,
    {
        let d = dedup_cols(&examples[k].0);
        if !grid_eq(&d, &examples[k].1) {
            return false;
        }
        k += 1;
    }
    true
}

/// The pair's output is exactly the period repair of its input:
/// same shape, each cell its residue class's winning color, and
/// periodic (a degenerate period leaves the input unchanged).
pub open spec fn repaired_matches(a: Seq<Seq<u8>>, b: Seq<Seq<u8>>, pr: int, pc: int) -> bool {
    &&& rows_of(b) == rows_of(a)
    &&& pr >= 1 && pc >= 1 && rows_of(a) > 0 ==> cols_of(b) == cols_of(a) && (forall|x: int, y: int|
        0 <= x < rows_of(a) && 0 <= y < cols_of(a) ==> class_best(
            a,
            x % pr,
            y % pc,
            pr,
            pc,
            #[trigger] b[x][y],
        )) && out_periodic(b, pr, pc)
    &&& (pr == 0 || pc == 0 || rows_of(a) == 0) ==> b == a
}

fn all_repair(examples: &Vec<(Grid, Grid)>, pr: usize, pc: usize) -> (ok: bool)
    requires
        crate::compression::exs_wf(examples),
    ensures
        ok ==> forall|k: int|
            0 <= k < examples@.len() ==> repaired_matches(
                grid_view(&(#[trigger] examples@[k]).0),
                grid_view(&examples@[k].1),
                pr as int,
                pc as int,
            ),
{
    let mut k: usize = 0;
    while k < examples.len()
        invariant
            0 <= k <= examples.len(),
            crate::compression::exs_wf(examples),
            forall|q: int|
                0 <= q < k ==> repaired_matches(
                    grid_view(&(#[trigger] examples@[q]).0),
                    grid_view(&examples@[q].1),
                    pr as int,
                    pc as int,
                ),
        decreases examples.len() - k,
    {
        let rep = repair_period(&examples[k].0, pr, pc);
        if !grid_eq(&rep, &examples[k].1) {
            return false;
        }
        proof {
            assert(grid_view(&rep) == grid_view(&examples@[k as int].1));
            assert(repaired_matches(
                grid_view(&examples@[k as int].0),
                grid_view(&examples@[k as int].1),
                pr as int,
                pc as int,
            ));
        }
        k += 1;
    }
    true
}

/// Tries each learned transform in a fixed order and returns the
/// first that reproduces every example pair. A returned transform
/// provably explains every pair; and whenever one color map explains
/// all pairs, the color-map stage is owed a find.
#[verifier::rlimit(100)]
#[verifier::spinoff_prover]
pub fn try_smart_transforms(examples: &Vec<(Grid, Grid)>) -> (r: Option<SmartTransform>)
    requires
        crate::compression::exs_wf(examples),
    ensures
        r matches Some(t) ==> (t matches SmartTransform::ColorMap(m) ==> forall|k: int|
            0 <= k < examples@.len() ==> map_explains(
                m@,
                grid_view(&(#[trigger] examples@[k]).0),
                grid_view(&examples@[k].1),
            )),
        r matches Some(tm) ==> (tm matches SmartTransform::ColorMap(mm) ==> map_dom_exact(
            mm@,
            grid_view(&examples@[0].0),
        )),
        r matches Some(t2) ==> (t2 is SelfTile ==> forall|k: int|
            0 <= k < examples@.len() ==> tile_self_s(grid_view(&(#[trigger] examples@[k]).0))
                == grid_view(&examples@[k].1)),
        r matches Some(t3) ==> (t3 matches SmartTransform::Tile(nr, nc) ==> forall|k: int|
            0 <= k < examples@.len() ==> tile_grid_s(
                grid_view(&(#[trigger] examples@[k]).0),
                nr as int,
                nc as int,
            ) == grid_view(&examples@[k].1)),
        r matches Some(t4) ==> (t4 matches SmartTransform::Subgrid(r0, c0, h, w) ==> forall|
            k: int,
        |
            0 <= k < examples@.len() ==> crop_s(
                grid_view(&(#[trigger] examples@[k]).0),
                r0 as int,
                c0 as int,
                h as int,
                w as int,
            ) == grid_view(&examples@[k].1)),
        r matches Some(t5) ==> (t5 is DedupRows ==> forall|k: int|
            0 <= k < examples@.len() ==> dedup_rows_s(
                grid_view(&(#[trigger] examples@[k]).0),
                rows_of(grid_view(&examples@[k].0)) as int,
            ) == grid_view(&examples@[k].1)),
        r matches Some(t6) ==> (t6 is DedupCols ==> forall|k: int|
            0 <= k < examples@.len() ==> dedup_cols_s(grid_view(&(#[trigger] examples@[k]).0))
                == grid_view(&examples@[k].1)),
        r matches Some(t7) ==> (t7 matches SmartTransform::RepairPeriod(pr, pc) ==> pr >= 1 && pc
            >= 1 && forall|k: int|
            0 <= k < examples@.len() ==> repaired_matches(
                grid_view(&(#[trigger] examples@[k]).0),
                grid_view(&examples@[k].1),
                pr as int,
                pc as int,
            )),
        some_color_map_explains(examples) ==> (r matches Some(tc) && tc is ColorMap),
        r matches Some(t8) ==> forall|k: int|
            0 <= k < examples@.len() ==> transform_applies(
                t8,
                grid_view(&(#[trigger] examples@[k]).0),
                grid_view(&examples@[k].1),
            ),
        examples@.len() > 0 && !some_color_map_explains(examples) && (forall|k: int|
            0 <= k < examples@.len() ==> tile_self_s(grid_view(&(#[trigger] examples@[k]).0))
                == grid_view(&examples@[k].1)) ==> (r matches Some(t9) && t9 is SelfTile),
{
    if examples.is_empty() {
        return None;
    }
    match learn_color_map(&examples[0].0, &examples[0].1) {
        Some(map) => {
            if verify_color_map(&map, examples) {
                proof {
                    assert(cm_explains_all(map@, examples));
                    assert(some_color_map_explains(examples));
                }
                return Some(SmartTransform::ColorMap(map));
            }
            proof {
                if some_color_map_explains(examples) {
                    let m = choose|m: Map<u8, u8>| #[trigger] cm_explains_all(m, examples);
                    assert(map_explains(m, grid_view(&examples@[0].0), grid_view(
                        &examples@[0].1,
                    )));
                    lemma_color_map_unique(
                        m,
                        map@,
                        grid_view(&examples@[0].0),
                        grid_view(&examples@[0].1),
                    );
                    assert(false);
                }
            }
        },
        None => {
            proof {
                if some_color_map_explains(examples) {
                    let m = choose|m: Map<u8, u8>| #[trigger] cm_explains_all(m, examples);
                    let a = grid_view(&examples@[0].0);
                    let b = grid_view(&examples@[0].1);
                    assert(map_explains(m, a, b));
                    assert forall|r1: int, c1: int, r2: int, c2: int|
                        0 <= r1 < rows_of(a) && 0 <= c1 < cols_of(a) && 0 <= r2 < rows_of(a) && 0
                            <= c2 < cols_of(a) && #[trigger] a[r1][c1] == #[trigger] a[r2][c2]
                         implies b[r1][c1] == b[r2][c2] by {
                        assert(m[a[r1][c1]] == b[r1][c1]);
                        assert(m[a[r2][c2]] == b[r2][c2]);
                    }
                    assert(pair_consistent(a, b));
                    assert(false);
                }
            }
        },
    }
    assert(!some_color_map_explains(examples));
    if detect_self_tiling(&examples[0].0, &examples[0].1) {
        if all_self_tile(examples) {
            return Some(SmartTransform::SelfTile);
        }
    }
    proof {
        if forall|k2: int|
            0 <= k2 < examples@.len() ==> tile_self_s(grid_view(&(#[trigger] examples@[k2]).0))
                == grid_view(&examples@[k2].1) {
            assert(tile_self_s(grid_view(&examples@[0].0)) == grid_view(&examples@[0].1));
            assert(false);
        }
    }
    if let Some(f) = detect_tiling(&examples[0].0, &examples[0].1) {
        let (nr, nc) = f;
        if all_tile(examples, nr, nc) {
            return Some(SmartTransform::Tile(nr, nc));
        }
    }
    if let Some(q4) = detect_subgrid(&examples[0].0, &examples[0].1) {
        let (r0, c0, h, w) = q4;
        if all_subgrid(examples, r0, c0, h, w) {
            return Some(SmartTransform::Subgrid(r0, c0, h, w));
        }
    }
    if all_dedup_rows(examples) {
        return Some(SmartTransform::DedupRows);
    }
    if all_dedup_cols(examples) {
        return Some(SmartTransform::DedupCols);
    }
    if let Some(p) = detect_damaged_period(&examples[0].0, &examples[0].1) {
        let (pr, pc) = p;
        if all_repair(examples, pr, pc) {
            return Some(SmartTransform::RepairPeriod(pr, pc));
        }
    }
    None
}

} // verus!
