//! Cellular-automaton rule learning: a per-cell signature (own color,
//! Moore-neighborhood color counts, border flag) is mapped to an
//! output color, learned from one pair and rejected on any conflict.
//! Candidate rules are checked executably against every pair; the
//! cascade's exact verifier has the final word on any candidate.

use vstd::prelude::*;
use rustc_hash::FxHashMap;
use crate::grid::{Grid, grid_view, grid_wf, rows_of, cols_of, grid_eq, GRID_MAX};
use crate::compression::exs_wf;

verus! {

broadcast use crate::grid::lemma_grid_row_len;

/// A cell and its eight neighbors, verbatim.
#[derive(Debug, Clone, Hash, PartialEq, Eq)]
pub struct CellContext {
    pub color: u8,
    pub neighbor_colors: [u8; 8],
    pub row_frac: u8,
    pub col_frac: u8,
}

/// The signature a rule is keyed by: own color, neighborhood color
/// histogram, border flag.
#[derive(Debug, Clone, Hash, PartialEq, Eq)]
pub struct NeighborSignature {
    pub center: u8,
    pub counts: [u8; 10],
    pub border: bool,
}

/// Relies on `FxHashMap::default`: a new rule table is empty.
#[verifier::external_body]
fn fx_rule_new() -> (m: FxHashMap<NeighborSignature, u8>)
    ensures
        m@ =~= Map::empty(),
{
    FxHashMap::default()
}

/// Relies on `HashMap::insert` with the deterministic Fx hasher and
/// the signature's derived (structural) `Eq` and `Hash`.
#[verifier::external_body]
fn fx_rule_insert(m: &mut FxHashMap<NeighborSignature, u8>, k: NeighborSignature, v: u8)
    ensures
        final(m)@ == old(m)@.insert(k, v),
{
    m.insert(k, v);
}

/// Relies on `HashMap::get` with the deterministic Fx hasher and the
/// signature's derived (structural) `Eq` and `Hash`.
#[verifier::external_body]
fn fx_rule_get(m: &FxHashMap<NeighborSignature, u8>, k: &NeighborSignature) -> (r: Option<u8>)
    ensures
        match r {
            Some(v) => m@.contains_key(*k) && v == m@[*k],
            None => !m@.contains_key(*k),
        },
{
    m.get(k).copied()
}

/// The color a cell reads from a neighbor position: the cell there,
/// or clear when the position falls off the grid.
pub open spec fn nbr_color_s(s: Seq<Seq<u8>>, r: int, c: int) -> u8 {
    if 0 <= r < rows_of(s) && 0 <= c < cols_of(s) {
        s[r][c]
    } else {
        0u8
    }
}

/// How many of the eight Moore neighbors of `(r, c)` hold color `v`.
pub open spec fn moore_count(s: Seq<Seq<u8>>, r: int, c: int, v: u8) -> int {
    (if nbr_color_s(s, r - 1, c - 1) == v {
        1int
    } else {
        0int
    }) + (if nbr_color_s(s, r - 1, c) == v {
        1int
    } else {
        0int
    }) + (if nbr_color_s(s, r - 1, c + 1) == v {
        1int
    } else {
        0int
    }) + (if nbr_color_s(s, r, c - 1) == v {
        1int
    } else {
        0int
    }) + (if nbr_color_s(s, r, c + 1) == v {
        1int
    } else {
        0int
    }) + (if nbr_color_s(s, r + 1, c - 1) == v {
        1int
    } else {
        0int
    }) + (if nbr_color_s(s, r + 1, c) == v {
        1int
    } else {
        0int
    }) + (if nbr_color_s(s, r + 1, c + 1) == v {
        1int
    } else {
        0int
    })
}

/// The cell lies on the grid's edge.
pub open spec fn on_edge(s: Seq<Seq<u8>>, r: int, c: int) -> bool {
    r == 0 || c == 0 || r == rows_of(s) - 1 || c == cols_of(s) - 1
}

/// The signature's fields are exactly those of cell `(r, c)`: its own
/// color, the Moore-neighborhood histogram, and the border flag.
pub open spec fn sig_fields(g: NeighborSignature, s: Seq<Seq<u8>>, r: int, c: int) -> bool {
    &&& g.center == s[r][c]
    &&& g.border == on_edge(s, r, c)
    &&& g.counts@.len() == 10
    &&& forall|v: int| 0 <= v < 10 ==> #[trigger] g.counts@[v] == moore_count(s, r, c, v as u8)
}

fn neighbor_at(grid: &Grid, r: i64, c: i64) -> (v: u8)
    requires
        grid_wf(grid),
        -2 * (GRID_MAX as i64) <= r <= 2 * (GRID_MAX as i64),
        -2 * (GRID_MAX as i64) <= c <= 2 * (GRID_MAX as i64),
    ensures
        v == nbr_color_s(grid_view(grid), r as int, c as int),
{
    let rows = grid.len();
    let cols = if rows == 0 { 0 } else { grid[0].len() };
    if r >= 0 && (r as usize) < rows && c >= 0 && (c as usize) < cols {
        grid[r as usize][c as usize]
    } else {
        0
    }
}

fn count_nbr(grid: &Grid, r: usize, c: usize, v: u8) -> (n: u8)
    requires
        grid_wf(grid),
        r < rows_of(grid_view(grid)),
        c < cols_of(grid_view(grid)),
    ensures
        n as int == moore_count(grid_view(grid), r as int, c as int, v),
        n <= 8,
{
    let ri = r as i64;
    let ci = c as i64;
    let mut n: u8 = 0;
    if neighbor_at(grid, ri - 1, ci - 1) == v {
        n += 1;
    }
    if neighbor_at(grid, ri - 1, ci) == v {
        n += 1;
    }
    if neighbor_at(grid, ri - 1, ci + 1) == v {
        n += 1;
    }
    if neighbor_at(grid, ri, ci - 1) == v {
        n += 1;
    }
    if neighbor_at(grid, ri, ci + 1) == v {
        n += 1;
    }
    if neighbor_at(grid, ri + 1, ci - 1) == v {
        n += 1;
    }
    if neighbor_at(grid, ri + 1, ci) == v {
        n += 1;
    }
    if neighbor_at(grid, ri + 1, ci + 1) == v {
        n += 1;
    }
    n
}

/// The eight Moore neighbors of a cell, clockwise from the top-left,
/// reading clear for positions off the grid.
pub fn moore_neighborhood(grid: &Grid, r: usize, c: usize) -> (nbrs: [u8; 8])
    requires
        grid_wf(grid),
        r < rows_of(grid_view(grid)),
        c < cols_of(grid_view(grid)),
    ensures
        nbrs@.len() == 8,
        nbrs@[0] == nbr_color_s(grid_view(grid), r as int - 1, c as int - 1),
        nbrs@[1] == nbr_color_s(grid_view(grid), r as int - 1, c as int),
        nbrs@[2] == nbr_color_s(grid_view(grid), r as int - 1, c as int + 1),
        nbrs@[3] == nbr_color_s(grid_view(grid), r as int, c as int - 1),
        nbrs@[4] == nbr_color_s(grid_view(grid), r as int, c as int + 1),
        nbrs@[5] == nbr_color_s(grid_view(grid), r as int + 1, c as int - 1),
        nbrs@[6] == nbr_color_s(grid_view(grid), r as int + 1, c as int),
        nbrs@[7] == nbr_color_s(grid_view(grid), r as int + 1, c as int + 1),
{
    let ri = r as i64;
    let ci = c as i64;
    [
        neighbor_at(grid, ri - 1, ci - 1),
        neighbor_at(grid, ri - 1, ci),
        neighbor_at(grid, ri - 1, ci + 1),
        neighbor_at(grid, ri, ci - 1),
        neighbor_at(grid, ri, ci + 1),
        neighbor_at(grid, ri + 1, ci - 1),
        neighbor_at(grid, ri + 1, ci),
        neighbor_at(grid, ri + 1, ci + 1),
    ]
}

/// The signature of one cell, with every field pinned by the model.
pub fn neighbor_signature(grid: &Grid, r: usize, c: usize) -> (sig: NeighborSignature)
    requires
        grid_wf(grid),
        r < rows_of(grid_view(grid)),
        c < cols_of(grid_view(grid)),
    ensures
        sig_fields(sig, grid_view(grid), r as int, c as int),
{
    let ghost s = grid_view(grid);
    let rows = grid.len();
    let cols = grid[0].len();
    let counts = [
        count_nbr(grid, r, c, 0),
        count_nbr(grid, r, c, 1),
        count_nbr(grid, r, c, 2),
        count_nbr(grid, r, c, 3),
        count_nbr(grid, r, c, 4),
        count_nbr(grid, r, c, 5),
        count_nbr(grid, r, c, 6),
        count_nbr(grid, r, c, 7),
        count_nbr(grid, r, c, 8),
        count_nbr(grid, r, c, 9),
    ];
    let border = r == 0 || c == 0 || r == rows - 1 || c == cols - 1;
    let sig = NeighborSignature { center: grid[r][c], counts, border };
    proof {
        assert forall|v: int| 0 <= v < 10 implies #[trigger] sig.counts@[v] == moore_count(
            s,
            r as int,
            c as int,
            v as u8,
        ) by {
        }
    }
    sig
}

/// The table maps this cell's signature to the matching output cell.
pub open spec fn cell_rule_ok(
    m: Map<NeighborSignature, u8>,
    a: Seq<Seq<u8>>,
    b: Seq<Seq<u8>>,
    r: int,
    c: int,
) -> bool {
    exists|g: NeighborSignature|
        #[trigger] sig_fields(g, a, r, c) && m.contains_key(g) && m[g] == b[r][c]
}

/// The table maps each cell's signature to the matching output cell.
pub open spec fn ca_rule_explains(
    m: Map<NeighborSignature, u8>,
    a: Seq<Seq<u8>>,
    b: Seq<Seq<u8>>,
) -> bool {
    &&& rows_of(a) == rows_of(b)
    &&& cols_of(a) == cols_of(b)
    &&& forall|r: int, c: int|
        0 <= r < rows_of(a) && 0 <= c < cols_of(a) ==> #[trigger] cell_rule_ok(m, a, b, r, c)
}

/// A cell has exactly one signature.
pub proof fn lemma_sig_fields_unique(
    g1: NeighborSignature,
    g2: NeighborSignature,
    s: Seq<Seq<u8>>,
    r: int,
    c: int,
)
    requires
        sig_fields(g1, s, r, c),
        sig_fields(g2, s, r, c),
    ensures
        g1 == g2,
{
    broadcast use vstd::array::axiom_array_ext_equal;

    assert(g1.counts =~= g2.counts);
}

/// Some table explains the pair.
pub open spec fn some_ca_rule_explains(a: Seq<Seq<u8>>, b: Seq<Seq<u8>>) -> bool {
    exists|m: Map<NeighborSignature, u8>| ca_rule_explains(m, a, b)
}

/// Every key of the table is some cell's signature, mapped to that
/// cell's output color.
pub open spec fn rule_justified(
    m: Map<NeighborSignature, u8>,
    a: Seq<Seq<u8>>,
    b: Seq<Seq<u8>>,
) -> bool {
    forall|g: NeighborSignature| #[trigger] m.contains_key(g) ==> exists|r: int, c: int|
        0 <= r < rows_of(a) && 0 <= c < cols_of(a) && #[trigger] sig_fields(g, a, r, c) && m[g]
            == b[r][c]
}

/// The table's keys are exactly the pair's cell signatures.
pub open spec fn rule_dom_exact(m: Map<NeighborSignature, u8>, a: Seq<Seq<u8>>) -> bool {
    forall|g: NeighborSignature| #[trigger] m.contains_key(g) <==> exists|r: int, c: int|
        0 <= r < rows_of(a) && 0 <= c < cols_of(a) && #[trigger] sig_fields(g, a, r, c)
}

/// The canonical table of a pair: it explains the pair and holds
/// exactly the pair's cell signatures.
pub open spec fn ca_rule_canonical(
    m: Map<NeighborSignature, u8>,
    a: Seq<Seq<u8>>,
    b: Seq<Seq<u8>>,
) -> bool {
    &&& ca_rule_explains(m, a, b)
    &&& rule_dom_exact(m, a)
}

/// A pair has at most one canonical table.
pub proof fn lemma_canonical_rule_unique(
    m1: Map<NeighborSignature, u8>,
    m2: Map<NeighborSignature, u8>,
    a: Seq<Seq<u8>>,
    b: Seq<Seq<u8>>,
)
    requires
        ca_rule_canonical(m1, a, b),
        ca_rule_canonical(m2, a, b),
    ensures
        m1 == m2,
{
    assert forall|g: NeighborSignature| #[trigger] m1.contains_key(g) implies m2.contains_key(g)
        && m1[g] == m2[g] by {
        let (r, c) = choose|r: int, c: int|
            0 <= r < rows_of(a) && 0 <= c < cols_of(a) && #[trigger] sig_fields(g, a, r, c);
        assert(cell_rule_ok(m1, a, b, r, c));
        let g1 = choose|g1: NeighborSignature|
            #[trigger] sig_fields(g1, a, r, c) && m1.contains_key(g1) && m1[g1] == b[r][c];
        lemma_sig_fields_unique(g1, g, a, r, c);
        assert(cell_rule_ok(m2, a, b, r, c));
        let g2 = choose|g2: NeighborSignature|
            #[trigger] sig_fields(g2, a, r, c) && m2.contains_key(g2) && m2[g2] == b[r][c];
        lemma_sig_fields_unique(g2, g, a, r, c);
    }
    assert forall|g: NeighborSignature| #[trigger] m2.contains_key(g) implies m1.contains_key(
        g,
    ) by {}
    assert(m1 =~~= m2);
}

/// Learns a signature-to-color table from one pair; `None` when the
/// shapes differ or one signature demands two colors. A learned
/// table is the pair's canonical table: it maps every cell's
/// signature to that cell's output color, holds no other keys, and
/// learning fails only when no table at all explains the pair.
pub fn learn_ca_rule(input: &Grid, output: &Grid) -> (r: Option<FxHashMap<NeighborSignature, u8>>)
    requires
        grid_wf(input),
        grid_wf(output),
    ensures
        r matches Some(m) ==> ca_rule_canonical(m@, grid_view(input), grid_view(output)),
        some_ca_rule_explains(grid_view(input), grid_view(output)) ==> r is Some,
{
    let ghost a = grid_view(input);
    let ghost b = grid_view(output);
    if input.len() != output.len() {
        proof {
            if some_ca_rule_explains(a, b) {
                let m = choose|m: Map<NeighborSignature, u8>| ca_rule_explains(m, a, b);
                assert(rows_of(a) == rows_of(b));
            }
        }
        return None;
    }
    if input.is_empty() {
        let empty = fx_rule_new();
        proof {
            assert(rule_dom_exact(empty@, a));
        }
        return Some(empty);
    }
    if input[0].len() != output[0].len() {
        proof {
            if some_ca_rule_explains(a, b) {
                let m = choose|m: Map<NeighborSignature, u8>| ca_rule_explains(m, a, b);
                assert(cols_of(a) == cols_of(b));
            }
        }
        return None;
    }
    let rows = input.len();
    let cols = input[0].len();
    let mut rule = fx_rule_new();
    let mut i: usize = 0;
    while i < rows
        invariant
            0 <= i <= rows,
            grid_wf(input),
            grid_wf(output),
            a == grid_view(input),
            b == grid_view(output),
            rows == rows_of(a),
            cols == cols_of(a),
            rows == rows_of(b),
            cols == cols_of(b),
            forall|r: int, c: int| 0 <= r < i && 0 <= c < cols ==> #[trigger] cell_rule_ok(
                rule@,
                a,
                b,
                r,
                c,
            ),
            rule_justified(rule@, a, b),
        decreases rows - i,
    {
        let mut j: usize = 0;
        while j < cols
            invariant
                0 <= j <= cols,
                0 <= i < rows,
                grid_wf(input),
                grid_wf(output),
                a == grid_view(input),
                b == grid_view(output),
                rows == rows_of(a),
                cols == cols_of(a),
                rows == rows_of(b),
                cols == cols_of(b),
                forall|r: int, c: int| 0 <= r < i && 0 <= c < cols ==> #[trigger] cell_rule_ok(
                    rule@,
                    a,
                    b,
                    r,
                    c,
                ),
                forall|c: int| 0 <= c < j ==> #[trigger] cell_rule_ok(rule@, a, b, i as int, c),
                rule_justified(rule@, a, b),
            decreases cols - j,
        {
            let sig = neighbor_signature(input, i, j);
            let out_color = output[i][j];
            match fx_rule_get(&rule, &sig) {
                Some(existing) => {
                    if existing != out_color {
                        proof {
                            if some_ca_rule_explains(a, b) {
                                let m = choose|m: Map<NeighborSignature, u8>|
                                    ca_rule_explains(m, a, b);
                                assert(rule@.contains_key(sig) && rule@[sig] == existing);
                                let (r1, c1) = choose|r1: int, c1: int|
                                    0 <= r1 < rows_of(a) && 0 <= c1 < cols_of(a)
                                        && #[trigger] sig_fields(sig, a, r1, c1) && rule@[sig]
                                        == b[r1][c1];
                                assert(cell_rule_ok(m, a, b, r1, c1));
                                let g1 = choose|g: NeighborSignature|
                                    #[trigger] sig_fields(g, a, r1, c1) && m.contains_key(g)
                                        && m[g] == b[r1][c1];
                                lemma_sig_fields_unique(g1, sig, a, r1, c1);
                                assert(m[sig] == existing);
                                assert(cell_rule_ok(m, a, b, i as int, j as int));
                                let g2 = choose|g: NeighborSignature|
                                    #[trigger] sig_fields(g, a, i as int, j as int)
                                        && m.contains_key(g) && m[g] == b[i as int][j as int];
                                lemma_sig_fields_unique(g2, sig, a, i as int, j as int);
                                assert(m[sig] == out_color);
                                assert(false);
                            }
                        }
                        return None;
                    }
                    assert(cell_rule_ok(rule@, a, b, i as int, j as int)) by {
                        assert(sig_fields(sig, a, i as int, j as int) && rule@.contains_key(sig)
                            && rule@[sig] == b[i as int][j as int]);
                    }
                },
                None => {
                    let ghost before = rule@;
                    fx_rule_insert(&mut rule, sig, out_color);
                    proof {
                        assert(cell_rule_ok(rule@, a, b, i as int, j as int)) by {
                            assert(sig_fields(sig, a, i as int, j as int) && rule@.contains_key(
                                sig,
                            ) && rule@[sig] == b[i as int][j as int]);
                        }
                        assert forall|r: int, c: int| 0 <= r < i && 0 <= c < cols implies
                            #[trigger] cell_rule_ok(rule@, a, b, r, c) by {
                            assert(cell_rule_ok(before, a, b, r, c));
                            let g0 = choose|g: NeighborSignature|
                                #[trigger] sig_fields(g, a, r, c) && before.contains_key(g)
                                    && before[g] == b[r][c];
                            assert(rule@.contains_key(g0) && rule@[g0] == b[r][c]);
                            assert(sig_fields(g0, a, r, c) && rule@.contains_key(g0) && rule@[g0]
                                == b[r][c]);
                        }
                        assert forall|c: int| 0 <= c < j implies #[trigger] cell_rule_ok(
                            rule@,
                            a,
                            b,
                            i as int,
                            c,
                        ) by {
                            assert(cell_rule_ok(before, a, b, i as int, c));
                            let g0 = choose|g: NeighborSignature|
                                #[trigger] sig_fields(g, a, i as int, c) && before.contains_key(g)
                                    && before[g] == b[i as int][c];
                            assert(rule@.contains_key(g0) && rule@[g0] == b[i as int][c]);
                            assert(sig_fields(g0, a, i as int, c) && rule@.contains_key(g0)
                                && rule@[g0] == b[i as int][c]);
                        }
                        assert forall|g: NeighborSignature| #[trigger] rule@.contains_key(g)
                            implies exists|r: int, c: int|
                            0 <= r < rows_of(a) && 0 <= c < cols_of(a) && #[trigger] sig_fields(
                                g,
                                a,
                                r,
                                c,
                            ) && rule@[g] == b[r][c] by {
                            if g == sig {
                                assert(sig_fields(sig, a, i as int, j as int) && rule@[sig] == b[
                                    i as int][j as int]);
                            } else {
                                assert(before.contains_key(g) && rule@[g] == before[g]);
                                let (r0, c0) = choose|r0: int, c0: int|
                                    0 <= r0 < rows_of(a) && 0 <= c0 < cols_of(a)
                                        && #[trigger] sig_fields(g, a, r0, c0) && before[g] == b[
                                        r0][c0];
                                assert(sig_fields(g, a, r0, c0) && rule@[g] == b[r0][c0]);
                            }
                        }
                    }
                },
            }
            j += 1;
        }
        i += 1;
    }
    proof {
        assert forall|g: NeighborSignature| (exists|r2: int, c2: int|
            0 <= r2 < rows_of(a) && 0 <= c2 < cols_of(a) && #[trigger] sig_fields(
                g,
                a,
                r2,
                c2,
            )) implies rule@.contains_key(g) by {
            let (r2, c2) = choose|r2: int, c2: int|
                0 <= r2 < rows_of(a) && 0 <= c2 < cols_of(a) && #[trigger] sig_fields(
                    g,
                    a,
                    r2,
                    c2,
                );
            assert(cell_rule_ok(rule@, a, b, r2, c2));
            let g0 = choose|g0: NeighborSignature|
                #[trigger] sig_fields(g0, a, r2, c2) && rule@.contains_key(g0) && rule@[g0] == b[
                    r2][c2];
            lemma_sig_fields_unique(g0, g, a, r2, c2);
        }
        assert forall|g: NeighborSignature| #[trigger] rule@.contains_key(g) implies exists|
            r2: int,
            c2: int,
        |
            0 <= r2 < rows_of(a) && 0 <= c2 < cols_of(a) && #[trigger] sig_fields(
                g,
                a,
                r2,
                c2,
            ) by {
            let (r2, c2) = choose|r2: int, c2: int|
                0 <= r2 < rows_of(a) && 0 <= c2 < cols_of(a) && #[trigger] sig_fields(g, a, r2, c2)
                    && rule@[g] == b[r2][c2];
            assert(sig_fields(g, a, r2, c2));
        }
        assert(rule_dom_exact(rule@, a));
    }
    Some(rule)
}

/// The cell value is what one table lookup of the cell's signature
/// gives: the table's color when the signature has an entry, the
/// cell's own color otherwise.
pub open spec fn cell_lookup_ok(
    m: Map<NeighborSignature, u8>,
    a: Seq<Seq<u8>>,
    val: u8,
    r: int,
    c: int,
) -> bool {
    exists|g: NeighborSignature|
        #[trigger] sig_fields(g, a, r, c) && ((m.contains_key(g) && val == m[g]) || (
        !m.contains_key(g) && val == a[r][c]))
}

/// One rule application: each cell looks its signature up, keeping
/// its color when the table has no entry; the grid keeps its shape
/// and every cell holds exactly its lookup's result.
pub fn apply_ca_rule(grid: &Grid, rule: &FxHashMap<NeighborSignature, u8>) -> (r: Grid)
    requires
        grid_wf(grid),
    ensures
        grid_wf(&r),
        rows_of(grid_view(&r)) == rows_of(grid_view(grid)),
        rows_of(grid_view(grid)) > 0 ==> cols_of(grid_view(&r)) == cols_of(grid_view(grid)),
        forall|r2: int, c2: int|
            0 <= r2 < rows_of(grid_view(grid)) && 0 <= c2 < cols_of(grid_view(grid))
                ==> #[trigger] cell_lookup_ok(
                rule@,
                grid_view(grid),
                grid_view(&r)[r2][c2],
                r2,
                c2,
            ),
{
    let ghost s = grid_view(grid);
    let rows = grid.len();
    let cols = if rows == 0 { 0 } else { grid[0].len() };
    let mut out: Grid = Vec::new();
    let mut i: usize = 0;
    while i < rows
        invariant
            0 <= i <= rows,
            grid_wf(grid),
            s == grid_view(grid),
            rows == rows_of(s),
            cols == cols_of(s),
            out@.len() == i,
            forall|k: int| 0 <= k < i ==> (#[trigger] out@[k])@.len() == cols,
            forall|r2: int, c2: int|
                0 <= r2 < i && 0 <= c2 < cols ==> #[trigger] cell_lookup_ok(
                    rule@,
                    s,
                    out@[r2]@[c2],
                    r2,
                    c2,
                ),
        decreases rows - i,
    {
        let mut nr: Vec<u8> = Vec::new();
        let mut j: usize = 0;
        while j < cols
            invariant
                0 <= j <= cols,
                0 <= i < rows,
                grid_wf(grid),
                s == grid_view(grid),
                rows == rows_of(s),
                cols == cols_of(s),
                nr@.len() == j,
                forall|c2: int| 0 <= c2 < j ==> #[trigger] cell_lookup_ok(
                    rule@,
                    s,
                    nr@[c2],
                    i as int,
                    c2,
                ),
            decreases cols - j,
        {
            let sig = neighbor_signature(grid, i, j);
            let v = match fx_rule_get(rule, &sig) {
                Some(w) => w,
                None => grid[i][j],
            };
            assert(cell_lookup_ok(rule@, s, v, i as int, j as int)) by {
                assert(sig_fields(sig, s, i as int, j as int) && ((rule@.contains_key(sig) && v
                    == rule@[sig]) || (!rule@.contains_key(sig) && v == s[i as int][j as int])));
            }
            nr.push(v);
            j += 1;
        }
        out.push(nr);
        i += 1;
    }
    proof {
        assert forall|q: int| 0 <= q < out@.len() implies (#[trigger] grid_view(&out)[q]).len()
            == cols by {
            assert(grid_view(&out)[q] == out@[q]@);
        }
        assert forall|r2: int, c2: int| 0 <= r2 < rows && 0 <= c2 < cols implies
            #[trigger] cell_lookup_ok(rule@, s, grid_view(&out)[r2][c2], r2, c2) by {
            assert(grid_view(&out)[r2] == out@[r2]@);
        }
    }
    out
}

/// One application of the table reproduces the pair: shapes agree
/// and every output cell is its input cell's lookup.
pub open spec fn ca_one_step_matches(
    m: Map<NeighborSignature, u8>,
    a: Seq<Seq<u8>>,
    b: Seq<Seq<u8>>,
) -> bool {
    &&& rows_of(a) == rows_of(b)
    &&& cols_of(a) == cols_of(b)
    &&& crate::grid::rect(b)
    &&& forall|r: int, c: int|
        0 <= r < rows_of(a) && 0 <= c < cols_of(a) ==> #[trigger] cell_lookup_ok(
            m,
            a,
            b[r][c],
            r,
            c,
        )
}

/// A cell's lookup has exactly one result.
pub proof fn lemma_cell_lookup_unique(
    m: Map<NeighborSignature, u8>,
    a: Seq<Seq<u8>>,
    v1: u8,
    v2: u8,
    r: int,
    c: int,
)
    requires
        cell_lookup_ok(m, a, v1, r, c),
        cell_lookup_ok(m, a, v2, r, c),
    ensures
        v1 == v2,
{
    let g1 = choose|g: NeighborSignature|
        #[trigger] sig_fields(g, a, r, c) && ((m.contains_key(g) && v1 == m[g]) || (
        !m.contains_key(g) && v1 == a[r][c]));
    let g2 = choose|g: NeighborSignature|
        #[trigger] sig_fields(g, a, r, c) && ((m.contains_key(g) && v2 == m[g]) || (
        !m.contains_key(g) && v2 == a[r][c]));
    lemma_sig_fields_unique(g1, g2, a, r, c);
}

/// One application has exactly one result: the step relation pins
/// the next grid completely.
pub proof fn lemma_one_step_unique(
    m: Map<NeighborSignature, u8>,
    a: Seq<Seq<u8>>,
    b1: Seq<Seq<u8>>,
    b2: Seq<Seq<u8>>,
)
    requires
        ca_one_step_matches(m, a, b1),
        ca_one_step_matches(m, a, b2),
    ensures
        b1 == b2,
{
    assert forall|r: int| 0 <= r < b1.len() implies #[trigger] b1[r] =~= b2[r] by {
        assert(b1[r].len() == cols_of(b1) && b2[r].len() == cols_of(b2));
        assert forall|c: int| 0 <= c < b1[r].len() implies #[trigger] b1[r][c] == b2[r][c] by {
            lemma_cell_lookup_unique(m, a, b1[r][c], b2[r][c], r, c);
        }
    }
    assert(b1 =~~= b2);
}

/// Exactly one grid is reached in `k` steps: the iterate itself.
pub proof fn lemma_reaches_unique(
    m: Map<NeighborSignature, u8>,
    a: Seq<Seq<u8>>,
    b1: Seq<Seq<u8>>,
    b2: Seq<Seq<u8>>,
    k: nat,
)
    requires
        ca_steps_reaches(m, a, b1, k),
        ca_steps_reaches(m, a, b2, k),
    ensures
        b1 == b2,
    decreases k,
{
    if k > 0 {
        let mid1 = choose|mid: Seq<Seq<u8>>|
            ca_steps_reaches(m, a, mid, (k - 1) as nat) && #[trigger] ca_one_step_matches(
                m,
                mid,
                b1,
            );
        let mid2 = choose|mid: Seq<Seq<u8>>|
            ca_steps_reaches(m, a, mid, (k - 1) as nat) && #[trigger] ca_one_step_matches(
                m,
                mid,
                b2,
            );
        lemma_reaches_unique(m, a, mid1, mid2, (k - 1) as nat);
        lemma_one_step_unique(m, mid1, b1, b2);
    }
}

/// Whether one rule application reproduces every pair: exactly when
/// every pair's output is its input's cell-wise lookup.
pub fn verify_ca_rule(rule: &FxHashMap<NeighborSignature, u8>, examples: &Vec<(Grid, Grid)>)
    -> (r: bool)
    requires
        exs_wf(examples),
    ensures
        r == forall|k: int|
            0 <= k < examples@.len() ==> ca_one_step_matches(
                rule@,
                grid_view(&(#[trigger] examples@[k]).0),
                grid_view(&examples@[k].1),
            ),
{
    let mut k: usize = 0;
    while k < examples.len()
        invariant
            0 <= k <= examples.len(),
            exs_wf(examples),
            forall|q: int|
                0 <= q < k ==> ca_one_step_matches(
                    rule@,
                    grid_view(&(#[trigger] examples@[q]).0),
                    grid_view(&examples@[q].1),
                ),
        decreases examples.len() - k,
    {
        let applied = apply_ca_rule(&examples[k].0, rule);
        if !grid_eq(&applied, &examples[k].1) {
            proof {
                let av = grid_view(&examples@[k as int].0);
                let bv = grid_view(&examples@[k as int].1);
                if rows_of(av) == 0 {
                    assert(cols_of(grid_view(&applied)) == 0 && cols_of(av) == 0);
                }
                assert(ca_one_step_matches(rule@, av, grid_view(&applied)));
                if ca_one_step_matches(rule@, av, bv) {
                    lemma_one_step_unique(rule@, av, grid_view(&applied), bv);
                }
                assert(!ca_one_step_matches(rule@, av, bv));
            }
            return false;
        }
        assert(ca_one_step_matches(rule@, grid_view(&examples@[k as int].0), grid_view(
            &examples@[k as int].1,
        ))) by {
            let a = grid_view(&examples@[k as int].0);
            let b = grid_view(&examples@[k as int].1);
            assert(grid_view(&applied) == b);
            assert forall|r2: int, c2: int| 0 <= r2 < rows_of(a) && 0 <= c2 < cols_of(a) implies
                #[trigger] cell_lookup_ok(rule@, a, b[r2][c2], r2, c2) by {
                assert(cell_lookup_ok(rule@, a, grid_view(&applied)[r2][c2], r2, c2));
            }
        }
        k += 1;
    }
    true
}

/// `b` is `a` taken through exactly `k` applications of the table.
pub open spec fn ca_steps_reaches(
    m: Map<NeighborSignature, u8>,
    a: Seq<Seq<u8>>,
    b: Seq<Seq<u8>>,
    k: nat,
) -> bool
    decreases k,
{
    if k == 0 {
        b == a
    } else {
        exists|mid: Seq<Seq<u8>>|
            ca_steps_reaches(m, a, mid, (k - 1) as nat) && #[trigger] ca_one_step_matches(
                m,
                mid,
                b,
            )
    }
}

/// A grid the table maps to itself is reached at every later step.
pub proof fn lemma_reaches_fixpoint(
    m: Map<NeighborSignature, u8>,
    a: Seq<Seq<u8>>,
    cur: Seq<Seq<u8>>,
    n: nat,
    k: nat,
)
    requires
        ca_steps_reaches(m, a, cur, n),
        ca_one_step_matches(m, cur, cur),
        n <= k,
    ensures
        ca_steps_reaches(m, a, cur, k),
    decreases k - n,
{
    if k > n {
        lemma_reaches_fixpoint(m, a, cur, n, (k - 1) as nat);
        assert(ca_steps_reaches(m, a, cur, (k - 1) as nat) && ca_one_step_matches(m, cur, cur));
    }
}

/// Iterates the rule up to `steps` times, stopping at a fixpoint; a
/// zero-step cap returns the grid unchanged, and the result is the
/// grid taken through exactly `steps` applications.
pub fn apply_ca_steps(grid: &Grid, rule: &FxHashMap<NeighborSignature, u8>, steps: usize) -> (r:
    Grid)
    requires
        grid_wf(grid),
    ensures
        grid_wf(&r),
        steps == 0 ==> grid_view(&r) == grid_view(grid),
        ca_steps_reaches(rule@, grid_view(grid), grid_view(&r), steps as nat),
{
    let ghost a = grid_view(grid);
    let mut current = crate::prims_basic::clone_grid(grid);
    let mut n: usize = 0;
    while n < steps
        invariant
            0 <= n <= steps,
            grid_wf(&current),
            steps == 0 ==> grid_view(&current) == grid_view(grid),
            a == grid_view(grid),
            ca_steps_reaches(rule@, a, grid_view(&current), n as nat),
        decreases steps - n,
    {
        let next = apply_ca_rule(&current, rule);
        proof {
            if rows_of(grid_view(&current)) == 0 {
                assert(cols_of(grid_view(&next)) == 0 && cols_of(grid_view(&current)) == 0);
            }
            assert(ca_one_step_matches(rule@, grid_view(&current), grid_view(&next)));
        }
        if grid_eq(&next, &current) {
            proof {
                assert(grid_view(&next) == grid_view(&current));
                assert(ca_one_step_matches(rule@, grid_view(&current), grid_view(&current)));
                lemma_reaches_fixpoint(rule@, a, grid_view(&current), n as nat, steps as nat);
            }
            return current;
        }
        proof {
            assert(ca_steps_reaches(rule@, a, grid_view(&current), n as nat)
                && ca_one_step_matches(rule@, grid_view(&current), grid_view(&next)));
            assert(ca_steps_reaches(rule@, a, grid_view(&next), (n + 1) as nat));
        }
        current = next;
        n += 1;
    }
    current
}

/// A learned rule together with its step count.
pub struct CaSolution {
    pub rule: FxHashMap<NeighborSignature, u8>,
    pub steps: usize,
}

impl CaSolution {
    /// Applies the learned rule for the learned number of steps: the
    /// result is the grid taken through exactly that many lookups.
    pub fn apply(&self, grid: &Grid) -> (r: Grid)
        requires
            grid_wf(grid),
        ensures
            grid_wf(&r),
            ca_steps_reaches(self.rule@, grid_view(grid), grid_view(&r), self.steps as nat),
    {
        apply_ca_steps(grid, &self.rule, self.steps)
    }
}

/// The first pair's canonical table reproduces every pair in one
/// application.
pub open spec fn one_step_rule_solves(examples: &Vec<(Grid, Grid)>) -> bool {
    examples@.len() > 0 && exists|m: Map<NeighborSignature, u8>|
        #[trigger] ca_rule_canonical(m, grid_view(&examples@[0].0), grid_view(&examples@[0].1))
            && forall|k: int|
            0 <= k < examples@.len() ==> ca_one_step_matches(
                m,
                grid_view(&(#[trigger] examples@[k]).0),
                grid_view(&examples@[k].1),
            )
}

/// Learns a rule from the first pair and accepts the lowest step
/// count (up to the cap) at which it reproduces every pair: the
/// accepted rule takes every pair's input to its output in exactly
/// the accepted number of steps, and a one-step solution by the
/// canonical table is owed a find.
pub fn try_ca_solve(examples: &Vec<(Grid, Grid)>, max_steps: usize) -> (r: Option<CaSolution>)
    requires
        exs_wf(examples),
    ensures
        r matches Some(sol) ==> sol.steps >= 1,
        r matches Some(sol4) ==> (max_steps >= 1 ==> sol4.steps <= max_steps),
        examples@.len() == 0 ==> r is None,
        one_step_rule_solves(examples) ==> (r matches Some(sol5) && sol5.steps == 1),
        r matches Some(sol2) ==> (sol2.steps == 1 ==> forall|k: int|
            0 <= k < examples@.len() ==> ca_one_step_matches(
                sol2.rule@,
                grid_view(&(#[trigger] examples@[k]).0),
                grid_view(&examples@[k].1),
            )),
        r matches Some(sol3) ==> forall|k: int|
            0 <= k < examples@.len() ==> ca_steps_reaches(
                sol3.rule@,
                grid_view(&(#[trigger] examples@[k]).0),
                grid_view(&examples@[k].1),
                sol3.steps as nat,
            ),
{
    if examples.is_empty() {
        return None;
    }
    match learn_ca_rule(&examples[0].0, &examples[0].1) {
        Some(rule) => {
            if verify_ca_rule(&rule, examples) {
                proof {
                    assert forall|k: int| 0 <= k < examples@.len() implies ca_steps_reaches(
                        rule@,
                        grid_view(&(#[trigger] examples@[k]).0),
                        grid_view(&examples@[k].1),
                        1nat,
                    ) by {
                        let av = grid_view(&examples@[k].0);
                        let bv = grid_view(&examples@[k].1);
                        assert(ca_steps_reaches(rule@, av, av, 0nat) && ca_one_step_matches(
                            rule@,
                            av,
                            bv,
                        ));
                    }
                }
                return Some(CaSolution { rule, steps: 1 });
            }
            proof {
                if one_step_rule_solves(examples) {
                    let m = choose|m: Map<NeighborSignature, u8>|
                        #[trigger] ca_rule_canonical(
                            m,
                            grid_view(&examples@[0].0),
                            grid_view(&examples@[0].1),
                        ) && forall|k: int|
                            0 <= k < examples@.len() ==> ca_one_step_matches(
                                m,
                                grid_view(&(#[trigger] examples@[k]).0),
                                grid_view(&examples@[k].1),
                            );
                    lemma_canonical_rule_unique(
                        m,
                        rule@,
                        grid_view(&examples@[0].0),
                        grid_view(&examples@[0].1),
                    );
                    assert(false);
                }
            }
            if examples.len() >= 2 {
                let mut steps: usize = 2;
                while steps <= max_steps
                    invariant
                        2 <= steps,
                        exs_wf(examples),
                        examples@.len() >= 2,
                        !one_step_rule_solves(examples),
                    decreases max_steps - steps + 1,
                {
                    let mut all_ok = true;
                    let mut k: usize = 0;
                    while k < examples.len()
                        invariant_except_break
                            0 <= k <= examples.len(),
                            exs_wf(examples),
                            examples@.len() >= 2,
                            steps <= max_steps,
                            !one_step_rule_solves(examples),
                            all_ok,
                            forall|q: int|
                                0 <= q < k ==> ca_steps_reaches(
                                    rule@,
                                    grid_view(&(#[trigger] examples@[q]).0),
                                    grid_view(&examples@[q].1),
                                    steps as nat,
                                ),
                        ensures
                            examples@.len() >= 2,
                            steps <= max_steps,
                            !one_step_rule_solves(examples),
                            all_ok ==> forall|q: int|
                                0 <= q < examples@.len() ==> ca_steps_reaches(
                                    rule@,
                                    grid_view(&(#[trigger] examples@[q]).0),
                                    grid_view(&examples@[q].1),
                                    steps as nat,
                                ),
                        decreases examples.len() - k,
                    {
                        let applied = apply_ca_steps(&examples[k].0, &rule, steps);
                        if !grid_eq(&applied, &examples[k].1) {
                            all_ok = false;
                            break;
                        }
                        proof {
                            assert(grid_view(&applied) == grid_view(&examples@[k as int].1));
                        }
                        k += 1;
                    }
                    if all_ok {
                        return Some(CaSolution { rule, steps });
                    }
                    if steps == max_steps {
                        break;
                    }
                    steps += 1;
                }
            }
            None
        },
        None => {
            proof {
                if one_step_rule_solves(examples) {
                    let m = choose|m: Map<NeighborSignature, u8>|
                        #[trigger] ca_rule_canonical(
                            m,
                            grid_view(&examples@[0].0),
                            grid_view(&examples@[0].1),
                        ) && forall|k: int|
                            0 <= k < examples@.len() ==> ca_one_step_matches(
                                m,
                                grid_view(&(#[trigger] examples@[k]).0),
                                grid_view(&examples@[k].1),
                            );
                    assert(ca_rule_explains(m, grid_view(&examples@[0].0), grid_view(
                        &examples@[0].1,
                    )));
                    assert(some_ca_rule_explains(grid_view(&examples@[0].0), grid_view(
                        &examples@[0].1,
                    )));
                    assert(false);
                }
            }
            None
        },
    }
}

} // verus!
