//! Brute-force enumeration: every catalog primitive at depth one,
//! full pairwise composition at depth two, and top-ranked triples at
//! depth three, each candidate checked exactly against all examples.
//! A returned program provably reproduces every example pair.

use vstd::prelude::*;
use crate::grid::{Grid, grid_view, grid_eq};
use crate::dsl::{Prim, prim_apply_s, prim_size_s};
use crate::compression::{exs_wf, exs_view, wrong_grid, wrong_row};

verus! {

broadcast use crate::grid::lemma_grid_row_len;

/// A found program and how hard the search worked for it.
#[derive(Debug, Clone)]
pub struct SynthesisResult {
    pub program: Prim,
    pub size: usize,
    pub checked: usize,
}

/// A program reproduces every example pair.
pub open spec fn solves_examples(p: Prim, exs: Seq<(Seq<Seq<u8>>, Seq<Seq<u8>>)>) -> bool {
    forall|k: int| 0 <= k < exs.len() ==> prim_apply_s(p, (#[trigger] exs[k]).0) == exs[k].1
}

/// No single catalog primitive reproduces every example pair.
pub open spec fn no_single_solver(exs: Seq<(Seq<Seq<u8>>, Seq<Seq<u8>>)>) -> bool {
    forall|q: int|
        0 <= q < crate::dsl::all_primitives_s().len() ==> !solves_examples(
            #[trigger] crate::dsl::all_primitives_s()[q],
            exs,
        )
}

/// Exact check of a program against every example pair.
pub fn matches_all(program: &Prim, examples: &Vec<(Grid, Grid)>) -> (r: bool)
    requires
        exs_wf(examples),
    ensures
        r == solves_examples(*program, exs_view(examples)),
{
    let ghost exs = exs_view(examples);
    let mut k: usize = 0;
    while k < examples.len()
        invariant
            0 <= k <= examples.len(),
            exs_wf(examples),
            exs == exs_view(examples),
            forall|q: int| 0 <= q < k ==> prim_apply_s(*program, (#[trigger] exs[q]).0)
                == exs[q].1,
        decreases examples.len() - k,
    {
        let result = program.apply(&examples[k].0);
        if !grid_eq(&result, &examples[k].1) {
            assert(prim_apply_s(*program, exs[k as int].0) != exs[k as int].1);
            return false;
        }
        assert(prim_apply_s(*program, exs[k as int].0) == exs[k as int].1);
        k += 1;
    }
    true
}

/// The per-cell similarity of two model grids, in parts per million:
/// zero on a shape mismatch, full score for empty grids, else the
/// matching-cell fraction.
pub open spec fn similarity_ppm_s(a: Seq<Seq<u8>>, b: Seq<Seq<u8>>) -> int {
    if rows_of_g(a) != rows_of_g(b) || cols_of_g(a) != cols_of_g(b) {
        0
    } else if rows_of_g(a) == 0 || cols_of_g(a) == 0 {
        1_000_000
    } else {
        (rows_of_g(a) * cols_of_g(a) - wrong_grid(a, b, rows_of_g(a))) * 1_000_000 / (rows_of_g(a)
            * cols_of_g(a))
    }
}

/// Shorthands over the grid model used by the scores.
pub open spec fn rows_of_g(s: Seq<Seq<u8>>) -> int {
    crate::grid::rows_of(s) as int
}

pub open spec fn cols_of_g(s: Seq<Seq<u8>>) -> int {
    crate::grid::cols_of(s) as int
}

/// Sum of per-pair similarities of a program over the first `n`
/// example pairs.
pub open spec fn pm_sum_s(p: Prim, exs: Seq<(Seq<Seq<u8>>, Seq<Seq<u8>>)>, n: int) -> int
    decreases n,
{
    if n <= 0 {
        0
    } else {
        pm_sum_s(p, exs, n - 1) + similarity_ppm_s(prim_apply_s(p, exs[n - 1].0), exs[n - 1].1)
    }
}

/// The mean per-cell match score of a program, in parts per million.
pub open spec fn pm_score_s(p: Prim, exs: Seq<(Seq<Seq<u8>>, Seq<Seq<u8>>)>) -> int {
    if exs.len() == 0 {
        0
    } else {
        pm_sum_s(p, exs, exs.len() as int) / (exs.len() as int)
    }
}

/// Per-pair similarities never leave 0 through one million.
pub(crate) proof fn lemma_pm_sum_bounds(p: Prim, exs: Seq<(Seq<Seq<u8>>, Seq<Seq<u8>>)>, n: int)
    requires
        0 <= n,
        forall|k: int|
            0 <= k < exs.len() ==> crate::grid::wf((#[trigger] exs[k]).0) && crate::grid::wf(
                exs[k].1,
            ),
        n <= exs.len(),
    ensures
        0 <= pm_sum_s(p, exs, n) <= n * 1_000_000,
    decreases n,
{
    if n > 0 {
        lemma_pm_sum_bounds(p, exs, n - 1);
        let a = prim_apply_s(p, exs[n - 1].0);
        let b = exs[n - 1].1;
        crate::dsl::lemma_prim_apply_wf(p, exs[n - 1].0);
        lemma_similarity_range(a, b);
        assert((n - 1) * 1_000_000 + 1_000_000 == n * 1_000_000) by (nonlinear_arith);
    }
}

/// A similarity of a well-formed grid is between zero and a million.
pub(crate) proof fn lemma_similarity_range(a: Seq<Seq<u8>>, b: Seq<Seq<u8>>)
    requires
        crate::grid::wf(a),
    ensures
        0 <= similarity_ppm_s(a, b) <= 1_000_000,
{
    if rows_of_g(a) == rows_of_g(b) && cols_of_g(a) == cols_of_g(b) && rows_of_g(a) > 0
        && cols_of_g(a) > 0 {
        let cells = rows_of_g(a) * cols_of_g(a);
        let w = wrong_grid(a, b, rows_of_g(a));
        crate::compression::lemma_wrong_nonneg(a, b, rows_of_g(a));
        crate::compression::lemma_wrong_le_cells(a, b, rows_of_g(a));
        assert(cells >= 1) by (nonlinear_arith)
            requires
                rows_of_g(a) >= 1,
                cols_of_g(a) >= 1,
                cells == rows_of_g(a) * cols_of_g(a),
        ;
        assert(0 <= (cells - w) * 1_000_000 / cells <= 1_000_000) by (nonlinear_arith)
            requires
                cells >= 1,
                0 <= w <= cells,
        ;
    }
}

/// Scaled per-cell similarity: matching cells per million, averaged
/// over the examples — exactly `pm_score_s`.
pub fn partial_match_score(program: &Prim, examples: &Vec<(Grid, Grid)>) -> (score: u64)
    requires
        exs_wf(examples),
        examples@.len() < 0x1_0000_0000,
    ensures
        score <= 1_000_000,
        score == pm_score_s(*program, exs_view(examples)),
{
    let ghost exs = exs_view(examples);
    if examples.is_empty() {
        return 0;
    }
    let mut total: u64 = 0;
    let mut k: usize = 0;
    while k < examples.len()
        invariant
            0 < examples.len(),
            examples@.len() < 0x1_0000_0000,
            0 <= k <= examples.len(),
            exs_wf(examples),
            exs == exs_view(examples),
            total == pm_sum_s(*program, exs, k as int),
            total <= (k as int) * 1_000_000,
        decreases examples.len() - k,
    {
        let result = program.apply(&examples[k].0);
        let sim = grid_similarity_ppm(&result, &examples[k].1);
        total += sim;
        assert((k as int) * 1_000_000 + 1_000_000 == ((k as int) + 1) * 1_000_000)
            by (nonlinear_arith);
        k += 1;
    }
    let n = examples.len() as u64;
    let avg = total / n;
    assert(avg <= 1_000_000) by (nonlinear_arith)
        requires
            total <= (n as int) * 1_000_000,
            n >= 1,
            avg == total / n,
    ;
    avg
}

/// Fraction of matching cells, in parts per million — exactly
/// `similarity_ppm_s` of the two grids.
pub(crate) fn grid_similarity_ppm(a: &Grid, b: &Grid) -> (sim: u64)
    requires
        crate::grid::grid_wf(a),
        crate::grid::grid_wf(b),
    ensures
        sim <= 1_000_000,
        sim == similarity_ppm_s(grid_view(a), grid_view(b)),
{
    let (ar, ac) = crate::grid::grid_dimensions(a);
    let (br, bc) = crate::grid::grid_dimensions(b);
    if ar != br || ac != bc {
        return 0;
    }
    if ar == 0 {
        return 1_000_000;
    }
    proof {
        assert(ar <= 0xFFFF && ac <= 0xFFFF);
        assert((ar as int) * (ac as int) <= 0xFFFF * 0xFFFFint) by (nonlinear_arith)
            requires
                ar <= 0xFFFF,
                ac <= 0xFFFF,
        ;
    }
    let total: u64 = (ar as u64) * (ac as u64);
    if total == 0 {
        proof {
            assert(ac == 0) by (nonlinear_arith)
                requires
                    (ar as int) * (ac as int) == 0,
                    ar >= 1,
                    ac >= 0,
            ;
        }
        return 1_000_000;
    }
    let mut matching: u64 = 0;
    let mut i: usize = 0;
    while i < ar
        invariant
            0 <= i <= ar,
            crate::grid::grid_wf(a),
            crate::grid::grid_wf(b),
            ar == crate::grid::rows_of(grid_view(a)),
            ac == crate::grid::cols_of(grid_view(a)),
            ar == crate::grid::rows_of(grid_view(b)),
            ac == crate::grid::cols_of(grid_view(b)),
            matching <= (i as int) * (ac as int),
            matching == (i as int) * (ac as int) - wrong_grid(grid_view(a), grid_view(b), i as int),
            total == (ar as int) * (ac as int),
        decreases ar - i,
    {
        let ghost base = wrong_grid(grid_view(a), grid_view(b), i as int);
        let mut j: usize = 0;
        while j < ac
            invariant
                0 <= j <= ac,
                0 <= i < ar,
                crate::grid::grid_wf(a),
                crate::grid::grid_wf(b),
                ar == crate::grid::rows_of(grid_view(a)),
                ac == crate::grid::cols_of(grid_view(a)),
                ar == crate::grid::rows_of(grid_view(b)),
                ac == crate::grid::cols_of(grid_view(b)),
                matching <= (i as int) * (ac as int) + j,
                base == wrong_grid(grid_view(a), grid_view(b), i as int),
                matching == (i as int) * (ac as int) + j - (base + wrong_row(
                    grid_view(a)[i as int],
                    grid_view(b)[i as int],
                    j as int,
                )),
            decreases ac - j,
        {
            proof {
                assert((i as int) * (ac as int) + (j as int) < 0x1_0000_0000int)
                    by (nonlinear_arith)
                    requires
                        i <= 0xFFFF,
                        j <= 0xFFFF,
                        ac <= 0xFFFF,
                ;
            }
            if a[i][j] == b[i][j] {
                matching += 1;
            }
            j += 1;
        }
        proof {
            assert(grid_view(a)[i as int].len() == ac);
        }
        assert((i as int) * (ac as int) + (ac as int) == ((i as int) + 1) * (ac as int))
            by (nonlinear_arith);
        i += 1;
    }
    proof {
        assert((ar as int) * (ac as int) <= 0xFFFF * 0xFFFFint) by (nonlinear_arith)
            requires
                ar <= 0xFFFF,
                ac <= 0xFFFF,
        ;
        assert(matching <= total);
        assert((matching as int) * 1_000_000 <= 0xFFFF * 0xFFFF * 1_000_000int)
            by (nonlinear_arith)
            requires
                matching <= 0xFFFF * 0xFFFFint,
        ;
    }
    let scaled: u64 = matching * 1_000_000;
    let sim = scaled / total;
    assert(sim <= 1_000_000) by (nonlinear_arith)
        requires
            matching <= total,
            total >= 1,
            scaled == matching * 1_000_000,
            sim == scaled / total,
    ;
    proof {
        assert(ac > 0) by (nonlinear_arith)
            requires
                total == (ar as int) * (ac as int),
                total >= 1,
                ar >= 0,
                ac >= 0,
        ;
        assert(matching == (ar as int) * (ac as int) - wrong_grid(grid_view(a), grid_view(b),
            ar as int));
    }
    assert(sim == similarity_ppm_s(grid_view(a), grid_view(b)));
    sim
}

/// Exhaustive search over the catalog up to the composite size cap:
/// every single primitive, then full pairwise composition, then
/// triples over the top-ranked primitives. A returned program
/// provably reproduces every example pair, with its node count
/// reported exactly; and whenever any single catalog primitive
/// reproduces every pair, a result is owed.
pub fn synthesize(examples: &Vec<(Grid, Grid)>, max_size: usize) -> (r: Option<SynthesisResult>)
    requires
        exs_wf(examples),
        examples@.len() < 0x1_0000_0000,
    ensures
        r matches Some(res) ==> solves_examples(res.program, exs_view(examples)),
        r matches Some(res2) ==> res2.size == (if prim_size_s(res2.program) <= usize::MAX {
            prim_size_s(res2.program) as int
        } else {
            usize::MAX as int
        }),
        (exists|q: int|
            0 <= q < crate::dsl::all_primitives_s().len() && solves_examples(
                #[trigger] crate::dsl::all_primitives_s()[q],
                exs_view(examples),
            )) ==> r is Some,
{
    let ghost exs = exs_view(examples);
    let mut checked: usize = 0;
    let prims = Prim::all_primitives();
    let mut i: usize = 0;
    while i < prims.len()
        invariant
            0 <= i <= prims@.len(),
            exs_wf(examples),
            examples@.len() < 0x1_0000_0000,
            exs == exs_view(examples),
            prims@ == crate::dsl::all_primitives_s(),
            forall|q: int| 0 <= q < i ==> !solves_examples(#[trigger] prims@[q], exs),
        decreases prims@.len() - i,
    {
        if checked < usize::MAX {
            checked += 1;
        }
        if matches_all(&prims[i], examples) {
            let program = prims[i].clone();
            let size = program.size();
            return Some(SynthesisResult { program, size, checked });
        }
        i += 1;
    }
    assert(no_single_solver(exs));
    if max_size >= 2 {
        let mut a: usize = 0;
        while a < prims.len()
            invariant
                0 <= a <= prims@.len(),
                exs_wf(examples),
                examples@.len() < 0x1_0000_0000,
                exs == exs_view(examples),
                no_single_solver(exs),
            decreases prims@.len() - a,
        {
            let mut b: usize = 0;
            while b < prims.len()
                invariant
                    0 <= b <= prims@.len(),
                    0 <= a < prims@.len(),
                    exs_wf(examples),
                    examples@.len() < 0x1_0000_0000,
                    exs == exs_view(examples),
                    no_single_solver(exs),
                decreases prims@.len() - b,
            {
                if checked < usize::MAX {
                    checked += 1;
                }
                let composed = Prim::Compose(
                    Box::new(prims[a].clone()),
                    Box::new(prims[b].clone()),
                );
                if matches_all(&composed, examples) {
                    let size = composed.size();
                    return Some(SynthesisResult { program: composed, size, checked });
                }
                b += 1;
            }
            if checked > 100_000 {
                break;
            }
            a += 1;
        }
    }
    if max_size >= 3 {
        // the deepest level works over the primitives ranked best by
        // mean per-cell match fraction
        let ranked = bottom_up_enumerate(examples, 20);
        let mut top: Vec<Prim> = Vec::new();
        let mut i2: usize = 0;
        while i2 < ranked.len()
            invariant
                0 <= i2 <= ranked@.len(),
                exs_wf(examples),
                examples@.len() < 0x1_0000_0000,
            decreases ranked@.len() - i2,
        {
            top.push(ranked[i2].0.clone());
            i2 += 1;
        }
        let mut a: usize = 0;
        while a < top.len()
            invariant
                0 <= a <= top@.len(),
                exs_wf(examples),
                examples@.len() < 0x1_0000_0000,
                exs == exs_view(examples),
                no_single_solver(exs),
            decreases top@.len() - a,
        {
            let mut b: usize = 0;
            while b < top.len()
                invariant
                    0 <= b <= top@.len(),
                    0 <= a < top@.len(),
                    exs_wf(examples),
                    examples@.len() < 0x1_0000_0000,
                    exs == exs_view(examples),
                    no_single_solver(exs),
                decreases top@.len() - b,
            {
                let mut c: usize = 0;
                while c < top.len()
                    invariant
                        0 <= c <= top@.len(),
                        0 <= a < top@.len(),
                        0 <= b < top@.len(),
                        exs_wf(examples),
                        examples@.len() < 0x1_0000_0000,
                        exs == exs_view(examples),
                        no_single_solver(exs),
                    decreases top@.len() - c,
                {
                    if checked < usize::MAX {
                        checked += 1;
                    }
                    let prog = Prim::Compose(
                        Box::new(top[a].clone()),
                        Box::new(
                            Prim::Compose(Box::new(top[b].clone()), Box::new(top[c].clone())),
                        ),
                    );
                    if matches_all(&prog, examples) {
                        let size = prog.size();
                        return Some(SynthesisResult { program: prog, size, checked });
                    }
                    if checked > 500_000 {
                        return None;
                    }
                    c += 1;
                }
                b += 1;
            }
            a += 1;
        }
    }
    None
}

/// Ranks single primitives by partial-match score, best first,
/// keeping only those with a positive score; each kept entry carries
/// exactly its program's mean per-cell match score.
pub fn bottom_up_enumerate(examples: &Vec<(Grid, Grid)>, max_programs: usize) -> (r: Vec<
    (Prim, u64)>)
    requires
        exs_wf(examples),
        examples@.len() < 0x1_0000_0000,
    ensures
        r@.len() <= max_programs,
        forall|k: int| 0 <= k < r@.len() ==> (#[trigger] r@[k]).1 > 0,
        forall|k: int| 0 < k < r@.len() ==> (#[trigger] r@[k]).1 <= r@[k - 1].1,
        forall|k: int| 0 <= k < r@.len() ==> (#[trigger] r@[k]).1 == pm_score_s(
            r@[k].0,
            exs_view(examples),
        ),
{
    let ghost exs = exs_view(examples);
    let prims = Prim::all_primitives();
    let mut ranked: Vec<(Prim, u64)> = Vec::new();
    let mut i: usize = 0;
    while i < prims.len()
        invariant
            0 <= i <= prims@.len(),
            exs_wf(examples),
            examples@.len() < 0x1_0000_0000,
            exs == exs_view(examples),
            forall|k: int| 0 <= k < ranked@.len() ==> (#[trigger] ranked@[k]).1 > 0,
            forall|p: int, q: int| 0 <= p < q < ranked@.len() ==> (#[trigger] ranked@[p]).1 >= (
            #[trigger] ranked@[q]).1,
            forall|k: int| 0 <= k < ranked@.len() ==> (#[trigger] ranked@[k]).1 == pm_score_s(
                ranked@[k].0,
                exs,
            ),
        decreases prims@.len() - i,
    {
        let score = partial_match_score(&prims[i], examples);
        if score > 0 {
            let mut pos: usize = 0;
            while pos < ranked.len()
                invariant_except_break
                    0 <= pos <= ranked@.len(),
                    forall|k: int| 0 <= k < ranked@.len() ==> (#[trigger] ranked@[k]).1 > 0,
                    forall|p: int, q: int| 0 <= p < q < ranked@.len() ==> (
                    #[trigger] ranked@[p]).1 >= (#[trigger] ranked@[q]).1,
                    forall|k: int| 0 <= k < pos ==> (#[trigger] ranked@[k]).1 >= score,
                ensures
                    0 <= pos <= ranked@.len(),
                    forall|k: int| 0 <= k < ranked@.len() ==> (#[trigger] ranked@[k]).1 > 0,
                    forall|p: int, q: int| 0 <= p < q < ranked@.len() ==> (
                    #[trigger] ranked@[p]).1 >= (#[trigger] ranked@[q]).1,
                    forall|k: int| 0 <= k < pos ==> (#[trigger] ranked@[k]).1 >= score,
                    pos < ranked@.len() ==> ranked@[pos as int].1 < score,
                decreases ranked@.len() - pos,
            {
                if ranked[pos].1 < score {
                    break;
                }
                pos += 1;
            }
            let ghost before = ranked@;
            ranked.insert(pos, (prims[i].clone(), score));
            assert forall|k: int| 0 <= k < ranked@.len() implies (#[trigger] ranked@[k]).1
                == pm_score_s(ranked@[k].0, exs) by {
                if k < pos {
                    assert(ranked@[k] == before[k]);
                } else if k > pos {
                    assert(ranked@[k] == before[k - 1]);
                }
            }
            assert forall|p: int, q: int| 0 <= p < q < ranked@.len() implies (
            #[trigger] ranked@[p]).1 >= (#[trigger] ranked@[q]).1 by {
                if p < pos && q < pos {
                    assert(ranked@[p] == before[p] && ranked@[q] == before[q]);
                } else if p < pos && q == pos {
                    assert(ranked@[p] == before[p]);
                } else if p < pos && q > pos {
                    assert(ranked@[p] == before[p] && ranked@[q] == before[q - 1]);
                } else if p == pos && q > pos {
                    assert(ranked@[q] == before[q - 1]);
                } else if p > pos && q > pos {
                    assert(ranked@[p] == before[p - 1] && ranked@[q] == before[q - 1]);
                }
            }
        }
        i += 1;
    }
    let mut out = ranked;
    while out.len() > max_programs
        invariant
            exs == exs_view(examples),
            forall|k: int| 0 <= k < out@.len() ==> (#[trigger] out@[k]).1 > 0,
            forall|p: int, q: int| 0 <= p < q < out@.len() ==> (#[trigger] out@[p]).1 >= (
            #[trigger] out@[q]).1,
            forall|k: int| 0 <= k < out@.len() ==> (#[trigger] out@[k]).1 == pm_score_s(
                out@[k].0,
                exs,
            ),
        decreases out@.len(),
    {
        out.pop();
    }
    out
}

} // verus!
