//! Description-length scoring (the MDL principle), in tenths of a bit
//! so that every score is an exact integer: a parameterless leaf costs
//! 40, each small color parameter about 33 (log2 of ten colors), each
//! composite node 10, and the data-fit penalty charges 1000 for a
//! shape mismatch and 33 per wrong cell. Lower is better; a perfect
//! fit is exactly 0.
//!
//! Run-length and delta coding for grids live here too.

use vstd::prelude::*;
use crate::grid::{Grid, grid_view, grid_wf, rows_of, cols_of, grid_eq};
use crate::dsl::{Prim, prim_apply_s};

verus! {

broadcast use crate::grid::lemma_grid_row_len;

/// Description length of a program, in tenths of a bit.
pub open spec fn dl_s(p: Prim) -> nat
    decreases p,
{
    match p {
        Prim::Identity => 0,
        Prim::Compose(a, b) => 10 + dl_s(*a) + dl_s(*b),
        Prim::Conditional(a, b, c) => 20 + dl_s(*a) + dl_s(*b) + dl_s(*c),
        Prim::FillColor(_) | Prim::FilterColor(_) | Prim::RemoveColor(_) | Prim::BorderFill(_) => (
        40 + 33) as nat,
        Prim::ReplaceColor(_, _) => (40 + 66) as nat,
        Prim::OutlineObjects(_) | Prim::FillInsideObjects(_) | Prim::FillEnclosed(_) => (40
            + 33) as nat,
        Prim::Crop(_, _, _, _) => (40 + 120) as nat,
        Prim::Pad(_, _) => (40 + 60) as nat,
        Prim::Translate(_, _) => (40 + 60) as nat,
        Prim::Scale(_) | Prim::RepeatH(_) | Prim::RepeatV(_) | Prim::UpscaleObjects(_) => (40
            + 20) as nat,
        Prim::FloodFill(_, _, _) => (40 + 90) as nat,
        Prim::ExtractObject(_) => (40 + 30) as nat,
        _ => 40,
    }
}

/// Addition that sticks at `u128::MAX` instead of wrapping.
fn sat_add_u128(a: u128, b: u128) -> (r: u128)
    ensures
        r == if a + b <= u128::MAX {
            a + b
        } else {
            u128::MAX as int
        },
{
    if a <= u128::MAX - b {
        a + b
    } else {
        u128::MAX
    }
}

/// Description length of a program, saturating only on trees too
/// large to exist.
pub fn description_length(program: &Prim) -> (r: u128)
    ensures
        r == if dl_s(*program) <= u128::MAX {
            dl_s(*program) as int
        } else {
            u128::MAX as int
        },
    decreases *program,
{
    match program {
        Prim::Identity => 0,
        Prim::Compose(a, b) => {
            let da = description_length(a);
            let db = description_length(b);
            sat_add_u128(10, sat_add_u128(da, db))
        },
        Prim::Conditional(a, b, c) => {
            let da = description_length(a);
            let db = description_length(b);
            let dc = description_length(c);
            sat_add_u128(20, sat_add_u128(da, sat_add_u128(db, dc)))
        },
        Prim::FillColor(_) | Prim::FilterColor(_) | Prim::RemoveColor(_) | Prim::BorderFill(_) => 73,
        Prim::ReplaceColor(_, _) => 106,
        Prim::OutlineObjects(_) | Prim::FillInsideObjects(_) | Prim::FillEnclosed(_) => 73,
        Prim::Crop(_, _, _, _) => 160,
        Prim::Pad(_, _) => 100,
        Prim::Translate(_, _) => 100,
        Prim::Scale(_) | Prim::RepeatH(_) | Prim::RepeatV(_) | Prim::UpscaleObjects(_) => 60,
        Prim::FloodFill(_, _, _) => 130,
        Prim::ExtractObject(_) => 70,
        _ => 40,
    }
}

/// A sequence grows strictly longer through composition: both halves
/// cost strictly less to describe than the whole.
pub proof fn lemma_compose_dl_grows(a: Prim, b: Prim)
    ensures
        dl_s(Prim::Compose(Box::new(a), Box::new(b))) > dl_s(a),
        dl_s(Prim::Compose(Box::new(a), Box::new(b))) > dl_s(b),
{
}

// --- data fit ---

/// How many of the first `n` cells of two equally long rows differ.
pub open spec fn wrong_row(ra: Seq<u8>, rb: Seq<u8>, n: int) -> int
    decreases n,
{
    if n <= 0 {
        0
    } else {
        wrong_row(ra, rb, n - 1) + if ra[n - 1] != rb[n - 1] {
            1int
        } else {
            0int
        }
    }
}

/// How many cells of the first `n` rows differ.
pub open spec fn wrong_grid(a: Seq<Seq<u8>>, b: Seq<Seq<u8>>, n: int) -> int
    decreases n,
{
    if n <= 0 {
        0
    } else {
        wrong_grid(a, b, n - 1) + wrong_row(a[n - 1], b[n - 1], a[n - 1].len() as int)
    }
}

/// Error between a produced and an expected grid, in tenths of a bit.
pub open spec fn grid_error_s(a: Seq<Seq<u8>>, b: Seq<Seq<u8>>) -> int {
    if a == b {
        0
    } else if rows_of(a) != rows_of(b) || cols_of(a) != cols_of(b) {
        1000
    } else {
        33 * wrong_grid(a, b, rows_of(a) as int)
    }
}

/// Total error of a program over a list of example pairs.
pub open spec fn data_fit_s(p: Prim, exs: Seq<(Seq<Seq<u8>>, Seq<Seq<u8>>)>) -> int
    decreases exs.len(),
{
    if exs.len() == 0 {
        0
    } else {
        data_fit_s(p, exs.drop_last()) + grid_error_s(
            prim_apply_s(p, exs.last().0),
            exs.last().1,
        )
    }
}

/// The model of a list of example pairs.
pub open spec fn exs_view(examples: &Vec<(Grid, Grid)>) -> Seq<(Seq<Seq<u8>>, Seq<Seq<u8>>)> {
    Seq::new(
        examples@.len(),
        |i: int| (grid_view(&examples@[i].0), grid_view(&examples@[i].1)),
    )
}

/// Every grid of the example list is well formed.
pub open spec fn exs_wf(examples: &Vec<(Grid, Grid)>) -> bool {
    forall|i: int|
        0 <= i < examples@.len() ==> grid_wf(&(#[trigger] examples@[i]).0) && grid_wf(
            &examples@[i].1,
        )
}

/// Mismatch counts never go negative.
pub(crate) proof fn lemma_wrong_nonneg(a: Seq<Seq<u8>>, b: Seq<Seq<u8>>, n: int)
    ensures
        wrong_grid(a, b, n) >= 0,
    decreases n,
{
    if n > 0 {
        lemma_wrong_nonneg(a, b, n - 1);
        lemma_wrong_row_nonneg(a[n - 1], b[n - 1], a[n - 1].len() as int);
    }
}

proof fn lemma_wrong_row_nonneg(ra: Seq<u8>, rb: Seq<u8>, n: int)
    ensures
        wrong_row(ra, rb, n) >= 0,
    decreases n,
{
    if n > 0 {
        lemma_wrong_row_nonneg(ra, rb, n - 1);
    }
}

/// A zero mismatch count over a prefix means that prefix agrees.
proof fn lemma_wrong_row_zero(ra: Seq<u8>, rb: Seq<u8>, n: int)
    requires
        wrong_row(ra, rb, n) == 0,
    ensures
        forall|k: int| 0 <= k < n ==> ra[k] == rb[k],
    decreases n,
{
    if n > 0 {
        lemma_wrong_row_nonneg(ra, rb, n - 1);
        lemma_wrong_row_zero(ra, rb, n - 1);
    }
}

proof fn lemma_wrong_grid_zero(a: Seq<Seq<u8>>, b: Seq<Seq<u8>>, n: int)
    requires
        wrong_grid(a, b, n) == 0,
    ensures
        forall|r: int, k: int| 0 <= r < n && 0 <= k < a[r].len() ==> #[trigger] a[r][k] == b[r][k],
    decreases n,
{
    if n > 0 {
        lemma_wrong_nonneg(a, b, n - 1);
        lemma_wrong_row_nonneg(a[n - 1], b[n - 1], a[n - 1].len() as int);
        lemma_wrong_grid_zero(a, b, n - 1);
        lemma_wrong_row_zero(a[n - 1], b[n - 1], a[n - 1].len() as int);
    }
}

/// A grid error is zero exactly when the grids are equal.
pub proof fn lemma_grid_error_zero(a: Seq<Seq<u8>>, b: Seq<Seq<u8>>)
    requires
        crate::grid::rect(a),
        crate::grid::rect(b),
    ensures
        grid_error_s(a, b) == 0 <==> a =~~= b,
{
    if a != b {
        if rows_of(a) == rows_of(b) && cols_of(a) == cols_of(b) {
            lemma_wrong_nonneg(a, b, rows_of(a) as int);
            if wrong_grid(a, b, rows_of(a) as int) == 0 {
                lemma_wrong_grid_zero(a, b, rows_of(a) as int);
                assert forall|r: int| 0 <= r < a.len() implies a[r] =~= b[r] by {
                    assert(a[r].len() == a[0].len());
                    assert(b[r].len() == b[0].len());
                }
                assert(a =~~= b);
            }
        }
    }
}

fn grid_error(actual: &Grid, expected: &Grid) -> (e: u128)
    requires
        grid_wf(actual),
        grid_wf(expected),
    ensures
        e == grid_error_s(grid_view(actual), grid_view(expected)),
{
    let ghost a = grid_view(actual);
    let ghost b = grid_view(expected);
    if grid_eq(actual, expected) {
        return 0;
    }
    let (ar, ac) = crate::grid::grid_dimensions(actual);
    let (br, bc) = crate::grid::grid_dimensions(expected);
    if ar != br || ac != bc {
        return 1000;
    }
    let mut wrong: u128 = 0;
    let mut i: usize = 0;
    while i < ar
        invariant
            0 <= i <= ar,
            grid_wf(actual),
            grid_wf(expected),
            a == grid_view(actual),
            b == grid_view(expected),
            ar == rows_of(a),
            ac == cols_of(a),
            ar == rows_of(b),
            ac == cols_of(b),
            wrong == wrong_grid(a, b, i as int),
            wrong <= (i as int) * (ac as int),
        decreases ar - i,
    {
        let mut j: usize = 0;
        let ghost base = wrong_grid(a, b, i as int);
        while j < ac
            invariant
                0 <= j <= ac,
                0 <= i < ar,
                grid_wf(actual),
                grid_wf(expected),
                a == grid_view(actual),
                b == grid_view(expected),
                ar == rows_of(a),
                ac == cols_of(a),
                ar == rows_of(b),
                ac == cols_of(b),
                base == wrong_grid(a, b, i as int),
                wrong == base + wrong_row(a[i as int], b[i as int], j as int),
                wrong <= (i as int) * (ac as int) + j,
            decreases ac - j,
        {
            proof {
                assert((i as int) * (ac as int) + (j as int) < 0x1_0000_0000int)
                    by (nonlinear_arith)
                    requires
                        i <= 0xFFFF,
                        j <= 0xFFFF,
                        ac <= 0xFFFF,
                ;
            }
            if actual[i][j] != expected[i][j] {
                wrong += 1;
            }
            j += 1;
        }
        assert(a[i as int].len() == ac);
        assert((i as int) * (ac as int) + (ac as int) == ((i as int) + 1) * (ac as int))
            by (nonlinear_arith);
        i += 1;
    }
    proof {
        lemma_wrong_nonneg(a, b, ar as int);
        assert((ar as int) * (ac as int) <= 0xFFFF * 0xFFFFint) by (nonlinear_arith)
            requires
                ar <= 0xFFFF,
                ac <= 0xFFFF,
        ;
    }
    33 * wrong
}

/// A grid error is bounded by the heaviest possible per-cell charge.
pub proof fn lemma_grid_error_range(a: Seq<Seq<u8>>, b: Seq<Seq<u8>>)
    requires
        crate::grid::wf(a),
    ensures
        0 <= grid_error_s(a, b) <= 0x2_0000_0000_0000,
{
    if a != b && rows_of(a) == rows_of(b) && cols_of(a) == cols_of(b) {
        lemma_wrong_nonneg(a, b, rows_of(a) as int);
        lemma_wrong_bound(a, b, rows_of(a) as int);
        lemma_sum_rows_rect(a, rows_of(a) as int);
        assert((rows_of(a) as int) * (cols_of(a) as int) <= 0xFFFF * 0xFFFFint)
            by (nonlinear_arith)
            requires
                rows_of(a) <= 0xFFFF,
                cols_of(a) <= 0xFFFF,
        ;
    }
}

/// Total data-fit error of a program against the examples: 0 exactly
/// when the program reproduces every pair.
pub fn data_fit(program: &Prim, examples: &Vec<(Grid, Grid)>) -> (e: u128)
    requires
        exs_wf(examples),
        examples@.len() < 0x1_0000_0000,
    ensures
        e == data_fit_s(*program, exs_view(examples)),
{
    let ghost exs = exs_view(examples);
    let mut total: u128 = 0;
    let mut i: usize = 0;
    while i < examples.len()
        invariant
            0 <= i <= examples.len(),
            exs_wf(examples),
            exs == exs_view(examples),
            examples@.len() < 0x1_0000_0000,
            total == data_fit_s(*program, exs.take(i as int)),
            total <= (i as int) * 0x2_0000_0000_0000,
        decreases examples.len() - i,
    {
        let result = program.apply(&examples[i].0);
        let err = grid_error(&result, &examples[i].1);
        proof {
            lemma_grid_error_range(grid_view(&result), grid_view(&examples@[i as int].1));
            assert(err <= 0x2_0000_0000_0000);
            assert(exs.take(i as int + 1).drop_last() =~= exs.take(i as int));
            assert(exs.take(i as int + 1).last() == exs[i as int]);
        }
        total += err;
        i += 1;
    }
    assert(exs.take(examples@.len() as int) =~= exs);
    total
}

/// A mismatch count is at most the rectangular cell count.
pub(crate) proof fn lemma_wrong_le_cells(a: Seq<Seq<u8>>, b: Seq<Seq<u8>>, n: int)
    requires
        crate::grid::rect(a),
        0 <= n <= a.len(),
    ensures
        wrong_grid(a, b, n) <= n * (cols_of(a) as int),
{
    lemma_wrong_bound(a, b, n);
    lemma_sum_rows_rect(a, n);
}

/// A mismatch count is at most the number of cells scanned.
proof fn lemma_wrong_bound(a: Seq<Seq<u8>>, b: Seq<Seq<u8>>, n: int)
    ensures
        wrong_grid(a, b, n) <= spec_sum_rows(a, n),
    decreases n,
{
    if n > 0 {
        lemma_wrong_bound(a, b, n - 1);
        lemma_wrong_row_bound(a[n - 1], b[n - 1], a[n - 1].len() as int);
    }
}

proof fn lemma_wrong_row_bound(ra: Seq<u8>, rb: Seq<u8>, n: int)
    ensures
        wrong_row(ra, rb, n) <= (if n >= 0 { n } else { 0 }),
    decreases n,
{
    if n > 0 {
        lemma_wrong_row_bound(ra, rb, n - 1);
    }
}

/// Cell count of the first `n` rows.
pub open spec fn spec_sum_rows(a: Seq<Seq<u8>>, n: int) -> int
    decreases n,
{
    if n <= 0 {
        0
    } else {
        spec_sum_rows(a, n - 1) + a[n - 1].len()
    }
}

/// Under a rectangular grid the cell count is rows times columns.
proof fn lemma_sum_rows_rect(a: Seq<Seq<u8>>, n: int)
    requires
        crate::grid::rect(a),
        0 <= n <= a.len(),
    ensures
        spec_sum_rows(a, n) == n * (cols_of(a) as int),
    decreases n,
{
    if n > 0 {
        lemma_sum_rows_rect(a, n - 1);
        assert(a[n - 1].len() == cols_of(a));
        assert(spec_sum_rows(a, n) == spec_sum_rows(a, n - 1) + a[n - 1].len());
        assert((n - 1) * (cols_of(a) as int) + (cols_of(a) as int) == n * (cols_of(a) as int))
            by (nonlinear_arith);
    } else {
        assert(n * (cols_of(a) as int) == 0) by (nonlinear_arith)
            requires
                n <= 0,
                0 <= n,
        ;
    }
}

/// Combined score: description length plus data fit. Lower is better.
pub fn mdl_score(program: &Prim, examples: &Vec<(Grid, Grid)>) -> (m: u128)
    requires
        exs_wf(examples),
        examples@.len() < 0x1_0000_0000,
    ensures
        m == if dl_s(*program) + data_fit_s(*program, exs_view(examples)) <= u128::MAX {
            dl_s(*program) + data_fit_s(*program, exs_view(examples))
        } else {
            u128::MAX as int
        },
{
    let dl = description_length(program);
    let fit = data_fit(program, examples);
    proof {
        lemma_data_fit_nonneg(*program, exs_view(examples));
    }
    sat_add_u128(dl, fit)
}

/// Data fit never goes negative.
pub proof fn lemma_data_fit_nonneg(p: Prim, exs: Seq<(Seq<Seq<u8>>, Seq<Seq<u8>>)>)
    ensures
        data_fit_s(p, exs) >= 0,
    decreases exs.len(),
{
    if exs.len() > 0 {
        lemma_data_fit_nonneg(p, exs.drop_last());
        let a = prim_apply_s(p, exs.last().0);
        let b = exs.last().1;
        if a != b && rows_of(a) == rows_of(b) && cols_of(a) == cols_of(b) {
            lemma_wrong_nonneg(a, b, rows_of(a) as int);
        }
    }
}

/// A program fits the examples with zero error exactly when it
/// reproduces every pair; and a zero total score forces both a zero
/// fit and a zero description length.
pub proof fn lemma_zero_fit_is_exact_match(p: Prim, exs: Seq<(Seq<Seq<u8>>, Seq<Seq<u8>>)>)
    requires
        forall|i: int|
            0 <= i < exs.len() ==> crate::grid::wf((#[trigger] exs[i]).0) && crate::grid::wf(
                exs[i].1,
            ),
    ensures
        data_fit_s(p, exs) == 0 <==> (forall|i: int|
            0 <= i < exs.len() ==> prim_apply_s(p, (#[trigger] exs[i]).0) =~~= exs[i].1),
        dl_s(p) + data_fit_s(p, exs) == 0 ==> data_fit_s(p, exs) == 0,
    decreases exs.len(),
{
    lemma_data_fit_nonneg(p, exs);
    if exs.len() > 0 {
        assert forall|i: int| 0 <= i < exs.drop_last().len() implies crate::grid::wf(
            (#[trigger] exs.drop_last()[i]).0,
        ) && crate::grid::wf(exs.drop_last()[i].1) by {
            assert(exs.drop_last()[i] == exs[i]);
        }
        lemma_zero_fit_is_exact_match(p, exs.drop_last());
        lemma_data_fit_nonneg(p, exs.drop_last());
        let a = prim_apply_s(p, exs.last().0);
        let b = exs.last().1;
        crate::dsl::lemma_prim_apply_wf(p, exs.last().0);
        lemma_grid_error_zero(a, b);
        if a != b && rows_of(a) == rows_of(b) && cols_of(a) == cols_of(b) {
            lemma_wrong_nonneg(a, b, rows_of(a) as int);
        }
        if data_fit_s(p, exs) == 0 {
            assert forall|i: int| 0 <= i < exs.len() implies prim_apply_s(
                p,
                (#[trigger] exs[i]).0,
            ) =~~= exs[i].1 by {
                if i < exs.len() - 1 {
                    assert(exs.drop_last()[i] == exs[i]);
                } else {
                    assert(exs[i] == exs.last());
                }
            }
        }
        if forall|i: int| 0 <= i < exs.len() ==> prim_apply_s(p, (#[trigger] exs[i]).0) =~~= exs[i].1 {
            assert forall|i: int| 0 <= i < exs.drop_last().len() implies prim_apply_s(
                p,
                (#[trigger] exs.drop_last()[i]).0,
            ) =~~= exs.drop_last()[i].1 by {
                assert(exs.drop_last()[i] == exs[i]);
            }
            assert(prim_apply_s(p, exs.last().0) =~~= exs.last().1);
        }
    }
}

// --- run-length and delta coding ---

/// The row a run list decodes to.
pub open spec fn rle_decode_s(runs: Seq<(u8, u16)>) -> Seq<u8>
    decreases runs.len(),
{
    if runs.len() == 0 {
        Seq::empty()
    } else {
        rle_decode_s(runs.drop_last()) + Seq::new(runs.last().1 as nat, |i: int| runs.last().0)
    }
}

/// Expands a run list back into a row.
pub fn rle_decode(runs: &Vec<(u8, u16)>) -> (row: Vec<u8>)
    ensures
        row@ == rle_decode_s(runs@),
{
    let mut row: Vec<u8> = Vec::new();
    let mut i: usize = 0;
    while i < runs.len()
        invariant
            0 <= i <= runs@.len(),
            row@ =~= rle_decode_s(runs@.take(i as int)),
        decreases runs@.len() - i,
    {
        let (val, count) = runs[i];
        let mut k: u16 = 0;
        while k < count
            invariant
                0 <= k <= count,
                row@ =~= rle_decode_s(runs@.take(i as int)) + Seq::new(k as nat, |q: int| val),
            decreases count - k,
        {
            row.push(val);
            k += 1;
        }
        assert(runs@.take(i as int + 1).drop_last() =~= runs@.take(i as int));
        assert(runs@.take(i as int + 1).last() == runs@[i as int]);
        assert(row@ =~= rle_decode_s(runs@.take(i as int + 1)));
        i += 1;
    }
    assert(runs@.take(runs@.len() as int) =~= runs@);
    row
}

/// Run-length encodes a row; decoding the result gives the row back.
pub fn rle_encode(row: &Vec<u8>) -> (runs: Vec<(u8, u16)>)
    ensures
        rle_decode_s(runs@) == row@,
{
    let mut runs: Vec<(u8, u16)> = Vec::new();
    if row.len() == 0 {
        assert(rle_decode_s(runs@) =~= row@);
        return runs;
    }
    let mut current: u8 = row[0];
    let mut count: u16 = 1;
    let mut i: usize = 1;
    while i < row.len()
        invariant
            1 <= i <= row@.len(),
            1 <= count,
            rle_decode_s(runs@) + Seq::new(count as nat, |q: int| current) =~= row@.take(
                i as int,
            ),
        decreases row@.len() - i,
    {
        let val = row[i];
        if val == current && count < 0xFFFF {
            count += 1;
        } else {
            let ghost old_runs = runs@;
            let ghost old_count = count;
            let ghost old_current = current;
            runs.push((current, count));
            proof {
                assert(runs@.drop_last() =~= old_runs);
                assert(runs@.last() == (old_current, old_count));
                assert(rle_decode_s(runs@) =~= rle_decode_s(old_runs) + Seq::new(
                    old_count as nat,
                    |q: int| old_current,
                ));
            }
            current = val;
            count = 1;
        }
        assert(row@.take(i as int + 1) =~= row@.take(i as int).push(val));
        assert(rle_decode_s(runs@) + Seq::new(count as nat, |q: int| current) =~= row@.take(
            i as int + 1,
        ));
        i += 1;
    }
    let ghost old_runs = runs@;
    let ghost old_count = count;
    let ghost old_current = current;
    runs.push((current, count));
    proof {
        assert(runs@.drop_last() =~= old_runs);
        assert(runs@.last() == (old_current, old_count));
        assert(rle_decode_s(runs@) =~= rle_decode_s(old_runs) + Seq::new(
            old_count as nat,
            |q: int| old_current,
        ));
    }
    assert(rle_decode_s(runs@) =~= row@.take(row@.len() as int));
    assert(row@.take(row@.len() as int) =~= row@);
    runs
}

/// Cell patches turning one grid into another, scanned over the
/// overlapping region.
pub fn delta_encode(base: &Grid, target: &Grid) -> (diffs: Vec<(u16, u16, u8)>)
    requires
        grid_wf(base),
        grid_wf(target),
    ensures
        forall|k: int| 0 <= k < diffs@.len() ==> {
            let d = #[trigger] diffs@[k];
            &&& (d.0 as int) < rows_of(grid_view(base))
            &&& (d.0 as int) < rows_of(grid_view(target))
            &&& (d.1 as int) < cols_of(grid_view(base))
            &&& (d.1 as int) < cols_of(grid_view(target))
            &&& grid_view(base)[d.0 as int][d.1 as int] != grid_view(target)[d.0 as int][d.1 as int]
            &&& d.2 == grid_view(target)[d.0 as int][d.1 as int]
        },
        forall|r: int, c: int|
            0 <= r < rows_of(grid_view(base)) && r < rows_of(grid_view(target)) && 0 <= c
                < cols_of(grid_view(base)) && c < cols_of(grid_view(target))
                && #[trigger] grid_view(base)[r][c] != #[trigger] grid_view(target)[r][c]
                ==> exists|k: int|
                0 <= k < diffs@.len() && diffs@[k] == (r as u16, c as u16, grid_view(
                    target,
                )[r][c]),
{
    let ghost b = grid_view(base);
    let ghost t = grid_view(target);
    let (br, bc) = crate::grid::grid_dimensions(base);
    let (tr, tc) = crate::grid::grid_dimensions(target);
    let rows = if br <= tr { br } else { tr };
    let cols = if bc <= tc { bc } else { tc };
    let mut diffs: Vec<(u16, u16, u8)> = Vec::new();
    let mut i: usize = 0;
    while i < rows
        invariant
            0 <= i <= rows,
            grid_wf(base),
            grid_wf(target),
            b == grid_view(base),
            t == grid_view(target),
            rows <= rows_of(b) && rows <= rows_of(t),
            cols <= cols_of(b) && cols <= cols_of(t),
            rows <= 0xFFFF && cols <= 0xFFFF,
            forall|k: int| 0 <= k < diffs@.len() ==> {
                let d = #[trigger] diffs@[k];
                &&& (d.0 as int) < rows_of(b) && (d.0 as int) < rows_of(t)
                &&& (d.1 as int) < cols_of(b) && (d.1 as int) < cols_of(t)
                &&& b[d.0 as int][d.1 as int] != t[d.0 as int][d.1 as int]
                &&& d.2 == t[d.0 as int][d.1 as int]
            },
            forall|r: int, c: int|
                0 <= r < i && 0 <= c < cols && #[trigger] b[r][c] != #[trigger] t[r][c]
                    ==> exists|k: int|
                    0 <= k < diffs@.len() && diffs@[k] == (r as u16, c as u16, t[r][c]),
        decreases rows - i,
    {
        let mut j: usize = 0;
        while j < cols
            invariant
                0 <= j <= cols,
                0 <= i < rows,
                grid_wf(base),
                grid_wf(target),
                b == grid_view(base),
                t == grid_view(target),
                rows <= rows_of(b) && rows <= rows_of(t),
                cols <= cols_of(b) && cols <= cols_of(t),
                rows <= 0xFFFF && cols <= 0xFFFF,
                forall|k: int| 0 <= k < diffs@.len() ==> {
                    let d = #[trigger] diffs@[k];
                    &&& (d.0 as int) < rows_of(b) && (d.0 as int) < rows_of(t)
                    &&& (d.1 as int) < cols_of(b) && (d.1 as int) < cols_of(t)
                    &&& b[d.0 as int][d.1 as int] != t[d.0 as int][d.1 as int]
                    &&& d.2 == t[d.0 as int][d.1 as int]
                },
                forall|r: int, c: int|
                    0 <= r < i && 0 <= c < cols && #[trigger] b[r][c] != #[trigger] t[r][c]
                        ==> exists|k: int|
                        0 <= k < diffs@.len() && diffs@[k] == (r as u16, c as u16, t[r][c]),
                forall|c: int|
                    0 <= c < j && #[trigger] b[i as int][c] != #[trigger] t[i as int][c]
                        ==> exists|k: int|
                        0 <= k < diffs@.len() && diffs@[k] == (
                            i as u16,
                            c as u16,
                            t[i as int][c],
                        ),
            decreases cols - j,
        {
            let bv = base[i][j];
            let tv = target[i][j];
            let ghost pre = diffs@;
            if bv != tv {
                diffs.push((i as u16, j as u16, tv));
            }
            proof {
                if bv != tv {
                    assert(diffs@[diffs@.len() - 1] == (i as u16, j as u16, tv));
                }
                assert forall|r: int, c: int|
                    0 <= r < i && 0 <= c < cols && #[trigger] b[r][c] != #[trigger] t[r][c]
                        implies exists|k: int|
                    0 <= k < diffs@.len() && diffs@[k] == (r as u16, c as u16, t[r][c]) by {
                    let k0 = choose|k0: int|
                        0 <= k0 < pre.len() && pre[k0] == (r as u16, c as u16, t[r][c]);
                    assert(diffs@[k0] == (r as u16, c as u16, t[r][c]));
                }
                assert forall|c: int|
                    0 <= c < j + 1 && #[trigger] b[i as int][c] != #[trigger] t[i as int][c]
                        implies exists|k: int|
                    0 <= k < diffs@.len() && diffs@[k] == (i as u16, c as u16, t[i as int][c]) by {
                    if c < j {
                        let k0 = choose|k0: int|
                            0 <= k0 < pre.len() && pre[k0] == (
                                i as u16,
                                c as u16,
                                t[i as int][c],
                            );
                        assert(diffs@[k0] == (i as u16, c as u16, t[i as int][c]));
                    } else {
                        assert(diffs@[diffs@.len() - 1] == (i as u16, j as u16, tv));
                    }
                }
            }
            j += 1;
        }
        i += 1;
    }
    diffs
}

/// The patched value of one cell: the last in-range patch wins.
pub open spec fn patch_cell(
    b: Seq<Seq<u8>>,
    diffs: Seq<(u16, u16, u8)>,
    r: int,
    c: int,
    n: int,
) -> u8
    decreases n,
{
    if n <= 0 {
        b[r][c]
    } else if diffs[n - 1].0 == r && diffs[n - 1].1 == c {
        diffs[n - 1].2
    } else {
        patch_cell(b, diffs, r, c, n - 1)
    }
}

/// Applies patches to a copy of the base grid, each patch setting
/// its cell when in range; the last patch of a cell wins.
pub fn delta_apply(base: &Grid, diffs: &Vec<(u16, u16, u8)>) -> (r: Grid)
    requires
        grid_wf(base),
    ensures
        grid_view(&r) =~~= Seq::new(
            rows_of(grid_view(base)),
            |i: int| Seq::new(
                cols_of(grid_view(base)),
                |c: int| patch_cell(grid_view(base), diffs@, i, c, diffs@.len() as int),
            ),
        ),
        grid_wf(&r),
{
    let ghost b = grid_view(base);
    let rows = base.len();
    let cols = if rows == 0 { 0 } else { base[0].len() };
    let mut out: Grid = Vec::new();
    let mut i: usize = 0;
    while i < rows
        invariant
            0 <= i <= rows,
            grid_wf(base),
            b == grid_view(base),
            rows == rows_of(b),
            cols == cols_of(b),
            out@.len() == i,
            forall|k: int| 0 <= k < i ==> #[trigger] out@[k]@ =~= Seq::new(
                cols as nat,
                |c: int| patch_cell(b, diffs@, k, c, diffs@.len() as int),
            ),
        decreases rows - i,
    {
        let mut nr: Vec<u8> = Vec::new();
        let mut j: usize = 0;
        while j < cols
            invariant
                0 <= j <= cols,
                0 <= i < rows,
                grid_wf(base),
                b == grid_view(base),
                rows == rows_of(b),
                cols == cols_of(b),
                nr@.len() == j,
                forall|k: int| 0 <= k < j ==> nr@[k] == patch_cell(
                    b,
                    diffs@,
                    i as int,
                    k,
                    diffs@.len() as int,
                ),
            decreases cols - j,
        {
            let mut v: u8 = base[i][j];
            let mut d: usize = 0;
            while d < diffs.len()
                invariant
                    0 <= d <= diffs@.len(),
                    0 <= i < rows,
                    0 <= j < cols,
                    grid_wf(base),
                    b == grid_view(base),
                    rows == rows_of(b),
                    cols == cols_of(b),
                    v == patch_cell(b, diffs@, i as int, j as int, d as int),
                decreases diffs@.len() - d,
            {
                let (pr, pc, pv) = diffs[d];
                if pr as usize == i && pc as usize == j {
                    v = pv;
                }
                d += 1;
            }
            nr.push(v);
            j += 1;
        }
        assert(nr@ =~= Seq::new(
            cols as nat,
            |c: int| patch_cell(b, diffs@, i as int, c, diffs@.len() as int),
        ));
        out.push(nr);
        i += 1;
    }
    out
}

} // verus!
