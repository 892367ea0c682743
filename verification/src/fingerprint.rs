//! Grid fingerprints: a polynomial rolling hash over cells and
//! position, a packed shape word, and a coarse color histogram
//! signature. Fingerprints are dedup accelerants, never ground truth;
//! their value is fully determined by the grid, as the exact contracts
//! here state.

use vstd::prelude::*;
use rustc_hash::FxHashSet;
use crate::grid::{Grid, grid_view, grid_wf, rows_of, cols_of};
use crate::fxmap::{fx_set_new, fx_set_with_capacity, fx_set_insert, fx_set_contains, fx_set_len};

verus! {

broadcast use crate::grid::lemma_grid_row_len;

pub const MIX_A: u64 = 0x517cc1b727220a95;
pub const MIX_B: u64 = 0x6c62272e07bb0142;
pub const FNV_OFFSET: u64 = 0xcbf29ce484222325;
pub const FNV_PRIME: u64 = 0x100000001b3;

/// Positional mix of one cell.
pub open spec fn cell_mix(r: u64, c: u64, v: u8) -> u64 {
    r.wrapping_mul(MIX_A) ^ c.wrapping_mul(MIX_B) ^ (v as u64)
}

/// Hash after folding the first `n` cells of row `r` into `h0`.
pub open spec fn hash_row_s(h0: u64, r: u64, row: Seq<u8>, n: int) -> u64
    decreases n,
{
    if n <= 0 {
        h0
    } else {
        hash_row_s(h0, r, row, n - 1).wrapping_mul(FNV_PRIME) ^ cell_mix(
            r,
            (n - 1) as u64,
            row[n - 1],
        )
    }
}

/// Hash after folding the first `n` rows.
pub open spec fn hash_grid_upto(s: Seq<Seq<u8>>, n: int) -> u64
    decreases n,
{
    if n <= 0 {
        FNV_OFFSET
    } else {
        hash_row_s(hash_grid_upto(s, n - 1), (n - 1) as u64, s[n - 1], s[n - 1].len() as int)
    }
}

/// The rolling hash of a whole grid.
pub open spec fn hash_grid_s(s: Seq<Seq<u8>>) -> u64 {
    hash_grid_upto(s, rows_of(s) as int)
}

/// Row and column count packed into one word.
pub open spec fn shape_s(s: Seq<Seq<u8>>) -> u32 {
    ((rows_of(s) as u32) << 16) | (cols_of(s) as u32)
}

pub(crate) fn hash_grid(grid: &Grid) -> (h: u64)
    requires
        grid_wf(grid),
    ensures
        h == hash_grid_s(grid_view(grid)),
{
    let ghost s = grid_view(grid);
    let mut h: u64 = FNV_OFFSET;
    let mut i: usize = 0;
    while i < grid.len()
        invariant
            0 <= i <= grid.len(),
            grid_wf(grid),
            s == grid_view(grid),
            h == hash_grid_upto(s, i as int),
        decreases grid.len() - i,
    {
        let row = &grid[i];
        assert(row@ == s[i as int]);
        let mut j: usize = 0;
        while j < row.len()
            invariant
                0 <= j <= row.len(),
                0 <= i,
                row@ == s[i as int],
                h == hash_row_s(hash_grid_upto(s, i as int), i as u64, row@, j as int),
            decreases row.len() - j,
        {
            let cell = (i as u64).wrapping_mul(MIX_A) ^ (j as u64).wrapping_mul(MIX_B) ^ (
            row[j] as u64);
            h = h.wrapping_mul(FNV_PRIME) ^ cell;
            j += 1;
        }
        i += 1;
    }
    h
}

// --- color histogram signature ---

/// Floor of the base-2 logarithm (0 for 0 and 1).
pub open spec fn log2_floor(n: int) -> int
    decreases n,
{
    if n < 2 {
        0
    } else {
        1 + log2_floor(n / 2)
    }
}

/// Histogram bucket of a count: its log2, capped at 7.
pub open spec fn bucket_of(cnt: int) -> u32 {
    if cnt == 0 {
        0u32
    } else if log2_floor(cnt) >= 7 {
        7u32
    } else {
        log2_floor(cnt) as u32
    }
}

/// Count of color `v` over a whole grid.
pub open spec fn color_count(s: Seq<Seq<u8>>, v: u8) -> int {
    crate::model::grid_count(s, v, rows_of(s) as int)
}

/// Number of colors below 10 present in the grid, among 0..i.
pub open spec fn uniq_count(s: Seq<Seq<u8>>, i: int) -> int
    decreases i,
{
    if i <= 0 {
        0
    } else {
        uniq_count(s, i - 1) + if color_count(s, (i - 1) as u8) > 0 {
            1int
        } else {
            0int
        }
    }
}

/// Signature bits of the first `i` colors.
pub open spec fn sig_acc(s: Seq<Seq<u8>>, i: int) -> u32
    decreases i,
{
    if i <= 0 {
        0u32
    } else {
        sig_acc(s, i - 1) | (bucket_of(color_count(s, (i - 1) as u8)) << (3 * ((i - 1) as u32)))
    }
}

/// The full color signature word.
pub open spec fn color_sig_s(s: Seq<Seq<u8>>) -> u32 {
    sig_acc(s, 10) | ((((uniq_count(s, 10) % 4) as u32)) << 30u32)
}

/// The floor logarithm never goes negative.
proof fn lemma_log2_nonneg(n: int)
    ensures
        log2_floor(n) >= 0,
    decreases n,
{
    if n >= 2 {
        lemma_log2_nonneg(n / 2);
    }
}

fn log2_bucket(cnt: u128) -> (b: u32)
    ensures
        b == bucket_of(cnt as int),
{
    if cnt == 0 {
        return 0;
    }
    let mut c = cnt;
    let mut b: u32 = 0;
    while c >= 2
        invariant
            c >= 1,
            b <= 7,
            log2_floor(cnt as int) == log2_floor(c as int) + b,
        decreases c,
    {
        c = c / 2;
        b = b + 1;
        if b >= 7 {
            proof {
                lemma_log2_nonneg(c as int);
            }
            return 7;
        }
    }
    assert(log2_floor(c as int) == 0);
    b
}

pub(crate) fn color_signature(grid: &Grid) -> (sig: u32)
    requires
        grid_wf(grid),
    ensures
        sig == color_sig_s(grid_view(grid)),
{
    let ghost s = grid_view(grid);
    let counts = count_colors(grid);
    let mut acc: u32 = 0;
    let mut i: usize = 0;
    while i < 10
        invariant
            0 <= i <= 10,
            counts@.len() == 10,
            forall|k: int| 0 <= k < 10 ==> #[trigger] counts@[k] == color_count(s, k as u8),
            acc == sig_acc(s, i as int),
        decreases 10 - i,
    {
        let b = log2_bucket(counts[i]);
        acc = acc | (b << (3 * (i as u32)));
        i += 1;
    }
    let mut uniq: u64 = 0;
    let mut v: usize = 0;
    while v < 10
        invariant
            0 <= v <= 10,
            counts@.len() == 10,
            forall|k: int| 0 <= k < 10 ==> #[trigger] counts@[k] == color_count(s, k as u8),
            uniq == uniq_count(s, v as int),
            uniq <= v,
        decreases 10 - v,
    {
        if counts[v] > 0 {
            uniq = uniq + 1;
        }
        v += 1;
    }
    assert(uniq <= 10);
    acc | ((((uniq % 4) as u32)) << 30u32)
}

/// Per-color cell counts, colors 0 through 9.
fn count_colors(grid: &Grid) -> (counts: Vec<u128>)
    requires
        grid_wf(grid),
    ensures
        counts@.len() == 10,
        forall|k: int| 0 <= k < 10 ==> #[trigger] counts@[k] == color_count(grid_view(grid), k as u8),
{
    let ghost s = grid_view(grid);
    let rows = grid.len();
    let mut counts: Vec<u128> = Vec::new();
    let mut v: usize = 0;
    while v < 10
        invariant
            0 <= v <= 10,
            counts@.len() == v,
            forall|k: int| 0 <= k < v ==> counts@[k] == 0,
        decreases 10 - v,
    {
        counts.push(0);
        v += 1;
    }
    let mut i: usize = 0;
    while i < rows
        invariant
            0 <= i <= rows,
            grid_wf(grid),
            s == grid_view(grid),
            rows == rows_of(s),
            counts@.len() == 10,
            forall|k: int| 0 <= k < 10 ==> #[trigger] counts@[k] == crate::model::grid_count(
                s,
                k as u8,
                i as int,
            ),
            forall|k: int| 0 <= k < 10 ==> #[trigger] counts@[k] <= (i as int) * 0xFFFF,
        decreases rows - i,
    {
        let row = &grid[i];
        assert(row@ == s[i as int]);
        let mut j: usize = 0;
        while j < row.len()
            invariant
                0 <= j <= row.len(),
                0 <= i < rows,
                grid_wf(grid),
                s == grid_view(grid),
                rows == rows_of(s),
                row@ == s[i as int],
                row@.len() <= 0xFFFF,
                counts@.len() == 10,
                forall|k: int| 0 <= k < 10 ==> #[trigger] counts@[k] == crate::model::grid_count(
                    s,
                    k as u8,
                    i as int,
                ) + crate::model::row_count(s[i as int], k as u8, j as int),
                forall|k: int| 0 <= k < 10 ==> #[trigger] counts@[k] <= (i as int) * 0xFFFF + j,
            decreases row.len() - j,
        {
            let val = row[j];
            if val < 10 {
                let cur = counts[val as usize];
                counts.set(val as usize, cur + 1);
            }
            j += 1;
        }
        assert((i as int) * 0xFFFF + 0xFFFF == ((i as int) + 1) * 0xFFFF) by (nonlinear_arith);
        i += 1;
    }
    counts
}

/// A compact identity surrogate for a grid: full hash, shape word and
/// color signature, each an exact function of the grid.
#[derive(Debug, Clone, Copy, PartialEq, Eq, Hash)]
pub struct GridFingerprint {
    pub full: u64,
    pub shape: u32,
    pub color_sig: u32,
}

impl GridFingerprint {
    /// Fingerprint of a grid.
    pub fn compute(grid: &Grid) -> (fp: GridFingerprint)
        requires
            grid_wf(grid),
        ensures
            fp.full == hash_grid_s(grid_view(grid)),
            fp.shape == shape_s(grid_view(grid)),
            fp.color_sig == color_sig_s(grid_view(grid)),
    {
        let full = hash_grid(grid);
        let rows = grid.len();
        let cols = if rows == 0 { 0 } else { grid[0].len() };
        let shape = ((rows as u32) << 16u32) | (cols as u32);
        let color_sig = color_signature(grid);
        GridFingerprint { full, shape, color_sig }
    }

    /// Same packed shape word.
    pub fn same_shape(&self, other: &GridFingerprint) -> (r: bool)
        ensures
            r == (self.shape == other.shape),
    {
        self.shape == other.shape
    }

    /// Same color signature word.
    pub fn same_colors(&self, other: &GridFingerprint) -> (r: bool)
        ensures
            r == (self.color_sig == other.color_sig),
    {
        self.color_sig == other.color_sig
    }

    /// Same shape and similar color distribution — an approximate
    /// structural match, not grid equality.
    pub fn structurally_similar(&self, other: &GridFingerprint) -> (r: bool)
        ensures
            r == (self.shape == other.shape && self.color_sig == other.color_sig),
    {
        self.shape == other.shape && self.color_sig == other.color_sig
    }
}

// --- multi-resolution fingerprint ---

/// Hash of the region rows `r0..r1`, columns `c0..c1` (clipped to the
/// grid), folding rows then cells.
pub open spec fn hash_region_row(
    s: Seq<Seq<u8>>,
    h0: u64,
    r: int,
    c0: int,
    n: int,
) -> u64
    decreases n,
{
    if n <= c0 || n <= 0 {
        h0
    } else {
        hash_region_row(s, h0, r, c0, n - 1).wrapping_mul(FNV_PRIME) ^ cell_mix(
            r as u64,
            (n - 1) as u64,
            s[r][n - 1],
        )
    }
}

pub open spec fn hash_region_s(s: Seq<Seq<u8>>, r0: int, n: int, c0: int, c1: int) -> u64
    decreases n,
{
    if n <= r0 || n <= 0 {
        FNV_OFFSET
    } else {
        hash_region_row(s, hash_region_s(s, r0, n - 1, c0, c1), n - 1, c0, c1)
    }
}

fn hash_region(grid: &Grid, r0: usize, r1: usize, c0: usize, c1: usize) -> (h: u64)
    requires
        grid_wf(grid),
        r1 <= rows_of(grid_view(grid)),
        c1 <= cols_of(grid_view(grid)),
    ensures
        h == hash_region_s(grid_view(grid), r0 as int, r1 as int, c0 as int, c1 as int),
{
    let ghost s = grid_view(grid);
    let mut h: u64 = FNV_OFFSET;
    let mut i: usize = r0;
    if r1 <= r0 {
        return h;
    }
    while i < r1
        invariant
            r0 <= i <= r1,
            grid_wf(grid),
            s == grid_view(grid),
            r1 <= rows_of(s),
            c1 <= cols_of(s),
            h == hash_region_s(s, r0 as int, i as int, c0 as int, c1 as int),
        decreases r1 - i,
    {
        let mut j: usize = c0;
        let ghost base = h;
        if c0 < c1 {
            while j < c1
                invariant
                    c0 <= j <= c1,
                    r0 <= i < r1,
                    grid_wf(grid),
                    s == grid_view(grid),
                    r1 <= rows_of(s),
                    c1 <= cols_of(s),
                    h == hash_region_row(s, base, i as int, c0 as int, j as int),
                decreases c1 - j,
            {
                let cell = (i as u64).wrapping_mul(MIX_A) ^ (j as u64).wrapping_mul(MIX_B) ^ (
                grid[i][j] as u64);
                h = h.wrapping_mul(FNV_PRIME) ^ cell;
                j += 1;
            }
        }
        assert(h == hash_region_row(s, base, i as int, c0 as int, c1 as int));
        i += 1;
    }
    h
}

/// Fingerprints at two spatial resolutions: the whole grid and its
/// four quadrants.
#[derive(Debug, Clone)]
pub struct MultiResFingerprint {
    pub full: GridFingerprint,
    pub quadrants: [u64; 4],
}

impl MultiResFingerprint {
    /// Whole-grid fingerprint plus the four quadrant hashes.
    pub fn compute(grid: &Grid) -> (fp: MultiResFingerprint)
        requires
            grid_wf(grid),
        ensures
            fp.full.full == hash_grid_s(grid_view(grid)),
            fp.full.shape == shape_s(grid_view(grid)),
            fp.full.color_sig == color_sig_s(grid_view(grid)),
            rows_of(grid_view(grid)) > 0 ==> {
                let s = grid_view(grid);
                let mr = rows_of(s) as int / 2;
                let mc = cols_of(s) as int / 2;
                &&& fp.quadrants@[0] == hash_region_s(s, 0, mr, 0, mc)
                &&& fp.quadrants@[1] == hash_region_s(s, 0, mr, mc, cols_of(s) as int)
                &&& fp.quadrants@[2] == hash_region_s(s, mr, rows_of(s) as int, 0, mc)
                &&& fp.quadrants@[3] == hash_region_s(
                    s,
                    mr,
                    rows_of(s) as int,
                    mc,
                    cols_of(s) as int,
                )
            },
    {
        let full = GridFingerprint::compute(grid);
        let rows = grid.len();
        let cols = if rows == 0 { 0 } else { grid[0].len() };
        let quadrants: [u64; 4];
        if rows == 0 {
            quadrants = [0, 0, 0, 0];
        } else {
            let mr = rows / 2;
            let mc = cols / 2;
            let q0 = hash_region(grid, 0, mr, 0, mc);
            let q1 = hash_region(grid, 0, mr, mc, cols);
            let q2 = hash_region(grid, mr, rows, 0, mc);
            let q3 = hash_region(grid, mr, rows, mc, cols);
            quadrants = [q0, q1, q2, q3];
        }
        MultiResFingerprint { full, quadrants }
    }
}

/// A dedup set of grids keyed by their rolling hash. Hash equality
/// stands in for grid equality here — an accepted approximation, as a
/// collision can drop a fresh grid.
pub struct FingerprintSet {
    seen: FxHashSet<u64>,
}

impl FingerprintSet {
    /// The set of hashes already inserted.
    pub closed spec fn view(&self) -> Set<u64> {
        self.seen@
    }

    /// An empty set.
    pub fn new() -> (s: FingerprintSet)
        ensures
            s@ == Set::<u64>::empty(),
    {
        FingerprintSet { seen: fx_set_new() }
    }

    /// An empty set with room reserved.
    pub fn with_capacity(cap: usize) -> (s: FingerprintSet)
        ensures
            s@ == Set::<u64>::empty(),
    {
        FingerprintSet { seen: fx_set_with_capacity(cap) }
    }

    /// Records a grid's hash; reports whether it was new.
    pub fn insert(&mut self, grid: &Grid) -> (fresh: bool)
        requires
            grid_wf(grid),
        ensures
            final(self)@ == old(self)@.insert(hash_grid_s(grid_view(grid))),
            fresh == !old(self)@.contains(hash_grid_s(grid_view(grid))),
    {
        let fp = hash_grid(grid);
        fx_set_insert(&mut self.seen, fp)
    }

    /// Whether a grid with this hash was inserted.
    pub fn contains(&self, grid: &Grid) -> (r: bool)
        requires
            grid_wf(grid),
        ensures
            r == self@.contains(hash_grid_s(grid_view(grid))),
    {
        let fp = hash_grid(grid);
        fx_set_contains(&self.seen, fp)
    }

    /// How many distinct hashes were inserted.
    pub fn len(&self) -> (n: usize)
        ensures
            n == self@.len(),
    {
        fx_set_len(&self.seen)
    }
}

} // verus!
