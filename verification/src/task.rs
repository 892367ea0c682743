//! Tasks: named sets of training and held-out example pairs, and a
//! few presentation helpers. Loading tasks from storage lives outside
//! the verified library; it hands over plain grids.

use vstd::prelude::*;
use vstd::string::StringExecFns;
use crate::grid::{Grid, grid_view, grid_wf, rows_of, cols_of};

verus! {

/// One example pair.
#[derive(Debug, Clone)]
pub struct ArcExample {
    pub input: Grid,
    pub output: Grid,
}

/// A task: an identifier, training pairs that define the search, and
/// held-out pairs used only for final acceptance.
#[derive(Debug, Clone)]
pub struct ArcTask {
    pub id: String,
    pub train: Vec<ArcExample>,
    pub test: Vec<ArcExample>,
}

/// Every grid of a task is well formed and the pair lists are small.
pub open spec fn task_wf(t: &ArcTask) -> bool {
    &&& forall|i: int|
        0 <= i < t.train@.len() ==> grid_wf(&(#[trigger] t.train@[i]).input) && grid_wf(
            &t.train@[i].output,
        )
    &&& forall|i: int|
        0 <= i < t.test@.len() ==> grid_wf(&(#[trigger] t.test@[i]).input) && grid_wf(
            &t.test@[i].output,
        )
    &&& t.train@.len() < 0x1_0000_0000
    &&& t.test@.len() < 0x1_0000_0000
}

/// Reports the row and column count of a grid.
pub fn grid_dimensions(grid: &Grid) -> (d: (usize, usize))
    ensures
        d.0 == rows_of(grid_view(grid)),
        d.1 == cols_of(grid_view(grid)),
{
    crate::grid::grid_dimensions(grid)
}

/// The distinct colors of a grid in increasing order.
pub fn unique_colors(grid: &Grid) -> (r: Vec<u8>)
    requires
        grid_wf(grid),
    ensures
        forall|p: int, q: int| 0 <= p < q < r@.len() ==> r@[p] <= r@[q],
{
    let found = crate::analysis::unique_colors(grid);
    let mut out: Vec<u8> = Vec::new();
    let mut i: usize = 0;
    while i < found.len()
        invariant
            0 <= i <= found@.len(),
            forall|p: int, q: int| 0 <= p < q < out@.len() ==> out@[p] <= out@[q],
        decreases found@.len() - i,
    {
        let x = found[i];
        let mut pos: usize = 0;
        while pos < out.len()
            invariant_except_break
                0 <= pos <= out@.len(),
                forall|p: int, q: int| 0 <= p < q < out@.len() ==> out@[p] <= out@[q],
                forall|k: int| 0 <= k < pos ==> out@[k] <= x,
            ensures
                0 <= pos <= out@.len(),
                forall|p: int, q: int| 0 <= p < q < out@.len() ==> out@[p] <= out@[q],
                forall|k: int| 0 <= k < pos ==> out@[k] <= x,
                pos < out@.len() ==> out@[pos as int] > x,
            decreases out@.len() - pos,
        {
            if out[pos] > x {
                break;
            }
            pos += 1;
        }
        let ghost before = out@;
        out.insert(pos, x);
        assert forall|p: int, q: int| 0 <= p < q < out@.len() implies out@[p] <= out@[q] by {
            if p < pos && q < pos {
                assert(out@[p] == before[p] && out@[q] == before[q]);
            } else if p < pos && q == pos {
                assert(out@[p] == before[p]);
            } else if p < pos && q > pos {
                assert(out@[p] == before[p] && out@[q] == before[q - 1]);
            } else if p == pos && q > pos {
                assert(out@[q] == before[q - 1]);
            } else if p > pos && q > pos {
                assert(out@[p] == before[p - 1] && out@[q] == before[q - 1]);
            }
        }
        i += 1;
    }
    out
}

/// Decimal digits of a number, most significant first.
pub(crate) fn decimal_string(n: u64) -> (s: String) {
    let mut digits: Vec<u8> = Vec::new();
    let mut m = n;
    if m == 0 {
        digits.push(0);
    }
    while m > 0
        decreases m,
    {
        digits.push((m % 10) as u8);
        m = m / 10;
    }
    let mut s = String::new();
    let mut i: usize = digits.len();
    while i > 0
        invariant
            i <= digits@.len(),
        decreases i,
    {
        let d = digits[i - 1];
        let piece: &str = match d {
            0 => "0",
            1 => "1",
            2 => "2",
            3 => "3",
            4 => "4",
            5 => "5",
            6 => "6",
            7 => "7",
            8 => "8",
            _ => "9",
        };
        s.append(piece);
        i -= 1;
    }
    s
}

/// One line per row, cells as space-separated decimal colors.
pub fn grid_to_string(grid: &Grid) -> (s: String)
    requires
        grid_wf(grid),
{
    let mut s = String::new();
    let mut i: usize = 0;
    while i < grid.len()
        invariant
            0 <= i <= grid@.len(),
            grid_wf(grid),
        decreases grid@.len() - i,
    {
        if i > 0 {
            s.append("\n");
        }
        let row = &grid[i];
        let mut j: usize = 0;
        while j < row.len()
            invariant
                0 <= j <= row@.len(),
            decreases row@.len() - j,
        {
            if j > 0 {
                s.append(" ");
            }
            let piece = decimal_string(row[j] as u64);
            s.append(piece.as_str());
            j += 1;
        }
        i += 1;
    }
    s
}

} // verus!
