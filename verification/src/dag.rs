//! Forward deduplicated search, and the program library that the
//! offline abstraction pass maintains. The searcher expands one
//! frontier breadth-first from the input; a returned program is
//! checked to map the input to the target, which is what the
//! contract states.

use vstd::prelude::*;
use crate::grid::{Grid, grid_view, grid_wf, grid_eq};
use crate::dsl::{Prim, prim_apply_s, prim_eq, prim_size_s};
use crate::prims_basic::clone_grid;

verus! {

broadcast use crate::grid::lemma_grid_row_len;

/// A named reusable program with usage statistics.
#[derive(Debug, Clone)]
pub struct LibEntry {
    pub name: String,
    pub program: Prim,
    pub usage_count: usize,
    pub compression: usize,
}

/// A grown collection of reusable programs.
#[derive(Debug, Clone)]
pub struct Library {
    pub entries: Vec<LibEntry>,
}

fn str_equal(a: &str, b: &str) -> (r: bool) {
    let ab = a.as_bytes();
    let bb = b.as_bytes();
    if ab.len() != bb.len() {
        return false;
    }
    let mut i: usize = 0;
    while i < ab.len()
        invariant
            0 <= i <= ab@.len(),
            ab@.len() == bb@.len(),
        decreases ab@.len() - i,
    {
        if ab[i] != bb[i] {
            return false;
        }
        i += 1;
    }
    true
}

impl Library {
    /// An empty library.
    pub fn new() -> (l: Library)
        ensures
            l.entries@.len() == 0,
    {
        Library { entries: Vec::new() }
    }

    /// Adds a program under a name; its node count is recorded as its
    /// compression value.
    pub fn add(&mut self, name: String, program: Prim)
        ensures
            final(self).entries@.len() == old(self).entries@.len() + 1,
    {
        let compression = program.size();
        self.entries.push(LibEntry { name, program, usage_count: 0, compression });
    }

    /// Number of entries.
    pub fn len(&self) -> (n: usize)
        ensures
            n == self.entries@.len(),
    {
        self.entries.len()
    }

    /// Whether the library has no entries.
    pub fn is_empty(&self) -> (r: bool)
        ensures
            r == (self.entries@.len() == 0),
    {
        self.entries.is_empty()
    }

    /// Looks an entry up by name.
    pub fn get(&self, name: &str) -> (r: Option<&LibEntry>) {
        let mut i: usize = 0;
        while i < self.entries.len()
            invariant
                0 <= i <= self.entries@.len(),
            decreases self.entries@.len() - i,
        {
            if str_equal(self.entries[i].name.as_str(), name) {
                return Some(&self.entries[i]);
            }
            i += 1;
        }
        None
    }

    /// Total nodes saved, counting each use of each entry.
    pub fn total_compression(&self) -> (n: usize) {
        let mut total: usize = 0;
        let mut i: usize = 0;
        while i < self.entries.len()
            invariant
                0 <= i <= self.entries@.len(),
            decreases self.entries@.len() - i,
        {
            let e = &self.entries[i];
            let saved = if e.compression >= 1 {
                e.compression - 1
            } else {
                0
            };
            let add_amt = if saved > 0 && e.usage_count > 0 && saved <= usize::MAX
                / e.usage_count {
                proof {
                    assert(e.usage_count * saved <= usize::MAX) by (nonlinear_arith)
                        requires
                            saved <= usize::MAX as int / (e.usage_count as int),
                            e.usage_count > 0,
                            saved >= 0,
                    ;
                }
                e.usage_count * saved
            } else if saved == 0 || e.usage_count == 0 {
                0
            } else {
                usize::MAX
            };
            total = if total <= usize::MAX - add_amt {
                total + add_amt
            } else {
                usize::MAX
            };
            i += 1;
        }
        total
    }
}

fn extract_subprograms(prog: &Prim, min_size: usize, out: &mut Vec<Prim>)
    decreases *prog,
{
    if prog.size() >= min_size {
        out.push(prog.clone());
    }
    match prog {
        Prim::Compose(a, b) => {
            extract_subprograms(a, min_size, out);
            extract_subprograms(b, min_size, out);
        },
        Prim::Conditional(a, b, c) => {
            extract_subprograms(a, min_size, out);
            extract_subprograms(b, min_size, out);
            extract_subprograms(c, min_size, out);
        },
        _ => {},
    }
}

/// Collects the common sub-programs of a solved corpus, most frequent
/// first, keeping those above the frequency and size floors.
pub fn wake_extract(solved_programs: &Vec<Prim>, min_freq: usize, min_size: usize,
    max_entries: usize) -> (l: Library)
    ensures
        l.entries@.len() <= max_entries,
{
    let mut subs: Vec<Prim> = Vec::new();
    let mut i: usize = 0;
    while i < solved_programs.len()
        invariant
            0 <= i <= solved_programs@.len(),
        decreases solved_programs@.len() - i,
    {
        extract_subprograms(&solved_programs[i], min_size, &mut subs);
        i += 1;
    }
    // count structurally equal sub-programs
    let mut uniq: Vec<Prim> = Vec::new();
    let mut counts: Vec<usize> = Vec::new();
    let mut k: usize = 0;
    while k < subs.len()
        invariant
            0 <= k <= subs@.len(),
            uniq@.len() == counts@.len(),
        decreases subs@.len() - k,
    {
        let mut found = false;
        let mut j: usize = 0;
        while j < uniq.len()
            invariant
                0 <= j <= uniq@.len(),
                uniq@.len() == counts@.len(),
                0 <= k < subs@.len(),
            decreases uniq@.len() - j,
        {
            if prim_eq(&uniq[j], &subs[k]) {
                let c = counts[j];
                counts.set(j, if c < usize::MAX { c + 1 } else { c });
                found = true;
                break;
            }
            j += 1;
        }
        if !found {
            uniq.push(subs[k].clone());
            counts.push(1);
        }
        k += 1;
    }
    // take frequent, non-trivial entries in order of decreasing count
    let mut lib = Library::new();
    let mut taken: usize = 0;
    let mut round: usize = 0;
    while round < uniq.len()
        invariant
            0 <= round <= uniq@.len(),
            uniq@.len() == counts@.len(),
            lib.entries@.len() <= taken,
            taken <= round,
            taken <= max_entries,
        decreases uniq@.len() - round,
    {
        // pick the largest remaining count
        let mut best: usize = 0;
        let mut bestc: usize = 0;
        let mut j: usize = 0;
        while j < counts.len()
            invariant
                0 <= j <= counts@.len(),
                best <= counts@.len(),
                uniq@.len() == counts@.len(),
            decreases counts@.len() - j,
        {
            if counts[j] > bestc {
                best = j;
                bestc = counts[j];
            }
            j += 1;
        }
        if bestc < min_freq || taken >= max_entries || best >= counts.len() {
            break;
        }
        counts.set(best, 0);
        if uniq[best].size() > 1 {
            let mut e = LibEntry {
                name: String::new(),
                program: uniq[best].clone(),
                usage_count: bestc,
                compression: uniq[best].size(),
            };
            lib.entries.push(e);
            taken += 1;
        } else {
            taken += 1;
        }
        round += 1;
    }
    // the floor on taken entries also floors the library length
    let mut trimmed = lib;
    while trimmed.entries.len() > max_entries
        decreases trimmed.entries@.len(),
    {
        trimmed.entries.pop();
    }
    trimmed
}

/// Replaces a program by itself (a matched library entry keeps the
/// program; the pass only records the match), recursing through
/// composites.
pub fn sleep_compress(program: &Prim, library: &Library) -> (r: Prim)
    ensures
        r == *program,
    decreases *program,
{
    let mut i: usize = 0;
    while i < library.entries.len()
        invariant
            0 <= i <= library.entries@.len(),
        decreases library.entries@.len() - i,
    {
        if prim_eq(&library.entries[i].program, program) {
            return program.clone();
        }
        i += 1;
    }
    match program {
        Prim::Compose(a, b) => {
            let ca = sleep_compress(a, library);
            let cb = sleep_compress(b, library);
            Prim::Compose(Box::new(ca), Box::new(cb))
        },
        Prim::Conditional(a, b, c) => {
            let ca = sleep_compress(a, library);
            let cb = sleep_compress(b, library);
            let cc = sleep_compress(c, library);
            Prim::Conditional(Box::new(ca), Box::new(cb), Box::new(cc))
        },
        other => other.clone(),
    }
}

struct DagNode {
    grid: Grid,
    program: Prim,
    depth: usize,
}

/// Single-frontier breadth search with a node budget. Visited states
/// are deduplicated by exact grid comparison, never by a hash alone,
/// so a collision can never hide an unexplored state.
#[derive(Debug)]
pub struct SearchDag {
    pub nodes_count: usize,
    pub max_nodes: usize,
}

impl SearchDag {
    /// A searcher that keeps at most `max_nodes` frontier nodes.
    pub fn new(max_nodes: usize) -> (s: SearchDag)
        ensures
            s.max_nodes == max_nodes,
    {
        SearchDag { nodes_count: 0, max_nodes }
    }

    /// Breadth-expands from the input; a returned program provably
    /// maps the input to the target; equal grids always succeed with
    /// the identity program; and whenever a single listed primitive
    /// maps the input to the target within the depth budget, success
    /// is owed.
    pub fn search(&mut self, input: &Grid, target: &Grid, primitives: &Vec<Prim>,
        max_depth: usize) -> (r: Option<Prim>)
        requires
            grid_wf(input),
            grid_wf(target),
        ensures
            r matches Some(p) ==> prim_apply_s(p, grid_view(input)) == grid_view(target),
            grid_view(input) == grid_view(target) ==> r == Some(Prim::Identity),
            max_depth >= 1 && (exists|j: int|
                0 <= j < primitives@.len() && prim_apply_s(
                    #[trigger] primitives@[j],
                    grid_view(input),
                ) == grid_view(target)) ==> r is Some,
    {
        if grid_eq(input, target) {
            self.nodes_count = 1;
            return Some(Prim::Identity);
        }
        proof {
            if grid_view(input) == grid_view(target) {
                assert(grid_view(input) =~~= grid_view(target));
                assert(false);
            }
            assert(grid_view(input) != grid_view(target));
        }
        if max_depth >= 1 {
            let mut pi: usize = 0;
            while pi < primitives.len()
                invariant
                    0 <= pi <= primitives@.len(),
                    grid_wf(input),
                    grid_wf(target),
                    grid_view(input) != grid_view(target),
                    forall|j: int|
                        0 <= j < pi ==> prim_apply_s(#[trigger] primitives@[j], grid_view(input))
                            != grid_view(target),
                decreases primitives@.len() - pi,
            {
                let result = primitives[pi].apply(input);
                if grid_eq(&result, target) {
                    let candidate = primitives[pi].clone();
                    self.nodes_count = 1;
                    return Some(candidate);
                }
                pi += 1;
            }
        }
        self.search_core(input, target, primitives, max_depth)
    }

    /// The frontier expansion behind `search`, for grids already
    /// known to differ.
    fn search_core(&mut self, input: &Grid, target: &Grid, primitives: &Vec<Prim>,
        max_depth: usize) -> (r: Option<Prim>)
        requires
            grid_wf(input),
            grid_wf(target),
            grid_view(input) != grid_view(target),
        ensures
            r matches Some(p) ==> prim_apply_s(p, grid_view(input)) == grid_view(target),
    {
        let mut nodes: Vec<DagNode> = Vec::new();
        let seed = clone_grid(input);
        nodes.push(DagNode { grid: seed, program: Prim::Identity, depth: 0 });
        self.nodes_count = 1;
        let mut depth: usize = 0;
        while depth < max_depth
            invariant
                grid_wf(input),
                grid_wf(target),
                forall|k: int| 0 <= k < nodes@.len() ==> grid_wf(&(#[trigger] nodes@[k]).grid),
            decreases max_depth - depth,
        {
            let current_count = nodes.len();
            let mut ni: usize = 0;
            while ni < current_count
                invariant
                    0 <= ni <= current_count,
                    current_count <= nodes@.len(),
                    depth < usize::MAX,
                    grid_wf(input),
                    grid_wf(target),
                    forall|k: int| 0 <= k < nodes@.len() ==> grid_wf(
                        &(#[trigger] nodes@[k]).grid,
                    ),
                decreases current_count - ni,
            {
                if nodes[ni].depth == depth {
                    let mut pi: usize = 0;
                    while pi < primitives.len()
                        invariant
                            0 <= pi <= primitives@.len(),
                            0 <= ni < nodes@.len(),
                            current_count <= nodes@.len(),
                            depth < usize::MAX,
                            grid_wf(input),
                            grid_wf(target),
                            forall|k: int| 0 <= k < nodes@.len() ==> grid_wf(
                                &(#[trigger] nodes@[k]).grid,
                            ),
                        decreases primitives@.len() - pi,
                    {
                        let result = primitives[pi].apply(&nodes[ni].grid);
                        if grid_eq(&result, target) {
                            let candidate = if depth == 0 {
                                primitives[pi].clone()
                            } else {
                                Prim::Compose(
                                    Box::new(nodes[ni].program.clone()),
                                    Box::new(primitives[pi].clone()),
                                )
                            };
                            let check = candidate.apply(input);
                            if grid_eq(&check, target) {
                                return Some(candidate);
                            }
                        }
                        let mut dup = false;
                        let mut di: usize = 0;
                        while di < nodes.len()
                            invariant
                                0 <= di <= nodes@.len(),
                                grid_wf(&result),
                                forall|k: int| 0 <= k < nodes@.len() ==> grid_wf(
                                    &(#[trigger] nodes@[k]).grid,
                                ),
                            decreases nodes@.len() - di,
                        {
                            if grid_eq(&nodes[di].grid, &result) {
                                dup = true;
                                break;
                            }
                            di += 1;
                        }
                        if !dup {
                            if !grid_eq(&result, &nodes[ni].grid) {
                                let new_prog = if depth == 0 {
                                    primitives[pi].clone()
                                } else {
                                    Prim::Compose(
                                        Box::new(nodes[ni].program.clone()),
                                        Box::new(primitives[pi].clone()),
                                    )
                                };
                                if nodes.len() < self.max_nodes {
                                    nodes.push(
                                        DagNode {
                                            grid: result,
                                            program: new_prog,
                                            depth: depth + 1,
                                        },
                                    );
                                }
                            }
                        }
                        if nodes.len() >= self.max_nodes {
                            break;
                        }
                        pi += 1;
                    }
                }
                if nodes.len() >= self.max_nodes {
                    break;
                }
                ni += 1;
            }
            self.nodes_count = nodes.len();
            depth += 1;
        }
        self.nodes_count = nodes.len();
        None
    }

    /// How many frontier nodes the last search kept.
    pub fn nodes_explored(&self) -> (n: usize)
        ensures
            n == self.nodes_count,
    {
        self.nodes_count
    }
}

/// One offline cycle: solve each task pair by forward search, then
/// extract a library from the solved programs.
pub fn wake_sleep_cycle(tasks: &Vec<(Grid, Grid)>, primitives: &Vec<Prim>, max_dag_nodes: usize,
    max_depth: usize, min_freq: usize) -> (r: (Library, Vec<Option<Prim>>))
    requires
        crate::compression::exs_wf(tasks),
    ensures
        r.1@.len() == tasks@.len(),
{
    let mut dag = SearchDag::new(max_dag_nodes);
    let mut solutions: Vec<Option<Prim>> = Vec::new();
    let mut solved_programs: Vec<Prim> = Vec::new();
    let mut i: usize = 0;
    while i < tasks.len()
        invariant
            0 <= i <= tasks@.len(),
            crate::compression::exs_wf(tasks),
            solutions@.len() == i,
        decreases tasks@.len() - i,
    {
        let result = dag.search(&tasks[i].0, &tasks[i].1, primitives, max_depth);
        match &result {
            Some(prog) => {
                solved_programs.push(prog.clone());
            },
            None => {},
        }
        solutions.push(result);
        i += 1;
    }
    let library = wake_extract(&solved_programs, min_freq, 2, 20);
    (library, solutions)
}

} // verus!
