//! Meet-in-the-middle search: a forward frontier grown with the
//! candidate primitives and a backward frontier grown from the target
//! with their declared inverses. Hash lookups pre-filter meetings; a
//! meeting is accepted only after exact grid comparison, and a
//! reconstructed program is returned only after it has been checked
//! to map the input to the target, which is what the contract states.

use vstd::prelude::*;
use rustc_hash::FxHashMap;
use crate::grid::{Grid, grid_view, grid_wf, grid_eq};
use crate::dsl::{Prim, prim_apply_s};
use crate::fingerprint::hash_grid;
use crate::fxmap::{fx_map_new, fx_map_insert, fx_map_contains};
use crate::enumerate::{matches_all, solves_examples};
use crate::compression::{exs_wf, exs_view};
use crate::prims_basic::clone_grid;

verus! {

broadcast use crate::grid::lemma_grid_row_len;

/// The declared inverse of a primitive, if it has one.
pub open spec fn inverse_s(p: Prim) -> Option<Prim> {
    match p {
        Prim::RotateCW => Some(Prim::RotateCCW),
        Prim::RotateCCW => Some(Prim::RotateCW),
        Prim::Rotate180 => Some(Prim::Rotate180),
        Prim::FlipH => Some(Prim::FlipH),
        Prim::FlipV => Some(Prim::FlipV),
        Prim::Transpose => Some(Prim::Transpose),
        Prim::Invert => Some(Prim::Invert),
        Prim::Identity => Some(Prim::Identity),
        Prim::ReplaceColor(a, b) => Some(Prim::ReplaceColor(b, a)),
        _ => None,
    }
}

/// The declared inverse of a primitive: rotations pair up, flips,
/// transpose, inversion and identity are self-inverse, and a color
/// swap reverses; lossy transforms have none.
pub fn inverse(prim: &Prim) -> (r: Option<Prim>)
    ensures
        r == inverse_s(*prim),
{
    match prim {
        Prim::RotateCW => Some(Prim::RotateCCW),
        Prim::RotateCCW => Some(Prim::RotateCW),
        Prim::Rotate180 => Some(Prim::Rotate180),
        Prim::FlipH => Some(Prim::FlipH),
        Prim::FlipV => Some(Prim::FlipV),
        Prim::Transpose => Some(Prim::Transpose),
        Prim::Invert => Some(Prim::Invert),
        Prim::Identity => Some(Prim::Identity),
        Prim::ReplaceColor(a, b) => Some(Prim::ReplaceColor(*b, *a)),
        _ => None,
    }
}

/// The pairs kept: exactly the invertible primitives of the list, in
/// order, each with its declared inverse.
pub open spec fn invertible_pairs_s(ps: Seq<Prim>, n: int) -> Seq<(Prim, Prim)>
    decreases n,
{
    if n <= 0 {
        Seq::empty()
    } else {
        let rest = invertible_pairs_s(ps, n - 1);
        match inverse_s(ps[n - 1]) {
            Some(q) => rest.push((ps[n - 1], q)),
            None => rest,
        }
    }
}

/// The invertible primitives of a set, in order, paired with their
/// inverses — exactly `invertible_pairs_s` of the input.
pub fn invertible_subset(prims: &Vec<Prim>) -> (r: Vec<(Prim, Prim)>)
    ensures
        r@ == invertible_pairs_s(prims@, prims@.len() as int),
        forall|k: int| 0 <= k < r@.len() ==> inverse_s((#[trigger] r@[k]).0) == Some(r@[k].1),
{
    let mut out: Vec<(Prim, Prim)> = Vec::new();
    let mut i: usize = 0;
    while i < prims.len()
        invariant
            0 <= i <= prims@.len(),
            out@ =~= invertible_pairs_s(prims@, i as int),
            forall|k: int| 0 <= k < out@.len() ==> inverse_s((#[trigger] out@[k]).0) == Some(
                out@[k].1,
            ),
        decreases prims@.len() - i,
    {
        match inverse(&prims[i]) {
            Some(inv) => {
                out.push((prims[i].clone(), inv));
            },
            None => {},
        }
        assert(out@ =~= invertible_pairs_s(prims@, i as int + 1));
        i += 1;
    }
    out
}

struct BidirNode {
    grid: Grid,
    program: Prim,
    depth: usize,
}

/// Meet-in-the-middle searcher with a node budget.
#[derive(Debug)]
pub struct BidirSearch {
    pub max_nodes: usize,
}

/// A verified search outcome: the program, the stage depths and the
/// node count.
#[derive(Debug, Clone)]
pub struct BidirResult {
    pub program: Prim,
    pub method: &'static str,
    pub forward_depth: usize,
    pub backward_depth: usize,
    pub nodes_explored: usize,
}

/// Reverses a program step by step, mapping each leaf to its declared
/// inverse (leaves without one stay put).
fn invert_program(prog: &Prim) -> (r: Prim)
    decreases *prog,
{
    match prog {
        Prim::Compose(a, b) => {
            let ia = invert_program(a);
            let ib = invert_program(b);
            Prim::Compose(Box::new(ib), Box::new(ia))
        },
        other => {
            match inverse(other) {
                Some(inv) => inv,
                None => other.clone(),
            }
        },
    }
}

fn compose_programs(existing: &Prim, next: &Prim) -> (r: Prim) {
    match existing {
        Prim::Identity => next.clone(),
        _ => Prim::Compose(Box::new(existing.clone()), Box::new(next.clone())),
    }
}

impl BidirSearch {
    /// A searcher that stops after `max_nodes` frontier nodes.
    pub fn new(max_nodes: usize) -> (s: BidirSearch)
        ensures
            s.max_nodes == max_nodes,
    {
        BidirSearch { max_nodes }
    }

    /// Searches for a program mapping `input` to `target`. A returned
    /// result's program provably does so; equal grids succeed with
    /// the identity program at depth zero with no node explored; and
    /// whenever a single listed primitive maps the input to the
    /// target within the depth budget, success is owed.
    pub fn search(&self, input: &Grid, target: &Grid, forward_prims: &Vec<Prim>, max_depth: usize)
        -> (r: Option<BidirResult>)
        requires
            grid_wf(input),
            grid_wf(target),
        ensures
            r matches Some(res) ==> prim_apply_s(res.program, grid_view(input)) == grid_view(
                target,
            ),
            grid_view(input) == grid_view(target) ==> (r matches Some(res2) && res2.program
                == Prim::Identity && res2.method@ == "identity"@ && res2.forward_depth == 0
                && res2.backward_depth == 0 && res2.nodes_explored == 0),
            max_depth >= 1 && (exists|j: int|
                0 <= j < forward_prims@.len() && prim_apply_s(
                    #[trigger] forward_prims@[j],
                    grid_view(input),
                ) == grid_view(target)) ==> r is Some,
    {
        if grid_eq(input, target) {
            return Some(
                BidirResult {
                    program: Prim::Identity,
                    method: "identity",
                    forward_depth: 0,
                    backward_depth: 0,
                    nodes_explored: 0,
                },
            );
        }
        proof {
            if grid_view(input) == grid_view(target) {
                assert(grid_view(input) =~~= grid_view(target));
                assert(false);
            }
            assert(grid_view(input) != grid_view(target));
        }
        if max_depth >= 1 {
            let mut pi: usize = 0;
            while pi < forward_prims.len()
                invariant
                    0 <= pi <= forward_prims@.len(),
                    grid_wf(input),
                    grid_wf(target),
                    grid_view(input) != grid_view(target),
                    forall|j: int|
                        0 <= j < pi ==> prim_apply_s(
                            #[trigger] forward_prims@[j],
                            grid_view(input),
                        ) != grid_view(target),
                decreases forward_prims@.len() - pi,
            {
                let result = forward_prims[pi].apply(input);
                if grid_eq(&result, target) {
                    let candidate = forward_prims[pi].clone();
                    return Some(
                        BidirResult {
                            program: candidate,
                            method: "bidirectional",
                            forward_depth: 1,
                            backward_depth: 0,
                            nodes_explored: 2,
                        },
                    );
                }
                pi += 1;
            }
        }
        self.search_core(input, target, forward_prims, max_depth)
    }

    /// The frontier expansion behind `search`, for grids already
    /// known to differ.
    fn search_core(&self, input: &Grid, target: &Grid, forward_prims: &Vec<Prim>,
        max_depth: usize) -> (r: Option<BidirResult>)
        requires
            grid_wf(input),
            grid_wf(target),
            grid_view(input) != grid_view(target),
        ensures
            r matches Some(res) ==> prim_apply_s(res.program, grid_view(input)) == grid_view(
                target,
            ),
    {
        let inv_pairs = invertible_subset(forward_prims);
        let mut fwd_seen: FxHashMap<u64, ()> = fx_map_new();
        let mut bwd_seen: FxHashMap<u64, ()> = fx_map_new();
        let mut fwd_nodes: Vec<BidirNode> = Vec::new();
        let mut bwd_nodes: Vec<BidirNode> = Vec::new();
        fx_map_insert(&mut fwd_seen, hash_grid(input), ());
        fx_map_insert(&mut bwd_seen, hash_grid(target), ());
        let seed_f = clone_grid(input);
        fwd_nodes.push(BidirNode { grid: seed_f, program: Prim::Identity, depth: 0 });
        let seed_b = clone_grid(target);
        bwd_nodes.push(BidirNode { grid: seed_b, program: Prim::Identity, depth: 0 });
        let mut total_nodes: usize = 2;
        let half_depth = (if max_depth < usize::MAX { max_depth + 1 } else { max_depth }) / 2;
        let mut depth: usize = 0;
        while depth < half_depth
            invariant
                grid_wf(input),
                grid_wf(target),
                forall|k: int| 0 <= k < fwd_nodes@.len() ==> grid_wf(
                    &(#[trigger] fwd_nodes@[k]).grid,
                ),
                forall|k: int| 0 <= k < bwd_nodes@.len() ==> grid_wf(
                    &(#[trigger] bwd_nodes@[k]).grid,
                ),
            decreases half_depth - depth,
        {
            // forward expansion of this depth's nodes
            let fcount = fwd_nodes.len();
            let mut ni: usize = 0;
            while ni < fcount
                invariant
                    0 <= ni <= fcount,
                    fcount <= fwd_nodes@.len(),
                    depth < usize::MAX,
                    grid_wf(input),
                    grid_wf(target),
                    forall|k: int| 0 <= k < fwd_nodes@.len() ==> grid_wf(
                        &(#[trigger] fwd_nodes@[k]).grid,
                    ),
                    forall|k: int| 0 <= k < bwd_nodes@.len() ==> grid_wf(
                        &(#[trigger] bwd_nodes@[k]).grid,
                    ),
                decreases fcount - ni,
            {
                if fwd_nodes[ni].depth == depth {
                    let mut pi: usize = 0;
                    while pi < forward_prims.len()
                        invariant
                            0 <= pi <= forward_prims@.len(),
                            0 <= ni < fwd_nodes@.len(),
                            fcount <= fwd_nodes@.len(),
                            depth < usize::MAX,
                            grid_wf(input),
                            grid_wf(target),
                            forall|k: int| 0 <= k < fwd_nodes@.len() ==> grid_wf(
                                &(#[trigger] fwd_nodes@[k]).grid,
                            ),
                            forall|k: int| 0 <= k < bwd_nodes@.len() ==> grid_wf(
                                &(#[trigger] bwd_nodes@[k]).grid,
                            ),
                        decreases forward_prims@.len() - pi,
                    {
                        let result = forward_prims[pi].apply(&fwd_nodes[ni].grid);
                        let result_fp = hash_grid(&result);
                        if fx_map_contains(&bwd_seen, result_fp) {
                            // a possible meeting: find the matching backward node
                            let mut bi: usize = 0;
                            while bi < bwd_nodes.len()
                                invariant
                                    0 <= bi <= bwd_nodes@.len(),
                                    0 <= ni < fwd_nodes@.len(),
                                    0 <= pi < forward_prims@.len(),
                                    depth < usize::MAX,
                                    grid_wf(input),
                                    grid_wf(target),
                                    grid_wf(&result),
                                    forall|k: int| 0 <= k < fwd_nodes@.len() ==> grid_wf(
                                        &(#[trigger] fwd_nodes@[k]).grid,
                                    ),
                                    forall|k: int| 0 <= k < bwd_nodes@.len() ==> grid_wf(
                                        &(#[trigger] bwd_nodes@[k]).grid,
                                    ),
                                decreases bwd_nodes@.len() - bi,
                            {
                                if grid_eq(&result, &bwd_nodes[bi].grid) {
                                    let forward_prog = compose_programs(
                                        &fwd_nodes[ni].program,
                                        &forward_prims[pi],
                                    );
                                    let back = invert_program(&bwd_nodes[bi].program);
                                    let full_prog = if bwd_nodes[bi].depth == 0 {
                                        forward_prog
                                    } else {
                                        Prim::Compose(Box::new(forward_prog), Box::new(back))
                                    };
                                    let check = full_prog.apply(input);
                                    if grid_eq(&check, target) {
                                        let bd = bwd_nodes[bi].depth;
                                        return Some(
                                            BidirResult {
                                                program: full_prog,
                                                method: "bidirectional",
                                                forward_depth: depth + 1,
                                                backward_depth: bd,
                                                nodes_explored: total_nodes,
                                            },
                                        );
                                    }
                                }
                                bi += 1;
                            }
                        }
                        if !fx_map_contains(&fwd_seen, result_fp) {
                            if !grid_eq(&result, &fwd_nodes[ni].grid) {
                                let new_prog = compose_programs(
                                    &fwd_nodes[ni].program,
                                    &forward_prims[pi],
                                );
                                fx_map_insert(&mut fwd_seen, result_fp, ());
                                fwd_nodes.push(
                                    BidirNode { grid: result, program: new_prog, depth: depth + 1 },
                                );
                                if total_nodes < usize::MAX {
                                    total_nodes += 1;
                                }
                                if total_nodes >= self.max_nodes {
                                    return None;
                                }
                            }
                        }
                        pi += 1;
                    }
                }
                ni += 1;
            }
            // backward expansion of this depth's nodes
            if inv_pairs.len() > 0 {
                let bcount = bwd_nodes.len();
                let mut nj: usize = 0;
                while nj < bcount
                    invariant
                        0 <= nj <= bcount,
                        bcount <= bwd_nodes@.len(),
                        depth < usize::MAX,
                        grid_wf(input),
                        grid_wf(target),
                        forall|k: int| 0 <= k < fwd_nodes@.len() ==> grid_wf(
                            &(#[trigger] fwd_nodes@[k]).grid,
                        ),
                        forall|k: int| 0 <= k < bwd_nodes@.len() ==> grid_wf(
                            &(#[trigger] bwd_nodes@[k]).grid,
                        ),
                    decreases bcount - nj,
                {
                    if bwd_nodes[nj].depth == depth {
                        let mut pi: usize = 0;
                        while pi < inv_pairs.len()
                            invariant
                                0 <= pi <= inv_pairs@.len(),
                                0 <= nj < bwd_nodes@.len(),
                                bcount <= bwd_nodes@.len(),
                                depth < usize::MAX,
                                grid_wf(input),
                                grid_wf(target),
                                forall|k: int| 0 <= k < fwd_nodes@.len() ==> grid_wf(
                                    &(#[trigger] fwd_nodes@[k]).grid,
                                ),
                                forall|k: int| 0 <= k < bwd_nodes@.len() ==> grid_wf(
                                    &(#[trigger] bwd_nodes@[k]).grid,
                                ),
                            decreases inv_pairs@.len() - pi,
                        {
                            let result = inv_pairs[pi].1.apply(&bwd_nodes[nj].grid);
                            let result_fp = hash_grid(&result);
                            if fx_map_contains(&fwd_seen, result_fp) {
                                let mut fi: usize = 0;
                                while fi < fwd_nodes.len()
                                    invariant
                                        0 <= fi <= fwd_nodes@.len(),
                                        0 <= nj < bwd_nodes@.len(),
                                        0 <= pi < inv_pairs@.len(),
                                        depth < usize::MAX,
                                        grid_wf(input),
                                        grid_wf(target),
                                        grid_wf(&result),
                                        forall|k: int| 0 <= k < fwd_nodes@.len() ==> grid_wf(
                                            &(#[trigger] fwd_nodes@[k]).grid,
                                        ),
                                        forall|k: int| 0 <= k < bwd_nodes@.len() ==> grid_wf(
                                            &(#[trigger] bwd_nodes@[k]).grid,
                                        ),
                                    decreases fwd_nodes@.len() - fi,
                                {
                                    if grid_eq(&result, &fwd_nodes[fi].grid) {
                                        let back_forward = compose_programs(
                                            &bwd_nodes[nj].program,
                                            &inv_pairs[pi].0,
                                        );
                                        let inv_bf = invert_program(&back_forward);
                                        let full_prog = if fwd_nodes[fi].depth == 0 {
                                            inv_bf
                                        } else {
                                            Prim::Compose(
                                                Box::new(fwd_nodes[fi].program.clone()),
                                                Box::new(inv_bf),
                                            )
                                        };
                                        let check = full_prog.apply(input);
                                        if grid_eq(&check, target) {
                                            let fd = fwd_nodes[fi].depth;
                                            return Some(
                                                BidirResult {
                                                    program: full_prog,
                                                    method: "bidirectional",
                                                    forward_depth: fd,
                                                    backward_depth: depth + 1,
                                                    nodes_explored: total_nodes,
                                                },
                                            );
                                        }
                                    }
                                    fi += 1;
                                }
                            }
                            if !fx_map_contains(&bwd_seen, result_fp) {
                                if !grid_eq(&result, &bwd_nodes[nj].grid) {
                                    let new_prog = compose_programs(
                                        &bwd_nodes[nj].program,
                                        &inv_pairs[pi].0,
                                    );
                                    fx_map_insert(&mut bwd_seen, result_fp, ());
                                    bwd_nodes.push(
                                        BidirNode {
                                            grid: result,
                                            program: new_prog,
                                            depth: depth + 1,
                                        },
                                    );
                                    if total_nodes < usize::MAX {
                                        total_nodes += 1;
                                    }
                                    if total_nodes >= self.max_nodes {
                                        return None;
                                    }
                                }
                            }
                            pi += 1;
                        }
                    }
                    nj += 1;
                }
            }
            if total_nodes >= self.max_nodes {
                return None;
            }
            depth += 1;
        }
        None
    }

    /// Searches using the first example pair and accepts only a
    /// program that reproduces every pair; an empty example list
    /// gives nothing to search for.
    pub fn search_all(&self, examples: &Vec<(Grid, Grid)>, prims: &Vec<Prim>, max_depth: usize)
        -> (r: Option<BidirResult>)
        requires
            exs_wf(examples),
        ensures
            r matches Some(res) ==> solves_examples(res.program, exs_view(examples)),
            examples@.len() == 0 ==> r is None,
    {
        if examples.is_empty() {
            return None;
        }
        let found = self.search(&examples[0].0, &examples[0].1, prims, max_depth);
        match found {
            Some(res) => {
                if matches_all(&res.program, examples) {
                    Some(res)
                } else {
                    None
                }
            },
            None => None,
        }
    }
}

} // verus!
