//! The cascade controller: strategies tried in a strict priority
//! order — learned transforms, the cellular-automaton learner,
//! heuristic one- and two-step enumeration, meet-in-the-middle
//! search, forward search, brute force, and genetic evolution — under
//! a cooperative wall-clock budget polled between stages. A candidate
//! is accepted only after it reproduces every training and every
//! held-out pair exactly; otherwise the cascade falls through to the
//! next stage and finally reports the task unsolved.

use vstd::prelude::*;
use vstd::string::StringExecFns;
use std::time::Instant;
use crate::grid::{Grid, grid_view, grid_eq};
use crate::task::{ArcTask, ArcExample, task_wf};
use crate::dsl::{Prim, prim_apply_s};
use crate::enumerate::{synthesize, matches_all, solves_examples};
use crate::evolve::evolve;
use crate::heuristics::{analyze_features, select_primitives};
use crate::bidir::BidirSearch;
use crate::dag::SearchDag;
use crate::compression::{mdl_score, exs_wf, exs_view};
use crate::smart::{
    try_smart_transforms, cm_explains_all, some_color_map_explains, smart_cm_ok, map_explains,
    map_dom_exact, color_map_apply_s, lemma_color_map_unique, SmartTransform, transform_applies,
    tile_self_s,
};
use crate::cellular::{try_ca_solve, ca_steps_reaches, NeighborSignature};
use crate::task::decimal_string;

verus! {

/// Wall-clock budget per task, in milliseconds.
pub const TASK_TIMEOUT_MS: u128 = 10_000;

#[verifier::external_type_specification]
#[verifier::external_body]
pub struct ExInstant(Instant);

/// Relies on `std::time::Instant::now`; what it returns depends on
/// the clock, so nothing is promised of it.
#[verifier::external_body]
fn clock_start() -> (t: Instant) {
    Instant::now()
}

/// Relies on `Instant::elapsed` and `Duration::as_millis`; the value
/// depends on the clock, so nothing is promised of it.
#[verifier::external_body]
fn elapsed_ms(start: &Instant) -> (ms: u128) {
    start.elapsed().as_millis()
}

/// One color map, with exactly the first training input's colors as
/// its domain, explains every training pair and maps every held-out
/// input to its output.
pub open spec fn cm_solves_task_with(m: Map<u8, u8>, t: &ArcTask) -> bool {
    &&& map_dom_exact(m, grid_view(&t.train@[0].input))
    &&& forall|k: int|
        0 <= k < t.train@.len() ==> map_explains(
            m,
            grid_view(&(#[trigger] t.train@[k]).input),
            grid_view(&t.train@[k].output),
        )
    &&& forall|k: int|
        0 <= k < t.test@.len() ==> color_map_apply_s(m, grid_view(&(#[trigger] t.test@[k]).input))
            == grid_view(&t.test@[k].output)
}

/// Some single color map solves the whole task, training and
/// held-out pairs alike.
pub open spec fn color_map_solves_task(t: &ArcTask) -> bool {
    t.train@.len() > 0 && exists|m: Map<u8, u8>| #[trigger] cm_solves_task_with(m, t)
}

/// One color map, with the first training input's colors as its
/// domain, explains every training pair.
pub open spec fn cm_explains_train_with(m: Map<u8, u8>, t: &ArcTask) -> bool {
    &&& map_dom_exact(m, grid_view(&t.train@[0].input))
    &&& forall|k: int|
        0 <= k < t.train@.len() ==> map_explains(
            m,
            grid_view(&(#[trigger] t.train@[k]).input),
            grid_view(&t.train@[k].output),
        )
}

/// Some such color map explains every training pair.
pub open spec fn task_cm_explains_train(t: &ArcTask) -> bool {
    t.train@.len() > 0 && exists|m: Map<u8, u8>| #[trigger] cm_explains_train_with(m, t)
}

/// Tiling each input by its own shape gives the output, on every
/// training and held-out pair.
pub open spec fn self_tile_solves_task(t: &ArcTask) -> bool {
    &&& t.train@.len() > 0
    &&& forall|k: int|
        0 <= k < t.train@.len() ==> tile_self_s(grid_view(&(#[trigger] t.train@[k]).input))
            == grid_view(&t.train@[k].output)
    &&& forall|k: int|
        0 <= k < t.test@.len() ==> tile_self_s(grid_view(&(#[trigger] t.test@[k]).input))
            == grid_view(&t.test@[k].output)
}

/// One DSL program reproduces every training and held-out pair.
pub open spec fn prim_solves_task(p: Prim, t: &ArcTask) -> bool {
    &&& forall|k: int|
        0 <= k < t.train@.len() ==> prim_apply_s(p, grid_view(&(#[trigger] t.train@[k]).input))
            == grid_view(&t.train@[k].output)
    &&& forall|k: int|
        0 <= k < t.test@.len() ==> prim_apply_s(p, grid_view(&(#[trigger] t.test@[k]).input))
            == grid_view(&t.test@[k].output)
}

/// One learned transform reproduces every training and held-out pair.
pub open spec fn smart_solves_task(st: SmartTransform, t: &ArcTask) -> bool {
    &&& forall|k: int|
        0 <= k < t.train@.len() ==> transform_applies(
            st,
            grid_view(&(#[trigger] t.train@[k]).input),
            grid_view(&t.train@[k].output),
        )
    &&& forall|k: int|
        0 <= k < t.test@.len() ==> transform_applies(
            st,
            grid_view(&(#[trigger] t.test@[k]).input),
            grid_view(&t.test@[k].output),
        )
}

/// One cellular rule, run for one step count, takes every training
/// and held-out input to its output.
pub open spec fn ca_solves_task(m: Map<NeighborSignature, u8>, steps: nat, t: &ArcTask) -> bool {
    &&& forall|k: int|
        0 <= k < t.train@.len() ==> ca_steps_reaches(
            m,
            grid_view(&(#[trigger] t.train@[k]).input),
            grid_view(&t.train@[k].output),
            steps,
        )
    &&& forall|k: int|
        0 <= k < t.test@.len() ==> ca_steps_reaches(
            m,
            grid_view(&(#[trigger] t.test@[k]).input),
            grid_view(&t.test@[k].output),
            steps,
        )
}

/// Evidence that the task is truly solved: some DSL program, some
/// learned transform, or some cellular rule with a step count
/// reproduces every training and every held-out pair exactly.
pub open spec fn task_solution_exists(t: &ArcTask) -> bool {
    ||| exists|p: Prim| #[trigger] prim_solves_task(p, t)
    ||| exists|st: SmartTransform| #[trigger] smart_solves_task(st, t)
    ||| exists|m: Map<NeighborSignature, u8>, k: nat| #[trigger] ca_solves_task(m, k, t)
}

/// The learned-transform method labels, assembled.
proof fn lemma_smart_strings()
    ensures
        "smart_"@ + "color_map"@ == "smart_color_map"@,
        "smart_"@ + "self_tile"@ == "smart_self_tile"@,
{
    reveal_strlit("smart_");
    reveal_strlit("color_map");
    reveal_strlit("smart_color_map");
    reveal_strlit("self_tile");
    reveal_strlit("smart_self_tile");
    assert("smart_"@ + "color_map"@ =~= "smart_color_map"@);
    assert("smart_"@ + "self_tile"@ =~= "smart_self_tile"@);
}

/// A program that reproduces the training copies and the held-out
/// pairs is evidence that the task is solved.
proof fn lemma_prim_evidence(p: Prim, task: &ArcTask, examples: &Vec<(Grid, Grid)>)
    requires
        examples@.len() == task.train@.len(),
        forall|q: int|
            0 <= q < examples@.len() ==> grid_view(&(#[trigger] examples@[q]).0) == grid_view(
                &task.train@[q].input,
            ) && grid_view(&examples@[q].1) == grid_view(&task.train@[q].output),
        solves_examples(p, exs_view(examples)),
        forall|k: int|
            0 <= k < task.test@.len() ==> prim_apply_s(
                p,
                grid_view(&(#[trigger] task.test@[k]).input),
            ) == grid_view(&task.test@[k].output),
    ensures
        task_solution_exists(task),
{
    assert forall|k: int| 0 <= k < task.train@.len() implies prim_apply_s(
        p,
        grid_view(&(#[trigger] task.train@[k]).input),
    ) == grid_view(&task.train@[k].output) by {
        assert(exs_view(examples)[k].0 == grid_view(&examples@[k].0));
        assert(prim_apply_s(p, (exs_view(examples)[k]).0) == exs_view(examples)[k].1);
    }
    assert(prim_solves_task(p, task));
}

/// The cascade's verdict on one task.
#[derive(Debug, Clone)]
pub struct ArcResult {
    pub task_id: String,
    pub solved: bool,
    pub method: String,
    pub program_size: usize,
    pub checked: usize,
    pub mdl: Option<u128>,
}

/// Exact check of a program against every held-out pair.
fn validates(program: &Prim, task: &ArcTask) -> (r: bool)
    requires
        task_wf(task),
    ensures
        r == forall|k: int|
            0 <= k < task.test@.len() ==> prim_apply_s(
                *program,
                grid_view(&(#[trigger] task.test@[k]).input),
            ) == grid_view(&task.test@[k].output),
{
    let mut k: usize = 0;
    while k < task.test.len()
        invariant
            0 <= k <= task.test@.len(),
            task_wf(task),
            forall|q: int|
                0 <= q < k ==> prim_apply_s(
                    *program,
                    grid_view(&(#[trigger] task.test@[q]).input),
                ) == grid_view(&task.test@[q].output),
        decreases task.test@.len() - k,
    {
        let result = program.apply(&task.test[k].input);
        if !grid_eq(&result, &task.test[k].output) {
            assert(prim_apply_s(*program, grid_view(&task.test@[k as int].input)) != grid_view(
                &task.test@[k as int].output,
            ));
            return false;
        }
        assert(prim_apply_s(*program, grid_view(&task.test@[k as int].input)) == grid_view(
            &task.test@[k as int].output,
        ));
        k += 1;
    }
    true
}

fn unsolved(task: &ArcTask, checked: usize) -> (r: ArcResult)
    ensures
        !r.solved,
        r.mdl is None,
        r.program_size == 0,
        r.method@ == "none"@,
        r.checked == checked,
{
    ArcResult {
        task_id: task.id.clone(),
        solved: false,
        method: String::from_str("none"),
        program_size: 0,
        checked,
        mdl: None,
    }
}

fn sat_add_usize(a: usize, b: usize) -> (r: usize)
    ensures
        r == if a + b <= usize::MAX {
            a + b
        } else {
            usize::MAX as int
        },
{
    if a <= usize::MAX - b {
        a + b
    } else {
        usize::MAX
    }
}

/// Solves one task by the strategy cascade. A solved result reports
/// a method and score; an unsolved one keeps the work counter and no
/// score. Every accepted candidate was checked exactly against both
/// the training and the held-out pairs before acceptance.
#[verifier::rlimit(100)]
pub fn solve_arc_task(task: &ArcTask, max_size: usize) -> (r: ArcResult)
    requires
        task_wf(task),
    ensures
        r.solved <==> r.mdl is Some,
        !r.solved ==> r.program_size == 0 && r.method@ == "none"@,
        r.solved ==> r.program_size >= 1,
        r.solved ==> task_solution_exists(task),
        color_map_solves_task(task) ==> r.solved && r.method@ == "smart_color_map"@ && r.checked
            == 1 && r.program_size == 1,
        self_tile_solves_task(task) && !task_cm_explains_train(task) ==> r.solved && r.method@
            == "smart_self_tile"@ && r.checked == 1 && r.program_size == 1,
{
    let start = clock_start();
    let mut examples: Vec<(Grid, Grid)> = Vec::new();
    let mut i: usize = 0;
    while i < task.train.len()
        invariant
            0 <= i <= task.train@.len(),
            task_wf(task),
            examples@.len() == i,
            crate::compression::exs_wf(&examples),
            forall|q: int|
                0 <= q < i ==> grid_view(&(#[trigger] examples@[q]).0) == grid_view(
                    &task.train@[q].input,
                ) && grid_view(&examples@[q].1) == grid_view(&task.train@[q].output),
        decreases task.train@.len() - i,
    {
        let input = crate::prims_basic::clone_grid(&task.train[i].input);
        let output = crate::prims_basic::clone_grid(&task.train[i].output);
        examples.push((input, output));
        i += 1;
    }
    proof {
        if color_map_solves_task(task) {
            let m = choose|m: Map<u8, u8>| #[trigger] cm_solves_task_with(m, task);
            assert(cm_explains_all(m, &examples)) by {
                assert(grid_view(&examples@[0].0) == grid_view(&task.train@[0].input));
                assert forall|k: int| 0 <= k < examples@.len() implies map_explains(
                    m,
                    grid_view(&(#[trigger] examples@[k]).0),
                    grid_view(&examples@[k].1),
                ) by {
                    assert(map_explains(m, grid_view(&task.train@[k].input), grid_view(
                        &task.train@[k].output,
                    )));
                }
            }
            assert(some_color_map_explains(&examples));
        }
    }
    proof {
        if self_tile_solves_task(task) && !task_cm_explains_train(task) {
            if some_color_map_explains(&examples) {
                let m = choose|m: Map<u8, u8>| #[trigger] cm_explains_all(m, &examples);
                assert(map_dom_exact(m, grid_view(&task.train@[0].input))) by {
                    assert(grid_view(&examples@[0].0) == grid_view(&task.train@[0].input));
                }
                assert forall|k: int| 0 <= k < task.train@.len() implies map_explains(
                    m,
                    grid_view(&(#[trigger] task.train@[k]).input),
                    grid_view(&task.train@[k].output),
                ) by {
                    assert(map_explains(m, grid_view(&examples@[k].0), grid_view(
                        &examples@[k].1,
                    )));
                }
                assert(cm_explains_train_with(m, task));
                assert(false);
            }
            assert forall|k: int| 0 <= k < examples@.len() implies tile_self_s(grid_view(
                &(#[trigger] examples@[k]).0,
            )) == grid_view(&examples@[k].1) by {
                assert(grid_view(&examples@[k].0) == grid_view(&task.train@[k].input));
                assert(tile_self_s(grid_view(&task.train@[k].input)) == grid_view(
                    &task.train@[k].output,
                ));
            }
        }
    }
    // learned transforms
    match try_smart_transforms(&examples) {
        Some(smart) => {
            proof {
                assert(smart_cm_ok(smart, &examples));
            }
            let mut test_ok = true;
            let mut k: usize = 0;
            while k < task.test.len()
                invariant_except_break
                    0 <= k <= task.test@.len(),
                    task_wf(task),
                    examples@.len() == task.train@.len(),
                    forall|q: int|
                        0 <= q < examples@.len() ==> grid_view(&(#[trigger] examples@[q]).0)
                            == grid_view(&task.train@[q].input) && grid_view(&examples@[q].1)
                            == grid_view(&task.train@[q].output),
                    color_map_solves_task(task) ==> some_color_map_explains(&examples),
                    some_color_map_explains(&examples) ==> smart is ColorMap,
                    smart_cm_ok(smart, &examples),
                    self_tile_solves_task(task) && !task_cm_explains_train(task) ==> smart
                        is SelfTile,
                    test_ok,
                    forall|q: int|
                        0 <= q < k ==> transform_applies(
                            smart,
                            grid_view(&(#[trigger] task.test@[q]).input),
                            grid_view(&task.test@[q].output),
                        ),
                ensures
                    0 <= k <= task.test@.len(),
                    color_map_solves_task(task) ==> test_ok,
                    self_tile_solves_task(task) && !task_cm_explains_train(task) ==> test_ok,
                    test_ok ==> k == task.test@.len() && forall|q: int|
                        0 <= q < task.test@.len() ==> transform_applies(
                            smart,
                            grid_view(&(#[trigger] task.test@[q]).input),
                            grid_view(&task.test@[q].output),
                        ),
                decreases task.test@.len() - k,
            {
                let applied = smart.apply(&task.test[k].input);
                if !grid_eq(&applied, &task.test[k].output) {
                    proof {
                        if color_map_solves_task(task) {
                            let m = choose|m2: Map<u8, u8>| #[trigger] cm_solves_task_with(
                                m2,
                                task,
                            );
                            assert(smart is ColorMap);
                            let mm = smart->ColorMap_0;
                            assert(cm_explains_all(mm@, &examples));
                            assert(map_explains(m, grid_view(&examples@[0].0), grid_view(
                                &examples@[0].1,
                            ))) by {
                                assert(map_explains(m, grid_view(&task.train@[0].input),
                                    grid_view(&task.train@[0].output)));
                            }
                            assert(map_explains(mm@, grid_view(&examples@[0].0), grid_view(
                                &examples@[0].1,
                            )));
                            lemma_color_map_unique(
                                m,
                                mm@,
                                grid_view(&examples@[0].0),
                                grid_view(&examples@[0].1),
                            );
                            assert(color_map_apply_s(m, grid_view(&task.test@[k as int].input))
                                == grid_view(&task.test@[k as int].output));
                            assert(grid_view(&applied) == color_map_apply_s(mm@, grid_view(
                                &task.test@[k as int].input,
                            )));
                            assert(false);
                        }
                        if self_tile_solves_task(task) && !task_cm_explains_train(task) {
                            assert(smart is SelfTile);
                            assert(grid_view(&applied) == tile_self_s(grid_view(
                                &task.test@[k as int].input,
                            )));
                            assert(tile_self_s(grid_view(&task.test@[k as int].input))
                                == grid_view(&task.test@[k as int].output));
                            assert(false);
                        }
                    }
                    test_ok = false;
                    break;
                }
                proof {
                    assert(transform_applies(smart, grid_view(&task.test@[k as int].input),
                        grid_view(&applied)));
                    assert(grid_view(&applied) == grid_view(&task.test@[k as int].output));
                }
                k += 1;
            }
            if test_ok {
                proof {
                    assert forall|q: int| 0 <= q < task.train@.len() implies transform_applies(
                        smart,
                        grid_view(&(#[trigger] task.train@[q]).input),
                        grid_view(&task.train@[q].output),
                    ) by {
                        assert(transform_applies(smart, grid_view(&examples@[q].0), grid_view(
                            &examples@[q].1,
                        )));
                    }
                    assert(smart_solves_task(smart, task));
                    assert(task_solution_exists(task));
                    lemma_smart_strings();
                }
                let name = smart.name();
                return ArcResult {
                    task_id: task.id.clone(),
                    solved: true,
                    method: String::from_str("smart_").concat(name),
                    program_size: 1,
                    checked: 1,
                    mdl: Some(20),
                };
            }
        },
        None => {},
    }
    assert(!color_map_solves_task(task));
    assert(!(self_tile_solves_task(task) && !task_cm_explains_train(task)));
    // cellular-automaton rule learning
    match try_ca_solve(&examples, 3) {
        Some(ca) => {
            let mut test_ok = true;
            let mut k: usize = 0;
            while k < task.test.len()
                invariant_except_break
                    0 <= k <= task.test@.len(),
                    task_wf(task),
                    test_ok,
                    forall|q: int|
                        0 <= q < k ==> ca_steps_reaches(
                            ca.rule@,
                            grid_view(&(#[trigger] task.test@[q]).input),
                            grid_view(&task.test@[q].output),
                            ca.steps as nat,
                        ),
                ensures
                    test_ok ==> k == task.test@.len() && forall|q: int|
                        0 <= q < task.test@.len() ==> ca_steps_reaches(
                            ca.rule@,
                            grid_view(&(#[trigger] task.test@[q]).input),
                            grid_view(&task.test@[q].output),
                            ca.steps as nat,
                        ),
                decreases task.test@.len() - k,
            {
                let applied = ca.apply(&task.test[k].input);
                if !grid_eq(&applied, &task.test[k].output) {
                    test_ok = false;
                    break;
                }
                proof {
                    assert(grid_view(&applied) == grid_view(&task.test@[k as int].output));
                }
                k += 1;
            }
            if test_ok {
                proof {
                    assert forall|q: int| 0 <= q < task.train@.len() implies ca_steps_reaches(
                        ca.rule@,
                        grid_view(&(#[trigger] task.train@[q]).input),
                        grid_view(&task.train@[q].output),
                        ca.steps as nat,
                    ) by {
                        assert(ca_steps_reaches(ca.rule@, grid_view(&examples@[q].0), grid_view(
                            &examples@[q].1,
                        ), ca.steps as nat));
                    }
                    assert(ca_solves_task(ca.rule@, ca.steps as nat, task));
                    assert(task_solution_exists(task));
                }
                let steps = decimal_string(ca.steps as u64);
                return ArcResult {
                    task_id: task.id.clone(),
                    solved: true,
                    method: String::from_str("cellular_").concat(steps.as_str()).concat(
                        "steps",
                    ),
                    program_size: 1,
                    checked: 1,
                    mdl: Some(30),
                };
            }
        },
        None => {},
    }
    // heuristic enumeration, single step
    let profile = analyze_features(&examples);
    let heuristic_prims = select_primitives(&profile);
    let mut checked: usize = 0;
    let mut p: usize = 0;
    while p < heuristic_prims.len()
        invariant
            0 <= p <= heuristic_prims@.len(),
            task_wf(task),
            crate::compression::exs_wf(&examples),
            examples@.len() < 0x1_0000_0000,
            examples@.len() == task.train@.len(),
            forall|q: int|
                0 <= q < examples@.len() ==> grid_view(&(#[trigger] examples@[q]).0) == grid_view(
                    &task.train@[q].input,
                ) && grid_view(&examples@[q].1) == grid_view(&task.train@[q].output),
            !color_map_solves_task(task),
            !(self_tile_solves_task(task) && !task_cm_explains_train(task)),
        decreases heuristic_prims@.len() - p,
    {
        if matches_all(&heuristic_prims[p], &examples) {
            if validates(&heuristic_prims[p], task) {
                let program = heuristic_prims[p].clone();
                proof {
                    lemma_prim_evidence(program, task, &examples);
                }
                let mdl = mdl_score(&program, &examples);
                return ArcResult {
                    task_id: task.id.clone(),
                    solved: true,
                    method: String::from_str("heuristic_single"),
                    program_size: program.size(),
                    checked: heuristic_prims.len(),
                    mdl: Some(mdl),
                };
            }
        }
        p += 1;
    }
    checked = heuristic_prims.len();
    // heuristic enumeration, two steps
    let mut a: usize = 0;
    let mut timed_out = false;
    while a < heuristic_prims.len() && !timed_out
        invariant
            0 <= a <= heuristic_prims@.len(),
            task_wf(task),
            crate::compression::exs_wf(&examples),
            examples@.len() < 0x1_0000_0000,
            examples@.len() == task.train@.len(),
            forall|q: int|
                0 <= q < examples@.len() ==> grid_view(&(#[trigger] examples@[q]).0) == grid_view(
                    &task.train@[q].input,
                ) && grid_view(&examples@[q].1) == grid_view(&task.train@[q].output),
            !color_map_solves_task(task),
            !(self_tile_solves_task(task) && !task_cm_explains_train(task)),
        decreases heuristic_prims@.len() - a + (if timed_out { 0int } else { 1int }),
    {
        let mut b: usize = 0;
        while b < heuristic_prims.len()
            invariant
                0 <= b <= heuristic_prims@.len(),
                0 <= a < heuristic_prims@.len(),
                task_wf(task),
                crate::compression::exs_wf(&examples),
                examples@.len() < 0x1_0000_0000,
                examples@.len() == task.train@.len(),
                forall|q: int|
                    0 <= q < examples@.len() ==> grid_view(&(#[trigger] examples@[q]).0) == grid_view(
                        &task.train@[q].input,
                    ) && grid_view(&examples@[q].1) == grid_view(&task.train@[q].output),
                !color_map_solves_task(task),
                !(self_tile_solves_task(task) && !task_cm_explains_train(task)),
            decreases heuristic_prims@.len() - b,
        {
            checked = sat_add_usize(checked, 1);
            let composed = Prim::Compose(
                Box::new(heuristic_prims[a].clone()),
                Box::new(heuristic_prims[b].clone()),
            );
            if matches_all(&composed, &examples) {
                if validates(&composed, task) {
                    proof {
                        lemma_prim_evidence(composed, task, &examples);
                    }
                    let mdl = mdl_score(&composed, &examples);
                    return ArcResult {
                        task_id: task.id.clone(),
                        solved: true,
                        method: String::from_str("heuristic_compose2"),
                        program_size: composed.size(),
                        checked,
                        mdl: Some(mdl),
                    };
                }
            }
            b += 1;
        }
        if elapsed_ms(&start) > TASK_TIMEOUT_MS {
            timed_out = true;
        } else {
            a += 1;
        }
    }
    if elapsed_ms(&start) > TASK_TIMEOUT_MS {
        return unsolved(task, checked);
    }
    // meet-in-the-middle search
    let bidir = BidirSearch::new(5_000);
    match bidir.search_all(&examples, &heuristic_prims, 3) {
        Some(result) => {
            if validates(&result.program, task) {
                proof {
                    lemma_prim_evidence(result.program, task, &examples);
                }
                let mdl = mdl_score(&result.program, &examples);
                let fd = decimal_string(result.forward_depth as u64);
                let bd = decimal_string(result.backward_depth as u64);
                return ArcResult {
                    task_id: task.id.clone(),
                    solved: true,
                    method: String::from_str("bidir_").concat(fd.as_str()).concat("f_").concat(
                        bd.as_str(),
                    ).concat("b"),
                    program_size: result.program.size(),
                    checked: sat_add_usize(checked, result.nodes_explored),
                    mdl: Some(mdl),
                };
            }
        },
        None => {},
    }
    if elapsed_ms(&start) > TASK_TIMEOUT_MS {
        return unsolved(task, checked);
    }
    // forward search on the first example
    let mut dag = SearchDag::new(20_000);
    if examples.len() > 0 {
        match dag.search(&examples[0].0, &examples[0].1, &heuristic_prims, 3) {
            Some(prog) => {
                if matches_all(&prog, &examples) {
                    if validates(&prog, task) {
                        proof {
                            lemma_prim_evidence(prog, task, &examples);
                        }
                        let mdl = mdl_score(&prog, &examples);
                        return ArcResult {
                            task_id: task.id.clone(),
                            solved: true,
                            method: String::from_str("dag_search"),
                            program_size: prog.size(),
                            checked: sat_add_usize(checked, dag.nodes_explored()),
                            mdl: Some(mdl),
                        };
                    }
                }
            },
            None => {},
        }
    }
    if elapsed_ms(&start) > TASK_TIMEOUT_MS {
        return unsolved(task, checked);
    }
    // brute force over the catalog
    let brute_cap = if max_size < 2 {
        max_size
    } else {
        2
    };
    match synthesize(&examples, brute_cap) {
        Some(result) => {
            if validates(&result.program, task) {
                proof {
                    lemma_prim_evidence(result.program, task, &examples);
                }
                let mdl = mdl_score(&result.program, &examples);
                return ArcResult {
                    task_id: task.id.clone(),
                    solved: true,
                    method: String::from_str("enumerate"),
                    program_size: result.size,
                    checked: sat_add_usize(checked, result.checked),
                    mdl: Some(mdl),
                };
            }
        },
        None => {},
    }
    if elapsed_ms(&start) > TASK_TIMEOUT_MS {
        return unsolved(task, checked);
    }
    // genetic evolution
    match evolve(&examples, 30, 50) {
        Some(individual) => {
            if matches_all(&individual.program, &examples) {
                if validates(&individual.program, task) {
                    proof {
                        lemma_prim_evidence(individual.program, task, &examples);
                    }
                    let mdl = mdl_score(&individual.program, &examples);
                    return ArcResult {
                        task_id: task.id.clone(),
                        solved: true,
                        method: String::from_str("evolution"),
                        program_size: individual.program.size(),
                        checked: sat_add_usize(checked, 1500),
                        mdl: Some(mdl),
                    };
                }
            }
        },
        None => {},
    }
    unsolved(task, checked)
}

} // verus!
