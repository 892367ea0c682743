use koloss_v2::arc::solve_arc_task;
use koloss_v2::task::{ArcTask, ArcExample};
use koloss_v2::dsl::Prim;
use koloss_v2::bidir::BidirSearch;
use koloss_v2::smart::try_smart_transforms;
use koloss_v2::enumerate::synthesize;
use koloss_v2::grid::Grid;

fn flip_h(g: &Grid) -> Grid {
    Prim::FlipH.apply(g)
}

#[test]
fn identity_leaves_any_grid_unchanged() {
    let g = vec![vec![0, 3, 7], vec![9, 1, 0]];
    assert_eq!(Prim::Identity.apply(&g), g);
}

#[test]
fn rotation_round_trips() {
    let g = vec![vec![1, 2, 3], vec![4, 5, 6]];
    let cw = Prim::RotateCW.apply(&g);
    assert_eq!(Prim::RotateCCW.apply(&cw), g);
    let t = Prim::Transpose.apply(&g);
    assert_eq!(Prim::Transpose.apply(&t), g);
    let half = Prim::Rotate180.apply(&g);
    assert_eq!(Prim::Rotate180.apply(&half), g);
}

#[test]
fn flip_round_trips() {
    let g = vec![vec![1, 2, 3], vec![4, 5, 6]];
    assert_eq!(Prim::FlipH.apply(&Prim::FlipH.apply(&g)), g);
    assert_eq!(Prim::FlipV.apply(&Prim::FlipV.apply(&g)), g);
}

#[test]
fn color_swap_round_trips_when_target_absent() {
    let g = vec![vec![1, 0], vec![1, 3]];
    let swapped = Prim::ReplaceColor(1, 2).apply(&g);
    assert_eq!(Prim::ReplaceColor(2, 1).apply(&swapped), g);
}

#[test]
fn invert_round_trips_on_two_valued_grids() {
    let g = vec![vec![5, 0], vec![0, 5]];
    let inv = Prim::Invert.apply(&g);
    assert_eq!(Prim::Invert.apply(&inv), g);
}

#[test]
fn apply_is_deterministic() {
    let g = vec![vec![1, 0, 2], vec![0, 3, 0]];
    let p = Prim::Compose(Box::new(Prim::GravityDown), Box::new(Prim::FlipH));
    assert_eq!(p.apply(&g), p.apply(&g));
}

#[test]
fn solved_by_heuristic_single_step() {
    // the learned stages fail on the held-out colors, so the cascade
    // falls through to single-step enumeration and stops there
    let train_in = vec![vec![1, 2], vec![3, 4]];
    let train_out = flip_h(&train_in);
    let test_in = vec![vec![5, 6], vec![7, 8]];
    let test_out = flip_h(&test_in);
    let task = ArcTask {
        id: "flip".into(),
        train: vec![ArcExample { input: train_in, output: train_out }],
        test: vec![ArcExample { input: test_in, output: test_out }],
    };
    let result = solve_arc_task(&task, 3);
    assert!(result.solved);
    assert_eq!(result.method, "heuristic_single");
    assert_eq!(result.program_size, 1);
}

#[test]
fn two_step_found_by_meet_in_the_middle() {
    let input = vec![vec![1, 2, 3], vec![4, 5, 6]];
    let mid = Prim::FlipH.apply(&input);
    let target = Prim::FlipV.apply(&mid);
    let bidir = BidirSearch::new(5000);
    let prims = vec![Prim::FlipH, Prim::FlipV];
    let result = bidir.search(&input, &target, &prims, 4).unwrap();
    assert_eq!(result.program.size(), 3);
    assert_eq!(result.program.apply(&input), target);
    let depth = result.forward_depth + result.backward_depth;
    assert_eq!(depth, 2);
}

#[test]
fn consistent_remap_solved_by_smart_transforms() {
    let task = ArcTask {
        id: "remap".into(),
        train: vec![ArcExample { input: vec![vec![1, 2]], output: vec![vec![3, 4]] }],
        test: vec![ArcExample { input: vec![vec![1, 2]], output: vec![vec![3, 4]] }],
    };
    let result = solve_arc_task(&task, 3);
    assert!(result.solved);
    assert_eq!(result.method, "smart_color_map");
    assert_eq!(result.checked, 1);
}

#[test]
fn tiling_solved_by_smart_transforms() {
    let input = vec![vec![0, 1], vec![2, 3]];
    let output = koloss_v2::smart::tile_grid(&input, 2, 2);
    let task = ArcTask {
        id: "tile".into(),
        train: vec![ArcExample { input: input.clone(), output: output.clone() }],
        test: vec![ArcExample { input, output }],
    };
    let result = solve_arc_task(&task, 3);
    assert!(result.solved);
    assert_eq!(result.method, "smart_tile");
}

#[test]
fn inconsistent_remap_yields_no_smart_candidate() {
    let examples = vec![(vec![vec![1, 1]], vec![vec![2, 3]])];
    assert!(try_smart_transforms(&examples).is_none());
    // the cascade proceeds past the learned stages
    let task = ArcTask {
        id: "conflict".into(),
        train: vec![ArcExample { input: vec![vec![1, 1]], output: vec![vec![2, 3]] }],
        test: vec![ArcExample { input: vec![vec![1, 1]], output: vec![vec![2, 3]] }],
    };
    let result = solve_arc_task(&task, 1);
    assert!(!result.method.starts_with("smart_"));
}

#[test]
fn unsolved_reports_no_score() {
    let task = ArcTask {
        id: "hard".into(),
        train: vec![ArcExample { input: vec![vec![1, 1]], output: vec![vec![2, 3]] }],
        test: vec![ArcExample { input: vec![vec![1, 1]], output: vec![vec![2, 3]] }],
    };
    let result = solve_arc_task(&task, 1);
    if !result.solved {
        assert!(result.mdl.is_none());
        assert_eq!(result.program_size, 0);
    }
}

#[test]
fn brute_force_finds_exact_program() {
    let input = vec![vec![1, 2], vec![3, 4]];
    let output = Prim::Rotate180.apply(&input);
    let examples = vec![(input.clone(), output.clone())];
    let found = synthesize(&examples, 1).unwrap();
    assert_eq!(found.program.apply(&input), output);
}

#[test]
fn solved_by_self_tiling() {
    let train_in = vec![vec![1, 2], vec![3, 4]];
    let train_out = vec![
        vec![1, 2, 1, 2],
        vec![3, 4, 3, 4],
        vec![1, 2, 1, 2],
        vec![3, 4, 3, 4],
    ];
    let task = ArcTask {
        id: "tile".into(),
        train: vec![ArcExample { input: train_in.clone(), output: train_out.clone() }],
        test: vec![ArcExample { input: train_in, output: train_out }],
    };
    let result = solve_arc_task(&task, 3);
    assert!(result.solved);
    assert_eq!(result.method, "smart_self_tile");
    assert_eq!(result.program_size, 1);
    assert_eq!(result.checked, 1);
}

#[test]
fn dag_search_owes_single_step_finds() {
    let input = vec![vec![1, 2], vec![3, 4]];
    let target = Prim::FlipV.apply(&input);
    let prims = vec![Prim::RotateCW, Prim::FlipV];
    let mut dag = koloss_v2::dag::SearchDag::new(1000);
    let found = dag.search(&input, &target, &prims, 3).unwrap();
    assert_eq!(found.apply(&input), target);
}
