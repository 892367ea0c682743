use koloss_v2::dsl::Prim;
use koloss_v2::bidir::{inverse, invertible_subset, BidirSearch};
use koloss_v2::dag::{Library, SearchDag, wake_extract, sleep_compress, wake_sleep_cycle};

#[test]
fn inverse_rotate() {
    assert_eq!(inverse(&Prim::RotateCW), Some(Prim::RotateCCW));
    assert_eq!(inverse(&Prim::RotateCCW), Some(Prim::RotateCW));
    assert_eq!(inverse(&Prim::Rotate180), Some(Prim::Rotate180));
}

#[test]
fn inverse_self_inverse() {
    assert_eq!(inverse(&Prim::FlipH), Some(Prim::FlipH));
    assert_eq!(inverse(&Prim::FlipV), Some(Prim::FlipV));
    assert_eq!(inverse(&Prim::Transpose), Some(Prim::Transpose));
    assert_eq!(inverse(&Prim::Invert), Some(Prim::Invert));
}

#[test]
fn inverse_color_swap() {
    assert_eq!(inverse(&Prim::ReplaceColor(1, 2)), Some(Prim::ReplaceColor(2, 1)));
}

#[test]
fn inverse_lossy_returns_none() {
    assert_eq!(inverse(&Prim::GravityDown), None);
    assert_eq!(inverse(&Prim::KeepLargestObject), None);
    assert_eq!(inverse(&Prim::FillColor(1)), None);
}

#[test]
fn bidir_finds_identity() {
    let grid = vec![vec![1, 2], vec![3, 4]];
    let bidir = BidirSearch::new(1000);
    let prims = vec![Prim::RotateCW, Prim::FlipH];
    let result = bidir.search(&grid, &grid, &prims, 4);
    assert!(result.is_some());
    assert_eq!(result.unwrap().program, Prim::Identity);
}

#[test]
fn bidir_finds_single_step() {
    let input = vec![vec![1, 2], vec![3, 4]];
    let target = Prim::FlipH.apply(&input);
    let bidir = BidirSearch::new(1000);
    let prims = vec![Prim::RotateCW, Prim::FlipH, Prim::FlipV, Prim::Transpose];
    let result = bidir.search(&input, &target, &prims, 4);
    assert!(result.is_some());
    let res = result.unwrap();
    assert_eq!(res.program.apply(&input), target);
}

#[test]
fn bidir_finds_two_step() {
    let input = vec![vec![1, 2, 3], vec![4, 5, 6]];
    let mid = Prim::FlipH.apply(&input);
    let target = Prim::FlipV.apply(&mid);
    let bidir = BidirSearch::new(5000);
    let prims = vec![
        Prim::RotateCW,
        Prim::RotateCCW,
        Prim::FlipH,
        Prim::FlipV,
        Prim::Transpose,
        Prim::Rotate180,
    ];
    let result = bidir.search(&input, &target, &prims, 4);
    assert!(result.is_some());
    let res = result.unwrap();
    assert_eq!(res.program.apply(&input), target);
}

#[test]
fn bidir_multi_example() {
    let ex1_in = vec![vec![1, 2], vec![3, 4]];
    let ex1_out = Prim::FlipH.apply(&ex1_in);
    let ex2_in = vec![vec![5, 6], vec![7, 8]];
    let ex2_out = Prim::FlipH.apply(&ex2_in);
    let bidir = BidirSearch::new(5000);
    let prims = vec![Prim::FlipH, Prim::FlipV, Prim::RotateCW];
    let examples = vec![(ex1_in, ex1_out), (ex2_in, ex2_out)];
    let result = bidir.search_all(&examples, &prims, 4);
    assert!(result.is_some());
}

#[test]
fn invertible_subset_filters() {
    let prims = vec![Prim::RotateCW, Prim::GravityDown, Prim::FlipH, Prim::FillColor(1)];
    let inv = invertible_subset(&prims);
    assert_eq!(inv.len(), 2);
}

#[test]
fn library_basic_ops() {
    let mut lib = Library::new();
    assert!(lib.is_empty());
    lib.add("test".into(), Prim::Compose(Box::new(Prim::FlipH), Box::new(Prim::RotateCW)));
    assert_eq!(lib.len(), 1);
    assert!(!lib.is_empty());
    assert!(lib.get("test").is_some());
    assert!(lib.get("nope").is_none());
}

#[test]
fn library_compression_tracking() {
    let mut lib = Library::new();
    let prog = Prim::Compose(Box::new(Prim::FlipH), Box::new(Prim::RotateCW));
    lib.add("comp".into(), prog);
    assert_eq!(lib.entries[0].compression, 3);
}

#[test]
fn wake_extract_finds_common() {
    let prog = Prim::Compose(Box::new(Prim::FlipH), Box::new(Prim::RotateCW));
    let programs = vec![prog.clone(); 5];
    let lib = wake_extract(&programs, 2, 2, 10);
    assert!(lib.len() > 0);
}

#[test]
fn wake_extract_filters_low_freq() {
    let prog = Prim::Compose(Box::new(Prim::FlipH), Box::new(Prim::RotateCW));
    let programs = vec![prog];
    let lib = wake_extract(&programs, 3, 2, 10);
    assert_eq!(lib.len(), 0);
}

#[test]
fn search_dag_identity() {
    let grid = vec![vec![1, 2], vec![3, 4]];
    let mut dag = SearchDag::new(100);
    let prims = vec![Prim::FlipH];
    let result = dag.search(&grid, &grid, &prims, 3);
    assert!(result.is_some());
    assert_eq!(result.unwrap(), Prim::Identity);
}

#[test]
fn search_dag_single_step() {
    let input = vec![vec![1, 2], vec![3, 4]];
    let target = Prim::FlipH.apply(&input);
    let prims = vec![Prim::FlipH, Prim::FlipV, Prim::RotateCW];
    let mut dag = SearchDag::new(1000);
    let result = dag.search(&input, &target, &prims, 3);
    assert!(result.is_some());
    assert_eq!(result.unwrap().apply(&input), target);
}

#[test]
fn search_dag_two_step() {
    let input = vec![vec![1, 2, 3], vec![4, 5, 6]];
    let mid = Prim::FlipH.apply(&input);
    let target = Prim::FlipV.apply(&mid);
    let prims = vec![Prim::FlipH, Prim::FlipV, Prim::RotateCW, Prim::RotateCCW];
    let mut dag = SearchDag::new(5000);
    let result = dag.search(&input, &target, &prims, 3);
    assert!(result.is_some());
    assert_eq!(result.unwrap().apply(&input), target);
}

#[test]
fn sleep_compress_preserves() {
    let prog = Prim::FlipH;
    let lib = Library::new();
    let compressed = sleep_compress(&prog, &lib);
    assert_eq!(compressed, prog);
}

#[test]
fn wake_sleep_cycle_basic() {
    let input = vec![vec![1, 2], vec![3, 4]];
    let target = Prim::FlipH.apply(&input);
    let tasks = vec![(input, target)];
    let prims = vec![Prim::FlipH, Prim::FlipV, Prim::RotateCW];
    let (lib, solutions) = wake_sleep_cycle(&tasks, &prims, 1000, 3, 2);
    assert_eq!(solutions.len(), 1);
    assert!(solutions[0].is_some());
    let _ = lib;
}
