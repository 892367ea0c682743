use koloss_v2::partition::{
    detect_h_separators, detect_v_separators, split_at_h_separators, split_at_v_separators,
    split_grid_2d, xor_grids, and_grids, diff_grids, try_partition_solve,
};

#[test]
fn detect_h_separator() {
    let grid = vec![
        vec![1, 2, 3],
        vec![5, 5, 5],
        vec![4, 6, 7],
    ];
    let seps = detect_h_separators(&grid);
    assert_eq!(seps, vec![1]);
}

#[test]
fn detect_v_separator() {
    let grid = vec![
        vec![1, 5, 3],
        vec![2, 5, 4],
        vec![6, 5, 7],
    ];
    let seps = detect_v_separators(&grid);
    assert_eq!(seps, vec![1]);
}

#[test]
fn split_h_basic() {
    let grid = vec![
        vec![1, 2],
        vec![5, 5],
        vec![3, 4],
    ];
    let seps = detect_h_separators(&grid);
    let parts = split_at_h_separators(&grid, &seps);
    assert_eq!(parts.len(), 2);
    assert_eq!(parts[0], vec![vec![1, 2]]);
    assert_eq!(parts[1], vec![vec![3, 4]]);
}

#[test]
fn split_v_basic() {
    let grid = vec![
        vec![1, 5, 3],
        vec![2, 5, 4],
    ];
    let seps = detect_v_separators(&grid);
    let parts = split_at_v_separators(&grid, &seps);
    assert_eq!(parts.len(), 2);
    assert_eq!(parts[0], vec![vec![1], vec![2]]);
    assert_eq!(parts[1], vec![vec![3], vec![4]]);
}

#[test]
fn xor_grids_basic() {
    let a = vec![vec![1, 0], vec![0, 1]];
    let b = vec![vec![0, 1], vec![1, 0]];
    let result = xor_grids(&a, &b);
    assert_eq!(result, vec![vec![1, 1], vec![1, 1]]);
}

#[test]
fn and_grids_basic() {
    let a = vec![vec![1, 0], vec![3, 1]];
    let b = vec![vec![2, 1], vec![0, 1]];
    let result = and_grids(&a, &b);
    assert_eq!(result, vec![vec![1, 0], vec![0, 1]]);
}

#[test]
fn diff_grids_basic() {
    let a = vec![vec![1, 2], vec![3, 4]];
    let b = vec![vec![1, 5], vec![3, 4]];
    let result = diff_grids(&a, &b, 7);
    assert_eq!(result, vec![vec![0, 7], vec![0, 0]]);
}

#[test]
fn partition_select_subgrid() {
    let input = vec![
        vec![1, 2, 5, 3, 4],
        vec![6, 7, 5, 8, 9],
    ];
    let output = vec![
        vec![1, 2],
        vec![6, 7],
    ];
    let examples = vec![(input, output)];
    let sol = try_partition_solve(&examples);
    assert!(sol.is_some());
    assert!(sol.unwrap().method.starts_with("select_sub"));
}

#[test]
fn partition_xor() {
    let input = vec![
        vec![1, 0, 5, 0, 1],
        vec![0, 1, 5, 1, 0],
    ];
    let output = vec![
        vec![1, 1],
        vec![1, 1],
    ];
    let examples = vec![(input, output)];
    let sol = try_partition_solve(&examples);
    assert!(sol.is_some());
}

#[test]
fn partition_2d() {
    let grid = vec![
        vec![1, 5, 2],
        vec![5, 5, 5],
        vec![3, 5, 4],
    ];
    let h = detect_h_separators(&grid);
    let v = detect_v_separators(&grid);
    let subs = split_grid_2d(&grid, &h, &v);
    assert_eq!(subs.len(), 4);
    assert_eq!(subs[0], vec![vec![1]]);
    assert_eq!(subs[1], vec![vec![2]]);
    assert_eq!(subs[2], vec![vec![3]]);
    assert_eq!(subs[3], vec![vec![4]]);
}
