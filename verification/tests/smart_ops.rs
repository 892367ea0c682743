use koloss_v2::smart::{
    learn_color_map, apply_color_map, tile_with_self, detect_self_tiling, tile_grid,
    detect_tiling, detect_subgrid, dedup_rows, dedup_cols, try_smart_transforms, majority_vote,
};

#[test]
fn color_map_simple() {
    let input = vec![vec![1, 2], vec![3, 0]];
    let output = vec![vec![4, 5], vec![6, 0]];
    let map = learn_color_map(&input, &output).unwrap();
    assert_eq!(map[&1], 4);
    assert_eq!(map[&2], 5);
    assert_eq!(map[&3], 6);
    assert_eq!(map[&0], 0);
    assert_eq!(apply_color_map(&input, &map), output);
}

#[test]
fn color_map_inconsistent() {
    let input = vec![vec![1, 1]];
    let output = vec![vec![2, 3]];
    assert!(learn_color_map(&input, &output).is_none());
}

#[test]
fn self_tiling() {
    let input = vec![vec![0, 1], vec![1, 1]];
    let output = tile_with_self(&input);
    assert_eq!(output.len(), 4);
    assert_eq!(output[0].len(), 4);
    assert_eq!(output[0][0], 0);
    assert_eq!(output[0][1], 0);
    assert_eq!(output[1][0], 0);
    assert_eq!(output[1][1], 0);
    assert_eq!(output[0][2], 0);
    assert_eq!(output[0][3], 1);
    assert_eq!(output[1][2], 1);
    assert_eq!(output[1][3], 1);
}

#[test]
fn detect_self_tiling_works() {
    let input = vec![vec![0, 7, 7], vec![7, 7, 7], vec![0, 7, 7]];
    let output = tile_with_self(&input);
    assert!(detect_self_tiling(&input, &output));
}

#[test]
fn tiling_2x3() {
    let input = vec![vec![1, 2], vec![3, 4]];
    let output = tile_grid(&input, 2, 3);
    assert_eq!(output.len(), 4);
    assert_eq!(output[0].len(), 6);
    assert_eq!(detect_tiling(&input, &output), Some((2, 3)));
}

#[test]
fn subgrid_detection() {
    let input = vec![
        vec![1, 2, 3, 4],
        vec![5, 6, 7, 8],
        vec![9, 0, 1, 2],
    ];
    let output = vec![vec![6, 7], vec![0, 1]];
    let result = detect_subgrid(&input, &output);
    assert_eq!(result, Some((1, 1, 2, 2)));
}

#[test]
fn dedup_rows_basic() {
    let grid = vec![vec![1, 2], vec![1, 2], vec![3, 4], vec![3, 4]];
    let result = dedup_rows(&grid);
    assert_eq!(result, vec![vec![1, 2], vec![3, 4]]);
}

#[test]
fn dedup_cols_basic() {
    let grid = vec![vec![1, 1, 2, 2], vec![3, 3, 4, 4]];
    let result = dedup_cols(&grid);
    assert_eq!(result, vec![vec![1, 2], vec![3, 4]]);
}

#[test]
fn smart_finds_color_map() {
    let examples = vec![
        (vec![vec![1, 2]], vec![vec![3, 4]]),
        (vec![vec![2, 1]], vec![vec![4, 3]]),
    ];
    let result = try_smart_transforms(&examples);
    assert!(result.is_some());
    assert_eq!(result.unwrap().name(), "color_map");
}

#[test]
fn smart_finds_self_tile() {
    let input = vec![vec![0, 1], vec![1, 1]];
    let output = tile_with_self(&input);
    let examples = vec![(input, output)];
    let result = try_smart_transforms(&examples);
    assert!(result.is_some());
    assert_eq!(result.unwrap().name(), "self_tile");
}

#[test]
fn majority_vote_basic() {
    let g1 = vec![vec![1, 2], vec![3, 4]];
    let g2 = vec![vec![1, 5], vec![3, 4]];
    let g3 = vec![vec![1, 2], vec![6, 4]];
    let grids = vec![g1, g2, g3];
    let result = majority_vote(&grids);
    assert_eq!(result, vec![vec![1, 2], vec![3, 4]]);
}

#[test]
fn majority_vote_tie_takes_largest_color() {
    let grids = vec![vec![vec![2u8]], vec![vec![5u8]]];
    let result = majority_vote(&grids);
    assert_eq!(result, vec![vec![5u8]]);
}

#[test]
fn repair_period_fills_holes_periodically() {
    let damaged = vec![
        vec![1u8, 2, 1, 2],
        vec![3, 4, 0, 4],
        vec![1, 0, 1, 2],
        vec![3, 4, 3, 4],
    ];
    let repaired = koloss_v2::smart::repair_period(&damaged, 2, 2);
    let expected = vec![
        vec![1u8, 2, 1, 2],
        vec![3, 4, 3, 4],
        vec![1, 2, 1, 2],
        vec![3, 4, 3, 4],
    ];
    assert_eq!(repaired, expected);
}
