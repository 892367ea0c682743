use koloss_v2::heuristics::{analyze_features, select_primitives, DimChange, ColorChange};
use koloss_v2::fingerprint::{GridFingerprint, FingerprintSet};
use koloss_v2::dsl::Prim;
use koloss_v2::grid::Grid;

#[test]
fn dim_same_detected() {
    let input = vec![vec![1, 2], vec![3, 4]];
    let output = vec![vec![4, 3], vec![2, 1]];
    let examples = vec![(input, output)];
    let prof = analyze_features(&examples);
    assert_eq!(prof.dim_change, DimChange::Same);
}

#[test]
fn dim_transposed_detected() {
    let input = vec![vec![1, 2, 3], vec![4, 5, 6]];
    let output = vec![vec![1, 4], vec![2, 5], vec![3, 6]];
    let examples = vec![(input, output)];
    let prof = analyze_features(&examples);
    assert_eq!(prof.dim_change, DimChange::Transposed);
}

#[test]
fn dim_scaled_detected() {
    let input = vec![vec![1, 2], vec![3, 4]];
    let output = vec![
        vec![1, 1, 2, 2],
        vec![1, 1, 2, 2],
        vec![3, 3, 4, 4],
        vec![3, 3, 4, 4],
    ];
    let examples = vec![(input, output)];
    let prof = analyze_features(&examples);
    assert_eq!(prof.dim_change, DimChange::Scaled(2, 2));
}

#[test]
fn color_bijection_detected() {
    let input = vec![vec![1, 2], vec![0, 1]];
    let output = vec![vec![3, 4], vec![0, 3]];
    let examples = vec![(input, output)];
    let prof = analyze_features(&examples);
    assert_eq!(prof.color_change, ColorChange::Bijection);
}

#[test]
fn heuristic_selects_fewer_prims() {
    let input = vec![vec![1, 2], vec![3, 4]];
    let output = vec![vec![4, 3], vec![2, 1]];
    let examples = vec![(input, output)];
    let prof = analyze_features(&examples);
    let prims = select_primitives(&prof);
    let all = Prim::all_primitives();
    assert!(prims.len() < all.len());
    assert!(prims.len() > 0);
}

#[test]
fn transpose_detected_selects_transpose() {
    let input = vec![vec![1, 2, 3], vec![4, 5, 6]];
    let output = vec![vec![1, 4], vec![2, 5], vec![3, 6]];
    let examples = vec![(input, output)];
    let prof = analyze_features(&examples);
    let prims = select_primitives(&prof);
    assert!(prims.contains(&Prim::Transpose));
}

#[test]
fn symmetry_change_detected() {
    let input = vec![vec![1, 2, 3], vec![4, 5, 6]];
    let output = vec![vec![1, 2, 1], vec![4, 5, 4]];
    let examples = vec![(input, output)];
    let prof = analyze_features(&examples);
    assert!(!prof.input_symmetric_h);
    assert!(prof.output_symmetric_h);
}

#[test]
fn empty_examples() {
    let examples: Vec<(Grid, Grid)> = Vec::new();
    let prof = analyze_features(&examples);
    assert_eq!(prof.dim_change, DimChange::Same);
}

#[test]
fn fingerprint_identical_grids() {
    let g1 = vec![vec![1, 2], vec![3, 4]];
    let g2 = vec![vec![1, 2], vec![3, 4]];
    let fp1 = GridFingerprint::compute(&g1);
    let fp2 = GridFingerprint::compute(&g2);
    assert_eq!(fp1.full, fp2.full);
    assert_eq!(fp1.shape, fp2.shape);
}

#[test]
fn fingerprint_different_grids() {
    let g1 = vec![vec![1, 2], vec![3, 4]];
    let g2 = vec![vec![1, 2], vec![3, 5]];
    let fp1 = GridFingerprint::compute(&g1);
    let fp2 = GridFingerprint::compute(&g2);
    assert_ne!(fp1.full, fp2.full);
    assert_eq!(fp1.shape, fp2.shape);
}

#[test]
fn fingerprint_different_shapes() {
    let g1 = vec![vec![1, 2, 3]];
    let g2 = vec![vec![1], vec![2], vec![3]];
    let fp1 = GridFingerprint::compute(&g1);
    let fp2 = GridFingerprint::compute(&g2);
    assert!(!fp1.same_shape(&fp2));
}

#[test]
fn color_signature_same_histogram() {
    let g1 = vec![vec![1, 2, 1], vec![2, 1, 2]];
    let g2 = vec![vec![2, 1, 2], vec![1, 2, 1]];
    let fp1 = GridFingerprint::compute(&g1);
    let fp2 = GridFingerprint::compute(&g2);
    assert_eq!(fp1.color_sig, fp2.color_sig);
}

#[test]
fn fingerprint_set_dedup() {
    let g1 = vec![vec![1, 2], vec![3, 4]];
    let g2 = vec![vec![1, 2], vec![3, 4]];
    let g3 = vec![vec![5, 6], vec![7, 8]];
    let mut set = FingerprintSet::new();
    assert!(set.insert(&g1));
    assert!(!set.insert(&g2));
    assert!(set.insert(&g3));
    assert_eq!(set.len(), 2);
}

#[test]
fn empty_grid_fingerprint() {
    let g: Grid = Vec::new();
    let fp = GridFingerprint::compute(&g);
    assert_eq!(fp.shape, 0);
}
