use koloss_v2::compression::{
    rle_encode, rle_decode, delta_encode, delta_apply, description_length, mdl_score,
};
use koloss_v2::cellular::{learn_ca_rule, apply_ca_rule, apply_ca_steps};
use koloss_v2::dsl::Prim;

#[test]
fn rle_roundtrip() {
    let row = vec![1, 1, 1, 2, 2, 3, 3, 3, 3];
    let encoded = rle_encode(&row);
    let decoded = rle_decode(&encoded);
    assert_eq!(row, decoded);
}

#[test]
fn rle_single_values() {
    let row = vec![1, 2, 3, 4, 5];
    let encoded = rle_encode(&row);
    assert_eq!(encoded.len(), 5);
    assert_eq!(rle_decode(&encoded), row);
}

#[test]
fn rle_uniform() {
    let row = vec![7; 100];
    let encoded = rle_encode(&row);
    assert_eq!(encoded.len(), 1);
    assert_eq!(rle_decode(&encoded), row);
}

#[test]
fn delta_encode_roundtrip() {
    let base = vec![vec![1, 2], vec![3, 4]];
    let target = vec![vec![1, 5], vec![3, 4]];
    let diffs = delta_encode(&base, &target);
    assert_eq!(diffs.len(), 1);
    assert_eq!(delta_apply(&base, &diffs), target);
}

#[test]
fn delta_identical_no_diffs() {
    let g = vec![vec![1, 2], vec![3, 4]];
    let diffs = delta_encode(&g, &g);
    assert!(diffs.is_empty());
}

#[test]
fn identity_costs_nothing() {
    assert_eq!(description_length(&Prim::Identity), 0);
}

#[test]
fn compose_longer_than_parts() {
    let a = Prim::FlipH;
    let b = Prim::RotateCW;
    let composed = Prim::Compose(Box::new(a.clone()), Box::new(b.clone()));
    assert!(description_length(&composed) > description_length(&a));
    assert!(description_length(&composed) > description_length(&b));
}

#[test]
fn parameterized_more_expensive() {
    let simple = Prim::FlipH;
    let param = Prim::ReplaceColor(1, 2);
    assert!(description_length(&param) > description_length(&simple));
}

#[test]
fn mdl_prefers_simpler() {
    let input = vec![vec![1, 2], vec![3, 4]];
    let output = Prim::FlipH.apply(&input);
    let examples = vec![(input, output)];
    let simple = Prim::FlipH;
    let complex = Prim::Compose(Box::new(Prim::FlipH), Box::new(Prim::Identity));
    assert!(mdl_score(&simple, &examples) <= mdl_score(&complex, &examples));
}

#[test]
fn perfect_fit_scores_zero() {
    let g = vec![vec![1, 2], vec![3, 4]];
    let examples = vec![(g.clone(), g.clone())];
    assert_eq!(mdl_score(&Prim::Identity, &examples), 0);
}

#[test]
fn imperfect_fit_scores_positive() {
    let input = vec![vec![1, 2], vec![3, 4]];
    let output = vec![vec![9, 9], vec![9, 9]];
    let examples = vec![(input, output)];
    assert!(mdl_score(&Prim::Identity, &examples) > 0);
}

#[test]
fn ca_learns_identity() {
    let input = vec![vec![1, 2], vec![3, 4]];
    let output = input.clone();
    let rule = learn_ca_rule(&input, &output).unwrap();
    assert_eq!(apply_ca_rule(&input, &rule), output);
}

#[test]
fn ca_learns_fill() {
    let input = vec![
        vec![1, 0, 0],
        vec![0, 0, 0],
        vec![0, 0, 0],
    ];
    let output = vec![
        vec![1, 1, 0],
        vec![1, 1, 0],
        vec![0, 0, 0],
    ];
    let rule = learn_ca_rule(&input, &output);
    if let Some(r) = rule {
        assert_eq!(apply_ca_rule(&input, &r), output);
    }
}

#[test]
fn ca_fixpoint() {
    let grid = vec![vec![1, 2], vec![3, 4]];
    let rule = learn_ca_rule(&grid, &grid).unwrap();
    let result = apply_ca_steps(&grid, &rule, 100);
    assert_eq!(result, grid);
}

#[test]
fn moore_neighborhood_center() {
    let grid = vec![
        vec![1, 2, 3],
        vec![4, 5, 6],
        vec![7, 8, 9],
    ];
    let n = koloss_v2::cellular::moore_neighborhood(&grid, 1, 1);
    assert_eq!(n, [1, 2, 3, 4, 6, 7, 8, 9]);
}

#[test]
fn moore_neighborhood_corner() {
    let grid = vec![
        vec![1, 2],
        vec![3, 4],
    ];
    let n = koloss_v2::cellular::moore_neighborhood(&grid, 0, 0);
    assert_eq!(n, [0, 0, 0, 0, 2, 0, 3, 4]);
}

#[test]
fn neighbor_signature_consistent() {
    let grid = vec![
        vec![1, 1, 1],
        vec![1, 0, 1],
        vec![1, 1, 1],
    ];
    let sig = koloss_v2::cellular::neighbor_signature(&grid, 1, 1);
    assert_eq!(sig.center, 0);
    assert_eq!(sig.counts[1], 8);
    assert!(!sig.border);
}

#[test]
fn pack_grid_header_layout() {
    let grid = vec![vec![1u8, 2, 3], vec![4, 5, 6]];
    let bytes = koloss_v2::binary::pack_grid(&grid);
    assert_eq!(&bytes[..5], &[2, 0, 3, 0, 1]);
    // six nibble-packed cells, low nibble first
    assert_eq!(bytes.len(), 5 + 3);
    assert_eq!(bytes[5], 1 | (2 << 4));
    assert_eq!(bytes[6], 3 | (4 << 4));
    assert_eq!(bytes[7], 5 | (6 << 4));
}

#[test]
fn pack_grid_wide_cells_unpacked() {
    let grid = vec![vec![200u8, 3]];
    let bytes = koloss_v2::binary::pack_grid(&grid);
    assert_eq!(&bytes[..5], &[1, 0, 2, 0, 0]);
    assert_eq!(&bytes[5..], &[200, 3]);
}

#[test]
fn pack_unpack_grid_roundtrip() {
    let grid = vec![vec![1u8, 9, 4], vec![0, 7, 3]];
    let bytes = koloss_v2::binary::pack_grid(&grid);
    let back = koloss_v2::binary::unpack_grid(&bytes).unwrap();
    assert_eq!(back, grid);
}

#[test]
fn ca_conflicting_cells_learn_nothing() {
    // both cells share one signature yet want different outputs
    let input = vec![vec![0u8, 0]];
    let output = vec![vec![1u8, 2]];
    assert!(learn_ca_rule(&input, &output).is_none());
}
