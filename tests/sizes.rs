use swe_mockup::{BlockSizes, MockParams};

#[test]
fn block_sizes_new_accepts_ordered_range() {
    let b = BlockSizes::new((2, 5)).unwrap();
    assert_eq!(b.get(), (2, 5));
    assert_eq!(b.min_size(), 2);
    assert_eq!(b.max_size_inclusive(), 5);
}

#[test]
fn block_sizes_new_accepts_equal_bounds() {
    let b = BlockSizes::new((3, 3)).unwrap();
    assert_eq!(b.get(), (3, 3));
}

#[test]
fn block_sizes_new_rejects_inverted_range() {
    assert!(BlockSizes::new((5, 2)).is_none());
}

#[test]
fn block_sizes_from_usize_rejects_zero() {
    assert!(BlockSizes::new_from_usize((0, 4)).is_none());
    assert!(BlockSizes::new_from_usize((1, 0)).is_none());
    assert!(BlockSizes::new_from_usize((0, 0)).is_none());
}

#[test]
fn block_sizes_from_usize_rejects_inverted_range() {
    assert!(BlockSizes::new_from_usize((8, 1)).is_none());
}

#[test]
fn block_sizes_from_usize_accepts_positive_range() {
    let b = BlockSizes::new_from_usize((1, 8)).unwrap();
    assert_eq!(b.get(), (1, 8));
}

#[test]
fn block_sizes_default_is_one_to_eight() {
    let b = BlockSizes::default();
    assert_eq!(b.min_size(), 1);
    assert_eq!(b.max_size_inclusive(), 8);
}

#[test]
fn mock_params_default_values() {
    let p = MockParams::default();
    assert_eq!(p.n_obs, 8192);
    assert_eq!(p.n_feat, 55278);
    assert_eq!(p.n_pred, 8);
    assert_eq!(p.block_sizes.get(), (1, 8));
}

#[test]
fn mock_params_new_rejects_zero_counts() {
    let b = BlockSizes::default();
    assert!(MockParams::new(0, 1, 1, b).is_none());
    assert!(MockParams::new(1, 0, 1, b).is_none());
    assert!(MockParams::new(1, 1, 0, b).is_none());
    let p = MockParams::new(64, 10, 3, b).unwrap();
    assert_eq!((p.n_obs, p.n_feat, p.n_pred), (64, 10, 3));
}
