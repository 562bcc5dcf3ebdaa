use swe_mockup::{BlockSizes, assign_block_ids, block_index, simulate_block_ids};

#[test]
fn assign_lays_out_consecutive_blocks() {
    let (ids, n) = assign_block_ids(8, &vec![3, 2, 4]);
    assert_eq!(ids, vec![1, 1, 1, 2, 2, 0, 0, 0]);
    assert_eq!(n, 2);
}

#[test]
fn assign_exact_fit_leaves_no_remainder() {
    let (ids, n) = assign_block_ids(6, &vec![2, 4, 1]);
    assert_eq!(ids, vec![1, 1, 2, 2, 2, 2]);
    assert_eq!(n, 2);
}

#[test]
fn assign_first_block_too_large() {
    let (ids, n) = assign_block_ids(3, &vec![4]);
    assert_eq!(ids, vec![0, 0, 0]);
    assert_eq!(n, 0);
}

#[test]
fn assign_runs_out_of_sizes() {
    let (ids, n) = assign_block_ids(5, &vec![1, 1]);
    assert_eq!(ids, vec![1, 2, 0, 0, 0]);
    assert_eq!(n, 2);
}

#[test]
fn simulate_gives_blocks_within_size_range() {
    let sizes = BlockSizes::new((2, 4)).unwrap();
    let mut rng = rand::thread_rng();
    let (ids, n_blocks) = simulate_block_ids(100, sizes, &mut rng);
    assert_eq!(ids.len(), 100);
    assert!(n_blocks >= 25 && n_blocks <= 50);
    let index = block_index(&ids, n_blocks);
    let mut labelled = 0;
    for block in &index {
        assert!(block.len() >= 2 && block.len() <= 4);
        labelled += block.len();
    }
    let unlabelled = ids.iter().filter(|&&l| l == 0).count();
    assert_eq!(labelled + unlabelled, 100);
    assert!(unlabelled < 4);
    assert!(ids.iter().all(|&l| l <= n_blocks));
}

#[test]
fn simulate_single_size_blocks() {
    let sizes = BlockSizes::new((1, 1)).unwrap();
    let mut rng = rand::thread_rng();
    let (ids, n_blocks) = simulate_block_ids(10, sizes, &mut rng);
    assert_eq!(n_blocks, 10);
    let mut sorted = ids.clone();
    sorted.sort();
    assert_eq!(sorted, (1..=10).collect::<Vec<usize>>());
}

#[test]
fn simulate_shuffles_the_layout() {
    let sizes = BlockSizes::new((1, 1)).unwrap();
    let mut rng = rand::thread_rng();
    let (ids, n_blocks) = simulate_block_ids(200, sizes, &mut rng);
    assert_eq!(n_blocks, 200);
    let (layout, _) = assign_block_ids(200, &vec![1; 201]);
    assert_ne!(ids, layout);
}

#[test]
fn simulate_sixty_four_observations_sizes_one_to_eight() {
    let sizes = BlockSizes::new((1, 8)).unwrap();
    for _ in 0..50 {
        let mut rng = rand::thread_rng();
        let (ids, n_blocks) = simulate_block_ids(64, sizes, &mut rng);
        assert_eq!(ids.len(), 64);
        assert!(n_blocks >= 8 && n_blocks <= 64);
        let zeros = ids.iter().filter(|&&l| l == 0).count();
        assert!(zeros < 8);
        for b in 1..=n_blocks {
            let members = ids.iter().filter(|&&l| l == b).count();
            assert!(members >= 1 && members <= 8);
        }
    }
}

#[test]
fn simulate_at_least_one_block_when_largest_size_fits() {
    let sizes = BlockSizes::new((3, 5)).unwrap();
    for _ in 0..50 {
        let mut rng = rand::thread_rng();
        let (ids, n_blocks) = simulate_block_ids(5, sizes, &mut rng);
        assert_eq!(n_blocks, 1);
        assert!(ids.iter().filter(|&&l| l == 0).count() <= 2);
    }
}

#[test]
fn simulate_no_observations() {
    let mut rng = rand::thread_rng();
    let (ids, n_blocks) = simulate_block_ids(0, BlockSizes::default(), &mut rng);
    assert!(ids.is_empty());
    assert_eq!(n_blocks, 0);
}
