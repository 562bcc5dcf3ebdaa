use swe_mockup::{
    DataError, Dataset, PoolWidths, Strategy, Tensor, block_index, half_sandwich, outer_product,
    run, run_channel, run_flat_features, run_gated, run_local_reduce, run_reference, run_repeated,
};

const ALL: [Strategy; 4] =
    [Strategy::FlatFeatures, Strategy::GatedNested, Strategy::Channel, Strategy::LocalReduce];

fn small_dataset() -> Dataset {
    let block_ids = vec![1, 1, 1, 1, 2, 2, 2, 2];
    let resid: Vec<Vec<i16>> = (1..=8).map(|v| vec![v]).collect();
    let x_pinv = vec![vec![1, 1, 1, 1, 1, 1, 1, 1], vec![1, 0, 1, 0, 1, 0, 1, 0]];
    Dataset::new(2, block_ids, resid, x_pinv).unwrap()
}

fn lcg(state: &mut u64) -> i16 {
    *state = state.wrapping_mul(6364136223846793005).wrapping_add(1442695040888963407);
    ((*state >> 33) % 41) as i16 - 20
}

fn seeded_dataset(n_obs: usize, n_feat: usize, n_pred: usize, n_blocks: usize, seed: u64) -> Dataset {
    let mut s = seed;
    let resid: Vec<Vec<i16>> = (0..n_obs).map(|_| (0..n_feat).map(|_| lcg(&mut s)).collect()).collect();
    let x_pinv: Vec<Vec<i16>> = (0..n_pred).map(|_| (0..n_obs).map(|_| lcg(&mut s)).collect()).collect();
    let block_ids: Vec<usize> = (0..n_obs).map(|i| (i * 11 + 5) % (n_blocks + 1)).collect();
    Dataset::new(n_blocks, block_ids, resid, x_pinv).unwrap()
}

fn naive(d: &Dataset) -> Vec<Vec<Vec<i128>>> {
    let n_feat = d.resid[0].len();
    let n_pred = d.x_pinv.len();
    let mut c = vec![vec![vec![0i128; n_pred]; n_pred]; n_feat];
    for b in 1..=d.n_blocks {
        for f in 0..n_feat {
            let h: Vec<i128> = (0..n_pred)
                .map(|p| {
                    (0..d.block_ids.len())
                        .filter(|&i| d.block_ids[i] == b)
                        .map(|i| d.x_pinv[p][i] as i128 * d.resid[i][f] as i128)
                        .sum()
                })
                .collect();
            for p in 0..n_pred {
                for q in 0..n_pred {
                    c[f][p][q] += h[p] * h[q];
                }
            }
        }
    }
    c
}

fn widths() -> PoolWidths {
    PoolWidths { outer: 2, inner: 3 }
}

#[test]
fn hand_computed_two_blocks() {
    let d = small_dataset();
    let expected: Tensor = vec![vec![vec![776, 352], vec![352, 160]]];
    assert_eq!(run_reference(&d), expected);
    for s in ALL {
        assert_eq!(run(&d, s, widths()), expected);
    }
}

#[test]
fn half_sandwich_of_one_block() {
    let d = small_dataset();
    let index = block_index(&d.block_ids, d.n_blocks);
    assert_eq!(half_sandwich(&d.x_pinv, &d.resid, &index[0], 1), vec![vec![10], vec![4]]);
    assert_eq!(half_sandwich(&d.x_pinv, &d.resid, &index[1], 1), vec![vec![26], vec![12]]);
}

#[test]
fn outer_product_of_column() {
    let h = vec![vec![3, -2], vec![5, 7]];
    assert_eq!(outer_product(&h, 0), vec![vec![9, 15], vec![15, 25]]);
    assert_eq!(outer_product(&h, 1), vec![vec![4, -14], vec![-14, 49]]);
}

#[test]
fn strategies_match_naive_reference() {
    let d = seeded_dataset(64, 10, 3, 5, 42);
    let expected = naive(&d);
    assert_eq!(run_reference(&d), expected);
    assert_eq!(run_flat_features(&d, 3), expected);
    assert_eq!(run_flat_features(&d, 20), expected);
    assert_eq!(run_gated(&d, 1), expected);
    assert_eq!(run_gated(&d, 2), expected);
    assert_eq!(run_channel(&d, 1), expected);
    assert_eq!(run_channel(&d, 4), expected);
    assert_eq!(run_local_reduce(&d, 1), expected);
    assert_eq!(run_local_reduce(&d, 3), expected);
    assert_eq!(run_local_reduce(&d, 8), expected);
}

#[test]
fn slices_are_symmetric() {
    let d = seeded_dataset(40, 6, 4, 7, 7);
    for s in ALL {
        let c = run(&d, s, widths());
        for f in 0..6 {
            for p in 0..4 {
                for q in 0..4 {
                    assert_eq!(c[f][p][q], c[f][q][p]);
                }
            }
        }
    }
}

#[test]
fn slices_are_positive_semidefinite() {
    let d = seeded_dataset(40, 6, 3, 7, 11);
    let c = run(&d, Strategy::Channel, widths());
    let mut s = 99u64;
    for f in 0..6 {
        for _ in 0..20 {
            let z: Vec<i128> = (0..3).map(|_| lcg(&mut s) as i128).collect();
            let mut form = 0i128;
            for p in 0..3 {
                for q in 0..3 {
                    form += z[p] * z[q] * c[f][p][q];
                }
            }
            assert!(form >= 0);
        }
        assert!(c[f][0][0] >= 0 && c[f][1][1] >= 0 && c[f][2][2] >= 0);
    }
}

#[test]
fn empty_block_contributes_nothing() {
    let with_empty = Dataset::new(
        3,
        vec![1, 1, 3, 3],
        vec![vec![2], vec![3], vec![4], vec![5]],
        vec![vec![1, 2, 3, 4]],
    )
    .unwrap();
    let without = Dataset::new(
        2,
        vec![1, 1, 2, 2],
        vec![vec![2], vec![3], vec![4], vec![5]],
        vec![vec![1, 2, 3, 4]],
    )
    .unwrap();
    let expected: Tensor = vec![vec![vec![8 * 8 + 32 * 32]]];
    for s in ALL {
        assert_eq!(run(&with_empty, s, widths()), expected);
        assert_eq!(run(&without, s, widths()), expected);
    }
}

#[test]
fn no_blocks_gives_zeros() {
    let d = Dataset::new(0, vec![0, 0, 0], vec![vec![1, 2], vec![3, 4], vec![5, 6]], vec![vec![1, 1, 1]])
        .unwrap();
    for s in ALL {
        assert_eq!(run(&d, s, widths()), vec![vec![vec![0]], vec![vec![0]]]);
    }
}

#[test]
fn repetitions_do_not_carry_over() {
    let d = seeded_dataset(30, 4, 2, 6, 5);
    for s in ALL {
        let once = run_repeated(&d, s, widths(), 1);
        let twice = run_repeated(&d, s, widths(), 2);
        assert_eq!(once, twice);
        assert_eq!(once, naive(&d));
    }
}

#[test]
fn extreme_entries_do_not_overflow() {
    let n = 16;
    let d = Dataset::new(1, vec![1; n], vec![vec![i16::MIN]; n], vec![vec![i16::MIN; n]; 2]).unwrap();
    let h = (n as i128) * 32768 * 32768;
    for s in ALL {
        assert_eq!(run(&d, s, widths()), vec![vec![vec![h * h; 2]; 2]]);
    }
}

#[test]
fn dataset_errors() {
    assert_eq!(Dataset::new(1, vec![], vec![], vec![vec![]]).unwrap_err(), DataError::ZeroCount);
    assert_eq!(Dataset::new(1, vec![1], vec![vec![1]], vec![]).unwrap_err(), DataError::ZeroCount);
    assert_eq!(Dataset::new(1, vec![1], vec![vec![]], vec![vec![1]]).unwrap_err(), DataError::ZeroCount);
    assert_eq!(
        Dataset::new(1, vec![1, 1], vec![vec![1]], vec![vec![1]]).unwrap_err(),
        DataError::ShapeMismatch
    );
    assert_eq!(
        Dataset::new(1, vec![1, 1], vec![vec![1], vec![1, 2]], vec![vec![1, 1]]).unwrap_err(),
        DataError::ShapeMismatch
    );
    assert_eq!(
        Dataset::new(1, vec![1, 1], vec![vec![1], vec![2]], vec![vec![1]]).unwrap_err(),
        DataError::ShapeMismatch
    );
    assert_eq!(
        Dataset::new(2_000_000, vec![1], vec![vec![1]], vec![vec![1]]).unwrap_err(),
        DataError::TooLarge
    );
    assert_eq!(
        Dataset::new(1, vec![2], vec![vec![1]], vec![vec![1]]).unwrap_err(),
        DataError::LabelOutOfRange
    );
    let d = Dataset::new(1, vec![1, 0], vec![vec![1, 2, 3], vec![4, 5, 6]], vec![vec![1, 1]; 4]).unwrap();
    assert_eq!((d.n_obs(), d.n_feat(), d.n_pred()), (2, 3, 4));
}
