use swe_mockup::block_index;

#[test]
fn index_lists_positions_in_order() {
    let labels = vec![1, 0, 2, 1, 2, 0];
    assert_eq!(block_index(&labels, 2), vec![vec![0, 3], vec![2, 4]]);
}

#[test]
fn index_keeps_empty_blocks() {
    let labels = vec![1, 3, 3];
    assert_eq!(block_index(&labels, 3), vec![vec![0], vec![], vec![1, 2]]);
}

#[test]
fn index_single_block_of_size_one() {
    assert_eq!(block_index(&vec![1], 1), vec![vec![0]]);
}

#[test]
fn index_no_blocks() {
    let empty: Vec<Vec<usize>> = Vec::new();
    assert_eq!(block_index(&vec![0, 0, 0], 0), empty);
}

#[test]
fn index_is_a_partition_of_labelled_positions() {
    let labels: Vec<usize> = (0..50).map(|i| (i * 7 + 3) % 6).collect();
    let index = block_index(&labels, 5);
    let mut seen = vec![0usize; labels.len()];
    for (b, block) in index.iter().enumerate() {
        for &i in block {
            assert_eq!(labels[i], b + 1);
            seen[i] += 1;
        }
    }
    for i in 0..labels.len() {
        assert_eq!(seen[i], if labels[i] == 0 { 0 } else { 1 });
    }
}
