//! The block index: for each block label, the positions that carry it.
use vstd::prelude::*;

verus! {

/// Positions among the first `k` labels that carry `label`, in increasing order.
pub open spec fn positions_upto(labels: Seq<usize>, label: int, k: int) -> Seq<usize>
    decreases k,
{
    if k <= 0 {
        Seq::empty()
    } else if labels[k - 1] as int == label {
        positions_upto(labels, label, k - 1).push((k - 1) as usize)
    } else {
        positions_upto(labels, label, k - 1)
    }
}

/// Positions of all observations that carry `label`, in increasing order.
pub open spec fn block_positions(labels: Seq<usize>, label: int) -> Seq<usize> {
    positions_upto(labels, label, labels.len() as int)
}

/// The block index of `labels` with blocks `1..=n_blocks`: entry `b` holds the
/// positions of block `b + 1`.
pub open spec fn block_index_spec(labels: Seq<usize>, n_blocks: int) -> Seq<Seq<usize>> {
    Seq::new(n_blocks as nat, |b: int| block_positions(labels, b + 1))
}

/// A position is listed for `label` exactly when it carries that label, and the
/// list is strictly increasing.
pub proof fn lemma_positions_upto(labels: Seq<usize>, label: int, k: int)
    requires
        0 <= k <= labels.len() <= usize::MAX,
    ensures
        forall|i: int|
            0 <= i < labels.len() ==> (positions_upto(labels, label, k).contains(i as usize) <==> (
            i < k && labels[i] as int == label)),
        forall|a: int, b: int|
            0 <= a < b < positions_upto(labels, label, k).len() ==> positions_upto(
                labels,
                label,
                k,
            )[a] < positions_upto(labels, label, k)[b],
        forall|a: int|
            0 <= a < positions_upto(labels, label, k).len() ==> positions_upto(labels, label, k)[a]
                < k,
        positions_upto(labels, label, k).len() <= k,
    decreases k,
{
    if k > 0 {
        lemma_positions_upto(labels, label, k - 1);
        let prev = positions_upto(labels, label, k - 1);
        if labels[k - 1] as int == label {
            assert forall|i: int| 0 <= i < labels.len() implies (positions_upto(
                labels,
                label,
                k,
            ).contains(i as usize) <==> (i < k && labels[i] as int == label)) by {
                if i == k - 1 {
                    assert(prev.push((k - 1) as usize)[prev.len() as int] == (k - 1) as usize);
                }
                let ext = prev.push((k - 1) as usize);
                if ext.contains(i as usize) && i != k - 1 {
                    let w = choose|w: int| 0 <= w < ext.len() && #[trigger] ext[w] == i as usize;
                    assert(w < prev.len());
                    assert(prev.contains(i as usize));
                }
                if prev.contains(i as usize) {
                    let w = choose|w: int| 0 <= w < prev.len() && #[trigger] prev[w] == i as usize;
                    assert(prev.push((k - 1) as usize)[w] == i as usize);
                }
            }
        }
    }
}

/// Partition law of the block index: the blocks `1..=n_blocks` are pairwise
/// disjoint, and a position lies in one of them exactly when its label is in
/// `1..=n_blocks`.
pub proof fn lemma_block_index_partition(labels: Seq<usize>, n_blocks: int)
    requires
        n_blocks >= 0,
        labels.len() <= usize::MAX,
    ensures
        forall|b1: int, b2: int, i: int|
            0 <= b1 < n_blocks && 0 <= b2 < n_blocks && b1 != b2 && 0 <= i < labels.len()
                ==> !(#[trigger] block_index_spec(labels, n_blocks)[b1].contains(i as usize)
                && #[trigger] block_index_spec(labels, n_blocks)[b2].contains(i as usize)),
        forall|i: int|
            0 <= i < labels.len() ==> ((exists|b: int|
                0 <= b < n_blocks && #[trigger] block_index_spec(labels, n_blocks)[b].contains(
                    i as usize,
                )) <==> 1 <= #[trigger] labels[i] <= n_blocks),
{
    let n = labels.len() as int;
    assert forall|b1: int, b2: int, i: int|
        0 <= b1 < n_blocks && 0 <= b2 < n_blocks && b1 != b2 && 0 <= i < labels.len()
            implies !(#[trigger] block_index_spec(labels, n_blocks)[b1].contains(i as usize)
        && #[trigger] block_index_spec(labels, n_blocks)[b2].contains(i as usize)) by {
        lemma_positions_upto(labels, b1 + 1, n);
        lemma_positions_upto(labels, b2 + 1, n);
        assert(block_index_spec(labels, n_blocks)[b1] == positions_upto(labels, b1 + 1, n));
        assert(block_index_spec(labels, n_blocks)[b2] == positions_upto(labels, b2 + 1, n));
        assert(positions_upto(labels, b1 + 1, n).contains(i as usize) ==> labels[i] == b1 + 1);
        assert(positions_upto(labels, b2 + 1, n).contains(i as usize) ==> labels[i] == b2 + 1);
    }
    assert forall|i: int| 0 <= i < labels.len() implies ((exists|b: int|
        0 <= b < n_blocks && #[trigger] block_index_spec(labels, n_blocks)[b].contains(
            i as usize,
        )) <==> 1 <= #[trigger] labels[i] <= n_blocks) by {
        if 1 <= labels[i] <= n_blocks {
            let b = labels[i] - 1;
            lemma_positions_upto(labels, b + 1, n);
            assert(block_index_spec(labels, n_blocks)[b].contains(i as usize));
        }
        if exists|b: int|
            0 <= b < n_blocks && #[trigger] block_index_spec(labels, n_blocks)[b].contains(
                i as usize,
            ) {
            let b = choose|b: int|
                0 <= b < n_blocks && #[trigger] block_index_spec(labels, n_blocks)[b].contains(
                    i as usize,
                );
            lemma_positions_upto(labels, b + 1, n);
        }
    }
}

/// Builds the block index in one pass: entry `b` lists, in increasing order,
/// the positions whose label is `b + 1`. Labels 0 and labels above `n_blocks`
/// belong to no block.
pub fn block_index(labels: &Vec<usize>, n_blocks: usize) -> (r: Vec<Vec<usize>>)
    ensures
        r@.len() == n_blocks,
        forall|b: int| 0 <= b < n_blocks ==> #[trigger] r@[b]@ == block_positions(labels@, b + 1),
{
    let mut blocks: Vec<Vec<usize>> = Vec::new();
    let mut b: usize = 0;
    while b < n_blocks
        invariant
            b <= n_blocks,
            blocks@.len() == b,
            forall|k: int| 0 <= k < b ==> (#[trigger] blocks@[k])@.len() == 0,
        decreases n_blocks - b,
    {
        blocks.push(Vec::new());
        b = b + 1;
    }
    let mut i: usize = 0;
    while i < labels.len()
        invariant
            i <= labels.len(),
            blocks@.len() == n_blocks,
            forall|k: int|
                0 <= k < n_blocks ==> (#[trigger] blocks@[k])@ == positions_upto(
                    labels@,
                    k + 1,
                    i as int,
                ),
        decreases labels.len() - i,
    {
        let label = labels[i];
        if label >= 1 && label <= n_blocks {
            let mut bucket: Vec<usize> = Vec::new();
            blocks.set_and_swap(label - 1, &mut bucket);
            bucket.push(i);
            blocks.set_and_swap(label - 1, &mut bucket);
        }
        i = i + 1;
    }
    blocks
}

} // verus!
