//! Synthetic block labels: consecutive blocks of drawn sizes, then shuffled.
use rand_distr::Distribution;
use ndarray_rand::RandomExt;
use vstd::prelude::*;
use crate::sizes::BlockSizes;

verus! {

#[verifier::external_type_specification]
#[verifier::external_body]
pub struct ExThreadRng(rand::rngs::ThreadRng);

/// Sum of the first `k` drawn sizes: where block `k + 1` would start.
pub open spec fn prefix_sum(sizes: Seq<usize>, k: int) -> int
    decreases k,
{
    if k <= 0 {
        0
    } else {
        prefix_sum(sizes, k - 1) + sizes[k - 1]
    }
}

/// The largest `k <= upto` whose first `k` sizes fit in `n` observations.
pub open spec fn fitted_upto(sizes: Seq<usize>, n: int, upto: int) -> int
    decreases upto,
{
    if upto <= 0 {
        0
    } else if prefix_sum(sizes, upto) <= n {
        upto
    } else {
        fitted_upto(sizes, n, upto - 1)
    }
}

/// Number of whole blocks that the drawn sizes lay out in `n` observations.
pub open spec fn fitted_count(sizes: Seq<usize>, n: int) -> int {
    fitted_upto(sizes, n, sizes.len() as int)
}

/// Label of position `i` when the first `count` blocks are laid out one after
/// another: block `j` (from 1) covers `prefix_sum(j - 1) .. prefix_sum(j)`;
/// a position after the last block has label 0.
pub open spec fn label_of(sizes: Seq<usize>, count: int, i: int) -> int
    decreases count,
{
    if count <= 0 {
        0
    } else if prefix_sum(sizes, count - 1) <= i < prefix_sum(sizes, count) {
        count
    } else {
        label_of(sizes, count - 1, i)
    }
}

/// Labels of `n` observations laid out in blocks of the drawn sizes.
pub open spec fn layout(sizes: Seq<usize>, n: int) -> Seq<usize> {
    Seq::new(n as nat, |i: int| label_of(sizes, fitted_count(sizes, n), i) as usize)
}

/// Every drawn size lies in the range.
pub open spec fn sizes_in_range(sizes: Seq<usize>, low: int, high: int) -> bool {
    forall|j: int| 0 <= j < sizes.len() ==> low <= #[trigger] sizes[j] <= high
}

proof fn lemma_prefix_monotone(sizes: Seq<usize>, a: int, b: int)
    requires
        0 <= a <= b <= sizes.len(),
    ensures
        prefix_sum(sizes, a) <= prefix_sum(sizes, b),
    decreases b - a,
{
    if a < b {
        lemma_prefix_monotone(sizes, a, b - 1);
    }
}

proof fn lemma_prefix_push(sizes: Seq<usize>, size: usize, k: int)
    requires
        0 <= k <= sizes.len(),
    ensures
        prefix_sum(sizes.push(size), k) == prefix_sum(sizes, k),
        prefix_sum(sizes.push(size), sizes.len() + 1int) == prefix_sum(sizes, sizes.len() as int) + size,
    decreases k,
{
    lemma_prefix_push_below(sizes, size, k);
    lemma_prefix_push_below(sizes, size, sizes.len() as int);
}

proof fn lemma_prefix_push_below(sizes: Seq<usize>, size: usize, k: int)
    requires
        0 <= k <= sizes.len(),
    ensures
        prefix_sum(sizes.push(size), k) == prefix_sum(sizes, k),
    decreases k,
{
    if k > 0 {
        lemma_prefix_push_below(sizes, size, k - 1);
    }
}

proof fn lemma_fitted_upto(sizes: Seq<usize>, n: int, c: int, upto: int)
    requires
        0 <= c <= upto <= sizes.len(),
        prefix_sum(sizes, c) <= n,
        c == sizes.len() || prefix_sum(sizes, c + 1) > n,
    ensures
        fitted_upto(sizes, n, upto) == c,
    decreases upto,
{
    if upto > c {
        lemma_prefix_monotone(sizes, c + 1, upto);
        lemma_fitted_upto(sizes, n, c, upto - 1);
    }
}

proof fn lemma_label_past_end(sizes: Seq<usize>, count: int, i: int)
    requires
        0 <= count <= sizes.len(),
        i >= prefix_sum(sizes, count),
    ensures
        label_of(sizes, count, i) == 0,
    decreases count,
{
    if count > 0 {
        lemma_prefix_monotone(sizes, count - 1, count);
        lemma_label_past_end(sizes, count - 1, i);
    }
}

/// Number of positions below `k` in `a..b`.
pub open spec fn overlap(a: int, b: int, k: int) -> int {
    if k <= a {
        0
    } else if k <= b {
        k - a
    } else {
        b - a
    }
}

proof fn lemma_label_bound(sizes: Seq<usize>, count: int, i: int)
    ensures
        0 <= label_of(sizes, count, i) <= if count < 0 { 0 } else { count },
    decreases count,
{
    if count > 0 {
        lemma_label_bound(sizes, count - 1, i);
    }
}

/// Position `i` has label `j` of the first `count` blocks exactly when it lies
/// in block `j`'s range; it has label 0 exactly when it lies past them.
proof fn lemma_label_of_range(sizes: Seq<usize>, count: int, i: int, j: int)
    requires
        0 <= count <= sizes.len(),
        0 <= i,
        0 <= j <= count,
    ensures
        1 <= j ==> (label_of(sizes, count, i) == j <==> prefix_sum(sizes, j - 1) <= i < prefix_sum(
            sizes,
            j,
        )),
        j == 0 ==> (label_of(sizes, count, i) == 0 <==> prefix_sum(sizes, count) <= i),
    decreases count,
{
    if count > 0 {
        lemma_label_bound(sizes, count - 1, i);
        lemma_prefix_monotone(sizes, count - 1, count);
        if j < count {
            lemma_label_of_range(sizes, count - 1, i, j);
            if j >= 1 {
                lemma_prefix_monotone(sizes, j, count - 1);
            }
        }
    }
}

/// Counting one label in a prefix of a sequence where that label fills
/// exactly the positions `a..b`.
proof fn lemma_count_range(labels: Seq<usize>, l: usize, a: int, b: int, k: int)
    requires
        0 <= a <= b,
        0 <= k <= labels.len(),
        forall|i: int| 0 <= i < labels.len() ==> (#[trigger] labels[i] == l <==> a <= i < b),
    ensures
        labels.subrange(0, k).to_multiset().count(l) == overlap(a, b, k),
    decreases k,
{
    if k == 0 {
        assert(labels.subrange(0, 0) =~= Seq::<usize>::empty());
        broadcast use vstd::seq_lib::group_to_multiset_ensures;
        assert(Seq::<usize>::empty().to_multiset().len() == 0);
    } else {
        lemma_count_range(labels, l, a, b, k - 1);
        assert(labels.subrange(0, k) =~= labels.subrange(0, k - 1).push(labels[k - 1]));
        broadcast use vstd::seq_lib::group_to_multiset_ensures;
        assert(labels.subrange(0, k).to_multiset() =~= labels.subrange(0, k - 1).to_multiset().insert(
            labels[k - 1],
        ));
    }
}

/// How often each label occurs in the layout of drawn sizes whose last size
/// is the first that did not fit: block `j` as often as its size, label 0 as
/// often as the observations left over, any larger label never.
pub proof fn lemma_layout_counts(sizes: Seq<usize>, n: int)
    requires
        1 <= sizes.len() <= usize::MAX,
        0 <= n,
        prefix_sum(sizes, sizes.len() - 1) <= n < prefix_sum(sizes, sizes.len() as int),
    ensures
        forall|l: usize|
            1 <= l < sizes.len() ==> #[trigger] layout(sizes, n).to_multiset().count(l) == sizes[l - 1],
        layout(sizes, n).to_multiset().count(0) == n - prefix_sum(sizes, sizes.len() - 1),
        forall|l: usize| l >= sizes.len() ==> #[trigger] layout(sizes, n).to_multiset().count(l) == 0,
{
    let c = sizes.len() - 1;
    let seq = layout(sizes, n);
    lemma_fitted_upto(sizes, n, c, sizes.len() as int);
    assert(seq.subrange(0, n) =~= seq);
    assert forall|l: usize| 1 <= l < sizes.len() implies #[trigger] seq.to_multiset().count(l)
        == sizes[l - 1] by {
        let a = prefix_sum(sizes, l - 1);
        let b = prefix_sum(sizes, l as int);
        lemma_prefix_monotone(sizes, l - 1, l as int);
        lemma_prefix_monotone(sizes, 0, l - 1);
        lemma_prefix_monotone(sizes, l as int, c);
        assert forall|i: int| 0 <= i < seq.len() implies (#[trigger] seq[i] == l <==> a <= i < b) by {
            lemma_label_bound(sizes, c, i);
            lemma_label_of_range(sizes, c, i, l as int);
        }
        lemma_count_range(seq, l, a, b, n);
    }
    let pc = prefix_sum(sizes, c);
    assert forall|i: int| 0 <= i < seq.len() implies (#[trigger] seq[i] == 0usize <==> pc <= i < n) by {
        lemma_label_bound(sizes, c, i);
        lemma_label_of_range(sizes, c, i, 0);
    }
    lemma_prefix_monotone(sizes, 0, c);
    lemma_count_range(seq, 0usize, pc, n, n);
    assert forall|l: usize| l >= sizes.len() implies #[trigger] seq.to_multiset().count(l) == 0 by {
        assert forall|i: int| 0 <= i < seq.len() implies (#[trigger] seq[i] == l <==> 0 <= i < 0) by {
            lemma_label_bound(sizes, c, i);
        }
        lemma_count_range(seq, l, 0, 0, n);
    }
}

/// Lays out `n_obs` observations in consecutive blocks of the given sizes,
/// labelled 1, 2, ... in order, as long as a whole block fits; the positions
/// left over keep label 0. Returns the labels and the number of blocks.
pub fn assign_block_ids(n_obs: usize, sizes: &Vec<usize>) -> (r: (Vec<usize>, usize))
    ensures
        r.1 == fitted_count(sizes@, n_obs as int),
        r.0@ == layout(sizes@, n_obs as int),
{
    let mut ids: Vec<usize> = Vec::new();
    let mut i: usize = 0;
    while i < n_obs
        invariant
            i <= n_obs,
            ids@.len() == i,
            forall|k: int| 0 <= k < i ==> ids@[k] == 0,
        decreases n_obs - i,
    {
        ids.push(0);
        i = i + 1;
    }
    let mut start: usize = 0;
    let mut j: usize = 0;
    while j < sizes.len()
        invariant_except_break
            j <= sizes.len(),
            start as int == prefix_sum(sizes@, j as int),
            start <= n_obs,
            ids@.len() == n_obs,
            forall|k: int| 0 <= k < n_obs ==> ids@[k] as int == label_of(sizes@, j as int, k),
        ensures
            j <= sizes.len(),
            start as int == prefix_sum(sizes@, j as int),
            start <= n_obs,
            ids@.len() == n_obs,
            forall|k: int| 0 <= k < n_obs ==> ids@[k] as int == label_of(sizes@, j as int, k),
            j == sizes.len() || prefix_sum(sizes@, j + 1) > n_obs,
        decreases sizes.len() - j,
    {
        let size = sizes[j];
        if size > n_obs - start {
            break;
        }
        let end = start + size;
        let mut t: usize = start;
        while t < end
            invariant
                start <= t <= end,
                end <= n_obs,
                j < sizes.len(),
                start as int == prefix_sum(sizes@, j as int),
                end as int == prefix_sum(sizes@, j + 1),
                ids@.len() == n_obs,
                forall|k: int|
                    0 <= k < n_obs ==> ids@[k] as int == (if start <= k < t {
                        j + 1
                    } else {
                        label_of(sizes@, j as int, k)
                    }),
            decreases end - t,
        {
            proof {
                lemma_label_past_end(sizes@, j as int, t as int);
            }
            ids.set(t, j + 1);
            t = t + 1;
        }
        start = end;
        j = j + 1;
    }
    proof {
        lemma_fitted_upto(sizes@, n_obs as int, j as int, sizes@.len() as int);
        assert(ids@ =~= layout(sizes@, n_obs as int));
    }
    (ids, j)
}

/// Relies on rand_distr's `Uniform` (rand's, re-exported): `new_inclusive` and
/// `sample` give a size in `low..=high`; `new_inclusive` panics when
/// `low > high`.
#[verifier::external_body]
fn draw_block_size(low: usize, high: usize, rng: &mut rand::rngs::ThreadRng) -> (r: usize)
    requires
        low <= high,
    ensures
        low <= r <= high,
{
    rand_distr::Uniform::new_inclusive(low, high).sample(rng)
}

/// Relies on ndarray_rand's `sample_axis_using` without replacement, taking as
/// many samples as there are labels: it selects every position once, in random
/// order, so the result is a rearrangement of the labels.
#[verifier::external_body]
fn shuffle_labels(labels: Vec<usize>, rng: &mut rand::rngs::ThreadRng) -> (r: Vec<usize>)
    ensures
        r@.len() == labels@.len(),
        r@.to_multiset() == labels@.to_multiset(),
{
    let n = labels.len();
    let array = ndarray::Array1::from_vec(labels);
    array.sample_axis_using(
        ndarray::Axis(0),
        n,
        ndarray_rand::SamplingStrategy::WithoutReplacement,
        rng,
    ).to_vec()
}

/// Draws block sizes from `block_sizes` until the next block would not fit in
/// `n_obs` observations, lays the blocks out with [`assign_block_ids`], and
/// shuffles the labels so that blocks are not contiguous. Returns the labels
/// and the number of blocks.
pub fn simulate_block_ids(n_obs: usize, block_sizes: BlockSizes, rng: &mut rand::rngs::ThreadRng) -> (r: (
    Vec<usize>,
    usize,
))
    ensures
        exists|sizes: Seq<usize>|
            {
                &&& sizes_in_range(sizes, block_sizes.min_spec() as int, block_sizes.max_spec() as int)
                &&& sizes.len() >= 1
                &&& prefix_sum(sizes, sizes.len() - 1) <= n_obs < prefix_sum(sizes, sizes.len() as int)
                &&& r.1 == sizes.len() - 1
                &&& r.1 == fitted_count(sizes, n_obs as int)
                &&& r.0@.to_multiset() == layout(sizes, n_obs as int).to_multiset()
            },
        r.0@.len() == n_obs,
        forall|l: usize|
            1 <= l <= r.1 ==> block_sizes.min_spec() <= #[trigger] r.0@.to_multiset().count(l)
                <= block_sizes.max_spec(),
        r.0@.to_multiset().count(0) < block_sizes.max_spec(),
        forall|l: usize| l > r.1 ==> #[trigger] r.0@.to_multiset().count(l) == 0,
{
    let (low, high) = block_sizes.get();
    let mut sizes: Vec<usize> = Vec::new();
    let mut total: usize = 0;
    loop
        invariant_except_break
            0 < low <= high,
            total <= n_obs,
            sizes_in_range(sizes@, low as int, high as int),
            total == prefix_sum(sizes@, sizes@.len() as int),
        ensures
            sizes_in_range(sizes@, low as int, high as int),
            sizes@.len() >= 1,
            prefix_sum(sizes@, sizes@.len() - 1) <= n_obs < prefix_sum(sizes@, sizes@.len() as int),
        decreases n_obs - total,
    {
        let size = draw_block_size(low, high, rng);
        proof {
            lemma_prefix_push(sizes@, size, sizes@.len() as int);
        }
        sizes.push(size);
        if size > n_obs - total {
            break;
        }
        total = total + size;
    }
    proof {
        let len = sizes@.len() as int;
        lemma_fitted_upto(sizes@, n_obs as int, len - 1, len);
        lemma_layout_counts(sizes@, n_obs as int);
        assert(sizes@[len - 1] <= high);
    }
    let (ids, count) = assign_block_ids(n_obs, &sizes);
    if n_obs == 0 {
        return (ids, count);
    }
    let shuffled = shuffle_labels(ids, rng);
    (shuffled, count)
}

} // verus!
