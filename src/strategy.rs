//! The aggregation strategies. Each one is a schedule of the same kernels
//! under its own discipline for merging partial results into the accumulator,
//! and each yields the sandwich accumulator of the dataset exactly.
use rayon::iter::{IndexedParallelIterator, IntoParallelRefIterator, ParallelIterator};
use vstd::prelude::*;
use crate::channel::{BoundedChannel, Received};
use crate::dataset::Dataset;
use crate::gate::Gate;
use crate::index::block_index;
use crate::kernel::{
    block_ok, contribution, cov_range, half, half_sandwich, half_sandwich_columns,
    lemma_cov_range_bound, lemma_cov_range_split, outer_product, shapes_ok,
};
use crate::partition::feature_ranges;
use crate::pools::PoolWidths;
use crate::tensor::{
    Tensor, accumulate_columns, add_matrix_into, add_tensors, entry, square, tensor_is, tensor_shape, zero_tensor,
};

verus! {

/// The accumulator entries of `data` summed over the blocks `lo..hi`.
pub open spec fn partial_cov(data: Dataset, lo: int, hi: int) -> spec_fn(int, int, int) -> int {
    |f: int, p: int, q: int| cov_range(data.x_pinv@, data.resid@, data.blocks_spec(), lo, hi, f, p, q)
}

/// The accumulator entries of `data`.
pub open spec fn full_cov(data: Dataset) -> spec_fn(int, int, int) -> int {
    |f: int, p: int, q: int| data.cov(f, p, q)
}

/// `blocks` is the block index of `data`.
pub open spec fn is_index_of(blocks: Seq<Vec<usize>>, data: Dataset) -> bool {
    &&& blocks.len() == data.n_blocks
    &&& forall|b: int| 0 <= b < data.n_blocks ==> (#[trigger] blocks[b])@ == data.blocks_spec()[b]
}

/// `h` holds the columns `lo..hi` of the half-sandwich of block `b`.
pub open spec fn is_half_sandwich(h: Seq<Vec<i64>>, data: Dataset, b: int, lo: int, hi: int) -> bool {
    &&& h.len() == data.n_pred_spec()
    &&& forall|p: int| 0 <= p < data.n_pred_spec() ==> (#[trigger] h[p])@.len() == hi - lo
    &&& forall|p: int, k: int|
        0 <= p < data.n_pred_spec() && 0 <= k < hi - lo ==> (#[trigger] h[p]@[k]) as int == half(
            data.x_pinv@,
            data.resid@,
            data.blocks_spec()[b],
            p,
            lo + k,
        )
}

/// Adds block `b`'s contribution to the features `lo..hi` of `c`, whose
/// entries there are the sum over the blocks `first..b`; `h` holds the block's
/// half-sandwich columns `lo..hi`.
fn add_half_sandwich(
    data: &Dataset,
    h: &Vec<Vec<i64>>,
    b: usize,
    c: &mut Tensor,
    lo: usize,
    hi: usize,
    Ghost(first): Ghost<int>,
)
    requires
        data.wf(),
        b < data.n_blocks,
        0 <= first <= b,
        lo <= hi <= data.n_feat_spec(),
        is_half_sandwich(h@, *data, b as int, lo as int, hi as int),
        tensor_shape(old(c)@, data.n_feat_spec(), data.n_pred_spec()),
        forall|f: int, p: int, q: int|
            lo <= f < hi && 0 <= p < data.n_pred_spec() && 0 <= q < data.n_pred_spec()
                ==> #[trigger] entry(old(c)@, f, p, q) == partial_cov(*data, first, b as int)(f, p, q),
    ensures
        tensor_shape(final(c)@, data.n_feat_spec(), data.n_pred_spec()),
        forall|f: int, p: int, q: int|
            0 <= f < data.n_feat_spec() && 0 <= p < data.n_pred_spec() && 0 <= q
                < data.n_pred_spec() ==> #[trigger] entry(final(c)@, f, p, q) == if lo <= f < hi {
                partial_cov(*data, first, b + 1)(f, p, q)
            } else {
                entry(old(c)@, f, p, q)
            },
{
    let ghost x = data.x_pinv@;
    let ghost r = data.resid@;
    let ghost blocks = data.blocks_spec();
    proof {
        data.lemma_kernel_inputs();
        assert forall|f: int, p: int, q: int|
            lo <= f < hi && 0 <= p < data.n_pred_spec() && 0 <= q < data.n_pred_spec() implies {
            &&& h@[p]@[f - lo] * h@[q]@[f - lo] == contribution(x, r, blocks[b as int], f, p, q)
            &&& i128::MIN <= #[trigger] entry(c@, f, p, q) + h@[p]@[f - lo] * h@[q]@[f - lo]
                <= i128::MAX
        } by {
            assert(h@[p]@[f - lo] as int == half(x, r, blocks[b as int], p, lo + (f - lo)));
            assert(h@[q]@[f - lo] as int == half(x, r, blocks[b as int], q, lo + (f - lo)));
            lemma_cov_range_bound(
                x,
                r,
                blocks,
                first,
                b + 1,
                f,
                p,
                q,
                data.n_obs_spec(),
                data.n_feat_spec(),
                data.n_pred_spec(),
            );
        }
    }
    accumulate_columns(c, h, lo, hi, data.n_feat(), data.n_pred());
}

/// Computes block `b`'s half-sandwich columns `lo..hi` and adds its
/// contribution into `c`, as [`add_half_sandwich`] does.
fn add_block(
    data: &Dataset,
    blocks: &Vec<Vec<usize>>,
    b: usize,
    c: &mut Tensor,
    lo: usize,
    hi: usize,
    Ghost(first): Ghost<int>,
)
    requires
        data.wf(),
        is_index_of(blocks@, *data),
        b < data.n_blocks,
        0 <= first <= b,
        lo <= hi <= data.n_feat_spec(),
        tensor_shape(old(c)@, data.n_feat_spec(), data.n_pred_spec()),
        forall|f: int, p: int, q: int|
            lo <= f < hi && 0 <= p < data.n_pred_spec() && 0 <= q < data.n_pred_spec()
                ==> #[trigger] entry(old(c)@, f, p, q) == partial_cov(*data, first, b as int)(f, p, q),
    ensures
        tensor_shape(final(c)@, data.n_feat_spec(), data.n_pred_spec()),
        forall|f: int, p: int, q: int|
            0 <= f < data.n_feat_spec() && 0 <= p < data.n_pred_spec() && 0 <= q
                < data.n_pred_spec() ==> #[trigger] entry(final(c)@, f, p, q) == if lo <= f < hi {
                partial_cov(*data, first, b + 1)(f, p, q)
            } else {
                entry(old(c)@, f, p, q)
            },
{
    proof {
        data.lemma_kernel_inputs();
        assert(blocks@[b as int]@ == data.blocks_spec()[b as int]);
    }
    let h = half_sandwich_columns(&data.x_pinv, &data.resid, &blocks[b], data.n_feat(), lo, hi);
    add_half_sandwich(data, &h, b, c, lo, hi, Ghost(first));
}

/// Relies on rayon's `par_iter`, `map` and `collect_into_vec` on a slice: an
/// indexed parallel iterator stores item `k` at position `k`, so entry `k` is
/// the half-sandwich of block `lo + k`, computed by [`half_sandwich`].
#[verifier::external_body]
fn par_half_sandwiches(
    x: &Vec<Vec<i16>>,
    r: &Vec<Vec<i16>>,
    blocks: &Vec<Vec<usize>>,
    lo: usize,
    hi: usize,
    n_feat: usize,
) -> (hs: Vec<Vec<Vec<i64>>>)
    requires
        shapes_ok(x@, r@, r@.len() as int, n_feat as int, x@.len() as int),
        lo <= hi <= blocks@.len(),
        forall|b: int| lo <= b < hi ==> block_ok((#[trigger] blocks@[b])@, r@.len() as int),
    ensures
        hs@.len() == hi - lo,
        forall|k: int|
            0 <= k < hi - lo ==> {
                &&& (#[trigger] hs@[k])@.len() == x@.len()
                &&& forall|p: int| 0 <= p < x@.len() ==> (#[trigger] hs@[k]@[p])@.len() == n_feat
                &&& forall|p: int, f: int|
                    0 <= p < x@.len() && 0 <= f < n_feat ==> (#[trigger] hs@[k]@[p]@[f]) as int
                        == half(x@, r@, blocks@[lo + k]@, p, f)
            },
{
    let mut hs = Vec::new();
    blocks[lo..hi].par_iter().map(|idx| half_sandwich(x, r, idx, n_feat)).collect_into_vec(&mut hs);
    hs
}

/// The single-threaded reference: block by block, feature by feature.
pub fn run_reference(data: &Dataset) -> (c: Tensor)
    requires
        data.wf(),
    ensures
        tensor_is(c@, data.n_feat_spec(), data.n_pred_spec(), full_cov(*data)),
{
    let n_feat = data.n_feat();
    let n_pred = data.n_pred();
    let blocks = block_index(&data.block_ids, data.n_blocks);
    let mut c = zero_tensor(n_feat, n_pred);
    let mut b: usize = 0;
    while b < data.n_blocks
        invariant
            data.wf(),
            n_feat == data.n_feat_spec(),
            n_pred == data.n_pred_spec(),
            is_index_of(blocks@, *data),
            b <= data.n_blocks,
            tensor_is(c@, n_feat as int, n_pred as int, partial_cov(*data, 0, b as int)),
        decreases data.n_blocks - b,
    {
        add_block(data, &blocks, b, &mut c, 0, n_feat, Ghost(0));
        b = b + 1;
    }
    proof {
        data.lemma_kernel_inputs();
    }
    c
}

/// Flat feature-parallel strategy: the features are cut into contiguous
/// ranges, one per worker, and each worker runs the whole block loop on its
/// own range. No feature slice is touched by two workers.
pub fn run_flat_features(data: &Dataset, workers: usize) -> (c: Tensor)
    requires
        data.wf(),
        workers > 0,
    ensures
        tensor_is(c@, data.n_feat_spec(), data.n_pred_spec(), full_cov(*data)),
{
    let n_feat = data.n_feat();
    let n_pred = data.n_pred();
    let blocks = block_index(&data.block_ids, data.n_blocks);
    let ranges = feature_ranges(n_feat, workers);
    let mut c = zero_tensor(n_feat, n_pred);
    let mut k: usize = 0;
    let mut start: usize = 0;
    while k < ranges.len()
        invariant
            data.wf(),
            n_feat == data.n_feat_spec(),
            n_pred == data.n_pred_spec(),
            is_index_of(blocks@, *data),
            crate::partition::ranges_partition(ranges@, n_feat as int),
            k <= ranges@.len(),
            k == 0 ==> start == 0,
            k > 0 ==> start == ranges@[k - 1].1,
            start <= n_feat,
            tensor_shape(c@, n_feat as int, n_pred as int),
            forall|f: int, p: int, q: int|
                0 <= f < n_feat && 0 <= p < n_pred && 0 <= q < n_pred ==> #[trigger] entry(
                    c@,
                    f,
                    p,
                    q,
                ) == if f < start {
                    partial_cov(*data, 0, data.n_blocks as int)(f, p, q)
                } else {
                    0
                },
        decreases ranges@.len() - k,
    {
        let (lo, hi) = ranges[k];
        assert(lo == start);
        assert(hi <= n_feat) by {
            if k + 1 < ranges@.len() {
                assert(ranges@[k as int].1 == ranges@[k + 1].0);
                crate::partition::lemma_ranges_bounded(ranges@, n_feat as int, k + 1);
            }
        }
        let mut b: usize = 0;
        while b < data.n_blocks
            invariant
                data.wf(),
                n_feat == data.n_feat_spec(),
                n_pred == data.n_pred_spec(),
                is_index_of(blocks@, *data),
                lo <= hi <= n_feat,
                b <= data.n_blocks,
                tensor_shape(c@, n_feat as int, n_pred as int),
                forall|f: int, p: int, q: int|
                    0 <= f < n_feat && 0 <= p < n_pred && 0 <= q < n_pred ==> #[trigger] entry(
                        c@,
                        f,
                        p,
                        q,
                    ) == if f < lo {
                        partial_cov(*data, 0, data.n_blocks as int)(f, p, q)
                    } else if f < hi {
                        partial_cov(*data, 0, b as int)(f, p, q)
                    } else {
                        0
                    },
            decreases data.n_blocks - b,
        {
            add_block(data, &blocks, b, &mut c, lo, hi, Ghost(0));
            b = b + 1;
        }
        start = hi;
        k = k + 1;
    }
    proof {
        data.lemma_kernel_inputs();
    }
    c
}

/// Nested strategy with gated, exclusive accumulation. Before its
/// half-sandwich is formed, a block must hold one of the `outer_width` places
/// of the outer gate; the half-sandwiches of the blocks holding a place are
/// formed in parallel, then each block in turn holds the inner gate, is
/// accumulated over all features, and lets go of both. At most `outer_width`
/// half-sandwiches are alive at once.
pub fn run_gated(data: &Dataset, outer_width: usize) -> (c: Tensor)
    requires
        data.wf(),
        outer_width > 0,
    ensures
        tensor_is(c@, data.n_feat_spec(), data.n_pred_spec(), full_cov(*data)),
{
    let n_feat = data.n_feat();
    let n_pred = data.n_pred();
    let n_blocks = data.n_blocks;
    let blocks = block_index(&data.block_ids, n_blocks);
    let mut gate = Gate::new(outer_width);
    let mut done: usize = 0;
    let mut c = zero_tensor(n_feat, n_pred);
    while done < n_blocks
        invariant
            data.wf(),
            n_feat == data.n_feat_spec(),
            n_pred == data.n_pred_spec(),
            n_blocks == data.n_blocks,
            is_index_of(blocks@, *data),
            done <= n_blocks,
            gate.reserved_spec() == 0,
            gate.width_spec() == outer_width,
            outer_width > 0,
            !gate.busy_spec(),
            tensor_is(c@, n_feat as int, n_pred as int, partial_cov(*data, 0, done as int)),
        decreases n_blocks - done,
    {
        let mut end: usize = done;
        loop
            invariant
                done < n_blocks,
                done <= end <= n_blocks,
                gate.reserved_spec() == end - done,
                gate.reserved_spec() <= gate.width_spec(),
                gate.width_spec() == outer_width,
                outer_width > 0,
                !gate.busy_spec(),
            ensures
                done < end <= n_blocks,
                end - done <= outer_width,
                gate.reserved_spec() == end - done,
                gate.width_spec() == outer_width,
                !gate.busy_spec(),
            decreases n_blocks - end,
        {
            if end >= n_blocks {
                break;
            }
            if !gate.try_reserve() {
                break;
            }
            end = end + 1;
        }
        proof {
            data.lemma_kernel_inputs();
            assert forall|b: int| done <= b < end implies crate::kernel::block_ok(
                (#[trigger] blocks@[b])@,
                data.n_obs_spec(),
            ) by {
                assert(blocks@[b]@ == data.blocks_spec()[b]);
            }
        }
        let live = par_half_sandwiches(&data.x_pinv, &data.resid, &blocks, done, end, n_feat);
        proof {
            assert forall|j: int| 0 <= j < live@.len() implies is_half_sandwich(
                (#[trigger] live@[j])@,
                *data,
                done + j,
                0,
                n_feat as int,
            ) by {
                assert(blocks@[done + j]@ == data.blocks_spec()[done + j]);
                assert forall|p: int, f: int| 0 <= p < n_pred && 0 <= f < n_feat - 0 implies (
                #[trigger] live@[j]@[p]@[f]) as int == half(
                    data.x_pinv@,
                    data.resid@,
                    data.blocks_spec()[done + j],
                    p,
                    0 + f,
                ) by {}
            }
        }
        let mut k: usize = 0;
        while k < live.len()
            invariant
                data.wf(),
                n_feat == data.n_feat_spec(),
                n_pred == data.n_pred_spec(),
                n_blocks == data.n_blocks,
                done < end <= n_blocks,
                live@.len() == end - done,
                k <= live@.len(),
                gate.reserved_spec() == end - done - k,
                gate.width_spec() == outer_width,
                outer_width > 0,
                !gate.busy_spec(),
                forall|j: int|
                    0 <= j < live@.len() ==> is_half_sandwich(
                        (#[trigger] live@[j])@,
                        *data,
                        done + j,
                        0,
                        n_feat as int,
                    ),
                tensor_is(c@, n_feat as int, n_pred as int, partial_cov(*data, 0, done + k)),
            decreases live@.len() - k,
        {
            let entered = gate.try_enter_inner();
            assert(entered);
            add_half_sandwich(data, &live[k], done + k, &mut c, 0, n_feat, Ghost(0));
            gate.finish();
            k = k + 1;
        }
        done = end;
    }
    c
}

/// `msg` carries feature `g`'s contribution from the half-sandwich `h`.
pub open spec fn is_message(msg: (Vec<Vec<i128>>, usize), h: Seq<Vec<i64>>, g: int, n_pred: int) -> bool {
    &&& msg.1 == g
    &&& square(msg.0@, n_pred)
    &&& forall|p: int, q: int|
        0 <= p < n_pred && 0 <= q < n_pred ==> (#[trigger] msg.0@[p]@[q]) as int == h[p]@[g] as int
            * h[q]@[g] as int
}

/// The aggregator's step: takes the oldest contribution, feature `applied` of
/// block `b`, and adds it into its feature's slice of `c`.
fn aggregate_one(
    data: &Dataset,
    chan: &mut BoundedChannel<(Vec<Vec<i128>>, usize)>,
    c: &mut Tensor,
    h: &Vec<Vec<i64>>,
    b: usize,
    applied: usize,
)
    requires
        data.wf(),
        b < data.n_blocks,
        old(chan).wf(),
        old(chan).items_spec().len() > 0,
        is_message(old(chan).items_spec()[0], h@, applied as int, data.n_pred_spec()),
        is_half_sandwich(h@, *data, b as int, 0, data.n_feat_spec()),
        applied < data.n_feat_spec(),
        tensor_shape(old(c)@, data.n_feat_spec(), data.n_pred_spec()),
        forall|p: int, q: int|
            0 <= p < data.n_pred_spec() && 0 <= q < data.n_pred_spec() ==> #[trigger] entry(
                old(c)@,
                applied as int,
                p,
                q,
            ) == partial_cov(*data, 0, b as int)(applied as int, p, q),
    ensures
        final(chan).wf(),
        final(chan).items_spec() == old(chan).items_spec().drop_first(),
        final(chan).capacity_spec() == old(chan).capacity_spec(),
        final(chan).closed_spec() == old(chan).closed_spec(),
        tensor_shape(final(c)@, data.n_feat_spec(), data.n_pred_spec()),
        forall|f: int, p: int, q: int|
            0 <= f < data.n_feat_spec() && 0 <= p < data.n_pred_spec() && 0 <= q
                < data.n_pred_spec() ==> #[trigger] entry(final(c)@, f, p, q) == if f == applied {
                partial_cov(*data, 0, b + 1)(f, p, q)
            } else {
                entry(old(c)@, f, p, q)
            },
{
    let ghost x = data.x_pinv@;
    let ghost r = data.resid@;
    let ghost blocks = data.blocks_spec();
    let n_pred = data.n_pred();
    let received = chan.try_recv();
    assert(received is Item);
    match received {
        Received::Item(msg) => {
            assert(msg == old(chan).items_spec()[0]);
            let (m, g) = msg;
            assert(g == applied);
            let ghost before = c@;
            let mut slice: Vec<Vec<i128>> = Vec::new();
            c.set_and_swap(g, &mut slice);
            proof {
                data.lemma_kernel_inputs();
                assert forall|p: int, q: int| 0 <= p < n_pred && 0 <= q < n_pred implies {
                    &&& (#[trigger] m@[p]@[q]) as int == contribution(x, r, blocks[b as int], g as int, p, q)
                    &&& i128::MIN <= slice@[p]@[q] + m@[p]@[q] <= i128::MAX
                } by {
                    assert(h@[p]@[g as int] as int == half(x, r, blocks[b as int], p, 0 + g));
                    assert(h@[q]@[g as int] as int == half(x, r, blocks[b as int], q, 0 + g));
                    assert(entry(before, g as int, p, q) == slice@[p]@[q]);
                    lemma_cov_range_bound(
                        x,
                        r,
                        blocks,
                        0,
                        b + 1,
                        g as int,
                        p,
                        q,
                        data.n_obs_spec(),
                        data.n_feat_spec(),
                        data.n_pred_spec(),
                    );
                }
            }
            add_matrix_into(&mut slice, &m, n_pred);
            c.set_and_swap(g, &mut slice);
            proof {
                assert forall|f: int, p: int, q: int|
                    0 <= f < data.n_feat_spec() && 0 <= p < n_pred && 0 <= q < n_pred implies #[trigger] entry(
                    c@,
                    f,
                    p,
                    q,
                ) == if f == applied {
                    partial_cov(*data, 0, b + 1)(f, p, q)
                } else {
                    entry(before, f, p, q)
                } by {
                    if f != g {
                        assert(c@[f] == before[f]);
                    } else {
                        assert(entry(before, f, p, q) == partial_cov(*data, 0, b as int)(f, p, q));
                        assert(m@[p]@[q] as int == contribution(x, r, blocks[b as int], g as int, p, q));
                        assert(entry(c@, f, p, q) == entry(before, f, p, q) + m@[p]@[q]);
                    }
                }
                assert forall|f: int| 0 <= f < data.n_feat_spec() implies square(
                    (#[trigger] c@[f])@,
                    n_pred as int,
                ) by {
                    if f != g {
                        assert(c@[f] == before[f]);
                    }
                }
            }
        },
        _ => {},
    }
}

/// Producer/consumer strategy: for each block, one task per feature sends
/// that feature's contribution into a channel of `capacity` items, and the
/// aggregator, the only writer of the accumulator, takes them out whenever the
/// channel is full and drains it after the block. Once the channel is closed
/// and drained the aggregator is done.
pub fn run_channel(data: &Dataset, capacity: usize) -> (c: Tensor)
    requires
        data.wf(),
        capacity > 0,
    ensures
        tensor_is(c@, data.n_feat_spec(), data.n_pred_spec(), full_cov(*data)),
{
    let n_feat = data.n_feat();
    let n_pred = data.n_pred();
    let n_blocks = data.n_blocks;
    let blocks = block_index(&data.block_ids, n_blocks);
    let mut chan: BoundedChannel<(Vec<Vec<i128>>, usize)> = BoundedChannel::new(capacity);
    let mut c = zero_tensor(n_feat, n_pred);
    let mut b: usize = 0;
    while b < n_blocks
        invariant
            data.wf(),
            n_feat == data.n_feat_spec(),
            n_pred == data.n_pred_spec(),
            n_blocks == data.n_blocks,
            is_index_of(blocks@, *data),
            b <= n_blocks,
            chan.wf(),
            chan.items_spec().len() == 0,
            !chan.closed_spec(),
            chan.capacity_spec() == capacity,
            capacity > 0,
            tensor_is(c@, n_feat as int, n_pred as int, partial_cov(*data, 0, b as int)),
        decreases n_blocks - b,
    {
        proof {
            data.lemma_kernel_inputs();
            assert(blocks@[b as int]@ == data.blocks_spec()[b as int]);
            assert(crate::kernel::block_ok(data.blocks_spec()[b as int], data.n_obs_spec()));
        }
        let h = half_sandwich(&data.x_pinv, &data.resid, &blocks[b], n_feat);
        let mut sent: usize = 0;
        let mut applied: usize = 0;
        while applied < n_feat
            invariant
                data.wf(),
                n_feat == data.n_feat_spec(),
                n_pred == data.n_pred_spec(),
                n_blocks == data.n_blocks,
                b < n_blocks,
                is_half_sandwich(h@, *data, b as int, 0, n_feat as int),
                applied <= sent <= n_feat,
                chan.wf(),
                !chan.closed_spec(),
                chan.capacity_spec() == capacity,
                capacity > 0,
                chan.items_spec().len() == sent - applied,
                forall|k: int|
                    0 <= k < sent - applied ==> is_message(
                        #[trigger] chan.items_spec()[k],
                        h@,
                        applied + k,
                        n_pred as int,
                    ),
                tensor_shape(c@, n_feat as int, n_pred as int),
                forall|f: int, p: int, q: int|
                    0 <= f < n_feat && 0 <= p < n_pred && 0 <= q < n_pred ==> #[trigger] entry(
                        c@,
                        f,
                        p,
                        q,
                    ) == if f < applied {
                        partial_cov(*data, 0, b + 1)(f, p, q)
                    } else {
                        partial_cov(*data, 0, b as int)(f, p, q)
                    },
            decreases 2 * n_feat - sent - applied,
        {
            if sent < n_feat && chan.len() < chan.capacity() {
                let msg = (outer_product(&h, sent), sent);
                let ghost queued = chan.items_spec();
                let outcome = chan.try_send(msg);
                assert(outcome is Ok);
                proof {
                    assert forall|k: int| 0 <= k < sent + 1 - applied implies is_message(
                        #[trigger] chan.items_spec()[k],
                        h@,
                        applied + k,
                        n_pred as int,
                    ) by {
                        if k < sent - applied {
                            assert(chan.items_spec()[k] == queued[k]);
                        }
                    }
                }
                sent = sent + 1;
            } else {
                let ghost queued = chan.items_spec();
                aggregate_one(data, &mut chan, &mut c, &h, b, applied);
                applied = applied + 1;
                proof {
                    assert forall|k: int| 0 <= k < sent - applied implies is_message(
                        #[trigger] chan.items_spec()[k],
                        h@,
                        applied + k,
                        n_pred as int,
                    ) by {
                        assert(chan.items_spec()[k] == queued[k + 1]);
                    }
                }
            }
        }
        b = b + 1;
    }
    chan.close();
    let last = chan.try_recv();
    assert(last is Finished);
    proof {
        data.lemma_kernel_inputs();
    }
    c
}

/// Sums the local accumulators of the blocks `base..base + locals.len()`
/// pairwise, seeded with a zero accumulator for an empty range.
fn reduce_pairwise(data: &Dataset, locals: Vec<Tensor>, Ghost(base): Ghost<int>) -> (c: Tensor)
    requires
        data.wf(),
        0 <= base,
        base + locals@.len() <= data.n_blocks,
        forall|j: int|
            0 <= j < locals@.len() ==> tensor_is(
                (#[trigger] locals@[j])@,
                data.n_feat_spec(),
                data.n_pred_spec(),
                partial_cov(*data, base + j, base + j + 1),
            ),
    ensures
        tensor_is(
            c@,
            data.n_feat_spec(),
            data.n_pred_spec(),
            partial_cov(*data, base, base + locals@.len()),
        ),
    decreases locals@.len(),
{
    let n = locals.len();
    if n == 0 {
        return zero_tensor(data.n_feat(), data.n_pred());
    }
    if n == 1 {
        let mut locals = locals;
        let last = locals.pop();
        match last {
            Some(t) => {
                assert(t == locals@.push(t)[0]);
                return t;
            },
            None => {
                return zero_tensor(data.n_feat(), data.n_pred());
            },
        }
    }
    let mid = n / 2;
    let mut left = locals;
    let ghost all = left@;
    let right = left.split_off(mid);
    proof {
        assert forall|j: int| 0 <= j < right@.len() implies tensor_is(
            (#[trigger] right@[j])@,
            data.n_feat_spec(),
            data.n_pred_spec(),
            partial_cov(*data, base + mid + j, base + mid + j + 1),
        ) by {
            assert(right@[j] == all[mid + j]);
        }
        assert forall|j: int| 0 <= j < left@.len() implies tensor_is(
            (#[trigger] left@[j])@,
            data.n_feat_spec(),
            data.n_pred_spec(),
            partial_cov(*data, base + j, base + j + 1),
        ) by {
            assert(left@[j] == all[j]);
        }
    }
    let low = reduce_pairwise(data, left, Ghost(base));
    let high = reduce_pairwise(data, right, Ghost(base + mid));
    proof {
        data.lemma_kernel_inputs();
        assert forall|f: int, p: int, q: int|
            0 <= f < data.n_feat_spec() && 0 <= p < data.n_pred_spec() && 0 <= q
                < data.n_pred_spec() implies #[trigger] entry(low@, f, p, q) + entry(high@, f, p, q)
            == partial_cov(*data, base, base + n)(f, p, q) && i128::MIN <= entry(low@, f, p, q)
            + entry(high@, f, p, q) <= i128::MAX by {
            lemma_cov_range_split(
                data.x_pinv@,
                data.resid@,
                data.blocks_spec(),
                base,
                base + mid,
                base + n,
                f,
                p,
                q,
            );
            lemma_cov_range_bound(
                data.x_pinv@,
                data.resid@,
                data.blocks_spec(),
                base,
                base + n,
                f,
                p,
                q,
                data.n_obs_spec(),
                data.n_feat_spec(),
                data.n_pred_spec(),
            );
        }
    }
    add_tensors(low, &high, data.n_feat(), data.n_pred())
}

/// Local accumulation with reduction: the half-sandwiches of a wave of
/// `outer_width` blocks are formed in parallel, each block fills a private
/// accumulator with its own contribution, the wave's accumulators are summed
/// pairwise, and the wave's sum is added to the total. Nothing is shared while
/// the locals are filled.
pub fn run_local_reduce(data: &Dataset, outer_width: usize) -> (c: Tensor)
    requires
        data.wf(),
        outer_width > 0,
    ensures
        tensor_is(c@, data.n_feat_spec(), data.n_pred_spec(), full_cov(*data)),
{
    let n_feat = data.n_feat();
    let n_pred = data.n_pred();
    let n_blocks = data.n_blocks;
    let blocks = block_index(&data.block_ids, n_blocks);
    let mut total = zero_tensor(n_feat, n_pred);
    let mut b: usize = 0;
    while b < n_blocks
        invariant
            data.wf(),
            n_feat == data.n_feat_spec(),
            n_pred == data.n_pred_spec(),
            n_blocks == data.n_blocks,
            is_index_of(blocks@, *data),
            outer_width > 0,
            b <= n_blocks,
            tensor_is(total@, n_feat as int, n_pred as int, partial_cov(*data, 0, b as int)),
        decreases n_blocks - b,
    {
        let end: usize = if n_blocks - b > outer_width {
            b + outer_width
        } else {
            n_blocks
        };
        proof {
            data.lemma_kernel_inputs();
            assert forall|j: int| b <= j < end implies crate::kernel::block_ok(
                (#[trigger] blocks@[j])@,
                data.n_obs_spec(),
            ) by {
                assert(blocks@[j]@ == data.blocks_spec()[j]);
            }
        }
        let hs = par_half_sandwiches(&data.x_pinv, &data.resid, &blocks, b, end, n_feat);
        let mut locals: Vec<Tensor> = Vec::new();
        let mut k: usize = 0;
        while k < hs.len()
            invariant
                data.wf(),
                n_feat == data.n_feat_spec(),
                n_pred == data.n_pred_spec(),
                n_blocks == data.n_blocks,
                is_index_of(blocks@, *data),
                b < end <= n_blocks,
                hs@.len() == end - b,
                k <= hs@.len(),
                forall|j: int|
                    0 <= j < hs@.len() ==> {
                        &&& (#[trigger] hs@[j])@.len() == data.x_pinv@.len()
                        &&& forall|p: int|
                            0 <= p < data.x_pinv@.len() ==> (#[trigger] hs@[j]@[p])@.len() == n_feat
                        &&& forall|p: int, f: int|
                            0 <= p < data.x_pinv@.len() && 0 <= f < n_feat ==> (
                            #[trigger] hs@[j]@[p]@[f]) as int == half(
                                data.x_pinv@,
                                data.resid@,
                                blocks@[b + j]@,
                                p,
                                f,
                            )
                    },
                locals@.len() == k,
                forall|j: int|
                    0 <= j < locals@.len() ==> tensor_is(
                        (#[trigger] locals@[j])@,
                        n_feat as int,
                        n_pred as int,
                        partial_cov(*data, b + j, b + j + 1),
                    ),
            decreases hs@.len() - k,
        {
            proof {
                assert(blocks@[b + k]@ == data.blocks_spec()[b + k]);
                assert forall|p: int, f: int| 0 <= p < n_pred && 0 <= f < n_feat - 0 implies (
                #[trigger] hs@[k as int]@[p]@[f]) as int == half(
                    data.x_pinv@,
                    data.resid@,
                    data.blocks_spec()[b + k],
                    p,
                    0 + f,
                ) by {}
            }
            let mut local = zero_tensor(n_feat, n_pred);
            add_half_sandwich(data, &hs[k], b + k, &mut local, 0, n_feat, Ghost((b + k) as int));
            let ghost before = locals@;
            locals.push(local);
            proof {
                assert forall|j: int| 0 <= j < locals@.len() implies tensor_is(
                    (#[trigger] locals@[j])@,
                    n_feat as int,
                    n_pred as int,
                    partial_cov(*data, b + j, b + j + 1),
                ) by {
                    if j < before.len() {
                        assert(locals@[j] == before[j]);
                    }
                }
            }
            k = k + 1;
        }
        let wave = reduce_pairwise(data, locals, Ghost(b as int));
        proof {
            data.lemma_kernel_inputs();
            assert forall|f: int, p: int, q: int|
                0 <= f < n_feat && 0 <= p < n_pred && 0 <= q < n_pred implies #[trigger] entry(
                total@,
                f,
                p,
                q,
            ) + entry(wave@, f, p, q) == partial_cov(*data, 0, end as int)(f, p, q) && i128::MIN
                <= entry(total@, f, p, q) + entry(wave@, f, p, q) <= i128::MAX by {
                lemma_cov_range_split(
                    data.x_pinv@,
                    data.resid@,
                    data.blocks_spec(),
                    0,
                    b as int,
                    end as int,
                    f,
                    p,
                    q,
                );
                lemma_cov_range_bound(
                    data.x_pinv@,
                    data.resid@,
                    data.blocks_spec(),
                    0,
                    end as int,
                    f,
                    p,
                    q,
                    data.n_obs_spec(),
                    data.n_feat_spec(),
                    data.n_pred_spec(),
                );
            }
        }
        total = add_tensors(total, &wave, n_feat, n_pred);
        b = end;
    }
    proof {
        data.lemma_kernel_inputs();
    }
    total
}

/// The concurrency discipline by which partial results reach the accumulator.
#[derive(Clone, Copy, Debug, PartialEq, Eq)]
pub enum Strategy {
    /// Disjoint feature ranges per worker, no lock.
    FlatFeatures,
    /// Outer and inner pools, slot and inner gates around one lock.
    GatedNested,
    /// Outer and inner pools feeding a bounded channel with a single writer.
    Channel,
    /// Private accumulators per block, summed by a pairwise reduction.
    LocalReduce,
}

/// Runs one repetition with the chosen strategy: the flat strategy gets one
/// range per inner thread, the gated and reducing ones the outer width, and
/// the channel holds one item per thread of both pools.
pub fn run(data: &Dataset, strategy: Strategy, widths: PoolWidths) -> (c: Tensor)
    requires
        data.wf(),
        widths.outer > 0,
        widths.inner > 0,
        widths.outer + widths.inner <= usize::MAX,
    ensures
        tensor_is(c@, data.n_feat_spec(), data.n_pred_spec(), full_cov(*data)),
{
    match strategy {
        Strategy::FlatFeatures => run_flat_features(data, widths.inner),
        Strategy::GatedNested => run_gated(data, widths.outer),
        Strategy::Channel => run_channel(data, widths.channel_capacity()),
        Strategy::LocalReduce => run_local_reduce(data, widths.outer),
    }
}

/// Runs `n_rep` repetitions, each on a fresh accumulator, and hands back the
/// accumulator of the last one.
pub fn run_repeated(data: &Dataset, strategy: Strategy, widths: PoolWidths, n_rep: usize) -> (c:
    Tensor)
    requires
        data.wf(),
        widths.outer > 0,
        widths.inner > 0,
        widths.outer + widths.inner <= usize::MAX,
        n_rep > 0,
    ensures
        tensor_is(c@, data.n_feat_spec(), data.n_pred_spec(), full_cov(*data)),
{
    let mut c = run(data, strategy, widths);
    let mut rep: usize = 1;
    while rep < n_rep
        invariant
            data.wf(),
            widths.outer > 0,
            widths.inner > 0,
            widths.outer + widths.inner <= usize::MAX,
            rep <= n_rep,
            tensor_is(c@, data.n_feat_spec(), data.n_pred_spec(), full_cov(*data)),
        decreases n_rep - rep,
    {
        c = run(data, strategy, widths);
        rep = rep + 1;
    }
    c
}

} // verus!
