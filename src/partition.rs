//! Contiguous feature ranges, one per worker, for the flat feature-parallel
//! strategy: no feature slice is ever touched by two workers.
use vstd::prelude::*;

verus! {

/// `ranges` cut `0..n` into non-empty, adjacent, increasing ranges `(lo, hi)`.
pub open spec fn ranges_partition(ranges: Seq<(usize, usize)>, n: int) -> bool {
    &&& ranges.len() > 0
    &&& ranges[0].0 == 0
    &&& ranges.last().1 == n
    &&& forall|k: int| 0 <= k < ranges.len() ==> (#[trigger] ranges[k]).0 < ranges[k].1
    &&& forall|k: int| 0 <= k < ranges.len() - 1 ==> (#[trigger] ranges[k]).1 == ranges[k + 1].0
}

/// Splits the features `0..n_feat` into `min(workers, n_feat)` contiguous
/// ranges whose lengths differ by at most one, the longer ones first.
pub fn feature_ranges(n_feat: usize, workers: usize) -> (ranges: Vec<(usize, usize)>)
    requires
        n_feat > 0,
        workers > 0,
    ensures
        ranges@.len() == (if workers < n_feat {
            workers
        } else {
            n_feat
        }),
        ranges_partition(ranges@, n_feat as int),
        forall|k: int|
            0 <= k < ranges@.len() ==> (#[trigger] ranges@[k]).1 - ranges@[k].0 == n_feat as int
                / ranges@.len() as int + (if k < n_feat as int % ranges@.len() as int {
                1int
            } else {
                0int
            }),
{
    let w: usize = if workers < n_feat {
        workers
    } else {
        n_feat
    };
    let base: usize = n_feat / w;
    let extra: usize = n_feat % w;
    proof {
        vstd::arithmetic::div_mod::lemma_fundamental_div_mod(n_feat as int, w as int);
        assert(base >= 1) by (nonlinear_arith)
            requires
                0 < w <= n_feat,
                base == n_feat / w,
        ;
    }
    let mut ranges: Vec<(usize, usize)> = Vec::new();
    let mut start: usize = 0;
    let mut k: usize = 0;
    while k < w
        invariant
            0 < w <= n_feat,
            base == n_feat / w,
            extra == n_feat % w,
            base >= 1,
            extra < w,
            n_feat == w * base + extra,
            k <= w,
            start == k * base + (if k < extra {
                k as int
            } else {
                extra as int
            }),
            ranges@.len() == k,
            k > 0 ==> ranges@[k - 1].1 == start,
            k == 0 ==> start == 0,
            ranges@.len() > 0 ==> ranges@[0].0 == 0,
            forall|j: int| 0 <= j < k ==> (#[trigger] ranges@[j]).0 < ranges@[j].1,
            forall|j: int| 0 <= j < k - 1 ==> (#[trigger] ranges@[j]).1 == ranges@[j + 1].0,
            forall|j: int|
                0 <= j < k ==> (#[trigger] ranges@[j]).1 - ranges@[j].0 == base + (if j < extra {
                    1int
                } else {
                    0int
                }),
        decreases w - k,
    {
        proof {
            if k < extra {
                assert(base + 1 <= n_feat) by (nonlinear_arith)
                    requires
                        w >= 2,
                        n_feat == w * base + extra,
                        extra >= 1,
                        base >= 1,
                ;
            }
        }
        let len: usize = if k < extra {
            base + 1
        } else {
            base
        };
        proof {
            assert((k + 1) * base == k * base + base) by (nonlinear_arith);
            assert((k + 1) * base <= w * base) by (nonlinear_arith)
                requires
                    k + 1 <= w,
                    base >= 1,
            ;
        }
        ranges.push((start, start + len));
        start = start + len;
        k = k + 1;
    }
    ranges
}

/// Every range of a partition of `0..n` starts at or before `n`.
pub proof fn lemma_ranges_bounded(ranges: Seq<(usize, usize)>, n: int, k: int)
    requires
        ranges_partition(ranges, n),
        0 <= k < ranges.len(),
    ensures
        ranges[k].0 <= n,
        ranges[k].1 <= n,
    decreases ranges.len() - k,
{
    if k + 1 < ranges.len() {
        lemma_ranges_bounded(ranges, n, k + 1);
    }
}

} // verus!
