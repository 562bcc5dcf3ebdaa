//! The sandwich model over exact integers, and the per-block kernels.
//!
//! Entries of the residual matrix `R` (observations x features) and of the
//! design pseudo-inverse `X` (predictors x observations) are `i16`. For a block
//! with observation positions `idx`, the half-sandwich is the predictors x
//! features matrix `H[p][f] = sum over t of X[p][idx[t]] * R[idx[t]][f]`, and
//! its contribution to feature `f` of the accumulator is `H[.][f] H[.][f]^T`.
//! Accumulators are `i128`, which holds every sum within the size limits.
use vstd::prelude::*;

verus! {

/// Largest number of observations.
pub const MAX_OBS: usize = 1048576;

/// Largest number of blocks.
pub const MAX_BLOCKS: usize = 1048576;

/// Bound on a product of two entries.
pub open spec fn term_bound() -> int {
    0x4000_0000
}

/// Bound on a half-sandwich entry: `MAX_OBS` terms.
pub open spec fn half_bound() -> int {
    0x4_0000_0000_0000
}

/// Bound on one block's contribution to an accumulator entry.
pub open spec fn contribution_bound() -> int {
    0x10_0000_0000_0000_0000_0000_0000
}

/// Sum of the first `k` terms of half-sandwich entry `(p, f)` of the block `idx`.
pub open spec fn half_upto(
    x: Seq<Vec<i16>>,
    r: Seq<Vec<i16>>,
    idx: Seq<usize>,
    k: int,
    p: int,
    f: int,
) -> int
    decreases k,
{
    if k <= 0 {
        0
    } else {
        half_upto(x, r, idx, k - 1, p, f) + x[p]@[idx[k - 1] as int] as int * r[idx[k
            - 1] as int]@[f] as int
    }
}

/// Half-sandwich entry `(p, f)` of the block with positions `idx`.
pub open spec fn half(x: Seq<Vec<i16>>, r: Seq<Vec<i16>>, idx: Seq<usize>, p: int, f: int) -> int {
    half_upto(x, r, idx, idx.len() as int, p, f)
}

/// Entry `(p, q)` of the block's contribution to feature `f`.
pub open spec fn contribution(
    x: Seq<Vec<i16>>,
    r: Seq<Vec<i16>>,
    idx: Seq<usize>,
    f: int,
    p: int,
    q: int,
) -> int {
    half(x, r, idx, p, f) * half(x, r, idx, q, f)
}

/// Entry `(f, p, q)` summed over the blocks `lo..hi`.
pub open spec fn cov_range(
    x: Seq<Vec<i16>>,
    r: Seq<Vec<i16>>,
    blocks: Seq<Seq<usize>>,
    lo: int,
    hi: int,
    f: int,
    p: int,
    q: int,
) -> int
    decreases hi - lo,
{
    if hi <= lo {
        0
    } else {
        cov_range(x, r, blocks, lo, hi - 1, f, p, q) + contribution(x, r, blocks[hi - 1], f, p, q)
    }
}

/// Entry `(f, p, q)` of the sandwich accumulator: the sum over all blocks.
pub open spec fn sandwich(
    x: Seq<Vec<i16>>,
    r: Seq<Vec<i16>>,
    blocks: Seq<Seq<usize>>,
    f: int,
    p: int,
    q: int,
) -> int {
    cov_range(x, r, blocks, 0, blocks.len() as int, f, p, q)
}

/// `x` is `n_pred x n_obs` and `r` is `n_obs x n_feat`.
pub open spec fn shapes_ok(
    x: Seq<Vec<i16>>,
    r: Seq<Vec<i16>>,
    n_obs: int,
    n_feat: int,
    n_pred: int,
) -> bool {
    &&& x.len() == n_pred
    &&& r.len() == n_obs
    &&& n_obs <= MAX_OBS
    &&& forall|p: int| 0 <= p < n_pred ==> (#[trigger] x[p])@.len() == n_obs
    &&& forall|i: int| 0 <= i < n_obs ==> (#[trigger] r[i])@.len() == n_feat
}

/// A block lists at most `MAX_OBS` positions, each below `n_obs`.
pub open spec fn block_ok(idx: Seq<usize>, n_obs: int) -> bool {
    &&& idx.len() <= MAX_OBS
    &&& forall|t: int| 0 <= t < idx.len() ==> (#[trigger] idx[t] as int) < n_obs
}

/// At most `MAX_BLOCKS` blocks, each well formed.
pub open spec fn blocks_ok(blocks: Seq<Seq<usize>>, n_obs: int) -> bool {
    &&& blocks.len() <= MAX_BLOCKS
    &&& forall|b: int| 0 <= b < blocks.len() ==> block_ok(#[trigger] blocks[b], n_obs)
}

proof fn lemma_term_bound(a: i16, b: i16)
    ensures
        -term_bound() <= a as int * b as int <= term_bound(),
{
    assert(-0x4000_0000 <= a as int * b as int <= 0x4000_0000) by (nonlinear_arith)
        requires
            -0x8000 <= a <= 0x7fff,
            -0x8000 <= b <= 0x7fff,
    ;
}

/// A partial half-sandwich sum of `k` terms is at most `k` term bounds.
pub proof fn lemma_half_upto_bound(
    x: Seq<Vec<i16>>,
    r: Seq<Vec<i16>>,
    idx: Seq<usize>,
    k: int,
    p: int,
    f: int,
    n_obs: int,
    n_feat: int,
    n_pred: int,
)
    requires
        shapes_ok(x, r, n_obs, n_feat, n_pred),
        block_ok(idx, n_obs),
        0 <= k <= idx.len(),
        0 <= p < n_pred,
        0 <= f < n_feat,
    ensures
        -k * term_bound() <= half_upto(x, r, idx, k, p, f) <= k * term_bound(),
    decreases k,
{
    if k > 0 {
        lemma_half_upto_bound(x, r, idx, k - 1, p, f, n_obs, n_feat, n_pred);
        let i = idx[k - 1] as int;
        assert(0 <= i < n_obs);
        assert(x[p]@.len() == n_obs);
        assert(r[i]@.len() == n_feat);
        lemma_term_bound(x[p]@[i], r[i]@[f]);
    }
}

/// A half-sandwich entry is within `half_bound`, and a contribution entry
/// within `contribution_bound`.
pub proof fn lemma_contribution_bound(
    x: Seq<Vec<i16>>,
    r: Seq<Vec<i16>>,
    idx: Seq<usize>,
    f: int,
    p: int,
    q: int,
    n_obs: int,
    n_feat: int,
    n_pred: int,
)
    requires
        shapes_ok(x, r, n_obs, n_feat, n_pred),
        block_ok(idx, n_obs),
        0 <= p < n_pred,
        0 <= q < n_pred,
        0 <= f < n_feat,
    ensures
        -half_bound() <= half(x, r, idx, p, f) <= half_bound(),
        -half_bound() <= half(x, r, idx, q, f) <= half_bound(),
        -contribution_bound() <= contribution(x, r, idx, f, p, q) <= contribution_bound(),
{
    let n = idx.len() as int;
    lemma_half_upto_bound(x, r, idx, n, p, f, n_obs, n_feat, n_pred);
    lemma_half_upto_bound(x, r, idx, n, q, f, n_obs, n_feat, n_pred);
    assert(n * term_bound() <= half_bound()) by (nonlinear_arith)
        requires
            0 <= n <= 1048576,
            term_bound() == 0x4000_0000,
            half_bound() == 0x4_0000_0000_0000,
    ;
    let a = half(x, r, idx, p, f);
    let b = half(x, r, idx, q, f);
    assert(-contribution_bound() <= a * b <= contribution_bound()) by (nonlinear_arith)
        requires
            -half_bound() <= a <= half_bound(),
            -half_bound() <= b <= half_bound(),
            half_bound() == 0x4_0000_0000_0000,
            contribution_bound() == 0x10_0000_0000_0000_0000_0000_0000,
    ;
}

/// A sum over the blocks `lo..hi` is at most `hi - lo` contribution bounds.
pub proof fn lemma_cov_range_bound(
    x: Seq<Vec<i16>>,
    r: Seq<Vec<i16>>,
    blocks: Seq<Seq<usize>>,
    lo: int,
    hi: int,
    f: int,
    p: int,
    q: int,
    n_obs: int,
    n_feat: int,
    n_pred: int,
)
    requires
        shapes_ok(x, r, n_obs, n_feat, n_pred),
        blocks_ok(blocks, n_obs),
        0 <= lo <= hi <= blocks.len(),
        0 <= p < n_pred,
        0 <= q < n_pred,
        0 <= f < n_feat,
    ensures
        -(hi - lo) * contribution_bound() <= cov_range(x, r, blocks, lo, hi, f, p, q) <= (hi - lo)
            * contribution_bound(),
        i128::MIN <= cov_range(x, r, blocks, lo, hi, f, p, q) <= i128::MAX,
    decreases hi - lo,
{
    if hi > lo {
        lemma_cov_range_bound(x, r, blocks, lo, hi - 1, f, p, q, n_obs, n_feat, n_pred);
        assert(block_ok(blocks[hi - 1], n_obs));
        lemma_contribution_bound(x, r, blocks[hi - 1], f, p, q, n_obs, n_feat, n_pred);
    }
    let s = cov_range(x, r, blocks, lo, hi, f, p, q);
    let d = hi - lo;
    assert(i128::MIN <= s <= i128::MAX) by (nonlinear_arith)
        requires
            0 <= d <= 1048576,
            -d * contribution_bound() <= s <= d * contribution_bound(),
            contribution_bound() == 0x10_0000_0000_0000_0000_0000_0000,
    ;
}

/// Sums over adjacent block ranges add up.
pub proof fn lemma_cov_range_split(
    x: Seq<Vec<i16>>,
    r: Seq<Vec<i16>>,
    blocks: Seq<Seq<usize>>,
    lo: int,
    mid: int,
    hi: int,
    f: int,
    p: int,
    q: int,
)
    requires
        lo <= mid <= hi,
    ensures
        cov_range(x, r, blocks, lo, mid, f, p, q) + cov_range(x, r, blocks, mid, hi, f, p, q)
            == cov_range(x, r, blocks, lo, hi, f, p, q),
    decreases hi - mid,
{
    if hi > mid {
        lemma_cov_range_split(x, r, blocks, lo, mid, hi - 1, f, p, q);
    }
}

/// Computes the half-sandwich of the block with positions `idx`: the
/// `n_pred x n_feat` product of `x` restricted to the block's columns and `r`
/// restricted to the block's rows.
pub fn half_sandwich(x: &Vec<Vec<i16>>, r: &Vec<Vec<i16>>, idx: &Vec<usize>, n_feat: usize) -> (h:
    Vec<Vec<i64>>)
    requires
        shapes_ok(x@, r@, r@.len() as int, n_feat as int, x@.len() as int),
        block_ok(idx@, r@.len() as int),
    ensures
        h@.len() == x@.len(),
        forall|p: int| 0 <= p < x@.len() ==> (#[trigger] h@[p])@.len() == n_feat,
        forall|p: int, f: int|
            0 <= p < x@.len() && 0 <= f < n_feat ==> (#[trigger] h@[p]@[f]) as int == half(
                x@,
                r@,
                idx@,
                p,
                f,
            ),
{
    half_sandwich_columns(x, r, idx, n_feat, 0, n_feat)
}

/// The columns `lo..hi` of the half-sandwich: column `k` of the result is
/// feature `lo + k`.
pub fn half_sandwich_columns(
    x: &Vec<Vec<i16>>,
    r: &Vec<Vec<i16>>,
    idx: &Vec<usize>,
    n_feat: usize,
    lo: usize,
    hi: usize,
) -> (h: Vec<Vec<i64>>)
    requires
        shapes_ok(x@, r@, r@.len() as int, n_feat as int, x@.len() as int),
        block_ok(idx@, r@.len() as int),
        lo <= hi <= n_feat,
    ensures
        h@.len() == x@.len(),
        forall|p: int| 0 <= p < x@.len() ==> (#[trigger] h@[p])@.len() == hi - lo,
        forall|p: int, k: int|
            0 <= p < x@.len() && 0 <= k < hi - lo ==> (#[trigger] h@[p]@[k]) as int == half(
                x@,
                r@,
                idx@,
                p,
                lo + k,
            ),
{
    let n_pred = x.len();
    let ghost n_obs = r@.len() as int;
    let mut h: Vec<Vec<i64>> = Vec::new();
    let mut p: usize = 0;
    while p < n_pred
        invariant
            p <= n_pred == x@.len(),
            n_obs == r@.len(),
            shapes_ok(x@, r@, n_obs, n_feat as int, n_pred as int),
            block_ok(idx@, n_obs),
            h@.len() == p,
            lo <= hi <= n_feat,
            forall|p2: int| 0 <= p2 < p ==> (#[trigger] h@[p2])@.len() == hi - lo,
            forall|p2: int, k: int|
                0 <= p2 < p && 0 <= k < hi - lo ==> (#[trigger] h@[p2]@[k]) as int == half(
                    x@,
                    r@,
                    idx@,
                    p2,
                    lo + k,
                ),
        decreases n_pred - p,
    {
        let row = &x[p];
        let mut out: Vec<i64> = Vec::new();
        let mut f: usize = lo;
        while f < hi
            invariant
                p < n_pred == x@.len(),
                n_obs == r@.len(),
                *row == x@[p as int],
                shapes_ok(x@, r@, n_obs, n_feat as int, n_pred as int),
                block_ok(idx@, n_obs),
                lo <= f <= hi <= n_feat,
                out@.len() == f - lo,
                forall|k: int| 0 <= k < f - lo ==> (#[trigger] out@[k]) as int == half(x@, r@, idx@, p as int, lo + k),
            decreases hi - f,
        {
            let mut acc: i64 = 0;
            let mut t: usize = 0;
            while t < idx.len()
                invariant
                    p < n_pred == x@.len(),
                    f < n_feat,
                    n_obs == r@.len(),
                    *row == x@[p as int],
                    shapes_ok(x@, r@, n_obs, n_feat as int, n_pred as int),
                    block_ok(idx@, n_obs),
                    t <= idx@.len(),
                    acc as int == half_upto(x@, r@, idx@, t as int, p as int, f as int),
                decreases idx@.len() - t,
            {
                let i = idx[t];
                proof {
                    lemma_half_upto_bound(x@, r@, idx@, t + 1, p as int, f as int, n_obs, n_feat as int, n_pred as int);
                    assert(idx@[t as int] < n_obs);
                    assert((t + 1) * term_bound() <= half_bound()) by (nonlinear_arith)
                        requires
                            0 <= t + 1 <= 1048576,
                            term_bound() == 0x4000_0000,
                            half_bound() == 0x4_0000_0000_0000,
                    ;
                    assert(x@[p as int]@.len() == n_obs);
                    assert(r@[i as int]@.len() == n_feat);
                    lemma_term_bound(x@[p as int]@[i as int], r@[i as int]@[f as int]);
                }
                let product: i64 = row[i] as i64 * r[i][f] as i64;
                acc = acc + product;
                t = t + 1;
            }
            out.push(acc);
            f = f + 1;
        }
        h.push(out);
        p = p + 1;
    }
    h
}

/// The block's contribution to feature `f`: the outer product of column `f` of
/// the half-sandwich `h` with itself.
pub fn outer_product(h: &Vec<Vec<i64>>, f: usize) -> (m: Vec<Vec<i128>>)
    requires
        forall|p: int| 0 <= p < h@.len() ==> f < (#[trigger] h@[p])@.len(),
    ensures
        m@.len() == h@.len(),
        forall|p: int| 0 <= p < h@.len() ==> (#[trigger] m@[p])@.len() == h@.len(),
        forall|p: int, q: int|
            0 <= p < h@.len() && 0 <= q < h@.len() ==> (#[trigger] m@[p]@[q]) as int == h@[p]@[f as int]
                as int * h@[q]@[f as int] as int,
{
    let n = h.len();
    let mut m: Vec<Vec<i128>> = Vec::new();
    let mut p: usize = 0;
    while p < n
        invariant
            n == h@.len(),
            p <= n,
            forall|p2: int| 0 <= p2 < n ==> f < (#[trigger] h@[p2])@.len(),
            m@.len() == p,
            forall|p2: int| 0 <= p2 < p ==> (#[trigger] m@[p2])@.len() == n,
            forall|p2: int, q: int|
                0 <= p2 < p && 0 <= q < n ==> (#[trigger] m@[p2]@[q]) as int == h@[p2]@[f as int]
                    as int * h@[q]@[f as int] as int,
        decreases n - p,
    {
        let a = h[p][f] as i128;
        let mut row: Vec<i128> = Vec::new();
        let mut q: usize = 0;
        while q < n
            invariant
                n == h@.len(),
                p < n,
                q <= n,
                forall|p2: int| 0 <= p2 < n ==> f < (#[trigger] h@[p2])@.len(),
                a as int == h@[p as int]@[f as int] as int,
                row@.len() == q,
                forall|q2: int| 0 <= q2 < q ==> (#[trigger] row@[q2]) as int == a as int * h@[q2]@[f as int] as int,
            decreases n - q,
        {
            let b = h[q][f] as i128;
            proof {
                assert(i64::MIN <= a <= i64::MAX);
                assert(i64::MIN <= b <= i64::MAX);
                assert(i128::MIN <= a as int * b as int <= i128::MAX) by (nonlinear_arith)
                    requires
                        -0x8000_0000_0000_0000 <= a <= 0x7fff_ffff_ffff_ffff,
                        -0x8000_0000_0000_0000 <= b <= 0x7fff_ffff_ffff_ffff,
                ;
            }
            row.push(a * b);
            q = q + 1;
        }
        m.push(row);
        p = p + 1;
    }
    m
}

} // verus!
