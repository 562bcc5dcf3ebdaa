//! Laws of the sandwich accumulator and of the strategies that compute it.
use vstd::prelude::*;
use crate::dataset::Dataset;
use crate::kernel::{contribution, cov_range, half, half_upto};
use crate::pools::PoolWidths;
use crate::strategy::{Strategy, run, run_reference, run_repeated};
use crate::tensor::{Tensor, entry, tensor_shape};

verus! {

/// Every strategy yields the accumulator of the single-threaded reference:
/// same shape, same entries.
pub proof fn lemma_strategy_matches_reference(
    data: Dataset,
    strategy: Strategy,
    widths: PoolWidths,
    reference: Tensor,
    c: Tensor,
)
    requires
        data.wf(),
        call_ensures(run_reference, (&data,), reference),
        call_ensures(run, (&data, strategy, widths), c),
    ensures
        tensor_shape(c@, data.n_feat_spec(), data.n_pred_spec()),
        tensor_shape(reference@, data.n_feat_spec(), data.n_pred_spec()),
        forall|f: int, p: int, q: int|
            0 <= f < data.n_feat_spec() && 0 <= p < data.n_pred_spec() && 0 <= q < data.n_pred_spec()
                ==> #[trigger] entry(c@, f, p, q) == entry(reference@, f, p, q),
{
}

/// Repetitions do not carry over: any two repetition counts give the same
/// accumulator.
pub proof fn lemma_repetitions_agree(
    data: Dataset,
    strategy: Strategy,
    widths: PoolWidths,
    n1: usize,
    n2: usize,
    c1: Tensor,
    c2: Tensor,
)
    requires
        data.wf(),
        call_ensures(run_repeated, (&data, strategy, widths, n1), c1),
        call_ensures(run_repeated, (&data, strategy, widths, n2), c2),
    ensures
        tensor_shape(c1@, data.n_feat_spec(), data.n_pred_spec()),
        tensor_shape(c2@, data.n_feat_spec(), data.n_pred_spec()),
        forall|f: int, p: int, q: int|
            0 <= f < data.n_feat_spec() && 0 <= p < data.n_pred_spec() && 0 <= q < data.n_pred_spec()
                ==> #[trigger] entry(c1@, f, p, q) == entry(c2@, f, p, q),
{
}

proof fn lemma_cov_range_symmetric(
    x: Seq<Vec<i16>>,
    r: Seq<Vec<i16>>,
    blocks: Seq<Seq<usize>>,
    lo: int,
    hi: int,
    f: int,
    p: int,
    q: int,
)
    ensures
        cov_range(x, r, blocks, lo, hi, f, p, q) == cov_range(x, r, blocks, lo, hi, f, q, p),
    decreases hi - lo,
{
    if hi > lo {
        lemma_cov_range_symmetric(x, r, blocks, lo, hi - 1, f, p, q);
        vstd::arithmetic::mul::lemma_mul_is_commutative(
            half(x, r, blocks[hi - 1], p, f),
            half(x, r, blocks[hi - 1], q, f),
        );
    }
}

/// Each feature's slice of the accumulator is symmetric, and so is every
/// slice that a strategy hands back.
pub proof fn lemma_symmetric(data: Dataset, strategy: Strategy, widths: PoolWidths, c: Tensor)
    requires
        data.wf(),
        call_ensures(run, (&data, strategy, widths), c),
    ensures
        forall|f: int, p: int, q: int| #[trigger] data.cov(f, p, q) == data.cov(f, q, p),
        forall|f: int, p: int, q: int|
            0 <= f < data.n_feat_spec() && 0 <= p < data.n_pred_spec() && 0 <= q < data.n_pred_spec()
                ==> #[trigger] entry(c@, f, p, q) == entry(c@, f, q, p),
{
    assert forall|f: int, p: int, q: int| #[trigger] data.cov(f, p, q) == data.cov(f, q, p) by {
        lemma_cov_range_symmetric(
            data.x_pinv@,
            data.resid@,
            data.blocks_spec(),
            0,
            data.n_blocks as int,
            f,
            p,
            q,
        );
    }
}

/// A block without observations contributes exactly zero, so the sum over the
/// blocks up to it is unchanged by it.
pub proof fn lemma_empty_block_contributes_nothing(data: Dataset, b: int)
    requires
        data.wf(),
        0 <= b < data.n_blocks,
        data.blocks_spec()[b].len() == 0,
    ensures
        forall|f: int, p: int, q: int|
            #[trigger] contribution(data.x_pinv@, data.resid@, data.blocks_spec()[b], f, p, q) == 0,
        forall|f: int, p: int, q: int|
            #[trigger] cov_range(data.x_pinv@, data.resid@, data.blocks_spec(), 0, b + 1, f, p, q)
                == cov_range(data.x_pinv@, data.resid@, data.blocks_spec(), 0, b, f, p, q),
{
    assert forall|f: int, p: int, q: int|
        #[trigger] contribution(data.x_pinv@, data.resid@, data.blocks_spec()[b], f, p, q) == 0 by {
        assert(half_upto(data.x_pinv@, data.resid@, data.blocks_spec()[b], 0, p, f) == 0);
        assert(half_upto(data.x_pinv@, data.resid@, data.blocks_spec()[b], 0, q, f) == 0);
    }
    assert forall|f: int, p: int, q: int|
        #[trigger] cov_range(data.x_pinv@, data.resid@, data.blocks_spec(), 0, b + 1, f, p, q)
            == cov_range(data.x_pinv@, data.resid@, data.blocks_spec(), 0, b, f, p, q) by {
        assert(contribution(data.x_pinv@, data.resid@, data.blocks_spec()[b], f, p, q) == 0);
    }
}

/// With no blocks, every strategy hands back an accumulator of zeros.
pub proof fn lemma_no_blocks_all_zero(data: Dataset, strategy: Strategy, widths: PoolWidths, c: Tensor)
    requires
        data.wf(),
        data.n_blocks == 0,
        call_ensures(run, (&data, strategy, widths), c),
    ensures
        forall|f: int, p: int, q: int|
            0 <= f < data.n_feat_spec() && 0 <= p < data.n_pred_spec() && 0 <= q < data.n_pred_spec()
                ==> #[trigger] entry(c@, f, p, q) == 0,
{
}

/// `sum over q < k of z[q] * m(p, q)`.
pub open spec fn row_form(z: Seq<int>, m: spec_fn(int, int) -> int, p: int, k: int) -> int
    decreases k,
{
    if k <= 0 {
        0
    } else {
        row_form(z, m, p, k - 1) + z[k - 1] * m(p, k - 1)
    }
}

/// `sum over p < k of z[p] * row_form(z, m, p, n)`.
pub open spec fn quad_upto(z: Seq<int>, m: spec_fn(int, int) -> int, k: int, n: int) -> int
    decreases k,
{
    if k <= 0 {
        0
    } else {
        quad_upto(z, m, k - 1, n) + z[k - 1] * row_form(z, m, k - 1, n)
    }
}

/// The quadratic form `z^T M z` of the `n x n` matrix `m`, where `n` is the
/// length of `z`.
pub open spec fn quad_form(z: Seq<int>, m: spec_fn(int, int) -> int) -> int {
    quad_upto(z, m, z.len() as int, z.len() as int)
}

/// `sum over p < k of z[p] * v(p)`.
pub open spec fn dot_upto(z: Seq<int>, v: spec_fn(int) -> int, k: int) -> int
    decreases k,
{
    if k <= 0 {
        0
    } else {
        dot_upto(z, v, k - 1) + z[k - 1] * v(k - 1)
    }
}

proof fn lemma_row_linear(
    z: Seq<int>,
    m: spec_fn(int, int) -> int,
    a: spec_fn(int, int) -> int,
    b: spec_fn(int, int) -> int,
    p: int,
    k: int,
    n: int,
)
    requires
        0 <= k <= n,
        0 <= p < n,
        forall|p2: int, q: int| 0 <= p2 < n && 0 <= q < n ==> #[trigger] m(p2, q) == a(p2, q) + b(p2, q),
    ensures
        row_form(z, m, p, k) == row_form(z, a, p, k) + row_form(z, b, p, k),
    decreases k,
{
    if k > 0 {
        lemma_row_linear(z, m, a, b, p, k - 1, n);
        assert(m(p, k - 1) == a(p, k - 1) + b(p, k - 1));
        vstd::arithmetic::mul::lemma_mul_is_distributive_add(z[k - 1], a(p, k - 1), b(p, k - 1));
    }
}

proof fn lemma_quad_linear(
    z: Seq<int>,
    m: spec_fn(int, int) -> int,
    a: spec_fn(int, int) -> int,
    b: spec_fn(int, int) -> int,
    k: int,
    n: int,
)
    requires
        0 <= k <= n,
        forall|p: int, q: int| 0 <= p < n && 0 <= q < n ==> #[trigger] m(p, q) == a(p, q) + b(p, q),
    ensures
        quad_upto(z, m, k, n) == quad_upto(z, a, k, n) + quad_upto(z, b, k, n),
    decreases k,
{
    if k > 0 {
        lemma_quad_linear(z, m, a, b, k - 1, n);
        lemma_row_linear(z, m, a, b, k - 1, n, n);
        vstd::arithmetic::mul::lemma_mul_is_distributive_add(
            z[k - 1],
            row_form(z, a, k - 1, n),
            row_form(z, b, k - 1, n),
        );
    }
}

proof fn lemma_row_outer(z: Seq<int>, m: spec_fn(int, int) -> int, h: spec_fn(int) -> int, p: int, k: int, n: int)
    requires
        0 <= k <= n,
        0 <= p < n,
        forall|p2: int, q: int| 0 <= p2 < n && 0 <= q < n ==> #[trigger] m(p2, q) == h(p2) * h(q),
    ensures
        row_form(z, m, p, k) == h(p) * dot_upto(z, h, k),
    decreases k,
{
    if k > 0 {
        lemma_row_outer(z, m, h, p, k - 1, n);
        let zk = z[k - 1];
        let hp = h(p);
        let hk = h(k - 1);
        let d = dot_upto(z, h, k - 1);
        assert(m(p, k - 1) == hp * hk);
        assert(hp * d + zk * (hp * hk) == hp * (d + zk * hk)) by (nonlinear_arith);
    }
}

proof fn lemma_quad_outer(z: Seq<int>, m: spec_fn(int, int) -> int, h: spec_fn(int) -> int, k: int, n: int)
    requires
        0 <= k <= n,
        forall|p: int, q: int| 0 <= p < n && 0 <= q < n ==> #[trigger] m(p, q) == h(p) * h(q),
    ensures
        quad_upto(z, m, k, n) == dot_upto(z, h, k) * dot_upto(z, h, n),
    decreases k,
{
    if k > 0 {
        lemma_quad_outer(z, m, h, k - 1, n);
        lemma_row_outer(z, m, h, k - 1, n, n);
        let zk = z[k - 1];
        let hk = h(k - 1);
        let d = dot_upto(z, h, k - 1);
        let e = dot_upto(z, h, n);
        assert(d * e + zk * (hk * e) == (d + zk * hk) * e) by (nonlinear_arith);
    }
}

proof fn lemma_cov_range_psd(
    x: Seq<Vec<i16>>,
    r: Seq<Vec<i16>>,
    blocks: Seq<Seq<usize>>,
    lo: int,
    hi: int,
    f: int,
    z: Seq<int>,
)
    ensures
        quad_form(z, |p: int, q: int| cov_range(x, r, blocks, lo, hi, f, p, q)) >= 0,
    decreases hi - lo,
{
    let n = z.len() as int;
    let m = |p: int, q: int| cov_range(x, r, blocks, lo, hi, f, p, q);
    if hi <= lo {
        lemma_quad_linear(z, m, m, m, n, n);
    } else {
        lemma_cov_range_psd(x, r, blocks, lo, hi - 1, f, z);
        let prev = |p: int, q: int| cov_range(x, r, blocks, lo, hi - 1, f, p, q);
        let out = |p: int, q: int| contribution(x, r, blocks[hi - 1], f, p, q);
        let h = |p: int| half(x, r, blocks[hi - 1], p, f);
        lemma_quad_linear(z, m, prev, out, n, n);
        lemma_quad_outer(z, out, h, n, n);
        let d = dot_upto(z, h, n);
        assert(d * d >= 0) by (nonlinear_arith);
    }
}

proof fn lemma_quad_agree(z: Seq<int>, m1: spec_fn(int, int) -> int, m2: spec_fn(int, int) -> int)
    requires
        forall|p: int, q: int|
            0 <= p < z.len() && 0 <= q < z.len() ==> #[trigger] m1(p, q) == m2(p, q),
    ensures
        quad_form(z, m1) == quad_form(z, m2),
{
    let n = z.len() as int;
    let zero = |p: int, q: int| 0int;
    lemma_quad_linear(z, m1, m2, zero, n, n);
    lemma_quad_linear(z, zero, zero, zero, n, n);
}

/// Each feature's slice of the accumulator is positive semi-definite: its
/// quadratic form is non-negative at every integer vector, and so is that of
/// every slice that a strategy hands back.
pub proof fn lemma_positive_semidefinite(
    data: Dataset,
    strategy: Strategy,
    widths: PoolWidths,
    c: Tensor,
    f: int,
    z: Seq<int>,
)
    requires
        data.wf(),
        call_ensures(run, (&data, strategy, widths), c),
        0 <= f < data.n_feat_spec(),
        z.len() == data.n_pred_spec(),
    ensures
        quad_form(z, |p: int, q: int| data.cov(f, p, q)) >= 0,
        quad_form(z, |p: int, q: int| entry(c@, f, p, q)) >= 0,
{
    lemma_cov_range_psd(data.x_pinv@, data.resid@, data.blocks_spec(), 0, data.n_blocks as int, f, z);
    lemma_quad_agree(
        z,
        |p: int, q: int| data.cov(f, p, q),
        |p: int, q: int| cov_range(data.x_pinv@, data.resid@, data.blocks_spec(), 0, data.n_blocks as int, f, p, q),
    );
    lemma_quad_agree(z, |p: int, q: int| entry(c@, f, p, q), |p: int, q: int| data.cov(f, p, q));
}

} // verus!
