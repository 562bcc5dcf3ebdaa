//! The accumulator tensor: one `n_pred x n_pred` slice per feature.
use vstd::prelude::*;
use crate::kernel::outer_product;

verus! {

/// Accumulator indexed by feature, then predictor, then predictor.
pub type Tensor = Vec<Vec<Vec<i128>>>;

/// `m` is an `n x n` matrix.
pub open spec fn square(m: Seq<Vec<i128>>, n: int) -> bool {
    &&& m.len() == n
    &&& forall|p: int| 0 <= p < n ==> (#[trigger] m[p])@.len() == n
}

/// `c` has `n_feat` slices of `n_pred x n_pred`.
pub open spec fn tensor_shape(c: Seq<Vec<Vec<i128>>>, n_feat: int, n_pred: int) -> bool {
    &&& c.len() == n_feat
    &&& forall|f: int| 0 <= f < n_feat ==> square((#[trigger] c[f])@, n_pred)
}

/// Entry `(f, p, q)` of `c`.
pub open spec fn entry(c: Seq<Vec<Vec<i128>>>, f: int, p: int, q: int) -> int {
    c[f]@[p]@[q] as int
}

/// `c` has the given shape and its entries are those of `value`.
pub open spec fn tensor_is(
    c: Seq<Vec<Vec<i128>>>,
    n_feat: int,
    n_pred: int,
    value: spec_fn(int, int, int) -> int,
) -> bool {
    &&& tensor_shape(c, n_feat, n_pred)
    &&& forall|f: int, p: int, q: int|
        0 <= f < n_feat && 0 <= p < n_pred && 0 <= q < n_pred ==> #[trigger] entry(c, f, p, q)
            == value(f, p, q)
}

/// An `n x n` matrix of zeros.
pub fn zero_matrix(n: usize) -> (m: Vec<Vec<i128>>)
    ensures
        square(m@, n as int),
        forall|p: int, q: int| 0 <= p < n && 0 <= q < n ==> (#[trigger] m@[p]@[q]) == 0,
{
    let mut m: Vec<Vec<i128>> = Vec::new();
    let mut p: usize = 0;
    while p < n
        invariant
            p <= n,
            m@.len() == p,
            forall|p2: int| 0 <= p2 < p ==> (#[trigger] m@[p2])@.len() == n,
            forall|p2: int, q: int| 0 <= p2 < p && 0 <= q < n ==> (#[trigger] m@[p2]@[q]) == 0,
        decreases n - p,
    {
        let mut row: Vec<i128> = Vec::new();
        let mut q: usize = 0;
        while q < n
            invariant
                q <= n,
                row@.len() == q,
                forall|q2: int| 0 <= q2 < q ==> (#[trigger] row@[q2]) == 0,
            decreases n - q,
        {
            row.push(0);
            q = q + 1;
        }
        m.push(row);
        p = p + 1;
    }
    m
}

/// An accumulator of zeros with `n_feat` slices of `n_pred x n_pred`.
pub fn zero_tensor(n_feat: usize, n_pred: usize) -> (c: Tensor)
    ensures
        tensor_is(c@, n_feat as int, n_pred as int, |f: int, p: int, q: int| 0),
{
    let mut c: Tensor = Vec::new();
    let mut f: usize = 0;
    while f < n_feat
        invariant
            f <= n_feat,
            c@.len() == f,
            forall|f2: int| 0 <= f2 < f ==> square((#[trigger] c@[f2])@, n_pred as int),
            forall|f2: int, p: int, q: int|
                0 <= f2 < f && 0 <= p < n_pred && 0 <= q < n_pred ==> #[trigger] entry(c@, f2, p, q)
                    == 0,
        decreases n_feat - f,
    {
        let ghost before = c@;
        let m = zero_matrix(n_pred);
        c.push(m);
        proof {
            assert forall|f2: int, p: int, q: int|
                0 <= f2 <= f && 0 <= p < n_pred && 0 <= q < n_pred implies #[trigger] entry(
                c@,
                f2,
                p,
                q,
            ) == 0 by {
                if f2 < f {
                    assert(c@[f2] == before[f2]);
                    assert(entry(before, f2, p, q) == 0);
                } else {
                    assert(c@[f2]@[p]@[q] == m@[p]@[q]);
                }
            }
        }
        f = f + 1;
    }
    c
}

/// Adds `m` into `acc`, entry by entry.
pub fn add_matrix_into(acc: &mut Vec<Vec<i128>>, m: &Vec<Vec<i128>>, n: usize)
    requires
        square(old(acc)@, n as int),
        square(m@, n as int),
        forall|p: int, q: int|
            0 <= p < n && 0 <= q < n ==> i128::MIN <= (#[trigger] old(acc)@[p]@[q]) + m@[p]@[q]
                <= i128::MAX,
    ensures
        square(final(acc)@, n as int),
        forall|p: int, q: int|
            0 <= p < n && 0 <= q < n ==> (#[trigger] final(acc)@[p]@[q]) == old(acc)@[p]@[q]
                + m@[p]@[q],
{
    let ghost start = acc@;
    let mut p: usize = 0;
    while p < n
        invariant
            p <= n,
            square(acc@, n as int),
            square(m@, n as int),
            square(start, n as int),
            forall|p2: int, q: int|
                0 <= p2 < n && 0 <= q < n ==> i128::MIN <= (#[trigger] start[p2]@[q]) + m@[p2]@[q]
                    <= i128::MAX,
            forall|p2: int, q: int|
                0 <= p2 < n && 0 <= q < n ==> (#[trigger] acc@[p2]@[q]) == (if p2 < p {
                    start[p2]@[q] + m@[p2]@[q]
                } else {
                    start[p2]@[q] as int
                }),
        decreases n - p,
    {
        let mut row: Vec<i128> = Vec::new();
        acc.set_and_swap(p, &mut row);
        let mut q: usize = 0;
        while q < n
            invariant
                p < n,
                q <= n,
                row@.len() == n,
                square(m@, n as int),
                square(start, n as int),
                forall|p2: int, q2: int|
                    0 <= p2 < n && 0 <= q2 < n ==> i128::MIN <= (#[trigger] start[p2]@[q2]) + m@[p2]@[q2]
                        <= i128::MAX,
                forall|q2: int|
                    0 <= q2 < n ==> (#[trigger] row@[q2]) == (if q2 < q {
                        start[p as int]@[q2] + m@[p as int]@[q2]
                    } else {
                        start[p as int]@[q2] as int
                    }),
            decreases n - q,
        {
            let v = row[q] + m[p][q];
            row.set(q, v);
            q = q + 1;
        }
        acc.set_and_swap(p, &mut row);
        p = p + 1;
    }
}

/// Adds, for each feature `f` in `lo..hi`, the outer product of column
/// `f - lo` of `h` with itself into slice `f` of `c`.
pub fn accumulate_columns(
    c: &mut Tensor,
    h: &Vec<Vec<i64>>,
    lo: usize,
    hi: usize,
    n_feat: usize,
    n_pred: usize,
)
    requires
        tensor_shape(old(c)@, n_feat as int, n_pred as int),
        lo <= hi <= n_feat,
        h@.len() == n_pred,
        forall|p: int| 0 <= p < n_pred ==> (#[trigger] h@[p])@.len() == hi - lo,
        forall|f: int, p: int, q: int|
            lo <= f < hi && 0 <= p < n_pred && 0 <= q < n_pred ==> i128::MIN <= #[trigger] entry(
                old(c)@,
                f,
                p,
                q,
            ) + h@[p]@[f - lo] * h@[q]@[f - lo] <= i128::MAX,
    ensures
        tensor_shape(final(c)@, n_feat as int, n_pred as int),
        forall|f: int, p: int, q: int|
            0 <= f < n_feat && 0 <= p < n_pred && 0 <= q < n_pred ==> #[trigger] entry(
                final(c)@,
                f,
                p,
                q,
            ) == if lo <= f < hi {
                entry(old(c)@, f, p, q) + h@[p]@[f - lo] * h@[q]@[f - lo]
            } else {
                entry(old(c)@, f, p, q)
            },
{
    let ghost start = c@;
    let mut k: usize = 0;
    while k < hi - lo
        invariant
            lo <= hi <= n_feat,
            k <= hi - lo,
            h@.len() == n_pred,
            forall|p: int| 0 <= p < n_pred ==> (#[trigger] h@[p])@.len() == hi - lo,
            tensor_shape(start, n_feat as int, n_pred as int),
            tensor_shape(c@, n_feat as int, n_pred as int),
            forall|f: int, p: int, q: int|
                lo <= f < hi && 0 <= p < n_pred && 0 <= q < n_pred ==> i128::MIN <= #[trigger] entry(
                    start,
                    f,
                    p,
                    q,
                ) + h@[p]@[f - lo] * h@[q]@[f - lo] <= i128::MAX,
            forall|f: int, p: int, q: int|
                0 <= f < n_feat && 0 <= p < n_pred && 0 <= q < n_pred ==> #[trigger] entry(
                    c@,
                    f,
                    p,
                    q,
                ) == if lo <= f < lo + k {
                    entry(start, f, p, q) + h@[p]@[f - lo] * h@[q]@[f - lo]
                } else {
                    entry(start, f, p, q)
                },
        decreases hi - lo - k,
    {
        let m = outer_product(h, k);
        let f = lo + k;
        let ghost before = c@;
        let mut slice: Vec<Vec<i128>> = Vec::new();
        c.set_and_swap(f, &mut slice);
        proof {
            assert(slice@ == before[f as int]@);
            assert forall|p: int, q: int|
                0 <= p < n_pred && 0 <= q < n_pred implies i128::MIN <= (#[trigger] slice@[p]@[q])
                + m@[p]@[q] <= i128::MAX by {
                assert(entry(before, f as int, p, q) == entry(start, f as int, p, q));
                assert(entry(start, f as int, p, q) + h@[p]@[f - lo] * h@[q]@[f - lo] <= i128::MAX);
            }
        }
        add_matrix_into(&mut slice, &m, n_pred);
        c.set_and_swap(f, &mut slice);
        proof {
            assert forall|f2: int, p: int, q: int|
                0 <= f2 < n_feat && 0 <= p < n_pred && 0 <= q < n_pred implies #[trigger] entry(
                c@,
                f2,
                p,
                q,
            ) == if lo <= f2 < lo + k + 1 {
                entry(start, f2, p, q) + h@[p]@[f2 - lo] * h@[q]@[f2 - lo]
            } else {
                entry(start, f2, p, q)
            } by {
                if f2 != f {
                    assert(c@[f2] == before[f2]);
                    assert(entry(c@, f2, p, q) == entry(before, f2, p, q));
                } else {
                    assert(entry(before, f2, p, q) == entry(start, f2, p, q));
                }
            }
            assert forall|f2: int| 0 <= f2 < n_feat implies square((#[trigger] c@[f2])@, n_pred as int) by {
                if f2 != f {
                    assert(c@[f2] == before[f2]);
                }
            }
        }
        k = k + 1;
    }
}

/// Adds `b` into `a`, slice by slice.
pub fn add_tensors(a: Tensor, b: &Tensor, n_feat: usize, n_pred: usize) -> (c: Tensor)
    requires
        tensor_shape(a@, n_feat as int, n_pred as int),
        tensor_shape(b@, n_feat as int, n_pred as int),
        forall|f: int, p: int, q: int|
            0 <= f < n_feat && 0 <= p < n_pred && 0 <= q < n_pred ==> i128::MIN <= #[trigger] entry(
                a@,
                f,
                p,
                q,
            ) + entry(b@, f, p, q) <= i128::MAX,
    ensures
        tensor_is(c@, n_feat as int, n_pred as int, |f: int, p: int, q: int| entry(a@, f, p, q) + entry(b@, f, p, q)),
{
    let ghost start = a@;
    let mut c = a;
    let mut f: usize = 0;
    while f < n_feat
        invariant
            f <= n_feat,
            tensor_shape(start, n_feat as int, n_pred as int),
            tensor_shape(b@, n_feat as int, n_pred as int),
            tensor_shape(c@, n_feat as int, n_pred as int),
            forall|f2: int, p: int, q: int|
                0 <= f2 < n_feat && 0 <= p < n_pred && 0 <= q < n_pred ==> i128::MIN <= #[trigger] entry(
                    start,
                    f2,
                    p,
                    q,
                ) + entry(b@, f2, p, q) <= i128::MAX,
            forall|f2: int, p: int, q: int|
                0 <= f2 < n_feat && 0 <= p < n_pred && 0 <= q < n_pred ==> #[trigger] entry(
                    c@,
                    f2,
                    p,
                    q,
                ) == if f2 < f {
                    entry(start, f2, p, q) + entry(b@, f2, p, q)
                } else {
                    entry(start, f2, p, q)
                },
        decreases n_feat - f,
    {
        let ghost before = c@;
        let mut slice: Vec<Vec<i128>> = Vec::new();
        c.set_and_swap(f, &mut slice);
        proof {
            assert(square(b@[f as int]@, n_pred as int));
            assert forall|p: int, q: int|
                0 <= p < n_pred && 0 <= q < n_pred implies i128::MIN <= (#[trigger] slice@[p]@[q])
                + b@[f as int]@[p]@[q] <= i128::MAX by {
                assert(entry(before, f as int, p, q) == entry(start, f as int, p, q));
                assert(entry(start, f as int, p, q) + entry(b@, f as int, p, q) <= i128::MAX);
            }
        }
        add_matrix_into(&mut slice, &b[f], n_pred);
        c.set_and_swap(f, &mut slice);
        proof {
            assert forall|f2: int, p: int, q: int|
                0 <= f2 < n_feat && 0 <= p < n_pred && 0 <= q < n_pred implies #[trigger] entry(
                c@,
                f2,
                p,
                q,
            ) == if f2 < f + 1 {
                entry(start, f2, p, q) + entry(b@, f2, p, q)
            } else {
                entry(start, f2, p, q)
            } by {
                if f2 != f {
                    assert(c@[f2] == before[f2]);
                    assert(entry(c@, f2, p, q) == entry(before, f2, p, q));
                } else {
                    assert(entry(before, f2, p, q) == entry(start, f2, p, q));
                }
            }
            assert forall|f2: int| 0 <= f2 < n_feat implies square((#[trigger] c@[f2])@, n_pred as int) by {
                if f2 != f {
                    assert(c@[f2] == before[f2]);
                }
            }
        }
        f = f + 1;
    }
    c
}

} // verus!
