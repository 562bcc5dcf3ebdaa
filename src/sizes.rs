//! Block-size ranges and the parameters of a synthetic dataset.
use vstd::prelude::*;

verus! {

/// Range of block sizes.
///
/// A block size ranges from `min_size` up to and including
/// `max_size_inclusive`; both are positive.
#[derive(Clone, Copy, Debug)]
pub struct BlockSizes {
    min_size: usize,
    max_size_inclusive: usize,
}

impl BlockSizes {
    #[verifier::type_invariant]
    spec fn inv(&self) -> bool {
        0 < self.min_size <= self.max_size_inclusive
    }

    /// The smallest block size.
    pub closed spec fn min_spec(&self) -> usize {
        self.min_size
    }

    /// The largest block size (inclusive).
    pub closed spec fn max_spec(&self) -> usize {
        self.max_size_inclusive
    }

    /// Makes a range from `min_size` up to and including `max_size_inclusive`.
    /// Returns `None` if the maximum is less than the minimum.
    pub fn new(sizes: (usize, usize)) -> (r: Option<Self>)
        requires
            sizes.0 > 0,
            sizes.1 > 0,
        ensures
            r is Some <==> sizes.1 >= sizes.0,
            r matches Some(b) ==> b.min_spec() == sizes.0 && b.max_spec() == sizes.1,
    {
        let (min_size, max_size_inclusive) = sizes;
        if max_size_inclusive >= min_size {
            Some(Self { min_size, max_size_inclusive })
        } else {
            None
        }
    }

    /// Like [`BlockSizes::new`], and also returns `None` if either size is zero.
    pub fn new_from_usize(sizes: (usize, usize)) -> (r: Option<Self>)
        ensures
            r is Some <==> (sizes.0 > 0 && sizes.1 >= sizes.0),
            r matches Some(b) ==> b.min_spec() == sizes.0 && b.max_spec() == sizes.1,
    {
        let (min_size, max_size_inclusive) = sizes;
        if min_size == 0 || max_size_inclusive == 0 {
            return None;
        }
        Self::new((min_size, max_size_inclusive))
    }

    /// The sizes as a pair: the minimum, then the (inclusive) maximum.
    pub fn get(&self) -> (r: (usize, usize))
        ensures
            r == (self.min_spec(), self.max_spec()),
            0 < r.0 <= r.1,
    {
        proof {
            use_type_invariant(self);
        }
        (self.min_size, self.max_size_inclusive)
    }

    /// The smallest block size.
    pub fn min_size(&self) -> (r: usize)
        ensures
            r == self.min_spec(),
            0 < r <= self.max_spec(),
    {
        proof {
            use_type_invariant(self);
        }
        self.min_size
    }

    /// The largest block size; a block may be up to and including this size.
    pub fn max_size_inclusive(&self) -> (r: usize)
        ensures
            r == self.max_spec(),
            0 < self.min_spec() <= r,
    {
        proof {
            use_type_invariant(self);
        }
        self.max_size_inclusive
    }
}

impl Default for BlockSizes {
    /// Sizes from 1 up to and including 8.
    fn default() -> (r: Self)
        ensures
            r.min_spec() == 1,
            r.max_spec() == 8,
    {
        Self { min_size: 1, max_size_inclusive: 8 }
    }
}

/// Parameters for generating a synthetic dataset.
#[derive(Clone, Copy, Debug)]
pub struct MockParams {
    /// Number of observations.
    pub n_obs: usize,
    /// Number of features.
    pub n_feat: usize,
    /// Number of predictors.
    pub n_pred: usize,
    /// Range of possible block sizes.
    pub block_sizes: BlockSizes,
}

impl MockParams {
    /// Every count is positive.
    pub open spec fn wf(&self) -> bool {
        self.n_obs > 0 && self.n_feat > 0 && self.n_pred > 0
    }

    /// Collects the parameters; `None` when a count is zero.
    pub fn new(n_obs: usize, n_feat: usize, n_pred: usize, block_sizes: BlockSizes) -> (r: Option<
        Self,
    >)
        ensures
            r is Some <==> (n_obs > 0 && n_feat > 0 && n_pred > 0),
            r matches Some(p) ==> p.wf() && p.n_obs == n_obs && p.n_feat == n_feat && p.n_pred
                == n_pred && p.block_sizes == block_sizes,
    {
        if n_obs == 0 || n_feat == 0 || n_pred == 0 {
            None
        } else {
            Some(MockParams { n_obs, n_feat, n_pred, block_sizes })
        }
    }
}

/// Number of features in the default parameters: the distinct pairs of 333 regions.
pub const DEFAULT_N_FEAT: usize = (333 * 333 - 333) / 2;

impl Default for MockParams {
    /// 8192 observations, 55278 features, 8 predictors, block sizes 1 to 8.
    fn default() -> (r: Self)
        ensures
            r.wf(),
            r.n_obs == 8192,
            r.n_feat == DEFAULT_N_FEAT,
            r.n_pred == 8,
            r.block_sizes.min_spec() == 1,
            r.block_sizes.max_spec() == 8,
    {
        MockParams {
            n_obs: 8192,
            n_feat: DEFAULT_N_FEAT,
            n_pred: 8,
            block_sizes: BlockSizes::default(),
        }
    }
}

} // verus!
