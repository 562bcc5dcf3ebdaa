//! A dataset: block labels, residuals and the design pseudo-inverse.
use vstd::prelude::*;
use crate::index::{block_index_spec, block_positions, lemma_positions_upto};
use crate::kernel::{MAX_BLOCKS, MAX_OBS, block_ok, blocks_ok, sandwich, shapes_ok};

verus! {

/// Why a dataset was refused.
#[derive(Clone, Copy, Debug, PartialEq, Eq)]
pub enum DataError {
    /// There are no observations, no features or no predictors.
    ZeroCount,
    /// The arrays do not have matching shapes.
    ShapeMismatch,
    /// More observations than `MAX_OBS` or more blocks than `MAX_BLOCKS`.
    TooLarge,
    /// A label is above the number of blocks.
    LabelOutOfRange,
}

/// Every row has `len` entries.
pub open spec fn rows_have_len(rows: Seq<Vec<i16>>, len: int) -> bool {
    forall|i: int| 0 <= i < rows.len() ==> (#[trigger] rows[i])@.len() == len
}

/// Every label is at most `n_blocks`.
pub open spec fn labels_within(labels: Seq<usize>, n_blocks: int) -> bool {
    forall|i: int| 0 <= i < labels.len() ==> #[trigger] labels[i] <= n_blocks
}

/// No observations, features or predictors.
pub open spec fn has_zero_count(resid: Seq<Vec<i16>>, x_pinv: Seq<Vec<i16>>) -> bool {
    resid.len() == 0 || x_pinv.len() == 0 || resid[0]@.len() == 0
}

/// Labels, residual rows and pseudo-inverse rows agree in their sizes.
pub open spec fn shapes_match(labels: Seq<usize>, resid: Seq<Vec<i16>>, x_pinv: Seq<Vec<i16>>) -> bool {
    &&& labels.len() == resid.len()
    &&& rows_have_len(resid, resid[0]@.len() as int)
    &&& rows_have_len(x_pinv, resid.len() as int)
}

/// Within the size limits.
pub open spec fn within_limits(n_blocks: int, resid: Seq<Vec<i16>>) -> bool {
    resid.len() <= MAX_OBS && n_blocks <= MAX_BLOCKS
}

/// Observations labelled `1..=n_blocks` (0 for none), an `n_obs x n_feat`
/// residual matrix and an `n_pred x n_obs` design pseudo-inverse.
#[derive(Debug)]
pub struct Dataset {
    /// Number of blocks.
    pub n_blocks: usize,
    /// Block label of each observation.
    pub block_ids: Vec<usize>,
    /// Observations x features residuals.
    pub resid: Vec<Vec<i16>>,
    /// Predictors x observations pseudo-inverse of the design matrix.
    pub x_pinv: Vec<Vec<i16>>,
}

impl Dataset {
    /// Number of observations.
    pub open spec fn n_obs_spec(&self) -> int {
        self.resid@.len() as int
    }

    /// Number of features.
    pub open spec fn n_feat_spec(&self) -> int {
        self.resid@[0]@.len() as int
    }

    /// Number of predictors.
    pub open spec fn n_pred_spec(&self) -> int {
        self.x_pinv@.len() as int
    }

    /// Positive counts, matching shapes, labels in `0..=n_blocks`, within limits.
    pub open spec fn wf(&self) -> bool {
        &&& !has_zero_count(self.resid@, self.x_pinv@)
        &&& shapes_match(self.block_ids@, self.resid@, self.x_pinv@)
        &&& within_limits(self.n_blocks as int, self.resid@)
        &&& labels_within(self.block_ids@, self.n_blocks as int)
    }

    /// The block index: entry `b` lists the observations of block `b + 1`.
    pub open spec fn blocks_spec(&self) -> Seq<Seq<usize>> {
        block_index_spec(self.block_ids@, self.n_blocks as int)
    }

    /// Entry `(f, p, q)` of the sandwich accumulator of this dataset.
    pub open spec fn cov(&self, f: int, p: int, q: int) -> int {
        sandwich(self.x_pinv@, self.resid@, self.blocks_spec(), f, p, q)
    }

    /// Checks the arrays and collects them into a dataset.
    #[verifier::loop_isolation(false)]
    pub fn new(n_blocks: usize, block_ids: Vec<usize>, resid: Vec<Vec<i16>>, x_pinv: Vec<Vec<i16>>) -> (r:
        Result<Self, DataError>)
        ensures
            r matches Ok(d) ==> d.wf() && d.n_blocks == n_blocks && d.block_ids@ == block_ids@
                && d.resid@ == resid@ && d.x_pinv@ == x_pinv@,
            r matches Err(DataError::ZeroCount) <==> has_zero_count(resid@, x_pinv@),
            r matches Err(DataError::ShapeMismatch) <==> !has_zero_count(resid@, x_pinv@)
                && !shapes_match(block_ids@, resid@, x_pinv@),
            r matches Err(DataError::TooLarge) <==> !has_zero_count(resid@, x_pinv@)
                && shapes_match(block_ids@, resid@, x_pinv@) && !within_limits(n_blocks as int, resid@),
            r matches Err(DataError::LabelOutOfRange) <==> !has_zero_count(resid@, x_pinv@)
                && shapes_match(block_ids@, resid@, x_pinv@) && within_limits(n_blocks as int, resid@)
                && !labels_within(block_ids@, n_blocks as int),
    {
        if resid.len() == 0 || x_pinv.len() == 0 || resid[0].len() == 0 {
            return Err(DataError::ZeroCount);
        }
        let n_obs = resid.len();
        let n_feat = resid[0].len();
        if block_ids.len() != n_obs {
            return Err(DataError::ShapeMismatch);
        }
        let mut i: usize = 0;
        while i < n_obs
            invariant
                n_obs == resid@.len(),
                n_feat == resid@[0]@.len(),
                i <= n_obs,
                forall|k: int| 0 <= k < i ==> (#[trigger] resid@[k])@.len() == n_feat,
            decreases n_obs - i,
        {
            if resid[i].len() != n_feat {
                assert(!rows_have_len(resid@, n_feat as int)) by {
                    assert(resid@[i as int]@.len() != n_feat);
                }
                return Err(DataError::ShapeMismatch);
            }
            i = i + 1;
        }
        let mut p: usize = 0;
        while p < x_pinv.len()
            invariant
                n_obs == resid@.len(),
                p <= x_pinv@.len(),
                forall|k: int| 0 <= k < p ==> (#[trigger] x_pinv@[k])@.len() == n_obs,
            decreases x_pinv@.len() - p,
        {
            if x_pinv[p].len() != n_obs {
                assert(!rows_have_len(x_pinv@, n_obs as int)) by {
                    assert(x_pinv@[p as int]@.len() != n_obs);
                }
                return Err(DataError::ShapeMismatch);
            }
            p = p + 1;
        }
        if n_obs > MAX_OBS || n_blocks > MAX_BLOCKS {
            return Err(DataError::TooLarge);
        }
        let mut j: usize = 0;
        while j < n_obs
            invariant
                n_obs == block_ids@.len(),
                j <= n_obs,
                forall|k: int| 0 <= k < j ==> #[trigger] block_ids@[k] <= n_blocks,
            decreases n_obs - j,
        {
            if block_ids[j] > n_blocks {
                assert(block_ids@[j as int] > n_blocks);
                return Err(DataError::LabelOutOfRange);
            }
            j = j + 1;
        }
        Ok(Dataset { n_blocks, block_ids, resid, x_pinv })
    }

    /// Number of observations.
    pub fn n_obs(&self) -> (r: usize)
        requires
            self.wf(),
        ensures
            r == self.n_obs_spec(),
            r > 0,
    {
        self.resid.len()
    }

    /// Number of features.
    pub fn n_feat(&self) -> (r: usize)
        requires
            self.wf(),
        ensures
            r == self.n_feat_spec(),
            r > 0,
    {
        self.resid[0].len()
    }

    /// Number of predictors.
    pub fn n_pred(&self) -> (r: usize)
        requires
            self.wf(),
        ensures
            r == self.n_pred_spec(),
            r > 0,
    {
        self.x_pinv.len()
    }

    /// The arrays have the shapes that the kernels need, and the blocks of
    /// the index list valid positions.
    pub proof fn lemma_kernel_inputs(&self)
        requires
            self.wf(),
        ensures
            shapes_ok(
                self.x_pinv@,
                self.resid@,
                self.n_obs_spec(),
                self.n_feat_spec(),
                self.n_pred_spec(),
            ),
            blocks_ok(self.blocks_spec(), self.n_obs_spec()),
            self.blocks_spec().len() == self.n_blocks,
    {
        let labels = self.block_ids@;
        assert forall|b: int| 0 <= b < self.blocks_spec().len() implies block_ok(
            #[trigger] self.blocks_spec()[b],
            self.n_obs_spec(),
        ) by {
            lemma_positions_upto(labels, b + 1, labels.len() as int);
            assert(self.blocks_spec()[b] == block_positions(labels, b + 1));
        }
    }
}

} // verus!
