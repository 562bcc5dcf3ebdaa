//! Block-partitioned sandwich variance-covariance aggregation.
//!
//! Observations carry block labels; for every block the half-sandwich
//! `X[:, block] * R[block, :]` is computed, and for every feature the outer
//! product of its column is added into that feature's slice of a
//! predictors x predictors x features accumulator. Four strategies schedule
//! that work under different merging disciplines; all yield the same
//! accumulator. The arithmetic is exact over integers.
use vstd::prelude::*;

pub mod channel;
pub mod dataset;
pub mod gate;
pub mod index;
pub mod kernel;
pub mod labels;
pub mod laws;
pub mod partition;
pub mod pools;
pub mod sizes;
pub mod strategy;
pub mod tensor;

pub use channel::{BoundedChannel, Received, SendError};
pub use dataset::{DataError, Dataset};
pub use gate::Gate;
pub use index::block_index;
pub use kernel::{MAX_BLOCKS, MAX_OBS, half_sandwich, half_sandwich_columns, outer_product};
pub use labels::{assign_block_ids, simulate_block_ids};
pub use partition::feature_ranges;
pub use pools::PoolWidths;
pub use sizes::{BlockSizes, MockParams};
pub use strategy::{
    Strategy, run, run_channel, run_flat_features, run_gated, run_local_reduce, run_reference,
    run_repeated,
};
pub use tensor::{Tensor, add_tensors, zero_tensor};

verus! {

} // verus!
