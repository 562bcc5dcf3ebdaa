//! Widths of the outer pool (across blocks) and the inner pool (across
//! features), derived from the hardware concurrency.
use vstd::prelude::*;

verus! {

/// Thread counts of the two pools.
#[derive(Clone, Copy, Debug, PartialEq, Eq)]
pub struct PoolWidths {
    /// Threads across blocks: they bound the half-sandwiches alive at once.
    pub outer: usize,
    /// Threads across features within a block.
    pub inner: usize,
}

/// Outer width for `cpus` threads: one below five, else two.
pub open spec fn outer_for(cpus: int) -> int {
    if cpus < 5 {
        1
    } else {
        2
    }
}

/// Inner width for `cpus` threads: the rest, and at least one.
pub open spec fn inner_for(cpus: int) -> int {
    if cpus - outer_for(cpus) > 1 {
        cpus - outer_for(cpus)
    } else {
        1
    }
}

/// Relies on num_cpus's `get`, which documents that it always returns at
/// least 1; the number itself depends on the machine.
#[verifier::external_body]
fn available_cpus() -> (r: usize)
    ensures
        r >= 1,
{
    num_cpus::get()
}

impl PoolWidths {
    /// Reserves one outer thread on fewer than five cpus, else two, and gives
    /// the rest (at least one) to the inner pool.
    pub fn from_cpus(cpus: usize) -> (w: Self)
        ensures
            w.outer == outer_for(cpus as int),
            w.inner == inner_for(cpus as int),
            w.outer >= 1,
            w.inner >= 1,
    {
        let outer: usize = if cpus < 5 {
            1
        } else {
            2
        };
        let inner: usize = if cpus > outer && cpus - outer > 1 {
            cpus - outer
        } else {
            1
        };
        PoolWidths { outer, inner }
    }

    /// Widths for the cpus of this machine.
    pub fn detect() -> (w: Self)
        ensures
            exists|cpus: int|
                cpus >= 1 && w.outer == outer_for(cpus) && w.inner == inner_for(cpus),
            w.outer >= 1,
            w.inner >= 1,
    {
        let cpus = available_cpus();
        Self::from_cpus(cpus)
    }

    /// Capacity of the bounded channel: one slot per thread of both pools.
    pub fn channel_capacity(&self) -> (r: usize)
        requires
            self.outer + self.inner <= usize::MAX,
        ensures
            r == self.outer + self.inner,
    {
        self.outer + self.inner
    }
}

} // verus!
