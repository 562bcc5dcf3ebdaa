//! Admission gates of the nested-pool strategy with an exclusive accumulator.
//!
//! An outer task reserves one of `outer_width` slots before it computes a
//! half-sandwich, and holds it until its accumulation is done, so at most
//! `outer_width` half-sandwiches are alive at once. A second gate lets one
//! block at a time accumulate on the inner pool. The caller keeps a `Gate`
//! behind the accumulator's lock and waits on a condition variable whenever a
//! `try_` method refuses.
use vstd::prelude::*;

verus! {

/// State of both gates.
#[derive(Debug)]
pub struct Gate {
    outer_width: usize,
    reserved: usize,
    inner_busy: bool,
}

impl Gate {
    #[verifier::type_invariant]
    spec fn inv(&self) -> bool {
        0 < self.outer_width && self.reserved <= self.outer_width
    }

    /// Number of outer slots.
    pub closed spec fn width_spec(&self) -> usize {
        self.outer_width
    }

    /// Number of slots held: the half-sandwiches alive.
    pub closed spec fn reserved_spec(&self) -> usize {
        self.reserved
    }

    /// Whether a block is accumulating on the inner pool.
    pub closed spec fn busy_spec(&self) -> bool {
        self.inner_busy
    }

    /// Both gates open, with `outer_width` slots.
    pub fn new(outer_width: usize) -> (g: Self)
        requires
            outer_width > 0,
        ensures
            g.width_spec() == outer_width,
            g.reserved_spec() == 0,
            !g.busy_spec(),
    {
        Gate { outer_width, reserved: 0, inner_busy: false }
    }

    /// Takes a slot if one is free. No more than the width are ever held.
    pub fn try_reserve(&mut self) -> (ok: bool)
        ensures
            ok == (old(self).reserved_spec() < old(self).width_spec()),
            final(self).reserved_spec() == old(self).reserved_spec() + (if ok {
                1int
            } else {
                0int
            }),
            final(self).width_spec() == old(self).width_spec(),
            final(self).busy_spec() == old(self).busy_spec(),
            final(self).reserved_spec() <= final(self).width_spec(),
    {
        proof {
            use_type_invariant(&*self);
        }
        if self.reserved < self.outer_width {
            self.reserved = self.reserved + 1;
            true
        } else {
            false
        }
    }

    /// Claims the inner pool if no other block is accumulating.
    pub fn try_enter_inner(&mut self) -> (ok: bool)
        ensures
            ok == !old(self).busy_spec(),
            final(self).busy_spec(),
            final(self).reserved_spec() == old(self).reserved_spec(),
            final(self).width_spec() == old(self).width_spec(),
            final(self).reserved_spec() <= final(self).width_spec(),
    {
        proof {
            use_type_invariant(&*self);
        }
        if self.inner_busy {
            false
        } else {
            self.inner_busy = true;
            true
        }
    }

    /// Ends a block's accumulation: frees the inner pool and the block's slot.
    /// Called from inside the inner task, before waiters are signalled.
    pub fn finish(&mut self)
        requires
            old(self).busy_spec(),
            old(self).reserved_spec() > 0,
        ensures
            !final(self).busy_spec(),
            final(self).reserved_spec() == old(self).reserved_spec() - 1,
            final(self).width_spec() == old(self).width_spec(),
            final(self).reserved_spec() <= final(self).width_spec(),
    {
        proof {
            use_type_invariant(&*self);
        }
        self.inner_busy = false;
        self.reserved = self.reserved - 1;
    }

    /// Number of slots held.
    pub fn reserved(&self) -> (r: usize)
        ensures
            r == self.reserved_spec(),
            r <= self.width_spec(),
    {
        proof {
            use_type_invariant(self);
        }
        self.reserved
    }

    /// Number of outer slots.
    pub fn outer_width(&self) -> (r: usize)
        ensures
            r == self.width_spec(),
            r > 0,
    {
        proof {
            use_type_invariant(self);
        }
        self.outer_width
    }

    /// Whether a block is accumulating on the inner pool.
    pub fn inner_busy(&self) -> (r: bool)
        ensures
            r == self.busy_spec(),
    {
        self.inner_busy
    }
}

} // verus!
