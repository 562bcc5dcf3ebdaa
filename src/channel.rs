//! A bounded first-in first-out channel: the backpressure of the
//! producer/consumer strategy.
//!
//! Producers offer items with `try_send` and wait while the channel is full;
//! the single aggregator takes them with `try_recv` until the channel is closed
//! and drained. The caller keeps the channel behind a lock with condition
//! variables for the waiting.
use std::collections::VecDeque;
use vstd::prelude::*;

verus! {

/// Why an item was not sent; the item is handed back.
#[derive(Debug)]
pub enum SendError<T> {
    /// The channel holds `capacity` items: wait for the aggregator.
    Full(T),
    /// The channel was closed: no contribution may be sent any more.
    Closed(T),
}

/// What the aggregator received.
#[derive(Debug)]
pub enum Received<T> {
    /// The oldest item.
    Item(T),
    /// Nothing buffered yet, and producers may still send.
    Empty,
    /// Closed and drained: the aggregator is done.
    Finished,
}

/// A bounded channel holding at most `capacity` items.
#[derive(Debug)]
pub struct BoundedChannel<T> {
    items: VecDeque<T>,
    capacity: usize,
    closed: bool,
}

impl<T> BoundedChannel<T> {
    /// The capacity is positive and bounds the items in flight.
    pub closed spec fn wf(&self) -> bool {
        0 < self.capacity && self.items@.len() <= self.capacity
    }

    /// The items in flight, oldest first.
    pub closed spec fn items_spec(&self) -> Seq<T> {
        self.items@
    }

    /// Largest number of items in flight.
    pub closed spec fn capacity_spec(&self) -> usize {
        self.capacity
    }

    /// Whether the channel was closed.
    pub closed spec fn closed_spec(&self) -> bool {
        self.closed
    }

    /// An open, empty channel.
    pub fn new(capacity: usize) -> (c: Self)
        requires
            capacity > 0,
        ensures
            c.wf(),
            c.items_spec() == Seq::<T>::empty(),
            c.capacity_spec() == capacity,
            !c.closed_spec(),
    {
        BoundedChannel { items: VecDeque::new(), capacity, closed: false }
    }

    /// Appends `item` unless the channel is closed or full. The items in
    /// flight never exceed the capacity.
    pub fn try_send(&mut self, item: T) -> (r: Result<(), SendError<T>>)
        requires
            old(self).wf(),
        ensures
            final(self).wf(),
            final(self).capacity_spec() == old(self).capacity_spec(),
            final(self).closed_spec() == old(self).closed_spec(),
            final(self).items_spec().len() <= final(self).capacity_spec(),
            old(self).closed_spec() ==> r == Err::<(), SendError<T>>(SendError::Closed(item))
                && final(self).items_spec() == old(self).items_spec(),
            !old(self).closed_spec() && old(self).items_spec().len() == old(self).capacity_spec()
                ==> r == Err::<(), SendError<T>>(SendError::Full(item)) && final(self).items_spec()
                == old(self).items_spec(),
            !old(self).closed_spec() && old(self).items_spec().len() < old(self).capacity_spec()
                ==> r is Ok && final(self).items_spec() == old(self).items_spec().push(item),
    {
        if self.closed {
            Err(SendError::Closed(item))
        } else if self.items.len() >= self.capacity {
            Err(SendError::Full(item))
        } else {
            self.items.push_back(item);
            Ok(())
        }
    }

    /// Takes the oldest item; reports `Finished` once closed and drained.
    pub fn try_recv(&mut self) -> (r: Received<T>)
        requires
            old(self).wf(),
        ensures
            final(self).wf(),
            final(self).capacity_spec() == old(self).capacity_spec(),
            final(self).closed_spec() == old(self).closed_spec(),
            final(self).items_spec().len() <= final(self).capacity_spec(),
            old(self).items_spec().len() > 0 ==> r == Received::Item(old(self).items_spec()[0])
                && final(self).items_spec() == old(self).items_spec().drop_first(),
            old(self).items_spec().len() == 0 ==> final(self).items_spec() == old(
                self,
            ).items_spec() && (if old(self).closed_spec() {
                r is Finished
            } else {
                r is Empty
            }),
    {
        match self.items.pop_front() {
            Some(item) => Received::Item(item),
            None => {
                if self.closed {
                    Received::Finished
                } else {
                    Received::Empty
                }
            },
        }
    }

    /// Closes the channel: the aggregator finishes once it is drained.
    pub fn close(&mut self)
        requires
            old(self).wf(),
        ensures
            final(self).wf(),
            final(self).closed_spec(),
            final(self).items_spec() == old(self).items_spec(),
            final(self).capacity_spec() == old(self).capacity_spec(),
            final(self).items_spec().len() <= final(self).capacity_spec(),
    {
        self.closed = true;
    }

    /// Number of items in flight.
    pub fn len(&self) -> (r: usize)
        requires
            self.wf(),
        ensures
            r == self.items_spec().len(),
            r <= self.capacity_spec(),
    {
        self.items.len()
    }

    /// Largest number of items in flight.
    pub fn capacity(&self) -> (r: usize)
        requires
            self.wf(),
        ensures
            r == self.capacity_spec(),
            r > 0,
    {
        self.capacity
    }

    /// Whether the channel was closed.
    pub fn is_closed(&self) -> (r: bool)
        ensures
            r == self.closed_spec(),
    {
        self.closed
    }
}

} // verus!
