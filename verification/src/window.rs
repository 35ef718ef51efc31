//! The resolution window: the bounded set of task indices accepted for
//! execution. Its capacity is the configured parallelism, so the number of
//! concurrently in-flight tasks can never exceed that bound.

use vstd::prelude::*;

verus! {

/// Bounded in-flight set of resolver indices. The well-formedness invariant
/// is the parallelism bound itself: never more members than `capacity`.
pub struct ResolutionWindow {
    pub slots: Vec<usize>,
    pub capacity: usize,
}

impl ResolutionWindow {
    /// The parallelism bound holds.
    pub open spec fn wf(&self) -> bool {
        self.slots@.len() <= self.capacity
    }

    /// An empty window of the given capacity.
    pub fn new(capacity: usize) -> (r: Self)
        ensures
            r.wf(),
            r.capacity == capacity,
            r.slots@.len() == 0,
    {
        ResolutionWindow { slots: Vec::new(), capacity }
    }

    /// How many tasks are currently accepted.
    pub fn len(&self) -> (r: usize)
        ensures
            r == self.slots@.len(),
    {
        self.slots.len()
    }

    /// Accepts one more task; only possible below capacity, which is what
    /// keeps the in-flight set bounded.
    pub fn accept(&mut self, ix: usize)
        requires
            old(self).wf(),
            old(self).slots@.len() < old(self).capacity,
        ensures
            final(self).wf(),
            final(self).slots@ == old(self).slots@.push(ix),
            final(self).capacity == old(self).capacity,
    {
        self.slots.push(ix);
    }

    /// Hands the accepted batch over for execution and empties the window.
    pub fn drain(&mut self) -> (batch: Vec<usize>)
        requires
            old(self).wf(),
        ensures
            final(self).wf(),
            batch@ == old(self).slots@,
            final(self).slots@.len() == 0,
            final(self).capacity == old(self).capacity,
    {
        let mut batch: Vec<usize> = Vec::new();
        std::mem::swap(&mut batch, &mut self.slots);
        batch
    }
}

} // verus!
