//! The resolver box: an arena of registered resolution tasks, referenced by
//! stable index. Keeping tasks behind indices rather than references makes
//! the dependency structure acyclic by construction.

use vstd::prelude::*;

use crate::place::Place;
use crate::record::RegistrationNum;

verus! {

/// One registered resolution task: its declared input and output Places, the
/// closure deriving outputs from inputs, and its registration number.
pub struct Resolution<Fx> {
    pub inputs: Vec<Place>,
    pub outputs: Vec<Place>,
    pub resolve_fn: Fx,
    pub added_at: RegistrationNum,
}

/// The arena itself. Indices are positions in the vector; they are handed
/// out densely at registration and never reused within a session.
pub struct ResolverBox<Fx> {
    pub resolutions: Vec<Resolution<Fx>>,
}

impl<Fx> ResolverBox<Fx> {
    /// An empty arena.
    pub fn new() -> (r: Self)
        ensures
            r.resolutions@.len() == 0,
    {
        ResolverBox { resolutions: Vec::new() }
    }

    /// The number of tasks registered so far.
    pub fn len(&self) -> (r: usize)
        ensures
            r == self.resolutions@.len(),
    {
        self.resolutions.len()
    }

    /// Stores a task and returns its index, the next dense handle.
    pub fn push(&mut self, resolution: Resolution<Fx>) -> (ix: usize)
        ensures
            final(self).resolutions@ == old(self).resolutions@.push(resolution),
            ix == old(self).resolutions@.len(),
    {
        let ix = self.resolutions.len();
        self.resolutions.push(resolution);
        ix
    }
}

} // verus!
