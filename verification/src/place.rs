//! Variable identifiers.

use vstd::prelude::*;

verus! {

/// Opaque, dense identifier of one circuit variable slot.
#[derive(Clone, Copy, PartialEq, Eq, Structural, Debug, Hash)]
pub struct Place(pub usize);

impl Place {
    /// The slot index, for specifications.
    pub open spec fn idx(self) -> int {
        self.0 as int
    }

    /// The slot index, for indexing into per-variable tables.
    pub fn index(self) -> (r: usize)
        ensures
            r == self.idx(),
    {
        self.0
    }
}

} // verus!
