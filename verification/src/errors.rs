//! The error taxonomy of a resolver session.

use vstd::prelude::*;

verus! {

/// Everything that can go wrong in a session. Structural errors
/// (`DuplicateOutput`, `DuplicateAssignment`, `RecordMismatch`) are detected
/// synchronously at the call that causes them; `UnresolvedDependency` is a
/// liveness error detected at finalization; `ClosureFailed` poisons the
/// session when a resolution closure does not fill its declared outputs.
#[derive(Clone, Copy, PartialEq, Eq, Structural, Debug)]
pub enum ResolutionError {
    /// A Place claimed as output by more than one task, or claimed as output
    /// after or before a direct assignment to the same Place.
    DuplicateOutput,
    /// `set_value` called twice on the same Place, or on a Place claimed as a
    /// task output.
    DuplicateAssignment,
    /// Finalization reached with tasks still ineligible because a required
    /// input Place was never supplied.
    UnresolvedDependency,
    /// A playback record's shape counters disagree with the live session.
    RecordMismatch,
    /// A resolution closure failed to produce one value per declared output.
    ClosureFailed,
}

} // verus!
