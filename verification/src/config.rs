//! Configuration of a resolver session.

use vstd::prelude::*;

verus! {

/// Sizing parameters of one resolver session, immutable after construction:
/// `max_variables` bounds the Place id space, `desired_parallelism` is the
/// capacity of the resolution window.
#[derive(Clone, Copy, Debug)]
pub struct CircuitResolverOpts {
    pub max_variables: usize,
    pub desired_parallelism: u32,
}

impl CircuitResolverOpts {
    /// A configuration with the default window capacity.
    pub fn new(max_variables: usize) -> (r: Self)
        ensures
            r.max_variables == max_variables,
            r.desired_parallelism == 4096,
    {
        Self { max_variables, desired_parallelism: 4096 }
    }
}

} // verus!
