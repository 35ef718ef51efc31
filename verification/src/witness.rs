//! Witness value handles: a consumer-side view of a fixed set of variables
//! that resolves to their values once every one of them is ready.

use vstd::prelude::*;

use crate::place::Place;
use crate::store::WitnessSource;

verus! {

/// A value convertible to and from a fixed number of field elements.
pub trait TrivialWitnessCastable<V: Copy, const N: usize>: Sized {
    fn cast_from_field_elements(parts: [V; N]) -> Self;

    fn cast_into_field_elements(self) -> [V; N];
}

/// A handle over the values of a set of variables: either nothing, already
/// extracted values, or a wait on the variables' readiness.
pub enum CSWitnessValues<V> {
    Placeholder,
    Ready(Vec<V>),
    Waiting { sources: Vec<Place> },
}

impl<V: Copy> CSWitnessValues<V> {
    /// Resolves the handle against a witness source. Returns the values once
    /// every covered variable is ready, and `None` while one is not (or
    /// always, for a placeholder); readiness is monotonic, so polling this
    /// in a loop cannot miss the moment all values arrive.
    pub fn wait<S: WitnessSource<V>>(&mut self, source: &S) -> (r: Option<Vec<V>>)
        requires
            *old(self) matches CSWitnessValues::Waiting { sources } ==> forall|i: int|
                0 <= i < sources@.len() ==> (#[trigger] sources@[i].idx()) < source.num_variables(),
        ensures
            *old(self) is Placeholder ==> r is None && *final(self) is Placeholder,
            *old(self) matches CSWitnessValues::Ready(vs) ==> (r matches Some(out) && out@ == vs@
                && *final(self) == *old(self)),
            *old(self) matches CSWitnessValues::Waiting { sources } ==> (r matches Some(vs)
                ==> vs@.len() == sources@.len() && (forall|i: int|
                0 <= i < sources@.len() ==> (#[trigger] source.val(sources@[i])) == Some(vs@[i]))),
            *old(self) matches CSWitnessValues::Waiting { sources } ==> (r is None ==> exists|i: int|
                0 <= i < sources@.len() && (#[trigger] source.val(sources@[i])) is None),
            r matches Some(vs) ==> (*final(self) matches CSWitnessValues::Ready(held) && held@
                == vs@),
            r is None ==> *final(self) == *old(self),
    {
        match self {
            CSWitnessValues::Placeholder => None,
            CSWitnessValues::Ready(values) => {
                let mut copied: Vec<V> = Vec::new();
                let mut i: usize = 0;
                while i < values.len()
                    invariant
                        i <= values@.len(),
                        copied@ == values@.subrange(0, i as int),
                    decreases values@.len() - i,
                {
                    copied.push(values[i]);
                    proof {
                        assert(copied@ =~= values@.subrange(0, i + 1));
                    }
                    i += 1;
                }
                proof {
                    assert(values@.subrange(0, values@.len() as int) =~= values@);
                }
                Some(copied)
            },
            CSWitnessValues::Waiting { sources } => {
                let mut values: Vec<V> = Vec::new();
                let mut i: usize = 0;
                while i < sources.len()
                    invariant
                        i <= sources@.len(),
                        values@.len() == i,
                        forall|j: int|
                            0 <= j < sources@.len() ==> (#[trigger] sources@[j].idx())
                                < source.num_variables(),
                        forall|j: int|
                            0 <= j < i ==> (#[trigger] source.val(sources@[j])) == Some(values@[j]),
                    decreases sources@.len() - i,
                {
                    match source.try_get_value(sources[i]) {
                        Some(v) => {
                            values.push(v);
                        },
                        None => {
                            return None;
                        },
                    }
                    i += 1;
                }
                let mut result: Vec<V> = Vec::new();
                let mut k: usize = 0;
                while k < values.len()
                    invariant
                        k <= values@.len(),
                        result@ == values@.subrange(0, k as int),
                    decreases values@.len() - k,
                {
                    result.push(values[k]);
                    proof {
                        assert(result@ =~= values@.subrange(0, k + 1));
                    }
                    k += 1;
                }
                proof {
                    assert(values@.subrange(0, values@.len() as int) =~= values@);
                }
                *self = CSWitnessValues::Ready(values);
                Some(result)
            },
        }
    }
}

} // verus!
