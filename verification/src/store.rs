//! The variable store: one readiness flag and value slot per Place, plus the
//! traits through which consumers observe readiness.
//!
//! A cell moves at most once, from unset to ready; a ready cell never changes
//! again. Every mutating method of [`VariableStore`] states this monotonicity
//! in its `ensures`, which is what makes repeated polling of the same Place
//! sound: once a value has been observed, every later read returns it.

use vstd::prelude::*;

use crate::place::Place;

verus! {

/// What a source knows about each variable: nothing yet, or a final value.
pub trait WitnessSource<V: Copy> {
    /// The size of the Place id space this source covers.
    spec fn num_variables(&self) -> nat;

    /// The current content of a variable cell.
    spec fn val(&self, variable: Place) -> Option<V>;

    /// Non-blocking read: the value, if the variable is already ready.
    fn try_get_value(&self, variable: Place) -> (r: Option<V>)
        requires
            variable.idx() < self.num_variables(),
        ensures
            r == self.val(variable),
    ;

    /// Read of a variable whose readiness the caller has already observed.
    fn get_value_unchecked(&self, variable: Place) -> (r: V)
        requires
            variable.idx() < self.num_variables(),
            self.val(variable) is Some,
        ensures
            r == self.val(variable).unwrap(),
    ;
}

/// A handle over a fixed set of variables whose readiness can be checked as
/// one unit.
pub trait Awaiter {
    /// Whether every covered variable was ready when the handle was made.
    spec fn all_ready(&self) -> bool;

    /// Reports whether every covered variable is ready. Readiness is
    /// monotonic, so a `true` answer stays true for the rest of the session.
    fn wait(&self) -> (r: bool)
        ensures
            r == self.all_ready(),
    ;
}

/// A witness source that can hand out awaiters over sets of variables.
pub trait WitnessSourceAwaitable<V: Copy>: WitnessSource<V> {
    type Awaiter: Awaiter;

    /// An awaiter bound to exactly the given variables.
    fn get_awaiter(&self, vars: Vec<Place>) -> (r: Self::Awaiter)
        requires
            forall|i: int| 0 <= i < vars@.len() ==> (#[trigger] vars@[i].idx()) < self.num_variables(),
        ensures
            r.all_ready() == (forall|i: int|
                0 <= i < vars@.len() ==> (#[trigger] self.val(vars@[i])) is Some),
    ;
}

/// The store itself: a fixed-size table of single-assignment cells.
pub struct VariableStore<V> {
    pub cells: Vec<Option<V>>,
}

impl<V: Copy> VariableStore<V> {
    /// Well-formed for a session sized to `max_variables`.
    pub open spec fn sized_for(&self, max_variables: nat) -> bool {
        self.cells@.len() == max_variables
    }

    /// The content of one cell.
    pub open spec fn cell(&self, variable: Place) -> Option<V> {
        self.cells@[variable.idx()]
    }

    /// The new table keeps every value the old one held; cells move only
    /// from unset to ready.
    pub open spec fn extends(&self, old_store: &Self) -> bool {
        &&& self.cells@.len() == old_store.cells@.len()
        &&& forall|i: int|
            0 <= i < old_store.cells@.len() && old_store.cells@[i] is Some
                ==> #[trigger] self.cells@[i] == old_store.cells@[i]
    }

    /// A store of `max_variables` unset cells.
    pub fn new(max_variables: usize) -> (r: Self)
        ensures
            r.sized_for(max_variables as nat),
            forall|i: int| 0 <= i < max_variables ==> #[trigger] r.cells@[i] is None,
    {
        let mut cells: Vec<Option<V>> = Vec::new();
        let mut i: usize = 0;
        while i < max_variables
            invariant
                i <= max_variables,
                cells@.len() == i,
                forall|j: int| 0 <= j < i ==> #[trigger] cells@[j] is None,
            decreases max_variables - i,
        {
            cells.push(None);
            i += 1;
        }
        VariableStore { cells }
    }

    /// Writes a still-unset cell. The single-assignment discipline is kept by
    /// the callers, which never hand the same Place to two writers.
    pub fn set_cell(&mut self, variable: Place, value: V)
        requires
            variable.idx() < old(self).cells@.len(),
            old(self).cell(variable) is None,
        ensures
            final(self).cells@ == old(self).cells@.update(variable.idx(), Some(value)),
            final(self).extends(old(self)),
    {
        let ix = variable.index();
        self.cells.set(ix, Some(value));
    }
}

impl<V: Copy> WitnessSource<V> for VariableStore<V> {
    open spec fn num_variables(&self) -> nat {
        self.cells@.len()
    }

    open spec fn val(&self, variable: Place) -> Option<V> {
        self.cell(variable)
    }

    fn try_get_value(&self, variable: Place) -> (r: Option<V>) {
        let ix = variable.index();
        match &self.cells[ix] {
            Some(v) => Some(*v),
            None => None,
        }
    }

    fn get_value_unchecked(&self, variable: Place) -> (r: V) {
        let ix = variable.index();
        match &self.cells[ix] {
            Some(v) => *v,
            None => unreached(),
        }
    }
}

/// An awaiter over a snapshot of the store: it records, at creation, whether
/// every covered variable was already ready.
pub struct StoreAwaiter {
    pub ready: bool,
}

impl Awaiter for StoreAwaiter {
    open spec fn all_ready(&self) -> bool {
        self.ready
    }

    fn wait(&self) -> (r: bool) {
        self.ready
    }
}

impl<V: Copy> WitnessSourceAwaitable<V> for VariableStore<V> {
    type Awaiter = StoreAwaiter;

    fn get_awaiter(&self, vars: Vec<Place>) -> (r: StoreAwaiter) {
        let mut i: usize = 0;
        let mut ready = true;
        while i < vars.len()
            invariant
                i <= vars@.len(),
                forall|j: int| 0 <= j < vars@.len() ==> (#[trigger] vars@[j].idx()) < self.num_variables(),
                ready == (forall|j: int| 0 <= j < i ==> (#[trigger] self.val(vars@[j])) is Some),
            decreases vars@.len() - i,
        {
            if self.try_get_value(vars[i]).is_none() {
                ready = false;
            }
            i += 1;
        }
        StoreAwaiter { ready }
    }
}

} // verus!
