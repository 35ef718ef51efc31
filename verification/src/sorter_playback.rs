//! Playback mode: replays the dispatch order of a previously captured
//! resolution record for a circuit of the same shape, skipping dependency
//! analysis entirely. Before the first dispatch it validates the record's
//! shape counters against the live session and reports `RecordMismatch` on
//! any discrepancy; it never dispatches from a record that does not match.
//! The dispatch order is the record's own `order_ix` order, reused verbatim:
//! well-formedness pins the `order_ix` fields along the dispatch sequence to
//! be strictly ascending.

use vstd::prelude::*;

use crate::config::CircuitResolverOpts;
use crate::errors::ResolutionError;
use crate::place::Place;
use crate::record::{RegistrationNum, ResolutionRecord};
use crate::sorter::{lemma_prefix_reflexive, ResolverSortingMode};

verus! {

/// The playback strategy, constructed from the configuration and a record.
pub struct PlaybackResolverSorter {
    pub max_variables: usize,
    pub capacity: usize,
    /// The record driving dispatch; kept exactly as captured.
    pub source: ResolutionRecord,
    /// Task indices in the record's `order_ix` order.
    pub dispatch: Vec<usize>,
    /// The next position of `dispatch` to hand out.
    pub cursor: usize,
    pub registered_count: usize,
    pub values_count: usize,
    pub written: bool,
}

impl ResolverSortingMode for PlaybackResolverSorter {
    type Arg = (CircuitResolverOpts, ResolutionRecord);

    open spec fn wf(&self) -> bool {
        &&& forall|i: int|
            0 <= i < self.dispatch@.len() ==> (#[trigger] self.dispatch@[i])
                < self.source.items@.len()
        &&& self.cursor <= self.dispatch@.len()
        &&& forall|i: int, j: int|
            0 <= i < j < self.dispatch@.len() ==> self.source.items@[self.dispatch@[i] as int].order_ix
                < self.source.items@[self.dispatch@[j] as int].order_ix
    }

    open spec fn registered(&self) -> nat {
        self.registered_count as nat
    }

    open spec fn values_seen(&self) -> nat {
        self.values_count as nat
    }

    open spec fn capacity(&self) -> nat {
        self.capacity as nat
    }

    open spec fn num_variables(&self) -> nat {
        self.max_variables as nat
    }

    open spec fn eligible_order(&self) -> Seq<usize> {
        self.dispatch@
    }

    open spec fn dispatched(&self) -> nat {
        self.cursor as nat
    }

    open spec fn replayable(&self) -> bool {
        &&& self.registered_count == self.source.registrations_count
        &&& self.values_count == self.source.values_count
        &&& self.source.items@.len() == self.registered_count
    }

    open spec fn sequence_written(&self) -> bool {
        &&& self.written
        &&& self.registered_count == self.source.registrations_count
        &&& self.values_count == self.source.values_count
        &&& self.source.items@.len() == self.registered_count
    }

    open spec fn arg_parallelism(arg: &(CircuitResolverOpts, ResolutionRecord)) -> nat {
        arg.0.desired_parallelism as nat
    }

    open spec fn arg_num_variables(arg: &(CircuitResolverOpts, ResolutionRecord)) -> nat {
        arg.0.max_variables as nat
    }

    fn new(arg: (CircuitResolverOpts, ResolutionRecord)) -> (r: Self) {
        let (opts, source) = arg;
        let cap = opts.desired_parallelism as usize;
        let n = source.items.len();
        // Invert the order_ix permutation: slot s holds the registration
        // whose item claims dispatch position s, `n` standing for none.
        let mut slots: Vec<usize> = Vec::new();
        let mut i: usize = 0;
        while i < n
            invariant
                i <= n,
                slots@.len() == i,
                forall|j: int| 0 <= j < i ==> (#[trigger] slots@[j]) == n,
            decreases n - i,
        {
            slots.push(n);
            i += 1;
        }
        i = 0;
        while i < n
            invariant
                i <= n,
                slots@.len() == n,
                n == source.items@.len(),
                forall|j: int|
                    0 <= j < n ==> (#[trigger] slots@[j]) <= n && (slots@[j] < n
                        ==> source.items@[slots@[j] as int].order_ix == j),
            decreases n - i,
        {
            let oix = source.items[i].order_ix;
            if oix < n as u64 {
                slots.set(oix as usize, i);
            }
            i += 1;
        }
        let mut dispatch: Vec<usize> = Vec::new();
        i = 0;
        while i < n
            invariant
                i <= n,
                slots@.len() == n,
                n == source.items@.len(),
                forall|j: int|
                    0 <= j < n ==> (#[trigger] slots@[j]) <= n && (slots@[j] < n
                        ==> source.items@[slots@[j] as int].order_ix == j),
                forall|a: int| 0 <= a < dispatch@.len() ==> (#[trigger] dispatch@[a]) < n,
                forall|a: int|
                    0 <= a < dispatch@.len() ==> source.items@[(#[trigger] dispatch@[a]) as int].order_ix
                        < i,
                forall|a: int, b: int|
                    0 <= a < b < dispatch@.len() ==> source.items@[dispatch@[a] as int].order_ix
                        < source.items@[dispatch@[b] as int].order_ix,
            decreases n - i,
        {
            let s = slots[i];
            if s < n {
                dispatch.push(s);
            }
            i += 1;
        }
        PlaybackResolverSorter {
            max_variables: opts.max_variables,
            capacity: cap,
            source,
            dispatch,
            cursor: 0,
            registered_count: 0,
            values_count: 0,
            written: false,
        }
    }

    fn set_value(&mut self, key: Place) {
        self.values_count = self.values_count + 1;
        proof {
            lemma_prefix_reflexive(self.dispatch@);
        }
    }

    fn mark_ready(&mut self, key: Place) {
        proof {
            lemma_prefix_reflexive(self.dispatch@);
        }
    }

    fn internalize(
        &mut self,
        resolver_ix: usize,
        unready_inputs: Vec<Place>,
        added_at: RegistrationNum,
    ) {
        self.registered_count = self.registered_count + 1;
        proof {
            lemma_prefix_reflexive(self.dispatch@);
        }
    }

    fn internalize_one(
        &mut self,
        resolver_ix: usize,
        unready_inputs: Vec<Place>,
        added_at: RegistrationNum,
    ) -> (newly: Vec<usize>) {
        self.registered_count = self.registered_count + 1;
        proof {
            lemma_prefix_reflexive(self.dispatch@);
        }
        Vec::new()
    }

    fn flush(&mut self) -> (batch: Vec<usize>) {
        // Playback dispatches nothing until finalization: the record can be
        // validated only once the registration stream is complete.
        proof {
            assert(Seq::<usize>::empty() =~= self.dispatch@.subrange(
                self.cursor as int,
                self.cursor as int,
            ));
        }
        Vec::new()
    }

    fn final_flush(&mut self) -> (r: Result<Vec<usize>, ResolutionError>) {
        if self.registered_count != self.source.registrations_count || self.values_count
            != self.source.values_count || self.source.items.len() != self.registered_count {
            return Err(ResolutionError::RecordMismatch);
        }
        let ghost c0 = self.cursor;
        let mut batch: Vec<usize> = Vec::new();
        while batch.len() < self.capacity && self.cursor < self.dispatch.len()
            invariant
                self.wf(),
                batch@.len() <= self.capacity,
                c0 <= self.cursor,
                self.capacity == old(self).capacity,
                self.max_variables == old(self).max_variables,
                self.registered_count == old(self).registered_count,
                self.values_count == old(self).values_count,
                self.dispatch@ == old(self).dispatch@,
                self.source == old(self).source,
                self.written == old(self).written,
                c0 == old(self).cursor,
                self.registered_count == self.source.items@.len(),
                batch@ == self.dispatch@.subrange(c0 as int, self.cursor as int),
            decreases self.dispatch@.len() - self.cursor,
        {
            batch.push(self.dispatch[self.cursor]);
            self.cursor = self.cursor + 1;
            proof {
                assert(batch@ =~= self.dispatch@.subrange(c0 as int, self.cursor as int));
            }
        }
        Ok(batch)
    }

    fn write_sequence(&mut self) {
        self.written = true;
    }

    fn retrieve_sequence(&self) -> (r: &ResolutionRecord) {
        &self.source
    }
}

} // verus!
