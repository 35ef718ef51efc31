//! The sorting-strategy interface: one contract with two implementations,
//! discover mode (derives the execution order from readiness analysis) and
//! playback mode (replays a previously captured record). The façade is
//! generic over this trait and owns value storage and task execution; the
//! strategy owns eligibility bookkeeping, dispatch order and the record.

use vstd::prelude::*;

use crate::errors::ResolutionError;
use crate::place::Place;
use crate::record::{RegistrationNum, ResolutionRecord};

verus! {

/// Identifier usable as a position in the realized order.
pub trait TrackId: From<u64> + Into<u64> + Eq + Ord + core::fmt::Debug + Default + Clone + Copy {

}

impl TrackId for u64 {

}

/// A sequence is a prefix of itself.
pub proof fn lemma_prefix_reflexive(s: Seq<usize>)
    ensures
        s.is_prefix_of(s),
{
    assert(s =~= s.subrange(0, s.len() as int));
}

/// Growing a sequence keeps every prefix of it a prefix.
pub proof fn lemma_prefix_push(a: Seq<usize>, b: Seq<usize>, x: usize)
    requires
        a.is_prefix_of(b),
    ensures
        a.is_prefix_of(b.push(x)),
{
    assert(b.push(x).subrange(0, a.len() as int) =~= b.subrange(0, a.len() as int));
}

/// One scheduling strategy of a resolver session.
///
/// The strategy sees the session as a stream of events: `internalize` for
/// each registered task (dense indices, in registration order), `set_value`
/// for each direct assignment, `mark_ready` for each Place published by a
/// finished task. It maintains one growing dispatch order
/// (`eligible_order`), of which `dispatched` is the prefix already handed
/// out; `flush` and `final_flush` hand out consecutive segments of that
/// order, never more per batch than the window capacity.
pub trait ResolverSortingMode: Sized {
    /// What the strategy is constructed from.
    type Arg;

    /// Internal consistency, established by `new` and kept by every method.
    spec fn wf(&self) -> bool;

    /// The number of tasks internalized so far.
    spec fn registered(&self) -> nat;

    /// The number of direct assignments seen so far.
    spec fn values_seen(&self) -> nat;

    /// The window capacity: the parallelism bound of every batch.
    spec fn capacity(&self) -> nat;

    /// The size of the Place id space.
    spec fn num_variables(&self) -> nat;

    /// The dispatch order as known so far: task indices in the order they
    /// are (or will be) handed out for execution.
    spec fn eligible_order(&self) -> Seq<usize>;

    /// How much of `eligible_order` has already been handed out.
    spec fn dispatched(&self) -> nat;

    /// Whether finalization can proceed: discover mode always; playback mode
    /// exactly when the record's shape counters agree with the live session.
    spec fn replayable(&self) -> bool;

    /// Whether `write_sequence` has produced the session's record.
    spec fn sequence_written(&self) -> bool;

    /// The parallelism bound the given argument asks for.
    spec fn arg_parallelism(arg: &Self::Arg) -> nat;

    /// The Place id space the given argument asks for.
    spec fn arg_num_variables(arg: &Self::Arg) -> nat;

    /// A strategy for a fresh session.
    fn new(arg: Self::Arg) -> (r: Self)
        ensures
            r.wf(),
            r.registered() == 0,
            r.values_seen() == 0,
            r.capacity() <= Self::arg_parallelism(&arg),
            Self::arg_parallelism(&arg) > 0 ==> r.capacity() > 0,
            r.num_variables() == Self::arg_num_variables(&arg),
            r.dispatched() == 0,
            r.dispatched() <= r.eligible_order().len(),
    ;

    /// Notes that `key` became ready through a direct assignment.
    fn set_value(&mut self, key: Place)
        requires
            old(self).wf(),
            key.idx() < old(self).num_variables(),
            old(self).values_seen() < usize::MAX,
        ensures
            final(self).wf(),
            final(self).registered() == old(self).registered(),
            final(self).values_seen() == old(self).values_seen() + 1,
            final(self).capacity() == old(self).capacity(),
            final(self).num_variables() == old(self).num_variables(),
            old(self).eligible_order().is_prefix_of(final(self).eligible_order()),
            final(self).dispatched() == old(self).dispatched(),
            final(self).dispatched() <= final(self).eligible_order().len(),
    ;

    /// Notes that `key` became ready because the task producing it finished.
    fn mark_ready(&mut self, key: Place)
        requires
            old(self).wf(),
            key.idx() < old(self).num_variables(),
        ensures
            final(self).wf(),
            final(self).registered() == old(self).registered(),
            final(self).values_seen() == old(self).values_seen(),
            final(self).capacity() == old(self).capacity(),
            final(self).num_variables() == old(self).num_variables(),
            old(self).eligible_order().is_prefix_of(final(self).eligible_order()),
            final(self).dispatched() == old(self).dispatched(),
            final(self).dispatched() <= final(self).eligible_order().len(),
            final(self).replayable() == old(self).replayable(),
    ;

    /// Registers task `resolver_ix`; `unready_inputs` are the input Places
    /// of the task that were not yet ready at registration time, one entry
    /// per occurrence.
    fn internalize(
        &mut self,
        resolver_ix: usize,
        unready_inputs: Vec<Place>,
        added_at: RegistrationNum,
    )
        requires
            old(self).wf(),
            old(self).registered() < usize::MAX,
            resolver_ix == old(self).registered(),
            added_at == old(self).registered(),
            forall|i: int|
                0 <= i < unready_inputs@.len() ==> (#[trigger] unready_inputs@[i].idx())
                    < old(self).num_variables(),
        ensures
            final(self).wf(),
            final(self).registered() == old(self).registered() + 1,
            final(self).values_seen() == old(self).values_seen(),
            final(self).capacity() == old(self).capacity(),
            final(self).num_variables() == old(self).num_variables(),
            old(self).eligible_order().is_prefix_of(final(self).eligible_order()),
            final(self).dispatched() == old(self).dispatched(),
            final(self).dispatched() <= final(self).eligible_order().len(),
    ;

    /// Like `internalize`, and additionally returns the indices of any tasks
    /// that became immediately eligible through this insertion, the inserted
    /// one included.
    fn internalize_one(
        &mut self,
        resolver_ix: usize,
        unready_inputs: Vec<Place>,
        added_at: RegistrationNum,
    ) -> (newly: Vec<usize>)
        requires
            old(self).wf(),
            old(self).registered() < usize::MAX,
            resolver_ix == old(self).registered(),
            added_at == old(self).registered(),
            forall|i: int|
                0 <= i < unready_inputs@.len() ==> (#[trigger] unready_inputs@[i].idx())
                    < old(self).num_variables(),
        ensures
            final(self).wf(),
            final(self).registered() == old(self).registered() + 1,
            final(self).values_seen() == old(self).values_seen(),
            final(self).capacity() == old(self).capacity(),
            final(self).num_variables() == old(self).num_variables(),
            old(self).eligible_order().is_prefix_of(final(self).eligible_order()),
            final(self).dispatched() == old(self).dispatched(),
            final(self).dispatched() <= final(self).eligible_order().len(),
            forall|i: int| 0 <= i < newly@.len() ==> (#[trigger] newly@[i]) < final(self).registered(),
    ;

    /// Admits eligible tasks into the window, up to its remaining capacity,
    /// and hands the batch out for execution: the next consecutive segment
    /// of the dispatch order.
    fn flush(&mut self) -> (batch: Vec<usize>)
        requires
            old(self).wf(),
        ensures
            final(self).wf(),
            final(self).registered() == old(self).registered(),
            final(self).values_seen() == old(self).values_seen(),
            final(self).capacity() == old(self).capacity(),
            final(self).num_variables() == old(self).num_variables(),
            final(self).eligible_order() == old(self).eligible_order(),
            final(self).replayable() == old(self).replayable(),
            batch@.len() <= old(self).capacity(),
            forall|i: int| 0 <= i < batch@.len() ==> (#[trigger] batch@[i]) < old(self).registered(),
            final(self).dispatched() == old(self).dispatched() + batch@.len(),
            final(self).dispatched() <= final(self).eligible_order().len(),
            batch@ == old(self).eligible_order().subrange(
                old(self).dispatched() as int,
                final(self).dispatched() as int,
            ),
    ;

    /// Like `flush`, once no further registrations or assignments will
    /// arrive; called repeatedly until it returns an empty batch. Each batch
    /// is the next segment of the dispatch order, as long as the remaining
    /// order and the capacity allow. Playback mode validates the record's
    /// shape counters against the live session here, before its first
    /// dispatch, and reports `RecordMismatch`.
    fn final_flush(&mut self) -> (r: Result<Vec<usize>, ResolutionError>)
        requires
            old(self).wf(),
        ensures
            final(self).wf(),
            final(self).registered() == old(self).registered(),
            final(self).values_seen() == old(self).values_seen(),
            final(self).capacity() == old(self).capacity(),
            final(self).num_variables() == old(self).num_variables(),
            final(self).eligible_order() == old(self).eligible_order(),
            final(self).replayable() == old(self).replayable(),
            final(self).dispatched() <= final(self).eligible_order().len(),
            r matches Ok(batch) ==> batch@.len() <= old(self).capacity(),
            r matches Ok(batch) ==> forall|i: int|
                0 <= i < batch@.len() ==> (#[trigger] batch@[i]) < old(self).registered(),
            r matches Ok(batch) ==> final(self).dispatched() == old(self).dispatched()
                + batch@.len(),
            r matches Ok(batch) ==> batch@ == old(self).eligible_order().subrange(
                old(self).dispatched() as int,
                final(self).dispatched() as int,
            ),
            r matches Ok(batch) ==> batch@.len() as int == (
            if old(self).eligible_order().len() - old(self).dispatched() < old(self).capacity() {
                old(self).eligible_order().len() - old(self).dispatched()
            } else {
                old(self).capacity() as int
            }),
            r matches Err(e) ==> e == ResolutionError::RecordMismatch && !old(self).replayable()
                && final(self).dispatched() == old(self).dispatched(),
    ;

    /// Serializes the realized order into the session's resolution record,
    /// available afterwards whenever the record describes the live session.
    fn write_sequence(&mut self)
        requires
            old(self).wf(),
        ensures
            final(self).wf(),
            final(self).registered() == old(self).registered(),
            final(self).values_seen() == old(self).values_seen(),
            final(self).capacity() == old(self).capacity(),
            final(self).num_variables() == old(self).num_variables(),
            final(self).eligible_order() == old(self).eligible_order(),
            final(self).dispatched() == old(self).dispatched(),
            final(self).replayable() == old(self).replayable(),
            old(self).replayable() ==> final(self).sequence_written(),
    ;

    /// The record written by `write_sequence`: it describes the live
    /// session's shape, one item per registered task.
    fn retrieve_sequence(&self) -> (r: &ResolutionRecord)
        requires
            self.wf(),
            self.sequence_written(),
        ensures
            r.registrations_count == self.registered(),
            r.values_count == self.values_seen(),
            r.items@.len() == self.registered(),
    ;
}

} // verus!
