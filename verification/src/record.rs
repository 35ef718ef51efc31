//! Resolution records: the realized execution order of one session, captured
//! with enough metadata to replay the same dispatch order on a later session
//! of identical shape, plus the traits through which records are kept.

use vstd::prelude::*;
use std::rc::Rc;

verus! {

/// Monotonically increasing counter assigned at registration time; the total
/// order used for deterministic tie-breaking.
pub type RegistrationNum = u64;

/// Position of a task in the realized global order.
pub type OrderIx = u64;

/// One task's entry in a resolution record.
#[derive(Clone, Copy, PartialEq, Eq, Structural, Debug)]
pub struct ResolutionRecordItem {
    /// Registration number of the task itself.
    pub added_at: RegistrationNum,
    /// Registration count current when the task became eligible.
    pub accepted_at: RegistrationNum,
    /// Length of the realized order at the moment of acceptance.
    pub order_len: usize,
    /// The task's position in the realized order.
    pub order_ix: OrderIx,
    /// The size of the admission batch the task was dispatched in.
    pub parallelism: u16,
}

impl ResolutionRecordItem {
    /// Whether every field is zero, the state of a freshly allocated item.
    pub open spec fn is_zeroed(self) -> bool {
        self.added_at == 0 && self.accepted_at == 0 && self.order_len == 0 && self.order_ix == 0
            && self.parallelism == 0
    }
}

impl Default for ResolutionRecordItem {
    fn default() -> (r: Self)
        ensures
            r.is_zeroed(),
    {
        ResolutionRecordItem { added_at: 0, accepted_at: 0, order_len: 0, order_ix: 0, parallelism: 0 }
    }
}

/// The realized order of one session: one item per registered task, indexed
/// by registration number, plus the two shape counters that identify the
/// session the record was captured from.
#[derive(Clone, Debug)]
pub struct ResolutionRecord {
    pub items: Vec<ResolutionRecordItem>,
    pub registrations_count: usize,
    pub values_count: usize,
}

impl ResolutionRecord {
    /// A record for a session of `registrations_count` tasks and
    /// `values_count` direct assignments, with `size` zeroed items.
    pub fn new(registrations_count: usize, values_count: usize, size: usize) -> (r: Self)
        ensures
            r.registrations_count == registrations_count,
            r.values_count == values_count,
            r.items@.len() == size,
            forall|i: int| 0 <= i < size ==> (#[trigger] r.items@[i]).is_zeroed(),
    {
        let mut items: Vec<ResolutionRecordItem> = Vec::new();
        let mut i: usize = 0;
        while i < size
            invariant
                i <= size,
                items@.len() == i,
                forall|j: int| 0 <= j < i ==> (#[trigger] items@[j]).is_zeroed(),
            decreases size - i,
        {
            items.push(ResolutionRecordItem::default());
            i += 1;
        }
        ResolutionRecord { registrations_count, values_count, items }
    }
}

/// Keyed persistence of resolution records; the storage medium is the
/// implementor's concern, the engine defines only the record's shape.
pub trait ResolutionRecordStorage {
    type Id;

    /// The record the storage would hand out for the given key.
    spec fn held_for(&self, id: Self::Id) -> ResolutionRecord;

    /// Keeps a record under the given key.
    fn store(&mut self, id: Self::Id, record: &ResolutionRecord);

    /// Returns the record kept under the given key.
    fn get(&self, id: Self::Id) -> (r: Rc<ResolutionRecord>)
        ensures
            *r == self.held_for(id),
    ;
}

/// Write-only sink for the record captured by a discover-mode session.
pub trait ResolutionRecordWriter {
    fn store(&mut self, record: &ResolutionRecord);
}

/// Read-only source of the record that drives a playback-mode session.
pub trait ResolutionRecordSource {
    /// The record the source hands out.
    spec fn held_record(&self) -> ResolutionRecord;

    fn get(&self) -> (r: &ResolutionRecord)
        ensures
            *r == self.held_record(),
    ;
}

/// In-memory record storage holding a single record; ignores keys and writes.
pub struct TestRecordStorage {
    record: Rc<ResolutionRecord>,
}

impl TestRecordStorage {
    /// The record this storage holds.
    pub closed spec fn held(&self) -> ResolutionRecord {
        *self.record
    }

    /// Storage that will hand out the given record.
    pub fn new(record: ResolutionRecord) -> (r: Self)
        ensures
            r.held() == record,
            r.held_for(()) == record,
            r.held_record() == record,
    {
        TestRecordStorage { record: Rc::new(record) }
    }
}

impl ResolutionRecordStorage for TestRecordStorage {
    type Id = ();

    closed spec fn held_for(&self, id: ()) -> ResolutionRecord {
        *self.record
    }

    fn store(&mut self, id: Self::Id, record: &ResolutionRecord)
        ensures
            *final(self) == *old(self),
    {
    }

    fn get(&self, id: Self::Id) -> (r: Rc<ResolutionRecord>) {
        self.record.clone()
    }
}

impl ResolutionRecordSource for TestRecordStorage {
    closed spec fn held_record(&self) -> ResolutionRecord {
        *self.record
    }

    fn get(&self) -> (r: &ResolutionRecord) {
        &self.record
    }
}

/// A record sink that drops everything written to it.
pub struct NullRecordWriter();

impl ResolutionRecordWriter for NullRecordWriter {
    fn store(&mut self, record: &ResolutionRecord)
        ensures
            *final(self) == *old(self),
    {
    }
}

} // verus!
