//! Discover mode: derives the execution order from scratch by readiness
//! analysis, and captures the realized order as a resolution record.
//!
//! Admission policy: nothing is dispatched while registrations and
//! assignments arrive; eligibility is tracked eagerly, and batches are handed
//! out by `flush`/`final_flush`, each batch the next window of tasks taken
//! from the eligibility queue in FIFO order.
//!
//! The realized order is pinned functionally: every event appends exactly
//! [`newly_eligible`] to the queue, stamping `accepted_at`/`order_len`, and
//! dispatch stamps `order_ix` with the queue position and `parallelism` with
//! the batch size — so a fixed registration and assignment sequence realizes
//! one and the same record on every run.

use vstd::prelude::*;

use crate::config::CircuitResolverOpts;
use crate::errors::ResolutionError;
use crate::guide::{guide_after, newly_eligible, Guide};
use crate::place::Place;
use crate::record::{RegistrationNum, ResolutionRecord, ResolutionRecordItem};
use crate::sorter::{lemma_prefix_push, lemma_prefix_reflexive, ResolverSortingMode};
use crate::window::ResolutionWindow;

verus! {

/// Copies a table of record items.
fn copy_items(items: &Vec<ResolutionRecordItem>) -> (r: Vec<ResolutionRecordItem>)
    ensures
        r@ == items@,
{
    let mut r: Vec<ResolutionRecordItem> = Vec::new();
    let mut i: usize = 0;
    while i < items.len()
        invariant
            i <= items@.len(),
            r@ == items@.subrange(0, i as int),
        decreases items@.len() - i,
    {
        r.push(items[i]);
        proof {
            assert(r@ =~= items@.subrange(0, i + 1));
        }
        i += 1;
    }
    proof {
        assert(items@.subrange(0, items@.len() as int) =~= items@);
    }
    r
}

/// The discover-mode strategy.
pub struct RuntimeResolverSorter {
    pub guide: Guide,
    pub window: ResolutionWindow,
    /// Eligibility order; `qhead` is the dispatch frontier into it.
    pub queue: Vec<usize>,
    pub qhead: usize,
    /// Per task, the record item filled in as the task moves through the
    /// session: `added_at` at registration, `accepted_at`/`order_len` at
    /// eligibility, `order_ix`/`parallelism` at dispatch.
    pub items: Vec<ResolutionRecordItem>,
    pub values_count: usize,
    pub record: Option<ResolutionRecord>,
}

impl RuntimeResolverSorter {
    /// Appends newly eligible tasks to the queue, stamping acceptance data:
    /// `accepted_at` with the registration count, `order_len` with the queue
    /// position; nothing else changes.
    fn enqueue_all(&mut self, newly: &Vec<usize>)
        requires
            old(self).wf(),
            forall|i: int| 0 <= i < newly@.len() ==> (#[trigger] newly@[i]) < old(self).items@.len(),
            forall|i: int, j: int| 0 <= i < j < newly@.len() ==> newly@[i] < newly@[j],
            forall|i: int|
                0 <= i < newly@.len() ==> old(self).guide.pending@[(#[trigger] newly@[i]) as int]
                    == 0,
            forall|i: int| 0 <= i < newly@.len() ==> !old(self).queue@.contains(#[trigger] newly@[i]),
        ensures
            final(self).wf(),
            final(self).items@.len() == old(self).items@.len(),
            final(self).guide == old(self).guide,
            final(self).values_count == old(self).values_count,
            final(self).window == old(self).window,
            final(self).record == old(self).record,
            final(self).qhead == old(self).qhead,
            final(self).queue@ == old(self).queue@ + newly@,
            old(self).queue@.is_prefix_of(final(self).queue@),
            forall|j: int|
                old(self).queue@.len() <= j < final(self).queue@.len() ==> (
                #[trigger] final(self).items@[final(self).queue@[j] as int]).accepted_at == old(
                    self,
                ).items@.len() as u64 && final(self).items@[final(self).queue@[j] as int].order_len
                    == j,
            forall|t: int|
                0 <= t < final(self).items@.len() && !newly@.contains(t as usize) ==> (
                #[trigger] final(self).items@[t]) == old(self).items@[t],
            forall|t: int|
                0 <= t < final(self).items@.len() ==> (#[trigger] final(self).items@[t]).added_at
                    == old(self).items@[t].added_at && final(self).items@[t].order_ix == old(
                    self,
                ).items@[t].order_ix && final(self).items@[t].parallelism == old(
                    self,
                ).items@[t].parallelism,
    {
        let ghost q0 = self.queue@;
        proof {
            lemma_prefix_reflexive(self.queue@);
            assert(self.queue@ =~= q0 + newly@.subrange(0, 0));
        }
        let mut i: usize = 0;
        while i < newly.len()
            invariant
                self.wf(),
                i <= newly@.len(),
                q0 == old(self).queue@,
                forall|j: int| 0 <= j < newly@.len() ==> (#[trigger] newly@[j]) < self.items@.len(),
                forall|a: int, b: int| 0 <= a < b < newly@.len() ==> newly@[a] < newly@[b],
                forall|j: int|
                    0 <= j < newly@.len() ==> self.guide.pending@[(#[trigger] newly@[j]) as int]
                        == 0,
                forall|j: int| 0 <= j < newly@.len() ==> !q0.contains(#[trigger] newly@[j]),
                self.items@.len() == old(self).items@.len(),
                self.guide == old(self).guide,
                self.values_count == old(self).values_count,
                self.window == old(self).window,
                self.record == old(self).record,
                self.qhead == old(self).qhead,
                self.queue@ == q0 + newly@.subrange(0, i as int),
                forall|j: int|
                    q0.len() <= j < self.queue@.len() ==> (#[trigger] self.items@[self.queue@[j] as int]).accepted_at
                        == old(self).items@.len() as u64 && self.items@[self.queue@[j] as int].order_len
                        == j,
                forall|t: int|
                    0 <= t < self.items@.len() && !newly@.contains(t as usize) ==> (
                    #[trigger] self.items@[t]) == old(self).items@[t],
                forall|t: int|
                    0 <= t < self.items@.len() ==> (#[trigger] self.items@[t]).added_at == old(
                        self,
                    ).items@[t].added_at && self.items@[t].order_ix == old(self).items@[t].order_ix
                        && self.items@[t].parallelism == old(self).items@[t].parallelism,
            decreases newly@.len() - i,
        {
            let ix = newly[i];
            let mut it = self.items[ix];
            it.accepted_at = self.items.len() as u64;
            it.order_len = self.queue.len();
            self.items.set(ix, it);
            proof {
                assert(newly@.contains(newly@[i as int]));
                assert forall|a: int| 0 <= a < self.queue@.len() implies self.queue@[a]
                    != ix by {
                    if a < q0.len() {
                        assert(q0[a] != ix) by {
                            if q0[a] == ix {
                                assert(q0.contains(newly@[i as int]));
                            }
                        }
                    } else {
                        assert(self.queue@[a] == newly@[a - q0.len()]);
                    }
                }
            }
            self.queue.push(ix);
            proof {
                assert(self.queue@ =~= q0 + newly@.subrange(0, i + 1));
            }
            i += 1;
        }
        proof {
            assert(newly@.subrange(0, newly@.len() as int) =~= newly@);
            assert((q0 + newly@).subrange(0, q0.len() as int) =~= q0);
        }
    }
}

impl ResolverSortingMode for RuntimeResolverSorter {
    type Arg = CircuitResolverOpts;

    open spec fn wf(&self) -> bool {
        &&& self.guide.wf()
        &&& self.items@.len() == self.guide.tasks()
        &&& self.qhead <= self.queue@.len()
        &&& forall|i: int| 0 <= i < self.queue@.len() ==> (#[trigger] self.queue@[i]) < self.items@.len()
        &&& forall|i: int, j: int| 0 <= i < j < self.queue@.len() ==> self.queue@[i] != self.queue@[j]
        &&& forall|i: int|
            0 <= i < self.queue@.len() ==> self.guide.pending@[(#[trigger] self.queue@[i]) as int]
                == 0
        &&& self.window.wf()
        &&& self.window.slots@.len() == 0
        &&& self.window.capacity <= u16::MAX
        &&& forall|t: int|
            0 <= t < self.items@.len() ==> (#[trigger] self.items@[t]).added_at == t as u64
    }

    open spec fn registered(&self) -> nat {
        self.items@.len()
    }

    open spec fn values_seen(&self) -> nat {
        self.values_count as nat
    }

    open spec fn capacity(&self) -> nat {
        self.window.capacity as nat
    }

    open spec fn num_variables(&self) -> nat {
        self.guide.num_variables()
    }

    open spec fn eligible_order(&self) -> Seq<usize> {
        self.queue@
    }

    open spec fn dispatched(&self) -> nat {
        self.qhead as nat
    }

    open spec fn replayable(&self) -> bool {
        true
    }

    open spec fn sequence_written(&self) -> bool {
        match self.record {
            Some(r) => r.registrations_count == self.items@.len() && r.values_count
                == self.values_count && r.items@ == self.items@,
            None => false,
        }
    }

    open spec fn arg_parallelism(arg: &CircuitResolverOpts) -> nat {
        arg.desired_parallelism as nat
    }

    open spec fn arg_num_variables(arg: &CircuitResolverOpts) -> nat {
        arg.max_variables as nat
    }

    fn new(arg: CircuitResolverOpts) -> (r: Self)
        ensures
            r.capacity() == (if arg.desired_parallelism > u16::MAX as u32 {
                u16::MAX as nat
            } else {
                arg.desired_parallelism as nat
            }),
    {
        let cap: usize = if arg.desired_parallelism > u16::MAX as u32 {
            u16::MAX as usize
        } else {
            arg.desired_parallelism as usize
        };
        RuntimeResolverSorter {
            guide: Guide::new(arg.max_variables),
            window: ResolutionWindow::new(cap),
            queue: Vec::new(),
            qhead: 0,
            items: Vec::new(),
            values_count: 0,
            record: None,
        }
    }

    fn set_value(&mut self, key: Place)
        ensures
            final(self).queue@ == old(self).queue@ + newly_eligible(old(self).guide, key),
            guide_after(old(self).guide, key, final(self).guide),
            final(self).qhead == old(self).qhead,
            final(self).record == old(self).record,
            forall|j: int|
                old(self).queue@.len() <= j < final(self).queue@.len() ==> (
                #[trigger] final(self).items@[final(self).queue@[j] as int]).accepted_at == old(
                    self,
                ).items@.len() as u64 && final(self).items@[final(self).queue@[j] as int].order_len
                    == j,
            forall|t: int|
                0 <= t < final(self).items@.len() && !newly_eligible(old(self).guide, key).contains(
                    t as usize,
                ) ==> (#[trigger] final(self).items@[t]) == old(self).items@[t],
    {
        let ghost g0 = self.guide;
        let newly = self.guide.on_ready(key);
        proof {
            self.lemma_event_enqueue_ok(g0, key, newly@);
        }
        self.enqueue_all(&newly);
        self.values_count = self.values_count + 1;
    }

    fn mark_ready(&mut self, key: Place)
        ensures
            final(self).queue@ == old(self).queue@ + newly_eligible(old(self).guide, key),
            guide_after(old(self).guide, key, final(self).guide),
            final(self).qhead == old(self).qhead,
            final(self).record == old(self).record,
            forall|j: int|
                old(self).queue@.len() <= j < final(self).queue@.len() ==> (
                #[trigger] final(self).items@[final(self).queue@[j] as int]).accepted_at == old(
                    self,
                ).items@.len() as u64 && final(self).items@[final(self).queue@[j] as int].order_len
                    == j,
            forall|t: int|
                0 <= t < final(self).items@.len() && !newly_eligible(old(self).guide, key).contains(
                    t as usize,
                ) ==> (#[trigger] final(self).items@[t]) == old(self).items@[t],
    {
        let ghost g0 = self.guide;
        let newly = self.guide.on_ready(key);
        proof {
            self.lemma_event_enqueue_ok(g0, key, newly@);
        }
        self.enqueue_all(&newly);
    }

    fn internalize(
        &mut self,
        resolver_ix: usize,
        unready_inputs: Vec<Place>,
        added_at: RegistrationNum,
    )
        ensures
            final(self).queue@ == old(self).queue@ + (if unready_inputs@.len() == 0 {
                seq![resolver_ix]
            } else {
                Seq::<usize>::empty()
            }),
            final(self).guide.pending@ == old(self).guide.pending@.push(
                unready_inputs@.len() as usize,
            ),
            final(self).guide.unready_inputs@ == old(self).guide.unready_inputs@.push(
                unready_inputs,
            ),
            final(self).guide.ready@ == old(self).guide.ready@,
            final(self).qhead == old(self).qhead,
            final(self).record == old(self).record,
            forall|t: int|
                0 <= t < old(self).items@.len() ==> (#[trigger] final(self).items@[t]) == old(
                    self,
                ).items@[t],
            final(self).items@[old(self).items@.len() as int].added_at == added_at,
            final(self).items@[old(self).items@.len() as int].order_ix == 0,
            final(self).items@[old(self).items@.len() as int].parallelism == 0,
            unready_inputs@.len() == 0 ==> final(self).items@[old(self).items@.len() as int].accepted_at
                == (old(self).items@.len() + 1) as u64 && final(self).items@[old(
                self,
            ).items@.len() as int].order_len == old(self).queue@.len(),
            unready_inputs@.len() != 0 ==> final(self).items@[old(self).items@.len() as int].accepted_at
                == 0 && final(self).items@[old(self).items@.len() as int].order_len == 0,
    {
        let eligible = self.guide.register(unready_inputs);
        let mut it = ResolutionRecordItem::default();
        it.added_at = added_at;
        self.items.push(it);
        if eligible {
            let mut newly: Vec<usize> = Vec::new();
            newly.push(resolver_ix);
            proof {
                assert forall|i: int|
                    0 <= i < newly@.len() implies !self.queue@.contains(#[trigger] newly@[i]) by {
                    if self.queue@.contains(newly@[i]) {
                        let a = choose|a: int|
                            0 <= a < self.queue@.len() && self.queue@[a] == newly@[i];
                        assert(self.queue@[a] < old(self).items@.len());
                    }
                }
                assert(self.guide.pending@[resolver_ix as int] == 0);
            }
            self.enqueue_all(&newly);
            proof {
                assert(self.queue@ =~= old(self).queue@ + seq![resolver_ix]);
                let j = old(self).queue@.len() as int;
                assert(self.queue@[j] == resolver_ix);
                assert(self.items@[self.queue@[j] as int].accepted_at == (old(self).items@.len()
                    + 1) as u64);
                assert(self.items@[self.queue@[j] as int].order_len == j);
            }
        } else {
            proof {
                lemma_prefix_reflexive(self.queue@);
                assert(self.queue@ =~= old(self).queue@ + Seq::<usize>::empty());
            }
        }
    }

    fn internalize_one(
        &mut self,
        resolver_ix: usize,
        unready_inputs: Vec<Place>,
        added_at: RegistrationNum,
    ) -> (newly: Vec<usize>)
        ensures
            newly@ == (if unready_inputs@.len() == 0 {
                seq![resolver_ix]
            } else {
                Seq::<usize>::empty()
            }),
            final(self).queue@ == old(self).queue@ + newly@,
            final(self).guide.pending@ == old(self).guide.pending@.push(
                unready_inputs@.len() as usize,
            ),
            final(self).guide.unready_inputs@ == old(self).guide.unready_inputs@.push(
                unready_inputs,
            ),
            final(self).guide.ready@ == old(self).guide.ready@,
            final(self).qhead == old(self).qhead,
            final(self).record == old(self).record,
            forall|t: int|
                0 <= t < old(self).items@.len() ==> (#[trigger] final(self).items@[t]) == old(
                    self,
                ).items@[t],
            final(self).items@[old(self).items@.len() as int].added_at == added_at,
    {
        let eligible = self.guide.register(unready_inputs);
        let mut it = ResolutionRecordItem::default();
        it.added_at = added_at;
        self.items.push(it);
        let mut newly: Vec<usize> = Vec::new();
        if eligible {
            newly.push(resolver_ix);
            proof {
                assert forall|i: int|
                    0 <= i < newly@.len() implies !self.queue@.contains(#[trigger] newly@[i]) by {
                    if self.queue@.contains(newly@[i]) {
                        let a = choose|a: int|
                            0 <= a < self.queue@.len() && self.queue@[a] == newly@[i];
                        assert(self.queue@[a] < old(self).items@.len());
                    }
                }
                assert(self.guide.pending@[resolver_ix as int] == 0);
                assert(newly@ =~= seq![resolver_ix]);
            }
            self.enqueue_all(&newly);
            proof {
                let j = old(self).queue@.len() as int;
                assert(self.queue@[j] == resolver_ix);
            }
        } else {
            proof {
                lemma_prefix_reflexive(self.queue@);
                assert(newly@ =~= Seq::<usize>::empty());
                assert(self.queue@ =~= old(self).queue@ + Seq::<usize>::empty());
            }
        }
        newly
    }

    fn flush(&mut self) -> (batch: Vec<usize>)
        ensures
            batch@.len() as int == (if old(self).queue@.len() - old(self).qhead
                < old(self).window.capacity {
                old(self).queue@.len() - old(self).qhead
            } else {
                old(self).window.capacity as int
            }),
            final(self).queue@ == old(self).queue@,
            final(self).guide == old(self).guide,
            final(self).record == old(self).record,
            forall|j: int|
                old(self).qhead <= j < final(self).qhead ==> (#[trigger] final(self).items@[old(
                    self,
                ).queue@[j] as int]).order_ix == j as u64 && final(self).items@[old(
                    self,
                ).queue@[j] as int].parallelism == (final(self).qhead - old(self).qhead) as u16,
            forall|t: int|
                0 <= t < final(self).items@.len() && !old(self).queue@.subrange(
                    old(self).qhead as int,
                    final(self).qhead as int,
                ).contains(t as usize) ==> (#[trigger] final(self).items@[t]) == old(
                    self,
                ).items@[t],
    {
        let ghost q0 = self.qhead;
        while self.window.len() < self.window.capacity && self.qhead < self.queue.len()
            invariant
                self.guide == old(self).guide,
                self.items@.len() == old(self).items@.len(),
                self.values_count == old(self).values_count,
                self.record == old(self).record,
                self.guide.wf(),
                self.items@.len() == self.guide.tasks(),
                q0 <= self.qhead <= self.queue@.len(),
                self.queue == old(self).queue,
                q0 == old(self).qhead,
                forall|i: int|
                    0 <= i < self.queue@.len() ==> (#[trigger] self.queue@[i]) < self.items@.len(),
                forall|i: int, j: int| 0 <= i < j < self.queue@.len() ==> self.queue@[i] != self.queue@[j],
                forall|i: int|
                    0 <= i < self.queue@.len() ==> self.guide.pending@[(#[trigger] self.queue@[i]) as int]
                        == 0,
                self.window.wf(),
                self.window.capacity == old(self).window.capacity,
                self.window.slots@ == self.queue@.subrange(q0 as int, self.qhead as int),
                forall|j: int|
                    q0 <= j < self.qhead ==> (#[trigger] self.items@[self.queue@[j] as int]).order_ix
                        == j as u64,
                forall|j: int|
                    q0 <= j < self.qhead ==> self.items@[self.queue@[j] as int].added_at == old(
                        self,
                    ).items@[self.queue@[j] as int].added_at && self.items@[self.queue@[j] as int].accepted_at
                        == old(self).items@[self.queue@[j] as int].accepted_at
                        && self.items@[self.queue@[j] as int].order_len == old(self).items@[self.queue@[j] as int].order_len,
                forall|t: int|
                    0 <= t < self.items@.len() && !self.queue@.subrange(
                        q0 as int,
                        self.qhead as int,
                    ).contains(t as usize) ==> (#[trigger] self.items@[t]) == old(self).items@[t],
                forall|t: int|
                    0 <= t < self.items@.len() ==> (#[trigger] self.items@[t]).added_at
                        == t as u64,
            decreases self.queue@.len() - self.qhead,
        {
            let ix = self.queue[self.qhead];
            let mut it = self.items[ix];
            it.order_ix = self.qhead as u64;
            self.items.set(ix, it);
            self.window.accept(ix);
            self.qhead += 1;
            proof {
                assert(self.window.slots@ =~= self.queue@.subrange(q0 as int, self.qhead as int));
                assert forall|t: int|
                    0 <= t < self.items@.len() && !self.queue@.subrange(
                        q0 as int,
                        self.qhead as int,
                    ).contains(t as usize) implies (#[trigger] self.items@[t]) == old(
                    self,
                ).items@[t] by {
                    assert(self.queue@.subrange(q0 as int, self.qhead as int)[self.qhead - 1 - q0]
                        == ix);
                    if t == ix {
                        assert(self.queue@.subrange(q0 as int, self.qhead as int).contains(
                            ix as usize,
                        ));
                    } else {
                        assert(!self.queue@.subrange(q0 as int, (self.qhead - 1) as int).contains(
                            t as usize,
                        )) by {
                            if self.queue@.subrange(q0 as int, (self.qhead - 1) as int).contains(
                                t as usize,
                            ) {
                                let a = choose|a: int|
                                    0 <= a < self.qhead - 1 - q0 && #[trigger] self.queue@.subrange(
                                        q0 as int,
                                        (self.qhead - 1) as int,
                                    )[a] == t as usize;
                                assert(self.queue@.subrange(q0 as int, self.qhead as int)[a]
                                    == t as usize);
                            }
                        }
                    }
                }
            }
        }
        let batch = self.window.drain();
        let ghost d1 = self.qhead;
        let par = batch.len() as u16;
        let mut i: usize = 0;
        while i < batch.len()
            invariant
                i <= batch@.len(),
                batch@ == self.queue@.subrange(q0 as int, d1 as int),
                q0 <= d1 <= self.queue@.len(),
                par == batch@.len() as u16,
                batch@.len() == d1 - q0,
                forall|j: int| 0 <= j < batch@.len() ==> (#[trigger] batch@[j]) < self.items@.len(),
                self.items@.len() == old(self).items@.len(),
                self.guide == old(self).guide,
                self.values_count == old(self).values_count,
                self.record == old(self).record,
                self.guide.wf(),
                self.items@.len() == self.guide.tasks(),
                self.queue == old(self).queue,
                self.qhead == d1,
                q0 == old(self).qhead,
                forall|k: int|
                    0 <= k < self.queue@.len() ==> (#[trigger] self.queue@[k]) < self.items@.len(),
                forall|a: int, b: int| 0 <= a < b < self.queue@.len() ==> self.queue@[a] != self.queue@[b],
                forall|k: int|
                    0 <= k < self.queue@.len() ==> self.guide.pending@[(#[trigger] self.queue@[k]) as int]
                        == 0,
                self.window.wf(),
                self.window.slots@.len() == 0,
                self.window.capacity == old(self).window.capacity,
                forall|j: int|
                    q0 <= j < d1 ==> (#[trigger] self.items@[self.queue@[j] as int]).order_ix
                        == j as u64,
                forall|j: int|
                    q0 <= j < d1 ==> self.items@[self.queue@[j] as int].added_at == old(
                        self,
                    ).items@[self.queue@[j] as int].added_at && self.items@[self.queue@[j] as int].accepted_at
                        == old(self).items@[self.queue@[j] as int].accepted_at
                        && self.items@[self.queue@[j] as int].order_len == old(self).items@[self.queue@[j] as int].order_len,
                forall|j: int|
                    q0 <= j < q0 + i ==> self.items@[self.queue@[j] as int].parallelism == par,
                forall|t: int|
                    0 <= t < self.items@.len() && !self.queue@.subrange(q0 as int, d1 as int).contains(
                        t as usize,
                    ) ==> (#[trigger] self.items@[t]) == old(self).items@[t],
                forall|t: int|
                    0 <= t < self.items@.len() ==> (#[trigger] self.items@[t]).added_at
                        == t as u64,
            decreases batch@.len() - i,
        {
            let ix = batch[i];
            proof {
                assert(batch@[i as int] == self.queue@.subrange(q0 as int, d1 as int)[i as int]);
                assert(ix == self.queue@[q0 + i]);
                assert(self.queue@.subrange(q0 as int, d1 as int).contains(ix as usize));
            }
            let mut it = self.items[ix];
            it.parallelism = par;
            self.items.set(ix, it);
            i += 1;
        }
        batch
    }

    fn final_flush(&mut self) -> (r: Result<Vec<usize>, ResolutionError>) {
        Ok(self.flush())
    }

    fn write_sequence(&mut self) {
        let items = copy_items(&self.items);
        let registrations_count = self.items.len();
        let record = ResolutionRecord { items, registrations_count, values_count: self.values_count };
        self.record = Some(record);
    }

    fn retrieve_sequence(&self) -> (r: &ResolutionRecord) {
        match &self.record {
            Some(r) => r,
            None => unreached(),
        }
    }
}

impl RuntimeResolverSorter {
    /// A readiness event's newly-eligible tasks can be enqueued: they are
    /// ascending, their counters have just hit zero, and none is queued yet.
    proof fn lemma_event_enqueue_ok(&self, g0: Guide, key: Place, newly: Seq<usize>)
        requires
            g0.wf(),
            self.guide.wf(),
            self.items@.len() == g0.tasks(),
            self.guide.tasks() == g0.tasks(),
            newly == newly_eligible(g0, key),
            guide_after(g0, key, self.guide),
            forall|i: int| 0 <= i < newly.len() ==> (#[trigger] newly[i]) < self.guide.tasks(),
            forall|i: int, j: int| 0 <= i < j < newly.len() ==> newly[i] < newly[j],
            !g0.ready@[key.idx()] ==> forall|t: int|
                0 <= t < g0.pending@.len() ==> ((#[trigger] newly.contains(t as usize)) <==> (
                g0.pending@[t] > 0 && crate::guide::count_occ(g0.unready_inputs@[t]@, key)
                    >= g0.pending@[t])),
            forall|i: int|
                0 <= i < self.queue@.len() ==> g0.pending@[(#[trigger] self.queue@[i]) as int] == 0,
        ensures
            forall|i: int|
                0 <= i < newly.len() ==> self.guide.pending@[(#[trigger] newly[i]) as int] == 0,
            forall|i: int| 0 <= i < newly.len() ==> !self.queue@.contains(#[trigger] newly[i]),
    {
        assert forall|i: int|
            0 <= i < newly.len() implies self.guide.pending@[(#[trigger] newly[i]) as int]
            == 0 by {
            let t = newly[i] as int;
            assert(t as usize == newly[i]);
            assert(newly.contains(t as usize));
            assert(!g0.ready@[key.idx()]) by {
                if g0.ready@[key.idx()] {
                    assert(newly_eligible(g0, key).len() == 0);
                }
            }
            assert(g0.pending@[t] > 0);
            assert(self.guide.pending@[t] == crate::guide::dec_pending(
                g0.pending@[t],
                crate::guide::count_occ(g0.unready_inputs@[t]@, key),
            ));
        }
        assert forall|i: int| 0 <= i < newly.len() implies !self.queue@.contains(
            #[trigger] newly[i],
        ) by {
            let t = newly[i] as int;
            assert(t as usize == newly[i]);
            assert(newly.contains(t as usize));
            assert(!g0.ready@[key.idx()]) by {
                if g0.ready@[key.idx()] {
                    assert(newly_eligible(g0, key).len() == 0);
                }
            }
            assert(g0.pending@[newly[i] as int] > 0);
            if self.queue@.contains(newly[i]) {
                let a = choose|a: int| 0 <= a < self.queue@.len() && self.queue@[a] == newly[i];
                assert(g0.pending@[(self.queue@[a]) as int] == 0);
            }
        }
    }
}

} // verus!
