//! The guide: per-task pending-input counters plus per-place readiness flags,
//! turning registrations and readiness events into eligibility decisions.
//! Tasks are examined in ascending registration order on every event, which
//! is the FIFO tie-break that makes discover-mode order deterministic.

use vstd::prelude::*;

use crate::place::Place;

verus! {

broadcast use vstd::seq_lib::group_seq_properties;

/// How often `key` occurs in `s`.
pub open spec fn count_occ(s: Seq<Place>, key: Place) -> nat
    decreases s.len(),
{
    if s.len() == 0 {
        0
    } else {
        count_occ(s.drop_last(), key) + if s.last() == key {
            1nat
        } else {
            0nat
        }
    }
}

/// The pending counter after `c` occurrences of a ready Place are honored:
/// it never falls below zero, and reaches zero exactly when every remaining
/// occurrence was of that Place.
pub open spec fn dec_pending(p: usize, c: nat) -> usize {
    if c >= p {
        0
    } else {
        (p - c) as usize
    }
}

/// Whether a readiness event for `key` makes task `t` eligible: it still
/// waits on something, and every remaining occurrence is of `key`.
pub open spec fn becomes_eligible(g: Guide, key: Place, t: int) -> bool {
    g.pending@[t] > 0 && count_occ(g.unready_inputs@[t]@, key) >= g.pending@[t]
}

/// The tasks among the first `n` that a readiness event for `key` makes
/// eligible, in ascending registration order.
pub open spec fn newly_eligible_upto(g: Guide, key: Place, n: int) -> Seq<usize>
    decreases n,
{
    if n <= 0 {
        Seq::empty()
    } else {
        let prefix = newly_eligible_upto(g, key, n - 1);
        if becomes_eligible(g, key, n - 1) {
            prefix.push((n - 1) as usize)
        } else {
            prefix
        }
    }
}

/// The tasks a readiness event for `key` makes eligible, in ascending
/// registration order; nothing, for a key already seen ready.
pub open spec fn newly_eligible(g: Guide, key: Place) -> Seq<usize> {
    if g.ready@[key.idx()] {
        Seq::empty()
    } else {
        newly_eligible_upto(g, key, g.tasks() as int)
    }
}

/// The functional effect of one readiness event on the guide: the key's flag
/// rises, every pending counter drops by the key's remaining occurrences,
/// and nothing else changes.
pub open spec fn guide_after(g0: Guide, key: Place, g1: Guide) -> bool {
    &&& g1.unready_inputs@ == g0.unready_inputs@
    &&& g1.pending@.len() == g0.pending@.len()
    &&& (g0.ready@[key.idx()] ==> g1 == g0)
    &&& (!g0.ready@[key.idx()] ==> g1.ready@ == g0.ready@.update(key.idx(), true))
    &&& (!g0.ready@[key.idx()] ==> forall|t: int|
        0 <= t < g0.pending@.len() ==> (#[trigger] g1.pending@[t]) == dec_pending(
            g0.pending@[t],
            count_occ(g0.unready_inputs@[t]@, key),
        ))
}

/// Counts how often `key` occurs in `row`.
fn count_occurrences(row: &Vec<Place>, key: Place) -> (c: usize)
    ensures
        c == count_occ(row@, key),
        c <= row@.len(),
{
    let mut c: usize = 0;
    let mut j: usize = 0;
    while j < row.len()
        invariant
            j <= row@.len(),
            c <= j,
            c == count_occ(row@.subrange(0, j as int), key),
        decreases row@.len() - j,
    {
        let ghost prefix = row@.subrange(0, j as int);
        if row[j] == key {
            c += 1;
        }
        proof {
            let grown = row@.subrange(0, j + 1);
            assert(grown.drop_last() =~= prefix);
            assert(grown.last() == row@[j as int]);
        }
        j += 1;
    }
    proof {
        assert(row@.subrange(0, row@.len() as int) =~= row@);
    }
    c
}

/// Eligibility bookkeeping of one discover-mode session.
pub struct Guide {
    /// Per place: whether the guide has seen it become ready.
    pub ready: Vec<bool>,
    /// Per task: the input Places not yet ready at registration, one entry
    /// per occurrence.
    pub unready_inputs: Vec<Vec<Place>>,
    /// Per task: how many input occurrences are still unready.
    pub pending: Vec<usize>,
}

impl Guide {
    /// The number of tasks the guide tracks.
    pub open spec fn tasks(&self) -> nat {
        self.pending@.len()
    }

    /// The size of the Place id space.
    pub open spec fn num_variables(&self) -> nat {
        self.ready@.len()
    }

    pub open spec fn wf(&self) -> bool {
        self.pending@.len() == self.unready_inputs@.len()
    }

    /// A guide for a fresh session over `max_variables` Places.
    pub fn new(max_variables: usize) -> (r: Self)
        ensures
            r.wf(),
            r.tasks() == 0,
            r.num_variables() == max_variables,
            forall|p: int| 0 <= p < max_variables ==> !(#[trigger] r.ready@[p]),
    {
        let mut ready: Vec<bool> = Vec::new();
        let mut i: usize = 0;
        while i < max_variables
            invariant
                i <= max_variables,
                ready@.len() == i,
                forall|p: int| 0 <= p < i ==> !(#[trigger] ready@[p]),
            decreases max_variables - i,
        {
            ready.push(false);
            i += 1;
        }
        Guide { ready, unready_inputs: Vec::new(), pending: Vec::new() }
    }

    /// Tracks one more task, whose unready inputs are given; reports whether
    /// it is eligible already.
    pub fn register(&mut self, unready: Vec<Place>) -> (eligible: bool)
        requires
            old(self).wf(),
            old(self).tasks() < usize::MAX,
        ensures
            final(self).wf(),
            final(self).tasks() == old(self).tasks() + 1,
            final(self).num_variables() == old(self).num_variables(),
            eligible == (unready@.len() == 0),
            final(self).pending@ == old(self).pending@.push(unready@.len() as usize),
            final(self).unready_inputs@ == old(self).unready_inputs@.push(unready),
            final(self).ready@ == old(self).ready@,
    {
        let eligible = unready.len() == 0;
        self.pending.push(unready.len());
        self.unready_inputs.push(unready);
        eligible
    }

    /// Notes that `key` became ready. Decrements the pending counter of
    /// every task referencing that Place as an input, once per occurrence,
    /// and returns the indices of the tasks whose counter this drove to
    /// zero, in ascending registration order — the FIFO tie-break that makes
    /// discover-mode order deterministic. A key already seen ready changes
    /// nothing.
    pub fn on_ready(&mut self, key: Place) -> (newly: Vec<usize>)
        requires
            old(self).wf(),
            key.idx() < old(self).num_variables(),
        ensures
            final(self).wf(),
            final(self).tasks() == old(self).tasks(),
            final(self).num_variables() == old(self).num_variables(),
            final(self).unready_inputs@ == old(self).unready_inputs@,
            forall|i: int| 0 <= i < newly@.len() ==> (#[trigger] newly@[i]) < final(self).tasks(),
            forall|i: int, j: int| 0 <= i < j < newly@.len() ==> newly@[i] < newly@[j],
            old(self).ready@[key.idx()] ==> newly@.len() == 0 && *final(self) == *old(self),
            !old(self).ready@[key.idx()] ==> final(self).ready@ == old(self).ready@.update(
                key.idx(),
                true,
            ),
            !old(self).ready@[key.idx()] ==> forall|t: int|
                0 <= t < old(self).pending@.len() ==> (#[trigger] final(self).pending@[t])
                    == dec_pending(
                    old(self).pending@[t],
                    count_occ(old(self).unready_inputs@[t]@, key),
                ),
            !old(self).ready@[key.idx()] ==> forall|t: int|
                0 <= t < old(self).pending@.len() ==> ((#[trigger] newly@.contains(t as usize)) <==> (
                old(self).pending@[t] > 0 && count_occ(old(self).unready_inputs@[t]@, key) >= old(
                    self,
                ).pending@[t])),
            newly@ == newly_eligible(*old(self), key),
            guide_after(*old(self), key, *final(self)),
    {
        let k = key.index();
        let mut newly: Vec<usize> = Vec::new();
        if self.ready[k] {
            return newly;
        }
        self.ready.set(k, true);
        let ghost p0 = self.pending@;
        let mut t: usize = 0;
        while t < self.pending.len()
            invariant
                self.wf(),
                t <= self.pending@.len(),
                self.pending@.len() == p0.len(),
                p0 == old(self).pending@,
                self.unready_inputs@ == old(self).unready_inputs@,
                self.ready@ == old(self).ready@.update(key.idx(), true),
                forall|i: int| 0 <= i < newly@.len() ==> (#[trigger] newly@[i]) < t,
                forall|i: int, j: int| 0 <= i < j < newly@.len() ==> newly@[i] < newly@[j],
                forall|u: int| t <= u < p0.len() ==> (#[trigger] self.pending@[u]) == p0[u],
                forall|u: int|
                    0 <= u < t ==> (#[trigger] self.pending@[u]) == dec_pending(
                        p0[u],
                        count_occ(self.unready_inputs@[u]@, key),
                    ),
                forall|u: int|
                    0 <= u < t ==> ((#[trigger] newly@.contains(u as usize)) <==> (p0[u] > 0
                        && count_occ(self.unready_inputs@[u]@, key) >= p0[u])),
                newly@ == newly_eligible_upto(*old(self), key, t as int),
            decreases self.pending@.len() - t,
        {
            let ghost newly0 = newly@;
            if self.pending[t] > 0 {
                let c = count_occurrences(&self.unready_inputs[t], key);
                let dec = if c > self.pending[t] {
                    self.pending[t]
                } else {
                    c
                };
                if dec > 0 {
                    let rem = self.pending[t] - dec;
                    self.pending.set(t, rem);
                    if rem == 0 {
                        newly.push(t);
                    }
                }
            }
            proof {
                assert forall|u: int|
                    0 <= u < t + 1 implies ((#[trigger] newly@.contains(u as usize)) <==> (p0[u] > 0
                        && count_occ(self.unready_inputs@[u]@, key) >= p0[u])) by {
                    if newly@ == newly0 {
                        assert(!newly0.contains(t as usize));
                    } else {
                        assert(newly@ == newly0.push(t));
                        if u < t {
                            assert(newly0.contains(u as usize) == newly@.contains(u as usize));
                        }
                    }
                }
            }
            t += 1;
        }
        newly
    }
}

} // verus!
