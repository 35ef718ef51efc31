//! The façade: a circuit resolver composing the variable store, the task
//! arena and a sorting strategy. Single-threaded: tasks run inline on the
//! caller's thread when the session is drained, which keeps the realized
//! order exactly the strategy's dispatch order.

use vstd::prelude::*;

use crate::config::CircuitResolverOpts;
use crate::counting::{count_trues, lemma_count_trues_bound, lemma_count_trues_set_true};
use crate::errors::ResolutionError;
use crate::place::Place;
use crate::registrar::{Resolution, ResolverBox};
use crate::sorter::ResolverSortingMode;
use crate::store::{VariableStore, WitnessSource, WitnessSourceAwaitable, StoreAwaiter};

verus! {

/// The closure can be invoked on any input vector.
pub open spec fn closure_total<V, Fx: Fn(Vec<V>) -> Vec<V>>(f: Fx) -> bool {
    forall|x: Vec<V>| call_requires(f, (x,))
}

/// Every Place the task mentions lies inside the id space.
pub open spec fn task_places_ok<Fx>(r: Resolution<Fx>, n: nat) -> bool {
    &&& forall|i: int| 0 <= i < r.inputs@.len() ==> (#[trigger] r.inputs@[i].idx()) < n
    &&& forall|i: int| 0 <= i < r.outputs@.len() ==> (#[trigger] r.outputs@[i].idx()) < n
}

/// Every output Place of the task is claimed.
pub open spec fn task_outputs_claimed<Fx>(r: Resolution<Fx>, claimed: Seq<bool>) -> bool {
    forall|i: int| 0 <= i < r.outputs@.len() ==> claimed[(#[trigger] r.outputs@[i]).idx()]
}

/// The task's declared outputs are pairwise distinct.
pub open spec fn task_outputs_distinct<Fx>(r: Resolution<Fx>) -> bool {
    forall|i: int, j: int| 0 <= i < j < r.outputs@.len() ==> r.outputs@[i] != r.outputs@[j]
}

/// Two tasks claim no output Place in common.
pub open spec fn tasks_outputs_disjoint<Fx>(a: Resolution<Fx>, b: Resolution<Fx>) -> bool {
    forall|i: int, j: int|
        0 <= i < a.outputs@.len() && 0 <= j < b.outputs@.len() ==> a.outputs@[i] != b.outputs@[j]
}

/// None of the task's declared outputs has been written yet.
pub open spec fn task_outputs_unset<V, Fx>(r: Resolution<Fx>, cells: Seq<Option<V>>) -> bool {
    forall|i: int| 0 <= i < r.outputs@.len() ==> cells[(#[trigger] r.outputs@[i]).idx()] is None
}

/// The single-writer, run-exactly-once guarantee for one finished task: the
/// store holds input values and output values such that the outputs are a
/// possible result of the task's closure applied to the inputs.
pub open spec fn task_honored<V, Fx: Fn(Vec<V>) -> Vec<V>>(
    r: Resolution<Fx>,
    cells: Seq<Option<V>>,
) -> bool {
    exists|ins: Vec<V>, outs: Vec<V>|
        {
            &&& #[trigger] call_ensures(r.resolve_fn, (ins,), outs)
            &&& ins@.len() == r.inputs@.len()
            &&& outs@.len() == r.outputs@.len()
            &&& forall|k: int| 0 <= k < r.inputs@.len() ==> cells[(#[trigger] r.inputs@[k]).idx()] == Some(ins@[k])
            &&& forall|k: int|
                0 <= k < r.outputs@.len() ==> cells[(#[trigger] r.outputs@[k]).idx()] == Some(outs@[k])
        }
}

/// A finished task stays honored when the store only gains values.
pub proof fn lemma_honored_extends<V, Fx: Fn(Vec<V>) -> Vec<V>>(
    r: Resolution<Fx>,
    a: Seq<Option<V>>,
    b: Seq<Option<V>>,
    n: nat,
)
    requires
        task_honored(r, a),
        task_places_ok(r, n),
        a.len() == n,
        b.len() == n,
        forall|i: int| 0 <= i < a.len() && a[i] is Some ==> #[trigger] b[i] == a[i],
    ensures
        task_honored(r, b),
{
    let (ins, outs) = choose|ins: Vec<V>, outs: Vec<V>|
        {
            &&& #[trigger] call_ensures(r.resolve_fn, (ins,), outs)
            &&& ins@.len() == r.inputs@.len()
            &&& outs@.len() == r.outputs@.len()
            &&& forall|k: int| 0 <= k < r.inputs@.len() ==> a[(#[trigger] r.inputs@[k]).idx()] == Some(ins@[k])
            &&& forall|k: int|
                0 <= k < r.outputs@.len() ==> a[(#[trigger] r.outputs@[k]).idx()] == Some(outs@[k])
        };
    assert forall|k: int| 0 <= k < r.inputs@.len() implies b[(#[trigger] r.inputs@[k]).idx()] == Some(
        ins@[k],
    ) by {
        assert(a[r.inputs@[k].idx()] == Some(ins@[k]));
    }
    assert forall|k: int| 0 <= k < r.outputs@.len() implies b[(#[trigger] r.outputs@[k]).idx()]
        == Some(outs@[k]) by {
        assert(a[r.outputs@[k].idx()] == Some(outs@[k]));
    }
    assert(task_honored(r, b));
}

/// Some prefix entry of `outs` is already claimed, or repeats an earlier
/// entry: the condition under which a registration is a duplicate output.
pub open spec fn dup_in_prefix(claimed: Seq<bool>, outs: Seq<Place>, n: int) -> bool {
    exists|a: int|
        0 <= a < n && (claimed[(#[trigger] outs[a]).idx()] || exists|b: int|
            0 <= b < a && outs[b] == outs[a])
}

/// Copies a list of Places.
fn copy_places(src: &Vec<Place>) -> (r: Vec<Place>)
    ensures
        r@ == src@,
{
    let mut r: Vec<Place> = Vec::new();
    let mut i: usize = 0;
    while i < src.len()
        invariant
            i <= src@.len(),
            r@ == src@.subrange(0, i as int),
        decreases src@.len() - i,
    {
        r.push(src[i]);
        proof {
            assert(r@ =~= src@.subrange(0, i + 1));
        }
        i += 1;
    }
    proof {
        assert(src@.subrange(0, src@.len() as int) =~= src@);
    }
    r
}

/// The single-threaded circuit resolver, generic over the sorting strategy.
pub struct StCircuitResolver<V, Fx, S> {
    pub store: VariableStore<V>,
    pub rbox: ResolverBox<Fx>,
    /// Per Place: already written directly or claimed as a task output.
    pub claimed: Vec<bool>,
    /// Per task: whether its outputs were delivered.
    pub done: Vec<bool>,
    pub sorter: S,
}

impl<V: Copy, Fx: Fn(Vec<V>) -> Vec<V>, S: ResolverSortingMode> StCircuitResolver<V, Fx, S> {
    /// The session invariant.
    pub open spec fn wf(&self) -> bool {
        &&& self.sorter.wf()
        &&& self.claimed@.len() == self.store.cells@.len()
        &&& self.sorter.num_variables() == self.store.cells@.len()
        &&& self.done@.len() == self.rbox.resolutions@.len()
        &&& self.sorter.registered() == self.rbox.resolutions@.len()
        &&& self.sorter.values_seen() <= count_trues(self.claimed@)
        &&& forall|t: int|
            0 <= t < self.rbox.resolutions@.len() ==> task_places_ok(
                #[trigger] self.rbox.resolutions@[t],
                self.store.cells@.len(),
            )
        &&& forall|t: int|
            0 <= t < self.rbox.resolutions@.len() ==> task_outputs_claimed(
                #[trigger] self.rbox.resolutions@[t],
                self.claimed@,
            )
        &&& forall|t: int|
            0 <= t < self.rbox.resolutions@.len() ==> closure_total::<V, Fx>(
                (#[trigger] self.rbox.resolutions@[t]).resolve_fn,
            )
        &&& forall|t: int|
            0 <= t < self.done@.len() && self.done@[t] ==> task_honored(
                #[trigger] self.rbox.resolutions@[t],
                self.store.cells@,
            )
        &&& forall|i: int|
            0 <= i < self.store.cells@.len() && self.store.cells@[i] is Some
                ==> #[trigger] self.claimed@[i]
        &&& forall|t: int|
            0 <= t < self.rbox.resolutions@.len() ==> task_outputs_distinct(
                #[trigger] self.rbox.resolutions@[t],
            )
        &&& forall|t1: int, t2: int|
            0 <= t1 < t2 < self.rbox.resolutions@.len() ==> #[trigger] tasks_outputs_disjoint(
                self.rbox.resolutions@[t1],
                self.rbox.resolutions@[t2],
            )
        &&& forall|t: int|
            0 <= t < self.done@.len() && !self.done@[t] ==> task_outputs_unset(
                #[trigger] self.rbox.resolutions@[t],
                self.store.cells@,
            )
    }

    /// Every registered task has delivered its outputs.
    pub open spec fn resolved(&self) -> bool {
        forall|t: int| 0 <= t < self.done@.len() ==> #[trigger] self.done@[t]
    }

    /// Executes one not-yet-finished task: reads its inputs, runs its
    /// closure, publishes the outputs, and feeds completion back to the
    /// strategy.
    fn run_task(&mut self, ix: usize) -> (r: Result<(), ResolutionError>)
        requires
            old(self).wf(),
            ix < old(self).done@.len(),
            !old(self).done@[ix as int],
        ensures
            final(self).wf(),
            final(self).store.cells@.len() == old(self).store.cells@.len(),
            final(self).store.extends(&old(self).store),
            final(self).rbox == old(self).rbox,
            final(self).claimed@ == old(self).claimed@,
            final(self).sorter.registered() == old(self).sorter.registered(),
            final(self).sorter.values_seen() == old(self).sorter.values_seen(),
            final(self).sorter.num_variables() == old(self).sorter.num_variables(),
            final(self).sorter.capacity() == old(self).sorter.capacity(),
            r is Ok ==> final(self).done@ == old(self).done@.update(ix as int, true),
            r is Err ==> final(self).done@ == old(self).done@,
            final(self).sorter.replayable() == old(self).sorter.replayable(),
            r is Err ==> (r == Err::<(), ResolutionError>(ResolutionError::UnresolvedDependency)
                || r == Err::<(), ResolutionError>(ResolutionError::ClosureFailed)),
            (r == Err::<(), ResolutionError>(ResolutionError::UnresolvedDependency)) <==> (exists|k: int|
                0 <= k < old(self).rbox.resolutions@[ix as int].inputs@.len()
                    && old(self).store.cells@[(#[trigger] old(self).rbox.resolutions@[ix as int].inputs@[k]).idx()] is None),
            r == Err::<(), ResolutionError>(ResolutionError::ClosureFailed) ==> (exists|
                insx: Vec<V>,
                outsx: Vec<V>,
            |
                #[trigger] call_ensures(old(self).rbox.resolutions@[ix as int].resolve_fn, (insx,), outsx)
                    && outsx@.len() != old(self).rbox.resolutions@[ix as int].outputs@.len()),
    {
        let n_inputs = self.rbox.resolutions[ix].inputs.len();
        let mut ins: Vec<V> = Vec::new();
        let mut k: usize = 0;
        while k < n_inputs
            invariant
                *self == *old(self),
                k <= n_inputs,
                n_inputs == self.rbox.resolutions@[ix as int].inputs@.len(),
                ins@.len() == k,
                forall|j: int|
                    0 <= j < k ==> self.store.cells@[(#[trigger] self.rbox.resolutions@[ix as int].inputs@[j]).idx()] == Some(ins@[j]),
            decreases n_inputs - k,
        {
            let p = self.rbox.resolutions[ix].inputs[k];
            match self.store.try_get_value(p) {
                Some(v) => {
                    ins.push(v);
                },
                None => {
                    proof {
                        assert(old(self).store.cells@[(old(self).rbox.resolutions@[ix as int].inputs@[k as int]).idx()] is None);
                    }
                    return Err(ResolutionError::UnresolvedDependency);
                },
            }
            k += 1;
        }
        proof {
            assert forall|k2: int|
                0 <= k2 < old(self).rbox.resolutions@[ix as int].inputs@.len() implies old(
                self,
            ).store.cells@[(#[trigger] old(self).rbox.resolutions@[ix as int].inputs@[k2]).idx()]
                is Some by {
                assert(self.store.cells@[self.rbox.resolutions@[ix as int].inputs@[k2].idx()]
                    == Some(ins@[k2]));
            }
        }
        let ghost ins_snapshot = ins;
        let outs = (self.rbox.resolutions[ix].resolve_fn)(ins);
        let n_outputs = self.rbox.resolutions[ix].outputs.len();
        if outs.len() != n_outputs {
            proof {
                assert(call_ensures(
                    old(self).rbox.resolutions@[ix as int].resolve_fn,
                    (ins_snapshot,),
                    outs,
                ));
            }
            return Err(ResolutionError::ClosureFailed);
        }
        let ghost pre = *self;
        k = 0;
        while k < n_outputs
            invariant
                self.sorter.wf(),
                self.claimed@.len() == self.store.cells@.len(),
                self.sorter.num_variables() == self.store.cells@.len(),
                self.done@.len() == self.rbox.resolutions@.len(),
                self.sorter.registered() == self.rbox.resolutions@.len(),
                self.sorter.values_seen() <= count_trues(self.claimed@),
                forall|t: int|
                    0 <= t < self.rbox.resolutions@.len() ==> task_places_ok(
                        #[trigger] self.rbox.resolutions@[t],
                        self.store.cells@.len(),
                    ),
                forall|t: int|
                    0 <= t < self.rbox.resolutions@.len() ==> task_outputs_claimed(
                        #[trigger] self.rbox.resolutions@[t],
                        self.claimed@,
                    ),
                forall|t: int|
                    0 <= t < self.rbox.resolutions@.len() ==> closure_total::<V, Fx>(
                        (#[trigger] self.rbox.resolutions@[t]).resolve_fn,
                    ),
                forall|t: int|
                    0 <= t < self.done@.len() && self.done@[t] ==> task_honored(
                        #[trigger] self.rbox.resolutions@[t],
                        self.store.cells@,
                    ),
                forall|i: int|
                    0 <= i < self.store.cells@.len() && self.store.cells@[i] is Some
                        ==> #[trigger] self.claimed@[i],
                forall|t: int|
                    0 <= t < self.rbox.resolutions@.len() ==> task_outputs_distinct(
                        #[trigger] self.rbox.resolutions@[t],
                    ),
                forall|t1: int, t2: int|
                    0 <= t1 < t2 < self.rbox.resolutions@.len() ==> #[trigger] tasks_outputs_disjoint(
                        self.rbox.resolutions@[t1],
                        self.rbox.resolutions@[t2],
                    ),
                forall|t: int|
                    0 <= t < self.done@.len() && !self.done@[t] && t != ix ==> task_outputs_unset(
                        #[trigger] self.rbox.resolutions@[t],
                        self.store.cells@,
                    ),
                forall|j: int|
                    k <= j < n_outputs ==> self.store.cells@[(#[trigger] self.rbox.resolutions@[ix as int].outputs@[j]).idx()] is None,
                k <= n_outputs,
                self.rbox == pre.rbox,
                self.claimed@ == pre.claimed@,
                self.done@ == pre.done@,
                self.store.cells@.len() == pre.store.cells@.len(),
                self.store.extends(&pre.store),
                self.sorter.registered() == pre.sorter.registered(),
                self.sorter.values_seen() == pre.sorter.values_seen(),
                self.sorter.num_variables() == pre.sorter.num_variables(),
                self.sorter.capacity() == pre.sorter.capacity(),
                self.sorter.replayable() == pre.sorter.replayable(),
                n_outputs == self.rbox.resolutions@[ix as int].outputs@.len(),
                n_outputs == outs@.len(),
                forall|j: int|
                    0 <= j < k ==> self.store.cells@[(#[trigger] self.rbox.resolutions@[ix as int].outputs@[j]).idx()] == Some(outs@[j]),
                forall|j: int|
                    0 <= j < ins_snapshot@.len() ==> self.store.cells@[(#[trigger] self.rbox.resolutions@[ix as int].inputs@[j]).idx()] == Some(ins_snapshot@[j]),
            decreases n_outputs - k,
        {
            let q = self.rbox.resolutions[ix].outputs[k];
            proof {
                // The task has yet to deliver, so its outputs are unset and
                // the write cannot conflict with an earlier writer.
                assert(self.store.cells@[q.idx()] is None);
            }
            let ghost before = *self;
            self.store.set_cell(q, outs[k]);
            proof {
                assert(task_outputs_claimed(self.rbox.resolutions@[ix as int], self.claimed@));
                assert(self.claimed@[q.idx()]);
                assert forall|t: int|
                    0 <= t < self.done@.len() && self.done@[t] implies task_honored(
                    #[trigger] self.rbox.resolutions@[t],
                    self.store.cells@,
                ) by {
                    lemma_honored_extends(
                        self.rbox.resolutions@[t],
                        before.store.cells@,
                        self.store.cells@,
                        self.store.cells@.len(),
                    );
                }
                let me = self.rbox.resolutions@[ix as int];
                assert forall|t: int|
                    0 <= t < self.done@.len() && !self.done@[t] && t != ix implies task_outputs_unset(
                    #[trigger] self.rbox.resolutions@[t],
                    self.store.cells@,
                ) by {
                    let other = self.rbox.resolutions@[t];
                    assert(task_outputs_unset(other, before.store.cells@));
                    assert forall|i: int|
                        0 <= i < other.outputs@.len() implies self.store.cells@[(
                    #[trigger] other.outputs@[i]).idx()] is None by {
                        if t < ix {
                            assert(tasks_outputs_disjoint(other, me));
                        } else {
                            assert(tasks_outputs_disjoint(me, other));
                        }
                        assert(other.outputs@[i] != me.outputs@[k as int]);
                        assert(before.store.cells@[other.outputs@[i].idx()] is None);
                    }
                }
                assert forall|j: int|
                    k + 1 <= j < n_outputs implies self.store.cells@[(
                #[trigger] me.outputs@[j]).idx()] is None by {
                    assert(task_outputs_distinct(me));
                    assert(me.outputs@[k as int] != me.outputs@[j]);
                    assert(before.store.cells@[me.outputs@[j].idx()] is None);
                }
            }
            self.sorter.mark_ready(q);
            k += 1;
        }
        self.done.set(ix, true);
        proof {
            let r = self.rbox.resolutions@[ix as int];
            assert(call_ensures(r.resolve_fn, (ins_snapshot,), outs));
            assert(task_honored(r, self.store.cells@));
            assert forall|t: int|
                0 <= t < self.done@.len() && self.done@[t] implies task_honored(
                #[trigger] self.rbox.resolutions@[t],
                self.store.cells@,
            ) by {
                if t != ix {
                    assert(pre.done@[t]);
                }
            }
        }
        Ok(())
    }
}


/// The public entry point of the engine: value supply, task registration,
/// finalization and reset, over a witness source.
pub trait CircuitResolver<V: Copy, Fx: Fn(Vec<V>) -> Vec<V>>: WitnessSource<V> + Sized {
    /// What a resolver session is constructed from.
    type Arg;

    /// The session invariant.
    spec fn cr_wf(&self) -> bool;

    /// Whether the Place already has a writer: a direct assignment or a task
    /// claiming it as output.
    spec fn claimed_at(&self, key: Place) -> bool;

    /// The number of registered tasks.
    spec fn tasks_registered(&self) -> nat;

    /// Every registered task has delivered its outputs.
    spec fn all_resolved(&self) -> bool;

    /// Whether the construction argument is self-consistent.
    spec fn arg_wf(args: &Self::Arg) -> bool;

    /// The Place id space the argument asks for.
    spec fn arg_space(args: &Self::Arg) -> nat;

    /// The declared input Places of registered task `t`.
    spec fn task_inputs(&self, t: int) -> Seq<Place>;

    /// The declared output Places of registered task `t`.
    spec fn task_outputs(&self, t: int) -> Seq<Place>;

    /// The closure of registered task `t`.
    spec fn task_fn(&self, t: int) -> Fx;

    /// Task `t` has delivered: the resolver holds input and output values
    /// for it such that the outputs are a possible result of its closure
    /// applied to those inputs.
    spec fn honors(&self, t: int) -> bool;

    /// Whether finalization can proceed as far as record replay is
    /// concerned: always, for a discover session; for a playback session,
    /// exactly when the record's shape counters agree with the live session.
    spec fn replay_consistent(&self) -> bool;

    /// A fresh session: nothing set, nothing claimed, nothing registered.
    fn new(args: Self::Arg) -> (r: Self)
        requires
            Self::arg_wf(&args),
        ensures
            r.cr_wf(),
            r.tasks_registered() == 0,
            r.num_variables() == Self::arg_space(&args),
            forall|p: Place| p.idx() < r.num_variables() ==> (#[trigger] r.val(p)) is None,
            forall|p: Place| p.idx() < r.num_variables() ==> !(#[trigger] r.claimed_at(p)),
    ;

    /// Direct assignment. Succeeds exactly when the Place has no writer yet;
    /// a second write to the same Place is rejected before anything runs.
    fn set_value(&mut self, key: Place, value: V) -> (r: Result<(), ResolutionError>)
        requires
            old(self).cr_wf(),
            key.idx() < old(self).num_variables(),
        ensures
            final(self).cr_wf(),
            final(self).num_variables() == old(self).num_variables(),
            final(self).tasks_registered() == old(self).tasks_registered(),
            r is Ok <==> !old(self).claimed_at(key),
            r is Err ==> r == Err::<(), ResolutionError>(ResolutionError::DuplicateAssignment)
                && *final(self) == *old(self),
            r is Ok ==> final(self).val(key) == Some(value) && final(self).claimed_at(key),
            forall|p: Place|
                p.idx() < old(self).num_variables() && p != key ==> (#[trigger] final(self).claimed_at(p)) == old(self).claimed_at(p),
            forall|p: Place|
                p.idx() < old(self).num_variables() && old(self).claimed_at(p) ==> (
                #[trigger] final(self).claimed_at(p)),
            forall|p: Place|
                p.idx() < old(self).num_variables() && old(self).val(p) is Some ==> (
                #[trigger] final(self).val(p)) == old(self).val(p),
            forall|t: int|
                0 <= t < old(self).tasks_registered() ==> (#[trigger] final(self).task_inputs(t))
                    == old(self).task_inputs(t) && final(self).task_outputs(t) == old(
                    self,
                ).task_outputs(t) && final(self).task_fn(t) == old(self).task_fn(t),
    ;

    /// Non-blocking registration. Succeeds exactly when no declared output
    /// already has a writer and the declared outputs are pairwise distinct;
    /// overlapping outputs are rejected before any task executes. No value
    /// becomes visible here: outputs appear only once the closure runs.
    fn add_resolution(&mut self, inputs: &Vec<Place>, outputs: &Vec<Place>, f: Fx) -> (r: Result<
        (),
        ResolutionError,
    >)
        requires
            old(self).cr_wf(),
            forall|i: int|
                0 <= i < inputs@.len() ==> (#[trigger] inputs@[i].idx()) < old(self).num_variables(),
            forall|i: int|
                0 <= i < outputs@.len() ==> (#[trigger] outputs@[i].idx()) < old(self).num_variables(),
            forall|x: Vec<V>| call_requires(f, (x,)),
        ensures
            final(self).cr_wf(),
            final(self).num_variables() == old(self).num_variables(),
            r is Ok <==> ((forall|a: int|
                0 <= a < outputs@.len() ==> !old(self).claimed_at(#[trigger] outputs@[a])) && (
            forall|a: int, b: int| 0 <= b < a < outputs@.len() ==> outputs@[a] != outputs@[b])),
            r is Err ==> r == Err::<(), ResolutionError>(ResolutionError::DuplicateOutput) && *final(self) == *old(self),
            r is Ok ==> final(self).tasks_registered() == old(self).tasks_registered() + 1,
            r is Ok ==> final(self).task_inputs(old(self).tasks_registered() as int) == inputs@
                && final(self).task_outputs(old(self).tasks_registered() as int) == outputs@
                && final(self).task_fn(old(self).tasks_registered() as int) == f,
            forall|t: int|
                0 <= t < old(self).tasks_registered() ==> (#[trigger] final(self).task_inputs(t))
                    == old(self).task_inputs(t) && final(self).task_outputs(t) == old(
                    self,
                ).task_outputs(t) && final(self).task_fn(t) == old(self).task_fn(t),
            r is Ok ==> forall|a: int|
                0 <= a < outputs@.len() ==> final(self).claimed_at(#[trigger] outputs@[a]),
            forall|p: Place|
                p.idx() < old(self).num_variables() && (#[trigger] final(self).claimed_at(p))
                    != old(self).claimed_at(p) ==> exists|a: int|
                    0 <= a < outputs@.len() && outputs@[a] == p,
            forall|p: Place|
                p.idx() < old(self).num_variables() ==> (#[trigger] final(self).val(p)) == old(self).val(p),
            forall|p: Place|
                p.idx() < old(self).num_variables() && old(self).claimed_at(p) ==> (
                #[trigger] final(self).claimed_at(p)),
    ;

    /// Drains the window until every registered task has run, or reports why
    /// it cannot: a required input that never arrived, a record that does
    /// not match the session, or a closure that failed.
    fn wait_till_resolved(&mut self) -> (r: Result<(), ResolutionError>)
        requires
            old(self).cr_wf(),
        ensures
            final(self).cr_wf(),
            final(self).num_variables() == old(self).num_variables(),
            final(self).tasks_registered() == old(self).tasks_registered(),
            r is Ok ==> final(self).all_resolved(),
            r is Err ==> (r == Err::<(), ResolutionError>(ResolutionError::UnresolvedDependency)
                || r == Err::<(), ResolutionError>(ResolutionError::RecordMismatch)
                || r == Err::<(), ResolutionError>(ResolutionError::ClosureFailed)),
            r == Err::<(), ResolutionError>(ResolutionError::RecordMismatch) ==> !old(self).replay_consistent(),
            r == Err::<(), ResolutionError>(ResolutionError::UnresolvedDependency) ==> !final(self).all_resolved(),
            r == Err::<(), ResolutionError>(ResolutionError::ClosureFailed) ==> !final(self).all_resolved(),
            r == Err::<(), ResolutionError>(ResolutionError::ClosureFailed) ==> (exists|
                t: int,
                insx: Vec<V>,
                outsx: Vec<V>,
            |
                0 <= t < final(self).tasks_registered() && #[trigger] call_ensures(
                    final(self).task_fn(t),
                    (insx,),
                    outsx,
                ) && outsx@.len() != final(self).task_outputs(t).len()),
            forall|p: Place|
                p.idx() < old(self).num_variables() && old(self).val(p) is Some ==> (
                #[trigger] final(self).val(p)) == old(self).val(p),
            forall|p: Place|
                p.idx() < old(self).num_variables() ==> (#[trigger] final(self).claimed_at(p))
                    == old(self).claimed_at(p),
            forall|t: int|
                0 <= t < old(self).tasks_registered() ==> (#[trigger] final(self).task_inputs(t))
                    == old(self).task_inputs(t) && final(self).task_outputs(t) == old(
                    self,
                ).task_outputs(t) && final(self).task_fn(t) == old(self).task_fn(t),
            r is Ok ==> (forall|t: int|
                0 <= t < final(self).tasks_registered() ==> #[trigger] final(self).honors(t)),
    ;

    /// Destructive reset for reuse.
    fn clear(&mut self, args: Self::Arg)
        requires
            Self::arg_wf(&args),
        ensures
            final(self).cr_wf(),
            final(self).tasks_registered() == 0,
            final(self).num_variables() == Self::arg_space(&args),
            forall|p: Place|
                p.idx() < final(self).num_variables() ==> (#[trigger] final(self).val(p)) is None,
            forall|p: Place|
                p.idx() < final(self).num_variables() ==> !(#[trigger] final(self).claimed_at(p)),
    ;
}


impl<V: Copy, Fx: Fn(Vec<V>) -> Vec<V>, S: ResolverSortingMode> WitnessSource<V> for StCircuitResolver<
    V,
    Fx,
    S,
> {
    open spec fn num_variables(&self) -> nat {
        self.store.cells@.len()
    }

    open spec fn val(&self, variable: Place) -> Option<V> {
        self.store.cells@[variable.idx()]
    }

    fn try_get_value(&self, variable: Place) -> (r: Option<V>) {
        self.store.try_get_value(variable)
    }

    fn get_value_unchecked(&self, variable: Place) -> (r: V) {
        self.store.get_value_unchecked(variable)
    }
}

impl<V: Copy, Fx: Fn(Vec<V>) -> Vec<V>, S: ResolverSortingMode> WitnessSourceAwaitable<
    V,
> for StCircuitResolver<V, Fx, S> {
    type Awaiter = StoreAwaiter;

    fn get_awaiter(&self, vars: Vec<Place>) -> (r: StoreAwaiter) {
        let r = self.store.get_awaiter(vars);
        proof {
            if forall|i: int| 0 <= i < vars@.len() ==> (#[trigger] self.store.val(vars@[i])) is Some {
                assert forall|i: int| 0 <= i < vars@.len() implies (#[trigger] self.val(vars@[i])) is Some by {
                    assert(self.store.val(vars@[i]) is Some);
                }
            } else {
                let i = choose|i: int|
                    0 <= i < vars@.len() && !((#[trigger] self.store.val(vars@[i])) is Some);
                assert(!(self.val(vars@[i]) is Some));
            }
        }
        r
    }
}

impl<V: Copy, Fx: Fn(Vec<V>) -> Vec<V>, S: ResolverSortingMode> CircuitResolver<
    V,
    Fx,
> for StCircuitResolver<V, Fx, S> {
    type Arg = (CircuitResolverOpts, S::Arg);

    open spec fn cr_wf(&self) -> bool {
        self.wf()
    }

    open spec fn claimed_at(&self, key: Place) -> bool {
        self.claimed@[key.idx()]
    }

    open spec fn tasks_registered(&self) -> nat {
        self.rbox.resolutions@.len()
    }

    open spec fn all_resolved(&self) -> bool {
        self.resolved()
    }

    open spec fn arg_wf(args: &(CircuitResolverOpts, S::Arg)) -> bool {
        S::arg_num_variables(&args.1) == args.0.max_variables
    }

    open spec fn arg_space(args: &(CircuitResolverOpts, S::Arg)) -> nat {
        args.0.max_variables as nat
    }

    open spec fn task_inputs(&self, t: int) -> Seq<Place> {
        self.rbox.resolutions@[t].inputs@
    }

    open spec fn task_outputs(&self, t: int) -> Seq<Place> {
        self.rbox.resolutions@[t].outputs@
    }

    open spec fn task_fn(&self, t: int) -> Fx {
        self.rbox.resolutions@[t].resolve_fn
    }

    open spec fn honors(&self, t: int) -> bool {
        task_honored(self.rbox.resolutions@[t], self.store.cells@)
    }

    open spec fn replay_consistent(&self) -> bool {
        self.sorter.replayable()
    }

    fn new(args: (CircuitResolverOpts, S::Arg)) -> (r: Self) {
        let (opts, sarg) = args;
        let store = VariableStore::new(opts.max_variables);
        let mut claimed: Vec<bool> = Vec::new();
        let mut i: usize = 0;
        while i < opts.max_variables
            invariant
                i <= opts.max_variables,
                claimed@.len() == i,
                forall|j: int| 0 <= j < i ==> !(#[trigger] claimed@[j]),
            decreases opts.max_variables - i,
        {
            claimed.push(false);
            i += 1;
        }
        let sorter = S::new(sarg);
        StCircuitResolver { store, rbox: ResolverBox::new(), claimed, done: Vec::new(), sorter }
    }

    fn set_value(&mut self, key: Place, value: V) -> (r: Result<(), ResolutionError>) {
        let k = key.index();
        if self.claimed[k] {
            return Err(ResolutionError::DuplicateAssignment);
        }
        let nv = self.claimed.len();
        proof {
            lemma_count_trues_set_true(self.claimed@, k as int);
            lemma_count_trues_bound(self.claimed@.update(k as int, true));
        }
        self.claimed.set(k, true);
        let ghost mid = *self;
        self.store.set_cell(key, value);
        proof {
            assert forall|t: int|
                0 <= t < self.done@.len() && self.done@[t] implies task_honored(
                #[trigger] self.rbox.resolutions@[t],
                self.store.cells@,
            ) by {
                lemma_honored_extends(
                    self.rbox.resolutions@[t],
                    mid.store.cells@,
                    self.store.cells@,
                    self.store.cells@.len(),
                );
            }
            assert forall|t: int|
                0 <= t < self.rbox.resolutions@.len() implies task_outputs_claimed(
                #[trigger] self.rbox.resolutions@[t],
                self.claimed@,
            ) by {
                assert(task_outputs_claimed(self.rbox.resolutions@[t], old(self).claimed@));
                assert forall|ii: int|
                    0 <= ii < self.rbox.resolutions@[t].outputs@.len() implies self.claimed@[(
                #[trigger] self.rbox.resolutions@[t].outputs@[ii]).idx()] by {
                    assert(old(self).claimed@[self.rbox.resolutions@[t].outputs@[ii].idx()]);
                }
            }
        }
        self.sorter.set_value(key);
        Ok(())
    }

    fn add_resolution(&mut self, inputs: &Vec<Place>, outputs: &Vec<Place>, f: Fx) -> (r: Result<
        (),
        ResolutionError,
    >) {
        let n_out = outputs.len();
        let mut dup = false;
        let mut i: usize = 0;
        while i < n_out
            invariant
                i <= n_out,
                dup == dup_in_prefix(self.claimed@, outputs@, i as int),
                *self == *old(self),
            decreases n_out - i,
        {
            let hit = self.claimed[outputs[i].index()];
            let mut pairdup = false;
            let mut j: usize = 0;
            while j < i
                invariant
                    j <= i,
                    i < n_out,
                    pairdup == (exists|b: int| 0 <= b < j && outputs@[b] == outputs@[i as int]),
                    *self == *old(self),
                decreases i - j,
            {
                if outputs[j] == outputs[i] {
                    pairdup = true;
                }
                j += 1;
            }
            proof {
                if hit || pairdup {
                    assert(0 <= i < i + 1 && (self.claimed@[outputs@[i as int].idx()] || exists|
                        b: int,
                    | 0 <= b < i && outputs@[b] == outputs@[i as int]));
                    assert(dup_in_prefix(self.claimed@, outputs@, i + 1));
                } else {
                    if dup_in_prefix(self.claimed@, outputs@, i + 1) {
                        let a = choose|a: int|
                            0 <= a < i + 1 && (self.claimed@[(#[trigger] outputs@[a]).idx()]
                                || exists|b: int| 0 <= b < a && outputs@[b] == outputs@[a]);
                        if a == i {
                            assert(false);
                        } else {
                            assert(dup_in_prefix(self.claimed@, outputs@, i as int));
                        }
                    }
                }
            }
            if hit || pairdup {
                dup = true;
            }
            i += 1;
        }
        proof {
            let c = self.claimed@;
            let o = outputs@;
            if dup {
                let a = choose|a: int|
                    0 <= a < o.len() && (c[(#[trigger] o[a]).idx()] || exists|b: int|
                        0 <= b < a && o[b] == o[a]);
                assert(!((forall|a2: int|
                    0 <= a2 < o.len() ==> !c[(#[trigger] o[a2]).idx()]) && (forall|a2: int, b2: int|
                    0 <= b2 < a2 < o.len() ==> o[a2] != o[b2])));
            } else {
                assert forall|a: int| 0 <= a < o.len() implies !c[(#[trigger] o[a]).idx()] by {
                    if c[o[a].idx()] {
                        assert(dup_in_prefix(c, o, o.len() as int));
                    }
                }
                assert forall|a: int, b: int| 0 <= b < a < o.len() implies o[a] != o[b] by {
                    if o[a] == o[b] {
                        assert(0 <= a < o.len() && (c[o[a].idx()] || exists|b2: int|
                            0 <= b2 < a && o[b2] == o[a]));
                        assert(dup_in_prefix(c, o, o.len() as int));
                    }
                }
            }
        }
        if dup {
            return Err(ResolutionError::DuplicateOutput);
        }
        let ghost claimed0 = self.claimed@;
        i = 0;
        while i < n_out
            invariant
                i <= n_out,
                self.claimed@.len() == claimed0.len(),
                count_trues(claimed0) <= count_trues(self.claimed@),
                forall|p: int| 0 <= p < claimed0.len() && claimed0[p] ==> #[trigger] self.claimed@[p],
                forall|a: int| 0 <= a < i ==> self.claimed@[(#[trigger] outputs@[a]).idx()],
                forall|q: int|
                    0 <= q < claimed0.len() && (#[trigger] self.claimed@[q]) != claimed0[q]
                        ==> exists|a: int| 0 <= a < i && (#[trigger] outputs@[a]).idx() == q,
                self.store == old(self).store,
                self.rbox == old(self).rbox,
                self.done@ == old(self).done@,
                self.sorter == old(self).sorter,
            decreases n_out - i,
        {
            let kx = outputs[i].index();
            proof {
                lemma_count_trues_set_true(self.claimed@, kx as int);
            }
            let ghost cprev = self.claimed@;
            self.claimed.set(kx, true);
            proof {
                assert forall|q: int|
                    0 <= q < claimed0.len() && (#[trigger] self.claimed@[q]) != claimed0[q] implies
                    exists|a: int| 0 <= a < i + 1 && (#[trigger] outputs@[a]).idx() == q by {
                    if q == kx {
                        assert(outputs@[i as int].idx() == q);
                    } else {
                        assert(cprev[q] != claimed0[q]);
                    }
                }
            }
            i += 1;
        }
        proof {
            assert forall|t: int|
                0 <= t < self.rbox.resolutions@.len() implies task_outputs_claimed(
                #[trigger] self.rbox.resolutions@[t],
                self.claimed@,
            ) by {
                assert(task_outputs_claimed(self.rbox.resolutions@[t], claimed0));
                assert forall|ii: int|
                    0 <= ii < self.rbox.resolutions@[t].outputs@.len() implies self.claimed@[(
                #[trigger] self.rbox.resolutions@[t].outputs@[ii]).idx()] by {
                    assert(claimed0[self.rbox.resolutions@[t].outputs@[ii].idx()]);
                }
            }
        }
        let mut unready: Vec<Place> = Vec::new();
        i = 0;
        while i < inputs.len()
            invariant
                i <= inputs@.len(),
                forall|a: int|
                    0 <= a < unready@.len() ==> (#[trigger] unready@[a].idx())
                        < self.store.cells@.len(),
                self.claimed@.len() == claimed0.len(),
                count_trues(claimed0) <= count_trues(self.claimed@),
                forall|p: int| 0 <= p < claimed0.len() && claimed0[p] ==> #[trigger] self.claimed@[p],
                forall|a: int| 0 <= a < n_out ==> self.claimed@[(#[trigger] outputs@[a]).idx()],
                forall|t: int|
                    0 <= t < self.rbox.resolutions@.len() ==> task_outputs_claimed(
                        #[trigger] self.rbox.resolutions@[t],
                        self.claimed@,
                    ),
                self.store == old(self).store,
                self.rbox == old(self).rbox,
                self.done@ == old(self).done@,
                self.sorter == old(self).sorter,
            decreases inputs@.len() - i,
        {
            let p = inputs[i];
            if self.store.try_get_value(p).is_none() {
                unready.push(p);
            }
            i += 1;
        }
        let n0 = self.rbox.len();
        let added_at = n0 as u64;
        let task = Resolution {
            inputs: copy_places(inputs),
            outputs: copy_places(outputs),
            resolve_fn: f,
            added_at,
        };
        let ix = self.rbox.push(task);
        // The arena length fits in usize, so the new index is below usize::MAX.
        let _n1 = self.rbox.len();
        self.done.push(false);
        self.sorter.internalize_one(ix, unready, added_at);
        proof {
            assert forall|t: int|
                0 <= t < self.done@.len() && self.done@[t] implies task_honored(
                #[trigger] self.rbox.resolutions@[t],
                self.store.cells@,
            ) by {
                assert(t < old(self).done@.len() && old(self).done@[t]);
                assert(self.rbox.resolutions@[t] == old(self).rbox.resolutions@[t]);
            }
        }
        Ok(())
    }

    fn wait_till_resolved(&mut self) -> (r: Result<(), ResolutionError>) {
        let mut stalled = false;
        while !stalled
            invariant
                self.wf(),
                self.store.cells@.len() == old(self).store.cells@.len(),
                self.store.extends(&old(self).store),
                self.rbox == old(self).rbox,
                self.claimed@ == old(self).claimed@,
                self.done@.len() == old(self).done@.len(),
                self.sorter.registered() == old(self).sorter.registered(),
                self.sorter.values_seen() == old(self).sorter.values_seen(),
                self.sorter.num_variables() == old(self).sorter.num_variables(),
                self.sorter.replayable() == old(self).sorter.replayable(),
            decreases self.done@.len() - count_trues(self.done@), (if stalled {
                0int
            } else {
                1int
            }),
        {
            proof {
                lemma_count_trues_bound(self.done@);
            }
            let ghost measure0 = self.done@.len() - count_trues(self.done@);
            let batch = match self.sorter.final_flush() {
                Ok(b) => b,
                Err(e) => {
                    return Err(e);
                },
            };
            if batch.len() == 0 {
                stalled = true;
            } else {
                let ghost dsnap = self.done@;
                let mut progressed = false;
                let mut k: usize = 0;
                while k < batch.len()
                    invariant
                        self.wf(),
                        k <= batch@.len(),
                        forall|j: int| 0 <= j < batch@.len() ==> (#[trigger] batch@[j]) < self.done@.len(),
                        self.store.cells@.len() == old(self).store.cells@.len(),
                        self.store.extends(&old(self).store),
                        self.rbox == old(self).rbox,
                        self.claimed@ == old(self).claimed@,
                        self.done@.len() == dsnap.len(),
                        dsnap.len() == old(self).done@.len(),
                        forall|t: int| 0 <= t < dsnap.len() && dsnap[t] ==> #[trigger] self.done@[t],
                        count_trues(dsnap) <= count_trues(self.done@),
                        progressed ==> count_trues(dsnap) < count_trues(self.done@),
                        !progressed ==> self.done@ == dsnap,
                        self.sorter.registered() == old(self).sorter.registered(),
                        self.sorter.values_seen() == old(self).sorter.values_seen(),
                        self.sorter.num_variables() == old(self).sorter.num_variables(),
                        self.sorter.replayable() == old(self).sorter.replayable(),
                    decreases batch@.len() - k,
                {
                    let ix = batch[k];
                    if !self.done[ix] {
                        let ghost dpre = self.done@;
                        match self.run_task(ix) {
                            Ok(()) => {
                                proof {
                                    lemma_count_trues_set_true(dpre, ix as int);
                                }
                                progressed = true;
                            },
                            Err(e) => {
                                proof {
                                    if e == ResolutionError::ClosureFailed {
                                        let (insx, outsx) = choose|insx: Vec<V>, outsx: Vec<V>|
                                            #[trigger] call_ensures(
                                                self.rbox.resolutions@[ix as int].resolve_fn,
                                                (insx,),
                                                outsx,
                                            ) && outsx@.len()
                                                != self.rbox.resolutions@[ix as int].outputs@.len();
                                        assert(0 <= ix < self.tasks_registered() && call_ensures(
                                            self.task_fn(ix as int),
                                            (insx,),
                                            outsx,
                                        ) && outsx@.len() != self.task_outputs(ix as int).len());
                                    }
                                }
                                return Err(e);
                            },
                        }
                    }
                    k += 1;
                }
                if !progressed {
                    stalled = true;
                }
            }
            proof {
                lemma_count_trues_bound(self.done@);
            }
        }
        let mut all = true;
        let mut t: usize = 0;
        while t < self.done.len()
            invariant
                t <= self.done@.len(),
                all == (forall|j: int| 0 <= j < t ==> #[trigger] self.done@[j]),
                self.wf(),
                self.store.cells@.len() == old(self).store.cells@.len(),
                self.store.extends(&old(self).store),
                self.rbox == old(self).rbox,
                self.done@.len() == old(self).done@.len(),
            decreases self.done@.len() - t,
        {
            if !self.done[t] {
                all = false;
            }
            t += 1;
        }
        if all {
            proof {
                assert forall|t: int|
                    0 <= t < self.rbox.resolutions@.len() implies #[trigger] self.honors(t) by {
                    assert(self.done@[t]);
                }
            }
            Ok(())
        } else {
            Err(ResolutionError::UnresolvedDependency)
        }
    }

    fn clear(&mut self, args: (CircuitResolverOpts, S::Arg)) {
        let (opts, sarg) = args;
        self.store = VariableStore::new(opts.max_variables);
        let mut claimed: Vec<bool> = Vec::new();
        let mut i: usize = 0;
        while i < opts.max_variables
            invariant
                i <= opts.max_variables,
                claimed@.len() == i,
                forall|j: int| 0 <= j < i ==> !(#[trigger] claimed@[j]),
            decreases opts.max_variables - i,
        {
            claimed.push(false);
            i += 1;
        }
        self.claimed = claimed;
        self.rbox = ResolverBox::new();
        self.done = Vec::new();
        self.sorter = S::new(sarg);
    }
}

} // verus!
