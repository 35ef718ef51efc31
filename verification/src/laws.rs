//! Session-level guarantees, stated as theorems over the façade's invariant.

use vstd::prelude::*;

use crate::guide::{count_occ, Guide};
use crate::place::Place;
use crate::resolver::{task_honored, StCircuitResolver};
use crate::sorter::ResolverSortingMode;

verus! {

/// Two strictly ascending sequences with the same members are identical.
pub proof fn lemma_ascending_same_members_equal(a: Seq<usize>, b: Seq<usize>)
    requires
        forall|i: int, j: int| 0 <= i < j < a.len() ==> a[i] < a[j],
        forall|i: int, j: int| 0 <= i < j < b.len() ==> b[i] < b[j],
        forall|t: usize| a.contains(t) <==> b.contains(t),
    ensures
        a =~= b,
    decreases a.len(),
{
    if a.len() == 0 {
        if b.len() > 0 {
            assert(b.contains(b[0]));
            assert(a.contains(b[0]));
        }
    } else if b.len() == 0 {
        assert(a.contains(a[0]));
        assert(b.contains(a[0]));
    } else {
        assert(a.contains(a[0]));
        assert(b.contains(a[0]));
        let j = choose|j: int| 0 <= j < b.len() && b[j] == a[0];
        assert(b.contains(b[0]));
        assert(a.contains(b[0]));
        let i = choose|i: int| 0 <= i < a.len() && a[i] == b[0];
        assert(a[0] == b[0]) by {
            if j > 0 {
                assert(b[0] < b[j]);
            }
            if i > 0 {
                assert(a[0] < a[i]);
            }
        }
        let at = a.drop_first();
        let bt = b.drop_first();
        assert(at.len() == a.len() - 1 && bt.len() == b.len() - 1);
        assert(forall|k: int| 0 <= k < at.len() ==> #[trigger] at[k] == a[k + 1]);
        assert(forall|k: int| 0 <= k < bt.len() ==> #[trigger] bt[k] == b[k + 1]);
        assert forall|t: usize| at.contains(t) <==> bt.contains(t) by {
            if at.contains(t) {
                let k = choose|k: int| 0 <= k < at.len() && at[k] == t;
                assert(a[k + 1] == t);
                assert(a.contains(t));
                assert(a[0] < t);
                assert(b.contains(t));
                let m = choose|m: int| 0 <= m < b.len() && b[m] == t;
                assert(m != 0);
                assert(bt[m - 1] == t);
                assert(bt.contains(t));
            }
            if bt.contains(t) {
                let k = choose|k: int| 0 <= k < bt.len() && bt[k] == t;
                assert(b[k + 1] == t);
                assert(b.contains(t));
                assert(b[0] < t);
                assert(a.contains(t));
                let m = choose|m: int| 0 <= m < a.len() && a[m] == t;
                assert(m != 0);
                assert(at[m - 1] == t);
                assert(at.contains(t));
            }
        }
        lemma_ascending_same_members_equal(at, bt);
        assert forall|k: int| 0 <= k < a.len() implies a[k] == b[k] by {
            if k > 0 {
                assert(at[k - 1] == bt[k - 1]);
            }
        }
    }
}

/// Order determinism of eligibility: any two outcomes that satisfy the exact
/// contract of [`Guide::on_ready`] for the same guide state and the same
/// readiness event are the same sequence. Together with that contract's
/// functional description of the updated counters, repeated runs over a
/// fixed registration and assignment order realize one and the same order.
pub proof fn lemma_on_ready_deterministic(g: &Guide, key: Place, a: Seq<usize>, b: Seq<usize>)
    requires
        forall|i: int| 0 <= i < a.len() ==> (#[trigger] a[i]) < g.tasks(),
        forall|i: int| 0 <= i < b.len() ==> (#[trigger] b[i]) < g.tasks(),
        forall|i: int, j: int| 0 <= i < j < a.len() ==> a[i] < a[j],
        forall|i: int, j: int| 0 <= i < j < b.len() ==> b[i] < b[j],
        forall|t: usize|
            t < g.tasks() ==> ((#[trigger] a.contains(t)) <==> (g.pending@[t as int] > 0
                && count_occ(g.unready_inputs@[t as int]@, key) >= g.pending@[t as int])),
        forall|t: usize|
            t < g.tasks() ==> ((#[trigger] b.contains(t)) <==> (g.pending@[t as int] > 0
                && count_occ(g.unready_inputs@[t as int]@, key) >= g.pending@[t as int])),
    ensures
        a =~= b,
{
    assert forall|t: usize| a.contains(t) <==> b.contains(t) by {
        if a.contains(t) {
            let k = choose|k: int| 0 <= k < a.len() && a[k] == t;
            assert(a[k] < g.tasks());
            assert(b.contains(t));
        }
        if b.contains(t) {
            let k = choose|k: int| 0 <= k < b.len() && b[k] == t;
            assert(b[k] < g.tasks());
            assert(a.contains(t));
        }
    }
    lemma_ascending_same_members_equal(a, b);
}

/// In a fully resolved well-formed session, every registered task has been
/// honored: the store holds, for every task, input values and output values
/// such that the outputs are a possible result of the task's closure applied
/// to those inputs — and in particular every declared output Place carries a
/// value. Together with the single-writer discipline this is the functional
/// correctness of a finished run: each output equals its closure applied to
/// its inputs' final values, for some closure-consistent reading.
pub proof fn lemma_resolved_session_honors_tasks<
    V: Copy,
    Fx: Fn(Vec<V>) -> Vec<V>,
    S: ResolverSortingMode,
>(r: &StCircuitResolver<V, Fx, S>)
    requires
        r.wf(),
        r.resolved(),
    ensures
        forall|t: int|
            0 <= t < r.rbox.resolutions@.len() ==> task_honored(
                #[trigger] r.rbox.resolutions@[t],
                r.store.cells@,
            ),
        forall|t: int, k: int|
            0 <= t < r.rbox.resolutions@.len() && 0 <= k < r.rbox.resolutions@[t].outputs@.len()
                ==> r.store.cells@[(#[trigger] r.rbox.resolutions@[t].outputs@[k]).idx()] is Some,
{
    assert forall|t: int|
        0 <= t < r.rbox.resolutions@.len() implies task_honored(
        #[trigger] r.rbox.resolutions@[t],
        r.store.cells@,
    ) by {
        assert(r.done@[t]);
    }
    assert forall|t: int, k: int|
        0 <= t < r.rbox.resolutions@.len() && 0 <= k
            < r.rbox.resolutions@[t].outputs@.len() implies r.store.cells@[(
    #[trigger] r.rbox.resolutions@[t].outputs@[k]).idx()] is Some by {
        let task = r.rbox.resolutions@[t];
        assert(task_honored(task, r.store.cells@));
        let (ins, outs) = choose|ins: Vec<V>, outs: Vec<V>|
            {
                &&& #[trigger] call_ensures(task.resolve_fn, (ins,), outs)
                &&& ins@.len() == task.inputs@.len()
                &&& outs@.len() == task.outputs@.len()
                &&& forall|j: int|
                    0 <= j < task.inputs@.len() ==> r.store.cells@[(#[trigger] task.inputs@[j]).idx()]
                        == Some(ins@[j])
                &&& forall|j: int|
                    0 <= j < task.outputs@.len() ==> r.store.cells@[(
                    #[trigger] task.outputs@[j]).idx()] == Some(outs@[j])
            };
        assert(r.store.cells@[task.outputs@[k].idx()] == Some(outs@[k]));
    }
}

} // verus!
