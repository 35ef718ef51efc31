//! Counting of raised flags in a sequence of booleans, used to bound session
//! counters and to measure progress of the drain loop.

use vstd::prelude::*;

verus! {

/// How many entries of `s` are `true`.
pub open spec fn count_trues(s: Seq<bool>) -> nat
    decreases s.len(),
{
    if s.len() == 0 {
        0
    } else {
        count_trues(s.drop_last()) + if s.last() {
            1nat
        } else {
            0nat
        }
    }
}

pub proof fn lemma_count_trues_bound(s: Seq<bool>)
    ensures
        count_trues(s) <= s.len(),
    decreases s.len(),
{
    if s.len() > 0 {
        lemma_count_trues_bound(s.drop_last());
    }
}

/// Raising one flag raises the count by one exactly when the flag was down.
pub proof fn lemma_count_trues_set_true(s: Seq<bool>, i: int)
    requires
        0 <= i < s.len(),
    ensures
        count_trues(s.update(i, true)) == count_trues(s) + if s[i] {
            0nat
        } else {
            1nat
        },
    decreases s.len(),
{
    let t = s.update(i, true);
    if i == s.len() - 1 {
        assert(t.drop_last() =~= s.drop_last());
        assert(t.last());
    } else {
        assert(t.drop_last() =~= s.drop_last().update(i, true));
        assert(t.last() == s.last());
        lemma_count_trues_set_true(s.drop_last(), i);
    }
}

} // verus!
