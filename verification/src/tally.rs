//! Counting the entries of a sequence that meet a condition.

use vstd::prelude::*;

verus! {

/// How many entries of `s` satisfy `pred`.
pub open spec fn count_matching<T>(s: Seq<T>, pred: spec_fn(T) -> bool) -> nat
    decreases s.len(),
{
    if s.len() == 0 {
        0
    } else {
        count_matching(s.drop_last(), pred) + if pred(s.last()) {
            1nat
        } else {
            0nat
        }
    }
}

/// Taking one more entry into account adds 1 to the count where that entry
/// satisfies the condition, and nothing otherwise.
pub proof fn lemma_count_step<T>(s: Seq<T>, pred: spec_fn(T) -> bool, k: int)
    requires
        0 <= k < s.len(),
    ensures
        count_matching(s.take(k + 1), pred) == count_matching(s.take(k), pred) + if pred(s[k]) {
            1nat
        } else {
            0nat
        },
{
    assert(s.take(k + 1).drop_last() =~= s.take(k));
    assert(s.take(k + 1).last() == s[k]);
}

/// The count is positive exactly when some entry satisfies the condition.
pub proof fn lemma_count_positive<T>(s: Seq<T>, pred: spec_fn(T) -> bool)
    ensures
        count_matching(s, pred) > 0 <==> exists|k: int| 0 <= k < s.len() && pred(#[trigger] s[k]),
    decreases s.len(),
{
    if s.len() > 0 {
        let front = s.drop_last();
        lemma_count_positive(front, pred);
        if count_matching(s, pred) > 0 {
            if pred(s.last()) {
                assert(pred(s[s.len() - 1]));
            } else {
                let k: int = choose|k: int| 0 <= k < front.len() && pred(#[trigger] front[k]);
                assert(pred(s[k]));
            }
        }
        if exists|k: int| 0 <= k < s.len() && pred(#[trigger] s[k]) {
            let k: int = choose|k: int| 0 <= k < s.len() && pred(#[trigger] s[k]);
            if k < s.len() - 1 {
                assert(pred(front[k]));
            }
        }
    }
}

} // verus!
