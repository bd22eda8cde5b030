//! Facts on sequences shared by the modules of the crate.
use vstd::prelude::*;

verus! {

/// Filtering a one item longer prefix filters one more item.
pub(crate) proof fn lemma_filter_take_step<A>(s: Seq<A>, k: int, pred: spec_fn(A) -> bool)
    requires
        0 <= k < s.len(),
    ensures
        s.take(k + 1).filter(pred) == if pred(s[k]) { s.take(k).filter(pred).push(s[k]) } else { s.take(k).filter(pred) },
{
    assert(s.take(k + 1) =~= s.take(k).push(s[k]));
    s.take(k).lemma_filter_push(s[k], pred);
}

} // verus!
