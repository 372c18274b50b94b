//! Views of sequences of values.

use vstd::prelude::*;

verus! {

/// The views of the elements of `s`, in order.
pub open spec fn views<T: View>(s: Seq<T>) -> Seq<T::V> {
    Seq::new(s.len(), |i: int| s[i]@)
}

/// The views of a sequence with one more element.
pub proof fn lemma_views_push<T: View>(s: Seq<T>, last: T)
    ensures
        views(s.push(last)) == views(s).push(last@),
{
    assert(views(s.push(last)) =~= views(s).push(last@));
}

} // verus!
