//! Sequences without repetition.

use vstd::prelude::*;

verus! {

/// Two sequences without repetition that have the same length, the one
/// holding every value of the other, hold the same values.
pub proof fn lemma_same_members<V>(left: Seq<V>, right: Seq<V>)
    requires
        left.no_duplicates(),
        right.no_duplicates(),
        left.len() == right.len(),
        forall|i: int| 0 <= i < left.len() ==> right.contains(#[trigger] left[i]),
    ensures
        left.to_multiset() == right.to_multiset(),
{
    left.unique_seq_to_set();
    right.unique_seq_to_set();
    assert(left.to_set().subset_of(right.to_set())) by {
        assert forall|v: V| left.to_set().contains(v) implies right.to_set().contains(v) by {
            let i = choose|i: int| 0 <= i < left.len() && left[i] == v;
            assert(right.contains(left[i]));
        }
    }
    vstd::seq_lib::seq_to_set_is_finite(left);
    vstd::seq_lib::seq_to_set_is_finite(right);
    vstd::set_lib::lemma_subset_equality(left.to_set(), right.to_set());
    left.to_multiset_ensures();
    right.to_multiset_ensures();
    left.lemma_multiset_has_no_duplicates();
    right.lemma_multiset_has_no_duplicates();
    assert forall|v: V| left.to_multiset().count(v) == right.to_multiset().count(v) by {
        assert(left.contains(v) == left.to_set().contains(v));
        assert(right.contains(v) == right.to_set().contains(v));
    }
    assert(left.to_multiset() =~= right.to_multiset());
}

} // verus!
