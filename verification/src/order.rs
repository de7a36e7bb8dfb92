//! The order in which a map of fields is walked.

use vstd::prelude::*;
use vstd::std_specs::btree::increasing_seq;
use vstd::std_specs::cmp::OrdSpec;

verus! {

/// Whether each number of `numbers` is below the ones after it.
pub open spec fn ascending(numbers: Seq<i32>) -> bool {
    forall|i: int, j: int| 0 <= i < j < numbers.len() ==> numbers[i] < numbers[j]
}

/// The keys of an ordered map of numbers come out ascending.
pub proof fn lemma_ascending(numbers: Seq<i32>)
    requires
        increasing_seq(numbers),
    ensures
        ascending(numbers),
{
    broadcast use {
        vstd::std_specs::btree::group_btree_axioms,
        vstd::laws_cmp::group_laws_cmp,
    };

    assert forall|i: int, j: int| 0 <= i < j < numbers.len() implies numbers[i] < numbers[j] by {
        assert(numbers[i].cmp_spec(&numbers[j]) is Less);
    }
}

} // verus!
