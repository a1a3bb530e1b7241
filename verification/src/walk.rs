//! The order in which an ordered map is walked.

use vstd::prelude::*;
use vstd::std_specs::cmp::OrdSpec;

verus! {
/// The keys that an ordered map is walked in grow from each to the next.
pub(crate) proof fn lemma_walk_grows(keys: Seq<u64>)
    requires
        vstd::std_specs::btree::increasing_seq(keys),
    ensures
        forall|i: int, j: int| 0 <= i < j < keys.len() ==> #[trigger] keys[i] < #[trigger] keys[j],
{
    assert forall|i: int, j: int| 0 <= i < j < keys.len() implies #[trigger] keys[i]
        < #[trigger] keys[j] by {
        assert(keys[i].cmp_spec(&keys[j]) is Less);
    }
}
} // verus!
