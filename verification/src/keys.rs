//! Listing the keys of a hash map.

use std::collections::HashMap;
use vstd::prelude::*;

verus! {

broadcast use vstd::std_specs::hash::group_hash_axioms;

/// The keys of `m`, each once, in the order in which the map is walked.
pub fn collect_keys<V>(m: &HashMap<u32, V>) -> (ks: Vec<u32>)
    ensures
        ks@.no_duplicates(),
        ks@.to_set() == m@.dom(),
{
    let mut ks: Vec<u32> = Vec::new();
    let ghost all = vstd::std_specs::iter::IteratorSpec::remaining(&vstd::std_specs::hash::spec_keys_iter(m));
    for k in it: m.keys()
        invariant
            all == vstd::std_specs::iter::IteratorSpec::remaining(&vstd::std_specs::hash::spec_keys_iter(m)),
            it.seq() == all,
            ks@.len() == it.index(),
            forall|i: int| 0 <= i < it.index() ==> ks@[i] == *all[i],
    {
        ks.push(*k);
    }
    proof {
        assert(ks@ =~= all.unref());
        assert(all.unref().to_set() == m@.dom());
        assert forall|i: int, j: int| 0 <= i < ks@.len() && 0 <= j < ks@.len() && i != j implies ks@[i] != ks@[j] by {
            assert(all[i] != all[j]);
        }
    }
    ks
}

} // verus!
