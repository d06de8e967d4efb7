//! Listing the keys of a hash map.

use std::collections::HashMap;
use vstd::prelude::*;
use vstd::std_specs::hash::obeys_key_model;
use vstd::std_specs::hash::spec_keys_iter;
use vstd::std_specs::iter::IteratorSpec;

verus! {

broadcast use vstd::std_specs::hash::group_hash_axioms;

/// Lists every key of `map` once, in the order in which the map hands them out.
pub fn keys_of<K: Copy, V>(map: &HashMap<K, V>) -> (keys: Vec<K>)
    requires
        obeys_key_model::<K>(),
    ensures
        keys@.no_duplicates(),
        keys@.to_set() == map@.dom(),
        keys@.len() == map@.dom().len(),
        forall|k: K| keys@.contains(k) <==> #[trigger] map@.contains_key(k),
{
    let mut keys: Vec<K> = Vec::new();
    for key in it: map.keys()
        invariant
            keys@ == it.seq().unref().take(it.index() as int),
    {
        keys.push(*key);
    }
    proof {
        assert(keys@ =~= spec_keys_iter(map).remaining().unref());
        assert forall|k: K| keys@.contains(k) <==> #[trigger] map@.contains_key(k) by {
            assert(keys@.to_set().contains(k) <==> map@.dom().contains(k));
        }
    }
    keys
}

} // verus!
