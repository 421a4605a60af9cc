//! Walking hash maps with integer keys.

use std::collections::HashMap;

use vstd::prelude::*;
use vstd::std_specs::hash::*;

verus! {

/// The keys of a map, each once, in no particular order.
pub fn keys_of<V>(m: &HashMap<u32, V>) -> (keys: Vec<u32>)
    ensures
        keys@.no_duplicates(),
        keys@.to_set() == m@.dom(),
        keys@.len() == m@.dom().len(),
{
    broadcast use group_hash_axioms;

    let mut keys: Vec<u32> = Vec::new();
    for k in it: m.keys()
        invariant
            keys@.len() == it.index(),
            forall|i: int| 0 <= i < keys@.len() ==> keys@[i] == *it.seq()[i],
            it.seq() == vstd::std_specs::iter::IteratorSpec::remaining(&spec_keys_iter(m)),
    {
        keys.push(*k);
    }
    proof {
        let all = vstd::std_specs::iter::IteratorSpec::remaining(&spec_keys_iter(m));
        assert(keys@ =~= all.unref());
    }
    keys
}

} // verus!
