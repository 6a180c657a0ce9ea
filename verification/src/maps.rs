//! The keys of a map.

use std::collections::HashMap;
use vstd::prelude::*;
use vstd::std_specs::iter::IteratorSpec;

verus! {

/// The keys of a map, each once, in no particular order.
pub fn keys_of<V>(map: &HashMap<u64, V>) -> (r: Vec<u64>)
    ensures
        r@.no_duplicates(),
        forall|k: u64| #[trigger] r@.contains(k) <==> map@.contains_key(k),
{
    broadcast use vstd::std_specs::hash::group_hash_axioms;

    let mut out: Vec<u64> = Vec::new();
    let iter = map.keys();
    let ghost all = iter.remaining().unref();
    for k in it: iter
        invariant
            all == it.seq().unref(),
            out@.len() == it.index(),
            forall|j: int| 0 <= j < out@.len() ==> out@[j] == #[trigger] all[j],
    {
        out.push(*k);
    }
    assert(out@ =~= all);
    assert forall|k: u64| #[trigger] out@.contains(k) <==> map@.contains_key(k) by {
        assert(all.to_set().contains(k) <==> map@.dom().contains(k));
    }
    out
}

} // verus!
