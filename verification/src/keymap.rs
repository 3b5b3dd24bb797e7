//! The keys of a hash map, listed and sorted.

use crate::sorting::{arrangement, lemma_arrangement_onto, sort_indices};
use std::collections::HashMap;
use vstd::prelude::*;

verus! {

broadcast use vstd::std_specs::hash::group_hash_axioms;

/// Whether each key is smaller than those behind it.
pub open spec fn keys_ascending(s: Seq<u128>) -> bool {
    forall|i: int, j: int| 0 <= i < j < s.len() ==> s[i] < s[j]
}

/// The keys of a map, in no particular order.
pub(crate) fn keys_of<V>(m: &HashMap<u128, V>) -> (r: Vec<u128>)
    ensures
        r@.to_set() == m@.dom(),
        r@.no_duplicates(),
        r@.len() == m@.dom().len(),
{
    let mut keys: Vec<u128> = Vec::new();
    for k in iter: m.keys()
        invariant
            iter.seq().unref().to_set() == m@.dom(),
            iter.seq().no_duplicates(),
            iter.seq().len() == m@.dom().len(),
            keys@ == iter.seq().unref().take(iter.index()),
            iter.index() == iter.seq().len() ==> keys@ =~= iter.seq().unref(),
    {
        keys.push(*k);
        assert(iter.seq().unref().take(iter.index() + 1) =~= iter.seq().unref().take(
            iter.index(),
        ).push(iter.seq().unref()[iter.index()]));
    }
    keys
}

/// The keys of a map in ascending order.
pub(crate) fn sorted_keys<V>(m: &HashMap<u128, V>) -> (r: Vec<u128>)
    ensures
        r@.to_set() == m@.dom(),
        keys_ascending(r@),
        r@.len() == m@.dom().len(),
{
    let keys = keys_of(m);
    let ghost rel = |a: int, b: int| keys@[a] <= keys@[b];
    let le = |a: usize, b: usize| -> (r: bool)
        requires
            a < keys@.len(),
            b < keys@.len(),
        ensures
            r == (keys@[a as int] <= keys@[b as int]),
        { keys[a] <= keys[b] };
    let order = sort_indices(keys.len(), &le, Ghost(rel));
    let mut out: Vec<u128> = Vec::new();
    let mut i: usize = 0;
    while i < order.len()
        invariant
            i <= order@.len(),
            arrangement(order@, keys@.len() as int),
            out@.len() == i,
            forall|k: int| 0 <= k < i ==> #[trigger] out@[k] == keys@[order@[k] as int],
        decreases order@.len() - i,
    {
        out.push(keys[order[i]]);
        i = i + 1;
    }
    proof {
        assert(keys_ascending(out@)) by {
            assert forall|i: int, j: int| 0 <= i < j < out@.len() implies out@[i] < out@[j] by {
                assert(rel(order@[i] as int, order@[j] as int));
                assert(order@[i] != order@[j]);
                assert(keys@[order@[i] as int] != keys@[order@[j] as int]);
            }
        }
        assert(out@.to_set() =~= keys@.to_set()) by {
            assert forall|v: u128| out@.to_set().contains(v) == keys@.to_set().contains(v) by {
                if out@.contains(v) {
                    let k = choose|k: int| 0 <= k < out@.len() && out@[k] == v;
                    assert(keys@[order@[k] as int] == v);
                }
                if keys@.contains(v) {
                    let p = choose|p: int| 0 <= p < keys@.len() && keys@[p] == v;
                    lemma_arrangement_onto(order@, keys@.len() as int, p as usize);
                    let k = choose|k: int| 0 <= k < order@.len() && order@[k] == p as usize;
                    assert(out@[k] == v);
                }
            }
        }
    }
    out
}

} // verus!
