//! A bounded cache of decoded lists, the least recently used of which leaves.

use crate::postings::postings;
use crate::rowset::RowSet;
use lru::LruCache;
use std::sync::Arc;
use vstd::prelude::*;

verus! {

/// A cache of bounded size, from the crate `lru`.
#[verifier::external_type_specification]
#[verifier::external_body]
#[verifier::reject_recursive_types(K)]
#[verifier::reject_recursive_types(V)]
#[verifier::reject_recursive_types(S)]
pub struct ExLruCache<K, V, S>(lru::LruCache<K, V, S>);

/// The hasher that such a cache uses.
#[verifier::external_type_specification]
#[verifier::external_body]
pub struct ExDefaultHasher(lru::DefaultHasher);

/// What a cache holds, the most recently used first: each hash with its list.
pub uninterp spec fn cache_contents(c: LruCache<u128, Arc<Vec<(u64, RowSet)>>>) -> Seq<
    (u128, Seq<(u64, Set<u32>)>),
>;

/// How many lists a cache holds at most.
pub uninterp spec fn cache_limit(c: LruCache<u128, Arc<Vec<(u64, RowSet)>>>) -> nat;

/// The contents without the entry of a hash.
pub open spec fn without(s: Seq<(u128, Seq<(u64, Set<u32>)>)>, k: u128) -> Seq<
    (u128, Seq<(u64, Set<u32>)>),
> {
    s.filter(|e: (u128, Seq<(u64, Set<u32>)>)| e.0 != k)
}

/// The contents with the entry of a hash in front.
pub open spec fn refreshed(
    s: Seq<(u128, Seq<(u64, Set<u32>)>)>,
    k: u128,
    v: Seq<(u64, Set<u32>)>,
) -> Seq<(u128, Seq<(u64, Set<u32>)>)> {
    seq![(k, v)] + without(s, k)
}

/// Whether the contents have an entry of the hash.
pub open spec fn cached(s: Seq<(u128, Seq<(u64, Set<u32>)>)>, k: u128) -> bool {
    exists|i: int| 0 <= i < s.len() && (#[trigger] s[i]).0 == k
}

/// The contents cut down to a number of entries; the last one leaves.
pub open spec fn trimmed(s: Seq<(u128, Seq<(u64, Set<u32>)>)>, limit: nat) -> Seq<
    (u128, Seq<(u64, Set<u32>)>),
> {
    if s.len() > limit {
        s.drop_last()
    } else {
        s
    }
}

/// `LruCache::new`: an empty cache for at most `cap` lists. It reserves a table with
/// room for all of them and panics where that table is larger than an address can tell:
/// there are at most four slots for a list, each of two addresses and a byte.
#[verifier::external_body]
pub(crate) fn cache_new(cap: usize) -> (r: LruCache<u128, Arc<Vec<(u64, RowSet)>>>)
    requires
        0 < cap <= usize::MAX / 128,
    ensures
        cache_contents(r) == Seq::<(u128, Seq<(u64, Set<u32>)>)>::empty(),
        cache_limit(r) == cap,
{
    LruCache::new(std::num::NonZeroUsize::new(cap).unwrap())
}

/// `LruCache::get`: the list of the hash, which becomes the most recently used.
#[verifier::external_body]
pub(crate) fn cache_get(c: &mut LruCache<u128, Arc<Vec<(u64, RowSet)>>>, k: u128) -> (r: Option<
    Arc<Vec<(u64, RowSet)>>,
>)
    ensures
        cache_limit(*final(c)) == cache_limit(*old(c)),
        match r {
            Some(v) => {
                &&& cache_contents(*old(c)).contains((k, postings(v@)))
                &&& cache_contents(*final(c)) == refreshed(
                    cache_contents(*old(c)),
                    k,
                    postings(v@),
                )
            },
            None => {
                &&& !cached(cache_contents(*old(c)), k)
                &&& cache_contents(*final(c)) == cache_contents(*old(c))
            },
        },
{
    c.get(&k).cloned()
}

/// `LruCache::put`: the list becomes the most recently used one of its hash;
/// where there are then too many, the last one leaves.
#[verifier::external_body]
pub(crate) fn cache_put(
    c: &mut LruCache<u128, Arc<Vec<(u64, RowSet)>>>,
    k: u128,
    v: Arc<Vec<(u64, RowSet)>>,
)
    ensures
        cache_limit(*final(c)) == cache_limit(*old(c)),
        cache_contents(*final(c)) == trimmed(
            refreshed(cache_contents(*old(c)), k, postings(v@)),
            cache_limit(*old(c)),
        ),
{
    c.put(k, v);
}

/// `LruCache::pop`: the entry of the hash leaves.
#[verifier::external_body]
pub(crate) fn cache_pop(c: &mut LruCache<u128, Arc<Vec<(u64, RowSet)>>>, k: u128)
    ensures
        cache_limit(*final(c)) == cache_limit(*old(c)),
        cache_contents(*final(c)) == without(cache_contents(*old(c)), k),
{
    c.pop(&k);
}

/// `LruCache::clear`: everything leaves.
#[verifier::external_body]
pub(crate) fn cache_clear(c: &mut LruCache<u128, Arc<Vec<(u64, RowSet)>>>)
    ensures
        cache_limit(*final(c)) == cache_limit(*old(c)),
        cache_contents(*final(c)) == Seq::<(u128, Seq<(u64, Set<u32>)>)>::empty(),
{
    c.clear();
}

/// `LruCache::len`: how many lists there are.
#[verifier::external_body]
pub(crate) fn cache_len(c: &LruCache<u128, Arc<Vec<(u64, RowSet)>>>) -> (r: usize)
    ensures
        r == cache_contents(*c).len(),
{
    c.len()
}

/// What remains was there before.
pub proof fn lemma_without(s: Seq<(u128, Seq<(u64, Set<u32>)>)>, k: u128)
    ensures
        forall|i: int|
            0 <= i < without(s, k).len() ==> s.contains(#[trigger] without(s, k)[i]) && without(
                s,
                k,
            )[i].0 != k,
    decreases s.len(),
{
    reveal(Seq::filter);
    if s.len() > 0 {
        lemma_without(s.drop_last(), k);
        let t = without(s.drop_last(), k);
        assert forall|i: int| 0 <= i < without(s, k).len() implies s.contains(
            #[trigger] without(s, k)[i],
        ) && without(s, k)[i].0 != k by {
            if i < t.len() {
                assert(without(s, k)[i] == t[i]);
                assert(s.drop_last().contains(t[i]));
                let j = choose|j: int| 0 <= j < s.drop_last().len() && s.drop_last()[j] == t[i];
                assert(s[j] == t[i]);
            } else {
                assert(without(s, k)[i] == s.last());
            }
        }
    }
}

} // verus!
