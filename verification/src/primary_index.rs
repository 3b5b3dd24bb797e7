//! Index from primary keys to the place of their row.

use crate::canonical::{hash_key, key_hash, law_equivalent_keys, nfc_form};
use crate::keymap::keys_of;
use std::collections::HashMap;
use vstd::prelude::*;

verus! {

broadcast use vstd::std_specs::hash::group_hash_axioms;

/// Maps a primary key, by the hash of its canonical bytes, to the segment and
/// the row in it.
pub struct PrimaryIndex {
    inner: HashMap<u128, (u64, u32)>,
}

impl View for PrimaryIndex {
    type V = Map<u128, (u64, u32)>;

    closed spec fn view(&self) -> Map<u128, (u64, u32)> {
        self.inner@
    }
}

/// What a map holds under a key.
pub open spec fn lookup<V>(m: Map<u128, V>, k: u128) -> Option<V> {
    if m.contains_key(k) {
        Some(m[k])
    } else {
        None
    }
}

impl PrimaryIndex {
    /// An index without keys.
    pub fn new() -> (r: PrimaryIndex)
        ensures
            r@ == Map::<u128, (u64, u32)>::empty(),
    {
        PrimaryIndex { inner: HashMap::new() }
    }

    /// An index without keys and with room for some.
    pub fn with_capacity(capacity: usize) -> (r: PrimaryIndex)
        ensures
            r@ == Map::<u128, (u64, u32)>::empty(),
    {
        PrimaryIndex { inner: HashMap::with_capacity(capacity) }
    }

    /// An index of these places.
    pub fn from_map(map: HashMap<u128, (u64, u32)>) -> (r: PrimaryIndex)
        ensures
            r@ == map@,
    {
        PrimaryIndex { inner: map }
    }

    /// The hash under which a key is filed.
    pub fn hash(pk: &str) -> (r: u128)
        ensures
            r == key_hash(pk@),
    {
        hash_key(pk)
    }

    /// Files a key, and returns the place that it had.
    pub fn insert(&mut self, pk: &str, place: (u64, u32)) -> (r: Option<(u64, u32)>)
        ensures
            final(self)@ == old(self)@.insert(key_hash(pk@), place),
            r == lookup(old(self)@, key_hash(pk@)),
    {
        let h: u128 = hash_key(pk);
        self.inner.insert(h, place)
    }

    /// The place of a key.
    pub fn get(&self, pk: &str) -> (r: Option<(u64, u32)>)
        ensures
            r == lookup(self@, key_hash(pk@)),
    {
        let h: u128 = hash_key(pk);
        match self.inner.get(&h) {
            Some(place) => Some(*place),
            None => None,
        }
    }

    /// Removes a key, and returns the place that it had.
    pub fn remove(&mut self, pk: &str) -> (r: Option<(u64, u32)>)
        ensures
            final(self)@ == old(self)@.remove(key_hash(pk@)),
            r == lookup(old(self)@, key_hash(pk@)),
    {
        let h: u128 = hash_key(pk);
        self.inner.remove(&h)
    }

    /// Whether a key is filed.
    pub fn contains_key(&self, pk: &str) -> (r: bool)
        ensures
            r == self@.contains_key(key_hash(pk@)),
    {
        let h: u128 = hash_key(pk);
        self.inner.contains_key(&h)
    }

    /// Whether no key is filed.
    pub fn is_empty(&self) -> (r: bool)
        ensures
            r == self@.is_empty(),
    {
        self.inner.is_empty()
    }

    /// How many keys are filed.
    pub fn len(&self) -> (r: usize)
        ensures
            r == self@.len(),
    {
        self.inner.len()
    }

    /// Files a place under a hash, and returns the place that was there.
    pub fn insert_raw(&mut self, hash: u128, place: (u64, u32)) -> (r: Option<(u64, u32)>)
        ensures
            final(self)@ == old(self)@.insert(hash, place),
            r == lookup(old(self)@, hash),
    {
        self.inner.insert(hash, place)
    }

    /// The map inside.
    pub fn inner(&self) -> (r: &HashMap<u128, (u64, u32)>)
        ensures
            r@ == self@,
    {
        &self.inner
    }

    /// Replaces each place by what `f` makes of it.
    pub fn iter_mut<F: Fn(u128, (u64, u32)) -> (u64, u32)>(&mut self, f: F)
        requires
            forall|h: u128, p: (u64, u32)| old(self)@.contains_pair(h, p) ==> call_requires(f, (h, p)),
        ensures
            final(self)@.dom() == old(self)@.dom(),
            forall|h: u128| #[trigger]
                final(self)@.contains_key(h) ==> call_ensures(
                    f,
                    (h, old(self)@[h]),
                    final(self)@[h],
                ),
    {
        let ghost before = self@;
        let keys = keys_of(&self.inner);
        let mut out: HashMap<u128, (u64, u32)> = HashMap::new();
        let mut i: usize = 0;
        while i < keys.len()
            invariant
                i <= keys@.len(),
                before == self.inner@,
                keys@.to_set() == before.dom(),
                forall|h: u128, p: (u64, u32)|
                    before.contains_pair(h, p) ==> call_requires(f, (h, p)),
                out@.dom() == keys@.take(i as int).to_set(),
                forall|h: u128| #[trigger]
                    out@.contains_key(h) ==> call_ensures(f, (h, before[h]), out@[h]),
            decreases keys@.len() - i,
        {
            let k: u128 = keys[i];
            assert(keys@.to_set().contains(k));
            match self.inner.get(&k) {
                Some(place) => {
                    assert(before.contains_pair(k, *place));
                    let moved = f(k, *place);
                    out.insert(k, moved);
                },
                None => {
                    assert(false);
                },
            }
            i = i + 1;
            proof {
                assert(keys@.take(i as int) =~= keys@.take(i - 1).push(k));
                keys@.take(i - 1).lemma_push_to_set_commute(k);
                assert(out@.dom() =~= keys@.take(i as int).to_set());
            }
        }
        assert(keys@.take(i as int) =~= keys@);
        self.inner = out;
    }
}

/// A place that was filed under a key is found under every key with the same normal
/// form, and is gone after the removal of any of them.
pub proof fn law_equivalent_key_is_found(
    m: Map<u128, (u64, u32)>,
    place: (u64, u32),
    a: Seq<char>,
    b: Seq<char>,
)
    requires
        nfc_form(a) == nfc_form(b),
    ensures
        lookup(m.insert(key_hash(a), place), key_hash(b)) == Some(place),
        lookup(m.insert(key_hash(a), place).remove(key_hash(b)), key_hash(a)) is None,
{
    law_equivalent_keys(a, b);
}

} // verus!
