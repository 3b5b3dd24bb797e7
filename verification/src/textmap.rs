//! A map from texts to values, which keeps the order in which keys came.

use crate::text::same_text;
use vstd::prelude::*;

verus! {

/// A map from texts to values.
pub struct TextMap<V> {
    items: Vec<(String, V)>,
}

/// The keys of a list of pairs.
pub open spec fn pair_keys<V>(items: Seq<(String, V)>) -> Seq<Seq<char>> {
    items.map_values(|p: (String, V)| p.0@)
}

/// The map that a list of pairs stands for.
pub open spec fn pair_map<V>(items: Seq<(String, V)>) -> Map<Seq<char>, V> {
    Map::new(
        |k: Seq<char>| pair_keys(items).contains(k),
        |k: Seq<char>| items[pair_keys(items).index_of(k)].1,
    )
}

impl<V> View for TextMap<V> {
    type V = Map<Seq<char>, V>;

    closed spec fn view(&self) -> Map<Seq<char>, V> {
        pair_map(self.items@)
    }
}

/// In a list without repeated keys each pair is in the map.
pub proof fn lemma_pair_map<V>(items: Seq<(String, V)>, i: int)
    requires
        pair_keys(items).no_duplicates(),
        0 <= i < items.len(),
    ensures
        pair_map(items).contains_key(items[i].0@),
        pair_map(items)[items[i].0@] == items[i].1,
{
    let keys = pair_keys(items);
    assert(keys[i] == items[i].0@);
    assert(keys.contains(items[i].0@));
    let j = keys.index_of(items[i].0@);
    assert(keys[j] == keys[i]);
}

impl<V> TextMap<V> {
    /// Whether no key comes twice.
    #[verifier::type_invariant]
    pub closed spec fn distinct(self) -> bool {
        pair_keys(self.items@).no_duplicates()
    }

    /// The keys in the order in which they came.
    pub closed spec fn keys(&self) -> Seq<Seq<char>> {
        pair_keys(self.items@)
    }

    /// The keys are those of the map, each once.
    pub proof fn lemma_keys(self)
        requires
            self.distinct(),
        ensures
            self.keys().no_duplicates(),
            forall|k: Seq<char>| #[trigger] self@.contains_key(k) <==> self.keys().contains(k),
    {
    }

    /// A map without keys.
    pub fn new() -> (r: TextMap<V>)
        ensures
            r@ == Map::<Seq<char>, V>::empty(),
            r.keys() == Seq::<Seq<char>>::empty(),
    {
        let r = TextMap { items: Vec::new() };
        assert(r.keys() =~= Seq::empty());
        assert(r@ =~= Map::empty());
        r
    }

    /// How many keys there are.
    pub fn len(&self) -> (r: usize)
        ensures
            r == self.keys().len(),
            self.keys().no_duplicates(),
            self.keys().to_set() == self@.dom(),
    {
        proof {
            use_type_invariant(self);
            assert(self.keys().to_set() =~= self@.dom());
        }
        self.items.len()
    }

    /// Key number `i`.
    pub fn key_at(&self, i: usize) -> (r: &str)
        requires
            i < self.keys().len(),
        ensures
            r@ == self.keys()[i as int],
            self@.contains_key(r@),
    {
        proof {
            use_type_invariant(self);
            lemma_pair_map(self.items@, i as int);
        }
        self.items[i].0.as_str()
    }

    /// The value of key number `i`.
    pub fn value_at(&self, i: usize) -> (r: &V)
        requires
            i < self.keys().len(),
        ensures
            *r == self@[self.keys()[i as int]],
            self@.contains_key(self.keys()[i as int]),
    {
        proof {
            use_type_invariant(self);
            lemma_pair_map(self.items@, i as int);
        }
        &self.items[i].1
    }

    /// The number of a key.
    pub fn position(&self, key: &str) -> (r: Option<usize>)
        ensures
            match r {
                Some(i) => i < self.keys().len() && self.keys()[i as int] == key@
                    && self@.contains_key(key@),
                None => !self@.contains_key(key@),
            },
    {
        proof {
            use_type_invariant(self);
        }
        let mut i: usize = 0;
        while i < self.items.len()
            invariant
                i <= self.items@.len(),
                forall|j: int| 0 <= j < i ==> (#[trigger] self.keys()[j]) != key@,
            decreases self.items@.len() - i,
        {
            if same_text(self.items[i].0.as_str(), key) {
                assert(self.keys()[i as int] == key@);
                return Some(i);
            }
            assert(self.keys()[i as int] != key@);
            i = i + 1;
        }
        proof {
            if self.keys().contains(key@) {
                let j = choose|j: int| 0 <= j < self.keys().len() && self.keys()[j] == key@;
                assert(self.keys()[j] != key@);
            }
        }
        None
    }

    /// The value of a key.
    pub fn get(&self, key: &str) -> (r: Option<&V>)
        ensures
            match r {
                Some(v) => self@.contains_key(key@) && *v == self@[key@],
                None => !self@.contains_key(key@),
            },
    {
        match self.position(key) {
            Some(i) => Some(self.value_at(i)),
            None => None,
        }
    }

    /// Whether a key is there.
    pub fn contains(&self, key: &str) -> (r: bool)
        ensures
            r == self@.contains_key(key@),
    {
        self.position(key).is_some()
    }

    /// Puts another value in the place of that of key number `i`, and returns
    /// the one that was there.
    pub fn replace_at(&mut self, i: usize, value: V) -> (r: V)
        requires
            i < old(self).keys().len(),
        ensures
            final(self)@ == old(self)@.insert(old(self).keys()[i as int], value),
            final(self).keys() == old(self).keys(),
            old(self)@.contains_key(old(self).keys()[i as int]),
            r == old(self)@[old(self).keys()[i as int]],
    {
        proof {
            use_type_invariant(&*self);
            lemma_pair_map(self.items@, i as int);
        }
        let mut items: Vec<(String, V)> = Vec::new();
        std::mem::swap(&mut items, &mut self.items);
        let ghost before = items@;
        let mut taken = value;
        std::mem::swap(&mut taken, &mut items[i].1);
        proof {
            assert(items@ =~= before.update(i as int, (before[i as int].0, value)));
            assert(pair_keys(items@) =~= pair_keys(before));
            assert(pair_map(items@) =~= pair_map(before).insert(before[i as int].0@, value)) by {
                assert forall|k: Seq<char>| #[trigger]
                    pair_map(items@).contains_key(k) implies pair_map(items@)[k] == pair_map(
                    before,
                ).insert(before[i as int].0@, value)[k] by {
                    let j = pair_keys(items@).index_of(k);
                    assert(pair_keys(before)[j] == k);
                    lemma_pair_map(items@, j);
                    lemma_pair_map(before, j);
                    if j == i {
                        assert(k == before[i as int].0@);
                    } else {
                        assert(pair_keys(before)[j] != pair_keys(before)[i as int]);
                        assert(k != before[i as int].0@);
                    }
                }
                assert(pair_keys(before)[i as int] == before[i as int].0@);
            }
        }
        self.items = items;
        taken
    }

    /// Sets the value of a key.
    pub fn insert(&mut self, key: &str, value: V)
        ensures
            final(self)@ == old(self)@.insert(key@, value),
            final(self).keys() == if old(self)@.contains_key(key@) {
                old(self).keys()
            } else {
                old(self).keys().push(key@)
            },
    {
        match self.position(key) {
            Some(i) => {
                let _old = self.replace_at(i, value);
            },
            None => {
                proof {
                    use_type_invariant(&*self);
                }
                let mut items: Vec<(String, V)> = Vec::new();
                std::mem::swap(&mut items, &mut self.items);
                let ghost before = items@;
                items.push((key.to_owned(), value));
                proof {
                    lemma_push(before, items@, key@, value);
                }
                self.items = items;
            },
        }
    }

    /// Removes a key, and returns its value.
    pub fn take(&mut self, key: &str) -> (r: Option<V>)
        ensures
            final(self)@ == old(self)@.remove(key@),
            match r {
                Some(v) => old(self)@.contains_key(key@) && v == old(self)@[key@],
                None => !old(self)@.contains_key(key@),
            },
            final(self).keys() == if old(self)@.contains_key(key@) {
                old(self).keys().remove(old(self).keys().index_of(key@))
            } else {
                old(self).keys()
            },
    {
        match self.position(key) {
            None => {
                assert(self@.remove(key@) =~= self@);
                None
            },
            Some(i) => {
                proof {
                    use_type_invariant(&*self);
                    lemma_pair_map(self.items@, i as int);
                }
                let mut items: Vec<(String, V)> = Vec::new();
                std::mem::swap(&mut items, &mut self.items);
                let ghost before = items@;
                let p = items.remove(i);
                proof {
                    lemma_remove(before, items@, i as int);
                    let keys = pair_keys(before);
                    let k = keys.index_of(key@);
                    assert(keys.contains(key@)) by {
                        assert(keys[i as int] == key@);
                    }
                    assert(keys[k] == keys[i as int]);
                    assert(pair_keys(items@) =~= keys.remove(i as int));
                }
                self.items = items;
                Some(p.1)
            },
        }
    }
}

proof fn lemma_push<V>(before: Seq<(String, V)>, after: Seq<(String, V)>, key: Seq<char>, value: V)
    requires
        pair_keys(before).no_duplicates(),
        !pair_map(before).contains_key(key),
        after.len() == before.len() + 1,
        forall|i: int| 0 <= i < before.len() ==> after[i] == before[i],
        after.last().0@ == key,
        after.last().1 == value,
    ensures
        pair_keys(after) == pair_keys(before).push(key),
        pair_keys(after).no_duplicates(),
        pair_map(after) == pair_map(before).insert(key, value),
{
    assert(pair_keys(after) =~= pair_keys(before).push(key));
    assert(!pair_keys(before).contains(key));
    assert forall|i: int, j: int|
        0 <= i < pair_keys(after).len() && 0 <= j < pair_keys(after).len() && i != j implies pair_keys(
        after,
    )[i] != pair_keys(after)[j] by {
        if i < before.len() && j < before.len() {
            assert(pair_keys(before)[i] != pair_keys(before)[j]);
        } else if i < before.len() {
            assert(pair_keys(before)[i] != key);
        } else {
            assert(pair_keys(before)[j] != key);
        }
    }
    assert(pair_map(after) =~= pair_map(before).insert(key, value)) by {
        assert forall|k: Seq<char>| pair_map(after).contains_key(k) <==> #[trigger] pair_map(
            before,
        ).insert(key, value).contains_key(k) by {
            if pair_keys(before).contains(k) {
                let i = choose|i: int| 0 <= i < before.len() && pair_keys(before)[i] == k;
                assert(pair_keys(after)[i] == k);
            }
            if k == key {
                assert(pair_keys(after)[before.len() as int] == k);
            }
            if pair_keys(after).contains(k) && k != key {
                let i = choose|i: int| 0 <= i < after.len() && pair_keys(after)[i] == k;
                assert(pair_keys(before)[i] == k);
            }
        }
        assert forall|k: Seq<char>| #[trigger]
            pair_map(after).contains_key(k) implies pair_map(after)[k] == pair_map(before).insert(
            key,
            value,
        )[k] by {
            let i = choose|i: int| 0 <= i < after.len() && pair_keys(after)[i] == k;
            lemma_pair_map(after, i);
            if i < before.len() {
                lemma_pair_map(before, i);
                assert(pair_keys(before)[i] == k);
            }
        }
    }
}

proof fn lemma_remove<V>(before: Seq<(String, V)>, after: Seq<(String, V)>, at: int)
    requires
        pair_keys(before).no_duplicates(),
        0 <= at < before.len(),
        after == before.remove(at),
    ensures
        pair_keys(after).no_duplicates(),
        pair_map(after) == pair_map(before).remove(before[at].0@),
{
    let key = before[at].0@;
    assert(pair_keys(after) =~= pair_keys(before).remove(at));
    assert forall|i: int, j: int|
        0 <= i < pair_keys(after).len() && 0 <= j < pair_keys(after).len() && i != j implies pair_keys(
        after,
    )[i] != pair_keys(after)[j] by {
        let a = if i < at {
            i
        } else {
            i + 1
        };
        let b = if j < at {
            j
        } else {
            j + 1
        };
        assert(pair_keys(before)[a] != pair_keys(before)[b]);
    }
    assert(pair_map(after) =~= pair_map(before).remove(key)) by {
        assert forall|k: Seq<char>| pair_map(after).contains_key(k) <==> #[trigger] pair_map(
            before,
        ).remove(key).contains_key(k) by {
            if pair_keys(after).contains(k) {
                let i = choose|i: int| 0 <= i < after.len() && pair_keys(after)[i] == k;
                let a = if i < at {
                    i
                } else {
                    i + 1
                };
                assert(pair_keys(before)[a] == k);
                assert(pair_keys(before)[a] != pair_keys(before)[at]);
            }
            if pair_keys(before).contains(k) && k != key {
                let i = choose|i: int| 0 <= i < before.len() && pair_keys(before)[i] == k;
                let a = if i < at {
                    i
                } else {
                    i - 1
                };
                assert(pair_keys(after)[a] == k);
            }
        }
        assert forall|k: Seq<char>| #[trigger]
            pair_map(after).contains_key(k) implies pair_map(after)[k] == pair_map(before).remove(
            key,
        )[k] by {
            let i = choose|i: int| 0 <= i < after.len() && pair_keys(after)[i] == k;
            let a = if i < at {
                i
            } else {
                i + 1
            };
            lemma_pair_map(after, i);
            lemma_pair_map(before, a);
            assert(after[i] == before[a]);
            assert(pair_keys(before)[a] == k);
            assert(pair_keys(before)[a] != pair_keys(before)[at]);
            assert(k != key);
        }
    }
}

} // verus!
