//! The index of a field over all segments of a table: the rows that hold each
//! value, segment by segment.

use crate::legacy::{decode_index_v1, decoded_index_v1, encode_index_v1, rows_of_values};
use crate::postings::{clone_postings, postings};
use crate::rowset::RowSet;
use crate::segment::{index_view, Posting};
use crate::textmap::TextMap;
use crate::types::ScalarView;
use vstd::prelude::*;

verus! {

/// For each value the segments that hold it, with the rows.
pub struct FieldIndex {
    pub lists: TextMap<Vec<(u64, RowSet)>>,
}

impl View for FieldIndex {
    type V = Map<Seq<char>, Seq<(u64, Set<u32>)>>;

    open spec fn view(&self) -> Map<Seq<char>, Seq<(u64, Set<u32>)>> {
        self.lists@.map_values(|l: Vec<(u64, RowSet)>| postings(l@))
    }
}

/// The list of a value, empty where it has none.
pub open spec fn list_of(m: Map<Seq<char>, Seq<(u64, Set<u32>)>>, value: Seq<char>) -> Seq<
    (u64, Set<u32>),
> {
    if m.contains_key(value) {
        m[value]
    } else {
        Seq::empty()
    }
}

/// The entry of a segment for a value: the rows that hold it and are not deleted,
/// where there are any.
pub open spec fn live_entry(
    id: u64,
    ix: Map<Seq<char>, (ScalarView, Set<u32>)>,
    deleted: Set<u32>,
    value: Seq<char>,
) -> Seq<(u64, Set<u32>)> {
    if ix.contains_key(value) && ix[value].1.difference(deleted) != Set::<u32>::empty() {
        seq![(id, ix[value].1.difference(deleted))]
    } else {
        Seq::empty()
    }
}

/// The index with the entries of one more segment behind the others.
pub open spec fn with_segment(
    m: Map<Seq<char>, Seq<(u64, Set<u32>)>>,
    id: u64,
    ix: Map<Seq<char>, (ScalarView, Set<u32>)>,
    deleted: Set<u32>,
) -> Map<Seq<char>, Seq<(u64, Set<u32>)>> {
    Map::new(
        |v: Seq<char>| m.contains_key(v) || live_entry(id, ix, deleted, v).len() > 0,
        |v: Seq<char>| list_of(m, v) + live_entry(id, ix, deleted, v),
    )
}

/// What the bytes of a file hold.
pub open spec fn stored_index(bytes: Seq<u8>) -> Option<Map<Seq<char>, Seq<(u64, Set<u32>)>>> {
    match decoded_index_v1(bytes) {
        Some(m) => Some(rows_of_values(m)),
        None => None,
    }
}

impl FieldIndex {
    /// An index without values.
    pub fn new() -> (r: FieldIndex)
        ensures
            r@ == Map::<Seq<char>, Seq<(u64, Set<u32>)>>::empty(),
    {
        let r = FieldIndex { lists: TextMap::new() };
        assert(r@ =~= Map::empty());
        r
    }

    /// The list of a value.
    pub fn get(&self, value: &str) -> (r: Option<&Vec<(u64, RowSet)>>)
        ensures
            match r {
                Some(l) => self@.contains_key(value@) && postings(l@) == self@[value@],
                None => !self@.contains_key(value@),
            },
    {
        self.lists.get(value)
    }

    /// Puts an entry behind those of a value.
    pub fn push(&mut self, value: &str, id: u64, rows: RowSet)
        ensures
            final(self)@ == old(self)@.insert(
                value@,
                list_of(old(self)@, value@).push((id, rows@)),
            ),
    {
        let ghost before = self@;
        match self.lists.position(value) {
            Some(p) => {
                let mut list = self.lists.replace_at(p, Vec::new());
                let ghost had = postings(list@);
                assert(before[value@] == had);
                list.push((id, rows));
                let ghost now = postings(list@);
                assert(now =~= had.push((id, rows@)));
                let _room = self.lists.replace_at(p, list);
                assert(self@ =~= before.insert(value@, now));
            },
            None => {
                let mut list: Vec<(u64, RowSet)> = Vec::new();
                list.push((id, rows));
                let ghost now = postings(list@);
                assert(now =~= Seq::empty().push((id, rows@)));
                self.lists.insert(value, list);
                assert(self@ =~= before.insert(value@, now));
            },
        }
    }

    /// Adds what a segment holds.
    pub fn add_segment(&mut self, id: u64, values: &TextMap<Posting>, deleted: &RowSet)
        ensures
            final(self)@ == with_segment(old(self)@, id, index_view(values@), deleted@),
    {
        let ghost start = self@;
        let ghost ix = index_view(values@);
        let n = values.len();
        let mut i: usize = 0;
        assert(ix.restrict(values.keys().take(0).to_set()) =~= Map::empty());
        assert(self@ =~= with_segment(
            start,
            id,
            ix.restrict(values.keys().take(0).to_set()),
            deleted@,
        ));
        while i < n
            invariant
                i <= n == values.keys().len(),
                values.keys().no_duplicates(),
                values.keys().to_set() == values@.dom(),
                ix == index_view(values@),
                self@ == with_segment(
                    start,
                    id,
                    ix.restrict(values.keys().take(i as int).to_set()),
                    deleted@,
                ),
            decreases n - i,
        {
            let value = values.key_at(i);
            let posting = values.value_at(i);
            let ghost before = self@;
            let ghost keys = values.keys();
            let ghost part = ix.restrict(keys.take(i as int).to_set());
            proof {
                assert(keys.take(i + 1) =~= keys.take(i as int).push(value@));
                keys.take(i as int).lemma_push_to_set_commute(value@);
                assert(ix.contains_key(value@));
                assert(ix[value@] == posting@);
                assert(!keys.take(i as int).contains(value@)) by {
                    if keys.take(i as int).contains(value@) {
                        let j = choose|j: int| 0 <= j < i && keys.take(i as int)[j] == value@;
                        assert(keys[j] == keys[i as int]);
                    }
                }
                assert(ix.restrict(keys.take(i + 1).to_set()) =~= part.insert(value@, posting@));
            }
            let mut live = posting.rows.clone();
            live.subtract(deleted);
            let ghost next = part.insert(value@, posting@);
            let ghost rows = live@;
            assert forall|v: Seq<char>| v != value@ implies live_entry(id, next, deleted@, v)
                == #[trigger] live_entry(id, part, deleted@, v) by {}
            if !live.is_empty() {
                self.push(value, id, live);
                assert(live_entry(id, next, deleted@, value@) =~= seq![(id, rows)]);
            } else {
                assert(live_entry(id, next, deleted@, value@) =~= Seq::empty());
            }
            assert(live_entry(id, part, deleted@, value@) =~= Seq::empty());
            assert(list_of(before, value@) =~= list_of(start, value@));
            i = i + 1;
            assert(self@ =~= with_segment(start, id, next, deleted@)) by {
                let want = with_segment(start, id, next, deleted@);
                assert forall|v: Seq<char>| #[trigger] self@.contains_key(v) == want.contains_key(v)
                    by {
                    if v != value@ {
                        assert(self@.contains_key(v) == before.contains_key(v));
                        assert(live_entry(id, next, deleted@, v) == live_entry(
                            id,
                            part,
                            deleted@,
                            v,
                        ));
                    }
                }
                assert forall|v: Seq<char>| #[trigger] self@.contains_key(v) implies self@[v]
                    == want[v] by {
                    if v != value@ {
                        assert(self@[v] == before[v]);
                        assert(live_entry(id, next, deleted@, v) == live_entry(
                            id,
                            part,
                            deleted@,
                            v,
                        ));
                    } else {
                        assert(self@[v] =~= want[v]);
                    }
                }
            }
        }
        proof {
            assert(values.keys().take(i as int) =~= values.keys());
            assert(ix.restrict(values.keys().to_set()) =~= ix);
        }
    }

    /// Reads an index out of the bytes of a file.
    pub fn decode(bytes: &[u8]) -> (r: Result<FieldIndex, Box<bincode::ErrorKind>>)
        ensures
            match r {
                Ok(ix) => stored_index(bytes@) == Some(ix@),
                Err(_) => stored_index(bytes@) is None,
            },
    {
        match decode_index_v1(bytes) {
            Err(e) => Err(e),
            Ok(pairs) => {
                let mut r = FieldIndex::new();
                let ghost m = decoded_index_v1(bytes@)->0;
                let ghost want = rows_of_values(m);
                let mut i: usize = 0;
                while i < pairs.len()
                    invariant
                        i <= pairs@.len(),
                        crate::legacy::lists_of_values(pairs@, m),
                        want == rows_of_values(m),
                        forall|v: Seq<char>| #[trigger]
                            r@.contains_key(v) <==> exists|k: int|
                                0 <= k < i && (#[trigger] pairs@[k]).0@ == v,
                        forall|v: Seq<char>| #[trigger]
                            r@.contains_key(v) ==> want.contains_key(v) && r@[v] == want[v],
                    decreases pairs@.len() - i,
                {
                    let p = &pairs[i];
                    let ghost before = r@;
                    let list = clone_postings(p.1.as_slice());
                    let ghost rows = postings(list@);
                    r.lists.insert(p.0.as_str(), list);
                    assert(r@ =~= before.insert(p.0@, rows));
                    proof {
                        assert(m.contains_key(pairs@[i as int].0@));
                        assert forall|v: Seq<char>| #[trigger] r@.contains_key(v) <==> exists|k: int|
                            0 <= k < i + 1 && (#[trigger] pairs@[k]).0@ == v by {
                            if v == p.0@ {
                                assert(pairs@[i as int].0@ == v);
                            } else {
                                assert(r@.contains_key(v) == before.contains_key(v));
                                if exists|k: int| 0 <= k < i + 1 && (#[trigger] pairs@[k]).0@ == v {
                                    let k = choose|k: int|
                                        0 <= k < i + 1 && (#[trigger] pairs@[k]).0@ == v;
                                    assert(k < i);
                                }
                            }
                        }
                    }
                    i = i + 1;
                }
                proof {
                    assert forall|v: Seq<char>| #[trigger] want.contains_key(v) implies r@.contains_key(
                        v,
                    ) by {
                        assert(m.contains_key(v));
                        let k = choose|k: int|
                            0 <= k < pairs@.len() && (#[trigger] pairs@[k]).0@ == v;
                        assert(pairs@[k].0@ == v);
                    }
                    assert(r@ =~= want);
                }
                Ok(r)
            },
        }
    }

    /// The bytes of a file: what is read out of them is the index.
    pub fn encode(&self) -> (r: Result<Vec<u8>, Box<bincode::ErrorKind>>)
        ensures
            r is Ok,
            r matches Ok(bytes) ==> stored_index(bytes@) == Some(self@),
    {
        encode_index_v1(&self.lists)
    }
}

impl Clone for FieldIndex {
    fn clone(&self) -> (r: Self)
        ensures
            r@ == self@,
    {
        let mut out = FieldIndex::new();
        let n = self.lists.len();
        let mut i: usize = 0;
        while i < n
            invariant
                i <= n == self.lists.keys().len(),
                self.lists.keys().to_set() == self.lists@.dom(),
                out@.dom() == self.lists.keys().take(i as int).to_set(),
                forall|k: Seq<char>| #[trigger]
                    out@.contains_key(k) ==> self@.contains_key(k) && out@[k] == self@[k],
            decreases n - i,
        {
            let key = self.lists.key_at(i);
            let ghost before = out@;
            let list = clone_postings(self.lists.value_at(i).as_slice());
            let ghost rows = postings(list@);
            out.lists.insert(key, list);
            assert(out@ =~= before.insert(key@, rows));
            i = i + 1;
            proof {
                let keys = self.lists.keys();
                assert(keys.take(i as int) =~= keys.take(i - 1).push(keys[i - 1]));
                keys.take(i - 1).lemma_push_to_set_commute(keys[i - 1]);
                assert(out@.dom() =~= keys.take(i as int).to_set());
            }
        }
        assert(self.lists.keys().take(i as int) =~= self.lists.keys());
        assert(out@ =~= self@);
        out
    }
}

} // verus!
