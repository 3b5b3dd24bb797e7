//! Index from the values of a field to the rows that hold them.
//!
//! What was saved last is a snapshot; what has changed since is kept beside it
//! until the next save, and takes precedence.

use crate::canonical::{hash_key, key_hash};
use crate::entry_cache::{
    cache_clear, cache_contents, cache_get, cache_len, cache_limit, cache_new, cache_pop, cache_put,
    cached, lemma_without, refreshed, trimmed, without,
};
use crate::exact_index_v3::format::{format_error_text, magic, FormatError};
use crate::exact_index_v3::reader::{
    entry_count, entry_list, found_entry, index_sorted, law_lookup_complete, nth_entry,
    snapshot_list, snapshot_valid, SnapshotReader,
};
use crate::exact_index_v3::writer::{entry_hashes, too_long, write_exact_index_v3};
use crate::keymap::{keys_ascending, keys_of, sorted_keys};
use crate::legacy::{
    decode_index_v1, decode_index_v2, decoded_index_v1, decoded_index_v2, lists_of_values, row_list,
};
use crate::phrase::cat3;
use crate::postings::{clone_postings, postings};
use crate::primary_index::lookup;
use crate::rowset::RowSet;
use crate::settings::{exact_index_cache_per_field, lists_held};
use crate::text::{decimal, decimal_spec};
use lru::LruCache;
use std::collections::{HashMap, HashSet};
use std::sync::Arc;
use vstd::prelude::*;
use vstd::slice::slice_subrange;

verus! {

broadcast use vstd::std_specs::hash::group_hash_axioms;

/// A change since the last save.
pub enum DeltaEntry {
    Replace(Arc<Vec<(u64, RowSet)>>),
    Removed,
}

/// The list that a change puts in place; nothing where it removes it.
pub open spec fn delta_list(e: DeltaEntry) -> Option<Seq<(u64, Set<u32>)>> {
    match e {
        DeltaEntry::Replace(list) => Some(postings(list@)),
        DeltaEntry::Removed => None,
    }
}

/// The lists that changes put in place.
pub open spec fn delta_lists(m: Map<u128, DeltaEntry>) -> Map<u128, Option<Seq<(u64, Set<u32>)>>> {
    m.map_values(|e: DeltaEntry| delta_list(e))
}

impl Clone for DeltaEntry {
    fn clone(&self) -> (r: Self)
        ensures
            delta_list(r) == delta_list(*self),
    {
        match self {
            DeltaEntry::Replace(list) => DeltaEntry::Replace(list.clone()),
            DeltaEntry::Removed => DeltaEntry::Removed,
        }
    }
}

/// The list with the rows of a segment added: to the first entry of the
/// segment, or as a new entry at the end.
pub open spec fn rows_added(
    list: Seq<(u64, Set<u32>)>,
    seg: u64,
    rows: Set<u32>,
) -> Seq<(u64, Set<u32>)>
    decreases list.len(),
{
    if list.len() == 0 {
        seq![(seg, rows)]
    } else if list[0].0 == seg {
        list.update(0, (seg, list[0].1.union(rows)))
    } else {
        seq![list[0]] + rows_added(list.drop_first(), seg, rows)
    }
}

proof fn lemma_rows_added_at(list: Seq<(u64, Set<u32>)>, seg: u64, rows: Set<u32>, at: int)
    requires
        0 <= at < list.len(),
        list[at].0 == seg,
        forall|k: int| 0 <= k < at ==> (#[trigger] list[k]).0 != seg,
    ensures
        rows_added(list, seg, rows) == list.update(at, (seg, list[at].1.union(rows))),
    decreases at,
{
    if at > 0 {
        let rest = list.drop_first();
        assert(list[0].0 != seg);
        assert forall|k: int| 0 <= k < at - 1 implies (#[trigger] rest[k]).0 != seg by {
            assert(rest[k] == list[k + 1]);
        }
        lemma_rows_added_at(rest, seg, rows, at - 1);
        assert(seq![list[0]] + rest.update(at - 1, (seg, rest[at - 1].1.union(rows)))
            =~= list.update(at, (seg, list[at].1.union(rows))));
    }
}

proof fn lemma_rows_added_end(list: Seq<(u64, Set<u32>)>, seg: u64, rows: Set<u32>)
    requires
        forall|k: int| 0 <= k < list.len() ==> (#[trigger] list[k]).0 != seg,
    ensures
        rows_added(list, seg, rows) == list.push((seg, rows)),
    decreases list.len(),
{
    if list.len() == 0 {
        assert(seq![(seg, rows)] =~= list.push((seg, rows)));
    } else {
        let rest = list.drop_first();
        assert(list[0].0 != seg);
        assert forall|k: int| 0 <= k < rest.len() implies (#[trigger] rest[k]).0 != seg by {
            assert(rest[k] == list[k + 1]);
        }
        lemma_rows_added_end(rest, seg, rows);
        assert(seq![list[0]] + rest.push((seg, rows)) =~= list.push((seg, rows)));
    }
}

/// Adds the rows of a segment to a list.
pub fn add_rows(list: &mut Vec<(u64, RowSet)>, seg: u64, rows: &RowSet)
    ensures
        postings(final(list)@) == rows_added(postings(old(list)@), seg, rows@),
{
    let ghost before = postings(list@);
    let mut i: usize = 0;
    while i < list.len()
        invariant
            i <= list@.len(),
            before == postings(list@),
            before == postings(old(list)@),
            forall|k: int| 0 <= k < i ==> (#[trigger] before[k]).0 != seg,
        decreases list@.len() - i,
    {
        if list[i].0 == seg {
            let mut merged = list[i].1.clone();
            merged.union_with(rows);
            list.set(i, (seg, merged));
            proof {
                lemma_rows_added_at(before, seg, rows@, i as int);
                assert(postings(list@) =~= before.update(
                    i as int,
                    (seg, before[i as int].1.union(rows@)),
                ));
            }
            return ;
        }
        assert(before[i as int].0 != seg);
        i = i + 1;
    }
    list.push((seg, rows.clone()));
    proof {
        lemma_rows_added_end(before, seg, rows@);
        assert(postings(list@) =~= before.push((seg, rows@)));
    }
}

/// The list without the entries of removed segments.
pub open spec fn kept(list: Seq<(u64, Set<u32>)>, removed: Set<u64>) -> Seq<(u64, Set<u32>)>
    decreases list.len(),
{
    if list.len() == 0 {
        Seq::empty()
    } else if removed.contains(list.last().0) {
        kept(list.drop_last(), removed)
    } else {
        kept(list.drop_last(), removed).push(list.last())
    }
}

/// Whether the list has an entry of a removed segment.
pub open spec fn mentions(list: Seq<(u64, Set<u32>)>, removed: Set<u64>) -> bool {
    exists|i: int| 0 <= i < list.len() && removed.contains((#[trigger] list[i]).0)
}

proof fn lemma_kept(list: Seq<(u64, Set<u32>)>, removed: Set<u64>)
    ensures
        kept(list, removed).len() <= list.len(),
        mentions(list, removed) <==> kept(list, removed).len() < list.len(),
        !mentions(list, removed) ==> kept(list, removed) == list,
        !mentions(kept(list, removed), removed),
    decreases list.len(),
{
    if list.len() > 0 {
        let front = list.drop_last();
        lemma_kept(front, removed);
        if mentions(front, removed) {
            let i = choose|i: int| 0 <= i < front.len() && removed.contains((#[trigger] front[i]).0);
            assert(removed.contains(list[i].0));
        }
        if removed.contains(list.last().0) {
            assert(removed.contains(list[list.len() - 1].0));
        } else {
            if mentions(list, removed) {
                let i = choose|i: int|
                    0 <= i < list.len() && removed.contains((#[trigger] list[i]).0);
                assert(front[i] == list[i]);
                assert(removed.contains(front[i].0));
            }
            let k = kept(front, removed);
            if mentions(k.push(list.last()), removed) {
                let i = choose|i: int|
                    0 <= i < k.push(list.last()).len() && removed.contains(
                        (#[trigger] k.push(list.last())[i]).0,
                    );
                if i < k.len() {
                    assert(removed.contains(k[i].0));
                }
            }
            if !mentions(list, removed) {
                assert(front.push(list.last()) =~= list);
            }
        }
    }
}

/// What removing segments makes of a list: nothing where no entry is left.
pub open spec fn purged_list(list: Seq<(u64, Set<u32>)>, removed: Set<u64>) -> Option<
    Seq<(u64, Set<u32>)>,
> {
    if !mentions(list, removed) {
        Some(list)
    } else if kept(list, removed).len() == 0 {
        None
    } else {
        Some(kept(list, removed))
    }
}

/// What removing segments makes of an index.
pub open spec fn purged(m: Map<u128, Seq<(u64, Set<u32>)>>, removed: Set<u64>) -> Map<
    u128,
    Seq<(u64, Set<u32>)>,
> {
    Map::new(
        |h: u128| m.contains_key(h) && purged_list(m[h], removed) is Some,
        |h: u128| purged_list(m[h], removed)->0,
    )
}

fn keep_postings(list: &[(u64, RowSet)], removed: &HashSet<u64>) -> (r: Vec<(u64, RowSet)>)
    ensures
        postings(r@) == kept(postings(list@), removed@),
{
    let mut out: Vec<(u64, RowSet)> = Vec::new();
    let mut i: usize = 0;
    let ghost all = postings(list@);
    assert(all.take(0) =~= Seq::<(u64, Set<u32>)>::empty());
    assert(postings(out@) =~= Seq::<(u64, Set<u32>)>::empty());
    while i < list.len()
        invariant
            i <= list@.len(),
            all == postings(list@),
            postings(out@) == kept(all.take(i as int), removed@),
        decreases list@.len() - i,
    {
        let p = &list[i];
        assert(all.take(i + 1).drop_last() =~= all.take(i as int));
        assert(all.take(i + 1).last() == all[i as int]);
        if !removed.contains(&p.0) {
            let ghost before = postings(out@);
            out.push((p.0, p.1.clone()));
            assert(postings(out@) =~= before.push(all[i as int]));
        }
        i = i + 1;
    }
    assert(all.take(i as int) =~= all);
    out
}

/// Purges a list; nothing where it has no entry of a removed segment.
fn purge_list(list: &[(u64, RowSet)], removed: &HashSet<u64>) -> (r: Option<DeltaEntry>)
    ensures
        match r {
            None => !mentions(postings(list@), removed@),
            Some(e) => {
                &&& mentions(postings(list@), removed@)
                &&& delta_list(e) == purged_list(postings(list@), removed@)
            },
        },
{
    let rest = keep_postings(list, removed);
    proof {
        lemma_kept(postings(list@), removed@);
        assert(postings(list@).len() == list@.len());
        assert(postings(rest@).len() == rest@.len());
    }
    if rest.len() == list.len() {
        None
    } else if rest.len() == 0 {
        Some(DeltaEntry::Removed)
    } else {
        Some(DeltaEntry::Replace(Arc::new(rest)))
    }
}

/// What can go wrong when an index is opened or saved.
pub enum ExactIndexError {
    /// There is no path to save to.
    NoPath,
    /// The index section of the snapshot is out of order.
    Unsorted,
    /// The file has another version.
    UnsupportedVersion { found: u8 },
    /// An older file could not be decoded.
    Undecodable(Box<bincode::ErrorKind>),
    /// The snapshot could not be read or written.
    Format(FormatError),
}

/// An index from the values of one field to the rows that hold them.
pub struct ExactIndex {
    snapshot: Option<SnapshotReader>,
    path: Option<String>,
    delta: HashMap<u128, DeltaEntry>,
    cache: LruCache<u128, Arc<Vec<(u64, RowSet)>>>,
}

impl View for ExactIndex {
    type V = Map<u128, Seq<(u64, Set<u32>)>>;

    open spec fn view(&self) -> Map<u128, Seq<(u64, Set<u32>)>> {
        Map::new(|h: u128| self.entry(h) is Some, |h: u128| self.entry(h)->0)
    }
}

impl ExactIndex {
    /// The bytes of the snapshot.
    pub closed spec fn snapshot_view(&self) -> Option<Seq<u8>> {
        match self.snapshot {
            Some(r) => Some(r@),
            None => None,
        }
    }

    /// The changes since the last save.
    pub closed spec fn pending(&self) -> Map<u128, Option<Seq<(u64, Set<u32>)>>> {
        delta_lists(self.delta@)
    }

    /// Where the index is saved.
    pub closed spec fn bound(&self) -> Option<Seq<char>> {
        match self.path {
            Some(p) => Some(p@),
            None => None,
        }
    }

    /// The lists that are held decoded.
    pub closed spec fn decoded(&self) -> Seq<(u128, Seq<(u64, Set<u32>)>)> {
        cache_contents(self.cache)
    }

    /// How many lists are held decoded at most.
    pub closed spec fn limit(&self) -> nat {
        cache_limit(self.cache)
    }

    /// Whether the decoded lists are those of the snapshot.
    pub closed spec fn wf(&self) -> bool {
        &&& cache_limit(self.cache) > 0
        &&& self.snapshot_view() matches Some(b) ==> snapshot_valid(b)
        &&& forall|i: int|
            0 <= i < self.decoded().len() ==> {
                &&& self.snapshot_view() is Some
                &&& snapshot_list(self.snapshot_view()->0, (#[trigger] self.decoded()[i]).0)
                    == Some(self.decoded()[i].1)
            }
    }

    /// Whether the index section of the snapshot is in order.
    pub open spec fn ordered(&self) -> bool {
        self.snapshot_view() matches Some(b) ==> index_sorted(b)
    }

    /// What the snapshot has under a hash.
    pub open spec fn saved(&self, h: u128) -> Option<Seq<(u64, Set<u32>)>> {
        match self.snapshot_view() {
            Some(b) => snapshot_list(b, h),
            None => None,
        }
    }

    /// What the index has under a hash: the change, where there is one, else
    /// what the snapshot has.
    pub open spec fn entry(&self, h: u128) -> Option<Seq<(u64, Set<u32>)>> {
        if self.pending().contains_key(h) {
            self.pending()[h]
        } else {
            self.saved(h)
        }
    }

    /// An empty index for which at most `capacity` lists are held decoded.
    pub fn with_cache(capacity: usize) -> (r: ExactIndex)
        requires
            0 < capacity <= usize::MAX / 128,
        ensures
            r.wf(),
            r.limit() == capacity,
            r.ordered(),
            r@ == Map::<u128, Seq<(u64, Set<u32>)>>::empty(),
            r.pending().is_empty(),
            r.snapshot_view() is None,
            r.bound() is None,
            r.decoded().len() == 0,
    {
        let r = ExactIndex {
            snapshot: None,
            path: None,
            delta: HashMap::new(),
            cache: cache_new(capacity),
        };
        assert(r.pending() =~= Map::empty());
        assert(r@ =~= Map::empty());
        r
    }

    /// An empty index, which holds as many lists decoded as without a setting.
    pub fn new() -> (r: ExactIndex)
        ensures
            r.wf(),
            r.limit() == lists_held(None),
            r.ordered(),
            r@ == Map::<u128, Seq<(u64, Set<u32>)>>::empty(),
            r.pending().is_empty(),
            r.snapshot_view() is None,
            r.bound() is None,
            r.decoded().len() == 0,
    {
        ExactIndex::with_cache(exact_index_cache_per_field(None))
    }

    /// The hash under which a value is filed.
    pub fn hash(value: &str) -> (r: u128)
        ensures
            r == key_hash(value@),
    {
        hash_key(value)
    }

    /// The rows that hold a value. The list is held decoded from then on.
    pub fn get(&mut self, value: &str) -> (r: Option<Arc<Vec<(u64, RowSet)>>>)
        requires
            old(self).wf(),
        ensures
            final(self).wf(),
            final(self)@ == old(self)@,
            final(self).pending() == old(self).pending(),
            final(self).snapshot_view() == old(self).snapshot_view(),
            final(self).bound() == old(self).bound(),
            final(self).limit() == old(self).limit(),
            final(self).decoded() == decoded_after(*old(self), key_hash(value@)),
            match r {
                Some(list) => lookup(old(self)@, key_hash(value@)) == Some(postings(list@)),
                None => lookup(old(self)@, key_hash(value@)) is None,
            },
    {
        let hash: u128 = hash_key(value);
        match self.delta.get(&hash) {
            Some(DeltaEntry::Replace(list)) => {
                assert(self.pending()[hash] == Some(postings(list@)));
                return Some(list.clone());
            },
            Some(DeltaEntry::Removed) => {
                assert(self.pending()[hash] is None);
                return None;
            },
            None => {},
        }
        assert(!self.pending().contains_key(hash));
        let ghost before = *self;
        let hit = cache_get(&mut self.cache, hash);
        if let Some(list) = hit {
            proof {
                let old_list = before.decoded();
                assert(old_list.contains((hash, postings(list@))));
                let i = choose|i: int|
                    0 <= i < old_list.len() && old_list[i] == (hash, postings(list@));
                assert(old_list[i].0 == hash);
                assert(cached(old_list, hash));
                assert(snapshot_list(before.snapshot_view()->0, before.decoded()[i].0) == Some(
                    before.decoded()[i].1,
                ));
                lemma_refreshed_coherent(before, *self, hash, postings(list@));
                assert(self@ =~= before@);
            }
            return Some(list);
        }
        assert(self@ =~= before@);
        let found = match &self.snapshot {
            None => None,
            Some(reader) => match reader.get(hash) {
                Ok(Some(list)) => Some(list),
                Ok(None) => None,
                Err(_) => None,
            },
        };
        match found {
            None => None,
            Some(list) => {
                let shared = Arc::new(list);
                let ghost mid = *self;
                cache_put(&mut self.cache, hash, shared.clone());
                proof {
                    lemma_refreshed_coherent(mid, *self, hash, postings(shared@));
                    assert(self@ =~= before@);
                }
                Some(shared)
            },
        }
    }

    /// Files a list under a value.
    pub fn insert(&mut self, value: &str, bitmaps: Vec<(u64, RowSet)>)
        requires
            old(self).wf(),
        ensures
            final(self).wf(),
            final(self)@ == old(self)@.insert(key_hash(value@), postings(bitmaps@)),
            final(self).pending() == old(self).pending().insert(
                key_hash(value@),
                Some(postings(bitmaps@)),
            ),
            final(self).snapshot_view() == old(self).snapshot_view(),
            final(self).bound() == old(self).bound(),
            final(self).limit() == old(self).limit(),
            final(self).decoded() == without(old(self).decoded(), key_hash(value@)),
    {
        let hash: u128 = hash_key(value);
        self.put_pending(hash, DeltaEntry::Replace(Arc::new(bitmaps)));
        assert(self@ =~= old(self)@.insert(hash, postings(bitmaps@)));
    }

    fn put_pending(&mut self, hash: u128, entry: DeltaEntry)
        requires
            old(self).wf(),
        ensures
            final(self).wf(),
            final(self).pending() == old(self).pending().insert(hash, delta_list(entry)),
            final(self).snapshot_view() == old(self).snapshot_view(),
            final(self).bound() == old(self).bound(),
            final(self).limit() == old(self).limit(),
            final(self).decoded() == without(old(self).decoded(), hash),
    {
        self.delta.insert(hash, entry);
        cache_pop(&mut self.cache, hash);
        proof {
            lemma_without(old(self).decoded(), hash);
            assert forall|i: int| 0 <= i < self.decoded().len() implies {
                &&& self.snapshot_view() is Some
                &&& snapshot_list(self.snapshot_view()->0, (#[trigger] self.decoded()[i]).0)
                    == Some(self.decoded()[i].1)
            } by {
                let e = self.decoded()[i];
                assert(old(self).decoded().contains(e));
                let j = choose|j: int|
                    0 <= j < old(self).decoded().len() && old(self).decoded()[j] == e;
                assert(old(self).decoded()[j] == e);
            }
            assert(self.pending() =~= old(self).pending().insert(hash, delta_list(entry)));
        }
    }

    /// Adds the rows that hold each value in a segment.
    pub fn merge_segment(&mut self, seg_id: u64, segment_bitmaps: &[(String, RowSet)])
        requires
            old(self).wf(),
        ensures
            final(self).wf(),
            final(self)@ == segment_merged(old(self)@, seg_id, value_rows(segment_bitmaps@)),
            final(self).pending() == merged_changes(
                old(self).pending(),
                final(self)@,
                value_rows(segment_bitmaps@),
            ),
            final(self).snapshot_view() == old(self).snapshot_view(),
            final(self).bound() == old(self).bound(),
            final(self).limit() == old(self).limit(),
            final(self).decoded() == without_values(
                old(self).decoded(),
                value_rows(segment_bitmaps@),
            ),
    {
        let ghost all = value_rows(segment_bitmaps@);
        let mut i: usize = 0;
        assert(all.take(0) =~= Seq::<(Seq<char>, Set<u32>)>::empty());
        assert(self.pending() =~= merged_changes(old(self).pending(), self@, all.take(0)));
        while i < segment_bitmaps.len()
            invariant
                i <= segment_bitmaps@.len(),
                all == value_rows(segment_bitmaps@),
                self.wf(),
                self@ == segment_merged(old(self)@, seg_id, all.take(i as int)),
                self.pending() == merged_changes(old(self).pending(), self@, all.take(i as int)),
                self.snapshot_view() == old(self).snapshot_view(),
                self.bound() == old(self).bound(),
                self.limit() == old(self).limit(),
                self.decoded() == without_values(old(self).decoded(), all.take(i as int)),
            decreases segment_bitmaps@.len() - i,
        {
            let ghost before = self@;
            let ghost state = *self;
            let pair = &segment_bitmaps[i];
            let hash: u128 = hash_key(pair.0.as_str());
            let mut list: Vec<(u64, RowSet)> = match self.delta.get(&hash) {
                Some(DeltaEntry::Replace(shared)) => {
                    assert(state.pending()[hash] == Some(postings(shared@)));
                    clone_postings(shared.as_slice())
                },
                Some(DeltaEntry::Removed) => {
                    assert(state.pending()[hash] is None);
                    Vec::new()
                },
                None => {
                    assert(!state.pending().contains_key(hash));
                    match &self.snapshot {
                        None => Vec::new(),
                        Some(reader) => match reader.get(hash) {
                            Ok(Some(found)) => found,
                            Ok(None) => Vec::new(),
                            Err(_) => Vec::new(),
                        },
                    }
                },
            };
            assert(postings(list@) =~= current_list(before, hash));
            add_rows(&mut list, seg_id, &pair.1);
            self.put_pending(hash, DeltaEntry::Replace(Arc::new(list)));
            proof {
                assert(all.take(i + 1).drop_last() =~= all.take(i as int));
                assert(all.take(i + 1).last() == all[i as int]);
                assert(self@ =~= before.insert(
                    hash,
                    rows_added(current_list(before, hash), seg_id, pair.1@),
                ));
                lemma_merged_changes(old(self).pending(), state, *self, all.take(i as int), pair.0@);
                assert(all.take(i + 1) =~= all.take(i as int).push(all[i as int]));
            }
            i = i + 1;
        }
        assert(all.take(i as int) =~= all);
    }

    /// Removes segments from every list, and tells whether any list changed.
    pub fn purge_segments(&mut self, removed_seg_ids: &HashSet<u64>) -> (r: bool)
        requires
            old(self).wf(),
        ensures
            final(self).wf(),
            final(self).pending() == changes_filed(
                old(self).pending(),
                purges_of(*old(self), removed_seg_ids@),
            ).map_values(|c: Option<Seq<(u64, Set<u32>)>>| purged_change(c, removed_seg_ids@)),
            r == (purges_of(*old(self), removed_seg_ids@).len() > 0 || exists|h: u128|
                #![trigger old(self).pending()[h]]
                old(self).pending().contains_key(h) && old(self).pending()[h] is Some && mentions(
                    old(self).pending()[h]->0,
                    removed_seg_ids@,
                )),
            old(self).ordered() ==> final(self)@ == purged(old(self)@, removed_seg_ids@),
            old(self).ordered() ==> r == (exists|h: u128|
                #![trigger old(self)@[h]]
                old(self)@.contains_key(h) && mentions(old(self)@[h], removed_seg_ids@)),
            old(self).ordered() ==> final(self).pending() == purged_changes(
                *old(self),
                final(self)@,
                removed_seg_ids@,
            ),
            final(self).snapshot_view() == old(self).snapshot_view(),
            final(self).bound() == old(self).bound(),
            final(self).limit() == old(self).limit(),
            final(self).decoded() == if r {
                Seq::empty()
            } else {
                old(self).decoded()
            },
    {
        let ghost start = *self;
        let mut changed: bool = false;
        let to_apply: Vec<(u128, DeltaEntry)> = match &self.snapshot {
            None => Vec::new(),
            Some(reader) => purge_snapshot(reader, &self.delta, removed_seg_ids),
        };
        let ghost purges = change_views(to_apply@);
        assert(purges =~= purges_of(start, removed_seg_ids@));
        assert(purges.take(0) =~= Seq::empty());
        let mut i: usize = 0;
        while i < to_apply.len()
            invariant
                i <= to_apply@.len(),
                changed == (i > 0),
                purges == change_views(to_apply@),
                self.pending() == changes_filed(start.pending(), purges.take(i as int)),
                self.snapshot == start.snapshot,
                self.path == start.path,
                self.cache == start.cache,
                forall|h: u128|
                    #![trigger self.pending().contains_key(h)]
                    self.pending().contains_key(h) <==> start.pending().contains_key(h) || exists|
                        k: int,
                    |
                        0 <= k < i && (#[trigger] to_apply@[k]).0 == h,
                forall|h: u128|
                    #![trigger self.pending()[h]]
                    start.pending().contains_key(h) && !(exists|k: int|
                        0 <= k < i && (#[trigger] to_apply@[k]).0 == h) ==> self.pending()[h]
                        == start.pending()[h],
                start.ordered() ==> forall|k: int|
                    #![trigger to_apply@[k]]
                    0 <= k < to_apply@.len() ==> {
                        &&& !start.pending().contains_key(to_apply@[k].0)
                        &&& start.saved(to_apply@[k].0) is Some
                        &&& mentions(start.saved(to_apply@[k].0)->0, removed_seg_ids@)
                        &&& delta_list(to_apply@[k].1) == purged_list(
                            start.saved(to_apply@[k].0)->0,
                            removed_seg_ids@,
                        )
                    },
                start.ordered() ==> forall|k: int|
                    #![trigger to_apply@[k]]
                    0 <= k < i ==> self.pending()[to_apply@[k].0] == purged_list(
                        start.saved(to_apply@[k].0)->0,
                        removed_seg_ids@,
                    ),
            decreases to_apply@.len() - i,
        {
            let pair = &to_apply[i];
            let ghost before = self.pending();
            self.delta.insert(pair.0, pair.1.clone());
            changed = true;
            assert(self.pending() =~= before.insert(pair.0, delta_list(pair.1)));
            assert(purges.take(i + 1).drop_last() =~= purges.take(i as int));
            assert(purges.take(i + 1).last() == (pair.0, delta_list(pair.1)));
            i = i + 1;
        }
        let ghost mid = self.pending();
        assert(purges.take(i as int) =~= purges);
        let more = purge_delta(&mut self.delta, removed_seg_ids);
        if more {
            changed = true;
        }
        if changed {
            cache_clear(&mut self.cache);
        }
        proof {
            assert(self.pending() =~= mid.map_values(
                |c: Option<Seq<(u64, Set<u32>)>>| purged_change(c, removed_seg_ids@),
            ));
            if start.ordered() {
                lemma_purge_result(start, *self, mid, to_apply@, removed_seg_ids@);
                assert(self@ =~= purged(start@, removed_seg_ids@));
                if exists|h: u128|
                    #![trigger start@[h]]
                    start@.contains_key(h) && mentions(start@[h], removed_seg_ids@) {
                    let h = choose|h: u128|
                        #![trigger start@[h]]
                        start@.contains_key(h) && mentions(start@[h], removed_seg_ids@);
                    if to_apply@.len() == 0 {
                        assert(mid =~= start.pending());
                    }
                    lemma_purge_changed(start, mid, to_apply@, removed_seg_ids@, h);
                }
                if changed {
                    if to_apply@.len() > 0 {
                        let h = to_apply@[0].0;
                        assert(start.entry(h) is Some);
                        assert(start@.contains_key(h) && mentions(start@[h], removed_seg_ids@));
                    } else {
                        let h = choose|h: u128|
                            #![trigger mid[h]]
                            mid.contains_key(h) && mid[h] is Some && mentions(
                                mid[h]->0,
                                removed_seg_ids@,
                            );
                        assert(start.pending().contains_key(h));
                        assert(start@.contains_key(h) && mentions(start@[h], removed_seg_ids@));
                    }
                }
            }
        }
        changed
    }

    /// How many changes there are since the last save.
    pub fn delta_len(&self) -> (r: usize)
        ensures
            r == self.pending().dom().len(),
    {
        assert(self.pending().dom() =~= self.delta@.dom());
        self.delta.len()
    }

    /// How many lists are held decoded.
    pub fn cache_len(&self) -> (r: usize)
        ensures
            r == self.decoded().len(),
    {
        cache_len(&self.cache)
    }

    /// Says where the index is saved.
    pub fn bind_path(&mut self, path: &str)
        ensures
            final(self).wf() == old(self).wf(),
            final(self)@ == old(self)@,
            final(self).pending() == old(self).pending(),
            final(self).snapshot_view() == old(self).snapshot_view(),
            final(self).bound() == Some(path@),
            final(self).limit() == old(self).limit(),
            final(self).decoded() == old(self).decoded(),
    {
        self.path = Some(path.to_owned());
        assert(self@ =~= old(self)@);
    }
}

/// The lists that are held decoded after one was asked for: one of the snapshot is the
/// first of them from then on.
pub open spec fn decoded_after(idx: ExactIndex, h: u128) -> Seq<(u128, Seq<(u64, Set<u32>)>)> {
    match idx.saved(h) {
        Some(list) => if idx.pending().contains_key(h) {
            idx.decoded()
        } else if cached(idx.decoded(), h) {
            refreshed(idx.decoded(), h, list)
        } else {
            trimmed(refreshed(idx.decoded(), h, list), idx.limit())
        },
        None => idx.decoded(),
    }
}

/// Whether one of some values has this hash.
pub open spec fn names_hash(values: Seq<(Seq<char>, Set<u32>)>, h: u128) -> bool {
    exists|i: int| 0 <= i < values.len() && key_hash((#[trigger] values[i]).0) == h
}

/// The changes once some values have the lists of an index.
pub open spec fn merged_changes(
    pending: Map<u128, Option<Seq<(u64, Set<u32>)>>>,
    m: Map<u128, Seq<(u64, Set<u32>)>>,
    values: Seq<(Seq<char>, Set<u32>)>,
) -> Map<u128, Option<Seq<(u64, Set<u32>)>>> {
    Map::new(
        |h: u128| pending.contains_key(h) || names_hash(values, h),
        |h: u128|
            if names_hash(values, h) {
                lookup(m, h)
            } else {
                pending[h]
            },
    )
}

/// What is held decoded without the lists of some values.
pub open spec fn without_values(
    s: Seq<(u128, Seq<(u64, Set<u32>)>)>,
    values: Seq<(Seq<char>, Set<u32>)>,
) -> Seq<(u128, Seq<(u64, Set<u32>)>)>
    decreases values.len(),
{
    if values.len() == 0 {
        s
    } else {
        without(without_values(s, values.drop_last()), key_hash(values.last().0))
    }
}

/// The changes that removing segments makes in the first entries of a snapshot: of each
/// list that can be read, mentions one of them and was not changed before.
pub open spec fn snapshot_purges(
    b: Seq<u8>,
    n: int,
    pending: Map<u128, Option<Seq<(u64, Set<u32>)>>>,
    removed: Set<u64>,
) -> Seq<(u128, Option<Seq<(u64, Set<u32>)>>)>
    decreases n,
{
    if n <= 0 {
        Seq::empty()
    } else {
        let front = snapshot_purges(b, n - 1, pending, removed);
        let e = nth_entry(b, n - 1);
        match entry_list(b, e) {
            Some(list) => if !pending.contains_key(e.hash) && mentions(list, removed) {
                front.push((e.hash, purged_list(list, removed)))
            } else {
                front
            },
            None => front,
        }
    }
}

/// The changes that removing segments makes in the entries of the snapshot.
pub open spec fn purges_of(idx: ExactIndex, removed: Set<u64>) -> Seq<
    (u128, Option<Seq<(u64, Set<u32>)>>),
> {
    match idx.snapshot_view() {
        Some(b) => snapshot_purges(b, entry_count(b) as int, idx.pending(), removed),
        None => Seq::empty(),
    }
}

/// The changes with more of them, a later one over an earlier one.
pub open spec fn changes_filed(
    pending: Map<u128, Option<Seq<(u64, Set<u32>)>>>,
    changes: Seq<(u128, Option<Seq<(u64, Set<u32>)>>)>,
) -> Map<u128, Option<Seq<(u64, Set<u32>)>>>
    decreases changes.len(),
{
    if changes.len() == 0 {
        pending
    } else {
        changes_filed(pending, changes.drop_last()).insert(changes.last().0, changes.last().1)
    }
}

/// What changes put in place.
pub open spec fn change_views(v: Seq<(u128, DeltaEntry)>) -> Seq<
    (u128, Option<Seq<(u64, Set<u32>)>>),
> {
    v.map_values(|p: (u128, DeltaEntry)| (p.0, delta_list(p.1)))
}

/// The changes once segments were removed: those that were there, and those of the
/// lists of the snapshot that lost an entry.
pub open spec fn purged_changes(
    old: ExactIndex,
    m: Map<u128, Seq<(u64, Set<u32>)>>,
    removed: Set<u64>,
) -> Map<u128, Option<Seq<(u64, Set<u32>)>>> {
    Map::new(
        |h: u128|
            old.pending().contains_key(h) || old.saved(h) is Some && mentions(
                old.saved(h)->0,
                removed,
            ),
        |h: u128| lookup(m, h),
    )
}

proof fn lemma_merged_changes(
    start: Map<u128, Option<Seq<(u64, Set<u32>)>>>,
    before: ExactIndex,
    after: ExactIndex,
    values: Seq<(Seq<char>, Set<u32>)>,
    value: Seq<char>,
)
    requires
        before.pending() == merged_changes(start, before@, values),
        after.pending().contains_key(key_hash(value)),
        after.pending()[key_hash(value)] is Some,
        after.pending() == before.pending().insert(
            key_hash(value),
            after.pending()[key_hash(value)],
        ),
        after.snapshot_view() == before.snapshot_view(),
    ensures
        forall|rows: Set<u32>|
            after.pending() == #[trigger] merged_changes(
                start,
                after@,
                values.push((value, rows)),
            ),
{
    let hash = key_hash(value);
    assert forall|rows: Set<u32>|
        after.pending() == #[trigger] merged_changes(start, after@, values.push((value, rows))) by {
        let more = values.push((value, rows));
        assert forall|h: u128| #[trigger] names_hash(more, h) <==> names_hash(values, h) || h
            == hash by {
            if names_hash(values, h) {
                let i = choose|i: int|
                    0 <= i < values.len() && key_hash((#[trigger] values[i]).0) == h;
                assert(more[i] == values[i]);
            }
            if names_hash(more, h) {
                let i = choose|i: int|
                    0 <= i < more.len() && key_hash((#[trigger] more[i]).0) == h;
                if i < values.len() {
                    assert(more[i] == values[i]);
                }
            }
            assert(more[values.len() as int].0 == value);
        }
        let want = merged_changes(start, after@, more);
        assert forall|h: u128| after.pending().contains_key(h) implies after.pending()[h]
            == want[h] by {
            assert(after@.contains_key(h) == after.entry(h) is Some);
            assert(before@.contains_key(h) == before.entry(h) is Some);
            if h != hash {
                assert(before.pending().contains_key(h));
                assert(before.pending()[h] == merged_changes(start, before@, values)[h]);
            }
        }
        assert(after.pending() =~= want);
    }
}

/// The list under a hash, empty where there is none.
pub open spec fn current_list(m: Map<u128, Seq<(u64, Set<u32>)>>, h: u128) -> Seq<(u64, Set<u32>)> {
    if m.contains_key(h) {
        m[h]
    } else {
        Seq::empty()
    }
}

/// The values of a segment and the rows that hold them.
pub open spec fn value_rows(v: Seq<(String, RowSet)>) -> Seq<(Seq<char>, Set<u32>)> {
    v.map_values(|p: (String, RowSet)| (p.0@, p.1@))
}

/// The index with the rows of a segment added, value by value.
pub open spec fn segment_merged(
    m: Map<u128, Seq<(u64, Set<u32>)>>,
    seg: u64,
    values: Seq<(Seq<char>, Set<u32>)>,
) -> Map<u128, Seq<(u64, Set<u32>)>>
    decreases values.len(),
{
    if values.len() == 0 {
        m
    } else {
        let before = segment_merged(m, seg, values.drop_last());
        let h = key_hash(values.last().0);
        before.insert(h, rows_added(current_list(before, h), seg, values.last().1))
    }
}

proof fn lemma_refreshed_coherent(
    before: ExactIndex,
    after: ExactIndex,
    hash: u128,
    list: Seq<(u64, Set<u32>)>,
)
    requires
        before.wf(),
        after.snapshot == before.snapshot,
        cache_limit(after.cache) == cache_limit(before.cache),
        before.snapshot_view() is Some,
        snapshot_list(before.snapshot_view()->0, hash) == Some(list),
        after.decoded() == refreshed(before.decoded(), hash, list) || after.decoded() == refreshed(
            before.decoded(),
            hash,
            list,
        ).drop_last(),
    ensures
        after.wf(),
{
    lemma_without(before.decoded(), hash);
    assert forall|i: int| 0 <= i < after.decoded().len() implies {
        &&& after.snapshot_view() is Some
        &&& snapshot_list(after.snapshot_view()->0, (#[trigger] after.decoded()[i]).0) == Some(
            after.decoded()[i].1,
        )
    } by {
        let e = after.decoded()[i];
        if i > 0 {
            assert(e == without(before.decoded(), hash)[i - 1]);
            assert(before.decoded().contains(e));
            let j = choose|j: int| 0 <= j < before.decoded().len() && before.decoded()[j] == e;
            assert(before.decoded()[j] == e);
        }
    }
}

fn purge_snapshot(
    reader: &SnapshotReader,
    delta: &HashMap<u128, DeltaEntry>,
    removed: &HashSet<u64>,
) -> (r: Vec<(u128, DeltaEntry)>)
    ensures
        change_views(r@) == snapshot_purges(
            reader@,
            entry_count(reader@) as int,
            delta_lists(delta@),
            removed@,
        ),
        index_sorted(reader@) ==> forall|k: int|
            #![trigger r@[k]]
            0 <= k < r@.len() ==> {
                &&& !delta@.contains_key(r@[k].0)
                &&& snapshot_list(reader@, r@[k].0) is Some
                &&& mentions(snapshot_list(reader@, r@[k].0)->0, removed@)
                &&& delta_list(r@[k].1) == purged_list(
                    snapshot_list(reader@, r@[k].0)->0,
                    removed@,
                )
            },
        index_sorted(reader@) ==> forall|h: u128|
            #![trigger snapshot_list(reader@, h)]
            !delta@.contains_key(h) && snapshot_list(reader@, h) is Some && mentions(
                snapshot_list(reader@, h)->0,
                removed@,
            ) ==> exists|k: int| 0 <= k < r@.len() && (#[trigger] r@[k]).0 == h,
{
    let entries = reader.iter_entries();
    let mut out: Vec<(u128, DeltaEntry)> = Vec::new();
    let mut i: usize = 0;
    assert(change_views(out@) =~= Seq::empty());
    while i < entries.len()
        invariant
            i <= entries@.len() == entry_count(reader@),
            change_views(out@) == snapshot_purges(
                reader@,
                i as int,
                delta_lists(delta@),
                removed@,
            ),
            forall|j: int|
                0 <= j < entries@.len() ==> match #[trigger] entries@[j] {
                    Ok(pair) => {
                        &&& pair.0 == nth_entry(reader@, j).hash
                        &&& entry_list(reader@, nth_entry(reader@, j)) == Some(postings(pair.1@))
                    },
                    Err(_) => entry_list(reader@, nth_entry(reader@, j)) is None,
                },
            index_sorted(reader@) ==> forall|k: int|
                #![trigger out@[k]]
                0 <= k < out@.len() ==> {
                    &&& !delta@.contains_key(out@[k].0)
                    &&& snapshot_list(reader@, out@[k].0) is Some
                    &&& mentions(snapshot_list(reader@, out@[k].0)->0, removed@)
                    &&& delta_list(out@[k].1) == purged_list(
                        snapshot_list(reader@, out@[k].0)->0,
                        removed@,
                    )
                },
            index_sorted(reader@) ==> forall|j: int|
                0 <= j < i && !delta@.contains_key((#[trigger] nth_entry(reader@, j)).hash)
                    && entry_list(reader@, nth_entry(reader@, j)) is Some && mentions(
                    entry_list(reader@, nth_entry(reader@, j))->0,
                    removed@,
                ) ==> exists|k: int|
                    0 <= k < out@.len() && (#[trigger] out@[k]).0 == nth_entry(reader@, j).hash,
        decreases entries@.len() - i,
    {
        let ghost had = out@;
        match &entries[i] {
            Err(_) => {},
            Ok(pair) => {
                if !delta.contains_key(&pair.0) {
                    match purge_list(pair.1.as_slice(), removed) {
                        None => {},
                        Some(e) => {
                            proof {
                                if index_sorted(reader@) {
                                    law_lookup_complete(reader@, pair.0);
                                    assert(nth_entry(reader@, i as int).hash == pair.0);
                                }
                            }
                            let ghost view = delta_list(e);
                            out.push((pair.0, e));
                            assert(out@[had.len() as int].0 == pair.0);
                            assert(change_views(out@) =~= change_views(had).push((pair.0, view)));
                        },
                    }
                }
            },
        }
        i = i + 1;
        proof {
            assert(forall|k: int| 0 <= k < had.len() ==> out@[k] == had[k]);
        }
    }
    proof {
        if index_sorted(reader@) {
            assert forall|h: u128|
                #![trigger snapshot_list(reader@, h)]
                !delta@.contains_key(h) && snapshot_list(reader@, h) is Some && mentions(
                    snapshot_list(reader@, h)->0,
                    removed@,
                ) implies exists|k: int| 0 <= k < out@.len() && (#[trigger] out@[k]).0 == h by {
                law_lookup_complete(reader@, h);
                let j = choose|j: int|
                    0 <= j < entry_count(reader@) && (#[trigger] nth_entry(reader@, j)).hash == h;
                assert(found_entry(reader@, h) == Some(nth_entry(reader@, j)));
            }
        }
    }
    out
}

fn purge_delta(delta: &mut HashMap<u128, DeltaEntry>, removed: &HashSet<u64>) -> (r: bool)
    ensures
        delta_lists(final(delta)@).dom() == delta_lists(old(delta)@).dom(),
        forall|h: u128|
            #![trigger delta_lists(final(delta)@)[h]]
            old(delta)@.contains_key(h) ==> delta_lists(final(delta)@)[h] == purged_change(
                delta_lists(old(delta)@)[h],
                removed@,
            ),
        r == (exists|h: u128|
            #![trigger delta_lists(old(delta)@)[h]]
            delta_lists(old(delta)@).contains_key(h) && delta_lists(old(delta)@)[h] is Some
                && mentions(delta_lists(old(delta)@)[h]->0, removed@)),
{
    let ghost start = delta@;
    let keys = keys_of(delta);
    let mut changed: bool = false;
    let mut i: usize = 0;
    while i < keys.len()
        invariant
            i <= keys@.len(),
            keys@.to_set() == start.dom(),
            keys@.no_duplicates(),
            delta@.dom() == start.dom(),
            forall|k: int|
                0 <= k < i ==> delta_list(delta@[#[trigger] keys@[k]]) == purged_change(
                    delta_list(start[keys@[k]]),
                    removed@,
                ),
            forall|k: int|
                i <= k < keys@.len() ==> delta@[#[trigger] keys@[k]] == start[keys@[k]],
            changed == (exists|k: int|
                0 <= k < i && delta_list(start[#[trigger] keys@[k]]) is Some && mentions(
                    delta_list(start[keys@[k]])->0,
                    removed@,
                )),
        decreases keys@.len() - i,
    {
        let hash: u128 = keys[i];
        assert(keys@.to_set().contains(hash));
        let change: Option<DeltaEntry> = match delta.get(&hash) {
            Some(DeltaEntry::Replace(list)) => purge_list(list.as_slice(), removed),
            Some(DeltaEntry::Removed) => None,
            None => None,
        };
        let ghost before = delta@;
        assert(before[hash] == start[hash]);
        match change {
            None => {},
            Some(e) => {
                changed = true;
                delta.insert(hash, e);
                assert(delta@.dom() =~= start.dom());
            },
        }
        proof {
            assert forall|k: int| i < k < keys@.len() implies delta@[#[trigger] keys@[k]]
                == start[keys@[k]] by {
                assert(keys@[k] != keys@[i as int]);
            }
            assert forall|k: int| 0 <= k < i implies delta_list(delta@[#[trigger] keys@[k]])
                == purged_change(delta_list(start[keys@[k]]), removed@) by {
                assert(keys@[k] != keys@[i as int]);
            }
            assert(keys@[i as int] == hash);
        }
        i = i + 1;
    }
    proof {
        assert(delta_lists(delta@).dom() =~= delta_lists(start).dom());
        assert forall|h: u128|
            #![trigger delta_lists(delta@)[h]]
            start.contains_key(h) implies delta_lists(delta@)[h] == purged_change(
            delta_lists(start)[h],
            removed@,
        ) by {
            assert(keys@.to_set().contains(h));
            let k = choose|k: int| 0 <= k < keys@.len() && keys@[k] == h;
            assert(keys@[k] == h);
        }
        if changed {
            let k = choose|k: int|
                0 <= k < i && delta_list(start[#[trigger] keys@[k]]) is Some && mentions(
                    delta_list(start[keys@[k]])->0,
                    removed@,
                );
            let h = keys@[k];
            assert(keys@.to_set().contains(h));
            assert(delta_lists(start)[h] == delta_list(start[h]));
        }
        if exists|h: u128|
            #![trigger delta_lists(start)[h]]
            delta_lists(start).contains_key(h) && delta_lists(start)[h] is Some && mentions(
                delta_lists(start)[h]->0,
                removed@,
            ) {
            let h = choose|h: u128|
                #![trigger delta_lists(start)[h]]
                delta_lists(start).contains_key(h) && delta_lists(start)[h] is Some && mentions(
                    delta_lists(start)[h]->0,
                    removed@,
                );
            assert(keys@.to_set().contains(h));
            let k = choose|k: int| 0 <= k < keys@.len() && keys@[k] == h;
            assert(delta_list(start[keys@[k]]) is Some);
        }
    }
    changed
}

/// What removing segments makes of a change.
pub open spec fn purged_change(c: Option<Seq<(u64, Set<u32>)>>, removed: Set<u64>) -> Option<
    Seq<(u64, Set<u32>)>,
> {
    match c {
        Some(list) => purged_list(list, removed),
        None => None,
    }
}

proof fn lemma_purge_result(
    start: ExactIndex,
    end: ExactIndex,
    mid: Map<u128, Option<Seq<(u64, Set<u32>)>>>,
    applied: Seq<(u128, DeltaEntry)>,
    removed: Set<u64>,
)
    requires
        start.ordered(),
        end.snapshot == start.snapshot,
        end.pending().dom() == mid.dom(),
        forall|h: u128|
            #![trigger end.pending()[h]]
            mid.contains_key(h) ==> end.pending()[h] == purged_change(mid[h], removed),
        forall|h: u128|
            #![trigger mid.contains_key(h)]
            mid.contains_key(h) <==> start.pending().contains_key(h) || exists|k: int|
                0 <= k < applied.len() && (#[trigger] applied[k]).0 == h,
        forall|h: u128|
            #![trigger mid[h]]
            start.pending().contains_key(h) && !(exists|k: int|
                0 <= k < applied.len() && (#[trigger] applied[k]).0 == h) ==> mid[h]
                == start.pending()[h],
        forall|k: int|
            #![trigger applied[k]]
            0 <= k < applied.len() ==> {
                &&& !start.pending().contains_key(applied[k].0)
                &&& start.saved(applied[k].0) is Some
                &&& mid[applied[k].0] == purged_list(start.saved(applied[k].0)->0, removed)
            },
        forall|h: u128|
            #![trigger start.saved(h)]
            !start.pending().contains_key(h) && start.saved(h) is Some && mentions(
                start.saved(h)->0,
                removed,
            ) ==> exists|k: int| 0 <= k < applied.len() && (#[trigger] applied[k]).0 == h,
    ensures
        forall|h: u128| #[trigger] end.entry(h) == purged_change(start.entry(h), removed),
{
    assert forall|h: u128| #[trigger] end.entry(h) == purged_change(start.entry(h), removed) by {
        assert(end.saved(h) == start.saved(h));
        if start.pending().contains_key(h) {
            assert(mid.contains_key(h));
            assert(mid[h] == start.pending()[h]);
        } else if exists|k: int| 0 <= k < applied.len() && (#[trigger] applied[k]).0 == h {
            assert(mid.contains_key(h));
            let k = choose|k: int| 0 <= k < applied.len() && (#[trigger] applied[k]).0 == h;
            let list = start.saved(h)->0;
            lemma_kept(list, removed);
            lemma_kept(kept(list, removed), removed);
            assert(mid[h] == purged_list(list, removed));
            assert(end.pending()[h] == purged_change(mid[h], removed));
        } else {
            assert(!mid.contains_key(h));
            assert(!end.pending().contains_key(h));
        }
    }
}

proof fn lemma_purge_changed(
    start: ExactIndex,
    mid: Map<u128, Option<Seq<(u64, Set<u32>)>>>,
    applied: Seq<(u128, DeltaEntry)>,
    removed: Set<u64>,
    h: u128,
)
    requires
        start.entry(h) is Some,
        mentions(start.entry(h)->0, removed),
        applied.len() == 0 ==> mid == start.pending(),
        !start.pending().contains_key(h) && start.saved(h) is Some && mentions(
            start.saved(h)->0,
            removed,
        ) ==> exists|k: int| 0 <= k < applied.len() && (#[trigger] applied[k]).0 == h,
    ensures
        applied.len() > 0 || (mid.contains_key(h) && mid[h] is Some && mentions(mid[h]->0, removed)),
{
}

/// The hashes of the changes that put a list in place.
pub open spec fn replaced(p: Map<u128, Option<Seq<(u64, Set<u32>)>>>) -> Set<u128> {
    p.dom().filter(|h: u128| p[h] is Some)
}

/// The hashes of the changes that remove a list.
pub open spec fn removals(p: Map<u128, Option<Seq<(u64, Set<u32>)>>>) -> Set<u128> {
    p.dom().filter(|h: u128| p[h] is None)
}

proof fn lemma_filter_unique(keys: Seq<u128>, f: spec_fn(u128) -> bool)
    requires
        keys.no_duplicates(),
    ensures
        keys.filter(f).len() == keys.to_set().filter(f).len(),
    decreases keys.len(),
{
    reveal(Seq::filter);
    if keys.len() == 0 {
        assert(keys.to_set().filter(f) =~= Set::empty());
    } else {
        let front = keys.drop_last();
        assert(front.no_duplicates());
        lemma_filter_unique(front, f);
        let x = keys.last();
        assert(!front.to_set().contains(x)) by {
            if front.contains(x) {
                let i = choose|i: int| 0 <= i < front.len() && front[i] == x;
                assert(keys[i] == keys[keys.len() - 1]);
            }
        }
        assert(keys =~= front.push(x));
        front.lemma_push_to_set_commute(x);
        vstd::seq_lib::seq_to_set_is_finite(front);
        vstd::set_lib::lemma_set_subset_finite(front.to_set(), front.to_set().filter(f));
        if f(x) {
            assert(keys.to_set().filter(f) =~= front.to_set().filter(f).insert(x));
        } else {
            assert(keys.to_set().filter(f) =~= front.to_set().filter(f));
        }
    }
}

/// How many changes put a list in place, and how many remove one.
fn count_changes(delta: &HashMap<u128, DeltaEntry>) -> (r: (usize, usize))
    ensures
        r.0 == replaced(delta_lists(delta@)).len(),
        r.1 == removals(delta_lists(delta@)).len(),
{
    let keys = keys_of(delta);
    let ghost p = delta_lists(delta@);
    let ghost put = |h: u128| p[h] is Some;
    let ghost gone = |h: u128| p[h] is None;
    let mut added: usize = 0;
    let mut dropped: usize = 0;
    let mut i: usize = 0;
    proof {
        reveal(Seq::filter);
    }
    while i < keys.len()
        invariant
            i <= keys@.len(),
            keys@.to_set() == delta@.dom(),
            p == delta_lists(delta@),
            put == (|h: u128| p[h] is Some),
            gone == (|h: u128| p[h] is None),
            added + dropped == i,
            added == keys@.take(i as int).filter(put).len(),
            dropped == keys@.take(i as int).filter(gone).len(),
        decreases keys@.len() - i,
    {
        let hash: u128 = keys[i];
        proof {
            assert(keys@.to_set().contains(hash));
            reveal(Seq::filter);
            assert(keys@.take(i + 1).drop_last() =~= keys@.take(i as int));
            assert(keys@.take(i + 1).last() == hash);
        }
        match delta.get(&hash) {
            Some(DeltaEntry::Replace(_)) => {
                assert(put(hash) && !gone(hash));
                added = added + 1;
            },
            Some(DeltaEntry::Removed) => {
                assert(!put(hash) && gone(hash));
                dropped = dropped + 1;
            },
            None => {
                assert(false);
            },
        }
        i = i + 1;
    }
    proof {
        assert(keys@.take(i as int) =~= keys@);
        lemma_filter_unique(keys@, put);
        lemma_filter_unique(keys@, gone);
        assert(p.dom() =~= delta@.dom());
        assert(keys@.to_set().filter(put) =~= replaced(p));
        assert(keys@.to_set().filter(gone) =~= removals(p));
    }
    (added, dropped)
}

impl ExactIndex {
    /// How many entries the snapshot has.
    pub open spec fn saved_count(&self) -> int {
        match self.snapshot_view() {
            Some(b) => entry_count(b),
            None => 0,
        }
    }

    /// Whether nothing was saved and no change puts a list in place.
    pub fn is_empty(&self) -> (r: bool)
        ensures
            r == (replaced(self.pending()).len() == 0 && self.saved_count() == 0),
    {
        let counts = count_changes(&self.delta);
        let none_saved: bool = match &self.snapshot {
            None => true,
            Some(reader) => reader.num_entries() == 0,
        };
        counts.0 == 0 && none_saved
    }

    /// A number of distinct values: what was saved, and each change that puts a
    /// list in place, less each change that removes one. It is exact where
    /// nothing has changed since the last save.
    pub fn len(&self) -> (r: usize)
        ensures
            replaced(self.pending()).len() <= usize::MAX,
            ({
                let sum = self.saved_count() + replaced(self.pending()).len();
                let top = if sum > usize::MAX {
                    usize::MAX as int
                } else {
                    sum
                };
                let less = removals(self.pending()).len();
                r == if top < less {
                    0
                } else {
                    top - less
                }
            }),
    {
        let snap: usize = match &self.snapshot {
            None => 0,
            Some(reader) => {
                let n: u64 = reader.num_entries();
                n as usize
            },
        };
        let counts = count_changes(&self.delta);
        let sum: usize = if snap > usize::MAX - counts.0 {
            usize::MAX
        } else {
            snap + counts.0
        };
        if sum < counts.1 {
            0
        } else {
            sum - counts.1
        }
    }
}

/// Whether the entry of some hash lists the segment.
pub open spec fn lists_segment(m: Map<u128, Seq<(u64, Set<u32>)>>, seg: u64) -> bool {
    exists|h: u128, i: int| #[trigger] listed_at(m, h, i, seg)
}

/// Whether the entry of the hash lists the segment at place `i`.
pub open spec fn listed_at(m: Map<u128, Seq<(u64, Set<u32>)>>, h: u128, i: int, seg: u64) -> bool {
    m.contains_key(h) && 0 <= i < m[h].len() && m[h][i].0 == seg
}

/// Adds the segments of a list to a set.
fn add_segments(ids: &mut HashSet<u64>, list: &[(u64, RowSet)])
    ensures
        forall|seg: u64| #[trigger]
            final(ids)@.contains(seg) <==> old(ids)@.contains(seg) || exists|i: int|
                0 <= i < list@.len() && (#[trigger] postings(list@)[i]).0 == seg,
{
    let ghost start = ids@;
    let mut i: usize = 0;
    while i < list.len()
        invariant
            i <= list@.len(),
            forall|seg: u64| #[trigger]
                ids@.contains(seg) <==> start.contains(seg) || exists|k: int|
                    0 <= k < i && (#[trigger] postings(list@)[k]).0 == seg,
        decreases list@.len() - i,
    {
        ids.insert(list[i].0);
        proof {
            assert(postings(list@)[i as int].0 == list@[i as int].0);
            assert forall|seg: u64| #[trigger]
                ids@.contains(seg) implies start.contains(seg) || exists|k: int|
                0 <= k < i + 1 && (#[trigger] postings(list@)[k]).0 == seg by {
                if seg == list@[i as int].0 {
                    assert(postings(list@)[i as int].0 == seg);
                }
            }
        }
        i = i + 1;
    }
}

impl ExactIndex {
    /// The segments that any list mentions.
    pub fn segment_ids(&self) -> (r: HashSet<u64>)
        ensures
            self.ordered() ==> forall|seg: u64| #[trigger]
                r@.contains(seg) <==> lists_segment(self@, seg),
    {
        let ghost ord = self.ordered();
        let mut ids: HashSet<u64> = HashSet::new();
        if let Some(reader) = &self.snapshot {
            let entries = reader.iter_entries();
            let mut i: usize = 0;
            while i < entries.len()
                invariant
                    i <= entries@.len() == entry_count(reader@),
                    self.snapshot_view() == Some(reader@),
                    ord == self.ordered(),
                    forall|j: int|
                        0 <= j < entries@.len() ==> match #[trigger] entries@[j] {
                            Ok(pair) => {
                                &&& pair.0 == nth_entry(reader@, j).hash
                                &&& entry_list(reader@, nth_entry(reader@, j)) == Some(
                                    postings(pair.1@),
                                )
                            },
                            Err(_) => entry_list(reader@, nth_entry(reader@, j)) is None,
                        },
                    ord ==> forall|seg: u64| #[trigger]
                        ids@.contains(seg) ==> lists_segment(self@, seg),
                    ord ==> forall|j: int, k: int, seg: u64|
                        #![trigger listed_at(self@, nth_entry(reader@, j).hash, k, seg)]
                        0 <= j < i && !self.pending().contains_key(nth_entry(reader@, j).hash)
                            && listed_at(self@, nth_entry(reader@, j).hash, k, seg)
                            ==> ids@.contains(seg),
                decreases entries@.len() - i,
            {
                let ghost before = ids@;
                match &entries[i] {
                    Err(_) => {
                        proof {
                            if ord {
                                law_lookup_complete(reader@, nth_entry(reader@, i as int).hash);
                            }
                        }
                    },
                    Ok(pair) => {
                        if !self.delta.contains_key(&pair.0) {
                            add_segments(&mut ids, pair.1.as_slice());
                            proof {
                                if ord {
                                    law_lookup_complete(reader@, pair.0);
                                    assert(self.entry(pair.0) == Some(postings(pair.1@)));
                                }
                                assert forall|seg: u64| ord && #[trigger]
                                    ids@.contains(seg) implies lists_segment(self@, seg) by {
                                    if !before.contains(seg) {
                                        let k = choose|k: int|
                                            0 <= k < pair.1@.len() && (#[trigger] postings(
                                                pair.1@,
                                            )[k]).0 == seg;
                                        assert(listed_at(self@, pair.0, k, seg));
                                    }
                                }
                                assert forall|k: int, seg: u64|
                                    #![trigger listed_at(self@, pair.0, k, seg)]
                                    ord && listed_at(self@, pair.0, k, seg) implies ids@.contains(seg) by {
                                    assert(postings(pair.1@)[k].0 == seg);
                                }
                            }
                        }
                    },
                }
                i = i + 1;
            }
        }
        let ghost from_snapshot = ids@;
        let keys = keys_of(&self.delta);
        let mut j: usize = 0;
        while j < keys.len()
            invariant
                j <= keys@.len(),
                keys@.to_set() == self.delta@.dom(),
                ord ==> forall|seg: u64| #[trigger]
                    ids@.contains(seg) ==> lists_segment(self@, seg),
                forall|seg: u64| #[trigger]
                    from_snapshot.contains(seg) ==> ids@.contains(seg),
                forall|m: int, k: int, seg: u64|
                    #![trigger listed_at(self@, keys@[m], k, seg)]
                    0 <= m < j && listed_at(self@, keys@[m], k, seg) ==> ids@.contains(seg),
            decreases keys@.len() - j,
        {
            let hash: u128 = keys[j];
            assert(keys@.to_set().contains(hash));
            assert(self.pending().contains_key(hash));
            let ghost before = ids@;
            match self.delta.get(&hash) {
                Some(DeltaEntry::Replace(list)) => {
                    add_segments(&mut ids, list.as_slice());
                    proof {
                        assert(self.entry(hash) == Some(postings(list@)));
                        assert forall|seg: u64| ord && #[trigger]
                            ids@.contains(seg) implies lists_segment(self@, seg) by {
                            if !before.contains(seg) {
                                let k = choose|k: int|
                                    0 <= k < list@.len() && (#[trigger] postings(list@)[k]).0
                                        == seg;
                                assert(listed_at(self@, hash, k, seg));
                            }
                        }
                        assert forall|k: int, seg: u64|
                            #![trigger listed_at(self@, hash, k, seg)]
                            listed_at(self@, hash, k, seg) implies ids@.contains(seg) by {
                            assert(postings(list@)[k].0 == seg);
                        }
                    }
                },
                _ => {
                    assert(self.entry(hash) is None);
                },
            }
            j = j + 1;
        }
        proof {
            assert forall|seg: u64| ord && lists_segment(self@, seg) implies #[trigger] ids@.contains(
                seg,
            ) by {
                let (h, k) = choose|h: u128, k: int| #[trigger] listed_at(self@, h, k, seg);
                if self.pending().contains_key(h) {
                    assert(keys@.to_set().contains(h));
                    let m = choose|m: int| 0 <= m < keys@.len() && keys@[m] == h;
                    assert(listed_at(self@, keys@[m], k, seg));
                } else {
                    let b = self.snapshot_view()->0;
                    law_lookup_complete(b, h);
                    let m = choose|m: int|
                        0 <= m < entry_count(b) && (#[trigger] nth_entry(b, m)).hash == h;
                    assert(listed_at(self@, nth_entry(b, m).hash, k, seg));
                    assert(from_snapshot.contains(seg));
                }
            }
        }
        ids
    }
}

/// What a snapshot with changes on top has under a hash.
pub open spec fn overlaid(
    snapshot: Option<Seq<u8>>,
    delta: Map<u128, DeltaEntry>,
    h: u128,
) -> Option<Seq<(u64, Set<u32>)>> {
    if delta.contains_key(h) {
        delta_list(delta[h])
    } else {
        match snapshot {
            Some(b) => snapshot_list(b, h),
            None => None,
        }
    }
}

/// The view of an optional snapshot.
pub open spec fn reader_view(r: Option<&SnapshotReader>) -> Option<Seq<u8>> {
    match r {
        Some(reader) => Some(reader@),
        None => None,
    }
}

/// Whether the entries are those of the snapshot with the changes on top, in
/// ascending order of hashes.
pub open spec fn merged_entries(
    v: Seq<(u128, Vec<(u64, RowSet)>)>,
    snapshot: Option<Seq<u8>>,
    delta: Map<u128, DeltaEntry>,
) -> bool {
    &&& keys_ascending(entry_hashes(v))
    &&& forall|i: int|
        #![trigger v[i]]
        0 <= i < v.len() ==> overlaid(snapshot, delta, v[i].0) == Some(postings(v[i].1@))
    &&& forall|h: u128|
        #![trigger overlaid(snapshot, delta, h)]
        overlaid(snapshot, delta, h) is Some ==> exists|i: int|
            0 <= i < v.len() && (#[trigger] v[i]).0 == h
}

/// Whether the snapshot has an entry whose list cannot be read.
pub open spec fn unreadable(b: Seq<u8>) -> bool {
    exists|i: int| 0 <= i < entry_count(b) && entry_list(b, #[trigger] nth_entry(b, i)) is None
}

fn readable_entries(reader: &SnapshotReader) -> (r: Result<
    Vec<(u128, Vec<(u64, RowSet)>)>,
    FormatError,
>)
    ensures
        match r {
            Ok(v) => {
                &&& v@.len() == entry_count(reader@)
                &&& forall|i: int|
                    #![trigger v@[i]]
                    0 <= i < v@.len() ==> {
                        &&& v@[i].0 == nth_entry(reader@, i).hash
                        &&& entry_list(reader@, nth_entry(reader@, i)) == Some(postings(v@[i].1@))
                    }
            },
            Err(_) => unreadable(reader@),
        },
{
    let mut entries = reader.iter_entries();
    let mut out: Vec<(u128, Vec<(u64, RowSet)>)> = Vec::new();
    let mut i: usize = 0;
    while i < entries.len()
        invariant
            i <= entries@.len() == entry_count(reader@),
            out@.len() == i,
            forall|j: int|
                0 <= j < entries@.len() ==> match #[trigger] entries@[j] {
                    Ok(pair) => {
                        &&& pair.0 == nth_entry(reader@, j).hash
                        &&& entry_list(reader@, nth_entry(reader@, j)) == Some(postings(pair.1@))
                    },
                    Err(_) => entry_list(reader@, nth_entry(reader@, j)) is None,
                },
            forall|k: int|
                #![trigger out@[k]]
                0 <= k < i ==> {
                    &&& out@[k].0 == nth_entry(reader@, k).hash
                    &&& entry_list(reader@, nth_entry(reader@, k)) == Some(postings(out@[k].1@))
                },
        decreases entries@.len() - i,
    {
        let bad: bool = match &entries[i] {
            Ok(pair) => {
                out.push((pair.0, clone_postings(pair.1.as_slice())));
                false
            },
            Err(_) => true,
        };
        if bad {
            assert(entry_list(reader@, nth_entry(reader@, i as int)) is None);
            match entries.remove(i) {
                Err(e) => {
                    return Err(e);
                },
                Ok(_) => {
                    assert(false);
                },
            }
        }
        i = i + 1;
    }
    Ok(out)
}

/// Merges the entries of a sorted snapshot with the changes since, which take
/// precedence.
fn merge_streams(snapshot: Option<&SnapshotReader>, delta: &HashMap<u128, DeltaEntry>) -> (r: Result<
    Vec<(u128, Vec<(u64, RowSet)>)>,
    FormatError,
>)
    requires
        reader_view(snapshot) matches Some(b) ==> index_sorted(b),
    ensures
        match r {
            Ok(v) => merged_entries(v@, reader_view(snapshot), delta@),
            Err(_) => reader_view(snapshot) matches Some(b) && unreadable(b),
        },
{
    let snap: Vec<(u128, Vec<(u64, RowSet)>)> = match snapshot {
        None => Vec::new(),
        Some(reader) => match readable_entries(reader) {
            Ok(v) => v,
            Err(e) => {
                return Err(e);
            },
        },
    };
    let ghost view = reader_view(snapshot);
    proof {
        assert forall|a: int, b: int|
            #![trigger snap@[a], snap@[b]]
            0 <= a < b < snap@.len() implies snap@[a].0 < snap@[b].0 by {
            assert(nth_entry(view->0, a).hash < nth_entry(view->0, b).hash);
        }
        assert forall|k: int|
            #![trigger snap@[k]]
            0 <= k < snap@.len() implies view is Some && snapshot_list(view->0, snap@[k].0) == Some(
            postings(snap@[k].1@),
        ) by {
            law_lookup_complete(view->0, snap@[k].0);
            assert(nth_entry(view->0, k).hash == snap@[k].0);
        }
        assert forall|h: u128|
            view is Some && #[trigger] snapshot_list(view->0, h) is Some implies exists|k: int|
            0 <= k < snap@.len() && (#[trigger] snap@[k]).0 == h by {
            law_lookup_complete(view->0, h);
            let k = choose|k: int|
                0 <= k < entry_count(view->0) && (#[trigger] nth_entry(view->0, k)).hash == h;
            assert(snap@[k].0 == h);
        }
    }
    let keys = sorted_keys(delta);
    let mut out: Vec<(u128, Vec<(u64, RowSet)>)> = Vec::new();
    let mut i: usize = 0;
    let mut j: usize = 0;
    while i < snap.len() || j < keys.len()
        invariant
            i <= snap@.len(),
            j <= keys@.len(),
            keys_ascending(keys@),
            keys@.to_set() == delta@.dom(),
            view == reader_view(snapshot),
            forall|a: int, b: int|
                #![trigger snap@[a], snap@[b]]
                0 <= a < b < snap@.len() ==> snap@[a].0 < snap@[b].0,
            forall|k: int|
                #![trigger snap@[k]]
                0 <= k < snap@.len() ==> view is Some && snapshot_list(view->0, snap@[k].0) == Some(
                    postings(snap@[k].1@),
                ),
            forall|k: int|
                0 <= k < i && j < keys@.len() ==> (#[trigger] snap@[k]).0 < keys@[j as int],
            forall|k: int|
                0 <= k < j && i < snap@.len() ==> #[trigger] keys@[k] < snap@[i as int].0,
            keys_ascending(entry_hashes(out@)),
            forall|k: int|
                0 <= k < out@.len() && i < snap@.len() ==> (#[trigger] out@[k]).0
                    < snap@[i as int].0,
            forall|k: int|
                0 <= k < out@.len() && j < keys@.len() ==> (#[trigger] out@[k]).0 < keys@[j as int],
            forall|k: int|
                #![trigger out@[k]]
                0 <= k < out@.len() ==> overlaid(view, delta@, out@[k].0) == Some(
                    postings(out@[k].1@),
                ),
            forall|k: int|
                #![trigger snap@[k]]
                0 <= k < i ==> delta@.contains_key(snap@[k].0) || exists|p: int|
                    0 <= p < out@.len() && (#[trigger] out@[p]).0 == snap@[k].0,
            forall|k: int|
                #![trigger keys@[k]]
                0 <= k < j ==> delta_list(delta@[keys@[k]]) is None || exists|p: int|
                    0 <= p < out@.len() && (#[trigger] out@[p]).0 == keys@[k],
        decreases (snap@.len() - i) + (keys@.len() - j),
    {
        let ghost had = out@;
        let from_snap: bool = i < snap.len() && (j >= keys.len() || snap[i].0 < keys[j]);
        if from_snap {
            let e = &snap[i];
            proof {
                assert(!delta@.contains_key(e.0)) by {
                    if delta@.contains_key(e.0) {
                        assert(keys@.to_set().contains(e.0));
                        let k = choose|k: int| 0 <= k < keys@.len() && keys@[k] == e.0;
                        if k > j {
                            assert(keys@[j as int] < keys@[k]);
                        }
                    }
                }
            }
            out.push((e.0, clone_postings(e.1.as_slice())));
            assert(out@[had.len() as int].0 == snap@[i as int].0);
            i = i + 1;
        } else {
            let hash: u128 = keys[j];
            assert(keys@.to_set().contains(hash));
            if i < snap.len() && snap[i].0 == hash {
                i = i + 1;
            }
            match delta.get(&hash) {
                Some(DeltaEntry::Replace(list)) => {
                    out.push((hash, clone_postings(list.as_slice())));
                    assert(out@[had.len() as int].0 == hash);
                },
                _ => {},
            }
            j = j + 1;
        }
        proof {
            assert(forall|k: int| 0 <= k < had.len() ==> out@[k] == had[k]);
            if out@.len() > had.len() {
                let x = out@[had.len() as int].0;
                assert(entry_hashes(out@) =~= entry_hashes(had).push(x));
                assert forall|a: int, b: int|
                    0 <= a < b < entry_hashes(out@).len() implies entry_hashes(out@)[a]
                    < entry_hashes(out@)[b] by {
                    if b == had.len() {
                        assert(had[a].0 < x);
                    } else {
                        assert(entry_hashes(had)[a] < entry_hashes(had)[b]);
                    }
                }
            }
        }
    }
    proof {
        assert forall|h: u128|
            #![trigger overlaid(view, delta@, h)]
            overlaid(view, delta@, h) is Some implies exists|p: int|
            0 <= p < out@.len() && (#[trigger] out@[p]).0 == h by {
            if delta@.contains_key(h) {
                assert(keys@.to_set().contains(h));
                let k = choose|k: int| 0 <= k < keys@.len() && keys@[k] == h;
                assert(keys@[k] == h);
            } else {
                assert(snapshot_list(view->0, h) is Some);
                let k = choose|k: int| 0 <= k < snap@.len() && (#[trigger] snap@[k]).0 == h;
                assert(snap@[k].0 == h);
            }
        }
    }
    Ok(out)
}

impl ExactIndex {
    /// Whether the index section of the snapshot is in order.
    fn check_ordered(&self) -> (r: bool)
        ensures
            r == self.ordered(),
    {
        match &self.snapshot {
            None => true,
            Some(reader) => {
                let n: u64 = reader.num_entries();
                if n == 0 {
                    return true;
                }
                let mut i: u64 = 1;
                let mut last: u128 = reader.read_index_entry(0).hash;
                while i < n
                    invariant
                        1 <= i <= n == entry_count(reader@),
                        self.snapshot_view() == Some(reader@),
                        last == nth_entry(reader@, i - 1).hash,
                        forall|a: int, b: int|
                            #![trigger nth_entry(reader@, a), nth_entry(reader@, b)]
                            0 <= a < b < i ==> nth_entry(reader@, a).hash < nth_entry(
                                reader@,
                                b,
                            ).hash,
                    decreases n - i,
                {
                    let next: u128 = reader.read_index_entry(i).hash;
                    if next <= last {
                        assert(!(nth_entry(reader@, i - 1).hash < nth_entry(
                            reader@,
                            i as int,
                        ).hash));
                        return false;
                    }
                    assert forall|a: int| 0 <= a < i implies (#[trigger] nth_entry(reader@, a)).hash
                        < next by {
                        if a < i - 1 {
                            assert(nth_entry(reader@, a).hash < nth_entry(reader@, i - 1).hash);
                        }
                    }
                    last = next;
                    i = i + 1;
                }
                true
            },
        }
    }

    /// Every hash with its list, in ascending order of hashes.
    pub fn all_entries(&self) -> (r: Result<Vec<(u128, Vec<(u64, RowSet)>)>, ExactIndexError>)
        ensures
            match r {
                Ok(v) => {
                    &&& self.ordered()
                    &&& keys_ascending(entry_hashes(v@))
                    &&& forall|i: int|
                        #![trigger v@[i]]
                        0 <= i < v@.len() ==> self.entry(v@[i].0) == Some(postings(v@[i].1@))
                    &&& forall|h: u128| #[trigger]
                        self.entry(h) is Some ==> exists|i: int|
                            0 <= i < v@.len() && (#[trigger] v@[i]).0 == h
                },
                Err(ExactIndexError::Unsorted) => !self.ordered(),
                Err(ExactIndexError::Format(_)) => self.ordered() && self.saved_unreadable(),
                Err(_) => false,
            },
    {
        if !self.check_ordered() {
            return Err(ExactIndexError::Unsorted);
        }
        let reader: Option<&SnapshotReader> = match &self.snapshot {
            Some(r) => Some(r),
            None => None,
        };
        match merge_streams(reader, &self.delta) {
            Err(e) => Err(ExactIndexError::Format(e)),
            Ok(v) => {
                proof {
                    let view = reader_view(reader);
                    assert(view == self.snapshot_view());
                    assert forall|h: u128| #[trigger] self.entry(h) == overlaid(
                        view,
                        self.delta@,
                        h,
                    ) by {
                        assert(self.pending().contains_key(h) == self.delta@.contains_key(h));
                    }
                    assert forall|i: int|
                        #![trigger v@[i]]
                        0 <= i < v@.len() implies self.entry(v@[i].0) == Some(
                        postings(v@[i].1@),
                    ) by {
                        assert(self.entry(v@[i].0) == overlaid(view, self.delta@, v@[i].0));
                    }
                }
                Ok(v)
            },
        }
    }

    /// The path and the bytes that a save writes; nothing where the snapshot is
    /// up to date.
    pub fn render(&self, path: Option<&str>) -> (r: Result<
        Option<(String, Vec<u8>)>,
        ExactIndexError,
    >)
        ensures
            match r {
                Ok(None) => {
                    &&& self.target(path) is Some
                    &&& self.up_to_date()
                },
                Ok(Some(out)) => {
                    &&& self.target(path) == Some(out.0@)
                    &&& !self.up_to_date()
                    &&& self.ordered()
                    &&& snapshot_valid(out.1@)
                    &&& index_sorted(out.1@)
                    &&& forall|h: u128| #[trigger] snapshot_list(out.1@, h) == self.entry(h)
                },
                Err(ExactIndexError::NoPath) => self.target(path) is None,
                Err(ExactIndexError::Unsorted) => {
                    &&& self.target(path) is Some
                    &&& !self.up_to_date()
                    &&& !self.ordered()
                },
                Err(ExactIndexError::Format(e)) => {
                    &&& self.target(path) is Some
                    &&& !self.up_to_date()
                    &&& self.ordered()
                    &&& self.saved_unreadable() || self.has_too_long(e)
                },
                Err(_) => false,
            },
    {
        let target: String = match path {
            Some(p) => p.to_owned(),
            None => match &self.path {
                Some(p) => p.clone(),
                None => {
                    return Err(ExactIndexError::NoPath);
                },
            },
        };
        assert(self.delta@.is_empty() <==> self.pending().is_empty()) by {
            assert(self.delta@.dom() =~= self.pending().dom());
        }
        if self.delta.is_empty() && self.snapshot.is_some() {
            return Ok(None);
        }
        let entries = match self.all_entries() {
            Ok(v) => v,
            Err(e) => {
                return Err(e);
            },
        };
        match write_exact_index_v3(entries.as_slice()) {
            Err(e) => {
                proof {
                    let length = e->EntryTooLong_length;
                    let k = choose|k: int|
                        0 <= k < entries@.len() && too_long(
                            postings((#[trigger] entries@[k]).1@),
                            length as int,
                        );
                    let h = entries@[k].0;
                    assert(self.entry(h) is Some && too_long(self.entry(h)->0, length as int));
                }
                Err(ExactIndexError::Format(e))
            },
            Ok(bytes) => {
                proof {
                    assert forall|h: u128| #[trigger] snapshot_list(bytes@, h) == self.entry(h) by {
                        law_lookup_complete(bytes@, h);
                        if found_entry(bytes@, h) is Some {
                            let k = choose|k: int|
                                0 <= k < entry_count(bytes@) && (#[trigger] nth_entry(
                                    bytes@,
                                    k,
                                )).hash == h;
                            assert(nth_entry(bytes@, k).hash == entries@[k].0);
                            assert(found_entry(bytes@, h) == Some(nth_entry(bytes@, k)));
                        } else if self.entry(h) is Some {
                            let k = choose|k: int|
                                0 <= k < entries@.len() && (#[trigger] entries@[k]).0 == h;
                            assert(nth_entry(bytes@, k).hash == h);
                        }
                    }
                }
                Ok(Some((target, bytes)))
            },
        }
    }

    /// Where a save with this path writes to.
    pub open spec fn target(&self, path: Option<&str>) -> Option<Seq<char>> {
        match path {
            Some(p) => Some(p@),
            None => self.bound(),
        }
    }

    /// Whether there is a snapshot and nothing has changed since.
    pub open spec fn up_to_date(&self) -> bool {
        self.pending().is_empty() && self.snapshot_view() is Some
    }

    /// Whether the snapshot has an entry whose list cannot be read.
    pub open spec fn saved_unreadable(&self) -> bool {
        self.snapshot_view() matches Some(b) && unreadable(b)
    }

    /// Whether the error tells of a list of the index that is too long for its entry.
    pub open spec fn has_too_long(&self, e: FormatError) -> bool {
        e matches FormatError::EntryTooLong { length } && exists|h: u128|
            (#[trigger] self.entry(h)) is Some && too_long(self.entry(h)->0, length as int)
    }

    /// Takes the bytes of a saved file as the snapshot, and forgets the changes.
    pub fn adopt(&mut self, path: &str, bytes: Vec<u8>) -> (r: Result<(), FormatError>)
        requires
            old(self).wf(),
        ensures
            final(self).wf(),
            final(self).limit() == old(self).limit(),
            r is Ok <==> snapshot_valid(bytes@),
            r is Ok ==> {
                &&& final(self).decoded().len() == 0
                &&& final(self).snapshot_view() == Some(bytes@)
                &&& final(self).pending().is_empty()
                &&& final(self).bound() == Some(path@)
                &&& forall|h: u128| #[trigger] final(self).entry(h) == snapshot_list(bytes@, h)
            },
            r is Err ==> {
                &&& final(self)@ == old(self)@
                &&& final(self).decoded() == old(self).decoded()
                &&& final(self).pending() == old(self).pending()
                &&& final(self).snapshot_view() == old(self).snapshot_view()
                &&& final(self).bound() == old(self).bound()
            },
    {
        match SnapshotReader::open(path, bytes) {
            Err(e) => Err(e),
            Ok(reader) => {
                self.snapshot = Some(reader);
                self.delta = HashMap::new();
                cache_clear(&mut self.cache);
                self.path = Some(path.to_owned());
                assert(self.pending() =~= Map::empty());
                Ok(())
            },
        }
    }

    /// Saves: the snapshot becomes what the index holds, and the path and the
    /// bytes to be written are returned. No lookup changes.
    pub fn save(&mut self, path: Option<&str>) -> (r: Result<
        Option<(String, Vec<u8>)>,
        ExactIndexError,
    >)
        requires
            old(self).wf(),
        ensures
            final(self).wf(),
            final(self)@ == old(self)@,
            final(self).limit() == old(self).limit(),
            final(self).decoded() == if r matches Ok(Some(_)) {
                Seq::empty()
            } else {
                old(self).decoded()
            },
            match r {
                Ok(None) => {
                    &&& old(self).target(path) is Some
                    &&& old(self).up_to_date()
                    &&& final(self).snapshot_view() == old(self).snapshot_view()
                    &&& final(self).bound() == old(self).bound()
                },
                Ok(Some(out)) => {
                    &&& old(self).target(path) == Some(out.0@)
                    &&& !old(self).up_to_date()
                    &&& final(self).snapshot_view() == Some(out.1@)
                    &&& final(self).pending().is_empty()
                    &&& final(self).bound() == Some(out.0@)
                    &&& final(self).ordered()
                },
                Err(e) => {
                    &&& final(self).pending() == old(self).pending()
                    &&& final(self).snapshot_view() == old(self).snapshot_view()
                    &&& final(self).bound() == old(self).bound()
                    &&& match e {
                        ExactIndexError::NoPath => old(self).target(path) is None,
                        ExactIndexError::Unsorted => {
                            &&& old(self).target(path) is Some
                            &&& !old(self).up_to_date()
                            &&& !old(self).ordered()
                        },
                        ExactIndexError::Format(f) => {
                            &&& old(self).target(path) is Some
                            &&& !old(self).up_to_date()
                            &&& old(self).ordered()
                            &&& old(self).saved_unreadable() || old(self).has_too_long(f)
                        },
                        _ => false,
                    }
                },
            },
    {
        match self.render(path) {
            Err(e) => Err(e),
            Ok(None) => Ok(None),
            Ok(Some(out)) => {
                let copy = vstd::slice::slice_to_vec(out.1.as_slice());
                match self.adopt(out.0.as_str(), copy) {
                    Ok(_) => {
                        assert(self@ =~= old(self)@) by {
                            assert forall|h: u128| #[trigger] self.entry(h) == old(self).entry(
                                h,
                            ) by {
                                assert(snapshot_list(out.1@, h) == old(self).entry(h));
                            }
                        }
                        Ok(Some(out))
                    },
                    Err(e) => Err(ExactIndexError::Format(e)),
                }
            },
        }
    }
}

/// Whether the list has the row of the segment.
pub open spec fn has_row(list: Seq<(u64, Set<u32>)>, seg: u64, row: u32) -> bool {
    exists|i: int| 0 <= i < list.len() && (#[trigger] list[i]).0 == seg && list[i].1.contains(row)
}

proof fn lemma_has_row_added(
    list: Seq<(u64, Set<u32>)>,
    seg: u64,
    rows: Set<u32>,
    s: u64,
    row: u32,
)
    ensures
        has_row(rows_added(list, seg, rows), s, row) <==> has_row(list, s, row) || (s == seg
            && rows.contains(row)),
    decreases list.len(),
{
    let after = rows_added(list, seg, rows);
    if list.len() == 0 {
        assert(after[0] == (seg, rows));
    } else if list[0].0 == seg {
        assert(after[0] == (seg, list[0].1.union(rows)));
        if has_row(list, s, row) {
            let i = choose|i: int|
                0 <= i < list.len() && (#[trigger] list[i]).0 == s && list[i].1.contains(row);
            assert(after[i].0 == s && after[i].1.contains(row));
        }
        if has_row(after, s, row) {
            let i = choose|i: int|
                0 <= i < after.len() && (#[trigger] after[i]).0 == s && after[i].1.contains(row);
            if i > 0 {
                assert(list[i] == after[i]);
            } else {
                assert(list[0].0 == seg);
            }
        }
    } else {
        let rest = list.drop_first();
        let tail = rows_added(rest, seg, rows);
        lemma_has_row_added(rest, seg, rows, s, row);
        assert(after =~= seq![list[0]] + tail);
        if has_row(list, s, row) {
            let i = choose|i: int|
                0 <= i < list.len() && (#[trigger] list[i]).0 == s && list[i].1.contains(row);
            if i > 0 {
                assert(rest[i - 1] == list[i]);
                assert(has_row(rest, s, row));
            } else {
                assert(after[0] == list[0]);
            }
        }
        if has_row(tail, s, row) {
            let i = choose|i: int|
                0 <= i < tail.len() && (#[trigger] tail[i]).0 == s && tail[i].1.contains(row);
            assert(after[i + 1] == tail[i]);
        }
        if has_row(after, s, row) {
            let i = choose|i: int|
                0 <= i < after.len() && (#[trigger] after[i]).0 == s && after[i].1.contains(row);
            if i > 0 {
                assert(tail[i - 1] == after[i]);
                assert(has_row(tail, s, row));
                if has_row(rest, s, row) {
                    let j = choose|j: int|
                        0 <= j < rest.len() && (#[trigger] rest[j]).0 == s && rest[j].1.contains(
                            row,
                        );
                    assert(list[j + 1] == rest[j]);
                }
            } else {
                assert(list[0] == after[0]);
            }
        }
    }
}

/// Adds every entry of one list to another.
fn add_list(list: &mut Vec<(u64, RowSet)>, more: &[(u64, RowSet)])
    ensures
        forall|s: u64, row: u32| #[trigger]
            has_row(postings(final(list)@), s, row) <==> has_row(postings(old(list)@), s, row)
                || has_row(postings(more@), s, row),
{
    let ghost start = postings(list@);
    let mut i: usize = 0;
    while i < more.len()
        invariant
            i <= more@.len(),
            start == postings(old(list)@),
            forall|s: u64, row: u32| #[trigger]
                has_row(postings(list@), s, row) <==> has_row(start, s, row) || exists|k: int|
                    0 <= k < i && (#[trigger] postings(more@)[k]).0 == s && postings(
                        more@,
                    )[k].1.contains(row),
        decreases more@.len() - i,
    {
        let p = &more[i];
        let ghost before = postings(list@);
        add_rows(list, p.0, &p.1);
        proof {
            let m = postings(more@);
            assert(m[i as int] == (p.0, p.1@));
            assert forall|s: u64, row: u32| #[trigger]
                has_row(postings(list@), s, row) <==> has_row(start, s, row) || exists|k: int|
                0 <= k < i + 1 && (#[trigger] m[k]).0 == s && m[k].1.contains(row) by {
                lemma_has_row_added(before, p.0, p.1@, s, row);
                if s == p.0 && p.1@.contains(row) {
                    assert(m[i as int].0 == s && m[i as int].1.contains(row));
                }
                if exists|k: int|
                    0 <= k < i + 1 && (#[trigger] m[k]).0 == s && m[k].1.contains(row) {
                    let k = choose|k: int|
                        0 <= k < i + 1 && (#[trigger] m[k]).0 == s && m[k].1.contains(row);
                    if k < i {
                        assert(has_row(before, s, row));
                    }
                }
            }
        }
        i = i + 1;
    }
}

/// Whether one of the first `n` values has this hash.
pub open spec fn value_with_hash(
    raw: Seq<(String, Vec<(u64, RowSet)>)>,
    n: int,
    h: u128,
) -> bool {
    exists|k: int| 0 <= k < n && key_hash((#[trigger] raw[k]).0@) == h
}

/// Whether one of the first `n` values with this hash has the row.
pub open spec fn value_row(
    raw: Seq<(String, Vec<(u64, RowSet)>)>,
    n: int,
    h: u128,
    seg: u64,
    row: u32,
) -> bool {
    exists|k: int|
        0 <= k < n && key_hash((#[trigger] raw[k]).0@) == h && has_row(
            postings(raw[k].1@),
            seg,
            row,
        )
}

/// Whether no other of the first `n` values has the hash of this one.
pub open spec fn alone(raw: Seq<(String, Vec<(u64, RowSet)>)>, n: int, k: int) -> bool {
    0 <= k < n && forall|j: int|
        0 <= j < n && key_hash((#[trigger] raw[j]).0@) == key_hash(raw[k].0@) ==> j == k
}

/// Files lists by the hashes of their values. Where two values share a hash,
/// their lists become one that has the rows of both. Also returns how many
/// lists went into another.
fn load_v1_into_delta(raw: &[(String, Vec<(u64, RowSet)>)]) -> (r: (
    HashMap<u128, DeltaEntry>,
    usize,
))
    ensures
        forall|h: u128| #[trigger]
            r.0@.contains_key(h) <==> value_with_hash(raw@, raw@.len() as int, h),
        forall|h: u128| #[trigger] r.0@.contains_key(h) ==> delta_list(r.0@[h]) is Some,
        forall|h: u128, seg: u64, row: u32|
            #![trigger has_row(delta_list(r.0@[h])->0, seg, row)]
            r.0@.contains_key(h) ==> (has_row(delta_list(r.0@[h])->0, seg, row) <==> value_row(
                raw@,
                raw@.len() as int,
                h,
                seg,
                row,
            )),
        forall|k: int| #[trigger]
            alone(raw@, raw@.len() as int, k) ==> delta_list(r.0@[key_hash(raw@[k].0@)]) == Some(
                postings(raw@[k].1@),
            ),
        r.1 == raw@.len() - r.0@.dom().len(),
{
    let mut delta: HashMap<u128, DeltaEntry> = HashMap::new();
    let mut collapsed: usize = 0;
    let mut i: usize = 0;
    while i < raw.len()
        invariant
            i <= raw@.len(),
            collapsed == i - delta@.dom().len(),
            delta@.dom().finite(),
            forall|h: u128| #[trigger]
                delta@.contains_key(h) <==> value_with_hash(raw@, i as int, h),
            forall|h: u128| #[trigger] delta@.contains_key(h) ==> delta_list(delta@[h]) is Some,
            forall|h: u128, seg: u64, row: u32|
                #![trigger has_row(delta_list(delta@[h])->0, seg, row)]
                delta@.contains_key(h) ==> (has_row(delta_list(delta@[h])->0, seg, row)
                    <==> value_row(raw@, i as int, h, seg, row)),
            forall|k: int| #[trigger]
                alone(raw@, i as int, k) ==> delta_list(delta@[key_hash(raw@[k].0@)]) == Some(
                    postings(raw@[k].1@),
                ),
        decreases raw@.len() - i,
    {
        let p = &raw[i];
        let hash: u128 = hash_key(p.0.as_str());
        let ghost before = delta@;
        let entry: Vec<(u64, RowSet)> = match delta.get(&hash) {
            Some(DeltaEntry::Replace(shared)) => {
                let mut merged = clone_postings(shared.as_slice());
                add_list(&mut merged, p.1.as_slice());
                merged
            },
            _ => clone_postings(p.1.as_slice()),
        };
        if delta.contains_key(&hash) {
            collapsed = collapsed + 1;
        }
        delta.insert(hash, DeltaEntry::Replace(Arc::new(entry)));
        proof {
            if before.contains_key(hash) {
                assert(delta@.dom() =~= before.dom());
            } else {
                assert(delta@.dom() =~= before.dom().insert(hash));
            }
            assert forall|h: u128| #[trigger]
                delta@.contains_key(h) <==> value_with_hash(raw@, i + 1, h) by {
                if h == hash {
                    assert(key_hash(raw@[i as int].0@) == h);
                } else {
                    assert(before.contains_key(h) == delta@.contains_key(h));
                    if value_with_hash(raw@, i + 1, h) {
                        let k = choose|k: int|
                            0 <= k < i + 1 && key_hash((#[trigger] raw@[k]).0@) == h;
                        assert(k < i);
                        assert(value_with_hash(raw@, i as int, h));
                    }
                    if value_with_hash(raw@, i as int, h) {
                        let k = choose|k: int|
                            0 <= k < i && key_hash((#[trigger] raw@[k]).0@) == h;
                        assert(key_hash(raw@[k].0@) == h);
                    }
                }
            }
            assert forall|k: int| #[trigger] alone(raw@, i + 1, k) implies delta_list(
                delta@[key_hash(raw@[k].0@)],
            ) == Some(postings(raw@[k].1@)) by {
                if k < i {
                    assert(alone(raw@, i as int, k));
                    assert(key_hash(raw@[i as int].0@) != key_hash(raw@[k].0@));
                } else if before.contains_key(hash) {
                    let j = choose|j: int|
                        0 <= j < i && key_hash((#[trigger] raw@[j]).0@) == hash;
                    assert(key_hash(raw@[j].0@) == key_hash(raw@[k].0@));
                }
            }
            assert forall|h: u128, seg: u64, row: u32|
                #![trigger has_row(delta_list(delta@[h])->0, seg, row)]
                delta@.contains_key(h) implies (has_row(delta_list(delta@[h])->0, seg, row)
                <==> value_row(raw@, i + 1, h, seg, row)) by {
                if value_row(raw@, i + 1, h, seg, row) {
                    let k = choose|k: int|
                        0 <= k < i + 1 && key_hash((#[trigger] raw@[k]).0@) == h && has_row(
                            postings(raw@[k].1@),
                            seg,
                            row,
                        );
                    if k < i {
                        assert(value_with_hash(raw@, i as int, h));
                        assert(before.contains_key(h));
                        assert(value_row(raw@, i as int, h, seg, row));
                        assert(has_row(delta_list(before[h])->0, seg, row));
                    }
                }
                if h != hash {
                    assert(before.contains_key(h));
                    assert(delta@[h] == before[h]);
                    if value_row(raw@, i as int, h, seg, row) {
                        let k = choose|k: int|
                            0 <= k < i && key_hash((#[trigger] raw@[k]).0@) == h && has_row(
                                postings(raw@[k].1@),
                                seg,
                                row,
                            );
                        assert(key_hash(raw@[k].0@) == h);
                    }
                } else {
                    let now = delta_list(delta@[h])->0;
                    if has_row(now, seg, row) {
                        if before.contains_key(h) && has_row(delta_list(before[h])->0, seg, row) {
                            assert(value_row(raw@, i as int, h, seg, row));
                            let k = choose|k: int|
                                0 <= k < i && key_hash((#[trigger] raw@[k]).0@) == h && has_row(
                                    postings(raw@[k].1@),
                                    seg,
                                    row,
                                );
                            assert(key_hash(raw@[k].0@) == h);
                        } else {
                            assert(has_row(postings(raw@[i as int].1@), seg, row));
                        }
                    }
                }
            }
        }
        i = i + 1;
    }
    (delta, collapsed)
}

/// Whether the file begins with the magic bytes.
pub open spec fn has_magic(f: Seq<u8>) -> bool {
    f.len() >= 4 && f.subrange(0, 4) == magic()
}

/// The version byte behind the magic bytes; zero where the file ends before it.
pub open spec fn version_of(f: Seq<u8>) -> u8 {
    if f.len() > 4 {
        f[4]
    } else {
        0
    }
}

/// What follows a header of eight bytes.
pub open spec fn after_header(f: Seq<u8>) -> Seq<u8> {
    if f.len() > 8 {
        f.skip(8)
    } else {
        Seq::empty()
    }
}

/// Whether the index has exactly the lists of a decoded map.
pub open spec fn loaded_v2(idx: ExactIndex, m: Map<u128, Seq<(u64, Seq<u32>)>>) -> bool {
    &&& idx.snapshot_view() is None
    &&& forall|h: u128| #[trigger] idx.pending().contains_key(h) ==> idx.pending()[h] is Some
    &&& forall|h: u128| #[trigger]
        idx.entry(h) == if m.contains_key(h) {
            Some(row_list(m[h]))
        } else {
            None
        }
}

/// Whether a decoded value with this hash has the row.
pub open spec fn decoded_row(
    m: Map<Seq<char>, Seq<(u64, Seq<u32>)>>,
    h: u128,
    seg: u64,
    row: u32,
) -> bool {
    exists|k: Seq<char>| #[trigger]
        m.contains_key(k) && key_hash(k) == h && has_row(row_list(m[k]), seg, row)
}

/// Whether a list is what decoded values give under a hash: it has the rows of all
/// values with that hash; and it is the list of the value where only one has it.
pub open spec fn list_of_hash(
    m: Map<Seq<char>, Seq<(u64, Seq<u32>)>>,
    h: u128,
    list: Seq<(u64, Set<u32>)>,
) -> bool {
    &&& forall|seg: u64, row: u32| #[trigger]
        has_row(list, seg, row) <==> decoded_row(m, h, seg, row)
    &&& forall|k: Seq<char>| #[trigger]
        only_value(m, k) && key_hash(k) == h ==> list == row_list(m[k])
}

/// Whether no other decoded value has the hash of this one.
pub open spec fn only_value(m: Map<Seq<char>, Seq<(u64, Seq<u32>)>>, k: Seq<char>) -> bool {
    m.contains_key(k) && forall|other: Seq<char>| #[trigger]
        m.contains_key(other) && key_hash(other) == key_hash(k) ==> other == k
}

/// Whether the index has, under each hash, what the decoded values give for it.
pub open spec fn loaded_v1(idx: ExactIndex, m: Map<Seq<char>, Seq<(u64, Seq<u32>)>>) -> bool {
    &&& idx.snapshot_view() is None
    &&& forall|h: u128| #[trigger] idx.pending().contains_key(h) ==> idx.pending()[h] is Some
    &&& forall|h: u128| #[trigger]
        idx.entry(h) is Some <==> exists|k: Seq<char>| #[trigger]
            m.contains_key(k) && key_hash(k) == h
    &&& forall|h: u128|
        (#[trigger] idx.entry(h)) is Some ==> list_of_hash(m, h, idx.entry(h)->0)
}

fn begins_with_magic(f: &[u8]) -> (r: bool)
    ensures
        r == has_magic(f@),
{
    if f.len() < 4 {
        return false;
    }
    let r = f[0] == 66 && f[1] == 84 && f[2] == 88 && f[3] == 73;
    proof {
        let s = f@.subrange(0, 4);
        assert(s[0] == f@[0] && s[1] == f@[1] && s[2] == f@[2] && s[3] == f@[3]);
        assert(magic()[0] == 66 && magic()[1] == 84 && magic()[2] == 88 && magic()[3] == 73);
        if r {
            assert(s =~= magic());
        }
    }
    r
}

impl ExactIndex {
    /// Opens an index that is saved under `path`. `file` is what is saved there,
    /// or nothing where there is no such file yet.
    pub fn open(path: &str, file: Option<Vec<u8>>) -> (r: Result<ExactIndex, ExactIndexError>)
        ensures
            r matches Ok(idx) ==> {
                &&& idx.wf()
                &&& idx.bound() == Some(path@)
                &&& idx.limit() == lists_held(None)
                &&& idx.decoded().len() == 0
            },
            match file {
                None => r matches Ok(idx) && idx.snapshot_view() is None
                    && idx.pending().is_empty(),
                Some(f) => if has_magic(f@) && version_of(f@) == 3 {
                    match r {
                        Ok(idx) => {
                            &&& snapshot_valid(f@)
                            &&& idx.snapshot_view() == Some(f@)
                            &&& idx.pending().is_empty()
                        },
                        Err(ExactIndexError::Format(_)) => !snapshot_valid(f@),
                        Err(_) => false,
                    }
                } else if has_magic(f@) && version_of(f@) == 2 {
                    match r {
                        Ok(idx) => decoded_index_v2(after_header(f@)) matches Some(m) && loaded_v2(
                            idx,
                            m,
                        ),
                        Err(ExactIndexError::Undecodable(_)) => decoded_index_v2(
                            after_header(f@),
                        ) is None,
                        Err(_) => false,
                    }
                } else if has_magic(f@) && version_of(f@) != 1 {
                    r matches Err(ExactIndexError::UnsupportedVersion { found }) && found
                        == version_of(f@)
                } else {
                    let payload = if has_magic(f@) {
                        after_header(f@)
                    } else {
                        f@
                    };
                    match r {
                        Ok(idx) => decoded_index_v1(payload) matches Some(m) && loaded_v1(idx, m),
                        Err(ExactIndexError::Undecodable(_)) => decoded_index_v1(payload) is None,
                        Err(_) => false,
                    }
                },
            },
    {
        ExactIndex::open_with_cache(path, file, exact_index_cache_per_field(None))
    }

    /// Opens an index that is saved under `path`. `file` is what is saved there,
    /// or nothing where there is no such file yet. At most `capacity` lists are held
    /// decoded.
    pub fn open_with_cache(path: &str, file: Option<Vec<u8>>, capacity: usize) -> (r: Result<
        ExactIndex,
        ExactIndexError,
    >)
        requires
            0 < capacity <= usize::MAX / 128,
        ensures
            r matches Ok(idx) ==> {
                &&& idx.wf()
                &&& idx.bound() == Some(path@)
                &&& idx.limit() == capacity
                &&& idx.decoded().len() == 0
            },
            match file {
                None => r matches Ok(idx) && idx.snapshot_view() is None
                    && idx.pending().is_empty(),
                Some(f) => if has_magic(f@) && version_of(f@) == 3 {
                    match r {
                        Ok(idx) => {
                            &&& snapshot_valid(f@)
                            &&& idx.snapshot_view() == Some(f@)
                            &&& idx.pending().is_empty()
                        },
                        Err(ExactIndexError::Format(_)) => !snapshot_valid(f@),
                        Err(_) => false,
                    }
                } else if has_magic(f@) && version_of(f@) == 2 {
                    match r {
                        Ok(idx) => decoded_index_v2(after_header(f@)) matches Some(m) && loaded_v2(
                            idx,
                            m,
                        ),
                        Err(ExactIndexError::Undecodable(_)) => decoded_index_v2(
                            after_header(f@),
                        ) is None,
                        Err(_) => false,
                    }
                } else if has_magic(f@) && version_of(f@) != 1 {
                    r matches Err(ExactIndexError::UnsupportedVersion { found }) && found
                        == version_of(f@)
                } else {
                    let payload = if has_magic(f@) {
                        after_header(f@)
                    } else {
                        f@
                    };
                    match r {
                        Ok(idx) => decoded_index_v1(payload) matches Some(m) && loaded_v1(idx, m),
                        Err(ExactIndexError::Undecodable(_)) => decoded_index_v1(payload) is None,
                        Err(_) => false,
                    }
                },
            },
    {
        let mut idx = ExactIndex::with_cache(capacity);
        idx.bind_path(path);
        let f = match file {
            None => {
                return Ok(idx);
            },
            Some(f) => f,
        };
        let marked: bool = begins_with_magic(f.as_slice());
        let version: u8 = if f.len() > 4 {
            f[4]
        } else {
            0
        };
        if marked && version == 3 {
            return match idx.adopt(path, f) {
                Ok(_) => Ok(idx),
                Err(e) => Err(ExactIndexError::Format(e)),
            };
        }
        if marked && version != 1 && version != 2 {
            return Err(ExactIndexError::UnsupportedVersion { found: version });
        }
        let n = f.len();
        let start: usize = if !marked {
            0
        } else if n > 8 {
            8
        } else {
            n
        };
        let payload = slice_subrange(f.as_slice(), start, n);
        proof {
            if marked {
                assert(payload@ =~= after_header(f@));
            } else {
                assert(payload@ =~= f@);
            }
        }
        if marked && version == 2 {
            return match decode_index_v2(payload) {
                Err(e) => Err(ExactIndexError::Undecodable(e)),
                Ok(lists) => {
                    let ghost m = decoded_index_v2(payload@)->0;
                    let delta = file_lists(lists.as_slice());
                    idx.delta = delta;
                    proof {
                        assert forall|h: u128| #[trigger]
                            idx.pending().contains_key(h) implies idx.pending()[h] is Some by {
                            assert(delta@.contains_key(h));
                            let k = choose|k: int|
                                0 <= k < lists@.len() && (#[trigger] lists@[k]).0 == h;
                            assert(delta_list(delta@[lists@[k].0]) is Some);
                        }
                        assert forall|h: u128| #[trigger]
                            idx.entry(h) == if m.contains_key(h) {
                                Some(row_list(m[h]))
                            } else {
                                None
                            } by {
                            assert(idx.pending().contains_key(h) == delta@.contains_key(h));
                            if delta@.contains_key(h) {
                                let k = choose|k: int|
                                    0 <= k < lists@.len() && (#[trigger] lists@[k]).0 == h;
                                assert(idx.pending()[h] == delta_list(delta@[h]));
                                assert(delta_list(delta@[lists@[k].0]) == Some(
                                    postings(lists@[k].1@),
                                ));
                            } else if m.contains_key(h) {
                                let k = choose|k: int|
                                    0 <= k < lists@.len() && (#[trigger] lists@[k]).0 == h;
                                assert(delta@.contains_key(lists@[k].0));
                            }
                        }
                    }
                    Ok(idx)
                },
            };
        }
        match decode_index_v1(payload) {
            Err(e) => Err(ExactIndexError::Undecodable(e)),
            Ok(lists) => {
                let ghost m = decoded_index_v1(payload@)->0;
                let loaded = load_v1_into_delta(lists.as_slice());
                idx.delta = loaded.0;
                proof {
                    lemma_loaded_v1(idx, lists@, m);
                }
                Ok(idx)
            },
        }
    }
}

/// Files lists by their hashes, each of which occurs once.
fn file_lists(lists: &[(u128, Vec<(u64, RowSet)>)]) -> (r: HashMap<u128, DeltaEntry>)
    requires
        forall|i: int, j: int|
            #![trigger lists@[i], lists@[j]]
            0 <= i < j < lists@.len() ==> lists@[i].0 != lists@[j].0,
    ensures
        forall|h: u128| #[trigger]
            r@.contains_key(h) <==> exists|k: int|
                0 <= k < lists@.len() && (#[trigger] lists@[k]).0 == h,
        forall|k: int|
            #![trigger lists@[k]]
            0 <= k < lists@.len() ==> delta_list(r@[lists@[k].0]) == Some(postings(lists@[k].1@)),
{
    let mut delta: HashMap<u128, DeltaEntry> = HashMap::new();
    let mut i: usize = 0;
    while i < lists.len()
        invariant
            i <= lists@.len(),
            forall|a: int, b: int|
                #![trigger lists@[a], lists@[b]]
                0 <= a < b < lists@.len() ==> lists@[a].0 != lists@[b].0,
            forall|h: u128| #[trigger]
                delta@.contains_key(h) <==> exists|k: int|
                    0 <= k < i && (#[trigger] lists@[k]).0 == h,
            forall|k: int|
                #![trigger lists@[k]]
                0 <= k < i ==> delta_list(delta@[lists@[k].0]) == Some(postings(lists@[k].1@)),
        decreases lists@.len() - i,
    {
        let p = &lists[i];
        let ghost before = delta@;
        delta.insert(p.0, DeltaEntry::Replace(Arc::new(clone_postings(p.1.as_slice()))));
        proof {
            assert forall|h: u128| #[trigger]
                delta@.contains_key(h) <==> exists|k: int|
                0 <= k < i + 1 && (#[trigger] lists@[k]).0 == h by {
                if h == p.0 {
                    assert(lists@[i as int].0 == h);
                } else {
                    assert(delta@.contains_key(h) == before.contains_key(h));
                }
            }
        }
        i = i + 1;
    }
    delta
}

proof fn lemma_loaded_v1(
    idx: ExactIndex,
    lists: Seq<(String, Vec<(u64, RowSet)>)>,
    m: Map<Seq<char>, Seq<(u64, Seq<u32>)>>,
)
    requires
        idx.snapshot_view() is None,
        lists_of_values(lists, m),
        forall|h: u128| #[trigger]
            idx.delta@.contains_key(h) <==> value_with_hash(lists, lists.len() as int, h),
        forall|h: u128| #[trigger]
            idx.delta@.contains_key(h) ==> delta_list(idx.delta@[h]) is Some,
        forall|h: u128, seg: u64, row: u32|
            #![trigger has_row(delta_list(idx.delta@[h])->0, seg, row)]
            idx.delta@.contains_key(h) ==> (has_row(delta_list(idx.delta@[h])->0, seg, row)
                <==> value_row(lists, lists.len() as int, h, seg, row)),
        forall|k: int| #[trigger]
            alone(lists, lists.len() as int, k) ==> delta_list(
                idx.delta@[key_hash(lists[k].0@)],
            ) == Some(postings(lists[k].1@)),
    ensures
        loaded_v1(idx, m),
{
    let n = lists.len() as int;
    assert forall|h: u128| #[trigger] idx.pending().contains_key(h) implies idx.pending()[h] is Some by {
        assert(idx.delta@.contains_key(h));
    }
    assert forall|h: u128| #[trigger]
        idx.entry(h) is Some <==> exists|k: Seq<char>| #[trigger]
        m.contains_key(k) && key_hash(k) == h by {
        assert(idx.pending().contains_key(h) == idx.delta@.contains_key(h));
        if idx.delta@.contains_key(h) {
            let i = choose|i: int| 0 <= i < n && key_hash((#[trigger] lists[i]).0@) == h;
            assert(m.contains_key(lists[i].0@));
            assert(idx.pending()[h] == delta_list(idx.delta@[h]));
        }
        if exists|k: Seq<char>| #[trigger] m.contains_key(k) && key_hash(k) == h {
            let k = choose|k: Seq<char>| #[trigger] m.contains_key(k) && key_hash(k) == h;
            let i = choose|i: int| 0 <= i < n && (#[trigger] lists[i]).0@ == k;
            assert(key_hash(lists[i].0@) == h);
            assert(value_with_hash(lists, n, h));
        }
    }
    assert forall|h: u128, seg: u64, row: u32|
        #![trigger has_row(idx.entry(h)->0, seg, row)]
        idx.entry(h) is Some implies (has_row(idx.entry(h)->0, seg, row) <==> decoded_row(
        m,
        h,
        seg,
        row,
    )) by {
        assert(idx.pending().contains_key(h) == idx.delta@.contains_key(h));
        assert(idx.entry(h)->0 == delta_list(idx.delta@[h])->0);
        if value_row(lists, n, h, seg, row) {
            let i = choose|i: int|
                0 <= i < n && key_hash((#[trigger] lists[i]).0@) == h && has_row(
                    postings(lists[i].1@),
                    seg,
                    row,
                );
            assert(m.contains_key(lists[i].0@));
        }
        if decoded_row(m, h, seg, row) {
            let k = choose|k: Seq<char>| #[trigger]
                m.contains_key(k) && key_hash(k) == h && has_row(row_list(m[k]), seg, row);
            let i = choose|i: int| 0 <= i < n && (#[trigger] lists[i]).0@ == k;
            assert(postings(lists[i].1@) == row_list(m[k]));
        }
    }
    assert forall|h: u128| (#[trigger] idx.entry(h)) is Some implies list_of_hash(
        m,
        h,
        idx.entry(h)->0,
    ) by {
        assert(idx.pending().contains_key(h) == idx.delta@.contains_key(h));
        assert forall|k: Seq<char>| #[trigger]
            only_value(m, k) && key_hash(k) == h implies idx.entry(h)->0 == row_list(m[k]) by {
            let i = choose|i: int| 0 <= i < n && (#[trigger] lists[i]).0@ == k;
            assert forall|j: int|
                0 <= j < n && key_hash((#[trigger] lists[j]).0@) == key_hash(
                    lists[i].0@,
                ) implies j == i by {
                assert(m.contains_key(lists[j].0@));
                assert(lists[j].0@ == k);
            }
            assert(alone(lists, n, i));
            assert(postings(lists[i].1@) == row_list(m[k]));
        }
    }
}

/// After the rows of a segment were added, the list under a value has exactly the rows
/// that it had and those of the values with the same hash.
pub proof fn law_merged_rows_are_found(
    m: Map<u128, Seq<(u64, Set<u32>)>>,
    seg: u64,
    values: Seq<(Seq<char>, Set<u32>)>,
    h: u128,
    s: u64,
    row: u32,
)
    ensures
        has_row(current_list(segment_merged(m, seg, values), h), s, row) <==> has_row(
            current_list(m, h),
            s,
            row,
        ) || (s == seg && exists|i: int|
            0 <= i < values.len() && key_hash((#[trigger] values[i]).0) == h && values[i].1.contains(
                row,
            )),
    decreases values.len(),
{
    if values.len() > 0 {
        let front = values.drop_last();
        law_merged_rows_are_found(m, seg, front, h, s, row);
        let before = segment_merged(m, seg, front);
        let (v, rows) = values.last();
        if key_hash(v) == h {
            lemma_has_row_added(current_list(before, h), seg, rows, s, row);
        }
        assert(values[values.len() - 1] == (v, rows));
        if exists|i: int|
            0 <= i < front.len() && key_hash((#[trigger] front[i]).0) == h && front[i].1.contains(
                row,
            ) {
            let i = choose|i: int|
                0 <= i < front.len() && key_hash((#[trigger] front[i]).0) == h
                    && front[i].1.contains(row);
            assert(values[i] == front[i]);
        }
        if exists|i: int|
            0 <= i < values.len() && key_hash((#[trigger] values[i]).0) == h
                && values[i].1.contains(row) {
            let i = choose|i: int|
                0 <= i < values.len() && key_hash((#[trigger] values[i]).0) == h
                    && values[i].1.contains(row);
            if i < front.len() {
                assert(front[i] == values[i]);
            }
        }
    }
}

proof fn lemma_kept_rows(list: Seq<(u64, Set<u32>)>, removed: Set<u64>, s: u64, row: u32)
    ensures
        has_row(kept(list, removed), s, row) <==> has_row(list, s, row) && !removed.contains(s),
    decreases list.len(),
{
    if list.len() > 0 {
        let front = list.drop_last();
        lemma_kept_rows(front, removed, s, row);
        let rest = kept(front, removed);
        if has_row(list, s, row) {
            let i = choose|i: int|
                0 <= i < list.len() && (#[trigger] list[i]).0 == s && list[i].1.contains(row);
            if i < front.len() {
                assert(front[i] == list[i]);
                assert(has_row(front, s, row));
            } else if !removed.contains(s) {
                assert(rest.push(list.last())[rest.len() as int] == list[i]);
            }
        }
        if has_row(front, s, row) {
            let i = choose|i: int|
                0 <= i < front.len() && (#[trigger] front[i]).0 == s && front[i].1.contains(row);
            assert(list[i] == front[i]);
        }
        if !removed.contains(list.last().0) {
            let all = rest.push(list.last());
            if has_row(rest, s, row) {
                let i = choose|i: int|
                    0 <= i < rest.len() && (#[trigger] rest[i]).0 == s && rest[i].1.contains(row);
                assert(all[i] == rest[i]);
            }
            if has_row(all, s, row) {
                let i = choose|i: int|
                    0 <= i < all.len() && (#[trigger] all[i]).0 == s && all[i].1.contains(row);
                if i < rest.len() {
                    assert(rest[i] == all[i]);
                    assert(has_row(rest, s, row));
                } else {
                    assert(list[list.len() - 1] == all[i]);
                }
            }
        }
    }
}

/// Removing segments removes their rows from every list and no others.
pub proof fn law_purged_rows_are_gone(
    m: Map<u128, Seq<(u64, Set<u32>)>>,
    removed: Set<u64>,
    h: u128,
    s: u64,
    row: u32,
)
    ensures
        has_row(current_list(purged(m, removed), h), s, row) <==> has_row(
            current_list(m, h),
            s,
            row,
        ) && !removed.contains(s),
{
    let list = current_list(m, h);
    lemma_kept(list, removed);
    lemma_kept_rows(list, removed, s, row);
}

/// Removing the same segments a second time changes nothing.
pub proof fn law_purging_twice(m: Map<u128, Seq<(u64, Set<u32>)>>, removed: Set<u64>)
    ensures
        purged(purged(m, removed), removed) == purged(m, removed),
{
    let once = purged(m, removed);
    assert forall|h: u128| #[trigger] once.contains_key(h) implies purged_list(once[h], removed)
        == Some(once[h]) by {
        lemma_kept(m[h], removed);
    }
    assert(purged(once, removed) =~= once);
}

/// What is said of an error, but for one of the snapshot, which has words of its own.
pub open spec fn exact_error_text(e: ExactIndexError) -> Seq<char> {
    match e {
        ExactIndexError::NoPath => "exact index save: no path set"@,
        ExactIndexError::Unsorted => "exact index out of order"@,
        ExactIndexError::UnsupportedVersion { found } => {
            "exact index version "@ + decimal_spec(found as nat) + " not supported"@
        },
        ExactIndexError::Undecodable(_) => "failed to deserialize exact index"@,
        ExactIndexError::Format(f) => format_error_text(f),
    }
}

impl ExactIndexError {
    /// What is said of the error. For an error of `bincode` in a snapshot its own words
    /// follow.
    pub fn describe(&self) -> (r: String)
        ensures
            exact_error_text(*self).is_prefix_of(r@),
            !(self matches ExactIndexError::Format(FormatError::BincodeError(_))) ==> r@
                == exact_error_text(*self),
    {
        match self {
            ExactIndexError::NoPath => "exact index save: no path set".to_owned(),
            ExactIndexError::Unsorted => "exact index out of order".to_owned(),
            ExactIndexError::UnsupportedVersion { found } => cat3(
                "exact index version ",
                decimal(*found as u64).as_str(),
                " not supported",
            ),
            ExactIndexError::Undecodable(_) => "failed to deserialize exact index".to_owned(),
            ExactIndexError::Format(f) => f.describe(),
        }
    }
}

} // verus!
