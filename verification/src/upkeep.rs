//! Flushing: the active segment becomes one of the others, its index goes into
//! the files, and a new segment is begun.

use crate::field_index::{stored_index, with_segment, FieldIndex};
use crate::lookup::{cache_in_step, fresh_index, TableError};
use crate::manifest::{metas, ManifestView, MetaView};
use crate::rowset::RowSet;
use crate::segment::{dir_name_spec, index_view, indexes_view, Posting, Segment, SegmentView};
use crate::table::{
    cache_view, fresh_writer, last_segment, lemma_last_in_range, segment_option,
    segment_views, Table, TableView,
};
use crate::textmap::TextMap;
use crate::types::ScalarView;
use vstd::prelude::*;

verus! {

/// The index that the entries of a new segment are put behind: the one in the
/// cache, or else the one in the file, or else an empty one.
pub open spec fn base_index(t: TableView, field: Seq<char>) -> Option<
    Map<Seq<char>, Seq<(u64, Set<u32>)>>,
> {
    if t.cache.contains_key(field) {
        Some(t.cache[field])
    } else if t.saved.contains_key(field) {
        stored_index(t.saved[field])
    } else {
        Some(Map::empty())
    }
}

/// The index of a field with the entries of a new segment.
pub open spec fn merged_index(
    t: TableView,
    field: Seq<char>,
    id: u64,
    ix: Map<Seq<char>, (ScalarView, Set<u32>)>,
) -> Map<Seq<char>, Seq<(u64, Set<u32>)>> {
    with_segment(base_index(t, field)->0, id, ix, Set::empty())
}

/// Whether nothing but the files and the cache of indexes differs.
pub open spec fn same_but_indexes(a: TableView, b: TableView) -> bool {
    a == (TableView { cache_keys: a.cache_keys, cache: a.cache, saved: a.saved, ..b })
}

/// Whether the file and the cache hold the merged index of a field.
pub open spec fn field_merged(
    old: TableView,
    new: TableView,
    id: u64,
    field: Seq<char>,
    ix: Map<Seq<char>, (ScalarView, Set<u32>)>,
) -> bool {
    &&& base_index(old, field) is Some
    &&& new.saved.contains_key(field)
    &&& stored_index(new.saved[field]) == Some(merged_index(old, field, id, ix))
    &&& new.cache.contains_key(field)
    &&& new.cache[field] == merged_index(old, field, id, ix)
}

/// Whether a field's file and what the cache holds of it are the same.
pub open spec fn field_kept(old: TableView, new: TableView, field: Seq<char>) -> bool {
    &&& new.saved.contains_key(field) == old.saved.contains_key(field)
    &&& new.saved.contains_key(field) ==> new.saved[field] == old.saved[field]
    &&& new.cache.contains_key(field) == old.cache.contains_key(field)
    &&& new.cache.contains_key(field) ==> new.cache[field] == old.cache[field]
}

/// Whether the indexes of a segment's fields were merged, and those of others
/// kept.
pub open spec fn indexes_merged(
    old: TableView,
    new: TableView,
    id: u64,
    indexes: Map<Seq<char>, Map<Seq<char>, (ScalarView, Set<u32>)>>,
) -> bool {
    &&& same_but_indexes(new, old)
    &&& forall|f: Seq<char>| #[trigger]
        indexes.contains_key(f) ==> field_merged(old, new, id, f, indexes[f])
    &&& forall|f: Seq<char>| !indexes.contains_key(f) ==> #[trigger] field_kept(old, new, f)
}

/// Whether the places are to be saved after one more flush, and the count of
/// flushes after it.
pub open spec fn flush_counted(count: u32, interval: u32) -> (bool, u32) {
    if count + 1 >= interval {
        (true, 0u32)
    } else {
        (false, (count + 1) as u32)
    }
}

/// The catalogue entry of a segment.
pub open spec fn meta_of(s: SegmentView, created_at: i64) -> MetaView {
    MetaView {
        id: s.id,
        min_max: s.min_max,
        created_at,
        record_count: s.record_count,
        deleted_count: s.deleted.len() as u64,
        path: dir_name_spec(s.id),
    }
}

/// Whether a table is another one after a flush.
pub open spec fn is_flushed(
    old: TableView,
    new: TableView,
    created_at: i64,
    interval: u32,
    found: Option<SegmentView>,
) -> bool {
    match old.active {
        None => new == (TableView {
            active: Some(fresh_writer(found, old.manifest.active_segment_id)),
            ..old
        }),
        Some(w) => {
            let s = w.flushed().segment;
            &&& forall|f: Seq<char>| #[trigger]
                w.indexes.contains_key(f) ==> base_index(old, f) is Some && new.saved.contains_key(f)
                    && stored_index(new.saved[f]) == Some(
                    merged_index(old, f, s.id, w.indexes[f]),
                )
            &&& forall|f: Seq<char>| #[trigger]
                new.saved.contains_key(f) && !w.indexes.contains_key(f)
                    ==> old.saved.contains_key(f) && new.saved[f] == old.saved[f]
            &&& forall|f: Seq<char>| #[trigger]
                old.saved.contains_key(f) ==> new.saved.contains_key(f)
            &&& new == (TableView {
                manifest: ManifestView {
                    segments: old.manifest.segments.push(meta_of(s, created_at)),
                    active_segment_id: (old.manifest.active_segment_id + 1) as u64,
                    last_sequence_number: (old.manifest.last_sequence_number + 1) as u64,
                    ..old.manifest
                },
                active: Some(
                    fresh_writer(found, (old.manifest.active_segment_id + 1) as u64),
                ),
                segments: old.segments.push(SegmentView { is_immutable: true, ..s }),
                cache_keys: Seq::empty(),
                cache: Map::empty(),
                saved: new.saved,
                flush_count: flush_counted(old.flush_count, interval).1,
                ..old
            })
        },
    }
}

/// Whether the file of a field that the active segment indexes holds no index.
pub open spec fn some_undecodable(
    t: TableView,
    indexes: Map<Seq<char>, Map<Seq<char>, (ScalarView, Set<u32>)>>,
) -> bool {
    exists|f: Seq<char>| #[trigger] indexes.contains_key(f) && base_index(t, f) is None
}

impl Table {
    fn base_index(&self, field: &str) -> (r: Result<FieldIndex, TableError>)
        ensures
            match r {
                Ok(ix) => base_index(self@, field@) == Some(ix@),
                Err(e) => base_index(self@, field@) is None && e is Undecodable,
            },
    {
        if let Some(ix) = self.cache.get(field) {
            assert(self@.cache[field@] == ix@);
            return Ok(ix.clone());
        }
        match self.saved.get(field) {
            Some(file) => {
                assert(self@.saved[field@] == file@);
                match FieldIndex::decode(file.as_slice()) {
                    Ok(ix) => Ok(ix),
                    Err(e) => Err(TableError::Undecodable(e)),
                }
            },
            None => Ok(FieldIndex::new()),
        }
    }

    /// Puts the entries of a new segment behind those of the others, in the files
    /// and in the cache.
    pub fn merge_exact_indexes_for_segment(
        &mut self,
        segment_id: u64,
        bitmaps: &TextMap<TextMap<Posting>>,
    ) -> (r: Result<(), TableError>)
        requires
            old(self).wf(),
        ensures
            same_but_indexes(final(self)@, old(self)@),
            final(self).wf(),
            match r {
                Ok(_) => indexes_merged(
                    old(self)@,
                    final(self)@,
                    segment_id,
                    indexes_view(bitmaps@),
                ),
                Err(e) => e is Undecodable && some_undecodable(
                    old(self)@,
                    indexes_view(bitmaps@),
                ),
            },
            r is Ok <==> !some_undecodable(old(self)@, indexes_view(bitmaps@)),
    {
        let ghost start = self@;
        let ghost indexes = indexes_view(bitmaps@);
        let none = RowSet::new();
        let n = bitmaps.len();
        let mut i: usize = 0;
        let ghost keys = bitmaps.keys();
        while i < n
            invariant
                i <= n == bitmaps.keys().len(),
                keys == bitmaps.keys(),
                keys.no_duplicates(),
                keys.to_set() == bitmaps@.dom(),
                indexes == indexes_view(bitmaps@),
                none@ == Set::<u32>::empty(),
                self.wf(),
                start == old(self)@,
                same_but_indexes(self@, start),
                forall|k: int|
                    0 <= k < i ==> field_merged(
                        start,
                        self@,
                        segment_id,
                        #[trigger] keys[k],
                        indexes[keys[k]],
                    ),
                forall|f: Seq<char>|
                    !keys.take(i as int).contains(f) ==> #[trigger] field_kept(start, self@, f),
            decreases n - i,
        {
            let field = bitmaps.key_at(i);
            let values = bitmaps.value_at(i);
            let ghost before = self@;
            proof {
                assert(indexes[field@] == index_view(values@));
                assert(!keys.take(i as int).contains(field@)) by {
                    if keys.take(i as int).contains(field@) {
                        let j = choose|j: int| 0 <= j < i && keys.take(i as int)[j] == field@;
                        assert(keys[j] == keys[i as int]);
                    }
                }
                assert(field_kept(start, self@, field@));
            }
            let mut index = match self.base_index(field) {
                Ok(ix) => ix,
                Err(e) => {
                    assert(indexes.contains_key(field@));
                    return Err(e);
                },
            };
            index.add_segment(segment_id, values, &none);
            let bytes = match index.encode() {
                Ok(b) => b,
                Err(e) => {
                    return Err(TableError::Unencodable(e));
                },
            };
            let ghost view = index@;
            let ghost file = bytes@;
            self.saved.insert(field, bytes);
            self.cache.insert(field, index);
            i = i + 1;
            proof {
                assert(self@.saved =~= before.saved.insert(field@, file));
                assert(self@.cache =~= before.cache.insert(field@, view));
                let done = keys.take(i as int);
                assert(done =~= keys.take(i - 1).push(field@));
                assert forall|k: int| 0 <= k < i implies field_merged(
                    start,
                    self@,
                    segment_id,
                    #[trigger] keys[k],
                    indexes[keys[k]],
                ) by {
                    if k < i - 1 {
                        assert(keys[k] != keys[i - 1]);
                        assert(field_merged(start, before, segment_id, keys[k], indexes[keys[k]]));
                    }
                }
                assert forall|f: Seq<char>| !done.contains(f) implies #[trigger] field_kept(
                    start,
                    self@,
                    f,
                ) by {
                    assert(f != field@) by {
                        assert(done[i - 1] == field@);
                    }
                    assert(!keys.take(i - 1).contains(f)) by {
                        if keys.take(i - 1).contains(f) {
                            let prior = keys.take(i - 1);
                            let j = choose|j: int| 0 <= j < prior.len() && prior[j] == f;
                            assert(done[j] == f);
                        }
                    }
                    assert(field_kept(start, before, f));
                }
            }
        }
        proof {
            assert forall|f: Seq<char>| #[trigger] indexes.contains_key(f) implies field_merged(
                start,
                self@,
                segment_id,
                f,
                indexes[f],
            ) by {
                assert(keys.to_set().contains(f));
                let k = choose|k: int| 0 <= k < keys.len() && keys[k] == f;
                assert(keys[k] == f);
            }
            assert forall|f: Seq<char>| !indexes.contains_key(f) implies #[trigger] field_kept(
                start,
                self@,
                f,
            ) by {
                assert(!keys.take(i as int).contains(f)) by {
                    if keys.take(i as int).contains(f) {
                        assert(keys.contains(f));
                        assert(keys.to_set().contains(f));
                    }
                }
            }
        }
        Ok(())
    }

    /// Counts a flush of what the active segment has buffered, and tells whether the places
    /// are to be saved now.
    pub fn flush_active_segment_buffers(&mut self, interval: u32) -> (r: bool)
        requires
            old(self).flush_count < u32::MAX,
            old(self).wf(),
        ensures
            r == flush_counted(old(self).flush_count, interval).0,
            final(self)@ == (TableView {
                flush_count: flush_counted(old(self).flush_count, interval).1,
                ..old(self)@
            }),
            final(self).wf(),
    {
        self.flush_count = self.flush_count + 1;
        if self.flush_count >= interval {
            self.flush_count = 0;
            true
        } else {
            false
        }
    }

    /// Closes the active segment and begins the next one. Tells whether the places
    /// of the keys are to be saved now.
    pub fn flush_active_segment(
        &mut self,
        created_at: i64,
        interval: u32,
        found: Option<Segment>,
    ) -> (r: Result<bool, TableError>)
        requires
            old(self).wf(),
            old(self).flush_count < u32::MAX,
            old(self).manifest.active_segment_id < u64::MAX,
            old(self).manifest.last_sequence_number < u64::MAX,
            found is Some ==> found->0.wf(),
        ensures
            final(self).wf(),
            match r {
                Ok(due) => {
                    &&& is_flushed(
                        old(self)@,
                        final(self)@,
                        created_at,
                        interval,
                        segment_option(found),
                    )
                    &&& due == (old(self)@.active is Some && flush_counted(
                        old(self).flush_count,
                        interval,
                    ).0)
                },
                Err(e) => {
                    &&& e is Undecodable
                    &&& final(self)@ == (TableView {
                        active: None,
                        cache_keys: final(self)@.cache_keys,
                        cache: final(self)@.cache,
                        saved: final(self)@.saved,
                        ..old(self)@
                    })
                },
            },
            r is Err <==> old(self)@.active is Some && some_undecodable(
                old(self)@,
                old(self)@.active->0.indexes,
            ),
    {
        let mut due = false;
        let ghost start = self@;
        if let Some(w) = self.active.take() {
            let mut w = w;
            let ghost before = w@;
            w.flush();
            let ghost middle = self@;
            assert(w@.indexes == before.indexes);
            proof {
                assert forall|f: Seq<char>| #[trigger] before.indexes.contains_key(f) implies base_index(
                    middle,
                    f,
                ) == base_index(start, f) by {}
            }
            match self.merge_exact_indexes_for_segment(w.segment.id, &w.bitmaps) {
                Ok(_) => {},
                Err(e) => {
                    return Err(e);
                },
            }
            let ghost merged = self@;
            let meta = w.segment.to_meta(created_at);
            let ghost entry = meta@;
            let ghost entries = metas(self.manifest.segments@);
            self.manifest.add_segment(meta);
            assert(metas(self.manifest.segments@) =~= entries.push(entry));
            self.manifest.active_segment_id = self.manifest.active_segment_id + 1;
            self.manifest.last_sequence_number = self.manifest.last_sequence_number + 1;
            due = self.flush_active_segment_buffers(interval);
            let mut s = w.segment;
            s.is_immutable = true;
            let ghost view = s@;
            let ghost others = segment_views(self.segments@);
            self.segments.push(s);
            assert(segment_views(self.segments@) =~= others.push(view));
            self.cache = TextMap::new();
            assert(cache_view(self.cache@) =~= Map::empty());
            proof {
                assert forall|f: Seq<char>| #[trigger] before.indexes.contains_key(f) implies base_index(
                    start,
                    f,
                ) is Some && self@.saved.contains_key(f) && stored_index(self@.saved[f]) == Some(
                    merged_index(start, f, view.id, before.indexes[f]),
                ) by {
                    assert(field_merged(middle, merged, view.id, f, before.indexes[f]));
                }
                assert forall|f: Seq<char>| #[trigger]
                    self@.saved.contains_key(f) && !before.indexes.contains_key(
                    f,
                ) implies start.saved.contains_key(f) && self@.saved[f] == start.saved[f] by {
                    assert(field_kept(middle, merged, f));
                }
                assert forall|f: Seq<char>| #[trigger]
                    start.saved.contains_key(f) implies self@.saved.contains_key(f) by {
                    if before.indexes.contains_key(f) {
                        assert(field_merged(middle, merged, view.id, f, before.indexes[f]));
                    } else {
                        assert(field_kept(middle, merged, f));
                    }
                }
            }
        }
        self.ensure_active_segment(found);
        Ok(due)
    }
}

/// Closing the active segment keeps the cache in step.
pub proof fn law_flush_keeps_cache_in_step(
    old: TableView,
    new: TableView,
    created_at: i64,
    interval: u32,
    found: Option<SegmentView>,
)
    requires
        is_flushed(old, new, created_at, interval, found),
        cache_in_step(old),
    ensures
        cache_in_step(new),
{
    if old.active is None {
        assert forall|f: Seq<char>| #[trigger] new.cache.contains_key(f) implies fresh_index(
            new,
            f,
        ) == Some(new.cache[f]) by {
            assert(fresh_index(new, f) == fresh_index(old, f));
        }
    }
}

/// Closing the active segment keeps the places of the keys, and what is read at a place
/// stays the same, but for places in the segment that is begun.
pub proof fn law_flush_keeps_rows(
    old: TableView,
    new: TableView,
    created_at: i64,
    interval: u32,
    found: Option<SegmentView>,
    place: (u64, u32),
    field: Seq<char>,
)
    requires
        is_flushed(old, new, created_at, interval, found),
        new.active is Some,
        place.0 != new.active->0.segment.id,
    ensures
        new.places == old.places,
        new.cell(place, field) == old.cell(place, field),
{
    if old.active is Some {
        let s = SegmentView { is_immutable: true, ..old.active->0.flushed().segment };
        let all = old.segments.push(s);
        assert(all.drop_last() =~= old.segments);
        match last_segment(old.segments, place.0) {
            Some(i) => {
                lemma_last_in_range(old.segments, place.0);
                assert(all[i] == old.segments[i]);
            },
            None => {},
        }
    }
}

} // verus!
