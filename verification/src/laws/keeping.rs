//! What holds of what a table keeps: its segments, what is recorded of them, and where its
//! rows are.

use crate::canonical::key_hash;
use crate::column::ColumnView;
use crate::compaction::{live_count, live_total, metas_removed, row_at};
use crate::exact_index::{kept, overlaid, purged_list, DeltaEntry};
use crate::exact_index_v3::reader::snapshot_list;
use crate::manifest::{metas_without, MetaView};
use crate::postings::postings;
use crate::primary_index_io::places_filed;
use crate::segment::{SegmentView, WriterView};
use crate::table::{by_id, fresh_writer, readings_after, slot_by_id, TableView};
use crate::types::ScalarView;
use vstd::prelude::*;

verus! {

proof fn lemma_metas_without(s: Seq<MetaView>, id: u64, m: MetaView)
    ensures
        metas_without(s, id).contains(m) <==> s.contains(m) && m.id != id,
    decreases s.len(),
{
    reveal(Seq::filter);
    if s.len() > 0 {
        let front = s.drop_last();
        let last = s.last();
        lemma_metas_without(front, id, m);
        let w = metas_without(front, id);
        if last.id != id {
            assert(metas_without(s, id) == w.push(last));
            assert(w.push(last)[w.len() as int] == last);
            if w.contains(m) {
                let j = choose|j: int| 0 <= j < w.len() && w[j] == m;
                assert(w.push(last)[j] == m);
            }
        } else {
            assert(metas_without(s, id) == w);
        }
        if front.contains(m) {
            let j = choose|j: int| 0 <= j < front.len() && front[j] == m;
            assert(s[j] == m);
        }
        assert(s[s.len() - 1] == last);
        if s.contains(m) {
            let j = choose|j: int| 0 <= j < s.len() && s[j] == m;
            if j < front.len() {
                assert(front[j] == m);
            }
        }
    }
}

/// What is left of the segments that are recorded, after some were taken out, are those
/// with other numbers, and no other.
pub proof fn law_segments_left(
    recorded: Seq<MetaView>,
    taken: Seq<SegmentView>,
    m: MetaView,
)
    ensures
        metas_removed(recorded, taken).contains(m) <==> recorded.contains(m) && forall|i: int|
            0 <= i < taken.len() ==> (#[trigger] taken[i]).id != m.id,
    decreases taken.len(),
{
    if taken.len() > 0 {
        let front = taken.drop_last();
        law_segments_left(recorded, front, m);
        lemma_metas_without(metas_removed(recorded, front), taken.last().id, m);
        let left = metas_removed(recorded, taken).contains(m);
        if left {
            assert forall|i: int| 0 <= i < taken.len() implies (#[trigger] taken[i]).id != m.id by {
                if i < front.len() {
                    assert(front[i] == taken[i]);
                }
            }
        }
        if recorded.contains(m) && forall|i: int|
            0 <= i < taken.len() ==> (#[trigger] taken[i]).id != m.id {
            assert forall|i: int| 0 <= i < front.len() implies (#[trigger] front[i]).id != m.id by {
                assert(front[i] == taken[i]);
            }
            assert(taken[taken.len() - 1].id != m.id);
        }
    }
}

/// When the segment that is written to is flushed, it holds the index of every field that
/// was written, and the indexes of the other fields as before; nothing else of it changes,
/// and nothing is left to be flushed.
pub proof fn law_flushed_segment(w: WriterView, field: Seq<char>)
    ensures
        !w.flushed().dirty,
        w.flushed().indexes == w.indexes,
        w.dirty && w.indexes.contains_key(field) ==> w.flushed().segment.indexes.contains_key(field)
            && w.flushed().segment.indexes[field] == w.indexes[field],
        w.dirty && !w.indexes.contains_key(field) ==> w.flushed().segment.indexes.contains_key(
            field,
        ) == w.segment.indexes.contains_key(field),
        w.dirty && !w.indexes.contains_key(field) && w.segment.indexes.contains_key(field)
            ==> w.flushed().segment.indexes[field] == w.segment.indexes[field],
        !w.dirty ==> w.flushed() == w,
        w.flushed().segment == (SegmentView {
            indexes: w.flushed().segment.indexes,
            ..w.segment
        }),
{
}

/// The places that are saved under the hashes of the keys: under that of each key its own
/// place, unless a later key has the same hash.
pub proof fn law_saved_places(pairs: Seq<(String, (u64, u32))>, i: int)
    requires
        0 <= i < pairs.len(),
        forall|k: int|
            i < k < pairs.len() ==> key_hash((#[trigger] pairs[k]).0@) != key_hash(pairs[i].0@),
    ensures
        places_filed(pairs).contains_key(key_hash(pairs[i].0@)),
        places_filed(pairs)[key_hash(pairs[i].0@)] == pairs[i].1,
    decreases pairs.len(),
{
    let front = pairs.drop_last();
    if i < front.len() {
        assert forall|k: int| i < k < front.len() implies key_hash((#[trigger] front[k]).0@)
            != key_hash(front[i].0@) by {
            assert(front[k] == pairs[k]);
        }
        law_saved_places(front, i);
        assert(key_hash(pairs[pairs.len() - 1].0@) != key_hash(pairs[i].0@));
    }
}

proof fn lemma_kept(list: Seq<(u64, Set<u32>)>, removed: Set<u64>, e: (u64, Set<u32>))
    ensures
        kept(list, removed).contains(e) <==> list.contains(e) && !removed.contains(e.0),
    decreases list.len(),
{
    if list.len() > 0 {
        let front = list.drop_last();
        let last = list.last();
        lemma_kept(front, removed, e);
        let before = kept(front, removed);
        let after = kept(list, removed);
        if !removed.contains(last.0) {
            assert(after[before.len() as int] == last);
            if before.contains(e) {
                let j = choose|j: int| 0 <= j < before.len() && before[j] == e;
                assert(after[j] == e);
            }
        }
        if front.contains(e) {
            let j = choose|j: int| 0 <= j < front.len() && front[j] == e;
            assert(list[j] == e);
        }
        assert(list[list.len() - 1] == last);
        if list.contains(e) {
            let j = choose|j: int| 0 <= j < list.len() && list[j] == e;
            if j < front.len() {
                assert(front[j] == e);
            }
        }
    }
}

/// When segments are taken out of the list of a value, their rows leave it and those of all
/// other segments stay; a list of which nothing stays is no more.
pub proof fn law_purged_list(
    list: Seq<(u64, Set<u32>)>,
    removed: Set<u64>,
    e: (u64, Set<u32>),
)
    requires
        list.len() > 0,
    ensures
        purged_list(list, removed) matches Some(l) ==> (l.contains(e) <==> list.contains(e)
            && !removed.contains(e.0)),
        purged_list(list, removed) is None <==> forall|i: int|
            0 <= i < list.len() ==> removed.contains((#[trigger] list[i]).0),
{
    lemma_kept(list, removed, e);
    if list.contains(e) {
        let i = choose|i: int| 0 <= i < list.len() && list[i] == e;
        if removed.contains(e.0) {
            assert(removed.contains(list[i].0));
        }
    }
    let left = kept(list, removed);
    if left.len() > 0 {
        assert(left.contains(left[0]));
        lemma_kept(list, removed, left[0]);
        let i = choose|i: int| 0 <= i < list.len() && list[i] == left[0];
        assert(!removed.contains(list[i].0));
    } else {
        assert forall|i: int| 0 <= i < list.len() implies removed.contains(
            (#[trigger] list[i]).0,
        ) by {
            assert(list.contains(list[i]));
            lemma_kept(list, removed, list[i]);
            if !removed.contains(list[i].0) {
                assert(left.contains(list[i]));
            }
        }
        assert(removed.contains(list[0].0));
    }
}

/// What was changed of an index since it was saved comes before what is saved: a list that
/// was replaced, or none where it was removed.
pub proof fn law_changed_lists(
    snapshot: Option<Seq<u8>>,
    delta: Map<u128, DeltaEntry>,
    h: u128,
)
    ensures
        delta.contains_key(h) ==> (delta[h] matches DeltaEntry::Replace(list) ==> overlaid(
            snapshot,
            delta,
            h,
        ) == Some(postings(list@))),
        delta.contains_key(h) ==> (delta[h] is Removed ==> overlaid(snapshot, delta, h) is None),
        !delta.contains_key(h) ==> (snapshot matches Some(b) ==> overlaid(snapshot, delta, h)
            == snapshot_list(b, h)),
        !delta.contains_key(h) && snapshot is None ==> overlaid(snapshot, delta, h) is None,
{
}

/// The segment that is written to begins with what was found of it, or empty, under its
/// number, and with nothing to be flushed.
pub proof fn law_writer_begins(found: SegmentView, id: u64)
    ensures
        fresh_writer(Some(found), id).segment == (SegmentView {
            id,
            is_immutable: false,
            ..found
        }),
        fresh_writer(None, id).segment.id == id,
        fresh_writer(None, id).segment.record_count == 0,
        fresh_writer(None, id).segment.deleted == Set::<u32>::empty(),
        fresh_writer(None, id).segment.columns == Map::<Seq<char>, ColumnView>::empty(),
        !fresh_writer(None, id).dirty,
        !fresh_writer(Some(found), id).dirty,
{
}

proof fn lemma_slot(s: Seq<SegmentView>, id: u64)
    requires
        forall|i: int, j: int|
            0 <= i < j < s.len() ==> (#[trigger] s[i]).id <= (#[trigger] s[j]).id,
    ensures
        0 <= slot_by_id(s, id) <= s.len(),
        forall|i: int| 0 <= i < slot_by_id(s, id) ==> (#[trigger] s[i]).id <= id,
        forall|i: int| slot_by_id(s, id) <= i < s.len() ==> (#[trigger] s[i]).id > id,
    decreases s.len(),
{
    if s.len() > 0 {
        if s.last().id <= id {
            assert(s[s.len() - 1].id <= id);
        } else {
            let front = s.drop_last();
            assert forall|i: int, j: int| 0 <= i < j < front.len() implies (#[trigger] front[i]).id
                <= (#[trigger] front[j]).id by {
                assert(front[i] == s[i] && front[j] == s[j]);
            }
            lemma_slot(front, id);
            assert forall|i: int| slot_by_id(s, id) <= i < s.len() implies (#[trigger] s[i]).id
                > id by {
                if i < front.len() {
                    assert(front[i] == s[i]);
                }
            }
            assert forall|i: int| 0 <= i < slot_by_id(s, id) implies (#[trigger] s[i]).id
                <= id by {
                assert(front[i] == s[i]);
            }
        }
    }
}

/// The segments of a table that is opened stand in the order of their numbers, each as often
/// as it was found.
pub proof fn law_segments_in_order(s: Seq<SegmentView>)
    ensures
        forall|i: int, j: int|
            0 <= i < j < by_id(s).len() ==> (#[trigger] by_id(s)[i]).id <= (#[trigger] by_id(
                s,
            )[j]).id,
        by_id(s).to_multiset() == s.to_multiset(),
    decreases s.len(),
{
    broadcast use vstd::seq_lib::group_to_multiset_ensures;

    if s.len() == 0 {
        assert(by_id(s) =~= s);
    } else {
        let before = by_id(s.drop_last());
        let last = s.last();
        law_segments_in_order(s.drop_last());
        let at = slot_by_id(before, last.id);
        lemma_slot(before, last.id);
        let after = before.insert(at, last);
        assert(by_id(s) == after);
        assert forall|i: int, j: int| 0 <= i < j < after.len() implies (#[trigger] after[i]).id
            <= (#[trigger] after[j]).id by {
            if i == at {
                assert(after[j] == before[j - 1]);
            } else if j == at {
                assert(after[i] == before[i]);
            } else {
                assert(after[i] == before[if i < at { i } else { i - 1 }]);
                assert(after[j] == before[if j < at { j } else { j - 1 }]);
            }
        }
        vstd::seq_lib::to_multiset_insert(before, at, last);
        assert(s.drop_last().push(last) =~= s);
    }
}

/// What is known of a text, whether it is a number or a date, is what was learned of it last;
/// of other texts nothing changes.
pub proof fn law_readings(t: TableView, cells: Seq<ScalarView>, i: int, other: Seq<char>)
    requires
        0 <= i < cells.len(),
        forall|k: int| i < k < cells.len() ==> (#[trigger] cells[k]).text != cells[i].text,
        forall|k: int| 0 <= k < cells.len() ==> (#[trigger] cells[k]).text != other,
    ensures
        t.learned(cells).reading(cells[i].text) == cells[i],
        t.learned(cells).reading(other) == t.reading(other),
        t.learned(cells) == (TableView { readings: t.learned(cells).readings, ..t }),
{
    lemma_learned(t.readings, cells, cells[i].text, i);
    lemma_unlearned(t.readings, cells, other);
}

proof fn lemma_learned(
    readings: Map<Seq<char>, ScalarView>,
    cells: Seq<ScalarView>,
    text: Seq<char>,
    i: int,
)
    requires
        0 <= i < cells.len(),
        cells[i].text == text,
        forall|k: int| i < k < cells.len() ==> (#[trigger] cells[k]).text != text,
    ensures
        readings_after(readings, cells).contains_key(text),
        readings_after(readings, cells)[text] == cells[i],
    decreases cells.len(),
{
    let front = cells.drop_last();
    if i < front.len() {
        assert forall|k: int| i < k < front.len() implies (#[trigger] front[k]).text != text by {
            assert(front[k] == cells[k]);
        }
        lemma_learned(readings, front, text, i);
        assert(cells[cells.len() - 1].text != text);
    }
}

proof fn lemma_unlearned(
    readings: Map<Seq<char>, ScalarView>,
    cells: Seq<ScalarView>,
    text: Seq<char>,
)
    requires
        forall|k: int| 0 <= k < cells.len() ==> (#[trigger] cells[k]).text != text,
    ensures
        readings_after(readings, cells).contains_key(text) == readings.contains_key(text),
        readings.contains_key(text) ==> readings_after(readings, cells)[text] == readings[text],
    decreases cells.len(),
{
    if cells.len() > 0 {
        let front = cells.drop_last();
        assert forall|k: int| 0 <= k < front.len() implies (#[trigger] front[k]).text != text by {
            assert(front[k] == cells[k]);
        }
        lemma_unlearned(readings, front, text);
        assert(cells[cells.len() - 1].text != text);
    }
}

/// The rows of a segment are those that are deleted and those that are live; and the live
/// rows of all segments are counted together.
pub proof fn law_live_rows(segs: Seq<SegmentView>, s: SegmentView)
    requires
        s.deleted.len() <= s.record_count,
    ensures
        live_count(s) + s.deleted.len() == s.record_count,
        live_total(Seq::empty()) == 0,
        live_total(segs.push(s)) == live_total(segs) + live_count(s),
{
    assert(segs.push(s).drop_last() =~= segs);
}

/// A row that is packed anew has the cells of the old one, each as it is known.
pub proof fn law_packed_row(
    t: TableView,
    s: SegmentView,
    id: u32,
    fields: Seq<Seq<char>>,
    f: Seq<char>,
)
    ensures
        row_at(t, s, id, fields).contains_key(f) <==> fields.contains(f),
        fields.contains(f) ==> row_at(t, s, id, fields)[f].text == s.cell(f, id),
{
}

} // verus!
