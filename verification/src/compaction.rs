//! Compaction: the rows of many small segments are written into few large ones.

use crate::column::law_read_back;
use crate::hits::{capped, capped_sum};
use crate::lookup::{cache_in_step, TableError};
use crate::manifest::{lemma_metas_without, metas, metas_without, ManifestView, MetaView};
use crate::segment::{
    cells_after, columns_after, columns_hold, law_append_keeps_columns, row_view, Segment, SegmentView, SegmentWriter,
    WriterView,
};
use crate::table::{
    cache_view, first_segment, fresh_writer, key_field, last_segment, segment_option,
    segment_views, Table, TableView,
};
use crate::soundness::{
    fields_kept, idle, law_compacting_keeps_cache_in_step, law_compacting_keeps_rows, same_rows,
    sound,
};
use crate::text::{chars_of, ends_with_text, starts_with_text, text_between, text_less, texts};
use crate::text_sort::{law_texts_sorted, sort_texts};
use crate::textmap::TextMap;
use crate::types::{Scalar, ScalarView};
use crate::upkeep::{
    base_index, field_kept, field_merged, indexes_merged, is_flushed, law_flush_keeps_cache_in_step,
    meta_of, same_but_indexes, some_undecodable,
};
use std::collections::HashMap;
use vstd::prelude::*;

verus! {

broadcast use vstd::std_specs::hash::group_hash_axioms;

/// How many rows of some segments are not deleted.
pub open spec fn live_total(s: Seq<SegmentView>) -> nat
    decreases s.len(),
{
    if s.len() == 0 {
        0
    } else {
        live_total(s.drop_last()) + live_count(s.last())
    }
}

/// How many rows of a segment are not deleted, by the two counts.
pub open spec fn live_count(s: SegmentView) -> nat {
    if s.deleted.len() <= s.record_count {
        (s.record_count - s.deleted.len()) as nat
    } else {
        0
    }
}

/// How many segments of a size hold some rows, one at least.
pub open spec fn ideal_segments(rows: int, target: int) -> int {
    if rows <= target {
        1
    } else {
        (rows + target - 1) / target
    }
}

/// Whether segments are worth compacting: there are four at least, and more than
/// twice as many as their rows need.
pub open spec fn worth_compacting(count: int, rows: int, target: int) -> bool {
    count >= 4 && count > 2 * ideal_segments(rows, target)
}

/// Whether segments are worth compacting.
pub fn should_compact(count: usize, rows: u64, target: u64) -> (r: bool)
    requires
        target > 0,
    ensures
        r == worth_compacting(count as int, rows as int, target as int),
{
    if count < 4 {
        return false;
    }
    let ideal: u128 = if rows <= target {
        1
    } else {
        (rows as u128 + target as u128 - 1) / (target as u128)
    };
    assert(ideal <= rows as u128 + target as u128) by (nonlinear_arith)
        requires
            target > 0,
            ideal == 1 || ideal == (rows as u128 + target as u128 - 1) / (target as int),
    ;
    (count as u128) > 2 * ideal
}

/// The text without a suffix, as often as it ends with it.
pub open spec fn without_suffix(s: Seq<char>, suffix: Seq<char>) -> Seq<char>
    decreases s.len(),
{
    if suffix.len() > 0 && suffix.is_suffix_of(s) {
        without_suffix(s.take(s.len() - suffix.len()), suffix)
    } else {
        s
    }
}

/// The field whose cells a file holds: of each file of data that is no index.
pub open spec fn file_field(name: Seq<char>) -> Option<Seq<char>> {
    if (".dat"@).is_suffix_of(name) && !("bitmaps_"@).is_prefix_of(name) {
        Some(without_suffix(name, ".dat"@))
    } else {
        None
    }
}

/// The field whose cells a file holds.
pub fn field_of_file(name: &str) -> (r: Option<String>)
    ensures
        text_of_option(r) == file_field(name@),
{
    if !ends_with_text(name, ".dat") || starts_with_text(name, "bitmaps_") {
        return None;
    }
    let cs = chars_of(name);
    let mut n: usize = cs.len();
    proof {
        reveal_strlit(".dat");
        assert(name@.take(n as int) =~= name@);
    }
    let mut part = name.to_owned();
    while ends_with_text(part.as_str(), ".dat")
        invariant
            n <= cs@.len(),
            cs@ == name@,
            (".dat"@).len() == 4,
            part@ == name@.take(n as int),
            without_suffix(name@, ".dat"@) == without_suffix(name@.take(n as int), ".dat"@),
        decreases n,
    {
        assert(name@.take(n as int).take(n - 4) =~= name@.take(n - 4));
        n = n - 4;
        part = text_between(cs.as_slice(), 0, n);
        assert(part@ =~= name@.take(n as int));
    }
    Some(part)
}

/// The text of an option.
pub open spec fn text_of_option(s: Option<String>) -> Option<Seq<char>> {
    match s {
        Some(x) => Some(x@),
        None => None,
    }
}

/// A row that is not deleted: where it stands, and its cells.
pub struct LiveRow {
    pub place: (u64, u32),
    pub row: Map<Seq<char>, ScalarView>,
}

/// The cells of a row in some fields, as they read.
pub open spec fn row_at(t: TableView, s: SegmentView, id: u32, fields: Seq<Seq<char>>) -> Map<
    Seq<char>,
    ScalarView,
> {
    Map::new(|f: Seq<char>| fields.contains(f), |f: Seq<char>| t.reading(s.cell(f, id)))
}

/// The rows of a segment below `n` that are not deleted.
pub open spec fn segment_live(t: TableView, s: SegmentView, n: int, fields: Seq<Seq<char>>) -> Seq<
    LiveRow,
>
    decreases n,
{
    if n <= 0 {
        Seq::empty()
    } else {
        let front = segment_live(t, s, n - 1, fields);
        let id = (n - 1) as u32;
        if s.deleted.contains(id) {
            front
        } else {
            front.push(LiveRow { place: (s.id, id), row: row_at(t, s, id, fields) })
        }
    }
}

/// The rows of some segments that are not deleted, in their order.
pub open spec fn all_live(t: TableView, s: Seq<SegmentView>, fields: Seq<Seq<char>>) -> Seq<LiveRow>
    decreases s.len(),
{
    if s.len() == 0 {
        Seq::empty()
    } else {
        all_live(t, s.drop_last(), fields) + segment_live(
            t,
            s.last(),
            s.last().record_count as int,
            fields,
        )
    }
}

/// The cells of each row.
pub open spec fn live_rows(l: Seq<LiveRow>) -> Seq<Map<Seq<char>, ScalarView>> {
    l.map_values(|r: LiveRow| r.row)
}

/// A writer on an empty segment.
pub open spec fn new_writer(id: u64) -> WriterView {
    WriterView { segment: SegmentView::empty(id), indexes: Map::empty(), dirty: false }
}

/// Segments with the rows one after the other, each filled up to the target
/// before the next is begun.
pub open spec fn packed(rows: Seq<Map<Seq<char>, ScalarView>>, target: u64, base: u64) -> Seq<
    WriterView,
>
    decreases rows.len(),
{
    if rows.len() == 0 {
        Seq::empty()
    } else {
        let front = packed(rows.drop_last(), target, base);
        if front.len() == 0 || front.last().segment.record_count >= target {
            front.push(new_writer((base + front.len()) as u64).appended(rows.last()))
        } else {
            front.drop_last().push(front.last().appended(rows.last()))
        }
    }
}

/// Where the last of some rows stands.
pub open spec fn last_place(
    rows: Seq<Map<Seq<char>, ScalarView>>,
    target: u64,
    base: u64,
) -> (u64, u32) {
    let w = packed(rows, target, base).last();
    (w.segment.id, (w.segment.record_count - 1) as u32)
}

/// The places of the keys of the rows, a later one over an earlier one.
pub open spec fn placed(
    rows: Seq<Map<Seq<char>, ScalarView>>,
    keys: Seq<Option<Seq<char>>>,
    target: u64,
    base: u64,
) -> Map<Seq<char>, (u64, u32)>
    decreases rows.len(),
{
    if rows.len() == 0 {
        Map::empty()
    } else {
        let front = placed(rows.drop_last(), keys.drop_last(), target, base);
        match keys.last() {
            Some(k) => front.insert(k, last_place(rows, target, base)),
            None => front,
        }
    }
}

/// Whether some key points at a place.
pub open spec fn has_key(t: TableView, place: (u64, u32)) -> bool {
    exists|k: Seq<char>| #[trigger] t.places.contains_key(k) && t.places[k] == place
}

/// Whether a key is that of a row: it points at the row; or none does, and the key
/// stands in the row itself.
pub open spec fn is_key_of(t: TableView, r: LiveRow, key: Option<Seq<char>>) -> bool {
    let field = key_field(t.manifest);
    match key {
        Some(k) => if has_key(t, r.place) {
            t.places.contains_key(k) && t.places[k] == r.place
        } else {
            r.row.contains_key(field) && k == r.row[field].text
        },
        None => !has_key(t, r.place) && !r.row.contains_key(field),
    }
}

/// Whether each row has its key.
pub open spec fn are_keys_of(t: TableView, l: Seq<LiveRow>, keys: Seq<Option<Seq<char>>>) -> bool {
    &&& keys.len() == l.len()
    &&& forall|i: int| 0 <= i < l.len() ==> is_key_of(t, l[i], #[trigger] keys[i])
}

/// A segment that rows were packed into.
pub open spec fn finished(w: WriterView) -> SegmentView {
    SegmentView { is_immutable: true, indexes: w.indexes, ..w.segment }
}

/// The segments that rows were packed into.
pub open spec fn all_finished(ws: Seq<WriterView>) -> Seq<SegmentView> {
    ws.map_values(|w: WriterView| finished(w))
}

/// What the writers of a list stand for.
pub open spec fn writer_views(ws: Seq<SegmentWriter>) -> Seq<WriterView> {
    ws.map_values(|w: SegmentWriter| w@)
}

/// The entries of a catalogue without those of some segments.
pub open spec fn metas_removed(m: Seq<MetaView>, s: Seq<SegmentView>) -> Seq<MetaView>
    decreases s.len(),
{
    if s.len() == 0 {
        m
    } else {
        metas_without(metas_removed(m, s.drop_last()), s.last().id)
    }
}

/// The catalogue entries of some segments.
pub open spec fn metas_of(s: Seq<SegmentView>, created_at: i64) -> Seq<MetaView> {
    s.map_values(|x: SegmentView| meta_of(x, created_at))
}

/// Whether the indexes of several segments were merged one after the other.
pub open spec fn merged_in_turn(old: TableView, new: TableView, ws: Seq<WriterView>) -> bool
    decreases ws.len(),
{
    if ws.len() == 0 {
        new == old
    } else {
        exists|mid: TableView|
            merged_in_turn(old, mid, ws.drop_last()) && #[trigger] indexes_merged(
                mid,
                new,
                ws.last().segment.id,
                ws.last().indexes,
            )
    }
}

/// Whether a table is another one whose rows were packed into segments of a size.
pub open spec fn is_packed(
    old: TableView,
    new: TableView,
    fields: Seq<Seq<char>>,
    keys: Seq<Option<Seq<char>>>,
    merged: TableView,
    target: u64,
    created_at: i64,
    found: Option<SegmentView>,
) -> bool {
    let base = (old.manifest.active_segment_id + 1) as u64;
    let live = all_live(old, old.segments, fields);
    let ws = packed(live_rows(live), target, base);
    let next = (base + ws.len()) as u64;
    &&& are_keys_of(old, live, keys)
    &&& merged_in_turn(old, merged, ws)
    &&& new == (TableView {
        manifest: ManifestView {
            segments: metas_removed(old.manifest.segments, old.segments) + metas_of(
                all_finished(ws),
                created_at,
            ),
            active_segment_id: next,
            last_sequence_number: (old.manifest.last_sequence_number + 1) as u64,
            ..old.manifest
        },
        active: Some(fresh_writer(found, next)),
        segments: all_finished(ws),
        places: placed(live_rows(live), keys, target, base),
        cache_keys: Seq::empty(),
        cache: Map::empty(),
        saved: merged.saved,
        ..old
    })
}

/// The number of a place, different for different places.
pub open spec fn place_code(p: (u64, u32)) -> u128 {
    (p.0 as u128 * 0x1_0000_0000 + p.1) as u128
}

proof fn lemma_place_code(a: (u64, u32), b: (u64, u32))
    ensures
        place_code(a) == place_code(b) <==> a == b,
        a.0 * 0x1_0000_0000 + a.1 <= u128::MAX,
{
    assert(a.0 * 0x1_0000_0000 + a.1 <= u128::MAX);
    assert(b.0 * 0x1_0000_0000 + b.1 <= u128::MAX);
    if place_code(a) == place_code(b) {
        assert(a.0 == b.0 && a.1 == b.1);
    }
}

fn encode_place(p: (u64, u32)) -> (r: u128)
    ensures
        r == place_code(p),
{
    p.0 as u128 * 0x1_0000_0000 + p.1 as u128
}

/// Whether a map has for each place that keys point at one of those keys.
pub open spec fn reverses(m: Map<u128, String>, t: TableView) -> bool {
    &&& forall|p: (u64, u32)| #[trigger] m.contains_key(place_code(p)) <==> has_key(t, p)
    &&& forall|p: (u64, u32)| #[trigger]
        m.contains_key(place_code(p)) ==> t.places.contains_key(m[place_code(p)]@)
            && t.places[m[place_code(p)]@] == p
}

impl Table {
    fn reverse_places(&self) -> (r: HashMap<u128, String>)
        ensures
            reverses(r@, self@),
    {
        let mut out: HashMap<u128, String> = HashMap::new();
        let n = self.primary_index.len();
        let ghost keys = self.primary_index.keys();
        let mut i: usize = 0;
        while i < n
            invariant
                i <= n == keys.len(),
                keys == self.primary_index.keys(),
                keys.to_set() == self.primary_index@.dom(),
                forall|p: (u64, u32)| #[trigger]
                    out@.contains_key(place_code(p)) <==> exists|k: int|
                        0 <= k < i && self@.places[#[trigger] keys[k]] == p,
                forall|p: (u64, u32)| #[trigger]
                    out@.contains_key(place_code(p)) ==> self@.places.contains_key(
                        out@[place_code(p)]@,
                    ) && self@.places[out@[place_code(p)]@] == p,
            decreases n - i,
        {
            let key = self.primary_index.key_at(i);
            let place: (u64, u32) = *self.primary_index.value_at(i);
            let ghost before = out@;
            out.insert(encode_place(place), key.to_owned());
            proof {
                assert forall|p: (u64, u32)| #[trigger] out@.contains_key(place_code(p)) <==> exists|
                    k: int,
                |
                    0 <= k < i + 1 && self@.places[#[trigger] keys[k]] == p by {
                    lemma_place_code(p, place);
                    if p == place {
                        assert(self@.places[keys[i as int]] == p);
                    } else {
                        assert(out@.contains_key(place_code(p)) == before.contains_key(
                            place_code(p),
                        ));
                        if exists|k: int| 0 <= k < i + 1 && self@.places[#[trigger] keys[k]] == p {
                            let k = choose|k: int|
                                0 <= k < i + 1 && self@.places[#[trigger] keys[k]] == p;
                            assert(k < i);
                        }
                    }
                }
                assert forall|p: (u64, u32)| #[trigger]
                    out@.contains_key(place_code(p)) implies self@.places.contains_key(
                    out@[place_code(p)]@,
                ) && self@.places[out@[place_code(p)]@] == p by {
                    lemma_place_code(p, place);
                    if p != place {
                        assert(before.contains_key(place_code(p)));
                    }
                }
            }
            i = i + 1;
        }
        proof {
            assert forall|p: (u64, u32)| #[trigger] out@.contains_key(place_code(p)) <==> has_key(
                self@,
                p,
            ) by {
                if out@.contains_key(place_code(p)) {
                    assert(self@.places.contains_key(out@[place_code(p)]@));
                }
                if has_key(self@, p) {
                    let key = choose|key: Seq<char>| #[trigger]
                        self@.places.contains_key(key) && self@.places[key] == p;
                    assert(keys.to_set().contains(key));
                    let k = choose|k: int| 0 <= k < keys.len() && keys[k] == key;
                    assert(self@.places[keys[k]] == p);
                }
            }
        }
        out
    }

    fn row_at(&self, s: &Segment, id: u32, fields: &[String]) -> (r: TextMap<Scalar>)
        ensures
            row_view(r@) == row_at(self@, s@, id, texts(fields@)),
    {
        let ghost names = texts(fields@);
        let mut row: TextMap<Scalar> = TextMap::new();
        let mut i: usize = 0;
        while i < fields.len()
            invariant
                i <= fields@.len(),
                names == texts(fields@),
                forall|f: Seq<char>| #[trigger]
                    row@.contains_key(f) <==> names.take(i as int).contains(f),
                forall|f: Seq<char>| #[trigger]
                    row@.contains_key(f) ==> row@[f]@ == self@.reading(s@.cell(f, id)),
            decreases fields@.len() - i,
        {
            let text = s.read_cell(fields[i].as_str(), id);
            let value = self.reading(text.as_str());
            let ghost before = row@;
            row.insert(fields[i].as_str(), value);
            proof {
                let f = fields@[i as int]@;
                let a = names.take(i as int);
                let b = names.take(i + 1);
                assert(b =~= a.push(f));
                assert forall|g: Seq<char>| #[trigger] row@.contains_key(g) <==> b.contains(g) by {
                    if g == f {
                        assert(b[i as int] == g);
                    } else {
                        assert(row@.contains_key(g) == before.contains_key(g));
                        if a.contains(g) {
                            let k = choose|k: int| 0 <= k < a.len() && a[k] == g;
                            assert(b[k] == g);
                        }
                        if b.contains(g) {
                            let k = choose|k: int| 0 <= k < b.len() && b[k] == g;
                            assert(a[k] == g);
                        }
                    }
                }
            }
            i = i + 1;
        }
        proof {
            assert(names.take(i as int) =~= names);
            assert(row_view(row@) =~= row_at(self@, s@, id, names));
        }
        row
    }
}

fn pack_row(ws: &mut Vec<SegmentWriter>, row: &TextMap<Scalar>, target: u64, base: u64)
    requires
        base + old(ws)@.len() <= u64::MAX,
        old(ws)@.len() > 0 && old(ws)@.last().segment.record_count < target
            ==> old(ws)@.last().segment.record_count < u32::MAX,
    ensures
        writer_views(final(ws)@) == ({
            let front = writer_views(old(ws)@);
            if front.len() == 0 || front.last().segment.record_count >= target {
                front.push(new_writer((base + front.len()) as u64).appended(row_view(row@)))
            } else {
                front.drop_last().push(front.last().appended(row_view(row@)))
            }
        }),
{
    let ghost front = writer_views(ws@);
    let n = ws.len();
    let full = n == 0 || ws[n - 1].segment.record_count >= target;
    if full {
        let mut w = SegmentWriter::new(Segment::new(base + n as u64));
        w.append_record(row);
        let ghost one = w@;
        ws.push(w);
        assert(writer_views(ws@) =~= front.push(one));
    } else {
        assert(front.last() == ws@[n - 1]@);
        ws[n - 1].append_record(row);
        assert(writer_views(ws@) =~= front.drop_last().push(
            front.last().appended(row_view(row@)),
        ));
    }
}

proof fn lemma_packed_step(
    rows: Seq<Map<Seq<char>, ScalarView>>,
    row: Map<Seq<char>, ScalarView>,
    target: u64,
    base: u64,
)
    ensures
        packed(rows.push(row), target, base) == ({
            let front = packed(rows, target, base);
            if front.len() == 0 || front.last().segment.record_count >= target {
                front.push(new_writer((base + front.len()) as u64).appended(row))
            } else {
                front.drop_last().push(front.last().appended(row))
            }
        }),
{
    assert(rows.push(row).drop_last() =~= rows);
}

/// Rows are packed into no more segments than there are rows, and no segment has
/// more rows than there are.
pub proof fn law_packed_size(rows: Seq<Map<Seq<char>, ScalarView>>, target: u64, base: u64)
    requires
        target > 0,
        rows.len() <= u64::MAX,
        base + rows.len() <= u64::MAX,
    ensures
        packed(rows, target, base).len() <= rows.len(),
        rows.len() > 0 ==> packed(rows, target, base).len() > 0,
        forall|j: int|
            0 <= j < packed(rows, target, base).len() ==> ({
                let w = #[trigger] packed(rows, target, base)[j];
                &&& 0 < w.segment.record_count <= target
                &&& w.segment.record_count <= rows.len()
                &&& w.segment.id == base + j
                &&& w.segment.deleted == Set::<u32>::empty()
                &&& w.segment.indexes == Map::<Seq<char>, Map<Seq<char>, (ScalarView, Set<u32>)>>::empty()
                &&& w.dirty
            }),
    decreases rows.len(),
{
    if rows.len() > 0 {
        let front = packed(rows.drop_last(), target, base);
        law_packed_size(rows.drop_last(), target, base);
        let all = packed(rows, target, base);
        assert forall|j: int| 0 <= j < all.len() implies ({
            let w = #[trigger] all[j];
            &&& 0 < w.segment.record_count <= target
            &&& w.segment.record_count <= rows.len()
            &&& w.segment.id == base + j
            &&& w.segment.deleted == Set::<u32>::empty()
            &&& w.segment.indexes == Map::<Seq<char>, Map<Seq<char>, (ScalarView, Set<u32>)>>::empty()
            &&& w.dirty
        }) by {
            if j < front.len() {
                assert(front[j].segment.id == base + j);
            }
        }
    }
}

proof fn lemma_live_prefix(t: TableView, s: Seq<SegmentView>, n: int, fields: Seq<Seq<char>>)
    requires
        0 <= n < s.len(),
    ensures
        all_live(t, s.take(n + 1), fields) == all_live(t, s.take(n), fields) + segment_live(
            t,
            s[n],
            s[n].record_count as int,
            fields,
        ),
{
    assert(s.take(n + 1).drop_last() =~= s.take(n));
    assert(s.take(n + 1).last() == s[n]);
}

proof fn lemma_live_bound(t: TableView, s: Seq<SegmentView>, n: int, m: int, fields: Seq<Seq<char>>)
    requires
        0 <= n < s.len(),
        0 <= m <= s[n].record_count,
    ensures
        all_live(t, s.take(n), fields).len() + segment_live(t, s[n], m, fields).len() <= all_live(
            t,
            s,
            fields,
        ).len(),
    decreases s.len() - n, s[n].record_count - m,
{
    if m < s[n].record_count {
        lemma_live_bound(t, s, n, m + 1, fields);
    } else {
        lemma_live_prefix(t, s, n, fields);
        if n + 1 < s.len() {
            lemma_live_bound(t, s, n + 1, 0, fields);
            assert(segment_live(t, s[n + 1], 0, fields).len() == 0);
        } else {
            assert(s.take(n + 1) =~= s);
        }
    }
}

proof fn lemma_placed_step(
    rows: Seq<Map<Seq<char>, ScalarView>>,
    row: Map<Seq<char>, ScalarView>,
    keys: Seq<Option<Seq<char>>>,
    key: Option<Seq<char>>,
    target: u64,
    base: u64,
)
    requires
        keys.len() == rows.len(),
    ensures
        placed(rows.push(row), keys.push(key), target, base) == match key {
            Some(k) => placed(rows, keys, target, base).insert(
                k,
                last_place(rows.push(row), target, base),
            ),
            None => placed(rows, keys, target, base),
        },
{
    assert(rows.push(row).drop_last() =~= rows);
    assert(keys.push(key).drop_last() =~= keys);
}

proof fn lemma_merged_step(old: TableView, mid: TableView, new: TableView, ws: Seq<WriterView>)
    requires
        ws.len() > 0,
        merged_in_turn(old, mid, ws.drop_last()),
        indexes_merged(mid, new, ws.last().segment.id, ws.last().indexes),
    ensures
        merged_in_turn(old, new, ws),
{
}

/// Whether the file of a field that one of some segments indexes holds no index.
pub open spec fn any_undecodable(t: TableView, ws: Seq<WriterView>) -> bool {
    exists|i: int| 0 <= i < ws.len() && some_undecodable(t, (#[trigger] ws[i]).indexes)
}

/// Whether the same fields have an index that can be read.
spec fn same_readable(a: TableView, b: TableView) -> bool {
    forall|f: Seq<char>| (#[trigger] base_index(a, f) is Some) == (base_index(b, f) is Some)
}

proof fn lemma_merged_readable(
    old: TableView,
    new: TableView,
    id: u64,
    indexes: Map<Seq<char>, Map<Seq<char>, (ScalarView, Set<u32>)>>,
)
    requires
        indexes_merged(old, new, id, indexes),
    ensures
        same_readable(new, old),
        !some_undecodable(old, indexes),
{
    assert forall|f: Seq<char>| (#[trigger] base_index(new, f) is Some) == (base_index(
        old,
        f,
    ) is Some) by {
        if indexes.contains_key(f) {
            assert(field_merged(old, new, id, f, indexes[f]));
        } else {
            assert(field_kept(old, new, f));
        }
    }
    assert forall|f: Seq<char>| #[trigger] indexes.contains_key(f) implies base_index(
        old,
        f,
    ) is Some by {
        assert(field_merged(old, new, id, f, indexes[f]));
    }
}

proof fn lemma_same_undecodable(
    a: TableView,
    b: TableView,
    indexes: Map<Seq<char>, Map<Seq<char>, (ScalarView, Set<u32>)>>,
)
    requires
        same_readable(a, b),
    ensures
        some_undecodable(a, indexes) == some_undecodable(b, indexes),
{
    if some_undecodable(a, indexes) {
        let f = choose|f: Seq<char>| #[trigger]
            indexes.contains_key(f) && base_index(a, f) is None;
        assert(!(base_index(a, f) is Some));
        assert(indexes.contains_key(f) && base_index(b, f) is None);
    }
    if some_undecodable(b, indexes) {
        let f = choose|f: Seq<char>| #[trigger]
            indexes.contains_key(f) && base_index(b, f) is None;
        assert(!(base_index(a, f) is Some));
        assert(indexes.contains_key(f) && base_index(a, f) is None);
    }
}

proof fn lemma_live_fields(t: TableView, s: Seq<SegmentView>, fields: Seq<Seq<char>>)
    ensures
        forall|i: int|
            0 <= i < all_live(t, s, fields).len() ==> (#[trigger] all_live(
                t,
                s,
                fields,
            )[i]).row.dom() == fields.to_set(),
    decreases s.len(),
{
    if s.len() > 0 {
        lemma_live_fields(t, s.drop_last(), fields);
        lemma_segment_fields(t, s.last(), s.last().record_count as int, fields);
        let front = all_live(t, s.drop_last(), fields);
        let back = segment_live(t, s.last(), s.last().record_count as int, fields);
        let all = all_live(t, s, fields);
        assert forall|i: int| 0 <= i < all.len() implies (#[trigger] all[i]).row.dom()
            == fields.to_set() by {
            if i < front.len() {
                assert(all[i] == front[i]);
            } else {
                assert(all[i] == back[i - front.len()]);
            }
        }
    }
}

proof fn lemma_segment_fields(t: TableView, s: SegmentView, n: int, fields: Seq<Seq<char>>)
    ensures
        forall|i: int|
            0 <= i < segment_live(t, s, n, fields).len() ==> (#[trigger] segment_live(
                t,
                s,
                n,
                fields,
            )[i]).row.dom() == fields.to_set(),
    decreases n,
{
    if n > 0 {
        lemma_segment_fields(t, s, n - 1, fields);
        let front = segment_live(t, s, n - 1, fields);
        let all = segment_live(t, s, n, fields);
        assert forall|i: int| 0 <= i < all.len() implies (#[trigger] all[i]).row.dom()
            == fields.to_set() by {
            if i < front.len() {
                assert(all[i] == front[i]);
            } else {
                assert(all[i].row.dom() =~= fields.to_set());
            }
        }
    }
}

/// Every packed segment indexes the fields of its rows.
proof fn lemma_packed_indexes(
    rows: Seq<Map<Seq<char>, ScalarView>>,
    target: u64,
    base: u64,
    fields: Set<Seq<char>>,
)
    requires
        forall|i: int| 0 <= i < rows.len() ==> (#[trigger] rows[i]).dom() == fields,
    ensures
        (packed(rows, target, base).len() > 0) == (rows.len() > 0),
        forall|i: int|
            0 <= i < packed(rows, target, base).len() ==> (#[trigger] packed(
                rows,
                target,
                base,
            )[i]).indexes.dom() == fields,
    decreases rows.len(),
{
    if rows.len() > 0 {
        let prior = rows.drop_last();
        let front = packed(prior, target, base);
        let all = packed(rows, target, base);
        assert forall|i: int| 0 <= i < prior.len() implies (#[trigger] prior[i]).dom() == fields by {
            assert(prior[i] == rows[i]);
        }
        lemma_packed_indexes(prior, target, base, fields);
        assert(rows[rows.len() - 1].dom() == fields);
        assert forall|i: int| 0 <= i < all.len() implies (#[trigger] all[i]).indexes.dom()
            == fields by {
            if i < all.len() - 1 {
                assert(all[i] == front[i]);
            } else if front.len() == 0 || front.last().segment.record_count >= target {
                assert(all[i].indexes.dom() =~= fields);
            } else {
                assert(front[front.len() - 1].indexes.dom() == fields);
                assert(all[i].indexes.dom() =~= fields);
            }
        }
    }
}

impl Table {
    fn pack(&self, fields: &[String], target: u64, base: u64) -> (r: (
        Vec<SegmentWriter>,
        TextMap<(u64, u32)>,
        Ghost<Seq<Option<Seq<char>>>>,
    ))
        requires
            self.wf(),
            target > 0,
            base + all_live(self@, self@.segments, texts(fields@)).len() <= u64::MAX,
            target <= u32::MAX || all_live(self@, self@.segments, texts(fields@)).len() <= u32::MAX,
        ensures
            are_keys_of(self@, all_live(self@, self@.segments, texts(fields@)), r.2@),
            writer_views(r.0@) == packed(
                live_rows(all_live(self@, self@.segments, texts(fields@))),
                target,
                base,
            ),
            r.1@ == placed(
                live_rows(all_live(self@, self@.segments, texts(fields@))),
                r.2@,
                target,
                base,
            ),
    {
        let reverse = self.reverse_places();
        let ghost names = texts(fields@);
        let ghost segs = self@.segments;
        let ghost whole = all_live(self@, segs, names);
        let mut ws: Vec<SegmentWriter> = Vec::new();
        let mut places: TextMap<(u64, u32)> = TextMap::new();
        let ghost mut keys: Seq<Option<Seq<char>>> = Seq::empty();
        let mut i: usize = 0;
        proof {
            assert(segs.take(0) =~= Seq::empty());
            assert(live_rows(all_live(self@, segs.take(0), names)) =~= Seq::empty());
            assert(writer_views(ws@) =~= Seq::empty());
        }
        while i < self.segments.len()
            invariant
                i <= self.segments@.len(),
                self.wf(),
                target > 0,
                names == texts(fields@),
                segs == self@.segments,
                whole == all_live(self@, segs, names),
                base + whole.len() <= u64::MAX,
                target <= u32::MAX || whole.len() <= u32::MAX,
                reverses(reverse@, self@),
                are_keys_of(self@, all_live(self@, segs.take(i as int), names), keys),
                writer_views(ws@) == packed(
                    live_rows(all_live(self@, segs.take(i as int), names)),
                    target,
                    base,
                ),
                places@ == placed(
                    live_rows(all_live(self@, segs.take(i as int), names)),
                    keys,
                    target,
                    base,
                ),
            decreases self.segments@.len() - i,
        {
            let s = &self.segments[i];
            let ghost before = all_live(self@, segs.take(i as int), names);
            let count: u32 = s.record_count as u32;
            let mut id: u32 = 0;
            proof {
                assert(segs[i as int] == s@);
                assert(before + segment_live(self@, s@, 0, names) =~= before);
            }
            while id < count
                invariant
                    i < self.segments@.len(),
                    *s == self.segments@[i as int],
                    id <= count,
                    count == s.record_count,
                    target > 0,
                    names == texts(fields@),
                    segs == self@.segments,
                    segs[i as int] == s@,
                    whole == all_live(self@, segs, names),
                    before == all_live(self@, segs.take(i as int), names),
                    base + whole.len() <= u64::MAX,
                    target <= u32::MAX || whole.len() <= u32::MAX,
                    reverses(reverse@, self@),
                    are_keys_of(
                        self@,
                        before + segment_live(self@, s@, id as int, names),
                        keys,
                    ),
                    writer_views(ws@) == packed(
                        live_rows(before + segment_live(self@, s@, id as int, names)),
                        target,
                        base,
                    ),
                    places@ == placed(
                        live_rows(before + segment_live(self@, s@, id as int, names)),
                        keys,
                        target,
                        base,
                    ),
                decreases count - id,
            {
                let ghost seen = before + segment_live(self@, s@, id as int, names);
                let ghost rows = live_rows(seen);
                if !s.deleted_bitmap.contains(id) {
                    let row = self.row_at(s, id, fields);
                    let ghost one = LiveRow { place: (s.id, id), row: row_view(row@) };
                    proof {
                        lemma_live_bound(self@, segs, i as int, id + 1, names);
                        assert(before + segment_live(self@, s@, id + 1, names) =~= seen.push(one));
                        assert(live_rows(seen.push(one)) =~= rows.push(one.row));
                        assert(rows.len() == seen.len());
                        assert(rows.len() < whole.len());
                        law_packed_size(rows, target, base);
                        lemma_packed_step(rows, one.row, target, base);
                        law_packed_size(rows.push(one.row), target, base);
                        assert(writer_views(ws@).len() == ws@.len());
                        if ws@.len() > 0 {
                            assert(writer_views(ws@)[ws@.len() - 1] == ws@.last()@);
                        }
                    }
                    pack_row(&mut ws, &row, target, base);
                    let n = ws.len();
                    proof {
                        assert(writer_views(ws@).len() == n);
                        assert(writer_views(ws@)[n - 1] == ws@[n - 1]@);
                        assert(packed(rows.push(one.row), target, base)[n - 1].segment.id == base + (n
                            - 1));
                    }
                    let place: (u64, u32) = (
                        ws[n - 1].segment.id,
                        (ws[n - 1].segment.record_count - 1) as u32,
                    );
                    assert(place == last_place(rows.push(one.row), target, base));
                    let old_place: (u64, u32) = (s.id, id);
                    let ghost kept = places@;
                    let ghost mut key: Option<Seq<char>> = None;
                    match reverse.get(&encode_place(old_place)) {
                        Some(k) => {
                            proof {
                                assert(reverse@.contains_key(place_code(old_place)));
                                key = Some(k@);
                            }
                            places.insert(k.as_str(), place);
                        },
                        None => {
                            assert(!reverse@.contains_key(place_code(old_place)));
                            if let Some(v) = row.get(self.key_field()) {
                                proof {
                                    assert(one.row[key_field(self@.manifest)] == v@);
                                    key = Some(v.text@);
                                }
                                places.insert(v.text.as_str(), place);
                            }
                        },
                    }
                    proof {
                        lemma_placed_step(rows, one.row, keys, key, target, base);
                        assert(is_key_of(self@, one, key));
                        let more = keys.push(key);
                        assert forall|k: int| 0 <= k < seen.push(one).len() implies is_key_of(
                            self@,
                            seen.push(one)[k],
                            #[trigger] more[k],
                        ) by {
                            if k < seen.len() {
                                assert(is_key_of(self@, seen[k], keys[k]));
                            }
                        }
                        keys = more;
                    }
                } else {
                    assert(before + segment_live(self@, s@, id + 1, names) =~= seen);
                }
                id = id + 1;
            }
            proof {
                lemma_live_prefix(self@, segs, i as int, names);
            }
            i = i + 1;
        }
        assert(segs.take(i as int) =~= segs);
        (ws, places, Ghost(keys))
    }

    /// How many rows of the segments are not deleted.
    pub fn count_live(&self) -> (r: u64)
        ensures
            r == capped(live_total(self@.segments)),
    {
        let ghost segs = self@.segments;
        let mut total: u64 = 0;
        let mut i: usize = 0;
        while i < self.segments.len()
            invariant
                i <= self.segments@.len(),
                segs == self@.segments,
                total == capped(live_total(segs.take(i as int))),
            decreases self.segments@.len() - i,
        {
            let s = &self.segments[i];
            assert(segs.take(i + 1).drop_last() =~= segs.take(i as int));
            assert(segs.take(i + 1).last() == s@);
            let gone: u64 = s.deleted_bitmap.len();
            let live: u64 = if gone <= s.record_count {
                s.record_count - gone
            } else {
                0
            };
            total = capped_sum(total, live);
            i = i + 1;
        }
        assert(segs.take(i as int) =~= segs);
        total
    }

    fn merge_all(&mut self, ws: &[SegmentWriter]) -> (r: Result<Ghost<TableView>, TableError>)
        requires
            old(self).wf(),
        ensures
            final(self).wf(),
            same_but_indexes(final(self)@, old(self)@),
            match r {
                Ok(g) => merged_in_turn(old(self)@, final(self)@, writer_views(ws@)) && g@
                    == final(self)@,
                Err(e) => e is Undecodable,
            },
            r is Err <==> any_undecodable(old(self)@, writer_views(ws@)),
    {
        let ghost views = writer_views(ws@);
        let mut i: usize = 0;
        assert(views.take(0) =~= Seq::empty());
        while i < ws.len()
            invariant
                i <= ws@.len(),
                views == writer_views(ws@),
                self.wf(),
                same_but_indexes(self@, old(self)@),
                merged_in_turn(old(self)@, self@, views.take(i as int)),
                same_readable(self@, old(self)@),
                forall|j: int|
                    0 <= j < i ==> !some_undecodable(old(self)@, (#[trigger] views[j]).indexes),
            decreases ws@.len() - i,
        {
            let ghost before = self@;
            proof {
                assert(views[i as int] == ws@[i as int]@);
                lemma_same_undecodable(before, old(self)@, views[i as int].indexes);
            }
            match self.merge_exact_indexes_for_segment(ws[i].segment.id, &ws[i].bitmaps) {
                Ok(_) => {},
                Err(e) => {
                    return Err(e);
                },
            }
            proof {
                lemma_merged_readable(
                    before,
                    self@,
                    ws@[i as int].segment.id,
                    views[i as int].indexes,
                );
                assert(views.take(i + 1).drop_last() =~= views.take(i as int));
                assert(views.take(i + 1).last() == ws@[i as int]@);
                let upto = views.take(i + 1);
                lemma_merged_step(old(self)@, before, self@, upto);
            }
            i = i + 1;
        }
        assert(views.take(i as int) =~= views);
        Ok(Ghost(self@))
    }

    fn forget_segments(&mut self)
        requires
            old(self).wf(),
        ensures
            final(self).wf(),
            final(self)@ == (TableView {
                manifest: ManifestView {
                    segments: metas_removed(
                        old(self)@.manifest.segments,
                        old(self)@.segments,
                    ),
                    ..old(self)@.manifest
                },
                ..old(self)@
            }),
    {
        let ghost segs = self@.segments;
        let ghost start = self@;
        let mut i: usize = 0;
        assert(segs.take(0) =~= Seq::empty());
        while i < self.segments.len()
            invariant
                i <= self.segments@.len(),
                self.wf(),
                start == old(self)@,
                segs == start.segments,
                segs == segment_views(self.segments@),
                self@ == (TableView {
                    manifest: ManifestView {
                        segments: metas_removed(start.manifest.segments, segs.take(i as int)),
                        ..start.manifest
                    },
                    ..start
                }),
            decreases self.segments@.len() - i,
        {
            let id: u64 = self.segments[i].id;
            let ghost entries = self.manifest.segments@;
            assert(segs[i as int].id == id);
            self.manifest.remove_segment(id);
            proof {
                lemma_metas_without(entries, id);
                assert(segs.take(i + 1).drop_last() =~= segs.take(i as int));
                assert(segs.take(i + 1).last() == segs[i as int]);
            }
            i = i + 1;
        }
        assert(segs.take(i as int) =~= segs);
    }
}

/// The field of a column, by the name of its file.
pub open spec fn column_field(column: Seq<char>) -> Option<Seq<char>> {
    file_field(column + ".dat"@)
}

/// Whether a list holds the fields of a segment's columns in their order.
pub open spec fn lists_fields(l: Seq<Seq<char>>, s: SegmentView) -> bool {
    &&& forall|i: int, j: int|
        #![trigger l[i], l[j]]
        0 <= i < j < l.len() ==> !text_less(l[j], l[i])
    &&& forall|f: Seq<char>| #[trigger]
        l.contains(f) <==> exists|c: Seq<char>| #[trigger]
            s.columns.contains_key(c) && column_field(c) == Some(f)
}

/// The fields of a segment's columns in their order.
pub fn segment_fields(s: &Segment) -> (r: Vec<String>)
    ensures
        lists_fields(texts(r@), s@),
{
    let mut found: Vec<String> = Vec::new();
    let n = s.columns.len();
    let ghost keys = s.columns.keys();
    let mut i: usize = 0;
    while i < n
        invariant
            i <= n == keys.len(),
            keys == s.columns.keys(),
            keys.to_set() == s.columns@.dom(),
            forall|f: Seq<char>| #[trigger]
                texts(found@).contains(f) <==> exists|k: int|
                    0 <= k < i && column_field(#[trigger] keys[k]) == Some(f),
        decreases n - i,
    {
        let mut file = s.columns.key_at(i).to_owned();
        file.append(".dat");
        let ghost before = texts(found@);
        let ghost name = keys[i as int];
        if let Some(f) = field_of_file(file.as_str()) {
            let ghost one = f@;
            found.push(f);
            assert(texts(found@) =~= before.push(one));
            assert(texts(found@)[before.len() as int] == one);
        }
        proof {
            let now = texts(found@);
            assert forall|f: Seq<char>| #[trigger] now.contains(f) <==> exists|k: int|
                0 <= k < i + 1 && column_field(#[trigger] keys[k]) == Some(f) by {
                if now.contains(f) {
                    let k = choose|k: int| 0 <= k < now.len() && now[k] == f;
                    if k < before.len() {
                        assert(before[k] == f);
                        assert(before.contains(f));
                        let m = choose|m: int|
                            0 <= m < i && column_field(#[trigger] keys[m]) == Some(f);
                        assert(column_field(keys[m]) == Some(f));
                    } else {
                        assert(column_field(keys[i as int]) == Some(f));
                    }
                }
                if exists|k: int| 0 <= k < i + 1 && column_field(#[trigger] keys[k]) == Some(f) {
                    let k = choose|k: int|
                        0 <= k < i + 1 && column_field(#[trigger] keys[k]) == Some(f);
                    if k < i {
                        assert(before.contains(f));
                        let m = choose|m: int| 0 <= m < before.len() && before[m] == f;
                        assert(now[m] == f);
                    } else {
                        assert(now[before.len() as int] == f);
                    }
                }
            }
        }
        i = i + 1;
    }
    let r = sort_texts(found.as_slice());
    proof {
        broadcast use vstd::seq_lib::group_to_multiset_ensures;

        let a = texts(found@);
        let l = texts(r@);
        law_texts_sorted(a);
        assert forall|f: Seq<char>| #[trigger] l.contains(f) <==> exists|c: Seq<char>| #[trigger]
            s@.columns.contains_key(c) && column_field(c) == Some(f) by {
            assert(l.contains(f) <==> l.to_multiset().count(f) > 0);
            assert(a.contains(f) <==> a.to_multiset().count(f) > 0);
            if a.contains(f) {
                let k = choose|k: int| 0 <= k < n && column_field(#[trigger] keys[k]) == Some(f);
                assert(keys.to_set().contains(keys[k]));
                assert(s@.columns.contains_key(keys[k]));
            }
            if exists|c: Seq<char>| #[trigger]
                s@.columns.contains_key(c) && column_field(c) == Some(f) {
                let c = choose|c: Seq<char>| #[trigger]
                    s@.columns.contains_key(c) && column_field(c) == Some(f);
                assert(keys.to_set().contains(c));
                let k = choose|k: int| 0 <= k < keys.len() && keys[k] == c;
                assert(column_field(keys[k]) == Some(f));
                assert(a.contains(f));
            }
        }
    }
    r
}

pub(crate) proof fn lemma_live_len(
    t: TableView,
    u: TableView,
    s: Seq<SegmentView>,
    a: Seq<Seq<char>>,
    b: Seq<Seq<char>>,
)
    ensures
        all_live(t, s, a).len() == all_live(u, s, b).len(),
    decreases s.len(),
{
    if s.len() > 0 {
        lemma_live_len(t, u, s.drop_last(), a, b);
        lemma_segment_live_len(t, u, s.last(), s.last().record_count as int, a, b);
    }
}

proof fn lemma_segment_live_len(
    t: TableView,
    u: TableView,
    s: SegmentView,
    n: int,
    a: Seq<Seq<char>>,
    b: Seq<Seq<char>>,
)
    ensures
        segment_live(t, s, n, a).len() == segment_live(u, s, n, b).len(),
    decreases n,
{
    if n > 0 {
        lemma_segment_live_len(t, u, s, n - 1, a, b);
    }
}

fn finish(ws: Vec<SegmentWriter>) -> (r: Vec<Segment>)
    requires
        forall|i: int|
            0 <= i < ws@.len() ==> (#[trigger] ws@[i]).segment.wf() && ws@[i]@.dirty
                && ws@[i]@.segment.indexes == Map::<
                Seq<char>,
                Map<Seq<char>, (ScalarView, Set<u32>)>,
            >::empty(),
    ensures
        segment_views(r@) == all_finished(writer_views(ws@)),
        forall|i: int| 0 <= i < r@.len() ==> (#[trigger] r@[i]).wf(),
{
    let ghost views = writer_views(ws@);
    let ghost start = ws@;
    let mut rest = ws;
    let mut out: Vec<Segment> = Vec::new();
    let ghost mut n: int = 0;
    assert(segment_views(out@) =~= all_finished(views.take(0)));
    assert(start.skip(0) =~= start);
    while rest.len() > 0
        invariant
            0 <= n <= start.len(),
            views == writer_views(start),
            rest@ == start.skip(n),
            segment_views(out@) == all_finished(views.take(n)),
            forall|i: int| 0 <= i < out@.len() ==> (#[trigger] out@[i]).wf(),
            forall|i: int|
                0 <= i < start.len() ==> (#[trigger] start[i]).segment.wf() && start[i]@.dirty
                    && start[i]@.segment.indexes == Map::<
                    Seq<char>,
                    Map<Seq<char>, (ScalarView, Set<u32>)>,
                >::empty(),
        decreases rest@.len(),
    {
        assert(start.skip(n).len() == start.len() - n);
        assert(rest@[0] == start[n]);
        let w = rest.remove(0);
        let mut w = w;
        let ghost before = w@;
        w.flush();
        let mut s = w.segment;
        s.is_immutable = true;
        proof {
            assert(s@.indexes =~= before.indexes);
            assert(s@ =~= finished(before));
        }
        let ghost one = s@;
        let ghost done = segment_views(out@);
        out.push(s);
        proof {
            assert(segment_views(out@) =~= done.push(one));
            assert(views.take(n + 1) =~= views.take(n).push(views[n]));
            assert(all_finished(views.take(n + 1)) =~= all_finished(views.take(n)).push(one));
            assert(rest@ =~= start.skip(n + 1));
            n = n + 1;
        }
    }
    proof {
        assert(start.skip(n).len() == 0);
        assert(views.take(n) =~= views);
    }
    out
}

/// Whether a table is another one after its segments were packed, and `n` is by how
/// many segments it has fewer; it is the same where packing is not worth it or where
/// its first segment has no columns.
pub open spec fn is_compacted(
    old: TableView,
    new: TableView,
    n: int,
    target: u64,
    created_at: i64,
    found: Option<SegmentView>,
) -> bool {
    let count = old.segments.len();
    let worth = worth_compacting(
        count as int,
        capped(live_total(old.segments)) as int,
        target as int,
    );
    ||| {
        &&& n == 0
        &&& new == old
        &&& !worth || lists_fields(Seq::empty(), old.segments[0])
    }
    ||| {
        &&& worth
        &&& n == if count >= new.segments.len() {
            count - new.segments.len()
        } else {
            0
        }
        &&& exists|fields: Seq<Seq<char>>, keys: Seq<Option<Seq<char>>>, merged: TableView|
            lists_fields(fields, old.segments[0]) && fields.len() > 0 && #[trigger] is_packed(
                old,
                new,
                fields,
                keys,
                merged,
                target,
                created_at,
                found,
            )
    }
}

/// The segments of a table with the active one, as they are once it is closed.
pub open spec fn closed_segments(t: TableView) -> Seq<SegmentView> {
    match t.active {
        Some(w) => t.segments.push(SegmentView { is_immutable: true, ..w.flushed().segment }),
        None => t.segments,
    }
}

/// How many rows of a table are not deleted.
pub open spec fn live_len(t: TableView) -> nat {
    all_live(t, closed_segments(t), Seq::empty()).len()
}

/// Whether the segments cannot be packed although it is worth it: a field of the first
/// one has a file that holds no index, and there are rows.
pub open spec fn packing_blocked(t: TableView, target: u64) -> bool {
    &&& worth_compacting(
        t.segments.len() as int,
        capped(live_total(t.segments)) as int,
        target as int,
    )
    &&& all_live(t, t.segments, Seq::empty()).len() > 0
    &&& exists|c: Seq<char>| #[trigger]
        t.segments[0].columns.contains_key(c) && column_field(c) is Some && base_index(
            t,
            column_field(c)->0,
        ) is None
}

proof fn lemma_blocked(t: TableView, fields: Seq<Seq<char>>, target: u64, base: u64)
    requires
        lists_fields(fields, t.segments[0]),
        worth_compacting(
            t.segments.len() as int,
            capped(live_total(t.segments)) as int,
            target as int,
        ),
    ensures
        any_undecodable(t, packed(live_rows(all_live(t, t.segments, fields)), target, base))
            == packing_blocked(t, target),
{
    let live = all_live(t, t.segments, fields);
    let rows = live_rows(live);
    let ws = packed(rows, target, base);
    lemma_live_fields(t, t.segments, fields);
    assert forall|i: int| 0 <= i < rows.len() implies (#[trigger] rows[i]).dom()
        == fields.to_set() by {
        assert(rows[i] == live[i].row);
    }
    lemma_packed_indexes(rows, target, base, fields.to_set());
    lemma_live_len(t, t, t.segments, fields, Seq::empty());
    if any_undecodable(t, ws) {
        let i = choose|i: int| 0 <= i < ws.len() && some_undecodable(t, (#[trigger] ws[i]).indexes);
        let f = choose|f: Seq<char>| #[trigger]
            ws[i].indexes.contains_key(f) && base_index(t, f) is None;
        assert(ws[i].indexes.dom().contains(f));
        assert(fields.contains(f));
        let c = choose|c: Seq<char>| #[trigger]
            t.segments[0].columns.contains_key(c) && column_field(c) == Some(f);
        assert(t.segments[0].columns.contains_key(c) && column_field(c) is Some);
    }
    if packing_blocked(t, target) {
        let c = choose|c: Seq<char>| #[trigger]
            t.segments[0].columns.contains_key(c) && column_field(c) is Some && base_index(
                t,
                column_field(c)->0,
            ) is None;
        let f = column_field(c)->0;
        assert(column_field(c) == Some(f));
        assert(fields.contains(f));
        assert(ws[0].indexes.dom() == fields.to_set());
        assert(ws[0].indexes.contains_key(f));
        assert(some_undecodable(t, ws[0].indexes));
    }
}

impl Table {
    /// Packs the rows of all segments but the active one into segments of a size,
    /// where that is worth it, and tells by how many segments there are fewer. The
    /// active segment has to be empty: its rows are not packed, and it is begun anew.
    fn pack_segments(&mut self, target_rows: u64, created_at: i64, found: Option<Segment>) -> (r:
        Result<usize, TableError>)
        requires
            old(self).wf(),
            target_rows > 0,
            old(self).manifest.active_segment_id + 1 + all_live(
                old(self)@,
                old(self)@.segments,
                Seq::empty(),
            ).len() <= u64::MAX,
            old(self).manifest.last_sequence_number < u64::MAX,
            target_rows <= u32::MAX || all_live(
                old(self)@,
                old(self)@.segments,
                Seq::empty(),
            ).len() <= u32::MAX,
            found is Some ==> found->0.wf(),
        ensures
            final(self).wf(),
            match r {
                Ok(n) => is_compacted(
                    old(self)@,
                    final(self)@,
                    n as int,
                    target_rows,
                    created_at,
                    segment_option(found),
                ),
                Err(e) => e is Undecodable && same_but_indexes(final(self)@, old(self)@),
            },
            r is Err <==> packing_blocked(old(self)@, target_rows),
    {
        let old_count = self.segments.len();
        let total_rows: u64 = self.count_live();
        if !should_compact(old_count, total_rows, target_rows) {
            return Ok(0);
        }
        let fields = segment_fields(&self.segments[0]);
        let ghost start = self@;
        let ghost names = texts(fields@);
        proof {
            assert(start.segments[0] == self.segments@[0]@);
            assert(names.len() == fields@.len());
            lemma_blocked(
                start,
                names,
                target_rows,
                (start.manifest.active_segment_id + 1) as u64,
            );
        }
        if fields.len() == 0 {
            proof {
                assert(names =~= Seq::empty());
                if packing_blocked(start, target_rows) {
                    let c = choose|c: Seq<char>| #[trigger]
                        start.segments[0].columns.contains_key(c) && column_field(c) is Some
                            && base_index(start, column_field(c)->0) is None;
                    assert(column_field(c) == Some(column_field(c)->0));
                    assert(names.contains(column_field(c)->0));
                }
            }
            return Ok(0);
        }
        proof {
            lemma_live_len(start, start, start.segments, names, Seq::empty());
        }
        let base: u64 = self.manifest.active_segment_id + 1;
        let (ws, places, Ghost(keys)) = self.pack(fields.as_slice(), target_rows, base);
        let ghost live = all_live(start, start.segments, names);
        let ghost rows = live_rows(live);
        let ghost views = writer_views(ws@);
        proof {
            assert(rows.len() == live.len());
            law_packed_size(rows, target_rows, base);
            assert forall|i: int| 0 <= i < ws@.len() implies (#[trigger] ws@[i]).segment.wf()
                && ws@[i]@.dirty && ws@[i]@.segment.indexes == Map::<
                Seq<char>,
                Map<Seq<char>, (ScalarView, Set<u32>)>,
            >::empty() by {
                assert(views[i] == ws@[i]@);
                assert(packed(rows, target_rows, base)[i].segment.id == base + i);
            }
        }
        let merged = match self.merge_all(ws.as_slice()) {
            Ok(g) => g,
            Err(e) => {
                return Err(e);
            },
        };
        let ghost middle = self@;
        let new_count = ws.len();
        let segments = finish(ws);
        self.forget_segments();
        let ghost kept = metas(self.manifest.segments@);
        let mut i: usize = 0;
        assert(metas(self.manifest.segments@) =~= kept + metas_of(
            segment_views(segments@).take(0),
            created_at,
        ));
        let ghost cleared = self@;
        while i < segments.len()
            invariant
                i <= segments@.len(),
                self.wf(),
                self@ == (TableView {
                    manifest: ManifestView {
                        segments: kept + metas_of(
                            segment_views(segments@).take(i as int),
                            created_at,
                        ),
                        ..cleared.manifest
                    },
                    ..cleared
                }),
            decreases segments@.len() - i,
        {
            let meta = segments[i].to_meta(created_at);
            let ghost before = metas(self.manifest.segments@);
            let ghost one = meta@;
            let ghost view = segment_views(segments@);
            self.manifest.add_segment(meta);
            i = i + 1;
            proof {
                assert(one =~= meta_of(view[i - 1], created_at));
                assert(metas(self.manifest.segments@) =~= before.push(one));
                assert(view.take(i as int) =~= view.take(i - 1).push(view[i - 1]));
                assert(metas_of(view.take(i as int), created_at) =~= metas_of(
                    view.take(i - 1),
                    created_at,
                ).push(one));
                assert(metas(self.manifest.segments@) =~= kept + metas_of(
                    view.take(i as int),
                    created_at,
                ));
            }
        }
        assert(segment_views(segments@).take(i as int) =~= segment_views(segments@));
        self.manifest.active_segment_id = base + new_count as u64;
        self.manifest.last_sequence_number = self.manifest.last_sequence_number + 1;
        self.segments = segments;
        self.primary_index = places;
        self.cache = TextMap::new();
        self.active = None;
        self.ensure_active_segment(found);
        proof {
            assert(cache_view(self.cache@) =~= Map::empty());
            assert(is_packed(
                start,
                self@,
                names,
                keys,
                merged@,
                target_rows,
                created_at,
                segment_option(found),
            ));
            assert(self@.segments.len() == new_count);
        }
        if old_count >= new_count {
            Ok(old_count - new_count)
        } else {
            Ok(0)
        }
    }
}

impl Table {
    /// Closes the active segment and packs the rows of all segments into segments of a
    /// size, where that is worth it, and tells by how many segments there are fewer.
    /// `begun` is what was found on disk for the segment that is begun when the active
    /// one is closed, `found` what was found for the one behind the packed ones. A sound
    /// table keeps its keys and their rows.
    pub fn compact(
        &mut self,
        target_rows: u64,
        created_at: i64,
        interval: u32,
        begun: Option<Segment>,
        found: Option<Segment>,
    ) -> (r: Result<usize, TableError>)
        requires
            old(self).wf(),
            target_rows > 0,
            old(self).flush_count < u32::MAX,
            old(self).manifest.active_segment_id + 2 + live_len(old(self)@) <= u64::MAX,
            old(self).manifest.last_sequence_number + 2 <= u64::MAX,
            target_rows <= u32::MAX || live_len(old(self)@) <= u32::MAX,
            begun is Some ==> begun->0.wf(),
            found is Some ==> found->0.wf(),
        ensures
            final(self).wf(),
            r is Ok && sound(old(self)@) && fields_kept(
                closed_segments(old(self)@),
                old(self)@.manifest.original_fields,
            ) ==> {
                &&& same_rows(old(self)@, final(self)@)
                &&& r->Ok_0 == closed_segments(old(self)@).len() - final(self)@.segments.len()
                &&& closed_segments(old(self)@).len() < 4 ==> r->Ok_0 == 0
                &&& idle(segment_option(begun)) && idle(segment_option(found)) ==> sound(
                    final(self)@,
                )
            },
            r is Ok && cache_in_step(old(self)@) ==> cache_in_step(final(self)@),
            match r {
                Ok(n) => !(old(self)@.active is Some && some_undecodable(
                    old(self)@,
                    old(self)@.active->0.indexes,
                )) && exists|mid: TableView| #[trigger]
                    is_flushed(
                        old(self)@,
                        mid,
                        created_at,
                        interval,
                        segment_option(begun),
                    ) && !packing_blocked(mid, target_rows) && is_compacted(
                        mid,
                        final(self)@,
                        n as int,
                        target_rows,
                        created_at,
                        segment_option(found),
                    ),
                Err(e) => e is Undecodable && {
                    ||| {
                        &&& old(self)@.active is Some
                        &&& some_undecodable(old(self)@, old(self)@.active->0.indexes)
                        &&& final(self)@ == (TableView {
                            active: None,
                            cache_keys: final(self)@.cache_keys,
                            cache: final(self)@.cache,
                            saved: final(self)@.saved,
                            ..old(self)@
                        })
                    }
                    ||| exists|mid: TableView| #[trigger]
                        is_flushed(
                            old(self)@,
                            mid,
                            created_at,
                            interval,
                            segment_option(begun),
                        ) && packing_blocked(mid, target_rows) && same_but_indexes(
                            final(self)@,
                            mid,
                        )
                },
            },
    {
        let ghost start = self@;
        match self.flush_active_segment(created_at, interval, begun) {
            Ok(_) => {},
            Err(e) => {
                return Err(e);
            },
        }
        let ghost mid = self@;
        proof {
            assert(mid.segments =~= closed_segments(start));
            lemma_live_len(start, mid, mid.segments, Seq::empty(), Seq::empty());
        }
        let r = self.pack_segments(target_rows, created_at, found);
        proof {
            if let Ok(n) = r {
                let first = segment_option(begun);
                let second = segment_option(found);
                if cache_in_step(start) {
                    law_flush_keeps_cache_in_step(start, mid, created_at, interval, first);
                    law_compacting_keeps_cache_in_step(
                        mid,
                        self@,
                        n as int,
                        target_rows,
                        created_at,
                        second,
                    );
                }
                if sound(start) && fields_kept(
                    closed_segments(start),
                    start.manifest.original_fields,
                ) {
                    law_columns_are_short(*self);
                    law_compacting_keeps_rows(
                        start,
                        mid,
                        self@,
                        n as int,
                        target_rows,
                        created_at,
                        interval,
                        first,
                        second,
                    );
                }
            }
        }
        r
    }
}

/// The texts that the columns of each packed segment hold.
pub open spec fn packed_cells(
    rows: Seq<Map<Seq<char>, ScalarView>>,
    target: u64,
    base: u64,
) -> Seq<Map<Seq<char>, Seq<Seq<char>>>>
    decreases rows.len(),
{
    if rows.len() == 0 {
        Seq::empty()
    } else {
        let front = packed_cells(rows.drop_last(), target, base);
        let ws = packed(rows.drop_last(), target, base);
        if ws.len() == 0 || ws.last().segment.record_count >= target {
            front.push(cells_after(Map::empty(), rows.last()))
        } else {
            front.drop_last().push(cells_after(front.last(), rows.last()))
        }
    }
}

/// Whether the data of every column is short enough for a number of 64 bits.
pub open spec fn columns_short(ws: Seq<WriterView>) -> bool {
    forall|j: int, c: Seq<char>|
        #![trigger ws[j].segment.columns.contains_key(c)]
        0 <= j < ws.len() && ws[j].segment.columns.contains_key(c)
            ==> ws[j].segment.columns[c].data.len() <= u64::MAX
}

/// Whether the data of every column of some segments is short enough for a number of 64
/// bits, as it is of every table that stands in memory.
pub open spec fn segments_short(segs: Seq<SegmentView>) -> bool {
    forall|j: int, c: Seq<char>|
        #![trigger segs[j].columns.contains_key(c)]
        0 <= j < segs.len() && segs[j].columns.contains_key(c) ==> segs[j].columns[c].data.len()
            <= u64::MAX
}

/// The data of a column that stands in memory is as long as an address can tell.
pub proof fn law_columns_are_short(t: Table)
    ensures
        segments_short(t@.segments),
{
    let segs = t@.segments;
    assert forall|j: int, c: Seq<char>|
        #![trigger segs[j].columns.contains_key(c)]
        0 <= j < segs.len() && segs[j].columns.contains_key(c) implies segs[j].columns[c].data.len()
        <= u64::MAX by {
        let column = t.segments@[j].columns@[c];
        assert(segs[j].columns[c] == column@);
        assert(column.data.len() <= usize::MAX);
    }
}

/// Whether the columns of segments hold cells, all under the same names.
spec fn segments_hold(
    ws: Seq<WriterView>,
    cells: Seq<Map<Seq<char>, Seq<Seq<char>>>>,
    fields: Set<Seq<char>>,
) -> bool {
    &&& cells.len() == ws.len()
    &&& forall|j: int|
        0 <= j < ws.len() ==> columns_hold(
            (#[trigger] ws[j]).segment.columns,
            cells[j],
            ws[j].segment.record_count as int,
        ) && cells[j].dom() == fields
}

#[verifier::spinoff_prover]
proof fn lemma_packed_columns(
    rows: Seq<Map<Seq<char>, ScalarView>>,
    target: u64,
    base: u64,
    fields: Set<Seq<char>>,
)
    requires
        target > 0,
        base + rows.len() <= u64::MAX,
        forall|i: int| 0 <= i < rows.len() ==> (#[trigger] rows[i]).dom() == fields,
        columns_short(packed(rows, target, base)),
    ensures
        segments_hold(packed(rows, target, base), packed_cells(rows, target, base), fields),
    decreases rows.len(),
{
    if rows.len() > 0 {
        let prior = rows.drop_last();
        let row = rows.last();
        let ws = packed(prior, target, base);
        let all = packed(rows, target, base);
        let cells = packed_cells(prior, target, base);
        let next = packed_cells(rows, target, base);
        law_packed_size(prior, target, base);
        assert(rows[rows.len() - 1].dom() == fields);
        assert(columns_short(ws)) by {
            assert forall|j: int, c: Seq<char>|
                #![trigger ws[j].segment.columns.contains_key(c)]
                0 <= j < ws.len() && ws[j].segment.columns.contains_key(
                    c,
                ) implies ws[j].segment.columns[c].data.len() <= u64::MAX by {
                if j < ws.len() - 1 || ws.last().segment.record_count >= target {
                    assert(all[j] == ws[j]);
                    assert(all[j].segment.columns.contains_key(c));
                } else {
                    assert(all[j] == ws[j].appended(row));
                    assert(all[j].segment.columns.contains_key(c));
                }
            }
        }
        assert forall|i: int| 0 <= i < prior.len() implies (#[trigger] prior[i]).dom() == fields by {
            assert(prior[i] == rows[i]);
        }
        lemma_packed_columns(prior, target, base, fields);
        let k = all.len() - 1;
        let before = if ws.len() == 0 || ws.last().segment.record_count >= target {
            new_writer((base + ws.len()) as u64)
        } else {
            ws.last()
        };
        let had = if ws.len() == 0 || ws.last().segment.record_count >= target {
            Map::<Seq<char>, Seq<Seq<char>>>::empty()
        } else {
            cells.last()
        };
        assert(all[k] == before.appended(row));
        assert(columns_hold(before.segment.columns, had, before.segment.record_count as int));
        assert forall|c: Seq<char>| #[trigger] row.contains_key(c) implies columns_after(
            before.segment.columns,
            row,
        )[c].data.len() <= u64::MAX by {
            assert(all[k].segment.columns.contains_key(c));
        }
        assert(had.dom() == fields || before.segment.record_count == 0 && had.dom() =~= Set::<
            Seq<char>,
        >::empty());
        law_append_keeps_columns(before.segment, had, row);
        assert(cells_after(had, row).dom() =~= fields);
        assert forall|j: int| 0 <= j < all.len() implies columns_hold(
            (#[trigger] all[j]).segment.columns,
            next[j],
            all[j].segment.record_count as int,
        ) && next[j].dom() == fields by {
            if j < k {
                assert(all[j] == ws[j]);
                assert(next[j] == cells[j]);
            } else {
                assert(next[k] == cells_after(had, row));
            }
        }
        assert(segments_hold(all, next, fields));
    }
}

/// Packing keeps the rows: each can be read back, cell by cell, at the place that
/// it was given. The rows have the same fields, and the data of a column is
/// shorter than a number of 64 bits can tell.
pub proof fn law_packed_reads_back(
    rows: Seq<Map<Seq<char>, ScalarView>>,
    target: u64,
    base: u64,
    fields: Set<Seq<char>>,
    i: int,
    field: Seq<char>,
)
    requires
        0 < target,
        target <= u32::MAX || rows.len() <= u32::MAX,
        base + rows.len() <= u64::MAX,
        forall|k: int| 0 <= k < rows.len() ==> (#[trigger] rows[k]).dom() == fields,
        columns_short(packed(rows, target, base)),
        0 <= i < rows.len(),
        fields.contains(field),
    ensures
        ({
            let place = last_place(rows.take(i + 1), target, base);
            let ws = packed(rows, target, base);
            &&& base <= place.0 < base + ws.len()
            &&& ws[place.0 - base].segment.id == place.0
            &&& place.1 < ws[place.0 - base].segment.record_count
            &&& ws[place.0 - base].segment.cell(field, place.1) == rows[i][field].text
        }),
    decreases rows.len(),
{
    let prior = rows.drop_last();
    let row = rows.last();
    let ws = packed(prior, target, base);
    let all = packed(rows, target, base);
    let cells = packed_cells(prior, target, base);
    let next = packed_cells(rows, target, base);
    law_packed_size(rows, target, base);
    law_packed_size(prior, target, base);
    lemma_packed_columns(rows, target, base, fields);
    if i == rows.len() - 1 {
        assert(rows.take(i + 1) =~= rows);
        let k = all.len() - 1;
        assert(all[k].segment.id == base + k);
        let texts = next[k][field];
        assert(rows[i].dom() == fields);
        assert(texts.last() == row[field].text);
        law_read_back(all[k].segment.columns[field], texts, all[k].segment.record_count - 1);
    } else {
        assert(columns_short(ws)) by {
            assert forall|j: int, c: Seq<char>|
                #![trigger ws[j].segment.columns.contains_key(c)]
                0 <= j < ws.len() && ws[j].segment.columns.contains_key(
                    c,
                ) implies ws[j].segment.columns[c].data.len() <= u64::MAX by {
                if j < ws.len() - 1 || ws.last().segment.record_count >= target {
                    assert(all[j] == ws[j]);
                    assert(all[j].segment.columns.contains_key(c));
                } else {
                    assert(all[j] == ws[j].appended(row));
                    assert(all[j].segment.columns.contains_key(c));
                }
            }
        }
        assert forall|k: int| 0 <= k < prior.len() implies (#[trigger] prior[k]).dom() == fields by {
            assert(prior[k] == rows[k]);
        }
        lemma_packed_columns(prior, target, base, fields);
        law_packed_reads_back(prior, target, base, fields, i, field);
        assert(prior.take(i + 1) =~= rows.take(i + 1));
        let place = last_place(rows.take(i + 1), target, base);
        let j = place.0 - base;
        assert(ws[j].segment.id == base + j);
        if j < ws.len() - 1 || ws.last().segment.record_count >= target {
            assert(all[j] == ws[j]);
        } else {
            assert(all[j] == ws[j].appended(row));
            assert(rows[rows.len() - 1].dom() == fields);
            assert(next[j][field] =~= cells[j][field].push(row[field].text));
            law_read_back(ws[j].segment.columns[field], cells[j][field], place.1 as int);
            law_read_back(all[j].segment.columns[field], next[j][field], place.1 as int);
        }
    }
}

/// Whether a place is that of a row of some segments that is not deleted.
pub open spec fn is_live(segs: Seq<SegmentView>, p: (u64, u32)) -> bool {
    exists|m: int|
        0 <= m < segs.len() && (#[trigger] segs[m]).id == p.0 && p.1 < segs[m].record_count
            && !segs[m].deleted.contains(p.1)
}

/// Whether the keys and the rows of some segments belong together one by one.
pub open spec fn keys_in_step(
    segs: Seq<SegmentView>,
    places: Map<Seq<char>, (u64, u32)>,
) -> bool {
    &&& forall|k: Seq<char>| #[trigger] places.contains_key(k) ==> is_live(segs, places[k])
    &&& forall|k: Seq<char>, l: Seq<char>| #[trigger]
        places.contains_key(k) && #[trigger] places.contains_key(l) && places[k] == places[l]
            ==> k == l
    &&& forall|p: (u64, u32)| #[trigger]
        is_live(segs, p) ==> exists|k: Seq<char>| #[trigger]
            places.contains_key(k) && places[k] == p
}

/// Whether segments have different numbers, and their rows can be numbered.
pub open spec fn well_numbered(segs: Seq<SegmentView>) -> bool {
    &&& forall|i: int, j: int|
        #![trigger segs[i], segs[j]]
        0 <= i < j < segs.len() ==> segs[i].id != segs[j].id
    &&& forall|i: int| 0 <= i < segs.len() ==> (#[trigger] segs[i]).record_count <= u32::MAX
}

/// Whether a field is one of some fields, or no segment has a column of it.
pub open spec fn field_known(
    segs: Seq<SegmentView>,
    fields: Seq<Seq<char>>,
    field: Seq<char>,
) -> bool {
    fields.contains(field) || forall|m: int|
        0 <= m < segs.len() ==> !(#[trigger] segs[m]).columns.contains_key(field)
}

proof fn lemma_segment_live_at(t: TableView, s: SegmentView, n: int, fields: Seq<Seq<char>>, i: int)
    requires
        0 <= n <= s.record_count <= u32::MAX,
        0 <= i < segment_live(t, s, n, fields).len(),
    ensures
        ({
            let r = segment_live(t, s, n, fields)[i];
            &&& r.place.0 == s.id
            &&& r.place.1 < n
            &&& !s.deleted.contains(r.place.1)
            &&& r.row == row_at(t, s, r.place.1, fields)
        }),
    decreases n,
{
    if n > 0 {
        let front = segment_live(t, s, n - 1, fields);
        if i < front.len() {
            lemma_segment_live_at(t, s, n - 1, fields, i);
        }
    }
}

pub(crate) proof fn lemma_live_at(t: TableView, segs: Seq<SegmentView>, fields: Seq<Seq<char>>, i: int) -> (m:
    int)
    requires
        well_numbered(segs),
        0 <= i < all_live(t, segs, fields).len(),
    ensures
        0 <= m < segs.len(),
        ({
            let r = all_live(t, segs, fields)[i];
            &&& r.place.0 == segs[m].id
            &&& r.place.1 < segs[m].record_count
            &&& !segs[m].deleted.contains(r.place.1)
            &&& r.row == row_at(t, segs[m], r.place.1, fields)
        }),
    decreases segs.len(),
{
    let front = all_live(t, segs.drop_last(), fields);
    assert(segs[segs.len() - 1].record_count <= u32::MAX);
    if i < front.len() {
        lemma_numbered_front(segs);
        let m = lemma_live_at(t, segs.drop_last(), fields, i);
        assert(segs[m] == segs.drop_last()[m]);
        m
    } else {
        let s = segs.last();
        lemma_segment_live_at(t, s, s.record_count as int, fields, i - front.len());
        segs.len() - 1
    }
}

pub(crate) proof fn lemma_numbered_front(segs: Seq<SegmentView>)
    requires
        well_numbered(segs),
        segs.len() > 0,
    ensures
        well_numbered(segs.drop_last()),
{
    let front = segs.drop_last();
    assert forall|i: int, j: int|
        #![trigger front[i], front[j]]
        0 <= i < j < front.len() implies front[i].id != front[j].id by {
        assert(segs[i].id != segs[j].id);
    }
    assert forall|i: int| 0 <= i < front.len() implies (#[trigger] front[i]).record_count
        <= u32::MAX by {
        assert(segs[i].record_count <= u32::MAX);
    }
}

proof fn lemma_segment_live_has(
    t: TableView,
    s: SegmentView,
    n: int,
    fields: Seq<Seq<char>>,
    row: u32,
) -> (i: int)
    requires
        row < n <= s.record_count <= u32::MAX,
        !s.deleted.contains(row),
    ensures
        0 <= i < segment_live(t, s, n, fields).len(),
        segment_live(t, s, n, fields)[i].place == (s.id, row),
    decreases n,
{
    let front = segment_live(t, s, n - 1, fields);
    if row < n - 1 {
        let i = lemma_segment_live_has(t, s, n - 1, fields, row);
        assert(segment_live(t, s, n, fields)[i] == front[i]);
        i
    } else {
        front.len() as int
    }
}

proof fn lemma_live_has(
    t: TableView,
    segs: Seq<SegmentView>,
    fields: Seq<Seq<char>>,
    m: int,
    row: u32,
) -> (i: int)
    requires
        well_numbered(segs),
        0 <= m < segs.len(),
        row < segs[m].record_count,
        !segs[m].deleted.contains(row),
    ensures
        0 <= i < all_live(t, segs, fields).len(),
        all_live(t, segs, fields)[i].place == (segs[m].id, row),
    decreases segs.len(),
{
    let front = all_live(t, segs.drop_last(), fields);
    assert(segs[m].record_count <= u32::MAX);
    if m < segs.len() - 1 {
        lemma_numbered_front(segs);
        let i = lemma_live_has(t, segs.drop_last(), fields, m, row);
        assert(all_live(t, segs, fields)[i] == front[i]);
        i
    } else {
        let s = segs.last();
        let i = lemma_segment_live_has(t, s, s.record_count as int, fields, row);
        assert(all_live(t, segs, fields)[front.len() + i].place == (s.id, row));
        front.len() + i
    }
}

pub(crate) proof fn lemma_placed_key(
    rows: Seq<Map<Seq<char>, ScalarView>>,
    keys: Seq<Option<Seq<char>>>,
    target: u64,
    base: u64,
    k: Seq<char>,
) -> (i: int)
    requires
        keys.len() == rows.len(),
    ensures
        placed(rows, keys, target, base).contains_key(k) <==> keys.contains(Some(k)),
        keys.contains(Some(k)) ==> {
            &&& 0 <= i < rows.len()
            &&& keys[i] == Some(k)
            &&& placed(rows, keys, target, base)[k] == last_place(rows.take(i + 1), target, base)
        },
    decreases rows.len(),
{
    if rows.len() == 0 {
        0
    } else {
        let front = keys.drop_last();
        let i = lemma_placed_key(rows.drop_last(), front, target, base, k);
        if front.contains(Some(k)) {
            assert(keys[front.index_of(Some(k))] == Some(k));
        }
        if keys.last() == Some(k) {
            assert(keys[keys.len() - 1] == Some(k));
            assert(rows.take(rows.len() as int) =~= rows);
            rows.len() - 1
        } else {
            if keys.contains(Some(k)) {
                let j = keys.index_of(Some(k));
                assert(front[j] == Some(k));
                assert(keys[i] == front[i]);
                assert(rows.drop_last().take(i + 1) =~= rows.take(i + 1));
            }
            i
        }
    }
}

pub(crate) proof fn lemma_last_found(segs: Seq<SegmentView>, m: int)
    requires
        0 <= m < segs.len(),
        forall|i: int| 0 <= i < segs.len() && i != m ==> (#[trigger] segs[i]).id != segs[m].id,
    ensures
        last_segment(segs, segs[m].id) == Some(m),
    decreases segs.len(),
{
    if m < segs.len() - 1 {
        let front = segs.drop_last();
        assert(segs[segs.len() - 1].id != segs[m].id);
        assert forall|i: int| 0 <= i < front.len() && i != m implies (#[trigger] front[i]).id
            != front[m].id by {
            assert(segs[i].id != segs[m].id);
        }
        lemma_last_found(front, m);
    }
}

/// Packing keeps the rows of the keys: the same keys are there, and each reads the same
/// cells as before. Keys and rows belong together one by one, and no segment is there
/// twice. A field that is asked for is one of the packed ones or has no column anywhere.
pub proof fn law_packing_keeps_rows(
    old: TableView,
    new: TableView,
    fields: Seq<Seq<char>>,
    keys: Seq<Option<Seq<char>>>,
    merged: TableView,
    target: u64,
    created_at: i64,
    found: Option<SegmentView>,
    key: Seq<char>,
    field: Seq<char>,
)
    requires
        is_packed(old, new, fields, keys, merged, target, created_at, found),
        target > 0,
        old.manifest.active_segment_id + 1 + all_live(old, old.segments, fields).len() <= u64::MAX,
        target <= u32::MAX || all_live(old, old.segments, fields).len() <= u32::MAX,
        segments_short(new.segments),
        keys_in_step(old.segments, old.places),
        well_numbered(old.segments),
        forall|m: int|
            0 <= m < old.segments.len() && old.active is Some ==> (#[trigger] old.segments[m]).id
                != old.active->0.segment.id,
        field_known(old.segments, fields, field),
    ensures
        new.places.contains_key(key) <==> old.places.contains_key(key),
        old.places.contains_key(key) ==> new.cell(new.places[key], field) == old.cell(
            old.places[key],
            field,
        ),
{
    let segs = old.segments;
    let base = (old.manifest.active_segment_id + 1) as u64;
    let live = all_live(old, segs, fields);
    let rows = live_rows(live);
    let ws = packed(rows, target, base);
    law_packed_size(rows, target, base);
    assert forall|x: int, c: Seq<char>|
        #![trigger ws[x].segment.columns.contains_key(c)]
        0 <= x < ws.len() && ws[x].segment.columns.contains_key(c) implies ws[x].segment.columns[c].data.len()
        <= u64::MAX by {
        assert(new.segments[x] == finished(ws[x]));
        assert(new.segments[x].columns.contains_key(c));
    }
    let j = lemma_placed_key(rows, keys, target, base, key);
    if keys.contains(Some(key)) {
        lemma_key_row(old, fields, keys, j);
    }
    if old.places.contains_key(key) {
        let p = old.places[key];
        assert(is_live(segs, p));
        let m = choose|m: int|
            0 <= m < segs.len() && (#[trigger] segs[m]).id == p.0 && p.1 < segs[m].record_count
                && !segs[m].deleted.contains(p.1);
        let i = lemma_live_has(old, segs, fields, m, p.1);
        assert(live[i].place == p);
        lemma_key_row(old, fields, keys, i);
        assert(keys[i] == Some(key));
        assert(keys.contains(Some(key)));
        assert(live[j].place == p);
        let n = lemma_live_at(old, segs, fields, j);
        assert(n == m) by {
            if n < m {
                assert(segs[n].id != segs[m].id);
            }
            if m < n {
                assert(segs[m].id != segs[n].id);
            }
        }
        assert forall|x: int| 0 <= x < segs.len() && x != m implies (#[trigger] segs[x]).id
            != segs[m].id by {
            if x < m {
                assert(segs[x].id != segs[m].id);
            } else {
                assert(segs[m].id != segs[x].id);
            }
        }
        lemma_last_found(segs, m);
        assert(old.cell(p, field) == segs[m].cell(field, p.1));
        assert(rows[j] == row_at(old, segs[m], p.1, fields));
        lemma_live_fields(old, segs, fields);
        assert forall|k: int| 0 <= k < rows.len() implies (#[trigger] rows[k]).dom()
            == fields.to_set() by {
            assert(rows[k] == live[k].row);
        }
        lemma_packed_cell(rows, target, base, fields.to_set(), j, field);
        let place = last_place(rows.take(j + 1), target, base);
        let packs = all_finished(ws);
        let x = place.0 - base;
        assert forall|y: int| 0 <= y < packs.len() && y != x implies (#[trigger] packs[y]).id
            != packs[x].id by {
            assert(ws[y].segment.id == base + y);
            assert(ws[x].segment.id == base + x);
        }
        lemma_last_found(packs, x);
        assert(new.holder(place.0) == Some(packs[x]));
        assert(packs[x].cell(field, place.1) == ws[x].segment.cell(field, place.1));
        if fields.contains(field) {
            assert(fields.to_set().contains(field));
            let text = segs[m].cell(field, p.1);
            assert(rows[j][field] == old.reading(text));
            assert(old.reading(text).text == text);
        }
    }
}

/// The key that packing gives a row is the one that points at it.
pub(crate) proof fn lemma_key_row(t: TableView, fields: Seq<Seq<char>>, keys: Seq<Option<Seq<char>>>, i: int)
    requires
        are_keys_of(t, all_live(t, t.segments, fields), keys),
        keys_in_step(t.segments, t.places),
        well_numbered(t.segments),
        0 <= i < keys.len(),
    ensures
        keys[i] is Some,
        t.places.contains_key(keys[i]->0),
        t.places[keys[i]->0] == all_live(t, t.segments, fields)[i].place,
        forall|k: Seq<char>| #[trigger]
            t.places.contains_key(k) && t.places[k] == all_live(t, t.segments, fields)[i].place
                ==> keys[i] == Some(k),
{
    let r = all_live(t, t.segments, fields)[i];
    let m = lemma_live_at(t, t.segments, fields, i);
    assert(t.segments[m].id == r.place.0);
    assert(is_live(t.segments, r.place));
    assert(is_key_of(t, r, keys[i]));
    assert(has_key(t, r.place));
    let k = keys[i]->0;
    assert forall|l: Seq<char>| #[trigger]
        t.places.contains_key(l) && t.places[l] == r.place implies keys[i] == Some(l) by {
        assert(t.places.contains_key(k) && t.places.contains_key(l));
    }
}

proof fn lemma_packed_cell(
    rows: Seq<Map<Seq<char>, ScalarView>>,
    target: u64,
    base: u64,
    fields: Set<Seq<char>>,
    i: int,
    field: Seq<char>,
)
    requires
        0 < target,
        target <= u32::MAX || rows.len() <= u32::MAX,
        base + rows.len() <= u64::MAX,
        forall|k: int| 0 <= k < rows.len() ==> (#[trigger] rows[k]).dom() == fields,
        columns_short(packed(rows, target, base)),
        0 <= i < rows.len(),
    ensures
        ({
            let place = last_place(rows.take(i + 1), target, base);
            let ws = packed(rows, target, base);
            &&& base <= place.0 < base + ws.len()
            &&& ws[place.0 - base].segment.cell(field, place.1) == if fields.contains(field) {
                rows[i][field].text
            } else {
                Seq::empty()
            }
        }),
{
    let place = last_place(rows.take(i + 1), target, base);
    let ws = packed(rows, target, base);
    if fields.contains(field) {
        law_packed_reads_back(rows, target, base, fields, i, field);
    } else {
        lemma_last_place(rows, target, base, i);
        lemma_packed_columns(rows, target, base, fields);
        let x = place.0 - base;
        assert(columns_hold(
            ws[x].segment.columns,
            packed_cells(rows, target, base)[x],
            ws[x].segment.record_count as int,
        ));
        assert(!ws[x].segment.columns.dom().contains(field));
    }
}

proof fn lemma_last_place(rows: Seq<Map<Seq<char>, ScalarView>>, target: u64, base: u64, i: int)
    requires
        0 < target,
        base + rows.len() <= u64::MAX,
        0 <= i < rows.len(),
    ensures
        base <= last_place(rows.take(i + 1), target, base).0 < base + packed(
            rows,
            target,
            base,
        ).len(),
    decreases rows.len(),
{
    law_packed_size(rows, target, base);
    if i == rows.len() - 1 {
        assert(rows.take(i + 1) =~= rows);
        let ws = packed(rows, target, base);
        assert(ws[ws.len() - 1].segment.id == base + ws.len() - 1);
    } else {
        lemma_last_place(rows.drop_last(), target, base, i);
        assert(rows.drop_last().take(i + 1) =~= rows.take(i + 1));
    }
}

/// Whether a field is one that packing keeps, or no segment has a column of it.
pub open spec fn field_kept_by_packing(segs: Seq<SegmentView>, field: Seq<char>) -> bool {
    ||| exists|c: Seq<char>| #[trigger]
        segs[0].columns.contains_key(c) && column_field(c) == Some(field)
    ||| forall|m: int|
        0 <= m < segs.len() ==> !(#[trigger] segs[m]).columns.contains_key(field)
}

proof fn lemma_first_found(segs: Seq<SegmentView>, m: int)
    requires
        0 <= m < segs.len(),
        forall|i: int| 0 <= i < segs.len() && i != m ==> (#[trigger] segs[i]).id != segs[m].id,
    ensures
        first_segment(segs, segs[m].id) == Some(m),
    decreases segs.len(),
{
    let front = segs.drop_last();
    if m < segs.len() - 1 {
        assert forall|i: int| 0 <= i < front.len() && i != m implies (#[trigger] front[i]).id
            != front[m].id by {
            assert(segs[i].id != segs[m].id);
        }
        lemma_first_found(front, m);
    } else {
        assert forall|i: int| 0 <= i < front.len() implies (#[trigger] front[i]).id
            != segs[m].id by {
            assert(segs[i].id != segs[m].id);
        }
        lemma_first_missing(front, segs[m].id);
    }
}

proof fn lemma_first_missing(segs: Seq<SegmentView>, id: u64)
    requires
        forall|i: int| 0 <= i < segs.len() ==> (#[trigger] segs[i]).id != id,
    ensures
        first_segment(segs, id) is None,
    decreases segs.len(),
{
    if segs.len() > 0 {
        let front = segs.drop_last();
        assert forall|i: int| 0 <= i < front.len() implies (#[trigger] front[i]).id != id by {
            assert(segs[i].id != id);
        }
        assert(segs[segs.len() - 1].id != id);
        lemma_first_missing(front, id);
    }
}

/// Inserting a row under a new key keeps keys and rows together one by one.
pub proof fn law_insert_keeps_keys_in_step(
    t: TableView,
    id: Seq<char>,
    row: Map<Seq<char>, ScalarView>,
)
    requires
        t.active is Some,
        t.room() > 0,
        !t.places.contains_key(id),
        !t.active->0.segment.deleted.contains(t.active->0.segment.record_count as u32),
        keys_in_step(closed_segments(t), t.places),
        well_numbered(closed_segments(t)),
    ensures
        keys_in_step(closed_segments(t.inserted(id, row)), t.inserted(id, row).places),
        well_numbered(closed_segments(t.inserted(id, row))),
{
    let a = closed_segments(t);
    let n = t.inserted(id, row);
    let b = closed_segments(n);
    let last = a.len() - 1;
    let w = t.active->0.segment;
    let place = (w.id, w.record_count as u32);
    assert forall|m: int| 0 <= m < a.len() implies (#[trigger] a[m]).id == b[m].id && a[m].deleted
        == b[m].deleted && b[m].record_count == a[m].record_count + (if m == last {
        1int
    } else {
        0int
    }) by {}
    assert forall|p: (u64, u32)| #[trigger] is_live(b, p) <==> is_live(a, p) || p == place by {
        if is_live(a, p) {
            let m = choose|m: int|
                0 <= m < a.len() && (#[trigger] a[m]).id == p.0 && p.1 < a[m].record_count
                    && !a[m].deleted.contains(p.1);
            assert(b[m].id == p.0);
        }
        if p == place {
            assert(b[last].id == p.0);
            assert(a[last].id == p.0);
        }
        if is_live(b, p) {
            let m = choose|m: int|
                0 <= m < b.len() && (#[trigger] b[m]).id == p.0 && p.1 < b[m].record_count
                    && !b[m].deleted.contains(p.1);
            assert(a[m].id == p.0);
        }
    }
    assert(!is_live(a, place)) by {
        if is_live(a, place) {
            let m = choose|m: int|
                0 <= m < a.len() && (#[trigger] a[m]).id == place.0 && place.1 < a[m].record_count
                    && !a[m].deleted.contains(place.1);
            assert(a[last].id == place.0);
            if m < last {
                assert(a[m].id != a[last].id);
            }
        }
    }
    assert forall|k: Seq<char>| #[trigger] n.places.contains_key(k) implies is_live(
        b,
        n.places[k],
    ) by {
        if k != id {
            assert(t.places.contains_key(k));
            assert(is_live(a, t.places[k]));
        }
        assert(is_live(b, n.places[k]));
    }
    assert forall|k: Seq<char>, l: Seq<char>| #[trigger]
        n.places.contains_key(k) && #[trigger] n.places.contains_key(l) && n.places[k]
            == n.places[l] implies k == l by {
        if k != id {
            assert(t.places.contains_key(k) && is_live(a, t.places[k]));
        }
        if l != id {
            assert(t.places.contains_key(l) && is_live(a, t.places[l]));
        }
    }
    assert forall|p: (u64, u32)| #[trigger] is_live(b, p) implies exists|k: Seq<char>| #[trigger]
        n.places.contains_key(k) && n.places[k] == p by {
        if p == place {
            assert(n.places.contains_key(id));
        } else {
            assert(is_live(a, p));
            let k = choose|k: Seq<char>| #[trigger] t.places.contains_key(k) && t.places[k] == p;
            assert(n.places.contains_key(k) && n.places[k] == p);
        }
    }
    assert forall|i: int, j: int|
        #![trigger b[i], b[j]]
        0 <= i < j < b.len() implies b[i].id != b[j].id by {
        assert(a[i].id != a[j].id);
    }
    assert forall|i: int| 0 <= i < b.len() implies (#[trigger] b[i]).record_count <= u32::MAX by {
        assert(a[i].record_count <= u32::MAX);
    }
}

/// Deleting the row of a key keeps keys and rows together one by one.
pub proof fn law_delete_keeps_keys_in_step(t: TableView, id: Seq<char>)
    requires
        t.active is Some,
        keys_in_step(closed_segments(t), t.places),
        well_numbered(closed_segments(t)),
    ensures
        keys_in_step(closed_segments(t.deleted(id)), t.deleted(id).places),
        well_numbered(closed_segments(t.deleted(id))),
{
    if t.places.contains_key(id) {
        let a = closed_segments(t);
        let n = t.deleted(id);
        let b = closed_segments(n);
        let p = t.places[id];
        let last = a.len() - 1;
        assert(is_live(a, p));
        let m = choose|m: int|
            0 <= m < a.len() && (#[trigger] a[m]).id == p.0 && p.1 < a[m].record_count
                && !a[m].deleted.contains(p.1);
        assert(a[last].id == t.active->0.segment.id);
        if m < last {
            assert(a[m].id != a[last].id);
            assert forall|i: int| 0 <= i < t.segments.len() && i != m implies (
            #[trigger] t.segments[i]).id != t.segments[m].id by {
                assert(a[i] == t.segments[i]);
                assert(a[m] == t.segments[m]);
                if i < m {
                    assert(a[i].id != a[m].id);
                } else {
                    assert(a[m].id != a[i].id);
                }
            }
            assert(a[m] == t.segments[m]);
            lemma_first_found(t.segments, m);
        }
        assert(n.places == t.places.remove(id));
        assert forall|i: int| 0 <= i < a.len() implies (#[trigger] b[i]).id == a[i].id
            && b[i].record_count == a[i].record_count && b[i].deleted == (if i == m {
            a[i].deleted.insert(p.1)
        } else {
            a[i].deleted
        }) by {
            if i < last {
                assert(a[i] == t.segments[i]);
            }
        }
        assert forall|q: (u64, u32)| #[trigger] is_live(b, q) <==> is_live(a, q) && q != p by {
            if is_live(b, q) {
                let x = choose|x: int|
                    0 <= x < b.len() && (#[trigger] b[x]).id == q.0 && q.1 < b[x].record_count
                        && !b[x].deleted.contains(q.1);
                assert(a[x].id == q.0);
                if q == p {
                    if x < m {
                        assert(a[x].id != a[m].id);
                    } else if m < x {
                        assert(a[m].id != a[x].id);
                    }
                }
            }
            if is_live(a, q) && q != p {
                let x = choose|x: int|
                    0 <= x < a.len() && (#[trigger] a[x]).id == q.0 && q.1 < a[x].record_count
                        && !a[x].deleted.contains(q.1);
                assert(b[x].id == q.0);
            }
        }
        assert forall|k: Seq<char>| #[trigger] n.places.contains_key(k) implies is_live(
            b,
            n.places[k],
        ) by {
            assert(t.places.contains_key(k) && t.places.contains_key(id));
            assert(is_live(a, t.places[k]));
            assert(is_live(b, n.places[k]));
        }
        assert forall|k: Seq<char>, l: Seq<char>| #[trigger]
            n.places.contains_key(k) && #[trigger] n.places.contains_key(l) && n.places[k]
                == n.places[l] implies k == l by {
            assert(t.places.contains_key(k) && t.places.contains_key(l));
        }
        assert forall|q: (u64, u32)| #[trigger] is_live(b, q) implies exists|k: Seq<char>|
         #[trigger] n.places.contains_key(k) && n.places[k] == q by {
            assert(is_live(a, q));
            let k = choose|k: Seq<char>| #[trigger] t.places.contains_key(k) && t.places[k] == q;
            assert(n.places.contains_key(k) && n.places[k] == q);
        }
        assert forall|i: int, j: int|
            #![trigger b[i], b[j]]
            0 <= i < j < b.len() implies b[i].id != b[j].id by {
            assert(a[i].id != a[j].id);
        }
        assert forall|i: int| 0 <= i < b.len() implies (#[trigger] b[i]).record_count <= u32::MAX by {
            assert(a[i].record_count <= u32::MAX);
        }
    }
}

} // verus!
