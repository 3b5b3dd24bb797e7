//! What holds of a table at all times: its segments are numbered, and its keys and rows
//! belong together one by one. Every change keeps it, compaction among them.

use crate::compaction::{
    all_finished, all_live, are_keys_of, closed_segments, column_field, field_kept_by_packing,
    field_known, finished, ideal_segments, is_compacted, is_live, is_packed, keys_in_step,
    last_place, law_delete_keeps_keys_in_step, law_insert_keeps_keys_in_step,
    law_packed_size, law_packing_keeps_rows, lemma_key_row, lemma_live_at, lemma_live_len,
    lemma_numbered_front, lemma_placed_key, lists_fields, live_len, live_rows, live_total, packed,
    placed, segment_live, segments_short, well_numbered, worth_compacting,
};
use crate::hits::capped;
use crate::lookup::{cache_in_step, same_but_cache};
use crate::rowset::{lemma_in_order, rows_in_order};
use crate::segment::SegmentView;
use crate::sweep::{deleted_each, is_emptied, lists_keys};
use crate::table::{fresh_writer, lemma_first_in_range, row_key, TableView};
use crate::types::ScalarView;
use crate::upkeep::{is_flushed, law_flush_keeps_rows};
use crate::wal::OpView;
use vstd::prelude::*;

verus! {

/// Whether only rows that are there are marked as deleted.
pub open spec fn marks_in_range(s: SegmentView) -> bool {
    forall|r: u32| #[trigger] s.deleted.contains(r) ==> r < s.record_count
}

/// Whether a table is as its own changes leave it: the active segment has the number that
/// the catalogue gives it, and every other one a smaller number, each its own; only rows
/// that are there are marked as deleted; and keys and rows belong together one by one.
pub open spec fn sound(t: TableView) -> bool {
    let segs = closed_segments(t);
    &&& t.active matches Some(w) ==> w.segment.id == t.manifest.active_segment_id
    &&& forall|m: int|
        0 <= m < t.segments.len() ==> (#[trigger] t.segments[m]).id < t.manifest.active_segment_id
    &&& well_numbered(segs)
    &&& keys_in_step(segs, t.places)
    &&& forall|m: int| 0 <= m < segs.len() ==> marks_in_range(#[trigger] segs[m])
}

/// Whether nothing, or only deleted rows, were found on disk for a segment that is begun.
pub open spec fn idle(found: Option<SegmentView>) -> bool {
    found matches Some(s) ==> {
        &&& s.record_count <= u32::MAX
        &&& marks_in_range(s)
        &&& forall|r: u32| r < s.record_count ==> #[trigger] s.deleted.contains(r)
    }
}

proof fn lemma_segment_distinct(
    t: TableView,
    s: SegmentView,
    n: int,
    fields: Seq<Seq<char>>,
    i: int,
)
    requires
        0 <= n <= s.record_count <= u32::MAX,
        0 <= i < segment_live(t, s, n, fields).len(),
    ensures
        segment_live(t, s, n, fields)[i].place.0 == s.id,
        segment_live(t, s, n, fields)[i].place.1 < n,
        forall|j: int|
            0 <= j < i ==> (#[trigger] segment_live(t, s, n, fields)[j]).place.1 < segment_live(
                t,
                s,
                n,
                fields,
            )[i].place.1,
    decreases n,
{
    let all = segment_live(t, s, n, fields);
    let front = segment_live(t, s, n - 1, fields);
    if i < front.len() {
        lemma_segment_distinct(t, s, n - 1, fields, i);
        assert forall|j: int| 0 <= j < i implies (#[trigger] all[j]).place.1 < all[i].place.1 by {
            assert(all[j] == front[j]);
        }
    } else {
        assert forall|j: int| 0 <= j < i implies (#[trigger] all[j]).place.1 < all[i].place.1 by {
            lemma_segment_distinct(t, s, n - 1, fields, j);
        }
    }
}

proof fn lemma_live_distinct(
    t: TableView,
    segs: Seq<SegmentView>,
    fields: Seq<Seq<char>>,
    i: int,
    j: int,
)
    requires
        well_numbered(segs),
        0 <= i < j < all_live(t, segs, fields).len(),
    ensures
        all_live(t, segs, fields)[i].place != all_live(t, segs, fields)[j].place,
    decreases segs.len(),
{
    let front = all_live(t, segs.drop_last(), fields);
    let s = segs.last();
    assert(segs[segs.len() - 1].record_count <= u32::MAX);
    lemma_numbered_front(segs);
    if j < front.len() {
        lemma_live_distinct(t, segs.drop_last(), fields, i, j);
    } else {
        lemma_segment_distinct(t, s, s.record_count as int, fields, j - front.len());
        if i < front.len() {
            let m = lemma_live_at(t, segs.drop_last(), fields, i);
            assert(segs[m].id != segs[segs.len() - 1].id);
        } else {
            let rest = segment_live(t, s, s.record_count as int, fields);
            assert(rest[i - front.len()].place.1 < rest[j - front.len()].place.1);
        }
    }
}

proof fn lemma_segment_count(t: TableView, s: SegmentView, n: int, fields: Seq<Seq<char>>)
    requires
        0 <= n <= s.record_count <= u32::MAX,
    ensures
        segment_live(t, s, n, fields).len() + s.deleted.filter(|r: u32| r < n).len() == n,
    decreases n,
{
    lemma_in_order(s.deleted);
    vstd::seq_lib::seq_to_set_is_finite(rows_in_order(s.deleted));
    let marked = s.deleted.filter(|r: u32| r < n);
    if n == 0 {
        assert(marked =~= Set::empty());
    } else {
        let front = s.deleted.filter(|r: u32| r < n - 1);
        let id = (n - 1) as u32;
        lemma_segment_count(t, s, n - 1, fields);
        if s.deleted.contains(id) {
            assert(marked =~= front.insert(id));
        } else {
            assert(marked =~= front);
        }
    }
}

proof fn lemma_live_count(t: TableView, segs: Seq<SegmentView>, fields: Seq<Seq<char>>)
    requires
        well_numbered(segs),
        forall|m: int| 0 <= m < segs.len() ==> marks_in_range(#[trigger] segs[m]),
    ensures
        all_live(t, segs, fields).len() == live_total(segs),
    decreases segs.len(),
{
    if segs.len() > 0 {
        let front = segs.drop_last();
        let s = segs.last();
        assert(segs[segs.len() - 1] == s);
        assert(marks_in_range(segs[segs.len() - 1]));
        assert(segs[segs.len() - 1].record_count <= u32::MAX);
        lemma_numbered_front(segs);
        assert forall|m: int| 0 <= m < front.len() implies marks_in_range(#[trigger] front[m]) by {
            assert(segs[m] == front[m]);
        }
        lemma_live_count(t, front, fields);
        lemma_segment_count(t, s, s.record_count as int, fields);
        assert(s.deleted.filter(|r: u32| r < s.record_count) =~= s.deleted);
    }
}

/// Segments are filled one after the other: all but the last one up to the target.
pub proof fn law_packed_shape(rows: Seq<Map<Seq<char>, ScalarView>>, target: u64, base: u64)
    requires
        target > 0,
        rows.len() > 0,
        base + rows.len() <= u64::MAX,
    ensures
        ({
            let ws = packed(rows, target, base);
            &&& ws.len() > 0
            &&& forall|j: int|
                0 <= j < ws.len() - 1 ==> (#[trigger] ws[j]).segment.record_count == target
            &&& 0 < ws.last().segment.record_count <= target
            &&& (ws.len() - 1) * target + ws.last().segment.record_count == rows.len()
        }),
    decreases rows.len(),
{
    let front = rows.drop_last();
    let before = packed(front, target, base);
    let ws = packed(rows, target, base);
    law_packed_size(rows, target, base);
    law_packed_size(front, target, base);
    if front.len() > 0 {
        law_packed_shape(front, target, base);
        assert forall|j: int| 0 <= j < ws.len() - 1 implies (
        #[trigger] ws[j]).segment.record_count == target by {
            assert(ws[j] == before[j]);
        }
        let x = before.len() as int;
        assert(x * target == (x - 1) * target + target) by (nonlinear_arith);
        let last = before[x - 1].segment.record_count;
        assert(last <= target && last <= front.len());
        if last >= target {
            assert(ws.len() == x + 1);
            assert(ws.last().segment.record_count == 1);
            assert((ws.len() - 1) * target == x * target);
        } else {
            assert(ws.len() == x);
            assert(ws.last().segment.record_count == last + 1);
            assert((ws.len() - 1) * target == (x - 1) * target);
        }
    } else {
        assert(before.len() == 0);
        assert(ws.len() == 1);
        assert(ws[0].segment.record_count == 1);
        assert((ws.len() - 1) * target == 0) by (nonlinear_arith)
            requires
                ws.len() == 1,
        ;
    }
}

proof fn lemma_position(
    rows: Seq<Map<Seq<char>, ScalarView>>,
    target: u64,
    base: u64,
    i: int,
)
    requires
        target > 0,
        base + rows.len() <= u64::MAX,
        target <= u32::MAX || rows.len() <= u32::MAX,
        0 <= i < rows.len(),
    ensures
        ({
            let place = last_place(rows.take(i + 1), target, base);
            let ws = packed(rows, target, base);
            &&& base <= place.0 < base + ws.len()
            &&& place.1 < target
            &&& (place.0 - base) * target + place.1 == i
            &&& place.1 < ws[place.0 - base].segment.record_count
        }),
{
    let part = rows.take(i + 1);
    let ps = packed(part, target, base);
    let ws = packed(rows, target, base);
    law_packed_shape(part, target, base);
    law_packed_size(part, target, base);
    law_packed_shape(rows, target, base);
    let x = ps.len() - 1;
    let c = ps[x].segment.record_count;
    assert(ps[x].segment.id == base + x);
    assert(c <= u32::MAX);
    assert(last_place(part, target, base) == ((base + x) as u64, (c - 1) as u32));
    let y = ws.len() - 1;
    let d = ws[y].segment.record_count;
    assert(x <= y) by (nonlinear_arith)
        requires
            x * target + c == i + 1,
            y * target + d == rows.len(),
            i + 1 <= rows.len(),
            0 < c,
            d <= target,
    ;
    if x < y {
        assert(ws[x].segment.record_count == target);
    }
}

proof fn lemma_at_position(
    rows: Seq<Map<Seq<char>, ScalarView>>,
    target: u64,
    base: u64,
    x: int,
    r: u32,
) -> (i: int)
    requires
        target > 0,
        base + rows.len() <= u64::MAX,
        target <= u32::MAX || rows.len() <= u32::MAX,
        0 <= x < packed(rows, target, base).len(),
        r < packed(rows, target, base)[x].segment.record_count,
    ensures
        0 <= i < rows.len(),
        last_place(rows.take(i + 1), target, base) == ((base + x) as u64, r),
{
    let ws = packed(rows, target, base);
    law_packed_shape(rows, target, base);
    law_packed_size(rows, target, base);
    let y = ws.len() - 1;
    let d = ws[y].segment.record_count;
    let i = x * target + r;
    assert(ws[x].segment.record_count <= target);
    if x < y {
        assert(i < y * target) by (nonlinear_arith)
            requires
                x < y,
                r < target,
                i == x * target + r,
        ;
    }
    assert(i >= 0) by (nonlinear_arith)
        requires
            i == x * target + r,
            x >= 0,
    ;
    lemma_position(rows, target, base, i);
    let place = last_place(rows.take(i + 1), target, base);
    let z = place.0 - base;
    let q = place.1;
    assert(z == x) by (nonlinear_arith)
        requires
            z * target + q == x * target + r,
            0 <= q < target,
            0 <= r < target,
    ;
    i
}

proof fn lemma_few_segments(rows: Seq<Map<Seq<char>, ScalarView>>, target: u64, base: u64)
    requires
        target > 0,
        base + rows.len() <= u64::MAX,
    ensures
        packed(rows, target, base).len() <= ideal_segments(rows.len() as int, target as int),
{
    if rows.len() > 0 {
        law_packed_shape(rows, target, base);
        let ws = packed(rows, target, base);
        let x = ws.len() as int;
        let c = ws.last().segment.record_count as int;
        let n = rows.len() as int;
        let t = target as int;
        if n <= t {
            assert(x <= 1) by (nonlinear_arith)
                requires
                    (x - 1) * t + c == n,
                    n <= t,
                    c > 0,
                    t > 0,
            ;
        } else {
            assert(x <= (n + t - 1) / t) by (nonlinear_arith)
                requires
                    (x - 1) * t + c == n,
                    c > 0,
                    t > 0,
            ;
        }
    }
}

proof fn lemma_packed_in_step(
    t: TableView,
    fields: Seq<Seq<char>>,
    keys: Seq<Option<Seq<char>>>,
    target: u64,
    base: u64,
)
    requires
        are_keys_of(t, all_live(t, t.segments, fields), keys),
        keys_in_step(t.segments, t.places),
        well_numbered(t.segments),
        target > 0,
        base + all_live(t, t.segments, fields).len() <= u64::MAX,
        target <= u32::MAX || all_live(t, t.segments, fields).len() <= u32::MAX,
    ensures
        ({
            let rows = live_rows(all_live(t, t.segments, fields));
            keys_in_step(
                all_finished(packed(rows, target, base)),
                placed(rows, keys, target, base),
            )
        }),
{
    let live = all_live(t, t.segments, fields);
    let rows = live_rows(live);
    let ws = packed(rows, target, base);
    let segs = all_finished(ws);
    let places = placed(rows, keys, target, base);
    law_packed_size(rows, target, base);
    assert forall|k: Seq<char>| #[trigger] places.contains_key(k) implies is_live(
        segs,
        places[k],
    ) by {
        let i = lemma_placed_key(rows, keys, target, base, k);
        lemma_position(rows, target, base, i);
        let x = places[k].0 - base;
        assert(ws[x].segment.id == base + x);
        assert(segs[x].id == places[k].0);
        assert(segs[x].deleted == Set::<u32>::empty());
    }
    assert forall|k: Seq<char>, l: Seq<char>| #[trigger]
        places.contains_key(k) && #[trigger] places.contains_key(l) && places[k]
            == places[l] implies k == l by {
        let i = lemma_placed_key(rows, keys, target, base, k);
        let j = lemma_placed_key(rows, keys, target, base, l);
        lemma_position(rows, target, base, i);
        lemma_position(rows, target, base, j);
        assert(keys[i] == keys[j]);
    }
    assert forall|p: (u64, u32)| #[trigger] is_live(segs, p) implies exists|k: Seq<char>|
        #[trigger] places.contains_key(k) && places[k] == p by {
        let x = choose|x: int|
            0 <= x < segs.len() && (#[trigger] segs[x]).id == p.0 && p.1 < segs[x].record_count
                && !segs[x].deleted.contains(p.1);
        assert(ws[x].segment.id == base + x);
        let i = lemma_at_position(rows, target, base, x, p.1);
        lemma_key_row(t, fields, keys, i);
        let k = keys[i]->0;
        assert(keys[i] == Some(k));
        let j = lemma_placed_key(rows, keys, target, base, k);
        lemma_key_row(t, fields, keys, j);
        if i < j {
            lemma_live_distinct(t, t.segments, fields, i, j);
        } else if j < i {
            lemma_live_distinct(t, t.segments, fields, j, i);
        }
        assert(places.contains_key(k) && places[k] == p);
    }
}

/// A table whose segment was just begun is as its changes leave it where its other
/// segments are.
proof fn lemma_begun_is_sound(t: TableView, found: Option<SegmentView>)
    requires
        t.active == Some(fresh_writer(found, t.manifest.active_segment_id)),
        idle(found),
        forall|m: int|
            0 <= m < t.segments.len() ==> (#[trigger] t.segments[m]).id
                < t.manifest.active_segment_id,
        well_numbered(t.segments),
        keys_in_step(t.segments, t.places),
        forall|m: int| 0 <= m < t.segments.len() ==> marks_in_range(#[trigger] t.segments[m]),
    ensures
        sound(t),
{
    let a = t.segments;
    let b = closed_segments(t);
    let last = a.len() as int;
    assert forall|m: int| 0 <= m < last implies #[trigger] b[m] == a[m] by {}
    assert forall|p: (u64, u32)| #[trigger] is_live(b, p) <==> is_live(a, p) by {
        if is_live(a, p) {
            let m = choose|m: int|
                0 <= m < a.len() && (#[trigger] a[m]).id == p.0 && p.1 < a[m].record_count
                    && !a[m].deleted.contains(p.1);
            assert(b[m].id == p.0);
        }
        if is_live(b, p) {
            let m = choose|m: int|
                0 <= m < b.len() && (#[trigger] b[m]).id == p.0 && p.1 < b[m].record_count
                    && !b[m].deleted.contains(p.1);
            assert(m < last);
            assert(a[m].id == p.0);
        }
    }
    assert forall|k: Seq<char>| #[trigger] t.places.contains_key(k) implies is_live(
        b,
        t.places[k],
    ) by {
        assert(is_live(a, t.places[k]));
    }
    assert forall|p: (u64, u32)| #[trigger] is_live(b, p) implies exists|k: Seq<char>| #[trigger]
        t.places.contains_key(k) && t.places[k] == p by {
        assert(is_live(a, p));
    }
    assert forall|m: int| 0 <= m < b.len() implies (#[trigger] b[m]).record_count <= u32::MAX
        && marks_in_range(b[m]) by {
        if m < last {
            assert(a[m].record_count <= u32::MAX);
            assert(marks_in_range(a[m]));
        }
    }
    assert forall|i: int, j: int|
        #![trigger b[i], b[j]]
        0 <= i < j < b.len() implies b[i].id != b[j].id by {
        assert(a[i].id < t.manifest.active_segment_id);
        if j < last {
            assert(a[i].id != a[j].id);
        }
    }
}

/// An empty table is sound, whether its first segment is begun or not.
pub proof fn law_empty_table_is_sound(t: TableView, found: Option<SegmentView>)
    requires
        t.segments.len() == 0,
        t.places == Map::<Seq<char>, (u64, u32)>::empty(),
        t.active is None || t.active == Some(fresh_writer(found, t.manifest.active_segment_id)),
        idle(found),
    ensures
        sound(t),
{
    if t.active is Some {
        lemma_begun_is_sound(t, found);
    }
}

/// A table stays sound when a row is inserted under a new key.
pub proof fn law_insert_keeps_sound(
    t: TableView,
    id: Seq<char>,
    row: Map<Seq<char>, ScalarView>,
)
    requires
        sound(t),
        t.active is Some,
        t.room() > 0,
        !t.places.contains_key(id),
    ensures
        sound(t.inserted(id, row)),
{
    let a = closed_segments(t);
    let n = t.inserted(id, row);
    let b = closed_segments(n);
    let last = a.len() - 1;
    let w = t.active->0.segment;
    assert(marks_in_range(a[last]));
    assert(a[last].deleted == w.deleted && a[last].record_count == w.record_count);
    assert(!a[last].deleted.contains(w.record_count as u32));
    law_insert_keeps_keys_in_step(t, id, row);
    assert forall|m: int| 0 <= m < b.len() implies marks_in_range(#[trigger] b[m]) by {
        assert(marks_in_range(a[m]));
        if m < last {
            assert(a[m] == b[m]);
        } else {
            assert(b[m].deleted == a[m].deleted);
            assert(b[m].record_count == a[m].record_count + 1);
        }
    }
}

/// A table stays sound when the row of a key is deleted, or when no row has the key.
pub proof fn law_delete_keeps_sound(t: TableView, id: Seq<char>)
    requires
        sound(t),
        t.active is Some,
    ensures
        sound(t.deleted(id)),
{
    let a = closed_segments(t);
    let n = t.deleted(id);
    let b = closed_segments(n);
    let last = a.len() - 1;
    law_delete_keeps_keys_in_step(t, id);
    if t.places.contains_key(id) {
        let p = t.places[id];
        lemma_first_in_range(t.segments, p.0);
        assert(n.segments.len() == t.segments.len());
        assert(n.active is Some);
        assert(b.len() == a.len());
        assert(is_live(a, p));
        let x = choose|x: int|
            0 <= x < a.len() && (#[trigger] a[x]).id == p.0 && p.1 < a[x].record_count
                && !a[x].deleted.contains(p.1);
        assert forall|m: int| 0 <= m < b.len() implies (#[trigger] b[m]).id == a[m].id
            && marks_in_range(b[m]) by {
            assert(marks_in_range(a[m]));
            if a[m].id == p.0 {
                assert(m == x) by {
                    if m < x {
                        assert(a[m].id != a[x].id);
                    } else if x < m {
                        assert(a[x].id != a[m].id);
                    }
                }
            }
            if m < last {
                assert(a[m] == t.segments[m]);
                assert(b[m] == n.segments[m]);
            }
        }
        assert forall|m: int| 0 <= m < n.segments.len() implies (#[trigger] n.segments[m]).id
            < n.manifest.active_segment_id by {
            assert(b[m] == n.segments[m]);
            assert(a[m] == t.segments[m]);
            assert(t.segments[m].id < t.manifest.active_segment_id);
        }
    }
}

/// A table stays sound when a logged change is made again that brings no key in that
/// another row has.
pub proof fn law_change_keeps_sound(
    t: TableView,
    op: OpView,
    row: Map<Seq<char>, ScalarView>,
    cells: Seq<ScalarView>,
)
    requires
        sound(t),
        t.active is Some,
        t.room() > 0,
        match op {
            OpView::Insert(id, _) => !t.places.contains_key(row_key(t.manifest, row, id)),
            OpView::Delete(_) => true,
            OpView::Update(id, _) => !t.deleted(id).places.contains_key(
                row_key(t.manifest, row, id),
            ),
        },
    ensures
        sound(t.replayed(op, row, cells)),
{
    match op {
        OpView::Insert(id, _) => {
            law_insert_keeps_sound(t, row_key(t.manifest, row, id), row);
        },
        OpView::Delete(id) => {
            law_delete_keeps_sound(t, id);
        },
        OpView::Update(id, _) => {
            law_delete_keeps_sound(t, id);
            law_insert_keeps_sound(t.deleted(id), row_key(t.manifest, row, id), row);
        },
    }
    assert(closed_segments(t.replayed(op, row, cells)) =~= closed_segments(
        match op {
            OpView::Insert(id, _) => t.inserted(row_key(t.manifest, row, id), row),
            OpView::Delete(id) => t.deleted(id),
            OpView::Update(id, _) => t.deleted(id).inserted(row_key(t.manifest, row, id), row),
        },
    ));
}

/// A table stays sound when its active segment is closed and another one is begun.
pub proof fn law_flush_keeps_sound(
    old: TableView,
    new: TableView,
    created_at: i64,
    interval: u32,
    begun: Option<SegmentView>,
)
    requires
        sound(old),
        is_flushed(old, new, created_at, interval, begun),
        old.manifest.active_segment_id < u64::MAX,
        idle(begun),
    ensures
        sound(new),
{
    let segs = closed_segments(old);
    assert(new.segments =~= segs);
    assert forall|m: int| 0 <= m < new.segments.len() implies (#[trigger] new.segments[m]).id
        < new.manifest.active_segment_id && marks_in_range(new.segments[m]) by {
        assert(marks_in_range(segs[m]));
        if m < old.segments.len() {
            assert(segs[m] == old.segments[m]);
        }
    }
    lemma_begun_is_sound(new, begun);
}

proof fn lemma_deleted_each_sound(t: TableView, ids: Seq<Seq<char>>)
    requires
        sound(t),
        t.active is Some,
    ensures
        sound(deleted_each(t, ids)),
        deleted_each(t, ids).active is Some,
    decreases ids.len(),
{
    if ids.len() > 0 {
        lemma_deleted_each_sound(t, ids.drop_last());
        law_delete_keeps_sound(deleted_each(t, ids.drop_last()), ids.last());
    }
}

/// A table stays sound when all its rows are deleted.
pub proof fn law_emptying_keeps_sound(t: TableView, emptied: TableView)
    requires
        sound(t),
        t.active is Some,
        is_emptied(t, emptied),
    ensures
        sound(emptied),
{
    let ids = choose|ids: Seq<Seq<char>>|
        #[trigger] lists_keys(t, ids) && emptied == deleted_each(t, ids);
    lemma_deleted_each_sound(t, ids);
}

/// A table stays sound when it is searched.
pub proof fn law_search_keeps_sound(old: TableView, new: TableView)
    requires
        sound(old),
        same_but_cache(new, old),
    ensures
        sound(new),
{
    assert(closed_segments(new) == closed_segments(old));
}

/// Whether two tables have the same keys, and each key the same row.
pub open spec fn same_rows(a: TableView, b: TableView) -> bool {
    forall|key: Seq<char>|
        #![trigger a.row_of(key)]
        #![trigger b.row_of(key)]
        #![trigger a.places.contains_key(key)]
        #![trigger b.places.contains_key(key)]
        (a.places.contains_key(key) <==> b.places.contains_key(key)) && a.row_of(key) == b.row_of(
            key,
        )
}

/// Whether packing would keep every one of some fields: there is nothing to pack, or each
/// of them is a field of the first segment or of none at all.
pub open spec fn fields_kept(segs: Seq<SegmentView>, names: Seq<Seq<char>>) -> bool {
    ||| segs.len() < 4
    ||| lists_fields(Seq::empty(), segs[0])
    ||| forall|f: Seq<char>| #[trigger] names.contains(f) ==> field_kept_by_packing(segs, f)
}

/// Packing keeps every field where all segments that have columns have the same ones, and
/// the name of no field is taken for that of an index or ends like that of a file.
pub proof fn law_same_columns_are_kept(segs: Seq<SegmentView>, names: Seq<Seq<char>>)
    requires
        forall|i: int, j: int|
            #![trigger segs[i], segs[j]]
            0 <= i < segs.len() && 0 <= j < segs.len() && segs[i].columns.dom() != Set::<
                Seq<char>,
            >::empty() && segs[j].columns.dom() != Set::<Seq<char>>::empty()
                ==> segs[i].columns.dom() == segs[j].columns.dom(),
        forall|f: Seq<char>| #[trigger] names.contains(f) ==> column_field(f) == Some(f),
    ensures
        fields_kept(segs, names),
{
    if segs.len() >= 4 {
        let first = segs[0].columns.dom();
        if first == Set::<Seq<char>>::empty() {
            assert forall|f: Seq<char>| #[trigger]
                Seq::<Seq<char>>::empty().contains(f) <==> exists|c: Seq<char>| #[trigger]
                segs[0].columns.contains_key(c) && column_field(c) == Some(f) by {
                assert(forall|c: Seq<char>| #[trigger]
                    segs[0].columns.contains_key(c) ==> first.contains(c));
            }
        } else {
            assert forall|f: Seq<char>| #[trigger] names.contains(f) implies field_kept_by_packing(
                segs,
                f,
            ) by {
                if first.contains(f) {
                    assert(segs[0].columns.contains_key(f) && column_field(f) == Some(f));
                } else {
                    assert forall|m: int| 0 <= m < segs.len() implies !(
                    #[trigger] segs[m]).columns.contains_key(f) by {
                        assert(segs[0].columns.dom() == first);
                        if segs[m].columns.dom() != Set::<Seq<char>>::empty() {
                            assert(segs[m].columns.dom() == first);
                        }
                        assert(segs[m].columns.contains_key(f) == segs[m].columns.dom().contains(f));
                    }
                }
            }
        }
    }
}

proof fn lemma_flush_same_rows(
    old: TableView,
    new: TableView,
    created_at: i64,
    interval: u32,
    begun: Option<SegmentView>,
)
    requires
        sound(old),
        is_flushed(old, new, created_at, interval, begun),
        old.manifest.active_segment_id < u64::MAX,
    ensures
        same_rows(old, new),
        new.places == old.places,
        new.manifest.original_fields == old.manifest.original_fields,
        new.manifest.active_segment_id <= old.manifest.active_segment_id + 1,
        new.active is Some && new.active->0.segment.id == new.manifest.active_segment_id,
        new.segments == closed_segments(old),
        forall|m: int|
            0 <= m < new.segments.len() ==> (#[trigger] new.segments[m]).id
                < new.manifest.active_segment_id,
{
    let segs = closed_segments(old);
    assert(new.segments =~= segs);
    assert forall|m: int| 0 <= m < new.segments.len() implies (#[trigger] new.segments[m]).id
        < new.manifest.active_segment_id by {
        if m < old.segments.len() {
            assert(segs[m] == old.segments[m]);
        }
    }
    let names = old.manifest.original_fields;
    assert forall|key: Seq<char>|
        #![trigger old.row_of(key)]
        #![trigger new.row_of(key)]
        #![trigger old.places.contains_key(key)]
        #![trigger new.places.contains_key(key)]
        (old.places.contains_key(key) <==> new.places.contains_key(key)) && old.row_of(key)
            == new.row_of(key) by {
        if old.places.contains_key(key) && names.len() > 0 {
            let p = old.places[key];
            assert(is_live(segs, p));
            let m = choose|m: int|
                0 <= m < segs.len() && (#[trigger] segs[m]).id == p.0 && p.1 < segs[m].record_count
                    && !segs[m].deleted.contains(p.1);
            assert(new.segments[m].id == p.0);
            assert forall|f: Seq<char>| names.contains(f) implies new.cell(p, f) == old.cell(p, f) by {
                law_flush_keeps_rows(old, new, created_at, interval, begun, p, f);
            }
            assert(new.row_of(key)->0 =~= old.row_of(key)->0);
        }
    }
}

proof fn lemma_packed_sound(
    old: TableView,
    new: TableView,
    fields: Seq<Seq<char>>,
    keys: Seq<Option<Seq<char>>>,
    merged: TableView,
    target: u64,
    created_at: i64,
    found: Option<SegmentView>,
)
    requires
        is_packed(old, new, fields, keys, merged, target, created_at, found),
        fields.len() > 0,
        lists_fields(fields, old.segments[0]),
        worth_compacting(
            old.segments.len() as int,
            capped(live_total(old.segments)) as int,
            target as int,
        ),
        target > 0,
        old.manifest.active_segment_id + 1 + all_live(old, old.segments, fields).len() <= u64::MAX,
        target <= u32::MAX || all_live(old, old.segments, fields).len() <= u32::MAX,
        segments_short(new.segments),
        keys_in_step(old.segments, old.places),
        well_numbered(old.segments),
        forall|m: int| 0 <= m < old.segments.len() ==> marks_in_range(#[trigger] old.segments[m]),
        forall|m: int|
            0 <= m < old.segments.len() && old.active is Some ==> (#[trigger] old.segments[m]).id
                != old.active->0.segment.id,
        forall|f: Seq<char>| #[trigger]
            old.manifest.original_fields.contains(f) ==> field_kept_by_packing(old.segments, f),
    ensures
        same_rows(old, new),
        new.segments.len() <= old.segments.len(),
        forall|i: int|
            0 <= i < new.segments.len() ==> (#[trigger] new.segments[i]).deleted == Set::<
                u32,
            >::empty(),
        idle(found) ==> sound(new),
{
    let segs = old.segments;
    let base = (old.manifest.active_segment_id + 1) as u64;
    let rows = live_rows(all_live(old, segs, fields));
    let ws = packed(rows, target, base);
    let packs = new.segments;
    let names = old.manifest.original_fields;
    law_packed_size(rows, target, base);
    lemma_live_count(old, segs, fields);
    lemma_few_segments(rows, target, base);
    lemma_packed_in_step(old, fields, keys, target, base);
    assert forall|i: int| 0 <= i < packs.len() implies (#[trigger] packs[i]).deleted == Set::<
        u32,
    >::empty() && packs[i].id == base + i && packs[i].record_count <= u32::MAX by {
        assert(packs[i] == finished(ws[i]));
        assert(ws[i].segment.id == base + i);
    }
    if idle(found) {
        assert forall|m: int| 0 <= m < packs.len() implies marks_in_range(#[trigger] packs[m]) by {}
        assert(well_numbered(packs));
        lemma_begun_is_sound(new, found);
    }
    assert forall|f: Seq<char>| names.contains(f) implies field_known(segs, fields, f) by {
        assert(field_kept_by_packing(segs, f));
    }
    assert(fields.contains(fields[0]));
    assert forall|key: Seq<char>|
        #![trigger old.row_of(key)]
        #![trigger new.row_of(key)]
        #![trigger old.places.contains_key(key)]
        #![trigger new.places.contains_key(key)]
        (old.places.contains_key(key) <==> new.places.contains_key(key)) && old.row_of(key)
            == new.row_of(key) by {
        law_packing_keeps_rows(
            old,
            new,
            fields,
            keys,
            merged,
            target,
            created_at,
            found,
            key,
            fields[0],
        );
        if old.places.contains_key(key) && names.len() > 0 {
            assert forall|f: Seq<char>| names.contains(f) implies new.cell(new.places[key], f)
                == old.cell(old.places[key], f) by {
                law_packing_keeps_rows(
                    old,
                    new,
                    fields,
                    keys,
                    merged,
                    target,
                    created_at,
                    found,
                    key,
                    f,
                );
            }
            assert(new.row_of(key)->0 =~= old.row_of(key)->0);
        }
    }
}

/// Compacting a table keeps its rows: the same keys are there, and each gives the same
/// row. It tells by how many segments there are fewer than with the active one closed; it
/// comes to no fewer where there were fewer than four, and keeps no deleted row in a
/// segment that it writes. The table stays sound where nothing, or only deleted rows, were
/// found on disk for the segment that is begun, so that all this holds again of the next
/// compaction. `mid` is the table between the two steps: the active segment is closed,
/// nothing is packed yet.
pub proof fn law_compacting_keeps_rows(
    old: TableView,
    mid: TableView,
    new: TableView,
    n: int,
    target: u64,
    created_at: i64,
    interval: u32,
    begun: Option<SegmentView>,
    found: Option<SegmentView>,
)
    requires
        sound(old),
        is_flushed(old, mid, created_at, interval, begun),
        is_compacted(mid, new, n, target, created_at, found),
        target > 0,
        old.manifest.active_segment_id + 2 + live_len(old) <= u64::MAX,
        target <= u32::MAX || live_len(old) <= u32::MAX,
        segments_short(new.segments),
        fields_kept(closed_segments(old), old.manifest.original_fields),
    ensures
        same_rows(old, new),
        n == closed_segments(old).len() - new.segments.len(),
        closed_segments(old).len() < 4 ==> n == 0 && new == mid,
        new == mid || forall|i: int|
            0 <= i < new.segments.len() ==> (#[trigger] new.segments[i]).deleted == Set::<
                u32,
            >::empty(),
        new == mid && idle(begun) ==> sound(new),
        new != mid && idle(found) ==> sound(new),
{
    let segs = closed_segments(old);
    assert(mid.segments =~= segs);
    lemma_flush_same_rows(old, mid, created_at, interval, begun);
    if new == mid {
        if idle(begun) {
            law_flush_keeps_sound(old, mid, created_at, interval, begun);
        }
    } else {
        let (fields, keys, merged) = choose|
            fields: Seq<Seq<char>>,
            keys: Seq<Option<Seq<char>>>,
            merged: TableView,
        |
            lists_fields(fields, mid.segments[0]) && fields.len() > 0 && #[trigger] is_packed(
                mid,
                new,
                fields,
                keys,
                merged,
                target,
                created_at,
                found,
            );
        assert(fields.contains(fields[0]));
        assert(!lists_fields(Seq::empty(), segs[0])) by {
            let c = choose|c: Seq<char>| #[trigger]
                segs[0].columns.contains_key(c) && column_field(c) == Some(fields[0]);
            assert(!Seq::<Seq<char>>::empty().contains(fields[0]));
        }
        lemma_live_len(old, mid, segs, Seq::empty(), fields);
        lemma_packed_sound(mid, new, fields, keys, merged, target, created_at, found);
        assert(same_rows(old, new)) by {
            assert forall|key: Seq<char>|
                #![trigger old.row_of(key)]
                #![trigger new.row_of(key)]
                #![trigger old.places.contains_key(key)]
                #![trigger new.places.contains_key(key)]
                (old.places.contains_key(key) <==> new.places.contains_key(key)) && old.row_of(
                    key,
                ) == new.row_of(key) by {
                assert(mid.row_of(key) == old.row_of(key));
                assert(mid.row_of(key) == new.row_of(key));
            }
        }
    }
}

/// Packing keeps the cache in step.
pub proof fn law_compacting_keeps_cache_in_step(
    old: TableView,
    new: TableView,
    n: int,
    target: u64,
    created_at: i64,
    found: Option<SegmentView>,
)
    requires
        is_compacted(old, new, n, target, created_at, found),
        cache_in_step(old),
    ensures
        cache_in_step(new),
{
}

} // verus!
