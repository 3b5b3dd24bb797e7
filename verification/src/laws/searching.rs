//! Which rows a search finds.

use crate::compaction::{closed_segments, is_live, lemma_last_found};
use crate::field_index::{list_of, live_entry, stored_index, with_segment};
use crate::hits::{found_ids, intersected, last_with, page, row_pairs};
use crate::laws::sorting::lemma_key_holder;
use crate::lookup::{
    active_entry, after_use, all_segments, built_index, by_index, cache_in_step, candidate_meets,
    entry_joined, entry_of, exact_lookup, filter_lookup, filter_on, found_rows, fresh_index, joined,
    left_filters, lemma_value_alike, list_lookup, live_list, live_rows, same_but_cache, scanned,
    segment_rows, used_index, value_lookup, Lookup,
};
use crate::manifest::BoundsView;
use crate::rowset::{lemma_in_order, rows_in_order};
use crate::segment::{
    cell_meets, combined_rows, complete_filters, field_rows, indexes_hold, law_combined_rows,
    law_index_finds_rows, lists_row, pruned, searched, SegmentView,
};
use crate::soundness::sound;
use crate::table::{key_field, TableView};
use crate::types::{listed, ComparisonOp, FilterView, LogicalOp, ScalarView};
use vstd::prelude::*;

verus! {

/// Whether a list of entries has a row of a segment.
pub open spec fn has_row(h: Seq<(u64, Set<u32>)>, p: (u64, u32)) -> bool {
    exists|i: int| 0 <= i < h.len() && (#[trigger] h[i]).0 == p.0 && h[i].1.contains(p.1)
}

/// Whether a row is marked as deleted in its segment.
pub open spec fn is_deleted(t: TableView, p: (u64, u32)) -> bool {
    t.holder(p.0) matches Some(s) && s.deleted.contains(p.1)
}

proof fn lemma_has_row_push(h: Seq<(u64, Set<u32>)>, e: (u64, Set<u32>), p: (u64, u32))
    ensures
        has_row(h.push(e), p) <==> has_row(h, p) || e.0 == p.0 && e.1.contains(p.1),
{
    let all = h.push(e);
    if has_row(h, p) {
        let i = choose|i: int|
            0 <= i < h.len() && (#[trigger] h[i]).0 == p.0 && h[i].1.contains(p.1);
        assert(all[i] == h[i]);
    }
    if has_row(all, p) {
        let i = choose|i: int|
            0 <= i < all.len() && (#[trigger] all[i]).0 == p.0 && all[i].1.contains(p.1);
        if i < h.len() {
            assert(h[i] == all[i]);
        }
    }
    assert(all[h.len() as int] == e);
}

proof fn lemma_has_row_add(a: Seq<(u64, Set<u32>)>, b: Seq<(u64, Set<u32>)>, p: (u64, u32))
    ensures
        has_row(a + b, p) <==> has_row(a, p) || has_row(b, p),
    decreases b.len(),
{
    if b.len() == 0 {
        assert(a + b =~= a);
    } else {
        lemma_has_row_add(a, b.drop_last(), p);
        assert(a + b =~= (a + b.drop_last()).push(b.last()));
        assert(b =~= b.drop_last().push(b.last()));
        lemma_has_row_push(a + b.drop_last(), b.last(), p);
        lemma_has_row_push(b.drop_last(), b.last(), p);
    }
}

proof fn lemma_last_row(h: Seq<(u64, Set<u32>)>, p: (u64, u32))
    requires
        h.len() > 0,
    ensures
        has_row(h, p) <==> has_row(h.drop_last(), p) || h.last().0 == p.0 && h.last().1.contains(
            p.1,
        ),
{
    assert(h =~= h.drop_last().push(h.last()));
    lemma_has_row_push(h.drop_last(), h.last(), p);
}

/// The places that are listed are those of the rows of the entries, and no others.
pub proof fn law_found_places(h: Seq<(u64, Set<u32>)>, p: (u64, u32))
    ensures
        found_ids(h).contains(p) <==> has_row(h, p),
    decreases h.len(),
{
    if h.len() > 0 {
        let front = h.drop_last();
        let (id, rows) = h.last();
        law_found_places(front, p);
        lemma_last_row(h, p);
        lemma_in_order(rows);
        let listed = rows_in_order(rows);
        let before = found_ids(front);
        let last = row_pairs(id, listed);
        if found_ids(h).contains(p) {
            let k = choose|k: int| 0 <= k < found_ids(h).len() && found_ids(h)[k] == p;
            if k < before.len() {
                assert(before[k] == p);
            } else {
                assert(last[k - before.len()] == p);
                assert(listed.to_set().contains(p.1));
            }
        }
        if before.contains(p) {
            let k = before.index_of(p);
            assert(found_ids(h)[k] == p);
        }
        if id == p.0 && rows.contains(p.1) {
            assert(listed.to_set().contains(p.1));
            let k = listed.index_of(p.1);
            assert(last[k] == p);
            assert(found_ids(h)[before.len() + k] == p);
        }
    }
}

/// The places of one entry are listed in the order of its rows, and behind those of the
/// entries before it.
pub proof fn law_places_in_order(h: Seq<(u64, Set<u32>)>, e: (u64, Set<u32>))
    ensures
        ({
            let all = found_ids(h.push(e));
            let n = found_ids(h).len();
            &&& all.len() >= n
            &&& all.take(n as int) == found_ids(h)
            &&& forall|i: int| n <= i < all.len() ==> (#[trigger] all[i]).0 == e.0
            &&& forall|i: int, j: int|
                #![trigger all[i], all[j]]
                n <= i < j < all.len() ==> all[i].1 < all[j].1
        }),
{
    lemma_in_order(e.1);
    assert(h.push(e).drop_last() =~= h);
    let all = found_ids(h.push(e));
    assert(all.take(found_ids(h).len() as int) =~= found_ids(h));
}

/// A page has the items from the offset on, as many as the limit lets in and are left.
pub proof fn law_page_items<T>(s: Seq<T>, offset: int, limit: int, i: int)
    requires
        offset >= 0,
        limit >= 0,
    ensures
        page(s, offset, limit).len() == (if offset >= s.len() {
            0
        } else if s.len() - offset <= limit {
            s.len() - offset
        } else {
            limit
        }),
        0 <= i < page(s, offset, limit).len() ==> page(s, offset, limit)[i] == s[offset + i],
{
}

/// A search of a list of segments gives a row where a segment with its number does.
pub proof fn law_scan(
    t: TableView,
    segs: Seq<SegmentView>,
    fs: Seq<FilterView>,
    op: LogicalOp,
    p: (u64, u32),
)
    ensures
        has_row(scanned(t, segs, fs, op), p) <==> exists|m: int|
            0 <= m < segs.len() && (#[trigger] segs[m]).id == p.0 && segment_rows(
                t,
                segs[m],
                fs,
                op,
            ).contains(p.1),
    decreases segs.len(),
{
    if segs.len() > 0 {
        let front = segs.drop_last();
        let s = segs.last();
        law_scan(t, front, fs, op, p);
        let rows = segment_rows(t, s, fs, op);
        lemma_has_row_push(scanned(t, front, fs, op), (s.id, rows), p);
        assert(segs[segs.len() - 1] == s);
        if has_row(scanned(t, front, fs, op), p) {
            let m = choose|m: int|
                0 <= m < front.len() && (#[trigger] front[m]).id == p.0 && segment_rows(
                    t,
                    front[m],
                    fs,
                    op,
                ).contains(p.1);
            assert(segs[m] == front[m]);
        }
        if exists|m: int|
            0 <= m < segs.len() && (#[trigger] segs[m]).id == p.0 && segment_rows(
                t,
                segs[m],
                fs,
                op,
            ).contains(p.1) {
            let m = choose|m: int|
                0 <= m < segs.len() && (#[trigger] segs[m]).id == p.0 && segment_rows(
                    t,
                    segs[m],
                    fs,
                    op,
                ).contains(p.1);
            if m < front.len() {
                assert(front[m] == segs[m]);
            }
        }
    }
}

proof fn lemma_complete(fs: Seq<FilterView>, f: FilterView)
    ensures
        complete_filters(fs).contains(f) <==> fs.contains(f) && f.complete(),
    decreases fs.len(),
{
    if fs.len() > 0 {
        let front = fs.drop_last();
        lemma_complete(front, f);
        let short = complete_filters(front);
        let all = complete_filters(fs);
        assert(fs[fs.len() - 1] == fs.last());
        if short.contains(f) {
            let k = short.index_of(f);
            assert(all[k] == f);
        }
        if front.contains(f) {
            let k = front.index_of(f);
            assert(fs[k] == f);
        }
        if fs.contains(f) && f != fs.last() {
            let k = fs.index_of(f);
            assert(front[k] == f);
        }
        if all.contains(f) && !short.contains(f) {
            let k = all.index_of(f);
            if k < short.len() {
                assert(short[k] == f);
            }
        }
        if fs.last().complete() {
            assert(all[short.len() as int] == fs.last());
        }
    }
}

/// What a search of one segment finds, by its cells: no row that is deleted; without a
/// filter that has a field and a value, every other row; with such filters joined by `And`
/// the rows whose cells meet all of them, and joined by `Or` the rows whose cells meet one
/// of them, unless the bounds of a column show that there is nothing to find.
pub proof fn law_segment_search(
    fs: Seq<FilterView>,
    op: LogicalOp,
    count: int,
    bounds: Map<Seq<char>, BoundsView>,
    deleted: Set<u32>,
    indexes: Map<Seq<char>, Map<Seq<char>, (ScalarView, Set<u32>)>>,
    cells: Map<Seq<char>, Seq<Seq<char>>>,
    row: u32,
)
    requires
        indexes_hold(indexes, cells),
        forall|c: Seq<char>| #[trigger] cells.contains_key(c) ==> cells[c].len() == count,
        forall|i: int|
            0 <= i < fs.len() && (#[trigger] fs[i]).complete() ==> cells.contains_key(fs[i].field),
    ensures
        ({
            let found = searched(fs, op, count, bounds, deleted, indexes).contains(row);
            let meets = |f: FilterView|
                cell_meets(indexes[f.field], f, cells[f.field][row as int]);
            let none = forall|i: int| 0 <= i < fs.len() ==> !(#[trigger] fs[i]).complete();
            let hidden = pruned(bounds, complete_filters(fs));
            &&& found ==> row < count && !deleted.contains(row)
            &&& none ==> (found <==> row < count && !deleted.contains(row))
            &&& !none && !hidden && op == LogicalOp::And ==> (found <==> row < count
                && !deleted.contains(row) && forall|i: int|
                0 <= i < fs.len() && (#[trigger] fs[i]).complete() ==> meets(fs[i]))
            &&& !none && !hidden && op == LogicalOp::Or ==> (found <==> row < count
                && !deleted.contains(row) && exists|i: int|
                0 <= i < fs.len() && (#[trigger] fs[i]).complete() && meets(fs[i]))
        }),
{
    let full = complete_filters(fs);
    let none = forall|i: int| 0 <= i < fs.len() ==> !(#[trigger] fs[i]).complete();
    assert(none <==> full.len() == 0) by {
        if full.len() > 0 {
            lemma_complete(fs, full[0]);
            assert(full.contains(full[0]));
            let i = fs.index_of(full[0]);
            assert(fs[i].complete());
        }
        if !none {
            let i = choose|i: int| 0 <= i < fs.len() && (#[trigger] fs[i]).complete();
            lemma_complete(fs, fs[i]);
            assert(fs.contains(fs[i]));
        }
    }
    if full.len() > 0 {
        law_combined_rows(indexes, full, op, row);
        let meets = |f: FilterView| cell_meets(indexes[f.field], f, cells[f.field][row as int]);
        assert forall|i: int| 0 <= i < full.len() implies (field_rows(
            indexes,
            #[trigger] full[i],
        ).contains(row) <==> row < count && meets(full[i])) && exists|j: int|
            0 <= j < fs.len() && #[trigger] fs[j] == full[i] && fs[j].complete() by {
            let f = full[i];
            lemma_complete(fs, f);
            assert(full.contains(f));
            let j = fs.index_of(f);
            assert(fs[j].complete());
            assert(cells.contains_key(f.field));
            assert(indexes.dom().contains(f.field));
            law_index_finds_rows(indexes[f.field], cells[f.field], f, row);
        }
        assert forall|j: int| 0 <= j < fs.len() && (#[trigger] fs[j]).complete() implies exists|
            i: int,
        |
            0 <= i < full.len() && #[trigger] full[i] == fs[j] by {
            lemma_complete(fs, fs[j]);
            assert(fs.contains(fs[j]));
            let i = full.index_of(fs[j]);
            assert(full[i] == fs[j]);
        }
        if op == LogicalOp::And {
            if combined_rows(indexes, full, op).contains(row) {
                assert(field_rows(indexes, full[0]).contains(row));
                assert forall|j: int| 0 <= j < fs.len() && (
                #[trigger] fs[j]).complete() implies meets(fs[j]) by {
                    let i = choose|i: int| 0 <= i < full.len() && #[trigger] full[i] == fs[j];
                    assert(field_rows(indexes, full[i]).contains(row));
                }
            }
            if row < count && forall|j: int|
                0 <= j < fs.len() && (#[trigger] fs[j]).complete() ==> meets(fs[j]) {
                assert forall|i: int| 0 <= i < full.len() implies field_rows(
                    indexes,
                    #[trigger] full[i],
                ).contains(row) by {
                    let j = choose|j: int|
                        0 <= j < fs.len() && #[trigger] fs[j] == full[i] && fs[j].complete();
                    assert(meets(fs[j]));
                }
            }
        } else {
            if combined_rows(indexes, full, op).contains(row) {
                let i = choose|i: int|
                    0 <= i < full.len() && field_rows(indexes, #[trigger] full[i]).contains(row);
                let j = choose|j: int|
                    0 <= j < fs.len() && #[trigger] fs[j] == full[i] && fs[j].complete();
                assert(meets(fs[j]));
            }
            if row < count && exists|j: int|
                0 <= j < fs.len() && (#[trigger] fs[j]).complete() && meets(fs[j]) {
                let j = choose|j: int|
                    0 <= j < fs.len() && (#[trigger] fs[j]).complete() && meets(fs[j]);
                let i = choose|i: int| 0 <= i < full.len() && #[trigger] full[i] == fs[j];
                assert(field_rows(indexes, full[i]).contains(row));
            }
        }
    }
}

proof fn lemma_last_with(h: Seq<(u64, Set<u32>)>, id: u64, row: u32)
    ensures
        last_with(h, id) matches Some(rows) ==> (rows.contains(row) ==> has_row(h, (id, row))),
        (forall|i: int, j: int|
            #![trigger h[i], h[j]]
            0 <= i < j < h.len() ==> h[i].0 != h[j].0) ==> (has_row(h, (id, row))
            <==> (last_with(h, id) matches Some(rows) && rows.contains(row))),
    decreases h.len(),
{
    if h.len() > 0 {
        let front = h.drop_last();
        lemma_last_with(front, id, row);
        lemma_last_row(h, (id, row));
        if forall|i: int, j: int|
            #![trigger h[i], h[j]]
            0 <= i < j < h.len() ==> h[i].0 != h[j].0 {
            assert forall|i: int, j: int|
                #![trigger front[i], front[j]]
                0 <= i < j < front.len() implies front[i].0 != front[j].0 by {
                assert(h[i].0 != h[j].0);
            }
            if h.last().0 == id && has_row(front, (id, row)) {
                let i = choose|i: int|
                    0 <= i < front.len() && (#[trigger] front[i]).0 == id && front[i].1.contains(
                        row,
                    );
                assert(h[i].0 != h[h.len() - 1].0);
            }
        }
    }
}

/// What two lists have in common: every row of it is in both; and where the second list
/// has each segment once, every row that is in both is in it.
pub proof fn law_common_rows(
    a: Seq<(u64, Set<u32>)>,
    b: Seq<(u64, Set<u32>)>,
    p: (u64, u32),
)
    ensures
        has_row(intersected(a, b), p) ==> has_row(a, p) && has_row(b, p),
        (forall|i: int, j: int|
            #![trigger b[i], b[j]]
            0 <= i < j < b.len() ==> b[i].0 != b[j].0) && has_row(a, p) && has_row(b, p) ==> has_row(
            intersected(a, b),
            p,
        ),
    decreases a.len(),
{
    if a.len() > 0 {
        let front = a.drop_last();
        let (id, rows) = a.last();
        law_common_rows(front, b, p);
        lemma_last_row(a, p);
        lemma_last_with(b, id, p.1);
        if let Some(others) = last_with(b, id) {
            lemma_has_row_push(intersected(front, b), (id, rows.intersect(others)), p);
        }
    }
}

proof fn lemma_entry_of(h: Seq<(u64, Set<u32>)>, id: u64)
    ensures
        entry_of(h, id) matches Some(i) ==> 0 <= i < h.len() && h[i].0 == id,
    decreases h.len(),
{
    if h.len() > 0 {
        lemma_entry_of(h.drop_last(), id);
    }
}

/// Two lists together have the rows of each, and no others.
pub proof fn law_joined_rows(
    a: Seq<(u64, Set<u32>)>,
    b: Seq<(u64, Set<u32>)>,
    p: (u64, u32),
)
    ensures
        has_row(joined(a, b), p) <==> has_row(a, p) || has_row(b, p),
    decreases b.len(),
{
    if b.len() > 0 {
        let front = joined(a, b.drop_last());
        let e = b.last();
        law_joined_rows(a, b.drop_last(), p);
        lemma_last_row(b, p);
        lemma_entry_of(front, e.0);
        let all = entry_joined(front, e);
        match entry_of(front, e.0) {
            Some(i) => {
                if has_row(front, p) {
                    let k = choose|k: int|
                        0 <= k < front.len() && (#[trigger] front[k]).0 == p.0
                            && front[k].1.contains(p.1);
                    assert(all[k].0 == p.0 && all[k].1.contains(p.1));
                }
                if e.0 == p.0 && e.1.contains(p.1) {
                    assert(all[i].0 == p.0 && all[i].1.contains(p.1));
                }
                if has_row(all, p) {
                    let k = choose|k: int|
                        0 <= k < all.len() && (#[trigger] all[k]).0 == p.0 && all[k].1.contains(
                            p.1,
                        );
                    assert(front[k].0 == p.0);
                }
            },
            None => {
                lemma_has_row_push(front, e, p);
            },
        }
    }
}

/// An index with one more segment lists under a value what it listed before, and the rows
/// of the segment that hold the value and are not deleted.
pub proof fn law_segment_is_listed(
    m: Map<Seq<char>, Seq<(u64, Set<u32>)>>,
    id: u64,
    ix: Map<Seq<char>, (ScalarView, Set<u32>)>,
    deleted: Set<u32>,
    value: Seq<char>,
    p: (u64, u32),
)
    ensures
        has_row(list_of(with_segment(m, id, ix, deleted), value), p) <==> has_row(
            list_of(m, value),
            p,
        ) || p.0 == id && lists_row(ix, value, p.1) && !deleted.contains(p.1),
{
    let e = live_entry(id, ix, deleted, value);
    lemma_has_row_add(list_of(m, value), e, p);
    if e.len() > 0 {
        assert(e =~= Seq::empty().push((id, ix[value].1.difference(deleted))));
        lemma_has_row_push(Seq::empty(), (id, ix[value].1.difference(deleted)), p);
    } else {
        assert(list_of(m, value) + e =~= list_of(m, value));
        if ix.contains_key(value) && ix[value].1.contains(p.1) && !deleted.contains(p.1) {
            assert(ix[value].1.difference(deleted).contains(p.1));
        }
    }
}

/// An index that is built out of segments lists a row under a value where the index of a
/// segment with its number does.
pub proof fn law_built_index(
    segs: Seq<SegmentView>,
    field: Seq<char>,
    value: Seq<char>,
    p: (u64, u32),
)
    ensures
        has_row(list_of(built_index(segs, field), value), p) <==> exists|m: int|
            0 <= m < segs.len() && (#[trigger] segs[m]).id == p.0
                && segs[m].indexes.contains_key(field) && lists_row(
                segs[m].indexes[field],
                value,
                p.1,
            ),
    decreases segs.len(),
{
    if segs.len() > 0 {
        let front = segs.drop_last();
        let s = segs.last();
        law_built_index(front, field, value, p);
        assert(segs[segs.len() - 1] == s);
        if s.indexes.contains_key(field) {
            law_segment_is_listed(
                built_index(front, field),
                s.id,
                s.indexes[field],
                Set::empty(),
                value,
                p,
            );
        }
        if has_row(list_of(built_index(front, field), value), p) {
            let m = choose|m: int|
                0 <= m < front.len() && (#[trigger] front[m]).id == p.0
                    && front[m].indexes.contains_key(field) && lists_row(
                    front[m].indexes[field],
                    value,
                    p.1,
                );
            assert(segs[m] == front[m]);
        }
        if exists|m: int|
            0 <= m < segs.len() && (#[trigger] segs[m]).id == p.0
                && segs[m].indexes.contains_key(field) && lists_row(
                segs[m].indexes[field],
                value,
                p.1,
            ) {
            let m = choose|m: int|
                0 <= m < segs.len() && (#[trigger] segs[m]).id == p.0
                    && segs[m].indexes.contains_key(field) && lists_row(
                    segs[m].indexes[field],
                    value,
                    p.1,
                );
            if m < front.len() {
                assert(front[m] == segs[m]);
            }
        }
    }
}

/// The index of a field that is not at hand is read from its file, or else built out of the
/// segments, and the rows of the segment that is written to come with it, but the deleted
/// ones; one whose file cannot be read fails.
pub proof fn law_fresh_index(t: TableView, field: Seq<char>, value: Seq<char>, p: (u64, u32))
    ensures
        ({
            let written = t.active matches Some(w) && w.segment.id == p.0 && w.indexes.contains_key(
                field,
            ) && lists_row(w.indexes[field], value, p.1) && !w.segment.deleted.contains(p.1);
            &&& !t.saved.contains_key(field) ==> fresh_index(t, field) is Some && (has_row(
                list_of(fresh_index(t, field)->0, value),
                p,
            ) <==> written || exists|m: int|
                0 <= m < t.segments.len() && (#[trigger] t.segments[m]).id == p.0
                    && t.segments[m].indexes.contains_key(field) && lists_row(
                    t.segments[m].indexes[field],
                    value,
                    p.1,
                ))
            &&& t.saved.contains_key(field) ==> (fresh_index(t, field) is None <==> stored_index(
                t.saved[field],
            ) is None)
            &&& t.saved.contains_key(field) ==> (stored_index(t.saved[field]) matches Some(m) ==> (
            has_row(list_of(fresh_index(t, field)->0, value), p) <==> written || has_row(
                list_of(m, value),
                p,
            )))
        }),
        t.cache.contains_key(field) ==> used_index(t, field) == Some(t.cache[field]),
        !t.cache.contains_key(field) ==> used_index(t, field) == fresh_index(t, field),
{
    law_built_index(t.segments, field, value, p);
    if let Some(w) = t.active {
        if w.indexes.contains_key(field) {
            let ix = w.indexes[field];
            let id = w.segment.id;
            let gone = w.segment.deleted;
            let built = built_index(t.segments, field);
            law_segment_is_listed(built, id, ix, gone, value, p);
            law_segment_is_listed(with_segment(built, id, ix, gone), id, ix, gone, value, p);
            if t.saved.contains_key(field) {
                if let Some(m) = stored_index(t.saved[field]) {
                    law_segment_is_listed(m, id, ix, gone, value, p);
                }
            }
        }
    }
}

proof fn lemma_live_list(t: TableView, list: Seq<(u64, Set<u32>)>, p: (u64, u32))
    requires
        sound(t),
    ensures
        has_row(live_list(t, list), p) <==> has_row(list, p) && !is_deleted(t, p),
    decreases list.len(),
{
    if list.len() > 0 {
        let front = live_list(t, list.drop_last());
        let (id, rows) = list.last();
        let left = live_rows(t, id, rows);
        lemma_live_list(t, list.drop_last(), p);
        lemma_last_row(list, p);
        lemma_has_row_push(front, (id, left), p);
        lemma_key_holder(t, id);
        if id == p.0 {
            assert(left.contains(p.1) <==> rows.contains(p.1) && !is_deleted(t, p));
        }
    }
}

/// Looking a value up gives the rows that the index lists under it and those that the
/// segment that is written to lists, without the deleted ones, and no others. It fails
/// only where the file of the index cannot be read, and it knows nothing of a value that
/// neither lists.
pub proof fn law_value_lookup(t: TableView, field: Seq<char>, value: Seq<char>, p: (u64, u32))
    requires
        sound(t),
    ensures
        value_lookup(t, field, value) is Failed <==> used_index(t, field) is None,
        value_lookup(t, field, value) matches Lookup::Found(h) ==> (has_row(h, p) <==> !is_deleted(
            t,
            p,
        ) && (has_row(list_of(used_index(t, field)->0, value), p) || (t.active matches Some(w)
            && w.segment.id == p.0 && w.indexes.contains_key(field) && lists_row(
            w.indexes[field],
            value,
            p.1,
        )))),
        value_lookup(t, field, value) is Missing ==> !has_row(
            list_of(used_index(t, field)->0, value),
            p,
        ),
{
    if let Lookup::Found(h) = value_lookup(t, field, value) {
        let list = list_of(used_index(t, field)->0, value);
        let a = live_list(t, list);
        let b = active_entry(t, field, value);
        lemma_live_list(t, list, p);
        lemma_has_row_add(a, b, p);
        if t.active is Some && t.active->0.indexes.contains_key(field) {
            let w = t.active->0;
            law_segment_is_listed(
                Map::empty(),
                w.segment.id,
                w.indexes[field],
                w.segment.deleted,
                value,
                p,
            );
            assert(list_of(
                with_segment(Map::empty(), w.segment.id, w.indexes[field], w.segment.deleted),
                value,
            ) =~= b);
            assert(!has_row(list_of(Map::empty(), value), p));
        } else {
            assert(b =~= Seq::empty());
        }
    }
}

proof fn lemma_used_after_use(t: TableView, field: Seq<char>, max: int)
    ensures
        same_but_cache(after_use(t, field, max), t),
        used_index(after_use(t, field, max), field) == used_index(t, field),
{
}

/// Looking up a list of values gives the rows that are given for one of them, besides what
/// was found before.
pub proof fn law_list_lookup(
    t: TableView,
    field: Seq<char>,
    values: Seq<Seq<char>>,
    found: Option<Seq<(u64, Set<u32>)>>,
    max: int,
    p: (u64, u32),
)
    ensures
        list_lookup(t, field, values, found, max).0 matches Lookup::Found(h) ==> (has_row(h, p)
            <==> (found matches Some(f) && has_row(f, p)) || exists|k: int|
            0 <= k < values.len() && (value_lookup(t, field, #[trigger] values[k]) matches Lookup::Found(
                g,
            ) && has_row(g, p))),
        list_lookup(t, field, values, found, max).0 is Missing ==> found is None && forall|k: int|
            0 <= k < values.len() ==> value_lookup(t, field, #[trigger] values[k]) is Missing,
    decreases values.len(),
{
    if values.len() > 0 {
        let next = after_use(t, field, max);
        let rest = values.skip(1);
        lemma_used_after_use(t, field, max);
        assert forall|k: int| 0 <= k < rest.len() implies value_lookup(
            next,
            field,
            #[trigger] rest[k],
        ) == value_lookup(t, field, values[k + 1]) by {
            lemma_value_alike(t, next, field, rest[k]);
        }
        match value_lookup(t, field, values[0]) {
            Lookup::Failed => {},
            Lookup::Missing => {
                law_list_lookup(next, field, rest, found, max, p);
                lemma_list_step(t, next, field, values, p);
            },
            Lookup::Found(h) => {
                let before = match found {
                    Some(f) => f,
                    None => Seq::empty(),
                };
                law_joined_rows(before, h, p);
                law_list_lookup(next, field, rest, Some(joined(before, h)), max, p);
                lemma_list_step(t, next, field, values, p);
            },
        }
    }
}

proof fn lemma_list_step(
    t: TableView,
    next: TableView,
    field: Seq<char>,
    values: Seq<Seq<char>>,
    p: (u64, u32),
)
    requires
        values.len() > 0,
        forall|k: int|
            0 <= k < values.skip(1).len() ==> value_lookup(next, field, #[trigger] values.skip(1)[k])
                == value_lookup(t, field, values[k + 1]),
    ensures
        (exists|k: int|
            0 <= k < values.len() && (value_lookup(t, field, #[trigger] values[k]) matches Lookup::Found(
                g,
            ) && has_row(g, p))) <==> (value_lookup(t, field, values[0]) matches Lookup::Found(g)
            && has_row(g, p)) || exists|k: int|
            0 <= k < values.skip(1).len() && (value_lookup(
                next,
                field,
                #[trigger] values.skip(1)[k],
            ) matches Lookup::Found(g) && has_row(g, p)),
        (forall|k: int| 0 <= k < values.len() ==> value_lookup(t, field, #[trigger] values[k]) is Missing)
            <==> value_lookup(t, field, values[0]) is Missing && forall|k: int|
            0 <= k < values.skip(1).len() ==> value_lookup(
                next,
                field,
                #[trigger] values.skip(1)[k],
            ) is Missing,
{
    let rest = values.skip(1);
    assert forall|k: int| 0 < k < values.len() implies value_lookup(t, field, #[trigger] values[k])
        == value_lookup(next, field, rest[k - 1]) by {
        assert(rest[k - 1] == values[k]);
    }
    assert forall|k: int| 0 <= k < rest.len() implies value_lookup(next, field, #[trigger] rest[k])
        == value_lookup(t, field, values[k + 1]) by {}
}

/// What the indexes give for filters joined by `And`: every row is given for each filter
/// that asks for one value.
pub proof fn law_exact_lookup(
    t: TableView,
    fs: Seq<FilterView>,
    found: Option<Seq<(u64, Set<u32>)>>,
    max: int,
    p: (u64, u32),
    k: int,
)
    requires
        exact_lookup(t, fs, found, max).0 matches Lookup::Found(h) && has_row(h, p),
        0 <= k < fs.len(),
        fs[k].op == ComparisonOp::Eq,
        fs[k].complete(),
        forall|i: int| 0 <= i < k ==> (#[trigger] fs[i]).op != ComparisonOp::In,
        cache_in_step(t),
    ensures
        value_lookup(t, fs[k].field, fs[k].value.text) matches Lookup::Found(g) && has_row(g, p),
        found matches Some(f) ==> has_row(f, p),
    decreases fs.len(),
{
    let f = fs[0];
    let rest = fs.skip(1);
    assert forall|i: int| 0 <= i < rest.len() implies #[trigger] rest[i] == fs[i + 1] by {}
    if !by_index(f) {
        law_exact_lookup(t, rest, found, max, p, k - 1);
    } else {
        let (one, next) = filter_lookup(t, f, max);
        let h = one->Found_0;
        let both = match found {
            Some(g) => intersected(g, h),
            None => h,
        };
        if let Some(g) = found {
            law_common_rows(g, h, p);
        }
        if both.len() > 0 {
            lemma_uncached(t, f.field, max);
            if k > 0 {
                law_exact_lookup(next, rest, Some(both), max, p, k - 1);
                assert(fs[k] == rest[k - 1]);
                lemma_value_alike(t, next, fs[k].field, fs[k].value.text);
            } else {
                lemma_exact_kept(next, rest, both, max, p);
            }
        }
    }
}

proof fn lemma_uncached(t: TableView, field: Seq<char>, max: int)
    requires
        cache_in_step(t),
    ensures
        cache_in_step(after_use(t, field, max)),
        same_but_cache(after_use(t, field, max), t),
        forall|f: Seq<char>| #[trigger]
            used_index(after_use(t, field, max), f) == used_index(t, f),
{
    let n = after_use(t, field, max);
    assert forall|f: Seq<char>| #[trigger] n.cache.contains_key(f) implies fresh_index(n, f)
        == Some(n.cache[f]) by {
        assert(fresh_index(n, f) == fresh_index(t, f));
        if f != field {
            assert(t.cache.contains_key(f));
        }
    }
    assert forall|f: Seq<char>| #[trigger] used_index(n, f) == used_index(t, f) by {
        assert(fresh_index(n, f) == fresh_index(t, f));
        assert(t.cache.contains_key(f) ==> fresh_index(t, f) == Some(t.cache[f]));
        assert(n.cache.contains_key(f) ==> fresh_index(n, f) == Some(n.cache[f]));
    }
}

proof fn lemma_exact_kept(
    t: TableView,
    fs: Seq<FilterView>,
    found: Seq<(u64, Set<u32>)>,
    max: int,
    p: (u64, u32),
)
    requires
        exact_lookup(t, fs, Some(found), max).0 matches Lookup::Found(h) && has_row(h, p),
    ensures
        has_row(found, p),
    decreases fs.len(),
{
    if fs.len() > 0 {
        let f = fs[0];
        if !by_index(f) {
            lemma_exact_kept(t, fs.skip(1), found, max, p);
        } else {
            let (one, next) = filter_lookup(t, f, max);
            if let Lookup::Found(h) = one {
                law_common_rows(found, h, p);
                let both = intersected(found, h);
                if both.len() > 0 {
                    lemma_exact_kept(next, fs.skip(1), both, max, p);
                }
            }
        }
    }
}

/// Whether a list of entries has each segment once.
pub open spec fn segments_once(h: Seq<(u64, Set<u32>)>) -> bool {
    forall|i: int, j: int|
        #![trigger h[i], h[j]]
        0 <= i < j < h.len() ==> h[i].0 != h[j].0
}

/// The other way round: a row that is given for each filter is given for all of them
/// together, where each filter asks for one value and no list has a segment twice.
pub proof fn law_exact_lookup_is_complete(
    t: TableView,
    fs: Seq<FilterView>,
    found: Option<Seq<(u64, Set<u32>)>>,
    max: int,
    p: (u64, u32),
)
    requires
        cache_in_step(t),
        forall|i: int| 0 <= i < fs.len() ==> (#[trigger] fs[i]).op != ComparisonOp::In,
        forall|i: int|
            0 <= i < fs.len() && by_index(#[trigger] fs[i]) ==> (value_lookup(
                t,
                fs[i].field,
                fs[i].value.text,
            ) matches Lookup::Found(g) && has_row(g, p) && segments_once(g)),
        found matches Some(f) ==> has_row(f, p),
        found is Some || exists|i: int| 0 <= i < fs.len() && by_index(#[trigger] fs[i]),
    ensures
        exact_lookup(t, fs, found, max).0 matches Lookup::Found(h) && has_row(h, p),
    decreases fs.len(),
{
    if fs.len() > 0 {
        let f = fs[0];
        let rest = fs.skip(1);
        assert forall|i: int| 0 <= i < rest.len() implies #[trigger] rest[i] == fs[i + 1] by {}
        if !by_index(f) {
            if found is None {
                let i = choose|i: int| 0 <= i < fs.len() && by_index(#[trigger] fs[i]);
                assert(rest[i - 1] == fs[i]);
            }
            law_exact_lookup_is_complete(t, rest, found, max, p);
        } else {
            let (one, next) = filter_lookup(t, f, max);
            let h = one->Found_0;
            let both = match found {
                Some(g) => intersected(g, h),
                None => h,
            };
            if let Some(g) = found {
                law_common_rows(g, h, p);
            }
            lemma_uncached(t, f.field, max);
            assert forall|i: int| 0 <= i < rest.len() && by_index(#[trigger] rest[i]) implies (
            value_lookup(next, rest[i].field, rest[i].value.text) matches Lookup::Found(g)
                && has_row(g, p) && segments_once(g)) by {
                lemma_value_alike(t, next, rest[i].field, rest[i].value.text);
                assert(by_index(fs[i + 1]));
            }
            assert(both.len() > 0);
            law_exact_lookup_is_complete(next, rest, Some(both), max, p);
        }
    }
}

proof fn lemma_holder_of(t: TableView, m: int)
    requires
        sound(t),
        0 <= m < all_segments(t).len(),
    ensures
        t.holder(all_segments(t)[m].id) == Some(all_segments(t)[m]),
{
    let all = closed_segments(t);
    let segs = t.segments;
    assert forall|i: int, j: int| 0 <= i < all.len() && 0 <= j < all.len() && i != j implies (
    #[trigger] all[i]).id != (#[trigger] all[j]).id by {
        if i < j {
            assert(all[i].id != all[j].id);
        } else {
            assert(all[j].id != all[i].id);
        }
    }
    if m < segs.len() {
        assert(all[m] == segs[m]);
        assert forall|i: int| 0 <= i < segs.len() && i != m implies (#[trigger] segs[i]).id
            != segs[m].id by {
            assert(all[i] == segs[i]);
            assert(all[i].id != all[m].id);
        }
        lemma_last_found(segs, m);
        if t.active is Some {
            assert(all[segs.len() as int].id != all[m].id);
        }
    }
}

proof fn lemma_scan_is_live(
    t: TableView,
    fs: Seq<FilterView>,
    op: LogicalOp,
    p: (u64, u32),
)
    requires
        sound(t),
        has_row(scanned(t, all_segments(t), fs, op), p),
    ensures
        !is_deleted(t, p),
{
    let segs = all_segments(t);
    law_scan(t, segs, fs, op, p);
    let m = choose|m: int|
        0 <= m < segs.len() && (#[trigger] segs[m]).id == p.0 && segment_rows(
            t,
            segs[m],
            fs,
            op,
        ).contains(p.1);
    lemma_holder_of(t, m);
}

proof fn lemma_list_is_live(
    t: TableView,
    field: Seq<char>,
    values: Seq<Seq<char>>,
    max: int,
    p: (u64, u32),
)
    requires
        sound(t),
        list_lookup(t, field, values, None, max).0 matches Lookup::Found(h) && has_row(h, p),
    ensures
        !is_deleted(t, p),
{
    law_list_lookup(t, field, values, None, max, p);
    let k = choose|k: int|
        0 <= k < values.len() && (value_lookup(t, field, #[trigger] values[k]) matches Lookup::Found(
            g,
        ) && has_row(g, p));
    law_value_lookup(t, field, values[k], p);
}

proof fn lemma_sound_but_cache(t: TableView, n: TableView)
    requires
        sound(t),
        same_but_cache(n, t),
    ensures
        sound(n),
        forall|p: (u64, u32)| #[trigger] is_deleted(n, p) == is_deleted(t, p),
{
    crate::soundness::law_search_keeps_sound(t, n);
    assert forall|p: (u64, u32)| #[trigger] is_deleted(n, p) == is_deleted(t, p) by {
        assert(n.holder(p.0) == t.holder(p.0));
    }
}

proof fn lemma_list_same(
    t: TableView,
    field: Seq<char>,
    values: Seq<Seq<char>>,
    found: Option<Seq<(u64, Set<u32>)>>,
    max: int,
)
    ensures
        same_but_cache(list_lookup(t, field, values, found, max).1, t),
    decreases values.len(),
{
    if values.len() > 0 {
        let next = after_use(t, field, max);
        lemma_used_after_use(t, field, max);
        match value_lookup(t, field, values[0]) {
            Lookup::Failed => {},
            Lookup::Missing => {
                lemma_list_same(next, field, values.skip(1), found, max);
            },
            Lookup::Found(h) => {
                let more = Some(
                    joined(
                        match found {
                            Some(f) => f,
                            None => Seq::empty(),
                        },
                        h,
                    ),
                );
                lemma_list_same(next, field, values.skip(1), more, max);
            },
        }
    }
}

proof fn lemma_exact_is_live(
    t: TableView,
    fs: Seq<FilterView>,
    found: Option<Seq<(u64, Set<u32>)>>,
    max: int,
    p: (u64, u32),
)
    requires
        sound(t),
        exact_lookup(t, fs, found, max).0 matches Lookup::Found(h) && has_row(h, p),
        found matches Some(f) ==> (has_row(f, p) ==> !is_deleted(t, p)),
    ensures
        !is_deleted(t, p),
    decreases fs.len(),
{
    if fs.len() > 0 {
        let f = fs[0];
        if !by_index(f) {
            lemma_exact_is_live(t, fs.skip(1), found, max, p);
        } else {
            let (one, next) = filter_lookup(t, f, max);
            if f.op == ComparisonOp::In {
                lemma_list_same(t, f.field, listed(f.value.text, f.value_options), None, max);
            } else {
                lemma_used_after_use(t, f.field, max);
            }
            lemma_sound_but_cache(t, next);
            if let Lookup::Found(h) = one {
                let both = match found {
                    Some(g) => intersected(g, h),
                    None => h,
                };
                if let Some(g) = found {
                    law_common_rows(g, h, p);
                }
                if has_row(h, p) {
                    if f.op == ComparisonOp::In {
                        lemma_list_is_live(
                            t,
                            f.field,
                            listed(f.value.text, f.value_options),
                            max,
                            p,
                        );
                    } else {
                        law_value_lookup(t, f.field, f.value.text, p);
                    }
                }
                if both.len() > 0 {
                    lemma_exact_is_live(next, fs.skip(1), Some(both), max, p);
                }
            }
        }
    }
}

/// No search finds a row that is deleted, whichever way it goes about it.
pub proof fn law_found_rows_are_live(
    t: TableView,
    fs: Seq<FilterView>,
    op: LogicalOp,
    max: int,
    p: (u64, u32),
)
    requires
        sound(t),
        found_rows(t, fs, op, max).0 matches Lookup::Found(h) && has_row(h, p),
    ensures
        !is_deleted(t, p),
{
    let key = key_field(t.manifest);
    let h = found_rows(t, fs, op, max).0->Found_0;
    if has_row(scanned(t, all_segments(t), fs, op), p) {
        lemma_scan_is_live(t, fs, op, p);
    } else {
        match filter_on(fs, key, ComparisonOp::Eq) {
            Some(f) => {
                let place = t.places[f.value.text];
                let one = seq![(place.0, Set::<u32>::empty().insert(place.1))];
                if h.len() > 0 {
                    let i = choose|i: int|
                        0 <= i < h.len() && (#[trigger] h[i]).0 == p.0 && h[i].1.contains(p.1);
                    assert(p == place);
                    let all = closed_segments(t);
                    assert(is_live(all, place));
                    let m = choose|m: int|
                        0 <= m < all.len() && (#[trigger] all[m]).id == p.0 && p.1
                            < all[m].record_count && !all[m].deleted.contains(p.1);
                    lemma_holder_of(t, m);
                    assert(all_segments(t)[m].deleted == all[m].deleted);
                    assert(all_segments(t)[m].id == all[m].id);
                }
            },
            None => match filter_on(fs, key, ComparisonOp::In) {
                Some(f) => {
                    lemma_list_is_live(t, f.field, listed(f.value.text, f.value_options), max, p);
                },
                None => {
                    let rest = left_filters(fs, key);
                    let one = exact_lookup(t, fs, None, max).0;
                    if let Lookup::Found(g) = one {
                        if rest.len() > 0 {
                            law_common_rows(
                                g,
                                scanned(t, all_segments(t), rest, LogicalOp::And),
                                p,
                            );
                        }
                        lemma_exact_is_live(t, fs, None, max, p);
                    }
                },
            },
        }
    }
}

proof fn lemma_filter_on(fs: Seq<FilterView>, field: Seq<char>, op: ComparisonOp, k: int)
    ensures
        (forall|i: int| 0 <= i < fs.len() ==> !((#[trigger] fs[i]).field == field && fs[i].op == op))
            ==> filter_on(fs, field, op) is None,
        0 <= k < fs.len() && fs[k].field == field && fs[k].op == op && (forall|i: int|
            0 <= i < k ==> !((#[trigger] fs[i]).field == field && fs[i].op == op)) ==> filter_on(
            fs,
            field,
            op,
        ) == Some(fs[k]),
    decreases fs.len(),
{
    if fs.len() > 0 && !(fs[0].field == field && fs[0].op == op) {
        let rest = fs.skip(1);
        assert forall|i: int| 0 <= i < rest.len() implies #[trigger] rest[i] == fs[i + 1] by {}
        lemma_filter_on(rest, field, op, k - 1);
    }
}

/// A search for one key, alone or joined by `And` with other filters, finds the row of that
/// key and no other, and only where the row's cells meet all filters that have a field and
/// a value. The first filter for one key counts.
pub proof fn law_key_search(
    t: TableView,
    fs: Seq<FilterView>,
    op: LogicalOp,
    max: int,
    k: int,
    p: (u64, u32),
)
    requires
        0 <= k < fs.len(),
        fs[k].field == key_field(t.manifest),
        fs[k].op == ComparisonOp::Eq,
        forall|i: int|
            0 <= i < k ==> !((#[trigger] fs[i]).field == key_field(t.manifest) && fs[i].op
                == ComparisonOp::Eq),
        op == LogicalOp::And,
    ensures
        found_rows(t, fs, op, max).0 is Found,
        found_rows(t, fs, op, max).1 == t,
        has_row(found_rows(t, fs, op, max).0->Found_0, p) <==> t.places.contains_key(
            fs[k].value.text,
        ) && t.places[fs[k].value.text] == p && forall|i: int|
            0 <= i < fs.len() && (#[trigger] fs[i]).complete() ==> fs[i].holds(
                t.reading(t.cell(p, fs[i].field)),
            ),
{
    lemma_filter_on(fs, key_field(t.manifest), ComparisonOp::Eq, k);
    let h = found_rows(t, fs, op, max).0->Found_0;
    let place = t.places[fs[k].value.text];
    if h.len() > 0 {
        assert(h[0].0 == place.0 && h[0].1.contains(place.1));
        if has_row(h, p) {
            let i = choose|i: int|
                0 <= i < h.len() && (#[trigger] h[i]).0 == p.0 && h[i].1.contains(p.1);
            assert(p == place);
        }
    }
    if t.places.contains_key(fs[k].value.text) {
        assert(candidate_meets(t, place, fs, op) <==> forall|i: int|
            0 <= i < fs.len() && (#[trigger] fs[i]).complete() ==> fs[i].holds(
                t.reading(t.cell(place, fs[i].field)),
            ));
    }
}

/// A search without a filter for one value or for a list of values, and a search with
/// several filters joined by `Or`, goes through all segments and finds what each of them
/// finds.
pub proof fn law_search_by_scan(
    t: TableView,
    fs: Seq<FilterView>,
    op: LogicalOp,
    max: int,
    p: (u64, u32),
)
    requires
        op == LogicalOp::Or && fs.len() != 1 || forall|i: int|
            0 <= i < fs.len() ==> (#[trigger] fs[i]).op != ComparisonOp::Eq && fs[i].op
                != ComparisonOp::In,
    ensures
        found_rows(t, fs, op, max).0 is Found,
        found_rows(t, fs, op, max).1 == t,
        has_row(found_rows(t, fs, op, max).0->Found_0, p) <==> exists|m: int|
            0 <= m < all_segments(t).len() && (#[trigger] all_segments(t)[m]).id == p.0
                && segment_rows(t, all_segments(t)[m], fs, op).contains(p.1),
{
    let key = key_field(t.manifest);
    law_scan(t, all_segments(t), fs, op, p);
    if op == LogicalOp::And {
        lemma_filter_on(fs, key, ComparisonOp::Eq, 0);
        lemma_filter_on(fs, key, ComparisonOp::In, 0);
        lemma_nothing_by_index(t, fs, max);
    } else if fs.len() == 1 {
        lemma_filter_on(fs, key, ComparisonOp::Eq, 0);
        lemma_filter_on(fs, key, ComparisonOp::In, 0);
    }
}

proof fn lemma_nothing_by_index(t: TableView, fs: Seq<FilterView>, max: int)
    requires
        forall|i: int| 0 <= i < fs.len() ==> !by_index(#[trigger] fs[i]),
    ensures
        exact_lookup(t, fs, None, max) == (Lookup::Missing, t),
    decreases fs.len(),
{
    if fs.len() > 0 {
        let rest = fs.skip(1);
        assert forall|i: int| 0 <= i < rest.len() implies !by_index(#[trigger] rest[i]) by {
            assert(rest[i] == fs[i + 1]);
        }
        lemma_nothing_by_index(t, rest, max);
    }
}

/// A search with filters joined by `And`, none of which asks for a key or for a list: where
/// the indexes know the values, every row that is found is given for each filter for one
/// value, and by the segments for the filters that are left; and a row that all of them
/// give is found, where no list has a segment twice.
pub proof fn law_search_by_index(
    t: TableView,
    fs: Seq<FilterView>,
    max: int,
    p: (u64, u32),
)
    requires
        sound(t),
        cache_in_step(t),
        forall|i: int|
            0 <= i < fs.len() ==> (#[trigger] fs[i]).op != ComparisonOp::In && !(fs[i].op
                == ComparisonOp::Eq && fs[i].field == key_field(t.manifest)),
        exists|i: int| 0 <= i < fs.len() && by_index(#[trigger] fs[i]),
        forall|i: int|
            0 <= i < fs.len() && by_index(#[trigger] fs[i]) ==> (value_lookup(
                t,
                fs[i].field,
                fs[i].value.text,
            ) matches Lookup::Found(g) && segments_once(g)),
    ensures
        ({
            let found = found_rows(t, fs, LogicalOp::And, max).0;
            let rest = fs.filter(|f: FilterView| f.op != ComparisonOp::Eq);
            &&& found is Found
            &&& has_row(found->Found_0, p) <==> (forall|i: int|
                0 <= i < fs.len() && by_index(#[trigger] fs[i]) ==> has_row(
                    value_lookup(t, fs[i].field, fs[i].value.text)->Found_0,
                    p,
                )) && (rest.len() == 0 || has_row(
                scanned(t, all_segments(t), rest, LogicalOp::And),
                p,
            ))
        }),
{
    let key = key_field(t.manifest);
    let rest = fs.filter(|f: FilterView| f.op != ComparisonOp::Eq);
    lemma_filter_on(fs, key, ComparisonOp::Eq, 0);
    lemma_filter_on(fs, key, ComparisonOp::In, 0);
    lemma_same_filter(fs, key);
    assert(left_filters(fs, key) == rest);
    lemma_exact_found(t, fs, None, max);
    let h = exact_lookup(t, fs, None, max).0->Found_0;
    let others = scanned(t, all_segments(t), rest, LogicalOp::And);
    law_common_rows(h, others, p);
    assert(all_segments(t).take(all_segments(t).len() as int) =~= all_segments(t));
    lemma_scan_once(t, all_segments(t), rest, LogicalOp::And);
    if has_row(h, p) {
        assert forall|i: int| 0 <= i < fs.len() && by_index(#[trigger] fs[i]) implies has_row(
            value_lookup(t, fs[i].field, fs[i].value.text)->Found_0,
            p,
        ) by {
            law_exact_lookup(t, fs, None, max, p, i);
        }
    }
    if forall|i: int|
        0 <= i < fs.len() && by_index(#[trigger] fs[i]) ==> has_row(
            value_lookup(t, fs[i].field, fs[i].value.text)->Found_0,
            p,
        ) {
        law_exact_lookup_is_complete(t, fs, None, max, p);
    }
}

proof fn lemma_same_filter(fs: Seq<FilterView>, key: Seq<char>)
    requires
        forall|i: int|
            0 <= i < fs.len() ==> (#[trigger] fs[i]).op != ComparisonOp::In && !(fs[i].op
                == ComparisonOp::Eq && fs[i].field == key),
    ensures
        left_filters(fs, key) == fs.filter(|f: FilterView| f.op != ComparisonOp::Eq),
    decreases fs.len(),
{
    reveal(Seq::filter);
    if fs.len() > 0 {
        let front = fs.drop_last();
        assert forall|i: int| 0 <= i < front.len() implies (#[trigger] front[i]).op
            != ComparisonOp::In && !(front[i].op == ComparisonOp::Eq && front[i].field == key) by {
            assert(fs[i] == front[i]);
        }
        lemma_same_filter(front, key);
        assert(fs[fs.len() - 1] == fs.last());
    }
}

proof fn lemma_exact_found(
    t: TableView,
    fs: Seq<FilterView>,
    found: Option<Seq<(u64, Set<u32>)>>,
    max: int,
)
    requires
        cache_in_step(t),
        forall|i: int| 0 <= i < fs.len() ==> (#[trigger] fs[i]).op != ComparisonOp::In,
        forall|i: int|
            0 <= i < fs.len() && by_index(#[trigger] fs[i]) ==> value_lookup(
                t,
                fs[i].field,
                fs[i].value.text,
            ) is Found,
        found is Some || exists|i: int| 0 <= i < fs.len() && by_index(#[trigger] fs[i]),
    ensures
        exact_lookup(t, fs, found, max).0 is Found,
    decreases fs.len(),
{
    if fs.len() > 0 {
        let f = fs[0];
        let rest = fs.skip(1);
        assert forall|i: int| 0 <= i < rest.len() implies #[trigger] rest[i] == fs[i + 1] by {}
        if !by_index(f) {
            if found is None {
                let i = choose|i: int| 0 <= i < fs.len() && by_index(#[trigger] fs[i]);
                assert(rest[i - 1] == fs[i]);
            }
            lemma_exact_found(t, rest, found, max);
        } else {
            let (one, next) = filter_lookup(t, f, max);
            let h = one->Found_0;
            let both = match found {
                Some(g) => intersected(g, h),
                None => h,
            };
            lemma_uncached(t, f.field, max);
            assert forall|i: int| 0 <= i < rest.len() && by_index(
                #[trigger] rest[i],
            ) implies value_lookup(next, rest[i].field, rest[i].value.text) is Found by {
                lemma_value_alike(t, next, rest[i].field, rest[i].value.text);
                assert(by_index(fs[i + 1]));
            }
            if both.len() > 0 {
                lemma_exact_found(next, rest, Some(both), max);
            }
        }
    }
}

proof fn lemma_scan_once(
    t: TableView,
    segs: Seq<SegmentView>,
    fs: Seq<FilterView>,
    op: LogicalOp,
)
    requires
        sound(t),
        segs.len() <= all_segments(t).len(),
        segs == all_segments(t).take(segs.len() as int),
    ensures
        segments_once(scanned(t, segs, fs, op)),
        forall|i: int|
            0 <= i < scanned(t, segs, fs, op).len() ==> exists|m: int|
                0 <= m < segs.len() && (#[trigger] segs[m]).id == (#[trigger] scanned(
                    t,
                    segs,
                    fs,
                    op,
                )[i]).0,
    decreases segs.len(),
{
    let all = all_segments(t);
    let closed = closed_segments(t);
    if segs.len() > 0 {
        let front = segs.drop_last();
        assert(front =~= all.take(front.len() as int));
        lemma_scan_once(t, front, fs, op);
        let before = scanned(t, front, fs, op);
        let now = scanned(t, segs, fs, op);
        let last = segs.len() - 1;
        assert forall|i: int| 0 <= i < before.len() implies (#[trigger] before[i]).0
            != segs[last].id by {
            let m = choose|m: int| 0 <= m < front.len() && (#[trigger] front[m]).id == before[i].0;
            assert(front[m] == all[m]);
            assert(closed[m].id != closed[last].id);
            assert(closed[m].id == all[m].id && closed[last].id == all[last].id);
        }
        assert forall|i: int| 0 <= i < now.len() implies exists|m: int|
            0 <= m < segs.len() && (#[trigger] segs[m]).id == (#[trigger] now[i]).0 by {
            if i < before.len() {
                let m = choose|m: int|
                    0 <= m < front.len() && (#[trigger] front[m]).id == before[i].0;
                assert(segs[m] == front[m]);
            } else {
                assert(segs[last].id == now[i].0);
            }
        }
        assert forall|i: int, j: int|
            #![trigger now[i], now[j]]
            0 <= i < j < now.len() implies now[i].0 != now[j].0 by {
            assert(now[i] == before[i]);
            if j < before.len() {
                assert(before[i].0 != before[j].0);
            }
        }
    }
}

proof fn lemma_all_missing(t: TableView, field: Seq<char>, values: Seq<Seq<char>>, max: int)
    requires
        forall|k: int|
            0 <= k < values.len() ==> value_lookup(t, field, #[trigger] values[k]) is Missing,
    ensures
        list_lookup(t, field, values, None, max).0 is Missing,
    decreases values.len(),
{
    if values.len() > 0 {
        let next = after_use(t, field, max);
        let rest = values.skip(1);
        lemma_used_after_use(t, field, max);
        assert(value_lookup(t, field, values[0]) is Missing);
        assert forall|k: int| 0 <= k < rest.len() implies value_lookup(
            next,
            field,
            #[trigger] rest[k],
        ) is Missing by {
            lemma_value_alike(t, next, field, rest[k]);
            assert(rest[k] == values[k + 1]);
        }
        lemma_all_missing(next, field, rest, max);
    }
}

/// A search for a list of keys, alone or joined by `And` with other filters but one for one
/// key, finds the rows that are given for one of the keys; where none of them is known, the
/// segments are gone through with all filters.
pub proof fn law_keys_search(
    t: TableView,
    fs: Seq<FilterView>,
    op: LogicalOp,
    max: int,
    k: int,
    p: (u64, u32),
)
    requires
        0 <= k < fs.len(),
        fs[k].field == key_field(t.manifest),
        fs[k].op == ComparisonOp::In,
        forall|i: int|
            0 <= i < k ==> !((#[trigger] fs[i]).field == key_field(t.manifest) && fs[i].op
                == ComparisonOp::In),
        forall|i: int|
            0 <= i < fs.len() ==> !((#[trigger] fs[i]).field == key_field(t.manifest) && fs[i].op
                == ComparisonOp::Eq),
        op == LogicalOp::And || fs.len() == 1,
    ensures
        ({
            let values = listed(fs[k].value.text, fs[k].value_options);
            let found = found_rows(t, fs, op, max).0;
            &&& (forall|j: int|
                0 <= j < values.len() ==> value_lookup(
                    t,
                    fs[k].field,
                    #[trigger] values[j],
                ) is Missing) ==> found is Found && (has_row(found->Found_0, p) <==> exists|m: int|
                0 <= m < all_segments(t).len() && (#[trigger] all_segments(t)[m]).id == p.0
                    && segment_rows(t, all_segments(t)[m], fs, op).contains(p.1))
            &&& found matches Lookup::Found(h) ==> ((exists|j: int|
                0 <= j < values.len() && !(value_lookup(
                    t,
                    fs[k].field,
                    #[trigger] values[j],
                ) is Missing)) ==> (has_row(h, p) <==> exists|j: int|
                0 <= j < values.len() && (value_lookup(
                    t,
                    fs[k].field,
                    #[trigger] values[j],
                ) matches Lookup::Found(g) && has_row(g, p))))
        }),
{
    let key = key_field(t.manifest);
    let values = listed(fs[k].value.text, fs[k].value_options);
    lemma_filter_on(fs, key, ComparisonOp::Eq, 0);
    lemma_filter_on(fs, key, ComparisonOp::In, k);
    law_scan(t, all_segments(t), fs, op, p);
    law_list_lookup(t, fs[k].field, values, None, max, p);
    if forall|j: int|
        0 <= j < values.len() ==> value_lookup(t, fs[k].field, #[trigger] values[j]) is Missing {
        lemma_all_missing(t, fs[k].field, values, max);
    }
}

/// A search whose only filter asks for one value of another field than the key goes through
/// the segments where it is joined by `Or`, and one for a key finds its row.
pub proof fn law_single_filter(t: TableView, f: FilterView, max: int, p: (u64, u32))
    ensures
        ({
            let fs = seq![f];
            let found = found_rows(t, fs, LogicalOp::Or, max).0;
            &&& f.field != key_field(t.manifest) ==> found is Found && (has_row(
                found->Found_0,
                p,
            ) <==> exists|m: int|
                0 <= m < all_segments(t).len() && (#[trigger] all_segments(t)[m]).id == p.0
                    && segment_rows(t, all_segments(t)[m], fs, LogicalOp::Or).contains(p.1))
            &&& f.field == key_field(t.manifest) && f.op == ComparisonOp::Eq ==> found is Found && (
            has_row(found->Found_0, p) <==> t.places.contains_key(f.value.text)
                && t.places[f.value.text] == p && (f.complete() ==> f.holds(
                t.reading(t.cell(p, f.field)),
            )))
        }),
{
    let fs = seq![f];
    let key = key_field(t.manifest);
    law_scan(t, all_segments(t), fs, LogicalOp::Or, p);
    lemma_filter_on(fs, key, ComparisonOp::Eq, 0);
    lemma_filter_on(fs, key, ComparisonOp::In, 0);
    assert(fs[0] == f);
    if f.field == key && f.op == ComparisonOp::Eq {
        let place = t.places[f.value.text];
        let h = found_rows(t, fs, LogicalOp::Or, max).0->Found_0;
        if t.places.contains_key(f.value.text) {
            assert(candidate_meets(t, place, fs, LogicalOp::Or) <==> (f.complete() ==> f.holds(
                t.reading(t.cell(place, f.field)),
            ))) by {
                if f.complete() {
                    assert(fs[0].complete());
                }
            }
        }
        if h.len() > 0 {
            assert(h[0].0 == place.0 && h[0].1.contains(place.1));
            if has_row(h, p) {
                let i = choose|i: int|
                    0 <= i < h.len() && (#[trigger] h[i]).0 == p.0 && h[i].1.contains(p.1);
                assert(p == place);
            }
        }
    }
}

/// Where filters joined by `And` ask for a value that the indexes do not know, and none asks
/// for a key, the segments are gone through with all filters.
pub proof fn law_unknown_value(t: TableView, fs: Seq<FilterView>, max: int, p: (u64, u32))
    requires
        forall|i: int|
            0 <= i < fs.len() ==> (#[trigger] fs[i]).field != key_field(t.manifest),
        exact_lookup(t, fs, None, max).0 is Missing,
    ensures
        ({
            let found = found_rows(t, fs, LogicalOp::And, max).0;
            &&& found is Found
            &&& has_row(found->Found_0, p) <==> exists|m: int|
                0 <= m < all_segments(t).len() && (#[trigger] all_segments(t)[m]).id == p.0
                    && segment_rows(t, all_segments(t)[m], fs, LogicalOp::And).contains(p.1)
        }),
{
    let key = key_field(t.manifest);
    law_scan(t, all_segments(t), fs, LogicalOp::And, p);
    lemma_filter_on(fs, key, ComparisonOp::Eq, 0);
    lemma_filter_on(fs, key, ComparisonOp::In, 0);
}

/// A filter with a question mark for its field or for its value was left open and asks for
/// nothing: a segment is searched with the others, in their order.
pub proof fn law_open_filters(fs: Seq<FilterView>, f: FilterView)
    ensures
        complete_filters(Seq::empty()).len() == 0,
        f.field == "?"@ || f.value.text == "?"@ ==> complete_filters(fs.push(f))
            == complete_filters(fs),
        f.field != "?"@ && f.value.text != "?"@ ==> complete_filters(fs.push(f))
            == complete_filters(fs).push(f),
        f.complete() <==> f.field != "?"@ && f.value.text != "?"@,
        by_index(f) <==> (f.op == ComparisonOp::Eq || f.op == ComparisonOp::In) && f.field != "?"@
            && f.value.text != "?"@,
{
    assert(fs.push(f).drop_last() =~= fs);
}

proof fn lemma_first_by_index(t: TableView, fs: Seq<FilterView>, max: int, k: int)
    requires
        0 <= k < fs.len(),
        by_index(fs[k]),
        forall|i: int| 0 <= i < k ==> !by_index(#[trigger] fs[i]),
    ensures
        exact_lookup(t, fs, None, max) == exact_lookup(t, fs.skip(k), None, max),
    decreases k,
{
    if k > 0 {
        let rest = fs.skip(1);
        assert(!by_index(fs[0]));
        assert forall|i: int| 0 <= i < k - 1 implies !by_index(#[trigger] rest[i]) by {
            assert(rest[i] == fs[i + 1]);
        }
        assert(rest[k - 1] == fs[k]);
        lemma_first_by_index(t, rest, max, k - 1);
        assert(rest.skip(k - 1) =~= fs.skip(k));
    } else {
        assert(fs.skip(0) =~= fs);
    }
}

/// Of filters joined by `And`, none of which asks for a key, the first that an index can
/// answer decides: where the index does not know its value, or none of its values, the
/// segments are gone through with all filters, since they may know the value in another
/// form; and where the index cannot be read, the search fails.
pub proof fn law_first_value_decides(
    t: TableView,
    fs: Seq<FilterView>,
    max: int,
    k: int,
    p: (u64, u32),
)
    requires
        forall|i: int|
            0 <= i < fs.len() ==> (#[trigger] fs[i]).field != key_field(t.manifest),
        0 <= k < fs.len(),
        by_index(fs[k]),
        forall|i: int| 0 <= i < k ==> !by_index(#[trigger] fs[i]),
    ensures
        ({
            let f = fs[k];
            let values = listed(f.value.text, f.value_options);
            let found = found_rows(t, fs, LogicalOp::And, max).0;
            &&& (f.op == ComparisonOp::Eq && value_lookup(t, f.field, f.value.text) is Missing
                || f.op == ComparisonOp::In && forall|j: int|
                0 <= j < values.len() ==> value_lookup(
                    t,
                    f.field,
                    #[trigger] values[j],
                ) is Missing) ==> found is Found && (has_row(found->Found_0, p) <==> exists|m: int|
                0 <= m < all_segments(t).len() && (#[trigger] all_segments(t)[m]).id == p.0
                    && segment_rows(t, all_segments(t)[m], fs, LogicalOp::And).contains(p.1))
            &&& f.op == ComparisonOp::Eq && value_lookup(t, f.field, f.value.text) is Failed
                ==> found is Failed
        }),
{
    let f = fs[k];
    let values = listed(f.value.text, f.value_options);
    let key = key_field(t.manifest);
    lemma_first_by_index(t, fs, max, k);
    assert(fs.skip(k)[0] == f);
    lemma_filter_on(fs, key, ComparisonOp::Eq, 0);
    lemma_filter_on(fs, key, ComparisonOp::In, 0);
    if f.op == ComparisonOp::In && forall|j: int|
        0 <= j < values.len() ==> value_lookup(t, f.field, #[trigger] values[j]) is Missing {
        lemma_all_missing(t, f.field, values, max);
    }
    if exact_lookup(t, fs, None, max).0 is Missing {
        law_unknown_value(t, fs, max, p);
    }
}

} // verus!
