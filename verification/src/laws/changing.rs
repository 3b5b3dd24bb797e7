//! What changes of a table do, and what they leave as it is.

use crate::bytes::{u32_at, u64_at};
use crate::compaction::{column_field, file_field, without_suffix, worth_compacting};
use crate::field_index::{list_of, stored_index};
use crate::laws::searching::{has_row, law_segment_is_listed};
use crate::manifest::ManifestView;
use crate::segment::{
    columns_after, columns_hold, dir_name_spec, id_from_name, lists_row, row_view, same_columns,
    SegmentView,
};
use crate::table::{
    law_delete_forgets, law_insert_reads_back, lemma_first_in_range, reload_needed, replayed_all,
    row_cells, row_key, LoggedChange, TableView,
};
use crate::text::{
    all_digits, decimal_spec, decimal_value, digit, is_digit, pad4_spec, without_plus, zeros,
};
use crate::types::ScalarView;
use crate::upkeep::{base_index, flush_counted, is_flushed};
use crate::wal::{decoded_op, read_log, LogView, OpView};
use vstd::prelude::*;

verus! {

/// The key of a row is the text of its key field, which is `PK` where none is set; a row
/// without that field gets the key that was made for it.
pub proof fn law_key_of_row(
    m: ManifestView,
    row: Map<Seq<char>, ScalarView>,
    fresh: Seq<char>,
    field: Seq<char>,
)
    requires
        field == m.primary_key && field.len() > 0 || field == "PK"@ && m.primary_key.len() == 0,
    ensures
        row.contains_key(field) ==> row_key(m, row, fresh) == row[field].text,
        !row.contains_key(field) ==> row_key(m, row, fresh) == fresh,
{
}

/// Inserting a row leaves the places of all other keys as they are, and what is read in
/// other segments; the row is put behind all rows of the segment that is written to.
pub proof fn law_insert_leaves_others(
    t: TableView,
    id: Seq<char>,
    row: Map<Seq<char>, ScalarView>,
    other: Seq<char>,
    place: (u64, u32),
    field: Seq<char>,
)
    requires
        t.active is Some,
        t.room() > 0,
        other != id,
    ensures
        ({
            let n = t.inserted(id, row);
            &&& n.places.contains_key(other) <==> t.places.contains_key(other)
            &&& t.places.contains_key(other) ==> n.places[other] == t.places[other]
            &&& n.places[id] == (t.active->0.segment.id, t.active->0.segment.record_count as u32)
            &&& place.0 != t.active->0.segment.id ==> n.cell(place, field) == t.cell(place, field)
            &&& n.active is Some && n.active->0.segment.record_count
                == t.active->0.segment.record_count + 1
            &&& n.active->0.segment.deleted == t.active->0.segment.deleted
            &&& n.segments == t.segments && n.manifest == t.manifest
        }),
{
}

/// After a row was changed, its key gives the new cells; the old key is gone where the row
/// got another one; every other key has its place.
pub proof fn law_update_reads_back(
    t: TableView,
    id: Seq<char>,
    data: Seq<u8>,
    row: Map<Seq<char>, ScalarView>,
    learned: Seq<ScalarView>,
    cells: Map<Seq<char>, Seq<Seq<char>>>,
    other: Seq<char>,
)
    requires
        t.active is Some,
        t.room() > 0,
        columns_hold(
            t.active->0.segment.columns,
            cells,
            t.active->0.segment.record_count as int,
        ),
        same_columns(cells, t.active->0.segment.record_count as int, row),
        forall|c: Seq<char>| #[trigger]
            row.contains_key(c) ==> columns_after(t.active->0.segment.columns, row)[c].data.len()
                <= u64::MAX,
    ensures
        ({
            let n = t.replayed(OpView::Update(id, data), row, learned);
            let key = row_key(t.manifest, row, id);
            &&& n.places.contains_key(key)
            &&& forall|c: Seq<char>| #[trigger]
                row.contains_key(c) ==> n.cell(n.places[key], c) == row[c].text
            &&& key != id ==> !n.places.contains_key(id)
            &&& other != id && other != key ==> (n.places.contains_key(other)
                <==> t.places.contains_key(other)) && (t.places.contains_key(other)
                ==> n.places[other] == t.places[other])
        }),
{
    let key = row_key(t.manifest, row, id);
    let d = t.deleted(id);
    law_delete_forgets(t, id, (0, 0), key);
    if t.places.contains_key(id) {
        lemma_first_in_range(t.segments, t.places[id].0);
    }
    law_insert_reads_back(d, key, row, cells);
    let n = t.replayed(OpView::Update(id, data), row, learned);
    let i = d.inserted(key, row);
    assert forall|c: Seq<char>| #[trigger] row.contains_key(c) implies n.cell(n.places[key], c)
        == row[c].text by {
        assert(n.cell(n.places[key], c) == i.cell(i.places[key], c));
    }
}

/// Changes are made again one after the other, in the order in which they were logged.
pub proof fn law_changes_in_order(t: TableView, a: Seq<LoggedChange>, b: Seq<LoggedChange>)
    ensures
        replayed_all(t, a + b) == replayed_all(replayed_all(t, a), b),
        a.len() == 1 ==> replayed_all(t, a) == t.replayed(
            a[0].op@,
            row_view(a[0].row@),
            row_cells(a[0].row),
        ),
        replayed_all(t, Seq::empty()) == t,
    decreases b.len(),
{
    if a.len() == 1 {
        assert(a.drop_last() =~= Seq::empty());
    }
    if b.len() == 0 {
        assert(a + b =~= a);
    } else {
        law_changes_in_order(t, a, b.drop_last());
        assert((a + b).drop_last() =~= a + b.drop_last());
        assert((a + b).last() == b.last());
    }
}

/// A table is read again from disk where the disk has a later state, never where it has an
/// earlier one, and of the same state only where the table has no segments and the disk
/// has some.
pub proof fn law_reload(t: TableView, on_disk: ManifestView)
    ensures
        on_disk.last_sequence_number > t.manifest.last_sequence_number ==> reload_needed(t, on_disk),
        on_disk.last_sequence_number < t.manifest.last_sequence_number ==> !reload_needed(
            t,
            on_disk,
        ),
        on_disk.last_sequence_number == t.manifest.last_sequence_number && t.segments.len() > 0
            ==> !reload_needed(t, on_disk),
        on_disk.last_sequence_number == t.manifest.last_sequence_number && t.segments.len() == 0
            ==> (reload_needed(t, on_disk) <==> on_disk.segments.len() > 0),
{
}

/// Closing the active segment: it becomes the last of the others, the catalogue has one
/// more entry that tells its number, its rows, its deleted rows and its folder; the next
/// segment has the next number and the state the next number too; the fields and the key
/// stay as they are.
pub proof fn law_flush_is_recorded(
    old: TableView,
    new: TableView,
    created_at: i64,
    interval: u32,
    found: Option<SegmentView>,
)
    requires
        is_flushed(old, new, created_at, interval, found),
        old.active is Some,
        old.manifest.active_segment_id < u64::MAX,
        old.manifest.last_sequence_number < u64::MAX,
        old.active->0.segment.deleted.len() <= u64::MAX,
    ensures
        ({
            let s = old.active->0.segment;
            let e = new.manifest.segments.last();
            &&& new.manifest.segments.len() == old.manifest.segments.len() + 1
            &&& new.manifest.segments.drop_last() == old.manifest.segments
            &&& e.id == s.id && e.record_count == s.record_count && e.deleted_count
                == s.deleted.len() && e.created_at == created_at && e.min_max == s.min_max
            &&& id_from_name(e.path) == s.id
            &&& new.manifest.active_segment_id == old.manifest.active_segment_id + 1
            &&& new.manifest.last_sequence_number == old.manifest.last_sequence_number + 1
            &&& new.manifest.original_fields == old.manifest.original_fields
            &&& new.manifest.primary_key == old.manifest.primary_key
            &&& new.segments.len() == old.segments.len() + 1
            &&& new.segments.drop_last() == old.segments
            &&& new.segments.last().id == s.id && new.segments.last().columns == s.columns
                && new.segments.last().deleted == s.deleted && new.segments.last().record_count
                == s.record_count
            &&& new.active is Some && new.active->0.segment.id == new.manifest.active_segment_id
            &&& found is None ==> new.active->0.segment.record_count == 0
        }),
{
    assert(new.manifest.segments.drop_last() =~= old.manifest.segments);
    assert(new.segments.drop_last() =~= old.segments);
    law_folder_names(old.active->0.segment.id);
}

/// Closing the active segment puts its rows into the saved index of each of its fields: a
/// row is listed under a value where it was listed before, or where it is one of the
/// segment's rows that holds the value.
pub proof fn law_flush_saves_index(
    old: TableView,
    new: TableView,
    created_at: i64,
    interval: u32,
    found: Option<SegmentView>,
    field: Seq<char>,
    value: Seq<char>,
    p: (u64, u32),
)
    requires
        is_flushed(old, new, created_at, interval, found),
        old.active is Some,
        old.active->0.indexes.contains_key(field),
    ensures
        new.saved.contains_key(field),
        stored_index(new.saved[field]) is Some,
        has_row(list_of(stored_index(new.saved[field])->0, value), p) <==> has_row(
            list_of(base_index(old, field)->0, value),
            p,
        ) || p.0 == old.active->0.segment.id && lists_row(
            old.active->0.indexes[field],
            value,
            p.1,
        ),
{
    let w = old.active->0;
    law_segment_is_listed(
        base_index(old, field)->0,
        w.segment.id,
        w.indexes[field],
        Set::empty(),
        value,
        p,
    );
}

/// The places are saved with every so many flushes: the count goes up by one with each,
/// and where it reaches the interval they are due and it begins again.
pub proof fn law_saving_is_due(count: u32, interval: u32)
    ensures
        flush_counted(count, interval).0 <==> count + 1 >= interval,
        flush_counted(count, interval).0 ==> flush_counted(count, interval).1 == 0,
        !flush_counted(count, interval).0 ==> flush_counted(count, interval).1 == count + 1,
{
}

proof fn lemma_leading_zeros(n: nat, s: Seq<char>)
    requires
        all_digits(s),
    ensures
        decimal_value(zeros(n) + s) == decimal_value(s),
        all_digits(zeros(n) + s),
    decreases s.len(), n,
{
    let t = zeros(n) + s;
    assert forall|i: int| 0 <= i < t.len() implies is_digit(#[trigger] t[i]) by {
        if i >= n {
            assert(t[i] == s[i - n]);
        }
    }
    if s.len() == 0 {
        if n > 0 {
            let m = (n - 1) as nat;
            lemma_leading_zeros(m, s);
            assert(t.drop_last() =~= zeros(m) + s);
            assert(t.last() == '0');
        } else {
            assert(t =~= s);
        }
    } else {
        assert(t.drop_last() =~= zeros(n) + s.drop_last());
        assert(t.last() == s.last());
        assert forall|i: int| 0 <= i < s.drop_last().len() implies is_digit(
            #[trigger] s.drop_last()[i],
        ) by {
            assert(s.drop_last()[i] == s[i]);
        }
        lemma_leading_zeros(n, s.drop_last());
    }
}

proof fn lemma_decimal_digits(n: nat)
    ensures
        all_digits(decimal_spec(n)),
        decimal_spec(n).len() > 0,
        decimal_value(decimal_spec(n)) == n,
    decreases n,
{
    if n >= 10 {
        lemma_decimal_digits(n / 10);
        let s = decimal_spec(n);
        let d = decimal_spec(n / 10);
        assert(s.drop_last() =~= d);
        assert forall|i: int| 0 <= i < s.len() implies is_digit(#[trigger] s[i]) by {
            if i < d.len() {
                assert(s[i] == d[i]);
            }
        }
    } else {
        let s = decimal_spec(n);
        assert(s.drop_last() =~= Seq::empty());
        assert(decimal_value(Seq::<char>::empty()) == 0);
        assert(s.last() == digit(n as int));
    }
}

/// The name of a segment's folder tells its number, and is `seg_` and four digits at
/// least; so no two segments have one folder.
pub proof fn law_folder_names(id: u64)
    ensures
        id_from_name(dir_name_spec(id)) == id,
        dir_name_spec(id).len() >= 8,
        "seg_"@.is_prefix_of(dir_name_spec(id)),
{
    reveal_strlit("seg_");
    let s = decimal_spec(id as nat);
    let name = dir_name_spec(id);
    let rest = pad4_spec(s);
    lemma_decimal_digits(id as nat);
    if s.len() < 4 {
        lemma_leading_zeros((4 - s.len()) as nat, s);
    }
    assert(name.take(4) =~= "seg_"@);
    assert(name.skip(4) =~= rest);
    assert(all_digits(rest) && decimal_value(rest) == id);
    assert(is_digit(rest[0]));
    assert(without_plus(rest) == rest);
}

/// Segments are compacted where there are four at least, and more than twice as many as
/// are needed: so many that each has no more rows than the target, and one at least.
pub proof fn law_when_to_compact(count: int, rows: int, target: int, needed: int)
    requires
        target > 0,
        rows >= 0,
        needed >= 1,
        needed * target >= rows,
        needed == 1 || (needed - 1) * target < rows,
    ensures
        worth_compacting(count, rows, target) <==> count >= 4 && count > 2 * needed,
{
    if rows <= target {
        assert(needed == 1) by (nonlinear_arith)
            requires
                needed >= 1,
                needed == 1 || (needed - 1) * target < rows,
                rows <= target,
                target > 0,
                rows >= 0,
        {
            if needed >= 2 {
                assert((needed - 1) * target >= target);
            }
        }
    } else {
        let k = (rows + target - 1) / target;
        assert(needed == k) by (nonlinear_arith)
            requires
                k == (rows + target - 1) / target,
                target > 0,
                needed >= 1,
                needed * target >= rows,
                needed == 1 || (needed - 1) * target < rows,
                rows > target,
        ;
    }
}

/// The field of a column is found in the name of its file: what stands before `.dat`. A
/// name with another end, and the name of an index, tell no field.
pub proof fn law_field_of_file(field: Seq<char>)
    ensures
        !(".dat"@).is_suffix_of(field) && !("bitmaps_"@).is_prefix_of(field + ".dat"@)
            ==> column_field(field) == Some(field),
        !(".dat"@).is_suffix_of(field) ==> file_field(field) is None,
        ("bitmaps_"@).is_prefix_of(field) ==> file_field(field) is None,
{
    reveal_strlit(".dat");
    let name = field + ".dat"@;
    assert(name.subrange(name.len() - 4, name.len() as int) =~= ".dat"@);
    assert(name.take(name.len() - 4) =~= field);
    assert((".dat"@).is_suffix_of(name));
    if !(".dat"@).is_suffix_of(field) {
        assert(without_suffix(field, ".dat"@) == field);
        assert(without_suffix(name, ".dat"@) == without_suffix(field, ".dat"@));
    }
}

/// The first four bytes of a logged change tell what it is, the low byte first: 0 an
/// insertion, 1 a deletion, 2 a change; anything else is no change at all.
pub proof fn law_logged_kinds(payload: Seq<u8>)
    ensures
        decoded_op(payload) matches Some(op) ==> payload.len() >= 4 && match op {
            OpView::Insert(_, _) => u32_at(payload, 0) == 0,
            OpView::Delete(_) => u32_at(payload, 0) == 1,
            OpView::Update(_, _) => u32_at(payload, 0) == 2,
        },
{
}

/// A log is read frame by frame: one that ends inside a frame is told to be cut short, one
/// with a frame that holds no change is told to be unreadable, and fewer than eight bytes
/// at the end are passed over.
pub proof fn law_broken_logs(log: Seq<u8>, done: Seq<OpView>)
    ensures
        log.len() < 8 ==> read_log(log, done) == LogView::Ops(done),
        log.len() >= 8 && 8 + u64_at(log, 0) > log.len() ==> read_log(log, done)
            == LogView::CutShort,
        log.len() >= 8 && 8 + u64_at(log, 0) <= log.len() && decoded_op(
            log.subrange(8, 8 + u64_at(log, 0) as int),
        ) is None ==> read_log(log, done) == LogView::Undecodable,
        log.len() >= 8 && 8 + u64_at(log, 0) <= log.len() ==> (decoded_op(
            log.subrange(8, 8 + u64_at(log, 0) as int),
        ) matches Some(op) ==> read_log(log, done) == read_log(
            log.skip(8 + u64_at(log, 0) as int),
            done.push(op),
        )),
{
}

} // verus!
