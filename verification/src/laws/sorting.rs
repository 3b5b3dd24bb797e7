//! What it means that a page of rows is sorted.

use crate::column::{cell_bytes, law_read_back};
use crate::compaction::closed_segments;
use crate::hits::{found_ids, page};
use crate::query::{is_answer, is_page, AggregationRequest, AggregationResult, QueryResult};
use crate::segment::SegmentView;
use crate::sort_key::{arranged, key_before, key_holder, ordered_by, place_key};
use crate::sorting::{arrangement, lemma_arrangement_onto};
use crate::soundness::sound;
use crate::table::{first_segment, last_segment, lemma_first_in_range, row_lists, TableView};
use crate::text::{text_less, texts};
use crate::types::{condition_holds, not_a_number, ComparisonOp, FieldType, OrderBy, SortDirection};
use vstd::prelude::*;
use vstd::utf8::encode_utf8;

verus! {

/// Whether the segment of a place has a column of a field in which the row has a cell.
pub open spec fn has_cell(t: TableView, place: (u64, u32), field: Seq<char>) -> bool {
    t.holder(place.0) matches Some(s) && s.columns.contains_key(field) && exists|
        cells: Seq<Seq<char>>,
    | #[trigger] s.columns[field].holds(cells) && place.1 < cells.len()
}

/// Whether a table has no segment of a place, or the segment no column of a field.
pub open spec fn has_no_column(t: TableView, place: (u64, u32), field: Seq<char>) -> bool {
    t.holder(place.0) matches Some(s) ==> !s.columns.contains_key(field)
}

/// Whether a text is put in order as a number: it begins with a digit and reads as one.
pub open spec fn counts_as_number(t: TableView, text: Seq<char>) -> bool {
    &&& text.len() > 0 && '0' <= text[0] <= '9'
    &&& t.reading(text).number matches Some(bits) && !not_a_number(bits)
}

proof fn lemma_first_is_last(segs: Seq<SegmentView>, id: u64)
    requires
        forall|i: int, j: int|
            #![trigger segs[i], segs[j]]
            0 <= i < j < segs.len() ==> segs[i].id != segs[j].id,
    ensures
        first_segment(segs, id) == last_segment(segs, id),
    decreases segs.len(),
{
    if segs.len() > 0 {
        let front = segs.drop_last();
        assert forall|i: int, j: int|
            #![trigger front[i], front[j]]
            0 <= i < j < front.len() implies front[i].id != front[j].id by {
            assert(segs[i].id != segs[j].id);
        }
        lemma_first_is_last(front, id);
        lemma_first_in_range(front, id);
        if segs.last().id == id {
            if let Some(i) = first_segment(front, id) {
                assert(segs[i].id != segs[segs.len() - 1].id);
            }
        }
    }
}

pub(crate) proof fn lemma_key_holder(t: TableView, id: u64)
    requires
        sound(t),
    ensures
        key_holder(t, id) == t.holder(id),
{
    let all = closed_segments(t);
    let segs = t.segments;
    assert forall|i: int, j: int|
        #![trigger segs[i], segs[j]]
        0 <= i < j < segs.len() implies segs[i].id != segs[j].id by {
        assert(all[i] == segs[i] && all[j] == segs[j]);
        assert(all[i].id != all[j].id);
    }
    lemma_first_is_last(segs, id);
}

proof fn lemma_key_of_cell(t: TableView, place: (u64, u32), field: Seq<char>)
    requires
        sound(t),
        has_cell(t, place, field),
    ensures
        place_key(t, place, field) == crate::sort_key::text_key(t, t.cell(place, field)),
{
    lemma_key_holder(t, place.0);
    let s = t.holder(place.0)->0;
    let column = s.columns[field];
    let cells = choose|cells: Seq<Seq<char>>| #[trigger]
        column.holds(cells) && place.1 < cells.len();
    law_read_back(column, cells, place.1 as int);
    assert(cell_bytes(column.data, column.offsets, place.1 as int) == Some(
        encode_utf8(cells[place.1 as int]),
    ));
    vstd::utf8::encode_utf8_valid_utf8(cells[place.1 as int]);
    vstd::utf8::encode_utf8_decode_utf8(cells[place.1 as int]);
}

/// Whether the cells of two rows may come in this order, one before the other.
pub open spec fn cells_in_order(
    t: TableView,
    x: Seq<char>,
    y: Seq<char>,
    direction: SortDirection,
) -> bool {
    let (low, high) = match direction {
        SortDirection::Asc => (x, y),
        SortDirection::Desc => (y, x),
    };
    if counts_as_number(t, low) {
        counts_as_number(t, high) ==> !condition_holds(
            t.reading(low),
            ComparisonOp::Gt,
            t.reading(high),
            None,
            Seq::empty(),
            Some(FieldType::Float),
        )
    } else {
        !counts_as_number(t, high) && !text_less(high, low)
    }
}

proof fn lemma_cells_in_order(
    t: TableView,
    p: (u64, u32),
    q: (u64, u32),
    field: Seq<char>,
    direction: SortDirection,
)
    requires
        sound(t),
        has_cell(t, p, field),
        has_cell(t, q, field),
        key_before(place_key(t, p, field), place_key(t, q, field), direction),
    ensures
        cells_in_order(t, t.cell(p, field), t.cell(q, field), direction),
{
    lemma_key_of_cell(t, p, field);
    lemma_key_of_cell(t, q, field);
}

/// On a page that is sorted by a field, of two rows the first one has the smaller cell, or
/// an equal one, where the order is ascending, and the greater one where it is descending:
/// numbers by their value, texts by the order of texts, and in ascending order a number
/// before a text.
pub proof fn law_sorted_page(
    ids: Seq<(u64, u32)>,
    t: TableView,
    h: Seq<(u64, Set<u32>)>,
    order_by: Seq<OrderBy>,
    offset: int,
    limit: int,
    i: int,
    j: int,
)
    requires
        sound(t),
        is_page(ids, t, h, order_by, offset, limit),
        order_by.len() > 0,
        offset >= 0,
        limit >= 0,
        0 <= i < j < ids.len(),
        has_cell(t, ids[i], order_by[0].field@),
        has_cell(t, ids[j], order_by[0].field@),
    ensures
        ({
            let x = t.cell(ids[i], order_by[0].field@);
            let y = t.cell(ids[j], order_by[0].field@);
            let direction = order_by[0].direction;
            &&& cells_in_order(t, x, y, direction)
            &&& !counts_as_number(t, x) && !counts_as_number(t, y) ==> match direction {
                SortDirection::Asc => !text_less(y, x),
                SortDirection::Desc => !text_less(x, y),
            }
        }),
{
    let found = found_ids(h);
    let field = order_by[0].field@;
    let direction = order_by[0].direction;
    let order = choose|order: Seq<usize>|
        {
            &&& #[trigger] ordered_by(t, found, order, field, direction)
            &&& ids == page(arranged(found, order), offset, limit)
        };
    assert(ids[i] == found[order[offset + i] as int]);
    assert(ids[j] == found[order[offset + j] as int]);
    lemma_cells_in_order(t, ids[i], ids[j], field, direction);
}

/// On a page that is sorted by a field, the rows without a cell of that field come behind
/// those that have one in ascending order, and before them in descending order.
pub proof fn law_missing_cells_are_last(
    ids: Seq<(u64, u32)>,
    t: TableView,
    h: Seq<(u64, Set<u32>)>,
    order_by: Seq<OrderBy>,
    offset: int,
    limit: int,
    i: int,
    j: int,
)
    requires
        sound(t),
        is_page(ids, t, h, order_by, offset, limit),
        order_by.len() > 0,
        offset >= 0,
        limit >= 0,
        0 <= i < ids.len(),
        0 <= j < ids.len(),
        has_cell(t, ids[i], order_by[0].field@),
        has_no_column(t, ids[j], order_by[0].field@),
    ensures
        match order_by[0].direction {
            SortDirection::Asc => i < j,
            SortDirection::Desc => j < i,
        },
{
    let found = found_ids(h);
    let field = order_by[0].field@;
    let direction = order_by[0].direction;
    let order = choose|order: Seq<usize>|
        {
            &&& #[trigger] ordered_by(t, found, order, field, direction)
            &&& ids == page(arranged(found, order), offset, limit)
        };
    assert(ids[i] == found[order[offset + i] as int]);
    assert(ids[j] == found[order[offset + j] as int]);
    lemma_key_of_cell(t, ids[i], field);
    lemma_key_holder(t, ids[j].0);
}

/// A sorted page has as many rows as the limit lets in and are left behind the offset; a
/// page that begins with the first row and has room for all has every row that was found;
/// and a row that was found and is not on a page that begins with the first row does not
/// belong before any row that is on it.
pub proof fn law_sorted_page_is_complete(
    ids: Seq<(u64, u32)>,
    t: TableView,
    h: Seq<(u64, Set<u32>)>,
    order_by: Seq<OrderBy>,
    offset: int,
    limit: int,
    k: int,
)
    requires
        sound(t),
        is_page(ids, t, h, order_by, offset, limit),
        order_by.len() > 0,
        offset >= 0,
        limit >= 0,
        0 <= k < found_ids(h).len(),
    ensures
        ids.len() == (if offset >= found_ids(h).len() {
            0
        } else if found_ids(h).len() - offset <= limit {
            found_ids(h).len() - offset
        } else {
            limit
        }),
        offset == 0 && limit >= found_ids(h).len() ==> ids.contains(found_ids(h)[k]),
        forall|i: int|
            0 <= i < ids.len() && offset == 0 && !ids.contains(found_ids(h)[k]) && has_cell(
                t,
                #[trigger] ids[i],
                order_by[0].field@,
            ) && has_cell(t, found_ids(h)[k], order_by[0].field@) ==> cells_in_order(
                t,
                t.cell(ids[i], order_by[0].field@),
                t.cell(found_ids(h)[k], order_by[0].field@),
                order_by[0].direction,
            ),
{
    let found = found_ids(h);
    let field = order_by[0].field@;
    let direction = order_by[0].direction;
    let order = choose|order: Seq<usize>|
        {
            &&& #[trigger] ordered_by(t, found, order, field, direction)
            &&& ids == page(arranged(found, order), offset, limit)
        };
    assert(arrangement(order, found.len() as int));
    lemma_small(order, found.len() as int, k);
    lemma_arrangement_onto(order, found.len() as int, k as usize);
    let m = choose|m: int| 0 <= m < order.len() && order[m] == k as usize;
    assert(arranged(found, order)[m] == found[k]);
    if offset == 0 {
        if m < ids.len() {
            assert(ids[m] == found[k]);
        }
        assert forall|i: int|
            0 <= i < ids.len() && !ids.contains(found[k]) && has_cell(t, #[trigger] ids[i], field)
                && has_cell(t, found[k], field) implies cells_in_order(
            t,
            t.cell(ids[i], field),
            t.cell(found[k], field),
            direction,
        ) by {
            assert(m >= ids.len());
            assert(ids[i] == found[order[i] as int]);
            assert(order[m] == k as usize);
            lemma_cells_in_order(t, ids[i], found[k], field, direction);
        }
    }
}

proof fn lemma_small(order: Seq<usize>, n: int, k: int)
    requires
        arrangement(order, n),
        0 <= k < n,
    ensures
        k <= usize::MAX,
{
    let values = order.to_set();
    vstd::seq_lib::seq_to_set_is_finite(order);
    order.unique_seq_to_set();
    if k > usize::MAX {
        let all = vstd::set_lib::set_int_range(0, usize::MAX + 1);
        vstd::set_lib::lemma_int_range(0, usize::MAX + 1);
        let ints = values.map(|v: usize| v as int);
        vstd::set_lib::lemma_map_size(values, ints, |v: usize| v as int);
        assert(ints.subset_of(all));
        vstd::set_lib::lemma_len_subset(ints, all);
    }
}

/// The rows that a query gives are those at the places that it gives, one for one, and
/// the cells of a row are those of the fields that were asked for, one for one.
pub proof fn law_rows_are_cells(
    r: QueryResult,
    t: TableView,
    h: Seq<(u64, Set<u32>)>,
    fields: Seq<String>,
    requests: Seq<AggregationRequest>,
    sums: Seq<Option<AggregationResult>>,
    order_by: Seq<OrderBy>,
    limit: usize,
    offset: usize,
    i: int,
    k: int,
)
    requires
        is_answer(r, t, h, fields, requests, sums, order_by, limit, offset),
        r.row_ids is Some,
        0 <= i < r.row_ids->0@.len(),
        0 <= k < fields.len(),
    ensures
        r.rows@.len() == r.row_ids->0@.len(),
        r.rows@[i]@.len() == fields.len(),
        r.rows@[i]@[k]@ == t.cell(r.row_ids->0@[i], fields[k]@),
        r.headers@.len() == fields.len(),
        r.headers@[k]@ == fields[k]@,
{
    let ids = r.row_ids->0@;
    assert(row_lists(r.rows@).len() == t.rows(ids, texts(fields)).len());
    assert(row_lists(r.rows@)[i] == t.rows(ids, texts(fields))[i]);
    assert(texts(r.rows@[i]@).len() == texts(fields).len());
    assert(texts(r.rows@[i]@)[k] == t.cell(ids[i], texts(fields)[k]));
    assert(texts(r.headers@).len() == texts(fields).len());
    assert(texts(r.headers@)[k] == texts(fields)[k]);
}

} // verus!
