//! What it means that the rows that were found are counted.

use crate::hits::{capped, found_ids, law_found_count, page};
use crate::laws::sorting::lemma_key_holder;
use crate::query::{
    all_counts, answers, counted_field, direction_for, group_order, lists_counts, segment_counts,
    AggregationRequest, AggregationView, CountOrder, Summary,
};
use crate::rowset::{lemma_in_order, rows_in_order};
use crate::segment::{index_holds, lists_row, value_counts};
use crate::soundness::sound;
use crate::table::TableView;
use crate::text::{decimal_spec, text_less};
use crate::types::{OrderBy, SortDirection};
use vstd::prelude::*;

verus! {

/// How often a value was counted, not at all where it is not listed.
pub open spec fn times(m: Map<Seq<char>, u64>, value: Seq<char>) -> nat {
    if m.contains_key(value) {
        m[value] as nat
    } else {
        0
    }
}

/// The counts of the rows of two lists are the sums of the counts of each, as far as 64
/// bits tell them, and a value is listed where one of the two has it.
pub proof fn law_counts_add(
    t: TableView,
    a: Seq<(u64, Set<u32>)>,
    b: Seq<(u64, Set<u32>)>,
    field: Seq<char>,
    value: Seq<char>,
)
    ensures
        ({
            let x = all_counts(t, a, field);
            let y = all_counts(t, b, field);
            let both = all_counts(t, a + b, field);
            &&& times(both, value) == (if times(x, value) + times(y, value) <= u64::MAX {
                times(x, value) + times(y, value)
            } else {
                u64::MAX as nat
            })
            &&& both.contains_key(value) <==> x.contains_key(value) || y.contains_key(value)
        }),
    decreases b.len(),
{
    if b.len() == 0 {
        assert(a + b =~= a);
    } else {
        law_counts_add(t, a, b.drop_last(), field, value);
        assert((a + b).drop_last() =~= a + b.drop_last());
        assert((a + b).last() == b.last());
    }
}

/// Whether the index that answers for a segment is in step with the cells of a field, and
/// the rows of an entry are rows of that segment.
pub open spec fn entry_indexed(t: TableView, hit: (u64, Set<u32>), field: Seq<char>) -> bool {
    t.holder(hit.0) matches Some(s) && {
        let indexes = if t.active is Some && t.active->0.segment.id == hit.0 {
            t.active->0.indexes
        } else {
            s.indexes
        };
        &&& s.columns.contains_key(field)
        &&& indexes.contains_key(field)
        &&& exists|cells: Seq<Seq<char>>|
            {
                &&& #[trigger] s.columns[field].holds(cells)
                &&& index_holds(indexes[field], cells)
                &&& forall|r: u32| #[trigger] hit.1.contains(r) ==> r < cells.len()
            }
    }
}

/// How many rows of some entries have a value in a field.
pub open spec fn rows_holding(
    t: TableView,
    h: Seq<(u64, Set<u32>)>,
    field: Seq<char>,
    value: Seq<char>,
) -> nat
    decreases h.len(),
{
    if h.len() == 0 {
        0
    } else {
        rows_holding(t, h.drop_last(), field, value) + h.last().1.filter(
            |r: u32| t.cell((h.last().0, r), field) == value,
        ).len()
    }
}

proof fn lemma_few_rows(s: Set<u32>)
    ensures
        s.finite(),
        s.len() <= 0x1_0000_0000,
{
    let all = vstd::set_lib::set_int_range(0, 0x1_0000_0000);
    vstd::set_lib::lemma_int_range(0, 0x1_0000_0000);
    lemma_in_order(s);
    vstd::seq_lib::seq_to_set_is_finite(rows_in_order(s));
    let ints = s.map(|v: u32| v as int);
    vstd::set_lib::lemma_map_size(s, ints, |v: u32| v as int);
    assert(ints.subset_of(all));
    vstd::set_lib::lemma_len_subset(ints, all);
}

proof fn lemma_entry_counted(
    t: TableView,
    hit: (u64, Set<u32>),
    field: Seq<char>,
    value: Seq<char>,
)
    requires
        sound(t),
        entry_indexed(t, hit, field),
    ensures
        times(segment_counts(t, hit, field), value) == hit.1.filter(
            |r: u32| t.cell((hit.0, r), field) == value,
        ).len(),
{
    lemma_key_holder(t, hit.0);
    let s = t.holder(hit.0)->0;
    let active = t.active is Some && t.active->0.segment.id == hit.0;
    let ix = if active {
        t.active->0.indexes[field]
    } else {
        s.indexes[field]
    };
    assert(segment_counts(t, hit, field) == value_counts(ix, hit.1));
    let column = s.columns[field];
    let cells = choose|cells: Seq<Seq<char>>|
        {
            &&& #[trigger] column.holds(cells)
            &&& index_holds(ix, cells)
            &&& forall|r: u32| #[trigger] hit.1.contains(r) ==> r < cells.len()
        };
    let wanted = hit.1.filter(|r: u32| t.cell((hit.0, r), field) == value);
    let listed = ix[value].1.intersect(hit.1);
    assert forall|r: u32| hit.1.contains(r) implies (t.cell((hit.0, r), field) == value <==> lists_row(
        ix,
        value,
        r,
    )) by {
        crate::column::law_read_back(column, cells, r as int);
        assert(lists_row(ix, value, r) <==> r < cells.len() && cells[r as int] == value);
    }
    if ix.contains_key(value) {
        assert(listed =~= wanted);
        lemma_few_rows(listed);
        if listed.len() == 0 {
            assert(!value_counts(ix, hit.1).contains_key(value));
        }
    } else {
        assert forall|r: u32| !wanted.contains(r) by {
            if hit.1.contains(r) {
                assert(!lists_row(ix, value, r));
            }
        }
        assert(wanted =~= Set::empty());
    }
}

/// A value is counted as often as there are rows among those found that have it, as far as
/// 64 bits tell the number, and it is not listed where no row has it.
pub proof fn law_counts_are_rows(
    t: TableView,
    h: Seq<(u64, Set<u32>)>,
    field: Seq<char>,
    value: Seq<char>,
)
    requires
        sound(t),
        forall|i: int| 0 <= i < h.len() ==> entry_indexed(t, #[trigger] h[i], field),
    ensures
        times(all_counts(t, h, field), value) == (if rows_holding(t, h, field, value) <= u64::MAX {
            rows_holding(t, h, field, value)
        } else {
            u64::MAX as nat
        }),
        all_counts(t, h, field).contains_key(value) <==> rows_holding(t, h, field, value) > 0,
    decreases h.len(),
{
    if h.len() > 0 {
        let front = h.drop_last();
        assert forall|i: int| 0 <= i < front.len() implies entry_indexed(
            t,
            #[trigger] front[i],
            field,
        ) by {
            assert(front[i] == h[i]);
        }
        law_counts_are_rows(t, front, field, value);
        assert(entry_indexed(t, h[h.len() - 1], field));
        lemma_entry_counted(t, h.last(), field, value);
        lemma_key_holder(t, h.last().0);
        let part = segment_counts(t, h.last(), field);
        if part.contains_key(value) {
            assert(part[value] > 0) by {
                let s = t.holder(h.last().0)->0;
                let ix = if t.active is Some && t.active->0.segment.id == h.last().0 {
                    t.active->0.indexes[field]
                } else {
                    s.indexes[field]
                };
                lemma_few_rows(ix[value].1.intersect(h.last().1));
            }
        }
    }
}

/// The direction of a field is that of the first key that names it, and ascending where
/// none does.
pub proof fn law_direction(order_by: Seq<OrderBy>, field: Seq<char>, k: int)
    ensures
        (forall|i: int| 0 <= i < order_by.len() ==> (#[trigger] order_by[i]).field@ != field)
            ==> direction_for(order_by, field) == SortDirection::Asc,
        0 <= k < order_by.len() && order_by[k].field@ == field && (forall|i: int|
            0 <= i < k ==> (#[trigger] order_by[i]).field@ != field) ==> direction_for(
            order_by,
            field,
        ) == order_by[k].direction,
    decreases order_by.len(),
{
    if order_by.len() > 0 && order_by[0].field@ != field {
        let rest = order_by.skip(1);
        assert forall|i: int| 0 <= i < rest.len() implies #[trigger] rest[i] == order_by[i + 1] by {}
        law_direction(rest, field, k - 1);
    }
}

/// What a query that counts all rows answers: one number, as many as there are places of
/// rows that were found, and no table.
pub proof fn law_count_answer(
    r: AggregationView,
    t: TableView,
    h: Seq<(u64, Set<u32>)>,
    request: AggregationRequest,
    order_by: Seq<OrderBy>,
    sum: Option<AggregationView>,
)
    requires
        answers(r, t, h, request, order_by, sum),
        request.kind matches Some(k) && k@ == "Count"@,
        found_ids(h).len() <= u64::MAX,
    ensures
        r.summary matches Some(Summary::Count(n)) && n == found_ids(h).len(),
        r.rows.len() == 0,
        r.headers.len() == 0,
{
    law_found_count(h);
}

/// What a query that groups by a field answers: under the field's name and `count`, one
/// row for each value that some found row has, with the number of its rows, in the order
/// of the values; and over all the sum of these numbers.
pub proof fn law_group_by_answer(
    r: AggregationView,
    t: TableView,
    h: Seq<(u64, Set<u32>)>,
    request: AggregationRequest,
    order_by: Seq<OrderBy>,
    sum: Option<AggregationView>,
)
    requires
        answers(r, t, h, request, order_by, sum),
        request.kind matches Some(k) && k@ == "GroupBy"@,
    ensures
        ({
            let field = match request.field {
                Some(f) => f@,
                None => "?"@,
            };
            let m = all_counts(t, h, field);
            &&& r.headers == seq![field, "count"@]
            &&& forall|i: int|
                0 <= i < r.rows.len() ==> {
                    &&& (#[trigger] r.rows[i]).len() == 2
                    &&& m.contains_key(r.rows[i][0])
                    &&& r.rows[i][1] == decimal_spec(times(m, r.rows[i][0]))
                }
            &&& forall|v: Seq<char>| #[trigger]
                m.contains_key(v) ==> exists|i: int|
                    0 <= i < r.rows.len() && (#[trigger] r.rows[i])[0] == v
            &&& forall|i: int, j: int|
                #![trigger r.rows[i], r.rows[j]]
                0 <= i < j < r.rows.len() ==> match direction_for(order_by, field) {
                    SortDirection::Asc => text_less(r.rows[i][0], r.rows[j][0]),
                    SortDirection::Desc => text_less(r.rows[j][0], r.rows[i][0]),
                }
            &&& r.summary == Some(Summary::Count(capped(listed_sum(m, r.rows))))
        }),
{
    reveal_strlit("Count");
    reveal_strlit("GroupBy");
    assert("Count"@.len() == 5 && "GroupBy"@.len() == 7);
    let field = counted_field(request.field);
    let m = all_counts(t, h, field);
    let order = group_order(order_by, field);
    let l = choose|l: Seq<(Seq<char>, u64)>|
        {
            &&& #[trigger] lists_counts(l, m, order)
            &&& r == crate::query::count_view(field, l)
        };
    lemma_listed(l, m, order, r.rows);
    assert forall|v: Seq<char>| #[trigger] m.contains_key(v) implies exists|i: int|
        0 <= i < r.rows.len() && (#[trigger] r.rows[i])[0] == v by {
        let i = choose|i: int| 0 <= i < l.len() && (#[trigger] l[i]).0 == v;
        assert(r.rows[i][0] == v);
    }
    assert forall|i: int, j: int|
        #![trigger r.rows[i], r.rows[j]]
        0 <= i < j < r.rows.len() implies match direction_for(order_by, field) {
        SortDirection::Asc => text_less(r.rows[i][0], r.rows[j][0]),
        SortDirection::Desc => text_less(r.rows[j][0], r.rows[i][0]),
    } by {
        assert(l[i].0 != l[j].0);
        crate::text::lemma_text_less_total(l[i].0, l[j].0);
    }
}

/// The sum of the counts of the values that rows begin with.
pub open spec fn listed_sum(m: Map<Seq<char>, u64>, rows: Seq<Seq<Seq<char>>>) -> nat
    decreases rows.len(),
{
    if rows.len() == 0 {
        0
    } else {
        listed_sum(m, rows.drop_last()) + times(m, rows.last()[0])
    }
}

proof fn lemma_listed(
    l: Seq<(Seq<char>, u64)>,
    m: Map<Seq<char>, u64>,
    order: CountOrder,
    rows: Seq<Seq<Seq<char>>>,
)
    requires
        forall|i: int| 0 <= i < l.len() ==> m.contains_key((#[trigger] l[i]).0) && m[l[i].0] == l[i].1,
        rows == crate::query::count_rows_of(l),
    ensures
        forall|i: int|
            0 <= i < rows.len() ==> (#[trigger] rows[i]).len() == 2 && rows[i][0] == l[i].0
                && rows[i][1] == decimal_spec(l[i].1 as nat),
        listed_sum(m, rows) == crate::query::count_sum(l),
    decreases l.len(),
{
    if l.len() > 0 {
        let front = l.drop_last();
        assert(rows.drop_last() =~= crate::query::count_rows_of(front));
        assert forall|i: int| 0 <= i < front.len() implies m.contains_key((#[trigger] front[i]).0)
            && m[front[i].0] == front[i].1 by {
            assert(l[i] == front[i]);
        }
        lemma_listed(front, m, order, rows.drop_last());
        assert(l[l.len() - 1] == l.last());
        assert(rows.last() == seq![l.last().0, decimal_spec(l.last().1 as nat)]);
    }
}

/// What a query for the most frequent values of a field answers: as many values as it asks
/// for, ten where it does not tell, or all where there are fewer; the most frequent ones
/// first, and of equally frequent ones the first in the order of texts; and no value that
/// is left out is more frequent than one that is not.
pub proof fn law_top_n_answer(
    r: AggregationView,
    t: TableView,
    h: Seq<(u64, Set<u32>)>,
    request: AggregationRequest,
    order_by: Seq<OrderBy>,
    sum: Option<AggregationView>,
)
    requires
        answers(r, t, h, request, order_by, sum),
        request.kind matches Some(k) && k@ == "TopN"@,
    ensures
        ({
            let field = match request.field {
                Some(f) => f@,
                None => "?"@,
            };
            let n = match request.n {
                Some(n) => n as int,
                None => 10,
            };
            let m = all_counts(t, h, field);
            &&& r.headers == seq![field, "count"@]
            &&& r.rows.len() <= n
            &&& forall|i: int|
                0 <= i < r.rows.len() ==> {
                    &&& (#[trigger] r.rows[i]).len() == 2
                    &&& m.contains_key(r.rows[i][0])
                    &&& r.rows[i][1] == decimal_spec(times(m, r.rows[i][0]))
                }
            &&& forall|i: int, j: int|
                #![trigger r.rows[i], r.rows[j]]
                0 <= i < j < r.rows.len() ==> {
                    ||| times(m, r.rows[i][0]) > times(m, r.rows[j][0])
                    ||| times(m, r.rows[i][0]) == times(m, r.rows[j][0]) && text_less(
                        r.rows[i][0],
                        r.rows[j][0],
                    )
                }
            &&& forall|v: Seq<char>| #[trigger]
                m.contains_key(v) ==> (exists|i: int|
                    0 <= i < r.rows.len() && (#[trigger] r.rows[i])[0] == v) || r.rows.len() == n && (
                forall|i: int|
                    0 <= i < r.rows.len() ==> times(m, v) <= times(m, (#[trigger] r.rows[i])[0]))
            &&& r.summary == Some(Summary::Count(capped(listed_sum(m, r.rows))))
        }),
{
    reveal_strlit("Count");
    reveal_strlit("GroupBy");
    reveal_strlit("TopN");
    assert("Count"@.len() == 5 && "GroupBy"@.len() == 7 && "TopN"@.len() == 4);
    let field = counted_field(request.field);
    let n = match request.n {
        Some(n) => n as int,
        None => 10,
    };
    let m = all_counts(t, h, field);
    let l = choose|l: Seq<(Seq<char>, u64)>|
        {
            &&& #[trigger] lists_counts(l, m, CountOrder::Frequency)
            &&& r == crate::query::count_view(field, page(l, 0, n))
        };
    let p = page(l, 0, n);
    assert forall|i: int| 0 <= i < p.len() implies m.contains_key((#[trigger] p[i]).0) && m[p[i].0]
        == p[i].1 && p[i] == l[i] by {
        assert(p[i] == l[i]);
    }
    lemma_listed(p, m, CountOrder::Frequency, r.rows);
    assert forall|i: int, j: int|
        #![trigger r.rows[i], r.rows[j]]
        0 <= i < j < r.rows.len() implies {
        ||| times(m, r.rows[i][0]) > times(m, r.rows[j][0])
        ||| times(m, r.rows[i][0]) == times(m, r.rows[j][0]) && text_less(
            r.rows[i][0],
            r.rows[j][0],
        )
    } by {
        assert(p[i] == l[i] && p[j] == l[j]);
        assert(l[i].0 != l[j].0);
        crate::text::lemma_text_less_total(l[i].0, l[j].0);
    }
    assert forall|v: Seq<char>| #[trigger] m.contains_key(v) implies (exists|i: int|
        0 <= i < r.rows.len() && (#[trigger] r.rows[i])[0] == v) || r.rows.len() == n && (forall|
        i: int,
    | 0 <= i < r.rows.len() ==> times(m, v) <= times(m, (#[trigger] r.rows[i])[0])) by {
        let k = choose|k: int| 0 <= k < l.len() && (#[trigger] l[k]).0 == v;
        if k < r.rows.len() {
            assert(p[k] == l[k]);
            assert(r.rows[k][0] == v);
        } else {
            assert forall|i: int| 0 <= i < r.rows.len() implies times(m, v) <= times(
                m,
                (#[trigger] r.rows[i])[0],
            ) by {
                assert(p[i] == l[i]);
                assert(l[i].0 != l[k].0);
            }
        }
    }
}

} // verus!
