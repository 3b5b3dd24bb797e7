//! What a query answers, and to whom.

use crate::hits::{found_ids, law_found_count};
use crate::json_text::{json_number_at, json_string_at, JsonCellView};
use crate::laws::searching::{has_row, law_page_items};
use crate::lookup::{found_rows, place_meets, Lookup};
use crate::query::{
    alphanumeric, answers, clipped, guarded_filters, is_answer, is_name, is_request_of, meeting,
    own_rows, sum_parts, sum_titles, visible_rows, AggregationRequest, AggregationResult,
    AggregationView, QueryResult,
};
use crate::table::TableView;
use crate::types::{AuthContext, ComparisonOp, FilterView, LogicalOp, OrderBy};
use vstd::prelude::*;

verus! {

/// Who is known sees only their own rows of every table but that of the sessions and those
/// of the users: one more filter asks that the column by which rows are told apart is equal
/// to their number, and all filters have to be met. Everyone else is answered as they ask.
pub proof fn law_guarded_queries(
    name: Seq<char>,
    auth_table: Seq<char>,
    auth: AuthContext,
    fs: Seq<FilterView>,
    op: LogicalOp,
)
    ensures
        guarded_filters(name, auth_table, None, fs, op) == (fs, op),
        name == auth_table || name == "Users"@ || name == "users"@ ==> guarded_filters(
            name,
            auth_table,
            Some(auth),
            fs,
            op,
        ) == (fs, op),
        name != auth_table && name != "Users"@ && name != "users"@ ==> ({
            let (all, how) = guarded_filters(name, auth_table, Some(auth), fs, op);
            &&& how == LogicalOp::And
            &&& all.len() == fs.len() + 1
            &&& all.drop_last() == fs
            &&& all.last().field == auth.filter_col@
            &&& all.last().op == ComparisonOp::Eq
            &&& all.last().value == auth.user_id@
            &&& all.last().field_type is None
        }),
{
    let (all, how) = guarded_filters(name, auth_table, Some(auth), fs, op);
    if name != auth_table && name != "Users"@ && name != "users"@ {
        assert(all.drop_last() =~= fs);
    }
}

/// Of some rows those are left whose cells meet a filter, and no others.
pub proof fn law_rows_left(
    t: TableView,
    h: Seq<(u64, Set<u32>)>,
    f: FilterView,
    p: (u64, u32),
)
    ensures
        has_row(meeting(t, h, f), p) <==> has_row(h, p) && f.holds(t.reading(t.cell(p, f.field))),
    decreases h.len(),
{
    if h.len() > 0 {
        let front = h.drop_last();
        law_rows_left(t, front, f, p);
        let (id, all) = h.last();
        let rows = all.filter(|row: u32| place_meets(t, (id, row), f));
        let before = meeting(t, front, f);
        let now = meeting(t, h, f);
        if has_row(before, p) {
            let i = choose|i: int|
                0 <= i < before.len() && (#[trigger] before[i]).0 == p.0 && before[i].1.contains(
                    p.1,
                );
            assert(now[i] == before[i]);
        }
        if has_row(front, p) {
            let i = choose|i: int|
                0 <= i < front.len() && (#[trigger] front[i]).0 == p.0 && front[i].1.contains(p.1);
            assert(h[i] == front[i]);
        }
        if has_row(h, p) && !has_row(front, p) {
            let i = choose|i: int|
                0 <= i < h.len() && (#[trigger] h[i]).0 == p.0 && h[i].1.contains(p.1);
            if i < front.len() {
                assert(front[i] == h[i]);
            }
            if place_meets(t, p, f) {
                assert(rows.contains(p.1));
                assert(now.last() == (id, rows));
                assert(now[now.len() - 1].1.contains(p.1));
            }
        }
        if id == p.0 && all.contains(p.1) {
            assert(h[h.len() - 1].1.contains(p.1));
            if place_meets(t, p, f) {
                assert(rows.contains(p.1));
                assert(now[now.len() - 1].1.contains(p.1));
            }
        }
        if has_row(now, p) && !has_row(before, p) {
            let i = choose|i: int|
                0 <= i < now.len() && (#[trigger] now[i]).0 == p.0 && now[i].1.contains(p.1);
            if i < before.len() {
                assert(before[i] == now[i]);
            }
            assert(rows.contains(p.1));
        }
    }
}

/// What is found for who asks: without anyone known what the filters find; of a table that
/// is guarded those of the rows that the filters together find with their own number in
/// the column by which rows are told apart.
pub proof fn law_visible_rows(
    t: TableView,
    auth_table: Seq<char>,
    auth: AuthContext,
    fs: Seq<FilterView>,
    op: LogicalOp,
    max: int,
    p: (u64, u32),
)
    ensures
        visible_rows(t, auth_table, None, fs, op, max) == found_rows(t, fs, op, max),
        t.name == auth_table || t.name == "Users"@ || t.name == "users"@ ==> visible_rows(
            t,
            auth_table,
            Some(auth),
            fs,
            op,
            max,
        ) == found_rows(t, fs, op, max),
        t.name != auth_table && t.name != "Users"@ && t.name != "users"@ ==> ({
            let all = guarded_filters(t.name, auth_table, Some(auth), fs, op).0;
            let own = all.last();
            match found_rows(t, all, LogicalOp::And, max).0 {
                Lookup::Found(h) => visible_rows(
                    t,
                    auth_table,
                    Some(auth),
                    fs,
                    op,
                    max,
                ).0 matches Lookup::Found(g) && (has_row(g, p) <==> has_row(h, p) && own.holds(
                    t.reading(t.cell(p, auth.filter_col@)),
                )),
                other => visible_rows(t, auth_table, Some(auth), fs, op, max).0 == other,
            }
        }),
{
    law_guarded_queries(t.name, auth_table, auth, fs, op);
    let all = guarded_filters(t.name, auth_table, Some(auth), fs, op).0;
    if let Lookup::Found(h) = found_rows(t, all, LogicalOp::And, max).0 {
        law_rows_left(t, h, own_rows(auth), p);
    }
}

/// How many rows a query gives: as many as it asks for, a hundred at most, as far as so
/// many were found behind the offset; none where it asks for none, or only for counts.
pub proof fn law_rows_given(
    r: QueryResult,
    t: TableView,
    h: Seq<(u64, Set<u32>)>,
    fields: Seq<String>,
    requests: Seq<AggregationRequest>,
    sums: Seq<Option<AggregationResult>>,
    limit: usize,
    offset: usize,
    i: int,
)
    requires
        is_answer(r, t, h, fields, requests, sums, Seq::empty(), limit, offset),
    ensures
        found_ids(h).len() <= u64::MAX ==> r.total_found == found_ids(h).len(),
        limit == 0 || requests.len() > 0 && fields.len() == 0 ==> r.rows@.len() == 0 && r.row_ids
            is None,
        limit > 0 && (requests.len() == 0 || fields.len() > 0) ==> ({
            let most = if limit <= 100 {
                limit as int
            } else {
                100
            };
            let left = found_ids(h).len() - offset;
            &&& r.row_ids is Some
            &&& r.row_ids->0@.len() == (if left <= 0 {
                0
            } else if left <= most {
                left
            } else {
                most
            })
            &&& 0 <= i < r.row_ids->0@.len() ==> r.row_ids->0@[i] == found_ids(h)[offset + i]
        }),
        requests.len() == 0 <==> r.aggregations is None,
        r.aggregations matches Some(a) ==> a@.len() == requests.len(),
{
    law_found_count(h);
    law_page_items(found_ids(h), offset as int, clipped(limit), i);
}

/// What is summed: the expression, where there is one; else the field, where the sums are
/// told apart by another one; else nothing, which is zero. By what the sums are told apart:
/// by the field that is grouped by, and else by the field that is named, unless it is left
/// open with a question mark.
pub proof fn law_summed(
    group_by: Option<Seq<char>>,
    field: Option<Seq<char>>,
    expression: Option<Seq<char>>,
)
    ensures
        ({
            let named = field is Some && field->0 != "?"@;
            let (group, what) = sum_parts(group_by, field, expression);
            &&& expression matches Some(e) ==> what == e
            &&& expression is None && group_by is Some && named ==> what == field->0
            &&& expression is None && !(group_by is Some && named) ==> what == "0"@
            &&& group_by is Some && (expression is Some || named) ==> group == group_by
            &&& group_by is None && named ==> group == field
            &&& group_by is None && !named ==> group is None
            &&& group_by is Some && expression is None && !named ==> group is None
        }),
{
}

/// The headers over sums: none over a sum of all rows; else the field by which they are
/// told apart and, where what is summed is a plain name, that name with `_sum` behind it,
/// and otherwise `sum` alone.
pub proof fn law_sum_headers(group: Seq<char>, expression: Seq<char>)
    ensures
        sum_titles(None, expression).len() == 0,
        sum_titles(Some(group), expression).len() == 2,
        sum_titles(Some(group), expression)[0] == group,
        is_name(expression) ==> sum_titles(Some(group), expression)[1] == expression + "_sum"@,
        !is_name(expression) ==> sum_titles(Some(group), expression)[1] == "sum"@,
        is_name(expression) <==> forall|c: char|
            expression.contains(c) ==> c == '_' || #[trigger] alphanumeric(c),
{
    if forall|c: char| expression.contains(c) ==> c == '_' || #[trigger] alphanumeric(c) {
        assert forall|i: int| 0 <= i < expression.len() implies alphanumeric(
            #[trigger] expression[i],
        ) || expression[i] == '_' by {
            assert(expression.contains(expression[i]));
        }
    }
}

/// What is asked of an aggregation: its kind is the name under which it stands, and its
/// field, its number, its group and its expression are those that stand there.
pub proof fn law_request(
    q: AggregationRequest,
    members: Seq<(Seq<char>, JsonCellView)>,
    settings: Seq<char>,
)
    requires
        is_request_of(q, members),
        members[0].1 == JsonCellView::Other(settings),
    ensures
        q.kind matches Some(k) && k@ == members[0].0,
        q.n == json_number_at(settings, "/n"@),
        match q.field {
            Some(f) => json_string_at(settings, "/field"@) == Some(f@),
            None => json_string_at(settings, "/field"@) is None,
        },
        match q.group_by {
            Some(g) => json_string_at(settings, "/group_by"@) == Some(g@),
            None => json_string_at(settings, "/group_by"@) is None,
        },
        match q.expression {
            Some(e) => json_string_at(settings, "/expression"@) == Some(e@),
            None => json_string_at(settings, "/expression"@) is None,
        },
{
}

/// A sum is answered as it was summed up, or with an error where its expression cannot be
/// read; what has no kind, or one that is not known, is answered with nothing.
pub proof fn law_other_answers(
    r: AggregationView,
    t: TableView,
    h: Seq<(u64, Set<u32>)>,
    request: AggregationRequest,
    order_by: Seq<OrderBy>,
    sum: Option<AggregationView>,
)
    requires
        answers(r, t, h, request, order_by, sum),
    ensures
        request.kind is None ==> r.headers.len() == 0 && r.rows.len() == 0 && r.summary is None,
        request.kind matches Some(kind) ==> ({
            &&& kind@ == "Sum"@ && sum is Some ==> r == sum->0
            &&& kind@ == "Sum"@ && sum is None ==> r.headers == seq!["error"@] && r.rows == seq![
                seq!["Invalid expression"@],
            ] && r.summary is None
            &&& kind@ != "Count"@ && kind@ != "GroupBy"@ && kind@ != "TopN"@ && kind@ != "Sum"@
                ==> r.headers.len() == 0 && r.rows.len() == 0 && r.summary is None
        }),
{
    reveal_strlit("Count");
    reveal_strlit("GroupBy");
    reveal_strlit("TopN");
    reveal_strlit("Sum");
    assert("Count"@.len() == 5 && "GroupBy"@.len() == 7 && "TopN"@.len() == 4 && "Sum"@.len() == 3);
}

} // verus!
