//! Queries: which rows, in which order, and what is counted of them.

use crate::hits::{
    capped, capped_sum, count_rows, found_ids, law_found_count, list_ids, listed_rows, page,
    page_ids,
};
use crate::lookup::{
    cache_listed, found_rows, law_searches_agree, place_meets, same_but_cache, steady, Lookup,
    TableError,
};
use crate::phrase::cat2;
use crate::postings::postings;
use crate::json_text::{
    json_members, json_number_at, json_string_at, members_view, number_at, parse_members, string_at,
    JsonCell, JsonCellView,
};
use crate::rowset::{lemma_in_order, rows_in_order, RowSet};
use crate::segment::field_counts;
use crate::sort_key::{arranged, ordered_by};
use crate::sorting::{arrangement, decides, orders_below, sort_indices};
use crate::table::{find_first, first_segment, row_lists, Table, TableView};
use crate::text::{
    chars_of, clone_texts, decimal, decimal_spec, is_before, lemma_text_less_asymmetric,
    lemma_text_less_total, lemma_text_less_transitive, same_text, text_less, texts,
};
use crate::textmap::TextMap;
use crate::types::{
    filter_views, AuthContext, ComparisonOp, Filter, FilterView, LogicalOp, OrderBy, SortDirection,
};
use vstd::prelude::*;

verus! {

/// The table of the sessions: as it is set, or `auth_sessions`.
pub fn auth_table_name(setting: Option<&str>) -> (r: String)
    ensures
        r@ == match setting {
            Some(s) => s@,
            None => "auth_sessions"@,
        },
{
    match setting {
        Some(s) => s.to_owned(),
        None => "auth_sessions".to_owned(),
    }
}

/// Whether who asks sees only their own rows of a table: of every one but that of
/// the sessions and those of the users.
pub open spec fn is_guarded(name: Seq<char>, auth_table: Seq<char>) -> bool {
    name != auth_table && name != "Users"@ && name != "users"@
}

/// The filter that leaves only the rows of who asks.
pub open spec fn own_rows(auth: AuthContext) -> FilterView {
    FilterView {
        field: auth.filter_col@,
        op: ComparisonOp::Eq,
        value: auth.user_id@,
        value_to: None,
        field_type: None,
        value_options: Seq::empty(),
        members: Seq::empty(),
    }
}

/// The filters of a query, and how they are combined, with the one that leaves
/// only the rows of who asks.
pub open spec fn guarded_filters(
    name: Seq<char>,
    auth_table: Seq<char>,
    auth: Option<AuthContext>,
    fs: Seq<FilterView>,
    op: LogicalOp,
) -> (Seq<FilterView>, LogicalOp) {
    match auth {
        Some(a) => if is_guarded(name, auth_table) {
            (fs.push(own_rows(a)), LogicalOp::And)
        } else {
            (fs, op)
        },
        None => (fs, op),
    }
}

/// Who asks, if anyone is known.
pub open spec fn auth_option(auth: Option<&AuthContext>) -> Option<AuthContext> {
    match auth {
        Some(a) => Some(*a),
        None => None,
    }
}

fn guards(name: &str, auth_table: &str) -> (r: bool)
    ensures
        r == is_guarded(name@, auth_table@),
{
    !same_text(name, auth_table) && !same_text(name, "Users") && !same_text(name, "users")
}

fn own_filter(auth: &AuthContext) -> (r: Filter)
    ensures
        r@ == own_rows(*auth),
{
    let own = Filter {
        field: auth.filter_col.clone(),
        op: ComparisonOp::Eq,
        value: auth.user_id.clone(),
        value_to: None,
        field_type: None,
        value_options: Vec::new(),
        members: Vec::new(),
    };
    assert(own@.value_options =~= Seq::empty());
    assert(own@.members =~= Seq::empty());
    assert(own@ =~= own_rows(*auth));
    own
}

/// The filters of a query, and how they are combined, with the one that leaves
/// only the rows of who asks.
pub fn guard_filters(
    name: &str,
    auth_table: &str,
    auth: Option<&AuthContext>,
    filters: &[Filter],
    op: LogicalOp,
) -> (r: (Vec<Filter>, LogicalOp))
    ensures
        (filter_views(r.0@), r.1) == guarded_filters(
            name@,
            auth_table@,
            auth_option(auth),
            filter_views(filters@),
            op,
        ),
{
    let ghost fs = filter_views(filters@);
    let mut out: Vec<Filter> = Vec::new();
    let mut i: usize = 0;
    while i < filters.len()
        invariant
            i <= filters@.len(),
            fs == filter_views(filters@),
            filter_views(out@) == fs.take(i as int),
        decreases filters@.len() - i,
    {
        let ghost before = filter_views(out@);
        out.push(filters[i].clone());
        i = i + 1;
        assert(filter_views(out@) =~= before.push(fs[i - 1]));
        assert(filter_views(out@) =~= fs.take(i as int));
    }
    assert(fs.take(i as int) =~= fs);
    if let Some(a) = auth {
        if guards(name, auth_table) {
            let own = own_filter(a);
            let ghost view = own@;
            out.push(own);
            assert(filter_views(out@) =~= fs.push(view));
            return (out, LogicalOp::And);
        }
    }
    (out, op)
}

/// The rows of some entries that meet a filter, without the entries that have none.
pub open spec fn meeting(t: TableView, h: Seq<(u64, Set<u32>)>, f: FilterView) -> Seq<
    (u64, Set<u32>),
>
    decreases h.len(),
{
    if h.len() == 0 {
        Seq::empty()
    } else {
        let front = meeting(t, h.drop_last(), f);
        let rows = h.last().1.filter(|row: u32| place_meets(t, (h.last().0, row), f));
        if rows == Set::<u32>::empty() {
            front
        } else {
            front.push((h.last().0, rows))
        }
    }
}

/// The rows that a query finds for who asks: what its filters find and, of a guarded
/// table, no row but their own, whichever way the filters were answered.
pub open spec fn visible_rows(
    t: TableView,
    auth_table: Seq<char>,
    auth: Option<AuthContext>,
    fs: Seq<FilterView>,
    op: LogicalOp,
    max: int,
) -> (Lookup, TableView) {
    let (all, all_op) = guarded_filters(t.name, auth_table, auth, fs, op);
    let (found, after) = found_rows(t, all, all_op, max);
    match (auth, found) {
        (Some(a), Lookup::Found(h)) => if is_guarded(t.name, auth_table) {
            (Lookup::Found(meeting(t, h, own_rows(a))), after)
        } else {
            (found, after)
        },
        _ => (found, after),
    }
}

proof fn lemma_meeting(t: TableView, h: Seq<(u64, Set<u32>)>, f: FilterView, i: int)
    requires
        0 <= i < found_ids(meeting(t, h, f)).len(),
    ensures
        place_meets(t, found_ids(meeting(t, h, f))[i], f),
        found_ids(h).contains(found_ids(meeting(t, h, f))[i]),
    decreases h.len(),
{
    if h.len() > 0 {
        let front = meeting(t, h.drop_last(), f);
        let (id, all) = h.last();
        let rows = all.filter(|row: u32| place_meets(t, (id, row), f));
        let place = found_ids(meeting(t, h, f))[i];
        let older = found_ids(h.drop_last());
        lemma_in_order(all);
        if i < found_ids(front).len() {
            if rows != Set::<u32>::empty() {
                assert(meeting(t, h, f).drop_last() =~= front);
            }
            lemma_meeting(t, h.drop_last(), f, i);
            let k = choose|k: int| 0 <= k < older.len() && older[k] == place;
            assert(found_ids(h)[k] == place);
        } else {
            assert(meeting(t, h, f).drop_last() =~= front);
            lemma_in_order(rows);
            let n = i - found_ids(front).len();
            let row = rows_in_order(rows)[n];
            assert(place == (id, row));
            assert(rows_in_order(rows).to_set().contains(row));
            assert(rows.contains(row));
            assert(rows_in_order(all).to_set().contains(row));
            let k = choose|k: int|
                0 <= k < rows_in_order(all).len() && rows_in_order(all)[k] == row;
            assert(found_ids(h)[older.len() + k] == place);
        }
    }
}

/// Whatever a query asks, and whichever way it is answered: who asks finds of a
/// guarded table only rows that hold their own id, and only rows that the filters find.
pub proof fn law_only_own_rows(
    t: TableView,
    auth_table: Seq<char>,
    auth: AuthContext,
    fs: Seq<FilterView>,
    op: LogicalOp,
    max: int,
    place: (u64, u32),
)
    requires
        is_guarded(t.name, auth_table),
        visible_rows(t, auth_table, Some(auth), fs, op, max).0 matches Lookup::Found(h)
            && found_ids(h).contains(place),
    ensures
        own_rows(auth).holds(t.reading(t.cell(place, auth.filter_col@))),
        found_rows(t, fs.push(own_rows(auth)), LogicalOp::And, max).0 matches Lookup::Found(h)
            && found_ids(h).contains(place),
{
    let all = found_rows(t, fs.push(own_rows(auth)), LogicalOp::And, max).0->Found_0;
    let own = found_ids(meeting(t, all, own_rows(auth)));
    let i = choose|i: int| 0 <= i < own.len() && own[i] == place;
    lemma_meeting(t, all, own_rows(auth), i);
}

/// Two queries with the same filters, and nothing written in between, find the same rows
/// for who asks, in the same order: their pages are pages of one list. Of the cache it is
/// asked that the first query dropped no index that would be made anew in another way.
pub proof fn law_pages_are_of_one_list(
    t: TableView,
    auth_table: Seq<char>,
    auth: Option<AuthContext>,
    fs: Seq<FilterView>,
    op: LogicalOp,
    max: int,
)
    requires
        steady(t, guarded_filters(t.name, auth_table, auth, fs, op).0, max),
    ensures
        visible_rows(
            visible_rows(t, auth_table, auth, fs, op, max).1,
            auth_table,
            auth,
            fs,
            op,
            max,
        ).0 == visible_rows(t, auth_table, auth, fs, op, max).0,
        steady(
            visible_rows(t, auth_table, auth, fs, op, max).1,
            guarded_filters(t.name, auth_table, auth, fs, op).0,
            max,
        ),
{
    let (all, all_op) = guarded_filters(t.name, auth_table, auth, fs, op);
    law_searches_agree(t, all, all_op, max);
    let (found, n) = found_rows(t, all, all_op, max);
    if let (Some(a), Lookup::Found(h)) = (auth, found) {
        lemma_meeting_cache(t, n, h, own_rows(a));
    }
}

/// Whether the rows of a result are one page of a list: none at all where the limit is
/// zero, and one row for each id, a hundred at most, where it is not.
pub open spec fn is_page_of(
    r: QueryResult,
    list: Seq<(u64, u32)>,
    limit: usize,
    offset: usize,
) -> bool {
    if limit == 0 {
        r.rows@.len() == 0 && r.row_ids is None
    } else {
        &&& r.row_ids is Some
        &&& r.row_ids->0@ == page(list, offset as int, clipped(limit))
        &&& r.rows@.len() == r.row_ids->0@.len()
    }
}

/// Two queries with the same filters, one after the other, that only list rows and order
/// by nothing: both say that as many rows were found, whatever their limits and offsets,
/// and both give a page of the same list, which is as long as they say.
pub proof fn law_answers_are_of_one_list(
    t: TableView,
    auth_table: Seq<char>,
    auth: Option<AuthContext>,
    fs: Seq<FilterView>,
    op: LogicalOp,
    max: int,
    first: QueryResult,
    fields: Seq<String>,
    limit: usize,
    offset: usize,
    second: QueryResult,
    other_fields: Seq<String>,
    other_limit: usize,
    other_offset: usize,
)
    requires
        steady(t, guarded_filters(t.name, auth_table, auth, fs, op).0, max),
        ({
            let (found, n) = visible_rows(t, auth_table, auth, fs, op, max);
            let again = visible_rows(n, auth_table, auth, fs, op, max).0;
            &&& found is Found && is_answer(
                first,
                t,
                found->Found_0,
                fields,
                Seq::empty(),
                Seq::empty(),
                Seq::empty(),
                limit,
                offset,
            )
            &&& again is Found && is_answer(
                second,
                n,
                again->Found_0,
                other_fields,
                Seq::empty(),
                Seq::empty(),
                Seq::empty(),
                other_limit,
                other_offset,
            )
        }),
    ensures
        first.total_found == second.total_found,
        ({
            let list = found_ids(visible_rows(t, auth_table, auth, fs, op, max).0->Found_0);
            &&& first.total_found == capped(list.len())
            &&& is_page_of(first, list, limit, offset)
            &&& is_page_of(second, list, other_limit, other_offset)
        }),
{
    law_pages_are_of_one_list(t, auth_table, auth, fs, op, max);
    let (found, n) = visible_rows(t, auth_table, auth, fs, op, max);
    law_found_count(found->Found_0);
    if limit > 0 {
        assert(row_lists(first.rows@).len() == t.rows(first.row_ids->0@, texts(fields)).len());
    }
    if other_limit > 0 {
        assert(row_lists(second.rows@).len() == n.rows(
            second.row_ids->0@,
            texts(other_fields),
        ).len());
    }
}

/// Every row on a page that a query gives was found.
pub proof fn law_page_was_found(
    r: QueryResult,
    t: TableView,
    h: Seq<(u64, Set<u32>)>,
    fields: Seq<String>,
    requests: Seq<AggregationRequest>,
    sums: Seq<Option<AggregationResult>>,
    order_by: Seq<OrderBy>,
    limit: usize,
    offset: usize,
    i: int,
)
    requires
        is_answer(r, t, h, fields, requests, sums, order_by, limit, offset),
        r.row_ids matches Some(ids) && 0 <= i < ids@.len(),
    ensures
        found_ids(h).contains(r.row_ids->0@[i]),
{
    let ids = r.row_ids->0@;
    let found = found_ids(h);
    if order_by.len() == 0 {
        assert(ids[i] == found[offset + i]);
    } else {
        let order = choose|order: Seq<usize>|
            {
                &&& #[trigger] ordered_by(
                    t,
                    found,
                    order,
                    order_by[0].field@,
                    order_by[0].direction,
                )
                &&& ids == page(arranged(found, order), offset as int, clipped(limit))
            };
        assert(ids[i] == arranged(found, order)[offset + i]);
        assert(ids[i] == found[order[offset + i] as int]);
    }
}

/// What a query asks to be counted: the kind, and what belongs to it.
pub struct AggregationRequest {
    pub kind: Option<String>,
    pub field: Option<String>,
    pub n: Option<u64>,
    pub group_by: Option<String>,
    pub expression: Option<String>,
}

/// One number over all rows: how many there are, or a sum, by its bits.
#[derive(PartialEq, Eq, Structural, Clone, Copy, Debug)]
pub enum Summary {
    Count(u64),
    Number(u64),
}

/// What was counted.
pub struct AggregationResult {
    pub headers: Vec<String>,
    pub rows: Vec<Vec<String>>,
    pub summary: Option<Summary>,
}

/// What an `AggregationResult` stands for.
#[verifier::ext_equal]
pub struct AggregationView {
    pub headers: Seq<Seq<char>>,
    pub rows: Seq<Seq<Seq<char>>>,
    pub summary: Option<Summary>,
}

impl View for AggregationResult {
    type V = AggregationView;

    open spec fn view(&self) -> AggregationView {
        AggregationView {
            headers: texts(self.headers@),
            rows: row_lists(self.rows@),
            summary: self.summary,
        }
    }
}

/// What the results of a list stand for.
pub open spec fn aggregation_views(v: Seq<AggregationResult>) -> Seq<AggregationView> {
    v.map_values(|a: AggregationResult| a@)
}

/// The text of an option.
pub open spec fn text_option(s: Option<String>) -> Option<Seq<char>> {
    match s {
        Some(x) => Some(x@),
        None => None,
    }
}

/// What is summed, and by what the sums are told apart: a field to group by comes
/// before one that is only named, and an expression before a field.
pub open spec fn sum_parts(
    group_by: Option<Seq<char>>,
    field: Option<Seq<char>>,
    expression: Option<Seq<char>>,
) -> (Option<Seq<char>>, Seq<char>) {
    let named = if field == Some("?"@) {
        None
    } else {
        field
    };
    match (group_by, named, expression) {
        (Some(g), _, Some(e)) => (Some(g), e),
        (Some(g), Some(f), None) => (Some(g), f),
        (None, Some(f), Some(e)) => (Some(f), e),
        (None, Some(f), None) => (Some(f), "0"@),
        (None, None, Some(e)) => (None, e),
        _ => (None, "0"@),
    }
}

/// What is summed, and by what the sums are told apart.
pub fn sum_inputs(request: &AggregationRequest) -> (r: (Option<String>, String))
    ensures
        (text_option(r.0), r.1@) == sum_parts(
            text_option(request.group_by),
            text_option(request.field),
            text_option(request.expression),
        ),
{
    let named: Option<&String> = match &request.field {
        Some(f) => if same_text(f.as_str(), "?") {
            None
        } else {
            Some(f)
        },
        None => None,
    };
    match (&request.group_by, named, &request.expression) {
        (Some(g), _, Some(e)) => (Some(g.clone()), e.clone()),
        (Some(g), Some(f), None) => (Some(g.clone()), f.clone()),
        (None, Some(f), Some(e)) => (Some(f.clone()), e.clone()),
        (None, Some(f), None) => (Some(f.clone()), "0".to_owned()),
        (None, None, Some(e)) => (None, e.clone()),
        _ => (None, "0".to_owned()),
    }
}

/// What `char::is_alphanumeric` answers: whether a character is a letter or a digit by
/// the tables of Unicode.
pub uninterp spec fn alphanumeric(c: char) -> bool;

/// `char::is_alphanumeric`: a fixed table of characters.
pub assume_specification[ char::is_alphanumeric ](c: char) -> (r: bool)
    ensures
        r == alphanumeric(c),
;

/// Whether an expression is a name: letters, digits and underscores alone.
pub open spec fn is_name(expression: Seq<char>) -> bool {
    forall|i: int| 0 <= i < expression.len() ==> alphanumeric(#[trigger] expression[i])
        || expression[i] == '_'
}

/// The headers over the sums of an expression: the field that is grouped by, and the
/// expression, where that is a name. Sums over all rows have none.
pub open spec fn sum_titles(group: Option<Seq<char>>, expression: Seq<char>) -> Seq<Seq<char>> {
    match group {
        Some(g) => seq![
            g,
            if is_name(expression) {
                expression + "_sum"@
            } else {
                "sum"@
            },
        ],
        None => Seq::empty(),
    }
}

/// The headers over the sums of an expression.
pub fn sum_headers(group: Option<&str>, expression: &str) -> (r: Vec<String>)
    ensures
        texts(r@) == sum_titles(
            match group {
                Some(g) => Some(g@),
                None => None,
            },
            expression@,
        ),
{
    let mut out: Vec<String> = Vec::new();
    let g = match group {
        Some(g) => g,
        None => {
            assert(texts(out@) =~= Seq::empty());
            return out;
        },
    };
    let cs = chars_of(expression);
    let mut i: usize = 0;
    while i < cs.len() && (cs[i].is_alphanumeric() || cs[i] == '_')
        invariant
            i <= cs@.len(),
            cs@ == expression@,
            forall|k: int| 0 <= k < i ==> alphanumeric(#[trigger] cs@[k]) || cs@[k] == '_',
        decreases cs@.len() - i,
    {
        i = i + 1;
    }
    let title = if i == cs.len() {
        cat2(expression, "_sum")
    } else {
        assert(!(alphanumeric(expression@[i as int]) || expression@[i as int] == '_'));
        "sum".to_owned()
    };
    out.push(g.to_owned());
    out.push(title);
    assert(texts(out@) =~= seq![g@, title@]);
    out
}

/// The count of a value, none where it does not occur.
pub open spec fn count_of(m: Map<Seq<char>, u64>, value: Seq<char>) -> nat {
    if m.contains_key(value) {
        m[value] as nat
    } else {
        0
    }
}

/// The counts of two parts together.
pub open spec fn counts_joined(a: Map<Seq<char>, u64>, b: Map<Seq<char>, u64>) -> Map<
    Seq<char>,
    u64,
> {
    Map::new(
        |v: Seq<char>| a.contains_key(v) || b.contains_key(v),
        |v: Seq<char>| capped(count_of(a, v) + count_of(b, v)),
    )
}

/// How often each value of a field occurs among the rows of one segment.
pub open spec fn segment_counts(t: TableView, hit: (u64, Set<u32>), field: Seq<char>) -> Map<
    Seq<char>,
    u64,
> {
    if t.active is Some && t.active->0.segment.id == hit.0 {
        field_counts(t.active->0.indexes, field, hit.1)
    } else {
        match first_segment(t.segments, hit.0) {
            Some(i) => field_counts(t.segments[i].indexes, field, hit.1),
            None => Map::empty(),
        }
    }
}

/// How often each value of a field occurs among the rows that were found.
pub open spec fn all_counts(t: TableView, h: Seq<(u64, Set<u32>)>, field: Seq<char>) -> Map<
    Seq<char>,
    u64,
>
    decreases h.len(),
{
    if h.len() == 0 {
        Map::empty()
    } else {
        counts_joined(
            all_counts(t, h.drop_last(), field),
            segment_counts(t, h.last(), field),
        )
    }
}

/// In what order counted values are listed.
#[derive(PartialEq, Eq, Structural, Clone, Copy, Debug)]
pub enum CountOrder {
    /// By the value, ascending.
    Ascending,
    /// By the value, descending.
    Descending,
    /// The greatest count first; of equal counts the first value.
    Frequency,
}

/// Whether a counted value may stand before another.
pub open spec fn counted_before(
    a: (Seq<char>, u64),
    b: (Seq<char>, u64),
    order: CountOrder,
) -> bool {
    match order {
        CountOrder::Ascending => !text_less(b.0, a.0),
        CountOrder::Descending => !text_less(a.0, b.0),
        CountOrder::Frequency => a.1 > b.1 || (a.1 == b.1 && !text_less(b.0, a.0)),
    }
}

/// Whether a list holds each value of a map once, with its count, in an order.
pub open spec fn lists_counts(
    l: Seq<(Seq<char>, u64)>,
    m: Map<Seq<char>, u64>,
    order: CountOrder,
) -> bool {
    &&& forall|i: int|
        #![trigger l[i]]
        0 <= i < l.len() ==> m.contains_key(l[i].0) && m[l[i].0] == l[i].1
    &&& forall|v: Seq<char>| #[trigger]
        m.contains_key(v) ==> exists|i: int| 0 <= i < l.len() && (#[trigger] l[i]).0 == v
    &&& forall|i: int, j: int|
        #![trigger l[i], l[j]]
        0 <= i < j < l.len() ==> l[i].0 != l[j].0 && counted_before(l[i], l[j], order)
}

/// A map can be listed in an order in one way only.
pub proof fn law_one_listing(
    a: Seq<(Seq<char>, u64)>,
    b: Seq<(Seq<char>, u64)>,
    m: Map<Seq<char>, u64>,
    order: CountOrder,
)
    requires
        lists_counts(a, m, order),
        lists_counts(b, m, order),
    ensures
        a == b,
    decreases a.len(),
{
    if a.len() == 0 {
        if b.len() > 0 {
            assert(m.contains_key(b[0].0));
        }
        assert(a =~= b);
    } else {
        assert(m.contains_key(a[0].0));
        let j = choose|j: int| 0 <= j < b.len() && (#[trigger] b[j]).0 == a[0].0;
        assert(m.contains_key(b[0].0));
        let i = choose|i: int| 0 <= i < a.len() && (#[trigger] a[i]).0 == b[0].0;
        assert(a[0] == b[0]) by {
            if j > 0 && i > 0 {
                assert(counted_before(a[0], a[i], order));
                assert(counted_before(b[0], b[j], order));
                assert(a[i].1 == b[0].1 && b[j].1 == a[0].1);
                lemma_text_less_total(a[0].0, b[0].0);
                assert(a[0].0 != a[i].0);
            }
        }
        let rest = m.remove(a[0].0);
        let x = a.skip(1);
        let y = b.skip(1);
        lemma_rest_listed(a, m, order);
        lemma_rest_listed(b, m, order);
        law_one_listing(x, y, rest, order);
        assert(a =~= seq![a[0]] + x);
        assert(b =~= seq![b[0]] + y);
    }
}

proof fn lemma_rest_listed(
    a: Seq<(Seq<char>, u64)>,
    m: Map<Seq<char>, u64>,
    order: CountOrder,
)
    requires
        lists_counts(a, m, order),
        a.len() > 0,
    ensures
        lists_counts(a.skip(1), m.remove(a[0].0), order),
{
    let x = a.skip(1);
    let rest = m.remove(a[0].0);
    assert forall|i: int|
        #![trigger x[i]]
        0 <= i < x.len() implies rest.contains_key(x[i].0) && rest[x[i].0] == x[i].1 by {
        assert(x[i] == a[i + 1]);
        assert(a[0].0 != a[i + 1].0);
    }
    assert forall|v: Seq<char>| #[trigger] rest.contains_key(v) implies exists|i: int|
        0 <= i < x.len() && (#[trigger] x[i]).0 == v by {
        assert(m.contains_key(v));
        let k = choose|k: int| 0 <= k < a.len() && (#[trigger] a[k]).0 == v;
        assert(x[k - 1].0 == v);
    }
    assert forall|i: int, j: int|
        #![trigger x[i], x[j]]
        0 <= i < j < x.len() implies x[i].0 != x[j].0 && counted_before(x[i], x[j], order) by {
        assert(a[i + 1].0 != a[j + 1].0);
    }
}

/// What the pairs of a list stand for.
pub open spec fn count_pairs(v: Seq<(String, u64)>) -> Seq<(Seq<char>, u64)> {
    v.map_values(|p: (String, u64)| (p.0@, p.1))
}

/// The sum of the counts of a list.
pub open spec fn count_sum(l: Seq<(Seq<char>, u64)>) -> nat
    decreases l.len(),
{
    if l.len() == 0 {
        0
    } else {
        count_sum(l.drop_last()) + l.last().1 as nat
    }
}

/// The rows of counted values: the value and its count.
pub open spec fn count_rows_of(l: Seq<(Seq<char>, u64)>) -> Seq<Seq<Seq<char>>> {
    l.map_values(|p: (Seq<char>, u64)| seq![p.0, decimal_spec(p.1 as nat)])
}

/// What counting a field comes to, by the listed values.
pub open spec fn count_view(field: Seq<char>, l: Seq<(Seq<char>, u64)>) -> AggregationView {
    AggregationView {
        headers: seq![field, "count"@],
        rows: count_rows_of(l),
        summary: Some(Summary::Count(capped(count_sum(l)))),
    }
}

fn comes_first(a: &(String, u64), b: &(String, u64), order: CountOrder) -> (r: bool)
    ensures
        r == counted_before((a.0@, a.1), (b.0@, b.1), order),
{
    match order {
        CountOrder::Ascending => !is_before(b.0.as_str(), a.0.as_str()),
        CountOrder::Descending => !is_before(a.0.as_str(), b.0.as_str()),
        CountOrder::Frequency => a.1 > b.1 || (a.1 == b.1 && !is_before(
            b.0.as_str(),
            a.0.as_str(),
        )),
    }
}

proof fn lemma_counted_order(
    a: (Seq<char>, u64),
    b: (Seq<char>, u64),
    c: (Seq<char>, u64),
    order: CountOrder,
)
    ensures
        counted_before(a, b, order) || counted_before(b, a, order),
        counted_before(a, b, order) && counted_before(b, c, order) ==> counted_before(a, c, order),
{
    lemma_text_less_asymmetric(a.0, b.0);
    lemma_not_less_transitive(a.0, b.0, c.0);
    lemma_not_less_transitive(c.0, b.0, a.0);
}

proof fn lemma_not_less_transitive(a: Seq<char>, b: Seq<char>, c: Seq<char>)
    ensures
        !text_less(b, a) && !text_less(c, b) ==> !text_less(c, a),
{
    if !text_less(b, a) && !text_less(c, b) && text_less(c, a) {
        lemma_text_less_total(a, b);
        if a != b {
            lemma_text_less_transitive(c, a, b);
        }
    }
}

/// Lists the values of a map in an order.
pub fn list_counts(m: &TextMap<u64>, order: CountOrder) -> (r: Vec<(String, u64)>)
    ensures
        lists_counts(count_pairs(r@), m@, order),
{
    let mut pairs: Vec<(String, u64)> = Vec::new();
    let n = m.len();
    let mut i: usize = 0;
    while i < n
        invariant
            i <= n == m.keys().len(),
            pairs@.len() == i,
            forall|k: int|
                0 <= k < i ==> (#[trigger] pairs@[k]).0@ == m.keys()[k] && pairs@[k].1
                    == m@[m.keys()[k]] && m@.contains_key(m.keys()[k]),
        decreases n - i,
    {
        pairs.push((m.key_at(i).to_owned(), *m.value_at(i)));
        i = i + 1;
    }
    let ghost view = count_pairs(pairs@);
    let ghost rel = |a: int, b: int| counted_before(view[a], view[b], order);
    let pairs_ref = &pairs;
    let le = |a: usize, b: usize| -> (r: bool)
        requires
            a < pairs_ref@.len(),
            b < pairs_ref@.len(),
        ensures
            r == counted_before(
                (pairs_ref@[a as int].0@, pairs_ref@[a as int].1),
                (pairs_ref@[b as int].0@, pairs_ref@[b as int].1),
                order,
            ),
    { comes_first(&pairs_ref[a], &pairs_ref[b], order) };
    proof {
        assert(orders_below(n as int, rel)) by {
            assert forall|a: int, b: int|
                #![trigger rel(a, b)]
                0 <= a < n && 0 <= b < n implies rel(a, b) || rel(b, a) by {
                lemma_counted_order(view[a], view[b], view[a], order);
            }
            assert forall|a: int, b: int, c: int|
                #![trigger rel(a, b), rel(b, c)]
                0 <= a < n && 0 <= b < n && 0 <= c < n && rel(a, b) && rel(b, c) implies rel(
                a,
                c,
            ) by {
                lemma_counted_order(view[a], view[b], view[c], order);
            }
        }
        assert(decides(n as int, le, rel));
    }
    let places = sort_indices(n, &le, Ghost(rel));
    let mut out: Vec<(String, u64)> = Vec::new();
    let mut k: usize = 0;
    while k < places.len()
        invariant
            k <= places@.len(),
            arrangement(places@, pairs@.len() as int),
            out@.len() == k,
            forall|j: int|
                0 <= j < k ==> (#[trigger] out@[j]).0@ == pairs@[places@[j] as int].0@ && out@[j].1
                    == pairs@[places@[j] as int].1,
        decreases places@.len() - k,
    {
        let at: usize = places[k];
        assert(at < pairs@.len());
        out.push((pairs[at].0.clone(), pairs[at].1));
        k = k + 1;
    }
    proof {
        let l = count_pairs(out@);
        let keys = m.keys();
        assert forall|i: int|
            #![trigger l[i]]
            0 <= i < l.len() implies m@.contains_key(l[i].0) && m@[l[i].0] == l[i].1 by {
            assert(out@[i].0@ == pairs@[places@[i] as int].0@);
            assert(pairs@[places@[i] as int].0@ == keys[places@[i] as int]);
        }
        assert forall|v: Seq<char>| #[trigger] m@.contains_key(v) implies exists|i: int|
            0 <= i < l.len() && (#[trigger] l[i]).0 == v by {
            assert(keys.to_set().contains(v));
            let j = choose|j: int| 0 <= j < keys.len() && keys[j] == v;
            crate::sorting::lemma_arrangement_onto(places@, n as int, j as usize);
            let i = choose|i: int| 0 <= i < places@.len() && places@[i] == j as usize;
            assert(out@[i].0@ == pairs@[j].0@);
            assert(l[i].0 == v);
        }
        assert forall|i: int, j: int|
            #![trigger l[i], l[j]]
            0 <= i < j < l.len() implies l[i].0 != l[j].0 && counted_before(l[i], l[j], order) by {
            assert(rel(places@[i] as int, places@[j] as int));
            assert(out@[i].0@ == pairs@[places@[i] as int].0@);
            assert(out@[j].0@ == pairs@[places@[j] as int].0@);
            assert(places@[i] != places@[j]);
            assert(keys[places@[i] as int] != keys[places@[j] as int]);
            assert(l[i] == view[places@[i] as int]);
            assert(l[j] == view[places@[j] as int]);
        }
    }
    out
}

/// What counting a field comes to, by the listed values.
pub fn count_table(field: &str, listed: &[(String, u64)]) -> (r: AggregationResult)
    ensures
        r@ == count_view(field@, count_pairs(listed@)),
{
    let ghost l = count_pairs(listed@);
    let mut rows: Vec<Vec<String>> = Vec::new();
    let mut total: u64 = 0;
    let mut i: usize = 0;
    assert(row_lists(rows@) =~= count_rows_of(l.take(0)));
    while i < listed.len()
        invariant
            i <= listed@.len(),
            l == count_pairs(listed@),
            row_lists(rows@) == count_rows_of(l.take(i as int)),
            total == capped(count_sum(l.take(i as int))),
        decreases listed@.len() - i,
    {
        let p = &listed[i];
        let mut row: Vec<String> = Vec::new();
        row.push(p.0.clone());
        row.push(decimal(p.1));
        let ghost before = row_lists(rows@);
        let ghost one = texts(row@);
        assert(one =~= seq![p.0@, decimal_spec(p.1 as nat)]);
        rows.push(row);
        total = capped_sum(total, p.1);
        proof {
            assert(l.take(i + 1).drop_last() =~= l.take(i as int));
            assert(l.take(i + 1).last() == l[i as int]);
            assert(row_lists(rows@) =~= before.push(one));
            assert(row_lists(rows@) =~= count_rows_of(l.take(i + 1)));
        }
        i = i + 1;
    }
    assert(l.take(i as int) =~= l);
    let mut headers: Vec<String> = Vec::new();
    headers.push(field.to_owned());
    headers.push("count".to_owned());
    assert(texts(headers@) =~= seq![field@, "count"@]);
    AggregationResult { headers, rows, summary: Some(Summary::Count(total)) }
}

/// The direction in which a query orders a field, ascending where it does not.
pub open spec fn direction_for(order_by: Seq<OrderBy>, field: Seq<char>) -> SortDirection
    decreases order_by.len(),
{
    if order_by.len() == 0 {
        SortDirection::Asc
    } else if order_by[0].field@ == field {
        order_by[0].direction
    } else {
        direction_for(order_by.skip(1), field)
    }
}

fn find_direction(order_by: &[OrderBy], field: &str) -> (r: SortDirection)
    ensures
        r == direction_for(order_by@, field@),
{
    let mut i: usize = 0;
    assert(order_by@.skip(0) =~= order_by@);
    while i < order_by.len()
        invariant
            i <= order_by@.len(),
            direction_for(order_by@, field@) == direction_for(order_by@.skip(i as int), field@),
        decreases order_by@.len() - i,
    {
        assert(order_by@.skip(i as int)[0] == order_by@[i as int]);
        assert(order_by@.skip(i as int).skip(1) =~= order_by@.skip(i + 1));
        if same_text(order_by[i].field.as_str(), field) {
            return order_by[i].direction;
        }
        i = i + 1;
    }
    SortDirection::Asc
}

/// The order in which the values of a field are grouped.
pub open spec fn group_order(order_by: Seq<OrderBy>, field: Seq<char>) -> CountOrder {
    match direction_for(order_by, field) {
        SortDirection::Asc => CountOrder::Ascending,
        SortDirection::Desc => CountOrder::Descending,
    }
}

/// The field that is counted; a question mark where none is named.
pub open spec fn counted_field(field: Option<String>) -> Seq<char> {
    match field {
        Some(f) => f@,
        None => "?"@,
    }
}

/// Whether a result is what a request asks for: the number of rows; the counts of
/// a field's values, all of them by the value or the most frequent ones; a sum as
/// it was worked out; and nothing for anything else.
pub open spec fn answers(
    r: AggregationView,
    t: TableView,
    h: Seq<(u64, Set<u32>)>,
    request: AggregationRequest,
    order_by: Seq<OrderBy>,
    sum: Option<AggregationView>,
) -> bool {
    let nothing = AggregationView { headers: Seq::empty(), rows: Seq::empty(), summary: None };
    match text_option(request.kind) {
        None => r == nothing,
        Some(kind) => if kind == "Count"@ {
            r == (AggregationView {
                summary: Some(Summary::Count(capped(listed_rows(h)))),
                ..nothing
            })
        } else if kind == "GroupBy"@ {
            exists|l: Seq<(Seq<char>, u64)>|
                {
                    &&& #[trigger] lists_counts(
                        l,
                        all_counts(t, h, counted_field(request.field)),
                        group_order(order_by, counted_field(request.field)),
                    )
                    &&& r == count_view(counted_field(request.field), l)
                }
        } else if kind == "TopN"@ {
            exists|l: Seq<(Seq<char>, u64)>|
                {
                    &&& #[trigger] lists_counts(
                        l,
                        all_counts(t, h, counted_field(request.field)),
                        CountOrder::Frequency,
                    )
                    &&& r == count_view(
                        counted_field(request.field),
                        page(
                            l,
                            0,
                            match request.n {
                                Some(n) => n as int,
                                None => 10,
                            },
                        ),
                    )
                }
        } else if kind == "Sum"@ {
            r == match sum {
                Some(s) => s,
                None => AggregationView {
                    headers: seq!["error"@],
                    rows: seq![seq!["Invalid expression"@]],
                    summary: None,
                },
            }
        } else {
            r == nothing
        },
    }
}

/// Copies the cells of several rows.
pub fn clone_rows(rows: &[Vec<String>]) -> (r: Vec<Vec<String>>)
    ensures
        row_lists(r@) == row_lists(rows@),
{
    let ghost want = row_lists(rows@);
    let mut out: Vec<Vec<String>> = Vec::new();
    let mut i: usize = 0;
    while i < rows.len()
        invariant
            i <= rows@.len(),
            want == row_lists(rows@),
            row_lists(out@) == want.take(i as int),
        decreases rows@.len() - i,
    {
        let ghost before = row_lists(out@);
        out.push(clone_texts(rows[i].as_slice()));
        i = i + 1;
        assert(row_lists(out@) =~= before.push(want[i - 1]));
        assert(row_lists(out@) =~= want.take(i as int));
    }
    assert(want.take(i as int) =~= want);
    out
}

impl Clone for AggregationResult {
    fn clone(&self) -> (r: Self)
        ensures
            r@ == self@,
    {
        AggregationResult {
            headers: clone_texts(self.headers.as_slice()),
            rows: clone_rows(self.rows.as_slice()),
            summary: self.summary,
        }
    }
}

/// What a sum comes to, if it was worked out.
pub open spec fn sum_option(s: Option<AggregationResult>) -> Option<AggregationView> {
    match s {
        Some(a) => Some(a@),
        None => None,
    }
}

/// The sum of a request, where one was worked out.
pub open spec fn sum_at(sums: Seq<Option<AggregationResult>>, i: int) -> Option<AggregationView> {
    if i < sums.len() {
        sum_option(sums[i])
    } else {
        None
    }
}

/// Whether the results are what the requests ask for, one by one.
pub open spec fn all_answered(
    results: Seq<AggregationView>,
    t: TableView,
    h: Seq<(u64, Set<u32>)>,
    requests: Seq<AggregationRequest>,
    order_by: Seq<OrderBy>,
    sums: Seq<Option<AggregationResult>>,
) -> bool {
    &&& results.len() == requests.len()
    &&& forall|i: int|
        0 <= i < requests.len() ==> answers(
            #[trigger] results[i],
            t,
            h,
            requests[i],
            order_by,
            sum_at(sums, i),
        )
}

impl Table {
    fn segment_counts(&self, id: u64, rows: &RowSet, field: &str) -> (r: TextMap<u64>)
        ensures
            r@ == segment_counts(self@, (id, rows@), field@),
    {
        if let Some(w) = &self.active {
            if w.segment.id == id {
                return w.get_counts(field, rows);
            }
        }
        match find_first(self.segments.as_slice(), id) {
            Some(i) => self.segments[i].get_counts_thread_safe(field, rows),
            None => TextMap::new(),
        }
    }

    /// How often each value of a field occurs among the rows that were found.
    pub fn count_field(&self, hits: &[(u64, RowSet)], field: &str) -> (r: TextMap<u64>)
        ensures
            r@ == all_counts(self@, postings(hits@), field@),
    {
        let ghost h = postings(hits@);
        let mut total: TextMap<u64> = TextMap::new();
        let mut i: usize = 0;
        while i < hits.len()
            invariant
                i <= hits@.len(),
                h == postings(hits@),
                total@ == all_counts(self@, h.take(i as int), field@),
            decreases hits@.len() - i,
        {
            let part = self.segment_counts(hits[i].0, &hits[i].1, field);
            assert(h.take(i + 1).drop_last() =~= h.take(i as int));
            assert(h.take(i + 1).last() == h[i as int]);
            join_counts(&mut total, &part);
            i = i + 1;
        }
        assert(h.take(i as int) =~= h);
        total
    }

    /// What a request asks for, of the rows that were found. A sum is worked out
    /// elsewhere and handed in.
    pub fn aggregate(
        &self,
        hits: &[(u64, RowSet)],
        request: &AggregationRequest,
        order_by: &[OrderBy],
        sum: &Option<AggregationResult>,
    ) -> (r: AggregationResult)
        ensures
            answers(
                r@,
                self@,
                postings(hits@),
                *request,
                order_by@,
                sum_option(*sum),
            ),
    {
        let nothing = AggregationResult { headers: Vec::new(), rows: Vec::new(), summary: None };
        proof {
            assert(nothing@ =~= (AggregationView {
                headers: Seq::empty(),
                rows: Seq::empty(),
                summary: None,
            }));
        }
        let kind = match &request.kind {
            Some(k) => k.as_str(),
            None => {
                return nothing;
            },
        };
        if same_text(kind, "Count") {
            let total: u64 = count_rows(hits);
            let r = AggregationResult { summary: Some(Summary::Count(total)), ..nothing };
            assert(r@ =~= (AggregationView {
                headers: Seq::empty(),
                rows: Seq::empty(),
                summary: Some(Summary::Count(capped(listed_rows(postings(hits@))))),
            }));
            return r;
        }
        let field = match &request.field {
            Some(f) => f.as_str(),
            None => "?",
        };
        if same_text(kind, "GroupBy") {
            let counts = self.count_field(hits, field);
            let order = match find_direction(order_by, field) {
                SortDirection::Asc => CountOrder::Ascending,
                SortDirection::Desc => CountOrder::Descending,
            };
            let listed = list_counts(&counts, order);
            return count_table(field, listed.as_slice());
        }
        if same_text(kind, "TopN") {
            let counts = self.count_field(hits, field);
            let mut listed = list_counts(&counts, CountOrder::Frequency);
            let ghost l = count_pairs(listed@);
            let n: u64 = match request.n {
                Some(n) => n,
                None => 10,
            };
            if n < listed.len() as u64 {
                listed.truncate(n as usize);
            }
            proof {
                assert(count_pairs(listed@) =~= page(l, 0, n as int));
            }
            return count_table(field, listed.as_slice());
        }
        if same_text(kind, "Sum") {
            return match sum {
                Some(s) => s.clone(),
                None => {
                    let mut headers: Vec<String> = Vec::new();
                    headers.push("error".to_owned());
                    let mut row: Vec<String> = Vec::new();
                    row.push("Invalid expression".to_owned());
                    let ghost one = texts(row@);
                    assert(one =~= seq!["Invalid expression"@]);
                    let mut rows: Vec<Vec<String>> = Vec::new();
                    rows.push(row);
                    assert(texts(headers@) =~= seq!["error"@]);
                    assert(row_lists(rows@) =~= seq![one]);
                    AggregationResult { headers, rows, summary: None }
                },
            };
        }
        nothing
    }

    /// What the requests ask for, one by one.
    pub fn aggregate_all(
        &self,
        hits: &[(u64, RowSet)],
        requests: &[AggregationRequest],
        order_by: &[OrderBy],
        sums: &[Option<AggregationResult>],
    ) -> (r: Vec<AggregationResult>)
        ensures
            all_answered(
                aggregation_views(r@),
                self@,
                postings(hits@),
                requests@,
                order_by@,
                sums@,
            ),
    {
        let mut out: Vec<AggregationResult> = Vec::new();
        let none: Option<AggregationResult> = None;
        let mut i: usize = 0;
        while i < requests.len()
            invariant
                i <= requests@.len(),
                out@.len() == i,
                none is None,
                forall|k: int|
                    0 <= k < i ==> answers(
                        (#[trigger] out@[k])@,
                        self@,
                        postings(hits@),
                        requests@[k],
                        order_by@,
                        sum_at(sums@, k),
                    ),
            decreases requests@.len() - i,
        {
            let sum = if i < sums.len() {
                &sums[i]
            } else {
                &none
            };
            let one = self.aggregate(hits, &requests[i], order_by, sum);
            out.push(one);
            i = i + 1;
        }
        proof {
            let v = aggregation_views(out@);
            assert forall|k: int| 0 <= k < requests@.len() implies answers(
                #[trigger] v[k],
                self@,
                postings(hits@),
                requests@[k],
                order_by@,
                sum_at(sums@, k),
            ) by {
                assert(v[k] == out@[k]@);
            }
        }
        out
    }
}

fn join_counts(total: &mut TextMap<u64>, part: &TextMap<u64>)
    ensures
        final(total)@ == counts_joined(old(total)@, part@),
{
    let ghost start = total@;
    let n = part.len();
    let mut i: usize = 0;
    assert(part@.restrict(part.keys().take(0).to_set()) =~= Map::empty());
    assert(total@ =~= counts_joined(start, part@.restrict(part.keys().take(0).to_set())));
    while i < n
        invariant
            i <= n == part.keys().len(),
            part.keys().no_duplicates(),
            part.keys().to_set() == part@.dom(),
            total@ == counts_joined(start, part@.restrict(part.keys().take(i as int).to_set())),
        decreases n - i,
    {
        let value = part.key_at(i);
        let count: u64 = *part.value_at(i);
        let had: u64 = match total.get(value) {
            Some(c) => *c,
            None => 0,
        };
        let ghost keys = part.keys();
        let ghost done = part@.restrict(keys.take(i as int).to_set());
        let ghost before = total@;
        proof {
            assert(keys.take(i + 1) =~= keys.take(i as int).push(value@));
            keys.take(i as int).lemma_push_to_set_commute(value@);
            assert(!keys.take(i as int).contains(value@)) by {
                if keys.take(i as int).contains(value@) {
                    let j = choose|j: int| 0 <= j < i && keys.take(i as int)[j] == value@;
                    assert(keys[j] == keys[i as int]);
                }
            }
            assert(part@.restrict(keys.take(i + 1).to_set()) =~= done.insert(value@, count));
            assert(!done.contains_key(value@));
            assert(had == count_of(start, value@));
        }
        total.insert(value, capped_sum(had, count));
        i = i + 1;
        assert(total@ =~= counts_joined(start, done.insert(value@, count)));
    }
    proof {
        assert(part.keys().take(i as int) =~= part.keys());
        assert(part@.restrict(part.keys().to_set()) =~= part@);
    }
}

/// What a query gives back.
pub struct QueryResult {
    pub headers: Vec<String>,
    pub rows: Vec<Vec<String>>,
    pub row_ids: Option<Vec<(u64, u32)>>,
    pub total_found: u64,
    pub aggregations: Option<Vec<AggregationResult>>,
}

/// Whether rows are the page that a query asks for: of all that were found, in
/// order by the first field that is ordered by, if any.
pub open spec fn is_page(
    ids: Seq<(u64, u32)>,
    t: TableView,
    h: Seq<(u64, Set<u32>)>,
    order_by: Seq<OrderBy>,
    offset: int,
    limit: int,
) -> bool {
    if order_by.len() == 0 {
        ids == page(found_ids(h), offset, limit)
    } else {
        exists|order: Seq<usize>|
            {
                &&& #[trigger] ordered_by(
                    t,
                    found_ids(h),
                    order,
                    order_by[0].field@,
                    order_by[0].direction,
                )
                &&& ids == page(arranged(found_ids(h), order), offset, limit)
            }
    }
}

/// At most this many rows are given back.
pub open spec fn clipped(limit: usize) -> int {
    if limit <= 100 {
        limit as int
    } else {
        100
    }
}

/// Whether a result is what a query asks for, of the rows that were found: what is
/// counted; and, unless only that is asked for, one page of rows.
pub open spec fn is_answer(
    r: QueryResult,
    t: TableView,
    h: Seq<(u64, Set<u32>)>,
    fields: Seq<String>,
    requests: Seq<AggregationRequest>,
    sums: Seq<Option<AggregationResult>>,
    order_by: Seq<OrderBy>,
    limit: usize,
    offset: usize,
) -> bool {
    &&& r.total_found == capped(listed_rows(h))
    &&& match r.aggregations {
        Some(a) => requests.len() > 0 && all_answered(
            aggregation_views(a@),
            t,
            h,
            requests,
            order_by,
            sums,
        ),
        None => requests.len() == 0,
    }
    &&& texts(r.headers@) == texts(fields)
    &&& if (requests.len() > 0 && fields.len() == 0) || limit == 0 {
        r.rows@.len() == 0 && r.row_ids is None
    } else {
        &&& r.row_ids is Some
        &&& is_page(r.row_ids->0@, t, h, order_by, offset as int, clipped(limit))
        &&& row_lists(r.rows@) == t.rows(r.row_ids->0@, texts(fields))
    }
}

impl Table {
    /// One page of the rows that were found.
    pub fn page_of(
        &self,
        hits: &[(u64, RowSet)],
        order_by: &[OrderBy],
        offset: usize,
        limit: usize,
    ) -> (r: Vec<(u64, u32)>)
        ensures
            is_page(r@, self@, postings(hits@), order_by@, offset as int, limit as int),
    {
        if order_by.len() == 0 {
            return page_ids(hits, offset, limit);
        }
        let ids = list_ids(hits);
        let sorted = self.order_rows(
            ids.as_slice(),
            order_by[0].field.as_str(),
            order_by[0].direction,
        );
        let ghost order = choose|order: Seq<usize>| #[trigger]
            ordered_by(self@, ids@, order, order_by@[0].field@, order_by@[0].direction) && sorted@
                == arranged(ids@, order);
        let mut out: Vec<(u64, u32)> = Vec::new();
        let n = sorted.len();
        let mut i: usize = offset;
        while i < n && out.len() < limit
            invariant
                n == sorted@.len(),
                offset <= i,
                offset < n ==> i <= n,
                offset >= n ==> i == offset,
                out@.len() == i - offset,
                out@.len() <= limit,
                forall|k: int| 0 <= k < out@.len() ==> out@[k] == sorted@[offset + k],
            decreases n - i,
        {
            out.push(sorted[i]);
            i = i + 1;
        }
        assert(out@ =~= page(sorted@, offset as int, limit as int));
        out
    }

    /// What a query asks for, of the rows that were found.
    pub fn answer(
        &self,
        hits: &[(u64, RowSet)],
        fields: &[String],
        requests: &[AggregationRequest],
        sums: &[Option<AggregationResult>],
        order_by: &[OrderBy],
        limit: usize,
        offset: usize,
    ) -> (r: QueryResult)
        ensures
            is_answer(
                r,
                self@,
                postings(hits@),
                fields@,
                requests@,
                sums@,
                order_by@,
                limit,
                offset,
            ),
    {
        let total_found: u64 = count_rows(hits);
        let aggregations = if requests.len() > 0 {
            Some(self.aggregate_all(hits, requests, order_by, sums))
        } else {
            None
        };
        let headers = clone_texts(fields);
        if (requests.len() > 0 && fields.len() == 0) || limit == 0 {
            return QueryResult {
                headers,
                rows: Vec::new(),
                row_ids: None,
                total_found,
                aggregations,
            };
        }
        let most: usize = if limit <= 100 {
            limit
        } else {
            100
        };
        let ids = self.page_of(hits, order_by, offset, most);
        let rows = self.get_rows_batch(fields, ids.as_slice());
        QueryResult { headers, rows, row_ids: Some(ids), total_found, aggregations }
    }

    /// The rows of some entries that meet a filter.
    fn keep_meeting(&self, hits: &[(u64, RowSet)], filter: &Filter) -> (r: Vec<(u64, RowSet)>)
        ensures
            postings(r@) == meeting(self@, postings(hits@), filter@),
    {
        let ghost view = postings(hits@);
        let mut out: Vec<(u64, RowSet)> = Vec::new();
        let mut i: usize = 0;
        assert(postings(out@) =~= Seq::empty());
        assert(view.take(0) =~= Seq::empty());
        while i < hits.len()
            invariant
                i <= hits@.len(),
                view == postings(hits@),
                postings(out@) == meeting(self@, view.take(i as int), filter@),
            decreases hits@.len() - i,
        {
            assert(view.take(i + 1).drop_last() =~= view.take(i as int));
            assert(view.take(i + 1).last() == view[i as int]);
            let id: u64 = hits[i].0;
            let rows = self.rows_meeting(id, &hits[i].1, filter);
            if !rows.is_empty() {
                let ghost before = postings(out@);
                let ghost one = rows@;
                out.push((id, rows));
                assert(postings(out@) =~= before.push((id, one)));
            }
            i = i + 1;
        }
        assert(view.take(i as int) =~= view);
        out
    }

    fn rows_meeting(&self, id: u64, rows: &RowSet, filter: &Filter) -> (r: RowSet)
        ensures
            r@ == rows@.filter(|row: u32| place_meets(self@, (id, row), filter@)),
    {
        let all = rows.ids();
        let mut out = RowSet::new();
        let mut i: usize = 0;
        while i < all.len()
            invariant
                i <= all@.len(),
                all@.to_set() == rows@,
                forall|row: u32| #[trigger]
                    out@.contains(row) <==> all@.take(i as int).contains(row) && place_meets(
                        self@,
                        (id, row),
                        filter@,
                    ),
            decreases all@.len() - i,
        {
            let row: u32 = all[i];
            let text = match self.holder(id) {
                Some(s) => s.read_cell(filter.field.as_str(), row),
                None => String::new(),
            };
            assert(text@ =~= self@.cell((id, row), filter@.field));
            let value = self.reading(text.as_str());
            let met = filter.holds(&value);
            if met {
                out.insert(row);
            }
            proof {
                let a = all@.take(i as int);
                let b = all@.take(i + 1);
                assert(b =~= a.push(row));
                assert forall|x: u32| b.contains(x) <==> a.contains(x) || x == row by {
                    if a.contains(x) {
                        let k = choose|k: int| 0 <= k < a.len() && a[k] == x;
                        assert(b[k] == x);
                    }
                    if x == row {
                        assert(b[i as int] == x);
                    }
                }
            }
            i = i + 1;
        }
        proof {
            assert(all@.take(i as int) =~= all@);
            assert forall|row: u32| rows@.contains(row) <==> all@.contains(row) by {
                assert(all@.to_set().contains(row) <==> all@.contains(row));
            }
            assert(out@ =~= rows@.filter(|row: u32| place_meets(self@, (id, row), filter@)));
        }
        out
    }

    /// The rows that a query finds for who asks.
    pub fn find_visible_rows(
        &mut self,
        filters: &[Filter],
        filters_op: LogicalOp,
        auth_context: Option<&AuthContext>,
        auth_table: &str,
        max_fields: usize,
    ) -> (r: Result<Vec<(u64, RowSet)>, TableError>)
        requires
            old(self).wf(),
        ensures
            ({
                let (found, after) = visible_rows(
                    old(self)@,
                    auth_table@,
                    auth_option(auth_context),
                    filter_views(filters@),
                    filters_op,
                    max_fields as int,
                );
                &&& final(self)@ == after
                &&& match r {
                    Ok(h) => found == Lookup::Found(postings(h@)),
                    Err(_) => found is Failed,
                }
            }),
            same_but_cache(final(self)@, old(self)@),
            final(self).wf(),
    {
        let (all, op) = guard_filters(
            self.name.as_str(),
            auth_table,
            auth_context,
            filters,
            filters_op,
        );
        let ghost start = self@;
        match self.find_rows(all.as_slice(), op, max_fields) {
            Err(e) => Err(e),
            Ok(hits) => {
                if let Some(a) = auth_context {
                    if guards(self.name.as_str(), auth_table) {
                        let own = own_filter(a);
                        proof {
                            lemma_meeting_cache(start, self@, postings(hits@), own@);
                        }
                        return Ok(self.keep_meeting(hits.as_slice(), &own));
                    }
                }
                Ok(hits)
            },
        }
    }

    /// Answers a query. Who asks sees only their own rows, except of the tables of
    /// sessions and users. Sums are worked out elsewhere and handed in.
    pub fn search(
        &mut self,
        fields: &[String],
        filters: &[Filter],
        filters_op: LogicalOp,
        aggregations: &[AggregationRequest],
        sums: &[Option<AggregationResult>],
        order_by: &[OrderBy],
        limit: usize,
        offset: usize,
        auth_context: Option<&AuthContext>,
        auth_table: &str,
        max_fields: usize,
    ) -> (r: Result<QueryResult, TableError>)
        requires
            old(self).wf(),
        ensures
            ({
                let (found, after) = visible_rows(
                    old(self)@,
                    auth_table@,
                    auth_option(auth_context),
                    filter_views(filters@),
                    filters_op,
                    max_fields as int,
                );
                &&& final(self)@ == after
                &&& match r {
                    Ok(q) => found is Found && is_answer(
                        q,
                        old(self)@,
                        found->Found_0,
                        fields@,
                        aggregations@,
                        sums@,
                        order_by@,
                        limit,
                        offset,
                    ),
                    Err(_) => found is Failed,
                }
            }),
            same_but_cache(final(self)@, old(self)@),
            cache_listed(final(self)@),
            final(self).wf(),
    {
        let ghost start = self@;
        let found = self.find_visible_rows(
            filters,
            filters_op,
            auth_context,
            auth_table,
            max_fields,
        );
        proof {
            use_type_invariant(&self.cache);
            self.cache.lemma_keys();
        }
        match found {
            Err(e) => Err(e),
            Ok(hits) => {
                let r = self.answer(
                    hits.as_slice(),
                    fields,
                    aggregations,
                    sums,
                    order_by,
                    limit,
                    offset,
                );
                proof {
                    lemma_answer_cache(
                        r,
                        start,
                        self@,
                        postings(hits@),
                        fields@,
                        aggregations@,
                        sums@,
                        order_by@,
                        limit,
                        offset,
                    );
                }
                Ok(r)
            },
        }
    }
}

proof fn lemma_meeting_cache(
    a: TableView,
    b: TableView,
    h: Seq<(u64, Set<u32>)>,
    f: FilterView,
)
    requires
        same_but_cache(b, a),
    ensures
        meeting(a, h, f) == meeting(b, h, f),
    decreases h.len(),
{
    if h.len() > 0 {
        lemma_meeting_cache(a, b, h.drop_last(), f);
        let (id, rows) = h.last();
        assert(rows.filter(|row: u32| place_meets(a, (id, row), f)) =~= rows.filter(
            |row: u32| place_meets(b, (id, row), f),
        ));
    }
}

proof fn lemma_counts_cache(
    a: TableView,
    b: TableView,
    h: Seq<(u64, Set<u32>)>,
    field: Seq<char>,
)
    requires
        same_but_cache(b, a),
    ensures
        all_counts(a, h, field) == all_counts(b, h, field),
    decreases h.len(),
{
    if h.len() > 0 {
        lemma_counts_cache(a, b, h.drop_last(), field);
    }
}

proof fn lemma_answer_cache(
    r: QueryResult,
    a: TableView,
    b: TableView,
    h: Seq<(u64, Set<u32>)>,
    fields: Seq<String>,
    requests: Seq<AggregationRequest>,
    sums: Seq<Option<AggregationResult>>,
    order_by: Seq<OrderBy>,
    limit: usize,
    offset: usize,
)
    requires
        same_but_cache(b, a),
        is_answer(r, b, h, fields, requests, sums, order_by, limit, offset),
    ensures
        is_answer(r, a, h, fields, requests, sums, order_by, limit, offset),
{
    if r.aggregations is Some {
        let v = aggregation_views(r.aggregations->0@);
        assert forall|i: int| 0 <= i < requests.len() implies answers(
            #[trigger] v[i],
            a,
            h,
            requests[i],
            order_by,
            sum_at(sums, i),
        ) by {
            lemma_counts_cache(a, b, h, counted_field(requests[i].field));
            assert(answers(v[i], b, h, requests[i], order_by, sum_at(sums, i)));
        }
    }
    if r.row_ids is Some {
        let ids = r.row_ids->0@;
        assert(a.rows(ids, texts(fields)) =~= b.rows(ids, texts(fields))) by {
            assert forall|i: int| 0 <= i < ids.len() implies a.rows(ids, texts(fields))[i]
                == b.rows(ids, texts(fields))[i] by {
                assert(a.row(ids[i], texts(fields)) =~= b.row(ids[i], texts(fields)));
            }
        }
        if order_by.len() > 0 {
            let f = order_by[0].field@;
            let d = order_by[0].direction;
            let order = choose|order: Seq<usize>|
                {
                    &&& #[trigger] ordered_by(b, found_ids(h), order, f, d)
                    &&& ids == page(
                        arranged(found_ids(h), order),
                        offset as int,
                        clipped(limit),
                    )
                };
            assert(ordered_by(a, found_ids(h), order, f, d));
        }
    }
}

/// The JSON text of what an aggregation is told, where that is an object or a list.
pub open spec fn told_text(c: JsonCellView) -> Option<Seq<char>> {
    match c {
        JsonCellView::Other(t) => Some(t),
        _ => None,
    }
}

/// Whether a request is the one that the members of an object tell: the first names the
/// kind, and its value the rest.
pub open spec fn is_request_of(
    q: AggregationRequest,
    members: Seq<(Seq<char>, JsonCellView)>,
) -> bool {
    &&& members.len() > 0
    &&& text_option(q.kind) == Some(members[0].0)
    &&& match told_text(members[0].1) {
        Some(t) => {
            &&& text_option(q.field) == json_string_at(t, "/field"@)
            &&& q.n == json_number_at(t, "/n"@)
            &&& text_option(q.group_by) == json_string_at(t, "/group_by"@)
            &&& text_option(q.expression) == json_string_at(t, "/expression"@)
        },
        None => q.field is None && q.n is None && q.group_by is None && q.expression is None,
    }
}

impl AggregationRequest {
    /// The request that the members of an object tell; nothing where there are none.
    pub fn of_members(members: &Vec<(String, JsonCell)>) -> (r: Option<AggregationRequest>)
        ensures
            match r {
                Some(q) => is_request_of(q, members_view(members@)),
                None => members@.len() == 0,
            },
    {
        if members.len() == 0 {
            return None;
        }
        assert(members_view(members@)[0] == (members@[0].0@, members@[0].1@));
        let kind = Some(members[0].0.as_str().to_owned());
        match &members[0].1 {
            JsonCell::Other(t) => Some(
                AggregationRequest {
                    kind,
                    field: string_at(t.as_str(), "/field"),
                    n: number_at(t.as_str(), "/n"),
                    group_by: string_at(t.as_str(), "/group_by"),
                    expression: string_at(t.as_str(), "/expression"),
                },
            ),
            _ => Some(
                AggregationRequest { kind, field: None, n: None, group_by: None, expression: None },
            ),
        }
    }

    /// The request that a JSON text tells: one without a kind where the text holds no
    /// object, and nothing where the object has no members.
    pub fn parse(text: &str) -> (r: Option<AggregationRequest>)
        ensures
            match json_members(text@) {
                Some(m) => match r {
                    Some(q) => is_request_of(q, m),
                    None => m.len() == 0,
                },
                None => r is Some && r->0.kind is None,
            },
    {
        match parse_members(text) {
            Some(m) => AggregationRequest::of_members(&m),
            None => Some(
                AggregationRequest {
                    kind: None,
                    field: None,
                    n: None,
                    group_by: None,
                    expression: None,
                },
            ),
        }
    }
}

} // verus!
