//! Segments: the rows of a table column by column, with an index per field.

use crate::column::{law_append_cell, law_read_back, Column, ColumnView};
use crate::manifest::{bounds_map, clone_bounds, Bounds, BoundsView, SegmentMeta};
use crate::rowset::RowSet;
use crate::text::{
    decimal4, decimal_spec, is_before, pad4_spec, parse_number, parsed_number, starts_with_text,
    text_between, chars_of, text_less, texts, Place,
};
use crate::textmap::TextMap;
use crate::types::{
    compare_places, filter_views, value_place, ComparisonOp, Filter, FilterView, LogicalOp, Scalar,
    ScalarView,
};
use vstd::prelude::*;

verus! {

/// A value of a field, and the rows that hold it.
pub struct Posting {
    pub value: Scalar,
    pub rows: RowSet,
}

impl View for Posting {
    type V = (ScalarView, Set<u32>);

    open spec fn view(&self) -> (ScalarView, Set<u32>) {
        (self.value@, self.rows@)
    }
}

impl Clone for Posting {
    fn clone(&self) -> (r: Self)
        ensures
            r@ == self@,
    {
        Posting { value: self.value.clone(), rows: self.rows.clone() }
    }
}

/// The values of a field, by their texts, and the rows that hold each.
pub open spec fn index_view(m: Map<Seq<char>, Posting>) -> Map<Seq<char>, (ScalarView, Set<u32>)> {
    m.map_values(|p: Posting| p@)
}

/// The values of each field.
pub open spec fn indexes_view(m: Map<Seq<char>, TextMap<Posting>>) -> Map<
    Seq<char>,
    Map<Seq<char>, (ScalarView, Set<u32>)>,
> {
    m.map_values(|t: TextMap<Posting>| index_view(t@))
}

/// The columns by their names.
pub open spec fn columns_view(m: Map<Seq<char>, Column>) -> Map<Seq<char>, ColumnView> {
    m.map_values(|c: Column| c@)
}

/// The cells of a row by the names of their columns.
pub open spec fn row_view(m: Map<Seq<char>, Scalar>) -> Map<Seq<char>, ScalarView> {
    m.map_values(|s: Scalar| s@)
}

/// A part of a table's rows.
pub struct Segment {
    pub id: u64,
    pub is_immutable: bool,
    /// The bounds of each column.
    pub min_max: TextMap<Bounds>,
    /// The rows that were deleted.
    pub deleted_bitmap: RowSet,
    pub record_count: u64,
    pub columns: TextMap<Column>,
    /// The saved index of each field.
    pub bitmaps: TextMap<TextMap<Posting>>,
}

/// The name of a segment's directory.
pub open spec fn dir_name_spec(id: u64) -> Seq<char> {
    "seg_"@ + pad4_spec(decimal_spec(id as nat))
}

/// The name of a segment's directory.
pub fn dir_name(id: u64) -> (r: String)
    ensures
        r@ == dir_name_spec(id),
{
    let mut out = String::new();
    out.append("seg_");
    out.append(decimal4(id).as_str());
    assert(out@ =~= dir_name_spec(id));
    out
}

/// The number of the segment in a directory of that name; zero where the name
/// does not tell.
pub open spec fn id_from_name(name: Seq<char>) -> u64 {
    if "seg_"@.is_prefix_of(name) {
        match parsed_number(name.skip(4)) {
            Some(n) => n,
            None => 0,
        }
    } else {
        0
    }
}

/// The number of the segment in a directory of that name.
pub fn segment_id_of(name: &str) -> (r: u64)
    ensures
        r == id_from_name(name@),
{
    proof {
        reveal_strlit("seg_");
    }
    if !starts_with_text(name, "seg_") {
        return 0;
    }
    let cs = chars_of(name);
    let rest = text_between(cs.as_slice(), 4, cs.len());
    assert(rest@ =~= name@.skip(4));
    match parse_number(rest.as_str()) {
        Some(n) => n,
        None => 0,
    }
}

/// The bounds with one more value.
pub open spec fn widened(b: Option<BoundsView>, v: ScalarView) -> BoundsView {
    match b {
        None => BoundsView { min: v, max: v },
        Some(b) => BoundsView {
            min: if text_less(v.text, b.min.text) {
                v
            } else {
                b.min
            },
            max: if text_less(b.max.text, v.text) {
                v
            } else {
                b.max
            },
        },
    }
}

/// What a map has under a key.
pub open spec fn under<V>(m: Map<Seq<char>, V>, k: Seq<char>) -> Option<V> {
    if m.contains_key(k) {
        Some(m[k])
    } else {
        None
    }
}

fn widen(bounds: &mut TextMap<Bounds>, column: &str, value: &Scalar)
    ensures
        bounds_map(final(bounds)@) == bounds_map(old(bounds)@).insert(
            column@,
            widened(under(bounds_map(old(bounds)@), column@), value@),
        ),
{
    let ghost before = bounds_map(bounds@);
    let wide: Bounds = match bounds.get(column) {
        None => {
            assert(!before.contains_key(column@));
            Bounds { min: value.clone(), max: value.clone() }
        },
        Some(b) => {
            assert(before[column@] == b@);
            let min = if is_before(value.text.as_str(), b.min.text.as_str()) {
                value.clone()
            } else {
                b.min.clone()
            };
            let max = if is_before(b.max.text.as_str(), value.text.as_str()) {
                value.clone()
            } else {
                b.max.clone()
            };
            Bounds { min, max }
        },
    };
    let ghost w = wide@;
    assert(w =~= widened(under(before, column@), value@));
    bounds.insert(column, wide);
    assert(bounds_map(bounds@) =~= before.insert(column@, w));
}

/// Whether the bounds of a column show that no cell of it can meet the filter.
/// All but `Between` are compared as texts.
pub open spec fn prunes(b: BoundsView, f: FilterView) -> bool {
    match f.op {
        ComparisonOp::Eq => text_less(f.value.text, b.min.text) || text_less(
            b.max.text,
            f.value.text,
        ),
        ComparisonOp::Gt => !text_less(f.value.text, b.max.text),
        ComparisonOp::Gte => text_less(b.max.text, f.value.text),
        ComparisonOp::Lt => !text_less(b.min.text, f.value.text),
        ComparisonOp::Lte => text_less(f.value.text, b.min.text),
        ComparisonOp::Between => match f.value_to {
            Some(upper) => value_place(b.max, f.value, f.field_type) == Some(Place::Less)
                || value_place(b.min, upper, f.field_type) == Some(Place::Greater),
            None => false,
        },
        _ => false,
    }
}

fn can_skip(b: &Bounds, f: &Filter) -> (r: bool)
    ensures
        r == prunes(b@, f@),
{
    let value = f.value.text.as_str();
    let min = b.min.text.as_str();
    let max = b.max.text.as_str();
    match f.op {
        ComparisonOp::Eq => is_before(value, min) || is_before(max, value),
        ComparisonOp::Gt => !is_before(value, max),
        ComparisonOp::Gte => is_before(max, value),
        ComparisonOp::Lt => !is_before(min, value),
        ComparisonOp::Lte => is_before(value, min),
        ComparisonOp::Between => match &f.value_to {
            Some(upper) => compare_places(&b.max, &f.value, f.field_type) == Some(Place::Less)
                || compare_places(&b.min, upper, f.field_type) == Some(Place::Greater),
            None => false,
        },
        _ => false,
    }
}

/// Whether the row holds a value of the field that meets the filter.
pub open spec fn row_meets(
    ix: Map<Seq<char>, (ScalarView, Set<u32>)>,
    f: FilterView,
    row: u32,
) -> bool {
    exists|k: Seq<char>| #[trigger]
        ix.contains_key(k) && f.holds(ix[k].0) && ix[k].1.contains(row)
}

/// The rows that an index gives for a filter. Where the field has the very text
/// that is asked to be equal, these are the rows that hold it.
pub open spec fn rows_matching(
    ix: Map<Seq<char>, (ScalarView, Set<u32>)>,
    f: FilterView,
) -> Set<u32> {
    if f.op == ComparisonOp::Eq && ix.contains_key(f.value.text) {
        ix[f.value.text].1
    } else {
        Set::new(|row: u32| row_meets(ix, f, row))
    }
}

/// The rows that an index gives for a filter.
pub fn bitmap_matches_for_filter(bitmaps: &TextMap<Posting>, filter: &Filter) -> (r: RowSet)
    ensures
        r@ == rows_matching(index_view(bitmaps@), filter@),
{
    let ghost ix = index_view(bitmaps@);
    if filter.op == ComparisonOp::Eq {
        if let Some(p) = bitmaps.get(filter.value.text.as_str()) {
            assert(ix[filter.value.text@] == p@);
            return p.rows.clone();
        }
    }
    let mut rows = RowSet::new();
    let n = bitmaps.len();
    let mut i: usize = 0;
    while i < n
        invariant
            i <= n == bitmaps.keys().len(),
            ix == index_view(bitmaps@),
            bitmaps.keys().to_set() == bitmaps@.dom(),
            forall|row: u32| #[trigger]
                rows@.contains(row) <==> exists|j: int|
                    0 <= j < i && filter@.holds(ix[#[trigger] bitmaps.keys()[j]].0)
                        && ix[bitmaps.keys()[j]].1.contains(row),
        decreases n - i,
    {
        let p = bitmaps.value_at(i);
        assert(ix[bitmaps.keys()[i as int]] == p@);
        let ghost before = rows@;
        if filter.holds(&p.value) {
            rows.union_with(&p.rows);
        }
        proof {
            assert forall|row: u32| #[trigger] rows@.contains(row) <==> exists|j: int|
                0 <= j < i + 1 && filter@.holds(ix[#[trigger] bitmaps.keys()[j]].0)
                    && ix[bitmaps.keys()[j]].1.contains(row) by {
                if rows@.contains(row) && !before.contains(row) {
                    assert(ix[bitmaps.keys()[i as int]].1.contains(row));
                }
                if before.contains(row) {
                    let j = choose|j: int|
                        0 <= j < i && filter@.holds(ix[#[trigger] bitmaps.keys()[j]].0)
                            && ix[bitmaps.keys()[j]].1.contains(row);
                    assert(ix[bitmaps.keys()[j]].1.contains(row));
                }
            }
        }
        i = i + 1;
    }
    proof {
        assert forall|row: u32| #[trigger] rows@.contains(row) <==> row_meets(ix, filter@, row) by {
            if rows@.contains(row) {
                let j = choose|j: int|
                    0 <= j < i && filter@.holds(ix[#[trigger] bitmaps.keys()[j]].0)
                        && ix[bitmaps.keys()[j]].1.contains(row);
                let k = bitmaps.keys()[j];
                assert(bitmaps.keys().to_set().contains(k));
                assert(ix.contains_key(k));
            }
            if row_meets(ix, filter@, row) {
                let k = choose|k: Seq<char>| #[trigger]
                    ix.contains_key(k) && filter@.holds(ix[k].0) && ix[k].1.contains(row);
                assert(bitmaps.keys().to_set().contains(k));
                let j = choose|j: int| 0 <= j < n && bitmaps.keys()[j] == k;
                assert(bitmaps.keys()[j] == k);
            }
        }
        assert(rows@ =~= Set::new(|row: u32| row_meets(ix, filter@, row)));
    }
    rows
}

/// The filters that have a field and a value.
pub open spec fn complete_filters(fs: Seq<FilterView>) -> Seq<FilterView>
    decreases fs.len(),
{
    if fs.len() == 0 {
        Seq::empty()
    } else if fs.last().complete() {
        complete_filters(fs.drop_last()).push(fs.last())
    } else {
        complete_filters(fs.drop_last())
    }
}

/// The rows that the index of the filter's field gives for it; none where the
/// field has no index.
pub open spec fn field_rows(
    indexes: Map<Seq<char>, Map<Seq<char>, (ScalarView, Set<u32>)>>,
    f: FilterView,
) -> Set<u32> {
    if indexes.contains_key(f.field) {
        rows_matching(indexes[f.field], f)
    } else {
        Set::empty()
    }
}

/// The rows of several filters combined.
pub open spec fn combined_rows(
    indexes: Map<Seq<char>, Map<Seq<char>, (ScalarView, Set<u32>)>>,
    fs: Seq<FilterView>,
    op: LogicalOp,
) -> Set<u32>
    decreases fs.len(),
{
    if fs.len() == 0 {
        Set::empty()
    } else if fs.len() == 1 {
        field_rows(indexes, fs[0])
    } else {
        let before = combined_rows(indexes, fs.drop_last(), op);
        match op {
            LogicalOp::And => before.intersect(field_rows(indexes, fs.last())),
            LogicalOp::Or => before.union(field_rows(indexes, fs.last())),
        }
    }
}

/// Whether the bounds of one of the filters' columns show that there is nothing
/// to find.
pub open spec fn pruned(bounds: Map<Seq<char>, BoundsView>, fs: Seq<FilterView>) -> bool {
    exists|i: int|
        0 <= i < fs.len() && bounds.contains_key((#[trigger] fs[i]).field) && prunes(
            bounds[fs[i].field],
            fs[i],
        )
}

/// The rows that a search of a segment finds.
pub open spec fn searched(
    filters: Seq<FilterView>,
    op: LogicalOp,
    count: int,
    bounds: Map<Seq<char>, BoundsView>,
    deleted: Set<u32>,
    indexes: Map<Seq<char>, Map<Seq<char>, (ScalarView, Set<u32>)>>,
) -> Set<u32> {
    let fs = complete_filters(filters);
    if fs.len() == 0 {
        Set::new(|row: u32| row < count).difference(deleted)
    } else if pruned(bounds, fs) {
        Set::empty()
    } else {
        combined_rows(indexes, fs, op).difference(deleted)
    }
}

fn search_rows(
    filters: &[Filter],
    op: LogicalOp,
    count: u32,
    bounds: &TextMap<Bounds>,
    deleted: &RowSet,
    bitmaps: &TextMap<TextMap<Posting>>,
) -> (r: RowSet)
    ensures
        r@ == searched(
            filter_views(filters@),
            op,
            count as int,
            bounds_map(bounds@),
            deleted@,
            indexes_view(bitmaps@),
        ),
{
    let ghost all = filter_views(filters@);
    let ghost fs = complete_filters(all);
    let ghost indexes = indexes_view(bitmaps@);
    let ghost bmap = bounds_map(bounds@);
    let mut valid: Vec<&Filter> = Vec::new();
    let mut i: usize = 0;
    assert(all.take(0) =~= Seq::<FilterView>::empty());
    while i < filters.len()
        invariant
            i <= filters@.len(),
            all == filter_views(filters@),
            valid@.len() == complete_filters(all.take(i as int)).len(),
            forall|k: int|
                0 <= k < valid@.len() ==> (#[trigger] valid@[k])@ == complete_filters(
                    all.take(i as int),
                )[k],
        decreases filters@.len() - i,
    {
        assert(all.take(i + 1).drop_last() =~= all.take(i as int));
        assert(all.take(i + 1).last() == filters@[i as int]@);
        let f = &filters[i];
        if f.is_complete() {
            valid.push(f);
        }
        i = i + 1;
    }
    assert(all.take(i as int) =~= all);
    if valid.len() == 0 {
        let mut rows = RowSet::below(count);
        rows.subtract(deleted);
        return rows;
    }
    let mut j: usize = 0;
    while j < valid.len()
        invariant
            j <= valid@.len() == fs.len(),
            valid@.len() > 0,
            fs == complete_filters(filter_views(filters@)),
            bmap == bounds_map(bounds@),
            forall|k: int| 0 <= k < valid@.len() ==> (#[trigger] valid@[k])@ == fs[k],
            forall|k: int|
                0 <= k < j ==> !(bmap.contains_key((#[trigger] fs[k]).field) && prunes(
                    bmap[fs[k].field],
                    fs[k],
                )),
        decreases valid@.len() - j,
    {
        let f = valid[j];
        assert(valid@[j as int]@ == fs[j as int]);
        if let Some(b) = bounds.get(f.field.as_str()) {
            assert(bmap[f.field@] == b@);
            if can_skip(b, f) {
                assert(bmap.contains_key(fs[j as int].field));
                return RowSet::new();
            }
        }
        j = j + 1;
    }
    assert(!pruned(bmap, fs));
    let mut rows = RowSet::new();
    let mut k: usize = 0;
    while k < valid.len()
        invariant
            k <= valid@.len() == fs.len(),
            indexes == indexes_view(bitmaps@),
            forall|m: int| 0 <= m < valid@.len() ==> (#[trigger] valid@[m])@ == fs[m],
            rows@ == combined_rows(indexes, fs.take(k as int), op),
        decreases valid@.len() - k,
    {
        let f = valid[k];
        assert(valid@[k as int]@ == fs[k as int]);
        let found = match bitmaps.get(f.field.as_str()) {
            Some(ix) => {
                assert(indexes[f.field@] == index_view(ix@));
                bitmap_matches_for_filter(ix, f)
            },
            None => RowSet::new(),
        };
        assert(found@ =~= field_rows(indexes, fs[k as int]));
        assert(fs.take(k + 1).drop_last() =~= fs.take(k as int));
        assert(fs.take(k + 1).last() == fs[k as int]);
        if k == 0 {
            rows = found;
            assert(fs.take(1)[0] == fs[0]);
        } else {
            match op {
                LogicalOp::And => {
                    rows = rows.intersection(&found);
                },
                LogicalOp::Or => {
                    rows.union_with(&found);
                },
            }
        }
        k = k + 1;
    }
    assert(fs.take(k as int) =~= fs);
    rows.subtract(deleted);
    rows
}

/// Under `And` a row is found where every filter gives it, under `Or` where
/// some filter does.
pub proof fn law_combined_rows(
    indexes: Map<Seq<char>, Map<Seq<char>, (ScalarView, Set<u32>)>>,
    fs: Seq<FilterView>,
    op: LogicalOp,
    row: u32,
)
    requires
        fs.len() > 0,
    ensures
        op == LogicalOp::And ==> (combined_rows(indexes, fs, op).contains(row) <==> forall|i: int|
            0 <= i < fs.len() ==> field_rows(indexes, #[trigger] fs[i]).contains(row)),
        op == LogicalOp::Or ==> (combined_rows(indexes, fs, op).contains(row) <==> exists|i: int|
            0 <= i < fs.len() && field_rows(indexes, #[trigger] fs[i]).contains(row)),
    decreases fs.len(),
{
    if fs.len() == 1 {
        assert(fs[0] == fs.last());
    } else {
        let front = fs.drop_last();
        law_combined_rows(indexes, front, op, row);
        assert(fs.last() == fs[fs.len() - 1]);
        match op {
            LogicalOp::And => {
                if combined_rows(indexes, fs, op).contains(row) {
                    assert forall|i: int| 0 <= i < fs.len() implies field_rows(
                        indexes,
                        #[trigger] fs[i],
                    ).contains(row) by {
                        if i < front.len() {
                            assert(front[i] == fs[i]);
                        }
                    }
                }
                if forall|i: int|
                    0 <= i < fs.len() ==> field_rows(indexes, #[trigger] fs[i]).contains(row) {
                    assert forall|i: int| 0 <= i < front.len() implies field_rows(
                        indexes,
                        #[trigger] front[i],
                    ).contains(row) by {
                        assert(front[i] == fs[i]);
                    }
                }
            },
            LogicalOp::Or => {
                if combined_rows(indexes, front, op).contains(row) {
                    let i = choose|i: int|
                        0 <= i < front.len() && field_rows(indexes, #[trigger] front[i]).contains(
                            row,
                        );
                    assert(fs[i] == front[i]);
                }
                if exists|i: int|
                    0 <= i < fs.len() && field_rows(indexes, #[trigger] fs[i]).contains(row) {
                    let i = choose|i: int|
                        0 <= i < fs.len() && field_rows(indexes, #[trigger] fs[i]).contains(row);
                    if i < front.len() {
                        assert(front[i] == fs[i]);
                    }
                }
            },
        }
    }
}

/// A search never finds a deleted row.
pub proof fn law_search_skips_deleted(
    filters: Seq<FilterView>,
    op: LogicalOp,
    count: int,
    bounds: Map<Seq<char>, BoundsView>,
    deleted: Set<u32>,
    indexes: Map<Seq<char>, Map<Seq<char>, (ScalarView, Set<u32>)>>,
    row: u32,
)
    requires
        deleted.contains(row),
    ensures
        !searched(filters, op, count, bounds, deleted, indexes).contains(row),
{
}

/// Whether the two values are compared as texts.
pub open spec fn compared_as_texts(a: ScalarView, f: FilterView, b: ScalarView) -> bool {
    value_place(a, b, f.field_type) == Some(crate::text::text_order(a.text, b.text))
}

/// Whether the bounds enclose the value.
pub open spec fn encloses(b: BoundsView, v: ScalarView) -> bool {
    !text_less(v.text, b.min.text) && !text_less(b.max.text, v.text)
}

/// Where values are compared as texts, a segment that its bounds let a search
/// pass over has no value that meets the filter.
pub proof fn law_pruning_loses_nothing(b: BoundsView, f: FilterView, v: ScalarView)
    requires
        encloses(b, v),
        prunes(b, f),
        compared_as_texts(v, f, f.value),
        compared_as_texts(b.max, f, f.value),
        f.value_to matches Some(upper) ==> compared_as_texts(v, f, upper) && compared_as_texts(
            b.min,
            f,
            upper,
        ),
    ensures
        !f.holds(v),
{
    lemma_chain(v.text, b.max.text, f.value.text);
    lemma_chain(f.value.text, b.min.text, v.text);
    crate::text::lemma_text_order_equal(v.text, f.value.text);
    crate::text::lemma_text_less_asymmetric(v.text, f.value.text);
    crate::text::lemma_text_less_total(v.text, b.max.text);
    crate::text::lemma_text_less_total(v.text, b.min.text);
    crate::text::lemma_text_less_total(f.value.text, b.max.text);
    crate::text::lemma_text_less_total(f.value.text, b.min.text);
    lemma_chain(f.value.text, b.max.text, v.text);
    lemma_chain(v.text, b.min.text, f.value.text);
    lemma_chain(v.text, f.value.text, b.min.text);
    lemma_chain(b.max.text, f.value.text, v.text);
    if let Some(upper) = f.value_to {
        crate::text::lemma_text_order_equal(v.text, upper.text);
        crate::text::lemma_text_less_asymmetric(v.text, upper.text);
        crate::text::lemma_text_less_asymmetric(b.min.text, upper.text);
        lemma_chain(upper.text, b.min.text, v.text);
        crate::text::lemma_text_less_total(upper.text, b.min.text);
        lemma_chain(v.text, upper.text, b.min.text);
    }
}

proof fn lemma_chain(a: Seq<char>, b: Seq<char>, c: Seq<char>)
    ensures
        text_less(a, b) && text_less(b, c) ==> text_less(a, c),
{
    if text_less(a, b) && text_less(b, c) {
        crate::text::lemma_text_less_transitive(a, b, c);
    }
}

/// Bounds enclose each value that they were widened by, and keep enclosing what
/// they enclosed.
pub proof fn law_widened_bounds_enclose(b: Option<BoundsView>, v: ScalarView, w: ScalarView)
    requires
        b matches Some(x) ==> !text_less(x.max.text, x.min.text),
    ensures
        encloses(widened(b, v), v),
        b matches Some(x) && encloses(x, w) ==> encloses(widened(b, v), w),
        !text_less(widened(b, v).max.text, widened(b, v).min.text),
{
    crate::text::lemma_text_less_asymmetric(v.text, v.text);
    if let Some(x) = b {
        crate::text::lemma_text_less_asymmetric(v.text, x.min.text);
        crate::text::lemma_text_less_asymmetric(x.max.text, v.text);
        lemma_chain(v.text, x.min.text, x.max.text);
        lemma_chain(x.max.text, v.text, x.min.text);
        lemma_chain(w.text, v.text, x.min.text);
        lemma_chain(x.max.text, v.text, w.text);
        crate::text::lemma_text_less_total(x.max.text, x.min.text);
        lemma_chain(x.min.text, x.max.text, v.text);
    }
}

/// The columns with the cells of one more row.
pub open spec fn columns_after(
    columns: Map<Seq<char>, ColumnView>,
    row: Map<Seq<char>, ScalarView>,
) -> Map<Seq<char>, ColumnView> {
    Map::new(
        |c: Seq<char>| columns.contains_key(c) || row.contains_key(c),
        |c: Seq<char>|
            if !row.contains_key(c) {
                columns[c]
            } else if columns.contains_key(c) {
                columns[c].appended(row[c].text)
            } else {
                ColumnView::empty().appended(row[c].text)
            },
    )
}

/// The index of a field with one more row that holds a value.
pub open spec fn value_added(
    ix: Map<Seq<char>, (ScalarView, Set<u32>)>,
    v: ScalarView,
    row: u32,
) -> Map<Seq<char>, (ScalarView, Set<u32>)> {
    if ix.contains_key(v.text) {
        ix.insert(v.text, (ix[v.text].0, ix[v.text].1.insert(row)))
    } else {
        ix.insert(v.text, (v, Set::<u32>::empty().insert(row)))
    }
}

/// The indexes with the cells of one more row.
pub open spec fn indexes_after(
    indexes: Map<Seq<char>, Map<Seq<char>, (ScalarView, Set<u32>)>>,
    row: Map<Seq<char>, ScalarView>,
    id: u32,
) -> Map<Seq<char>, Map<Seq<char>, (ScalarView, Set<u32>)>> {
    Map::new(
        |c: Seq<char>| indexes.contains_key(c) || row.contains_key(c),
        |c: Seq<char>|
            if !row.contains_key(c) {
                indexes[c]
            } else if indexes.contains_key(c) {
                value_added(indexes[c], row[c], id)
            } else {
                value_added(Map::empty(), row[c], id)
            },
    )
}

/// The bounds with the cells of one more row.
pub open spec fn bounds_after(
    bounds: Map<Seq<char>, BoundsView>,
    row: Map<Seq<char>, ScalarView>,
) -> Map<Seq<char>, BoundsView> {
    Map::new(
        |c: Seq<char>| bounds.contains_key(c) || row.contains_key(c),
        |c: Seq<char>|
            if row.contains_key(c) {
                widened(under(bounds, c), row[c])
            } else {
                bounds[c]
            },
    )
}

/// The cells of the first `n` columns of a row.
pub open spec fn first_cells(
    row: Map<Seq<char>, ScalarView>,
    keys: Seq<Seq<char>>,
    n: int,
) -> Map<Seq<char>, ScalarView> {
    row.restrict(keys.take(n).to_set())
}

proof fn lemma_first_cells(row: Map<Seq<char>, ScalarView>, keys: Seq<Seq<char>>, n: int)
    requires
        keys.no_duplicates(),
        keys.to_set() == row.dom(),
        0 <= n <= keys.len(),
    ensures
        first_cells(row, keys, 0) == Map::<Seq<char>, ScalarView>::empty(),
        first_cells(row, keys, keys.len() as int) == row,
        n < keys.len() ==> {
            &&& !first_cells(row, keys, n).contains_key(keys[n])
            &&& row.contains_key(keys[n])
            &&& first_cells(row, keys, n + 1) == first_cells(row, keys, n).insert(
                keys[n],
                row[keys[n]],
            )
        },
{
    assert(keys.take(0).to_set() =~= Set::empty());
    assert(first_cells(row, keys, 0) =~= Map::empty());
    assert(keys.take(keys.len() as int) =~= keys);
    assert(first_cells(row, keys, keys.len() as int) =~= row);
    if n < keys.len() {
        let a = keys.take(n);
        assert(keys.take(n + 1) =~= a.push(keys[n]));
        a.lemma_push_to_set_commute(keys[n]);
        assert(keys.to_set().contains(keys[n]));
        assert(!a.contains(keys[n])) by {
            if a.contains(keys[n]) {
                let j = choose|j: int| 0 <= j < n && a[j] == keys[n];
                assert(keys[j] == keys[n]);
            }
        }
        assert(first_cells(row, keys, n + 1) =~= first_cells(row, keys, n).insert(
            keys[n],
            row[keys[n]],
        ));
    }
}

fn append_cells(columns: &mut TextMap<Column>, row: &TextMap<Scalar>)
    ensures
        columns_view(final(columns)@) == columns_after(
            columns_view(old(columns)@),
            row_view(row@),
        ),
{
    let ghost start = columns_view(columns@);
    let ghost cells = row_view(row@);
    let n = row.len();
    let mut i: usize = 0;
    proof {
        assert(cells.dom() =~= row@.dom());
        lemma_first_cells(cells, row.keys(), 0);
        assert(columns_view(columns@) =~= columns_after(start, first_cells(cells, row.keys(), 0)));
    }
    while i < n
        invariant
            i <= n == row.keys().len(),
            row.keys().no_duplicates(),
            row.keys().to_set() == cells.dom(),
            cells == row_view(row@),
            columns_view(columns@) == columns_after(start, first_cells(cells, row.keys(), i as int)),
        decreases n - i,
    {
        let name = row.key_at(i);
        let value = row.value_at(i);
        let ghost before = columns_view(columns@);
        proof {
            lemma_first_cells(cells, row.keys(), i as int);
            assert(cells[name@] == value@);
        }
        match columns.position(name) {
            Some(p) => {
                let mut c = columns.replace_at(p, Column::new());
                assert(before[name@] == c@);
                c.append(value.text.as_str());
                let ghost now = c@;
                let _room = columns.replace_at(p, c);
                assert(columns_view(columns@) =~= before.insert(name@, now));
            },
            None => {
                let mut c = Column::new();
                c.append(value.text.as_str());
                let ghost now = c@;
                columns.insert(name, c);
                assert(columns_view(columns@) =~= before.insert(name@, now));
            },
        }
        i = i + 1;
        assert(before.contains_key(name@) == start.contains_key(name@));
        assert(start.contains_key(name@) ==> before[name@] == start[name@]);
        assert(columns_view(columns@) =~= columns_after(
            start,
            first_cells(cells, row.keys(), i as int),
        ));
    }
    proof {
        lemma_first_cells(cells, row.keys(), 0);
    }
}

fn add_value(ix: &mut TextMap<Posting>, value: &Scalar, id: u32)
    ensures
        index_view(final(ix)@) == value_added(index_view(old(ix)@), value@, id),
{
    let ghost before = index_view(ix@);
    let text = value.text.as_str();
    match ix.position(text) {
        Some(p) => {
            let room = Posting {
                value: Scalar { text: String::new(), number: None, date: false },
                rows: RowSet::new(),
            };
            let mut posting = ix.replace_at(p, room);
            assert(before[text@] == posting@);
            posting.rows.insert(id);
            let ghost now = posting@;
            let _room = ix.replace_at(p, posting);
            assert(index_view(ix@) =~= before.insert(text@, now));
        },
        None => {
            let mut rows = RowSet::new();
            rows.insert(id);
            let posting = Posting { value: value.clone(), rows };
            let ghost now = posting@;
            ix.insert(text, posting);
            assert(index_view(ix@) =~= before.insert(text@, now));
        },
    }
}

fn append_values(bitmaps: &mut TextMap<TextMap<Posting>>, row: &TextMap<Scalar>, id: u32)
    ensures
        indexes_view(final(bitmaps)@) == indexes_after(
            indexes_view(old(bitmaps)@),
            row_view(row@),
            id,
        ),
{
    let ghost start = indexes_view(bitmaps@);
    let ghost cells = row_view(row@);
    let n = row.len();
    let mut i: usize = 0;
    proof {
        assert(cells.dom() =~= row@.dom());
        lemma_first_cells(cells, row.keys(), 0);
        assert(indexes_view(bitmaps@) =~= indexes_after(
            start,
            first_cells(cells, row.keys(), 0),
            id,
        ));
    }
    while i < n
        invariant
            i <= n == row.keys().len(),
            row.keys().no_duplicates(),
            row.keys().to_set() == cells.dom(),
            cells == row_view(row@),
            indexes_view(bitmaps@) == indexes_after(
                start,
                first_cells(cells, row.keys(), i as int),
                id,
            ),
        decreases n - i,
    {
        let name = row.key_at(i);
        let value = row.value_at(i);
        let ghost before = indexes_view(bitmaps@);
        proof {
            lemma_first_cells(cells, row.keys(), i as int);
            assert(cells[name@] == value@);
        }
        match bitmaps.position(name) {
            Some(p) => {
                let mut ix = bitmaps.replace_at(p, TextMap::new());
                assert(before[name@] == index_view(ix@));
                add_value(&mut ix, value, id);
                let ghost now = index_view(ix@);
                let _room = bitmaps.replace_at(p, ix);
                assert(indexes_view(bitmaps@) =~= before.insert(name@, now));
            },
            None => {
                let mut ix: TextMap<Posting> = TextMap::new();
                assert(index_view(ix@) =~= Map::empty());
                add_value(&mut ix, value, id);
                let ghost now = index_view(ix@);
                bitmaps.insert(name, ix);
                assert(indexes_view(bitmaps@) =~= before.insert(name@, now));
            },
        }
        i = i + 1;
        assert(before.contains_key(name@) == start.contains_key(name@));
        assert(start.contains_key(name@) ==> before[name@] == start[name@]);
        assert(indexes_view(bitmaps@) =~= indexes_after(
            start,
            first_cells(cells, row.keys(), i as int),
            id,
        ));
    }
    proof {
        lemma_first_cells(cells, row.keys(), 0);
    }
}

fn append_bounds(bounds: &mut TextMap<Bounds>, row: &TextMap<Scalar>)
    ensures
        bounds_map(final(bounds)@) == bounds_after(bounds_map(old(bounds)@), row_view(row@)),
{
    let ghost start = bounds_map(bounds@);
    let ghost cells = row_view(row@);
    let n = row.len();
    let mut i: usize = 0;
    proof {
        assert(cells.dom() =~= row@.dom());
        lemma_first_cells(cells, row.keys(), 0);
        assert(bounds_map(bounds@) =~= bounds_after(start, first_cells(cells, row.keys(), 0)));
    }
    while i < n
        invariant
            i <= n == row.keys().len(),
            row.keys().no_duplicates(),
            row.keys().to_set() == cells.dom(),
            cells == row_view(row@),
            bounds_map(bounds@) == bounds_after(start, first_cells(cells, row.keys(), i as int)),
        decreases n - i,
    {
        let name = row.key_at(i);
        let value = row.value_at(i);
        proof {
            lemma_first_cells(cells, row.keys(), i as int);
            assert(cells[name@] == value@);
        }
        widen(bounds, name, value);
        i = i + 1;
        assert(bounds_map(bounds@) =~= bounds_after(
            start,
            first_cells(cells, row.keys(), i as int),
        ));
    }
    proof {
        lemma_first_cells(cells, row.keys(), 0);
    }
}

/// What a `Segment` stands for.
#[verifier::ext_equal]
pub struct SegmentView {
    pub id: u64,
    pub is_immutable: bool,
    pub min_max: Map<Seq<char>, BoundsView>,
    pub deleted: Set<u32>,
    pub record_count: u64,
    pub columns: Map<Seq<char>, ColumnView>,
    pub indexes: Map<Seq<char>, Map<Seq<char>, (ScalarView, Set<u32>)>>,
}

impl View for Segment {
    type V = SegmentView;

    open spec fn view(&self) -> SegmentView {
        SegmentView {
            id: self.id,
            is_immutable: self.is_immutable,
            min_max: bounds_map(self.min_max@),
            deleted: self.deleted_bitmap@,
            record_count: self.record_count,
            columns: columns_view(self.columns@),
            indexes: indexes_view(self.bitmaps@),
        }
    }
}

impl SegmentView {
    /// A segment without rows.
    pub open spec fn empty(id: u64) -> SegmentView {
        SegmentView {
            id,
            is_immutable: false,
            min_max: Map::empty(),
            deleted: Set::empty(),
            record_count: 0,
            columns: Map::empty(),
            indexes: Map::empty(),
        }
    }

    /// The segment with a row marked as deleted.
    pub open spec fn marked(self, row: u32) -> SegmentView {
        SegmentView { deleted: self.deleted.insert(row), ..self }
    }

    /// The text of a cell, empty where there is none.
    pub open spec fn cell(self, field: Seq<char>, row: u32) -> Seq<char> {
        if self.columns.contains_key(field) {
            self.columns[field].text(row as int)
        } else {
            Seq::empty()
        }
    }

    /// The rows that a search finds.
    pub open spec fn found(self, filters: Seq<FilterView>, op: LogicalOp) -> Set<u32> {
        searched(
            filters,
            op,
            self.record_count as int,
            self.min_max,
            self.deleted,
            self.indexes,
        )
    }
}

/// How often each value occurs among some rows, for the values that do.
pub open spec fn value_counts(
    ix: Map<Seq<char>, (ScalarView, Set<u32>)>,
    rows: Set<u32>,
) -> Map<Seq<char>, u64> {
    Map::new(
        |k: Seq<char>| ix.contains_key(k) && ix[k].1.intersect(rows).len() > 0,
        |k: Seq<char>| ix[k].1.intersect(rows).len() as u64,
    )
}

fn count_values(ix: &TextMap<Posting>, rows: &RowSet) -> (r: TextMap<u64>)
    ensures
        r@ == value_counts(index_view(ix@), rows@),
{
    let ghost view = index_view(ix@);
    let mut out: TextMap<u64> = TextMap::new();
    let n = ix.len();
    let mut i: usize = 0;
    while i < n
        invariant
            i <= n == ix.keys().len(),
            ix.keys().no_duplicates(),
            ix.keys().to_set() == ix@.dom(),
            view == index_view(ix@),
            forall|k: Seq<char>| #[trigger]
                out@.contains_key(k) <==> ix.keys().take(i as int).contains(k) && view[k].1.intersect(
                    rows@,
                ).len() > 0,
            forall|k: Seq<char>| #[trigger]
                out@.contains_key(k) ==> out@[k] == view[k].1.intersect(rows@).len(),
        decreases n - i,
    {
        let key = ix.key_at(i);
        let p = ix.value_at(i);
        assert(view[key@] == p@);
        let both = p.rows.intersection(rows);
        let count: u64 = both.len();
        let ghost before = out@;
        if count > 0 {
            out.insert(key, count);
        }
        proof {
            let keys = ix.keys();
            assert(keys.take(i + 1) =~= keys.take(i as int).push(key@));
            assert forall|k: Seq<char>| #[trigger]
                out@.contains_key(k) <==> keys.take(i + 1).contains(k) && view[k].1.intersect(
                rows@,
            ).len() > 0 by {
                if k == key@ {
                    assert(keys.take(i + 1)[i as int] == k);
                    assert(!keys.take(i as int).contains(k)) by {
                        if keys.take(i as int).contains(k) {
                            let j = choose|j: int| 0 <= j < i && keys.take(i as int)[j] == k;
                            assert(keys[j] == keys[i as int]);
                        }
                    }
                } else {
                    assert(out@.contains_key(k) == before.contains_key(k));
                    if keys.take(i as int).contains(k) {
                        let j = choose|j: int| 0 <= j < i && keys.take(i as int)[j] == k;
                        assert(keys.take(i + 1)[j] == k);
                    }
                    if keys.take(i + 1).contains(k) {
                        let next = keys.take(i + 1);
                        let j = choose|j: int| 0 <= j < next.len() && next[j] == k;
                        assert(keys.take(i as int)[j] == k);
                    }
                }
            }
        }
        i = i + 1;
    }
    proof {
        assert(ix.keys().take(i as int) =~= ix.keys());
        assert(out@ =~= value_counts(view, rows@)) by {
            assert forall|k: Seq<char>|
                out@.contains_key(k) <==> #[trigger] value_counts(view, rows@).contains_key(k) by {
                assert(view.contains_key(k) <==> ix.keys().to_set().contains(k));
            }
        }
    }
    out
}

impl Segment {
    /// Whether the rows can be numbered.
    pub open spec fn wf(&self) -> bool {
        self.record_count <= u32::MAX
    }

    /// A segment without rows.
    pub fn new(id: u64) -> (r: Segment)
        ensures
            r@ == SegmentView::empty(id),
            r.wf(),
    {
        let r = Segment {
            id,
            is_immutable: false,
            min_max: TextMap::new(),
            deleted_bitmap: RowSet::new(),
            record_count: 0,
            columns: TextMap::new(),
            bitmaps: TextMap::new(),
        };
        assert(bounds_map(r.min_max@) =~= Map::empty());
        assert(columns_view(r.columns@) =~= Map::empty());
        assert(indexes_view(r.bitmaps@) =~= Map::empty());
        r
    }

    /// The catalogue entry of the segment, made at a time.
    pub fn to_meta(&self, created_at: i64) -> (r: SegmentMeta)
        ensures
            r.id == self.id,
            bounds_map(r.min_max@) == self@.min_max,
            r.created_at == created_at,
            r.record_count == self.record_count,
            r.deleted_count == self@.deleted.len(),
            r.path@ == dir_name_spec(self.id),
    {
        SegmentMeta {
            id: self.id,
            min_max: clone_bounds(&self.min_max),
            created_at,
            record_count: self.record_count,
            deleted_count: self.deleted_bitmap.len(),
            path: dir_name(self.id),
        }
    }

    /// Puts a segment together from what its directory holds. The catalogue
    /// entry, where there is one, tells the bounds and the number of rows; else
    /// the saved bounds do, and the length of a file of offsets.
    pub fn load(
        name: &str,
        meta: Option<&SegmentMeta>,
        deleted: RowSet,
        saved_bounds: TextMap<Bounds>,
        offsets_length: Option<u64>,
        columns: TextMap<Column>,
        bitmaps: TextMap<TextMap<Posting>>,
    ) -> (r: Segment)
        ensures
            r.id == id_from_name(name@),
            r.is_immutable,
            r@.deleted == deleted@,
            r@.columns == columns_view(columns@),
            r@.indexes == indexes_view(bitmaps@),
            match meta {
                Some(m) => r@.min_max == bounds_map(m.min_max@) && r.record_count
                    == m.record_count,
                None => {
                    &&& r@.min_max == bounds_map(saved_bounds@)
                    &&& r.record_count == (match offsets_length {
                        Some(n) => n / 8,
                        None => 0,
                    })
                },
            },
    {
        let id: u64 = segment_id_of(name);
        let record_count: u64 = match meta {
            Some(m) => m.record_count,
            None => match offsets_length {
                Some(n) => n / 8,
                None => 0,
            },
        };
        let min_max = match meta {
            Some(m) => clone_bounds(&m.min_max),
            None => saved_bounds,
        };
        Segment {
            id,
            is_immutable: true,
            min_max,
            deleted_bitmap: deleted,
            record_count,
            columns,
            bitmaps,
        }
    }

    /// Marks a row as deleted.
    pub fn mark_deleted(&mut self, local_id: u32)
        ensures
            final(self)@ == old(self)@.marked(local_id),
    {
        self.deleted_bitmap.insert(local_id);
    }

    /// Widens the bounds of a column by a value.
    pub fn update_metadata(&mut self, column: &str, value: &Scalar)
        ensures
            final(self)@ == (SegmentView {
                min_max: old(self)@.min_max.insert(
                    column@,
                    widened(under(old(self)@.min_max, column@), value@),
                ),
                ..old(self)@
            }),
    {
        widen(&mut self.min_max, column, value);
    }

    /// How often each value of a field occurs among some rows.
    pub fn get_counts_thread_safe(&self, field: &str, filter_bitmap: &RowSet) -> (r: TextMap<u64>)
        ensures
            r@ == field_counts(self@.indexes, field@, filter_bitmap@),
    {
        match self.bitmaps.get(field) {
            Some(ix) => {
                assert(self@.indexes[field@] == index_view(ix@));
                count_values(ix, filter_bitmap)
            },
            None => TextMap::new(),
        }
    }

    /// The rows that meet the filters.
    pub fn search_thread_safe(&self, filters: &[Filter], filters_op: LogicalOp) -> (r: RowSet)
        requires
            self.wf(),
        ensures
            r@ == self@.found(filter_views(filters@), filters_op),
    {
        search_rows(
            filters,
            filters_op,
            self.record_count as u32,
            &self.min_max,
            &self.deleted_bitmap,
            &self.bitmaps,
        )
    }

    /// The text of a cell, empty where there is none.
    pub fn read_cell(&self, field: &str, local_id: u32) -> (r: String)
        ensures
            r@ == self@.cell(field@, local_id),
    {
        match self.columns.get(field) {
            Some(c) => {
                assert(self@.columns[field@] == c@);
                c.read(local_id)
            },
            None => String::new(),
        }
    }

    /// The texts of a row's cells in some fields.
    pub fn get_row_values(&self, local_id: u32, fields: &[String]) -> (r: Vec<String>)
        ensures
            texts(r@) == row_texts(self@, local_id, texts(fields@)),
    {
        let mut out: Vec<String> = Vec::new();
        let ghost want = row_texts(self@, local_id, texts(fields@));
        let mut i: usize = 0;
        while i < fields.len()
            invariant
                i <= fields@.len(),
                want == row_texts(self@, local_id, texts(fields@)),
                texts(out@) == want.take(i as int),
            decreases fields@.len() - i,
        {
            let ghost before = texts(out@);
            out.push(self.read_cell(fields[i].as_str(), local_id));
            i = i + 1;
            assert(texts(out@) =~= before.push(want[i - 1]));
            assert(texts(out@) =~= want.take(i as int));
        }
        assert(want.take(i as int) =~= want);
        out
    }
}

/// The counts of a field, none where it has no index.
pub open spec fn field_counts(
    indexes: Map<Seq<char>, Map<Seq<char>, (ScalarView, Set<u32>)>>,
    field: Seq<char>,
    rows: Set<u32>,
) -> Map<Seq<char>, u64> {
    if indexes.contains_key(field) {
        value_counts(indexes[field], rows)
    } else {
        Map::empty()
    }
}

/// The texts of a row's cells in some fields.
pub open spec fn row_texts(s: SegmentView, row: u32, fields: Seq<Seq<char>>) -> Seq<Seq<char>> {
    fields.map_values(|f: Seq<char>| s.cell(f, row))
}

/// A segment that rows are appended to, with an index of what was appended.
pub struct SegmentWriter {
    pub segment: Segment,
    pub bitmaps: TextMap<TextMap<Posting>>,
    pub dirty: bool,
}

/// What a `SegmentWriter` stands for.
#[verifier::ext_equal]
pub struct WriterView {
    pub segment: SegmentView,
    pub indexes: Map<Seq<char>, Map<Seq<char>, (ScalarView, Set<u32>)>>,
    pub dirty: bool,
}

impl View for SegmentWriter {
    type V = WriterView;

    open spec fn view(&self) -> WriterView {
        WriterView {
            segment: self.segment@,
            indexes: indexes_view(self.bitmaps@),
            dirty: self.dirty,
        }
    }
}

impl WriterView {
    /// The writer after a row was appended.
    pub open spec fn appended(self, row: Map<Seq<char>, ScalarView>) -> WriterView {
        WriterView {
            segment: SegmentView {
                min_max: bounds_after(self.segment.min_max, row),
                record_count: (self.segment.record_count + 1) as u64,
                columns: columns_after(self.segment.columns, row),
                ..self.segment
            },
            indexes: indexes_after(self.indexes, row, self.segment.record_count as u32),
            dirty: true,
        }
    }

    /// The writer with a row marked as deleted.
    pub open spec fn marked(self, row: u32) -> WriterView {
        WriterView { segment: self.segment.marked(row), ..self }
    }

    /// The rows that a search finds.
    pub open spec fn found(self, filters: Seq<FilterView>, op: LogicalOp) -> Set<u32> {
        searched(
            filters,
            op,
            self.segment.record_count as int,
            self.segment.min_max,
            self.segment.deleted,
            self.indexes,
        )
    }
}

impl SegmentWriter {
    /// A writer on a segment, which has an index of nothing yet.
    pub fn new(segment: Segment) -> (r: SegmentWriter)
        ensures
            r@ == (WriterView { segment: segment@, indexes: Map::empty(), dirty: false }),
    {
        let r = SegmentWriter { segment, bitmaps: TextMap::new(), dirty: false };
        assert(indexes_view(r.bitmaps@) =~= Map::empty());
        r
    }

    /// Appends a row.
    pub fn append_record(&mut self, row: &TextMap<Scalar>)
        requires
            old(self).segment.record_count < u32::MAX,
        ensures
            final(self)@ == old(self)@.appended(row_view(row@)),
    {
        let local_id: u32 = self.segment.record_count as u32;
        append_cells(&mut self.segment.columns, row);
        append_values(&mut self.bitmaps, row, local_id);
        append_bounds(&mut self.segment.min_max, row);
        self.segment.record_count = self.segment.record_count + 1;
        self.dirty = true;
        assert(self@ =~= old(self)@.appended(row_view(row@)));
    }

    /// Makes the index of what was appended the saved index of its fields.
    pub fn flush(&mut self)
        ensures
            final(self)@ == old(self)@.flushed(),
    {
        if !self.dirty {
            return ;
        }
        let ghost start = self.segment@.indexes;
        let ghost fresh = self@.indexes;
        let n = self.bitmaps.len();
        let mut i: usize = 0;
        assert(start.union_prefer_right(
            fresh.restrict(self.bitmaps.keys().take(0).to_set()),
        ) =~= start);
        while i < n
            invariant
                i <= n == self.bitmaps.keys().len(),
                self.bitmaps.keys().to_set() == self.bitmaps@.dom(),
                fresh == indexes_view(self.bitmaps@),
                fresh == old(self)@.indexes,
                self.dirty == old(self).dirty,
                self@.segment == (SegmentView {
                    indexes: self@.segment.indexes,
                    ..old(self)@.segment
                }),
                self@.segment.indexes == start.union_prefer_right(
                    fresh.restrict(self.bitmaps.keys().take(i as int).to_set()),
                ),
            decreases n - i,
        {
            let name = self.bitmaps.key_at(i);
            let ix = clone_index(self.bitmaps.value_at(i));
            let ghost before = self@.segment.indexes;
            let ghost added = index_view(ix@);
            assert(fresh[name@] == added);
            self.segment.bitmaps.insert(name, ix);
            i = i + 1;
            proof {
                let keys = self.bitmaps.keys();
                assert(keys.take(i as int) =~= keys.take(i - 1).push(name@));
                keys.take(i - 1).lemma_push_to_set_commute(name@);
                assert(self@.segment.indexes =~= before.insert(name@, added));
                assert(self@.segment.indexes =~= start.union_prefer_right(
                    fresh.restrict(keys.take(i as int).to_set()),
                ));
            }
        }
        self.dirty = false;
        proof {
            let keys = self.bitmaps.keys();
            assert(keys.take(i as int) =~= keys);
            assert(fresh.restrict(keys.to_set()) =~= fresh);
        }
    }

    /// The rows that meet the filters.
    pub fn search(&self, filters: &[Filter], filters_op: LogicalOp) -> (r: RowSet)
        requires
            self.segment.wf(),
        ensures
            r@ == self@.found(filter_views(filters@), filters_op),
    {
        search_rows(
            filters,
            filters_op,
            self.segment.record_count as u32,
            &self.segment.min_max,
            &self.segment.deleted_bitmap,
            &self.bitmaps,
        )
    }

    /// How often each value of a field occurs among some rows.
    pub fn get_counts(&self, field: &str, filter_bitmap: &RowSet) -> (r: TextMap<u64>)
        ensures
            r@ == field_counts(self@.indexes, field@, filter_bitmap@),
    {
        match self.bitmaps.get(field) {
            Some(ix) => {
                assert(self@.indexes[field@] == index_view(ix@));
                count_values(ix, filter_bitmap)
            },
            None => TextMap::new(),
        }
    }
}

impl WriterView {
    /// The writer after the index of what was appended was saved.
    pub open spec fn flushed(self) -> WriterView {
        if self.dirty {
            WriterView {
                segment: SegmentView {
                    indexes: self.segment.indexes.union_prefer_right(self.indexes),
                    ..self.segment
                },
                indexes: self.indexes,
                dirty: false,
            }
        } else {
            self
        }
    }
}

/// Copies the index of a field.
pub fn clone_index(ix: &TextMap<Posting>) -> (r: TextMap<Posting>)
    ensures
        index_view(r@) == index_view(ix@),
{
    let mut out: TextMap<Posting> = TextMap::new();
    let n = ix.len();
    let mut i: usize = 0;
    while i < n
        invariant
            i <= n == ix.keys().len(),
            ix.keys().to_set() == ix@.dom(),
            out@.dom() == ix.keys().take(i as int).to_set(),
            forall|k: Seq<char>| #[trigger]
                out@.contains_key(k) ==> ix@.contains_key(k) && out@[k]@ == ix@[k]@,
        decreases n - i,
    {
        let key = ix.key_at(i);
        out.insert(key, ix.value_at(i).clone());
        i = i + 1;
        proof {
            let keys = ix.keys();
            assert(keys.take(i as int) =~= keys.take(i - 1).push(keys[i - 1]));
            keys.take(i - 1).lemma_push_to_set_commute(keys[i - 1]);
            assert(out@.dom() =~= keys.take(i as int).to_set());
        }
    }
    assert(ix.keys().take(i as int) =~= ix.keys());
    assert(index_view(out@) =~= index_view(ix@));
    out
}

/// Whether each column holds one text per row.
pub open spec fn columns_hold(
    columns: Map<Seq<char>, ColumnView>,
    cells: Map<Seq<char>, Seq<Seq<char>>>,
    count: int,
) -> bool {
    &&& columns.dom() == cells.dom()
    &&& forall|c: Seq<char>| #[trigger]
        cells.contains_key(c) ==> cells[c].len() == count && columns[c].holds(cells[c])
}

/// Whether the index of each field lists under each text the rows that hold it.
pub open spec fn indexes_hold(
    indexes: Map<Seq<char>, Map<Seq<char>, (ScalarView, Set<u32>)>>,
    cells: Map<Seq<char>, Seq<Seq<char>>>,
) -> bool {
    &&& indexes.dom() == cells.dom()
    &&& forall|c: Seq<char>| #[trigger]
        cells.contains_key(c) ==> index_holds(indexes[c], cells[c])
}

/// Whether an index lists under each text the rows that hold it.
pub open spec fn index_holds(
    ix: Map<Seq<char>, (ScalarView, Set<u32>)>,
    texts: Seq<Seq<char>>,
) -> bool {
    &&& forall|t: Seq<char>| #[trigger] ix.contains_key(t) ==> ix[t].0.text == t
    &&& forall|t: Seq<char>, r: u32| #[trigger]
        lists_row(ix, t, r) <==> r < texts.len() && texts[r as int] == t
}

/// Whether an index lists a row under a text.
pub open spec fn lists_row(
    ix: Map<Seq<char>, (ScalarView, Set<u32>)>,
    t: Seq<char>,
    r: u32,
) -> bool {
    ix.contains_key(t) && ix[t].1.contains(r)
}

/// The cells with those of one more row.
pub open spec fn cells_after(
    cells: Map<Seq<char>, Seq<Seq<char>>>,
    row: Map<Seq<char>, ScalarView>,
) -> Map<Seq<char>, Seq<Seq<char>>> {
    Map::new(
        |c: Seq<char>| row.contains_key(c),
        |c: Seq<char>|
            if cells.contains_key(c) {
                cells[c].push(row[c].text)
            } else {
                seq![row[c].text]
            },
    )
}

/// Whether a row has the columns of those before it.
pub open spec fn same_columns(
    cells: Map<Seq<char>, Seq<Seq<char>>>,
    count: int,
    row: Map<Seq<char>, ScalarView>,
) -> bool {
    cells.dom() == row.dom() || count == 0 && cells.dom() == Set::<Seq<char>>::empty()
}

/// Appending a row to rows of the same columns keeps what the columns hold, and
/// the new cells can be read back. The data of a column must be shorter than a
/// number of 64 bits can tell.
pub proof fn law_append_keeps_columns(
    s: SegmentView,
    cells: Map<Seq<char>, Seq<Seq<char>>>,
    row: Map<Seq<char>, ScalarView>,
)
    requires
        columns_hold(s.columns, cells, s.record_count as int),
        same_columns(cells, s.record_count as int, row),
        forall|c: Seq<char>| #[trigger]
            row.contains_key(c) ==> columns_after(s.columns, row)[c].data.len() <= u64::MAX,
    ensures
        columns_hold(
            columns_after(s.columns, row),
            cells_after(cells, row),
            s.record_count + 1,
        ),
        forall|c: Seq<char>| #[trigger]
            row.contains_key(c) ==> columns_after(s.columns, row)[c].text(s.record_count as int)
                == row[c].text,
{
    let after = columns_after(s.columns, row);
    let next = cells_after(cells, row);
    assert(after.dom() =~= next.dom());
    assert forall|c: Seq<char>| #[trigger] next.contains_key(c) implies next[c].len()
        == s.record_count + 1 && after[c].holds(next[c]) && after[c].text(s.record_count as int)
        == row[c].text by {
        let before = if cells.contains_key(c) {
            cells[c]
        } else {
            Seq::<Seq<char>>::empty()
        };
        let column = if s.columns.contains_key(c) {
            s.columns[c]
        } else {
            ColumnView::empty()
        };
        assert(next[c] =~= before.push(row[c].text));
        assert(column.holds(before));
        law_append_cell(column, before, row[c].text);
        law_read_back(after[c], next[c], s.record_count as int);
    }
    assert forall|c: Seq<char>| #[trigger] row.contains_key(c) implies after[c].text(
        s.record_count as int,
    ) == row[c].text by {
        assert(next.contains_key(c));
    }
}

/// Appending a row to rows of the same columns keeps the indexes in step: each
/// cell, old or new, is listed under its text and nowhere else.
pub proof fn law_append_keeps_indexes(
    w: WriterView,
    cells: Map<Seq<char>, Seq<Seq<char>>>,
    row: Map<Seq<char>, ScalarView>,
)
    requires
        indexes_hold(w.indexes, cells),
        forall|c: Seq<char>| #[trigger]
            cells.contains_key(c) ==> cells[c].len() == w.segment.record_count,
        w.segment.record_count < u32::MAX,
        same_columns(cells, w.segment.record_count as int, row),
    ensures
        indexes_hold(w.appended(row).indexes, cells_after(cells, row)),
{
    let after = w.appended(row);
    let next = cells_after(cells, row);
    let id = w.segment.record_count as u32;
    assert(after.indexes.dom() =~= next.dom());
    assert forall|c: Seq<char>| #[trigger] next.contains_key(c) implies index_holds(
        after.indexes[c],
        next[c],
    ) by {
        let ix = if w.indexes.contains_key(c) {
            w.indexes[c]
        } else {
            Map::empty()
        };
        let before = if cells.contains_key(c) {
            cells[c]
        } else {
            Seq::<Seq<char>>::empty()
        };
        assert(next[c] =~= before.push(row[c].text));
        assert(before.len() == id);
        assert(index_holds(ix, before));
        let new = after.indexes[c];
        assert(new == value_added(ix, row[c], id));
        assert forall|t: Seq<char>, r: u32| #[trigger]
            lists_row(new, t, r) <==> r < next[c].len() && next[c][r as int] == t by {
            assert(lists_row(ix, t, r) <==> r < before.len() && before[r as int] == t);
            if t != row[c].text {
                assert(lists_row(new, t, r) == lists_row(ix, t, r));
            }
        }
    }
}

/// Whether the cell of a row meets a filter, by the reading of its text that the
/// index keeps. A filter for the very text of some cell goes by the text.
pub open spec fn cell_meets(
    ix: Map<Seq<char>, (ScalarView, Set<u32>)>,
    f: FilterView,
    text: Seq<char>,
) -> bool {
    if f.op == ComparisonOp::Eq && ix.contains_key(f.value.text) {
        text == f.value.text
    } else {
        f.holds(ix[text].0)
    }
}

/// An index finds for a filter exactly the rows whose cells meet it.
pub proof fn law_index_finds_rows(
    ix: Map<Seq<char>, (ScalarView, Set<u32>)>,
    texts: Seq<Seq<char>>,
    f: FilterView,
    row: u32,
)
    requires
        index_holds(ix, texts),
    ensures
        rows_matching(ix, f).contains(row) <==> row < texts.len() && cell_meets(
            ix,
            f,
            texts[row as int],
        ),
{
    let exact = f.op == ComparisonOp::Eq && ix.contains_key(f.value.text);
    if exact {
        assert(lists_row(ix, f.value.text, row) <==> row < texts.len() && texts[row as int]
            == f.value.text);
    } else {
        if row_meets(ix, f, row) {
            let k = choose|k: Seq<char>| #[trigger]
                ix.contains_key(k) && f.holds(ix[k].0) && ix[k].1.contains(row);
            assert(lists_row(ix, k, row));
        }
        if row < texts.len() {
            assert(lists_row(ix, texts[row as int], row));
        }
    }
}

/// Whether an index lists only rows below a number.
pub open spec fn index_below(ix: Map<Seq<char>, (ScalarView, Set<u32>)>, count: int) -> bool {
    forall|t: Seq<char>, r: u32| #[trigger] lists_row(ix, t, r) ==> r < count
}

impl WriterView {
    /// Whether the indexes list only rows that the segment has.
    pub open spec fn numbered(self) -> bool {
        forall|c: Seq<char>| #[trigger]
            self.indexes.contains_key(c) ==> index_below(
                self.indexes[c],
                self.segment.record_count as int,
            )
    }
}

/// A writer without an index lists only rows that its segment has, and appending a row
/// or marking one as deleted keeps that so.
pub proof fn law_indexes_list_rows_of_segment(
    segment: SegmentView,
    w: WriterView,
    row: Map<Seq<char>, ScalarView>,
    marked: u32,
)
    requires
        w.numbered(),
        w.segment.record_count < u32::MAX,
    ensures
        (WriterView { segment, indexes: Map::empty(), dirty: false }).numbered(),
        w.appended(row).numbered(),
        w.marked(marked).numbered(),
{
    let after = w.appended(row);
    let id = w.segment.record_count as u32;
    assert forall|c: Seq<char>| #[trigger] after.indexes.contains_key(c) implies index_below(
        after.indexes[c],
        after.segment.record_count as int,
    ) by {
        assert forall|t: Seq<char>, r: u32| #[trigger]
            lists_row(after.indexes[c], t, r) implies r < after.segment.record_count by {
            if w.indexes.contains_key(c) {
                assert(index_below(w.indexes[c], w.segment.record_count as int));
                assert(lists_row(w.indexes[c], t, r) ==> r < w.segment.record_count);
            }
            if row.contains_key(c) {
                let ix = if w.indexes.contains_key(c) {
                    w.indexes[c]
                } else {
                    Map::empty()
                };
                assert(after.indexes[c] == value_added(ix, row[c], id));
            }
        }
    }
}

proof fn lemma_matching_below(
    ix: Map<Seq<char>, (ScalarView, Set<u32>)>,
    f: FilterView,
    count: int,
    row: u32,
)
    requires
        index_below(ix, count),
        rows_matching(ix, f).contains(row),
    ensures
        row < count,
{
    if f.op == ComparisonOp::Eq && ix.contains_key(f.value.text) {
        assert(lists_row(ix, f.value.text, row));
    } else {
        let k = choose|k: Seq<char>| #[trigger]
            ix.contains_key(k) && f.holds(ix[k].0) && ix[k].1.contains(row);
        assert(lists_row(ix, k, row));
    }
}

proof fn lemma_combined_below(w: WriterView, fs: Seq<FilterView>, op: LogicalOp, row: u32)
    requires
        w.numbered(),
        combined_rows(w.indexes, fs, op).contains(row),
    ensures
        row < w.segment.record_count,
    decreases fs.len(),
{
    let count = w.segment.record_count as int;
    if fs.len() > 0 {
        let last = fs.last();
        if field_rows(w.indexes, last).contains(row) {
            lemma_matching_below(w.indexes[last.field], last, count, row);
        } else if fs.len() > 1 {
            lemma_combined_below(w, fs.drop_last(), op, row);
        }
    }
}

/// Every row that a search of the segment that is written to finds is one of its rows,
/// and none of them is deleted.
pub proof fn law_found_rows_are_rows(w: WriterView, fs: Seq<FilterView>, op: LogicalOp, row: u32)
    requires
        w.numbered(),
        w.found(fs, op).contains(row),
    ensures
        row < w.segment.record_count,
        !w.segment.deleted.contains(row),
{
    let complete = complete_filters(fs);
    if complete.len() > 0 {
        lemma_combined_below(w, complete, op, row);
    }
}

} // verus!
