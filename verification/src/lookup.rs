//! How a search finds rows: by keys, by the indexes of fields, or segment by
//! segment.

use crate::field_index::{list_of, live_entry, stored_index, with_segment, FieldIndex};
use crate::hits::{intersect_segment_matches, intersected};
use crate::postings::postings;
use crate::rowset::RowSet;
use crate::segment::{index_view, Segment, SegmentView};
use crate::table::{
    find_first, first_segment, key_field, segment_views, Table, TableView,
};
use crate::text::{same_text, texts};
use crate::types::{
    filter_views, list_values, listed, ComparisonOp, Filter, FilterView, LogicalOp,
    };
use vstd::prelude::*;

verus! {

/// What can go wrong when a table is searched.
pub enum TableError {
    /// The file of a field's index could not be decoded.
    Undecodable(Box<bincode::ErrorKind>),
    /// The file of a field's index could not be encoded.
    Unencodable(Box<bincode::ErrorKind>),
}

/// What a lookup comes to.
pub enum Lookup {
    /// A file could not be decoded.
    Failed,
    /// The index does not know the value.
    Missing,
    /// The rows that hold it, segment by segment.
    Found(Seq<(u64, Set<u32>)>),
}

/// The index with what the active segment holds behind the rest.
pub open spec fn with_active(
    t: TableView,
    field: Seq<char>,
    m: Map<Seq<char>, Seq<(u64, Set<u32>)>>,
) -> Map<Seq<char>, Seq<(u64, Set<u32>)>> {
    match t.active {
        Some(w) => if w.indexes.contains_key(field) {
            with_segment(m, w.segment.id, w.indexes[field], w.segment.deleted)
        } else {
            m
        },
        None => m,
    }
}

/// The index of a field over some segments.
pub open spec fn built_index(s: Seq<SegmentView>, field: Seq<char>) -> Map<
    Seq<char>,
    Seq<(u64, Set<u32>)>,
>
    decreases s.len(),
{
    if s.len() == 0 {
        Map::empty()
    } else {
        let front = built_index(s.drop_last(), field);
        if s.last().indexes.contains_key(field) {
            with_segment(front, s.last().id, s.last().indexes[field], Set::empty())
        } else {
            front
        }
    }
}

/// The index of a field as it is made anew: out of its file or, where there is
/// none, out of all segments; and in any case with what the active segment holds.
pub open spec fn fresh_index(t: TableView, field: Seq<char>) -> Option<
    Map<Seq<char>, Seq<(u64, Set<u32>)>>,
> {
    if t.saved.contains_key(field) {
        match stored_index(t.saved[field]) {
            Some(m) => Some(with_active(t, field, m)),
            None => None,
        }
    } else {
        Some(with_active(t, field, with_active(t, field, built_index(t.segments, field))))
    }
}

/// The index that a lookup of a field uses.
pub open spec fn used_index(t: TableView, field: Seq<char>) -> Option<
    Map<Seq<char>, Seq<(u64, Set<u32>)>>,
> {
    if t.cache.contains_key(field) {
        Some(t.cache[field])
    } else {
        fresh_index(t, field)
    }
}

/// The table after an index went into the cache; the oldest makes room where as
/// many are there as may be.
pub open spec fn with_cached(
    t: TableView,
    field: Seq<char>,
    m: Map<Seq<char>, Seq<(u64, Set<u32>)>>,
    max: int,
) -> TableView {
    let kept = if t.cache_keys.len() >= max && t.cache_keys.len() > 0 {
        TableView {
            cache_keys: t.cache_keys.skip(1),
            cache: t.cache.remove(t.cache_keys[0]),
            ..t
        }
    } else {
        t
    };
    TableView {
        cache_keys: kept.cache_keys.push(field),
        cache: kept.cache.insert(field, m),
        ..kept
    }
}

/// The table after a lookup used the index of a field.
pub open spec fn after_use(t: TableView, field: Seq<char>, max: int) -> TableView {
    if t.cache.contains_key(field) {
        t
    } else {
        match fresh_index(t, field) {
            Some(m) => with_cached(t, field, m, max),
            None => t,
        }
    }
}

/// The rows of a segment that are not deleted.
pub open spec fn live_rows(t: TableView, id: u64, rows: Set<u32>) -> Set<u32> {
    if t.active is Some && t.active->0.segment.id == id {
        rows.difference(t.active->0.segment.deleted)
    } else {
        match first_segment(t.segments, id) {
            Some(i) => rows.difference(t.segments[i].deleted),
            None => rows,
        }
    }
}

/// The entries with the rows that are not deleted, without those that have none.
pub open spec fn live_list(t: TableView, list: Seq<(u64, Set<u32>)>) -> Seq<(u64, Set<u32>)>
    decreases list.len(),
{
    if list.len() == 0 {
        Seq::empty()
    } else {
        let front = live_list(t, list.drop_last());
        let rows = live_rows(t, list.last().0, list.last().1);
        if rows == Set::<u32>::empty() {
            front
        } else {
            front.push((list.last().0, rows))
        }
    }
}

/// Whether the active segment's index knows a value.
pub open spec fn active_knows(t: TableView, field: Seq<char>, value: Seq<char>) -> bool {
    t.active is Some && t.active->0.indexes.contains_key(field)
        && t.active->0.indexes[field].contains_key(value)
}

/// The entry of the active segment for a value.
pub open spec fn active_entry(t: TableView, field: Seq<char>, value: Seq<char>) -> Seq<
    (u64, Set<u32>),
> {
    match t.active {
        Some(w) => if w.indexes.contains_key(field) {
            live_entry(w.segment.id, w.indexes[field], w.segment.deleted, value)
        } else {
            Seq::empty()
        },
        None => Seq::empty(),
    }
}

/// The rows that hold a value: what the index lists, and behind it what the
/// active segment holds. Where neither knows the value, nothing is said of it.
pub open spec fn value_lookup(t: TableView, field: Seq<char>, value: Seq<char>) -> Lookup {
    match used_index(t, field) {
        None => Lookup::Failed,
        Some(m) => if m.contains_key(value) || active_knows(t, field, value) {
            Lookup::Found(live_list(t, list_of(m, value)) + active_entry(t, field, value))
        } else {
            Lookup::Missing
        },
    }
}

/// The first entry of a segment.
pub open spec fn entry_of(h: Seq<(u64, Set<u32>)>, id: u64) -> Option<int>
    decreases h.len(),
{
    if h.len() == 0 {
        None
    } else {
        match entry_of(h.drop_last(), id) {
            Some(i) => Some(i),
            None => if h.last().0 == id {
                Some(h.len() - 1)
            } else {
                None
            },
        }
    }
}

/// The entries with more rows of a segment: in its entry, or behind the others.
pub open spec fn entry_joined(h: Seq<(u64, Set<u32>)>, e: (u64, Set<u32>)) -> Seq<(u64, Set<u32>)> {
    match entry_of(h, e.0) {
        Some(i) => h.update(i, (e.0, h[i].1.union(e.1))),
        None => h.push(e),
    }
}

/// The entries with those of another list.
pub open spec fn joined(h: Seq<(u64, Set<u32>)>, more: Seq<(u64, Set<u32>)>) -> Seq<(u64, Set<u32>)>
    decreases more.len(),
{
    if more.len() == 0 {
        h
    } else {
        entry_joined(joined(h, more.drop_last()), more.last())
    }
}

/// The rows that hold one of several values, with what was found before; each
/// lookup may change what the cache holds for the next one.
pub open spec fn list_lookup(
    t: TableView,
    field: Seq<char>,
    values: Seq<Seq<char>>,
    found: Option<Seq<(u64, Set<u32>)>>,
    max: int,
) -> (Lookup, TableView)
    decreases values.len(),
{
    if values.len() == 0 {
        (
            match found {
                Some(h) => Lookup::Found(h),
                None => Lookup::Missing,
            },
            t,
        )
    } else {
        let next = after_use(t, field, max);
        match value_lookup(t, field, values[0]) {
            Lookup::Failed => (Lookup::Failed, next),
            Lookup::Missing => list_lookup(next, field, values.skip(1), found, max),
            Lookup::Found(h) => list_lookup(
                next,
                field,
                values.skip(1),
                Some(
                    joined(
                        match found {
                            Some(f) => f,
                            None => Seq::empty(),
                        },
                        h,
                    ),
                ),
                max,
            ),
        }
    }
}

/// The rows that the index gives for a filter by equality or by a list.
pub open spec fn filter_lookup(t: TableView, f: FilterView, max: int) -> (Lookup, TableView) {
    if f.op == ComparisonOp::In {
        list_lookup(t, f.field, listed(f.value.text, f.value_options), None, max)
    } else {
        (value_lookup(t, f.field, f.value.text), after_use(t, f.field, max))
    }
}

/// Whether an index can answer the filter.
pub open spec fn by_index(f: FilterView) -> bool {
    (f.op == ComparisonOp::Eq || f.op == ComparisonOp::In) && f.complete()
}

/// The rows that the indexes give for all filters together, with what was found
/// before. A list that no index knows ends the search; a single value that no
/// index knows leaves everything open.
pub open spec fn exact_lookup(
    t: TableView,
    fs: Seq<FilterView>,
    found: Option<Seq<(u64, Set<u32>)>>,
    max: int,
) -> (Lookup, TableView)
    decreases fs.len(),
{
    let so_far = match found {
        Some(h) => Lookup::Found(h),
        None => Lookup::Missing,
    };
    if fs.len() == 0 {
        (so_far, t)
    } else if !by_index(fs[0]) {
        exact_lookup(t, fs.skip(1), found, max)
    } else {
        let (one, next) = filter_lookup(t, fs[0], max);
        match one {
            Lookup::Failed => (Lookup::Failed, next),
            Lookup::Missing => if fs[0].op == ComparisonOp::In {
                (so_far, next)
            } else {
                (Lookup::Missing, next)
            },
            Lookup::Found(h) => {
                let both = match found {
                    Some(f) => intersected(f, h),
                    None => h,
                };
                if both.len() == 0 {
                    (Lookup::Found(both), next)
                } else {
                    exact_lookup(next, fs.skip(1), Some(both), max)
                }
            },
        }
    }
}

/// The rows that a search of one segment finds. The active segment is searched by
/// what was appended to it.
pub open spec fn segment_rows(
    t: TableView,
    s: SegmentView,
    fs: Seq<FilterView>,
    op: LogicalOp,
) -> Set<u32> {
    if t.active is Some && t.active->0.segment.id == s.id {
        t.active->0.found(fs, op)
    } else {
        s.found(fs, op)
    }
}

/// The rows that a search of some segments finds, without the segments in which
/// there is none.
pub open spec fn scanned(
    t: TableView,
    s: Seq<SegmentView>,
    fs: Seq<FilterView>,
    op: LogicalOp,
) -> Seq<(u64, Set<u32>)>
    decreases s.len(),
{
    if s.len() == 0 {
        Seq::empty()
    } else {
        let front = scanned(t, s.drop_last(), fs, op);
        let rows = segment_rows(t, s.last(), fs, op);
        if rows == Set::<u32>::empty() {
            front
        } else {
            front.push((s.last().id, rows))
        }
    }
}

/// All segments, the active one at the end.
pub open spec fn all_segments(t: TableView) -> Seq<SegmentView> {
    match t.active {
        Some(w) => t.segments.push(w.segment),
        None => t.segments,
    }
}

/// The first filter of a field with an operator.
pub open spec fn filter_on(fs: Seq<FilterView>, field: Seq<char>, op: ComparisonOp) -> Option<
    FilterView,
>
    decreases fs.len(),
{
    if fs.len() == 0 {
        None
    } else if fs[0].field == field && fs[0].op == op {
        Some(fs[0])
    } else {
        filter_on(fs.skip(1), field, op)
    }
}

/// Whether the row at a place meets a filter.
pub open spec fn place_meets(t: TableView, place: (u64, u32), f: FilterView) -> bool {
    f.holds(t.reading(t.cell(place, f.field)))
}

/// Whether the row at a place meets the filters that have a field and a value.
pub open spec fn candidate_meets(
    t: TableView,
    place: (u64, u32),
    fs: Seq<FilterView>,
    op: LogicalOp,
) -> bool {
    match op {
        LogicalOp::And => forall|i: int|
            0 <= i < fs.len() && (#[trigger] fs[i]).complete() ==> place_meets(t, place, fs[i]),
        LogicalOp::Or => (forall|i: int| 0 <= i < fs.len() ==> !(#[trigger] fs[i]).complete())
            || exists|i: int|
            0 <= i < fs.len() && (#[trigger] fs[i]).complete() && place_meets(t, place, fs[i]),
    }
}

/// Whether a filter is left to the scan when the indexes have answered the
/// others.
pub open spec fn left_over(f: FilterView, key: Seq<char>) -> bool {
    !(f.op == ComparisonOp::Eq && f.field != key) && f.op != ComparisonOp::In
}

/// The filters that the indexes leave to the scan.
pub open spec fn left_filters(fs: Seq<FilterView>, key: Seq<char>) -> Seq<FilterView> {
    fs.filter(|f: FilterView| left_over(f, key))
}

/// The rows that the filters find.
pub open spec fn found_rows(t: TableView, fs: Seq<FilterView>, op: LogicalOp, max: int) -> (
    Lookup,
    TableView,
) {
    let key = key_field(t.manifest);
    let everywhere = Lookup::Found(scanned(t, all_segments(t), fs, op));
    let narrow = fs.len() == 1 || op == LogicalOp::And;
    match filter_on(fs, key, ComparisonOp::Eq) {
        Some(f) => if !narrow {
            (everywhere, t)
        } else if t.places.contains_key(f.value.text) && candidate_meets(
            t,
            t.places[f.value.text],
            fs,
            op,
        ) {
            let place = t.places[f.value.text];
            (Lookup::Found(seq![(place.0, Set::<u32>::empty().insert(place.1))]), t)
        } else {
            (Lookup::Found(Seq::empty()), t)
        },
        None => match filter_on(fs, key, ComparisonOp::In) {
            Some(f) => if narrow {
                let (one, next) = list_lookup(
                    t,
                    f.field,
                    listed(f.value.text, f.value_options),
                    None,
                    max,
                );
                (
                    if one is Missing {
                        everywhere
                    } else {
                        one
                    },
                    next,
                )
            } else {
                (everywhere, t)
            },
            None => if op == LogicalOp::And {
                let (one, next) = exact_lookup(t, fs, None, max);
                let rest = left_filters(fs, key);
                (
                    match one {
                        Lookup::Failed => Lookup::Failed,
                        Lookup::Missing => everywhere,
                        Lookup::Found(h) => if rest.len() == 0 {
                            Lookup::Found(h)
                        } else {
                            Lookup::Found(
                                intersected(
                                    h,
                                    scanned(t, all_segments(t), rest, LogicalOp::And),
                                ),
                            )
                        },
                    },
                    next,
                )
            } else {
                (everywhere, t)
            },
        },
    }
}

/// Whether two tables hold the same, whatever the cache holds.
pub open spec fn same_but_cache(a: TableView, b: TableView) -> bool {
    a == (TableView { cache_keys: a.cache_keys, cache: a.cache, ..b })
}

fn append_hits(out: &mut Vec<(u64, RowSet)>, id: u64, rows: RowSet)
    ensures
        postings(final(out)@) == if rows@ == Set::<u32>::empty() {
            postings(old(out)@)
        } else {
            postings(old(out)@).push((id, rows@))
        },
{
    if !rows.is_empty() {
        let ghost before = postings(out@);
        let ghost view = rows@;
        out.push((id, rows));
        assert(postings(out@) =~= before.push((id, view)));
    }
}

fn join_entry(h: &mut Vec<(u64, RowSet)>, id: u64, rows: &RowSet)
    ensures
        postings(final(h)@) == entry_joined(postings(old(h)@), (id, rows@)),
{
    let ghost view = postings(h@);
    let mut i: usize = 0;
    while i < h.len()
        invariant
            i <= h@.len(),
            h@ == old(h)@,
            view == postings(h@),
            entry_of(view.take(i as int), id) is None,
        decreases h@.len() - i,
    {
        if h[i].0 == id {
            proof {
                lemma_entry_of(view, i as int, id);
            }
            let ghost had = h@[i as int].1@;
            let mut both = h[i].1.clone();
            both.union_with(rows);
            let ghost now = both@;
            h[i] = (id, both);
            assert(postings(h@) =~= view.update(i as int, (id, now)));
            return ;
        }
        assert(view.take(i + 1).drop_last() =~= view.take(i as int));
        i = i + 1;
    }
    assert(view.take(i as int) =~= view);
    h.push((id, rows.clone()));
    assert(postings(h@) =~= view.push((id, rows@)));
}

proof fn lemma_entry_of(h: Seq<(u64, Set<u32>)>, n: int, id: u64)
    requires
        0 <= n < h.len(),
        entry_of(h.take(n), id) is None,
        h[n].0 == id,
    ensures
        entry_of(h, id) == Some(n),
    decreases h.len() - n,
{
    if n == h.len() - 1 {
        assert(h.drop_last() =~= h.take(n));
    } else {
        let front = h.drop_last();
        assert(front.take(n) =~= h.take(n));
        lemma_entry_of(front, n, id);
    }
}

fn join(h: &mut Vec<(u64, RowSet)>, more: &[(u64, RowSet)])
    ensures
        postings(final(h)@) == joined(postings(old(h)@), postings(more@)),
{
    let ghost view = postings(more@);
    let mut i: usize = 0;
    assert(view.take(0) =~= Seq::empty());
    while i < more.len()
        invariant
            i <= more@.len(),
            view == postings(more@),
            postings(h@) == joined(postings(old(h)@), view.take(i as int)),
        decreases more@.len() - i,
    {
        assert(view.take(i + 1).drop_last() =~= view.take(i as int));
        assert(view.take(i + 1).last() == view[i as int]);
        join_entry(h, more[i].0, &more[i].1);
        i = i + 1;
    }
    assert(view.take(i as int) =~= view);
}

/// The first filter of a field with an operator.
fn find_filter(filters: &[Filter], field: &str, op: ComparisonOp) -> (r: Option<usize>)
    ensures
        match r {
            Some(i) => i < filters@.len() && filter_on(filter_views(filters@), field@, op) == Some(
                filters@[i as int]@,
            ),
            None => filter_on(filter_views(filters@), field@, op) is None,
        },
{
    let ghost view = filter_views(filters@);
    let mut i: usize = 0;
    assert(view.skip(0) =~= view);
    while i < filters.len()
        invariant
            i <= filters@.len(),
            view == filter_views(filters@),
            filter_on(view, field@, op) == filter_on(view.skip(i as int), field@, op),
        decreases filters@.len() - i,
    {
        assert(view.skip(i as int)[0] == filters@[i as int]@);
        assert(view.skip(i as int).skip(1) =~= view.skip(i + 1));
        if same_text(filters[i].field.as_str(), field) && filters[i].op == op {
            return Some(i);
        }
        i = i + 1;
    }
    None
}

fn remaining_filters(filters: &[Filter], key: &str) -> (r: Vec<Filter>)
    ensures
        filter_views(r@) == left_filters(filter_views(filters@), key@),
{
    let ghost view = filter_views(filters@);
    let ghost pred = |f: FilterView| left_over(f, key@);
    let mut out: Vec<Filter> = Vec::new();
    let mut i: usize = 0;
    proof {
        reveal(Seq::filter);
        assert(view.take(0).filter(pred) =~= Seq::empty());
        assert(filter_views(out@) =~= Seq::empty());
    }
    while i < filters.len()
        invariant
            i <= filters@.len(),
            view == filter_views(filters@),
            pred == (|f: FilterView| left_over(f, key@)),
            filter_views(out@) == view.take(i as int).filter(pred),
        decreases filters@.len() - i,
    {
        let f = &filters[i];
        proof {
            reveal(Seq::filter);
            assert(view.take(i + 1).drop_last() =~= view.take(i as int));
            assert(view.take(i + 1).last() == f@);
        }
        let keep = !(f.op == ComparisonOp::Eq && !same_text(f.field.as_str(), key)) && f.op
            != ComparisonOp::In;
        if keep {
            let ghost before = filter_views(out@);
            let copy = f.clone();
            let ghost one = copy@;
            out.push(copy);
            assert(filter_views(out@) =~= before.push(one));
        }
        i = i + 1;
    }
    assert(view.take(i as int) =~= view);
    out
}

impl Table {
    fn add_active(&self, ix: &mut FieldIndex, field: &str)
        ensures
            final(ix)@ == with_active(self@, field@, old(ix)@),
    {
        if let Some(w) = &self.active {
            if let Some(values) = w.bitmaps.get(field) {
                assert(w@.indexes[field@] == index_view(values@));
                ix.add_segment(w.segment.id, values, &w.segment.deleted_bitmap);
            }
        }
    }

    fn build_exact_index(&self, field: &str) -> (r: FieldIndex)
        ensures
            r@ == with_active(self@, field@, built_index(self@.segments, field@)),
    {
        let mut ix = FieldIndex::new();
        let none = RowSet::new();
        let ghost view = segment_views(self.segments@);
        let mut i: usize = 0;
        while i < self.segments.len()
            invariant
                i <= self.segments@.len(),
                view == segment_views(self.segments@),
                none@ == Set::<u32>::empty(),
                ix@ == built_index(view.take(i as int), field@),
            decreases self.segments@.len() - i,
        {
            let s = &self.segments[i];
            assert(view.take(i + 1).drop_last() =~= view.take(i as int));
            assert(view.take(i + 1).last() == s@);
            if let Some(values) = s.bitmaps.get(field) {
                assert(s@.indexes[field@] == index_view(values@));
                ix.add_segment(s.id, values, &none);
            }
            i = i + 1;
        }
        assert(view.take(i as int) =~= view);
        self.add_active(&mut ix, field);
        ix
    }

    /// Brings the index of a field into the cache, which holds at most `max_fields`
    /// of them.
    pub fn load_exact_index(&mut self, field: &str, max_fields: usize) -> (r: Result<(), TableError>)
        requires
            old(self).wf(),
        ensures
            final(self)@ == after_use(old(self)@, field@, max_fields as int),
            final(self).wf(),
            match r {
                Ok(_) => used_index(old(self)@, field@) is Some && final(self)@.cache.contains_key(
                    field@,
                ) && final(self)@.cache[field@] == used_index(old(self)@, field@)->0,
                Err(_) => used_index(old(self)@, field@) is None,
            },
    {
        if self.cache.contains(field) {
            return Ok(());
        }
        let mut ix = match self.saved.get(field) {
            Some(file) => {
                assert(self@.saved[field@] == file@);
                match FieldIndex::decode(file.as_slice()) {
                    Ok(ix) => ix,
                    Err(e) => {
                        return Err(TableError::Undecodable(e));
                    },
                }
            },
            None => self.build_exact_index(field),
        };
        self.add_active(&mut ix, field);
        let ghost start = self@;
        let ghost view = ix@;
        let n = self.cache.len();
        if n >= max_fields && n > 0 {
            let oldest = self.cache.key_at(0).to_owned();
            let ghost keys = self.cache.keys();
            proof {
                assert(keys.contains(keys[0]));
                let k = keys.index_of(keys[0]);
                assert(keys[k] == keys[0]);
                assert(keys.remove(0) =~= keys.skip(1));
            }
            let _old = self.cache.take(oldest.as_str());
            assert(self@.cache =~= start.cache.remove(keys[0]));
        }
        let ghost kept = self@;
        self.cache.insert(field, ix);
        assert(self@.cache =~= kept.cache.insert(field@, view));
        Ok(())
    }

    fn live_bitmap_for_segment(&self, id: u64, rows: &RowSet) -> (r: RowSet)
        ensures
            r@ == live_rows(self@, id, rows@),
    {
        if let Some(w) = &self.active {
            if w.segment.id == id {
                let mut live = rows.clone();
                live.subtract(&w.segment.deleted_bitmap);
                return live;
            }
        }
        match find_first(self.segments.as_slice(), id) {
            Some(i) => {
                let mut live = rows.clone();
                live.subtract(&self.segments[i].deleted_bitmap);
                live
            },
            None => rows.clone(),
        }
    }

    fn live_entries(&self, list: &[(u64, RowSet)]) -> (r: Vec<(u64, RowSet)>)
        ensures
            postings(r@) == live_list(self@, postings(list@)),
    {
        let ghost view = postings(list@);
        let mut out: Vec<(u64, RowSet)> = Vec::new();
        let mut i: usize = 0;
        assert(postings(out@) =~= Seq::empty());
        assert(view.take(0) =~= Seq::empty());
        while i < list.len()
            invariant
                i <= list@.len(),
                view == postings(list@),
                postings(out@) == live_list(self@, view.take(i as int)),
            decreases list@.len() - i,
        {
            assert(view.take(i + 1).drop_last() =~= view.take(i as int));
            assert(view.take(i + 1).last() == view[i as int]);
            let rows = self.live_bitmap_for_segment(list[i].0, &list[i].1);
            append_hits(&mut out, list[i].0, rows);
            i = i + 1;
        }
        assert(view.take(i as int) =~= view);
        out
    }

    /// The rows that hold a value, by the index of the field; nothing where no index
    /// knows the value.
    pub fn exact_matches_for_field_value(
        &mut self,
        field: &str,
        value: &str,
        max_fields: usize,
    ) -> (r: Result<Option<Vec<(u64, RowSet)>>, TableError>)
        requires
            old(self).wf(),
        ensures
            final(self)@ == after_use(old(self)@, field@, max_fields as int),
            final(self).wf(),
            outcome(r) == value_lookup(old(self)@, field@, value@),
    {
        let ghost start = self@;
        match self.load_exact_index(field, max_fields) {
            Err(e) => {
                return Err(e);
            },
            Ok(_) => {},
        }
        let mut out: Vec<(u64, RowSet)> = Vec::new();
        let mut known = false;
        let ghost m = used_index(start, field@)->0;
        proof {
            lemma_live_list_cache(start, self@, list_of(m, value@));
            assert(postings(out@) =~= Seq::empty());
        }
        if let Some(ix) = self.cache.get(field) {
            assert(self@.cache[field@] == ix@);
            if let Some(list) = ix.get(value) {
                known = true;
                out = self.live_entries(list.as_slice());
            }
        }
        assert(postings(out@) == live_list(start, list_of(m, value@)));
        if let Some(w) = &self.active {
            if let Some(values) = w.bitmaps.get(field) {
                assert(w@.indexes[field@] == index_view(values@));
                if let Some(p) = values.get(value) {
                    assert(index_view(values@)[value@] == p@);
                    known = true;
                    let mut live = p.rows.clone();
                    live.subtract(&w.segment.deleted_bitmap);
                    append_hits(&mut out, w.segment.id, live);
                }
            }
        }
        assert(postings(out@) =~= live_list(start, list_of(m, value@)) + active_entry(
            start,
            field@,
            value@,
        ));
        if known {
            Ok(Some(out))
        } else {
            Ok(None)
        }
    }

    /// The rows that hold one of the values of a list.
    pub fn exact_matches_for_in_filter(&mut self, filter: &Filter, max_fields: usize) -> (r: Result<
        Option<Vec<(u64, RowSet)>>,
        TableError,
    >)
        requires
            old(self).wf(),
        ensures
            (outcome(r), final(self)@) == list_lookup(
                old(self)@,
                filter@.field,
                listed(filter@.value.text, filter@.value_options),
                None,
                max_fields as int,
            ),
            final(self).wf(),
            same_but_cache(final(self)@, old(self)@),
    {
        let values = list_values(filter.value.text.as_str(), filter.value_options.as_slice());
        let ghost all = texts(values@);
        let ghost field = filter@.field;
        let mut found: Option<Vec<(u64, RowSet)>> = None;
        let mut i: usize = 0;
        assert(all.skip(0) =~= all);
        while i < values.len()
            invariant
                i <= values@.len(),
                all == texts(values@),
                all == listed(filter@.value.text, filter@.value_options),
                field == filter@.field,
                self.wf(),
                same_but_cache(self@, old(self)@),
                list_lookup(old(self)@, field, all, None, max_fields as int) == list_lookup(
                    self@,
                    field,
                    all.skip(i as int),
                    hits_option(found),
                    max_fields as int,
                ),
            decreases values@.len() - i,
        {
            proof {
                assert(all.skip(i as int)[0] == values@[i as int]@);
                assert(all.skip(i as int).skip(1) =~= all.skip(i + 1));
            }
            let one = self.exact_matches_for_field_value(
                filter.field.as_str(),
                values[i].as_str(),
                max_fields,
            );
            match one {
                Err(e) => {
                    return Err(e);
                },
                Ok(None) => {},
                Ok(Some(h)) => {
                    let mut all_hits = match found.take() {
                        Some(f) => f,
                        None => Vec::new(),
                    };
                    assert(postings(Seq::<(u64, RowSet)>::empty()) =~= Seq::empty());
                    join(&mut all_hits, h.as_slice());
                    found = Some(all_hits);
                },
            }
            i = i + 1;
        }
        Ok(found)
    }

    /// The rows that the indexes give for the filters by equality and by lists.
    pub fn exact_matches_for_eq_filters(&mut self, filters: &[Filter], max_fields: usize) -> (r:
        Result<Option<Vec<(u64, RowSet)>>, TableError>)
        requires
            old(self).wf(),
        ensures
            (outcome(r), final(self)@) == exact_lookup(
                old(self)@,
                filter_views(filters@),
                None,
                max_fields as int,
            ),
            final(self).wf(),
            same_but_cache(final(self)@, old(self)@),
    {
        let ghost fs = filter_views(filters@);
        let mut found: Option<Vec<(u64, RowSet)>> = None;
        let mut i: usize = 0;
        assert(fs.skip(0) =~= fs);
        while i < filters.len()
            invariant
                i <= filters@.len(),
                fs == filter_views(filters@),
                self.wf(),
                same_but_cache(self@, old(self)@),
                exact_lookup(old(self)@, fs, None, max_fields as int) == exact_lookup(
                    self@,
                    fs.skip(i as int),
                    hits_option(found),
                    max_fields as int,
                ),
            decreases filters@.len() - i,
        {
            let f = &filters[i];
            proof {
                assert(fs.skip(i as int)[0] == f@);
                assert(fs.skip(i as int).skip(1) =~= fs.skip(i + 1));
            }
            if (f.op == ComparisonOp::Eq || f.op == ComparisonOp::In) && f.is_complete() {
                let one = if f.op == ComparisonOp::In {
                    self.exact_matches_for_in_filter(f, max_fields)
                } else {
                    self.exact_matches_for_field_value(
                        f.field.as_str(),
                        f.value.text.as_str(),
                        max_fields,
                    )
                };
                match one {
                    Err(e) => {
                        return Err(e);
                    },
                    Ok(None) => {
                        if f.op == ComparisonOp::In {
                            return Ok(found);
                        }
                        return Ok(None);
                    },
                    Ok(Some(h)) => {
                        let both = match found.take() {
                            Some(before) => intersect_segment_matches(
                                before.as_slice(),
                                h.as_slice(),
                            ),
                            None => h,
                        };
                        assert(postings(both@).len() == both@.len());
                        if both.len() == 0 {
                            return Ok(Some(both));
                        }
                        found = Some(both);
                    },
                }
            }
            i = i + 1;
        }
        Ok(found)
    }

    /// The rows that a search of all segments finds.
    pub fn scan_segments(&self, filters: &[Filter], op: LogicalOp) -> (r: Vec<(u64, RowSet)>)
        requires
            self.wf(),
        ensures
            postings(r@) == scanned(
                self@,
                all_segments(self@),
                filter_views(filters@),
                op,
            ),
    {
        let ghost fs = filter_views(filters@);
        let ghost all = all_segments(self@);
        let ghost view = segment_views(self.segments@);
        let mut out: Vec<(u64, RowSet)> = Vec::new();
        let mut i: usize = 0;
        assert(postings(out@) =~= Seq::empty());
        assert(view.take(0) =~= Seq::empty());
        while i < self.segments.len()
            invariant
                i <= self.segments@.len(),
                self.wf(),
                view == segment_views(self.segments@),
                fs == filter_views(filters@),
                postings(out@) == scanned(self@, view.take(i as int), fs, op),
            decreases self.segments@.len() - i,
        {
            let s = &self.segments[i];
            assert(view.take(i + 1).drop_last() =~= view.take(i as int));
            assert(view.take(i + 1).last() == s@);
            let rows = self.search_segment(s, filters, op);
            append_hits(&mut out, s.id, rows);
            i = i + 1;
        }
        assert(view.take(i as int) =~= view);
        if let Some(w) = &self.active {
            assert(all.drop_last() =~= view);
            assert(all.last() == w@.segment);
            let rows = w.search(filters, op);
            append_hits(&mut out, w.segment.id, rows);
        }
        out
    }

    fn search_segment(&self, s: &Segment, filters: &[Filter], op: LogicalOp) -> (r: RowSet)
        requires
            self.wf(),
            s.wf(),
        ensures
            r@ == segment_rows(self@, s@, filter_views(filters@), op),
    {
        if let Some(w) = &self.active {
            if w.segment.id == s.id {
                return w.search(filters, op);
            }
        }
        s.search_thread_safe(filters, op)
    }

    /// Whether the row at a place meets the filters.
    pub fn candidate_matches_filters(
        &self,
        candidate: (u64, u32),
        filters: &[Filter],
        op: LogicalOp,
    ) -> (r: bool)
        ensures
            r == candidate_meets(self@, candidate, filter_views(filters@), op),
    {
        let ghost fs = filter_views(filters@);
        let mut some_complete = false;
        let mut i: usize = 0;
        while i < filters.len()
            invariant
                i <= filters@.len(),
                fs == filter_views(filters@),
                some_complete == exists|k: int| 0 <= k < i && (#[trigger] fs[k]).complete(),
                match op {
                    LogicalOp::And => forall|k: int|
                        0 <= k < i && (#[trigger] fs[k]).complete() ==> place_meets(
                            self@,
                            candidate,
                            fs[k],
                        ),
                    LogicalOp::Or => forall|k: int|
                        0 <= k < i && (#[trigger] fs[k]).complete() ==> !place_meets(
                            self@,
                            candidate,
                            fs[k],
                        ),
                },
            decreases filters@.len() - i,
        {
            let f = &filters[i];
            assert(fs[i as int] == f@);
            if f.is_complete() {
                some_complete = true;
                let text = match self.holder(candidate.0) {
                    Some(s) => s.read_cell(f.field.as_str(), candidate.1),
                    None => String::new(),
                };
                assert(text@ =~= self@.cell(candidate, f@.field));
                let value = self.reading(text.as_str());
                let met = f.holds(&value);
                assert(met == place_meets(self@, candidate, fs[i as int]));
                match op {
                    LogicalOp::And => {
                        if !met {
                            return false;
                        }
                    },
                    LogicalOp::Or => {
                        if met {
                            return true;
                        }
                    },
                }
            }
            i = i + 1;
        }
        match op {
            LogicalOp::And => true,
            LogicalOp::Or => !some_complete,
        }
    }

    /// The rows that the filters find.
    pub fn find_rows(&mut self, filters: &[Filter], op: LogicalOp, max_fields: usize) -> (r: Result<
        Vec<(u64, RowSet)>,
        TableError,
    >)
        requires
            old(self).wf(),
        ensures
            final(self)@ == found_rows(
                old(self)@,
                filter_views(filters@),
                op,
                max_fields as int,
            ).1,
            final(self).wf(),
            same_but_cache(final(self)@, old(self)@),
            match r {
                Ok(h) => found_rows(
                    old(self)@,
                    filter_views(filters@),
                    op,
                    max_fields as int,
                ).0 == Lookup::Found(postings(h@)),
                Err(_) => found_rows(
                    old(self)@,
                    filter_views(filters@),
                    op,
                    max_fields as int,
                ).0 is Failed,
            },
    {
        let ghost start = self@;
        let ghost fs = filter_views(filters@);
        let key = self.key_field().to_owned();
        let narrow = filters.len() == 1 || op == LogicalOp::And;
        if let Some(i) = find_filter(filters, key.as_str(), ComparisonOp::Eq) {
            if !narrow {
                return Ok(self.scan_segments(filters, op));
            }
            let mut out: Vec<(u64, RowSet)> = Vec::new();
            assert(postings(out@) =~= Seq::empty());
            if let Some(place) = self.primary_index.get(filters[i].value.text.as_str()) {
                let place: (u64, u32) = *place;
                if self.candidate_matches_filters(place, filters, op) {
                    let mut rows = RowSet::new();
                    rows.insert(place.1);
                    let ghost one = rows@;
                    out.push((place.0, rows));
                    assert(postings(out@) =~= seq![(place.0, one)]);
                }
            }
            return Ok(out);
        }
        if let Some(i) = find_filter(filters, key.as_str(), ComparisonOp::In) {
            if !narrow {
                return Ok(self.scan_segments(filters, op));
            }
            return match self.exact_matches_for_in_filter(&filters[i], max_fields) {
                Err(e) => Err(e),
                Ok(Some(h)) => Ok(h),
                Ok(None) => {
                    proof {
                        lemma_scan_cache(start, self@, all_segments(start), fs, op);
                    }
                    Ok(self.scan_segments(filters, op))
                },
            };
        }
        if op == LogicalOp::And {
            return match self.exact_matches_for_eq_filters(filters, max_fields) {
                Err(e) => Err(e),
                Ok(Some(h)) => {
                    let rest = remaining_filters(filters, key.as_str());
                    assert(filter_views(rest@).len() == rest@.len());
                    if rest.len() == 0 {
                        Ok(h)
                    } else {
                        proof {
                            lemma_scan_cache(
                                start,
                                self@,
                                all_segments(start),
                                filter_views(rest@),
                                LogicalOp::And,
                            );
                        }
                        let scanned_rows = self.scan_segments(rest.as_slice(), LogicalOp::And);
                        Ok(intersect_segment_matches(h.as_slice(), scanned_rows.as_slice()))
                    }
                },
                Ok(None) => {
                    proof {
                        lemma_scan_cache(start, self@, all_segments(start), fs, op);
                    }
                    Ok(self.scan_segments(filters, op))
                },
            };
        }
        Ok(self.scan_segments(filters, op))
    }
}

/// The hits of a list, if there is one.
pub open spec fn hits_option(h: Option<Vec<(u64, RowSet)>>) -> Option<Seq<(u64, Set<u32>)>> {
    match h {
        Some(v) => Some(postings(v@)),
        None => None,
    }
}

/// What a lookup came to.
pub open spec fn outcome(r: Result<Option<Vec<(u64, RowSet)>>, TableError>) -> Lookup {
    match r {
        Err(_) => Lookup::Failed,
        Ok(None) => Lookup::Missing,
        Ok(Some(h)) => Lookup::Found(postings(h@)),
    }
}

proof fn lemma_live_list_cache(a: TableView, b: TableView, list: Seq<(u64, Set<u32>)>)
    requires
        same_but_cache(b, a),
    ensures
        live_list(a, list) == live_list(b, list),
    decreases list.len(),
{
    if list.len() > 0 {
        lemma_live_list_cache(a, b, list.drop_last());
    }
}

proof fn lemma_scan_cache(
    a: TableView,
    b: TableView,
    s: Seq<SegmentView>,
    fs: Seq<FilterView>,
    op: LogicalOp,
)
    requires
        same_but_cache(b, a),
    ensures
        scanned(a, s, fs, op) == scanned(b, s, fs, op),
    decreases s.len(),
{
    if s.len() > 0 {
        lemma_scan_cache(a, b, s.drop_last(), fs, op);
    }
}

/// Whether every index in the cache is as it would be made anew.
pub open spec fn cache_in_step(t: TableView) -> bool {
    forall|f: Seq<char>| #[trigger]
        t.cache.contains_key(f) ==> fresh_index(t, f) == Some(t.cache[f])
}

/// The fields whose indexes a search with some filters may ask.
pub open spec fn looked_up(fs: Seq<FilterView>) -> Set<Seq<char>> {
    Set::new(
        |x: Seq<char>|
            exists|i: int|
                0 <= i < fs.len() && (#[trigger] fs[i]).field == x && (fs[i].op
                    == ComparisonOp::Eq || fs[i].op == ComparisonOp::In),
    )
}

/// How many of the fields that a search may ask have no index in the cache.
pub open spec fn missing(t: TableView, fs: Seq<FilterView>) -> nat {
    looked_up(fs).difference(t.cache.dom()).len()
}

/// Whether the indexes of some fields, as far as they are in the cache, are as they
/// would be made anew.
pub open spec fn in_step_on(t: TableView, fields: Set<Seq<char>>) -> bool {
    forall|f: Seq<char>|
        fields.contains(f) && #[trigger] t.cache.contains_key(f) ==> fresh_index(t, f) == Some(
            t.cache[f],
        )
}

/// Whether the fields of the cache are listed once each.
pub open spec fn cache_listed(t: TableView) -> bool {
    &&& t.cache_keys.no_duplicates()
    &&& forall|f: Seq<char>| #[trigger] t.cache.contains_key(f) <==> t.cache_keys.contains(f)
}

/// Whether a search asks no index that it would make in another way once it has left the
/// cache: of the fields that are asked, those in the cache are in step; or none of them
/// is old enough to make room for the others.
pub open spec fn steady(t: TableView, fs: Seq<FilterView>, max: int) -> bool {
    ||| in_step_on(t, looked_up(fs))
    ||| cache_listed(t) && forall|i: int|
        0 <= i < t.cache_keys.len() && i < t.cache_keys.len() + missing(t, fs) - max
            ==> !looked_up(fs).contains(#[trigger] t.cache_keys[i])
}

/// Whether lookups of some fields in two tables come to the same.
spec fn alike(a: TableView, b: TableView, fields: Set<Seq<char>>) -> bool {
    &&& same_but_cache(b, a)
    &&& forall|f: Seq<char>| fields.contains(f) ==> #[trigger] used_index(a, f) == used_index(b, f)
}

proof fn lemma_missing(t: TableView, n: TableView, fs: Seq<FilterView>, field: Seq<char>)
    requires
        looked_up(fs).contains(field),
        !t.cache.contains_key(field),
        forall|f: Seq<char>|
            looked_up(fs).contains(f) ==> (#[trigger] n.cache.contains_key(f)
                <==> t.cache.contains_key(f) || f == field),
    ensures
        missing(n, fs) + 1 == missing(t, fs),
{
    let names = fs.map_values(|f: FilterView| f.field);
    vstd::seq_lib::seq_to_set_is_finite(names);
    assert(looked_up(fs).subset_of(names.to_set())) by {
        assert forall|x: Seq<char>| looked_up(fs).contains(x) implies names.to_set().contains(x) by {
            let i = choose|i: int|
                0 <= i < fs.len() && (#[trigger] fs[i]).field == x && (fs[i].op
                    == ComparisonOp::Eq || fs[i].op == ComparisonOp::In);
            assert(names[i] == x);
        }
    }
    vstd::set_lib::lemma_set_subset_finite(names.to_set(), looked_up(fs));
    let before = looked_up(fs).difference(t.cache.dom());
    assert(looked_up(fs).difference(n.cache.dom()) =~= before.remove(field)) by {
        assert forall|x: Seq<char>| looked_up(fs).difference(n.cache.dom()).contains(x)
            == before.remove(field).contains(x) by {
            assert(n.cache.contains_key(x) == n.cache.dom().contains(x));
        }
    }
    vstd::set_lib::lemma_set_subset_finite(looked_up(fs), before);
    assert(before.contains(field));
}

proof fn lemma_use_steady(t: TableView, fs: Seq<FilterView>, field: Seq<char>, max: int)
    requires
        steady(t, fs, max),
        looked_up(fs).contains(field),
    ensures
        alike(t, after_use(t, field, max), looked_up(fs)),
        steady(after_use(t, field, max), fs, max),
{
    let n = after_use(t, field, max);
    let fields = looked_up(fs);
    assert forall|f: Seq<char>| #[trigger] fresh_index(n, f) == fresh_index(t, f) by {}
    if !t.cache.contains_key(field) && fresh_index(t, field) is Some {
        if in_step_on(t, fields) {
            assert(in_step_on(n, fields)) by {
                assert forall|f: Seq<char>|
                    fields.contains(f) && #[trigger] n.cache.contains_key(f) implies fresh_index(
                    n,
                    f,
                ) == Some(n.cache[f]) by {
                    assert(fresh_index(n, f) == fresh_index(t, f));
                    if f != field {
                        assert(t.cache.contains_key(f));
                    }
                }
            }
            assert forall|f: Seq<char>| fields.contains(f) implies #[trigger] used_index(t, f)
                == used_index(n, f) by {
                assert(fresh_index(n, f) == fresh_index(t, f));
                assert(t.cache.contains_key(f) ==> fresh_index(t, f) == Some(t.cache[f]));
                assert(n.cache.contains_key(f) ==> fresh_index(n, f) == Some(n.cache[f]));
            }
        } else {
            lemma_use_kept(t, fs, field, max);
        }
    }
}

proof fn lemma_use_kept(t: TableView, fs: Seq<FilterView>, field: Seq<char>, max: int)
    requires
        steady(t, fs, max),
        !in_step_on(t, looked_up(fs)),
        looked_up(fs).contains(field),
        !t.cache.contains_key(field),
        fresh_index(t, field) is Some,
    ensures
        alike(t, after_use(t, field, max), looked_up(fs)),
        steady(after_use(t, field, max), fs, max),
{
    let n = after_use(t, field, max);
    let fields = looked_up(fs);
    let len = t.cache_keys.len() as int;
    let old = t.cache_keys;
    let stale = choose|f: Seq<char>|
        fields.contains(f) && #[trigger] t.cache.contains_key(f) && fresh_index(t, f) != Some(
            t.cache[f],
        );
    let at = old.index_of(stale);
    assert(old[at] == stale);
    assert(at >= len + missing(t, fs) - max);
    assert forall|f: Seq<char>| #[trigger] fresh_index(n, f) == fresh_index(t, f) by {}
    let first = missing(t, fs) + len - max;
    let drops = len >= max;
    lemma_missing(t, TableView { cache: t.cache.insert(field, t.cache[field]), ..t }, fs, field);
    if drops {
        assert(!fields.contains(old[0]));
        assert(n.cache_keys =~= old.skip(1).push(field));
    } else {
        assert(n.cache_keys =~= old.push(field));
    }
    assert forall|f: Seq<char>| fields.contains(f) implies (#[trigger] n.cache.contains_key(f)
        <==> t.cache.contains_key(f) || f == field) by {}
    lemma_missing(t, n, fs, field);
    assert(!old.contains(field));
    assert(n.cache_keys.no_duplicates()) by {
        assert forall|i: int, j: int|
            0 <= i < n.cache_keys.len() && 0 <= j < n.cache_keys.len() && i
                != j implies n.cache_keys[i] != n.cache_keys[j] by {
            let shift = if drops {
                1int
            } else {
                0int
            };
            if i < n.cache_keys.len() - 1 {
                assert(n.cache_keys[i] == old[i + shift]);
            }
            if j < n.cache_keys.len() - 1 {
                assert(n.cache_keys[j] == old[j + shift]);
            }
        }
    }
    assert forall|f: Seq<char>| #[trigger]
        n.cache.contains_key(f) <==> n.cache_keys.contains(f) by {
        let shift = if drops {
            1int
        } else {
            0int
        };
        if n.cache_keys.contains(f) {
            let i = n.cache_keys.index_of(f);
            if i < n.cache_keys.len() - 1 {
                assert(n.cache_keys[i] == old[i + shift]);
                assert(old.contains(f));
                assert(t.cache.contains_key(f));
            }
        }
        if n.cache.contains_key(f) {
            if f == field {
                assert(n.cache_keys[n.cache_keys.len() - 1] == f);
            } else {
                assert(t.cache.contains_key(f));
                let i = old.index_of(f);
                assert(old[i] == f);
                assert(n.cache_keys[i - shift] == f);
            }
        }
    }
    assert forall|i: int|
        0 <= i < n.cache_keys.len() && i < n.cache_keys.len() + missing(n, fs)
            - max implies !fields.contains(#[trigger] n.cache_keys[i]) by {
        if drops {
            assert(n.cache_keys[i] == old[i + 1]);
        } else {
            assert(n.cache_keys[i] == old[i]);
        }
    }
    assert forall|f: Seq<char>| fields.contains(f) implies #[trigger] used_index(t, f)
        == used_index(n, f) by {
        assert(fresh_index(n, f) == fresh_index(t, f));
        assert(n.cache.contains_key(f) <==> t.cache.contains_key(f) || f == field);
    }
}

pub(crate) proof fn lemma_value_alike(a: TableView, b: TableView, field: Seq<char>, value: Seq<char>)
    requires
        same_but_cache(b, a),
        used_index(a, field) == used_index(b, field),
    ensures
        value_lookup(a, field, value) == value_lookup(b, field, value),
{
    if used_index(a, field) is Some {
        lemma_live_list_cache(a, b, list_of(used_index(a, field)->0, value));
    }
}

proof fn lemma_list_alike(
    a: TableView,
    b: TableView,
    fs: Seq<FilterView>,
    field: Seq<char>,
    values: Seq<Seq<char>>,
    found: Option<Seq<(u64, Set<u32>)>>,
    max: int,
)
    requires
        alike(a, b, looked_up(fs)),
        steady(a, fs, max),
        steady(b, fs, max),
        looked_up(fs).contains(field),
    ensures
        list_lookup(a, field, values, found, max).0 == list_lookup(b, field, values, found, max).0,
        alike(a, list_lookup(a, field, values, found, max).1, looked_up(fs)),
        steady(list_lookup(a, field, values, found, max).1, fs, max),
        alike(b, list_lookup(b, field, values, found, max).1, looked_up(fs)),
        steady(list_lookup(b, field, values, found, max).1, fs, max),
    decreases values.len(),
{
    if values.len() > 0 {
        let x = after_use(a, field, max);
        let y = after_use(b, field, max);
        lemma_use_steady(a, fs, field, max);
        lemma_use_steady(b, fs, field, max);
        lemma_value_alike(a, b, field, values[0]);
        lemma_alike_trans(a, b, x, y, looked_up(fs));
        match value_lookup(a, field, values[0]) {
            Lookup::Failed => {},
            Lookup::Missing => {
                lemma_list_alike(x, y, fs, field, values.skip(1), found, max);
                lemma_alike_chain(a, x, list_lookup(x, field, values.skip(1), found, max).1, looked_up(fs));
                lemma_alike_chain(b, y, list_lookup(y, field, values.skip(1), found, max).1, looked_up(fs));
            },
            Lookup::Found(h) => {
                let more = Some(
                    joined(
                        match found {
                            Some(f) => f,
                            None => Seq::empty(),
                        },
                        h,
                    ),
                );
                lemma_list_alike(x, y, fs, field, values.skip(1), more, max);
                lemma_alike_chain(a, x, list_lookup(x, field, values.skip(1), more, max).1, looked_up(fs));
                lemma_alike_chain(b, y, list_lookup(y, field, values.skip(1), more, max).1, looked_up(fs));
            },
        }
    }
}

proof fn lemma_alike_chain(a: TableView, b: TableView, c: TableView, fields: Set<Seq<char>>)
    requires
        alike(a, b, fields),
        alike(b, c, fields),
    ensures
        alike(a, c, fields),
{
    assert forall|f: Seq<char>| fields.contains(f) implies #[trigger] used_index(a, f)
        == used_index(c, f) by {
        assert(used_index(a, f) == used_index(b, f));
        assert(used_index(b, f) == used_index(c, f));
    }
}

proof fn lemma_alike_trans(
    a: TableView,
    b: TableView,
    x: TableView,
    y: TableView,
    fields: Set<Seq<char>>,
)
    requires
        alike(a, b, fields),
        alike(a, x, fields),
        alike(b, y, fields),
    ensures
        alike(x, y, fields),
{
    assert forall|f: Seq<char>| fields.contains(f) implies #[trigger] used_index(x, f)
        == used_index(y, f) by {
        assert(used_index(a, f) == used_index(b, f));
        assert(used_index(a, f) == used_index(x, f));
        assert(used_index(b, f) == used_index(y, f));
    }
}

proof fn lemma_filter_alike(
    a: TableView,
    b: TableView,
    fs: Seq<FilterView>,
    f: FilterView,
    max: int,
)
    requires
        alike(a, b, looked_up(fs)),
        steady(a, fs, max),
        steady(b, fs, max),
        looked_up(fs).contains(f.field),
    ensures
        filter_lookup(a, f, max).0 == filter_lookup(b, f, max).0,
        alike(a, filter_lookup(a, f, max).1, looked_up(fs)),
        steady(filter_lookup(a, f, max).1, fs, max),
        alike(b, filter_lookup(b, f, max).1, looked_up(fs)),
        steady(filter_lookup(b, f, max).1, fs, max),
{
    if f.op == ComparisonOp::In {
        let values = listed(f.value.text, f.value_options);
        lemma_list_alike(a, b, fs, f.field, values, None, max);
    } else {
        lemma_use_steady(a, fs, f.field, max);
        lemma_use_steady(b, fs, f.field, max);
        lemma_value_alike(a, b, f.field, f.value.text);
    }
}

proof fn lemma_exact_alike(
    a: TableView,
    b: TableView,
    fs: Seq<FilterView>,
    rest: Seq<FilterView>,
    found: Option<Seq<(u64, Set<u32>)>>,
    max: int,
)
    requires
        alike(a, b, looked_up(fs)),
        steady(a, fs, max),
        steady(b, fs, max),
        forall|i: int|
            0 <= i < rest.len() && by_index(#[trigger] rest[i]) ==> looked_up(fs).contains(
                rest[i].field,
            ),
    ensures
        exact_lookup(a, rest, found, max).0 == exact_lookup(b, rest, found, max).0,
        alike(a, exact_lookup(a, rest, found, max).1, looked_up(fs)),
        steady(exact_lookup(a, rest, found, max).1, fs, max),
        alike(b, exact_lookup(b, rest, found, max).1, looked_up(fs)),
        steady(exact_lookup(b, rest, found, max).1, fs, max),
    decreases rest.len(),
{
    if rest.len() > 0 {
        let next = rest.skip(1);
        assert forall|i: int| 0 <= i < next.len() && by_index(#[trigger] next[i]) implies looked_up(
            fs,
        ).contains(next[i].field) by {
            assert(next[i] == rest[i + 1]);
        }
        if !by_index(rest[0]) {
            lemma_exact_alike(a, b, fs, next, found, max);
        } else {
            lemma_filter_alike(a, b, fs, rest[0], max);
            let (one, x) = filter_lookup(a, rest[0], max);
            let y = filter_lookup(b, rest[0], max).1;
            lemma_alike_trans(a, b, x, y, looked_up(fs));
            if let Lookup::Found(h) = one {
                let both = match found {
                    Some(f) => intersected(f, h),
                    None => h,
                };
                if both.len() > 0 {
                    lemma_exact_alike(x, y, fs, next, Some(both), max);
                    lemma_alike_chain(a, x, exact_lookup(x, next, Some(both), max).1, looked_up(fs));
                    lemma_alike_chain(b, y, exact_lookup(y, next, Some(both), max).1, looked_up(fs));
                }
            }
        }
    }
}

proof fn lemma_filter_on(fs: Seq<FilterView>, field: Seq<char>)
    ensures
        filter_on(fs, field, ComparisonOp::In) matches Some(f) ==> looked_up(fs).contains(f.field),
    decreases fs.len(),
{
    if fs.len() > 0 {
        let first = fs[0];
        if first.field == field && first.op == ComparisonOp::In {
            assert(looked_up(fs).contains(field));
        } else {
            lemma_filter_on(fs.skip(1), field);
            if let Some(f) = filter_on(fs.skip(1), field, ComparisonOp::In) {
                let i = choose|i: int|
                    0 <= i < fs.skip(1).len() && (#[trigger] fs.skip(1)[i]).field == f.field && (
                    fs.skip(1)[i].op == ComparisonOp::Eq || fs.skip(1)[i].op == ComparisonOp::In);
                assert(fs[i + 1] == fs.skip(1)[i]);
            }
        }
    }
}

proof fn lemma_found_alike(
    a: TableView,
    b: TableView,
    fs: Seq<FilterView>,
    op: LogicalOp,
    max: int,
)
    requires
        alike(a, b, looked_up(fs)),
        steady(a, fs, max),
        steady(b, fs, max),
    ensures
        found_rows(a, fs, op, max).0 == found_rows(b, fs, op, max).0,
        alike(a, found_rows(a, fs, op, max).1, looked_up(fs)),
        steady(found_rows(a, fs, op, max).1, fs, max),
{
    let key = key_field(a.manifest);
    lemma_scan_cache(a, b, all_segments(a), fs, op);
    lemma_scan_cache(a, b, all_segments(a), left_filters(fs, key), LogicalOp::And);
    lemma_filter_on(fs, key);
    match filter_on(fs, key, ComparisonOp::Eq) {
        Some(f) => {
            let place = a.places[f.value.text];
            assert forall|g: FilterView| #[trigger]
                place_meets(a, place, g) == place_meets(b, place, g) by {}
            assert(candidate_meets(a, place, fs, op) == candidate_meets(b, place, fs, op));
        },
        None => match filter_on(fs, key, ComparisonOp::In) {
            Some(f) => {
                lemma_list_alike(
                    a,
                    b,
                    fs,
                    f.field,
                    listed(f.value.text, f.value_options),
                    None,
                    max,
                );
            },
            None => {
                assert forall|i: int| 0 <= i < fs.len() && by_index(
                    #[trigger] fs[i],
                ) implies looked_up(fs).contains(fs[i].field) by {}
                lemma_exact_alike(a, b, fs, fs, None, max);
            },
        },
    }
}

/// A search that is made again finds the same rows in the same order: nothing was
/// written in between, and the first search dropped no index from the cache that would
/// be made anew in another way. So all pages of a query are pages of one list.
pub proof fn law_searches_agree(t: TableView, fs: Seq<FilterView>, op: LogicalOp, max: int)
    requires
        steady(t, fs, max),
    ensures
        found_rows(found_rows(t, fs, op, max).1, fs, op, max).0 == found_rows(t, fs, op, max).0,
        steady(found_rows(t, fs, op, max).1, fs, max),
        same_but_cache(found_rows(t, fs, op, max).1, t),
{
    lemma_found_alike(t, t, fs, op, max);
    let n = found_rows(t, fs, op, max).1;
    lemma_found_alike(t, n, fs, op, max);
}

/// A search asks no index that would be made in another way where the whole cache is in
/// step, as that of a table is that was just opened: its cache is empty.
pub proof fn law_in_step_is_steady(t: TableView, fs: Seq<FilterView>, max: int)
    requires
        cache_in_step(t) || t.cache == Map::<
            Seq<char>,
            Map<Seq<char>, Seq<(u64, Set<u32>)>>,
        >::empty(),
    ensures
        cache_in_step(t),
        steady(t, fs, max),
{
}

/// A search asks no index that would be made in another way where the cache has room for
/// all that it may ask, whatever was written since the indexes were made.
pub proof fn law_room_is_steady(t: TableView, fs: Seq<FilterView>, max: int)
    requires
        cache_listed(t),
        t.cache_keys.len() + missing(t, fs) <= max,
    ensures
        steady(t, fs, max),
{
}

proof fn lemma_use_in_step(t: TableView, field: Seq<char>, max: int)
    requires
        cache_in_step(t),
    ensures
        cache_in_step(after_use(t, field, max)),
{
    let n = after_use(t, field, max);
    assert forall|f: Seq<char>| #[trigger] n.cache.contains_key(f) implies fresh_index(n, f)
        == Some(n.cache[f]) by {
        assert(fresh_index(n, f) == fresh_index(t, f));
        if f != field {
            assert(t.cache.contains_key(f));
        }
    }
}

proof fn lemma_list_in_step(
    t: TableView,
    field: Seq<char>,
    values: Seq<Seq<char>>,
    found: Option<Seq<(u64, Set<u32>)>>,
    max: int,
)
    requires
        cache_in_step(t),
    ensures
        cache_in_step(list_lookup(t, field, values, found, max).1),
    decreases values.len(),
{
    if values.len() > 0 {
        let n = after_use(t, field, max);
        lemma_use_in_step(t, field, max);
        match value_lookup(t, field, values[0]) {
            Lookup::Failed => {},
            Lookup::Missing => {
                lemma_list_in_step(n, field, values.skip(1), found, max);
            },
            Lookup::Found(h) => {
                let more = Some(
                    joined(
                        match found {
                            Some(f) => f,
                            None => Seq::empty(),
                        },
                        h,
                    ),
                );
                lemma_list_in_step(n, field, values.skip(1), more, max);
            },
        }
    }
}

proof fn lemma_exact_in_step(
    t: TableView,
    fs: Seq<FilterView>,
    found: Option<Seq<(u64, Set<u32>)>>,
    max: int,
)
    requires
        cache_in_step(t),
    ensures
        cache_in_step(exact_lookup(t, fs, found, max).1),
    decreases fs.len(),
{
    if fs.len() > 0 {
        if !by_index(fs[0]) {
            lemma_exact_in_step(t, fs.skip(1), found, max);
        } else {
            let f = fs[0];
            if f.op == ComparisonOp::In {
                lemma_list_in_step(t, f.field, listed(f.value.text, f.value_options), None, max);
            } else {
                lemma_use_in_step(t, f.field, max);
            }
            let (one, n) = filter_lookup(t, f, max);
            if let Lookup::Found(h) = one {
                let both = match found {
                    Some(f) => intersected(f, h),
                    None => h,
                };
                if both.len() > 0 {
                    lemma_exact_in_step(n, fs.skip(1), Some(both), max);
                }
            }
        }
    }
}

/// A search keeps the cache in step.
pub proof fn law_search_keeps_cache_in_step(
    t: TableView,
    fs: Seq<FilterView>,
    op: LogicalOp,
    max: int,
)
    requires
        cache_in_step(t),
    ensures
        cache_in_step(found_rows(t, fs, op, max).1),
{
    let key = key_field(t.manifest);
    if let Some(f) = filter_on(fs, key, ComparisonOp::In) {
        lemma_list_in_step(t, f.field, listed(f.value.text, f.value_options), None, max);
    }
    lemma_exact_in_step(t, fs, None, max);
}

} // verus!
