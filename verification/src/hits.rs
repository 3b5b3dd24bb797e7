//! What a search found: segments, and the rows found in each.

use crate::postings::postings;
use crate::rowset::{lemma_ascending_len, lemma_in_order, rows_in_order, RowSet};
use vstd::prelude::*;

verus! {

/// The rows that the last entry of a segment lists.
pub open spec fn last_with(h: Seq<(u64, Set<u32>)>, id: u64) -> Option<Set<u32>>
    decreases h.len(),
{
    if h.len() == 0 {
        None
    } else if h.last().0 == id {
        Some(h.last().1)
    } else {
        last_with(h.drop_last(), id)
    }
}

/// The place of the last entry of a segment.
fn find_last(h: &[(u64, RowSet)], id: u64) -> (r: Option<usize>)
    ensures
        match r {
            Some(i) => i < h@.len() && last_with(postings(h@), id) == Some(h@[i as int].1@),
            None => last_with(postings(h@), id) is None,
        },
{
    let ghost view = postings(h@);
    let mut i: usize = h.len();
    assert(view.take(i as int) =~= view);
    while i > 0
        invariant
            i <= h@.len(),
            view == postings(h@),
            last_with(view, id) == last_with(view.take(i as int), id),
        decreases i,
    {
        assert(view.take(i as int).last() == view[i - 1]);
        assert(view.take(i as int).drop_last() =~= view.take(i - 1));
        i = i - 1;
        if h[i].0 == id {
            return Some(i);
        }
    }
    None
}

/// The entries of the left list whose segments the right one has too, with the
/// rows that both list; an entry without rows is left out.
pub open spec fn intersected(left: Seq<(u64, Set<u32>)>, right: Seq<(u64, Set<u32>)>) -> Seq<
    (u64, Set<u32>),
>
    decreases left.len(),
{
    if left.len() == 0 {
        Seq::empty()
    } else {
        let before = intersected(left.drop_last(), right);
        match last_with(right, left.last().0) {
            Some(rows) => if left.last().1.intersect(rows) == Set::<u32>::empty() {
                before
            } else {
                before.push((left.last().0, left.last().1.intersect(rows)))
            },
            None => before,
        }
    }
}

/// The rows that both lists hold.
pub fn intersect_segment_matches(left: &[(u64, RowSet)], right: &[(u64, RowSet)]) -> (r: Vec<
    (u64, RowSet),
>)
    ensures
        postings(r@) == intersected(postings(left@), postings(right@)),
{
    let ghost l = postings(left@);
    let ghost rv = postings(right@);
    let mut out: Vec<(u64, RowSet)> = Vec::new();
    let mut i: usize = 0;
    assert(l.take(0) =~= Seq::empty());
    assert(postings(out@) =~= Seq::empty());
    while i < left.len()
        invariant
            i <= left@.len(),
            l == postings(left@),
            rv == postings(right@),
            postings(out@) == intersected(l.take(i as int), rv),
        decreases left@.len() - i,
    {
        let e = &left[i];
        let ghost before = postings(out@);
        proof {
            assert(l.take(i + 1).last() == l[i as int]);
            assert(l.take(i + 1).drop_last() =~= l.take(i as int));
        }
        match find_last(right, e.0) {
            Some(j) => {
                let both = e.1.intersection(&right[j].1);
                if !both.is_empty() {
                    let ghost rows = both@;
                    out.push((e.0, both));
                    assert(postings(out@) =~= before.push((e.0, rows)));
                }
            },
            None => {},
        }
        i = i + 1;
    }
    assert(l.take(i as int) =~= l);
    out
}

/// How many rows the entries list together.
pub open spec fn listed_rows(h: Seq<(u64, Set<u32>)>) -> nat
    decreases h.len(),
{
    if h.len() == 0 {
        0
    } else {
        listed_rows(h.drop_last()) + h.last().1.len()
    }
}

/// The number, or the greatest one of 64 bits where it is greater than that.
pub open spec fn capped(n: nat) -> u64 {
    if n <= u64::MAX {
        n as u64
    } else {
        u64::MAX
    }
}

/// The sum, or the greatest number of 64 bits.
pub fn capped_sum(a: u64, b: u64) -> (r: u64)
    ensures
        r == capped((a + b) as nat),
{
    if a <= u64::MAX - b {
        a + b
    } else {
        u64::MAX
    }
}

/// How many rows were found.
pub fn count_rows(h: &[(u64, RowSet)]) -> (r: u64)
    ensures
        r == capped(listed_rows(postings(h@))),
{
    let ghost view = postings(h@);
    let mut total: u64 = 0;
    let mut i: usize = 0;
    while i < h.len()
        invariant
            i <= h@.len(),
            view == postings(h@),
            total == capped(listed_rows(view.take(i as int))),
        decreases h@.len() - i,
    {
        assert(view.take(i + 1).last() == view[i as int]);
        assert(view.take(i + 1).drop_last() =~= view.take(i as int));
        total = capped_sum(total, h[i].1.len());
        i = i + 1;
    }
    assert(view.take(i as int) =~= view);
    total
}

/// The rows of a segment as pairs.
pub open spec fn row_pairs(id: u64, rows: Seq<u32>) -> Seq<(u64, u32)> {
    rows.map_values(|row: u32| (id, row))
}

/// Every row that was found: segment by segment, and in a segment in ascending
/// order.
pub open spec fn found_ids(h: Seq<(u64, Set<u32>)>) -> Seq<(u64, u32)>
    decreases h.len(),
{
    if h.len() == 0 {
        Seq::empty()
    } else {
        found_ids(h.drop_last()) + row_pairs(h.last().0, rows_in_order(h.last().1))
    }
}

/// Every row that was found.
pub fn list_ids(h: &[(u64, RowSet)]) -> (r: Vec<(u64, u32)>)
    ensures
        r@ == found_ids(postings(h@)),
{
    let ghost view = postings(h@);
    let mut out: Vec<(u64, u32)> = Vec::new();
    let mut i: usize = 0;
    while i < h.len()
        invariant
            i <= h@.len(),
            view == postings(h@),
            out@ == found_ids(view.take(i as int)),
        decreases h@.len() - i,
    {
        let rows = h[i].1.ids();
        let id: u64 = h[i].0;
        let ghost before = out@;
        let mut j: usize = 0;
        while j < rows.len()
            invariant
                j <= rows@.len(),
                out@ == before + row_pairs(id, rows@.take(j as int)),
            decreases rows@.len() - j,
        {
            out.push((id, rows[j]));
            j = j + 1;
            assert(rows@.take(j as int) =~= rows@.take(j - 1).push(rows@[j - 1]));
            assert(out@ =~= before + row_pairs(id, rows@.take(j as int)));
        }
        proof {
            assert(rows@.take(j as int) =~= rows@);
            assert(view.take(i + 1).last() == view[i as int]);
            assert(view.take(i + 1).drop_last() =~= view.take(i as int));
        }
        i = i + 1;
    }
    assert(view.take(i as int) =~= view);
    out
}

/// What is left of a list when the first `offset` items are passed over and at
/// most `limit` are taken.
pub open spec fn page<T>(s: Seq<T>, offset: int, limit: int) -> Seq<T> {
    s.skip(if offset <= s.len() {
        offset
    } else {
        s.len() as int
    }).take(
        if offset + limit <= s.len() {
            limit
        } else if offset <= s.len() {
            s.len() - offset
        } else {
            0
        },
    )
}

proof fn lemma_page_push(s: Seq<(u64, u32)>, item: (u64, u32), offset: int, limit: int)
    requires
        offset >= 0,
        limit >= 0,
    ensures
        page(s.push(item), offset, limit) == if s.len() < offset || page(s, offset, limit).len()
            >= limit {
            page(s, offset, limit)
        } else {
            page(s, offset, limit).push(item)
        },
{
    let a = page(s.push(item), offset, limit);
    let b = page(s, offset, limit);
    if s.len() < offset || b.len() >= limit {
        assert(a =~= b);
    } else {
        assert(a =~= b.push(item));
    }
}

proof fn lemma_page_full(s: Seq<(u64, u32)>, t: Seq<(u64, u32)>, offset: int, limit: int)
    requires
        offset >= 0,
        limit >= 0,
        page(s, offset, limit).len() >= limit,
    ensures
        page(s + t, offset, limit) == page(s, offset, limit),
{
    if limit > 0 {
        assert(page(s + t, offset, limit) =~= page(s, offset, limit));
    } else {
        assert(page(s + t, offset, limit) =~= page(s, offset, limit));
    }
}

proof fn lemma_found_prefix(h: Seq<(u64, Set<u32>)>, n: int) -> (rest: Seq<(u64, u32)>)
    requires
        0 <= n <= h.len(),
    ensures
        found_ids(h) == found_ids(h.take(n)) + rest,
    decreases h.len() - n,
{
    if n == h.len() {
        assert(h.take(n) =~= h);
        assert(found_ids(h) =~= found_ids(h) + Seq::<(u64, u32)>::empty());
        Seq::empty()
    } else {
        let more = lemma_found_prefix(h, n + 1);
        assert(h.take(n + 1).drop_last() =~= h.take(n));
        assert(h.take(n + 1).last() == h[n]);
        let mine = row_pairs(h[n].0, rows_in_order(h[n].1));
        assert(found_ids(h) =~= found_ids(h.take(n)) + (mine + more));
        mine + more
    }
}

/// The rows of one page, without listing those behind it.
pub fn page_ids(h: &[(u64, RowSet)], offset: usize, limit: usize) -> (r: Vec<(u64, u32)>)
    ensures
        r@ == page(found_ids(postings(h@)), offset as int, limit as int),
{
    let ghost view = postings(h@);
    let mut out: Vec<(u64, u32)> = Vec::new();
    let mut skipped: usize = 0;
    let mut i: usize = 0;
    assert(out@ =~= page(found_ids(view.take(0)), offset as int, limit as int));
    while i < h.len() && out.len() < limit
        invariant
            i <= h@.len(),
            view == postings(h@),
            out@ == page(found_ids(view.take(i as int)), offset as int, limit as int),
            skipped <= offset,
            skipped < offset ==> skipped == found_ids(view.take(i as int)).len(),
            skipped == offset ==> found_ids(view.take(i as int)).len() >= offset,
        decreases h@.len() - i,
    {
        let rows = h[i].1.ids();
        let id: u64 = h[i].0;
        let ghost before = found_ids(view.take(i as int));
        let mut j: usize = 0;
        assert(before + row_pairs(id, rows@.take(0)) =~= before);
        while j < rows.len()
            invariant
                j <= rows@.len(),
                out@ == page(
                    before + row_pairs(id, rows@.take(j as int)),
                    offset as int,
                    limit as int,
                ),
                skipped <= offset,
                skipped < offset ==> skipped == before.len() + j,
                skipped == offset ==> before.len() + j >= offset,
            decreases rows@.len() - j,
        {
            proof {
                let seen = before + row_pairs(id, rows@.take(j as int));
                assert(rows@.take(j + 1) =~= rows@.take(j as int).push(rows@[j as int]));
                assert(before + row_pairs(id, rows@.take(j + 1)) =~= seen.push(
                    (id, rows@[j as int]),
                ));
                lemma_page_push(seen, (id, rows@[j as int]), offset as int, limit as int);
            }
            if skipped < offset {
                skipped = skipped + 1;
            } else if out.len() < limit {
                out.push((id, rows[j]));
            }
            j = j + 1;
        }
        proof {
            assert(rows@.take(j as int) =~= rows@);
            assert(view.take(i + 1).last() == view[i as int]);
            assert(view.take(i + 1).drop_last() =~= view.take(i as int));
        }
        i = i + 1;
    }
    proof {
        let rest = lemma_found_prefix(view, i as int);
        if i < h@.len() {
            lemma_page_full(found_ids(view.take(i as int)), rest, offset as int, limit as int);
        } else {
            assert(view.take(i as int) =~= view);
        }
    }
    out
}

/// There are as many rows as the entries list together.
pub proof fn law_found_count(h: Seq<(u64, Set<u32>)>)
    ensures
        found_ids(h).len() == listed_rows(h),
    decreases h.len(),
{
    if h.len() > 0 {
        law_found_count(h.drop_last());
        let rows = h.last().1;
        lemma_in_order(rows);
        lemma_ascending_len(rows_in_order(rows));
    }
}

/// A page is a run of the list, no longer than the limit; going through the pages
/// from the first on, each item comes once and in its place.
pub proof fn law_pages_cover<T>(s: Seq<T>, offset: int, limit: int)
    requires
        offset >= 0,
        limit > 0,
    ensures
        page(s, offset, limit).len() <= limit,
        page(s, 0, offset + limit) == page(s, 0, offset) + page(s, offset, limit),
        offset >= s.len() ==> page(s, 0, offset) == s,
{
    assert(page(s, 0, offset + limit) =~= page(s, 0, offset) + page(s, offset, limit));
    if offset >= s.len() {
        assert(page(s, 0, offset) =~= s);
    }
}

} // verus!
