//! Sets of row numbers, held in a compressed bitmap.

use roaring::RoaringBitmap;
use vstd::prelude::*;

verus! {

/// A compressed bitmap of `u32` values, from the crate `roaring`.
#[verifier::external_type_specification]
#[verifier::external_body]
pub struct ExRoaringBitmap(roaring::RoaringBitmap);

/// The values that a bitmap holds.
pub uninterp spec fn bitmap_values(b: RoaringBitmap) -> Set<u32>;

/// `RoaringBitmap::new`: a bitmap that holds nothing.
pub assume_specification[ roaring::RoaringBitmap::new ]() -> (r: roaring::RoaringBitmap)
    ensures
        bitmap_values(r) == Set::<u32>::empty(),
;

/// `RoaringBitmap::insert`: adds the value, and tells whether it was missing.
pub assume_specification[ roaring::RoaringBitmap::insert ](
    b: &mut roaring::RoaringBitmap,
    value: u32,
) -> (r: bool)
    ensures
        bitmap_values(*final(b)) == bitmap_values(*old(b)).insert(value),
        r == !bitmap_values(*old(b)).contains(value),
;

/// `RoaringBitmap::contains`: whether the bitmap holds the value.
pub assume_specification[ roaring::RoaringBitmap::contains ](
    b: &roaring::RoaringBitmap,
    value: u32,
) -> (r: bool)
    ensures
        r == bitmap_values(*b).contains(value),
;

/// `RoaringBitmap::len`: how many values the bitmap holds.
pub assume_specification[ roaring::RoaringBitmap::len ](b: &roaring::RoaringBitmap) -> (r: u64)
    ensures
        r == bitmap_values(*b).len(),
;

/// `RoaringBitmap::is_empty`: whether the bitmap holds nothing.
pub assume_specification[ roaring::RoaringBitmap::is_empty ](b: &roaring::RoaringBitmap) -> (r: bool)
    ensures
        r == (bitmap_values(*b) == Set::<u32>::empty()),
;

/// `RoaringBitmap::clone`: a bitmap of the same values.
pub assume_specification[ <roaring::RoaringBitmap as Clone>::clone ](
    b: &roaring::RoaringBitmap,
) -> (r: roaring::RoaringBitmap)
    ensures
        bitmap_values(r) == bitmap_values(*b),
;

/// `RoaringBitmap::insert_range` on `0..to`: adds every value below `to`.
#[verifier::external_body]
fn insert_below(b: &mut RoaringBitmap, to: u32)
    ensures
        bitmap_values(*final(b)) == bitmap_values(*old(b)).union(Set::new(|v: u32| v < to)),
{
    b.insert_range(0..to);
}

/// `&RoaringBitmap & &RoaringBitmap`: the values that both hold.
#[verifier::external_body]
fn bitmap_and(a: &RoaringBitmap, b: &RoaringBitmap) -> (r: RoaringBitmap)
    ensures
        bitmap_values(r) == bitmap_values(*a).intersect(bitmap_values(*b)),
{
    a & b
}

/// `RoaringBitmap |= &RoaringBitmap`: adds the values of the other.
#[verifier::external_body]
fn bitmap_or_assign(a: &mut RoaringBitmap, b: &RoaringBitmap)
    ensures
        bitmap_values(*final(a)) == bitmap_values(*old(a)).union(bitmap_values(*b)),
{
    *a |= b;
}

/// `RoaringBitmap -= &RoaringBitmap`: takes the values of the other away.
#[verifier::external_body]
fn bitmap_sub_assign(a: &mut RoaringBitmap, b: &RoaringBitmap)
    ensures
        bitmap_values(*final(a)) == bitmap_values(*old(a)).difference(bitmap_values(*b)),
{
    *a -= b;
}

/// `RoaringBitmap::iter`: the values in ascending order, each once.
#[verifier::external_body]
fn bitmap_items(b: &RoaringBitmap) -> (r: Vec<u32>)
    ensures
        ascending(r@),
        r@.to_set() == bitmap_values(*b),
{
    b.iter().collect()
}

/// Whether each item is smaller than those behind it.
pub open spec fn ascending(s: Seq<u32>) -> bool {
    forall|i: int, j: int| 0 <= i < j < s.len() ==> s[i] < s[j]
}

/// A set of row numbers. It is made empty and filled through its own methods
/// only, so the bitmap inside is always in order.
pub struct RowSet {
    bits: RoaringBitmap,
}

impl View for RowSet {
    type V = Set<u32>;

    closed spec fn view(&self) -> Set<u32> {
        bitmap_values(self.bits)
    }
}

/// Every set of row numbers is finite.
pub proof fn lemma_rows_finite(s: Set<u32>)
    ensures
        s.finite(),
{
    broadcast use vstd::set_lib::full_set_properties;

    vstd::set_lib::lemma_set_subset_finite(Set::<u32>::full(), s);
}

/// Two ascending lists with the same items are the same list.
pub proof fn lemma_ascending_unique(a: Seq<u32>, b: Seq<u32>)
    requires
        ascending(a),
        ascending(b),
        a.to_set() == b.to_set(),
    ensures
        a == b,
    decreases a.len(),
{
    if a.len() == 0 {
        if b.len() > 0 {
            assert(b.to_set().contains(b[0]));
            assert(a.to_set().contains(b[0]));
        }
        assert(a =~= b);
    } else {
        assert(a.to_set().contains(a.last()));
        assert(b.to_set().contains(a.last()));
        let i = choose|i: int| 0 <= i < b.len() && b[i] == a.last();
        assert(b.to_set().contains(b.last()));
        assert(a.to_set().contains(b.last()));
        let j = choose|j: int| 0 <= j < a.len() && a[j] == b.last();
        assert(a.last() == b.last()) by {
            if i < b.len() - 1 {
                assert(b[i] < b[b.len() - 1]);
            }
            if j < a.len() - 1 {
                assert(a[j] < a[a.len() - 1]);
            }
        }
        let x = a.drop_last();
        let y = b.drop_last();
        assert(x.to_set() =~= y.to_set()) by {
            assert forall|v: u32| x.to_set().contains(v) == y.to_set().contains(v) by {
                if x.contains(v) {
                    let k = choose|k: int| 0 <= k < x.len() && x[k] == v;
                    assert(a[k] == v && a[k] < a.last());
                    assert(a.to_set().contains(v));
                    assert(b.to_set().contains(v));
                    let m = choose|m: int| 0 <= m < b.len() && b[m] == v;
                    assert(y[m] == v);
                }
                if y.contains(v) {
                    let k = choose|k: int| 0 <= k < y.len() && y[k] == v;
                    assert(b[k] == v && b[k] < b.last());
                    assert(b.to_set().contains(v));
                    assert(a.to_set().contains(v));
                    let m = choose|m: int| 0 <= m < a.len() && a[m] == v;
                    assert(x[m] == v);
                }
            }
        }
        lemma_ascending_unique(x, y);
        assert(a =~= x.push(a.last()));
        assert(b =~= y.push(b.last()));
    }
}

/// An ascending list holds as many items as its set.
pub proof fn lemma_ascending_len(a: Seq<u32>)
    requires
        ascending(a),
    ensures
        a.no_duplicates(),
        a.to_set().len() == a.len(),
{
    assert(a.no_duplicates());
    a.unique_seq_to_set();
}

/// The rows of a set in ascending order.
pub open spec fn rows_in_order(s: Set<u32>) -> Seq<u32> {
    choose|q: Seq<u32>| ascending(q) && q.to_set() == s
}

/// Every set of rows can be listed in ascending order.
pub proof fn lemma_in_order(s: Set<u32>)
    ensures
        ascending(rows_in_order(s)),
        rows_in_order(s).to_set() == s,
{
    let q = lemma_ascending_list(s);
    assert(ascending(q) && q.to_set() == s);
}

proof fn lemma_ascending_list(s: Set<u32>) -> (q: Seq<u32>)
    ensures
        ascending(q),
        q.to_set() == s,
    decreases s.len(),
{
    lemma_rows_finite(s);
    if s.len() == 0 {
        assert(s =~= Set::empty());
        let q = Seq::<u32>::empty();
        assert(q.to_set() =~= s);
        q
    } else {
        let m = lemma_greatest(s);
        let front = lemma_ascending_list(s.remove(m));
        assert forall|i: int| 0 <= i < front.len() implies #[trigger] front[i] < m by {
            assert(front.to_set().contains(front[i]));
        }
        let q = front.push(m);
        front.lemma_push_to_set_commute(m);
        assert(q.to_set() =~= s);
        q
    }
}

proof fn lemma_greatest(s: Set<u32>) -> (m: u32)
    requires
        s.len() > 0,
    ensures
        s.contains(m),
        forall|v: u32| s.contains(v) ==> v <= m,
    decreases s.len(),
{
    lemma_rows_finite(s);
    let a = s.choose();
    if s.len() == 1 {
        assert(s.remove(a).len() == 0);
        assert(s.remove(a) =~= Set::empty());
        a
    } else {
        let b = lemma_greatest(s.remove(a));
        if a < b {
            b
        } else {
            a
        }
    }
}

impl RowSet {
    /// The bitmap inside.
    pub(crate) fn bitmap(&self) -> (r: &RoaringBitmap)
        ensures
            bitmap_values(*r) == self@,
    {
        &self.bits
    }

    /// No row.
    pub fn new() -> (r: RowSet)
        ensures
            r@ == Set::<u32>::empty(),
    {
        RowSet { bits: RoaringBitmap::new() }
    }

    /// The rows below `n`.
    pub fn below(n: u32) -> (r: RowSet)
        ensures
            r@ == Set::new(|v: u32| v < n),
    {
        let mut bits = RoaringBitmap::new();
        insert_below(&mut bits, n);
        let r = RowSet { bits };
        assert(r@ =~= Set::new(|v: u32| v < n));
        r
    }

    /// The rows of a list.
    pub fn from_ids(ids: &[u32]) -> (r: RowSet)
        ensures
            r@ == ids@.to_set(),
    {
        let mut r = RowSet::new();
        let mut i: usize = 0;
        assert(ids@.take(0).to_set() =~= Set::empty());
        while i < ids.len()
            invariant
                i <= ids@.len(),
                r@ == ids@.take(i as int).to_set(),
            decreases ids@.len() - i,
        {
            r.insert(ids[i]);
            i = i + 1;
            assert(r@ =~= ids@.take(i as int).to_set()) by {
                let a = ids@.take(i - 1);
                let b = ids@.take(i as int);
                assert(b =~= a.push(ids@[i - 1]));
                a.lemma_push_to_set_commute(ids@[i - 1]);
            }
        }
        assert(ids@.take(i as int) =~= ids@);
        r
    }

    /// Adds a row, and tells whether it was missing.
    pub fn insert(&mut self, row: u32) -> (r: bool)
        ensures
            final(self)@ == old(self)@.insert(row),
            r == !old(self)@.contains(row),
    {
        self.bits.insert(row)
    }

    /// Whether the row is in the set.
    pub fn contains(&self, row: u32) -> (r: bool)
        ensures
            r == self@.contains(row),
    {
        self.bits.contains(row)
    }

    /// How many rows there are.
    pub fn len(&self) -> (r: u64)
        ensures
            r == self@.len(),
    {
        self.bits.len()
    }

    /// Whether there is no row.
    pub fn is_empty(&self) -> (r: bool)
        ensures
            r == (self@ == Set::<u32>::empty()),
    {
        self.bits.is_empty()
    }

    /// The rows that both sets hold.
    pub fn intersection(&self, other: &RowSet) -> (r: RowSet)
        ensures
            r@ == self@.intersect(other@),
    {
        RowSet { bits: bitmap_and(&self.bits, &other.bits) }
    }

    /// Adds the rows of the other set.
    pub fn union_with(&mut self, other: &RowSet)
        ensures
            final(self)@ == old(self)@.union(other@),
    {
        bitmap_or_assign(&mut self.bits, &other.bits);
    }

    /// Takes the rows of the other set away.
    pub fn subtract(&mut self, other: &RowSet)
        ensures
            final(self)@ == old(self)@.difference(other@),
    {
        bitmap_sub_assign(&mut self.bits, &other.bits);
    }

    /// The rows in ascending order.
    pub fn ids(&self) -> (r: Vec<u32>)
        ensures
            ascending(r@),
            r@.to_set() == self@,
            r@ == rows_in_order(self@),
    {
        let r = bitmap_items(&self.bits);
        proof {
            let q = rows_in_order(self@);
            assert(ascending(q) && q.to_set() == self@);
            lemma_ascending_unique(r@, q);
        }
        r
    }
}

impl Clone for RowSet {
    fn clone(&self) -> (r: Self)
        ensures
            r@ == self@,
    {
        RowSet { bits: self.bits.clone() }
    }
}

} // verus!
