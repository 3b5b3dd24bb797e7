//! Sorting by a relation on places.

use vstd::prelude::*;

verus! {

/// Whether each item stands in the relation to those behind it.
pub open spec fn in_order(s: Seq<usize>, rel: spec_fn(int, int) -> bool) -> bool {
    forall|i: int, j: int|
        #![trigger s[i], s[j]]
        0 <= i < j < s.len() ==> rel(s[i] as int, s[j] as int)
}

/// Whether the relation is total and transitive on the numbers below `n`.
pub open spec fn orders_below(n: int, rel: spec_fn(int, int) -> bool) -> bool {
    &&& forall|a: int, b: int|
        #![trigger rel(a, b)]
        0 <= a < n && 0 <= b < n ==> rel(a, b) || rel(b, a)
    &&& forall|a: int, b: int, c: int|
        #![trigger rel(a, b), rel(b, c)]
        0 <= a < n && 0 <= b < n && 0 <= c < n && rel(a, b) && rel(b, c) ==> rel(a, c)
}

/// Whether the executable test answers as the relation on the numbers below `n`.
pub open spec fn decides<F: Fn(usize, usize) -> bool>(
    n: int,
    le: F,
    rel: spec_fn(int, int) -> bool,
) -> bool {
    &&& forall|a: usize, b: usize| a < n && b < n ==> call_requires(le, (a, b))
    &&& forall|a: usize, b: usize, r: bool|
        a < n && b < n && call_ensures(le, (a, b), r) ==> r == rel(a as int, b as int)
}

/// Whether `order` lists each number below `n` once.
pub open spec fn arrangement(order: Seq<usize>, n: int) -> bool {
    &&& order.len() == n
    &&& order.no_duplicates()
    &&& forall|k: int| 0 <= k < order.len() ==> #[trigger] order[k] < n
}

proof fn lemma_merge_bound(s: Seq<usize>, out: Seq<usize>, n: int)
    requires
        s.to_multiset() == out.to_multiset(),
        forall|k: int| 0 <= k < s.len() ==> #[trigger] s[k] < n,
    ensures
        out.len() == s.len(),
        forall|k: int| 0 <= k < out.len() ==> #[trigger] out[k] < n,
{
    broadcast use vstd::seq_lib::group_to_multiset_ensures;

    assert(s.to_multiset().len() == s.len());
    assert(out.to_multiset().len() == out.len());
    assert forall|k: int| 0 <= k < out.len() implies #[trigger] out[k] < n by {
        assert(out.contains(out[k]));
        assert(out.to_multiset().count(out[k]) > 0);
        assert(s.contains(out[k]));
    }
}

fn merge<F: Fn(usize, usize) -> bool>(
    a: &[usize],
    b: &[usize],
    le: &F,
    Ghost(n): Ghost<int>,
    Ghost(rel): Ghost<spec_fn(int, int) -> bool>,
) -> (r: Vec<usize>)
    requires
        orders_below(n, rel),
        decides(n, *le, rel),
        in_order(a@, rel),
        in_order(b@, rel),
        forall|k: int| 0 <= k < a@.len() ==> #[trigger] a@[k] < n,
        forall|k: int| 0 <= k < b@.len() ==> #[trigger] b@[k] < n,
    ensures
        in_order(r@, rel),
        r@.to_multiset() == a@.to_multiset().add(b@.to_multiset()),
{
    broadcast use vstd::seq_lib::group_to_multiset_ensures;

    let mut out: Vec<usize> = Vec::new();
    let mut i: usize = 0;
    let mut j: usize = 0;
    assert(a@.take(0) =~= Seq::<usize>::empty());
    assert(b@.take(0) =~= Seq::<usize>::empty());
    assert(out@.to_multiset() =~= a@.take(0).to_multiset().add(b@.take(0).to_multiset()));
    while i < a.len() || j < b.len()
        invariant
            i <= a@.len(),
            j <= b@.len(),
            orders_below(n, rel),
            decides(n, *le, rel),
            in_order(a@, rel),
            in_order(b@, rel),
            in_order(out@, rel),
            forall|k: int| 0 <= k < a@.len() ==> #[trigger] a@[k] < n,
            forall|k: int| 0 <= k < b@.len() ==> #[trigger] b@[k] < n,
            forall|k: int| 0 <= k < out@.len() ==> #[trigger] out@[k] < n,
            forall|k: int, m: int|
                #![trigger out@[k], a@[m]]
                0 <= k < out@.len() && i <= m < a@.len() ==> rel(out@[k] as int, a@[m] as int),
            forall|k: int, m: int|
                #![trigger out@[k], b@[m]]
                0 <= k < out@.len() && j <= m < b@.len() ==> rel(out@[k] as int, b@[m] as int),
            out@.to_multiset() == a@.take(i as int).to_multiset().add(
                b@.take(j as int).to_multiset(),
            ),
        decreases (a@.len() - i) + (b@.len() - j),
    {
        let from_a: bool = if i >= a.len() {
            false
        } else if j >= b.len() {
            true
        } else {
            le(a[i], b[j])
        };
        let ghost before = out@;
        if from_a {
            out.push(a[i]);
            proof {
                assert(a@.take(i + 1) =~= a@.take(i as int).push(a@[i as int]));
                vstd::seq_lib::to_multiset_build(a@.take(i as int), a@[i as int]);
                vstd::seq_lib::to_multiset_build(before, a@[i as int]);
                assert(out@.to_multiset() =~= a@.take(i + 1).to_multiset().add(
                    b@.take(j as int).to_multiset(),
                ));
                assert forall|m: int| i < m < a@.len() implies rel(
                    a@[i as int] as int,
                    (#[trigger] a@[m]) as int,
                ) by {}
                assert forall|m: int| j <= m < b@.len() implies rel(
                    a@[i as int] as int,
                    (#[trigger] b@[m]) as int,
                ) by {
                    assert(rel(a@[i as int] as int, b@[j as int] as int));
                    if j < m {
                        assert(rel(b@[j as int] as int, b@[m] as int));
                    }
                }
            }
            i = i + 1;
        } else {
            out.push(b[j]);
            proof {
                assert(b@.take(j + 1) =~= b@.take(j as int).push(b@[j as int]));
                vstd::seq_lib::to_multiset_build(b@.take(j as int), b@[j as int]);
                vstd::seq_lib::to_multiset_build(before, b@[j as int]);
                assert(out@.to_multiset() =~= a@.take(i as int).to_multiset().add(
                    b@.take(j + 1).to_multiset(),
                ));
                assert forall|m: int| j < m < b@.len() implies rel(
                    b@[j as int] as int,
                    (#[trigger] b@[m]) as int,
                ) by {}
                assert forall|m: int| i <= m < a@.len() implies rel(
                    b@[j as int] as int,
                    (#[trigger] a@[m]) as int,
                ) by {
                    assert(rel(b@[j as int] as int, a@[i as int] as int)) by {
                        assert(rel(a@[i as int] as int, b@[j as int] as int) || rel(
                            b@[j as int] as int,
                            a@[i as int] as int,
                        ));
                    }
                    if i < m {
                        assert(rel(a@[i as int] as int, a@[m] as int));
                    }
                }
            }
            j = j + 1;
        }
    }
    assert(a@.take(i as int) =~= a@);
    assert(b@.take(j as int) =~= b@);
    out
}

fn sort_places<F: Fn(usize, usize) -> bool>(
    v: Vec<usize>,
    le: &F,
    Ghost(n): Ghost<int>,
    Ghost(rel): Ghost<spec_fn(int, int) -> bool>,
) -> (r: Vec<usize>)
    requires
        orders_below(n, rel),
        decides(n, *le, rel),
        forall|k: int| 0 <= k < v@.len() ==> #[trigger] v@[k] < n,
    ensures
        in_order(r@, rel),
        r@.to_multiset() == v@.to_multiset(),
    decreases v@.len(),
{
    if v.len() <= 1 {
        return v;
    }
    let mid: usize = v.len() / 2;
    let mut left = v;
    let ghost whole = left@;
    let right = left.split_off(mid);
    proof {
        assert(whole =~= left@ + right@);
        vstd::seq_lib::lemma_multiset_commutative(left@, right@);
        assert(forall|k: int| 0 <= k < left@.len() ==> left@[k] == whole[k]);
        assert(forall|k: int| 0 <= k < right@.len() ==> right@[k] == whole[k + mid]);
    }
    let ghost l = left@;
    let ghost q = right@;
    let a = sort_places(left, le, Ghost(n), Ghost(rel));
    let b = sort_places(right, le, Ghost(n), Ghost(rel));
    proof {
        lemma_merge_bound(l, a@, n);
        lemma_merge_bound(q, b@, n);
    }
    merge(a.as_slice(), b.as_slice(), le, Ghost(n), Ghost(rel))
}

/// The numbers below `n` in the order of the relation.
pub(crate) fn sort_indices<F: Fn(usize, usize) -> bool>(
    n: usize,
    le: &F,
    Ghost(rel): Ghost<spec_fn(int, int) -> bool>,
) -> (r: Vec<usize>)
    requires
        orders_below(n as int, rel),
        decides(n as int, *le, rel),
    ensures
        arrangement(r@, n as int),
        in_order(r@, rel),
{
    let mut v: Vec<usize> = Vec::new();
    let mut i: usize = 0;
    while i < n
        invariant
            i <= n,
            v@.len() == i,
            forall|k: int| 0 <= k < i ==> #[trigger] v@[k] == k,
        decreases n - i,
    {
        v.push(i);
        i = i + 1;
    }
    let ghost start = v@;
    let r = sort_places(v, le, Ghost(n as int), Ghost(rel));
    proof {
        lemma_merge_bound(start, r@, n as int);
        assert(start.no_duplicates());
        start.lemma_multiset_has_no_duplicates();
        r@.lemma_multiset_has_no_duplicates_conv();
    }
    r
}

/// An arrangement leaves out no number.
pub proof fn lemma_arrangement_onto(order: Seq<usize>, n: int, x: usize)
    requires
        arrangement(order, n),
        x < n,
    ensures
        order.contains(x),
{
    let ints = order.map_values(|v: usize| v as int);
    assert(ints.no_duplicates()) by {
        assert forall|i: int, j: int| 0 <= i < ints.len() && 0 <= j < ints.len() && i != j implies ints[i]
            != ints[j] by {
            assert(order[i] != order[j]);
        }
    }
    ints.unique_seq_to_set();
    let all = vstd::set_lib::set_int_range(0, n);
    vstd::set_lib::lemma_int_range(0, n);
    assert(ints.to_set().subset_of(all)) by {
        assert forall|v: int| ints.to_set().contains(v) implies all.contains(v) by {
            let k = choose|k: int| 0 <= k < ints.len() && ints[k] == v;
            assert(order[k] < n);
        }
    }
    vstd::set_lib::lemma_subset_equality(ints.to_set(), all);
    assert(all.contains(x as int));
    assert(ints.to_set().contains(x as int));
    let k = choose|k: int| 0 <= k < ints.len() && ints[k] == x as int;
    assert(order[k] == x);
}

} // verus!
