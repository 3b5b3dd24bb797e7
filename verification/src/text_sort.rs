//! Texts in the order of texts.

use crate::text::{
    is_before, lemma_text_less_asymmetric, lemma_text_less_total, lemma_text_less_transitive,
    same_text, text_less, texts,
};
use vstd::prelude::*;

verus! {

/// Where a text belongs among texts in order: behind those that are not greater.
pub open spec fn text_slot(s: Seq<Seq<char>>, t: Seq<char>) -> int
    decreases s.len(),
{
    if s.len() == 0 || !text_less(t, s.last()) {
        s.len() as int
    } else {
        text_slot(s.drop_last(), t)
    }
}

/// The texts in their order.
pub open spec fn sorted_texts(s: Seq<Seq<char>>) -> Seq<Seq<char>>
    decreases s.len(),
{
    if s.len() == 0 {
        Seq::empty()
    } else {
        let front = sorted_texts(s.drop_last());
        front.insert(text_slot(front, s.last()), s.last())
    }
}

proof fn lemma_text_slot(s: Seq<Seq<char>>, t: Seq<char>)
    ensures
        0 <= text_slot(s, t) <= s.len(),
        forall|k: int| text_slot(s, t) <= k < s.len() ==> text_less(t, #[trigger] s[k]),
        text_slot(s, t) > 0 ==> !text_less(t, s[text_slot(s, t) - 1]),
    decreases s.len(),
{
    if s.len() > 0 && text_less(t, s.last()) {
        let front = s.drop_last();
        lemma_text_slot(front, t);
        assert forall|k: int| text_slot(s, t) <= k < s.len() implies text_less(
            t,
            #[trigger] s[k],
        ) by {
            if k < front.len() {
                assert(front[k] == s[k]);
            }
        }
    }
}

proof fn lemma_not_less(a: Seq<char>, b: Seq<char>, c: Seq<char>)
    requires
        !text_less(b, a),
        !text_less(c, b),
    ensures
        !text_less(c, a),
{
    if text_less(c, a) {
        lemma_text_less_total(a, b);
        if a != b {
            lemma_text_less_transitive(c, a, b);
        }
    }
}

/// Sorting keeps the texts and puts none behind a smaller one.
pub proof fn law_texts_sorted(s: Seq<Seq<char>>)
    ensures
        sorted_texts(s).len() == s.len(),
        sorted_texts(s).to_multiset() == s.to_multiset(),
        forall|i: int, j: int|
            #![trigger sorted_texts(s)[i], sorted_texts(s)[j]]
            0 <= i < j < s.len() ==> !text_less(sorted_texts(s)[j], sorted_texts(s)[i]),
    decreases s.len(),
{
    broadcast use vstd::seq_lib::group_to_multiset_ensures;

    if s.len() == 0 {
        assert(s =~= Seq::empty());
    } else {
        let front = sorted_texts(s.drop_last());
        let t = s.last();
        law_texts_sorted(s.drop_last());
        let k = text_slot(front, t);
        lemma_text_slot(front, t);
        let all = sorted_texts(s);
        vstd::seq_lib::to_multiset_insert(front, k, t);
        assert(s =~= s.drop_last().push(t));
        vstd::seq_lib::to_multiset_build(s.drop_last(), t);
        assert forall|i: int, j: int|
            #![trigger all[i], all[j]]
            0 <= i < j < s.len() implies !text_less(all[j], all[i]) by {
            if i < k {
                assert(all[i] == front[i]);
                if j < k {
                    assert(all[j] == front[j]);
                } else if j > k {
                    assert(all[j] == front[j - 1]);
                } else {
                    if i < k - 1 {
                        assert(!text_less(front[k - 1], front[i]));
                        lemma_not_less(front[i], front[k - 1], t);
                    }
                }
            } else if i == k {
                assert(all[j] == front[j - 1]);
                lemma_text_less_asymmetric(t, front[j - 1]);
            } else {
                assert(all[i] == front[i - 1]);
                assert(all[j] == front[j - 1]);
            }
        }
    }
}

/// Puts a text in its place among texts in order.
fn insert_text(out: &mut Vec<String>, t: String)
    ensures
        texts(final(out)@) == texts(old(out)@).insert(text_slot(texts(old(out)@), t@), t@),
{
    let ghost view = texts(out@);
    let mut k: usize = out.len();
    assert(view.take(k as int) =~= view);
    while k > 0 && is_before(t.as_str(), out[k - 1].as_str())
        invariant
            k <= out@.len(),
            view == texts(out@),
            text_slot(view, t@) == text_slot(view.take(k as int), t@),
        decreases k,
    {
        assert(view.take(k as int).last() == view[k - 1]);
        assert(view.take(k as int).drop_last() =~= view.take(k - 1));
        k = k - 1;
    }
    assert(k == text_slot(view, t@)) by {
        if k > 0 {
            assert(view.take(k as int).last() == view[k - 1]);
        }
    }
    let ghost one = t@;
    out.insert(k, t);
    assert(texts(out@) =~= view.insert(k as int, one));
}

/// Puts texts in their order.
pub fn sort_texts(v: &[String]) -> (r: Vec<String>)
    ensures
        texts(r@) == sorted_texts(texts(v@)),
{
    let ghost want = texts(v@);
    let mut out: Vec<String> = Vec::new();
    let mut i: usize = 0;
    assert(texts(out@) =~= Seq::empty());
    assert(want.take(0) =~= Seq::empty());
    while i < v.len()
        invariant
            i <= v@.len(),
            want == texts(v@),
            texts(out@) == sorted_texts(want.take(i as int)),
        decreases v@.len() - i,
    {
        assert(want.take(i + 1).drop_last() =~= want.take(i as int));
        assert(want.take(i + 1).last() == v@[i as int]@);
        insert_text(&mut out, v[i].clone());
        i = i + 1;
    }
    assert(want.take(i as int) =~= want);
    out
}

/// Whether the texts contain one.
pub fn has_text(v: &[String], t: &str) -> (r: bool)
    ensures
        r == texts(v@).contains(t@),
{
    let mut i: usize = 0;
    while i < v.len()
        invariant
            i <= v@.len(),
            forall|k: int| 0 <= k < i ==> (#[trigger] texts(v@)[k]) != t@,
        decreases v@.len() - i,
    {
        if same_text(v[i].as_str(), t) {
            assert(texts(v@)[i as int] == t@);
            return true;
        }
        i = i + 1;
    }
    false
}

/// The texts without those that came before.
pub open spec fn distinct_texts(s: Seq<Seq<char>>) -> Seq<Seq<char>>
    decreases s.len(),
{
    if s.len() == 0 {
        Seq::empty()
    } else {
        let front = distinct_texts(s.drop_last());
        if front.contains(s.last()) {
            front
        } else {
            front.push(s.last())
        }
    }
}

/// Leaves out the texts that came before.
pub fn dedup_texts(v: &[String]) -> (r: Vec<String>)
    ensures
        texts(r@) == distinct_texts(texts(v@)),
{
    let ghost want = texts(v@);
    let mut out: Vec<String> = Vec::new();
    let mut i: usize = 0;
    assert(texts(out@) =~= Seq::empty());
    assert(want.take(0) =~= Seq::empty());
    while i < v.len()
        invariant
            i <= v@.len(),
            want == texts(v@),
            texts(out@) == distinct_texts(want.take(i as int)),
        decreases v@.len() - i,
    {
        assert(want.take(i + 1).drop_last() =~= want.take(i as int));
        assert(want.take(i + 1).last() == v@[i as int]@);
        if !has_text(out.as_slice(), v[i].as_str()) {
            let ghost before = texts(out@);
            out.push(v[i].clone());
            assert(texts(out@) =~= before.push(v@[i as int]@));
        }
        i = i + 1;
    }
    assert(want.take(i as int) =~= want);
    out
}

/// What is left holds each text once.
pub proof fn law_distinct(s: Seq<Seq<char>>, t: Seq<char>)
    ensures
        distinct_texts(s).no_duplicates(),
        distinct_texts(s).contains(t) <==> s.contains(t),
    decreases s.len(),
{
    if s.len() > 0 {
        let front = s.drop_last();
        law_distinct(front, t);
        law_distinct(front, s.last());
        let out = distinct_texts(s);
        if s.contains(t) {
            let i = choose|i: int| 0 <= i < s.len() && s[i] == t;
            if i < s.len() - 1 {
                assert(front[i] == t);
            }
        }
        if front.contains(t) {
            let i = choose|i: int| 0 <= i < front.len() && front[i] == t;
            assert(s[i] == t);
        }
        assert(s[s.len() - 1] == s.last());
        let kept = distinct_texts(front);
        if !kept.contains(s.last()) {
            assert(out == kept.push(s.last()));
            assert(out[kept.len() as int] == s.last());
            if kept.contains(t) {
                let i = choose|i: int| 0 <= i < kept.len() && kept[i] == t;
                assert(out[i] == t);
            }
        }
    }
}

} // verus!
