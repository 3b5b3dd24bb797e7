//! Texts put together from parts.

use crate::text::{chars_of, ends_with_text, split_spec, text_between, text_of, texts};
use vstd::prelude::*;

verus! {

/// Two texts, one behind the other.
pub fn cat2(a: &str, b: &str) -> (r: String)
    ensures
        r@ == a@ + b@,
{
    let mut s = a.to_owned();
    s.append(b);
    s
}

/// Three texts, one behind the other.
pub fn cat3(a: &str, b: &str, c: &str) -> (r: String)
    ensures
        r@ == a@ + b@ + c@,
{
    let mut s = a.to_owned();
    s.append(b);
    s.append(c);
    s
}

/// Four texts, one behind the other.
pub fn cat4(a: &str, b: &str, c: &str, d: &str) -> (r: String)
    ensures
        r@ == a@ + b@ + c@ + d@,
{
    let mut s = a.to_owned();
    s.append(b);
    s.append(c);
    s.append(d);
    s
}

/// Five texts, one behind the other.
pub fn cat5(a: &str, b: &str, c: &str, d: &str, e: &str) -> (r: String)
    ensures
        r@ == a@ + b@ + c@ + d@ + e@,
{
    let mut s = a.to_owned();
    s.append(b);
    s.append(c);
    s.append(d);
    s.append(e);
    s
}

/// A text so many times, one behind the other.
pub open spec fn repeated(s: Seq<char>, n: nat) -> Seq<char>
    decreases n,
{
    if n == 0 {
        Seq::empty()
    } else {
        repeated(s, (n - 1) as nat) + s
    }
}

/// A text so many times, one behind the other.
pub fn repeat_text(s: &str, n: usize) -> (r: String)
    ensures
        r@ == repeated(s@, n as nat),
{
    let mut out = String::new();
    let mut i: usize = 0;
    assert(out@ =~= Seq::empty());
    while i < n
        invariant
            i <= n,
            out@ == repeated(s@, i as nat),
        decreases n - i,
    {
        out.append(s);
        i = i + 1;
    }
    out
}

/// Whether a text begins with a character.
pub open spec fn begins_with(s: Seq<char>, c: char) -> bool {
    s.len() > 0 && s[0] == c
}

/// Whether a text begins with a character.
pub fn starts_with_char(s: &str, c: char) -> (r: bool)
    ensures
        r == begins_with(s@, c),
{
    let cs = chars_of(s);
    cs.len() > 0 && cs[0] == c
}

/// Whether a text ends with a character.
pub open spec fn ends_in(s: Seq<char>, c: char) -> bool {
    s.len() > 0 && s.last() == c
}

/// Whether a text ends with a character.
pub fn ends_with_char(s: &str, c: char) -> (r: bool)
    ensures
        r == ends_in(s@, c),
{
    let cs = chars_of(s);
    cs.len() > 0 && cs[cs.len() - 1] == c
}

/// The text behind its first character.
pub open spec fn after_first(s: Seq<char>) -> Seq<char> {
    if s.len() > 0 {
        s.skip(1)
    } else {
        s
    }
}

/// The text behind its first character.
pub fn without_first(s: &str) -> (r: String)
    ensures
        r@ == after_first(s@),
{
    let cs = chars_of(s);
    if cs.len() == 0 {
        return s.to_owned();
    }
    let r = text_between(cs.as_slice(), 1, cs.len());
    assert(r@ =~= s@.skip(1));
    r
}

/// The text before its last character.
pub open spec fn before_last(s: Seq<char>) -> Seq<char> {
    if s.len() > 0 {
        s.drop_last()
    } else {
        s
    }
}

/// The text before its last character.
pub fn without_last(s: &str) -> (r: String)
    ensures
        r@ == before_last(s@),
{
    let cs = chars_of(s);
    if cs.len() == 0 {
        return s.to_owned();
    }
    let r = text_between(cs.as_slice(), 0, cs.len() - 1);
    assert(r@ =~= s@.drop_last());
    r
}

/// The text with a character behind it.
pub fn with_char(s: &str, c: char) -> (r: String)
    ensures
        r@ == s@.push(c),
{
    let mut out = s.to_owned();
    out.push(c);
    out
}

/// What tells whether a character is the one that is given.
pub open spec fn is_the(c: char) -> spec_fn(char) -> bool {
    |x: char| x == c
}

/// The pieces of a text between the occurrences of a character.
pub open spec fn pieces(s: Seq<char>, c: char) -> Seq<Seq<char>> {
    split_spec(s, is_the(c))
}

/// The pieces of a text between the occurrences of a character.
pub fn split_on(s: &str, c: char) -> (r: Vec<String>)
    ensures
        texts(r@) == pieces(s@, c),
        r@.len() > 0,
{
    let cs = chars_of(s);
    let ghost cut = is_the(c);
    let mut out: Vec<String> = Vec::new();
    let mut piece: Vec<char> = Vec::new();
    let mut i: usize = 0;
    assert(cs@.take(0) =~= Seq::<char>::empty());
    assert(split_spec(cs@.take(0), cut) =~= seq![Seq::<char>::empty()]);
    assert(texts(out@) =~= seq![Seq::<char>::empty()].drop_last());
    while i < cs.len()
        invariant
            i <= cs@.len(),
            cut == is_the(c),
            split_spec(cs@.take(i as int), cut).len() > 0,
            split_spec(cs@.take(i as int), cut).last() == piece@,
            texts(out@) == split_spec(cs@.take(i as int), cut).drop_last(),
        decreases cs@.len() - i,
    {
        let ghost before = split_spec(cs@.take(i as int), cut);
        let ghost after = split_spec(cs@.take(i + 1), cut);
        let x = cs[i];
        assert(cs@.take(i + 1).drop_last() =~= cs@.take(i as int));
        assert(cs@.take(i + 1).last() == x);
        if x == c {
            assert(after == before.push(Seq::empty()));
            let ghost held = texts(out@);
            let t = text_of(piece.as_slice());
            out.push(t);
            assert(texts(out@) =~= held.push(t@));
            assert(after.drop_last() =~= before);
            assert(before =~= held.push(t@));
            piece = Vec::new();
        } else {
            piece.push(x);
            assert(after.drop_last() =~= before.drop_last());
        }
        i = i + 1;
    }
    assert(cs@.take(i as int) =~= cs@);
    let ghost held = texts(out@);
    let t = text_of(piece.as_slice());
    out.push(t);
    assert(texts(out@) =~= held.push(t@));
    let ghost all = split_spec(s@, cut);
    assert(all =~= all.drop_last().push(all.last()));
    assert(texts(out@) =~= all);
    out
}

/// A text without the characters of a kind that end it.
pub open spec fn end_trimmed(s: Seq<char>, c: char) -> Seq<char>
    decreases s.len(),
{
    if s.len() > 0 && s.last() == c {
        end_trimmed(s.drop_last(), c)
    } else {
        s
    }
}

/// A text without the characters of a kind that end it.
pub fn trim_end_char(s: &str, c: char) -> (r: String)
    ensures
        r@ == end_trimmed(s@, c),
{
    let cs = chars_of(s);
    let mut n: usize = cs.len();
    assert(s@.take(n as int) =~= s@);
    while n > 0 && cs[n - 1] == c
        invariant
            n <= cs@.len(),
            cs@ == s@,
            end_trimmed(s@, c) == end_trimmed(s@.take(n as int), c),
        decreases n,
    {
        assert(s@.take(n as int).drop_last() =~= s@.take(n - 1));
        n = n - 1;
    }
    let r = text_between(cs.as_slice(), 0, n);
    assert(r@ =~= s@.take(n as int));
    r
}

/// A text without the characters of a kind that begin it.
pub open spec fn start_trimmed(s: Seq<char>, c: char) -> Seq<char>
    decreases s.len(),
{
    if s.len() > 0 && s[0] == c {
        start_trimmed(s.skip(1), c)
    } else {
        s
    }
}

/// A text without the characters of a kind that begin it.
pub fn trim_start_char(s: &str, c: char) -> (r: String)
    ensures
        r@ == start_trimmed(s@, c),
{
    let cs = chars_of(s);
    let mut n: usize = 0;
    assert(s@.skip(0) =~= s@);
    while n < cs.len() && cs[n] == c
        invariant
            n <= cs@.len(),
            cs@ == s@,
            start_trimmed(s@, c) == start_trimmed(s@.skip(n as int), c),
        decreases cs@.len() - n,
    {
        assert(s@.skip(n as int).skip(1) =~= s@.skip(n + 1));
        n = n + 1;
    }
    let r = text_between(cs.as_slice(), n, cs.len());
    assert(r@ =~= s@.skip(n as int));
    r
}

/// A text without another that ends it, as often as it does.
pub open spec fn end_stripped(s: Seq<char>, part: Seq<char>) -> Seq<char>
    decreases s.len(),
{
    if part.len() > 0 && part.is_suffix_of(s) {
        end_stripped(s.take(s.len() - part.len()), part)
    } else {
        s
    }
}

/// A text without another that ends it, as often as it does.
pub fn trim_end_text(s: &str, part: &str) -> (r: String)
    ensures
        r@ == end_stripped(s@, part@),
{
    let mut rest = s.to_owned();
    let n = chars_of(part).len();
    while n > 0 && ends_with_text(rest.as_str(), part)
        invariant
            n == part@.len(),
            end_stripped(s@, part@) == end_stripped(rest@, part@),
        decreases rest@.len(),
    {
        let cs = chars_of(rest.as_str());
        let shorter = text_between(cs.as_slice(), 0, cs.len() - n);
        assert(shorter@ =~= rest@.take(rest@.len() - n));
        rest = shorter;
    }
    rest
}

/// The text behind another that it begins with.
pub open spec fn behind(s: Seq<char>, front: Seq<char>) -> Seq<char> {
    s.skip(front.len() as int)
}

/// The text behind another that it begins with.
pub fn strip_front(s: &str, front: &str) -> (r: String)
    requires
        front@.is_prefix_of(s@),
    ensures
        r@ == behind(s@, front@),
{
    let cs = chars_of(s);
    let n = chars_of(front).len();
    let r = text_between(cs.as_slice(), n, cs.len());
    assert(r@ =~= behind(s@, front@));
    r
}

/// The first characters of a text, or the text where it has no more.
pub open spec fn first_chars(s: Seq<char>, n: int) -> Seq<char> {
    if s.len() <= n {
        s
    } else {
        s.take(n)
    }
}

/// The last characters of a text, or the text where it has no more.
pub open spec fn last_chars(s: Seq<char>, n: int) -> Seq<char> {
    if s.len() <= n {
        s
    } else {
        s.skip(s.len() - n)
    }
}

/// The first characters of a text.
pub fn take_chars(s: &str, n: usize) -> (r: String)
    ensures
        r@ == first_chars(s@, n as int),
{
    let cs = chars_of(s);
    if cs.len() <= n {
        return s.to_owned();
    }
    let r = text_between(cs.as_slice(), 0, n);
    assert(r@ =~= s@.take(n as int));
    r
}

/// The last characters of a text.
pub fn keep_chars(s: &str, n: usize) -> (r: String)
    ensures
        r@ == last_chars(s@, n as int),
{
    let cs = chars_of(s);
    if cs.len() <= n {
        return s.to_owned();
    }
    let r = text_between(cs.as_slice(), cs.len() - n, cs.len());
    assert(r@ =~= s@.skip(s@.len() - n));
    r
}

/// The last items of a list, or the list where it has no more.
pub open spec fn last_items(v: Seq<Seq<char>>, n: int) -> Seq<Seq<char>> {
    if v.len() <= n {
        v
    } else {
        v.skip(v.len() - n)
    }
}

/// The last items of a list.
pub fn keep_last(v: &Vec<String>, n: usize) -> (r: Vec<String>)
    ensures
        texts(r@) == last_items(texts(v@), n as int),
{
    let ghost all = texts(v@);
    let from: usize = if v.len() <= n {
        0
    } else {
        v.len() - n
    };
    let mut out: Vec<String> = Vec::new();
    let mut i: usize = from;
    assert(texts(out@) =~= all.subrange(from as int, from as int));
    while i < v.len()
        invariant
            from <= i <= v@.len(),
            all == texts(v@),
            texts(out@) == all.subrange(from as int, i as int),
        decreases v@.len() - i,
    {
        let ghost held = texts(out@);
        out.push(v[i].clone());
        assert(all[i as int] == v@[i as int]@);
        assert(texts(out@) =~= held.push(all[i as int]));
        assert(all.subrange(from as int, i + 1) =~= held.push(all[i as int]));
        i = i + 1;
    }
    assert(texts(out@) =~= last_items(all, n as int));
    out
}

} // verus!
