//! What holds of texts: their order, their white space, their pieces and their numbers.

use crate::text::{
    blank, join_spec, lemma_split_nonempty, lemma_text_less_asymmetric, split_spec, splits_less,
    text_less, trim_end_spec, trim_spec, trim_start_spec, whitespace,
};
use crate::types::{list_separator, listed, nonblank_pieces};
use vstd::prelude::*;
use vstd::utf8::{encode_scalar, encode_utf8};

verus! {

proof fn lemma_encoded_parts(a: Seq<char>, b: Seq<char>)
    ensures
        encode_utf8(a + b) == encode_utf8(a) + encode_utf8(b),
    decreases a.len(),
{
    if a.len() == 0 {
        assert(a + b =~= b);
        assert(encode_utf8(a) + encode_utf8(b) =~= encode_utf8(b));
    } else {
        lemma_encoded_parts(a.drop_first(), b);
        assert((a + b).drop_first() =~= a.drop_first() + b);
        assert(encode_utf8(a + b) =~= encode_utf8(a) + encode_utf8(b));
    }
}

proof fn lemma_same_width(c: u32, d: u32)
    by (bit_vector)
    requires
        c < d,
        d <= 0x10ffff,
    ensures
        d <= 0x7f ==> ((c & 0x7f) as u8) < ((d & 0x7f) as u8),
        d <= 0x7ff ==> {
            let x = 0xC0u8 | ((c >> 6) & 0x1F) as u8;
            let y = 0xC0u8 | ((d >> 6) & 0x1F) as u8;
            x < y || x == y && (0x80u8 | (c & 0x3F) as u8) < (0x80u8 | (d & 0x3F) as u8)
        },
        d <= 0xffff ==> {
            let x = 0xE0u8 | ((c >> 12) & 0x0F) as u8;
            let y = 0xE0u8 | ((d >> 12) & 0x0F) as u8;
            let u = 0x80u8 | ((c >> 6) & 0x3F) as u8;
            let v = 0x80u8 | ((d >> 6) & 0x3F) as u8;
            x < y || x == y && (u < v || u == v && (0x80u8 | (c & 0x3F) as u8) < (0x80u8 | (d
                & 0x3F) as u8))
        },
        ({
            let x = 0xF0u8 | ((c >> 18) & 0x7) as u8;
            let y = 0xF0u8 | ((d >> 18) & 0x7) as u8;
            let s = 0x80u8 | ((c >> 12) & 0x3F) as u8;
            let t = 0x80u8 | ((d >> 12) & 0x3F) as u8;
            let u = 0x80u8 | ((c >> 6) & 0x3F) as u8;
            let v = 0x80u8 | ((d >> 6) & 0x3F) as u8;
            x < y || x == y && (s < t || s == t && (u < v || u == v && (0x80u8 | (c & 0x3F) as u8)
                < (0x80u8 | (d & 0x3F) as u8)))
        }),
        ((c & 0x7f) as u8) <= 0x7f,
        0xC0u8 <= (0xC0u8 | ((c >> 6) & 0x1F) as u8) <= 0xDFu8,
        0xC0u8 <= (0xC0u8 | ((d >> 6) & 0x1F) as u8) <= 0xDFu8,
        0xE0u8 <= (0xE0u8 | ((c >> 12) & 0x0F) as u8) <= 0xEFu8,
        0xE0u8 <= (0xE0u8 | ((d >> 12) & 0x0F) as u8) <= 0xEFu8,
        0xF0u8 <= (0xF0u8 | ((d >> 18) & 0x7) as u8),
{
}

proof fn lemma_chars_ordered(c: char, d: char) -> (k: int)
    requires
        c < d,
    ensures
        0 <= k < encode_scalar(c as u32).len(),
        k < encode_scalar(d as u32).len(),
        forall|i: int|
            0 <= i < k ==> encode_scalar(c as u32)[i] == #[trigger] encode_scalar(d as u32)[i],
        encode_scalar(c as u32)[k] < encode_scalar(d as u32)[k],
{
    vstd::utf8::char_is_scalar(c);
    vstd::utf8::char_is_scalar(d);
    let a = c as u32;
    let b = d as u32;
    lemma_same_width(a, b);
    if encode_scalar(a)[0] < encode_scalar(b)[0] {
        0
    } else if encode_scalar(a)[1] < encode_scalar(b)[1] {
        1
    } else if encode_scalar(a)[2] < encode_scalar(b)[2] {
        2
    } else {
        3
    }
}

/// The order of texts is that of a dictionary: at the first place where two texts differ,
/// the one that has ended comes first, or else the one whose character there has the
/// smaller number.
pub proof fn law_text_order(common: Seq<char>, a: Seq<char>, b: Seq<char>)
    ensures
        b.len() > 0 ==> text_less(common, common + b) && !text_less(common + b, common),
        a.len() > 0 && b.len() > 0 && a[0] < b[0] ==> text_less(common + a, common + b)
            && !text_less(common + b, common + a),
        !text_less(common, common),
{
    let p = encode_utf8(common);
    lemma_encoded_parts(common, a);
    lemma_encoded_parts(common, b);
    lemma_text_less_asymmetric(common, common);
    if b.len() > 0 {
        vstd::utf8::char_is_scalar(b[0]);
        assert(encode_utf8(b).len() > 0);
        assert(splits_less(p, p + encode_utf8(b), p.len() as int));
        lemma_text_less_asymmetric(common, common + b);
        if a.len() > 0 && a[0] < b[0] {
            let k = lemma_chars_ordered(a[0], b[0]);
            let x = encode_utf8(a);
            let y = encode_utf8(b);
            assert forall|i: int| 0 <= i < p.len() + k implies (p + x)[i] == (p + y)[i] by {
                if i >= p.len() {
                    assert(encode_scalar(a[0] as u32)[i - p.len()] == encode_scalar(
                        b[0] as u32,
                    )[i - p.len()]);
                }
            }
            assert(splits_less(p + x, p + y, p.len() + k));
            lemma_text_less_asymmetric(common + a, common + b);
        }
    }
}

proof fn lemma_trimmed_start(s: Seq<char>)
    ensures
        exists|front: Seq<char>| #[trigger] blank(front) && s == front + trim_start_spec(s),
        trim_start_spec(s).len() > 0 ==> !whitespace(trim_start_spec(s)[0]),
    decreases s.len(),
{
    if s.len() > 0 && whitespace(s[0]) {
        let rest = s.drop_first();
        lemma_trimmed_start(rest);
        let f = choose|f: Seq<char>| #[trigger] blank(f) && rest == f + trim_start_spec(rest);
        let front = seq![s[0]] + f;
        let t = trim_start_spec(rest);
        assert(s =~= seq![s[0]] + rest);
        assert(front + t =~= seq![s[0]] + (f + t));
        assert(blank(front)) by {
            assert forall|i: int| 0 <= i < front.len() implies whitespace(#[trigger] front[i]) by {
                if i > 0 {
                    assert(front[i] == f[i - 1]);
                }
            }
        }
    } else {
        assert(blank(Seq::<char>::empty()));
        assert(s =~= Seq::<char>::empty() + s);
    }
}

proof fn lemma_trimmed_end(s: Seq<char>)
    ensures
        exists|back: Seq<char>| #[trigger] blank(back) && s == trim_end_spec(s) + back,
        trim_end_spec(s).len() > 0 ==> !whitespace(trim_end_spec(s).last()),
    decreases s.len(),
{
    if s.len() > 0 && whitespace(s.last()) {
        let rest = s.drop_last();
        lemma_trimmed_end(rest);
        let b = choose|b: Seq<char>| #[trigger] blank(b) && rest == trim_end_spec(rest) + b;
        let back = b.push(s.last());
        let t = trim_end_spec(rest);
        assert(s =~= rest.push(s.last()));
        assert(t + back =~= (t + b).push(s.last()));
        assert(blank(back)) by {
            assert forall|i: int| 0 <= i < back.len() implies whitespace(#[trigger] back[i]) by {
                if i < b.len() {
                    assert(back[i] == b[i]);
                }
            }
        }
    } else {
        assert(blank(Seq::<char>::empty()));
        assert(s =~= s + Seq::<char>::empty());
    }
}

/// Trimming takes white space off both ends and nothing else, and as much of it as there
/// is: what is left neither begins nor ends with white space.
pub proof fn law_trimmed(s: Seq<char>)
    ensures
        exists|front: Seq<char>, back: Seq<char>|
            #![trigger blank(front), blank(back)]
            blank(front) && blank(back) && s == front + trim_spec(s) + back,
        trim_spec(s).len() > 0 ==> !whitespace(trim_spec(s)[0]) && !whitespace(
            trim_spec(s).last(),
        ),
        blank(s) <==> forall|i: int| 0 <= i < s.len() ==> whitespace(#[trigger] s[i]),
{
    let t = trim_start_spec(s);
    lemma_trimmed_start(s);
    lemma_trimmed_end(t);
    let front = choose|front: Seq<char>| #[trigger] blank(front) && s == front + t;
    let back = choose|back: Seq<char>| #[trigger] blank(back) && t == trim_end_spec(t) + back;
    assert(blank(front) && blank(back));
    assert(s =~= front + trim_spec(s) + back);
    if trim_spec(s).len() > 0 {
        assert(trim_spec(s)[0] == t[0]);
    }
}

proof fn lemma_split_at(a: Seq<char>, c: char, b: Seq<char>, cut: spec_fn(char) -> bool)
    requires
        cut(c),
    ensures
        split_spec(a.push(c) + b, cut) == split_spec(a, cut) + split_spec(b, cut),
    decreases b.len(),
{
    let s = a.push(c) + b;
    lemma_split_nonempty(b, cut);
    if b.len() == 0 {
        assert(s.drop_last() =~= a);
        assert(s.last() == c);
        assert(split_spec(s, cut) =~= split_spec(a, cut) + split_spec(b, cut));
    } else {
        let rest = b.drop_last();
        lemma_split_at(a, c, rest, cut);
        lemma_split_nonempty(rest, cut);
        assert(s.drop_last() =~= a.push(c) + rest);
        assert(s.last() == b.last());
        assert(split_spec(s, cut) =~= split_spec(a, cut) + split_spec(b, cut));
    }
}

proof fn lemma_split_whole(s: Seq<char>, cut: spec_fn(char) -> bool)
    requires
        forall|i: int| 0 <= i < s.len() ==> !cut(#[trigger] s[i]),
    ensures
        split_spec(s, cut) == seq![s],
    decreases s.len(),
{
    if s.len() == 0 {
        assert(s =~= Seq::empty());
    } else {
        let front = s.drop_last();
        assert forall|i: int| 0 <= i < front.len() implies !cut(#[trigger] front[i]) by {
            assert(front[i] == s[i]);
        }
        lemma_split_whole(front, cut);
        assert(!cut(s[s.len() - 1]));
        assert(front.push(s.last()) =~= s);
        assert(split_spec(s, cut) =~= seq![s]);
    }
}

/// Cutting a text cuts what is before a cut and what is behind it, and leaves a text
/// without cuts whole.
pub proof fn law_cut_texts(a: Seq<char>, c: char, b: Seq<char>, cut: spec_fn(char) -> bool)
    requires
        cut(c),
    ensures
        split_spec(a.push(c) + b, cut) == split_spec(a, cut) + split_spec(b, cut),
        (forall|i: int| 0 <= i < a.len() ==> !cut(#[trigger] a[i])) ==> split_spec(a, cut)
            == seq![a],
{
    lemma_split_at(a, c, b, cut);
    if forall|i: int| 0 <= i < a.len() ==> !cut(#[trigger] a[i]) {
        lemma_split_whole(a, cut);
    }
}

proof fn lemma_pieces_add(a: Seq<Seq<char>>, b: Seq<Seq<char>>)
    ensures
        nonblank_pieces(a + b) == nonblank_pieces(a) + nonblank_pieces(b),
    decreases b.len(),
{
    if b.len() == 0 {
        assert(a + b =~= a);
        assert(nonblank_pieces(a) + nonblank_pieces(b) =~= nonblank_pieces(a));
    } else {
        lemma_pieces_add(a, b.drop_last());
        assert((a + b).drop_last() =~= a + b.drop_last());
        assert((a + b).last() == b.last());
        assert(nonblank_pieces(a + b) =~= nonblank_pieces(a) + nonblank_pieces(b));
    }
}

/// The values of a list: the options as they are, where there are any. Else a comma and a
/// semicolon part the values: those before and those behind come one after the other; and
/// a text with neither is one value, without the white space around it, or none where there
/// is nothing else.
pub proof fn law_listed_values(
    a: Seq<char>,
    b: Seq<char>,
    options: Seq<Seq<char>>,
)
    ensures
        options.len() > 0 ==> listed(a, options) == options,
        listed(a.push(',') + b, Seq::empty()) == listed(a, Seq::empty()) + listed(b, Seq::empty()),
        listed(a.push(';') + b, Seq::empty()) == listed(a, Seq::empty()) + listed(b, Seq::empty()),
        !a.contains(',') && !a.contains(';') ==> listed(a, Seq::empty()) == (if blank(a) {
            Seq::empty()
        } else {
            seq![trim_spec(a)]
        }),
{
    let cut = |c: char| list_separator(c);
    lemma_split_at(a, ',', b, cut);
    lemma_split_at(a, ';', b, cut);
    lemma_pieces_add(split_spec(a, cut), split_spec(b, cut));
    if !a.contains(',') && !a.contains(';') {
        assert forall|i: int| 0 <= i < a.len() implies !cut(#[trigger] a[i]) by {
            assert(a.contains(a[i]));
        }
        lemma_split_whole(a, cut);
        crate::text::lemma_trim_blank(a);
        assert(seq![a].drop_last() =~= Seq::empty());
        assert(seq![a].last() == a);
        assert(nonblank_pieces(Seq::empty()) =~= Seq::empty());
        assert(nonblank_pieces(seq![a]) =~= if blank(a) {
            Seq::empty()
        } else {
            seq![trim_spec(a)]
        });
    }
}

/// Joining texts puts the separator between two of them and nowhere else.
pub proof fn law_joined_texts(parts: Seq<Seq<char>>, last: Seq<char>, sep: Seq<char>)
    ensures
        join_spec(seq![last], sep) == last,
        parts.len() > 0 ==> join_spec(parts.push(last), sep) == join_spec(parts, sep) + sep + last,
        join_spec(Seq::empty(), sep).len() == 0,
{
    assert(parts.push(last).drop_last() =~= parts);
}

} // verus!
