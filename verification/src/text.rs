//! Text as a sequence of characters: comparing, cutting, joining, trimming.

use vstd::prelude::*;
use vstd::utf8::encode_utf8;

verus! {

/// `String::push`: the character is appended to the text.
pub assume_specification[ std::string::String::push ](s: &mut std::string::String, c: char)
    ensures
        final(s)@ == old(s)@.push(c),
;

/// Whether a character has the Unicode property `White_Space`.
pub open spec fn whitespace(c: char) -> bool {
    let n = c as u32;
    ||| 0x9 <= n <= 0xd
    ||| n == 0x20 || n == 0x85 || n == 0xa0 || n == 0x1680
    ||| 0x2000 <= n <= 0x200a
    ||| n == 0x2028 || n == 0x2029 || n == 0x202f || n == 0x205f || n == 0x3000
}

/// `char::is_whitespace`: whether the character has the property `White_Space`, which
/// the Unicode Character Database lists in `PropList.txt`.
pub assume_specification[ char::is_whitespace ](c: char) -> (r: bool)
    ensures
        r == whitespace(c),
;

/// What `str::to_lowercase` returns for a text.
pub uninterp spec fn lowercase(s: Seq<char>) -> Seq<char>;

/// `str::to_lowercase`: the Unicode lowercase mapping of the whole text.
pub assume_specification[ str::to_lowercase ](s: &str) -> (r: std::string::String)
    ensures
        r@ == lowercase(s@),
;

/// Two texts with the same UTF-8 bytes are the same text.
pub proof fn lemma_utf8_injective(a: Seq<char>, b: Seq<char>)
    requires
        encode_utf8(a) == encode_utf8(b),
    ensures
        a == b,
{
    vstd::utf8::encode_utf8_decode_utf8(a);
    vstd::utf8::encode_utf8_decode_utf8(b);
}

/// Whether two texts hold the same characters.
pub fn same_text(a: &str, b: &str) -> (r: bool)
    ensures
        r == (a@ == b@),
{
    let x = a.as_bytes();
    let y = b.as_bytes();
    if x.len() != y.len() {
        return false;
    }
    let mut i: usize = 0;
    while i < x.len()
        invariant
            i <= x@.len(),
            x@.len() == y@.len(),
            x@ == encode_utf8(a@),
            y@ == encode_utf8(b@),
            forall|k: int| 0 <= k < i ==> x@[k] == y@[k],
        decreases x@.len() - i,
    {
        if x[i] != y[i] {
            return false;
        }
        i = i + 1;
    }
    proof {
        assert(x@ =~= y@);
        lemma_utf8_injective(a@, b@);
    }
    true
}

/// The characters of a text.
pub fn chars_of(s: &str) -> (r: Vec<char>)
    ensures
        r@ == s@,
{
    let mut out: Vec<char> = Vec::new();
    for c in it: s.chars()
        invariant
            out@ == s@.take(it.index()),
            it.seq() == s@,
    {
        out.push(c);
    }
    assert(s@.take(s@.len() as int) =~= s@);
    out
}

/// The text made of the characters `cs[from..to]`.
pub fn text_between(cs: &[char], from: usize, to: usize) -> (r: String)
    requires
        from <= to <= cs@.len(),
    ensures
        r@ == cs@.subrange(from as int, to as int),
{
    let mut out = String::new();
    let mut i: usize = from;
    while i < to
        invariant
            from <= i <= to <= cs@.len(),
            out@ == cs@.subrange(from as int, i as int),
        decreases to - i,
    {
        out.push(cs[i]);
        i = i + 1;
        assert(cs@.subrange(from as int, i as int) =~= cs@.subrange(from as int, i - 1).push(cs@[i - 1]));
    }
    out
}

/// The text made of all the characters of `cs`.
pub fn text_of(cs: &[char]) -> (r: String)
    ensures
        r@ == cs@,
{
    let r = text_between(cs, 0, cs.len());
    assert(cs@.subrange(0, cs@.len() as int) =~= cs@);
    r
}

/// Where one value stands relative to another in an order.
#[derive(Clone, Copy, Debug, PartialEq, Eq, Structural)]
pub enum Place {
    Less,
    Equal,
    Greater,
}

/// Whether `a` comes before `b` when sequences of bytes are compared from the
/// left: at the first place where they differ `a` has ended or has the smaller
/// byte.
pub open spec fn bytes_less(a: Seq<u8>, b: Seq<u8>) -> bool {
    exists|k: int| #[trigger] splits_less(a, b, k)
}

/// The first `k` bytes agree, and there `a` has ended or has the smaller byte.
pub open spec fn splits_less(a: Seq<u8>, b: Seq<u8>, k: int) -> bool {
    &&& 0 <= k <= a.len()
    &&& k < b.len()
    &&& forall|i: int| 0 <= i < k ==> a[i] == b[i]
    &&& k < a.len() ==> a[k] < b[k]
}

/// Whether text `a` comes before text `b`: the order of their UTF-8 bytes.
pub open spec fn text_less(a: Seq<char>, b: Seq<char>) -> bool {
    bytes_less(encode_utf8(a), encode_utf8(b))
}

/// The place of `a` relative to `b` in the order of texts.
pub open spec fn text_order(a: Seq<char>, b: Seq<char>) -> Place {
    if text_less(a, b) {
        Place::Less
    } else if text_less(b, a) {
        Place::Greater
    } else {
        Place::Equal
    }
}

/// No text comes before itself, and of two texts at most one comes first.
pub proof fn lemma_text_less_asymmetric(a: Seq<char>, b: Seq<char>)
    ensures
        !(text_less(a, b) && text_less(b, a)),
{
    if text_less(a, b) && text_less(b, a) {
        let x = encode_utf8(a);
        let y = encode_utf8(b);
        let k = choose|k: int| splits_less(x, y, k);
        let j = choose|j: int| splits_less(y, x, j);
        if k < j {
            assert(y[k] == x[k]);
        } else if j < k {
            assert(x[j] == y[j]);
        }
    }
}

/// The order of texts is transitive.
pub proof fn lemma_text_less_transitive(a: Seq<char>, b: Seq<char>, c: Seq<char>)
    requires
        text_less(a, b),
        text_less(b, c),
    ensures
        text_less(a, c),
{
    let x = encode_utf8(a);
    let y = encode_utf8(b);
    let z = encode_utf8(c);
    let k = choose|k: int| splits_less(x, y, k);
    let j = choose|j: int| splits_less(y, z, j);
    if k <= j {
        assert(splits_less(x, z, k));
    } else {
        assert(splits_less(x, z, j));
    }
}

/// Of two different texts one comes before the other.
pub proof fn lemma_text_less_total(a: Seq<char>, b: Seq<char>)
    ensures
        a == b || text_less(a, b) || text_less(b, a),
{
    let x = encode_utf8(a);
    let y = encode_utf8(b);
    let n: int = if x.len() < y.len() {
        x.len() as int
    } else {
        y.len() as int
    };
    lemma_bytes_total(x, y, 0, n);
    if !text_less(a, b) && !text_less(b, a) {
        lemma_utf8_injective(a, b);
    }
}

proof fn lemma_bytes_total(x: Seq<u8>, y: Seq<u8>, from: int, n: int)
    requires
        0 <= from <= n,
        n <= x.len(),
        n <= y.len(),
        n == x.len() || n == y.len(),
        forall|i: int| 0 <= i < from ==> x[i] == y[i],
    ensures
        x == y || bytes_less(x, y) || bytes_less(y, x),
    decreases n - from,
{
    if from == n {
        if x.len() == y.len() {
            assert(x =~= y);
        } else if n == x.len() {
            assert(splits_less(x, y, n));
        } else {
            assert(splits_less(y, x, n));
        }
    } else if x[from] < y[from] {
        assert(splits_less(x, y, from));
    } else if y[from] < x[from] {
        assert(splits_less(y, x, from));
    } else {
        lemma_bytes_total(x, y, from + 1, n);
    }
}

/// Two texts are at the same place of the order only if they are the same.
pub proof fn lemma_text_order_equal(a: Seq<char>, b: Seq<char>)
    ensures
        text_order(a, b) == Place::Equal <==> a == b,
{
    lemma_text_less_total(a, b);
    lemma_text_less_asymmetric(a, b);
    if a == b {
        lemma_text_less_asymmetric(a, a);
    }
}

/// Compares two texts byte by byte.
pub fn compare_text(a: &str, b: &str) -> (r: Place)
    ensures
        r == text_order(a@, b@),
{
    let x = a.as_bytes();
    let y = b.as_bytes();
    let mut i: usize = 0;
    while i < x.len() && i < y.len()
        invariant
            i <= x@.len(),
            i <= y@.len(),
            x@ == encode_utf8(a@),
            y@ == encode_utf8(b@),
            forall|k: int| 0 <= k < i ==> x@[k] == y@[k],
        decreases x@.len() - i,
    {
        if x[i] < y[i] {
            assert(splits_less(x@, y@, i as int));
            return Place::Less;
        }
        if x[i] > y[i] {
            assert(splits_less(y@, x@, i as int));
            proof {
                lemma_text_less_asymmetric(a@, b@);
            }
            return Place::Greater;
        }
        i = i + 1;
    }
    if i < y.len() {
        assert(splits_less(x@, y@, i as int));
        return Place::Less;
    }
    if i < x.len() {
        assert(splits_less(y@, x@, i as int));
        proof {
            lemma_text_less_asymmetric(a@, b@);
        }
        return Place::Greater;
    }
    proof {
        assert(x@ =~= y@);
        lemma_utf8_injective(a@, b@);
        lemma_text_less_asymmetric(a@, a@);
    }
    Place::Equal
}

/// Whether text `a` comes before text `b`.
pub fn is_before(a: &str, b: &str) -> (r: bool)
    ensures
        r == text_less(a@, b@),
{
    match compare_text(a, b) {
        Place::Less => true,
        Place::Greater => {
            proof {
                lemma_text_less_asymmetric(a@, b@);
            }
            false
        },
        Place::Equal => false,
    }
}

/// The text without its leading white space.
pub open spec fn trim_start_spec(s: Seq<char>) -> Seq<char>
    decreases s.len(),
{
    if s.len() > 0 && whitespace(s[0]) {
        trim_start_spec(s.drop_first())
    } else {
        s
    }
}

/// The text without its trailing white space.
pub open spec fn trim_end_spec(s: Seq<char>) -> Seq<char>
    decreases s.len(),
{
    if s.len() > 0 && whitespace(s.last()) {
        trim_end_spec(s.drop_last())
    } else {
        s
    }
}

/// The text without leading and trailing white space.
pub open spec fn trim_spec(s: Seq<char>) -> Seq<char> {
    trim_end_spec(trim_start_spec(s))
}

/// Whether the text holds nothing but white space.
pub open spec fn blank(s: Seq<char>) -> bool {
    forall|i: int| 0 <= i < s.len() ==> whitespace(#[trigger] s[i])
}

/// Trimming leaves nothing exactly where there is only white space.
pub proof fn lemma_trim_blank(s: Seq<char>)
    ensures
        trim_spec(s).len() == 0 <==> blank(s),
{
    lemma_trim_start_blank(s);
    let t = trim_start_spec(s);
    lemma_trim_start_head(s);
    if t.len() > 0 {
        lemma_trim_end_keeps_head(t);
    }
}

proof fn lemma_trim_start_blank(s: Seq<char>)
    ensures
        trim_start_spec(s).len() == 0 <==> blank(s),
    decreases s.len(),
{
    if s.len() > 0 && whitespace(s[0]) {
        let t = s.drop_first();
        lemma_trim_start_blank(t);
        if blank(t) {
            assert forall|i: int| 0 <= i < s.len() implies whitespace(#[trigger] s[i]) by {
                if i > 0 {
                    assert(s[i] == t[i - 1]);
                }
            }
        }
        if blank(s) {
            assert forall|i: int| 0 <= i < t.len() implies whitespace(#[trigger] t[i]) by {
                assert(t[i] == s[i + 1]);
            }
        }
    }
}

proof fn lemma_trim_start_head(s: Seq<char>)
    ensures
        trim_start_spec(s).len() > 0 ==> !whitespace(trim_start_spec(s)[0]),
    decreases s.len(),
{
    if s.len() > 0 && whitespace(s[0]) {
        lemma_trim_start_head(s.drop_first());
    }
}

proof fn lemma_trim_end_keeps_head(s: Seq<char>)
    requires
        s.len() > 0,
        !whitespace(s[0]),
    ensures
        trim_end_spec(s).len() > 0,
    decreases s.len(),
{
    if whitespace(s.last()) {
        assert(s.len() > 1);
        assert(s.drop_last()[0] == s[0]);
        lemma_trim_end_keeps_head(s.drop_last());
    }
}

proof fn lemma_trim_start_subrange(s: Seq<char>, from: int)
    requires
        0 <= from <= s.len(),
        forall|i: int| 0 <= i < from ==> whitespace(#[trigger] s[i]),
        from == s.len() || !whitespace(s[from]),
    ensures
        trim_start_spec(s) == s.skip(from),
    decreases from,
{
    if from == 0 {
        assert(s.skip(0) =~= s);
    } else {
        let t = s.drop_first();
        assert(whitespace(s[0]));
        assert forall|i: int| 0 <= i < from - 1 implies whitespace(#[trigger] t[i]) by {
            assert(t[i] == s[i + 1]);
        }
        lemma_trim_start_subrange(t, from - 1);
        assert(t.skip(from - 1) =~= s.skip(from));
    }
}

proof fn lemma_trim_end_subrange(s: Seq<char>, to: int)
    requires
        0 <= to <= s.len(),
        forall|i: int| to <= i < s.len() ==> whitespace(#[trigger] s[i]),
        to == 0 || !whitespace(s[to - 1]),
    ensures
        trim_end_spec(s) == s.take(to),
    decreases s.len() - to,
{
    if to == s.len() {
        assert(s.take(to) =~= s);
    } else {
        let t = s.drop_last();
        assert(whitespace(s.last()));
        lemma_trim_end_subrange(t, to);
        assert(t.take(to) =~= s.take(to));
    }
}

/// The characters without leading and trailing white space.
pub fn trim_chars(cs: &[char]) -> (r: String)
    ensures
        r@ == trim_spec(cs@),
{
    let n = cs.len();
    let mut from: usize = 0;
    while from < n && cs[from].is_whitespace()
        invariant
            from <= n == cs@.len(),
            forall|i: int| 0 <= i < from ==> whitespace(#[trigger] cs@[i]),
        decreases n - from,
    {
        from = from + 1;
    }
    let mut to: usize = n;
    while to > from && cs[to - 1].is_whitespace()
        invariant
            from <= to <= n == cs@.len(),
            forall|i: int| to <= i < n ==> whitespace(#[trigger] cs@[i]),
        decreases to,
    {
        to = to - 1;
    }
    proof {
        lemma_trim_start_subrange(cs@, from as int);
        let t = cs@.skip(from as int);
        assert forall|i: int| to - from <= i < t.len() implies whitespace(#[trigger] t[i]) by {
            assert(t[i] == cs@[i + from]);
        }
        if to > from {
            assert(t[to - from - 1] == cs@[to - 1]);
        }
        lemma_trim_end_subrange(t, to - from);
        assert(t.take(to - from) =~= cs@.subrange(from as int, to as int));
    }
    text_between(cs, from, to)
}

/// `str::trim`: the text without leading and trailing white space.
pub fn trimmed(s: &str) -> (r: String)
    ensures
        r@ == trim_spec(s@),
{
    let cs = chars_of(s);
    trim_chars(&cs)
}

/// Whether the text holds nothing but white space.
pub fn is_blank(s: &str) -> (r: bool)
    ensures
        r == blank(s@),
{
    let t = trimmed(s);
    proof {
        lemma_trim_blank(s@);
    }
    t.as_str().is_empty()
}

/// Whether `needle` stands in `hay` at place `at`.
pub open spec fn occurs_at(hay: Seq<char>, needle: Seq<char>, at: int) -> bool {
    &&& 0 <= at
    &&& at + needle.len() <= hay.len()
    &&& hay.subrange(at, at + needle.len()) == needle
}

/// Whether `needle` stands somewhere in `hay`.
pub open spec fn occurs_in(hay: Seq<char>, needle: Seq<char>) -> bool {
    exists|at: int| occurs_at(hay, needle, at)
}

/// Whether `needle` stands in `hay` at place `at`.
pub fn stands_at(hay: &[char], needle: &[char], at: usize) -> (r: bool)
    requires
        at <= hay@.len(),
    ensures
        r == occurs_at(hay@, needle@, at as int),
{
    let n = hay.len();
    if needle.len() > n - at {
        return false;
    }
    let mut i: usize = 0;
    while i < needle.len()
        invariant
            i <= needle@.len(),
            n == hay@.len(),
            at + needle@.len() <= hay@.len(),
            forall|k: int| 0 <= k < i ==> needle@[k] == hay@[at + k],
        decreases needle@.len() - i,
    {
        if needle[i] != hay[at + i] {
            assert(hay@.subrange(at as int, at + needle@.len())[i as int] == hay@[at + i]);
            return false;
        }
        i = i + 1;
    }
    assert(hay@.subrange(at as int, at + needle@.len()) =~= needle@);
    true
}

/// The first place from `start` on where `needle` stands in `hay`.
pub fn find_from(hay: &[char], needle: &[char], start: usize) -> (r: Option<usize>)
    requires
        start <= hay@.len(),
    ensures
        match r {
            Some(at) => {
                &&& start <= at
                &&& occurs_at(hay@, needle@, at as int)
                &&& forall|j: int| start <= j < at ==> !occurs_at(hay@, needle@, j)
            },
            None => forall|j: int| start <= j ==> !occurs_at(hay@, needle@, j),
        },
{
    let mut at: usize = start;
    while at < hay.len()
        invariant
            start <= at <= hay@.len(),
            forall|j: int| start <= j < at ==> !occurs_at(hay@, needle@, j),
        decreases hay@.len() - at,
    {
        if stands_at(hay, needle, at) {
            return Some(at);
        }
        at = at + 1;
    }
    if stands_at(hay, needle, at) {
        return Some(at);
    }
    None
}

/// `str::contains`: whether `needle` stands somewhere in `hay`.
pub fn contains_text(hay: &str, needle: &str) -> (r: bool)
    ensures
        r == occurs_in(hay@, needle@),
{
    let h = chars_of(hay);
    let n = chars_of(needle);
    match find_from(&h, &n, 0) {
        Some(at) => {
            assert(occurs_at(hay@, needle@, at as int));
            true
        },
        None => false,
    }
}

/// `str::starts_with`: whether `hay` begins with `needle`.
pub fn starts_with_text(hay: &str, needle: &str) -> (r: bool)
    ensures
        r == needle@.is_prefix_of(hay@),
{
    let h = chars_of(hay);
    let n = chars_of(needle);
    let r = stands_at(&h, &n, 0);
    proof {
        if needle@.is_prefix_of(hay@) {
            assert(hay@.subrange(0, needle@.len() as int) =~= needle@);
        }
    }
    r
}

/// `str::ends_with`: whether `hay` ends with `needle`.
pub fn ends_with_text(hay: &str, needle: &str) -> (r: bool)
    ensures
        r == needle@.is_suffix_of(hay@),
{
    let h = chars_of(hay);
    let n = chars_of(needle);
    if n.len() > h.len() {
        return false;
    }
    stands_at(&h, &n, h.len() - n.len())
}

/// The pieces of `s` between the characters that `cut` holds for; between two
/// neighbouring cuts, and before the first or after the last, a piece may be
/// empty.
pub open spec fn split_spec(s: Seq<char>, cut: spec_fn(char) -> bool) -> Seq<Seq<char>>
    decreases s.len(),
{
    if s.len() == 0 {
        seq![Seq::empty()]
    } else {
        let rest = split_spec(s.drop_last(), cut);
        if cut(s.last()) {
            rest.push(Seq::empty())
        } else {
            rest.drop_last().push(rest.last().push(s.last()))
        }
    }
}

/// A text is never cut into no piece at all.
pub proof fn lemma_split_nonempty(s: Seq<char>, cut: spec_fn(char) -> bool)
    ensures
        split_spec(s, cut).len() > 0,
    decreases s.len(),
{
    if s.len() > 0 {
        lemma_split_nonempty(s.drop_last(), cut);
    }
}

/// The views of a list of texts.
pub open spec fn texts(v: Seq<String>) -> Seq<Seq<char>> {
    v.map_values(|s: String| s@)
}

/// The texts of `parts`, one after the other, with `sep` between two of them.
pub open spec fn join_spec(parts: Seq<Seq<char>>, sep: Seq<char>) -> Seq<char>
    decreases parts.len(),
{
    if parts.len() == 0 {
        Seq::empty()
    } else if parts.len() == 1 {
        parts[0]
    } else {
        join_spec(parts.drop_last(), sep) + sep + parts.last()
    }
}

/// Joins texts with a separator.
pub fn join_texts(parts: &[String], sep: &str) -> (r: String)
    ensures
        r@ == join_spec(texts(parts@), sep@),
{
    let mut out = String::new();
    let mut i: usize = 0;
    while i < parts.len()
        invariant
            i <= parts@.len(),
            out@ == join_spec(texts(parts@.take(i as int)), sep@),
        decreases parts@.len() - i,
    {
        let ghost before = texts(parts@.take(i as int));
        let ghost after = texts(parts@.take(i + 1));
        assert(after =~= before.push(parts@[i as int]@));
        assert(after.drop_last() =~= before);
        if i > 0 {
            out.append(sep);
        }
        out.append(parts[i].as_str());
        i = i + 1;
        assert(out@ =~= join_spec(after, sep@));
    }
    assert(parts@.take(parts@.len() as int) =~= parts@);
    out
}

/// Copies a list of texts.
pub fn clone_texts(v: &[String]) -> (r: Vec<String>)
    ensures
        texts(r@) == texts(v@),
{
    let mut out: Vec<String> = Vec::new();
    let mut i: usize = 0;
    while i < v.len()
        invariant
            i <= v@.len(),
            texts(out@) == texts(v@).take(i as int),
        decreases v@.len() - i,
    {
        let ghost copied = texts(out@);
        out.push(v[i].clone());
        i = i + 1;
        assert(texts(out@) =~= copied.push(texts(v@)[i - 1]));
        assert(texts(out@) =~= texts(v@).take(i as int));
    }
    assert(texts(v@).take(i as int) =~= texts(v@));
    out
}

/// The character of a decimal digit.
pub open spec fn digit(d: int) -> char {
    if d == 0 {
        '0'
    } else if d == 1 {
        '1'
    } else if d == 2 {
        '2'
    } else if d == 3 {
        '3'
    } else if d == 4 {
        '4'
    } else if d == 5 {
        '5'
    } else if d == 6 {
        '6'
    } else if d == 7 {
        '7'
    } else if d == 8 {
        '8'
    } else {
        '9'
    }
}

/// The decimal digits of a number, without leading zeros.
pub open spec fn decimal_spec(n: nat) -> Seq<char>
    decreases n,
{
    if n < 10 {
        seq![digit(n as int)]
    } else {
        decimal_spec(n / 10).push(digit((n % 10) as int))
    }
}

fn digit_char(d: u64) -> (c: char)
    requires
        d < 10,
    ensures
        c == digit(d as int),
{
    if d == 0 {
        '0'
    } else if d == 1 {
        '1'
    } else if d == 2 {
        '2'
    } else if d == 3 {
        '3'
    } else if d == 4 {
        '4'
    } else if d == 5 {
        '5'
    } else if d == 6 {
        '6'
    } else if d == 7 {
        '7'
    } else if d == 8 {
        '8'
    } else {
        '9'
    }
}

/// The decimal text of a number.
pub fn decimal(n: u64) -> (r: String)
    ensures
        r@ == decimal_spec(n as nat),
    decreases n,
{
    if n < 10 {
        let mut s = String::new();
        s.push(digit_char(n));
        assert(s@ =~= decimal_spec(n as nat));
        s
    } else {
        let mut s = decimal(n / 10);
        s.push(digit_char(n % 10));
        s
    }
}

/// `n` zeros.
pub open spec fn zeros(n: nat) -> Seq<char> {
    Seq::new(n, |i: int| '0')
}

/// The text, filled up on the left with zeros to four characters.
pub open spec fn pad4_spec(s: Seq<char>) -> Seq<char> {
    if s.len() < 4 {
        zeros((4 - s.len()) as nat) + s
    } else {
        s
    }
}

spec fn tens(k: nat) -> nat
    decreases k,
{
    if k == 0 {
        1
    } else {
        10 * tens((k - 1) as nat)
    }
}

proof fn lemma_digit_count(n: nat, k: nat)
    requires
        n < tens(k),
        k >= 1,
    ensures
        decimal_spec(n).len() <= k,
    decreases k,
{
    if n >= 10 {
        if k == 1 {
            assert(tens(0) == 1);
        } else {
            lemma_digit_count(n / 10, (k - 1) as nat);
        }
    }
}

/// A number has at most twenty decimal digits.
pub proof fn lemma_decimal_length(n: u64)
    ensures
        decimal_spec(n as nat).len() <= 20,
{
    assert(tens(20) > u64::MAX) by {
        reveal_with_fuel(tens, 21);
    }
    lemma_digit_count(n as nat, 20);
}

/// The decimal text of a number, filled up on the left with zeros to four digits.
pub fn decimal4(n: u64) -> (r: String)
    ensures
        r@ == pad4_spec(decimal_spec(n as nat)),
{
    let d = decimal(n);
    let len = chars_of(d.as_str()).len();
    let mut out = String::new();
    let mut i: usize = len;
    while i < 4
        invariant
            len <= i,
            len >= 4 ==> i == len,
            len < 4 ==> i <= 4,
            out@ == zeros((i - len) as nat),
        decreases 4 - i,
    {
        out.push('0');
        i = i + 1;
        assert(out@ =~= zeros((i - len) as nat));
    }
    out.append(d.as_str());
    assert(out@ =~= pad4_spec(d@));
    out
}

/// Whether the character is a decimal digit.
pub open spec fn is_digit(c: char) -> bool {
    '0' <= c && c <= '9'
}

/// The value of a decimal digit.
pub open spec fn digit_value(c: char) -> int {
    c as int - '0' as int
}

/// Whether the text holds nothing but decimal digits.
pub open spec fn all_digits(s: Seq<char>) -> bool {
    forall|i: int| 0 <= i < s.len() ==> is_digit(#[trigger] s[i])
}

/// The number that decimal digits stand for.
pub open spec fn decimal_value(s: Seq<char>) -> int
    decreases s.len(),
{
    if s.len() == 0 {
        0
    } else {
        decimal_value(s.drop_last()) * 10 + digit_value(s.last())
    }
}

/// The text without a leading plus sign.
pub open spec fn without_plus(s: Seq<char>) -> Seq<char> {
    if s.len() > 0 && s[0] == '+' {
        s.drop_first()
    } else {
        s
    }
}

/// The number that a text denotes: decimal digits, at least one, which may
/// follow a plus sign, and a value that fits.
pub open spec fn parsed_number(s: Seq<char>) -> Option<u64> {
    let t = without_plus(s);
    if t.len() > 0 && all_digits(t) && decimal_value(t) <= u64::MAX {
        Some(decimal_value(t) as u64)
    } else {
        None
    }
}

proof fn lemma_decimal_value_grows(s: Seq<char>, k: int)
    requires
        0 <= k <= s.len(),
        all_digits(s),
    ensures
        0 <= decimal_value(s.take(k)) <= decimal_value(s),
    decreases s.len(),
{
    if s.len() == 0 {
        assert(s.take(k) =~= s);
    } else {
        let front = s.drop_last();
        assert forall|i: int| 0 <= i < front.len() implies is_digit(#[trigger] front[i]) by {
            assert(front[i] == s[i]);
        }
        assert(is_digit(s[s.len() - 1]));
        if k == s.len() {
            assert(s.take(k) =~= s);
            lemma_decimal_value_grows(front, front.len() as int);
            assert(front.take(front.len() as int) =~= front);
        } else {
            lemma_decimal_value_grows(front, k);
            assert(front.take(k) =~= s.take(k));
        }
    }
}

/// `str::parse` for a number of 64 bits without sign.
pub fn parse_number(s: &str) -> (r: Option<u64>)
    ensures
        r == parsed_number(s@),
{
    let cs = chars_of(s);
    let n = cs.len();
    let start: usize = if n > 0 && cs[0] == '+' {
        1
    } else {
        0
    };
    let ghost t = without_plus(s@);
    assert(t =~= cs@.skip(start as int));
    if start == n {
        return None;
    }
    let mut value: u64 = 0;
    let mut i: usize = start;
    assert(t.take(0) =~= Seq::<char>::empty());
    while i < n
        invariant
            start <= i <= n == cs@.len(),
            t == without_plus(s@),
            t == cs@.skip(start as int),
            forall|k: int| 0 <= k < i - start ==> is_digit(#[trigger] t[k]),
            value == decimal_value(t.take(i - start)),
        decreases n - i,
    {
        let c = cs[i];
        assert(t[i - start] == c);
        if c < '0' || c > '9' {
            return None;
        }
        let d: u64 = (c as u32 - '0' as u32) as u64;
        assert(t.take(i - start + 1).drop_last() =~= t.take(i - start));
        assert(t.take(i - start + 1).last() == c);
        let next: Option<u64> = match value.checked_mul(10) {
            Some(m) => m.checked_add(d),
            None => None,
        };
        match next {
            None => {
                proof {
                    assert(decimal_value(t.take(i - start + 1)) > u64::MAX);
                    if all_digits(t) {
                        lemma_decimal_value_grows(t, i - start + 1);
                    }
                }
                return None;
            },
            Some(v) => {
                value = v;
            },
        }
        i = i + 1;
    }
    assert(t.take(n - start) =~= t);
    Some(value)
}

proof fn lemma_decimal_digits(n: nat)
    ensures
        decimal_spec(n).len() > 0,
        all_digits(decimal_spec(n)),
        decimal_value(decimal_spec(n)) == n,
    decreases n,
{
    let s = decimal_spec(n);
    if n < 10 {
        assert(s.drop_last() =~= Seq::<char>::empty());
        assert(decimal_value(s.drop_last()) == 0);
        assert(s.last() == digit(n as int));
    } else {
        lemma_decimal_digits(n / 10);
        assert(s.drop_last() =~= decimal_spec(n / 10));
        assert(s.last() == digit((n % 10) as int));
        assert forall|i: int| 0 <= i < s.len() implies is_digit(#[trigger] s[i]) by {
            if i < s.len() - 1 {
                assert(s[i] == decimal_spec(n / 10)[i]);
            }
        }
    }
}

/// Reading the decimal text of a number gives the number.
pub proof fn law_parse_decimal(n: u64)
    ensures
        parsed_number(decimal_spec(n as nat)) == Some(n),
{
    lemma_decimal_digits(n as nat);
    let s = decimal_spec(n as nat);
    assert(is_digit(s[0]));
    assert(without_plus(s) == s);
}

} // verus!
