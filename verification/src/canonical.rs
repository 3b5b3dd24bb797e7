//! Identity of keys: Unicode normalisation and the hash of the normal form.

use std::borrow::Cow;
use unicode_normalization::UnicodeNormalization;
use vstd::prelude::*;
use vstd::utf8::encode_utf8;

verus! {

/// The normal form C of a text, as `nfc` of the crate `unicode-normalization`
/// computes it.
pub uninterp spec fn nfc_form(s: Seq<char>) -> Seq<char>;

/// Whether a text has only ASCII characters.
pub open spec fn only_ascii(s: Seq<char>) -> bool {
    forall|i: int| 0 <= i < s.len() ==> (#[trigger] s[i]) as u32 <= 0x7f
}

/// `unicode_normalization::is_nfc`: whether the text is its own normal form C, as
/// one of ASCII characters alone always is.
pub assume_specification[ unicode_normalization::is_nfc ](s: &str) -> (r: bool)
    ensures
        r == (nfc_form(s@) == s@),
        only_ascii(s@) ==> r,
;

/// `UnicodeNormalization::nfc`, collected: the normal form C of the text. A
/// text in normal form is left as it is by normalising it once more.
#[verifier::external_body]
fn normalise(s: &str) -> (r: String)
    ensures
        r@ == nfc_form(s@),
        nfc_form(r@) == r@,
{
    s.nfc().collect::<String>()
}

/// The 128-bit hash that `xxh3_128` of the crate `xxhash-rust` gives to bytes.
pub uninterp spec fn xxh3(bytes: Seq<u8>) -> u128;

/// `xxhash_rust::xxh3::xxh3_128`: the hash of the bytes, without a seed.
pub assume_specification[ xxhash_rust::xxh3::xxh3_128 ](input: &[u8]) -> (r: u128)
    ensures
        r == xxh3(input@),
;

/// The bytes by which a key is known: the UTF-8 encoding of its normal form C.
pub open spec fn canonical(s: Seq<char>) -> Seq<u8> {
    encode_utf8(nfc_form(s))
}

/// The hash under which a key is filed.
pub open spec fn key_hash(s: Seq<char>) -> u128 {
    xxh3(canonical(s))
}

/// The bytes that a borrowed or owned slice holds.
pub open spec fn cow_bytes(c: Cow<'_, [u8]>) -> Seq<u8> {
    match c {
        Cow::Borrowed(b) => b@,
        Cow::Owned(v) => v@,
    }
}

/// The bytes by which a key is known. Nothing is copied where the key is in
/// normal form already, such as one of ASCII characters. The bytes are the encoding of a text that is its own
/// canonical form.
pub fn canonical_bytes(pk: &str) -> (r: Cow<'_, [u8]>)
    ensures
        cow_bytes(r) == canonical(pk@),
        r is Borrowed <==> nfc_form(pk@) == pk@,
        only_ascii(pk@) ==> r is Borrowed,
        canonical(nfc_form(pk@)) == cow_bytes(r),
{
    if unicode_normalization::is_nfc(pk) {
        Cow::Borrowed(pk.as_bytes())
    } else {
        let normal = normalise(pk);
        Cow::Owned(vstd::slice::slice_to_vec(normal.as_str().as_bytes()))
    }
}

/// The hash under which a key is filed.
pub fn hash_key(pk: &str) -> (r: u128)
    ensures
        r == key_hash(pk@),
{
    let bytes = canonical_bytes(pk);
    match bytes {
        Cow::Borrowed(b) => xxhash_rust::xxh3::xxh3_128(b),
        Cow::Owned(v) => xxhash_rust::xxh3::xxh3_128(v.as_slice()),
    }
}

/// Texts with the same normal form are the same key.
pub proof fn law_equivalent_keys(a: Seq<char>, b: Seq<char>)
    requires
        nfc_form(a) == nfc_form(b),
    ensures
        canonical(a) == canonical(b),
        key_hash(a) == key_hash(b),
{
}

/// Texts with different normal forms have different canonical bytes.
pub proof fn law_distinct_keys(a: Seq<char>, b: Seq<char>)
    requires
        nfc_form(a) != nfc_form(b),
    ensures
        canonical(a) != canonical(b),
{
    if canonical(a) == canonical(b) {
        crate::text::lemma_utf8_injective(nfc_form(a), nfc_form(b));
    }
}

} // verus!
