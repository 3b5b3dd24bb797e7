//! Little-endian numbers inside byte strings.

use vstd::bytes::{
    spec_u128_from_le_bytes, spec_u128_to_le_bytes, spec_u32_from_le_bytes, spec_u32_to_le_bytes,
    spec_u64_from_le_bytes, spec_u64_to_le_bytes, u128_from_le_bytes, u128_to_le_bytes,
    u32_from_le_bytes, u32_to_le_bytes, u64_from_le_bytes, u64_to_le_bytes,
};
use vstd::prelude::*;
use vstd::slice::slice_subrange;

verus! {

/// The number of 64 bits that stands at `at`.
pub open spec fn u64_at(s: Seq<u8>, at: int) -> u64 {
    spec_u64_from_le_bytes(s.subrange(at, at + 8))
}

/// The number of 32 bits that stands at `at`.
pub open spec fn u32_at(s: Seq<u8>, at: int) -> u32 {
    spec_u32_from_le_bytes(s.subrange(at, at + 4))
}

/// The number of 128 bits that stands at `at`.
pub open spec fn u128_at(s: Seq<u8>, at: int) -> u128 {
    spec_u128_from_le_bytes(s.subrange(at, at + 16))
}

/// The bytes of a number of 64 bits.
pub open spec fn le64(x: u64) -> Seq<u8> {
    spec_u64_to_le_bytes(x)
}

/// The bytes of a number of 32 bits.
pub open spec fn le32(x: u32) -> Seq<u8> {
    spec_u32_to_le_bytes(x)
}

/// The bytes of a number of 128 bits.
pub open spec fn le128(x: u128) -> Seq<u8> {
    spec_u128_to_le_bytes(x)
}

/// Reads the number of 64 bits at `at`.
pub fn read_u64(s: &[u8], at: usize) -> (r: u64)
    requires
        at + 8 <= s@.len(),
    ensures
        r == u64_at(s@, at as int),
{
    let n = s.len();
    assert(at + 8 <= n);
    u64_from_le_bytes(slice_subrange(s, at, at + 8))
}

/// Reads the number of 32 bits at `at`.
pub fn read_u32(s: &[u8], at: usize) -> (r: u32)
    requires
        at + 4 <= s@.len(),
    ensures
        r == u32_at(s@, at as int),
{
    let n = s.len();
    assert(at + 4 <= n);
    u32_from_le_bytes(slice_subrange(s, at, at + 4))
}

/// Reads the number of 128 bits at `at`.
pub fn read_u128(s: &[u8], at: usize) -> (r: u128)
    requires
        at + 16 <= s@.len(),
    ensures
        r == u128_at(s@, at as int),
{
    let n = s.len();
    assert(at + 16 <= n);
    u128_from_le_bytes(slice_subrange(s, at, at + 16))
}

/// Appends bytes.
pub fn push_bytes(out: &mut Vec<u8>, more: &[u8])
    ensures
        final(out)@ == old(out)@ + more@,
{
    let ghost start = out@;
    let mut i: usize = 0;
    while i < more.len()
        invariant
            i <= more@.len(),
            out@ == start + more@.take(i as int),
        decreases more@.len() - i,
    {
        out.push(more[i]);
        i = i + 1;
        assert(out@ =~= start + more@.take(i as int));
    }
    assert(more@.take(i as int) =~= more@);
}

/// Appends a number of 64 bits.
pub fn push_u64(out: &mut Vec<u8>, x: u64)
    ensures
        final(out)@ == old(out)@ + le64(x),
{
    let b = u64_to_le_bytes(x);
    push_bytes(out, b.as_slice());
}

/// Appends a number of 32 bits.
pub fn push_u32(out: &mut Vec<u8>, x: u32)
    ensures
        final(out)@ == old(out)@ + le32(x),
{
    let b = u32_to_le_bytes(x);
    push_bytes(out, b.as_slice());
}

/// Appends a number of 128 bits.
pub fn push_u128(out: &mut Vec<u8>, x: u128)
    ensures
        final(out)@ == old(out)@ + le128(x),
{
    let b = u128_to_le_bytes(x);
    push_bytes(out, b.as_slice());
}

/// What is read where a number was written is that number.
pub proof fn lemma_read_written(x: u64, y: u32, z: u128)
    ensures
        le64(x).len() == 8,
        spec_u64_from_le_bytes(le64(x)) == x,
        le32(y).len() == 4,
        spec_u32_from_le_bytes(le32(y)) == y,
        le128(z).len() == 16,
        spec_u128_from_le_bytes(le128(z)) == z,
{
    vstd::bytes::lemma_auto_spec_u64_to_from_le_bytes();
    vstd::bytes::lemma_auto_spec_u32_to_from_le_bytes();
    vstd::bytes::lemma_auto_spec_u128_to_from_le_bytes();
}

} // verus!
