//! Header and index entries of a snapshot file.
//!
//! A file holds a header of 40 bytes, the encoded lists one after the other,
//! and an index section of 28 bytes per list in ascending order of hashes.
//!
//! Header: the magic `BTXI`, the version, three zero bytes, the number of
//! entries, the offset of the lists, the offset of the index section, and eight
//! reserved bytes. Index entry: the hash, the offset of the list, its length.

use crate::bytes::{
    le128, le32, le64, lemma_read_written, push_u128, push_u32, push_u64, read_u128,
    read_u32, read_u64, u128_at, u32_at, u64_at,
};
use crate::text::{decimal, decimal_spec};
use vstd::prelude::*;

verus! {

/// The version byte of a snapshot file.
pub const EXACT_IDX_VERSION_V3: u8 = 3;

/// The length of the header.
pub const HEADER_SIZE: usize = 40;

/// The length of an index entry.
pub const INDEX_ENTRY_SIZE: usize = 28;

/// The bytes with which a snapshot file begins.
pub open spec fn magic() -> Seq<u8> {
    seq![66u8, 84u8, 88u8, 73u8]
}

/// The header of a snapshot file.
#[derive(Clone, Copy, Debug, PartialEq, Eq, Structural)]
pub struct V3Header {
    pub version: u8,
    pub num_entries: u64,
    pub bitmaps_section_offset: u64,
    pub index_section_offset: u64,
}

/// An entry of the index section.
#[derive(Clone, Copy, Debug, PartialEq, Eq, Structural)]
pub struct IndexEntry {
    pub hash: u128,
    pub offset: u64,
    pub length: u32,
}

/// What can be wrong with a snapshot file.
#[allow(inconsistent_fields)]
pub enum FormatError {
    /// There are fewer bytes than something that should stand in the file needs.
    TooShort { expected: usize, actual: usize },
    /// The file does not begin with the magic bytes.
    BadMagic { found: [u8; 4] },
    /// The version is another one.
    UnsupportedVersion { found: u8 },
    /// The number of entries does not fit the size of the file.
    InvalidNumEntries { value: u64, file_size: u64 },
    /// An encoded list is longer than an index entry can tell.
    EntryTooLong { length: usize },
    /// A list could not be encoded or decoded.
    BincodeError(Box<bincode::ErrorKind>),
}

/// The header's bytes.
pub open spec fn header_bytes(h: V3Header) -> Seq<u8> {
    magic() + seq![h.version, 0u8, 0u8, 0u8] + le64(h.num_entries) + le64(h.bitmaps_section_offset)
        + le64(h.index_section_offset) + le64(0)
}

/// The header that stands at the beginning of the bytes.
pub open spec fn header_at(b: Seq<u8>) -> V3Header {
    V3Header {
        version: b[4],
        num_entries: u64_at(b, 8),
        bitmaps_section_offset: u64_at(b, 16),
        index_section_offset: u64_at(b, 24),
    }
}

/// Whether the bytes begin with a header that can be used.
pub open spec fn header_valid(b: Seq<u8>) -> bool {
    &&& b.len() >= 40
    &&& b.subrange(0, 4) == magic()
    &&& b[4] == 3
    &&& u64_at(b, 8) * 28 <= u64::MAX
}

/// The entry's bytes.
pub open spec fn entry_bytes(e: IndexEntry) -> Seq<u8> {
    le128(e.hash) + le64(e.offset) + le32(e.length)
}

/// The index entry that stands at `at`.
pub open spec fn entry_at(b: Seq<u8>, at: int) -> IndexEntry {
    IndexEntry { hash: u128_at(b, at), offset: u64_at(b, at + 16), length: u32_at(b, at + 24) }
}

/// The first four bytes.
fn first_four(bytes: &[u8]) -> (r: [u8; 4])
    requires
        bytes@.len() >= 4,
    ensures
        r@ == bytes@.subrange(0, 4),
{
    let r: [u8; 4] = [bytes[0], bytes[1], bytes[2], bytes[3]];
    assert(r@ =~= bytes@.subrange(0, 4));
    r
}

impl V3Header {
    /// Reads a header.
    pub fn parse(bytes: &[u8]) -> (r: Result<V3Header, FormatError>)
        ensures
            match r {
                Ok(h) => header_valid(bytes@) && h == header_at(bytes@),
                Err(FormatError::TooShort { expected, actual }) => {
                    &&& bytes@.len() < 40
                    &&& expected == 40
                    &&& actual == bytes@.len()
                },
                Err(FormatError::BadMagic { found }) => {
                    &&& bytes@.len() >= 40
                    &&& found@ == bytes@.subrange(0, 4)
                    &&& found@ != magic()
                },
                Err(FormatError::UnsupportedVersion { found }) => {
                    &&& bytes@.len() >= 40
                    &&& bytes@.subrange(0, 4) == magic()
                    &&& found == bytes@[4]
                    &&& found != 3
                },
                Err(FormatError::InvalidNumEntries { value, file_size }) => {
                    &&& bytes@.len() >= 40
                    &&& bytes@.subrange(0, 4) == magic()
                    &&& bytes@[4] == 3
                    &&& value == u64_at(bytes@, 8)
                    &&& value * 28 > u64::MAX
                    &&& file_size == 0
                },
                Err(_) => false,
            },
    {
        if bytes.len() < HEADER_SIZE {
            return Err(FormatError::TooShort { expected: HEADER_SIZE, actual: bytes.len() });
        }
        let found = first_four(bytes);
        if found[0] != 66 || found[1] != 84 || found[2] != 88 || found[3] != 73 {
            assert(found@ != magic()) by {
                assert(magic()[0] == 66 && magic()[1] == 84 && magic()[2] == 88 && magic()[3]
                    == 73);
            }
            return Err(FormatError::BadMagic { found });
        }
        assert(found@ =~= magic());
        let version: u8 = bytes[4];
        if version != EXACT_IDX_VERSION_V3 {
            return Err(FormatError::UnsupportedVersion { found: version });
        }
        let num_entries: u64 = read_u64(bytes, 8);
        let bitmaps_section_offset: u64 = read_u64(bytes, 16);
        let index_section_offset: u64 = read_u64(bytes, 24);
        match num_entries.checked_mul(28) {
            None => Err(FormatError::InvalidNumEntries { value: num_entries, file_size: 0 }),
            Some(_) => Ok(
                V3Header { version, num_entries, bitmaps_section_offset, index_section_offset },
            ),
        }
    }

    /// Appends the 40 bytes of the header.
    pub fn write(&self, out: &mut Vec<u8>)
        ensures
            final(out)@ == old(out)@ + header_bytes(*self),
            header_bytes(*self).len() == 40,
    {
        let ghost start = out@;
        out.push(66);
        out.push(84);
        out.push(88);
        out.push(73);
        out.push(self.version);
        out.push(0);
        out.push(0);
        out.push(0);
        push_u64(out, self.num_entries);
        push_u64(out, self.bitmaps_section_offset);
        push_u64(out, self.index_section_offset);
        push_u64(out, 0);
        proof {
            lemma_header_len(*self);
            assert(out@ =~= start + header_bytes(*self));
        }
    }
}

proof fn lemma_header_len(h: V3Header)
    ensures
        header_bytes(h).len() == 40,
{
    lemma_read_written(h.num_entries, 0, 0);
    lemma_read_written(h.bitmaps_section_offset, 0, 0);
    lemma_read_written(h.index_section_offset, 0, 0);
    lemma_read_written(0, 0, 0);
}

impl IndexEntry {
    /// Reads an index entry out of its 28 bytes.
    pub fn parse(bytes: &[u8]) -> (r: IndexEntry)
        requires
            bytes@.len() == 28,
        ensures
            r == entry_at(bytes@, 0),
    {
        IndexEntry {
            hash: read_u128(bytes, 0),
            offset: read_u64(bytes, 16),
            length: read_u32(bytes, 24),
        }
    }

    /// Appends the 28 bytes of the entry.
    pub fn write(&self, out: &mut Vec<u8>)
        ensures
            final(out)@ == old(out)@ + entry_bytes(*self),
            entry_bytes(*self).len() == 28,
    {
        let ghost start = out@;
        push_u128(out, self.hash);
        push_u64(out, self.offset);
        push_u32(out, self.length);
        proof {
            lemma_read_written(self.offset, self.length, self.hash);
            assert(out@ =~= start + entry_bytes(*self));
        }
    }
}

/// A header that was written is read back, whatever follows it.
pub proof fn law_header_round_trip(h: V3Header, rest: Seq<u8>)
    requires
        h.version == 3,
        h.num_entries * 28 <= u64::MAX,
    ensures
        header_valid(header_bytes(h) + rest),
        header_at(header_bytes(h) + rest) == h,
{
    lemma_read_written(h.num_entries, 0, 0);
    lemma_read_written(h.bitmaps_section_offset, 0, 0);
    lemma_read_written(h.index_section_offset, 0, 0);
    lemma_read_written(0, 0, 0);
    let b = header_bytes(h) + rest;
    assert(b.subrange(0, 4) =~= magic());
    assert(b.subrange(8, 16) =~= le64(h.num_entries));
    assert(b.subrange(16, 24) =~= le64(h.bitmaps_section_offset));
    assert(b.subrange(24, 32) =~= le64(h.index_section_offset));
}

/// An index entry that was written is read back, wherever it stands.
pub proof fn law_entry_round_trip(before: Seq<u8>, e: IndexEntry, rest: Seq<u8>)
    ensures
        entry_at(before + entry_bytes(e) + rest, before.len() as int) == e,
{
    lemma_read_written(e.offset, e.length, e.hash);
    let at = before.len() as int;
    let b = before + entry_bytes(e) + rest;
    assert(b.subrange(at, at + 16) =~= le128(e.hash));
    assert(b.subrange(at + 16, at + 24) =~= le64(e.offset));
    assert(b.subrange(at + 24, at + 28) =~= le32(e.length));
}

/// The text of `bincode`'s own error. Nothing is said of it here: its wording
/// is the crate's.
#[verifier::external_body]
fn bincode_message(e: &Box<bincode::ErrorKind>) -> (r: String) {
    e.to_string()
}

/// Four numbers between square brackets, separated by commas.
pub open spec fn four_bytes_text(b: Seq<u8>) -> Seq<char> {
    "["@ + decimal_spec(b[0] as nat) + ", "@ + decimal_spec(b[1] as nat) + ", "@ + decimal_spec(
        b[2] as nat,
    ) + ", "@ + decimal_spec(b[3] as nat) + "]"@
}

/// What is said of an error.
pub open spec fn format_error_text(e: FormatError) -> Seq<char> {
    match e {
        FormatError::TooShort { expected, actual } => {
            "exact_index v3: file too short (expected >= "@ + decimal_spec(expected as nat)
                + ", got "@ + decimal_spec(actual as nat) + ")"@
        },
        FormatError::BadMagic { found } => {
            "exact_index v3: bad magic bytes "@ + four_bytes_text(found@)
                + " (expected b\"BTXI\")"@
        },
        FormatError::UnsupportedVersion { found } => {
            "exact_index v3: unsupported version "@ + decimal_spec(found as nat)
                + " (this reader only supports v3)"@
        },
        FormatError::InvalidNumEntries { value, file_size } => {
            "exact_index v3: num_entries="@ + decimal_spec(value as nat)
                + " is inconsistent with file_size="@ + decimal_spec(file_size as nat)
                + " (file appears truncated or corrupted)"@
        },
        FormatError::EntryTooLong { length } => {
            "exact_index v3: encoded entry of "@ + decimal_spec(length as nat)
                + " bytes is too long"@
        },
        FormatError::BincodeError(_) => "exact_index v3: bincode error: "@,
    }
}

impl FormatError {
    /// What is said of the error. For an error of `bincode` its own words follow.
    pub fn describe(&self) -> (r: String)
        ensures
            !(self is BincodeError) ==> r@ == format_error_text(*self),
            self is BincodeError ==> format_error_text(*self).is_prefix_of(r@),
    {
        let mut out = String::new();
        match self {
            FormatError::TooShort { expected, actual } => {
                out.append("exact_index v3: file too short (expected >= ");
                out.append(decimal(*expected as u64).as_str());
                out.append(", got ");
                out.append(decimal(*actual as u64).as_str());
                out.append(")");
            },
            FormatError::BadMagic { found } => {
                out.append("exact_index v3: bad magic bytes ");
                let ghost head = out@;
                out.append("[");
                out.append(decimal(found[0] as u64).as_str());
                out.append(", ");
                out.append(decimal(found[1] as u64).as_str());
                out.append(", ");
                out.append(decimal(found[2] as u64).as_str());
                out.append(", ");
                out.append(decimal(found[3] as u64).as_str());
                out.append("]");
                assert(out@ =~= head + four_bytes_text(found@));
                out.append(" (expected b\"BTXI\")");
            },
            FormatError::UnsupportedVersion { found } => {
                out.append("exact_index v3: unsupported version ");
                out.append(decimal(*found as u64).as_str());
                out.append(" (this reader only supports v3)");
            },
            FormatError::InvalidNumEntries { value, file_size } => {
                out.append("exact_index v3: num_entries=");
                out.append(decimal(*value).as_str());
                out.append(" is inconsistent with file_size=");
                out.append(decimal(*file_size).as_str());
                out.append(" (file appears truncated or corrupted)");
            },
            FormatError::EntryTooLong { length } => {
                out.append("exact_index v3: encoded entry of ");
                out.append(decimal(*length as u64).as_str());
                out.append(" bytes is too long");
            },
            FormatError::BincodeError(e) => {
                out.append("exact_index v3: bincode error: ");
                let ghost head = out@;
                assert(head =~= format_error_text(*self));
                out.append(bincode_message(e).as_str());
                return out;
            },
        }
        assert(out@ =~= format_error_text(*self));
        out
    }
}

} // verus!
