//! Reading a snapshot file.

use super::format::{
    entry_at, header_at, header_valid, magic, FormatError, IndexEntry, V3Header, HEADER_SIZE,
    INDEX_ENTRY_SIZE,
};
use crate::bytes::u64_at;
use crate::postings::{decode_postings, postings, stored_postings};
use crate::rowset::RowSet;
use vstd::prelude::*;
use vstd::slice::slice_subrange;

verus! {

/// How many entries the file says it has.
pub open spec fn entry_count(b: Seq<u8>) -> int {
    header_at(b).num_entries as int
}

/// Where the index section begins.
pub open spec fn index_start(b: Seq<u8>) -> int {
    header_at(b).index_section_offset as int
}

/// Whether the header is valid and the index section fills the rest of the file.
pub open spec fn snapshot_valid(b: Seq<u8>) -> bool {
    header_valid(b) && index_start(b) + entry_count(b) * 28 == b.len()
}

/// The index entry number `i`.
pub open spec fn nth_entry(b: Seq<u8>, i: int) -> IndexEntry {
    entry_at(b, index_start(b) + 28 * i)
}

/// Whether the index entries stand in ascending order of their hashes.
pub open spec fn index_sorted(b: Seq<u8>) -> bool {
    forall|i: int, j: int|
        #![trigger nth_entry(b, i), nth_entry(b, j)]
        0 <= i < j < entry_count(b) ==> nth_entry(b, i).hash < nth_entry(b, j).hash
}

/// Whether the list of an entry lies inside the file.
pub open spec fn list_inside(b: Seq<u8>, e: IndexEntry) -> bool {
    e.offset + e.length <= b.len()
}

/// The list that an entry points to, where it lies inside the file and decodes.
pub open spec fn entry_list(b: Seq<u8>, e: IndexEntry) -> Option<Seq<(u64, Set<u32>)>> {
    if list_inside(b, e) {
        stored_postings(b.subrange(e.offset as int, e.offset + e.length))
    } else {
        None
    }
}

/// The place of the hash among the entries from `lo` up to `hi`, as halving
/// finds it.
pub open spec fn halving(b: Seq<u8>, hash: u128, lo: int, hi: int) -> Option<int>
    decreases hi - lo,
{
    if lo >= hi {
        None
    } else {
        let mid = lo + (hi - lo) / 2;
        let h = nth_entry(b, mid).hash;
        if h < hash {
            halving(b, hash, mid + 1, hi)
        } else if h > hash {
            halving(b, hash, lo, mid)
        } else {
            Some(mid)
        }
    }
}

/// The entry that a lookup finds.
pub open spec fn found_entry(b: Seq<u8>, hash: u128) -> Option<IndexEntry> {
    match halving(b, hash, 0, entry_count(b)) {
        Some(i) => Some(nth_entry(b, i)),
        None => None,
    }
}

/// What a lookup gives.
pub open spec fn snapshot_list(b: Seq<u8>, hash: u128) -> Option<Seq<(u64, Set<u32>)>> {
    match found_entry(b, hash) {
        Some(e) => entry_list(b, e),
        None => None,
    }
}

proof fn lemma_halving(b: Seq<u8>, hash: u128, lo: int, hi: int)
    requires
        0 <= lo,
        hi <= entry_count(b),
    ensures
        halving(b, hash, lo, hi) matches Some(i) ==> lo <= i < hi && nth_entry(b, i).hash == hash,
        index_sorted(b) && halving(b, hash, lo, hi) is None ==> forall|i: int|
            lo <= i < hi ==> (#[trigger] nth_entry(b, i)).hash != hash,
    decreases hi - lo,
{
    if lo < hi {
        let mid = lo + (hi - lo) / 2;
        let h = nth_entry(b, mid).hash;
        if h < hash {
            lemma_halving(b, hash, mid + 1, hi);
        } else if h > hash {
            lemma_halving(b, hash, lo, mid);
        }
    }
}

/// In a sorted index a lookup finds the entry with the hash exactly where there
/// is one.
pub proof fn law_lookup_complete(b: Seq<u8>, hash: u128)
    requires
        index_sorted(b),
    ensures
        found_entry(b, hash) is None <==> forall|i: int|
            0 <= i < entry_count(b) ==> (#[trigger] nth_entry(b, i)).hash != hash,
        forall|i: int|
            0 <= i < entry_count(b) && (#[trigger] nth_entry(b, i)).hash == hash ==> found_entry(
                b,
                hash,
            ) == Some(nth_entry(b, i)),
{
    lemma_halving(b, hash, 0, entry_count(b));
    assert forall|i: int|
        0 <= i < entry_count(b) && (#[trigger] nth_entry(b, i)).hash == hash implies found_entry(
        b,
        hash,
    ) == Some(nth_entry(b, i)) by {
        let k = halving(b, hash, 0, entry_count(b))->0;
        if k < i {
            assert(nth_entry(b, k).hash < nth_entry(b, i).hash);
        } else if i < k {
            assert(nth_entry(b, i).hash < nth_entry(b, k).hash);
        }
    }
}

/// Reads entries out of the bytes of a snapshot file.
pub struct SnapshotReader {
    bytes: Vec<u8>,
    num_entries: u64,
    bitmaps_section_offset: u64,
    index_section_offset: u64,
    path: String,
}

impl View for SnapshotReader {
    type V = Seq<u8>;

    closed spec fn view(&self) -> Seq<u8> {
        self.bytes@
    }
}

impl SnapshotReader {
    #[verifier::type_invariant]
    spec fn consistent(self) -> bool {
        &&& snapshot_valid(self.bytes@)
        &&& self.num_entries == header_at(self.bytes@).num_entries
        &&& self.bitmaps_section_offset == header_at(self.bytes@).bitmaps_section_offset
        &&& self.index_section_offset == header_at(self.bytes@).index_section_offset
    }

    /// Where the file lies.
    pub closed spec fn place(&self) -> Seq<char> {
        self.path@
    }

    /// Takes the bytes of a file, after looking at its header and its size.
    pub fn open(path: &str, bytes: Vec<u8>) -> (r: Result<SnapshotReader, FormatError>)
        ensures
            match r {
                Ok(reader) => {
                    &&& snapshot_valid(bytes@)
                    &&& reader@ == bytes@
                    &&& reader.place() == path@
                },
                Err(FormatError::TooShort { expected, actual }) => {
                    &&& bytes@.len() < 40
                    &&& expected == 40
                    &&& actual == bytes@.len()
                },
                Err(FormatError::BadMagic { found }) => {
                    &&& bytes@.len() >= 40
                    &&& found@ == bytes@.subrange(0, 4)
                    &&& found@ != magic()
                },
                Err(FormatError::UnsupportedVersion { found }) => {
                    &&& bytes@.len() >= 40
                    &&& bytes@.subrange(0, 4) == magic()
                    &&& found == bytes@[4]
                    &&& found != 3
                },
                Err(FormatError::InvalidNumEntries { value, file_size }) => {
                    &&& bytes@.len() >= 40
                    &&& bytes@.subrange(0, 4) == magic()
                    &&& bytes@[4] == 3
                    &&& value == u64_at(bytes@, 8)
                    &&& index_start(bytes@) + value * 28 != bytes@.len()
                    &&& file_size == (if value * 28 > u64::MAX {
                        0
                    } else {
                        bytes@.len() as int
                    })
                },
                Err(_) => false,
            },
    {
        let file_size: u64 = bytes.len() as u64;
        if bytes.len() < HEADER_SIZE {
            return Err(FormatError::TooShort { expected: HEADER_SIZE, actual: bytes.len() });
        }
        let header = match V3Header::parse(bytes.as_slice()) {
            Ok(h) => h,
            Err(e) => {
                return Err(e);
            },
        };
        let size: u64 = header.num_entries * 28;
        let expected: Option<u64> = header.index_section_offset.checked_add(size);
        if expected != Some(file_size) {
            return Err(FormatError::InvalidNumEntries { value: header.num_entries, file_size });
        }
        Ok(
            SnapshotReader {
                bytes,
                num_entries: header.num_entries,
                bitmaps_section_offset: header.bitmaps_section_offset,
                index_section_offset: header.index_section_offset,
                path: path.to_owned(),
            },
        )
    }

    /// How many entries there are.
    pub fn num_entries(&self) -> (r: u64)
        ensures
            r == entry_count(self@),
            r <= usize::MAX,
            snapshot_valid(self@),
    {
        proof {
            use_type_invariant(self);
        }
        let size: usize = self.bytes.len();
        assert(self.num_entries <= size);
        self.num_entries
    }

    /// Where the file lies.
    pub fn path(&self) -> (r: &str)
        ensures
            r@ == self.place(),
    {
        self.path.as_str()
    }

    /// Index entry number `i`.
    pub fn read_index_entry(&self, i: u64) -> (r: IndexEntry)
        requires
            i < entry_count(self@),
        ensures
            r == nth_entry(self@, i as int),
    {
        proof {
            use_type_invariant(self);
        }
        let n = self.bytes.len();
        assert(self.index_section_offset + (i + 1) * 28 <= n);
        let start: usize = (self.index_section_offset + i * 28) as usize;
        let slice = slice_subrange(self.bytes.as_slice(), start, start + INDEX_ENTRY_SIZE);
        proof {
            let b = self.bytes@;
            let at = start as int;
            assert(slice@.subrange(0, 16) =~= b.subrange(at, at + 16));
            assert(slice@.subrange(16, 24) =~= b.subrange(at + 16, at + 24));
            assert(slice@.subrange(24, 28) =~= b.subrange(at + 24, at + 28));
        }
        IndexEntry::parse(slice)
    }

    /// The entry with the hash, found by halving the index section.
    pub fn find_entry(&self, hash: u128) -> (r: Option<IndexEntry>)
        ensures
            r == found_entry(self@, hash),
    {
        proof {
            use_type_invariant(self);
        }
        let mut lo: u64 = 0;
        let mut hi: u64 = self.num_entries;
        while lo < hi
            invariant
                lo <= hi <= entry_count(self@),
                halving(self@, hash, 0, entry_count(self@)) == halving(
                    self@,
                    hash,
                    lo as int,
                    hi as int,
                ),
            decreases hi - lo,
        {
            let mid: u64 = lo + (hi - lo) / 2;
            let entry = self.read_index_entry(mid);
            if entry.hash < hash {
                lo = mid + 1;
            } else if entry.hash > hash {
                hi = mid;
            } else {
                return Some(entry);
            }
        }
        None
    }

    fn read_list(&self, entry: IndexEntry) -> (r: Result<Vec<(u64, RowSet)>, FormatError>)
        ensures
            match r {
                Ok(list) => entry_list(self@, entry) == Some(postings(list@)),
                Err(FormatError::TooShort { expected, actual }) => {
                    &&& !list_inside(self@, entry)
                    &&& actual == self@.len()
                    &&& expected == (if entry.offset + entry.length <= usize::MAX {
                        entry.offset + entry.length
                    } else {
                        usize::MAX as int
                    })
                },
                Err(FormatError::BincodeError(_)) => {
                    &&& list_inside(self@, entry)
                    &&& entry_list(self@, entry) is None
                },
                Err(_) => false,
            },
    {
        let n = self.bytes.len();
        let end: u128 = entry.offset as u128 + entry.length as u128;
        if end > n as u128 {
            let expected: usize = if end > usize::MAX as u128 {
                usize::MAX
            } else {
                end as usize
            };
            return Err(FormatError::TooShort { expected, actual: n });
        }
        let slice = slice_subrange(self.bytes.as_slice(), entry.offset as usize, end as usize);
        match decode_postings(slice) {
            Ok(list) => Ok(list),
            Err(e) => Err(FormatError::BincodeError(e)),
        }
    }

    /// Looks a hash up.
    pub fn get(&self, hash: u128) -> (r: Result<Option<Vec<(u64, RowSet)>>, FormatError>)
        ensures
            match r {
                Ok(None) => found_entry(self@, hash) is None,
                Ok(Some(list)) => {
                    &&& found_entry(self@, hash) is Some
                    &&& snapshot_list(self@, hash) == Some(postings(list@))
                },
                Err(FormatError::TooShort { expected, actual }) => {
                    &&& found_entry(self@, hash) is Some
                    &&& !list_inside(self@, found_entry(self@, hash)->0)
                    &&& actual == self@.len()
                    &&& expected >= actual
                },
                Err(FormatError::BincodeError(_)) => {
                    &&& found_entry(self@, hash) is Some
                    &&& list_inside(self@, found_entry(self@, hash)->0)
                    &&& snapshot_list(self@, hash) is None
                },
                Err(_) => false,
            },
    {
        match self.find_entry(hash) {
            None => Ok(None),
            Some(entry) => match self.read_list(entry) {
                Ok(list) => Ok(Some(list)),
                Err(e) => Err(e),
            },
        }
    }

    /// Every entry in the order of the index section, or what is wrong with it.
    pub fn iter_entries(&self) -> (r: Vec<Result<(u128, Vec<(u64, RowSet)>), FormatError>>)
        ensures
            r@.len() == entry_count(self@),
            forall|i: int|
                0 <= i < r@.len() ==> match #[trigger] r@[i] {
                    Ok(pair) => {
                        &&& pair.0 == nth_entry(self@, i).hash
                        &&& entry_list(self@, nth_entry(self@, i)) == Some(postings(pair.1@))
                    },
                    Err(_) => entry_list(self@, nth_entry(self@, i)) is None,
                },
    {
        proof {
            use_type_invariant(self);
        }
        let mut out: Vec<Result<(u128, Vec<(u64, RowSet)>), FormatError>> = Vec::new();
        let mut i: u64 = 0;
        while i < self.num_entries
            invariant
                i <= self.num_entries == entry_count(self@),
                out@.len() == i,
                forall|k: int|
                    0 <= k < i ==> match #[trigger] out@[k] {
                        Ok(pair) => {
                            &&& pair.0 == nth_entry(self@, k).hash
                            &&& entry_list(self@, nth_entry(self@, k)) == Some(postings(pair.1@))
                        },
                        Err(_) => entry_list(self@, nth_entry(self@, k)) is None,
                    },
            decreases self.num_entries - i,
        {
            let entry = self.read_index_entry(i);
            match self.read_list(entry) {
                Ok(list) => {
                    out.push(Ok((entry.hash, list)));
                },
                Err(e) => {
                    out.push(Err(e));
                },
            }
            i = i + 1;
        }
        out
    }
}

impl Clone for SnapshotReader {
    fn clone(&self) -> (r: Self)
        ensures
            r@ == self@,
            r.place() == self.place(),
    {
        proof {
            use_type_invariant(self);
        }
        SnapshotReader {
            bytes: vstd::slice::slice_to_vec(self.bytes.as_slice()),
            num_entries: self.num_entries,
            bitmaps_section_offset: self.bitmaps_section_offset,
            index_section_offset: self.index_section_offset,
            path: self.path.clone(),
        }
    }
}

} // verus!
