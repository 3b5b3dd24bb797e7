//! The older file of an exact index: eight bytes of header and an encoded map.

use crate::bytes::push_bytes;
use crate::canonical::key_hash;
use crate::exact_index::{
    after_header, has_magic, list_of_hash, loaded_v1, loaded_v2, only_value, version_of, ExactIndex,
    ExactIndexError,
};
use crate::exact_index_v3::format::magic;
use crate::legacy::{decoded_index_v1, decoded_index_v2, encode_index_v2, row_list};
use crate::primary_index::lookup;
use crate::settings::{exact_index_cache_per_field, lists_held};
use vstd::prelude::*;

verus! {

/// The bytes of a version 2 file that holds what the index holds.
pub fn save_exact_index(idx: &ExactIndex) -> (r: Result<Vec<u8>, ExactIndexError>)
    ensures
        match r {
            Ok(f) => {
                &&& idx.ordered()
                &&& has_magic(f@)
                &&& version_of(f@) == 2
                &&& decoded_index_v2(after_header(f@)) is Some
                &&& forall|h: u128| #[trigger]
                    idx.entry(h) == if decoded_index_v2(after_header(f@))->0.contains_key(h) {
                        Some(row_list(decoded_index_v2(after_header(f@))->0[h]))
                    } else {
                        None
                    }
            },
            Err(ExactIndexError::Unsorted) => !idx.ordered(),
            Err(ExactIndexError::Format(_)) => idx.ordered() && idx.saved_unreadable(),
            Err(_) => false,
        },
{
    let entries = match idx.all_entries() {
        Ok(v) => v,
        Err(e) => {
            return Err(e);
        },
    };
    proof {
        assert forall|i: int, j: int|
            #![trigger entries@[i], entries@[j]]
            0 <= i < j < entries@.len() implies entries@[i].0 != entries@[j].0 by {
            assert(crate::exact_index_v3::writer::entry_hashes(entries@)[i]
                < crate::exact_index_v3::writer::entry_hashes(entries@)[j]);
        }
    }
    match encode_index_v2(entries.as_slice()) {
        Err(e) => Err(ExactIndexError::Undecodable(e)),
        Ok(payload) => {
            let mut f: Vec<u8> = vec![66, 84, 88, 73, 2, 0, 0, 0];
            push_bytes(&mut f, payload.as_slice());
            proof {
                assert(f@.subrange(0, 4) =~= magic());
                assert(after_header(f@) =~= payload@);
                let m = decoded_index_v2(payload@)->0;
                assert forall|h: u128| #[trigger]
                    idx.entry(h) == if m.contains_key(h) {
                        Some(row_list(m[h]))
                    } else {
                        None
                    } by {
                    if m.contains_key(h) {
                        let i = choose|i: int|
                            0 <= i < entries@.len() && (#[trigger] entries@[i]).0 == h;
                        assert(entries@[i].0 == h);
                    } else if idx.entry(h) is Some {
                        let i = choose|i: int|
                            0 <= i < entries@.len() && (#[trigger] entries@[i]).0 == h;
                        assert(m.contains_key(entries@[i].0));
                    }
                }
            }
            Ok(f)
        },
    }
}

/// Loads a file of version 2 or 1, or one without a header. A file of another
/// version is refused.
pub fn load_exact_index(path: &str, f: Vec<u8>) -> (r: Result<ExactIndex, ExactIndexError>)
    ensures
        r matches Ok(idx) ==> {
            &&& idx.wf()
            &&& idx.bound() == Some(path@)
            &&& idx.limit() == lists_held(None)
            &&& idx.decoded().len() == 0
        },
        if has_magic(f@) && version_of(f@) == 2 {
            match r {
                Ok(idx) => decoded_index_v2(after_header(f@)) matches Some(m) && loaded_v2(idx, m),
                Err(ExactIndexError::Undecodable(_)) => decoded_index_v2(after_header(f@)) is None,
                Err(_) => false,
            }
        } else if has_magic(f@) && version_of(f@) != 1 {
            r matches Err(ExactIndexError::UnsupportedVersion { found }) && found == version_of(f@)
        } else {
            let payload = if has_magic(f@) {
                after_header(f@)
            } else {
                f@
            };
            match r {
                Ok(idx) => decoded_index_v1(payload) matches Some(m) && loaded_v1(idx, m),
                Err(ExactIndexError::Undecodable(_)) => decoded_index_v1(payload) is None,
                Err(_) => false,
            }
        },
{
    load_exact_index_with_cache(path, f, exact_index_cache_per_field(None))
}

/// Loads a file of version 2 or 1, or one without a header. A file of another
/// version is refused. At most `capacity` lists are held decoded.
pub fn load_exact_index_with_cache(path: &str, f: Vec<u8>, capacity: usize) -> (r: Result<
    ExactIndex,
    ExactIndexError,
>)
    requires
        0 < capacity <= usize::MAX / 128,
    ensures
        r matches Ok(idx) ==> {
            &&& idx.wf()
            &&& idx.bound() == Some(path@)
            &&& idx.limit() == capacity
            &&& idx.decoded().len() == 0
        },
        if has_magic(f@) && version_of(f@) == 2 {
            match r {
                Ok(idx) => decoded_index_v2(after_header(f@)) matches Some(m) && loaded_v2(idx, m),
                Err(ExactIndexError::Undecodable(_)) => decoded_index_v2(after_header(f@)) is None,
                Err(_) => false,
            }
        } else if has_magic(f@) && version_of(f@) != 1 {
            r matches Err(ExactIndexError::UnsupportedVersion { found }) && found == version_of(f@)
        } else {
            let payload = if has_magic(f@) {
                after_header(f@)
            } else {
                f@
            };
            match r {
                Ok(idx) => decoded_index_v1(payload) matches Some(m) && loaded_v1(idx, m),
                Err(ExactIndexError::Undecodable(_)) => decoded_index_v1(payload) is None,
                Err(_) => false,
            }
        },
{
    let n = f.len();
    let marked: bool = n >= 4 && f[0] == 66 && f[1] == 84 && f[2] == 88 && f[3] == 73;
    proof {
        if n >= 4 {
            let s = f@.subrange(0, 4);
            assert(s[0] == f@[0] && s[1] == f@[1] && s[2] == f@[2] && s[3] == f@[3]);
            assert(magic()[0] == 66 && magic()[1] == 84 && magic()[2] == 88 && magic()[3] == 73);
            if marked {
                assert(s =~= magic());
            }
        }
    }
    if marked && n > 4 && f[4] == 3 {
        return Err(ExactIndexError::UnsupportedVersion { found: 3 });
    }
    ExactIndex::open_with_cache(path, Some(f), capacity)
}

/// Lookups in an index that was saved and loaded again: `f` is what saving
/// `saved` gives, and `loaded` is what loading `f` gives.
pub proof fn law_exact_index_v2_round_trip(saved: ExactIndex, f: Seq<u8>, loaded: ExactIndex)
    requires
        decoded_index_v2(after_header(f)) is Some,
        forall|h: u128|
            #[trigger]
            saved.entry(h) == if decoded_index_v2(after_header(f))->0.contains_key(h) {
                Some(row_list(decoded_index_v2(after_header(f))->0[h]))
            } else {
                None
            },
        loaded_v2(loaded, decoded_index_v2(after_header(f))->0),
    ensures
        forall|h: u128| #[trigger] loaded.entry(h) == saved.entry(h),
{
}

/// An index out of a file of version 1, or of one without a header, gives for each value
/// the list that the file has, where no other value of the file has its hash.
pub proof fn law_old_lists_are_kept(
    idx: ExactIndex,
    m: Map<Seq<char>, Seq<(u64, Seq<u32>)>>,
    value: Seq<char>,
)
    requires
        loaded_v1(idx, m),
        only_value(m, value),
    ensures
        lookup(idx@, key_hash(value)) == Some(row_list(m[value])),
{
    let h = key_hash(value);
    assert(m.contains_key(value) && key_hash(value) == h);
    assert(idx.entry(h) is Some);
    assert(list_of_hash(m, h, idx.entry(h)->0));
}

} // verus!
