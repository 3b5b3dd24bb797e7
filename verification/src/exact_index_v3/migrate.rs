//! Turning an older index file into a snapshot file.

use super::format::EXACT_IDX_VERSION_V3;
use super::format::FormatError;
use super::reader::{index_sorted, snapshot_list, snapshot_valid};
use super::writer::too_long;
use crate::canonical::key_hash;
use crate::exact_index::{
    after_header, has_magic, list_of_hash, loaded_v1, loaded_v2, removals, replaced, version_of,
    ExactIndex, ExactIndexError,
};
use crate::legacy::{decoded_index_v1, decoded_index_v2, row_list};
use vstd::prelude::*;

verus! {

/// What a migration did.
#[derive(Clone, Copy, Debug, PartialEq, Eq, Structural)]
pub struct MigrationStats {
    /// How many entries the index has; 0 where nothing was done.
    pub num_entries: usize,
    /// The size of the file before; 0 where nothing was done.
    pub old_size: u64,
    /// The size of the file after; 0 where nothing was done.
    pub new_size: u64,
    /// Whether the file was a snapshot file already.
    pub already_v3: bool,
}

/// The snapshot file for an index file, and what was done. Nothing is written
/// where the file is a snapshot file already.
pub fn migrate_exact_index_to_v3(path: &str, file: Vec<u8>) -> (r: Result<
    (MigrationStats, Option<Vec<u8>>),
    ExactIndexError,
>)
    ensures
        match r {
            Ok((stats, None)) => {
                &&& has_magic(file@) && version_of(file@) == 3
                &&& stats == (MigrationStats {
                    num_entries: 0,
                    old_size: 0,
                    new_size: 0,
                    already_v3: true,
                })
            },
            Ok((stats, Some(bytes))) => {
                &&& !(has_magic(file@) && version_of(file@) == 3)
                &&& !stats.already_v3
                &&& stats.old_size == file@.len()
                &&& stats.new_size == bytes@.len()
                &&& snapshot_valid(bytes@)
                &&& index_sorted(bytes@)
                &&& stats.num_entries == hashes_found(bytes@).len()
                &&& if has_magic(file@) && version_of(file@) == 2 {
                    decoded_index_v2(after_header(file@)) matches Some(m) && holds_v2(bytes@, m)
                } else if has_magic(file@) {
                    decoded_index_v1(after_header(file@)) matches Some(m) && holds_v1(bytes@, m)
                } else {
                    decoded_index_v1(file@) matches Some(m) && holds_v1(bytes@, m)
                }
            },
            Err(ExactIndexError::UnsupportedVersion { found }) => {
                &&& has_magic(file@)
                &&& found == version_of(file@)
                &&& found != 1 && found != 2 && found != 3
            },
            Err(ExactIndexError::Undecodable(_)) => {
                if has_magic(file@) {
                    ||| version_of(file@) == 2 && decoded_index_v2(after_header(file@)) is None
                    ||| version_of(file@) == 1 && decoded_index_v1(after_header(file@)) is None
                } else {
                    decoded_index_v1(file@) is None
                }
            },
            Err(ExactIndexError::Format(FormatError::EntryTooLong { length })) => {
                if has_magic(file@) && version_of(file@) == 2 {
                    decoded_index_v2(after_header(file@)) matches Some(m) && overflows_v2(
                        m,
                        length as int,
                    )
                } else if has_magic(file@) {
                    version_of(file@) == 1 && (decoded_index_v1(after_header(file@)) matches Some(m)
                        && overflows_v1(m, length as int))
                } else {
                    decoded_index_v1(file@) matches Some(m) && overflows_v1(m, length as int)
                }
            },
            Err(_) => false,
        },
{
    let n = file.len();
    let marked: bool = n >= 5 && file[0] == 66 && file[1] == 84 && file[2] == 88 && file[3] == 73
        && file[4] == EXACT_IDX_VERSION_V3;
    proof {
        use_magic(file@);
    }
    if marked {
        return Ok(
            (MigrationStats { num_entries: 0, old_size: 0, new_size: 0, already_v3: true }, None),
        );
    }
    let mut idx = match ExactIndex::open(path, Some(file)) {
        Ok(i) => i,
        Err(e) => {
            return Err(e);
        },
    };
    let num_entries: usize = idx.len();
    let ghost before = idx;
    match idx.render(Some(path)) {
        Err(e) => {
            proof {
                if let ExactIndexError::Format(f) = &e {
                    lemma_overflows(before, *f);
                }
            }
            Err(e)
        },
        Ok(None) => {
            assert(false);
            Err(ExactIndexError::NoPath)
        },
        Ok(Some(out)) => {
            let stats = MigrationStats {
                num_entries,
                old_size: n as u64,
                new_size: out.1.len() as u64,
                already_v3: false,
            };
            proof {
                assert forall|h: u128| #[trigger] snapshot_list(out.1@, h) == before.entry(h) by {}
                assert(replaced(before.pending()) =~= hashes_found(out.1@)) by {
                    assert forall|h: u128| #[trigger]
                        replaced(before.pending()).contains(h) <==> hashes_found(out.1@).contains(
                        h,
                    ) by {
                        assert(snapshot_list(out.1@, h) == before.entry(h));
                    }
                }
                assert(removals(before.pending()) =~= Set::empty());
                lemma_holds(before, out.1@);
            }
            Ok((stats, Some(out.1)))
        },
    }
}

/// The hashes that the snapshot has a list for.
pub open spec fn hashes_found(b: Seq<u8>) -> Set<u128> {
    Set::new(|h: u128| snapshot_list(b, h) is Some)
}

/// Whether the snapshot has exactly the lists of a decoded map.
pub open spec fn holds_v2(b: Seq<u8>, m: Map<u128, Seq<(u64, Seq<u32>)>>) -> bool {
    forall|h: u128| #[trigger]
        snapshot_list(b, h) == if m.contains_key(h) {
            Some(row_list(m[h]))
        } else {
            None
        }
}

/// Whether a list of a decoded map is too long for its entry.
pub open spec fn overflows_v2(m: Map<u128, Seq<(u64, Seq<u32>)>>, length: int) -> bool {
    exists|h: u128| #[trigger] m.contains_key(h) && too_long(row_list(m[h]), length)
}

/// Whether what decoded values give under some hash is too long for its entry.
pub open spec fn overflows_v1(m: Map<Seq<char>, Seq<(u64, Seq<u32>)>>, length: int) -> bool {
    exists|h: u128, list: Seq<(u64, Set<u32>)>| #[trigger]
        list_of_hash(m, h, list) && too_long(list, length)
}

proof fn lemma_overflows(idx: ExactIndex, f: FormatError)
    requires
        idx.has_too_long(f),
    ensures
        forall|m: Map<u128, Seq<(u64, Seq<u32>)>>| #[trigger]
            loaded_v2(idx, m) ==> overflows_v2(m, f->EntryTooLong_length as int),
        forall|m: Map<Seq<char>, Seq<(u64, Seq<u32>)>>| #[trigger]
            loaded_v1(idx, m) ==> overflows_v1(m, f->EntryTooLong_length as int),
{
    let length = f->EntryTooLong_length as int;
    let h = choose|h: u128|
        (#[trigger] idx.entry(h)) is Some && too_long(idx.entry(h)->0, length);
    assert forall|m: Map<u128, Seq<(u64, Seq<u32>)>>| #[trigger]
        loaded_v2(idx, m) implies overflows_v2(m, length) by {
        assert(m.contains_key(h));
    }
    assert forall|m: Map<Seq<char>, Seq<(u64, Seq<u32>)>>| #[trigger]
        loaded_v1(idx, m) implies overflows_v1(m, length) by {
        assert(list_of_hash(m, h, idx.entry(h)->0));
    }
}

/// Whether the snapshot has, under each hash, what the decoded values give for it.
pub open spec fn holds_v1(b: Seq<u8>, m: Map<Seq<char>, Seq<(u64, Seq<u32>)>>) -> bool {
    &&& forall|h: u128| #[trigger]
        snapshot_list(b, h) is Some <==> exists|k: Seq<char>| #[trigger]
            m.contains_key(k) && key_hash(k) == h
    &&& forall|h: u128|
        (#[trigger] snapshot_list(b, h)) is Some ==> list_of_hash(m, h, snapshot_list(b, h)->0)
}

proof fn lemma_holds(idx: ExactIndex, b: Seq<u8>)
    requires
        forall|h: u128| #[trigger] snapshot_list(b, h) == idx.entry(h),
    ensures
        forall|m: Map<u128, Seq<(u64, Seq<u32>)>>| #[trigger] loaded_v2(idx, m) ==> holds_v2(b, m),
        forall|m: Map<Seq<char>, Seq<(u64, Seq<u32>)>>| #[trigger]
            loaded_v1(idx, m) ==> holds_v1(b, m),
{
    assert forall|m: Map<u128, Seq<(u64, Seq<u32>)>>| #[trigger] loaded_v2(idx, m) implies holds_v2(
        b,
        m,
    ) by {
        assert forall|h: u128| #[trigger]
            snapshot_list(b, h) == if m.contains_key(h) {
                Some(row_list(m[h]))
            } else {
                None
            } by {
            assert(snapshot_list(b, h) == idx.entry(h));
        }
    }
    assert forall|m: Map<Seq<char>, Seq<(u64, Seq<u32>)>>| #[trigger]
        loaded_v1(idx, m) implies holds_v1(b, m) by {
        assert forall|h: u128| #[trigger]
            snapshot_list(b, h) is Some <==> exists|k: Seq<char>| #[trigger]
            m.contains_key(k) && key_hash(k) == h by {
            assert(snapshot_list(b, h) == idx.entry(h));
        }
        assert forall|h: u128| (#[trigger] snapshot_list(b, h)) is Some implies list_of_hash(
            m,
            h,
            snapshot_list(b, h)->0,
        ) by {
            assert(snapshot_list(b, h) == idx.entry(h));
        }
    }
}

proof fn use_magic(f: Seq<u8>)
    ensures
        has_magic(f) <==> f.len() >= 4 && f[0] == 66 && f[1] == 84 && f[2] == 88 && f[3] == 73,
{
    if f.len() >= 4 {
        let s = f.subrange(0, 4);
        let m = super::format::magic();
        assert(s[0] == f[0] && s[1] == f[1] && s[2] == f[2] && s[3] == f[3]);
        assert(m[0] == 66 && m[1] == 84 && m[2] == 88 && m[3] == 73);
        if f[0] == 66 && f[1] == 84 && f[2] == 88 && f[3] == 73 {
            assert(s =~= m);
        }
    }
}

} // verus!
