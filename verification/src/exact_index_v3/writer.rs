//! Writing a snapshot file.

use super::format::{
    entry_bytes, header_at, header_bytes, law_entry_round_trip, law_header_round_trip, FormatError,
    IndexEntry, V3Header, EXACT_IDX_VERSION_V3,
};
use super::reader::{
    entry_count, entry_list, index_sorted, list_inside, nth_entry, snapshot_valid,
};
use crate::bytes::push_bytes;
use crate::keymap::{keys_ascending, sorted_keys};
use crate::postings::{clone_postings, encode_postings, postings, stored_postings};
use crate::rowset::RowSet;
use std::collections::HashMap;
use vstd::prelude::*;

verus! {

broadcast use vstd::std_specs::hash::group_hash_axioms;

/// The byte strings one after the other.
pub open spec fn concat(blobs: Seq<Seq<u8>>) -> Seq<u8>
    decreases blobs.len(),
{
    if blobs.len() == 0 {
        Seq::empty()
    } else {
        concat(blobs.drop_last()) + blobs.last()
    }
}

/// The views of a list of byte strings.
pub open spec fn blob_views(v: Seq<Vec<u8>>) -> Seq<Seq<u8>> {
    v.map_values(|b: Vec<u8>| b@)
}

/// The index entry of list number `i`.
pub open spec fn placed_entry(hashes: Seq<u128>, blobs: Seq<Seq<u8>>, i: int) -> IndexEntry {
    IndexEntry {
        hash: hashes[i],
        offset: (40 + concat(blobs.take(i)).len()) as u64,
        length: blobs[i].len() as u32,
    }
}

/// The first `n` index entries one after the other.
pub open spec fn index_bytes(hashes: Seq<u128>, blobs: Seq<Seq<u8>>, n: int) -> Seq<u8>
    decreases n,
{
    if n <= 0 {
        Seq::empty()
    } else {
        index_bytes(hashes, blobs, n - 1) + entry_bytes(placed_entry(hashes, blobs, n - 1))
    }
}

/// The header of the file.
pub open spec fn placed_header(blobs: Seq<Seq<u8>>) -> V3Header {
    V3Header {
        version: 3,
        num_entries: blobs.len() as u64,
        bitmaps_section_offset: 40,
        index_section_offset: (40 + concat(blobs).len()) as u64,
    }
}

/// The bytes of a snapshot file with these hashes and encoded lists.
pub open spec fn snapshot_bytes(hashes: Seq<u128>, blobs: Seq<Seq<u8>>) -> Seq<u8> {
    header_bytes(placed_header(blobs)) + concat(blobs) + index_bytes(
        hashes,
        blobs,
        blobs.len() as int,
    )
}

/// Whether every encoded list is short enough for an index entry.
pub open spec fn lists_fit(blobs: Seq<Seq<u8>>) -> bool {
    forall|i: int| 0 <= i < blobs.len() ==> (#[trigger] blobs[i]).len() <= u32::MAX
}

proof fn lemma_concat_take(blobs: Seq<Seq<u8>>, i: int)
    requires
        0 <= i < blobs.len(),
    ensures
        concat(blobs.take(i + 1)) == concat(blobs.take(i)) + blobs[i],
{
    assert(blobs.take(i + 1).drop_last() =~= blobs.take(i));
}

proof fn lemma_concat_prefix(blobs: Seq<Seq<u8>>, i: int)
    requires
        0 <= i <= blobs.len(),
    ensures
        concat(blobs.take(i)).is_prefix_of(concat(blobs)),
    decreases blobs.len() - i,
{
    if i == blobs.len() {
        assert(blobs.take(i) =~= blobs);
    } else {
        lemma_concat_take(blobs, i);
        lemma_concat_prefix(blobs, i + 1);
        let a = concat(blobs.take(i));
        let b = concat(blobs.take(i + 1));
        let c = concat(blobs);
        assert(a =~= c.take(a.len() as int)) by {
            assert(b =~= c.take(b.len() as int));
        }
    }
}

proof fn lemma_list_slice(blobs: Seq<Seq<u8>>, i: int)
    requires
        0 <= i < blobs.len(),
    ensures
        concat(blobs.take(i)).len() + blobs[i].len() <= concat(blobs).len(),
        concat(blobs).subrange(
            concat(blobs.take(i)).len() as int,
            (concat(blobs.take(i)).len() + blobs[i].len()) as int,
        ) == blobs[i],
{
    lemma_concat_take(blobs, i);
    lemma_concat_prefix(blobs, i + 1);
    let a = concat(blobs.take(i));
    let b = concat(blobs.take(i + 1));
    let c = concat(blobs);
    assert(b =~= c.take(b.len() as int));
    assert(c.subrange(a.len() as int, (a.len() + blobs[i].len()) as int) =~= b.subrange(
        a.len() as int,
        b.len() as int,
    ));
    assert(b.subrange(a.len() as int, b.len() as int) =~= blobs[i]);
}

proof fn lemma_entry_len(e: IndexEntry)
    ensures
        entry_bytes(e).len() == 28,
{
    crate::bytes::lemma_read_written(e.offset, e.length, e.hash);
}

proof fn lemma_header_len(h: V3Header)
    ensures
        header_bytes(h).len() == 40,
{
    crate::bytes::lemma_read_written(h.num_entries, 0, 0);
    crate::bytes::lemma_read_written(h.bitmaps_section_offset, 0, 0);
    crate::bytes::lemma_read_written(h.index_section_offset, 0, 0);
    crate::bytes::lemma_read_written(0, 0, 0);
}

proof fn lemma_index_len(hashes: Seq<u128>, blobs: Seq<Seq<u8>>, n: int)
    requires
        0 <= n,
    ensures
        index_bytes(hashes, blobs, n).len() == 28 * n,
    decreases n,
{
    if n > 0 {
        lemma_index_len(hashes, blobs, n - 1);
        lemma_entry_len(placed_entry(hashes, blobs, n - 1));
    }
}

proof fn lemma_index_split(hashes: Seq<u128>, blobs: Seq<Seq<u8>>, i: int, n: int) -> (rest: Seq<u8>)
    requires
        0 <= i < n,
    ensures
        index_bytes(hashes, blobs, n) == index_bytes(hashes, blobs, i) + entry_bytes(
            placed_entry(hashes, blobs, i),
        ) + rest,
    decreases n,
{
    if i == n - 1 {
        let rest = Seq::<u8>::empty();
        assert(index_bytes(hashes, blobs, n) =~= index_bytes(hashes, blobs, i) + entry_bytes(
            placed_entry(hashes, blobs, i),
        ) + rest);
        rest
    } else {
        let rest = lemma_index_split(hashes, blobs, i, n - 1);
        let more = entry_bytes(placed_entry(hashes, blobs, n - 1));
        assert(index_bytes(hashes, blobs, n) =~= index_bytes(hashes, blobs, i) + entry_bytes(
            placed_entry(hashes, blobs, i),
        ) + (rest + more));
        rest + more
    }
}

/// Whether the entry has this hash and its list is these bytes.
pub open spec fn entry_holds(b: Seq<u8>, e: IndexEntry, hash: u128, blob: Seq<u8>) -> bool {
    &&& e.hash == hash
    &&& list_inside(b, e)
    &&& b.subrange(e.offset as int, e.offset + e.length) == blob
}

/// Reading a written snapshot gives back the hashes and the encoded lists.
pub proof fn law_snapshot_round_trip(hashes: Seq<u128>, blobs: Seq<Seq<u8>>)
    requires
        hashes.len() == blobs.len(),
        lists_fit(blobs),
        snapshot_bytes(hashes, blobs).len() <= u64::MAX,
    ensures
        snapshot_valid(snapshot_bytes(hashes, blobs)),
        entry_count(snapshot_bytes(hashes, blobs)) == blobs.len(),
        header_at(snapshot_bytes(hashes, blobs)).bitmaps_section_offset == 40,
        forall|i: int|
            #![trigger nth_entry(snapshot_bytes(hashes, blobs), i)]
            0 <= i < blobs.len() ==> entry_holds(
                snapshot_bytes(hashes, blobs),
                nth_entry(snapshot_bytes(hashes, blobs), i),
                hashes[i],
                blobs[i],
            ),
{
    let n = blobs.len() as int;
    let h = placed_header(blobs);
    let b = snapshot_bytes(hashes, blobs);
    let lists = concat(blobs);
    let index = index_bytes(hashes, blobs, n);
    lemma_header_len(h);
    lemma_index_len(hashes, blobs, n);
    assert(b.len() == 40 + lists.len() + 28 * n);
    assert(b =~= header_bytes(h) + (lists + index));
    law_header_round_trip(h, lists + index);
    assert forall|i: int| 0 <= i < n implies entry_holds(
        b,
        #[trigger] nth_entry(b, i),
        hashes[i],
        blobs[i],
    ) by {
        let e = placed_entry(hashes, blobs, i);
        let rest = lemma_index_split(hashes, blobs, i, n);
        lemma_index_len(hashes, blobs, i);
        let before = header_bytes(h) + lists + index_bytes(hashes, blobs, i);
        assert(b =~= before + entry_bytes(e) + rest);
        law_entry_round_trip(before, e, rest);
        assert(nth_entry(b, i) == e);
        lemma_list_slice(blobs, i);
        let start = concat(blobs.take(i)).len() as int;
        assert(b.subrange(40 + start, 40 + start + blobs[i].len()) =~= lists.subrange(
            start,
            start + blobs[i].len(),
        ));
    }
}

/// Lays a snapshot file out: `lists[i]` is the encoded list of `hashes[i]`.
pub fn assemble_snapshot(hashes: &[u128], lists: &[Vec<u8>]) -> (r: Result<Vec<u8>, FormatError>)
    requires
        hashes@.len() == lists@.len(),
    ensures
        match r {
            Ok(b) => {
                &&& lists_fit(blob_views(lists@))
                &&& b@ == snapshot_bytes(hashes@, blob_views(lists@))
                &&& b@.len() <= usize::MAX
            },
            Err(FormatError::EntryTooLong { length }) => {
                &&& length > u32::MAX
                &&& exists|i: int| 0 <= i < lists@.len() && (#[trigger] lists@[i])@.len() == length
            },
            Err(_) => false,
        },
{
    let ghost blobs = blob_views(lists@);
    let n = lists.len();
    let mut out: Vec<u8> = Vec::new();
    let mut k: usize = 0;
    while k < 40
        invariant
            k <= 40,
            out@.len() == k,
        decreases 40 - k,
    {
        out.push(0);
        k = k + 1;
    }
    let ghost room = out@;
    let mut offsets: Vec<u64> = Vec::new();
    let mut i: usize = 0;
    assert(blobs.take(0) =~= Seq::<Seq<u8>>::empty());
    assert(out@ =~= room + concat(blobs.take(0)));
    while i < n
        invariant
            i <= n == lists@.len(),
            room.len() == 40,
            blobs == blob_views(lists@),
            out@ == room + concat(blobs.take(i as int)),
            offsets@.len() == i,
            forall|j: int|
                0 <= j < i ==> #[trigger] offsets@[j] == 40 + concat(blobs.take(j)).len(),
            forall|j: int| 0 <= j < i ==> (#[trigger] blobs[j]).len() <= u32::MAX,
        decreases n - i,
    {
        if lists[i].len() > 0xffff_ffff {
            assert(lists@[i as int]@.len() > u32::MAX);
            return Err(FormatError::EntryTooLong { length: lists[i].len() });
        }
        offsets.push(out.len() as u64);
        push_bytes(&mut out, lists[i].as_slice());
        proof {
            lemma_concat_take(blobs, i as int);
            assert(out@ =~= room + concat(blobs.take(i + 1)));
        }
        i = i + 1;
    }
    assert(blobs.take(n as int) =~= blobs);
    let index_section_offset: u64 = out.len() as u64;
    let ghost body = out@;
    let mut j: usize = 0;
    assert(out@ =~= body + index_bytes(hashes@, blobs, 0));
    while j < n
        invariant
            j <= n == lists@.len() == hashes@.len(),
            n == offsets@.len(),
            blobs == blob_views(lists@),
            out@ == body + index_bytes(hashes@, blobs, j as int),
            forall|m: int|
                0 <= m < n ==> #[trigger] offsets@[m] == 40 + concat(blobs.take(m)).len(),
            forall|m: int| 0 <= m < n ==> (#[trigger] blobs[m]).len() <= u32::MAX,
        decreases n - j,
    {
        assert(blobs[j as int].len() <= u32::MAX);
        let entry = IndexEntry {
            hash: hashes[j],
            offset: offsets[j],
            length: lists[j].len() as u32,
        };
        assert(entry == placed_entry(hashes@, blobs, j as int));
        entry.write(&mut out);
        j = j + 1;
        assert(out@ =~= body + index_bytes(hashes@, blobs, j as int));
    }
    let header = V3Header {
        version: EXACT_IDX_VERSION_V3,
        num_entries: n as u64,
        bitmaps_section_offset: 40,
        index_section_offset,
    };
    assert(header == placed_header(blobs));
    let mut head: Vec<u8> = Vec::new();
    header.write(&mut head);
    let ghost full = out@;
    let total: usize = out.len();
    assert(full.len() == total);
    assert(head@ =~= header_bytes(header));
    let mut p: usize = 0;
    while p < 40
        invariant
            p <= 40,
            head@.len() == 40,
            out@.len() == full.len(),
            full.len() >= 40,
            forall|m: int| 0 <= m < p ==> #[trigger] out@[m] == head@[m],
            forall|m: int| p <= m < full.len() ==> #[trigger] out@[m] == full[m],
        decreases 40 - p,
    {
        out.set(p, head[p]);
        p = p + 1;
    }
    assert(out@ =~= snapshot_bytes(hashes@, blobs));
    Ok(out)
}

/// The hashes of a list of entries.
pub open spec fn entry_hashes(entries: Seq<(u128, Vec<(u64, RowSet)>)>) -> Seq<u128> {
    entries.map_values(|e: (u128, Vec<(u64, RowSet)>)| e.0)
}

/// Whether the bytes are a snapshot of exactly these entries, in their order.
pub open spec fn snapshot_of(b: Seq<u8>, entries: Seq<(u128, Vec<(u64, RowSet)>)>) -> bool {
    &&& snapshot_valid(b)
    &&& entry_count(b) == entries.len()
    &&& forall|i: int|
        0 <= i < entries.len() ==> {
            &&& (#[trigger] nth_entry(b, i)).hash == entries[i].0
            &&& entry_list(b, nth_entry(b, i)) == Some(postings(entries[i].1@))
        }
}

/// Whether a list encodes to this many bytes, which are more than an entry can tell.
pub open spec fn too_long(list: Seq<(u64, Set<u32>)>, length: int) -> bool {
    length > u32::MAX && exists|b: Seq<u8>| #[trigger]
        stored_postings(b) == Some(list) && b.len() == length
}

/// Encodes each list of the entries and lays the file out. The hashes of the
/// entries ascend. It fails only where a list is too long for its entry.
pub fn write_exact_index_v3(entries: &[(u128, Vec<(u64, RowSet)>)]) -> (r: Result<
    Vec<u8>,
    FormatError,
>)
    requires
        keys_ascending(entry_hashes(entries@)),
    ensures
        match r {
            Ok(b) => snapshot_of(b@, entries@) && index_sorted(b@),
            Err(FormatError::EntryTooLong { length }) => exists|i: int|
                0 <= i < entries@.len() && too_long(
                    postings((#[trigger] entries@[i]).1@),
                    length as int,
                ),
            Err(_) => false,
        },
{
    let mut hashes: Vec<u128> = Vec::new();
    let mut lists: Vec<Vec<u8>> = Vec::new();
    let mut i: usize = 0;
    while i < entries.len()
        invariant
            i <= entries@.len(),
            hashes@ == entry_hashes(entries@).take(i as int),
            lists@.len() == i,
            forall|k: int|
                0 <= k < i ==> stored_postings((#[trigger] lists@[k])@) == Some(
                    postings(entries@[k].1@),
                ),
        decreases entries@.len() - i,
    {
        let e = &entries[i];
        match encode_postings(e.1.as_slice()) {
            Ok(blob) => {
                hashes.push(e.0);
                lists.push(blob);
            },
            Err(err) => {
                return Err(FormatError::BincodeError(err));
            },
        }
        i = i + 1;
        assert(hashes@ =~= entry_hashes(entries@).take(i as int));
    }
    assert(hashes@ =~= entry_hashes(entries@));
    let ghost blobs = blob_views(lists@);
    let r = assemble_snapshot(hashes.as_slice(), lists.as_slice());
    proof {
        if let Err(FormatError::EntryTooLong { length }) = &r {
            let k = choose|k: int|
                0 <= k < lists@.len() && (#[trigger] lists@[k])@.len() == *length;
            assert(stored_postings(lists@[k]@) == Some(postings(entries@[k].1@)));
            assert(too_long(postings(entries@[k].1@), *length as int));
        }
        if let Ok(b) = &r {
            law_snapshot_round_trip(hashes@, blobs);
            assert forall|k: int| 0 <= k < entries@.len() implies {
                &&& (#[trigger] nth_entry(b@, k)).hash == entries@[k].0
                &&& entry_list(b@, nth_entry(b@, k)) == Some(postings(entries@[k].1@))
            } by {
                assert(blobs[k] == lists@[k]@);
            }
            assert(index_sorted(b@)) by {
                assert forall|a: int, c: int|
                    #![trigger nth_entry(b@, a), nth_entry(b@, c)]
                    0 <= a < c < entry_count(b@) implies nth_entry(b@, a).hash < nth_entry(
                    b@,
                    c,
                ).hash by {
                    assert(entry_hashes(entries@)[a] < entry_hashes(entries@)[c]);
                }
            }
        }
    }
    r
}

/// Whether the entry is that of a key of the map, with the key's list.
pub open spec fn entry_of_map(
    b: Seq<u8>,
    e: IndexEntry,
    map: Map<u128, Vec<(u64, RowSet)>>,
) -> bool {
    &&& map.contains_key(e.hash)
    &&& entry_list(b, e) == Some(postings(map[e.hash]@))
}

/// Writes the entries of a map, sorted by their hashes.
pub fn write_exact_index_v3_from_hashmap(map: &HashMap<u128, Vec<(u64, RowSet)>>) -> (r: Result<
    Vec<u8>,
    FormatError,
>)
    ensures
        match r {
            Ok(b) => {
                &&& snapshot_valid(b@)
                &&& index_sorted(b@)
                &&& entry_count(b@) == map@.dom().len()
                &&& forall|i: int|
                    0 <= i < entry_count(b@) ==> entry_of_map(
                        b@,
                        #[trigger] nth_entry(b@, i),
                        map@,
                    )
            },
            Err(FormatError::EntryTooLong { length }) => exists|h: u128| #[trigger]
                map@.contains_key(h) && too_long(postings(map@[h]@), length as int),
            Err(_) => false,
        },
{
    let keys = sorted_keys(map);
    let mut entries: Vec<(u128, Vec<(u64, RowSet)>)> = Vec::new();
    let mut i: usize = 0;
    while i < keys.len()
        invariant
            i <= keys@.len(),
            keys@.to_set() == map@.dom(),
            entry_hashes(entries@) == keys@.take(i as int),
            forall|k: int|
                0 <= k < i ==> postings((#[trigger] entries@[k]).1@) == postings(
                    map@[keys@[k]]@,
                ),
        decreases keys@.len() - i,
    {
        let h: u128 = keys[i];
        assert(keys@.to_set().contains(h));
        match map.get(&h) {
            Some(list) => {
                let ghost before = entry_hashes(entries@);
                entries.push((h, clone_postings(list.as_slice())));
                assert(entry_hashes(entries@) =~= before.push(h));
            },
            None => {
                assert(false);
            },
        }
        i = i + 1;
        assert(entry_hashes(entries@) =~= keys@.take(i as int));
        assert(entries@.len() == entry_hashes(entries@).len());
    }
    assert(keys@.take(i as int) =~= keys@);
    assert(entries@.len() == entry_hashes(entries@).len());
    let r = write_exact_index_v3(entries.as_slice());
    proof {
        if let Ok(b) = &r {
            assert forall|k: int| 0 <= k < entry_count(b@) implies entry_of_map(
                b@,
                #[trigger] nth_entry(b@, k),
                map@,
            ) by {
                assert(entry_hashes(entries@)[k] == entries@[k].0);
                assert(entry_hashes(entries@)[k] == keys@[k]);
                assert(keys@.to_set().contains(keys@[k]));
            }
        }
        if let Err(FormatError::EntryTooLong { length }) = &r {
            let k = choose|k: int|
                0 <= k < entries@.len() && too_long(
                    postings((#[trigger] entries@[k]).1@),
                    *length as int,
                );
            assert(keys@.to_set().contains(keys@[k]));
            assert(map@.contains_key(keys@[k]));
        }
    }
    r
}

} // verus!
