//! Decoding of older files, whose payload is one encoded map.

use crate::postings::postings;
use crate::rowset::{bitmap_values, RowSet};
use crate::textmap::TextMap;
use roaring::RoaringBitmap;
use std::collections::HashMap;
use vstd::prelude::*;

verus! {

/// What `bincode::deserialize` reads out of bytes as a map from hashes to lists,
/// each bitmap given by the values that it lists; nothing where it fails.
pub uninterp spec fn decoded_index_v2(bytes: Seq<u8>) -> Option<Map<u128, Seq<(u64, Seq<u32>)>>>;

/// What `bincode::deserialize` reads out of bytes as a map from values to lists,
/// each bitmap given by the values that it lists; nothing where it fails.
pub uninterp spec fn decoded_index_v1(bytes: Seq<u8>) -> Option<
    Map<Seq<char>, Seq<(u64, Seq<u32>)>>,
>;

/// The plain values of a list.
pub open spec fn plain_list(v: Seq<(u64, Vec<u32>)>) -> Seq<(u64, Seq<u32>)> {
    v.map_values(|p: (u64, Vec<u32>)| (p.0, p.1@))
}

/// The list with each bitmap as a set of rows.
pub open spec fn row_list(v: Seq<(u64, Seq<u32>)>) -> Seq<(u64, Set<u32>)> {
    v.map_values(|p: (u64, Seq<u32>)| (p.0, p.1.to_set()))
}

/// `bincode::deserialize`, for a map from hashes to lists. The pairs come in no
/// particular order, each hash once.
#[verifier::external_body]
fn deserialize_index_v2(bytes: &[u8]) -> (r: Result<
    Vec<(u128, Vec<(u64, Vec<u32>)>)>,
    Box<bincode::ErrorKind>,
>)
    ensures
        match r {
            Ok(v) => {
                &&& decoded_index_v2(bytes@) is Some
                &&& forall|i: int|
                    #![trigger v@[i]]
                    0 <= i < v@.len() ==> decoded_index_v2(bytes@)->0.contains_pair(
                        v@[i].0,
                        plain_list(v@[i].1@),
                    )
                &&& forall|h: u128| #[trigger]
                    decoded_index_v2(bytes@)->0.contains_key(h) ==> exists|i: int|
                        0 <= i < v@.len() && (#[trigger] v@[i]).0 == h
                &&& forall|i: int, j: int|
                    #![trigger v@[i], v@[j]]
                    0 <= i < j < v@.len() ==> v@[i].0 != v@[j].0
            },
            Err(_) => decoded_index_v2(bytes@) is None,
        },
{
    let map: HashMap<u128, Vec<(u64, RoaringBitmap)>> = bincode::deserialize(bytes)?;
    Ok(
        map.into_iter().map(
            |(h, list)| (h, list.into_iter().map(|(id, b)| (id, b.iter().collect())).collect()),
        ).collect(),
    )
}

/// `bincode::deserialize`, for a map from values to lists. The pairs come in no
/// particular order, each value once.
#[verifier::external_body]
fn deserialize_index_v1(bytes: &[u8]) -> (r: Result<
    Vec<(String, Vec<(u64, Vec<u32>)>)>,
    Box<bincode::ErrorKind>,
>)
    ensures
        match r {
            Ok(v) => {
                &&& decoded_index_v1(bytes@) is Some
                &&& forall|i: int|
                    #![trigger v@[i]]
                    0 <= i < v@.len() ==> decoded_index_v1(bytes@)->0.contains_pair(
                        v@[i].0@,
                        plain_list(v@[i].1@),
                    )
                &&& forall|k: Seq<char>| #[trigger]
                    decoded_index_v1(bytes@)->0.contains_key(k) ==> exists|i: int|
                        0 <= i < v@.len() && (#[trigger] v@[i]).0@ == k
                &&& forall|i: int, j: int|
                    #![trigger v@[i], v@[j]]
                    0 <= i < j < v@.len() ==> v@[i].0@ != v@[j].0@
            },
            Err(_) => decoded_index_v1(bytes@) is None,
        },
{
    let map: HashMap<String, Vec<(u64, RoaringBitmap)>> = bincode::deserialize(bytes)?;
    Ok(
        map.into_iter().map(
            |(k, list)| (k, list.into_iter().map(|(id, b)| (id, b.iter().collect())).collect()),
        ).collect(),
    )
}

/// `bincode::serialize`, for a map from hashes to lists: decoding the bytes gives
/// each hash with its list, and of each bitmap its values in ascending order.
/// It writes into memory without a limit on the size, which does not fail.
#[verifier::external_body]
fn serialize_index_v2(entries: Vec<(u128, Vec<(u64, &RoaringBitmap)>)>) -> (r: Result<
    Vec<u8>,
    Box<bincode::ErrorKind>,
>)
    requires
        forall|i: int, j: int|
            #![trigger entries@[i], entries@[j]]
            0 <= i < j < entries@.len() ==> entries@[i].0 != entries@[j].0,
    ensures
        r is Ok,
        r matches Ok(bytes) ==> {
            &&& decoded_index_v2(bytes@) is Some
            &&& forall|h: u128| #[trigger]
                decoded_index_v2(bytes@)->0.contains_key(h) <==> exists|i: int|
                    0 <= i < entries@.len() && (#[trigger] entries@[i]).0 == h
            &&& forall|i: int|
                #![trigger entries@[i]]
                0 <= i < entries@.len() ==> row_list(decoded_index_v2(bytes@)->0[entries@[i].0])
                    == bitmap_list(entries@[i].1@)
        },
{
    let map: HashMap<u128, Vec<(u64, &RoaringBitmap)>> = entries.into_iter().collect();
    bincode::serialize(&map)
}

/// `bincode::serialize`, for a map from values to lists: decoding the bytes gives
/// each value with its list, and of each bitmap its values in ascending order.
/// It writes into memory without a limit on the size, which does not fail.
#[verifier::external_body]
fn serialize_index_v1(entries: Vec<(&str, Vec<(u64, &RoaringBitmap)>)>) -> (r: Result<
    Vec<u8>,
    Box<bincode::ErrorKind>,
>)
    requires
        forall|i: int, j: int|
            #![trigger entries@[i], entries@[j]]
            0 <= i < j < entries@.len() ==> entries@[i].0@ != entries@[j].0@,
    ensures
        r is Ok,
        r matches Ok(bytes) ==> {
            &&& decoded_index_v1(bytes@) is Some
            &&& forall|k: Seq<char>| #[trigger]
                decoded_index_v1(bytes@)->0.contains_key(k) <==> exists|i: int|
                    0 <= i < entries@.len() && (#[trigger] entries@[i]).0@ == k
            &&& forall|i: int|
                #![trigger entries@[i]]
                0 <= i < entries@.len() ==> row_list(decoded_index_v1(bytes@)->0[entries@[i].0@])
                    == bitmap_list(entries@[i].1@)
        },
{
    let map: HashMap<&str, Vec<(u64, &RoaringBitmap)>> = entries.into_iter().collect();
    bincode::serialize(&map)
}

/// The list with the values of each bitmap as a set of rows.
pub open spec fn bitmap_list(v: Seq<(u64, &RoaringBitmap)>) -> Seq<(u64, Set<u32>)> {
    v.map_values(|p: (u64, &RoaringBitmap)| (p.0, bitmap_values(*p.1)))
}

/// Encodes entries, whose hashes are all different, as the payload of a version
/// 2 file: what is decoded from the bytes is the entries.
pub(crate) fn encode_index_v2(entries: &[(u128, Vec<(u64, RowSet)>)]) -> (r: Result<
    Vec<u8>,
    Box<bincode::ErrorKind>,
>)
    requires
        forall|i: int, j: int|
            #![trigger entries@[i], entries@[j]]
            0 <= i < j < entries@.len() ==> entries@[i].0 != entries@[j].0,
    ensures
        r is Ok,
        r matches Ok(bytes) ==> {
            &&& decoded_index_v2(bytes@) is Some
            &&& forall|h: u128| #[trigger]
                decoded_index_v2(bytes@)->0.contains_key(h) <==> exists|i: int|
                    0 <= i < entries@.len() && (#[trigger] entries@[i]).0 == h
            &&& forall|i: int|
                #![trigger entries@[i]]
                0 <= i < entries@.len() ==> row_list(decoded_index_v2(bytes@)->0[entries@[i].0])
                    == postings(entries@[i].1@)
        },
{
    let mut parts: Vec<(u128, Vec<(u64, &RoaringBitmap)>)> = Vec::new();
    let mut i: usize = 0;
    while i < entries.len()
        invariant
            i <= entries@.len(),
            parts@.len() == i,
            forall|k: int|
                #![trigger parts@[k]]
                0 <= k < i ==> parts@[k].0 == entries@[k].0 && bitmap_list(parts@[k].1@)
                    == postings(entries@[k].1@),
        decreases entries@.len() - i,
    {
        let e = &entries[i];
        let list = bitmaps_of(e.1.as_slice());
        parts.push((e.0, list));
        i = i + 1;
    }
    let ghost view = parts@;
    proof {
        assert forall|a: int, b: int|
            #![trigger view[a], view[b]]
            0 <= a < b < view.len() implies view[a].0 != view[b].0 by {
            assert(entries@[a].0 != entries@[b].0);
        }
    }
    let r = serialize_index_v2(parts);
    proof {
        if r is Ok {
            let m = decoded_index_v2(r->Ok_0@)->0;
            assert forall|h: u128| #[trigger] m.contains_key(h) <==> exists|k: int|
                0 <= k < entries@.len() && (#[trigger] entries@[k]).0 == h by {
                if m.contains_key(h) {
                    let k = choose|k: int| 0 <= k < view.len() && (#[trigger] view[k]).0 == h;
                    assert(entries@[k].0 == h);
                }
                if exists|k: int| 0 <= k < entries@.len() && (#[trigger] entries@[k]).0 == h {
                    let k = choose|k: int|
                        0 <= k < entries@.len() && (#[trigger] entries@[k]).0 == h;
                    assert(view[k].0 == h);
                }
            }
            assert forall|k: int|
                #![trigger entries@[k]]
                0 <= k < entries@.len() implies row_list(m[entries@[k].0]) == postings(
                entries@[k].1@,
            ) by {
                assert(view[k].0 == entries@[k].0);
            }
        }
    }
    r
}

fn bitmaps_of(list: &[(u64, RowSet)]) -> (r: Vec<(u64, &RoaringBitmap)>)
    ensures
        bitmap_list(r@) == postings(list@),
{
    let mut out: Vec<(u64, &RoaringBitmap)> = Vec::new();
    let mut j: usize = 0;
    while j < list.len()
        invariant
            j <= list@.len(),
            bitmap_list(out@) == postings(list@).take(j as int),
        decreases list@.len() - j,
    {
        let p = &list[j];
        let ghost before = bitmap_list(out@);
        out.push((p.0, p.1.bitmap()));
        j = j + 1;
        assert(bitmap_list(out@) =~= before.push(postings(list@)[j - 1]));
        assert(bitmap_list(out@) =~= postings(list@).take(j as int));
    }
    assert(postings(list@).take(j as int) =~= postings(list@));
    out
}

/// The lists of a map from values, each bitmap as a set of rows.
pub open spec fn rows_of_values(m: Map<Seq<char>, Seq<(u64, Seq<u32>)>>) -> Map<
    Seq<char>,
    Seq<(u64, Set<u32>)>,
> {
    m.map_values(|l: Seq<(u64, Seq<u32>)>| row_list(l))
}

/// Encodes a map from values to lists: what is decoded from the bytes is the map.
pub(crate) fn encode_index_v1(lists: &TextMap<Vec<(u64, RowSet)>>) -> (r: Result<
    Vec<u8>,
    Box<bincode::ErrorKind>,
>)
    ensures
        r is Ok,
        r matches Ok(bytes) ==> {
            &&& decoded_index_v1(bytes@) is Some
            &&& rows_of_values(decoded_index_v1(bytes@)->0) == lists@.map_values(
                |l: Vec<(u64, RowSet)>| postings(l@),
            )
        },
{
    let mut parts: Vec<(&str, Vec<(u64, &RoaringBitmap)>)> = Vec::new();
    let n = lists.len();
    let mut i: usize = 0;
    while i < n
        invariant
            i <= n == lists.keys().len(),
            parts@.len() == i,
            forall|k: int|
                #![trigger parts@[k]]
                0 <= k < i ==> parts@[k].0@ == lists.keys()[k] && bitmap_list(parts@[k].1@)
                    == postings(lists@[lists.keys()[k]]@),
        decreases n - i,
    {
        parts.push((lists.key_at(i), bitmaps_of(lists.value_at(i).as_slice())));
        i = i + 1;
    }
    let ghost view = parts@;
    let ghost keys = lists.keys();
    proof {
        assert forall|a: int, b: int|
            #![trigger view[a], view[b]]
            0 <= a < b < view.len() implies view[a].0@ != view[b].0@ by {
            assert(keys[a] != keys[b]);
        }
    }
    let r = serialize_index_v1(parts);
    proof {
        if r is Ok {
            let m = decoded_index_v1(r->Ok_0@)->0;
            let want = lists@.map_values(|l: Vec<(u64, RowSet)>| postings(l@));
            assert forall|k: Seq<char>| m.contains_key(k) == #[trigger] want.contains_key(k) by {
                if m.contains_key(k) {
                    let i = choose|i: int| 0 <= i < view.len() && (#[trigger] view[i]).0@ == k;
                    assert(keys[i] == k);
                    assert(keys.to_set().contains(k));
                }
                if want.contains_key(k) {
                    assert(keys.to_set().contains(k));
                    let i = choose|i: int| 0 <= i < keys.len() && keys[i] == k;
                    assert(view[i].0@ == k);
                }
            }
            assert forall|k: Seq<char>| #[trigger] want.contains_key(k) implies rows_of_values(m)[k]
                == want[k] by {
                assert(keys.to_set().contains(k));
                let i = choose|i: int| 0 <= i < keys.len() && keys[i] == k;
                assert(view[i].0@ == k);
            }
            assert(rows_of_values(m) =~= want);
        }
    }
    r
}

fn to_rows(raw: &[(u64, Vec<u32>)]) -> (r: Vec<(u64, RowSet)>)
    ensures
        postings(r@) == row_list(plain_list(raw@)),
{
    let ghost want = row_list(plain_list(raw@));
    let mut out: Vec<(u64, RowSet)> = Vec::new();
    let mut i: usize = 0;
    while i < raw.len()
        invariant
            i <= raw@.len(),
            want == row_list(plain_list(raw@)),
            postings(out@) == want.take(i as int),
        decreases raw@.len() - i,
    {
        let p = &raw[i];
        let rows = RowSet::from_ids(p.1.as_slice());
        let ghost before = postings(out@);
        out.push((p.0, rows));
        i = i + 1;
        assert(postings(out@) =~= before.push(want[i - 1]));
        assert(postings(out@) =~= want.take(i as int));
    }
    assert(want.take(i as int) =~= want);
    out
}

/// Whether the pairs are those of the map, each key once.
pub open spec fn lists_of_map(
    v: Seq<(u128, Vec<(u64, RowSet)>)>,
    m: Map<u128, Seq<(u64, Seq<u32>)>>,
) -> bool {
    &&& forall|i: int|
        #![trigger v[i]]
        0 <= i < v.len() ==> m.contains_key(v[i].0) && postings(v[i].1@) == row_list(m[v[i].0])
    &&& forall|h: u128| #[trigger]
        m.contains_key(h) ==> exists|i: int| 0 <= i < v.len() && (#[trigger] v[i]).0 == h
    &&& forall|i: int, j: int|
        #![trigger v[i], v[j]]
        0 <= i < j < v.len() ==> v[i].0 != v[j].0
}

/// Whether the pairs are those of the map, each value once.
pub open spec fn lists_of_values(
    v: Seq<(String, Vec<(u64, RowSet)>)>,
    m: Map<Seq<char>, Seq<(u64, Seq<u32>)>>,
) -> bool {
    &&& forall|i: int|
        #![trigger v[i]]
        0 <= i < v.len() ==> m.contains_key(v[i].0@) && postings(v[i].1@) == row_list(m[v[i].0@])
    &&& forall|k: Seq<char>| #[trigger]
        m.contains_key(k) ==> exists|i: int| 0 <= i < v.len() && (#[trigger] v[i]).0@ == k
    &&& forall|i: int, j: int|
        #![trigger v[i], v[j]]
        0 <= i < j < v.len() ==> v[i].0@ != v[j].0@
}

/// Decodes the payload of a version 2 file.
pub(crate) fn decode_index_v2(bytes: &[u8]) -> (r: Result<
    Vec<(u128, Vec<(u64, RowSet)>)>,
    Box<bincode::ErrorKind>,
>)
    ensures
        match r {
            Ok(v) => decoded_index_v2(bytes@) is Some && lists_of_map(
                v@,
                decoded_index_v2(bytes@)->0,
            ),
            Err(_) => decoded_index_v2(bytes@) is None,
        },
{
    match deserialize_index_v2(bytes) {
        Err(e) => Err(e),
        Ok(raw) => {
            let mut out: Vec<(u128, Vec<(u64, RowSet)>)> = Vec::new();
            let mut i: usize = 0;
            while i < raw.len()
                invariant
                    i <= raw@.len(),
                    out@.len() == i,
                    forall|k: int|
                        #![trigger out@[k]]
                        0 <= k < i ==> out@[k].0 == raw@[k].0 && postings(out@[k].1@) == row_list(
                            plain_list(raw@[k].1@),
                        ),
                decreases raw@.len() - i,
            {
                let p = &raw[i];
                out.push((p.0, to_rows(p.1.as_slice())));
                i = i + 1;
            }
            proof {
                let m = decoded_index_v2(bytes@)->0;
                assert forall|k: int|
                    #![trigger out@[k]]
                    0 <= k < out@.len() implies m.contains_key(out@[k].0) && postings(out@[k].1@)
                    == row_list(m[out@[k].0]) by {
                    assert(m.contains_pair(raw@[k].0, plain_list(raw@[k].1@)));
                }
                assert forall|h: u128| #[trigger] m.contains_key(h) implies exists|k: int|
                    0 <= k < out@.len() && (#[trigger] out@[k]).0 == h by {
                    let k = choose|k: int| 0 <= k < raw@.len() && (#[trigger] raw@[k]).0 == h;
                    assert(out@[k].0 == h);
                }
                assert forall|a: int, b: int|
                    #![trigger out@[a], out@[b]]
                    0 <= a < b < out@.len() implies out@[a].0 != out@[b].0 by {
                    assert(raw@[a].0 != raw@[b].0);
                }
            }
            Ok(out)
        },
    }
}

/// Decodes the payload of a version 1 file, or a file without a header.
pub(crate) fn decode_index_v1(bytes: &[u8]) -> (r: Result<
    Vec<(String, Vec<(u64, RowSet)>)>,
    Box<bincode::ErrorKind>,
>)
    ensures
        match r {
            Ok(v) => decoded_index_v1(bytes@) is Some && lists_of_values(
                v@,
                decoded_index_v1(bytes@)->0,
            ),
            Err(_) => decoded_index_v1(bytes@) is None,
        },
{
    match deserialize_index_v1(bytes) {
        Err(e) => Err(e),
        Ok(raw) => {
            let mut out: Vec<(String, Vec<(u64, RowSet)>)> = Vec::new();
            let mut i: usize = 0;
            while i < raw.len()
                invariant
                    i <= raw@.len(),
                    out@.len() == i,
                    forall|k: int|
                        #![trigger out@[k]]
                        0 <= k < i ==> out@[k].0@ == raw@[k].0@ && postings(out@[k].1@) == row_list(
                            plain_list(raw@[k].1@),
                        ),
                decreases raw@.len() - i,
            {
                let p = &raw[i];
                out.push((p.0.clone(), to_rows(p.1.as_slice())));
                i = i + 1;
            }
            proof {
                let m = decoded_index_v1(bytes@)->0;
                assert forall|k: int|
                    #![trigger out@[k]]
                    0 <= k < out@.len() implies m.contains_key(out@[k].0@) && postings(out@[k].1@)
                    == row_list(m[out@[k].0@]) by {
                    assert(m.contains_pair(raw@[k].0@, plain_list(raw@[k].1@)));
                }
                assert forall|h: Seq<char>| #[trigger] m.contains_key(h) implies exists|k: int|
                    0 <= k < out@.len() && (#[trigger] out@[k]).0@ == h by {
                    let k = choose|k: int| 0 <= k < raw@.len() && (#[trigger] raw@[k]).0@ == h;
                    assert(out@[k].0@ == h);
                }
                assert forall|a: int, b: int|
                    #![trigger out@[a], out@[b]]
                    0 <= a < b < out@.len() implies out@[a].0@ != out@[b].0@ by {
                    assert(raw@[a].0@ != raw@[b].0@);
                }
            }
            Ok(out)
        },
    }
}

} // verus!
