//! The files of a segment: the index of a field, the deleted rows and the bounds
//! of the columns.

use crate::manifest::Bounds;
use crate::rowset::{bitmap_values, RowSet};
use crate::segment::{index_view, Posting};
use crate::textmap::TextMap;
use crate::types::ScalarView;
use roaring::RoaringBitmap;
use std::collections::HashMap;
use vstd::prelude::*;

verus! {

/// What `bincode::deserialize` reads out of bytes as a map from values to
/// bitmaps, each given by the values that it lists; nothing where it fails.
pub uninterp spec fn decoded_bitmaps(bytes: Seq<u8>) -> Option<Map<Seq<char>, Seq<u32>>>;

/// What `RoaringBitmap::deserialize_from` reads out of bytes, given by the values
/// that it lists; nothing where it fails.
pub uninterp spec fn decoded_rows(bytes: Seq<u8>) -> Option<Seq<u32>>;

/// What `serde_json::from_slice` reads out of bytes as a map from texts to pairs
/// of texts; nothing where it fails.
pub uninterp spec fn decoded_bounds(bytes: Seq<u8>) -> Option<
    Map<Seq<char>, (Seq<char>, Seq<char>)>,
>;

/// `bincode::deserialize`, for a map from values to bitmaps. The pairs come in no
/// particular order, each value once.
#[verifier::external_body]
fn deserialize_bitmaps(bytes: &[u8]) -> (r: Result<
    Vec<(String, Vec<u32>)>,
    Box<bincode::ErrorKind>,
>)
    ensures
        match r {
            Ok(v) => {
                &&& decoded_bitmaps(bytes@) is Some
                &&& forall|i: int|
                    #![trigger v@[i]]
                    0 <= i < v@.len() ==> decoded_bitmaps(bytes@)->0.contains_pair(
                        v@[i].0@,
                        v@[i].1@,
                    )
                &&& forall|k: Seq<char>| #[trigger]
                    decoded_bitmaps(bytes@)->0.contains_key(k) ==> exists|i: int|
                        0 <= i < v@.len() && (#[trigger] v@[i]).0@ == k
            },
            Err(_) => decoded_bitmaps(bytes@) is None,
        },
{
    let map: HashMap<String, RoaringBitmap> = bincode::deserialize(bytes)?;
    Ok(map.into_iter().map(|(k, b)| (k, b.iter().collect())).collect())
}

/// `bincode::serialize`, for a map from values to bitmaps: decoding the bytes gives
/// each value with the values of its bitmap.
/// It writes into memory without a limit on the size, which does not fail.
#[verifier::external_body]
fn serialize_bitmaps(entries: Vec<(&str, &RoaringBitmap)>) -> (r: Result<
    Vec<u8>,
    Box<bincode::ErrorKind>,
>)
    requires
        forall|i: int, j: int|
            #![trigger entries@[i], entries@[j]]
            0 <= i < j < entries@.len() ==> entries@[i].0@ != entries@[j].0@,
    ensures
        r is Ok,
        r matches Ok(bytes) ==> {
            &&& decoded_bitmaps(bytes@) is Some
            &&& forall|k: Seq<char>| #[trigger]
                decoded_bitmaps(bytes@)->0.contains_key(k) <==> exists|i: int|
                    0 <= i < entries@.len() && (#[trigger] entries@[i]).0@ == k
            &&& forall|i: int|
                #![trigger entries@[i]]
                0 <= i < entries@.len() ==> decoded_bitmaps(
                    bytes@,
                )->0[entries@[i].0@].to_set() == bitmap_values(*entries@[i].1)
        },
{
    let map: HashMap<&str, &RoaringBitmap> = entries.into_iter().collect();
    bincode::serialize(&map)
}

/// `RoaringBitmap::deserialize_from`, on bytes: the values of the bitmap as it
/// lists them.
#[verifier::external_body]
fn deserialize_rows(bytes: &[u8]) -> (r: Option<Vec<u32>>)
    ensures
        match r {
            Some(v) => decoded_rows(bytes@) == Some(v@),
            None => decoded_rows(bytes@) is None,
        },
{
    RoaringBitmap::deserialize_from(bytes).ok().map(|b| b.iter().collect())
}

/// `RoaringBitmap::serialize_into`, into bytes: reading them gives the values of the
/// bitmap.
/// It writes into memory without a limit on the size, which does not fail.
#[verifier::external_body]
fn serialize_rows(bitmap: &RoaringBitmap) -> (r: Option<Vec<u8>>)
    ensures
        r is Some,
        r matches Some(bytes) ==> decoded_rows(bytes@) is Some && decoded_rows(bytes@)->0.to_set()
            == bitmap_values(*bitmap),
{
    let mut bytes: Vec<u8> = Vec::new();
    bitmap.serialize_into(&mut bytes).ok().map(|_| bytes)
}

/// `serde_json::from_slice`, for a map from texts to pairs of texts. The entries
/// come in no particular order, each key once.
#[verifier::external_body]
fn deserialize_bounds(bytes: &[u8]) -> (r: Option<Vec<(String, (String, String))>>)
    ensures
        match r {
            Some(v) => {
                &&& decoded_bounds(bytes@) is Some
                &&& forall|i: int|
                    #![trigger v@[i]]
                    0 <= i < v@.len() ==> decoded_bounds(bytes@)->0.contains_pair(
                        v@[i].0@,
                        (v@[i].1.0@, v@[i].1.1@),
                    )
                &&& forall|k: Seq<char>| #[trigger]
                    decoded_bounds(bytes@)->0.contains_key(k) ==> exists|i: int|
                        0 <= i < v@.len() && (#[trigger] v@[i]).0@ == k
            },
            None => decoded_bounds(bytes@) is None,
        },
{
    let map: Option<HashMap<String, (String, String)>> = serde_json::from_slice(bytes).ok();
    map.map(|m| m.into_iter().collect())
}

/// `serde_json::to_vec`, for a map from texts to pairs of texts: reading the bytes
/// gives each key with its pair.
/// It fails only where a key is no text or a value refuses to be written, and here
/// neither is so.
#[verifier::external_body]
fn serialize_bounds(entries: Vec<(&str, (&str, &str))>) -> (r: Option<Vec<u8>>)
    requires
        forall|i: int, j: int|
            #![trigger entries@[i], entries@[j]]
            0 <= i < j < entries@.len() ==> entries@[i].0@ != entries@[j].0@,
    ensures
        r is Some,
        r matches Some(bytes) ==> {
            &&& decoded_bounds(bytes@) is Some
            &&& forall|k: Seq<char>| #[trigger]
                decoded_bounds(bytes@)->0.contains_key(k) <==> exists|i: int|
                    0 <= i < entries@.len() && (#[trigger] entries@[i]).0@ == k
            &&& forall|i: int|
                #![trigger entries@[i]]
                0 <= i < entries@.len() ==> decoded_bounds(bytes@)->0[entries@[i].0@] == (
                    entries@[i].1.0@,
                    entries@[i].1.1@,
                )
        },
{
    let map: HashMap<&str, (&str, &str)> = entries.into_iter().collect();
    serde_json::to_vec(&map).ok()
}

/// The rows of each value that a file lists.
pub open spec fn stored_bitmaps(bytes: Seq<u8>) -> Option<Map<Seq<char>, Set<u32>>> {
    match decoded_bitmaps(bytes) {
        Some(m) => Some(m.map_values(|l: Seq<u32>| l.to_set())),
        None => None,
    }
}

/// The rows of each value.
pub open spec fn rows_map(m: Map<Seq<char>, RowSet>) -> Map<Seq<char>, Set<u32>> {
    m.map_values(|r: RowSet| r@)
}

/// The rows of each value of an index.
pub open spec fn index_rows(ix: Map<Seq<char>, (ScalarView, Set<u32>)>) -> Map<
    Seq<char>,
    Set<u32>,
> {
    ix.map_values(|p: (ScalarView, Set<u32>)| p.1)
}

/// Reads the index of a field out of the bytes of its file.
pub fn decode_index(bytes: &[u8]) -> (r: Result<TextMap<RowSet>, Box<bincode::ErrorKind>>)
    ensures
        match r {
            Ok(m) => stored_bitmaps(bytes@) == Some(rows_map(m@)),
            Err(_) => stored_bitmaps(bytes@) is None,
        },
{
    match deserialize_bitmaps(bytes) {
        Err(e) => Err(e),
        Ok(pairs) => {
            let ghost m = decoded_bitmaps(bytes@)->0;
            let mut out: TextMap<RowSet> = TextMap::new();
            let mut i: usize = 0;
            while i < pairs.len()
                invariant
                    i <= pairs@.len(),
                    forall|k: int|
                        #![trigger pairs@[k]]
                        0 <= k < pairs@.len() ==> m.contains_pair(pairs@[k].0@, pairs@[k].1@),
                    forall|k: int|
                        #![trigger pairs@[k]]
                        0 <= k < i ==> out@.contains_key(pairs@[k].0@),
                    forall|k: Seq<char>| #[trigger]
                        out@.contains_key(k) ==> m.contains_key(k) && out@[k]@ == m[k].to_set(),
                decreases pairs@.len() - i,
            {
                let p = &pairs[i];
                assert(m.contains_pair(pairs@[i as int].0@, pairs@[i as int].1@));
                out.insert(p.0.as_str(), RowSet::from_ids(p.1.as_slice()));
                i = i + 1;
            }
            assert forall|k: Seq<char>| #[trigger] m.contains_key(k) implies out@.contains_key(k) by {
                let j = choose|j: int| 0 <= j < pairs@.len() && (#[trigger] pairs@[j]).0@ == k;
                assert(out@.contains_key(pairs@[j].0@));
            }
            assert(rows_map(out@) =~= m.map_values(|l: Seq<u32>| l.to_set()));
            Ok(out)
        },
    }
}

/// The bytes of the file of a field's index: reading them gives the rows of each
/// value.
pub fn encode_index(ix: &TextMap<Posting>) -> (r: Result<Vec<u8>, Box<bincode::ErrorKind>>)
    ensures
        r is Ok,
        r matches Ok(bytes) ==> stored_bitmaps(bytes@) == Some(index_rows(index_view(ix@))),
{
    let mut entries: Vec<(&str, &RoaringBitmap)> = Vec::new();
    let n = ix.len();
    let ghost keys = ix.keys();
    let mut i: usize = 0;
    while i < n
        invariant
            i <= n == keys.len(),
            keys == ix.keys(),
            entries@.len() == i,
            forall|k: int|
                #![trigger entries@[k]]
                0 <= k < i ==> entries@[k].0@ == keys[k] && bitmap_values(*entries@[k].1)
                    == ix@[keys[k]].rows@,
        decreases n - i,
    {
        entries.push((ix.key_at(i), ix.value_at(i).rows.bitmap()));
        i = i + 1;
    }
    let ghost view = entries@;
    proof {
        lemma_distinct(view, keys);
    }
    let r = serialize_bitmaps(entries);
    proof {
        if r is Ok {
            assert(keys.to_set() =~= index_rows(index_view(ix@)).dom());
            lemma_encoded(r->Ok_0@, view, keys, index_rows(index_view(ix@)));
        }
    }
    r
}

proof fn lemma_distinct(view: Seq<(&str, &RoaringBitmap)>, keys: Seq<Seq<char>>)
    requires
        keys.no_duplicates(),
        view.len() == keys.len(),
        forall|k: int| #![trigger view[k]] 0 <= k < keys.len() ==> view[k].0@ == keys[k],
    ensures
        forall|a: int, b: int|
            #![trigger view[a], view[b]]
            0 <= a < b < view.len() ==> view[a].0@ != view[b].0@,
{
    assert forall|a: int, b: int|
        #![trigger view[a], view[b]]
        0 <= a < b < view.len() implies view[a].0@ != view[b].0@ by {
        assert(keys[a] != keys[b]);
    }
}

proof fn lemma_encoded(
    bytes: Seq<u8>,
    view: Seq<(&str, &RoaringBitmap)>,
    keys: Seq<Seq<char>>,
    want: Map<Seq<char>, Set<u32>>,
)
    requires
        decoded_bitmaps(bytes) is Some,
        keys.to_set() == want.dom(),
        view.len() == keys.len(),
        forall|k: int|
            #![trigger view[k]]
            0 <= k < keys.len() ==> view[k].0@ == keys[k] && bitmap_values(*view[k].1)
                == want[keys[k]],
        forall|k: Seq<char>| #[trigger]
            decoded_bitmaps(bytes)->0.contains_key(k) <==> exists|i: int|
                0 <= i < view.len() && (#[trigger] view[i]).0@ == k,
        forall|i: int|
            #![trigger view[i]]
            0 <= i < view.len() ==> decoded_bitmaps(bytes)->0[view[i].0@].to_set() == bitmap_values(
                *view[i].1,
            ),
    ensures
        stored_bitmaps(bytes) == Some(want),
{
    let m = decoded_bitmaps(bytes)->0;
    let got = m.map_values(|l: Seq<u32>| l.to_set());
    assert forall|k: Seq<char>| got.contains_key(k) == #[trigger] want.contains_key(k) by {
        if m.contains_key(k) {
            let j = choose|j: int| 0 <= j < view.len() && (#[trigger] view[j]).0@ == k;
            assert(keys[j] == k);
            assert(keys.to_set().contains(k));
        }
        if want.contains_key(k) {
            assert(keys.to_set().contains(k));
            let j = choose|j: int| 0 <= j < keys.len() && keys[j] == k;
            assert(view[j].0@ == k);
        }
    }
    assert forall|k: Seq<char>| #[trigger] want.contains_key(k) implies got[k] == want[k] by {
        assert(keys.to_set().contains(k));
        let j = choose|j: int| 0 <= j < keys.len() && keys[j] == k;
        assert(view[j].0@ == k);
    }
    assert(got =~= want);
}

/// The bytes of the file of the rows of each value: reading them gives the rows.
pub fn encode_rows(m: &TextMap<RowSet>) -> (r: Result<Vec<u8>, Box<bincode::ErrorKind>>)
    ensures
        r is Ok,
        r matches Ok(bytes) ==> stored_bitmaps(bytes@) == Some(rows_map(m@)),
{
    let mut entries: Vec<(&str, &RoaringBitmap)> = Vec::new();
    let n = m.len();
    let ghost keys = m.keys();
    let mut i: usize = 0;
    while i < n
        invariant
            i <= n == keys.len(),
            keys == m.keys(),
            entries@.len() == i,
            forall|k: int|
                #![trigger entries@[k]]
                0 <= k < i ==> entries@[k].0@ == keys[k] && bitmap_values(*entries@[k].1)
                    == m@[keys[k]]@,
        decreases n - i,
    {
        entries.push((m.key_at(i), m.value_at(i).bitmap()));
        i = i + 1;
    }
    let ghost view = entries@;
    proof {
        lemma_distinct(view, keys);
    }
    let r = serialize_bitmaps(entries);
    proof {
        if r is Ok {
            assert forall|k: int| #![trigger view[k]] 0 <= k < keys.len() implies bitmap_values(
                *view[k].1,
            ) == rows_map(m@)[keys[k]] by {
                assert(keys.to_set().contains(keys[k]));
            }
            assert(keys.to_set() =~= rows_map(m@).dom());
            lemma_encoded(r->Ok_0@, view, keys, rows_map(m@));
        }
    }
    r
}

/// Reads the deleted rows out of the bytes of their file.
pub fn decode_deleted(bytes: &[u8]) -> (r: Option<RowSet>)
    ensures
        match r {
            Some(s) => decoded_rows(bytes@) is Some && s@ == decoded_rows(bytes@)->0.to_set(),
            None => decoded_rows(bytes@) is None,
        },
{
    match deserialize_rows(bytes) {
        Some(v) => Some(RowSet::from_ids(v.as_slice())),
        None => None,
    }
}

/// The bytes of the file of deleted rows: reading them gives the rows.
pub fn encode_deleted(rows: &RowSet) -> (r: Option<Vec<u8>>)
    ensures
        r is Some,
        r matches Some(bytes) ==> decoded_rows(bytes@) is Some && decoded_rows(bytes@)->0.to_set()
            == rows@,
{
    serialize_rows(rows.bitmap())
}

/// The texts of each pair.
pub open spec fn pairs_map(m: Map<Seq<char>, (String, String)>) -> Map<
    Seq<char>,
    (Seq<char>, Seq<char>),
> {
    m.map_values(|p: (String, String)| (p.0@, p.1@))
}

/// The texts of the bounds of each column.
pub open spec fn bound_texts(m: Map<Seq<char>, Bounds>) -> Map<Seq<char>, (Seq<char>, Seq<char>)> {
    m.map_values(|b: Bounds| (b.min.text@, b.max.text@))
}

/// Reads the bounds of the columns out of the bytes of their file; none where they
/// cannot be read.
pub fn decode_bounds(bytes: &[u8]) -> (r: TextMap<(String, String)>)
    ensures
        pairs_map(r@) == match decoded_bounds(bytes@) {
            Some(m) => m,
            None => Map::empty(),
        },
{
    let mut out: TextMap<(String, String)> = TextMap::new();
    match deserialize_bounds(bytes) {
        None => {
            assert(pairs_map(out@) =~= Map::empty());
        },
        Some(pairs) => {
            let ghost m = decoded_bounds(bytes@)->0;
            let mut i: usize = 0;
            while i < pairs.len()
                invariant
                    i <= pairs@.len(),
                    forall|k: int|
                        #![trigger pairs@[k]]
                        0 <= k < pairs@.len() ==> m.contains_pair(
                            pairs@[k].0@,
                            (pairs@[k].1.0@, pairs@[k].1.1@),
                        ),
                    forall|k: int|
                        #![trigger pairs@[k]]
                        0 <= k < i ==> out@.contains_key(pairs@[k].0@),
                    forall|k: Seq<char>| #[trigger]
                        out@.contains_key(k) ==> m.contains_key(k) && (out@[k].0@, out@[k].1@)
                            == m[k],
                decreases pairs@.len() - i,
            {
                let p = &pairs[i];
                assert(m.contains_pair(
                    pairs@[i as int].0@,
                    (pairs@[i as int].1.0@, pairs@[i as int].1.1@),
                ));
                out.insert(p.0.as_str(), (p.1.0.clone(), p.1.1.clone()));
                i = i + 1;
            }
            assert forall|k: Seq<char>| #[trigger] m.contains_key(k) implies out@.contains_key(k) by {
                let j = choose|j: int| 0 <= j < pairs@.len() && (#[trigger] pairs@[j]).0@ == k;
                assert(out@.contains_key(pairs@[j].0@));
            }
            assert(pairs_map(out@) =~= m);
        },
    }
    out
}

/// The bytes of the file of bounds: reading them gives the texts of the bounds.
pub fn encode_bounds(bounds: &TextMap<Bounds>) -> (r: Option<Vec<u8>>)
    ensures
        r is Some,
        r matches Some(bytes) ==> decoded_bounds(bytes@) == Some(bound_texts(bounds@)),
{
    let mut entries: Vec<(&str, (&str, &str))> = Vec::new();
    let n = bounds.len();
    let ghost keys = bounds.keys();
    let mut i: usize = 0;
    while i < n
        invariant
            i <= n == keys.len(),
            keys == bounds.keys(),
            entries@.len() == i,
            forall|k: int|
                #![trigger entries@[k]]
                0 <= k < i ==> entries@[k].0@ == keys[k] && entries@[k].1.0@
                    == bounds@[keys[k]].min.text@ && entries@[k].1.1@ == bounds@[keys[k]].max.text@,
        decreases n - i,
    {
        let b = bounds.value_at(i);
        entries.push((bounds.key_at(i), (b.min.text.as_str(), b.max.text.as_str())));
        i = i + 1;
    }
    let ghost view = entries@;
    proof {
        assert forall|a: int, b: int|
            #![trigger view[a], view[b]]
            0 <= a < b < view.len() implies view[a].0@ != view[b].0@ by {
            assert(keys[a] != keys[b]);
        }
    }
    let r = serialize_bounds(entries);
    proof {
        if r is Some {
            let m = decoded_bounds(r->0@)->0;
            let want = bound_texts(bounds@);
            assert forall|k: Seq<char>| m.contains_key(k) == #[trigger] want.contains_key(k) by {
                if m.contains_key(k) {
                    let j = choose|j: int| 0 <= j < view.len() && (#[trigger] view[j]).0@ == k;
                    assert(keys[j] == k);
                    assert(keys.to_set().contains(k));
                }
                if want.contains_key(k) {
                    assert(keys.to_set().contains(k));
                    let j = choose|j: int| 0 <= j < keys.len() && keys[j] == k;
                    assert(view[j].0@ == k);
                }
            }
            assert forall|k: Seq<char>| #[trigger] want.contains_key(k) implies m[k] == want[k] by {
                assert(keys.to_set().contains(k));
                let j = choose|j: int| 0 <= j < keys.len() && keys[j] == k;
                assert(view[j].0@ == k);
            }
            assert(m =~= want);
        }
    }
    r
}

} // verus!
