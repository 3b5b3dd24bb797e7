//! The file of a primary index: eight bytes of header and an encoded map.

use crate::bytes::push_bytes;
use crate::canonical::{hash_key, key_hash};
use crate::exact_index::{after_header, version_of};
use crate::phrase::cat3;
use crate::primary_index::{lookup, PrimaryIndex};
use crate::text::{decimal, decimal_spec};
use crate::textmap::TextMap;
use std::collections::HashMap;
use vstd::prelude::*;
use vstd::slice::slice_subrange;

verus! {

broadcast use vstd::std_specs::hash::group_hash_axioms;

/// What `bincode::deserialize` reads out of bytes as a map from hashes to
/// places; nothing where it fails.
pub uninterp spec fn decoded_places_v2(bytes: Seq<u8>) -> Option<Map<u128, (u64, u32)>>;

/// What `bincode::deserialize` reads out of bytes as a map from keys to places;
/// nothing where it fails.
pub uninterp spec fn decoded_places_v1(bytes: Seq<u8>) -> Option<Map<Seq<char>, (u64, u32)>>;

/// `bincode::serialize`, for a map from hashes to places: decoding the bytes
/// gives the map back.
/// It writes into memory without a limit on the size, which does not fail.
#[verifier::external_body]
fn serialize_places(map: &HashMap<u128, (u64, u32)>) -> (r: Result<Vec<u8>, Box<bincode::ErrorKind>>)
    ensures
        r is Ok,
        r matches Ok(bytes) ==> decoded_places_v2(bytes@) == Some(map@),
{
    bincode::serialize(map)
}

/// `bincode::deserialize`, for a map from hashes to places.
#[verifier::external_body]
fn deserialize_places_v2(bytes: &[u8]) -> (r: Result<
    HashMap<u128, (u64, u32)>,
    Box<bincode::ErrorKind>,
>)
    ensures
        match r {
            Ok(m) => decoded_places_v2(bytes@) == Some(m@),
            Err(_) => decoded_places_v2(bytes@) is None,
        },
{
    bincode::deserialize(bytes)
}

/// `bincode::deserialize`, for a map from keys to places. The pairs come in no
/// particular order, each key once.
#[verifier::external_body]
fn deserialize_places_v1(bytes: &[u8]) -> (r: Result<
    Vec<(String, (u64, u32))>,
    Box<bincode::ErrorKind>,
>)
    ensures
        match r {
            Ok(v) => {
                &&& decoded_places_v1(bytes@) is Some
                &&& forall|i: int|
                    #![trigger v@[i]]
                    0 <= i < v@.len() ==> decoded_places_v1(bytes@)->0.contains_pair(
                        v@[i].0@,
                        v@[i].1,
                    )
                &&& forall|k: Seq<char>| #[trigger]
                    decoded_places_v1(bytes@)->0.contains_key(k) ==> exists|i: int|
                        0 <= i < v@.len() && (#[trigger] v@[i]).0@ == k
                &&& forall|i: int, j: int|
                    #![trigger v@[i], v@[j]]
                    0 <= i < j < v@.len() ==> v@[i].0@ != v@[j].0@
            },
            Err(_) => decoded_places_v1(bytes@) is None,
        },
{
    let map: HashMap<String, (u64, u32)> = bincode::deserialize(bytes)?;
    Ok(map.into_iter().collect())
}

/// `bincode::serialize`, for a map from keys to places: decoding the bytes gives
/// each key with its place.
/// It writes into memory without a limit on the size, which does not fail.
#[verifier::external_body]
fn serialize_places_v1(pairs: Vec<(&str, (u64, u32))>) -> (r: Result<
    Vec<u8>,
    Box<bincode::ErrorKind>,
>)
    requires
        forall|i: int, j: int|
            #![trigger pairs@[i], pairs@[j]]
            0 <= i < j < pairs@.len() ==> pairs@[i].0@ != pairs@[j].0@,
    ensures
        r is Ok,
        r matches Ok(bytes) ==> {
            &&& decoded_places_v1(bytes@) is Some
            &&& forall|k: Seq<char>| #[trigger]
                decoded_places_v1(bytes@)->0.contains_key(k) <==> exists|i: int|
                    0 <= i < pairs@.len() && (#[trigger] pairs@[i]).0@ == k
            &&& forall|i: int|
                #![trigger pairs@[i]]
                0 <= i < pairs@.len() ==> decoded_places_v1(bytes@)->0[pairs@[i].0@] == pairs@[i].1
        },
{
    let map: HashMap<&str, (u64, u32)> = pairs.into_iter().collect();
    bincode::serialize(&map)
}

/// The places of a table's keys as they stand in a file; none where the bytes
/// hold no such map.
pub fn decode_places(bytes: &[u8]) -> (r: TextMap<(u64, u32)>)
    ensures
        r@ == match decoded_places_v1(bytes@) {
            Some(m) => m,
            None => Map::empty(),
        },
{
    let mut out: TextMap<(u64, u32)> = TextMap::new();
    match deserialize_places_v1(bytes) {
        Err(_) => {},
        Ok(pairs) => {
            let ghost m = decoded_places_v1(bytes@)->0;
            let mut i: usize = 0;
            while i < pairs.len()
                invariant
                    i <= pairs@.len(),
                    forall|k: int|
                        #![trigger pairs@[k]]
                        0 <= k < pairs@.len() ==> m.contains_pair(pairs@[k].0@, pairs@[k].1),
                    forall|k: int|
                        #![trigger pairs@[k]]
                        0 <= k < i ==> out@.contains_key(pairs@[k].0@),
                    forall|k: Seq<char>| #[trigger]
                        out@.contains_key(k) ==> m.contains_key(k) && out@[k] == m[k],
                decreases pairs@.len() - i,
            {
                let p = &pairs[i];
                assert(m.contains_pair(pairs@[i as int].0@, pairs@[i as int].1));
                out.insert(p.0.as_str(), p.1);
                i = i + 1;
            }
            assert forall|k: Seq<char>| #[trigger] m.contains_key(k) implies out@.contains_key(k) by {
                let j = choose|j: int| 0 <= j < pairs@.len() && (#[trigger] pairs@[j]).0@ == k;
                assert(out@.contains_key(pairs@[j].0@));
            }
            assert(out@ =~= m);
        },
    }
    out
}

/// The bytes of a file that holds the places of a table's keys: decoding them
/// gives the places back.
pub fn encode_places(places: &TextMap<(u64, u32)>) -> (r: Result<Vec<u8>, Box<bincode::ErrorKind>>)
    ensures
        r is Ok,
        r matches Ok(bytes) ==> decoded_places_v1(bytes@) == Some(places@),
{
    let mut pairs: Vec<(&str, (u64, u32))> = Vec::new();
    let n = places.len();
    let mut i: usize = 0;
    while i < n
        invariant
            i <= n == places.keys().len(),
            pairs@.len() == i,
            forall|k: int|
                #![trigger pairs@[k]]
                0 <= k < i ==> pairs@[k].0@ == places.keys()[k] && pairs@[k].1
                    == places@[places.keys()[k]],
        decreases n - i,
    {
        pairs.push((places.key_at(i), *places.value_at(i)));
        i = i + 1;
    }
    let ghost view = pairs@;
    let ghost keys = places.keys();
    proof {
        assert forall|a: int, b: int|
            #![trigger view[a], view[b]]
            0 <= a < b < view.len() implies view[a].0@ != view[b].0@ by {
            assert(keys[a] != keys[b]);
        }
    }
    let r = serialize_places_v1(pairs);
    proof {
        if r is Ok {
            let m = decoded_places_v1(r->Ok_0@)->0;
            assert forall|k: Seq<char>| m.contains_key(k) == #[trigger] places@.contains_key(k) by {
                if m.contains_key(k) {
                    let j = choose|j: int| 0 <= j < view.len() && (#[trigger] view[j]).0@ == k;
                    assert(keys[j] == k);
                    assert(keys.to_set().contains(k));
                }
                if places@.contains_key(k) {
                    assert(keys.to_set().contains(k));
                    let j = choose|j: int| 0 <= j < keys.len() && keys[j] == k;
                    assert(view[j].0@ == k);
                }
            }
            assert forall|k: Seq<char>| #[trigger] places@.contains_key(k) implies m[k]
                == places@[k] by {
                assert(keys.to_set().contains(k));
                let j = choose|j: int| 0 <= j < keys.len() && keys[j] == k;
                assert(view[j].0@ == k);
            }
            assert(m =~= places@);
        }
    }
    r
}

/// The header of a file of version 2.
pub open spec fn primary_header() -> Seq<u8> {
    seq![66u8, 84u8, 80u8, 73u8, 2u8, 0u8, 0u8, 0u8]
}

/// Whether the file begins with the magic bytes `BTPI`.
pub open spec fn has_primary_magic(f: Seq<u8>) -> bool {
    f.len() >= 4 && f[0] == 66 && f[1] == 84 && f[2] == 80 && f[3] == 73
}

/// What can go wrong when a primary index is loaded.
pub enum PrimaryIndexError {
    /// The file has another version.
    UnsupportedVersion { found: u8 },
    /// The map could not be decoded.
    Undecodable(Box<bincode::ErrorKind>),
}

/// The bytes of a file that holds an index.
pub fn save_primary_index(idx: &PrimaryIndex) -> (r: Result<Vec<u8>, Box<bincode::ErrorKind>>)
    ensures
        r is Ok,
        r matches Ok(f) ==> {
            &&& f@.take(8) == primary_header()
            &&& f@.len() >= 8
            &&& has_primary_magic(f@)
            &&& version_of(f@) == 2
            &&& decoded_places_v2(f@.skip(8)) == Some(idx@)
        },
{
    match serialize_places(idx.inner()) {
        Err(e) => Err(e),
        Ok(payload) => {
            let mut f: Vec<u8> = vec![66, 84, 80, 73, 2, 0, 0, 0];
            assert(f@ =~= primary_header());
            push_bytes(&mut f, payload.as_slice());
            assert(f@.take(8) =~= primary_header());
            assert(f@.skip(8) =~= payload@);
            Ok(f)
        },
    }
}

/// Whether a key of the map has the hash and the place.
pub open spec fn place_of_key(m: Map<Seq<char>, (u64, u32)>, h: u128, p: (u64, u32)) -> bool {
    exists|k: Seq<char>| #[trigger] m.contains_key(k) && key_hash(k) == h && m[k] == p
}

/// Whether a key of the map has the hash.
pub open spec fn key_with_hash(m: Map<Seq<char>, (u64, u32)>, h: u128) -> bool {
    exists|k: Seq<char>| #[trigger] m.contains_key(k) && key_hash(k) == h
}

/// Whether the index files each key of the map by its hash: a hash that several
/// keys share has the place of one of them.
pub open spec fn migrated(idx: Map<u128, (u64, u32)>, m: Map<Seq<char>, (u64, u32)>) -> bool {
    &&& forall|h: u128| #[trigger] idx.contains_key(h) <==> key_with_hash(m, h)
    &&& forall|h: u128| #[trigger] idx.contains_key(h) ==> place_of_key(m, h, idx[h])
}

/// Files the pairs by the hashes of their keys, a later one over an earlier one,
/// and counts how often that happened.
pub fn migrate_places(pairs: &[(String, (u64, u32))]) -> (r: (PrimaryIndex, usize))
    ensures
        r.0@ == places_filed(pairs@),
        r.1 == pairs@.len() - r.0@.dom().len(),
{
    let mut idx = PrimaryIndex::with_capacity(pairs.len());
    let mut collisions: usize = 0;
    let mut i: usize = 0;
    assert(pairs@.take(0) =~= Seq::<(String, (u64, u32))>::empty());
    while i < pairs.len()
        invariant
            i <= pairs@.len(),
            idx@ == places_filed(pairs@.take(i as int)),
            idx@.dom().finite(),
            collisions == i - idx@.dom().len(),
        decreases pairs@.len() - i,
    {
        let p = &pairs[i];
        let ghost before = idx@;
        let h: u128 = hash_key(p.0.as_str());
        let had = idx.insert_raw(h, p.1);
        if had.is_some() {
            collisions = collisions + 1;
            assert(idx@.dom() =~= before.dom());
        } else {
            assert(idx@.dom() =~= before.dom().insert(h));
        }
        i = i + 1;
        assert(pairs@.take(i as int).drop_last() =~= pairs@.take(i - 1));
    }
    assert(pairs@.take(i as int) =~= pairs@);
    (idx, collisions)
}

/// The places of the pairs by the hashes of their keys, a later one over an
/// earlier one.
pub open spec fn places_filed(pairs: Seq<(String, (u64, u32))>) -> Map<u128, (u64, u32)>
    decreases pairs.len(),
{
    if pairs.len() == 0 {
        Map::empty()
    } else {
        places_filed(pairs.drop_last()).insert(key_hash(pairs.last().0@), pairs.last().1)
    }
}

proof fn lemma_places_filed(pairs: Seq<(String, (u64, u32))>, h: u128)
    ensures
        places_filed(pairs).contains_key(h) <==> exists|i: int|
            0 <= i < pairs.len() && key_hash((#[trigger] pairs[i]).0@) == h,
        places_filed(pairs).contains_key(h) ==> exists|i: int|
            0 <= i < pairs.len() && key_hash((#[trigger] pairs[i]).0@) == h && pairs[i].1
                == places_filed(pairs)[h],
    decreases pairs.len(),
{
    if pairs.len() > 0 {
        let front = pairs.drop_last();
        lemma_places_filed(front, h);
        if key_hash(pairs.last().0@) == h {
            assert(pairs[pairs.len() - 1].1 == places_filed(pairs)[h]);
        } else {
            if places_filed(front).contains_key(h) {
                let i = choose|i: int|
                    0 <= i < front.len() && key_hash((#[trigger] front[i]).0@) == h && front[i].1
                        == places_filed(front)[h];
                assert(pairs[i] == front[i]);
            }
            if exists|i: int| 0 <= i < pairs.len() && key_hash((#[trigger] pairs[i]).0@) == h {
                let i = choose|i: int|
                    0 <= i < pairs.len() && key_hash((#[trigger] pairs[i]).0@) == h;
                assert(front[i] == pairs[i]);
            }
        }
    }
}

fn load_v1_migrate(payload: &[u8]) -> (r: Result<PrimaryIndex, PrimaryIndexError>)
    ensures
        match r {
            Ok(idx) => decoded_places_v1(payload@) matches Some(m) && migrated(idx@, m),
            Err(PrimaryIndexError::Undecodable(_)) => decoded_places_v1(payload@) is None,
            Err(_) => false,
        },
{
    match deserialize_places_v1(payload) {
        Err(e) => Err(PrimaryIndexError::Undecodable(e)),
        Ok(pairs) => {
            let moved = migrate_places(pairs.as_slice());
            proof {
                let m = decoded_places_v1(payload@)->0;
                let idx = moved.0@;
                assert forall|h: u128| #[trigger] idx.contains_key(h) <==> key_with_hash(m, h) by {
                    lemma_places_filed(pairs@, h);
                    if idx.contains_key(h) {
                        let i = choose|i: int|
                            0 <= i < pairs@.len() && key_hash((#[trigger] pairs@[i]).0@) == h;
                        assert(m.contains_key(pairs@[i].0@));
                    }
                    if key_with_hash(m, h) {
                        let k = choose|k: Seq<char>| #[trigger]
                            m.contains_key(k) && key_hash(k) == h;
                        let i = choose|i: int| 0 <= i < pairs@.len() && (#[trigger] pairs@[i]).0@ == k;
                        assert(key_hash(pairs@[i].0@) == h);
                    }
                }
                assert forall|h: u128| #[trigger] idx.contains_key(h) implies place_of_key(
                    m,
                    h,
                    idx[h],
                ) by {
                    lemma_places_filed(pairs@, h);
                    let i = choose|i: int|
                        0 <= i < pairs@.len() && key_hash((#[trigger] pairs@[i]).0@) == h
                            && pairs@[i].1 == idx[h];
                    assert(m.contains_pair(pairs@[i].0@, pairs@[i].1));
                }
            }
            Ok(moved.0)
        },
    }
}

/// Loads an index. A file of version 2 holds it as it is; one of version 1, or
/// without a header, holds the keys themselves, which are filed by their hashes.
pub fn load_primary_index(f: &[u8]) -> (r: Result<PrimaryIndex, PrimaryIndexError>)
    ensures
        if has_primary_magic(f@) && version_of(f@) == 2 {
            match r {
                Ok(idx) => decoded_places_v2(after_header(f@)) == Some(idx@),
                Err(PrimaryIndexError::Undecodable(_)) => decoded_places_v2(
                    after_header(f@),
                ) is None,
                Err(_) => false,
            }
        } else if has_primary_magic(f@) && version_of(f@) != 1 {
            r matches Err(PrimaryIndexError::UnsupportedVersion { found }) && found == version_of(
                f@,
            )
        } else {
            let payload = if has_primary_magic(f@) {
                after_header(f@)
            } else {
                f@
            };
            match r {
                Ok(idx) => decoded_places_v1(payload) matches Some(m) && migrated(idx@, m),
                Err(PrimaryIndexError::Undecodable(_)) => decoded_places_v1(payload) is None,
                Err(_) => false,
            }
        },
{
    let n = f.len();
    let marked: bool = n >= 4 && f[0] == 66 && f[1] == 84 && f[2] == 80 && f[3] == 73;
    if !marked {
        return load_v1_migrate(f);
    }
    let version: u8 = if n > 4 {
        f[4]
    } else {
        0
    };
    let start: usize = if n > 8 {
        8
    } else {
        n
    };
    let payload = slice_subrange(f, start, n);
    assert(payload@ =~= after_header(f@));
    if version == 2 {
        match deserialize_places_v2(payload) {
            Ok(m) => Ok(PrimaryIndex::from_map(m)),
            Err(e) => Err(PrimaryIndexError::Undecodable(e)),
        }
    } else if version == 1 {
        load_v1_migrate(payload)
    } else {
        Err(PrimaryIndexError::UnsupportedVersion { found: version })
    }
}

/// Whether no two keys of a map share a hash.
pub open spec fn hashes_differ(m: Map<Seq<char>, (u64, u32)>) -> bool {
    forall|a: Seq<char>, b: Seq<char>| #[trigger]
        m.contains_key(a) && #[trigger] m.contains_key(b) && key_hash(a) == key_hash(b) ==> a == b
}

/// An index out of an older file has the place of every key whose hash no other key has;
/// and it has as many keys as the file where no two of them share a hash.
pub proof fn law_old_places_are_kept(
    idx: Map<u128, (u64, u32)>,
    m: Map<Seq<char>, (u64, u32)>,
    k: Seq<char>,
)
    requires
        migrated(idx, m),
        m.dom().finite(),
    ensures
        m.contains_key(k) && (forall|other: Seq<char>| #[trigger]
            m.contains_key(other) && key_hash(other) == key_hash(k) ==> other == k) ==> lookup(
            idx,
            key_hash(k),
        ) == Some(m[k]),
        hashes_differ(m) ==> idx.dom().len() == m.dom().len(),
{
    let h = key_hash(k);
    if m.contains_key(k) {
        assert(key_with_hash(m, h));
        assert(idx.contains_key(h));
        assert(place_of_key(m, h, idx[h]));
    }
    if hashes_differ(m) {
        let f = |x: Seq<char>| key_hash(x);
        let image = m.dom().map(f);
        assert(image =~= idx.dom()) by {
            assert forall|x: u128| image.contains(x) <==> idx.dom().contains(x) by {
                if idx.contains_key(x) {
                    let y = choose|y: Seq<char>| #[trigger] m.contains_key(y) && key_hash(y) == x;
                    assert(m.dom().contains(y) && f(y) == x);
                }
                if image.contains(x) {
                    let y = choose|y: Seq<char>| m.dom().contains(y) && f(y) == x;
                    assert(m.contains_key(y) && key_hash(y) == x);
                }
            }
        }
        assert(vstd::relations::injective_on(f, m.dom())) by {
            assert forall|a: Seq<char>, b: Seq<char>|
                m.dom().contains(a) && m.dom().contains(b) && #[trigger] f(a) == #[trigger] f(
                    b,
                ) implies a == b by {
                assert(m.contains_key(a) && m.contains_key(b));
            }
        }
        vstd::set_lib::lemma_map_size(m.dom(), image, f);
    }
}

/// A saved index is loaded as it was: `f` is what saving `saved` gives.
pub proof fn law_primary_index_round_trip(
    f: Seq<u8>,
    saved: Map<u128, (u64, u32)>,
    loaded: Map<u128, (u64, u32)>,
    pk: Seq<char>,
)
    requires
        f.len() >= 8,
        decoded_places_v2(f.skip(8)) == Some(saved),
        decoded_places_v2(after_header(f)) == Some(loaded),
    ensures
        loaded == saved,
        lookup(loaded, key_hash(pk)) == lookup(saved, key_hash(pk)),
{
    assert(after_header(f) =~= f.skip(8));
}

/// What is said of an error.
pub open spec fn primary_error_text(e: PrimaryIndexError) -> Seq<char> {
    match e {
        PrimaryIndexError::UnsupportedVersion { found } => {
            "primary.idx version "@ + decimal_spec(found as nat)
                + " not supported by this binary"@
        },
        PrimaryIndexError::Undecodable(_) => "failed to deserialize primary.idx"@,
    }
}

impl PrimaryIndexError {
    /// What is said of the error.
    pub fn describe(&self) -> (r: String)
        ensures
            r@ == primary_error_text(*self),
    {
        match self {
            PrimaryIndexError::UnsupportedVersion { found } => cat3(
                "primary.idx version ",
                decimal(*found as u64).as_str(),
                " not supported by this binary",
            ),
            PrimaryIndexError::Undecodable(_) => "failed to deserialize primary.idx".to_owned(),
        }
    }
}

} // verus!
