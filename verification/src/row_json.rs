//! The cells of a row as a JSON object of texts.

use crate::segment::row_view;
use crate::textmap::TextMap;
use crate::types::{Scalar, ScalarView};
use std::collections::HashMap;
use vstd::prelude::*;

verus! {

/// What `serde_json::from_slice` reads out of bytes as a map from texts to texts;
/// nothing where it fails.
pub uninterp spec fn decoded_row(bytes: Seq<u8>) -> Option<Map<Seq<char>, Seq<char>>>;

/// `serde_json::from_slice`, for a map from texts to texts. The pairs come in no
/// particular order, each key once.
#[verifier::external_body]
fn deserialize_row(bytes: &[u8]) -> (r: Option<Vec<(String, String)>>)
    ensures
        match r {
            Some(v) => {
                &&& decoded_row(bytes@) is Some
                &&& forall|i: int|
                    #![trigger v@[i]]
                    0 <= i < v@.len() ==> decoded_row(bytes@)->0.contains_pair(v@[i].0@, v@[i].1@)
                &&& forall|k: Seq<char>| #[trigger]
                    decoded_row(bytes@)->0.contains_key(k) ==> exists|i: int|
                        0 <= i < v@.len() && (#[trigger] v@[i]).0@ == k
            },
            None => decoded_row(bytes@) is None,
        },
{
    let map: Option<HashMap<String, String>> = serde_json::from_slice(bytes).ok();
    map.map(|m| m.into_iter().collect())
}

/// `serde_json::to_vec`, for a map from texts to texts: decoding the bytes gives
/// each key with its text.
/// It fails only where a key is no text or a value refuses to be written, and here
/// neither is so.
#[verifier::external_body]
fn serialize_row(pairs: Vec<(&str, &str)>) -> (r: Option<Vec<u8>>)
    requires
        forall|i: int, j: int|
            #![trigger pairs@[i], pairs@[j]]
            0 <= i < j < pairs@.len() ==> pairs@[i].0@ != pairs@[j].0@,
    ensures
        r is Some,
        r matches Some(bytes) ==> {
            &&& decoded_row(bytes@) is Some
            &&& forall|k: Seq<char>| #[trigger]
                decoded_row(bytes@)->0.contains_key(k) <==> exists|i: int|
                    0 <= i < pairs@.len() && (#[trigger] pairs@[i]).0@ == k
            &&& forall|i: int|
                #![trigger pairs@[i]]
                0 <= i < pairs@.len() ==> decoded_row(bytes@)->0[pairs@[i].0@] == pairs@[i].1@
        },
{
    let map: HashMap<&str, &str> = pairs.into_iter().collect();
    serde_json::to_vec(&map).ok()
}

/// The texts of a row's cells.
pub open spec fn cell_texts(row: Map<Seq<char>, ScalarView>) -> Map<Seq<char>, Seq<char>> {
    row.map_values(|v: ScalarView| v.text)
}

/// The bytes of a row: decoding them gives the texts of its cells.
pub fn encode_row(row: &TextMap<Scalar>) -> (r: Option<Vec<u8>>)
    ensures
        r is Some,
        r matches Some(bytes) ==> decoded_row(bytes@) == Some(cell_texts(row_view(row@))),
{
    let mut pairs: Vec<(&str, &str)> = Vec::new();
    let n = row.len();
    let mut i: usize = 0;
    while i < n
        invariant
            i <= n == row.keys().len(),
            pairs@.len() == i,
            forall|k: int|
                #![trigger pairs@[k]]
                0 <= k < i ==> pairs@[k].0@ == row.keys()[k] && pairs@[k].1@
                    == row@[row.keys()[k]].text@,
        decreases n - i,
    {
        pairs.push((row.key_at(i), row.value_at(i).text.as_str()));
        i = i + 1;
    }
    let ghost view = pairs@;
    let ghost keys = row.keys();
    proof {
        assert forall|a: int, b: int|
            #![trigger view[a], view[b]]
            0 <= a < b < view.len() implies view[a].0@ != view[b].0@ by {
            assert(keys[a] != keys[b]);
        }
    }
    let r = serialize_row(pairs);
    proof {
        if r is Some {
            let m = decoded_row(r->0@)->0;
            let want = cell_texts(row_view(row@));
            assert forall|k: Seq<char>| m.contains_key(k) == #[trigger] want.contains_key(k) by {
                if m.contains_key(k) {
                    let j = choose|j: int| 0 <= j < view.len() && (#[trigger] view[j]).0@ == k;
                    assert(keys[j] == k);
                    assert(keys.to_set().contains(k));
                }
                if want.contains_key(k) {
                    assert(keys.to_set().contains(k));
                    let j = choose|j: int| 0 <= j < keys.len() && keys[j] == k;
                    assert(view[j].0@ == k);
                }
            }
            assert forall|k: Seq<char>| #[trigger] want.contains_key(k) implies m[k] == want[k] by {
                assert(keys.to_set().contains(k));
                let j = choose|j: int| 0 <= j < keys.len() && keys[j] == k;
                assert(view[j].0@ == k);
            }
            assert(m =~= want);
        }
    }
    r
}

/// The texts of the map that a list of pairs makes.
pub open spec fn texts_map(m: Map<Seq<char>, String>) -> Map<Seq<char>, Seq<char>> {
    m.map_values(|s: String| s@)
}

/// The texts of a logged row; none where the bytes hold no row.
pub fn decode_row(bytes: &[u8]) -> (r: TextMap<String>)
    ensures
        texts_map(r@) == match decoded_row(bytes@) {
            Some(m) => m,
            None => Map::empty(),
        },
{
    let mut out: TextMap<String> = TextMap::new();
    match deserialize_row(bytes) {
        None => {
            assert(texts_map(out@) =~= Map::empty());
        },
        Some(pairs) => {
            let ghost m = decoded_row(bytes@)->0;
            let mut i: usize = 0;
            while i < pairs.len()
                invariant
                    i <= pairs@.len(),
                    forall|k: int|
                        #![trigger pairs@[k]]
                        0 <= k < pairs@.len() ==> m.contains_pair(pairs@[k].0@, pairs@[k].1@),
                    forall|k: int|
                        #![trigger pairs@[k]]
                        0 <= k < i ==> out@.contains_key(pairs@[k].0@),
                    forall|k: Seq<char>| #[trigger]
                        out@.contains_key(k) ==> m.contains_key(k) && out@[k]@ == m[k],
                decreases pairs@.len() - i,
            {
                let p = &pairs[i];
                assert(m.contains_pair(pairs@[i as int].0@, pairs@[i as int].1@));
                out.insert(p.0.as_str(), p.1.clone());
                i = i + 1;
            }
            assert forall|k: Seq<char>| #[trigger] m.contains_key(k) implies out@.contains_key(k) by {
                let j = choose|j: int| 0 <= j < pairs@.len() && (#[trigger] pairs@[j]).0@ == k;
                assert(out@.contains_key(pairs@[j].0@));
            }
            assert(texts_map(out@) =~= m);
        },
    }
    out
}

} // verus!
