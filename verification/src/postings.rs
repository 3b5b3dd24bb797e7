//! Lists of the rows that hold a value, segment by segment, and their encoding.

use crate::rowset::{ascending, bitmap_values, RowSet};
use roaring::RoaringBitmap;
use vstd::prelude::*;

verus! {

/// The reason for which `bincode` could not encode or decode.
#[verifier::external_type_specification]
#[verifier::external_body]
pub struct ExErrorKind(bincode::ErrorKind);

/// The segments of a list and the rows in each.
pub open spec fn postings(v: Seq<(u64, RowSet)>) -> Seq<(u64, Set<u32>)> {
    v.map_values(|p: (u64, RowSet)| (p.0, p.1@))
}

/// What `bincode::deserialize` reads out of bytes as a list of segments with
/// their bitmaps, each bitmap given by the values that it lists; nothing where
/// it fails.
pub uninterp spec fn decoded_postings(bytes: Seq<u8>) -> Option<Seq<(u64, Seq<u32>)>>;

/// The list that bytes encode.
pub open spec fn stored_postings(bytes: Seq<u8>) -> Option<Seq<(u64, Set<u32>)>> {
    match decoded_postings(bytes) {
        Some(d) => Some(d.map_values(|p: (u64, Seq<u32>)| (p.0, p.1.to_set()))),
        None => None,
    }
}

/// `bincode::deserialize`, for a list of segments with their bitmaps.
#[verifier::external_body]
fn deserialize_postings(bytes: &[u8]) -> (r: Result<
    Vec<(u64, Vec<u32>)>,
    Box<bincode::ErrorKind>,
>)
    ensures
        match r {
            Ok(v) => decoded_postings(bytes@) == Some(
                v@.map_values(|p: (u64, Vec<u32>)| (p.0, p.1@)),
            ),
            Err(_) => decoded_postings(bytes@) is None,
        },
{
    let list: Vec<(u64, RoaringBitmap)> = bincode::deserialize(bytes)?;
    Ok(list.into_iter().map(|(id, b)| (id, b.iter().collect())).collect())
}

/// `bincode::serialize`, for a list of segments with their bitmaps: decoding
/// the bytes gives the segments back in their order, and of each bitmap its
/// values in ascending order.
/// It writes into memory without a limit on the size, which does not fail.
#[verifier::external_body]
fn serialize_postings(list: &Vec<(u64, &RoaringBitmap)>) -> (r: Result<
    Vec<u8>,
    Box<bincode::ErrorKind>,
>)
    ensures
        r is Ok,
        r matches Ok(bytes) ==> {
            &&& decoded_postings(bytes@) is Some
            &&& decoded_postings(bytes@)->0.len() == list@.len()
            &&& forall|i: int|
                0 <= i < list@.len() ==> {
                    let p = #[trigger] decoded_postings(bytes@)->0[i];
                    &&& p.0 == list@[i].0
                    &&& ascending(p.1)
                    &&& p.1.to_set() == bitmap_values(*list@[i].1)
                }
        },
{
    bincode::serialize(list)
}

/// Decodes a list.
pub fn decode_postings(bytes: &[u8]) -> (r: Result<Vec<(u64, RowSet)>, Box<bincode::ErrorKind>>)
    ensures
        match r {
            Ok(v) => stored_postings(bytes@) == Some(postings(v@)),
            Err(_) => stored_postings(bytes@) is None,
        },
{
    match deserialize_postings(bytes) {
        Err(e) => Err(e),
        Ok(raw) => {
            let mut out: Vec<(u64, RowSet)> = Vec::new();
            let ghost want = raw@.map_values(|p: (u64, Vec<u32>)| (p.0, p.1@)).map_values(
                |p: (u64, Seq<u32>)| (p.0, p.1.to_set()),
            );
            let mut i: usize = 0;
            while i < raw.len()
                invariant
                    i <= raw@.len(),
                    want == raw@.map_values(|p: (u64, Vec<u32>)| (p.0, p.1@)).map_values(
                        |p: (u64, Seq<u32>)| (p.0, p.1.to_set()),
                    ),
                    postings(out@) == want.take(i as int),
                decreases raw@.len() - i,
            {
                let rows = RowSet::from_ids(raw[i].1.as_slice());
                let ghost before = postings(out@);
                out.push((raw[i].0, rows));
                i = i + 1;
                assert(postings(out@) =~= before.push(want[i - 1]));
                assert(postings(out@) =~= want.take(i as int));
            }
            assert(want.take(i as int) =~= want);
            Ok(out)
        },
    }
}

/// Encodes a list: what is decoded from the bytes is the list.
pub fn encode_postings(list: &[(u64, RowSet)]) -> (r: Result<Vec<u8>, Box<bincode::ErrorKind>>)
    ensures
        r is Ok,
        r matches Ok(bytes) ==> stored_postings(bytes@) == Some(postings(list@)),
{
    let mut parts: Vec<(u64, &RoaringBitmap)> = Vec::new();
    let mut i: usize = 0;
    while i < list.len()
        invariant
            i <= list@.len(),
            parts@.len() == i,
            forall|k: int|
                0 <= k < i ==> (#[trigger] parts@[k]).0 == list@[k].0 && bitmap_values(*parts@[k].1)
                    == list@[k].1@,
        decreases list@.len() - i,
    {
        let p = &list[i];
        parts.push((p.0, p.1.bitmap()));
        i = i + 1;
    }
    let r = serialize_postings(&parts);
    proof {
        if r is Ok {
            let d = decoded_postings(r->Ok_0@)->0;
            assert(d.map_values(|p: (u64, Seq<u32>)| (p.0, p.1.to_set())) =~= postings(list@)) by {
                assert forall|k: int| 0 <= k < d.len() implies (d[k].0, d[k].1.to_set()) == postings(
                    list@,
                )[k] by {
                    assert(parts@[k].0 == list@[k].0);
                }
            }
        }
    }
    r
}

/// Copies a list.
pub fn clone_postings(list: &[(u64, RowSet)]) -> (r: Vec<(u64, RowSet)>)
    ensures
        postings(r@) == postings(list@),
{
    let mut out: Vec<(u64, RowSet)> = Vec::new();
    let mut i: usize = 0;
    while i < list.len()
        invariant
            i <= list@.len(),
            postings(out@) == postings(list@).take(i as int),
        decreases list@.len() - i,
    {
        let p = &list[i];
        let ghost before = postings(out@);
        out.push((p.0, p.1.clone()));
        i = i + 1;
        assert(postings(out@) =~= before.push(postings(list@)[i - 1]));
        assert(postings(out@) =~= postings(list@).take(i as int));
    }
    assert(postings(list@).take(i as int) =~= postings(list@));
    out
}

} // verus!
