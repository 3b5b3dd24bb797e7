//! The write-ahead log: one frame per change, the length of its payload and the
//! payload.

use crate::bytes::{
    le32, le64, lemma_read_written, push_bytes, push_u64, read_u64, u32_at, u64_at,
};
use crate::column::encoded_text;
use vstd::prelude::*;
use vstd::slice::slice_subrange;
use vstd::utf8::{decode_utf8, encode_utf8, valid_utf8};

verus! {

/// A change that is logged before it is made.
#[derive(Debug)]
pub enum WalOperation {
    Insert { id: String, data: Vec<u8> },
    Delete { id: String },
    Update { id: String, data: Vec<u8> },
}

/// What a `WalOperation` stands for.
pub enum OpView {
    Insert(Seq<char>, Seq<u8>),
    Delete(Seq<char>),
    Update(Seq<char>, Seq<u8>),
}

impl View for WalOperation {
    type V = OpView;

    open spec fn view(&self) -> OpView {
        match self {
            WalOperation::Insert { id, data } => OpView::Insert(id@, data@),
            WalOperation::Delete { id } => OpView::Delete(id@),
            WalOperation::Update { id, data } => OpView::Update(id@, data@),
        }
    }
}

/// What the operations of a list stand for.
pub open spec fn op_views(ops: Seq<WalOperation>) -> Seq<OpView> {
    ops.map_values(|op: WalOperation| op@)
}

/// The bytes that stand behind their length; nothing where they end too early.
pub open spec fn bytes_at(s: Seq<u8>, at: int) -> Option<Seq<u8>> {
    if at + 8 > s.len() {
        None
    } else {
        let len = u64_at(s, at) as int;
        if at + 8 + len > s.len() {
            None
        } else {
            Some(s.subrange(at + 8, at + 8 + len))
        }
    }
}

/// The number of 32 bits that bytes begin with.
pub open spec fn decoded_tag(bytes: Seq<u8>) -> Option<u32> {
    if bytes.len() < 4 {
        None
    } else {
        Some(u32_at(bytes, 0))
    }
}

/// The number of 32 bits that bytes begin with, and the text behind it.
pub open spec fn decoded_keyed(bytes: Seq<u8>) -> Option<(u32, Seq<char>)> {
    match bytes_at(bytes, 4) {
        Some(text) => if valid_utf8(text) {
            Some((u32_at(bytes, 0), decode_utf8(text)))
        } else {
            None
        },
        None => None,
    }
}

/// The number of 32 bits that bytes begin with, the text behind it, and the bytes
/// behind that.
pub open spec fn decoded_record(bytes: Seq<u8>) -> Option<(u32, Seq<char>, Seq<u8>)> {
    match decoded_keyed(bytes) {
        Some((tag, text)) => match bytes_at(bytes, 12 + u64_at(bytes, 4)) {
            Some(data) => Some((tag, text, data)),
            None => None,
        },
        None => None,
    }
}

/// `bincode::deserialize`, for a number of 32 bits: the first four bytes, the lowest one
/// first. What follows is not looked at.
#[verifier::external_body]
fn deserialize_tag(bytes: &[u8]) -> (r: Result<u32, Box<bincode::ErrorKind>>)
    ensures
        match r {
            Ok(tag) => decoded_tag(bytes@) == Some(tag),
            Err(_) => decoded_tag(bytes@) is None,
        },
{
    bincode::deserialize(bytes)
}

/// `bincode::deserialize`, for a number of 32 bits and a text: the number, the length of
/// the text in 64 bits, and its bytes, which must be UTF-8. What follows is not looked at.
#[verifier::external_body]
fn deserialize_keyed(bytes: &[u8]) -> (r: Result<(u32, String), Box<bincode::ErrorKind>>)
    ensures
        match r {
            Ok(p) => decoded_keyed(bytes@) == Some((p.0, p.1@)),
            Err(_) => decoded_keyed(bytes@) is None,
        },
{
    bincode::deserialize(bytes)
}

/// `bincode::deserialize`, for a number of 32 bits, a text and bytes: the bytes come
/// behind the text, after their number in 64 bits. What follows is not looked at.
#[verifier::external_body]
fn deserialize_record(bytes: &[u8]) -> (r: Result<
    (u32, String, Vec<u8>),
    Box<bincode::ErrorKind>,
>)
    ensures
        match r {
            Ok(p) => decoded_record(bytes@) == Some((p.0, p.1@, p.2@)),
            Err(_) => decoded_record(bytes@) is None,
        },
{
    bincode::deserialize(bytes)
}

/// `bincode::serialize`, for a number of 32 bits and a text: the number, the length of
/// the text, and its UTF-8 bytes.
/// It writes into memory without a limit on the size, which does not fail.
#[verifier::external_body]
fn serialize_keyed(tag: u32, id: &str) -> (r: Result<Vec<u8>, Box<bincode::ErrorKind>>)
    ensures
        r is Ok,
        r matches Ok(b) ==> b@ == le32(tag) + encoded_text(id@),
{
    bincode::serialize(&(tag, id))
}

/// `bincode::serialize`, for a number of 32 bits, a text and bytes: the number, the
/// length of the text and its UTF-8 bytes, and how many bytes there are and the bytes.
/// It writes into memory without a limit on the size, which does not fail.
#[verifier::external_body]
fn serialize_record(tag: u32, id: &str, data: &[u8]) -> (r: Result<Vec<u8>, Box<bincode::ErrorKind>>)
    ensures
        r is Ok,
        r matches Ok(b) ==> b@ == le32(tag) + encoded_text(id@) + le64(data@.len() as u64) + data@,
{
    bincode::serialize(&(tag, id, data))
}

/// The operation that a payload holds: its number, and what belongs to it.
pub open spec fn decoded_op(payload: Seq<u8>) -> Option<OpView> {
    match decoded_tag(payload) {
        Some(0u32) => match decoded_record(payload) {
            Some(p) => Some(OpView::Insert(p.1, p.2)),
            None => None,
        },
        Some(1u32) => match decoded_keyed(payload) {
            Some(p) => Some(OpView::Delete(p.1)),
            None => None,
        },
        Some(2u32) => match decoded_record(payload) {
            Some(p) => Some(OpView::Update(p.1, p.2)),
            None => None,
        },
        _ => None,
    }
}

/// What can go wrong when a log is read.
pub enum WalError {
    /// The log ends inside a payload.
    CutShort,
    /// A payload holds no operation.
    Undecodable,
}

/// Reads the operation out of a payload.
pub fn decode_op(payload: &[u8]) -> (r: Option<WalOperation>)
    ensures
        match r {
            Some(op) => decoded_op(payload@) == Some(op@),
            None => decoded_op(payload@) is None,
        },
{
    match deserialize_tag(payload) {
        Err(_) => None,
        Ok(tag) => {
            if tag == 0 {
                match deserialize_record(payload) {
                    Ok(p) => Some(WalOperation::Insert { id: p.1, data: p.2 }),
                    Err(_) => None,
                }
            } else if tag == 1 {
                match deserialize_keyed(payload) {
                    Ok(p) => Some(WalOperation::Delete { id: p.1 }),
                    Err(_) => None,
                }
            } else if tag == 2 {
                match deserialize_record(payload) {
                    Ok(p) => Some(WalOperation::Update { id: p.1, data: p.2 }),
                    Err(_) => None,
                }
            } else {
                None
            }
        },
    }
}

/// The payload of an operation.
pub fn encode_op(op: &WalOperation) -> (r: Result<Vec<u8>, Box<bincode::ErrorKind>>)
    ensures
        r is Ok,
        r matches Ok(payload) ==> decoded_op(payload@) == Some(op@),
{
    let r = match op {
        WalOperation::Insert { id, data } => serialize_record(0, id.as_str(), data.as_slice()),
        WalOperation::Delete { id } => serialize_keyed(1, id.as_str()),
        WalOperation::Update { id, data } => serialize_record(2, id.as_str(), data.as_slice()),
    };
    if let Ok(payload) = &r {
        let n: usize = payload.len();
        proof {
            assert(payload@.len() == n);
            match op {
                WalOperation::Insert { id, data } => {
                    lemma_written_record(payload@, 0, id@, data@);
                },
                WalOperation::Delete { id } => {
                    assert(payload@ =~= payload@ + Seq::<u8>::empty());
                    lemma_written_keyed(payload@, 1, id@, Seq::empty());
                },
                WalOperation::Update { id, data } => {
                    lemma_written_record(payload@, 2, id@, data@);
                },
            }
        }
    }
    r
}

proof fn lemma_written_keyed(b: Seq<u8>, tag: u32, id: Seq<char>, rest: Seq<u8>)
    requires
        b == le32(tag) + encoded_text(id) + rest,
        b.len() <= u64::MAX,
    ensures
        decoded_tag(b) == Some(tag),
        decoded_keyed(b) == Some((tag, id)),
        u64_at(b, 4) == encode_utf8(id).len(),
{
    let text = encode_utf8(id);
    lemma_read_written(text.len() as u64, tag, 0);
    assert(b.subrange(0, 4) =~= le32(tag));
    assert(b.subrange(4, 12) =~= le64(text.len() as u64));
    assert(b.subrange(12, 12 + text.len() as int) =~= text);
    vstd::utf8::encode_utf8_valid_utf8(id);
    vstd::utf8::encode_utf8_decode_utf8(id);
}

proof fn lemma_written_record(b: Seq<u8>, tag: u32, id: Seq<char>, data: Seq<u8>)
    requires
        b == le32(tag) + encoded_text(id) + le64(data.len() as u64) + data,
        b.len() <= u64::MAX,
    ensures
        decoded_tag(b) == Some(tag),
        decoded_record(b) == Some((tag, id, data)),
{
    let n = encode_utf8(id).len() as int;
    let rest = le64(data.len() as u64) + data;
    lemma_read_written(data.len() as u64, tag, 0);
    lemma_read_written(n as u64, tag, 0);
    assert(b =~= le32(tag) + encoded_text(id) + rest);
    lemma_written_keyed(b, tag, id, rest);
    assert(b.subrange(12 + n, 20 + n) =~= le64(data.len() as u64));
    assert(b.subrange(20 + n, 20 + n + data.len() as int) =~= data);
}

/// The frame of a payload.
pub open spec fn frame(payload: Seq<u8>) -> Seq<u8> {
    le64(payload.len() as u64) + payload
}

/// The frames of several payloads.
pub open spec fn frames(payloads: Seq<Seq<u8>>) -> Seq<u8>
    decreases payloads.len(),
{
    if payloads.len() == 0 {
        Seq::empty()
    } else {
        frames(payloads.drop_last()) + frame(payloads.last())
    }
}

/// What reading a log comes to.
pub enum LogView {
    Ops(Seq<OpView>),
    CutShort,
    Undecodable,
}

/// What a log holds, behind what was read before: frame by frame, up to a rest
/// that is too short for a length.
pub open spec fn read_log(log: Seq<u8>, done: Seq<OpView>) -> LogView
    decreases log.len(),
{
    if log.len() < 8 {
        LogView::Ops(done)
    } else {
        let len = u64_at(log, 0) as int;
        if 8 + len > log.len() {
            LogView::CutShort
        } else {
            match decoded_op(log.subrange(8, 8 + len)) {
                Some(op) => read_log(log.skip(8 + len), done.push(op)),
                None => LogView::Undecodable,
            }
        }
    }
}

/// Appends an operation to a log.
fn append_frame(log: &mut Vec<u8>, op: &WalOperation) -> (r: Result<(), Box<bincode::ErrorKind>>)
    ensures
        r is Ok,
        exists|payload: Seq<u8>| #[trigger]
            decoded_op(payload) == Some(op@) && final(log)@ == old(log)@ + frame(payload),
{
    match encode_op(op) {
        Err(e) => Err(e),
        Ok(payload) => {
            push_u64(log, payload.len() as u64);
            push_bytes(log, payload.as_slice());
            assert(decoded_op(payload@) == Some(op@));
            assert(log@ =~= old(log)@ + frame(payload@));
            Ok(())
        },
    }
}

/// Reads the operations of a log in the order in which they came.
fn read_operations(log: &[u8]) -> (r: Result<Vec<WalOperation>, WalError>)
    ensures
        match r {
            Ok(ops) => read_log(log@, Seq::empty()) == LogView::Ops(op_views(ops@)),
            Err(WalError::CutShort) => read_log(log@, Seq::empty()) is CutShort,
            Err(WalError::Undecodable) => read_log(log@, Seq::empty()) is Undecodable,
        },
{
    let mut ops: Vec<WalOperation> = Vec::new();
    let size = log.len();
    let mut at: usize = 0;
    assert(log@.skip(0) =~= log@);
    assert(op_views(ops@) =~= Seq::empty());
    while size - at >= 8
        invariant
            size == log@.len(),
            at <= size,
            read_log(log@, Seq::empty()) == read_log(log@.skip(at as int), op_views(ops@)),
        decreases size - at,
    {
        let ghost rest = log@.skip(at as int);
        let len: u64 = read_u64(log, at);
        assert(len == u64_at(rest, 0)) by {
            assert(rest.subrange(0, 8) =~= log@.subrange(at as int, at + 8));
        }
        if len > (size - at - 8) as u64 {
            return Err(WalError::CutShort);
        }
        let end: usize = at + 8 + len as usize;
        let payload = slice_subrange(log, at + 8, end);
        assert(payload@ =~= rest.subrange(8, 8 + len));
        match decode_op(payload) {
            None => {
                return Err(WalError::Undecodable);
            },
            Some(op) => {
                let ghost before = op_views(ops@);
                let ghost view = op@;
                ops.push(op);
                assert(op_views(ops@) =~= before.push(view));
                assert(rest.skip(8 + len) =~= log@.skip(end as int));
            },
        }
        at = end;
    }
    Ok(ops)
}

/// The log of the operations that are not in saved segments yet.
pub struct Wal {
    /// The frames of the operations, one behind the other.
    pub log: Vec<u8>,
}

impl View for Wal {
    type V = Seq<u8>;

    open spec fn view(&self) -> Seq<u8> {
        self.log@
    }
}

impl Wal {
    /// A log with what its file holds.
    pub fn open(log: Vec<u8>) -> (r: Wal)
        ensures
            r@ == log@,
    {
        Wal { log }
    }

    /// Appends an operation.
    pub fn append(&mut self, op: &WalOperation) -> (r: Result<(), Box<bincode::ErrorKind>>)
        ensures
            r is Ok,
            exists|payload: Seq<u8>| #[trigger]
                decoded_op(payload) == Some(op@) && final(self)@ == old(self)@ + frame(payload),
    {
        append_frame(&mut self.log, op)
    }

    /// The operations in the order in which they came.
    pub fn replay(&self) -> (r: Result<Vec<WalOperation>, WalError>)
        ensures
            match r {
                Ok(ops) => read_log(self@, Seq::empty()) == LogView::Ops(op_views(ops@)),
                Err(WalError::CutShort) => read_log(self@, Seq::empty()) is CutShort,
                Err(WalError::Undecodable) => read_log(self@, Seq::empty()) is Undecodable,
            },
    {
        read_operations(self.log.as_slice())
    }

    /// Forgets all operations.
    pub fn truncate(&mut self)
        ensures
            final(self)@ == Seq::<u8>::empty(),
            read_log(final(self)@, Seq::empty()) == LogView::Ops(Seq::empty()),
    {
        self.log = Vec::new();
    }
}

proof fn lemma_frames_front(payloads: Seq<Seq<u8>>)
    requires
        payloads.len() > 0,
    ensures
        frames(payloads) == frame(payloads[0]) + frames(payloads.skip(1)),
    decreases payloads.len(),
{
    if payloads.len() == 1 {
        assert(payloads.drop_last() =~= Seq::empty());
        assert(payloads.skip(1) =~= Seq::empty());
        assert(frames(payloads) =~= frame(payloads[0]) + frames(payloads.skip(1)));
    } else {
        let front = payloads.drop_last();
        lemma_frames_front(front);
        assert(front.skip(1) =~= payloads.skip(1).drop_last());
        assert(payloads.skip(1).last() == payloads.last());
        assert(frames(payloads) =~= frame(payloads[0]) + frames(payloads.skip(1)));
    }
}

/// Replaying a log gives the operations that were appended to it, in their order,
/// even where the log was cut inside the length of a further one.
pub proof fn law_replay_gives_appended(
    payloads: Seq<Seq<u8>>,
    ops: Seq<OpView>,
    tail: Seq<u8>,
    done: Seq<OpView>,
)
    requires
        payloads.len() == ops.len(),
        forall|i: int|
            0 <= i < ops.len() ==> decoded_op(#[trigger] payloads[i]) == Some(ops[i])
                && payloads[i].len() <= u64::MAX,
        tail.len() < 8,
    ensures
        read_log(frames(payloads) + tail, done) == LogView::Ops(done + ops),
    decreases payloads.len(),
{
    let log = frames(payloads) + tail;
    if payloads.len() == 0 {
        assert(log =~= tail);
        assert(done + ops =~= done);
    } else {
        lemma_frames_front(payloads);
        let p = payloads[0];
        lemma_read_written(p.len() as u64, 0, 0);
        assert(log.subrange(0, 8) =~= le64(p.len() as u64));
        assert(log.subrange(8, 8 + p.len() as int) =~= p);
        let rest = payloads.skip(1);
        assert(log.skip(8 + p.len() as int) =~= frames(rest) + tail);
        assert forall|i: int| 0 <= i < ops.skip(1).len() implies decoded_op(#[trigger] rest[i])
            == Some(ops.skip(1)[i]) && rest[i].len() <= u64::MAX by {
            assert(rest[i] == payloads[i + 1]);
        }
        law_replay_gives_appended(rest, ops.skip(1), tail, done.push(ops[0]));
        assert(done.push(ops[0]) + ops.skip(1) =~= done + ops);
    }
}

} // verus!
