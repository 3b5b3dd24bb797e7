//! The cells of a column: encoded texts one after the other, and where each
//! begins.

use crate::bytes::{le64, lemma_read_written, push_bytes, push_u64, read_u64, u64_at};
use vstd::prelude::*;
use vstd::slice::slice_subrange;
use vstd::utf8::{decode_utf8, encode_utf8, valid_utf8};

verus! {

/// What `String::from_utf8_lossy` makes of bytes that are not UTF-8.
pub uninterp spec fn replaced_text(bytes: Seq<u8>) -> Seq<char>;

/// The text that bytes stand for: their UTF-8 decoding, where they are UTF-8.
pub open spec fn text_from(bytes: Seq<u8>) -> Seq<char> {
    if valid_utf8(bytes) {
        decode_utf8(bytes)
    } else {
        replaced_text(bytes)
    }
}

/// `String::from_utf8_lossy`: the decoding of bytes that are UTF-8; of others,
/// a text in which replacement characters stand for what cannot be decoded.
#[verifier::external_body]
fn from_utf8_lossy(bytes: &[u8]) -> (r: String)
    ensures
        r@ == (if valid_utf8(bytes@) {
            decode_utf8(bytes@)
        } else {
            replaced_text(bytes@)
        }),
{
    String::from_utf8_lossy(bytes).into_owned()
}

/// `std::str::from_utf8`: the decoding of bytes that are UTF-8, and nothing for
/// others.
#[verifier::external_body]
fn from_utf8(bytes: &[u8]) -> (r: Option<String>)
    ensures
        match r {
            Some(s) => valid_utf8(bytes@) && s@ == decode_utf8(bytes@),
            None => !valid_utf8(bytes@),
        },
{
    std::str::from_utf8(bytes).ok().map(|s| s.to_owned())
}

/// The encoding of a text: its length in bytes, and its UTF-8 bytes.
pub open spec fn encoded_text(s: Seq<char>) -> Seq<u8> {
    le64(encode_utf8(s).len() as u64) + encode_utf8(s)
}

/// The bytes of cell number `id`; nothing where the column ends before them.
pub open spec fn cell_bytes(data: Seq<u8>, offsets: Seq<u8>, id: int) -> Option<Seq<u8>> {
    if 8 * id + 8 > offsets.len() {
        None
    } else {
        let start = u64_at(offsets, 8 * id) as int;
        if start + 8 > data.len() {
            None
        } else {
            let len = u64_at(data, start) as int;
            if start + 8 + len > data.len() {
                None
            } else {
                Some(data.subrange(start + 8, start + 8 + len))
            }
        }
    }
}

/// The text of cell number `id`, empty where the column ends before it.
pub open spec fn cell_text(data: Seq<u8>, offsets: Seq<u8>, id: int) -> Seq<char> {
    match cell_bytes(data, offsets, id) {
        Some(b) => text_from(b),
        None => Seq::empty(),
    }
}

/// The text of cell number `id`, where the column holds it and it is UTF-8.
pub open spec fn exact_text(data: Seq<u8>, offsets: Seq<u8>, id: int) -> Option<Seq<char>> {
    match cell_bytes(data, offsets, id) {
        Some(b) => if valid_utf8(b) {
            Some(decode_utf8(b))
        } else {
            None
        },
        None => None,
    }
}

/// Whether the column holds exactly these texts.
pub open spec fn holds_cells(data: Seq<u8>, offsets: Seq<u8>, cells: Seq<Seq<char>>) -> bool {
    &&& offsets.len() == 8 * cells.len()
    &&& forall|k: int|
        0 <= k < cells.len() ==> #[trigger] cell_bytes(data, offsets, k) == Some(
            encode_utf8(cells[k]),
        )
}

/// The data and the offsets of a column.
pub struct Column {
    pub data: Vec<u8>,
    pub offsets: Vec<u8>,
}

/// What a `Column` stands for.
#[verifier::ext_equal]
pub struct ColumnView {
    pub data: Seq<u8>,
    pub offsets: Seq<u8>,
}

impl View for Column {
    type V = ColumnView;

    open spec fn view(&self) -> ColumnView {
        ColumnView { data: self.data@, offsets: self.offsets@ }
    }
}

impl ColumnView {
    /// A column without cells.
    pub open spec fn empty() -> ColumnView {
        ColumnView { data: Seq::empty(), offsets: Seq::empty() }
    }

    /// The column with one more cell.
    pub open spec fn appended(self, text: Seq<char>) -> ColumnView {
        ColumnView {
            data: self.data + encoded_text(text),
            offsets: self.offsets + le64(self.data.len() as u64),
        }
    }

    /// The text of a cell.
    pub open spec fn text(self, id: int) -> Seq<char> {
        cell_text(self.data, self.offsets, id)
    }

    /// Whether the column holds exactly these texts.
    pub open spec fn holds(self, cells: Seq<Seq<char>>) -> bool {
        holds_cells(self.data, self.offsets, cells)
    }
}

fn find_bytes<'a>(data: &'a [u8], offsets: &[u8], local_id: u32) -> (r: Option<&'a [u8]>)
    ensures
        match r {
            Some(b) => cell_bytes(data@, offsets@, local_id as int) == Some(b@),
            None => cell_bytes(data@, offsets@, local_id as int) is None,
        },
{
    let at: u64 = local_id as u64 * 8;
    if at + 8 > offsets.len() as u64 {
        return None;
    }
    let start: u64 = read_u64(offsets, at as usize);
    let size: u64 = data.len() as u64;
    if size < 8 || start > size - 8 {
        return None;
    }
    let len: u64 = read_u64(data, start as usize);
    if len > size - start - 8 {
        return None;
    }
    Some(slice_subrange(data, start as usize + 8, start as usize + 8 + len as usize))
}

/// Reads a cell; empty where the data or the offsets end before it.
pub fn read_value(data: &[u8], offsets: &[u8], local_id: u32) -> (r: String)
    ensures
        r@ == cell_text(data@, offsets@, local_id as int),
{
    match find_bytes(data, offsets, local_id) {
        Some(bytes) => from_utf8_lossy(bytes),
        None => String::new(),
    }
}

/// Reads a cell; nothing where the data or the offsets end before it, or where it
/// is not UTF-8.
pub fn read_exact(data: &[u8], offsets: &[u8], local_id: u32) -> (r: Option<String>)
    ensures
        match r {
            Some(s) => exact_text(data@, offsets@, local_id as int) == Some(s@),
            None => exact_text(data@, offsets@, local_id as int) is None,
        },
{
    match find_bytes(data, offsets, local_id) {
        Some(bytes) => from_utf8(bytes),
        None => None,
    }
}

impl Column {
    /// A column without cells.
    pub fn new() -> (r: Column)
        ensures
            r@ == ColumnView::empty(),
    {
        let r = Column { data: Vec::new(), offsets: Vec::new() };
        assert(r@ =~= ColumnView::empty());
        r
    }

    /// Appends a cell.
    pub fn append(&mut self, text: &str)
        ensures
            final(self)@ == old(self)@.appended(text@),
    {
        let start: u64 = self.data.len() as u64;
        let bytes = text.as_bytes();
        push_u64(&mut self.offsets, start);
        let ghost before = self.data@;
        push_u64(&mut self.data, bytes.len() as u64);
        push_bytes(&mut self.data, bytes);
        assert(self.data@ =~= before + encoded_text(text@));
    }

    /// The text of a cell.
    pub fn read(&self, local_id: u32) -> (r: String)
        ensures
            r@ == self@.text(local_id as int),
    {
        read_value(self.data.as_slice(), self.offsets.as_slice(), local_id)
    }
}

impl Clone for Column {
    fn clone(&self) -> (r: Self)
        ensures
            r@ == self@,
    {
        let r = Column {
            data: vstd::slice::slice_to_vec(self.data.as_slice()),
            offsets: vstd::slice::slice_to_vec(self.offsets.as_slice()),
        };
        assert(r@ =~= self@);
        r
    }
}

/// A column that holds texts holds one more after an append; the length of the
/// data is a number of 64 bits.
pub proof fn law_append_cell(column: ColumnView, cells: Seq<Seq<char>>, text: Seq<char>)
    requires
        column.holds(cells),
        column.appended(text).data.len() <= u64::MAX,
    ensures
        column.appended(text).holds(cells.push(text)),
{
    let after = column.appended(text);
    let d = column.data;
    let o = column.offsets;
    let bytes = encode_utf8(text);
    lemma_read_written(d.len() as u64, 0, 0);
    lemma_read_written(bytes.len() as u64, 0, 0);
    let all = cells.push(text);
    assert forall|k: int| 0 <= k < all.len() implies #[trigger] cell_bytes(
        after.data,
        after.offsets,
        k,
    ) == Some(encode_utf8(all[k])) by {
        if k < cells.len() {
            assert(cell_bytes(d, o, k) == Some(encode_utf8(cells[k])));
            assert(after.offsets.subrange(8 * k, 8 * k + 8) =~= o.subrange(8 * k, 8 * k + 8));
            let start = u64_at(o, 8 * k) as int;
            assert(after.data.subrange(start, start + 8) =~= d.subrange(start, start + 8));
            let len = u64_at(d, start) as int;
            assert(after.data.subrange(start + 8, start + 8 + len) =~= d.subrange(
                start + 8,
                start + 8 + len,
            ));
        } else {
            assert(after.offsets.subrange(8 * k, 8 * k + 8) =~= le64(d.len() as u64));
            let start = d.len() as int;
            assert(after.data.subrange(start, start + 8) =~= le64(bytes.len() as u64));
            assert(after.data.subrange(start + 8, start + 8 + bytes.len()) =~= bytes);
        }
    }
}

/// Reading a cell gives the text that the column holds there.
pub proof fn law_read_back(column: ColumnView, cells: Seq<Seq<char>>, id: int)
    requires
        column.holds(cells),
        0 <= id < cells.len(),
    ensures
        column.text(id) == cells[id],
{
    assert(cell_bytes(column.data, column.offsets, id) == Some(encode_utf8(cells[id])));
    vstd::utf8::encode_utf8_valid_utf8(cells[id]);
    vstd::utf8::encode_utf8_decode_utf8(cells[id]);
}

} // verus!
