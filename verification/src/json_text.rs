//! JSON texts, as `serde_json` reads and writes them.

use crate::text::texts;
use serde_json::Value;
use vstd::prelude::*;

verus! {

/// Whether `serde_json::from_str` reads a value out of a text.
pub uninterp spec fn json_readable(s: Seq<char>) -> bool;

/// What `serde_json::to_string_pretty` writes of the value that a text holds;
/// nothing where the text holds none.
pub uninterp spec fn json_pretty(s: Seq<char>) -> Option<Seq<char>>;

/// `serde_json::from_str`, for any value: whether the text holds one.
#[verifier::external_body]
pub(crate) fn is_json(s: &str) -> (r: bool)
    ensures
        r == json_readable(s@),
{
    serde_json::from_str::<Value>(s).is_ok()
}

/// `serde_json::from_str` and `serde_json::to_string_pretty`: the value that the
/// text holds, written with one entry per line.
#[verifier::external_body]
pub(crate) fn pretty_json(s: &str) -> (r: Option<String>)
    ensures
        match r {
            Some(t) => json_pretty(s@) == Some(t@),
            None => json_pretty(s@) is None,
        },
{
    let value: Option<Value> = serde_json::from_str(s).ok();
    value.and_then(|v| serde_json::to_string_pretty(&v).ok())
}

/// The text that `Value::pointer` and `Value::as_str` give at a place of the value that a
/// text holds; nothing where the text holds none, or no text stands there.
pub uninterp spec fn json_string_at(s: Seq<char>, place: Seq<char>) -> Option<Seq<char>>;

/// The number that `Value::pointer` and `Value::as_u64` give at a place of the value that
/// a text holds.
pub uninterp spec fn json_number_at(s: Seq<char>, place: Seq<char>) -> Option<u64>;

/// The truth value that `Value::pointer` and `Value::as_bool` give at a place of the value
/// that a text holds.
pub uninterp spec fn json_flag_at(s: Seq<char>, place: Seq<char>) -> Option<bool>;

/// The items of the list that `Value::pointer` and `Value::as_array` give at a place of
/// the value that a text holds, each written as JSON.
pub uninterp spec fn json_items_at(s: Seq<char>, place: Seq<char>) -> Option<Seq<Seq<char>>>;

/// `serde_json::from_str`, `Value::pointer` and `Value::as_str`: the text at a place of
/// the value that the text holds.
#[verifier::external_body]
pub(crate) fn string_at(s: &str, place: &str) -> (r: Option<String>)
    ensures
        match r {
            Some(t) => json_string_at(s@, place@) == Some(t@),
            None => json_string_at(s@, place@) is None,
        },
{
    let value: Value = serde_json::from_str(s).ok()?;
    value.pointer(place)?.as_str().map(String::from)
}

/// `serde_json::from_str`, `Value::pointer` and `Value::as_u64`: the number at a place of
/// the value that the text holds.
#[verifier::external_body]
pub(crate) fn number_at(s: &str, place: &str) -> (r: Option<u64>)
    ensures
        r == json_number_at(s@, place@),
{
    let value: Value = serde_json::from_str(s).ok()?;
    value.pointer(place)?.as_u64()
}

/// `serde_json::from_str`, `Value::pointer` and `Value::as_bool`: the truth value at a
/// place of the value that the text holds.
#[verifier::external_body]
pub(crate) fn flag_at(s: &str, place: &str) -> (r: Option<bool>)
    ensures
        r == json_flag_at(s@, place@),
{
    let value: Value = serde_json::from_str(s).ok()?;
    value.pointer(place)?.as_bool()
}

/// `serde_json::from_str`, `Value::pointer` and `Value::as_array`: the items of the list
/// at a place of the value that the text holds, each as `Display` writes it.
#[verifier::external_body]
pub(crate) fn items_at(s: &str, place: &str) -> (r: Option<Vec<String>>)
    ensures
        match r {
            Some(v) => json_items_at(s@, place@) == Some(texts(v@)),
            None => json_items_at(s@, place@) is None,
        },
{
    let value: Value = serde_json::from_str(s).ok()?;
    let items = value.pointer(place)?.as_array()?;
    Some(items.iter().map(|v| v.to_string()).collect())
}

/// A member of a JSON object.
#[derive(Debug)]
pub enum JsonCell {
    Text(String),
    /// A number, as it is written.
    Number(String),
    Flag(bool),
    Nothing,
    /// A list or an object, as it is written.
    Other(String),
}

/// A member of a JSON object, by its text.
pub enum JsonCellView {
    Text(Seq<char>),
    Number(Seq<char>),
    Flag(bool),
    Nothing,
    Other(Seq<char>),
}

impl View for JsonCell {
    type V = JsonCellView;

    open spec fn view(&self) -> JsonCellView {
        match self {
            JsonCell::Text(s) => JsonCellView::Text(s@),
            JsonCell::Number(s) => JsonCellView::Number(s@),
            JsonCell::Flag(b) => JsonCellView::Flag(*b),
            JsonCell::Nothing => JsonCellView::Nothing,
            JsonCell::Other(s) => JsonCellView::Other(s@),
        }
    }
}

/// The members of an object with their names.
pub open spec fn members_view(v: Seq<(String, JsonCell)>) -> Seq<(Seq<char>, JsonCellView)> {
    v.map_values(|p: (String, JsonCell)| (p.0@, p.1@))
}

/// What `serde_json::from_str` reads out of a text as an object, as its members are
/// listed; nothing where the text holds no object.
pub uninterp spec fn json_members(s: Seq<char>) -> Option<Seq<(Seq<char>, JsonCellView)>>;

/// `serde_json::from_str`, for any value: the members of the object that the text
/// holds, each value told apart by its kind, with numbers, lists and objects as
/// `Display` writes them.
#[verifier::external_body]
pub(crate) fn parse_members(line: &str) -> (r: Option<Vec<(String, JsonCell)>>)
    ensures
        match r {
            Some(v) => json_members(line@) == Some(members_view(v@)),
            None => json_members(line@) is None,
        },
{
    let Ok(Value::Object(map)) = serde_json::from_str::<Value>(line) else { return None };
    let members = map.into_iter().map(|(k, v)| match v {
        Value::String(s) => (k, JsonCell::Text(s)),
        Value::Number(n) => (k, JsonCell::Number(n.to_string())),
        Value::Bool(b) => (k, JsonCell::Flag(b)),
        Value::Null => (k, JsonCell::Nothing),
        o => (k, JsonCell::Other(o.to_string())),
    });
    Some(members.collect())
}

/// What `Display` writes of the value that a text holds; nothing where the text holds
/// none.
pub uninterp spec fn json_compact(s: Seq<char>) -> Option<Seq<char>>;

/// `serde_json::from_str` and `Display` of a value: the value that the text holds,
/// written on one line.
#[verifier::external_body]
pub(crate) fn compact_json(s: &str) -> (r: Option<String>)
    ensures
        match r {
            Some(t) => json_compact(s@) == Some(t@),
            None => json_compact(s@) is None,
        },
{
    serde_json::from_str::<Value>(s).ok().map(|v| v.to_string())
}

/// The digit of a number below sixteen.
pub open spec fn hex_digit(n: int) -> char {
    if n < 10 {
        ('0' as u32 + n) as char
    } else {
        ('a' as u32 + n - 10) as char
    }
}

/// A character inside a JSON string.
pub open spec fn json_escape(c: char) -> Seq<char> {
    if c == '"' || c == '\\' {
        seq!['\\', c]
    } else if c == '\n' {
        seq!['\\', 'n']
    } else if c == '\r' {
        seq!['\\', 'r']
    } else if c == '\t' {
        seq!['\\', 't']
    } else if c as u32 == 0x8 {
        seq!['\\', 'b']
    } else if c as u32 == 0xc {
        seq!['\\', 'f']
    } else if (c as u32) < 0x20 {
        seq!['\\', 'u', '0', '0', hex_digit(c as int / 16), hex_digit(c as int % 16)]
    } else {
        seq![c]
    }
}

/// The characters of a text inside a JSON string.
pub open spec fn json_escaped(s: Seq<char>) -> Seq<char>
    decreases s.len(),
{
    if s.len() == 0 {
        Seq::empty()
    } else {
        json_escaped(s.drop_last()) + json_escape(s.last())
    }
}

/// A text as a JSON string.
pub open spec fn json_string(s: Seq<char>) -> Seq<char> {
    seq!['"'] + json_escaped(s) + seq!['"']
}

/// `Display` of a text as a JSON value: the text between quotation marks, with quotation
/// marks, backslashes and control characters escaped.
#[verifier::external_body]
pub(crate) fn write_string(s: &str) -> (r: String)
    ensures
        r@ == json_string(s@),
{
    Value::from(s).to_string()
}

impl JsonCellView {
    /// The member as it is written.
    pub open spec fn written(self) -> Seq<char> {
        match self {
            JsonCellView::Text(s) => json_string(s),
            JsonCellView::Number(s) => s,
            JsonCellView::Flag(b) => if b {
                "true"@
            } else {
                "false"@
            },
            JsonCellView::Nothing => "null"@,
            JsonCellView::Other(s) => s,
        }
    }

    /// The text of the member, where it is one.
    pub open spec fn string(self) -> Option<Seq<char>> {
        match self {
            JsonCellView::Text(s) => Some(s),
            _ => None,
        }
    }
}

impl JsonCell {
    /// The member as it is written.
    pub fn written(&self) -> (r: String)
        ensures
            r@ == self@.written(),
    {
        match self {
            JsonCell::Text(s) => write_string(s.as_str()),
            JsonCell::Number(s) => s.clone(),
            JsonCell::Flag(b) => if *b {
                "true".to_owned()
            } else {
                "false".to_owned()
            },
            JsonCell::Nothing => "null".to_owned(),
            JsonCell::Other(s) => s.clone(),
        }
    }
}

/// The name of the first member of the object that a text holds.
pub open spec fn first_name(s: Seq<char>) -> Option<Seq<char>> {
    match json_members(s) {
        Some(m) => if m.len() > 0 {
            Some(m[0].0)
        } else {
            None
        },
        None => None,
    }
}

/// The members of the first member of the object that a text holds, where that is an
/// object too.
pub open spec fn first_settings(s: Seq<char>) -> Option<Seq<(Seq<char>, JsonCellView)>> {
    match json_members(s) {
        Some(m) => if m.len() > 0 {
            match m[0].1 {
                JsonCellView::Other(t) => json_members(t),
                _ => None,
            }
        } else {
            None
        },
        None => None,
    }
}

/// The name of the first member of the object that a text holds, and the members of its
/// value, where that is an object too.
pub fn parse_settings(s: &str) -> (r: (Option<String>, Option<Vec<(String, JsonCell)>>))
    ensures
        match r.0 {
            Some(k) => first_name(s@) == Some(k@),
            None => first_name(s@) is None,
        },
        match r.1 {
            Some(v) => first_settings(s@) == Some(members_view(v@)),
            None => first_settings(s@) is None,
        },
{
    match parse_members(s) {
        Some(m) => if m.len() > 0 {
            assert(members_view(m@)[0] == (m@[0].0@, m@[0].1@));
            let settings = match &m[0].1 {
                JsonCell::Other(t) => parse_members(t.as_str()),
                _ => None,
            };
            (Some(m[0].0.clone()), settings)
        } else {
            (None, None)
        },
        None => (None, None),
    }
}

} // verus!
