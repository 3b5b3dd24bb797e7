//! Names of deployments and of hosts.

use crate::phrase::{
    cat2, cat3, end_trimmed, ends_in, ends_with_char, pieces, split_on,
    trim_end_char,
};
use crate::repl::grid::{byte_len, bytes_in};
use crate::text::{
    chars_of, contains_text, decimal, decimal_spec, occurs_in, text_between, texts, trim_spec,
    trimmed,
};
use vstd::prelude::*;

verus! {

/// Whether the character is a small letter of ASCII.
pub open spec fn is_small(c: char) -> bool {
    'a' <= c && c <= 'z'
}

/// Whether the character is a decimal digit.
pub open spec fn is_number(c: char) -> bool {
    '0' <= c && c <= '9'
}

/// Whether the character is a letter or a digit of ASCII.
pub open spec fn is_alphanumeric(c: char) -> bool {
    is_small(c) || 'A' <= c && c <= 'Z' || is_number(c)
}

/// Why a text is no name for a deployment.
#[derive(Clone, Copy, Debug, PartialEq, Eq, Structural)]
pub enum NameError {
    /// It has not three to thirty-two bytes, but this many.
    Length(usize),
    /// It begins with this character, which is no small letter.
    Start(char),
    /// It ends with a hyphen.
    End,
    /// It holds this character, which is no small letter, digit or hyphen.
    Character(char),
}

/// Whether a character can stand in the name of a deployment.
pub open spec fn name_char(c: char) -> bool {
    is_small(c) || is_number(c) || c == '-'
}

/// The first character, from a place on, that cannot stand in a name.
pub open spec fn first_bad(s: Seq<char>, from: int) -> Option<char>
    decreases s.len() - from,
{
    if from < 0 || from >= s.len() {
        None
    } else if !name_char(s[from]) {
        Some(s[from])
    } else {
        first_bad(s, from + 1)
    }
}

/// What is wrong with a name, if anything.
pub open spec fn name_fault(name: Seq<char>) -> Option<NameError> {
    let n = trim_spec(name);
    if byte_len(n) < 3 || byte_len(n) > 32 {
        Some(NameError::Length(byte_len(n) as usize))
    } else if !is_small(n[0]) {
        Some(NameError::Start(n[0]))
    } else if ends_in(n, '-') {
        Some(NameError::End)
    } else {
        match first_bad(n, 0) {
            Some(c) => Some(NameError::Character(c)),
            None => None,
        }
    }
}

/// Whether a text, but for white space around it, can name a deployment: three to
/// thirty-two small letters, digits and hyphens, with a letter at the beginning and no
/// hyphen at the end.
pub fn validate_deployment_name(name: &str) -> (r: Result<(), NameError>)
    ensures
        match r {
            Ok(()) => name_fault(name@) is None,
            Err(e) => name_fault(name@) == Some(e),
        },
{
    let n = trimmed(name);
    let len = bytes_in(n.as_str());
    if len < 3 || len > 32 {
        return Err(NameError::Length(len));
    }
    let cs = chars_of(n.as_str());
    proof {
        if n@.len() == 0 {
            assert(n@ =~= Seq::empty());
            reveal_with_fuel(vstd::utf8::encode_utf8, 2);
            assert(byte_len(n@) == 0);
        }
    }
    let first = cs[0];
    if !('a' <= first && first <= 'z') {
        return Err(NameError::Start(first));
    }
    if ends_with_char(n.as_str(), '-') {
        return Err(NameError::End);
    }
    let mut i: usize = 0;
    while i < cs.len()
        invariant
            i <= cs@.len(),
            cs@ == n@,
            first_bad(n@, 0) == first_bad(n@, i as int),
            n@ == trim_spec(name@),
            byte_len(n@) >= 3,
            byte_len(n@) <= 32,
            is_small(n@[0]),
            !ends_in(n@, '-'),
        decreases cs@.len() - i,
    {
        let c = cs[i];
        if !('a' <= c && c <= 'z' || '0' <= c && c <= '9' || c == '-') {
            return Err(NameError::Character(c));
        }
        i = i + 1;
    }
    Ok(())
}

fn with_character(front: &str, c: char, back: &str) -> (r: String)
    ensures
        r@ == front@.push(c) + back@,
{
    let mut s = front.to_owned();
    s.push(c);
    s.append(back);
    s
}

impl NameError {
    /// What is wrong, in words.
    pub open spec fn text(self) -> Seq<char> {
        match self {
            NameError::Length(n) => "Name must be 3–32 characters (got "@ + decimal_spec(n as nat)
                + ")."@,
            NameError::Start(c) => "Name must start with a lowercase letter (got '"@.push(c)
                + "')."@,
            NameError::End => "Name cannot end with '-'."@,
            NameError::Character(c) =>
            "Name can only contain lowercase letters, digits, and hyphens (offending char: '"@.push(
                c,
            ) + "')."@,
        }
    }

    /// What is wrong, in words.
    pub fn message(&self) -> (r: String)
        ensures
            r@ == self.text(),
    {
        match self {
            NameError::Length(n) => {
                let d = decimal(*n as u64);
                cat3("Name must be 3–32 characters (got ", d.as_str(), ").")
            },
            NameError::Start(c) => with_character(
                "Name must start with a lowercase letter (got '",
                *c,
                "').",
            ),
            NameError::End => "Name cannot end with '-'.".to_owned(),
            NameError::Character(c) => with_character(
                "Name can only contain lowercase letters, digits, and hyphens (offending char: '",
                *c,
                "').",
            ),
        }
    }
}

/// A host name as it is read: without white space around it and points behind it.
pub open spec fn host_text(s: Seq<char>) -> Seq<char> {
    end_trimmed(trim_spec(s), '.')
}

/// The place of the first point, from a place on.
pub open spec fn point_place(s: Seq<char>, from: int) -> Option<int>
    decreases s.len() - from,
{
    if from < 0 || from >= s.len() {
        None
    } else if s[from] == '.' {
        Some(from)
    } else {
        point_place(s, from + 1)
    }
}

/// The host name for gRPC that goes with one for REST: `-grpc` is put behind its first
/// label.
pub open spec fn grpc_domain(rest_domain: Seq<char>) -> Seq<char> {
    let rest = host_text(rest_domain);
    match point_place(rest, 0) {
        Some(i) => rest.take(i) + "-grpc."@ + rest.skip(i + 1),
        None => rest + "-grpc"@,
    }
}

/// A host name for gRPC, suggested where none is known.
pub fn suggest_grpc_domain(rest_domain: &str) -> (r: String)
    ensures
        r@ == grpc_domain(rest_domain@),
{
    let t = trimmed(rest_domain);
    let rest = trim_end_char(t.as_str(), '.');
    let cs = chars_of(rest.as_str());
    let mut i: usize = 0;
    while i < cs.len()
        invariant
            i <= cs@.len(),
            cs@ == rest@,
            rest@ == host_text(rest_domain@),
            point_place(rest@, 0) == point_place(rest@, i as int),
        decreases cs@.len() - i,
    {
        if cs[i] == '.' {
            let first = text_between(cs.as_slice(), 0, i);
            let labels = text_between(cs.as_slice(), i + 1, cs.len());
            assert(first@ =~= rest@.take(i as int));
            assert(labels@ =~= rest@.skip(i + 1));
            return cat3(first.as_str(), "-grpc.", labels.as_str());
        }
        i = i + 1;
    }
    cat2(rest.as_str(), "-grpc")
}

/// Why a text is no public host name.
#[derive(Clone, Copy, Debug, PartialEq, Eq, Structural)]
pub enum HostError {
    /// It has not four to two hundred and fifty-three bytes.
    Length,
    /// It is an address, or has a port.
    Address,
    /// It has no point.
    NoPoint,
    /// A label is empty, or has more than sixty-three bytes.
    Label,
    /// A label does not begin with a letter or a digit.
    LabelStart,
    /// A label holds something else than letters, digits and hyphens.
    LabelCharacter,
}

/// Whether a character can stand in a label.
pub open spec fn label_char(c: char) -> bool {
    is_alphanumeric(c) || c == '-'
}

/// What is wrong with a label, if anything.
pub open spec fn label_fault(label: Seq<char>) -> Option<HostError> {
    if label.len() == 0 || byte_len(label) > 63 {
        Some(HostError::Label)
    } else if !is_alphanumeric(label[0]) {
        Some(HostError::LabelStart)
    } else if exists|i: int| 0 <= i < label.len() && !label_char(#[trigger] label[i]) {
        Some(HostError::LabelCharacter)
    } else {
        None
    }
}

/// What is wrong with the first label that anything is wrong with.
pub open spec fn labels_fault(labels: Seq<Seq<char>>, from: int) -> Option<HostError>
    decreases labels.len() - from,
{
    if from < 0 || from >= labels.len() {
        None
    } else {
        match label_fault(labels[from]) {
            Some(e) => Some(e),
            None => labels_fault(labels, from + 1),
        }
    }
}

/// What is wrong with a host name, if anything.
pub open spec fn host_fault(domain: Seq<char>) -> Option<HostError> {
    let d = host_text(domain);
    if byte_len(d) < 4 || byte_len(d) > 253 {
        Some(HostError::Length)
    } else if occurs_in(d, "://"@) || d.contains('/') || d.contains(':') {
        Some(HostError::Address)
    } else if !d.contains('.') {
        Some(HostError::NoPoint)
    } else {
        labels_fault(pieces(d, '.'), 0)
    }
}

fn has_char(s: &str, c: char) -> (r: bool)
    ensures
        r == s@.contains(c),
{
    let cs = chars_of(s);
    let mut i: usize = 0;
    while i < cs.len()
        invariant
            i <= cs@.len(),
            cs@ == s@,
            forall|k: int| 0 <= k < i ==> #[trigger] s@[k] != c,
        decreases cs@.len() - i,
    {
        if cs[i] == c {
            assert(s@[i as int] == c);
            return true;
        }
        i = i + 1;
    }
    false
}

fn check_label(label: &str) -> (r: Option<HostError>)
    ensures
        r == label_fault(label@),
{
    let cs = chars_of(label);
    if cs.len() == 0 || bytes_in(label) > 63 {
        return Some(HostError::Label);
    }
    let first = cs[0];
    if !('a' <= first && first <= 'z' || 'A' <= first && first <= 'Z' || '0' <= first && first
        <= '9') {
        return Some(HostError::LabelStart);
    }
    let mut i: usize = 0;
    while i < cs.len()
        invariant
            i <= cs@.len(),
            cs@ == label@,
            label@.len() > 0,
            byte_len(label@) <= 63,
            is_alphanumeric(label@[0]),
            forall|k: int| 0 <= k < i ==> label_char(#[trigger] label@[k]),
        decreases cs@.len() - i,
    {
        let c = cs[i];
        if !('a' <= c && c <= 'z' || 'A' <= c && c <= 'Z' || '0' <= c && c <= '9' || c == '-') {
            assert(!label_char(label@[i as int]));
            return Some(HostError::LabelCharacter);
        }
        i = i + 1;
    }
    None
}

/// Whether a text, but for white space around it and points behind it, is a public
/// host name: labels of letters, digits and hyphens between points, without a scheme
/// or a port.
pub fn validate_public_hostname(domain: &str) -> (r: Result<(), HostError>)
    ensures
        match r {
            Ok(()) => host_fault(domain@) is None,
            Err(e) => host_fault(domain@) == Some(e),
        },
{
    let t = trimmed(domain);
    let d = trim_end_char(t.as_str(), '.');
    let len = bytes_in(d.as_str());
    if len < 4 || len > 253 {
        return Err(HostError::Length);
    }
    if contains_text(d.as_str(), "://") || has_char(d.as_str(), '/') || has_char(d.as_str(), ':') {
        return Err(HostError::Address);
    }
    if !has_char(d.as_str(), '.') {
        return Err(HostError::NoPoint);
    }
    let labels = split_on(d.as_str(), '.');
    let ghost ls = texts(labels@);
    let mut i: usize = 0;
    while i < labels.len()
        invariant
            i <= labels@.len(),
            ls == texts(labels@),
            ls == pieces(d@, '.'),
            d@ == host_text(domain@),
            host_fault(domain@) == labels_fault(ls, 0),
            labels_fault(ls, 0) == labels_fault(ls, i as int),
        decreases labels@.len() - i,
    {
        assert(ls[i as int] == labels@[i as int]@);
        if let Some(e) = check_label(labels[i].as_str()) {
            return Err(e);
        }
        i = i + 1;
    }
    Ok(())
}

impl HostError {
    /// What is wrong, in words; a label is named by the host name that it is in.
    pub open spec fn text(self, domain: Seq<char>) -> Seq<char> {
        match self {
            HostError::Length => "Hostname must be 4–253 characters."@,
            HostError::Address =>
            "Enter only the hostname (e.g. dash-sac.dev.parking.net.co), not a URL or port."@,
            HostError::NoPoint =>
            "Hostname must look like a DNS name (contain at least one dot)."@,
            HostError::Label => "Invalid hostname label in '"@ + host_text(domain) + "'."@,
            HostError::LabelStart => "Each label must start with a letter or digit."@,
            HostError::LabelCharacter =>
            "Hostname labels may only contain letters, digits, and hyphens."@,
        }
    }

    /// What is wrong, in words.
    pub fn message(&self, domain: &str) -> (r: String)
        ensures
            r@ == self.text(domain@),
    {
        match self {
            HostError::Length => "Hostname must be 4–253 characters.".to_owned(),
            HostError::Address =>
            "Enter only the hostname (e.g. dash-sac.dev.parking.net.co), not a URL or port.".to_owned(),
            HostError::NoPoint =>
            "Hostname must look like a DNS name (contain at least one dot).".to_owned(),
            HostError::Label => {
                let t = trimmed(domain);
                let d = trim_end_char(t.as_str(), '.');
                cat3("Invalid hostname label in '", d.as_str(), "'.")
            },
            HostError::LabelStart => "Each label must start with a letter or digit.".to_owned(),
            HostError::LabelCharacter =>
            "Hostname labels may only contain letters, digits, and hyphens.".to_owned(),
        }
    }
}

/// A name for a deployment begins with a small letter and holds none but small
/// letters, digits and hyphens.
pub proof fn law_names_are_plain(name: Seq<char>)
    requires
        name_fault(name) is None,
    ensures
        trim_spec(name).len() > 0,
        is_small(trim_spec(name)[0]),
        trim_spec(name).last() != '-',
        forall|i: int| 0 <= i < trim_spec(name).len() ==> name_char(#[trigger] trim_spec(name)[i]),
{
    let n = trim_spec(name);
    if n.len() == 0 {
        assert(n =~= Seq::empty());
        reveal_with_fuel(vstd::utf8::encode_utf8, 2);
    }
    assert forall|i: int| 0 <= i < n.len() implies name_char(#[trigger] n[i]) by {
        lemma_first_bad(n, 0, i);
    }
}

proof fn lemma_first_bad(s: Seq<char>, from: int, i: int)
    requires
        first_bad(s, from) is None,
        0 <= from <= i < s.len(),
    ensures
        name_char(s[i]),
    decreases s.len() - from,
{
    if from < i {
        lemma_first_bad(s, from + 1, i);
    }
}

} // verus!
