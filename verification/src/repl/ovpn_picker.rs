//! Going through folders to pick a file of a VPN.

use crate::phrase::{begins_with, cat2, cat3, first_chars, keep_chars, last_chars, starts_with_char, take_chars};
use crate::repl::grid::{byte_len, bytes_in};
use crate::settings::{ascii_lower, lower_ascii};
use crate::text::{chars_of, same_text, text_between, texts};
use crate::text_sort::{sort_texts, sorted_texts};
use vstd::prelude::*;

verus! {

/// A path cut to fit in a question: its end, behind three points.
pub open spec fn short_path(path: Seq<char>) -> Seq<char> {
    if byte_len(path) <= 52 {
        path
    } else {
        "..."@ + last_chars(path, 49)
    }
}

/// A path cut to fit in a question.
pub fn shorten_prompt(path: &str) -> (r: String)
    ensures
        r@ == short_path(path@),
{
    if bytes_in(path) <= 52 {
        path.to_owned()
    } else {
        let tail = keep_chars(path, 49);
        cat2("...", tail.as_str())
    }
}

/// An entry as it is listed: set in, and cut to fit.
pub open spec fn entry_label(body: Seq<char>) -> Seq<char> {
    let s = "  "@ + body;
    if s.len() <= 52 {
        s
    } else {
        first_chars(s, 51) + "…"@
    }
}

/// An entry as it is listed.
pub fn truncate_entry_label(body: &str) -> (r: String)
    ensures
        r@ == entry_label(body@),
{
    let s = cat2("  ", body);
    if chars_of(s.as_str()).len() <= 52 {
        s
    } else {
        let t = take_chars(s.as_str(), 51);
        cat2(t.as_str(), "…")
    }
}

/// Something in a folder.
pub struct PickEntry {
    pub name: String,
    pub is_folder: bool,
    pub is_file: bool,
}

/// What a `PickEntry` stands for.
pub struct PickView {
    pub name: Seq<char>,
    pub is_folder: bool,
    pub is_file: bool,
}

impl View for PickEntry {
    type V = PickView;

    open spec fn view(&self) -> PickView {
        PickView { name: self.name@, is_folder: self.is_folder, is_file: self.is_file }
    }
}

/// What entries stand for.
pub open spec fn pick_views(v: Seq<PickEntry>) -> Seq<PickView> {
    v.map_values(|e: PickEntry| e@)
}

/// The place of the last point of a name.
pub open spec fn last_point(s: Seq<char>) -> Option<int>
    decreases s.len(),
{
    if s.len() == 0 {
        None
    } else if s.last() == '.' {
        Some(s.len() - 1)
    } else {
        last_point(s.drop_last())
    }
}

/// The ending of a name: what is behind its last point, unless that begins the name.
pub open spec fn ending(name: Seq<char>) -> Option<Seq<char>> {
    match last_point(name) {
        Some(i) => if i == 0 {
            None
        } else {
            Some(name.skip(i + 1))
        },
        None => None,
    }
}

/// Whether a name is that of a file of a VPN.
pub open spec fn is_ovpn(name: Seq<char>) -> bool {
    ending(name) matches Some(e) && ascii_lower(e) == "ovpn"@
}

fn has_ovpn_ending(name: &str) -> (r: bool)
    ensures
        r == is_ovpn(name@),
{
    let cs = chars_of(name);
    let mut n: usize = cs.len();
    assert(name@.take(n as int) =~= name@);
    while n > 0
        invariant
            n <= cs@.len(),
            cs@ == name@,
            last_point(name@) == last_point(name@.take(n as int)),
        decreases n,
    {
        assert(name@.take(n as int).drop_last() =~= name@.take(n - 1));
        if cs[n - 1] == '.' {
            assert(last_point(name@) == Some(n - 1));
            if n == 1 {
                return false;
            }
            let e = text_between(cs.as_slice(), n, cs.len());
            assert(e@ =~= name@.skip(n as int));
            let low = lower_ascii(e.as_str());
            return same_text(low.as_str(), "ovpn");
        }
        n = n - 1;
    }
    false
}

/// The names of the folders that are not hidden.
pub open spec fn folder_names(v: Seq<PickView>) -> Seq<Seq<char>>
    decreases v.len(),
{
    if v.len() == 0 {
        Seq::empty()
    } else {
        let front = folder_names(v.drop_last());
        let e = v.last();
        if !begins_with(e.name, '.') && e.is_folder {
            front.push(e.name)
        } else {
            front
        }
    }
}

/// The names of the files of VPNs that are not hidden.
pub open spec fn file_names(v: Seq<PickView>) -> Seq<Seq<char>>
    decreases v.len(),
{
    if v.len() == 0 {
        Seq::empty()
    } else {
        let front = file_names(v.drop_last());
        let e = v.last();
        if !begins_with(e.name, '.') && !e.is_folder && e.is_file && is_ovpn(e.name) {
            front.push(e.name)
        } else {
            front
        }
    }
}

/// The folders and the files of VPNs that are not hidden, each in order.
pub fn list_dirs_and_ovpns(entries: &Vec<PickEntry>) -> (r: (Vec<String>, Vec<String>))
    ensures
        texts(r.0@) == sorted_texts(folder_names(pick_views(entries@))),
        texts(r.1@) == sorted_texts(file_names(pick_views(entries@))),
{
    let ghost views = pick_views(entries@);
    let mut dirs: Vec<String> = Vec::new();
    let mut ovpns: Vec<String> = Vec::new();
    let mut i: usize = 0;
    assert(views.take(0) =~= Seq::empty());
    assert(texts(dirs@) =~= Seq::empty());
    assert(texts(ovpns@) =~= Seq::empty());
    while i < entries.len()
        invariant
            i <= entries@.len(),
            views == pick_views(entries@),
            texts(dirs@) == folder_names(views.take(i as int)),
            texts(ovpns@) == file_names(views.take(i as int)),
        decreases entries@.len() - i,
    {
        assert(views.take(i + 1).drop_last() =~= views.take(i as int));
        assert(views[i as int] == entries@[i as int]@);
        let e = &entries[i];
        if !starts_with_char(e.name.as_str(), '.') {
            if e.is_folder {
                let ghost held = texts(dirs@);
                dirs.push(e.name.clone());
                assert(texts(dirs@) =~= held.push(e.name@));
            } else if e.is_file && has_ovpn_ending(e.name.as_str()) {
                let ghost held = texts(ovpns@);
                ovpns.push(e.name.clone());
                assert(texts(ovpns@) =~= held.push(e.name@));
            }
        }
        i = i + 1;
    }
    assert(views.take(i as int) =~= views);
    (sort_texts(dirs.as_slice()), sort_texts(ovpns.as_slice()))
}

/// What is picked.
#[derive(Clone, Copy, Debug, PartialEq, Eq, Structural)]
pub enum Picked {
    /// The folder above.
    Up,
    /// A folder, by its number in the list of folders.
    EnterDir(usize),
    /// A file, by its number in the list of files.
    OvpnFile(usize),
    /// Type instead.
    TypeInstead,
}

/// What can be picked, in the order in which it is listed: the folder above where there
/// is one, the folders, the files, and typing instead.
pub open spec fn pick_list(has_parent: bool, dirs: nat, ovpns: nat) -> Seq<Picked> {
    (if has_parent {
        seq![Picked::Up]
    } else {
        Seq::empty()
    }) + Seq::new(dirs, |i: int| Picked::EnterDir(i as usize)) + Seq::new(
        ovpns,
        |i: int| Picked::OvpnFile(i as usize),
    ) + seq![Picked::TypeInstead]
}

/// What can be picked, with its label.
pub fn pick_items(has_parent: bool, dirs: &Vec<String>, ovpns: &Vec<String>) -> (r: Vec<
    (Picked, String),
>)
    ensures
        r@.map_values(|p: (Picked, String)| p.0) == pick_list(
            has_parent,
            dirs@.len(),
            ovpns@.len(),
        ),
        forall|i: int|
            0 <= i < r@.len() ==> (#[trigger] r@[i]).1@ == pick_label(
                r@[i].0,
                texts(dirs@),
                texts(ovpns@),
            ),
{
    let mut out: Vec<(Picked, String)> = Vec::new();
    if has_parent {
        out.push((Picked::Up, "  ⬆ Parent folder".to_owned()));
    }
    let ghost head = out@.map_values(|p: (Picked, String)| p.0);
    let ghost ds = Seq::new(dirs@.len(), |i: int| Picked::EnterDir(i as usize));
    let ghost fs = Seq::new(ovpns@.len(), |i: int| Picked::OvpnFile(i as usize));
    assert(head =~= if has_parent {
        seq![Picked::Up]
    } else {
        Seq::empty()
    });
    let mut i: usize = 0;
    assert(head + ds.take(0) =~= head);
    while i < dirs.len()
        invariant
            i <= dirs@.len(),
            ds == Seq::new(dirs@.len(), |i: int| Picked::EnterDir(i as usize)),
            out@.map_values(|p: (Picked, String)| p.0) == head + ds.take(i as int),
            forall|k: int|
                0 <= k < out@.len() ==> (#[trigger] out@[k]).1@ == pick_label(
                    out@[k].0,
                    texts(dirs@),
                    texts(ovpns@),
                ),
        decreases dirs@.len() - i,
    {
        assert(texts(dirs@)[i as int] == dirs@[i as int]@);
        let body = cat3("📁 ", dirs[i].as_str(), "/");
        let label = truncate_entry_label(body.as_str());
        let ghost held = out@;
        out.push((Picked::EnterDir(i), label));
        assert(out@.map_values(|p: (Picked, String)| p.0) =~= held.map_values(
            |p: (Picked, String)| p.0,
        ).push(Picked::EnterDir(i)));
        assert(ds.take(i + 1) =~= ds.take(i as int).push(ds[i as int]));
        assert(out@.map_values(|p: (Picked, String)| p.0) =~= head + ds.take(i + 1));
        i = i + 1;
    }
    assert(ds.take(i as int) =~= ds);
    let ghost front = head + ds;
    let mut k: usize = 0;
    assert(front + fs.take(0) =~= front);
    while k < ovpns.len()
        invariant
            k <= ovpns@.len(),
            fs == Seq::new(ovpns@.len(), |i: int| Picked::OvpnFile(i as usize)),
            out@.map_values(|p: (Picked, String)| p.0) == front + fs.take(k as int),
            forall|j: int|
                0 <= j < out@.len() ==> (#[trigger] out@[j]).1@ == pick_label(
                    out@[j].0,
                    texts(dirs@),
                    texts(ovpns@),
                ),
        decreases ovpns@.len() - k,
    {
        assert(texts(ovpns@)[k as int] == ovpns@[k as int]@);
        let body = cat2("📄 ", ovpns[k].as_str());
        let label = truncate_entry_label(body.as_str());
        let ghost held = out@;
        out.push((Picked::OvpnFile(k), label));
        assert(out@.map_values(|p: (Picked, String)| p.0) =~= held.map_values(
            |p: (Picked, String)| p.0,
        ).push(Picked::OvpnFile(k)));
        assert(fs.take(k + 1) =~= fs.take(k as int).push(fs[k as int]));
        assert(out@.map_values(|p: (Picked, String)| p.0) =~= front + fs.take(k + 1));
        k = k + 1;
    }
    assert(fs.take(k as int) =~= fs);
    let ghost held = out@;
    out.push((Picked::TypeInstead, "  ✎ Path, URL, or paste (skip browse)".to_owned()));
    assert(out@.map_values(|p: (Picked, String)| p.0) =~= held.map_values(
        |p: (Picked, String)| p.0,
    ).push(Picked::TypeInstead));
    assert(out@.map_values(|p: (Picked, String)| p.0) =~= pick_list(
        has_parent,
        dirs@.len(),
        ovpns@.len(),
    ));
    out
}

/// The label of what can be picked.
pub open spec fn pick_label(p: Picked, dirs: Seq<Seq<char>>, ovpns: Seq<Seq<char>>) -> Seq<char> {
    match p {
        Picked::Up => "  ⬆ Parent folder"@,
        Picked::EnterDir(i) => entry_label("📁 "@ + dirs[i as int] + "/"@),
        Picked::OvpnFile(i) => entry_label("📄 "@ + ovpns[i as int]),
        Picked::TypeInstead => "  ✎ Path, URL, or paste (skip browse)"@,
    }
}

/// The question in a folder.
pub fn pick_prompt(folder: &str) -> (r: String)
    ensures
        r@ == "Pick .ovpn   ["@ + short_path(folder@) + "]"@,
{
    let s = shorten_prompt(folder);
    cat3("Pick .ovpn   [", s.as_str(), "]")
}

/// No entry takes more than fifty-two characters.
pub proof fn law_labels_fit(body: Seq<char>)
    ensures
        entry_label(body).len() <= 52,
{
    reveal_strlit("…");
}

} // verus!
