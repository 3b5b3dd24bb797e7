//! Which release is the newest, and whether it is the one that runs.

use crate::phrase::{begins_with, cat2, cat3, cat4, start_trimmed, starts_with_char, trim_start_char};
use crate::text::same_text;
use vstd::prelude::*;

verus! {

/// The name of the program for a system and a machine.
pub open spec fn target(windows: bool, os: Seq<char>, arch: Seq<char>) -> Seq<char> {
    if windows {
        "bittice-windows-"@ + arch + ".exe"@
    } else {
        "bittice-"@ + os + "-"@ + arch
    }
}

/// The name of the program for a system and a machine.
pub fn target_name(windows: bool, os: &str, arch: &str) -> (r: String)
    ensures
        r@ == target(windows, os@, arch@),
{
    if windows {
        cat3("bittice-windows-", arch, ".exe")
    } else {
        cat4("bittice-", os, "-", arch)
    }
}

/// The tag of a release: its version behind a `v`.
pub open spec fn tag_of(version: Seq<char>) -> Seq<char> {
    if begins_with(version, 'v') {
        version
    } else {
        "v"@ + version
    }
}

/// The tag of a release.
pub fn release_tag(version: &str) -> (r: String)
    ensures
        r@ == tag_of(version@),
{
    if starts_with_char(version, 'v') {
        version.to_owned()
    } else {
        cat2("v", version)
    }
}

/// What is to be done about the newest release.
#[derive(Debug)]
pub enum Update {
    /// There is none.
    NoRelease,
    UpToDate,
    /// Fetch the release of a tag.
    Fetch(String),
}

/// What is to be done, by its texts.
pub enum UpdateView {
    NoRelease,
    UpToDate,
    Fetch(Seq<char>),
}

impl View for Update {
    type V = UpdateView;

    open spec fn view(&self) -> UpdateView {
        match self {
            Update::NoRelease => UpdateView::NoRelease,
            Update::UpToDate => UpdateView::UpToDate,
            Update::Fetch(s) => UpdateView::Fetch(s@),
        }
    }
}

/// What is to be done about the newest release.
pub open spec fn update_of(current: Seq<char>, newest: Option<Seq<char>>) -> UpdateView {
    match newest {
        None => UpdateView::NoRelease,
        Some(v) => if current == start_trimmed(v, 'v') {
            UpdateView::UpToDate
        } else {
            UpdateView::Fetch(tag_of(v))
        },
    }
}

/// What is to be done about the newest release.
pub fn perform_update(current: &str, newest: Option<&str>) -> (r: Update)
    ensures
        r@ == update_of(
            current@,
            match newest {
                Some(v) => Some(v@),
                None => None,
            },
        ),
{
    match newest {
        None => Update::NoRelease,
        Some(v) => {
            let latest = trim_start_char(v, 'v');
            if same_text(current, latest.as_str()) {
                Update::UpToDate
            } else {
                Update::Fetch(release_tag(v))
            }
        },
    }
}

/// What went wrong on the way, from the outside in.
#[derive(Clone, Copy, Debug, PartialEq, Eq, Structural)]
pub enum Cause {
    PermissionDenied,
    Other,
}

/// Whether any cause is that a permission is missing.
pub fn is_permission_denied(causes: &Vec<Cause>) -> (r: bool)
    ensures
        r == causes@.contains(Cause::PermissionDenied),
{
    let mut i: usize = 0;
    while i < causes.len()
        invariant
            i <= causes@.len(),
            forall|k: int| 0 <= k < i ==> #[trigger] causes@[k] != Cause::PermissionDenied,
        decreases causes@.len() - i,
    {
        if causes[i] == Cause::PermissionDenied {
            assert(causes@[i as int] == Cause::PermissionDenied);
            return true;
        }
        i = i + 1;
    }
    false
}

/// What is to be removed.
#[derive(Clone, Copy, Debug, PartialEq, Eq, Structural)]
pub enum Removal {
    /// Nothing: the container is removed from outside.
    FromOutside,
    /// Nothing: it was not confirmed.
    Cancelled,
    /// The program, and the data or not; on Windows the program is left to the user.
    Remove { data: bool, program: bool },
}

/// What is to be removed, by what was answered.
pub open spec fn removal_of(
    in_container: bool,
    confirmed: bool,
    with_data: bool,
    windows: bool,
) -> Removal {
    if in_container {
        Removal::FromOutside
    } else if !confirmed {
        Removal::Cancelled
    } else {
        Removal::Remove { data: with_data, program: !windows }
    }
}

/// What is to be removed, by what was answered.
pub fn removal(in_container: bool, confirmed: bool, with_data: bool, windows: bool) -> (r: Removal)
    ensures
        r == removal_of(in_container, confirmed, with_data, windows),
{
    if in_container {
        Removal::FromOutside
    } else if !confirmed {
        Removal::Cancelled
    } else {
        Removal::Remove { data: with_data, program: !windows }
    }
}

/// The tag of a release and its version without a `v` are of the same release: a program
/// that runs the release of a tag is up to date.
pub proof fn law_fetched_is_up_to_date(v: Seq<char>)
    ensures
        update_of(start_trimmed(v, 'v'), Some(tag_of(v))) is UpToDate,
{
    reveal_strlit("v");
    if !begins_with(v, 'v') {
        let t = "v"@ + v;
        assert(t[0] == 'v');
        assert(t.skip(1) =~= v);
        assert(start_trimmed(t, 'v') == start_trimmed(v, 'v'));
    }
}

} // verus!
