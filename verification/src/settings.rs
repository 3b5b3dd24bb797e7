//! Settings, as they are given in texts.

use crate::text::{chars_of, parse_number, parsed_number, same_text, trim_spec, trimmed};
use vstd::prelude::*;

verus! {

/// An ASCII letter as a small one; other characters as they are.
pub open spec fn small_letter(c: char) -> char {
    if 'A' <= c && c <= 'Z' {
        (c as u32 + 32) as char
    } else {
        c
    }
}

/// The text with small letters.
pub open spec fn ascii_lower(s: Seq<char>) -> Seq<char> {
    s.map_values(|c: char| small_letter(c))
}

/// The text with small letters.
pub fn lower_ascii(s: &str) -> (r: String)
    ensures
        r@ == ascii_lower(s@),
{
    let cs = chars_of(s);
    let mut out = String::new();
    let mut i: usize = 0;
    while i < cs.len()
        invariant
            i <= cs@.len(),
            cs@ == s@,
            out@ == ascii_lower(s@).take(i as int),
        decreases cs@.len() - i,
    {
        let c = cs[i];
        let ghost before = out@;
        if 'A' <= c && c <= 'Z' {
            let b: u8 = c as u8;
            out.push((b + 32) as char);
        } else {
            out.push(c);
        }
        i = i + 1;
        assert(out@ =~= before.push(small_letter(c)));
        assert(out@ =~= ascii_lower(s@).take(i as int));
    }
    assert(ascii_lower(s@).take(i as int) =~= ascii_lower(s@));
    out
}

/// Whether a setting switches something on.
pub open spec fn is_on(setting: Option<Seq<char>>) -> bool {
    match setting {
        Some(s) => {
            let t = ascii_lower(trim_spec(s));
            t == "1"@ || t == "true"@ || t == "yes"@ || t == "on"@
        },
        None => false,
    }
}

/// The characters of a setting.
pub open spec fn setting_view(setting: Option<&str>) -> Option<Seq<char>> {
    match setting {
        Some(s) => Some(s@),
        None => None,
    }
}

/// Whether a setting switches something on.
pub fn is_truthy(setting: Option<&str>) -> (r: bool)
    ensures
        r == is_on(setting_view(setting)),
{
    match setting {
        Some(s) => {
            let t = lower_ascii(trimmed(s).as_str());
            same_text(t.as_str(), "1") || same_text(t.as_str(), "true") || same_text(
                t.as_str(),
                "yes",
            ) || same_text(t.as_str(), "on")
        },
        None => false,
    }
}

/// Whether only the indexes are warmed up.
pub fn warm_indices_only_enabled(setting: Option<&str>) -> (r: bool)
    ensures
        r == is_on(setting_view(setting)),
{
    is_truthy(setting)
}

/// Whether the data of columns is fetched ahead: always, unless only the indexes are
/// warmed up; then only where it is asked for.
pub fn warm_prefetch_enabled(indices_only: Option<&str>, prefetch: Option<&str>) -> (r: bool)
    ensures
        r == (!is_on(setting_view(indices_only)) || is_on(setting_view(prefetch))),
{
    if warm_indices_only_enabled(indices_only) {
        is_truthy(prefetch)
    } else {
        true
    }
}

/// Whether tables are opened for queries only when they are needed.
pub fn query_open_lazy_enabled(setting: Option<&str>) -> (r: bool)
    ensures
        r == is_on(setting_view(setting)),
{
    is_truthy(setting)
}

/// The number that a setting gives: no greater than the greatest, and the default
/// where the setting gives none.
pub open spec fn number_of(setting: Option<Seq<char>>, default: u64, greatest: u64) -> u64 {
    match setting {
        Some(s) => match parsed_number(trim_spec(s)) {
            Some(n) => if n <= greatest {
                n
            } else {
                default
            },
            None => default,
        },
        None => default,
    }
}

/// The number that a setting gives.
pub fn number_setting(setting: Option<&str>, default: u64, greatest: u64) -> (r: u64)
    ensures
        r == number_of(setting_view(setting), default, greatest),
{
    match setting {
        Some(s) => match parse_number(trimmed(s).as_str()) {
            Some(n) => if n <= greatest {
                n
            } else {
                default
            },
            None => default,
        },
        None => default,
    }
}

/// After how many flushes the places of the keys are saved: as it is set, or ten.
pub fn index_save_interval(setting: Option<&str>) -> (r: u32)
    ensures
        r == number_of(setting_view(setting), 10, 0xffff_ffff),
{
    number_setting(setting, 10, 0xffff_ffff) as u32
}

/// How many rows a compacted segment holds: as it is set, or fifty thousand.
pub fn compact_segment_rows(setting: Option<&str>) -> (r: u64)
    ensures
        r == number_of(setting_view(setting), 50_000, u64::MAX),
{
    number_setting(setting, 50_000, u64::MAX)
}

/// The number of lists that a setting lets an index hold decoded.
pub open spec fn lists_held(setting: Option<Seq<char>>) -> usize {
    let n = number_of(setting, 1000, usize::MAX as u64);
    if n > 0 {
        n as usize
    } else {
        1000
    }
}

/// How many lists an index holds decoded: as it is set, where that is a positive number,
/// or a thousand.
pub fn exact_index_cache_per_field(setting: Option<&str>) -> (r: usize)
    ensures
        r == lists_held(setting_view(setting)),
        r > 0,
{
    let n = number_setting(setting, 1000, usize::MAX as u64);
    if n > 0 {
        n as usize
    } else {
        1000
    }
}

/// How many indexes of fields are kept: as it is set, or eight.
pub fn exact_index_cache_fields(setting: Option<&str>) -> (r: u64)
    ensures
        r == number_of(setting_view(setting), 8, u64::MAX),
{
    number_setting(setting, 8, u64::MAX)
}

} // verus!
