//! Which fields are offered where.

use crate::compaction::{field_of_file, file_field, text_of_option};
use crate::text::{ends_with_text, texts};
use crate::text_sort::{dedup_texts, distinct_texts, sort_texts, sorted_texts};
use serde_json::Value;
use std::collections::HashMap;
use vstd::prelude::*;

verus! {

/// Whether a field was derived from a date.
pub open spec fn is_derived(f: Seq<char>) -> bool {
    ("_day"@).is_suffix_of(f) || ("_month"@).is_suffix_of(f) || ("_year"@).is_suffix_of(f) || (
    "_hour_bucket"@).is_suffix_of(f)
}

/// The fields that were not derived from dates.
pub open spec fn original_fields(s: Seq<Seq<char>>) -> Seq<Seq<char>> {
    s.filter(|f: Seq<char>| !is_derived(f))
}

fn derived(f: &str) -> (r: bool)
    ensures
        r == is_derived(f@),
{
    ends_with_text(f, "_day") || ends_with_text(f, "_month") || ends_with_text(f, "_year")
        || ends_with_text(f, "_hour_bucket")
}

/// The fields that were not derived from dates, in order.
pub fn get_base_fields(all_fields: &[String]) -> (r: Vec<String>)
    ensures
        texts(r@) == sorted_texts(original_fields(texts(all_fields@))),
{
    let ghost view = texts(all_fields@);
    let ghost pred = |f: Seq<char>| !is_derived(f);
    let mut out: Vec<String> = Vec::new();
    let mut i: usize = 0;
    proof {
        reveal(Seq::filter);
        assert(view.take(0).filter(pred) =~= Seq::empty());
        assert(texts(out@) =~= Seq::empty());
    }
    while i < all_fields.len()
        invariant
            i <= all_fields@.len(),
            view == texts(all_fields@),
            pred == (|f: Seq<char>| !is_derived(f)),
            texts(out@) == view.take(i as int).filter(pred),
        decreases all_fields@.len() - i,
    {
        proof {
            reveal(Seq::filter);
            assert(view.take(i + 1).drop_last() =~= view.take(i as int));
            assert(view.take(i + 1).last() == all_fields@[i as int]@);
        }
        if !derived(all_fields[i].as_str()) {
            let ghost before = texts(out@);
            out.push(all_fields[i].clone());
            assert(texts(out@) =~= before.push(all_fields@[i as int]@));
        }
        i = i + 1;
    }
    assert(view.take(i as int) =~= view);
    sort_texts(out.as_slice())
}

/// All fields, in order.
pub fn get_filtered_fields(all_fields: &[String]) -> (r: Vec<String>)
    ensures
        texts(r@) == sorted_texts(texts(all_fields@)),
{
    sort_texts(all_fields)
}

/// The fields of the files of data.
pub open spec fn file_fields(names: Seq<Seq<char>>) -> Seq<Seq<char>>
    decreases names.len(),
{
    if names.len() == 0 {
        Seq::empty()
    } else {
        let front = file_fields(names.drop_last());
        match file_field(names.last()) {
            Some(f) => front.push(f),
            None => front,
        }
    }
}

/// The fields that the files of a table's segments hold, each once and in order.
pub fn get_indexed_fields(files: &[String]) -> (r: Vec<String>)
    ensures
        texts(r@) == sorted_texts(distinct_texts(file_fields(texts(files@)))),
{
    let ghost view = texts(files@);
    let mut out: Vec<String> = Vec::new();
    let mut i: usize = 0;
    assert(texts(out@) =~= Seq::empty());
    assert(view.take(0) =~= Seq::empty());
    while i < files.len()
        invariant
            i <= files@.len(),
            view == texts(files@),
            texts(out@) == file_fields(view.take(i as int)),
        decreases files@.len() - i,
    {
        assert(view.take(i + 1).drop_last() =~= view.take(i as int));
        assert(view.take(i + 1).last() == files@[i as int]@);
        let ghost before = texts(out@);
        let found = field_of_file(files[i].as_str());
        assert(text_of_option(found) == file_field(files@[i as int]@));
        if let Some(f) = found {
            let ghost one = f@;
            out.push(f);
            assert(texts(out@) =~= before.push(one));
        }
        i = i + 1;
    }
    assert(view.take(i as int) =~= view);
    let once = dedup_texts(out.as_slice());
    sort_texts(once.as_slice())
}

/// The fields that a query shows: those it names; where it names none and counts
/// nothing, all that were not derived from dates.
pub fn query_fields(fields: Vec<String>, aggregated: bool, files: &[String]) -> (r: Vec<String>)
    ensures
        texts(r@) == (if fields@.len() == 0 && !aggregated {
            sorted_texts(
                original_fields(sorted_texts(distinct_texts(file_fields(texts(files@))))),
            )
        } else {
            texts(fields@)
        }),
{
    if fields.len() == 0 && !aggregated {
        let all = get_indexed_fields(files);
        get_base_fields(all.as_slice())
    } else {
        fields
    }
}

/// The fields that rows can be put in order by: all of them.
pub fn get_order_by_fields(files: &[String]) -> (r: Vec<String>)
    ensures
        texts(r@) == sorted_texts(distinct_texts(file_fields(texts(files@)))),
{
    get_indexed_fields(files)
}

/// The values that are offered for a field: to write one, to ask for one later, and
/// the first hundred that occur, in order and without the empty one.
pub open spec fn offered_values(values: Seq<Seq<char>>) -> Seq<Seq<char>> {
    let first = if values.len() <= 100 {
        sorted_texts(values)
    } else {
        sorted_texts(values).take(100)
    };
    seq!["Write value"@, "Variable (ask later)"@] + first.filter(|v: Seq<char>| v.len() > 0)
}

/// The values that are offered for a field.
pub fn get_field_values(values: &[String]) -> (r: Vec<String>)
    ensures
        texts(r@) == offered_values(texts(values@)),
{
    let sorted = sort_texts(values);
    let ghost all = texts(sorted@);
    let ghost pred = |v: Seq<char>| v.len() > 0;
    let mut out: Vec<String> = Vec::new();
    out.push("Write value".to_owned());
    out.push("Variable (ask later)".to_owned());
    let ghost head = texts(out@);
    proof {
        crate::text_sort::law_texts_sorted(texts(values@));
        assert(head =~= seq!["Write value"@, "Variable (ask later)"@]);
        assert(all.len() == sorted@.len());
        assert(texts(values@).len() == values@.len());
        reveal(Seq::filter);
        assert(all.take(0).filter(pred) =~= Seq::empty());
        assert(head + all.take(0).filter(pred) =~= head);
    }
    let n: usize = if sorted.len() <= 100 {
        sorted.len()
    } else {
        100
    };
    let mut i: usize = 0;
    while i < n
        invariant
            i <= n <= sorted@.len(),
            all == texts(sorted@),
            pred == (|v: Seq<char>| v.len() > 0),
            texts(out@) == head + all.take(i as int).filter(pred),
        decreases n - i,
    {
        proof {
            reveal(Seq::filter);
            assert(all.take(i + 1).drop_last() =~= all.take(i as int));
            assert(all.take(i + 1).last() == sorted@[i as int]@);
        }
        if !sorted[i].as_str().is_empty() {
            let ghost before = texts(out@);
            let ghost kept = all.take(i as int).filter(pred);
            out.push(sorted[i].clone());
            assert(texts(out@) =~= before.push(sorted@[i as int]@));
            assert(texts(out@) =~= head + kept.push(sorted@[i as int]@));
        }
        i = i + 1;
    }
    proof {
        if sorted@.len() <= 100 {
            assert(all.take(n as int) =~= all);
        }
    }
    out
}

/// The keys of the map from texts to JSON values that `bincode::deserialize` reads out of
/// bytes; nothing where it fails.
pub uninterp spec fn decoded_names(bytes: Seq<u8>) -> Option<Set<Seq<char>>>;

/// `bincode::deserialize`, for a map from texts to JSON values: its keys, each once and in
/// no particular order.
#[verifier::external_body]
fn deserialize_names(bytes: &[u8]) -> (r: Option<Vec<String>>)
    ensures
        match r {
            Some(v) => {
                &&& decoded_names(bytes@) == Some(texts(v@).to_set())
                &&& texts(v@).no_duplicates()
            },
            None => decoded_names(bytes@) is None,
        },
{
    let map: HashMap<String, Value> = bincode::deserialize(bytes).ok()?;
    Some(map.into_keys().collect())
}

/// Whether a list holds the names that a file has, each once; none where it cannot be
/// read.
pub open spec fn lists_names(names: Seq<Seq<char>>, file: Option<Seq<u8>>) -> bool {
    match file {
        Some(bytes) => match decoded_names(bytes) {
            Some(all) => names.no_duplicates() && names.to_set() == all,
            None => names.len() == 0,
        },
        None => names.len() == 0,
    }
}

/// The bytes of a file, if there is one.
pub open spec fn file_view(file: Option<&[u8]>) -> Option<Seq<u8>> {
    match file {
        Some(b) => Some(b@),
        None => None,
    }
}

/// The values that are offered for a field, out of the file of its index.
pub fn load_field_values(file: Option<&[u8]>) -> (r: Vec<String>)
    ensures
        exists|names: Seq<Seq<char>>|
            #[trigger] lists_names(names, file_view(file)) && texts(r@) == offered_values(names),
{
    let names: Vec<String> = match file {
        Some(bytes) => match deserialize_names(bytes) {
            Some(v) => v,
            None => Vec::new(),
        },
        None => Vec::new(),
    };
    assert(texts(names@).len() == names@.len());
    assert(lists_names(texts(names@), file_view(file)));
    get_field_values(names.as_slice())
}

/// The entries of the lines that a table's fields make: nothing derived is left,
/// nothing original is missing.
pub proof fn law_base_fields(s: Seq<Seq<char>>, f: Seq<char>)
    ensures
        sorted_texts(original_fields(s)).contains(f) <==> s.contains(f) && !is_derived(f),
{
    broadcast use vstd::seq_lib::group_to_multiset_ensures;

    let kept = original_fields(s);
    let out = sorted_texts(kept);
    crate::text_sort::law_texts_sorted(kept);
    assert(out.contains(f) <==> out.to_multiset().count(f) > 0);
    assert(kept.contains(f) <==> kept.to_multiset().count(f) > 0);
    lemma_kept(s, f);
}

proof fn lemma_kept(s: Seq<Seq<char>>, f: Seq<char>)
    ensures
        original_fields(s).contains(f) <==> s.contains(f) && !is_derived(f),
    decreases s.len(),
{
    reveal(Seq::filter);
    if s.len() > 0 {
        let front = s.drop_last();
        lemma_kept(front, f);
        let out = original_fields(s);
        let kept = original_fields(front);
        if s.contains(f) {
            let i = choose|i: int| 0 <= i < s.len() && s[i] == f;
            if i < s.len() - 1 {
                assert(front[i] == f);
            }
        }
        if front.contains(f) {
            let i = choose|i: int| 0 <= i < front.len() && front[i] == f;
            assert(s[i] == f);
        }
        assert(s[s.len() - 1] == s.last());
        if !is_derived(s.last()) {
            assert(out =~= kept.push(s.last()));
            assert(out[kept.len() as int] == s.last());
            if kept.contains(f) {
                let i = choose|i: int| 0 <= i < kept.len() && kept[i] == f;
                assert(out[i] == f);
            }
            if out.contains(f) {
                let i = choose|i: int| 0 <= i < out.len() && out[i] == f;
                if i < kept.len() {
                    assert(kept[i] == f);
                }
            }
        }
    }
}

} // verus!
