//! What it means that a record is loaded.

use crate::column::{law_append_cell, law_read_back};
use crate::json_text::JsonCellView;
use crate::writer::{
    all_targets, applied, cell_text, derived_names, field_files, field_writes, lemma_written_names,
    member_text, plan_of, planned_texts, plans_of, record_writes, written_names, DateParts,
    FieldStats, LoaderView, PlanView, StoreView,
};
use vstd::prelude::*;

verus! {

/// The text of a part of a date; an empty one where the text is no date.
pub open spec fn part(s: Option<String>) -> Seq<char> {
    match s {
        Some(x) => x@,
        None => Seq::empty(),
    }
}

/// What is written of a field's value: the value under the field's own name; and of a date
/// also its day under the names that end with `_date` and `_day`, its month under the name
/// that ends with `_month` and, where it tells the time, its hours under the name that ends
/// with `_hour_bucket`.
pub proof fn law_parts_of_dates(
    name: Seq<char>,
    stats: FieldStats,
    raw: Seq<char>,
    parts: DateParts,
)
    ensures
        ({
            let writes = field_writes(plan_of(name, stats), raw, parts);
            &&& !stats.is_date ==> writes == seq![(name, raw)]
            &&& stats.is_date && !stats.has_time ==> writes == seq![
                (name, raw),
                (name + "_date"@, part(parts.day)),
                (name + "_day"@, part(parts.day)),
                (name + "_month"@, part(parts.month)),
            ]
            &&& stats.is_date && stats.has_time ==> writes == seq![
                (name, raw),
                (name + "_date"@, part(parts.day)),
                (name + "_day"@, part(parts.day)),
                (name + "_month"@, part(parts.month)),
                (name + "_hour_bucket"@, part(parts.hour_bucket)),
            ]
        }),
{
    reveal_strlit("_date");
    reveal_strlit("_day");
    reveal_strlit("_month");
    reveal_strlit("_hour_bucket");
    let writes = field_writes(plan_of(name, stats), raw, parts);
    let date = name + "_date"@;
    let day = name + "_day"@;
    let month = name + "_month"@;
    let hours = name + "_hour_bucket"@;
    assert("_date"@.is_suffix_of(date)) by {
        assert(date.subrange(name.len() as int, date.len() as int) =~= "_date"@);
    }
    assert("_day"@.is_suffix_of(day)) by {
        assert(day.subrange(name.len() as int, day.len() as int) =~= "_day"@);
    }
    assert("_month"@.is_suffix_of(month)) by {
        assert(month.subrange(name.len() as int, month.len() as int) =~= "_month"@);
    }
    assert("_hour_bucket"@.is_suffix_of(hours)) by {
        assert(hours.subrange(name.len() as int, hours.len() as int) =~= "_hour_bucket"@);
    }
    lemma_other_end(month, "_date"@);
    lemma_other_end(month, "_day"@);
    lemma_other_end(hours, "_date"@);
    lemma_other_end(hours, "_day"@);
    lemma_other_end(hours, "_month"@);
    assert(date.len() != name.len() && day.len() != name.len() && month.len() != name.len()
        && hours.len() != name.len());
    assert(!stats.is_date ==> writes =~= seq![(name, raw)]);
    assert(stats.is_date && !stats.has_time ==> writes =~= seq![
        (name, raw),
        (date, part(parts.day)),
        (day, part(parts.day)),
        (month, part(parts.month)),
    ]);
    assert(stats.is_date && stats.has_time ==> writes =~= seq![
        (name, raw),
        (date, part(parts.day)),
        (day, part(parts.day)),
        (month, part(parts.month)),
        (hours, part(parts.hour_bucket)),
    ]);
}

proof fn lemma_other_end(s: Seq<char>, suffix: Seq<char>)
    requires
        s.len() > 0,
        suffix.len() > 0,
        s.last() != suffix.last(),
    ensures
        !suffix.is_suffix_of(s),
{
    if suffix.is_suffix_of(s) {
        let tail = s.subrange(s.len() - suffix.len(), s.len() as int);
        assert(tail == suffix);
        assert(tail.last() == s.last());
    }
}

proof fn lemma_applied_store(
    stores: Map<Seq<char>, StoreView>,
    writes: Seq<(Seq<char>, Seq<char>)>,
    id: u32,
    k: int,
)
    requires
        written_names(writes).no_duplicates(),
        0 <= k < writes.len(),
        stores.contains_key(writes[k].0),
    ensures
        applied(stores, writes, id).contains_key(writes[k].0),
        applied(stores, writes, id)[writes[k].0] == stores[writes[k].0].written(id, writes[k].1),
    decreases writes.len(),
{
    let front = writes.drop_last();
    let names = written_names(writes);
    let short = written_names(front);
    assert(short =~= names.drop_last());
    assert forall|i: int, j: int| 0 <= i < short.len() && 0 <= j < short.len() && i
        != j implies short[i] != short[j] by {
        assert(short[i] == names[i] && short[j] == names[j]);
    }
    if k < front.len() {
        assert(front[k] == writes[k]);
        lemma_applied_store(stores, front, id, k);
        assert(names[k] != names[names.len() - 1]);
        assert(names[names.len() - 1] == writes.last().0);
    } else {
        assert forall|i: int| 0 <= i < front.len() implies (#[trigger] front[i]).0
            != writes[k].0 by {
            assert(names[i] == front[i].0);
            assert(names[i] != names[k]);
        }
        lemma_applied_other(stores, front, id, writes[k].0);
    }
}

proof fn lemma_applied_other(
    stores: Map<Seq<char>, StoreView>,
    writes: Seq<(Seq<char>, Seq<char>)>,
    id: u32,
    t: Seq<char>,
)
    requires
        forall|i: int| 0 <= i < writes.len() ==> (#[trigger] writes[i]).0 != t,
    ensures
        applied(stores, writes, id).contains_key(t) == stores.contains_key(t),
        stores.contains_key(t) ==> applied(stores, writes, id)[t] == stores[t],
    decreases writes.len(),
{
    if writes.len() > 0 {
        let front = writes.drop_last();
        assert forall|i: int| 0 <= i < front.len() implies (#[trigger] front[i]).0 != t by {
            assert(writes[i].0 != t);
        }
        lemma_applied_other(stores, front, id, t);
        assert(writes[writes.len() - 1].0 != t);
    }
}

proof fn lemma_field_written(
    plans: Seq<PlanView>,
    values: Seq<Seq<char>>,
    parts: Seq<DateParts>,
    i: int,
    k: int,
) -> (m: int)
    requires
        0 <= i < plans.len(),
        0 <= k < field_writes(plans[i], values[i], parts[i]).len(),
    ensures
        0 <= m < record_writes(plans, values, parts).len(),
        record_writes(plans, values, parts)[m] == field_writes(plans[i], values[i], parts[i])[k],
    decreases plans.len(),
{
    let front = record_writes(plans.drop_last(), values, parts);
    if i < plans.len() - 1 {
        assert(plans.drop_last()[i] == plans[i]);
        let m = lemma_field_written(plans.drop_last(), values, parts, i, k);
        assert(record_writes(plans, values, parts)[m] == front[m]);
        m
    } else {
        front.len() + k
    }
}

/// Whether a load has a store for every field that it writes, and no two fields are
/// written under one name.
pub open spec fn well_planned(load: LoaderView, detected: Seq<(String, FieldStats)>) -> bool {
    &&& load.plans == plans_of(detected)
    &&& all_targets(load.plans).no_duplicates()
    &&& forall|t: Seq<char>| all_targets(load.plans).contains(t) ==> #[trigger] load.stores.contains_key(
        t,
    )
}

/// Whether a record put a value behind the others of a field: the column has it as its
/// next cell, and a value that is not empty is found at the number of the record, besides
/// where it was found before.
pub open spec fn got(load: LoaderView, after: LoaderView, field: Seq<char>, value: Seq<char>) -> bool {
    let old = load.stores[field];
    let new = after.stores[field];
    &&& after.stores.contains_key(field)
    &&& forall|cells: Seq<Seq<char>>|
        #![trigger old.column.holds(cells)]
        old.column.holds(cells) && new.column.data.len() <= u64::MAX ==> new.column.holds(
            cells.push(value),
        ) && new.column.text(cells.len() as int) == value
    &&& value.len() > 0 ==> new.rows.contains_key(value) && new.rows[value] == (
    if old.rows.contains_key(value) {
        old.rows[value].insert(load.records)
    } else {
        set![load.records]
    })
    &&& forall|other: Seq<char>|
        other != value ==> (#[trigger] new.rows.contains_key(other) <==> old.rows.contains_key(
            other,
        )) && (old.rows.contains_key(other) ==> new.rows[other] == old.rows[other])
}

proof fn lemma_got(
    load: LoaderView,
    detected: Seq<(String, FieldStats)>,
    values: Seq<Seq<char>>,
    parts: Seq<DateParts>,
    i: int,
    k: int,
)
    requires
        well_planned(load, detected),
        0 <= i < detected.len(),
        0 <= k < field_writes(load.plans[i], values[i], parts[i]).len(),
    ensures
        ({
            let w = field_writes(load.plans[i], values[i], parts[i])[k];
            got(load, load.written(values, parts), w.0, w.1)
        }),
{
    let writes = record_writes(load.plans, values, parts);
    let m = lemma_field_written(load.plans, values, parts, i, k);
    let (field, value) = writes[m];
    lemma_written_names(load.plans, values, parts);
    assert(written_names(writes)[m] == field);
    assert(all_targets(load.plans).contains(field));
    lemma_applied_store(load.stores, writes, load.records, m);
    let old = load.stores[field];
    let new = load.written(values, parts).stores[field];
    assert forall|cells: Seq<Seq<char>>|
        #![trigger old.column.holds(cells)]
        old.column.holds(cells) && new.column.data.len() <= u64::MAX implies new.column.holds(
        cells.push(value),
    ) && new.column.text(cells.len() as int) == value by {
        law_append_cell(old.column, cells, value);
        law_read_back(new.column, cells.push(value), cells.len() as int);
    }
    assert(Set::<u32>::empty().insert(load.records) =~= set![load.records]);
}

/// A record puts its value of a field into that field; and of a date its day into the
/// fields that end with `_date` and `_day`, its month into the one that ends with `_month`
/// and, where it tells the time, its hours into the one that ends with `_hour_bucket`.
pub proof fn law_record_is_loaded(
    load: LoaderView,
    detected: Seq<(String, FieldStats)>,
    values: Seq<Seq<char>>,
    parts: Seq<DateParts>,
    i: int,
)
    requires
        well_planned(load, detected),
        load.records < u32::MAX,
        0 <= i < detected.len(),
    ensures
        ({
            let name = detected[i].0@;
            let stats = detected[i].1;
            let after = load.written(values, parts);
            &&& after.records == load.records + 1
            &&& got(load, after, name, values[i])
            &&& stats.is_date ==> {
                &&& got(load, after, name + "_date"@, part(parts[i].day))
                &&& got(load, after, name + "_day"@, part(parts[i].day))
                &&& got(load, after, name + "_month"@, part(parts[i].month))
            }
            &&& stats.is_date && stats.has_time ==> got(
                load,
                after,
                name + "_hour_bucket"@,
                part(parts[i].hour_bucket),
            )
        }),
{
    let name = detected[i].0@;
    let stats = detected[i].1;
    let writes = field_writes(load.plans[i], values[i], parts[i]);
    assert(load.plans[i] == plan_of(name, stats));
    law_parts_of_dates(name, stats, values[i], parts[i]);
    lemma_got(load, detected, values, parts, i, 0);
    assert(writes[0] == (name, values[i]));
    if stats.is_date {
        lemma_got(load, detected, values, parts, i, 1);
        lemma_got(load, detected, values, parts, i, 2);
        lemma_got(load, detected, values, parts, i, 3);
        assert(writes[1] == (name + "_date"@, part(parts[i].day)));
        assert(writes[2] == (name + "_day"@, part(parts[i].day)));
        assert(writes[3] == (name + "_month"@, part(parts[i].month)));
        if stats.has_time {
            lemma_got(load, detected, values, parts, i, 4);
            assert(writes[4] == (name + "_hour_bucket"@, part(parts[i].hour_bucket)));
        }
    }
}

proof fn lemma_targets(plans: Seq<PlanView>, t: Seq<char>, i: int, k: int)
    requires
        0 <= i < plans.len(),
        0 <= k < plans[i].targets.len(),
        plans[i].targets[k] == t,
    ensures
        all_targets(plans).contains(t),
    decreases plans.len(),
{
    let front = all_targets(plans.drop_last());
    if i < plans.len() - 1 {
        assert(plans.drop_last()[i] == plans[i]);
        lemma_targets(plans.drop_last(), t, i, k);
        let j = front.index_of(t);
        assert(all_targets(plans)[j] == t);
    } else {
        assert(all_targets(plans)[front.len() + k] == t);
    }
}

/// A load that begins has an empty store for every field and for the parts of every date.
pub proof fn law_load_begins_empty(detected: Seq<(String, FieldStats)>, i: int)
    requires
        0 <= i < detected.len(),
    ensures
        ({
            let name = detected[i].0@;
            let stats = detected[i].1;
            let load = LoaderView::fresh(plans_of(detected));
            let is_empty = |field: Seq<char>|
                load.stores.contains_key(field) && load.stores[field].column.holds(Seq::empty())
                    && load.stores[field].rows.dom() == Set::<Seq<char>>::empty();
            &&& load.records == 0
            &&& is_empty(name)
            &&& stats.is_date ==> is_empty(name + "_date"@) && is_empty(name + "_day"@) && is_empty(
                name + "_month"@,
            )
            &&& stats.is_date && stats.has_time ==> is_empty(name + "_hour_bucket"@)
        }),
{
    let name = detected[i].0@;
    let stats = detected[i].1;
    let plans = plans_of(detected);
    assert(plans[i] == plan_of(name, stats));
    let targets = derived_names(name, stats);
    lemma_targets(plans, name, i, 0);
    if stats.is_date {
        assert(targets[1] == name + "_date"@);
        assert(targets[2] == name + "_day"@);
        assert(targets[3] == name + "_month"@);
        lemma_targets(plans, name + "_date"@, i, 1);
        lemma_targets(plans, name + "_day"@, i, 2);
        lemma_targets(plans, name + "_month"@, i, 3);
        if stats.has_time {
            assert(targets[4] == name + "_hour_bucket"@);
            lemma_targets(plans, name + "_hour_bucket"@, i, 4);
        }
    }
}

/// The value of a field is that of the first member of the record with the field's name: a
/// text as it is, a flag as a word, a number and anything else as it is written, and
/// nothing where it is null or where the record has no such member.
pub proof fn law_values_of_record(
    plans: Seq<PlanView>,
    members: Seq<(Seq<char>, JsonCellView)>,
    i: int,
    k: int,
)
    requires
        0 <= i < plans.len(),
    ensures
        planned_texts(plans, members).len() == plans.len(),
        (forall|j: int| 0 <= j < members.len() ==> (#[trigger] members[j]).0 != plans[i].name)
            ==> planned_texts(plans, members)[i].len() == 0,
        0 <= k < members.len() && members[k].0 == plans[i].name && (forall|j: int|
            0 <= j < k ==> (#[trigger] members[j]).0 != plans[i].name) ==> planned_texts(
            plans,
            members,
        )[i] == match members[k].1 {
            JsonCellView::Text(s) => s,
            JsonCellView::Number(s) => s,
            JsonCellView::Other(s) => s,
            JsonCellView::Flag(b) => if b {
                "true"@
            } else {
                "false"@
            },
            JsonCellView::Nothing => ""@,
        },
{
    reveal_strlit("");
    assert(""@ =~= Seq::empty());
    lemma_member(members, plans[i].name, k);
}

proof fn lemma_member(members: Seq<(Seq<char>, JsonCellView)>, name: Seq<char>, k: int)
    ensures
        (forall|j: int| 0 <= j < members.len() ==> (#[trigger] members[j]).0 != name)
            ==> member_text(members, name) == Seq::<char>::empty(),
        0 <= k < members.len() && members[k].0 == name && (forall|j: int|
            0 <= j < k ==> (#[trigger] members[j]).0 != name) ==> member_text(members, name)
            == cell_text(members[k].1),
    decreases members.len(),
{
    if members.len() > 0 && members[0].0 != name {
        let rest = members.skip(1);
        assert forall|j: int| 0 <= j < rest.len() implies #[trigger] rest[j] == members[j + 1] by {}
        lemma_member(rest, name, k - 1);
    }
}

/// A field is stored in files of its own: its values and where they begin, the rows of each
/// value and what is known of the field, and three more beside its values.
pub proof fn law_files_of_field(field: Seq<char>)
    ensures
        ({
            let files = field_files(field);
            &&& files.len() == 7
            &&& files[0] == "stores/"@ + field + ".dat"@
            &&& files[1] == "stores/"@ + field + ".offsets"@
            &&& files[2] == "index/bitmaps_"@ + field + ".dat"@
            &&& files[3] == "index/metadata_"@ + field + ".dat"@
            &&& files[4] == "stores/"@ + field + "_threads.dat"@
            &&& files[5] == "stores/"@ + field + "_metadata.dat"@
            &&& files[6] == "stores/"@ + field + "_columnar_"@ + field + ".dat"@
        }),
{
}

} // verus!
