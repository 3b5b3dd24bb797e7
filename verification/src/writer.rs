//! The load of a file of records: one column and one index for each field, and for
//! each field that is made out of a date.

use crate::bytes::lemma_read_written;
use crate::column::{law_append_cell, Column, ColumnView};
use crate::json_text::{json_members, members_view, parse_members, JsonCell, JsonCellView};
use crate::phrase::{cat2, cat3, cat5};
use crate::rowset::RowSet;
use crate::segment_io::{encode_rows, rows_map, stored_bitmaps};
use crate::text::{blank, ends_with_text, is_blank, same_text, texts};
use crate::textmap::TextMap;
use vstd::prelude::*;

verus! {

/// The text of a value: a text itself, everything else as it is written, and nothing
/// for no value.
pub open spec fn cell_text(c: JsonCellView) -> Seq<char> {
    match c {
        JsonCellView::Text(s) => s,
        JsonCellView::Number(s) => s,
        JsonCellView::Flag(b) => if b {
            "true"@
        } else {
            "false"@
        },
        JsonCellView::Nothing => Seq::empty(),
        JsonCellView::Other(s) => s,
    }
}

impl JsonCell {
    /// The text of a value.
    pub fn text(&self) -> (r: String)
        ensures
            r@ == cell_text(self@),
    {
        match self {
            JsonCell::Text(s) => s.as_str().to_owned(),
            JsonCell::Number(s) => s.as_str().to_owned(),
            JsonCell::Flag(b) => if *b {
                "true".to_owned()
            } else {
                "false".to_owned()
            },
            JsonCell::Nothing => String::new(),
            JsonCell::Other(s) => s.as_str().to_owned(),
        }
    }
}

/// The text of the first member of a name; nothing where there is none.
pub open spec fn member_text(members: Seq<(Seq<char>, JsonCellView)>, name: Seq<char>) -> Seq<char>
    decreases members.len(),
{
    if members.len() == 0 {
        Seq::empty()
    } else if members[0].0 == name {
        cell_text(members[0].1)
    } else {
        member_text(members.skip(1), name)
    }
}

/// The text of the first member of a name; nothing where there is none.
pub fn text_of_member(members: &Vec<(String, JsonCell)>, name: &str) -> (r: String)
    ensures
        r@ == member_text(members_view(members@), name@),
{
    let ghost view = members_view(members@);
    let mut i: usize = 0;
    assert(view.skip(0) =~= view);
    while i < members.len()
        invariant
            i <= members@.len(),
            view == members_view(members@),
            member_text(view, name@) == member_text(view.skip(i as int), name@),
        decreases members@.len() - i,
    {
        assert(view[i as int] == (members@[i as int].0@, members@[i as int].1@));
        assert(view.skip(i as int)[0] == view[i as int]);
        assert(view.skip(i as int).skip(1) =~= view.skip(i + 1));
        if same_text(members[i].0.as_str(), name) {
            return members[i].1.text();
        }
        i = i + 1;
    }
    assert(view.skip(i as int).len() == 0);
    String::new()
}

/// What is known of a field.
#[derive(Clone, Copy, Debug)]
pub struct FieldStats {
    pub is_date: bool,
    pub has_time: bool,
}

/// The fields that are made out of one: itself, and the parts of its date.
pub open spec fn derived_names(name: Seq<char>, stats: FieldStats) -> Seq<Seq<char>> {
    if !stats.is_date {
        seq![name]
    } else if !stats.has_time {
        seq![name, name + "_date"@, name + "_day"@, name + "_month"@]
    } else {
        seq![
            name,
            name + "_date"@,
            name + "_day"@,
            name + "_month"@,
            name + "_hour_bucket"@,
        ]
    }
}

/// The fields that are made out of one.
pub fn derive_names(name: &str, stats: FieldStats) -> (r: Vec<String>)
    ensures
        texts(r@) == derived_names(name@, stats),
{
    let mut out: Vec<String> = Vec::new();
    out.push(name.to_owned());
    if stats.is_date {
        out.push(cat2(name, "_date"));
        out.push(cat2(name, "_day"));
        out.push(cat2(name, "_month"));
        if stats.has_time {
            out.push(cat2(name, "_hour_bucket"));
        }
    }
    assert(texts(out@) =~= derived_names(name@, stats));
    out
}

/// The parts of a date, as far as a text is one.
pub struct DateParts {
    pub day: Option<String>,
    pub month: Option<String>,
    pub hour_bucket: Option<String>,
}

/// The text of an option; an empty one where there is none.
pub open spec fn or_empty(s: Option<String>) -> Seq<char> {
    match s {
        Some(x) => x@,
        None => Seq::empty(),
    }
}

fn copied(s: &Option<String>) -> (r: String)
    ensures
        r@ == or_empty(*s),
{
    match s {
        Some(x) => x.as_str().to_owned(),
        None => String::new(),
    }
}

/// The value of a field that is made out of another: the value itself, or the part of
/// its date that the name ends with.
pub open spec fn derived_text(
    target: Seq<char>,
    base: Seq<char>,
    raw: Seq<char>,
    parts: DateParts,
) -> Seq<char> {
    if target == base {
        raw
    } else if "_date"@.is_suffix_of(target) || "_day"@.is_suffix_of(target) {
        or_empty(parts.day)
    } else if "_month"@.is_suffix_of(target) {
        or_empty(parts.month)
    } else if "_hour_bucket"@.is_suffix_of(target) {
        or_empty(parts.hour_bucket)
    } else {
        Seq::empty()
    }
}

/// The value of a field that is made out of another.
pub fn derive_value(target: &str, base: &str, raw: &str, parts: &DateParts) -> (r: String)
    ensures
        r@ == derived_text(target@, base@, raw@, *parts),
{
    if same_text(target, base) {
        raw.to_owned()
    } else if ends_with_text(target, "_date") || ends_with_text(target, "_day") {
        copied(&parts.day)
    } else if ends_with_text(target, "_month") {
        copied(&parts.month)
    } else if ends_with_text(target, "_hour_bucket") {
        copied(&parts.hour_bucket)
    } else {
        String::new()
    }
}

/// The column of a field and the rows of each of its values.
pub struct FieldStore {
    pub column: Column,
    pub rows: TextMap<RowSet>,
}

/// What a `FieldStore` stands for.
#[verifier::ext_equal]
pub struct StoreView {
    pub column: ColumnView,
    pub rows: Map<Seq<char>, Set<u32>>,
}

impl View for FieldStore {
    type V = StoreView;

    open spec fn view(&self) -> StoreView {
        StoreView { column: self.column@, rows: rows_map(self.rows@) }
    }
}

impl StoreView {
    /// A store without records.
    pub open spec fn empty() -> StoreView {
        StoreView { column: ColumnView::empty(), rows: Map::empty() }
    }

    /// The rows of a value.
    pub open spec fn rows_of(self, value: Seq<char>) -> Set<u32> {
        if self.rows.contains_key(value) {
            self.rows[value]
        } else {
            Set::empty()
        }
    }

    /// The store with the value of one more record; an empty value is not indexed.
    pub open spec fn written(self, id: u32, value: Seq<char>) -> StoreView {
        StoreView {
            column: self.column.appended(value),
            rows: if value.len() == 0 {
                self.rows
            } else {
                self.rows.insert(value, self.rows_of(value).insert(id))
            },
        }
    }

    /// How many records there are.
    pub open spec fn count(self) -> nat {
        self.column.offsets.len() / 8
    }
}

impl FieldStore {
    /// A store without records.
    pub fn new() -> (r: FieldStore)
        ensures
            r@ == StoreView::empty(),
    {
        let r = FieldStore { column: Column::new(), rows: TextMap::new() };
        assert(r@ =~= StoreView::empty());
        r
    }

    /// Writes the value of one more record.
    pub fn write_record(&mut self, id: u32, value: &str)
        ensures
            final(self)@ == old(self)@.written(id, value@),
    {
        let ghost start = self@;
        self.column.append(value);
        if !value.is_empty() {
            match self.rows.position(value) {
                Some(i) => {
                    let mut rows = self.rows.replace_at(i, RowSet::new());
                    let _new = rows.insert(id);
                    let _old = self.rows.replace_at(i, rows);
                },
                None => {
                    let mut rows = RowSet::new();
                    let _new = rows.insert(id);
                    self.rows.insert(value, rows);
                },
            }
        }
        assert(self@.rows =~= start.written(id, value@).rows);
        assert(self@ =~= start.written(id, value@));
    }

    /// How many records there are.
    pub fn count(&self) -> (r: u64)
        ensures
            r == self@.count(),
    {
        (self.column.offsets.len() / 8) as u64
    }

    /// The bytes of the file of the values' rows: reading them gives the rows of each
    /// value.
    pub fn encode_rows(&self) -> (r: Result<Vec<u8>, Box<bincode::ErrorKind>>)
        ensures
            r is Ok,
            r matches Ok(bytes) ==> stored_bitmaps(bytes@) == Some(self@.rows),
    {
        encode_rows(&self.rows)
    }
}

/// A field that records have, with those that are made out of it.
pub struct FieldPlan {
    pub name: String,
    pub stats: FieldStats,
    pub targets: Vec<String>,
}

/// What a `FieldPlan` stands for.
#[verifier::ext_equal]
pub struct PlanView {
    pub name: Seq<char>,
    pub stats: FieldStats,
    pub targets: Seq<Seq<char>>,
}

impl View for FieldPlan {
    type V = PlanView;

    open spec fn view(&self) -> PlanView {
        PlanView { name: self.name@, stats: self.stats, targets: texts(self.targets@) }
    }
}

/// The plan for a field.
pub open spec fn plan_of(name: Seq<char>, stats: FieldStats) -> PlanView {
    PlanView { name, stats, targets: derived_names(name, stats) }
}

/// The plans for the fields that were found.
pub open spec fn plans_of(detected: Seq<(String, FieldStats)>) -> Seq<PlanView> {
    detected.map_values(|p: (String, FieldStats)| plan_of(p.0@, p.1))
}

/// The fields that are written, in the order of the plans.
pub open spec fn all_targets(plans: Seq<PlanView>) -> Seq<Seq<char>>
    decreases plans.len(),
{
    if plans.len() == 0 {
        Seq::empty()
    } else {
        all_targets(plans.drop_last()) + plans.last().targets
    }
}

/// What is written of the value of one field.
pub open spec fn field_writes(plan: PlanView, raw: Seq<char>, parts: DateParts) -> Seq<
    (Seq<char>, Seq<char>),
> {
    plan.targets.map_values(|t: Seq<char>| (t, derived_text(t, plan.name, raw, parts)))
}

/// What is written of a record.
pub open spec fn record_writes(
    plans: Seq<PlanView>,
    values: Seq<Seq<char>>,
    parts: Seq<DateParts>,
) -> Seq<(Seq<char>, Seq<char>)>
    decreases plans.len(),
{
    if plans.len() == 0 {
        Seq::empty()
    } else {
        record_writes(plans.drop_last(), values, parts) + field_writes(
            plans.last(),
            values[plans.len() - 1],
            parts[plans.len() - 1],
        )
    }
}

/// The stores after a number of writes; a field without a store is passed over.
pub open spec fn applied(
    stores: Map<Seq<char>, StoreView>,
    writes: Seq<(Seq<char>, Seq<char>)>,
    id: u32,
) -> Map<Seq<char>, StoreView>
    decreases writes.len(),
{
    if writes.len() == 0 {
        stores
    } else {
        let before = applied(stores, writes.drop_last(), id);
        let (t, v) = writes.last();
        if before.contains_key(t) {
            before.insert(t, before[t].written(id, v))
        } else {
            before
        }
    }
}

/// The stores as they are before the first record.
pub open spec fn fresh_stores(targets: Seq<Seq<char>>) -> Map<Seq<char>, StoreView> {
    Map::new(|t: Seq<char>| targets.contains(t), |t: Seq<char>| StoreView::empty())
}

/// What the stores of a map stand for.
pub open spec fn stores_view(m: Map<Seq<char>, FieldStore>) -> Map<Seq<char>, StoreView> {
    m.map_values(|s: FieldStore| s@)
}

/// A load in progress.
pub struct Loader {
    pub plans: Vec<FieldPlan>,
    pub stores: TextMap<FieldStore>,
    pub records: u32,
}

/// What a `Loader` stands for.
#[verifier::ext_equal]
pub struct LoaderView {
    pub plans: Seq<PlanView>,
    pub stores: Map<Seq<char>, StoreView>,
    pub records: u32,
}

/// What plans stand for.
pub open spec fn plans_view(v: Seq<FieldPlan>) -> Seq<PlanView> {
    v.map_values(|p: FieldPlan| p@)
}

impl View for Loader {
    type V = LoaderView;

    open spec fn view(&self) -> LoaderView {
        LoaderView {
            plans: plans_view(self.plans@),
            stores: stores_view(self.stores@),
            records: self.records,
        }
    }
}

impl LoaderView {
    /// A load that begins.
    pub open spec fn fresh(plans: Seq<PlanView>) -> LoaderView {
        LoaderView { plans, stores: fresh_stores(all_targets(plans)), records: 0 }
    }

    /// The load after one more record.
    pub open spec fn written(self, values: Seq<Seq<char>>, parts: Seq<DateParts>) -> LoaderView {
        LoaderView {
            stores: applied(self.stores, record_writes(self.plans, values, parts), self.records),
            records: (self.records + 1) as u32,
            ..self
        }
    }
}

/// The texts of the values of a record that the plans name.
pub open spec fn planned_texts(plans: Seq<PlanView>, members: Seq<(Seq<char>, JsonCellView)>) -> Seq<
    Seq<char>,
> {
    plans.map_values(|p: PlanView| member_text(members, p.name))
}

proof fn lemma_applied_adds(
    stores: Map<Seq<char>, StoreView>,
    a: Seq<(Seq<char>, Seq<char>)>,
    b: Seq<(Seq<char>, Seq<char>)>,
    id: u32,
)
    ensures
        applied(stores, a + b, id) == applied(applied(stores, a, id), b, id),
    decreases b.len(),
{
    if b.len() == 0 {
        assert(a + b =~= a);
    } else {
        lemma_applied_adds(stores, a, b.drop_last(), id);
        assert((a + b).drop_last() =~= a + b.drop_last());
        assert((a + b).last() == b.last());
    }
}

impl Loader {
    /// A load of the fields that were found.
    pub fn new(detected: &Vec<(String, FieldStats)>) -> (r: Loader)
        ensures
            r@ == LoaderView::fresh(plans_of(detected@)),
    {
        let ghost plans_all = plans_of(detected@);
        let mut plans: Vec<FieldPlan> = Vec::new();
        let mut stores: TextMap<FieldStore> = TextMap::new();
        let mut i: usize = 0;
        assert(plans_all.take(0) =~= Seq::empty());
        assert(stores_view(stores@) =~= fresh_stores(all_targets(plans_all.take(0))));
        assert(plans_view(plans@) =~= plans_all.take(0));
        while i < detected.len()
            invariant
                i <= detected@.len(),
                plans_all == plans_of(detected@),
                plans_view(plans@) == plans_all.take(i as int),
                stores_view(stores@) == fresh_stores(all_targets(plans_all.take(i as int))),
            decreases detected@.len() - i,
        {
            let name = detected[i].0.as_str();
            let stats = detected[i].1;
            let targets = derive_names(name, stats);
            let ghost names = texts(targets@);
            let ghost before = all_targets(plans_all.take(i as int));
            assert(plans_all.take(i + 1).drop_last() =~= plans_all.take(i as int));
            assert(plans_all.take(i + 1).last() == plan_of(detected@[i as int].0@, stats));
            let mut j: usize = 0;
            assert(before + names.take(0) =~= before);
            assert(names.len() == targets@.len());
            while j < targets.len()
                invariant
                    j <= targets@.len(),
                    names == texts(targets@),
                    names.len() == targets@.len(),
                    stores_view(stores@) == fresh_stores(before + names.take(j as int)),
                decreases targets@.len() - j,
            {
                let ghost had = before + names.take(j as int);
                let ghost has = before + names.take(j + 1);
                assert(names[j as int] == targets@[j as int]@);
                let ghost kept = stores@;
                let store = FieldStore::new();
                stores.insert(targets[j].as_str(), store);
                j = j + 1;
                assert(has =~= had.push(names[j - 1]));
                assert forall|t: Seq<char>| has.contains(t) == (had.contains(t) || t
                    == names[j - 1]) by {
                    if had.contains(t) {
                        let k = had.index_of(t);
                        assert(has[k] == t);
                    }
                    if has.contains(t) && t != names[j - 1] {
                        let k = has.index_of(t);
                        assert(had[k] == t);
                    }
                    assert(has[had.len() as int] == names[j - 1]);
                }
                assert forall|t: Seq<char>| #[trigger]
                    stores_view(stores@).contains_key(t) == has.contains(t) by {
                    assert(stores_view(kept).contains_key(t) == had.contains(t));
                }
                assert forall|t: Seq<char>| #[trigger]
                    stores_view(stores@).contains_key(t) implies stores_view(stores@)[t]
                    == StoreView::empty() by {
                    if t != names[j - 1] {
                        assert(stores_view(kept).contains_key(t));
                        assert(stores_view(kept)[t] == fresh_stores(had)[t]);
                    }
                }
                assert(stores_view(stores@) =~= fresh_stores(has));
            }
            assert(names.take(j as int) =~= names);
            let ghost old_plans = plans_view(plans@);
            let plan = FieldPlan { name: name.to_owned(), stats, targets };
            assert(plan@ =~= plan_of(detected@[i as int].0@, stats));
            plans.push(plan);
            i = i + 1;
            assert(plans_view(plans@) =~= old_plans.push(plan@));
            assert(plans_view(plans@) =~= plans_all.take(i as int));
        }
        assert(plans_all.take(i as int) =~= plans_all);
        let r = Loader { plans, stores, records: 0 };
        assert(r@ =~= LoaderView::fresh(plans_all));
        r
    }

    /// The texts of a record's values, one for each field; empty where the record has
    /// none.
    pub fn pick(&self, members: &Vec<(String, JsonCell)>) -> (r: Vec<String>)
        ensures
            texts(r@) == planned_texts(self@.plans, members_view(members@)),
    {
        let ghost want = planned_texts(self@.plans, members_view(members@));
        let mut out: Vec<String> = Vec::new();
        let mut i: usize = 0;
        assert(texts(out@) =~= want.take(0));
        while i < self.plans.len()
            invariant
                i <= self.plans@.len(),
                want == planned_texts(self@.plans, members_view(members@)),
                texts(out@) == want.take(i as int),
            decreases self.plans@.len() - i,
        {
            assert(self@.plans[i as int] == self.plans@[i as int]@);
            let ghost before = texts(out@);
            let t = text_of_member(members, self.plans[i].name.as_str());
            out.push(t);
            i = i + 1;
            assert(texts(out@) =~= before.push(t@));
            assert(want.take(i as int) =~= want.take(i - 1).push(want[i - 1]));
        }
        assert(want.take(i as int) =~= want);
        out
    }

    /// The texts of the values that a line holds, one for each field; nothing where the
    /// line is blank. A line that holds no object has no values.
    pub fn read_line(&self, line: &str) -> (r: Option<Vec<String>>)
        ensures
            match r {
                None => blank(line@),
                Some(v) => !blank(line@) && texts(v@) == planned_texts(
                    self@.plans,
                    match json_members(line@) {
                        Some(m) => m,
                        None => Seq::empty(),
                    },
                ),
            },
    {
        if is_blank(line) {
            return None;
        }
        let members = match parse_members(line) {
            Some(m) => m,
            None => Vec::new(),
        };
        assert(json_members(line@) is None ==> members_view(members@) =~= Seq::empty());
        Some(self.pick(&members))
    }

    /// The texts of the values of the next line, unless the load was cancelled before it.
    pub fn next_line(&self, cancelled: bool, line: &str) -> (r: Result<
        Option<Vec<String>>,
        LoadError,
    >)
        ensures
            match r {
                Err(LoadError::Cancelled) => cancelled,
                Ok(None) => !cancelled && blank(line@),
                Ok(Some(v)) => !cancelled && !blank(line@) && texts(v@) == planned_texts(
                    self@.plans,
                    match json_members(line@) {
                        Some(m) => m,
                        None => Seq::empty(),
                    },
                ),
            },
    {
        if cancelled {
            return Err(LoadError::Cancelled);
        }
        Ok(self.read_line(line))
    }

    fn write_one(&mut self, target: &str, id: u32, value: &str)
        ensures
            final(self)@ == (LoaderView {
                stores: if old(self)@.stores.contains_key(target@) {
                    old(self)@.stores.insert(
                        target@,
                        old(self)@.stores[target@].written(id, value@),
                    )
                } else {
                    old(self)@.stores
                },
                ..old(self)@
            }),
            final(self).plans == old(self).plans,
            final(self).records == old(self).records,
    {
        let ghost start = self@;
        match self.stores.position(target) {
            Some(i) => {
                let mut store = self.stores.replace_at(i, FieldStore::new());
                store.write_record(id, value);
                let _old = self.stores.replace_at(i, store);
                assert(self@.stores =~= start.stores.insert(
                    target@,
                    start.stores[target@].written(id, value@),
                ));
            },
            None => {},
        }
        assert(self@.plans =~= start.plans);
    }

    fn write_field(&mut self, i: usize, id: u32, raw: &str, parts: &DateParts)
        requires
            i < old(self).plans@.len(),
        ensures
            final(self)@ == (LoaderView {
                stores: applied(
                    old(self)@.stores,
                    field_writes(old(self)@.plans[i as int], raw@, *parts),
                    id,
                ),
                ..old(self)@
            }),
            final(self).plans == old(self).plans,
            final(self).records == old(self).records,
    {
        let ghost start = self@;
        let ghost plan = start.plans[i as int];
        let ghost writes = field_writes(plan, raw@, *parts);
        assert(plan == self.plans@[i as int]@);
        let n = self.plans[i].targets.len();
        let mut j: usize = 0;
        assert(writes.take(0) =~= Seq::empty());
        assert(writes.len() == n);
        while j < n
            invariant
                j <= n == writes.len(),
                i < self.plans@.len(),
                self.plans == old(self).plans,
                self.records == old(self).records,
                n == self.plans@[i as int].targets@.len(),
                plan == self.plans@[i as int]@,
                writes == field_writes(plan, raw@, *parts),
                self@ == (LoaderView {
                    stores: applied(start.stores, writes.take(j as int), id),
                    ..start
                }),
            decreases n - j,
        {
            assert(plan.targets[j as int] == self.plans@[i as int].targets@[j as int]@);
            let target = self.plans[i].targets[j].as_str().to_owned();
            let value = derive_value(
                target.as_str(),
                self.plans[i].name.as_str(),
                raw,
                parts,
            );
            assert(writes.take(j + 1).drop_last() =~= writes.take(j as int));
            assert(writes.take(j + 1).last() == (target@, value@));
            self.write_one(target.as_str(), id, value.as_str());
            j = j + 1;
        }
        assert(writes.take(j as int) =~= writes);
    }

    /// Writes one more record, with the parts of its dates.
    pub fn write(&mut self, values: &Vec<String>, parts: &Vec<DateParts>)
        requires
            values@.len() == old(self).plans@.len(),
            parts@.len() == old(self).plans@.len(),
            old(self).records < u32::MAX,
        ensures
            final(self)@ == old(self)@.written(texts(values@), parts@),
            final(self).plans == old(self).plans,
    {
        let ghost start = self@;
        let ghost raws = texts(values@);
        let n = self.plans.len();
        let id = self.records;
        let mut i: usize = 0;
        assert(start.plans.take(0) =~= Seq::empty());
        while i < n
            invariant
                i <= n == start.plans.len(),
                n == self.plans@.len(),
                self.plans == old(self).plans,
                self.records == old(self).records,
                raws == texts(values@),
                values@.len() == n,
                parts@.len() == n,
                start == old(self)@,
                self@ == (LoaderView {
                    stores: applied(
                        start.stores,
                        record_writes(start.plans.take(i as int), raws, parts@),
                        id,
                    ),
                    ..start
                }),
            decreases n - i,
        {
            assert(raws[i as int] == values@[i as int]@);
            assert(start.plans.take(i + 1).drop_last() =~= start.plans.take(i as int));
            proof {
                lemma_applied_adds(
                    start.stores,
                    record_writes(start.plans.take(i as int), raws, parts@),
                    field_writes(start.plans[i as int], raws[i as int], parts@[i as int]),
                    id,
                );
            }
            self.write_field(i, id, values[i].as_str(), &parts[i]);
            i = i + 1;
        }
        assert(start.plans.take(i as int) =~= start.plans);
        self.records = self.records + 1;
    }
}

/// What can end a load.
#[derive(PartialEq, Eq, Structural, Clone, Copy, Debug)]
pub enum LoadError {
    /// Whoever asked for it no longer wants it.
    Cancelled,
}

impl LoadError {
    /// What is said of it.
    pub fn message(&self) -> (r: String)
        ensures
            r@ == "Operation cancelled by user"@,
    {
        "Operation cancelled by user".to_owned()
    }
}

/// How a field is stored.
#[derive(Debug)]
pub struct FieldConfig {
    pub field_name: String,
    pub indexed: bool,
    pub columnar: bool,
    pub extract_date_day: bool,
}

/// Whether a setting is that of a plan: every field has an index and a column, and a date
/// gives its day.
pub open spec fn is_config_of(c: FieldConfig, plan: PlanView) -> bool {
    c.field_name@ == plan.name && c.indexed && c.columnar && c.extract_date_day
        == plan.stats.is_date
}

impl Loader {
    /// How the fields are stored, in the order of the plans.
    pub fn config(&self) -> (r: Vec<FieldConfig>)
        ensures
            r@.len() == self@.plans.len(),
            forall|i: int|
                0 <= i < r@.len() ==> is_config_of(#[trigger] r@[i], self@.plans[i]),
    {
        let mut out: Vec<FieldConfig> = Vec::new();
        let mut i: usize = 0;
        while i < self.plans.len()
            invariant
                i <= self.plans@.len(),
                out@.len() == i,
                forall|k: int| 0 <= k < i ==> is_config_of(#[trigger] out@[k], self@.plans[k]),
            decreases self.plans@.len() - i,
        {
            assert(self@.plans[i as int] == self.plans@[i as int]@);
            out.push(
                FieldConfig {
                    field_name: self.plans[i].name.as_str().to_owned(),
                    indexed: true,
                    columnar: true,
                    extract_date_day: self.plans[i].stats.is_date,
                },
            );
            i = i + 1;
        }
        out
    }
}

/// The files that a field is stored in, below the folder of the load: the values, where
/// they begin, the rows of each value, what is known of the field, and three more that
/// stay empty.
pub open spec fn field_files(field: Seq<char>) -> Seq<Seq<char>> {
    seq![
        "stores/"@ + field + ".dat"@,
        "stores/"@ + field + ".offsets"@,
        "index/bitmaps_"@ + field + ".dat"@,
        "index/metadata_"@ + field + ".dat"@,
        "stores/"@ + field + "_threads.dat"@,
        "stores/"@ + field + "_metadata.dat"@,
        "stores/"@ + field + "_columnar_"@ + field + ".dat"@,
    ]
}

/// The files that a field is stored in.
pub fn list_field_files(field: &str) -> (r: Vec<String>)
    ensures
        texts(r@) == field_files(field@),
{
    let r = vec![
        cat3("stores/", field, ".dat"),
        cat3("stores/", field, ".offsets"),
        cat3("index/bitmaps_", field, ".dat"),
        cat3("index/metadata_", field, ".dat"),
        cat3("stores/", field, "_threads.dat"),
        cat3("stores/", field, "_metadata.dat"),
        cat5("stores/", field, "_columnar_", field, ".dat"),
    ];
    assert(texts(r@) =~= field_files(field@));
    r
}

/// A store that holds the values of its records in order holds one more after a write,
/// and finds the record by its value where that is not empty; the length of the data is
/// a number of 64 bits.
pub proof fn law_written_value_is_found(
    store: StoreView,
    cells: Seq<Seq<char>>,
    id: u32,
    value: Seq<char>,
)
    requires
        store.column.holds(cells),
        store.column.appended(value).data.len() <= u64::MAX,
    ensures
        store.written(id, value).column.holds(cells.push(value)),
        value.len() > 0 ==> store.written(id, value).rows_of(value) == store.rows_of(value).insert(
            id,
        ),
        forall|other: Seq<char>|
            other != value || other.len() == 0 ==> #[trigger] store.written(id, value).rows_of(other)
                == store.rows_of(other),
{
    law_append_cell(store.column, cells, value);
}

/// The names of a number of writes.
pub open spec fn written_names(writes: Seq<(Seq<char>, Seq<char>)>) -> Seq<Seq<char>> {
    writes.map_values(|w: (Seq<char>, Seq<char>)| w.0)
}

pub(crate) proof fn lemma_written_names(plans: Seq<PlanView>, values: Seq<Seq<char>>, parts: Seq<DateParts>)
    ensures
        written_names(record_writes(plans, values, parts)) == all_targets(plans),
    decreases plans.len(),
{
    if plans.len() == 0 {
        assert(written_names(record_writes(plans, values, parts)) =~= all_targets(plans));
    } else {
        let front = plans.drop_last();
        lemma_written_names(front, values, parts);
        let a = record_writes(front, values, parts);
        let b = field_writes(
            plans.last(),
            values[plans.len() - 1],
            parts[plans.len() - 1],
        );
        assert(written_names(b) =~= plans.last().targets);
        assert(written_names(a + b) =~= written_names(a) + written_names(b));
    }
}

proof fn lemma_applied_counts(
    stores: Map<Seq<char>, StoreView>,
    writes: Seq<(Seq<char>, Seq<char>)>,
    id: u32,
    t: Seq<char>,
)
    requires
        stores.contains_key(t),
        written_names(writes).no_duplicates(),
    ensures
        applied(stores, writes, id).contains_key(t),
        applied(stores, writes, id)[t].count() == stores[t].count() + (if written_names(
            writes,
        ).contains(t) {
            1int
        } else {
            0int
        }),
    decreases writes.len(),
{
    let names = written_names(writes);
    if writes.len() > 0 {
        let front = writes.drop_last();
        let short = written_names(front);
        assert(short =~= names.drop_last());
        assert forall|i: int, j: int| 0 <= i < short.len() && 0 <= j < short.len() && i
            != j implies short[i] != short[j] by {
            assert(short[i] == names[i] && short[j] == names[j]);
        }
        lemma_applied_counts(stores, front, id, t);
        let (name, value) = writes.last();
        assert(names.last() == name);
        let before = applied(stores, front, id)[t];
        let cell = before.column.appended(value);
        lemma_read_written(before.column.data.len() as u64, 0, 0);
        assert(cell.offsets.len() == before.column.offsets.len() + 8);
        if t == name {
            if short.contains(t) {
                let k = short.index_of(t);
                assert(names[k] == names[names.len() - 1]);
            }
            assert(names[names.len() - 1] == t);
        } else {
            if short.contains(t) {
                let k = short.index_of(t);
                assert(names[k] == t);
            }
            if names.contains(t) {
                let k = names.index_of(t);
                assert(short[k] == t);
            }
        }
    }
}

/// Every field that is written gets one more cell with each record, also where the
/// record has no value for it, so a record has the same number in every column. This
/// holds where no two fields are made under one name.
pub proof fn law_columns_stay_aligned(
    load: LoaderView,
    values: Seq<Seq<char>>,
    parts: Seq<DateParts>,
    t: Seq<char>,
)
    requires
        all_targets(load.plans).no_duplicates(),
        all_targets(load.plans).contains(t),
        load.stores.contains_key(t),
        load.stores[t].count() == load.records,
        load.records < u32::MAX,
    ensures
        load.written(values, parts).stores[t].count() == load.written(values, parts).records,
{
    lemma_written_names(load.plans, values, parts);
    lemma_applied_counts(
        load.stores,
        record_writes(load.plans, values, parts),
        load.records,
        t,
    );
}

} // verus!
