//! The panels by which a query or a record is put together.

use crate::json_text::{
    compact_json, first_name, first_settings, json_compact, members_view, parse_settings, JsonCell,
    JsonCellView,
};
use crate::phrase::{begins_with, cat2, cat3, cat5, starts_with_char};
use crate::repl::fields::{get_base_fields, get_filtered_fields, original_fields};
use crate::repl::sheet::{choice, choices, Sheet, SheetView, Tone};
use crate::text::{chars_of, decimal, decimal_spec, same_text, text_of, texts};
use crate::text_sort::{has_text, sort_texts, sorted_texts};
use crate::textmap::TextMap;
use crate::types::{
    filter_views, op_name, Filter, FilterView, LogicalOp, OrderBy, SortDirection,
};
use vstd::prelude::*;

verus! {

/// What the user is at.
#[derive(Clone, Copy, Debug, PartialEq, Eq, Structural)]
pub enum Task {
    Startup,
    Load,
    Search,
    Create,
    Update,
    Delete,
    Batch,
    Server,
    Bittice,
}

/// A part of a query or of a record.
#[derive(Clone, Copy, Debug, PartialEq, Eq, Structural)]
pub enum SearchCriteria {
    Entity,
    Table,
    Filters,
    FiltersOp,
    Aggregations,
    OrderBy,
    Limit,
    Fields,
    Create,
    Update,
    Delete,
}

/// A part of a filter.
#[derive(Clone, Copy, Debug, PartialEq, Eq, Structural)]
pub enum FilterStep {
    List,
    Field,
    Op,
    Value,
}

/// A part of an aggregation.
#[derive(Clone, Copy, Debug, PartialEq, Eq, Structural)]
pub enum AggregationStep {
    Main,
}

/// The panel that keys go to.
#[derive(Clone, Copy, Debug, PartialEq, Eq, Structural)]
pub enum FocusPanel {
    Left,
    Middle,
    Right,
    Extra,
    Bottom,
}

/// A setting of an aggregation.
pub struct DraftSetting {
    pub key: String,
    /// The value, where it is a text.
    pub text: Option<String>,
    /// The value as JSON.
    pub json: String,
}

/// An aggregation that is put together.
pub struct AggregationDraft {
    /// The whole as JSON.
    pub json: String,
    pub kind: Option<String>,
    /// The settings, where there are any.
    pub settings: Option<Vec<DraftSetting>>,
}

/// What a `DraftSetting` stands for.
pub struct SettingView {
    pub key: Seq<char>,
    pub text: Option<Seq<char>>,
    pub json: Seq<char>,
}

/// What an `AggregationDraft` stands for.
pub struct DraftView {
    pub json: Seq<char>,
    pub kind: Option<Seq<char>>,
    pub settings: Option<Seq<SettingView>>,
}

/// The text of an option.
pub open spec fn opt_text(s: Option<String>) -> Option<Seq<char>> {
    match s {
        Some(x) => Some(x@),
        None => None,
    }
}

impl View for DraftSetting {
    type V = SettingView;

    open spec fn view(&self) -> SettingView {
        SettingView { key: self.key@, text: opt_text(self.text), json: self.json@ }
    }
}

/// What settings stand for.
pub open spec fn setting_views(v: Seq<DraftSetting>) -> Seq<SettingView> {
    v.map_values(|s: DraftSetting| s@)
}

impl View for AggregationDraft {
    type V = DraftView;

    open spec fn view(&self) -> DraftView {
        DraftView {
            json: self.json@,
            kind: opt_text(self.kind),
            settings: match self.settings {
                Some(v) => Some(setting_views(v@)),
                None => None,
            },
        }
    }
}

/// What the members of an aggregation's value are as settings.
pub open spec fn member_settings(m: Seq<(Seq<char>, JsonCellView)>) -> Seq<SettingView> {
    m.map_values(
        |p: (Seq<char>, JsonCellView)|
            SettingView { key: p.0, text: p.1.string(), json: p.1.written() },
    )
}

/// The aggregation that a JSON text tells: its kind is the name of the first member, and
/// its settings are the members of that member's value, where it is an object.
pub open spec fn draft_of(text: Seq<char>) -> Option<DraftView> {
    match json_compact(text) {
        Some(json) => Some(
            DraftView {
                json,
                kind: first_name(text),
                settings: match first_settings(text) {
                    Some(m) => Some(member_settings(m)),
                    None => None,
                },
            },
        ),
        None => None,
    }
}

impl AggregationDraft {
    /// The aggregation that a JSON text tells; nothing where the text is not JSON.
    pub fn parse(text: &str) -> (r: Option<AggregationDraft>)
        ensures
            match r {
                Some(d) => draft_of(text@) == Some(d@),
                None => draft_of(text@) is None,
            },
    {
        let json = match compact_json(text) {
            Some(j) => j,
            None => {
                return None;
            },
        };
        let (kind, members) = parse_settings(text);
        let settings = match members {
            Some(m) => Some(draft_settings(&m)),
            None => None,
        };
        Some(AggregationDraft { json, kind, settings })
    }
}

fn draft_settings(members: &Vec<(String, JsonCell)>) -> (r: Vec<DraftSetting>)
    ensures
        setting_views(r@) == member_settings(members_view(members@)),
{
    let ghost want = member_settings(members_view(members@));
    let mut out: Vec<DraftSetting> = Vec::new();
    let mut i: usize = 0;
    assert(setting_views(out@) =~= want.take(0));
    while i < members.len()
        invariant
            i <= members@.len(),
            want == member_settings(members_view(members@)),
            setting_views(out@) == want.take(i as int),
        decreases members@.len() - i,
    {
        let (key, value) = &members[i];
        let text = match value {
            JsonCell::Text(s) => Some(s.clone()),
            _ => None,
        };
        let one = DraftSetting { key: key.clone(), text, json: value.written() };
        let ghost before = setting_views(out@);
        let ghost view = one@;
        out.push(one);
        i = i + 1;
        assert(members_view(members@)[i - 1] == (key@, value@));
        assert(want[i - 1] == view);
        assert(setting_views(out@) =~= before.push(view));
        assert(setting_views(out@) =~= want.take(i as int));
    }
    assert(want.take(i as int) =~= want);
    out
}

/// What drafts stand for.
pub open spec fn draft_views(v: Seq<AggregationDraft>) -> Seq<DraftView> {
    v.map_values(|a: AggregationDraft| a@)
}

/// What the panels hold.
pub struct SearchPanel {
    pub task: Option<Task>,
    pub criteria: SearchCriteria,
    pub focus: FocusPanel,
    pub entities: Vec<String>,
    pub tables: Vec<String>,
    pub entity: Option<String>,
    pub table: Option<String>,
    pub left: Option<usize>,
    pub middle: Option<usize>,
    pub right: Option<usize>,
    pub extra: Option<usize>,
    pub filters: Vec<Filter>,
    pub filters_op: LogicalOp,
    pub filter_step: FilterStep,
    pub available_fields: Vec<String>,
    /// The fields that the rows of the table can be sorted by.
    pub order_fields: Vec<String>,
    pub value_options: Vec<String>,
    pub value_input: String,
    pub aggregations: Vec<AggregationDraft>,
    pub agg_step: AggregationStep,
    pub agg_type_options: Vec<String>,
    pub agg_op_options: Vec<String>,
    pub agg_value_options: Vec<String>,
    pub order_by: Vec<OrderBy>,
    pub limit: Option<u64>,
    pub selected_fields: Vec<String>,
    /// The cells of a record that is put together.
    pub payload: TextMap<String>,
    pub target_id: String,
}

/// What an `OrderBy` stands for.
pub type OrderView = (Seq<char>, SortDirection);

/// What the keys of a sort stand for.
pub open spec fn order_views(v: Seq<OrderBy>) -> Seq<OrderView> {
    v.map_values(|o: OrderBy| (o.field@, o.direction))
}

/// What a `SearchPanel` stands for.
#[verifier::ext_equal]
pub struct SearchView {
    pub task: Option<Task>,
    pub criteria: SearchCriteria,
    pub focus: FocusPanel,
    pub entities: Seq<Seq<char>>,
    pub tables: Seq<Seq<char>>,
    pub entity: Option<Seq<char>>,
    pub table: Option<Seq<char>>,
    pub left: Option<usize>,
    pub middle: Option<usize>,
    pub right: Option<usize>,
    pub extra: Option<usize>,
    pub filters: Seq<FilterView>,
    pub filters_op: LogicalOp,
    pub filter_step: FilterStep,
    pub available_fields: Seq<Seq<char>>,
    pub order_fields: Seq<Seq<char>>,
    pub value_options: Seq<Seq<char>>,
    pub value_input: Seq<char>,
    pub aggregations: Seq<DraftView>,
    pub agg_step: AggregationStep,
    pub agg_type_options: Seq<Seq<char>>,
    pub agg_op_options: Seq<Seq<char>>,
    pub agg_value_options: Seq<Seq<char>>,
    pub order_by: Seq<OrderView>,
    pub limit: Option<u64>,
    pub selected_fields: Seq<Seq<char>>,
    /// The names of the cells, in order.
    pub payload_keys: Seq<Seq<char>>,
    pub payload: Map<Seq<char>, String>,
    pub target_id: Seq<char>,
}

impl View for SearchPanel {
    type V = SearchView;

    open spec fn view(&self) -> SearchView {
        SearchView {
            task: self.task,
            criteria: self.criteria,
            focus: self.focus,
            entities: texts(self.entities@),
            tables: texts(self.tables@),
            entity: opt_text(self.entity),
            table: opt_text(self.table),
            left: self.left,
            middle: self.middle,
            right: self.right,
            extra: self.extra,
            filters: filter_views(self.filters@),
            filters_op: self.filters_op,
            filter_step: self.filter_step,
            available_fields: texts(self.available_fields@),
            order_fields: texts(self.order_fields@),
            value_options: texts(self.value_options@),
            value_input: self.value_input@,
            aggregations: draft_views(self.aggregations@),
            agg_step: self.agg_step,
            agg_type_options: texts(self.agg_type_options@),
            agg_op_options: texts(self.agg_op_options@),
            agg_value_options: texts(self.agg_value_options@),
            order_by: order_views(self.order_by@),
            limit: self.limit,
            selected_fields: texts(self.selected_fields@),
            payload_keys: sorted_texts(self.payload.keys()),
            payload: self.payload@,
            target_id: self.target_id@,
        }
    }
}

/// The item of a list that is selected, the first where none is.
pub open spec fn place(selected: Option<usize>) -> int {
    match selected {
        Some(i) => i as int,
        None => 0,
    }
}

fn place_of(selected: Option<usize>) -> (r: usize)
    ensures
        r == place(selected),
{
    match selected {
        Some(i) => i,
        None => 0,
    }
}

/// A list of one text, or of none.
pub open spec fn as_list(s: Option<Seq<char>>) -> Seq<Seq<char>> {
    match s {
        Some(x) => seq![x],
        None => Seq::empty(),
    }
}

/// Whether the right panel and the extra one are shown.
#[derive(Clone, Copy, Debug, PartialEq, Eq, Structural)]
pub struct Shown {
    pub right: bool,
    pub extra: bool,
}

/// How much of a width a panel takes.
#[derive(Clone, Copy, Debug, PartialEq, Eq, Structural)]
pub enum Share {
    Percent(u16),
    Rest,
}

/// Lines of one piece each.
pub open spec fn plain_lines(lines: Seq<Seq<char>>, tone: Tone) -> SheetView {
    lines.map_values(|s: Seq<char>| seq![(s, tone)])
}

/// What a filter says.
pub open spec fn filter_text(f: FilterView) -> Seq<char> {
    f.field + " "@ + op_name(f.op) + " "@ + f.value.text
}

/// A line to add an item with, and one to delete the last, where there is any.
pub open spec fn add_delete(add_text: Seq<char>, delete_text: Seq<char>, any: bool) -> SheetView {
    if any {
        seq![seq![(add_text, Tone::Add)], seq![(delete_text, Tone::Remove)]]
    } else {
        seq![seq![(add_text, Tone::Add)]]
    }
}

/// The name of an aggregation in a list.
pub open spec fn draft_title(d: DraftView, number: int) -> Seq<char> {
    "Agg "@ + decimal_spec(number as nat) + ": "@ + (match d.kind {
        Some(k) => k,
        None => "Unknown"@,
    })
}

/// A text without its quotes.
pub open spec fn without_quotes(s: Seq<char>) -> Seq<char> {
    s.filter(|c: char| c != '"')
}

/// The first setting of a key, from a place on.
pub open spec fn setting_from(s: Seq<SettingView>, key: Seq<char>, from: int) -> Option<SettingView>
    decreases s.len() - from,
{
    if from < 0 || from >= s.len() {
        None
    } else if s[from].key == key {
        Some(s[from])
    } else {
        setting_from(s, key, from + 1)
    }
}

/// Whether a setting names a field.
pub open spec fn names_field(key: Seq<char>) -> bool {
    key == "field"@ || key == "key_field"@ || key == "bucket_field"@ || key == "value_field"@
}

/// The operators that are offered.
pub open spec fn offered_ops() -> Seq<Seq<char>> {
    seq!["Eq"@, "Ne"@, "In"@, "Like"@, "Gt"@, "Gte"@, "Lt"@, "Lte"@]
}

impl SearchView {
    /// The fields that the data came with.
    pub open spec fn base_fields(self) -> Seq<Seq<char>> {
        sorted_texts(original_fields(self.available_fields))
    }

    /// All fields, in order.
    pub open spec fn all_fields(self) -> Seq<Seq<char>> {
        sorted_texts(self.available_fields)
    }

    /// The cell of a field of the record.
    pub open spec fn cell(self, field: Seq<char>) -> Seq<char> {
        if self.payload.contains_key(field) {
            self.payload[field]@
        } else {
            Seq::empty()
        }
    }

    /// Which panels are shown: the right one where there is something to look into,
    /// the extra one where the user looks into it.
    pub open spec fn shown(self) -> Shown {
        let deep = self.focus == FocusPanel::Right || self.focus == FocusPanel::Extra;
        let deeper = deep || self.focus == FocusPanel::Bottom;
        match self.criteria {
            SearchCriteria::Filters => Shown {
                right: self.filters.len() > 0,
                extra: self.filters.len() > 0 && deeper,
            },
            SearchCriteria::Aggregations => Shown {
                right: self.aggregations.len() > 0,
                extra: self.aggregations.len() > 0 && deeper,
            },
            SearchCriteria::OrderBy => Shown {
                right: self.order_by.len() > 0,
                extra: self.order_by.len() > 0 && deep,
            },
            SearchCriteria::Create => if place(self.middle) >= self.payload_keys.len() {
                Shown { right: true, extra: false }
            } else {
                Shown { right: false, extra: true }
            },
            SearchCriteria::Update => Shown { right: false, extra: true },
            _ => Shown { right: false, extra: false },
        }
    }

    /// How the width is shared among the panels.
    pub open spec fn shares(self) -> Seq<Share> {
        let s = self.shown();
        if !s.right && !s.extra {
            seq![Share::Percent(20), Share::Rest]
        } else if s.right && !s.extra {
            seq![Share::Percent(20), Share::Percent(25), Share::Rest]
        } else if !s.right && s.extra {
            seq![Share::Percent(20), Share::Percent(40), Share::Rest]
        } else {
            seq![Share::Percent(20), Share::Percent(20), Share::Percent(25), Share::Rest]
        }
    }

    /// What a part that needs a table is shown as.
    pub open spec fn table_tone(self) -> Tone {
        if self.table is Some {
            Tone::Text
        } else {
            Tone::Inactive
        }
    }

    /// The parts that the task has, on the left.
    pub open spec fn left_lines(self) -> SheetView {
        let t = self.table_tone();
        let head = seq![
            seq![("Entity"@, Tone::Text)],
            seq![
                (
                    "Table"@,
                    if self.entity is Some {
                        Tone::Text
                    } else {
                        Tone::Inactive
                    },
                ),
            ],
        ];
        match self.task {
            Some(Task::Search) => head + seq![seq![("Filters"@, t)]] + (if self.filters.len() > 1 {
                seq![seq![("Filters Op"@, Tone::Text)]]
            } else {
                SheetView::empty()
            }) + seq![
                seq![("Aggregations"@, t)],
                seq![("Order By"@, t)],
                seq![("Limit"@, t)],
                seq![("Fields"@, t)],
            ],
            Some(Task::Create) => head.push(seq![("Create Record"@, t)]),
            Some(Task::Update) => head.push(seq![("Update Record"@, t)]),
            Some(Task::Delete) => head.push(seq![("Delete Record"@, t)]),
            _ => head,
        }
    }

    /// The lines for cells of some fields.
    pub open spec fn cell_lines(self, fields: Seq<Seq<char>>) -> SheetView {
        fields.map_values(
            |f: Seq<char>| seq![(f + ": "@, Tone::Active), (self.cell(f), Tone::Plain)],
        )
    }

    /// What a part holds, in the middle.
    pub open spec fn middle_lines(self) -> SheetView {
        match self.criteria {
            SearchCriteria::Entity => choices(self.entities, as_list(self.entity)),
            SearchCriteria::Table => choices(self.tables, as_list(self.table)),
            SearchCriteria::Filters => plain_lines(
                self.filters.map_values(|f: FilterView| filter_text(f)),
                Tone::Active,
            ) + add_delete("+ Add Filter"@, "- Delete Last"@, self.filters.len() > 0),
            SearchCriteria::Aggregations => plain_lines(
                Seq::new(
                    self.aggregations.len(),
                    |i: int| draft_title(self.aggregations[i], i + 1),
                ),
                Tone::Plain,
            ) + add_delete("+ Add Aggregation"@, "- Delete Last"@, self.aggregations.len() > 0),
            SearchCriteria::OrderBy => plain_lines(
                self.order_by.map_values(|o: OrderView| o.0 + " "@ + direction_name(o.1)),
                Tone::Plain,
            ) + add_delete("+ Add OrderBy"@, "- Delete Last"@, self.order_by.len() > 0),
            SearchCriteria::Limit => seq![seq![("Value: "@ + limit_text(self.limit), Tone::Plain)]],
            SearchCriteria::Fields => choices(self.base_fields(), self.selected_fields),
            SearchCriteria::Create => self.cell_lines(self.payload_keys) + add_delete(
                "+ Add Field"@,
                "- Remove Field"@,
                self.payload_keys.len() > 0,
            ),
            SearchCriteria::Update => self.cell_lines(self.base_fields()),
            SearchCriteria::FiltersOp => seq![
                choice("And"@, self.filters_op == LogicalOp::And),
                choice("Or"@, self.filters_op == LogicalOp::Or),
            ],
            SearchCriteria::Delete => SheetView::empty(),
        }
    }

    /// The aggregation that is selected.
    pub open spec fn draft(self) -> Option<DraftView> {
        if place(self.middle) < self.aggregations.len() {
            Some(self.aggregations[place(self.middle)])
        } else {
            None
        }
    }

    /// What the selected item is made of, on the right.
    pub open spec fn right_lines(self) -> SheetView {
        match self.criteria {
            SearchCriteria::Filters => plain_lines(
                seq!["Field"@, "Op"@, "Value"@],
                Tone::Plain,
            ),
            SearchCriteria::Aggregations => seq![seq![("Type"@, Tone::Plain)]] + (
            match self.draft() {
                Some(d) => match d.settings {
                    Some(s) => plain_lines(s.map_values(|x: SettingView| x.key), Tone::Plain),
                    None => SheetView::empty(),
                },
                None => SheetView::empty(),
            }),
            SearchCriteria::OrderBy => plain_lines(seq!["Field"@, "Direction"@], Tone::Plain),
            SearchCriteria::Create => seq![seq![("+ Create Custom Field"@, Tone::Add)]] + choices(
                self.base_fields(),
                self.payload_keys,
            ),
            _ => SheetView::empty(),
        }
    }

    /// The options for a part of the selected filter.
    pub open spec fn filter_options(self) -> SheetView {
        if place(self.middle) < self.filters.len() {
            let f = self.filters[place(self.middle)];
            match self.filter_step {
                FilterStep::Field => choices(self.all_fields(), seq![f.field]),
                FilterStep::Op => choices(offered_ops(), seq![op_name(f.op)]),
                FilterStep::Value => choices(self.value_options, seq![f.value.text]),
                FilterStep::List => SheetView::empty(),
            }
        } else {
            SheetView::empty()
        }
    }

    /// The options for a setting of the selected aggregation.
    pub open spec fn draft_options(self) -> SheetView {
        match self.draft() {
            Some(d) => {
                let step = place(self.right);
                if step == 0 {
                    choices(self.agg_type_options, as_list(d.kind))
                } else {
                    match d.settings {
                        Some(s) => {
                            let key = if step - 1 < s.len() {
                                s[step - 1].key
                            } else {
                                ""@
                            };
                            let setting = setting_from(s, key, 0);
                            let text = match setting {
                                Some(x) => x.text,
                                None => None,
                            };
                            if names_field(key) {
                                choices(self.all_fields(), as_list(text))
                            } else if key == "operation"@ {
                                choices(self.agg_op_options, as_list(text))
                            } else {
                                choices(
                                    self.agg_value_options,
                                    match setting {
                                        Some(x) => seq![without_quotes(x.json)],
                                        None => Seq::empty(),
                                    },
                                )
                            }
                        },
                        None => SheetView::empty(),
                    }
                }
            },
            None => SheetView::empty(),
        }
    }

    /// The options for a part of the selected key of the sort.
    pub open spec fn order_options(self) -> SheetView {
        if place(self.middle) < self.order_by.len() {
            let o = self.order_by[place(self.middle)];
            if place(self.right) == 0 {
                choices(
                    if self.entity is Some && self.table is Some {
                        self.order_fields
                    } else {
                        Seq::empty()
                    },
                    seq![o.0],
                )
            } else {
                seq![
                    choice("Asc"@, o.1 == SortDirection::Asc),
                    choice("Desc"@, o.1 == SortDirection::Desc),
                ]
            }
        } else {
            SheetView::empty()
        }
    }

    /// The field of the record that is selected.
    pub open spec fn payload_field(self) -> Option<Seq<char>> {
        let fields = if self.criteria == SearchCriteria::Create {
            self.payload_keys
        } else {
            self.base_fields()
        };
        if place(self.middle) < fields.len() {
            Some(fields[place(self.middle)])
        } else {
            None
        }
    }

    /// Whether an option is what the selected field of the record has: a value that
    /// is asked for later, one that was written, or the option itself.
    pub open spec fn has_option(self, option: Seq<char>) -> bool {
        match self.payload_field() {
            Some(f) => {
                let v = self.cell(f);
                if option == "Variable (ask later)"@ {
                    begins_with(v, '$')
                } else if option == "Write value"@ {
                    v.len() > 0 && !begins_with(v, '$') && !self.value_options.skip(2).contains(v)
                } else {
                    v == option
                }
            },
            None => false,
        }
    }

    /// The options for the selected item.
    pub open spec fn extra_lines(self) -> SheetView {
        match self.criteria {
            SearchCriteria::Filters => self.filter_options(),
            SearchCriteria::Aggregations => self.draft_options(),
            SearchCriteria::OrderBy => self.order_options(),
            SearchCriteria::Create => self.value_options.map_values(
                |s: Seq<char>| choice(s, self.has_option(s)),
            ),
            SearchCriteria::Update => self.value_options.map_values(
                |s: Seq<char>| choice(s, self.has_option(s)),
            ),
            _ => SheetView::empty(),
        }
    }

    /// The keys that are explained.
    pub open spec fn help(self) -> Seq<char> {
        match self.focus {
            FocusPanel::Left => "↑↓ Navigate • → Next"@,
            FocusPanel::Bottom => "Enter Accept • Esc Cancel"@,
            _ => "↑↓ Navigate • Enter Select • ←→ Switch"@,
        }
    }
}

/// The name of a direction.
pub open spec fn direction_name(d: SortDirection) -> Seq<char> {
    match d {
        SortDirection::Asc => "Asc"@,
        SortDirection::Desc => "Desc"@,
    }
}

/// The text of a limit.
pub open spec fn limit_text(limit: Option<u64>) -> Seq<char> {
    match limit {
        Some(n) => decimal_spec(n as nat),
        None => "None"@,
    }
}

/// The text of a limit.
pub fn show_limit(limit: Option<u64>) -> (r: String)
    ensures
        r@ == limit_text(limit),
{
    match limit {
        Some(n) => decimal(n),
        None => "None".to_owned(),
    }
}

/// What a filter says.
pub fn show_filter(f: &Filter) -> (r: String)
    ensures
        r@ == filter_text(f@),
{
    cat5(f.field.as_str(), " ", f.op.as_str(), " ", f.value.text.as_str())
}

fn list_of(s: &Option<String>) -> (r: Vec<String>)
    ensures
        texts(r@) == as_list(opt_text(*s)),
{
    let mut out: Vec<String> = Vec::new();
    assert(texts(out@) =~= Seq::empty());
    if let Some(x) = s {
        out.push(x.clone());
        assert(texts(out@) =~= seq![x@]);
    }
    out
}

fn one(s: &str) -> (r: Vec<String>)
    ensures
        texts(r@) == seq![s@],
{
    let r = vec![s.to_owned()];
    assert(texts(r@) =~= seq![s@]);
    r
}

fn add_delete_lines(sheet: &mut Sheet, add_text: &str, delete_text: &str, any: bool)
    ensures
        final(sheet)@ == old(sheet)@ + add_delete(add_text@, delete_text@, any),
{
    let ghost before = sheet@;
    sheet.add1(add_text, Tone::Add);
    if any {
        sheet.add1(delete_text, Tone::Remove);
    }
    assert(sheet@ =~= before + add_delete(add_text@, delete_text@, any));
}

fn unquote(s: &str) -> (r: String)
    ensures
        r@ == without_quotes(s@),
{
    let cs = chars_of(s);
    let mut out: Vec<char> = Vec::new();
    let mut i: usize = 0;
    let ghost keep = |c: char| c != '"';
    proof {
        reveal(Seq::filter);
    }
    assert(out@ =~= s@.take(0).filter(keep));
    while i < cs.len()
        invariant
            i <= cs@.len(),
            cs@ == s@,
            keep == (|c: char| c != '"'),
            out@ == s@.take(i as int).filter(keep),
        decreases cs@.len() - i,
    {
        assert(s@.take(i + 1).drop_last() =~= s@.take(i as int));
        proof {
            reveal(Seq::filter);
        }
        if cs[i] != '"' {
            out.push(cs[i]);
        }
        i = i + 1;
    }
    assert(s@.take(i as int) =~= s@);
    text_of(out.as_slice())
}

fn find_setting(s: &Vec<DraftSetting>, key: &str) -> (r: Option<usize>)
    ensures
        match r {
            Some(k) => k < s@.len() && setting_from(setting_views(s@), key@, 0) == Some(
                s@[k as int]@,
            ),
            None => setting_from(setting_views(s@), key@, 0) is None,
        },
{
    let ghost views = setting_views(s@);
    let mut i: usize = 0;
    while i < s.len()
        invariant
            i <= s@.len(),
            views == setting_views(s@),
            setting_from(views, key@, 0) == setting_from(views, key@, i as int),
        decreases s@.len() - i,
    {
        assert(views[i as int] == s@[i as int]@);
        if same_text(s[i].key.as_str(), key) {
            return Some(i);
        }
        i = i + 1;
    }
    None
}

fn ops_offered() -> (r: Vec<String>)
    ensures
        texts(r@) == offered_ops(),
{
    let r = vec![
        "Eq".to_owned(),
        "Ne".to_owned(),
        "In".to_owned(),
        "Like".to_owned(),
        "Gt".to_owned(),
        "Gte".to_owned(),
        "Lt".to_owned(),
        "Lte".to_owned(),
    ];
    assert(texts(r@) =~= offered_ops());
    r
}

impl SearchPanel {
    /// Whether the options of a value can be told apart.
    pub open spec fn wf(&self) -> bool {
        self@.value_options.len() >= 2
    }

    /// The names of the cells of the record, in order.
    pub fn payload_names(&self) -> (r: Vec<String>)
        ensures
            texts(r@) == self@.payload_keys,
            forall|k: Seq<char>| #[trigger] self@.payload_keys.contains(k)
                ==> self@.payload.contains_key(k),
    {
        let n = self.payload.len();
        let ghost keys = self.payload.keys();
        let mut all: Vec<String> = Vec::new();
        let mut i: usize = 0;
        assert(texts(all@) =~= keys.take(0));
        while i < n
            invariant
                i <= n,
                n == keys.len(),
                keys == self.payload.keys(),
                texts(all@) == keys.take(i as int),
            decreases n - i,
        {
            let k = self.payload.key_at(i).to_owned();
            let ghost held = texts(all@);
            all.push(k);
            assert(texts(all@) =~= held.push(k@));
            assert(keys.take(i + 1) =~= keys.take(i as int).push(keys[i as int]));
            i = i + 1;
        }
        assert(keys.take(i as int) =~= keys);
        proof {
            crate::text_sort::law_texts_sorted(keys);
            assert forall|k: Seq<char>| #[trigger] sorted_texts(keys).contains(k) implies
                self.payload@.contains_key(k) by {
                broadcast use vstd::seq_lib::group_to_multiset_ensures;

                assert(sorted_texts(keys).to_multiset().count(k) > 0);
                assert(keys.contains(k));
                assert(keys.to_set().contains(k));
            }
        }
        sort_texts(all.as_slice())
    }

    fn cell_of(&self, field: &str) -> (r: String)
        ensures
            r@ == self@.cell(field@),
    {
        match self.payload.get(field) {
            Some(v) => v.clone(),
            None => String::new(),
        }
    }

    /// Which panels are shown.
    pub fn shown(&self) -> (r: Shown)
        ensures
            r == self@.shown(),
    {
        assert(filter_views(self.filters@).len() == self.filters@.len());
        assert(draft_views(self.aggregations@).len() == self.aggregations@.len());
        assert(order_views(self.order_by@).len() == self.order_by@.len());
        let deep = self.focus == FocusPanel::Right || self.focus == FocusPanel::Extra;
        let deeper = deep || self.focus == FocusPanel::Bottom;
        match self.criteria {
            SearchCriteria::Filters => Shown {
                right: self.filters.len() > 0,
                extra: self.filters.len() > 0 && deeper,
            },
            SearchCriteria::Aggregations => Shown {
                right: self.aggregations.len() > 0,
                extra: self.aggregations.len() > 0 && deeper,
            },
            SearchCriteria::OrderBy => Shown {
                right: self.order_by.len() > 0,
                extra: self.order_by.len() > 0 && deep,
            },
            SearchCriteria::Create => {
                let names = self.payload_names();
                assert(texts(names@).len() == names@.len());
                if place_of(self.middle) >= names.len() {
                    Shown { right: true, extra: false }
                } else {
                    Shown { right: false, extra: true }
                }
            },
            SearchCriteria::Update => Shown { right: false, extra: true },
            _ => Shown { right: false, extra: false },
        }
    }

    /// How the width is shared among the panels.
    pub fn shares(&self) -> (r: Vec<Share>)
        ensures
            r@ == self@.shares(),
    {
        let s = self.shown();
        let r = if !s.right && !s.extra {
            vec![Share::Percent(20), Share::Rest]
        } else if s.right && !s.extra {
            vec![Share::Percent(20), Share::Percent(25), Share::Rest]
        } else if !s.right && s.extra {
            vec![Share::Percent(20), Share::Percent(40), Share::Rest]
        } else {
            vec![Share::Percent(20), Share::Percent(20), Share::Percent(25), Share::Rest]
        };
        assert(r@ =~= self@.shares());
        r
    }

    /// The parts that the task has.
    pub fn left_items(&self) -> (r: Sheet)
        ensures
            r@ == self@.left_lines(),
    {
        let mut out = Sheet::new();
        let t = if self.table.is_some() {
            Tone::Text
        } else {
            Tone::Inactive
        };
        out.add1("Entity", Tone::Text);
        out.add1(
            "Table",
            if self.entity.is_some() {
                Tone::Text
            } else {
                Tone::Inactive
            },
        );
        assert(filter_views(self.filters@).len() == self.filters@.len());
        match self.task {
            Some(Task::Search) => {
                out.add1("Filters", t);
                if self.filters.len() > 1 {
                    out.add1("Filters Op", Tone::Text);
                }
                out.add1("Aggregations", t);
                out.add1("Order By", t);
                out.add1("Limit", t);
                out.add1("Fields", t);
            },
            Some(Task::Create) => out.add1("Create Record", t),
            Some(Task::Update) => out.add1("Update Record", t),
            Some(Task::Delete) => out.add1("Delete Record", t),
            _ => {},
        }
        assert(out@ =~= self@.left_lines());
        out
    }

    fn cell_items(&self, fields: &Vec<String>) -> (r: Sheet)
        ensures
            r@ == self@.cell_lines(texts(fields@)),
    {
        let ghost want = self@.cell_lines(texts(fields@));
        let mut out = Sheet::new();
        let mut i: usize = 0;
        assert(want.take(0) =~= SheetView::empty());
        while i < fields.len()
            invariant
                i <= fields@.len(),
                want == self@.cell_lines(texts(fields@)),
                want.len() == fields@.len(),
                out@ == want.take(i as int),
            decreases fields@.len() - i,
        {
            assert(texts(fields@)[i as int] == fields@[i as int]@);
            let name = cat2(fields[i].as_str(), ": ");
            let value = self.cell_of(fields[i].as_str());
            out.add2(name.as_str(), Tone::Active, value.as_str(), Tone::Plain);
            assert(out@ =~= want.take(i + 1));
            i = i + 1;
        }
        assert(want.take(i as int) =~= want);
        out
    }

    fn filter_items(&self) -> (r: Sheet)
        ensures
            r@ == plain_lines(
                self@.filters.map_values(|f: FilterView| filter_text(f)),
                Tone::Active,
            ),
    {
        let ghost want = plain_lines(
            self@.filters.map_values(|f: FilterView| filter_text(f)),
            Tone::Active,
        );
        let mut out = Sheet::new();
        let mut i: usize = 0;
        assert(want.take(0) =~= SheetView::empty());
        while i < self.filters.len()
            invariant
                i <= self.filters@.len(),
                want == plain_lines(
                    self@.filters.map_values(|f: FilterView| filter_text(f)),
                    Tone::Active,
                ),
                want.len() == self.filters@.len(),
                out@ == want.take(i as int),
            decreases self.filters@.len() - i,
        {
            assert(filter_views(self.filters@)[i as int] == self.filters@[i as int]@);
            let s = show_filter(&self.filters[i]);
            out.add1(s.as_str(), Tone::Active);
            assert(out@ =~= want.take(i + 1));
            i = i + 1;
        }
        assert(want.take(i as int) =~= want);
        out
    }

    fn draft_items(&self) -> (r: Sheet)
        ensures
            r@ == plain_lines(
                Seq::new(
                    self@.aggregations.len(),
                    |i: int| draft_title(self@.aggregations[i], i + 1),
                ),
                Tone::Plain,
            ),
    {
        let ghost names = Seq::new(
            self@.aggregations.len(),
            |i: int| draft_title(self@.aggregations[i], i + 1),
        );
        let ghost want = plain_lines(names, Tone::Plain);
        let mut out = Sheet::new();
        let mut i: usize = 0;
        assert(want.take(0) =~= SheetView::empty());
        while i < self.aggregations.len()
            invariant
                i <= self.aggregations@.len(),
                names == Seq::new(
                    self@.aggregations.len(),
                    |i: int| draft_title(self@.aggregations[i], i + 1),
                ),
                want == plain_lines(names, Tone::Plain),
                want.len() == self.aggregations@.len(),
                out@ == want.take(i as int),
            decreases self.aggregations@.len() - i,
        {
            assert(draft_views(self.aggregations@)[i as int] == self.aggregations@[i as int]@);
            let d = decimal((i + 1) as u64);
            let kind = match &self.aggregations[i].kind {
                Some(k) => k.as_str(),
                None => "Unknown",
            };
            let s = crate::phrase::cat4("Agg ", d.as_str(), ": ", kind);
            out.add1(s.as_str(), Tone::Plain);
            assert(names[i as int] == draft_title(self@.aggregations[i as int], i + 1));
            assert(out@ =~= want.take(i + 1));
            i = i + 1;
        }
        assert(want.take(i as int) =~= want);
        out
    }

    fn order_items(&self) -> (r: Sheet)
        ensures
            r@ == plain_lines(
                self@.order_by.map_values(|o: OrderView| o.0 + " "@ + direction_name(o.1)),
                Tone::Plain,
            ),
    {
        let ghost want = plain_lines(
            self@.order_by.map_values(|o: OrderView| o.0 + " "@ + direction_name(o.1)),
            Tone::Plain,
        );
        let mut out = Sheet::new();
        let mut i: usize = 0;
        assert(want.take(0) =~= SheetView::empty());
        while i < self.order_by.len()
            invariant
                i <= self.order_by@.len(),
                want == plain_lines(
                    self@.order_by.map_values(|o: OrderView| o.0 + " "@ + direction_name(o.1)),
                    Tone::Plain,
                ),
                want.len() == self.order_by@.len(),
                out@ == want.take(i as int),
            decreases self.order_by@.len() - i,
        {
            let o = &self.order_by[i];
            assert(order_views(self.order_by@)[i as int] == (o.field@, o.direction));
            let s = cat3(o.field.as_str(), " ", o.direction.as_str());
            out.add1(s.as_str(), Tone::Plain);
            assert(out@ =~= want.take(i + 1));
            i = i + 1;
        }
        assert(want.take(i as int) =~= want);
        out
    }

    /// What a part holds.
    pub fn middle_items(&self) -> (r: Sheet)
        ensures
            r@ == self@.middle_lines(),
    {
        let ghost view = self@;
        assert(filter_views(self.filters@).len() == self.filters@.len());
        assert(draft_views(self.aggregations@).len() == self.aggregations@.len());
        assert(order_views(self.order_by@).len() == self.order_by@.len());
        let mut out = Sheet::new();
        match self.criteria {
            SearchCriteria::Entity => {
                let chosen = list_of(&self.entity);
                out.add_choices(self.entities.as_slice(), chosen.as_slice());
            },
            SearchCriteria::Table => {
                let chosen = list_of(&self.table);
                out.add_choices(self.tables.as_slice(), chosen.as_slice());
            },
            SearchCriteria::Filters => {
                out = self.filter_items();
                add_delete_lines(&mut out, "+ Add Filter", "- Delete Last", self.filters.len() > 0);
            },
            SearchCriteria::Aggregations => {
                out = self.draft_items();
                add_delete_lines(
                    &mut out,
                    "+ Add Aggregation",
                    "- Delete Last",
                    self.aggregations.len() > 0,
                );
            },
            SearchCriteria::OrderBy => {
                out = self.order_items();
                add_delete_lines(
                    &mut out,
                    "+ Add OrderBy",
                    "- Delete Last",
                    self.order_by.len() > 0,
                );
            },
            SearchCriteria::Limit => {
                let l = show_limit(self.limit);
                let s = cat2("Value: ", l.as_str());
                out.add1(s.as_str(), Tone::Plain);
            },
            SearchCriteria::Fields => {
                let base = get_base_fields(self.available_fields.as_slice());
                out.add_choices(base.as_slice(), self.selected_fields.as_slice());
            },
            SearchCriteria::Create => {
                let names = self.payload_names();
                assert(texts(names@).len() == names@.len());
                out = self.cell_items(&names);
                add_delete_lines(&mut out, "+ Add Field", "- Remove Field", names.len() > 0);
            },
            SearchCriteria::Update => {
                let base = get_base_fields(self.available_fields.as_slice());
                out = self.cell_items(&base);
            },
            SearchCriteria::FiltersOp => {
                out.add_choice("And", self.filters_op == LogicalOp::And);
                out.add_choice("Or", self.filters_op == LogicalOp::Or);
            },
            SearchCriteria::Delete => {},
        }
        assert(out@ =~= view.middle_lines());
        out
    }

    /// What the selected item is made of.
    pub fn right_items(&self) -> (r: Sheet)
        ensures
            r@ == self@.right_lines(),
    {
        let ghost view = self@;
        assert(draft_views(self.aggregations@).len() == self.aggregations@.len());
        let mut out = Sheet::new();
        match self.criteria {
            SearchCriteria::Filters => {
                out.add1("Field", Tone::Plain);
                out.add1("Op", Tone::Plain);
                out.add1("Value", Tone::Plain);
            },
            SearchCriteria::Aggregations => {
                out.add1("Type", Tone::Plain);
                let at = place_of(self.middle);
                if at < self.aggregations.len() {
                    let draft = &self.aggregations[at];
                    assert(view.draft() == Some(draft@));
                    if let Some(settings) = &draft.settings {
                        let ghost keys = setting_views(settings@).map_values(
                            |x: SettingView| x.key,
                        );
                        let ghost want = plain_lines(keys, Tone::Plain);
                        let ghost head = out@;
                        let mut i: usize = 0;
                        assert(head + want.take(0) =~= head);
                        while i < settings.len()
                            invariant
                                i <= settings@.len(),
                                keys == setting_views(settings@).map_values(
                                    |x: SettingView| x.key,
                                ),
                                want == plain_lines(keys, Tone::Plain),
                                want.len() == settings@.len(),
                                out@ == head + want.take(i as int),
                            decreases settings@.len() - i,
                        {
                            assert(setting_views(settings@)[i as int] == settings@[i as int]@);
                            out.add1(settings[i].key.as_str(), Tone::Plain);
                            assert(out@ =~= head + want.take(i + 1));
                            i = i + 1;
                        }
                        assert(want.take(i as int) =~= want);
                    }
                }
            },
            SearchCriteria::OrderBy => {
                out.add1("Field", Tone::Plain);
                out.add1("Direction", Tone::Plain);
            },
            SearchCriteria::Create => {
                out.add1("+ Create Custom Field", Tone::Add);
                let base = get_base_fields(self.available_fields.as_slice());
                let names = self.payload_names();
                out.add_choices(base.as_slice(), names.as_slice());
            },
            _ => {},
        }
        assert(out@ =~= view.right_lines());
        out
    }

    fn filter_extra(&self) -> (r: Sheet)
        ensures
            r@ == self@.filter_options(),
    {
        let ghost view = self@;
        assert(filter_views(self.filters@).len() == self.filters@.len());
        let mut out = Sheet::new();
        let at = place_of(self.middle);
        if at < self.filters.len() {
            let f = &self.filters[at];
            assert(view.filters[at as int] == f@);
            match self.filter_step {
                FilterStep::Field => {
                    let fields = get_filtered_fields(self.available_fields.as_slice());
                    let chosen = one(f.field.as_str());
                    out.add_choices(fields.as_slice(), chosen.as_slice());
                },
                FilterStep::Op => {
                    let ops = ops_offered();
                    let chosen = one(f.op.as_str());
                    out.add_choices(ops.as_slice(), chosen.as_slice());
                },
                FilterStep::Value => {
                    let chosen = one(f.value.text.as_str());
                    out.add_choices(self.value_options.as_slice(), chosen.as_slice());
                },
                FilterStep::List => {},
            }
        }
        assert(out@ =~= view.filter_options());
        out
    }

    fn draft_extra(&self) -> (r: Sheet)
        ensures
            r@ == self@.draft_options(),
    {
        let ghost view = self@;
        assert(draft_views(self.aggregations@).len() == self.aggregations@.len());
        let mut out = Sheet::new();
        let at = place_of(self.middle);
        if at >= self.aggregations.len() {
            return out;
        }
        let draft = &self.aggregations[at];
        assert(view.draft() == Some(draft@));
        let step = place_of(self.right);
        if step == 0 {
            let chosen = list_of(&draft.kind);
            out.add_choices(self.agg_type_options.as_slice(), chosen.as_slice());
            assert(out@ =~= view.draft_options());
            return out;
        }
        if let Some(settings) = &draft.settings {
            let ghost s = setting_views(settings@);
            assert(s.len() == settings@.len());
            let key = if step - 1 < settings.len() {
                assert(s[step - 1] == settings@[step - 1]@);
                settings[step - 1].key.as_str()
            } else {
                ""
            };
            let found = find_setting(settings, key);
            let chosen = match found {
                Some(k) => list_of(&settings[k].text),
                None => list_of(&None),
            };
            if same_text(key, "field") || same_text(key, "key_field") || same_text(
                key,
                "bucket_field",
            ) || same_text(key, "value_field") {
                let fields = get_filtered_fields(self.available_fields.as_slice());
                out.add_choices(fields.as_slice(), chosen.as_slice());
            } else if same_text(key, "operation") {
                out.add_choices(self.agg_op_options.as_slice(), chosen.as_slice());
            } else {
                let values = match found {
                    Some(k) => {
                        let q = unquote(settings[k].json.as_str());
                        one(q.as_str())
                    },
                    None => list_of(&None),
                };
                out.add_choices(self.agg_value_options.as_slice(), values.as_slice());
            }
        }
        assert(out@ =~= view.draft_options());
        out
    }

    fn order_extra(&self) -> (r: Sheet)
        ensures
            r@ == self@.order_options(),
    {
        let ghost view = self@;
        assert(order_views(self.order_by@).len() == self.order_by@.len());
        let mut out = Sheet::new();
        let at = place_of(self.middle);
        if at < self.order_by.len() {
            let o = &self.order_by[at];
            assert(view.order_by[at as int] == (o.field@, o.direction));
            if place_of(self.right) == 0 {
                let chosen = one(o.field.as_str());
                if self.entity.is_some() && self.table.is_some() {
                    out.add_choices(self.order_fields.as_slice(), chosen.as_slice());
                }
            } else {
                out.add_choice("Asc", o.direction == SortDirection::Asc);
                out.add_choice("Desc", o.direction == SortDirection::Desc);
            }
        }
        assert(out@ =~= view.order_options());
        out
    }

    fn selected_cell(&self) -> (r: Option<String>)
        ensures
            match r {
                Some(v) => self@.payload_field() matches Some(f) && v@ == self@.cell(f),
                None => self@.payload_field() is None,
            },
    {
        let fields = if self.criteria == SearchCriteria::Create {
            self.payload_names()
        } else {
            get_base_fields(self.available_fields.as_slice())
        };
        let ghost fs = texts(fields@);
        assert(fs.len() == fields@.len());
        let at = place_of(self.middle);
        if at < fields.len() {
            assert(fs[at as int] == fields@[at as int]@);
            Some(self.cell_of(fields[at].as_str()))
        } else {
            None
        }
    }

    fn payload_extra(&self) -> (r: Sheet)
        requires
            self.wf(),
        ensures
            r@ == self@.value_options.map_values(|s: Seq<char>| choice(s, self@.has_option(s))),
    {
        let ghost view = self@;
        let ghost want = view.value_options.map_values(
            |s: Seq<char>| choice(s, view.has_option(s)),
        );
        assert(view.value_options.len() == self.value_options@.len());
        let value = self.selected_cell();
        let mut others: Vec<String> = Vec::new();
        let mut k: usize = 2;
        assert(texts(others@) =~= view.value_options.skip(2).take(0));
        while k < self.value_options.len()
            invariant
                2 <= k <= self.value_options@.len(),
                view == self@,
                view.value_options.len() == self.value_options@.len(),
                texts(others@) == view.value_options.skip(2).take(k - 2),
            decreases self.value_options@.len() - k,
        {
            let ghost held = texts(others@);
            others.push(self.value_options[k].clone());
            assert(view.value_options[k as int] == self.value_options@[k as int]@);
            assert(texts(others@) =~= held.push(view.value_options[k as int]));
            assert(view.value_options.skip(2).take(k - 1) =~= view.value_options.skip(2).take(
                k - 2,
            ).push(view.value_options[k as int]));
            k = k + 1;
        }
        assert(view.value_options.skip(2).take(k - 2) =~= view.value_options.skip(2));
        let mut out = Sheet::new();
        let mut i: usize = 0;
        assert(want.take(0) =~= SheetView::empty());
        while i < self.value_options.len()
            invariant
                i <= self.value_options@.len(),
                view == self@,
                view.value_options.len() == self.value_options@.len(),
                texts(others@) == view.value_options.skip(2),
                match value {
                    Some(v) => view.payload_field() matches Some(f) && v@ == view.cell(f),
                    None => view.payload_field() is None,
                },
                want == view.value_options.map_values(
                    |s: Seq<char>| choice(s, view.has_option(s)),
                ),
                out@ == want.take(i as int),
            decreases self.value_options@.len() - i,
        {
            let s = self.value_options[i].as_str();
            assert(view.value_options[i as int] == s@);
            let chosen = match &value {
                Some(v) => if same_text(s, "Variable (ask later)") {
                    starts_with_char(v.as_str(), '$')
                } else if same_text(s, "Write value") {
                    !v.as_str().is_empty() && !starts_with_char(v.as_str(), '$') && !has_text(
                        others.as_slice(),
                        v.as_str(),
                    )
                } else {
                    same_text(v.as_str(), s)
                },
                None => false,
            };
            out.add_choice(s, chosen);
            assert(out@ =~= want.take(i + 1));
            i = i + 1;
        }
        assert(want.take(i as int) =~= want);
        out
    }

    /// The options for the selected item.
    pub fn extra_items(&self) -> (r: Sheet)
        requires
            self.wf(),
        ensures
            r@ == self@.extra_lines(),
    {
        match self.criteria {
            SearchCriteria::Filters => self.filter_extra(),
            SearchCriteria::Aggregations => self.draft_extra(),
            SearchCriteria::OrderBy => self.order_extra(),
            SearchCriteria::Create => self.payload_extra(),
            SearchCriteria::Update => self.payload_extra(),
            _ => Sheet::new(),
        }
    }

    /// The keys that are explained.
    pub fn help(&self) -> (r: &str)
        ensures
            r@ == self@.help(),
    {
        match self.focus {
            FocusPanel::Left => "↑↓ Navigate • → Next",
            FocusPanel::Bottom => "Enter Accept • Esc Cancel",
            _ => "↑↓ Navigate • Enter Select • ←→ Switch",
        }
    }

    /// How the operation is run.
    pub fn action_hint(&self) -> (r: &str)
        ensures
            r@ == (if self.task == Some(Task::Search) {
                "To perform a query press the 's' key"@
            } else {
                "To execute operation press the 's' key"@
            }),
    {
        match self.task {
            Some(Task::Search) => "To perform a query press the 's' key",
            _ => "To execute operation press the 's' key",
        }
    }

    /// What is asked for at the bottom.
    pub fn input_hint(&self) -> (r: &str)
        ensures
            r@ == (if begins_with(self@.value_input, '$') {
                "Variable name..."@
            } else {
                "Value..."@
            }),
    {
        if starts_with_char(self.value_input.as_str(), '$') {
            "Variable name..."
        } else {
            "Value..."
        }
    }

    /// The height of the panels, and of what is asked for below them.
    pub fn heights(&self) -> (r: (u16, u16))
        ensures
            r.0 == (if self@.filters.len() > 1 {
                12u16
            } else {
                11
            }),
            r.1 == (if self.focus == FocusPanel::Bottom {
                3u16
            } else {
                0
            }),
    {
        assert(filter_views(self.filters@).len() == self.filters@.len());
        (
            if self.filters.len() > 1 {
                12
            } else {
                11
            },
            if self.focus == FocusPanel::Bottom {
                3
            } else {
                0
            },
        )
    }
}

/// There is a share for each panel that is shown, and the last takes the rest.
pub proof fn law_share_per_panel(v: SearchView)
    ensures
        v.shares().len() == 2 + (if v.shown().right {
            1int
        } else {
            0
        }) + (if v.shown().extra {
            1int
        } else {
            0
        }),
        v.shares().last() == Share::Rest,
{
}

} // verus!
