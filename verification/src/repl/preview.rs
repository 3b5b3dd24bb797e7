//! A query as it stands, and its results, line by line.

use crate::phrase::{cat2, cat3, repeat_text, repeated};
use crate::repl::display::{
    at_least_one, count_views, page_count, pages, CountView, ResultPage, ResultView,
};
use crate::repl::grid::{byte_len, bytes_in, grid, grid_fits, grid_lines};
use crate::repl::search_panel::{
    draft_views, filter_text, limit_text, order_views, show_filter, show_limit, DraftView,
    OrderView, SearchPanel, SearchView, Task,
};
use crate::repl::sheet::{Line, PieceView, Sheet, SheetView, Tone};
use crate::table::row_lists;
use crate::text::{decimal, decimal_spec, join_spec, join_texts, texts};
use crate::types::{filter_views, FilterView, LogicalOp, OrderBy, SortDirection};
use vstd::prelude::*;

verus! {

/// What `str`'s `Debug` writes of a text.
pub uninterp spec fn quoted(s: Seq<char>) -> Seq<char>;

/// `<str as std::fmt::Debug>`: a text in quotes, with what cannot stand there
/// escaped. Which characters are escaped is left to the name `quoted`.
#[verifier::external_body]
fn quote(s: &str) -> (r: String)
    ensures
        r@ == quoted(s@),
{
    format!("{:?}", s)
}

/// A list of texts, each in quotes.
pub open spec fn quoted_list(v: Seq<Seq<char>>) -> Seq<char> {
    "["@ + join_spec(v.map_values(|s: Seq<char>| quoted(s)), ", "@) + "]"@
}

/// A key of a sort, with its parts named.
pub open spec fn order_debug(o: OrderView) -> Seq<char> {
    "OrderBy { field: "@ + quoted(o.0) + ", direction: "@ + (match o.1 {
        SortDirection::Asc => "Asc"@,
        SortDirection::Desc => "Desc"@,
    }) + " }"@
}

/// The keys of a sort, with their parts named.
pub open spec fn order_list(v: Seq<OrderView>) -> Seq<char> {
    "["@ + join_spec(v.map_values(|o: OrderView| order_debug(o)), ", "@) + "]"@
}

fn quote_list(v: &Vec<String>) -> (r: String)
    ensures
        r@ == quoted_list(texts(v@)),
{
    let ghost want = texts(v@).map_values(|s: Seq<char>| quoted(s));
    let mut parts: Vec<String> = Vec::new();
    let mut i: usize = 0;
    assert(texts(parts@) =~= want.take(0));
    while i < v.len()
        invariant
            i <= v@.len(),
            want == texts(v@).map_values(|s: Seq<char>| quoted(s)),
            texts(parts@) == want.take(i as int),
        decreases v@.len() - i,
    {
        assert(texts(v@)[i as int] == v@[i as int]@);
        let q = quote(v[i].as_str());
        let ghost held = texts(parts@);
        parts.push(q);
        assert(texts(parts@) =~= held.push(q@));
        assert(want.take(i + 1) =~= want.take(i as int).push(want[i as int]));
        i = i + 1;
    }
    assert(want.take(i as int) =~= want);
    let inner = join_texts(parts.as_slice(), ", ");
    cat3("[", inner.as_str(), "]")
}

fn show_orders(v: &Vec<OrderBy>) -> (r: String)
    ensures
        r@ == order_list(order_views(v@)),
{
    let ghost want = order_views(v@).map_values(|o: OrderView| order_debug(o));
    let mut parts: Vec<String> = Vec::new();
    let mut i: usize = 0;
    assert(texts(parts@) =~= want.take(0));
    while i < v.len()
        invariant
            i <= v@.len(),
            want == order_views(v@).map_values(|o: OrderView| order_debug(o)),
            texts(parts@) == want.take(i as int),
        decreases v@.len() - i,
    {
        assert(order_views(v@)[i as int] == (v@[i as int].field@, v@[i as int].direction));
        let q = quote(v[i].field.as_str());
        let head = cat3("OrderBy { field: ", q.as_str(), ", direction: ");
        let s = cat3(head.as_str(), v[i].direction.as_str(), " }");
        let ghost held = texts(parts@);
        parts.push(s);
        assert(texts(parts@) =~= held.push(s@));
        assert(want.take(i + 1) =~= want.take(i as int).push(want[i as int]));
        i = i + 1;
    }
    assert(want.take(i as int) =~= want);
    let inner = join_texts(parts.as_slice(), ", ");
    cat3("[", inner.as_str(), "]")
}

/// The branch before an item of a list.
pub open spec fn branch(last: bool, open_branch: Seq<char>, closed_branch: Seq<char>) -> Seq<char> {
    if last {
        closed_branch
    } else {
        open_branch
    }
}

/// The items of a list, each behind a branch; or that there are none.
pub open spec fn listed_items(items: Seq<Seq<char>>) -> SheetView {
    if items.len() == 0 {
        seq![seq![("│   └── "@, Tone::Key), ("(None)"@, Tone::Dim)]]
    } else {
        Seq::new(
            items.len(),
            |i: int|
                seq![
                    (branch(i == items.len() - 1, "│   ├── "@, "│   └── "@), Tone::Key),
                    (items[i], Tone::Value),
                ],
        )
    }
}

/// What is searched for, below the table.
pub open spec fn search_part(v: SearchView) -> SheetView {
    seq![seq![("├── "@, Tone::Key), ("Filters: "@, Tone::Key)]] + listed_items(
        v.filters.map_values(|f: FilterView| filter_text(f)),
    ) + (if v.filters.len() > 1 {
        seq![
            seq![
                ("├── "@, Tone::Key),
                ("Filters Op: "@, Tone::Key),
                (
                    match v.filters_op {
                        LogicalOp::And => "And"@,
                        LogicalOp::Or => "Or"@,
                    },
                    Tone::Value,
                ),
            ],
        ]
    } else {
        SheetView::empty()
    }) + seq![seq![("├── "@, Tone::Key), ("Aggregations: "@, Tone::Key)]] + listed_items(
        v.aggregations.map_values(|a: DraftView| a.json),
    ) + seq![
        seq![
            ("├── "@, Tone::Key),
            ("Order By: "@, Tone::Key),
            (order_list(v.order_by), Tone::Value),
        ],
        seq![
            ("├── "@, Tone::Key),
            ("Limit: "@, Tone::Key),
            (limit_text(v.limit), Tone::Value),
        ],
        seq![
            ("└── "@, Tone::Key),
            ("Fields: "@, Tone::Key),
            (quoted_list(v.selected_fields), Tone::Value),
        ],
    ]
}

/// The cells of a record, below the table.
pub open spec fn record_part(v: SearchView) -> SheetView {
    seq![seq![("└── "@, Tone::Key), ("Fields: "@, Tone::Key)]] + (if v.payload_keys.len() == 0 {
        seq![seq![("    └── "@, Tone::Key), ("(None)"@, Tone::Dim)]]
    } else {
        Seq::new(
            v.payload_keys.len(),
            |i: int|
                seq![
                    (
                        branch(i == v.payload_keys.len() - 1, "    ├── "@, "    └── "@),
                        Tone::Key,
                    ),
                    (v.payload_keys[i] + ": "@, Tone::Key),
                    (v.cell(v.payload_keys[i]), Tone::Value),
                ],
        )
    })
}

/// What is put together.
pub open spec fn preview_title(task: Option<Task>, has_results: bool) -> Seq<char> {
    match task {
        Some(Task::Create) => "Record to Create"@,
        Some(Task::Update) => "Record to Update"@,
        Some(Task::Delete) => "Record to Delete"@,
        _ => if has_results {
            "Query"@
        } else {
            "Query Preview"@
        },
    }
}

/// A text, or a question mark.
pub open spec fn or_unknown(s: Option<Seq<char>>) -> Seq<char> {
    match s {
        Some(x) => x,
        None => "?"@,
    }
}

/// The query or the record as it stands.
pub open spec fn preview_lines(v: SearchView, has_results: bool) -> SheetView {
    seq![
        seq![(preview_title(v.task, has_results), Tone::Active)],
        seq![
            ("├── "@, Tone::Key),
            ("Entity: "@, Tone::Key),
            (or_unknown(v.entity), Tone::Value),
        ],
        seq![
            ("├── "@, Tone::Key),
            ("Table: "@, Tone::Key),
            (or_unknown(v.table), Tone::Value),
        ],
    ] + (match v.task {
        Some(Task::Create) => record_part(v),
        Some(Task::Update) => record_part(v),
        Some(Task::Delete) => seq![
            seq![
                ("└── "@, Tone::Key),
                ("Target ID: "@, Tone::Key),
                (v.target_id, Tone::Value),
            ],
        ],
        _ => search_part(v),
    })
}

fn show_list(items: &Vec<String>) -> (r: Sheet)
    ensures
        r@ == listed_items(texts(items@)),
{
    let ghost want = listed_items(texts(items@));
    assert(texts(items@).len() == items@.len());
    let mut out = Sheet::new();
    if items.len() == 0 {
        out.add2("│   └── ", Tone::Key, "(None)", Tone::Dim);
        assert(out@ =~= want);
        return out;
    }
    let mut i: usize = 0;
    assert(want.take(0) =~= SheetView::empty());
    while i < items.len()
        invariant
            i <= items@.len(),
            items@.len() > 0,
            want == listed_items(texts(items@)),
            want.len() == items@.len(),
            out@ == want.take(i as int),
        decreases items@.len() - i,
    {
        assert(texts(items@)[i as int] == items@[i as int]@);
        let b = if i + 1 == items.len() {
            "│   └── "
        } else {
            "│   ├── "
        };
        out.add2(b, Tone::Key, items[i].as_str(), Tone::Value);
        assert(out@ =~= want.take(i + 1));
        i = i + 1;
    }
    assert(want.take(i as int) =~= want);
    out
}

impl SearchPanel {
    fn filter_texts(&self) -> (r: Vec<String>)
        ensures
            texts(r@) == self@.filters.map_values(|f: FilterView| filter_text(f)),
    {
        let ghost want = self@.filters.map_values(|f: FilterView| filter_text(f));
        let mut out: Vec<String> = Vec::new();
        let mut i: usize = 0;
        assert(texts(out@) =~= want.take(0));
        while i < self.filters.len()
            invariant
                i <= self.filters@.len(),
                want == self@.filters.map_values(|f: FilterView| filter_text(f)),
                want.len() == self.filters@.len(),
                texts(out@) == want.take(i as int),
            decreases self.filters@.len() - i,
        {
            assert(filter_views(self.filters@)[i as int] == self.filters@[i as int]@);
            let s = show_filter(&self.filters[i]);
            let ghost held = texts(out@);
            out.push(s);
            assert(texts(out@) =~= held.push(s@));
            assert(want.take(i + 1) =~= want.take(i as int).push(want[i as int]));
            i = i + 1;
        }
        assert(want.take(i as int) =~= want);
        out
    }

    fn draft_texts(&self) -> (r: Vec<String>)
        ensures
            texts(r@) == self@.aggregations.map_values(|a: DraftView| a.json),
    {
        let ghost want = self@.aggregations.map_values(|a: DraftView| a.json);
        let mut out: Vec<String> = Vec::new();
        let mut i: usize = 0;
        assert(texts(out@) =~= want.take(0));
        while i < self.aggregations.len()
            invariant
                i <= self.aggregations@.len(),
                want == self@.aggregations.map_values(|a: DraftView| a.json),
                want.len() == self.aggregations@.len(),
                texts(out@) == want.take(i as int),
            decreases self.aggregations@.len() - i,
        {
            assert(draft_views(self.aggregations@)[i as int] == self.aggregations@[i as int]@);
            let s = self.aggregations[i].json.clone();
            let ghost held = texts(out@);
            out.push(s);
            assert(texts(out@) =~= held.push(s@));
            assert(want.take(i + 1) =~= want.take(i as int).push(want[i as int]));
            i = i + 1;
        }
        assert(want.take(i as int) =~= want);
        out
    }

    fn search_preview(&self) -> (r: Sheet)
        ensures
            r@ == search_part(self@),
    {
        let ghost v = self@;
        assert(filter_views(self.filters@).len() == self.filters@.len());
        let mut out = Sheet::new();
        out.add2("├── ", Tone::Key, "Filters: ", Tone::Key);
        let fs = self.filter_texts();
        let a = show_list(&fs);
        out.add_sheet(a);
        if self.filters.len() > 1 {
            out.add3(
                "├── ",
                Tone::Key,
                "Filters Op: ",
                Tone::Key,
                self.filters_op.as_str(),
                Tone::Value,
            );
        }
        out.add2("├── ", Tone::Key, "Aggregations: ", Tone::Key);
        let ds = self.draft_texts();
        let b = show_list(&ds);
        out.add_sheet(b);
        let orders = show_orders(&self.order_by);
        out.add3("├── ", Tone::Key, "Order By: ", Tone::Key, orders.as_str(), Tone::Value);
        let limit = show_limit(self.limit);
        out.add3("├── ", Tone::Key, "Limit: ", Tone::Key, limit.as_str(), Tone::Value);
        let fields = quote_list(&self.selected_fields);
        out.add3("└── ", Tone::Key, "Fields: ", Tone::Key, fields.as_str(), Tone::Value);
        assert(out@ =~= search_part(v));
        out
    }

    fn record_preview(&self) -> (r: Sheet)
        ensures
            r@ == record_part(self@),
    {
        let ghost v = self@;
        let mut out = Sheet::new();
        out.add2("└── ", Tone::Key, "Fields: ", Tone::Key);
        let names = self.payload_names();
        assert(texts(names@).len() == names@.len());
        if names.len() == 0 {
            out.add2("    └── ", Tone::Key, "(None)", Tone::Dim);
            assert(out@ =~= record_part(v));
            return out;
        }
        let ghost head = out@;
        let ghost want = record_part(v).skip(1);
        assert(record_part(v) =~= head + want);
        let mut i: usize = 0;
        assert(head + want.take(0) =~= head);
        while i < names.len()
            invariant
                i <= names@.len(),
                names@.len() > 0,
                v == self@,
                texts(names@) == v.payload_keys,
                forall|k: Seq<char>| #[trigger] v.payload_keys.contains(k)
                    ==> v.payload.contains_key(k),
                want == record_part(v).skip(1),
                want.len() == names@.len(),
                out@ == head + want.take(i as int),
            decreases names@.len() - i,
        {
            assert(v.payload_keys[i as int] == names@[i as int]@);
            assert(v.payload_keys.contains(names@[i as int]@));
            let b = if i + 1 == names.len() {
                "    └── "
            } else {
                "    ├── "
            };
            let name = cat2(names[i].as_str(), ": ");
            let value = match self.payload.get(names[i].as_str()) {
                Some(x) => x.clone(),
                None => String::new(),
            };
            out.add3(b, Tone::Key, name.as_str(), Tone::Key, value.as_str(), Tone::Value);
            assert(want[i as int] == record_part(v)[i + 1]);
            assert(out@ =~= head + want.take(i + 1));
            i = i + 1;
        }
        assert(want.take(i as int) =~= want);
        out
    }

    /// The query or the record as it stands.
    pub fn get_query_preview_lines(&self, has_results: bool) -> (r: Sheet)
        ensures
            r@ == preview_lines(self@, has_results),
    {
        let ghost v = self@;
        let mut out = Sheet::new();
        let title = match self.task {
            Some(Task::Create) => "Record to Create",
            Some(Task::Update) => "Record to Update",
            Some(Task::Delete) => "Record to Delete",
            _ => if has_results {
                "Query"
            } else {
                "Query Preview"
            },
        };
        out.add1(title, Tone::Active);
        let entity = match &self.entity {
            Some(e) => e.as_str(),
            None => "?",
        };
        out.add3("├── ", Tone::Key, "Entity: ", Tone::Key, entity, Tone::Value);
        let table = match &self.table {
            Some(t) => t.as_str(),
            None => "?",
        };
        out.add3("├── ", Tone::Key, "Table: ", Tone::Key, table, Tone::Value);
        let part = match self.task {
            Some(Task::Create) => self.record_preview(),
            Some(Task::Update) => self.record_preview(),
            Some(Task::Delete) => {
                let mut p = Sheet::new();
                p.add3(
                    "└── ",
                    Tone::Key,
                    "Target ID: ",
                    Tone::Key,
                    self.target_id.as_str(),
                    Tone::Value,
                );
                p
            },
            _ => self.search_preview(),
        };
        out.add_sheet(part);
        assert(out@ =~= preview_lines(v, has_results));
        out
    }
}

/// An item of the menu, in its frame.
pub open spec fn menu_line(item: Seq<char>, number: int, selected: bool) -> Seq<PieceView> {
    let text = decimal_spec(number as nat) + ". "@ + item;
    let tone = if selected {
        Tone::Primary
    } else {
        Tone::Text
    };
    seq![
        ("│ "@, Tone::Frame),
        (
            if selected {
                "◉ "@
            } else {
                "  "@
            },
            tone,
        ),
        (text, tone),
        (
            repeated(
                " "@,
                if byte_len(text) < 34 {
                    (34 - byte_len(text)) as nat
                } else {
                    0
                },
            ),
            Tone::Plain,
        ),
        (" │"@, Tone::Frame),
    ]
}

/// The menu in its frame.
pub open spec fn menu_lines(items: Seq<Seq<char>>, selected: Option<usize>) -> SheetView {
    seq![seq![("┌"@ + repeated("─"@, 38) + "┐"@, Tone::Frame)]] + Seq::new(
        items.len(),
        |i: int| menu_line(items[i], i + 1, selected matches Some(k) && k == i),
    ) + seq![seq![("└"@ + repeated("─"@, 38) + "┘"@, Tone::Frame)]]
}

/// The menu in its frame.
pub fn get_menu_lines(items: &Vec<String>, selected: Option<usize>) -> (r: Sheet)
    ensures
        r@ == menu_lines(texts(items@), selected),
{
    let ghost names = texts(items@);
    let ghost want = Seq::new(
        names.len(),
        |i: int| menu_line(names[i], i + 1, selected matches Some(k) && k == i),
    );
    let dashes = repeat_text("─", 38);
    let top = cat3("┌", dashes.as_str(), "┐");
    let bottom = cat3("└", dashes.as_str(), "┘");
    let mut out = Sheet::new();
    out.add1(top.as_str(), Tone::Frame);
    let ghost head = out@;
    let mut i: usize = 0;
    assert(head + want.take(0) =~= head);
    while i < items.len()
        invariant
            i <= items@.len(),
            names == texts(items@),
            want == Seq::new(
                names.len(),
                |i: int| menu_line(names[i], i + 1, selected matches Some(k) && k == i),
            ),
            want.len() == items@.len(),
            out@ == head + want.take(i as int),
        decreases items@.len() - i,
    {
        assert(names[i as int] == items@[i as int]@);
        let is_selected = match selected {
            Some(k) => k == i,
            None => false,
        };
        let d = decimal((i + 1) as u64);
        let text = cat3(d.as_str(), ". ", items[i].as_str());
        let n = bytes_in(text.as_str());
        let pad = repeat_text(
            " ",
            if n < 34 {
                34 - n
            } else {
                0
            },
        );
        let mut line = Line::new();
        line.put("│ ", Tone::Frame);
        if is_selected {
            line.put("◉ ", Tone::Primary);
            line.put(text.as_str(), Tone::Primary);
        } else {
            line.put("  ", Tone::Text);
            line.put(text.as_str(), Tone::Text);
        }
        line.put(pad.as_str(), Tone::Plain);
        line.put(" │", Tone::Frame);
        assert(line@ =~= menu_line(names[i as int], i + 1, is_selected));
        out.add_line(line);
        assert(want[i as int] == menu_line(names[i as int], i + 1, is_selected));
        assert(out@ =~= head + want.take(i + 1));
        i = i + 1;
    }
    assert(want.take(i as int) =~= want);
    out.add1(bottom.as_str(), Tone::Frame);
    assert(out@ =~= menu_lines(names, selected));
    out
}

/// What was counted: a heading and the sum.
pub open spec fn sum_lines(c: CountView, number: int) -> SheetView {
    let head = seq![
        seq![(""@, Tone::Plain)],
        seq![("Aggregation #"@ + decimal_spec(number as nat), Tone::StrongText)],
    ];
    match c.sum {
        Some(s) => head.push(seq![("  Total Sum: "@ + s, Tone::Plain)]),
        None => head,
    }
}

/// The first lists that were counted.
pub open spec fn sums_lines(counts: Seq<CountView>, n: int) -> SheetView
    decreases n,
{
    if n <= 0 {
        Seq::empty()
    } else {
        sums_lines(counts, n - 1) + sum_lines(counts[n - 1], n)
    }
}

/// The results of a query, under the menu and the query.
pub open spec fn result_lines(
    v: SearchView,
    items: Seq<Seq<char>>,
    selected: Option<usize>,
    results: ResultView,
) -> SheetView {
    menu_lines(items, selected) + seq![
        seq![(""@, Tone::Plain)],
        seq![("+ "@, Tone::StrongActive), ("Press Esc to exit results"@, Tone::Text)],
        seq![("+ "@, Tone::StrongActive), ("Press 'S' (Shift+s) to save query"@, Tone::Text)],
        seq![(""@, Tone::Plain)],
    ] + preview_lines(v, true) + seq![
        seq![("Time: "@, Tone::Key), (results.time(" "@), Tone::Value)],
    ] + (if results.rows.len() == 0 {
        seq![seq![("  No results found"@, Tone::Fault)]]
    } else {
        grid_lines(results.headers, results.rows)
    }) + (match results.counts {
        Some(c) => sums_lines(c, c.len() as int),
        None => SheetView::empty(),
    })
}

impl SearchPanel {
    /// The results of a query, under the menu and the query.
    pub fn result_sheet(
        &self,
        items: &Vec<String>,
        selected: Option<usize>,
        results: &ResultPage,
    ) -> (r: Sheet)
        requires
            grid_fits(results@.headers, results@.rows),
        ensures
            r@ == result_lines(self@, texts(items@), selected, results@),
    {
        let mut out = get_menu_lines(items, selected);
        out.add1("", Tone::Plain);
        out.add2("+ ", Tone::StrongActive, "Press Esc to exit results", Tone::Text);
        out.add2("+ ", Tone::StrongActive, "Press 'S' (Shift+s) to save query", Tone::Text);
        out.add1("", Tone::Plain);
        let preview = self.get_query_preview_lines(true);
        out.add_sheet(preview);
        let time = results.time_text(" ");
        out.add2("Time: ", Tone::Key, time.as_str(), Tone::Value);
        assert(row_lists(results.rows@).len() == results.rows@.len());
        if results.rows.len() == 0 {
            out.add1("  No results found", Tone::Fault);
        } else {
            let g = grid(&results.headers, &results.rows);
            out.add_sheet(g);
        }
        let ghost top = out@;
        if let Some(counts) = &results.counts {
            let ghost cs = count_views(counts@);
            let mut i: usize = 0;
            assert(top + sums_lines(cs, 0) =~= top);
            while i < counts.len()
                invariant
                    i <= counts@.len(),
                    cs == count_views(counts@),
                    out@ == top + sums_lines(cs, i as int),
                decreases counts@.len() - i,
            {
                assert(cs[i as int] == counts@[i as int]@);
                let ghost before = out@;
                let d = decimal((i + 1) as u64);
                let title = cat2("Aggregation #", d.as_str());
                out.add1("", Tone::Plain);
                out.add1(title.as_str(), Tone::StrongText);
                if let Some(s) = &counts[i].sum {
                    let t = cat2("  Total Sum: ", s.as_str());
                    out.add1(t.as_str(), Tone::Plain);
                }
                assert(out@ =~= before + sum_lines(cs[i as int], i + 1));
                assert(out@ =~= top + sums_lines(cs, i + 1));
                i = i + 1;
            }
        }
        assert(out@ =~= result_lines(self@, texts(items@), selected, results@));
        out
    }
}

/// How many rows a page has: the limit, at least one, or a hundred.
pub open spec fn page_limit(limit: Option<u64>) -> u64 {
    match limit {
        Some(0) => 1,
        Some(n) => n,
        None => 100,
    }
}

/// The page, of how many, with the ways to the pages before and behind.
pub open spec fn page_footer(total: u64, limit: Option<u64>, page: u64) -> Seq<PieceView> {
    let count = page_count(total, page_limit(limit));
    seq![
        (
            " ← A "@,
            if page > 1 {
                Tone::FooterOn
            } else {
                Tone::FooterOff
            },
        ),
        (
            " Page "@ + decimal_spec(page as nat) + "/"@ + decimal_spec(at_least_one(count))
                + " "@,
            Tone::FooterText,
        ),
        (
            " D → "@,
            if page < count {
                Tone::FooterOn
            } else {
                Tone::FooterOff
            },
        ),
        ("  (Total found: "@ + decimal_spec(total as nat) + ")"@, Tone::FooterDim),
    ]
}

/// The page, of how many, with the ways to the pages before and behind.
pub fn page_line(total: u64, limit: Option<u64>, page: u64) -> (r: Line)
    ensures
        r@ == page_footer(total, limit, page),
{
    let per_page: u64 = match limit {
        Some(n) => if n == 0 {
            1
        } else {
            n
        },
        None => 100,
    };
    let count = pages(total, per_page);
    let mut out = Line::new();
    out.put(
        " ← A ",
        if page > 1 {
            Tone::FooterOn
        } else {
            Tone::FooterOff
        },
    );
    let p = decimal(page);
    let c = if count < 1 {
        decimal(1)
    } else {
        decimal(count)
    };
    let shown = crate::phrase::cat5(" Page ", p.as_str(), "/", c.as_str(), " ");
    out.put(shown.as_str(), Tone::FooterText);
    out.put(
        " D → ",
        if page < count {
            Tone::FooterOn
        } else {
            Tone::FooterOff
        },
    );
    let t = decimal(total);
    let found = cat3("  (Total found: ", t.as_str(), ")");
    out.put(found.as_str(), Tone::FooterDim);
    assert(out@ =~= page_footer(total, limit, page));
    out
}

/// The way to the next page is open as long as rows are left behind this one.
pub proof fn law_next_page_is_open(total: u64, limit: Option<u64>, page: u64)
    ensures
        page < page_count(total, page_limit(limit)) <==> page * page_limit(limit) < total,
{
    let l = page_limit(limit) as int;
    let n = page_count(total, page_limit(limit));
    vstd::arithmetic::div_mod::lemma_fundamental_div_mod(total + l - 1, l);
    let m = (total + l - 1) % l;
    assert(page < n <==> page * l < total) by (nonlinear_arith)
        requires
            total + l - 1 == l * n + m,
            0 <= m < l,
            l >= 1,
    ;
}

} // verus!
