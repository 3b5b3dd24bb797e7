//! What holds of the lists and reports that are shown, and of what the editor does to a
//! whole text.

use crate::deploy::watch::printed_end;
use crate::json_text::{
    first_name, first_settings, json_compact, json_members, json_pretty, json_readable,
    JsonCellView,
};
use crate::repl::catalog::{
    branch, entity_lines, entity_tree, guides, lemma_name_order, loaded_lines, loaded_table_lines,
    name_order, table_names, table_tree, tables_in_order, CatalogNodeType, EntityListing,
    TableListing,
};
use crate::repl::console::BitticePanel;
use crate::repl::display::{cells_line, count_lines, counts_lines, footer_pieces, CountView};
use crate::repl::editor::{paste_line, place_of_byte, text_lines, EditorView};
use crate::repl::fields::file_fields;
use crate::repl::grid::{body_lines, row_line};
use crate::repl::load_form::shown_height;
use crate::repl::preview::{listed_items, menu_line, record_part};
use crate::repl::search_panel::{
    draft_of, place, setting_from, FilterStep, SearchCriteria, SearchView, SettingView,
};
use crate::repl::server_panel::{aggregation_texts, setting_texts};
use crate::repl::sheet::{choice, choices, Tone};
use crate::text::{decimal_spec, join_spec, trim_spec};
use crate::text_sort::{law_texts_sorted, sorted_texts};
use crate::types::{op_name, LogicalOp, SortDirection};
use vstd::prelude::*;

verus! {

/// Of what a program printed the last twenty-five lines are shown, and that there are none
/// where it printed nothing.
pub proof fn law_printed_end(text: Seq<char>)
    ensures
        text_lines(text).len() == 0 ==> printed_end(text) == "(no output captured)"@,
        0 < text_lines(text).len() <= 25 ==> printed_end(text) == join_spec(text_lines(text), "\n"@),
        text_lines(text).len() > 25 ==> printed_end(text) == join_spec(
            text_lines(text).skip(text_lines(text).len() - 25),
            "\n"@,
        ),
{
}

/// A text is reported as valid where it can be read as JSON and as invalid where it cannot,
/// and an empty one not at all; and nothing else changes.
pub proof fn law_validated(e: EditorView)
    ensures
        ({
            let t = trim_spec(e.text());
            &&& t.len() == 0 ==> e.validated().status is None
            &&& t.len() > 0 && json_readable(t) ==> e.validated().status == Some(
                ("Valid JSON"@, true),
            )
            &&& t.len() > 0 && !json_readable(t) ==> e.validated().status == Some(
                ("Invalid JSON"@, false),
            )
            &&& e.validated().lines == e.lines && e.validated().cursor == e.cursor
                && e.validated().selection == e.selection
        }),
{
}

/// Formatting puts the JSON in place of the text, with the cursor at its beginning; a text
/// that is no JSON stays.
pub proof fn law_formatted(e: EditorView, report: Seq<char>)
    ensures
        json_pretty(e.text()) is None ==> e.formatted(report) == (e, false),
        json_pretty(e.text()) matches Some(t) ==> ({
            let f = e.formatted(report);
            &&& f.1
            &&& f.0.cursor == (0usize, 0usize)
            &&& f.0.status == Some((report, true))
            &&& f.0.lines == (if text_lines(t).len() == 0 {
                seq![Seq::<char>::empty()]
            } else {
                text_lines(t)
            })
        }),
{
}

proof fn lemma_place_ascii(line: Seq<char>, byte: int)
    requires
        forall|i: int| 0 <= i < line.len() ==> (#[trigger] line[i] as u32) < 0x80,
        0 <= byte <= line.len(),
    ensures
        place_of_byte(line, byte) == byte,
    decreases line.len(),
{
    if byte > 0 {
        let rest = line.skip(1);
        assert((line[0] as u32) < 0x80);
        assert forall|i: int| 0 <= i < rest.len() implies (#[trigger] rest[i] as u32) < 0x80 by {
            assert(rest[i] == line[i + 1]);
        }
        lemma_place_ascii(rest, byte - 1);
    }
}

/// The first line that is pasted comes in at the cursor, in a line of plain characters, and
/// the cursor goes behind it; the lines around stay.
pub proof fn law_pasted_line(lines: Seq<Seq<char>>, at: (usize, usize), part: Seq<char>)
    requires
        at.0 < lines.len(),
        at.1 <= lines[at.0 as int].len(),
        at.1 + part.len() <= usize::MAX,
        lines.len() < usize::MAX,
        forall|i: int|
            0 <= i < lines[at.0 as int].len() ==> (#[trigger] lines[at.0 as int][i] as u32) < 0x80,
    ensures
        ({
            let (after, spot) = paste_line(lines, at, part, true);
            let line = lines[at.0 as int];
            &&& after.len() == lines.len()
            &&& after[at.0 as int] == line.take(at.1 as int) + part + line.skip(at.1 as int)
            &&& forall|i: int| 0 <= i < lines.len() && i != at.0 ==> #[trigger] after[i] == lines[i]
            &&& spot == (at.0, (at.1 + part.len()) as usize)
        }),
        ({
            let (after, spot) = paste_line(lines, at, part, false);
            let line = lines[at.0 as int];
            &&& after.len() == lines.len() + 1
            &&& after[at.0 as int] == line.take(at.1 as int)
            &&& after[at.0 + 1] == part + line.skip(at.1 as int)
            &&& spot.0 == at.0 + 1 && spot.1 == part.len()
        }),
{
    let l = at.0 as int;
    let line = lines[l];
    lemma_place_ascii(line, at.1 as int);
    let rest = line.skip(at.1 as int);
    assert(place_of_byte(rest, 0) == 0);
    assert(rest.take(0) + part + rest.skip(0) =~= part + rest);
    let broken = lines.update(l, line.take(at.1 as int)).insert(l + 1, rest);
    assert(broken[l + 1] == rest);
    assert(broken[l] == line.take(at.1 as int));
}

/// A count is shown with its number, the names of its columns, its rows and its sum, where
/// it has one; and the counts follow one another.
pub proof fn law_shown_counts(counts: Seq<CountView>, c: CountView, n: int, i: int)
    requires
        n > 0,
    ensures
        counts_lines(counts, 0).len() == 0,
        counts_lines(counts, n) == counts_lines(counts, n - 1) + count_lines(counts[n - 1], n),
        ({
            let lines = count_lines(c, n);
            &&& lines.len() == 3 + c.rows.len() + (if c.sum is Some {
                1int
            } else {
                0
            })
            &&& lines[1][0].0 == "Aggregation #"@ + decimal_spec(n as nat)
            &&& lines[2] == cells_line(c.headers, Tone::Heading)
            &&& 0 <= i < c.rows.len() ==> lines[3 + i] == cells_line(c.rows[i], Tone::Text)
            &&& c.sum matches Some(s) ==> lines.last()[0].0 == "  Total Sum: "@ + s
        }),
{
}

/// In a grid the rows stand below the names of the columns in their order, each with a rule
/// below it.
pub proof fn law_grid_rows(rows: Seq<Seq<Seq<char>>>, widths: Seq<int>, n: int, i: int)
    requires
        0 <= i < n <= rows.len(),
    ensures
        body_lines(rows, widths, n).len() == 2 * n,
        body_lines(rows, widths, n)[2 * i] == row_line(rows[i], widths, Tone::Value),
    decreases n,
{
    lemma_body_len(rows, widths, n - 1);
    if i < n - 1 {
        law_grid_rows(rows, widths, n - 1, i);
    }
}

proof fn lemma_body_len(rows: Seq<Seq<Seq<char>>>, widths: Seq<int>, n: int)
    requires
        0 <= n,
    ensures
        body_lines(rows, widths, n).len() == 2 * n,
    decreases n,
{
    if n > 0 {
        lemma_body_len(rows, widths, n - 1);
    }
}

/// At the foot stand the keys of the panel and what is reported, or that all is ready.
pub proof fn law_footer(panel: BitticePanel, message: Seq<char>)
    ensures
        footer_pieces(panel, None).last() == (" Ready "@, Tone::Text),
        footer_pieces(panel, Some((message, true))).last() == (" "@ + message + " "@, Tone::Success),
        footer_pieces(panel, Some((message, false))).last() == (
            " "@ + message + " "@,
            Tone::Failure,
        ),
        footer_pieces(panel, None)[0] == (" ^Q "@, Tone::Badge),
        panel == BitticePanel::Editor ==> footer_pieces(panel, None)[3].0 == " Run "@,
        panel == BitticePanel::Catalog ==> footer_pieces(panel, None)[3].0 == " Load "@,
        panel == BitticePanel::Results ==> footer_pieces(panel, None)[3].0 == " Export "@,
{
}

/// The fields of files are those that their names tell, in their order.
pub proof fn law_fields_of_files(names: Seq<Seq<char>>, last: Seq<char>)
    ensures
        file_fields(Seq::empty()).len() == 0,
        file_fields(names.push(last)) == (match crate::compaction::file_field(last) {
            Some(f) => file_fields(names).push(f),
            None => file_fields(names),
        }),
{
    assert(names.push(last).drop_last() =~= names);
}

/// The texts of an aggregation are the values of its settings that are texts, and those of
/// all aggregations follow one another.
pub proof fn law_setting_texts(
    m: Seq<(Seq<char>, JsonCellView)>,
    key: Seq<char>,
    text: Seq<char>,
    all: Seq<Seq<char>>,
    last: Seq<char>,
)
    ensures
        setting_texts(Seq::empty()).len() == 0,
        setting_texts(m.push((key, JsonCellView::Text(text)))) == setting_texts(m).push(text),
        setting_texts(m.push((key, JsonCellView::Number(text)))) == setting_texts(m),
        setting_texts(m.push((key, JsonCellView::Other(text)))) == setting_texts(m),
        setting_texts(m.push((key, JsonCellView::Nothing))) == setting_texts(m),
        crate::json_text::first_settings(last) matches Some(s) ==> aggregation_texts(all.push(last))
            == aggregation_texts(all) + setting_texts(s),
{
    assert(m.push((key, JsonCellView::Text(text))).drop_last() =~= m);
    assert(m.push((key, JsonCellView::Number(text))).drop_last() =~= m);
    assert(m.push((key, JsonCellView::Other(text))).drop_last() =~= m);
    assert(m.push((key, JsonCellView::Nothing)).drop_last() =~= m);
    assert(all.push(last).drop_last() =~= all);
}

/// For a filter one chooses from the fields, the operators and the values, with its own
/// marked; for an order from the fields and the two directions.
pub proof fn law_offered_parts_of_search(v: SearchView)
    ensures
        ({
            let at = place(v.middle);
            &&& v.criteria == SearchCriteria::Filters && 0 <= at < v.filters.len() ==> ({
                let f = v.filters[at];
                &&& v.filter_step == FilterStep::Field ==> v.extra_lines() == choices(
                    sorted_texts(v.available_fields),
                    seq![f.field],
                )
                &&& v.filter_step == FilterStep::Op ==> v.extra_lines() == choices(
                    seq!["Eq"@, "Ne"@, "In"@, "Like"@, "Gt"@, "Gte"@, "Lt"@, "Lte"@],
                    seq![op_name(f.op)],
                )
                &&& v.filter_step == FilterStep::Value ==> v.extra_lines() == choices(
                    v.value_options,
                    seq![f.value.text],
                )
            })
            &&& v.criteria == SearchCriteria::OrderBy && 0 <= at < v.order_by.len() ==> ({
                let o = v.order_by[at];
                &&& place(v.right) == 0 && v.entity is Some && v.table is Some ==> v.extra_lines()
                    == choices(v.order_fields, seq![o.0])
                &&& place(v.right) != 0 ==> v.extra_lines() == seq![
                    choice("Asc"@, o.1 == SortDirection::Asc),
                    choice("Desc"@, o.1 == SortDirection::Desc),
                ]
            })
            &&& v.criteria == SearchCriteria::FiltersOp ==> v.middle_lines() == seq![
                choice("And"@, v.filters_op == LogicalOp::And),
                choice("Or"@, v.filters_op == LogicalOp::Or),
            ]
            &&& v.criteria == SearchCriteria::Limit ==> v.middle_lines()[0][0].0 == "Value: "@ + (
            if v.limit is Some {
                decimal_spec(v.limit->0 as nat)
            } else {
                "None"@
            })
        }),
{
}

proof fn lemma_setting_from(s: Seq<SettingView>, key: Seq<char>, from: int, at: int)
    requires
        0 <= from <= at < s.len(),
        s[at].key == key,
        forall|i: int| from <= i < at ==> (#[trigger] s[i]).key != key,
    ensures
        setting_from(s, key, from) == Some(s[at]),
    decreases at - from,
{
    if from < at {
        assert(s[from].key != key);
        lemma_setting_from(s, key, from + 1, at);
    }
}

/// A setting is found by its key: the first that has it.
pub proof fn law_setting_is_found(s: Seq<SettingView>, at: int)
    requires
        0 <= at < s.len(),
        forall|i: int| 0 <= i < at ==> (#[trigger] s[i]).key != s[at].key,
    ensures
        setting_from(s, s[at].key, 0) == Some(s[at]),
{
    lemma_setting_from(s, s[at].key, 0, at);
}

/// The catalogue has a node for each entity, with a node for each of its tables, with a node
/// for each of its fields, all in the order of their names; entities and tables are open.
pub proof fn law_catalog_nodes(e: EntityListing, t: TableListing, i: int)
    ensures
        table_tree(t).name == t.name,
        table_tree(t).is_expanded,
        table_tree(t).children.len() == sorted_texts(t.fields).len(),
        0 <= i < sorted_texts(t.fields).len() ==> table_tree(t).children[i].name == sorted_texts(
            t.fields,
        )[i] && table_tree(t).children[i].node_type == CatalogNodeType::Field,
        entity_tree(e).name == e.name,
        entity_tree(e).is_expanded,
        entity_tree(e).node_type == CatalogNodeType::Entity,
        table_tree(t).node_type == CatalogNodeType::Table,
        entity_tree(e).children.len() == tables_in_order(e.tables).len(),
        0 <= i < tables_in_order(e.tables).len() ==> entity_tree(e).children[i] == table_tree(
            tables_in_order(e.tables)[i],
        ),
{
}

/// The lines of what is loaded: an entity, then its tables, each with its fields below it,
/// and the last of each with its own mark; an entity without tables is not shown.
pub proof fn law_loaded_lines(
    entity: Seq<char>,
    tables: Seq<TableListing>,
    t: TableListing,
    is_last: bool,
    j: int,
)
    ensures
        entity_lines(entity, Seq::empty()).len() == 0,
        tables.len() > 0 ==> entity_lines(entity, tables) == seq!["\u{f01bc}"@ + entity]
            + loaded_lines(tables, tables.len()),
        loaded_table_lines(t, is_last).len() == 1 + t.fields.len(),
        loaded_table_lines(t, is_last)[0] == branch(is_last) + "\u{f04eb}"@ + t.name,
        0 <= j < t.fields.len() ==> loaded_table_lines(t, is_last)[1 + j] == (if is_last {
            "   "@
        } else {
            "\u{2502}  "@
        }) + branch(j == t.fields.len() - 1) + "\u{f01fd}"@ + t.fields[j],
        branch(true) == "\u{2514}\u{2500}\u{2500}"@,
        branch(false) == "\u{251c}\u{2500}\u{2500}"@,
        tables.len() > 0 ==> loaded_lines(tables, tables.len()) == loaded_lines(
            tables,
            (tables.len() - 1) as nat,
        ) + loaded_table_lines(tables.last(), true),
{
}

/// The preview lists each filter or aggregation, or that there is none, and of a record each
/// cell with its name.
pub proof fn law_previewed_items(items: Seq<Seq<char>>, v: SearchView, i: int)
    ensures
        items.len() == 0 ==> listed_items(items).len() == 1 && listed_items(items)[0][1].0
            == "(None)"@,
        items.len() > 0 ==> listed_items(items).len() == items.len(),
        0 <= i < items.len() ==> listed_items(items)[i][1].0 == items[i],
        v.payload_keys.len() > 0 ==> record_part(v).len() == 1 + v.payload_keys.len(),
        0 <= i < v.payload_keys.len() ==> record_part(v)[1 + i][1].0 == v.payload_keys[i] + ": "@
            && record_part(v)[1 + i][2].0 == v.cell(v.payload_keys[i]),
        menu_line(v.target_id, i, true)[1].0 == "◉ "@,
        menu_line(v.target_id, i, false)[1].0 == "  "@,
        menu_line(v.target_id, i, true)[2].0 == decimal_spec(i as nat) + ". "@ + v.target_id,
{
}

/// The tables of an entity stand in the order of their names, each as it was loaded.
pub proof fn law_tables_in_order(v: Seq<TableListing>, k: int)
    requires
        0 <= k < v.len(),
    ensures
        tables_in_order(v).len() == v.len(),
        tables_in_order(v)[k].name == sorted_texts(table_names(v))[k],
        v.contains(tables_in_order(v)[k]),
{
    lemma_name_order(table_names(v));
    law_texts_sorted(table_names(v));
    let at = name_order(table_names(v))[k];
    assert(0 <= at < v.len());
    assert(table_names(v)[at] == v[at].name);
    assert(tables_in_order(v)[k] == v[at]);
}

/// An aggregation that is put together is known by the name it stands under, with its
/// settings by their names, as far as it is JSON.
pub proof fn law_draft(text: Seq<char>)
    ensures
        draft_of(text) is None <==> json_compact(text) is None,
        draft_of(text) matches Some(d) ==> ({
            &&& json_compact(text) == Some(d.json)
            &&& d.kind == first_name(text)
            &&& d.settings is None <==> first_settings(text) is None
            &&& first_settings(text) matches Some(m) ==> d.settings->0.len() == m.len()
                && forall|i: int|
                0 <= i < m.len() ==> (#[trigger] d.settings->0[i]).key == m[i].0
                    && d.settings->0[i].text == m[i].1.string()
        }),
        json_members(text) matches Some(m) ==> m.len() > 0 ==> first_name(text) == Some(m[0].0),
{
}

/// What is loaded takes a line more than it has, and nine at the most.
pub proof fn law_height_of_loaded(n: nat)
    requires
        n < 0x1_0000,
    ensures
        n == 0 ==> shown_height(n) == 0,
        0 < n < 8 ==> shown_height(n) == n + 1,
        n >= 8 ==> shown_height(n) == 9,
{
}

/// A field is shown behind a guide for each node above it but the first: blanks below the
/// last of its kind, and a line below another.
pub proof fn law_guides(parents: Seq<bool>, last: bool)
    requires
        parents.len() > 0,
    ensures
        guides(seq![last], 1).len() == 0,
        guides(parents.push(last), (parents.len() + 1) as int) == guides(
            parents,
            parents.len() as int,
        ) + (if last {
            "   "@
        } else {
            "\u{2502}  "@
        }),
{
    lemma_guides(parents, last, parents.len() as int);
}

proof fn lemma_guides(parents: Seq<bool>, last: bool, n: int)
    requires
        0 <= n <= parents.len(),
    ensures
        guides(parents.push(last), n) == guides(parents, n),
    decreases n,
{
    if n > 1 {
        lemma_guides(parents, last, n - 1);
    }
}

} // verus!
