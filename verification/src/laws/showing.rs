//! What holds of what is shown: the editor with its selection, the pages of results, grids
//! and the lists of the search.

use crate::phrase::repeated;
use crate::repl::display::{
    at_least_one, char_tone, in_selection, line_number, page_count, page_number, pieces_text,
    rows_before, ResultView,
};
use crate::repl::editor::{sorted_selection, EditorView};
use crate::repl::fields::offered_values;
use crate::repl::grid::{byte_len, cell_text, clipped, column_width, greatest, row_line};
use crate::repl::search_panel::{place, SearchCriteria, SearchView, Task};
use crate::repl::sheet::{choice, choices, PieceView, Tone};
use crate::text::decimal_spec;
use crate::text_sort::{law_texts_sorted, sorted_texts};
use vstd::prelude::*;

verus! {

/// Whether one place of a text comes before another.
pub open spec fn earlier(l: int, c: int, m: int, d: int) -> bool {
    l < m || l == m && c < d
}

/// A character is shown as selected if and only if its place is not before the beginning
/// of the selection and before its end; and the one at the cursor is shown as such.
pub proof fn law_selection_is_shown(
    start: (usize, usize),
    end: (usize, usize),
    line: int,
    c: int,
    on_line: bool,
    at_cursor: bool,
)
    requires
        !earlier(end.0 as int, end.1 as int, start.0 as int, start.1 as int),
    ensures
        in_selection(start, end, line, c) <==> !earlier(line, c, start.0 as int, start.1 as int)
            && earlier(line, c, end.0 as int, end.1 as int),
        char_tone(true, on_line, at_cursor) != char_tone(false, on_line, at_cursor) <==> !(on_line
            && at_cursor),
        char_tone(true, false, at_cursor) == Tone::Selected,
        char_tone(false, false, at_cursor) == Tone::Text,
        on_line && at_cursor ==> char_tone(true, on_line, at_cursor) == Tone::Cursor,
{
}

proof fn lemma_pieces_add(a: Seq<PieceView>, b: Seq<PieceView>)
    ensures
        pieces_text(a + b) == pieces_text(a) + pieces_text(b),
    decreases b.len(),
{
    if b.len() == 0 {
        assert(a + b =~= a);
        assert(pieces_text(a) + pieces_text(b) =~= pieces_text(a));
    } else {
        lemma_pieces_add(a, b.drop_last());
        assert((a + b).drop_last() =~= a + b.drop_last());
        assert((a + b).last() == b.last());
        assert(pieces_text(a + b) =~= pieces_text(a) + pieces_text(b));
    }
}

proof fn lemma_pieces_chars(pieces: Seq<PieceView>, text: Seq<char>)
    requires
        pieces.len() == text.len(),
        forall|k: int| 0 <= k < text.len() ==> (#[trigger] pieces[k]).0 == seq![text[k]],
    ensures
        pieces_text(pieces) == text,
    decreases text.len(),
{
    if text.len() == 0 {
        assert(text =~= Seq::empty());
    } else {
        let p = pieces.drop_last();
        let t = text.drop_last();
        assert forall|k: int| 0 <= k < t.len() implies (#[trigger] p[k]).0 == seq![t[k]] by {
            assert(p[k] == pieces[k]);
        }
        lemma_pieces_chars(p, t);
        assert(pieces[pieces.len() - 1].0 == seq![text[text.len() - 1]]);
        assert(t + seq![text.last()] =~= text);
    }
}

proof fn lemma_two(a: PieceView, b: PieceView)
    ensures
        pieces_text(seq![a]) == a.0,
        pieces_text(seq![a, b]) == a.0 + b.0,
{
    let none = Seq::<PieceView>::empty();
    assert(seq![a].drop_last() =~= none);
    assert(pieces_text(none) =~= Seq::<char>::empty());
    assert(seq![a].last() == a);
    assert(pieces_text(seq![a]) =~= a.0);
    assert(seq![a, b].drop_last() =~= seq![a]);
    assert(seq![a, b].last() == b);
}

/// A line of the editor is shown with its number in front and with all of its text, and a
/// blank behind it at the most, where the cursor stands there or the selection goes on.
pub proof fn law_line_is_shown(e: EditorView, focused: bool, line: int)
    requires
        0 <= line < e.lines.len(),
    ensures
        ({
            let shown = pieces_text(e.line_shown(focused, line));
            let whole = line_number(line, e.lines.len()) + e.lines[line];
            shown == whole || shown == whole + " "@
        }),
        e.line_shown(focused, line)[0].0 == line_number(line, e.lines.len()),
{
    let on_line = e.cursor.0 == line && focused;
    let number = seq![(line_number(line, e.lines.len()), Tone::Guide)];
    let text = e.lines[line];
    let all = e.line_shown(focused, line);
    let head = line_number(line, e.lines.len());
    lemma_two(number[0], number[0]);
    match sorted_selection(e.selection) {
        Some((start, end)) => {
            let chars = e.chars_shown(start, end, line, on_line);
            let tail = e.end_shown(start, end, line, on_line);
            lemma_pieces_chars(chars, text);
            lemma_pieces_add(number, chars + tail);
            lemma_pieces_add(chars, tail);
            if tail.len() > 0 {
                assert(tail =~= seq![tail[0]]);
                lemma_two(tail[0], tail[0]);
                assert(head + (text + " "@) =~= head + text + " "@);
            } else {
                assert(tail =~= Seq::empty());
                assert(text + Seq::<char>::empty() =~= text);
            }
        },
        None => {
            let plain = e.plain_shown(line, on_line);
            let c = e.cursor.1 as int;
            lemma_pieces_add(number, plain);
            if !on_line {
                lemma_two(plain[0], plain[0]);
                assert(plain =~= seq![plain[0]]);
            } else if c < text.len() {
                lemma_two(plain[0], plain[1]);
                assert(plain.drop_last() =~= seq![plain[0], plain[1]]);
                assert(text.take(c) + seq![text[c]] + text.skip(c + 1) =~= text);
                assert(pieces_text(plain) == text);
            } else {
                lemma_two(plain[0], plain[1]);
                assert(plain =~= seq![plain[0], plain[1]]);
                assert(head + (text + " "@) =~= head + text + " "@);
            }
        },
    }
}

/// The lines that are shown begin with the first in sight and follow one another, as many
/// as fit.
pub proof fn law_lines_in_sight(e: EditorView, focused: bool, height: u16, i: int)
    ensures
        ({
            let sheet = e.sheet(focused, height);
            &&& sheet.len() <= height
            &&& e.scroll < e.lines.len() ==> (sheet.len() == height || sheet.len() + e.scroll
                == e.lines.len())
            &&& e.scroll >= e.lines.len() ==> sheet.len() == 0
            &&& 0 <= i < sheet.len() ==> sheet[i] == e.line_shown(focused, e.scroll + i)
                && e.scroll + i < e.lines.len()
        }),
{
}

/// The pages of a hundred rows follow one another without a gap, from the first; and there
/// are just as many as the rows need.
pub proof fn law_pages(total: u64, limit: u64, page: usize)
    requires
        limit > 0,
    ensures
        page_count(total, limit) * limit >= total,
        total > 0 ==> (page_count(total, limit) - 1) * limit < total,
        total == 0 ==> page_count(total, limit) == 0,
        page_number(None) == 1,
        page_number(Some(0)) == 1,
        page > 0 ==> page_number(Some(page)) == page,
        page > 0 ==> rows_before(page as nat) == 100 * (page - 1),
        at_least_one(0) == 1,
        at_least_one(page as int) >= page,
        page > 0 ==> at_least_one(page as int) == page,
{
    let l = limit as int;
    let n = total as int;
    let q = (n + l - 1) / l;
    let r = (n + l - 1) % l;
    assert(n + l - 1 == l * q + r && 0 <= r < l) by (nonlinear_arith)
        requires
            q == (n + l - 1) / l,
            r == (n + l - 1) % l,
            l > 0,
    ;
    assert(q * l == l * q) by (nonlinear_arith);
    assert((q - 1) * l == l * q - l) by (nonlinear_arith);
    if n == 0 {
        assert(q == 0) by (nonlinear_arith)
            requires
                q == (n + l - 1) / l,
                n == 0,
                l > 0,
        ;
    }
}

/// Above the results stands how many there are, the page and how long the query took: in
/// microseconds under a millisecond, and else in milliseconds.
pub proof fn law_results_head(r: ResultView, page: u64, space: Seq<char>)
    ensures
        r.head_line(page)[0].0 == decimal_spec(r.total as nat) + " records found"@,
        r.head_line(page).last().0 == r.time(""@),
        r.rows.len() > 0 ==> r.head_line(page)[2].0 == "Page "@ + decimal_spec(page as nat)
            + " of "@ + decimal_spec(at_least_one(page_count(r.total, 100))),
        r.micros < 1000 ==> r.time(space) == decimal_spec(r.micros as nat) + space + "µs"@,
        r.micros >= 1000 ==> r.time(space) == r.millis + space + "ms"@,
{
}

/// Under the names of the columns stand the rows from the one that is scrolled to, each
/// with its cells in their order.
pub proof fn law_result_rows(r: ResultView, scroll: u16, i: int, k: int)
    requires
        r.rows.len() > 0,
    ensures
        ({
            let lines = r.data_lines(scroll);
            &&& scroll < r.rows.len() ==> lines.len() == 1 + r.rows.len() - scroll
            &&& scroll >= r.rows.len() ==> lines.len() == 1
            &&& lines[0].len() == r.headers.len()
            &&& 0 <= k < r.headers.len() ==> lines[0][k].0 == cell_text(r.headers[k], 15)
            &&& 0 <= i < r.rows.len() - scroll ==> lines[1 + i].len() == r.rows[scroll + i].len()
            &&& 0 <= i < r.rows.len() - scroll && 0 <= k < r.rows[scroll + i].len() ==> lines[1
                + i][k].0 == cell_text(r.rows[scroll + i][k], 15)
        }),
{
    let from = r.rows_from(scroll);
    let lines = r.data_lines(scroll);
    if 0 <= i < r.rows.len() - scroll {
        assert(lines[1 + i] == from[i]);
    }
}

proof fn lemma_blanks(n: nat)
    ensures
        repeated(" "@, n).len() == n,
        forall|i: int| 0 <= i < n ==> #[trigger] repeated(" "@, n)[i] == ' ',
    decreases n,
{
    reveal_strlit(" ");
    if n > 0 {
        lemma_blanks((n - 1) as nat);
    }
}

/// A cell is its text with blanks behind it up to the width and one more on both sides;
/// what is wider is left as it is.
pub proof fn law_cell(s: Seq<char>, width: int)
    ensures
        ({
            let c = cell_text(s, width);
            &&& c.len() == 2 + (if s.len() < width {
                width
            } else {
                s.len() as int
            })
            &&& c.subrange(1, 1int + s.len()) == s
            &&& c[0] == ' '
            &&& forall|i: int| 1 + s.len() <= i < c.len() ==> #[trigger] c[i] == ' '
        }),
{
    reveal_strlit(" ");
    let c = cell_text(s, width);
    if s.len() < width {
        lemma_blanks((width - s.len()) as nat);
    }
    assert(c.subrange(1, 1int + s.len()) =~= s);
}

proof fn lemma_greatest(rows: Seq<Seq<Seq<char>>>, column: int, from: int)
    requires
        0 <= column,
    ensures
        greatest(rows, column, from) >= from,
        forall|i: int|
            0 <= i < rows.len() && column < (#[trigger] rows[i]).len() ==> byte_len(
                rows[i][column],
            ) <= greatest(rows, column, from),
        greatest(rows, column, from) == from || exists|i: int|
            0 <= i < rows.len() && column < (#[trigger] rows[i]).len() && byte_len(rows[i][column])
                == greatest(rows, column, from),
    decreases rows.len(),
{
    if rows.len() > 0 {
        let front = rows.drop_last();
        lemma_greatest(front, column, from);
        let w = greatest(front, column, from);
        let last = rows[rows.len() - 1];
        assert forall|i: int|
            0 <= i < rows.len() && column < (#[trigger] rows[i]).len() implies byte_len(
            rows[i][column],
        ) <= greatest(rows, column, from) by {
            if i < front.len() {
                assert(front[i] == rows[i]);
            }
        }
        if greatest(rows, column, from) == w {
            if w != from {
                let i = choose|i: int|
                    0 <= i < front.len() && column < (#[trigger] front[i]).len() && byte_len(
                        front[i][column],
                    ) == w;
                assert(rows[i] == front[i]);
            }
        } else {
            assert(column < last.len());
        }
    }
}

/// A column is as wide as the widest of its name and its cells, and forty at the most.
pub proof fn law_column_width(headers: Seq<Seq<char>>, rows: Seq<Seq<Seq<char>>>, column: int)
    requires
        0 <= column < headers.len(),
    ensures
        ({
            let w = column_width(headers, rows, column);
            &&& w <= 40
            &&& byte_len(headers[column]) <= w || w == 40
            &&& forall|i: int|
                0 <= i < rows.len() && column < (#[trigger] rows[i]).len() ==> byte_len(
                    rows[i][column],
                ) <= w || w == 40
            &&& w < 40 ==> w == byte_len(headers[column]) || exists|i: int|
                0 <= i < rows.len() && column < (#[trigger] rows[i]).len() && w == byte_len(
                    rows[i][column],
                )
        }),
{
    lemma_greatest(rows, column, byte_len(headers[column]));
}

/// A row of a grid has a bar before the first cell and behind each one, and between them
/// the cells in their order, cut to the width of their columns.
pub proof fn law_grid_row(row: Seq<Seq<char>>, widths: Seq<int>, tone: Tone, i: int)
    requires
        0 <= i < row.len(),
        row.len() <= widths.len(),
    ensures
        row_line(row, widths, tone).len() == 2 * row.len() + 1,
        row_line(row, widths, tone)[0].0 == "│"@,
        row_line(row, widths, tone)[2 * i + 1].0 == cell_text(
            clipped(row[i], widths[i]),
            widths[i],
        ),
        row_line(row, widths, tone)[2 * i + 2].0 == "│"@,
        byte_len(row[i]) <= widths[i] ==> clipped(row[i], widths[i]) == row[i],
    decreases row.len(),
{
    let front = row.drop_last();
    lemma_row_len(front, widths, tone);
    if i < front.len() {
        law_grid_row(front, widths, tone, i);
    }
}

proof fn lemma_row_len(row: Seq<Seq<char>>, widths: Seq<int>, tone: Tone)
    ensures
        row_line(row, widths, tone).len() == 2 * row.len() + 1,
        row_line(row, widths, tone)[0].0 == "│"@,
    decreases row.len(),
{
    if row.len() > 0 {
        lemma_row_len(row.drop_last(), widths, tone);
    }
}

/// What one can choose from is listed in its order, and an item is marked if and only if
/// it is chosen.
pub proof fn law_choices(options: Seq<Seq<char>>, chosen: Seq<Seq<char>>, i: int)
    requires
        0 <= i < options.len(),
    ensures
        choices(options, chosen).len() == options.len(),
        choices(options, chosen)[i] == choice(options[i], chosen.contains(options[i])),
        choice(options[i], true)[0].0 == "◉"@,
        choice(options[i], false)[0].0 == "○"@,
        choice(options[i], true)[1].0 == " "@ + options[i],
        choice(options[i], false)[1].0 == " "@ + options[i],
{
}

/// The values that are offered for a field: to write one, to ask for it later, and then the
/// first hundred of the values that the field has, in order, but the empty one.
pub proof fn law_offered_values(values: Seq<Seq<char>>, v: Seq<char>)
    requires
        values.len() <= 100,
        v.len() > 0,
    ensures
        offered_values(values)[0] == "Write value"@,
        offered_values(values)[1] == "Variable (ask later)"@,
        offered_values(values).skip(2).contains(v) <==> values.contains(v),
        offered_values(values).len() <= values.len() + 2,
{
    let fits = |t: Seq<char>| t.len() > 0;
    let sorted = sorted_texts(values);
    law_texts_sorted(values);
    let kept = sorted.filter(fits);
    assert(offered_values(values).skip(2) =~= kept);
    broadcast use {
        vstd::seq_lib::group_to_multiset_ensures,
        vstd::seq_lib::group_filter_ensures,
    };

    assert(sorted.to_multiset().count(v) == values.to_multiset().count(v));
    assert(sorted.contains(v) <==> values.contains(v));
    if sorted.contains(v) {
        let i = choose|i: int| 0 <= i < sorted.len() && sorted[i] == v;
        assert(fits(sorted[i]));
        assert(kept.contains(sorted[i]));
    }
    if kept.contains(v) {
        sorted.lemma_filter_contains_rev(fits, v);
    }
}

/// What can be chosen of a search: for a table an entity must be chosen, for what follows a
/// table; how filters are combined is offered only where there are two of them.
pub proof fn law_search_items(v: SearchView, i: int)
    requires
        v.task == Some(Task::Search),
    ensures
        ({
            let lines = v.left_lines();
            &&& lines.len() == (if v.filters.len() > 1 {
                8int
            } else {
                7
            })
            &&& lines[0][0] == ("Entity"@, Tone::Text)
            &&& lines[1][0] == ("Table"@, if v.entity is Some {
                Tone::Text
            } else {
                Tone::Inactive
            })
            &&& lines[2][0].0 == "Filters"@
            &&& v.filters.len() > 1 ==> lines[3][0].0 == "Filters Op"@
            &&& lines[lines.len() - 4][0].0 == "Aggregations"@
            &&& lines[lines.len() - 3][0].0 == "Order By"@
            &&& lines[lines.len() - 2][0].0 == "Limit"@
            &&& lines[lines.len() - 1][0].0 == "Fields"@
            &&& lines[lines.len() - 4][0].1 == (if v.table is Some {
                Tone::Text
            } else {
                Tone::Inactive
            })
        }),
{
}

/// In the middle stand the entities or the tables, with the chosen one marked; the fields
/// of the table but those that were derived from others; the filters, the aggregations and
/// the orders that there are, and below them that one can be added, or the last taken out.
pub proof fn law_search_middle(v: SearchView)
    ensures
        v.criteria == SearchCriteria::Entity ==> v.middle_lines().len() == v.entities.len()
            && forall|i: int|
            0 <= i < v.entities.len() ==> #[trigger] v.middle_lines()[i] == choice(
                v.entities[i],
                v.entity == Some(v.entities[i]),
            ),
        v.criteria == SearchCriteria::Table ==> v.middle_lines().len() == v.tables.len()
            && forall|i: int|
            0 <= i < v.tables.len() ==> #[trigger] v.middle_lines()[i] == choice(
                v.tables[i],
                v.table == Some(v.tables[i]),
            ),
        v.criteria == SearchCriteria::Filters ==> v.middle_lines().len() == v.filters.len() + (
        if v.filters.len() > 0 {
            2int
        } else {
            1
        }) && v.middle_lines()[v.filters.len() as int][0].0 == "+ Add Filter"@,
        v.criteria == SearchCriteria::Aggregations ==> v.middle_lines().len()
            == v.aggregations.len() + (if v.aggregations.len() > 0 {
            2int
        } else {
            1
        }) && v.middle_lines()[v.aggregations.len() as int][0].0 == "+ Add Aggregation"@,
        v.criteria == SearchCriteria::OrderBy ==> v.middle_lines().len() == v.order_by.len() + (
        if v.order_by.len() > 0 {
            2int
        } else {
            1
        }) && v.middle_lines()[v.order_by.len() as int][0].0 == "+ Add OrderBy"@,
        v.criteria == SearchCriteria::FiltersOp ==> v.middle_lines().len() == 2,
{
    if v.criteria == SearchCriteria::Entity {
        assert forall|i: int| 0 <= i < v.entities.len() implies #[trigger] v.middle_lines()[i]
            == choice(v.entities[i], v.entity == Some(v.entities[i])) by {
            lemma_as_list(v.entity, v.entities[i]);
        }
    }
    if v.criteria == SearchCriteria::Table {
        assert forall|i: int| 0 <= i < v.tables.len() implies #[trigger] v.middle_lines()[i]
            == choice(v.tables[i], v.table == Some(v.tables[i])) by {
            lemma_as_list(v.table, v.tables[i]);
        }
    }
}

proof fn lemma_as_list(s: Option<Seq<char>>, t: Seq<char>)
    ensures
        crate::repl::search_panel::as_list(s).contains(t) <==> s == Some(t),
{
    if let Some(x) = s {
        assert(seq![x][0] == x);
    }
}

/// A value of a record is marked as one to be asked for if it begins with a dollar sign, as
/// one of those that are offered if it is that, and else as one that was written.
pub proof fn law_value_marks(v: SearchView, field: Seq<char>, option: Seq<char>)
    requires
        v.payload_field() == Some(field),
    ensures
        v.has_option("Variable (ask later)"@) <==> v.cell(field).len() > 0 && v.cell(field)[0]
            == '$',
        v.has_option("Write value"@) <==> v.cell(field).len() > 0 && v.cell(field)[0] != '$'
            && !v.value_options.skip(2).contains(v.cell(field)),
        option != "Variable (ask later)"@ && option != "Write value"@ ==> (v.has_option(option)
            <==> v.cell(field) == option),
{
    reveal_strlit("Variable (ask later)");
    reveal_strlit("Write value");
    assert("Variable (ask later)"@.len() == 20 && "Write value"@.len() == 11);
}

} // verus!
