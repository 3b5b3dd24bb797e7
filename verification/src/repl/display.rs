//! What the console shows: the catalogue, the editor, the results and the footer.

use crate::phrase::{cat2, cat3, cat4, repeat_text, repeated};
use crate::repl::console::BitticePanel;
use crate::repl::editor::{get_sorted_selection, sorted_selection, Editor, EditorView};
use crate::repl::grid::{cell, cell_text};
use crate::repl::sheet::{Line, PieceView, Sheet, SheetView, Tone};
use crate::table::row_lists;
use crate::text::{chars_of, decimal, decimal_spec, lemma_decimal_length, text_between, texts};
use vstd::prelude::*;

verus! {

/// Whether a character marks a table or a field in the catalogue.
pub open spec fn is_mark(c: char) -> bool {
    c == '󰓫' || c == '󰇽'
}

/// The first place of a mark in a text, from a place on; the beginning where there
/// is none.
pub open spec fn mark_place(s: Seq<char>, from: int) -> int
    decreases s.len() - from,
{
    if from < 0 || from >= s.len() {
        0
    } else if is_mark(s[from]) {
        from
    } else {
        mark_place(s, from + 1)
    }
}

/// A line of the catalogue in colours.
pub open spec fn catalog_pieces(line: Seq<char>) -> Seq<PieceView> {
    if line.len() > 0 && line[0] == '󰆼' {
        seq![(" 󰆼 "@, Tone::Badge), (" "@ + line.skip(1) + " "@, Tone::StrongHeading)]
    } else {
        let at = mark_place(line, 0);
        let content = line.skip(at);
        seq![
            (line.take(at), Tone::Guide),
            (
                content,
                if content.len() > 0 && content[0] == '󰓫' {
                    Tone::TableName
                } else {
                    Tone::Text
                },
            ),
        ]
    }
}

/// A line of the catalogue in colours.
pub fn catalog_line(line: &str) -> (r: Line)
    ensures
        r@ == catalog_pieces(line@),
{
    let cs = chars_of(line);
    let mut out = Line::new();
    if cs.len() > 0 && cs[0] == '󰆼' {
        let name = text_between(cs.as_slice(), 1, cs.len());
        assert(name@ =~= line@.skip(1));
        let shown = cat3(" ", name.as_str(), " ");
        out.put(" 󰆼 ", Tone::Badge);
        out.put(shown.as_str(), Tone::StrongHeading);
        assert(out@ =~= catalog_pieces(line@));
        return out;
    }
    let mut at: usize = 0;
    while at < cs.len() && cs[at] != '󰓫' && cs[at] != '󰇽'
        invariant
            at <= cs@.len(),
            cs@ == line@,
            mark_place(line@, 0) == mark_place(line@, at as int),
        decreases cs@.len() - at,
    {
        at = at + 1;
    }
    if at >= cs.len() {
        at = 0;
    }
    assert(at == mark_place(line@, 0));
    let guides = text_between(cs.as_slice(), 0, at);
    let content = text_between(cs.as_slice(), at, cs.len());
    assert(guides@ =~= line@.take(at as int));
    assert(content@ =~= line@.skip(at as int));
    out.put(guides.as_str(), Tone::Guide);
    if at < cs.len() && cs[at] == '󰓫' {
        out.put(content.as_str(), Tone::TableName);
    } else {
        out.put(content.as_str(), Tone::Text);
    }
    assert(out@ =~= catalog_pieces(line@));
    out
}

/// The lines of the catalogue in colours.
pub fn catalog_sheet(lines: &Vec<String>) -> (r: Sheet)
    ensures
        r@ == texts(lines@).map_values(|s: Seq<char>| catalog_pieces(s)),
{
    let ghost all = texts(lines@).map_values(|s: Seq<char>| catalog_pieces(s));
    let mut out = Sheet::new();
    let mut i: usize = 0;
    assert(all.take(0) =~= SheetView::empty());
    while i < lines.len()
        invariant
            i <= lines@.len(),
            all == texts(lines@).map_values(|s: Seq<char>| catalog_pieces(s)),
            all.len() == lines@.len(),
            out@ == all.take(i as int),
        decreases lines@.len() - i,
    {
        let line = catalog_line(lines[i].as_str());
        assert(texts(lines@)[i as int] == lines@[i as int]@);
        out.add_line(line);
        assert(out@ =~= all.take(i + 1));
        i = i + 1;
    }
    assert(all.take(i as int) =~= all);
    out
}

/// Whether a character of a line lies in a selection, given with its earlier end
/// first.
pub open spec fn in_selection(
    start: (usize, usize),
    end: (usize, usize),
    line: int,
    c: int,
) -> bool {
    if start.0 < line < end.0 {
        true
    } else if line == start.0 && line == end.0 {
        start.1 <= c < end.1
    } else if line == start.0 {
        c >= start.1
    } else if line == end.0 {
        c < end.1
    } else {
        false
    }
}

/// What a character of the editor is shown as while something is selected.
pub open spec fn char_tone(selected: bool, on_line: bool, at_cursor: bool) -> Tone {
    if on_line && at_cursor {
        Tone::Cursor
    } else if on_line {
        if selected {
            Tone::SelectedOnLine
        } else {
            Tone::CursorLine
        }
    } else if selected {
        Tone::Selected
    } else {
        Tone::Text
    }
}

/// The number of a line, set to the right.
pub open spec fn line_number(line: int, lines: nat) -> Seq<char> {
    let digits = decimal_spec((line + 1) as nat);
    let width = decimal_spec(lines).len() + 1;
    (if digits.len() < width {
        repeated(" "@, (width - digits.len()) as nat) + digits
    } else {
        digits
    }) + " "@
}

impl EditorView {
    /// The characters of a line while something is selected.
    pub open spec fn chars_shown(
        self,
        start: (usize, usize),
        end: (usize, usize),
        line: int,
        on_line: bool,
    ) -> Seq<PieceView> {
        Seq::new(
            self.lines[line].len(),
            |k: int|
                (
                    seq![self.lines[line][k]],
                    char_tone(in_selection(start, end, line, k), on_line, self.cursor.1 == k),
                ),
        )
    }

    /// What follows the characters of a line while something is selected.
    pub open spec fn end_shown(
        self,
        start: (usize, usize),
        end: (usize, usize),
        line: int,
        on_line: bool,
    ) -> Seq<PieceView> {
        if on_line && self.cursor.1 == self.lines[line].len() {
            seq![(" "@, Tone::CursorBlank)]
        } else if start.0 <= line < end.0 {
            seq![(" "@, Tone::Selected)]
        } else {
            Seq::empty()
        }
    }

    /// A line of the editor while nothing is selected.
    pub open spec fn plain_shown(self, line: int, on_line: bool) -> Seq<PieceView> {
        let text = self.lines[line];
        let c = self.cursor.1 as int;
        if !on_line {
            seq![(text, Tone::Text)]
        } else if c < text.len() {
            seq![
                (text.take(c), Tone::CursorLine),
                (seq![text[c]], Tone::Cursor),
                (text.skip(c + 1), Tone::CursorLine),
            ]
        } else {
            seq![(text, Tone::CursorLine), (" "@, Tone::CursorBlank)]
        }
    }

    /// A line of the editor: its number, and its text with the cursor and what is
    /// selected.
    pub open spec fn line_shown(self, focused: bool, line: int) -> Seq<PieceView> {
        let on_line = self.cursor.0 == line && focused;
        seq![(line_number(line, self.lines.len()), Tone::Guide)] + (match sorted_selection(
            self.selection,
        ) {
            Some((start, end)) => self.chars_shown(start, end, line, on_line) + self.end_shown(
                start,
                end,
                line,
                on_line,
            ),
            None => self.plain_shown(line, on_line),
        })
    }

    /// How many lines are in sight.
    pub open spec fn in_sight(self, height: u16) -> int {
        if self.scroll >= self.lines.len() {
            0
        } else if height < self.lines.len() - self.scroll {
            height as int
        } else {
            self.lines.len() - self.scroll
        }
    }

    /// The lines that are in sight.
    pub open spec fn sheet(self, focused: bool, height: u16) -> SheetView {
        Seq::new(
            self.in_sight(height) as nat,
            |i: int| self.line_shown(focused, self.scroll + i),
        )
    }
}

fn number_text(line: usize, lines: usize) -> (r: String)
    requires
        line < lines,
    ensures
        r@ == line_number(line as int, lines as nat),
{
    let digits = decimal((line + 1) as u64);
    let all = decimal(lines as u64);
    proof {
        lemma_decimal_length(lines as u64);
    }
    let n: usize = chars_of(digits.as_str()).len();
    let width: usize = chars_of(all.as_str()).len() + 1;
    if n < width {
        let pad = repeat_text(" ", width - n);
        cat3(pad.as_str(), digits.as_str(), " ")
    } else {
        cat2(digits.as_str(), " ")
    }
}

fn selected_at(start: (usize, usize), end: (usize, usize), line: usize, c: usize) -> (r: bool)
    ensures
        r == in_selection(start, end, line as int, c as int),
{
    if start.0 < line && line < end.0 {
        true
    } else if line == start.0 && line == end.0 {
        start.1 <= c && c < end.1
    } else if line == start.0 {
        c >= start.1
    } else if line == end.0 {
        c < end.1
    } else {
        false
    }
}

fn tone_of(selected: bool, on_line: bool, at_cursor: bool) -> (r: Tone)
    ensures
        r == char_tone(selected, on_line, at_cursor),
{
    if on_line && at_cursor {
        Tone::Cursor
    } else if on_line {
        if selected {
            Tone::SelectedOnLine
        } else {
            Tone::CursorLine
        }
    } else if selected {
        Tone::Selected
    } else {
        Tone::Text
    }
}

impl Editor {
    fn show_line(&self, focused: bool, line: usize) -> (r: Line)
        requires
            line < self@.lines.len(),
        ensures
            r@ == self@.line_shown(focused, line as int),
    {
        let ghost view = self@;
        assert(view.lines.len() == self.lines@.len());
        assert(view.lines[line as int] == self.lines@[line as int]@);
        let on_line = self.cursor.0 == line && focused;
        let mut out = Line::new();
        let number = number_text(line, self.lines.len());
        out.put(number.as_str(), Tone::Guide);
        let cs = chars_of(self.lines[line].as_str());
        let ghost text = cs@;
        match get_sorted_selection(self.selection) {
            Some((start, end)) => {
                let ghost shown = view.chars_shown(start, end, line as int, on_line);
                let ghost head = seq![(line_number(line as int, view.lines.len()), Tone::Guide)];
                let mut k: usize = 0;
                assert(out@ =~= head + shown.take(0));
                while k < cs.len()
                    invariant
                        k <= cs@.len(),
                        cs@ == view.lines[line as int],
                        shown == view.chars_shown(start, end, line as int, on_line),
                        view == self@,
                        out@ == head + shown.take(k as int),
                    decreases cs@.len() - k,
                {
                    let tone = tone_of(
                        selected_at(start, end, line, k),
                        on_line,
                        self.cursor.1 == k,
                    );
                    let one = text_between(cs.as_slice(), k, k + 1);
                    assert(one@ =~= seq![cs@[k as int]]);
                    out.put(one.as_str(), tone);
                    assert(shown.take(k + 1) =~= shown.take(k as int).push(shown[k as int]));
                    assert(out@ =~= head + shown.take(k + 1));
                    k = k + 1;
                }
                assert(shown.take(k as int) =~= shown);
                if on_line && self.cursor.1 == cs.len() {
                    out.put(" ", Tone::CursorBlank);
                } else if start.0 <= line && line < end.0 {
                    out.put(" ", Tone::Selected);
                }
                assert(out@ =~= view.line_shown(focused, line as int));
            },
            None => {
                let c = self.cursor.1;
                if !on_line {
                    out.put(self.lines[line].as_str(), Tone::Text);
                } else if c < cs.len() {
                    let before = text_between(cs.as_slice(), 0, c);
                    let at = text_between(cs.as_slice(), c, c + 1);
                    let after = text_between(cs.as_slice(), c + 1, cs.len());
                    assert(before@ =~= text.take(c as int));
                    assert(at@ =~= seq![text[c as int]]);
                    assert(after@ =~= text.skip(c + 1));
                    out.put(before.as_str(), Tone::CursorLine);
                    out.put(at.as_str(), Tone::Cursor);
                    out.put(after.as_str(), Tone::CursorLine);
                } else {
                    out.put(self.lines[line].as_str(), Tone::CursorLine);
                    out.put(" ", Tone::CursorBlank);
                }
                assert(out@ =~= view.line_shown(focused, line as int));
            },
        }
        out
    }

    /// The lines that are in sight, with their numbers, the cursor and what is
    /// selected.
    pub fn show(&self, focused: bool, height: u16) -> (r: Sheet)
        ensures
            r@ == self@.sheet(focused, height),
    {
        let ghost want = self@.sheet(focused, height);
        assert(self@.lines.len() == self.lines@.len());
        let mut out = Sheet::new();
        let n: usize = if self.scroll >= self.lines.len() {
            0
        } else if (height as usize) < self.lines.len() - self.scroll {
            height as usize
        } else {
            self.lines.len() - self.scroll
        };
        let mut i: usize = 0;
        assert(want.take(0) =~= SheetView::empty());
        while i < n
            invariant
                i <= n,
                n == want.len(),
                want == self@.sheet(focused, height),
                self@.lines.len() == self.lines@.len(),
                n > 0 ==> self.scroll + n <= self.lines.len(),
                out@ == want.take(i as int),
            decreases n - i,
        {
            let line = self.show_line(focused, self.scroll + i);
            out.add_line(line);
            assert(out@ =~= want.take(i + 1));
            i = i + 1;
        }
        assert(want.take(i as int) =~= want);
        out
    }
}

/// Rows that were counted, as they are shown.
pub struct CountPage {
    pub headers: Vec<String>,
    pub rows: Vec<Vec<String>>,
    /// The sum over all rows with two digits behind the point, where there is one.
    pub sum: Option<String>,
}

/// What a query gave, as it is shown.
pub struct ResultPage {
    pub headers: Vec<String>,
    pub rows: Vec<Vec<String>>,
    pub total: u64,
    pub counts: Option<Vec<CountPage>>,
    /// How long the query took.
    pub micros: u64,
    /// The same in thousandths of a second, with two digits behind the point.
    pub millis: String,
}

/// What a `CountPage` stands for.
#[verifier::ext_equal]
pub struct CountView {
    pub headers: Seq<Seq<char>>,
    pub rows: Seq<Seq<Seq<char>>>,
    pub sum: Option<Seq<char>>,
}

impl View for CountPage {
    type V = CountView;

    open spec fn view(&self) -> CountView {
        CountView {
            headers: texts(self.headers@),
            rows: row_lists(self.rows@),
            sum: match self.sum {
                Some(s) => Some(s@),
                None => None,
            },
        }
    }
}

/// What counted rows stand for.
pub open spec fn count_views(v: Seq<CountPage>) -> Seq<CountView> {
    v.map_values(|c: CountPage| c@)
}

/// What a `ResultPage` stands for.
#[verifier::ext_equal]
pub struct ResultView {
    pub headers: Seq<Seq<char>>,
    pub rows: Seq<Seq<Seq<char>>>,
    pub total: u64,
    pub counts: Option<Seq<CountView>>,
    pub micros: u64,
    pub millis: Seq<char>,
}

impl View for ResultPage {
    type V = ResultView;

    open spec fn view(&self) -> ResultView {
        ResultView {
            headers: texts(self.headers@),
            rows: row_lists(self.rows@),
            total: self.total,
            counts: match self.counts {
                Some(v) => Some(count_views(v@)),
                None => None,
            },
            micros: self.micros,
            millis: self.millis@,
        }
    }
}

/// How many pages rows fill.
pub open spec fn page_count(total: u64, limit: u64) -> int {
    (total + limit - 1) / limit as int
}

/// How many pages rows fill.
pub fn pages(total: u64, limit: u64) -> (r: u64)
    requires
        limit > 0,
    ensures
        r == page_count(total, limit),
{
    let whole: u64 = total / limit;
    proof {
        vstd::arithmetic::div_mod::lemma_fundamental_div_mod(total as int, limit as int);
        let q = total as int / limit as int;
        let m = total as int % limit as int;
        if m > 0 {
            assert(total + limit - 1 == limit * (q + 1) + (m - 1)) by (nonlinear_arith)
                requires
                    total as int == limit * q + m,
            ;
            vstd::arithmetic::div_mod::lemma_fundamental_div_mod_converse(
                total + limit - 1,
                limit as int,
                q + 1,
                m - 1,
            );
            assert(q < total) by (nonlinear_arith)
                requires
                    total as int == limit * q + m,
                    m > 0,
                    limit > 0,
                    q >= 0,
            ;
        } else {
            assert(total + limit - 1 == limit * q + (limit - 1));
            vstd::arithmetic::div_mod::lemma_fundamental_div_mod_converse(
                total + limit - 1,
                limit as int,
                q,
                limit - 1,
            );
        }
    }
    if total % limit > 0 {
        whole + 1
    } else {
        whole
    }
}

/// How many rows a page has.
pub const PAGE_ROWS: u64 = 100;

/// The page that a query asks for: the first where it names none.
pub open spec fn page_number(page: Option<usize>) -> nat {
    match page {
        Some(p) => if p == 0 {
            1
        } else {
            p as nat
        },
        None => 1,
    }
}

/// How many rows stand before a page.
pub open spec fn rows_before(page: nat) -> int {
    (page - 1) * PAGE_ROWS
}

/// The page that a query asks for, and how many rows stand before it; nothing where
/// they cannot be counted.
pub fn query_page(page: Option<usize>) -> (r: Option<(usize, usize)>)
    ensures
        match r {
            Some(p) => p.0 == page_number(page) && p.1 == rows_before(page_number(page)),
            None => rows_before(page_number(page)) > usize::MAX,
        },
{
    let n: usize = match page {
        Some(p) => if p == 0 {
            1
        } else {
            p
        },
        None => 1,
    };
    match (n - 1).checked_mul(100) {
        Some(offset) => Some((n, offset)),
        None => None,
    }
}

/// A page begins where the one before it ends.
pub proof fn law_pages_follow(page: nat)
    requires
        page > 0,
    ensures
        rows_before(1) == 0,
        rows_before(page + 1) == rows_before(page) + PAGE_ROWS,
{
}

/// The number, at least one.
pub open spec fn at_least_one(n: int) -> nat {
    if n < 1 {
        1
    } else {
        n as nat
    }
}

/// Cells of a fixed width in a row.
pub open spec fn cells_line(row: Seq<Seq<char>>, tone: Tone) -> Seq<PieceView> {
    row.map_values(|c: Seq<char>| (cell_text(c, 15), tone))
}

/// Rows of cells.
pub open spec fn cells_lines(rows: Seq<Seq<Seq<char>>>, tone: Tone) -> SheetView {
    rows.map_values(|r: Seq<Seq<char>>| cells_line(r, tone))
}

/// What was counted: a heading, the rows and the sum.
pub open spec fn count_lines(c: CountView, number: int) -> SheetView {
    let top = seq![
        seq![(""@, Tone::Plain)],
        seq![("Aggregation #"@ + decimal_spec(number as nat), Tone::StrongPrimary)],
        cells_line(c.headers, Tone::Heading),
    ] + cells_lines(c.rows, Tone::Text);
    match c.sum {
        Some(s) => top.push(seq![("  Total Sum: "@ + s, Tone::Sum)]),
        None => top,
    }
}

/// The first lists that were counted.
pub open spec fn counts_lines(counts: Seq<CountView>, n: int) -> SheetView
    decreases n,
{
    if n <= 0 {
        Seq::empty()
    } else {
        counts_lines(counts, n - 1) + count_lines(counts[n - 1], n)
    }
}

impl ResultView {
    /// How long the query took.
    pub open spec fn time(self, space: Seq<char>) -> Seq<char> {
        if self.micros < 1000 {
            decimal_spec(self.micros as nat) + space + "µs"@
        } else {
            self.millis + space + "ms"@
        }
    }

    /// The first line: how many rows there are, the page and the time.
    pub open spec fn head_line(self, page: u64) -> Seq<PieceView> {
        let bar = (" | "@, Tone::Guide);
        let found = (decimal_spec(self.total as nat) + " records found"@, Tone::Primary);
        let time = (self.time(""@), Tone::Dim);
        if self.rows.len() > 0 {
            seq![
                found,
                bar,
                (
                    "Page "@ + decimal_spec(page as nat) + " of "@ + decimal_spec(
                        at_least_one(page_count(self.total, PAGE_ROWS)),
                    ),
                    Tone::Primary,
                ),
                bar,
                time,
            ]
        } else {
            seq![found, bar, time]
        }
    }

    /// The lists that were counted, and the heading of the rows below them.
    pub open spec fn counted_lines(self) -> SheetView {
        match self.counts {
            Some(c) => counts_lines(c, c.len() as int) + (if self.rows.len() > 0 {
                seq![seq![(""@, Tone::Plain)], seq![("Data Rows:"@, Tone::StrongPrimary)]]
            } else {
                SheetView::empty()
            }),
            None => SheetView::empty(),
        }
    }

    /// The rows from one on, every other one on a darker ground.
    pub open spec fn rows_from(self, scroll: u16) -> SheetView {
        Seq::new(
            if scroll < self.rows.len() {
                (self.rows.len() - scroll) as nat
            } else {
                0
            },
            |i: int|
                cells_line(
                    self.rows[scroll + i],
                    if (scroll + i) % 2 == 0 {
                        Tone::Striped
                    } else {
                        Tone::Text
                    },
                ),
        )
    }

    /// The rows under their headers, or that there are none.
    pub open spec fn data_lines(self, scroll: u16) -> SheetView {
        if self.rows.len() > 0 {
            seq![cells_line(self.headers, Tone::Heading)] + self.rows_from(scroll)
        } else if self.counts is None {
            seq![seq![("  No results found"@, Tone::Fault)]]
        } else {
            SheetView::empty()
        }
    }

    /// The results of a query.
    pub open spec fn sheet(self, page: u64, scroll: u16) -> SheetView {
        seq![self.head_line(page)] + self.counted_lines() + self.data_lines(scroll)
    }
}

fn put_cells(row: &Vec<String>, tone: Tone) -> (r: Line)
    ensures
        r@ == cells_line(texts(row@), tone),
{
    let ghost want = cells_line(texts(row@), tone);
    let mut out = Line::new();
    let mut i: usize = 0;
    assert(want.take(0) =~= Seq::empty());
    while i < row.len()
        invariant
            i <= row@.len(),
            want == cells_line(texts(row@), tone),
            want.len() == row@.len(),
            out@ == want.take(i as int),
        decreases row@.len() - i,
    {
        let c = cell(row[i].as_str(), 15);
        assert(texts(row@)[i as int] == row@[i as int]@);
        out.put(c.as_str(), tone);
        assert(out@ =~= want.take(i + 1));
        i = i + 1;
    }
    assert(want.take(i as int) =~= want);
    out
}

impl CountPage {
    fn show(&self, number: u64) -> (r: Sheet)
        ensures
            r@ == count_lines(self@, number as int),
    {
        let mut out = Sheet::new();
        out.add1("", Tone::Plain);
        let d = decimal(number);
        let title = cat2("Aggregation #", d.as_str());
        out.add1(title.as_str(), Tone::StrongPrimary);
        let head = put_cells(&self.headers, Tone::Heading);
        out.add_line(head);
        let ghost top = out@;
        assert(top =~= seq![
            seq![(""@, Tone::Plain)],
            seq![("Aggregation #"@ + decimal_spec(number as nat), Tone::StrongPrimary)],
            cells_line(texts(self.headers@), Tone::Heading),
        ]);
        let ghost want = cells_lines(row_lists(self.rows@), Tone::Text);
        let mut i: usize = 0;
        assert(top + want.take(0) =~= top);
        while i < self.rows.len()
            invariant
                i <= self.rows@.len(),
                want == cells_lines(row_lists(self.rows@), Tone::Text),
                want.len() == self.rows@.len(),
                out@ == top + want.take(i as int),
            decreases self.rows@.len() - i,
        {
            let line = put_cells(&self.rows[i], Tone::Text);
            assert(row_lists(self.rows@)[i as int] == texts(self.rows@[i as int]@));
            out.add_line(line);
            assert(out@ =~= top + want.take(i + 1));
            i = i + 1;
        }
        assert(want.take(i as int) =~= want);
        if let Some(s) = &self.sum {
            let t = cat2("  Total Sum: ", s.as_str());
            out.add1(t.as_str(), Tone::Sum);
        }
        assert(out@ =~= count_lines(self@, number as int));
        out
    }
}

impl ResultPage {
    /// How long the query took.
    pub fn time_text(&self, space: &str) -> (r: String)
        ensures
            r@ == self@.time(space@),
    {
        if self.micros < 1000 {
            let d = decimal(self.micros);
            cat3(d.as_str(), space, "µs")
        } else {
            cat3(self.millis.as_str(), space, "ms")
        }
    }

    fn head(&self, page: u64) -> (r: Line)
        ensures
            r@ == self@.head_line(page),
    {
        let mut out = Line::new();
        let total = decimal(self.total);
        let found = cat2(total.as_str(), " records found");
        out.put(found.as_str(), Tone::Primary);
        assert(row_lists(self.rows@).len() == self.rows@.len());
        if self.rows.len() > 0 {
            let n = pages(self.total, PAGE_ROWS);
            let of = if n < 1 {
                decimal(1)
            } else {
                decimal(n)
            };
            let p = decimal(page);
            let info = cat4("Page ", p.as_str(), " of ", of.as_str());
            out.put(" | ", Tone::Guide);
            out.put(info.as_str(), Tone::Primary);
        }
        let time = self.time_text("");
        out.put(" | ", Tone::Guide);
        out.put(time.as_str(), Tone::Dim);
        assert(out@ =~= self@.head_line(page));
        out
    }

    /// The results of a query, as the console shows them.
    pub fn show(&self, page: u64, scroll: u16) -> (r: Sheet)
        ensures
            r@ == self@.sheet(page, scroll),
    {
        let ghost view = self@;
        let mut out = Sheet::new();
        let head = self.head(page);
        out.add_line(head);
        let ghost top = out@;
        assert(top =~= seq![view.head_line(page)]);
        assert(view.rows.len() == self.rows@.len());
        if let Some(counts) = &self.counts {
            let ghost cs = count_views(counts@);
            let mut i: usize = 0;
            assert(top + counts_lines(cs, 0) =~= top);
            while i < counts.len()
                invariant
                    i <= counts@.len(),
                    cs == count_views(counts@),
                    out@ == top + counts_lines(cs, i as int),
                decreases counts@.len() - i,
            {
                let part = counts[i].show((i + 1) as u64);
                assert(cs[i as int] == counts@[i as int]@);
                out.add_sheet(part);
                assert(out@ =~= top + counts_lines(cs, i + 1));
                i = i + 1;
            }
            if self.rows.len() > 0 {
                out.add1("", Tone::Plain);
                out.add1("Data Rows:", Tone::StrongPrimary);
            }
        }
        assert(out@ =~= top + view.counted_lines());
        let ghost front = out@;
        if self.rows.len() == 0 {
            if self.counts.is_none() {
                out.add1("  No results found", Tone::Fault);
            }
            assert(out@ =~= front + view.data_lines(scroll));
        } else {
            let heads = put_cells(&self.headers, Tone::Heading);
            out.add_line(heads);
            let ghost base = out@;
            let ghost want = view.rows_from(scroll);
            let mut i: usize = scroll as usize;
            assert(base + want.take(0) =~= base);
            while i < self.rows.len()
                invariant
                    scroll <= i,
                    scroll < self.rows@.len() ==> i <= self.rows@.len(),
                    scroll >= self.rows@.len() ==> i == scroll,
                    view == self@,
                    view.rows.len() == self.rows@.len(),
                    want == view.rows_from(scroll),
                    out@ == base + want.take(i - scroll),
                decreases self.rows@.len() - i,
            {
                let tone = if i % 2 == 0 {
                    Tone::Striped
                } else {
                    Tone::Text
                };
                let line = put_cells(&self.rows[i], tone);
                assert(view.rows[i as int] == texts(self.rows@[i as int]@));
                out.add_line(line);
                assert(out@ =~= base + want.take(i + 1 - scroll));
                i = i + 1;
            }
            assert(want.take(i - scroll) =~= want);
            assert(out@ =~= front + view.data_lines(scroll));
        }
        assert(out@ =~= view.sheet(page, scroll));
        out
    }
}

/// The keys that a part of the console knows.
pub open spec fn panel_keys(panel: BitticePanel) -> Seq<PieceView> {
    match panel {
        BitticePanel::Catalog => seq![
            (" ^L "@, Tone::Heading),
            (" Load "@, Tone::Plain),
            (" ^H "@, Tone::Heading),
            (" Help "@, Tone::Plain),
        ],
        BitticePanel::Editor => seq![
            (" ^R "@, Tone::Heading),
            (" Run "@, Tone::Plain),
            (" ^F "@, Tone::Heading),
            (" Format "@, Tone::Plain),
            (" ^O "@, Tone::Heading),
            (" Open "@, Tone::Plain),
            (" ^S "@, Tone::Heading),
            (" Save "@, Tone::Plain),
        ],
        BitticePanel::Results => seq![(" ^E "@, Tone::Heading), (" Export "@, Tone::Plain)],
    }
}

/// The footer: keys, and what is reported.
pub open spec fn footer_pieces(
    panel: BitticePanel,
    status: Option<(Seq<char>, bool)>,
) -> Seq<PieceView> {
    (seq![(" ^Q "@, Tone::Badge), (" Quit "@, Tone::Plain)] + panel_keys(panel)).push(
        (" | "@, Tone::Plain),
    ).push(
        match status {
            Some((msg, good)) => (
                " "@ + msg + " "@,
                if good {
                    Tone::Success
                } else {
                    Tone::Failure
                },
            ),
            None => (" Ready "@, Tone::Text),
        },
    )
}

/// The footer: keys, and what is reported.
pub fn footer(panel: BitticePanel, status: &Option<(String, bool)>) -> (r: Line)
    ensures
        r@ == footer_pieces(
            panel,
            match *status {
                Some(s) => Some((s.0@, s.1)),
                None => None,
            },
        ),
{
    let mut out = Line::new();
    out.put(" ^Q ", Tone::Badge);
    out.put(" Quit ", Tone::Plain);
    let ghost head = out@;
    match panel {
        BitticePanel::Catalog => {
            out.put(" ^L ", Tone::Heading);
            out.put(" Load ", Tone::Plain);
            out.put(" ^H ", Tone::Heading);
            out.put(" Help ", Tone::Plain);
        },
        BitticePanel::Editor => {
            out.put(" ^R ", Tone::Heading);
            out.put(" Run ", Tone::Plain);
            out.put(" ^F ", Tone::Heading);
            out.put(" Format ", Tone::Plain);
            out.put(" ^O ", Tone::Heading);
            out.put(" Open ", Tone::Plain);
            out.put(" ^S ", Tone::Heading);
            out.put(" Save ", Tone::Plain);
        },
        BitticePanel::Results => {
            out.put(" ^E ", Tone::Heading);
            out.put(" Export ", Tone::Plain);
        },
    }
    assert(out@ =~= head + panel_keys(panel));
    out.put(" | ", Tone::Plain);
    match status {
        Some(s) => {
            let msg = cat3(" ", s.0.as_str(), " ");
            if s.1 {
                out.put(msg.as_str(), Tone::Success);
            } else {
                out.put(msg.as_str(), Tone::Failure);
            }
        },
        None => {
            out.put(" Ready ", Tone::Text);
        },
    }
    assert(head =~= seq![(" ^Q "@, Tone::Badge), (" Quit "@, Tone::Plain)]);
    out
}

/// The texts of pieces, one behind another.
pub open spec fn pieces_text(line: Seq<PieceView>) -> Seq<char>
    decreases line.len(),
{
    if line.len() == 0 {
        Seq::empty()
    } else {
        pieces_text(line.drop_last()) + line.last().0
    }
}

/// Colouring a line of the catalogue that is no entity's loses none of its text.
pub proof fn law_catalog_text_is_kept(line: Seq<char>)
    requires
        line.len() == 0 || line[0] != '󰆼',
    ensures
        pieces_text(catalog_pieces(line)) == line,
{
    lemma_mark_place(line, 0);
    let at = mark_place(line, 0);
    let p = catalog_pieces(line);
    reveal_with_fuel(pieces_text, 3);
    assert(p.drop_last().drop_last() =~= Seq::empty());
    assert(pieces_text(p.drop_last()) =~= line.take(at));
    assert(pieces_text(p) =~= line.take(at) + line.skip(at));
    assert(line.take(at) + line.skip(at) =~= line);
}

proof fn lemma_mark_place(s: Seq<char>, from: int)
    requires
        0 <= from,
    ensures
        0 <= mark_place(s, from) <= s.len(),
    decreases s.len() - from,
{
    if from < s.len() && !is_mark(s[from]) {
        lemma_mark_place(s, from + 1);
    }
}

} // verus!
