//! Rows in a frame.

use crate::phrase::{repeat_text, repeated};
use crate::repl::sheet::{Line, PieceView, Sheet, SheetView, Tone};
use crate::table::row_lists;
use crate::text::{chars_of, texts};
use vstd::prelude::*;
use vstd::utf8::{decode_utf8, encode_utf8, is_char_boundary};

verus! {

/// The greatest width of a column.
pub const WIDEST: usize = 40;

/// How many bytes a text takes.
pub open spec fn byte_len(s: Seq<char>) -> int {
    encode_utf8(s).len() as int
}

/// The first bytes of a text, or the text where it has no more.
pub open spec fn clipped(s: Seq<char>, width: int) -> Seq<char> {
    if byte_len(s) > width {
        decode_utf8(encode_utf8(s).take(width))
    } else {
        s
    }
}

/// How many bytes a text takes.
pub fn bytes_in(s: &str) -> (r: usize)
    ensures
        r == byte_len(s@),
{
    s.as_bytes().len()
}

/// Whether a text can be cut after some bytes.
pub open spec fn can_clip(s: Seq<char>, width: int) -> bool {
    byte_len(s) > width ==> is_char_boundary(encode_utf8(s), width)
}

/// The first bytes of a text, or the text where it has no more.
pub fn clip(s: &str, width: usize) -> (r: String)
    requires
        can_clip(s@, width as int),
    ensures
        r@ == clipped(s@, width as int),
{
    if bytes_in(s) > width {
        let (a, _b) = s.split_at(width);
        assert(encode_utf8(a@) =~= encode_utf8(s@).take(width as int));
        proof {
            vstd::utf8::encode_utf8_decode_utf8(a@);
        }
        a.to_owned()
    } else {
        s.to_owned()
    }
}

/// A text filled up with spaces on the right.
pub open spec fn filled(s: Seq<char>, width: int) -> Seq<char> {
    if s.len() < width {
        s + repeated(" "@, (width - s.len()) as nat)
    } else {
        s
    }
}

/// A text filled up with spaces on the right.
pub fn fill(s: &str, width: usize) -> (r: String)
    ensures
        r@ == filled(s@, width as int),
{
    let n = chars_of(s).len();
    let mut out = s.to_owned();
    if n < width {
        let blanks = repeat_text(" ", width - n);
        out.append(blanks.as_str());
    }
    out
}

/// A text filled up with spaces on the right, with a space on either side.
pub open spec fn cell_text(s: Seq<char>, width: int) -> Seq<char> {
    " "@ + filled(s, width) + " "@
}

/// A text filled up with spaces on the right, with a space on either side.
pub fn cell(s: &str, width: usize) -> (r: String)
    ensures
        r@ == cell_text(s@, width as int),
{
    let f = fill(s, width);
    crate::phrase::cat3(" ", f.as_str(), " ")
}

/// The greatest length of a cell of a column, from a length on.
pub open spec fn greatest(rows: Seq<Seq<Seq<char>>>, column: int, from: int) -> int
    decreases rows.len(),
{
    if rows.len() == 0 {
        from
    } else {
        let w = greatest(rows.drop_last(), column, from);
        let row = rows.last();
        if column < row.len() && byte_len(row[column]) > w {
            byte_len(row[column])
        } else {
            w
        }
    }
}

/// The width of a column: its longest text, up to a limit.
pub open spec fn column_width(
    headers: Seq<Seq<char>>,
    rows: Seq<Seq<Seq<char>>>,
    column: int,
) -> int {
    let w = greatest(rows, column, byte_len(headers[column]));
    if w < WIDEST {
        w
    } else {
        WIDEST as int
    }
}

/// The widths of the columns.
pub open spec fn column_widths(headers: Seq<Seq<char>>, rows: Seq<Seq<Seq<char>>>) -> Seq<int> {
    Seq::new(headers.len(), |i: int| column_width(headers, rows, i))
}

/// A line between rows.
pub open spec fn rule_body(widths: Seq<int>, cross: Seq<char>) -> Seq<char>
    decreases widths.len(),
{
    if widths.len() == 0 {
        Seq::empty()
    } else {
        let front = rule_body(widths.drop_last(), cross);
        let dashes = repeated("─"@, (widths.last() + 2) as nat);
        if widths.len() == 1 {
            dashes
        } else {
            front + cross + dashes
        }
    }
}

/// A line between rows, with its ends.
pub open spec fn rule(widths: Seq<int>, left: Seq<char>, cross: Seq<char>, right: Seq<char>) -> Seq<
    char,
> {
    left + rule_body(widths, cross) + right
}

/// A row between bars.
pub open spec fn row_line(row: Seq<Seq<char>>, widths: Seq<int>, tone: Tone) -> Seq<PieceView>
    decreases row.len(),
{
    if row.len() == 0 {
        seq![("│"@, Tone::Grid)]
    } else {
        row_line(row.drop_last(), widths, tone).push(
            (cell_text(clipped(row.last(), widths[row.len() - 1]), widths[row.len() - 1]), tone),
        ).push(("│"@, Tone::Grid))
    }
}

/// The first rows, each with the line below it.
pub open spec fn body_lines(rows: Seq<Seq<Seq<char>>>, widths: Seq<int>, n: int) -> SheetView
    decreases n,
{
    if n <= 0 {
        Seq::empty()
    } else {
        body_lines(rows, widths, n - 1).push(row_line(rows[n - 1], widths, Tone::Value)).push(
            seq![
                (
                    if n < rows.len() {
                        rule(widths, "├"@, "┼"@, "┤"@)
                    } else {
                        rule(widths, "└"@, "┴"@, "┘"@)
                    },
                    Tone::Grid,
                ),
            ],
        )
    }
}

/// Rows in a frame, under their headers.
pub open spec fn grid_lines(headers: Seq<Seq<char>>, rows: Seq<Seq<Seq<char>>>) -> SheetView {
    let widths = column_widths(headers, rows);
    if headers.len() == 0 {
        Seq::empty()
    } else {
        seq![
            seq![(rule(widths, "┌"@, "┬"@, "┐"@), Tone::Grid)],
            row_line(headers, widths, Tone::Active),
            seq![(rule(widths, "├"@, "┼"@, "┤"@), Tone::Grid)],
        ] + body_lines(rows, widths, rows.len() as int)
    }
}

/// Whether a row has a header for each cell, and each cell can be cut.
pub open spec fn row_fits(row: Seq<Seq<char>>, columns: nat) -> bool {
    &&& row.len() <= columns
    &&& forall|i: int|
        #![trigger row[i]]
        0 <= i < row.len() ==> can_clip(row[i], WIDEST as int)
}

/// Whether every row fits.
pub open spec fn grid_fits(headers: Seq<Seq<char>>, rows: Seq<Seq<Seq<char>>>) -> bool {
    &&& row_fits(headers, headers.len())
    &&& forall|i: int| #![trigger rows[i]] 0 <= i < rows.len() ==> row_fits(rows[i], headers.len())
}

/// The numbers of a list.
pub open spec fn numbers(v: Seq<usize>) -> Seq<int> {
    v.map_values(|n: usize| n as int)
}

proof fn lemma_greatest(rows: Seq<Seq<Seq<char>>>, column: int, from: int, i: int)
    requires
        0 <= i < rows.len(),
        0 <= column < rows[i].len(),
    ensures
        byte_len(rows[i][column]) <= greatest(rows, column, from),
        from <= greatest(rows, column, from),
    decreases rows.len(),
{
    lemma_greatest_from(rows, column, from);
    if i < rows.len() - 1 {
        lemma_greatest(rows.drop_last(), column, from, i);
        assert(rows.drop_last()[i] == rows[i]);
    }
}

proof fn lemma_greatest_from(rows: Seq<Seq<Seq<char>>>, column: int, from: int)
    ensures
        from <= greatest(rows, column, from),
    decreases rows.len(),
{
    if rows.len() > 0 {
        lemma_greatest_from(rows.drop_last(), column, from);
    }
}

fn measure(headers: &Vec<String>, rows: &Vec<Vec<String>>) -> (r: Vec<usize>)
    requires
        grid_fits(texts(headers@), row_lists(rows@)),
    ensures
        numbers(r@) == column_widths(texts(headers@), row_lists(rows@)),
        r@.len() == headers@.len(),
        forall|i: int| 0 <= i < r@.len() ==> #[trigger] r@[i] <= WIDEST,
{
    let ghost hs = texts(headers@);
    let ghost rs = row_lists(rows@);
    let mut out: Vec<usize> = Vec::new();
    let mut i: usize = 0;
    while i < headers.len()
        invariant
            i <= headers@.len(),
            out@.len() == i,
            hs == texts(headers@),
            rs == row_lists(rows@),
            grid_fits(hs, rs),
            forall|k: int| 0 <= k < i ==> #[trigger] out@[k] == column_width(hs, rs, k),
            forall|k: int| 0 <= k < i ==> #[trigger] out@[k] <= WIDEST,
        decreases headers@.len() - i,
    {
        assert(hs[i as int] == headers@[i as int]@);
        let mut w: usize = bytes_in(headers[i].as_str());
        let mut j: usize = 0;
        assert(rs.take(0) =~= Seq::empty());
        while j < rows.len()
            invariant
                i < headers@.len(),
                j <= rows@.len(),
                rs == row_lists(rows@),
                hs == texts(headers@),
                grid_fits(hs, rs),
                w == greatest(rs.take(j as int), i as int, byte_len(hs[i as int])),
            decreases rows@.len() - j,
        {
            let row = &rows[j];
            assert(rs[j as int] == texts(rows@[j as int]@));
            assert(rs.take(j + 1).drop_last() =~= rs.take(j as int));
            assert(texts(row@).len() == row@.len());
            if i < row.len() {
                assert(texts(row@)[i as int] == row@[i as int]@);
                let n = bytes_in(row[i].as_str());
                if n > w {
                    w = n;
                }
            }
            j = j + 1;
        }
        assert(rs.take(j as int) =~= rs);
        if w > WIDEST {
            w = WIDEST;
        }
        out.push(w);
        i = i + 1;
    }
    assert(numbers(out@) =~= column_widths(hs, rs));
    out
}

fn rule_text(widths: &Vec<usize>, left: &str, cross: &str, right: &str) -> (r: String)
    requires
        forall|i: int| 0 <= i < widths@.len() ==> #[trigger] widths@[i] <= WIDEST,
    ensures
        r@ == rule(numbers(widths@), left@, cross@, right@),
{
    let ghost ws = numbers(widths@);
    let mut body = String::new();
    let mut i: usize = 0;
    assert(ws.take(0) =~= Seq::empty());
    assert(body@ =~= Seq::empty());
    while i < widths.len()
        invariant
            i <= widths@.len(),
            ws == numbers(widths@),
            body@ == rule_body(ws.take(i as int), cross@),
            forall|k: int| 0 <= k < widths@.len() ==> #[trigger] widths@[k] <= WIDEST,
        decreases widths@.len() - i,
    {
        assert(ws.take(i + 1).drop_last() =~= ws.take(i as int));
        assert(ws.take(i + 1).last() == widths@[i as int]);
        let dashes = repeat_text("─", widths[i] + 2);
        if i > 0 {
            body.append(cross);
        }
        body.append(dashes.as_str());
        proof {
            if i == 0 {
                assert(body@ =~= dashes@);
            }
        }
        i = i + 1;
    }
    assert(ws.take(i as int) =~= ws);
    crate::phrase::cat3(left, body.as_str(), right)
}

fn row_pieces(row: &Vec<String>, widths: &Vec<usize>, tone: Tone) -> (r: Line)
    requires
        row@.len() <= widths@.len(),
        forall|i: int|
            #![trigger texts(row@)[i]]
            0 <= i < row@.len() ==> can_clip(texts(row@)[i], widths@[i] as int),
    ensures
        r@ == row_line(texts(row@), numbers(widths@), tone),
{
    let ghost view = texts(row@);
    let ghost ws = numbers(widths@);
    let mut line = Line::new();
    line.put("│", Tone::Grid);
    let mut i: usize = 0;
    assert(view.take(0) =~= Seq::empty());
    assert(line@ =~= seq![("│"@, Tone::Grid)]);
    while i < row.len()
        invariant
            i <= row@.len(),
            view == texts(row@),
            ws == numbers(widths@),
            row@.len() <= widths@.len(),
            line@ == row_line(view.take(i as int), ws, tone),
            forall|k: int|
                #![trigger view[k]]
                0 <= k < row@.len() ==> can_clip(view[k], widths@[k] as int),
        decreases row@.len() - i,
    {
        assert(view.take(i + 1).drop_last() =~= view.take(i as int));
        assert(view[i as int] == row@[i as int]@);
        assert(ws[i as int] == widths@[i as int]);
        let c = clip(row[i].as_str(), widths[i]);
        let shown = cell(c.as_str(), widths[i]);
        line.put(shown.as_str(), tone);
        line.put("│", Tone::Grid);
        i = i + 1;
    }
    assert(view.take(i as int) =~= view);
    line
}

proof fn lemma_width_cuts(headers: Seq<Seq<char>>, rows: Seq<Seq<Seq<char>>>, row: Seq<Seq<char>>)
    requires
        grid_fits(headers, rows),
        row == headers || rows.contains(row),
    ensures
        forall|i: int|
            #![trigger row[i]]
            0 <= i < row.len() ==> can_clip(row[i], column_width(headers, rows, i)),
{
    assert forall|i: int| #![trigger row[i]] 0 <= i < row.len() implies can_clip(
        row[i],
        column_width(headers, rows, i),
    ) by {
        let from = byte_len(headers[i]);
        if row == headers {
            lemma_greatest_from(rows, i, from);
        } else {
            let k = choose|k: int| 0 <= k < rows.len() && rows[k] == row;
            assert(row_fits(rows[k], headers.len()));
            lemma_greatest(rows, i, from, k);
        }
    }
}

/// Rows in a frame, under their headers.
pub fn grid(headers: &Vec<String>, rows: &Vec<Vec<String>>) -> (r: Sheet)
    requires
        grid_fits(texts(headers@), row_lists(rows@)),
    ensures
        r@ == grid_lines(texts(headers@), row_lists(rows@)),
{
    let ghost hs = texts(headers@);
    let ghost rs = row_lists(rows@);
    let mut out = Sheet::new();
    if headers.len() == 0 {
        return out;
    }
    let widths = measure(headers, rows);
    let ghost ws = numbers(widths@);
    assert forall|k: int| 0 <= k < widths@.len() implies #[trigger] widths@[k] == column_width(
        hs,
        rs,
        k,
    ) by {
        assert(ws[k] == widths@[k]);
    }
    let top = rule_text(&widths, "┌", "┬", "┐");
    let middle = rule_text(&widths, "├", "┼", "┤");
    let bottom = rule_text(&widths, "└", "┴", "┘");
    out.add1(top.as_str(), Tone::Grid);
    proof {
        lemma_width_cuts(hs, rs, hs);
    }
    let head = row_pieces(headers, &widths, Tone::Active);
    out.add_line(head);
    out.add1(middle.as_str(), Tone::Grid);
    let ghost front = out@;
    assert(front =~= seq![
        seq![(rule(ws, "┌"@, "┬"@, "┐"@), Tone::Grid)],
        row_line(hs, ws, Tone::Active),
        seq![(rule(ws, "├"@, "┼"@, "┤"@), Tone::Grid)],
    ]);
    let mut i: usize = 0;
    assert(front + body_lines(rs, ws, 0) =~= front);
    while i < rows.len()
        invariant
            i <= rows@.len(),
            hs == texts(headers@),
            rs == row_lists(rows@),
            rs.len() == rows@.len(),
            grid_fits(hs, rs),
            ws == numbers(widths@),
            widths@.len() == hs.len(),
            forall|k: int|
                0 <= k < widths@.len() ==> #[trigger] widths@[k] == column_width(hs, rs, k),
            middle@ == rule(ws, "├"@, "┼"@, "┤"@),
            bottom@ == rule(ws, "└"@, "┴"@, "┘"@),
            out@ == front + body_lines(rs, ws, i as int),
        decreases rows@.len() - i,
    {
        proof {
            assert(rs[i as int] == texts(rows@[i as int]@));
            assert(row_fits(rs[i as int], hs.len()));
            assert(rs.contains(rs[i as int]));
            lemma_width_cuts(hs, rs, rs[i as int]);
        }
        let line = row_pieces(&rows[i], &widths, Tone::Value);
        out.add_line(line);
        if i + 1 < rows.len() {
            out.add1(middle.as_str(), Tone::Grid);
        } else {
            out.add1(bottom.as_str(), Tone::Grid);
        }
        assert(out@ =~= front + body_lines(rs, ws, i + 1));
        i = i + 1;
    }
    out
}

proof fn lemma_body_count(rows: Seq<Seq<Seq<char>>>, widths: Seq<int>, n: int)
    requires
        0 <= n,
    ensures
        body_lines(rows, widths, n).len() == 2 * n,
    decreases n,
{
    if n > 0 {
        lemma_body_count(rows, widths, n - 1);
    }
}

/// A frame takes two lines for each row and three around the headers.
pub proof fn law_grid_height(headers: Seq<Seq<char>>, rows: Seq<Seq<Seq<char>>>)
    requires
        headers.len() > 0,
    ensures
        grid_lines(headers, rows).len() == 2 * rows.len() + 3,
{
    lemma_body_count(rows, column_widths(headers, rows), rows.len() as int);
}

} // verus!
