//! What holds of the editor: what each key does to the text before the cursor and to the
//! text behind it.

use crate::phrase::repeated;
use crate::repl::editor::{
    begins_closed, ends_open, head_of, indent_of, key_pressed, selected_lines, sorted_selection,
    tail_of, ActionView, EditorView,
};
use crate::repl::keys::{Held, Key};
use crate::text::join_spec;
use vstd::prelude::*;

verus! {

/// The text before a place.
pub open spec fn text_upto(lines: Seq<Seq<char>>, place: (usize, usize)) -> Seq<char> {
    join_spec(
        lines.take(place.0 as int).push(lines[place.0 as int].take(place.1 as int)),
        "\n"@,
    )
}

/// The text from a place on.
pub open spec fn text_from(lines: Seq<Seq<char>>, place: (usize, usize)) -> Seq<char> {
    join_spec(
        seq![lines[place.0 as int].skip(place.1 as int)] + lines.skip(place.0 + 1),
        "\n"@,
    )
}

/// The text before the selection and behind it, or before the cursor and behind it where
/// nothing is selected.
pub open spec fn kept(e: EditorView) -> (Seq<char>, Seq<char>) {
    match e.selection {
        Some((a, b)) => if a.0 < b.0 || (a.0 == b.0 && a.1 <= b.1) {
            (text_upto(e.lines, a), text_from(e.lines, b))
        } else {
            (text_upto(e.lines, b), text_from(e.lines, a))
        },
        None => (text_upto(e.lines, e.cursor), text_from(e.lines, e.cursor)),
    }
}

/// Whether the cursor stands between two texts that together are the text.
pub open spec fn stands_between(e: EditorView, before: Seq<char>, after: Seq<char>) -> bool {
    &&& text_upto(e.lines, e.cursor) == before
    &&& text_from(e.lines, e.cursor) == after
    &&& e.text() == before + after
}

/// Whether the cursor and the selection are in the text.
pub open spec fn in_text(e: EditorView) -> bool {
    &&& e.wf()
    &&& e.stands(e.cursor)
    &&& e.selection matches Some(s) ==> e.stands(s.0) && e.stands(s.1)
}

proof fn lemma_join_tail(parts: Seq<Seq<char>>, x: Seq<char>, y: Seq<char>, sep: Seq<char>)
    ensures
        join_spec(parts.push(x + y), sep) == join_spec(parts.push(x), sep) + y,
{
    assert(parts.push(x + y).drop_last() =~= parts);
    assert(parts.push(x).drop_last() =~= parts);
    assert(join_spec(parts.push(x + y), sep) =~= join_spec(parts.push(x), sep) + y);
}

proof fn lemma_join_parts(a: Seq<Seq<char>>, b: Seq<Seq<char>>, sep: Seq<char>)
    requires
        a.len() > 0,
        b.len() > 0,
    ensures
        join_spec(a + b, sep) == join_spec(a, sep) + sep + join_spec(b, sep),
    decreases b.len(),
{
    let all = a + b;
    assert(all.drop_last() =~= a + b.drop_last());
    assert(all.last() == b.last());
    if b.len() == 1 {
        assert(a + b.drop_last() =~= a);
    } else {
        lemma_join_parts(a, b.drop_last(), sep);
        assert(join_spec(all, sep) =~= join_spec(a, sep) + sep + join_spec(b, sep));
    }
}

proof fn lemma_join_middle(
    front: Seq<Seq<char>>,
    x: Seq<char>,
    y: Seq<char>,
    back: Seq<Seq<char>>,
    sep: Seq<char>,
)
    ensures
        join_spec(front.push(x + y) + back, sep) == join_spec(front.push(x), sep) + join_spec(
            seq![y] + back,
            sep,
        ),
{
    lemma_join_tail(front, x, y, sep);
    if back.len() == 0 {
        assert(front.push(x + y) + back =~= front.push(x + y));
        assert(seq![y] + back =~= seq![y]);
    } else {
        lemma_join_parts(front.push(x + y), back, sep);
        lemma_join_parts(seq![y], back, sep);
        assert(join_spec(front.push(x + y) + back, sep) =~= join_spec(front.push(x), sep)
            + join_spec(seq![y] + back, sep));
    }
}

proof fn lemma_join_head(x: Seq<char>, y: Seq<char>, back: Seq<Seq<char>>, sep: Seq<char>)
    ensures
        join_spec(seq![x + y] + back, sep) == x + join_spec(seq![y] + back, sep),
{
    let none = Seq::<Seq<char>>::empty();
    lemma_join_middle(none, x, y, back, sep);
    assert(none.push(x + y) =~= seq![x + y]);
    assert(none.push(x) =~= seq![x]);
}

proof fn lemma_whole(lines: Seq<Seq<char>>, p: (usize, usize))
    requires
        p.0 < lines.len(),
        p.1 <= lines[p.0 as int].len(),
    ensures
        join_spec(lines, "\n"@) == text_upto(lines, p) + text_from(lines, p),
{
    let l = p.0 as int;
    let c = p.1 as int;
    let line = lines[l];
    lemma_join_middle(lines.take(l), line.take(c), line.skip(c), lines.skip(l + 1), "\n"@);
    assert(line.take(c) + line.skip(c) =~= line);
    assert(lines.take(l).push(line) + lines.skip(l + 1) =~= lines);
}

proof fn lemma_selected(lines: Seq<Seq<char>>, a: (usize, usize), b: (usize, usize))
    requires
        b.0 < lines.len(),
        b.1 <= lines[b.0 as int].len(),
        a.1 <= lines[a.0 as int].len(),
        a.0 < b.0 || (a.0 == b.0 && a.1 <= b.1),
    ensures
        text_upto(lines, b) == text_upto(lines, a) + join_spec(selected_lines(lines, a, b), "\n"@),
{
    let k = a.0 as int;
    let m = b.0 as int;
    let first = lines[k];
    let last = lines[m];
    let got = selected_lines(lines, a, b);
    if k == m {
        let mid = tail_of(head_of(first, b.1), a.1);
        assert(got =~= seq![mid]);
        assert(first.take(a.1 as int) + mid =~= first.take(b.1 as int));
        lemma_join_tail(lines.take(k), first.take(a.1 as int), mid, "\n"@);
    } else {
        let back = lines.subrange(k + 1, m).push(last.take(b.1 as int));
        assert(got =~= seq![first.skip(a.1 as int)] + back) by {
            let want = seq![first.skip(a.1 as int)] + back;
            assert(got.len() == want.len());
            assert forall|i: int| 0 <= i < got.len() implies got[i] == want[i] by {
                if i > 0 && i < m - k {
                    assert(want[i] == lines.subrange(k + 1, m)[i - 1]);
                }
            }
        }
        assert(first.take(a.1 as int) + first.skip(a.1 as int) =~= first);
        assert(lines.take(m).push(last.take(b.1 as int)) =~= lines.take(k).push(first) + back);
        lemma_join_middle(
            lines.take(k),
            first.take(a.1 as int),
            first.skip(a.1 as int),
            back,
            "\n"@,
        );
    }
}

proof fn lemma_cleared(e: EditorView)
    requires
        in_text(e),
    ensures
        e.cleared().stands(e.cleared().cursor),
        text_upto(e.cleared().lines, e.cleared().cursor) == kept(e).0,
        text_from(e.cleared().lines, e.cleared().cursor) == kept(e).1,
        e.cleared().cursor.1 <= usize::MAX - 2,
        e.cleared().lines.len() + 2 <= usize::MAX,
        e.cleared().line().len() + 2 <= usize::MAX,
        e.cleared().selection is None,
{
    if let Some((a, b)) = sorted_selection(e.selection) {
        let d = e.cleared();
        let k = a.0 as int;
        let head = e.lines[k].take(a.1 as int);
        let tail = e.lines[b.0 as int].skip(b.1 as int);
        assert(e.lines[k].len() + e.lines[b.0 as int].len() + 2 <= usize::MAX);
        assert(d.lines.take(k) =~= e.lines.take(k));
        assert(d.lines[k] == head + tail);
        assert(d.lines[k].take(a.1 as int) =~= head);
        assert(d.lines[k].skip(a.1 as int) =~= tail);
        assert(d.lines.skip(k + 1) =~= e.lines.skip(b.0 + 1));
    } else {
        assert(e.lines[e.cursor.0 as int].len() + e.lines[e.cursor.0 as int].len() + 2
            <= usize::MAX);
    }
}

/// Where nothing but shift is held, what a key does to the text and to the cursor is all
/// that it does to them.
proof fn lemma_keys(e: EditorView, key: Key, held: Held)
    requires
        !held.control,
        !held.command,
    ensures
        key_pressed(e, key, held).0.lines == e.edited(key).0.lines,
        key_pressed(e, key, held).0.cursor == e.edited(key).0.cursor,
        key_pressed(e, key, held).1 is Nothing,
{
}

proof fn lemma_bounds(e: EditorView)
    requires
        e.wf(),
    ensures
        e.lines[e.cursor.0 as int].len() + 2 <= usize::MAX,
        e.cursor.0 > 0 ==> e.lines[e.cursor.0 - 1].len() <= usize::MAX,
        e.cursor.0 + 1 < e.lines.len() ==> e.lines[e.cursor.0 + 1].len() <= usize::MAX,
        e.lines.last().len() <= usize::MAX,
        e.cursor.1 + 2 <= usize::MAX,
        e.lines.len() + 2 <= usize::MAX,
{
    let line = e.lines[e.cursor.0 as int];
    let last = e.lines[e.lines.len() - 1];
    assert(line.len() + last.len() + 2 <= usize::MAX);
    if e.cursor.0 > 0 {
        assert(line.len() + e.lines[e.cursor.0 - 1].len() + 2 <= usize::MAX);
    }
    if e.cursor.0 + 1 < e.lines.len() {
        assert(line.len() + e.lines[e.cursor.0 + 1].len() + 2 <= usize::MAX);
    }
}

/// The text is what is before the cursor and what is behind it; and with a selection, what
/// is before it, what is selected and what is behind it. Copying gives what is selected and
/// changes nothing.
pub proof fn law_text_around(e: EditorView, held: Held)
    requires
        in_text(e),
        held.control || held.command,
    ensures
        e.text() == text_upto(e.lines, e.cursor) + text_from(e.lines, e.cursor),
        key_pressed(e, Key::Char('c'), held).0 == e,
        e.selection is None ==> key_pressed(e, Key::Char('c'), held).1 is Nothing,
        e.selection is Some ==> (key_pressed(e, Key::Char('c'), held).1 matches ActionView::Copy(s)
            && e.text() == kept(e).0 + s + kept(e).1),
        key_pressed(e, Key::Char('v'), held) == (e, ActionView::Paste),
        key_pressed(e, Key::Char('r'), held) == (e, ActionView::Run),
{
    lemma_whole(e.lines, e.cursor);
    if let Some((a, b)) = sorted_selection(e.selection) {
        lemma_selected(e.lines, a, b);
        lemma_whole(e.lines, b);
    }
}

proof fn lemma_typed(e: EditorView, what: Seq<char>)
    requires
        e.stands(e.cursor),
        e.cursor.1 + what.len() <= usize::MAX,
    ensures
        stands_between(
            e.typed(what),
            text_upto(e.lines, e.cursor) + what,
            text_from(e.lines, e.cursor),
        ),
{
    let l = e.cursor.0 as int;
    let c = e.cursor.1 as int;
    let t = e.typed(what);
    let head = e.lines[l].take(c);
    let tail = e.lines[l].skip(c);
    assert(t.lines[l] == head + what + tail);
    assert(t.lines.take(l) =~= e.lines.take(l));
    assert(t.lines.skip(l + 1) =~= e.lines.skip(l + 1));
    assert(t.lines[l].take(c + what.len()) =~= head + what);
    assert(t.lines[l].skip(c + what.len()) =~= tail);
    lemma_join_tail(e.lines.take(l), head, what, "\n"@);
    lemma_whole(t.lines, t.cursor);
}

/// A character that is typed comes in at the cursor, or in place of what is selected; and a
/// tab is two spaces.
pub proof fn law_typing(e: EditorView, ch: char, held: Held)
    requires
        in_text(e),
        !held.control,
        !held.command,
    ensures
        stands_between(
            key_pressed(e, Key::Char(ch), held).0,
            kept(e).0.push(ch),
            kept(e).1,
        ),
        stands_between(key_pressed(e, Key::Tab, held).0, kept(e).0 + "  "@, kept(e).1),
        key_pressed(e, Key::Char(ch), held).1 is Nothing,
{
    reveal_strlit("  ");
    lemma_keys(e, Key::Char(ch), held);
    lemma_keys(e, Key::Tab, held);
    let d = e.cleared();
    lemma_cleared(e);
    lemma_typed(d, seq![ch]);
    lemma_typed(d, "  "@);
    assert(kept(e).0 + seq![ch] =~= kept(e).0.push(ch));
}

#[verifier::spinoff_prover]
proof fn lemma_backspaced(e: EditorView)
    requires
        e.stands(e.cursor),
        e.cursor.0 > 0 ==> e.lines[e.cursor.0 - 1].len() <= usize::MAX,
        e.cursor.0 > 0 || e.cursor.1 > 0,
    ensures
        stands_between(
            e.backspaced().0,
            text_upto(e.lines, one_back(e)),
            text_from(e.lines, e.cursor),
        ),
{
    let t = e.backspaced().0;
    let l = e.cursor.0 as int;
    let c = e.cursor.1 as int;
    if c > 0 {
        let line = e.lines[l];
        assert(t.lines[l] == line.take(c - 1) + line.skip(c));
        assert(t.lines[l].take(c - 1) =~= line.take(c - 1));
        assert(t.lines[l].skip(c - 1) =~= line.skip(c));
        assert(t.lines.take(l) =~= e.lines.take(l));
        assert(t.lines.skip(l + 1) =~= e.lines.skip(l + 1));
    } else {
        let above = e.lines[l - 1];
        assert(t.lines[l - 1] == above + e.lines[l]);
        assert(t.lines[l - 1].take(above.len() as int) =~= above);
        assert(above.take(above.len() as int) =~= above);
        assert(t.lines[l - 1].skip(above.len() as int) =~= e.lines[l]);
        assert(e.lines[l].skip(0) =~= e.lines[l]);
        assert(t.lines.take(l - 1) =~= e.lines.take(l - 1));
        assert(t.lines.skip(l) =~= e.lines.skip(l + 1));
    }
    lemma_whole(t.lines, t.cursor);
}

/// Backspace takes out what is selected, or else the one character before the cursor, a
/// line break too; at the beginning of the text it does nothing.
pub proof fn law_backspace(e: EditorView, held: Held)
    requires
        in_text(e),
        !held.control,
        !held.command,
    ensures
        ({
            let t = key_pressed(e, Key::Backspace, held).0;
            let (x, y) = kept(e);
            &&& e.selection is Some ==> stands_between(t, x, y)
            &&& e.selection is None && x.len() > 0 ==> stands_between(t, x.drop_last(), y)
            &&& e.selection is None && x.len() == 0 ==> stands_between(t, x, y)
        }),
{
    lemma_keys(e, Key::Backspace, held);
    if e.selection is Some {
        lemma_cleared(e);
        let d = e.cleared();
        lemma_whole(d.lines, d.cursor);
    } else {
        lemma_bounds(e);
        lemma_whole(e.lines, e.cursor);
        lemma_shorter(e);
        if e.cursor.0 > 0 || e.cursor.1 > 0 {
            lemma_backspaced(e);
        }
    }
}

/// The place one character before the cursor.
pub open spec fn one_back(e: EditorView) -> (usize, usize) {
    let (l, c) = e.cursor;
    if c > 0 {
        (l, (c - 1) as usize)
    } else {
        ((l - 1) as usize, e.lines[l - 1].len() as usize)
    }
}

#[verifier::spinoff_prover]
proof fn lemma_shorter(e: EditorView)
    requires
        e.stands(e.cursor),
        e.cursor.0 > 0 ==> e.lines[e.cursor.0 - 1].len() <= usize::MAX,
    ensures
        text_upto(e.lines, e.cursor).len() == 0 <==> e.cursor.0 == 0 && e.cursor.1 == 0,
        e.cursor.0 > 0 || e.cursor.1 > 0 ==> text_upto(e.lines, e.cursor).drop_last() == text_upto(
            e.lines,
            one_back(e),
        ),
{
    reveal_strlit("\n");
    let l = e.cursor.0 as int;
    let c = e.cursor.1 as int;
    let line = e.lines[l];
    let front = e.lines.take(l);
    if c > 0 {
        lemma_join_tail(front, line.take(c - 1), seq![line[c - 1]], "\n"@);
        assert(line.take(c - 1) + seq![line[c - 1]] =~= line.take(c));
        let shorter = text_upto(e.lines, one_back(e));
        assert(text_upto(e.lines, e.cursor) == shorter + seq![line[c - 1]]);
        assert((shorter + seq![line[c - 1]]).drop_last() =~= shorter);
    } else if l > 0 {
        let above = e.lines[l - 1];
        let none = line.take(0);
        assert(front.push(none).drop_last() =~= front);
        assert(above.take(above.len() as int) =~= above);
        assert(e.lines.take(l - 1).push(above) =~= front);
        let shorter = text_upto(e.lines, one_back(e));
        assert(shorter == join_spec(front, "\n"@));
        assert(text_upto(e.lines, e.cursor) == shorter + "\n"@ + none);
        assert((shorter + "\n"@ + none).drop_last() =~= shorter);
    } else {
        assert(front.push(line.take(0)).len() == 1);
    }
}

/// Delete takes out what is selected, or else the one character behind the cursor, a line
/// break too; at the end of the text it does nothing.
pub proof fn law_delete(e: EditorView, held: Held)
    requires
        in_text(e),
        !held.control,
        !held.command,
    ensures
        ({
            let t = key_pressed(e, Key::Delete, held).0;
            let (x, y) = kept(e);
            &&& e.selection is Some ==> stands_between(t, x, y)
            &&& e.selection is None && y.len() > 0 ==> stands_between(t, x, y.drop_first())
            &&& e.selection is None && y.len() == 0 ==> stands_between(t, x, y)
        }),
{
    reveal_strlit("\n");
    let t = key_pressed(e, Key::Delete, held).0;
    lemma_keys(e, Key::Delete, held);
    lemma_bounds(e);
    lemma_cleared(e);
    let d = e.cleared();
    lemma_whole(d.lines, d.cursor);
    if e.selection is None {
        let l = e.cursor.0 as int;
        let c = e.cursor.1 as int;
        let line = e.lines[l];
        let back = e.lines.skip(l + 1);
        if c < line.len() {
            assert(t.lines[l] == line.take(c) + line.skip(c + 1));
            assert(t.lines[l].take(c) =~= line.take(c));
            assert(t.lines[l].skip(c) =~= line.skip(c + 1));
            assert(t.lines.take(l) =~= e.lines.take(l));
            assert(t.lines.skip(l + 1) =~= back);
            lemma_join_head(seq![line[c]], line.skip(c + 1), back, "\n"@);
            assert(seq![line[c]] + line.skip(c + 1) =~= line.skip(c));
            let rest = text_from(t.lines, t.cursor);
            assert((seq![line[c]] + rest).drop_first() =~= rest);
            lemma_whole(t.lines, t.cursor);
        } else if l + 1 < e.lines.len() {
            let below = e.lines[l + 1];
            assert(t.lines[l] == line + below);
            assert(t.lines[l].take(c) =~= line.take(c));
            assert(t.lines[l].skip(c) =~= below);
            assert(t.lines.take(l) =~= e.lines.take(l));
            assert(t.lines.skip(l + 1) =~= e.lines.skip(l + 2));
            assert(back =~= seq![below] + e.lines.skip(l + 2));
            lemma_join_parts(seq![line.skip(c)], back, "\n"@);
            let rest = text_from(t.lines, t.cursor);
            assert(text_from(e.lines, e.cursor) == line.skip(c) + "\n"@ + rest);
            assert((line.skip(c) + "\n"@ + rest).drop_first() =~= rest);
            lemma_whole(t.lines, t.cursor);
        } else {
            assert(back =~= Seq::empty());
            assert(seq![line.skip(c)] + back =~= seq![line.skip(c)]);
        }
    }
}

/// An arrow to the left or to the right takes the cursor over one character, a line break
/// too, and leaves the text; at the ends of the text it stays. An arrow up or down takes it
/// to the line above or below, at the same column or at the end of a shorter line.
pub proof fn law_arrows(e: EditorView, held: Held)
    requires
        in_text(e),
        !held.control,
        !held.command,
    ensures
        ({
            let left = key_pressed(e, Key::Left, held).0;
            let right = key_pressed(e, Key::Right, held).0;
            let up = key_pressed(e, Key::Up, held).0;
            let down = key_pressed(e, Key::Down, held).0;
            let x = text_upto(e.lines, e.cursor);
            let (l, c) = e.cursor;
            &&& left.lines == e.lines && right.lines == e.lines && up.lines == e.lines && down.lines
                == e.lines
            &&& x.len() > 0 ==> text_upto(left.lines, left.cursor) == x.drop_last()
            &&& x.len() == 0 ==> left.cursor == e.cursor
            &&& x != e.text() ==> text_upto(right.lines, right.cursor).drop_last() == x
            &&& x == e.text() ==> right.cursor == e.cursor
            &&& l > 0 ==> up.cursor.0 == l - 1 && up.cursor.1 == (if c <= e.lines[l - 1].len() {
                c as int
            } else {
                e.lines[l - 1].len() as int
            })
            &&& l == 0 ==> up.cursor == e.cursor
            &&& l + 1 < e.lines.len() ==> down.cursor.0 == l + 1 && down.cursor.1 == (if c
                <= e.lines[l + 1].len() {
                c as int
            } else {
                e.lines[l + 1].len() as int
            })
            &&& l + 1 == e.lines.len() ==> down.cursor == e.cursor
        }),
{
    lemma_bounds(e);
    lemma_keys(e, Key::Left, held);
    lemma_keys(e, Key::Right, held);
    lemma_keys(e, Key::Up, held);
    lemma_keys(e, Key::Down, held);
    lemma_shorter(e);
    lemma_right(e);
}

#[verifier::spinoff_prover]
proof fn lemma_right(e: EditorView)
    requires
        e.stands(e.cursor),
        e.cursor.0 > 0 ==> e.lines[e.cursor.0 - 1].len() <= usize::MAX,
        e.lines[e.cursor.0 as int].len() < usize::MAX,
        e.lines.len() <= usize::MAX,
    ensures
        ({
            let right = e.moved(Key::Right);
            let x = text_upto(e.lines, e.cursor);
            &&& x != e.text() ==> text_upto(e.lines, right).drop_last() == x
            &&& x == e.text() ==> right == e.cursor
        }),
{
    let right = e.moved(Key::Right);
    let (l, c) = e.cursor;
    let line = e.lines[l as int];
    let x = text_upto(e.lines, e.cursor);
    let y = text_from(e.lines, e.cursor);
    lemma_whole(e.lines, e.cursor);
    if c < line.len() || l + 1 < e.lines.len() {
        let moved = EditorView { cursor: right, ..e };
        lemma_shorter(moved);
        assert(one_back(moved) == e.cursor);
        let more = text_upto(e.lines, right);
        assert(more.drop_last() == x);
        lemma_whole(e.lines, right);
        assert(e.text().len() == more.len() + text_from(e.lines, right).len());
    } else {
        let back = e.lines.skip(l + 1);
        assert(back =~= Seq::empty());
        assert(seq![line.skip(c as int)] + back =~= seq![line.skip(c as int)]);
        assert(y.len() == 0);
        assert(x + y =~= x);
    }
}

/// Enter breaks the line, and begins the new one with as many spaces as the old one, two
/// more behind an opening bracket; where the closing one follows, it comes to a line of its
/// own, with the spaces of the old line.
pub proof fn law_enter(e: EditorView, held: Held)
    requires
        in_text(e),
        !held.control,
        !held.command,
    ensures
        ({
            let d = e.cleared();
            let t = key_pressed(e, Key::Enter, held).0;
            let (x, y) = kept(e);
            let before = d.line().take(d.cursor.1 as int);
            let after = d.line().skip(d.cursor.1 as int);
            let indent = indent_of(d.line());
            let opens = ends_open(before, '{') || ends_open(before, '[');
            let pair = ends_open(before, '{') && begins_closed(after, '}') || ends_open(before, '[')
                && begins_closed(after, ']');
            &&& pair ==> stands_between(
                t,
                x + "\n"@ + repeated(" "@, indent + 2),
                "\n"@ + repeated(" "@, indent) + y,
            )
            &&& opens && !pair ==> stands_between(t, x + "\n"@ + repeated(" "@, indent + 2), y)
            &&& !opens ==> stands_between(t, x + "\n"@ + repeated(" "@, indent), y)
        }),
{
    lemma_keys(e, Key::Enter, held);
    lemma_cleared(e);
    lemma_broken(e.cleared());
}

#[verifier::spinoff_prover]
#[verifier::rlimit(30)]
proof fn lemma_broken(d: EditorView)
    requires
        d.stands(d.cursor),
        d.lines.len() + 2 <= usize::MAX,
        d.line().len() + 2 <= usize::MAX,
    ensures
        ({
            let t = d.broken();
            let x = text_upto(d.lines, d.cursor);
            let y = text_from(d.lines, d.cursor);
            let before = d.line().take(d.cursor.1 as int);
            let after = d.line().skip(d.cursor.1 as int);
            let indent = indent_of(d.line());
            let opens = ends_open(before, '{') || ends_open(before, '[');
            let pair = ends_open(before, '{') && begins_closed(after, '}') || ends_open(before, '[')
                && begins_closed(after, ']');
            &&& pair ==> stands_between(
                t,
                x + "\n"@ + repeated(" "@, indent + 2),
                "\n"@ + repeated(" "@, indent) + y,
            )
            &&& opens && !pair ==> stands_between(t, x + "\n"@ + repeated(" "@, indent + 2), y)
            &&& !opens ==> stands_between(t, x + "\n"@ + repeated(" "@, indent), y)
        }),
{
    let b = d.broken();
    let l = d.cursor.0 as int;
    let c = d.cursor.1 as int;
    let before = d.line().take(c);
    let after = d.line().skip(c);
    let indent = indent_of(d.line());
    let pair = ends_open(before, '{') && begins_closed(after, '}') || ends_open(before, '[')
        && begins_closed(after, ']');
    let opens = ends_open(before, '{') || ends_open(before, '[');
    let deep = if opens {
        indent + 2
    } else {
        indent
    };
    let spaces = repeated(" "@, deep);
    lemma_indent(d.line());
    lemma_spaces(deep);
    let front = d.lines.take(l);
    let back = d.lines.skip(l + 1);
    let sep = "\n"@;
    assert(b.lines.take(l + 1) =~= front.push(before));
    lemma_join_parts(front.push(before), seq![spaces], sep);
    assert(front.push(before) + seq![spaces] =~= front.push(before).push(spaces));
    if pair {
        let closed = repeated(" "@, indent) + after;
        assert(b.lines[l + 1] == spaces);
        assert(spaces.take(deep as int) =~= spaces);
        assert(spaces.skip(deep as int) =~= Seq::empty());
        assert(b.lines.skip(l + 2) =~= seq![closed] + back);
        lemma_join_parts(seq![Seq::<char>::empty()], seq![closed] + back, sep);
        lemma_join_head(repeated(" "@, indent), after, back, sep);
        assert(seq![Seq::<char>::empty()] + (seq![closed] + back) =~= seq![
            spaces.skip(deep as int),
        ] + b.lines.skip(l + 2));
        assert(text_from(b.lines, b.cursor) =~= sep + repeated(" "@, indent) + text_from(
            d.lines,
            d.cursor,
        ));
    } else {
        assert(b.lines[l + 1] == spaces + after);
        assert(b.lines[l + 1].take(deep as int) =~= spaces);
        assert(b.lines[l + 1].skip(deep as int) =~= after);
        assert(b.lines.skip(l + 2) =~= back);
    }
    lemma_whole(b.lines, b.cursor);
}

proof fn lemma_spaces(n: nat)
    ensures
        repeated(" "@, n).len() == n,
    decreases n,
{
    reveal_strlit(" ");
    if n > 0 {
        lemma_spaces((n - 1) as nat);
    }
}

proof fn lemma_indent(line: Seq<char>)
    ensures
        indent_of(line) <= line.len(),
    decreases line.len(),
{
    if line.len() > 0 && line[0] == ' ' {
        lemma_indent(line.skip(1));
    }
}

/// What is selected: with `a` and a command key all of the text; with an arrow and shift
/// from where the selection began, or the cursor stood, to where the cursor goes; and with
/// an arrow alone nothing.
pub proof fn law_selecting(e: EditorView, key: Key, held: Held)
    requires
        in_text(e),
        key == Key::Left || key == Key::Right || key == Key::Up || key == Key::Down,
    ensures
        held.control || held.command ==> ({
            let t = key_pressed(e, Key::Char('a'), held).0;
            &&& t.lines == e.lines
            &&& kept(t).0.len() == 0
            &&& kept(t).1.len() == 0
        }),
        !held.control && !held.command ==> ({
            let t = key_pressed(e, key, held).0;
            &&& held.shift && e.selection is None ==> t.selection == Some((e.cursor, t.cursor))
            &&& held.shift ==> (e.selection matches Some(s) ==> t.selection == Some((s.0, t.cursor)))
            &&& !held.shift ==> t.selection is None
        }),
{
    lemma_bounds(e);
    lemma_ends(e.lines);
}

proof fn lemma_ends(lines: Seq<Seq<char>>)
    requires
        0 < lines.len() <= usize::MAX,
        lines.last().len() <= usize::MAX,
    ensures
        text_upto(lines, (0, 0)).len() == 0,
        text_from(lines, ((lines.len() - 1) as usize, lines.last().len() as usize)).len() == 0,
{
    let none = lines[0].take(0);
    assert(lines.take(0).push(none) =~= seq![none]);
    let last = lines.last();
    let rest = last.skip(last.len() as int);
    assert(lines.skip(lines.len() as int) =~= Seq::empty());
    assert(seq![rest] + lines.skip(lines.len() as int) =~= seq![rest]);
}

/// After each change the text is validated, and what is reported is that of the new text; an
/// arrow reports nothing new. The line of the cursor is shown, where any is.
pub proof fn law_report_follows(e: EditorView, key: Key, held: Held)
    requires
        !held.control,
        !held.command,
    ensures
        ({
            let t = key_pressed(e, key, held).0;
            let changed = e.edited(key).1;
            &&& changed ==> t.status == t.validated().status
            &&& !changed ==> t.status == e.edited(key).0.status
            &&& key == Key::Left || key == Key::Right || key == Key::Up || key == Key::Down
                ==> t.status == e.status
            &&& t.viewport_height > 2 && t.cursor.0 < usize::MAX && t.scroll + t.viewport_height
                <= usize::MAX ==> t.scroll <= t.cursor.0 < t.scroll + t.viewport_height - 2
        }),
{
    let (after, changed) = e.edited(key);
    let t = key_pressed(e, key, held).0;
    assert(t.viewport_height == after.viewport_height);
    assert(t.text() == after.text());
}

} // verus!
