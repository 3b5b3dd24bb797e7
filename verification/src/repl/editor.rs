//! The editor of queries: lines, a cursor and a selection.

use crate::phrase::{cat2, repeat_text, repeated};
use crate::json_text::{is_json, json_pretty, json_readable, pretty_json};
use crate::repl::keys::{Held, Key};
use crate::text::{
    chars_of, join_spec, join_texts, text_between, texts, trim_end_spec, trim_spec,
    trim_start_spec, trimmed,
};
use vstd::prelude::*;

verus! {

/// What the editor holds.
pub struct Editor {
    pub lines: Vec<String>,
    pub cursor: (usize, usize),
    pub selection: Option<((usize, usize), (usize, usize))>,
    /// The first line that is shown.
    pub scroll: usize,
    /// The height of the editor with its borders.
    pub viewport_height: u16,
    /// What is reported, and whether it is good news.
    pub status: Option<(String, bool)>,
}

/// What an `Editor` stands for.
#[verifier::ext_equal]
pub struct EditorView {
    pub lines: Seq<Seq<char>>,
    pub cursor: (usize, usize),
    pub selection: Option<((usize, usize), (usize, usize))>,
    pub scroll: usize,
    pub viewport_height: u16,
    pub status: Option<(Seq<char>, bool)>,
}

impl View for Editor {
    type V = EditorView;

    open spec fn view(&self) -> EditorView {
        EditorView {
            lines: texts(self.lines@),
            cursor: self.cursor,
            selection: self.selection,
            scroll: self.scroll,
            viewport_height: self.viewport_height,
            status: match self.status {
                Some(s) => Some((s.0@, s.1)),
                None => None,
            },
        }
    }
}

/// A selection with its earlier end first.
pub open spec fn sorted_selection(
    sel: Option<((usize, usize), (usize, usize))>,
) -> Option<((usize, usize), (usize, usize))> {
    match sel {
        Some((a, b)) => if a.0 < b.0 || (a.0 == b.0 && a.1 <= b.1) {
            Some((a, b))
        } else {
            Some((b, a))
        },
        None => None,
    }
}

/// A selection with its earlier end first.
pub fn get_sorted_selection(
    sel: Option<((usize, usize), (usize, usize))>,
) -> (r: Option<((usize, usize), (usize, usize))>)
    ensures
        r == sorted_selection(sel),
{
    match sel {
        Some((a, b)) => if a.0 < b.0 || (a.0 == b.0 && a.1 <= b.1) {
            Some((a, b))
        } else {
            Some((b, a))
        },
        None => None,
    }
}

/// The beginning of a line, up to a character.
pub open spec fn head_of(line: Seq<char>, c: usize) -> Seq<char> {
    if c <= line.len() {
        line.take(c as int)
    } else {
        line
    }
}

/// The rest of a line, from a character on.
pub open spec fn tail_of(line: Seq<char>, c: usize) -> Seq<char> {
    if c <= line.len() {
        line.skip(c as int)
    } else {
        Seq::empty()
    }
}

fn head_text(line: &str, c: usize) -> (r: String)
    ensures
        r@ == head_of(line@, c),
{
    let cs = chars_of(line);
    if c <= cs.len() {
        let r = text_between(cs.as_slice(), 0, c);
        assert(r@ =~= line@.take(c as int));
        r
    } else {
        line.to_owned()
    }
}

fn tail_text(line: &str, c: usize) -> (r: String)
    ensures
        r@ == tail_of(line@, c),
{
    let cs = chars_of(line);
    if c <= cs.len() {
        let r = text_between(cs.as_slice(), c, cs.len());
        assert(r@ =~= line@.skip(c as int));
        r
    } else {
        String::new()
    }
}

impl EditorView {
    /// Whether the cursor and the selection stand on lines of the text, and two more
    /// lines, or two more characters in two lines put together, can be counted.
    pub open spec fn wf(self) -> bool {
        &&& self.cursor.0 < self.lines.len()
        &&& self.selection matches Some(s) ==> s.0.0 < self.lines.len() && s.1.0 < self.lines.len()
            && s.0.1 + 2 <= usize::MAX && s.1.1 + 2 <= usize::MAX
        &&& self.lines.len() + 2 <= usize::MAX
        &&& self.cursor.1 + 2 <= usize::MAX
        &&& forall|i: int, j: int|
            #![trigger self.lines[i], self.lines[j]]
            0 <= i < self.lines.len() && 0 <= j < self.lines.len() ==> self.lines[i].len()
                + self.lines[j].len() + 2 <= usize::MAX
    }

    /// Whether a place is in the text: before a character of a line, or at its end.
    pub open spec fn stands(self, place: (usize, usize)) -> bool {
        place.0 < self.lines.len() && place.1 <= self.lines[place.0 as int].len()
    }

    /// Whether the lines and places can still be counted with a text put in.
    pub open spec fn takes(self, text: Seq<char>) -> bool {
        &&& self.lines.len() + text.len() + 2 <= usize::MAX
        &&& self.cursor.1 + text.len() + 2 <= usize::MAX
        &&& self.selection matches Some(s) ==> s.0.1 + text.len() + 2 <= usize::MAX && s.1.1
            + text.len() + 2 <= usize::MAX
    }

    /// The line of the cursor.
    pub open spec fn line(self) -> Seq<char> {
        self.lines[self.cursor.0 as int]
    }

    /// The editor without what is selected.
    pub open spec fn cleared(self) -> EditorView {
        match sorted_selection(self.selection) {
            Some((a, b)) => EditorView {
                lines: if a.0 == b.0 {
                    self.lines.update(
                        a.0 as int,
                        head_of(self.lines[a.0 as int], a.1) + tail_of(
                            self.lines[a.0 as int],
                            b.1,
                        ),
                    )
                } else {
                    self.lines.take(a.0 as int).push(
                        head_of(self.lines[a.0 as int], a.1) + tail_of(
                            self.lines[b.0 as int],
                            b.1,
                        ),
                    ) + self.lines.skip(b.0 + 1)
                },
                cursor: a,
                selection: None,
                ..self
            },
            None => self,
        }
    }

    /// The text that is selected.
    pub open spec fn selected(self) -> Option<Seq<char>> {
        match sorted_selection(self.selection) {
            Some((a, b)) => Some(join_spec(selected_lines(self.lines, a, b), "\n"@)),
            None => None,
        }
    }

    /// The whole text.
    pub open spec fn text(self) -> Seq<char> {
        join_spec(self.lines, "\n"@)
    }

    /// The editor with its line of the cursor replaced, and the cursor in it moved.
    pub open spec fn with_line(self, line: Seq<char>, column: int) -> EditorView {
        EditorView {
            lines: self.lines.update(self.cursor.0 as int, line),
            cursor: (self.cursor.0, column as usize),
            ..self
        }
    }

    /// The editor with a text put in at the cursor.
    pub open spec fn typed(self, what: Seq<char>) -> EditorView {
        let c = self.cursor.1;
        self.with_line(
            head_of(self.line(), c) + what + tail_of(self.line(), c),
            c + what.len(),
        )
    }

    /// Whether the text is JSON is reported; nothing of a blank text.
    pub open spec fn validated(self) -> EditorView {
        let t = trim_spec(self.text());
        EditorView {
            status: if t.len() == 0 {
                None
            } else if json_readable(t) {
                Some(("Valid JSON"@, true))
            } else {
                Some(("Invalid JSON"@, false))
            },
            ..self
        }
    }

    /// That the text was put on the clipboard is reported, where that was done.
    pub open spec fn copied(self, done: bool) -> EditorView {
        EditorView {
            status: if done {
                Some(("Copied to clipboard"@, true))
            } else {
                self.status
            },
            ..self
        }
    }

    /// How many lines are shown.
    pub open spec fn shown(self) -> int {
        if self.viewport_height >= 2 {
            self.viewport_height - 2
        } else {
            0
        }
    }

    /// The editor scrolled so that the cursor is in sight.
    pub open spec fn scrolled(self) -> EditorView {
        let l = self.cursor.0;
        if self.shown() == 0 {
            self
        } else if l < self.scroll {
            EditorView { scroll: l, ..self }
        } else if l >= self.scroll + self.shown() {
            EditorView { scroll: (l - self.shown() + 1) as usize, ..self }
        } else {
            self
        }
    }
}

/// The parts of the lines that are selected.
pub open spec fn selected_lines(
    lines: Seq<Seq<char>>,
    a: (usize, usize),
    b: (usize, usize),
) -> Seq<Seq<char>> {
    Seq::new(
        (b.0 - a.0 + 1) as nat,
        |i: int|
            if a.0 == b.0 {
                tail_of(head_of(lines[a.0 as int], b.1), a.1)
            } else if i == 0 {
                tail_of(lines[a.0 as int], a.1)
            } else if a.0 + i == b.0 {
                head_of(lines[b.0 as int], b.1)
            } else {
                lines[a.0 + i]
            },
    )
}

/// How many spaces a line begins with.
pub open spec fn indent_of(line: Seq<char>) -> nat
    decreases line.len(),
{
    if line.len() > 0 && line[0] == ' ' {
        1 + indent_of(line.skip(1))
    } else {
        0
    }
}

/// Whether a text ends with a bracket that is open, but for white space.
pub open spec fn ends_open(s: Seq<char>, c: char) -> bool {
    trim_end_spec(s).len() > 0 && trim_end_spec(s).last() == c
}

/// Whether a text begins with a bracket, but for white space.
pub open spec fn begins_closed(s: Seq<char>, c: char) -> bool {
    trim_start_spec(s).len() > 0 && trim_start_spec(s)[0] == c
}

impl EditorView {
    /// The editor after the line was broken at the cursor: the rest is indented as
    /// the line is, two further behind an open bracket; between two brackets an
    /// indented line comes in between.
    pub open spec fn broken(self) -> EditorView {
        let l = self.cursor.0 as int;
        let before = head_of(self.line(), self.cursor.1);
        let after = tail_of(self.line(), self.cursor.1);
        let indent = indent_of(self.line());
        let opens = ends_open(before, '{') || ends_open(before, '[');
        if (ends_open(before, '{') && begins_closed(after, '}')) || (ends_open(before, '[')
            && begins_closed(after, ']')) {
            EditorView {
                lines: self.lines.take(l) + seq![
                    before,
                    repeated(" "@, indent + 2),
                    repeated(" "@, indent) + after,
                ] + self.lines.skip(l + 1),
                cursor: ((l + 1) as usize, (indent + 2) as usize),
                ..self
            }
        } else {
            let deep = if opens {
                indent + 2
            } else {
                indent
            };
            EditorView {
                lines: self.lines.take(l) + seq![before, repeated(" "@, deep) + after]
                    + self.lines.skip(l + 1),
                cursor: ((l + 1) as usize, deep as usize),
                ..self
            }
        }
    }

    /// The editor without the character before the cursor, or with the line joined
    /// to the one above; and whether anything changed.
    pub open spec fn backspaced(self) -> (EditorView, bool) {
        let (l, c) = self.cursor;
        if c > 0 {
            (
                self.with_line(head_of(self.line(), (c - 1) as usize) + tail_of(self.line(), c), c - 1),
                true,
            )
        } else if l > 0 {
            let above = self.lines[l - 1];
            (
                EditorView {
                    lines: self.lines.take(l - 1).push(above + self.line()) + self.lines.skip(l + 1),
                    cursor: ((l - 1) as usize, above.len() as usize),
                    ..self
                },
                true,
            )
        } else {
            (self, false)
        }
    }

    /// The editor without the character at the cursor, or with the line below joined
    /// to it; and whether anything changed.
    pub open spec fn forward_deleted(self) -> (EditorView, bool) {
        let (l, c) = self.cursor;
        if c < self.line().len() {
            (
                self.with_line(
                    head_of(self.line(), c) + tail_of(self.line(), (c + 1) as usize),
                    c as int,
                ),
                true,
            )
        } else if l + 1 < self.lines.len() {
            (
                EditorView {
                    lines: self.lines.take(l as int).push(self.line() + self.lines[l + 1])
                        + self.lines.skip(l + 2),
                    ..self
                },
                true,
            )
        } else {
            (self, false)
        }
    }

    /// Where an arrow moves the cursor.
    pub open spec fn moved(self, key: Key) -> (usize, usize) {
        let (l, c) = self.cursor;
        match key {
            Key::Left => if c > 0 {
                (l, (c - 1) as usize)
            } else if l > 0 {
                ((l - 1) as usize, self.lines[l - 1].len() as usize)
            } else {
                (l, c)
            },
            Key::Right => if c < self.line().len() {
                (l, (c + 1) as usize)
            } else if l + 1 < self.lines.len() {
                ((l + 1) as usize, 0)
            } else {
                (l, c)
            },
            Key::Up => if l > 0 {
                ((l - 1) as usize, smaller(c, self.lines[l - 1].len()))
            } else {
                (l, c)
            },
            Key::Down => if l + 1 < self.lines.len() {
                ((l + 1) as usize, smaller(c, self.lines[l + 1].len()))
            } else {
                (l, c)
            },
            _ => (l, c),
        }
    }

    /// The editor with its text written as JSON with one entry per line, where it is
    /// JSON; and whether it was.
    pub open spec fn formatted(self, report: Seq<char>) -> (EditorView, bool) {
        match json_pretty(self.text()) {
            Some(t) => (
                EditorView {
                    lines: lines_of(t),
                    cursor: (0, 0),
                    status: Some((report, true)),
                    ..self
                },
                true,
            ),
            None => (self, false),
        }
    }

    /// The editor after a key other than a command, and whether the text changed.
    pub open spec fn edited(self, key: Key) -> (EditorView, bool) {
        match key {
            Key::Char(ch) => (self.cleared().typed(seq![ch]), true),
            Key::Enter => (self.cleared().broken(), true),
            Key::Tab => (self.cleared().typed("  "@), true),
            Key::Backspace => if self.selection is Some {
                (self.cleared(), true)
            } else {
                self.backspaced()
            },
            Key::Delete => if self.selection is Some {
                (self.cleared(), true)
            } else {
                self.forward_deleted()
            },
            _ => (EditorView { cursor: self.moved(key), ..self }, false),
        }
    }

    /// What a key that is no command leaves selected: with the shift key held, from
    /// where the selection began to the cursor; else nothing, where the text did not
    /// change.
    pub open spec fn reselected(
        self,
        from: (usize, usize),
        key: Key,
        shift: bool,
        changed: bool,
    ) -> EditorView {
        if key == Key::Char('c') || key == Key::Char('v') || key == Key::Char('a') {
            self
        } else if shift {
            EditorView {
                selection: match self.selection {
                    Some(s) => Some((s.0, self.cursor)),
                    None => Some((from, self.cursor)),
                },
                ..self
            }
        } else if !changed {
            EditorView { selection: None, ..self }
        } else {
            self
        }
    }
}

/// The smaller of two numbers.
pub open spec fn smaller(a: usize, b: nat) -> usize {
    if a <= b {
        a
    } else {
        b as usize
    }
}

/// The lines of a text; an empty one where it has none. A break at the end ends the
/// last line, and a carriage return before a break belongs to it.
pub open spec fn lines_of(s: Seq<char>) -> Seq<Seq<char>> {
    if text_lines(s).len() == 0 {
        seq![Seq::<char>::empty()]
    } else {
        text_lines(s)
    }
}

/// A line without the carriage return that ends it.
pub open spec fn without_return(s: Seq<char>) -> Seq<char> {
    if s.len() > 0 && s.last() == '\r' {
        s.drop_last()
    } else {
        s
    }
}

/// The lines of the first `n` characters that end with a break.
pub open spec fn whole_lines(s: Seq<char>, n: int) -> (Seq<Seq<char>>, Seq<char>)
    decreases n,
{
    if n <= 0 {
        (Seq::empty(), Seq::empty())
    } else {
        let (done, rest) = whole_lines(s, n - 1);
        if s[n - 1] == '\n' {
            (done.push(without_return(rest)), Seq::empty())
        } else {
            (done, rest.push(s[n - 1]))
        }
    }
}

/// The lines of a text.
pub open spec fn text_lines(s: Seq<char>) -> Seq<Seq<char>> {
    let (done, rest) = whole_lines(s, s.len() as int);
    if rest.len() == 0 {
        done
    } else {
        done.push(rest)
    }
}

/// What is to be done after a key.
#[derive(Debug)]
pub enum EditorAction {
    Nothing,
    /// Run the query.
    Run,
    /// Put a text on the clipboard.
    Copy(String),
    /// Put in what is on the clipboard.
    Paste,
}

/// The lines of a text; an empty one where it has none.
pub fn split_lines(s: &str) -> (r: Vec<String>)
    ensures
        texts(r@) == lines_of(s@),
{
    let mut out = text_lines_of(s);
    assert(texts(out@).len() == out@.len());
    if out.len() == 0 {
        out.push(String::new());
        assert(texts(out@) =~= seq![Seq::<char>::empty()]);
    }
    out
}

/// The lines of a text.
pub fn text_lines_of(s: &str) -> (r: Vec<String>)
    ensures
        texts(r@) == text_lines(s@),
{
    let cs = chars_of(s);
    let mut out: Vec<String> = Vec::new();
    let mut rest: Vec<char> = Vec::new();
    let mut i: usize = 0;
    assert(texts(out@) =~= Seq::empty());
    while i < cs.len()
        invariant
            i <= cs@.len(),
            cs@ == s@,
            (texts(out@), rest@) == whole_lines(s@, i as int),
        decreases cs@.len() - i,
    {
        let c = cs[i];
        if c == '\n' {
            let n = rest.len();
            let m: usize = if n > 0 && rest[n - 1] == '\r' {
                n - 1
            } else {
                n
            };
            let line = text_between(rest.as_slice(), 0, m);
            let ghost before = texts(out@);
            let ghost one = line@;
            assert(one =~= without_return(rest@));
            out.push(line);
            assert(texts(out@) =~= before.push(one));
            rest = Vec::new();
            assert(rest@ =~= Seq::empty());
        } else {
            rest.push(c);
        }
        i = i + 1;
    }
    if rest.len() > 0 {
        let line = text_between(rest.as_slice(), 0, rest.len());
        let ghost before = texts(out@);
        let ghost one = line@;
        assert(one =~= rest@);
        out.push(line);
        assert(texts(out@) =~= before.push(one));
    }
    out
}

fn count_indent(line: &str) -> (r: usize)
    ensures
        r == indent_of(line@),
        r <= line@.len(),
{
    let cs = chars_of(line);
    let mut i: usize = 0;
    assert(line@.skip(0) =~= line@);
    while i < cs.len() && cs[i] == ' '
        invariant
            i <= cs@.len(),
            cs@ == line@,
            indent_of(line@) == i + indent_of(line@.skip(i as int)),
        decreases cs@.len() - i,
    {
        assert(line@.skip(i as int)[0] == line@[i as int]);
        assert(line@.skip(i as int).skip(1) =~= line@.skip(i + 1));
        i = i + 1;
    }
    assert(indent_of(line@.skip(i as int)) == 0) by {
        if i < cs@.len() {
            assert(line@.skip(i as int)[0] == line@[i as int]);
        }
    }
    i
}

proof fn lemma_trim_end_last(s: Seq<char>, k: int)
    requires
        0 <= k <= s.len(),
        forall|i: int| k <= i < s.len() ==> crate::text::whitespace(#[trigger] s[i]),
        k > 0 ==> !crate::text::whitespace(s[k - 1]),
    ensures
        trim_end_spec(s) == s.take(k),
    decreases s.len(),
{
    if s.len() > k {
        assert(s[s.len() - 1] == s.last());
        lemma_trim_end_last(s.drop_last(), k);
        assert(s.drop_last().take(k) =~= s.take(k));
    } else {
        assert(s.take(k) =~= s);
    }
}

proof fn lemma_trim_start_first(s: Seq<char>, k: int)
    requires
        0 <= k <= s.len(),
        forall|i: int| 0 <= i < k ==> crate::text::whitespace(#[trigger] s[i]),
        k < s.len() ==> !crate::text::whitespace(s[k]),
    ensures
        trim_start_spec(s) == s.skip(k),
    decreases s.len(),
{
    if k > 0 {
        let rest = s.drop_first();
        assert forall|i: int| 0 <= i < k - 1 implies crate::text::whitespace(#[trigger] rest[i]) by {
            assert(rest[i] == s[i + 1]);
        }
        lemma_trim_start_first(rest, k - 1);
        assert(rest.skip(k - 1) =~= s.skip(k));
    } else {
        assert(s.skip(0) =~= s);
    }
}

fn ends_with_open(s: &str, c: char) -> (r: bool)
    ensures
        r == ends_open(s@, c),
{
    let cs = chars_of(s);
    let mut k: usize = cs.len();
    while k > 0 && cs[k - 1].is_whitespace()
        invariant
            k <= cs@.len(),
            cs@ == s@,
            forall|i: int| k <= i < s@.len() ==> crate::text::whitespace(#[trigger] s@[i]),
        decreases k,
    {
        k = k - 1;
    }
    proof {
        lemma_trim_end_last(s@, k as int);
    }
    k > 0 && cs[k - 1] == c
}

fn begins_with_closed(s: &str, c: char) -> (r: bool)
    ensures
        r == begins_closed(s@, c),
{
    let cs = chars_of(s);
    let n = cs.len();
    let mut k: usize = 0;
    while k < n && cs[k].is_whitespace()
        invariant
            k <= n == cs@.len(),
            cs@ == s@,
            forall|i: int| 0 <= i < k ==> crate::text::whitespace(#[trigger] s@[i]),
        decreases n - k,
    {
        k = k + 1;
    }
    proof {
        lemma_trim_start_first(s@, k as int);
    }
    k < n && cs[k] == c
}

impl Editor {
    fn set_line(&mut self, l: usize, line: String)
        requires
            l < old(self).lines@.len(),
        ensures
            final(self)@ == (EditorView {
                lines: old(self)@.lines.update(l as int, line@),
                ..old(self)@
            }),
            final(self).lines@.len() == old(self).lines@.len(),
    {
        let ghost before = texts(self.lines@);
        let ghost one = line@;
        self.lines[l] = line;
        assert(texts(self.lines@) =~= before.update(l as int, one));
    }

    fn insert_line(&mut self, l: usize, line: String)
        requires
            l <= old(self).lines@.len(),
        ensures
            final(self)@ == (EditorView {
                lines: old(self)@.lines.insert(l as int, line@),
                ..old(self)@
            }),
            final(self).lines@.len() == old(self).lines@.len() + 1,
    {
        let ghost before = texts(self.lines@);
        let ghost one = line@;
        self.lines.insert(l, line);
        assert(texts(self.lines@) =~= before.insert(l as int, one));
    }

    fn remove_line(&mut self, l: usize) -> (r: String)
        requires
            l < old(self).lines@.len(),
        ensures
            final(self)@ == (EditorView {
                lines: old(self)@.lines.remove(l as int),
                ..old(self)@
            }),
            final(self).lines@.len() == old(self).lines@.len() - 1,
            r@ == old(self)@.lines[l as int],
    {
        let ghost before = texts(self.lines@);
        let r = self.lines.remove(l);
        assert(texts(self.lines@) =~= before.remove(l as int));
        r
    }

    /// Takes out what is selected, and tells whether anything was.
    pub fn delete_selection(&mut self) -> (r: bool)
        requires
            old(self)@.wf(),
        ensures
            final(self)@ == old(self)@.cleared(),
            r == (old(self)@.selection is Some),
    {
        let ghost start = self@;
        match get_sorted_selection(self.selection) {
            None => false,
            Some((a, b)) => {
                assert(start.lines.len() == self.lines@.len());
                let head = head_text(self.lines[a.0].as_str(), a.1);
                let tail = tail_text(self.lines[b.0].as_str(), b.1);
                let joined = cat2(head.as_str(), tail.as_str());
                let ghost line = joined@;
                self.set_line(a.0, joined);
                if a.0 < b.0 {
                    let mut n: usize = a.0;
                    let ghost full = self@;
                    let ghost want = start.lines.take(a.0 as int).push(line);
                    assert(self@.lines =~= want + start.lines.skip(a.0 + 1));
                    while n < b.0
                        invariant
                            a.0 <= n <= b.0 < start.lines.len(),
                            want.len() == a.0 + 1,
                            self@ == (EditorView {
                                lines: want + start.lines.skip(n + 1),
                                ..full
                            }),
                        decreases b.0 - n,
                    {
                        assert(self@.lines.len() == self.lines@.len());
                        let _gone = self.remove_line(a.0 + 1);
                        n = n + 1;
                        assert((want + start.lines.skip(n as int)).remove(a.0 + 1) =~= want
                            + start.lines.skip(n + 1));
                    }
                }
                self.cursor = a;
                self.selection = None;
                true
            },
        }
    }

    fn type_text(&mut self, what: &str)
        requires
            old(self).cursor.0 < old(self).lines@.len(),
            old(self).cursor.1 + what@.len() <= usize::MAX,
        ensures
            final(self)@ == old(self)@.typed(what@),
    {
        let (l, c) = self.cursor;
        let n = chars_of(what).len();
        let line = head_text(self.lines[l].as_str(), c);
        let tail = tail_text(self.lines[l].as_str(), c);
        let mut line = cat2(line.as_str(), what);
        line.append(tail.as_str());
        self.set_line(l, line);
        self.cursor = (l, c + n);
        assert(self@ =~= old(self)@.typed(what@));
    }

    fn break_line(&mut self)
        requires
            old(self).cursor.0 < old(self).lines@.len(),
            old(self).lines@.len() + 2 <= usize::MAX,
            old(self)@.line().len() + 2 <= usize::MAX,
        ensures
            final(self)@ == old(self)@.broken(),
    {
        let (l, c) = self.cursor;
        let ghost start = self@;
        let before = head_text(self.lines[l].as_str(), c);
        let after = tail_text(self.lines[l].as_str(), c);
        let indent = count_indent(self.lines[l].as_str());
        let curly = ends_with_open(before.as_str(), '{');
        let square = ends_with_open(before.as_str(), '[');
        let ghost head = before@;
        if (curly && begins_with_closed(after.as_str(), '}')) || (square && begins_with_closed(
            after.as_str(),
            ']',
        )) {
            let inner = repeat_text(" ", indent + 2);
            let outer = repeat_text(" ", indent);
            let last = cat2(outer.as_str(), after.as_str());
            let ghost mid = inner@;
            let ghost end = last@;
            self.set_line(l, before);
            self.insert_line(l + 1, inner);
            self.insert_line(l + 2, last);
            self.cursor = (l + 1, indent + 2);
            assert(self@.lines =~= start.lines.take(l as int) + seq![head, mid, end]
                + start.lines.skip(l + 1));
        } else {
            let deep: usize = if curly || square {
                indent + 2
            } else {
                indent
            };
            let margin = repeat_text(" ", deep);
            let last = cat2(margin.as_str(), after.as_str());
            let ghost end = last@;
            self.set_line(l, before);
            self.insert_line(l + 1, last);
            self.cursor = (l + 1, deep);
            assert(self@.lines =~= start.lines.take(l as int) + seq![head, end]
                + start.lines.skip(l + 1));
        }
        assert(self@ =~= start.broken());
    }

    fn delete_before(&mut self) -> (r: bool)
        requires
            old(self).cursor.0 < old(self).lines@.len(),
        ensures
            (final(self)@, r) == old(self)@.backspaced(),
    {
        let (l, c) = self.cursor;
        let ghost start = self@;
        if c > 0 {
            let head = head_text(self.lines[l].as_str(), c - 1);
            let tail = tail_text(self.lines[l].as_str(), c);
            self.set_line(l, cat2(head.as_str(), tail.as_str()));
            self.cursor = (l, c - 1);
            assert(self@ =~= start.backspaced().0);
            true
        } else if l > 0 {
            let current = self.remove_line(l);
            let n = chars_of(self.lines[l - 1].as_str()).len();
            let joined = cat2(self.lines[l - 1].as_str(), current.as_str());
            assert(self@.lines[l - 1] == self.lines@[l - 1]@);
            assert(joined@ == start.lines[l - 1] + start.lines[l as int]);
            self.set_line(l - 1, joined);
            self.cursor = (l - 1, n);
            assert(self@.lines =~= start.backspaced().0.lines);
            assert(self@ =~= start.backspaced().0);
            true
        } else {
            false
        }
    }

    fn delete_after(&mut self) -> (r: bool)
        requires
            old(self).cursor.0 < old(self).lines@.len(),
        ensures
            (final(self)@, r) == old(self)@.forward_deleted(),
    {
        let (l, c) = self.cursor;
        let ghost start = self@;
        let n = chars_of(self.lines[l].as_str()).len();
        if c < n {
            let head = head_text(self.lines[l].as_str(), c);
            let tail = tail_text(self.lines[l].as_str(), c + 1);
            self.set_line(l, cat2(head.as_str(), tail.as_str()));
            assert(self@ =~= start.forward_deleted().0);
            true
        } else if l < self.lines.len() - 1 {
            let below = self.remove_line(l + 1);
            let joined = cat2(self.lines[l].as_str(), below.as_str());
            assert(self@.lines[l as int] == self.lines@[l as int]@);
            assert(joined@ == start.lines[l as int] + start.lines[l + 1]);
            self.set_line(l, joined);
            assert(self@.lines =~= start.forward_deleted().0.lines);
            assert(self@ =~= start.forward_deleted().0);
            true
        } else {
            false
        }
    }

    fn move_cursor(&mut self, key: Key)
        requires
            old(self).cursor.0 < old(self).lines@.len(),
        ensures
            final(self)@ == (EditorView { cursor: old(self)@.moved(key), ..old(self)@ }),
    {
        let (l, c) = self.cursor;
        match key {
            Key::Left => {
                if c > 0 {
                    self.cursor = (l, c - 1);
                } else if l > 0 {
                    self.cursor = (l - 1, chars_of(self.lines[l - 1].as_str()).len());
                }
            },
            Key::Right => {
                if c < chars_of(self.lines[l].as_str()).len() {
                    self.cursor = (l, c + 1);
                } else if l < self.lines.len() - 1 {
                    self.cursor = (l + 1, 0);
                }
            },
            Key::Up => {
                if l > 0 {
                    let n = chars_of(self.lines[l - 1].as_str()).len();
                    self.cursor = (
                        l - 1,
                        if c <= n {
                            c
                        } else {
                            n
                        },
                    );
                }
            },
            Key::Down => {
                if l < self.lines.len() - 1 {
                    let n = chars_of(self.lines[l + 1].as_str()).len();
                    self.cursor = (
                        l + 1,
                        if c <= n {
                            c
                        } else {
                            n
                        },
                    );
                }
            },
            _ => {},
        }
        assert(self@ =~= (EditorView { cursor: old(self)@.moved(key), ..old(self)@ }));
    }

    /// The text that is selected.
    pub fn get_selected_text(&self) -> (r: Option<String>)
        requires
            self@.wf(),
        ensures
            match r {
                Some(s) => self@.selected() == Some(s@),
                None => self@.selected() is None,
            },
    {
        match get_sorted_selection(self.selection) {
            None => None,
            Some((a, b)) => {
                let ghost want = selected_lines(self@.lines, a, b);
                let mut parts: Vec<String> = Vec::new();
                let mut l: usize = a.0;
                assert(texts(parts@) =~= want.take(0));
                while l <= b.0
                    invariant
                        self@.wf(),
                        a.0 <= l <= b.0 + 1,
                        b.0 < self.lines@.len(),
                        self.lines@.len() + 2 <= usize::MAX,
                        want == selected_lines(self@.lines, a, b),
                        texts(parts@) == want.take(l - a.0),
                    decreases b.0 + 1 - l,
                {
                    let line = self.lines[l].as_str();
                    let part = if a.0 == b.0 {
                        let head = head_text(line, b.1);
                        tail_text(head.as_str(), a.1)
                    } else if l == a.0 {
                        tail_text(line, a.1)
                    } else if l == b.0 {
                        head_text(line, b.1)
                    } else {
                        line.to_owned()
                    };
                    let ghost before = texts(parts@);
                    let ghost one = part@;
                    assert(one == want[l - a.0]);
                    parts.push(part);
                    l = l + 1;
                    assert(texts(parts@) =~= before.push(one));
                    assert(texts(parts@) =~= want.take(l - a.0));
                }
                assert(want.take(l - a.0) =~= want);
                Some(join_texts(parts.as_slice(), "\n"))
            },
        }
    }

    /// Reports whether the text is JSON.
    pub fn validate_json_status(&mut self)
        ensures
            final(self)@ == old(self)@.validated(),
    {
        let full = join_texts(self.lines.as_slice(), "\n");
        let t = trimmed(full.as_str());
        if t.as_str().is_empty() {
            self.status = None;
        } else if is_json(t.as_str()) {
            self.status = Some(("Valid JSON".to_owned(), true));
        } else {
            self.status = Some(("Invalid JSON".to_owned(), false));
        }
        assert(self@ =~= old(self)@.validated());
    }

    /// Writes the text as JSON with one entry per line, where it is JSON.
    pub fn format(&mut self, report: &str) -> (r: bool)
        ensures
            (final(self)@, r) == old(self)@.formatted(report@),
    {
        let full = join_texts(self.lines.as_slice(), "\n");
        match pretty_json(full.as_str()) {
            Some(t) => {
                self.lines = split_lines(t.as_str());
                self.cursor = (0, 0);
                self.status = Some((report.to_owned(), true));
                assert(self@ =~= old(self)@.formatted(report@).0);
                true
            },
            None => false,
        }
    }

    /// Scrolls so that the cursor is in sight.
    pub fn sync_editor_scroll(&mut self)
        ensures
            final(self)@ == old(self)@.scrolled(),
    {
        if self.viewport_height <= 2 {
            return ;
        }
        let shown: usize = (self.viewport_height - 2) as usize;
        let l: usize = self.cursor.0;
        if l < self.scroll {
            self.scroll = l;
        } else if l - self.scroll >= shown {
            self.scroll = l - shown + 1;
        }
    }

    fn reselect(&mut self, from: (usize, usize), key: Key, shift: bool, changed: bool)
        ensures
            final(self)@ == old(self)@.reselected(from, key, shift, changed),
    {
        if key == Key::Char('c') || key == Key::Char('v') || key == Key::Char('a') {
            return ;
        }
        if shift {
            self.selection = match self.selection {
                Some(s) => Some((s.0, self.cursor)),
                None => Some((from, self.cursor)),
            };
        } else if !changed {
            self.selection = None;
        }
    }

    fn edit(&mut self, key: Key) -> (changed: bool)
        requires
            old(self)@.wf(),
        ensures
            (final(self)@, changed) == old(self)@.edited(key),
    {
        let ghost start = self@;
        proof {
            assert(texts(self.lines@).len() == self.lines@.len());
            lemma_cleared(start);
        }
        match key {
            Key::Char(ch) => {
                let _had = self.delete_selection();
                let mut what = String::new();
                what.push(ch);
                assert(what@ =~= seq![ch]);
                assert(self@.lines.len() == self.lines@.len());
                self.type_text(what.as_str());
                true
            },
            Key::Enter => {
                let _had = self.delete_selection();
                assert(self@.lines.len() == self.lines@.len());
                self.break_line();
                true
            },
            Key::Tab => {
                let _had = self.delete_selection();
                proof {
                    reveal_strlit("  ");
                }
                assert(self@.lines.len() == self.lines@.len());
                self.type_text("  ");
                true
            },
            Key::Backspace => {
                if self.delete_selection() {
                    true
                } else {
                    self.delete_before()
                }
            },
            Key::Delete => {
                if self.delete_selection() {
                    true
                } else {
                    self.delete_after()
                }
            },
            _ => {
                self.move_cursor(key);
                false
            },
        }
    }
}

proof fn lemma_cleared(e: EditorView)
    requires
        e.wf(),
    ensures
        e.cleared().cursor.0 < e.cleared().lines.len(),
        e.cleared().lines.len() + 2 <= usize::MAX,
        e.cleared().cursor.1 + 2 <= usize::MAX,
        e.cleared().line().len() + 2 <= usize::MAX,
{
    match sorted_selection(e.selection) {
        Some((a, b)) => {
            let x = e.lines[a.0 as int];
            let y = e.lines[b.0 as int];
            assert(x.len() + y.len() + 2 <= usize::MAX);
        },
        None => {
            let x = e.lines[e.cursor.0 as int];
            assert(x.len() + x.len() + 2 <= usize::MAX);
        },
    }
}

/// What a key is answered with.
pub enum ActionView {
    Nothing,
    Run,
    Copy(Seq<char>),
    Paste,
}

impl View for EditorAction {
    type V = ActionView;

    open spec fn view(&self) -> ActionView {
        match self {
            EditorAction::Nothing => ActionView::Nothing,
            EditorAction::Run => ActionView::Run,
            EditorAction::Copy(s) => ActionView::Copy(s@),
            EditorAction::Paste => ActionView::Paste,
        }
    }
}

/// The editor after a change or a move: what is selected, what is in sight and, after
/// a change, what is reported.
pub open spec fn settled(
    e: EditorView,
    from: (usize, usize),
    key: Key,
    shift: bool,
    changed: bool,
) -> EditorView {
    let s = e.reselected(from, key, shift, changed).scrolled();
    if changed {
        s.validated()
    } else {
        s
    }
}

/// The editor after a key, and what is to be done: with the control or the command
/// key held, `a` selects everything, `r` runs the query, `c` and `v` copy and paste,
/// and `f` formats the text.
pub open spec fn key_pressed(e: EditorView, key: Key, held: Held) -> (EditorView, ActionView) {
    let command = held.control || held.command;
    if command && key == Key::Char('a') {
        let last = (e.lines.len() - 1) as usize;
        let end = (last, e.lines[last as int].len() as usize);
        (
            EditorView { selection: Some(((0, 0), end)), cursor: end, ..e },
            ActionView::Nothing,
        )
    } else if command && key == Key::Char('r') {
        (e, ActionView::Run)
    } else if command && key == Key::Char('c') {
        (
            e,
            match e.selected() {
                Some(s) => ActionView::Copy(s),
                None => ActionView::Nothing,
            },
        )
    } else if command && key == Key::Char('v') {
        (e, ActionView::Paste)
    } else if command && key == Key::Char('f') {
        let (after, changed) = e.formatted("Formatted"@);
        (settled(after, e.cursor, key, held.shift, changed), ActionView::Nothing)
    } else {
        let (after, changed) = e.edited(key);
        (settled(after, e.cursor, key, held.shift, changed), ActionView::Nothing)
    }
}

/// How many bytes a character takes in UTF-8.
pub open spec fn char_size(c: char) -> nat {
    if (c as u32) < 0x80 {
        1
    } else if (c as u32) < 0x800 {
        2
    } else if (c as u32) < 0x1_0000 {
        3
    } else {
        4
    }
}

/// The first character of a line that begins at a byte or behind it.
pub open spec fn place_of_byte(line: Seq<char>, byte: int) -> int
    decreases line.len(),
{
    if byte <= 0 || line.len() == 0 {
        0
    } else {
        1 + place_of_byte(line.skip(1), byte - char_size(line[0]))
    }
}

/// The text with plain quotation marks in place of typographic ones.
pub open spec fn plain_quotes(s: Seq<char>) -> Seq<char> {
    s.map_values(|c: char| plain_quote(c))
}

/// A plain quotation mark in place of a typographic one.
pub open spec fn plain_quote(c: char) -> char {
    if c == '\u{201c}' || c == '\u{201d}' {
        '"'
    } else if c == '\u{2018}' || c == '\u{2019}' {
        '\''
    } else {
        c
    }
}

/// The lines with a text put in at a byte of one of them, on a line of its own unless
/// it is the first; and where the next one goes.
pub open spec fn paste_line(
    lines: Seq<Seq<char>>,
    at: (usize, usize),
    part: Seq<char>,
    first: bool,
) -> (Seq<Seq<char>>, (usize, usize)) {
    let l = at.0 as int;
    let (broken, spot) = if first {
        (lines, at)
    } else {
        let k = place_of_byte(lines[l], at.1 as int);
        (
            lines.update(l, lines[l].take(k)).insert(l + 1, lines[l].skip(k)),
            ((l + 1) as usize, 0usize),
        )
    };
    let line = broken[spot.0 as int];
    let k = place_of_byte(line, spot.1 as int);
    (
        broken.update(spot.0 as int, line.take(k) + part + line.skip(k)),
        (spot.0, (spot.1 + part.len()) as usize),
    )
}

/// The lines with the first `n` of several texts put in, and where the next one goes.
pub open spec fn paste_lines(
    lines: Seq<Seq<char>>,
    at: (usize, usize),
    parts: Seq<Seq<char>>,
    n: nat,
) -> (Seq<Seq<char>>, (usize, usize))
    decreases n,
{
    if n == 0 {
        (lines, at)
    } else {
        let (before, spot) = paste_lines(lines, at, parts, (n - 1) as nat);
        paste_line(before, spot, parts[n - 1], n == 1)
    }
}

impl EditorView {
    /// The editor with a text in place of what is selected, line by line; formatted,
    /// where the whole is JSON then.
    pub open spec fn pasted(self, text: Seq<char>) -> EditorView {
        let e = self.cleared();
        let parts = text_lines(plain_quotes(text));
        let (lines, cursor) = paste_lines(e.lines, e.cursor, parts, parts.len());
        let put = EditorView { lines, cursor, ..e };
        put.formatted("JSON formatted"@).0.validated()
    }
}

fn find_byte(line: &str, byte: usize) -> (r: usize)
    ensures
        r == place_of_byte(line@, byte as int),
        r <= line@.len(),
{
    let cs = chars_of(line);
    let mut left: usize = byte;
    let mut k: usize = 0;
    assert(line@.skip(0) =~= line@);
    while left > 0 && k < cs.len()
        invariant
            k <= cs@.len(),
            cs@ == line@,
            place_of_byte(line@, byte as int) == k + place_of_byte(
                line@.skip(k as int),
                left as int,
            ),
        decreases cs@.len() - k,
    {
        let code: u32 = cs[k] as u32;
        let size: usize = if code < 0x80 {
            1
        } else if code < 0x800 {
            2
        } else if code < 0x1_0000 {
            3
        } else {
            4
        };
        assert(line@.skip(k as int)[0] == line@[k as int]);
        assert(line@.skip(k as int).skip(1) =~= line@.skip(k + 1));
        proof {
            let rest = line@.skip(k + 1);
            assert(left <= size ==> place_of_byte(rest, left - size) == 0);
            assert(place_of_byte(rest, 0) == 0);
        }
        if left >= size {
            left = left - size;
        } else {
            left = 0;
        }
        k = k + 1;
    }
    k
}

proof fn lemma_lines_bound(s: Seq<char>, n: int)
    requires
        0 <= n <= s.len(),
    ensures
        whole_lines(s, n).0.len() + whole_lines(s, n).1.len() <= n,
        forall|i: int|
            0 <= i < whole_lines(s, n).0.len() ==> (#[trigger] whole_lines(s, n).0[i]).len() <= n,
    decreases n,
{
    if n > 0 {
        lemma_lines_bound(s, n - 1);
    }
}

fn replace_quotes(s: &str) -> (r: String)
    ensures
        r@ == plain_quotes(s@),
{
    let cs = chars_of(s);
    let mut out = String::new();
    let mut i: usize = 0;
    while i < cs.len()
        invariant
            i <= cs@.len(),
            cs@ == s@,
            out@ == plain_quotes(s@).take(i as int),
        decreases cs@.len() - i,
    {
        let c = cs[i];
        let ghost before = out@;
        if c == '\u{201c}' || c == '\u{201d}' {
            out.push('"');
        } else if c == '\u{2018}' || c == '\u{2019}' {
            out.push('\'');
        } else {
            out.push(c);
        }
        i = i + 1;
        assert(out@ =~= before.push(plain_quote(c)));
        assert(out@ =~= plain_quotes(s@).take(i as int));
    }
    assert(plain_quotes(s@).take(i as int) =~= plain_quotes(s@));
    out
}

impl Editor {
    fn put_first(&mut self, part: &str)
        requires
            old(self).cursor.0 < old(self).lines@.len(),
            old(self).cursor.1 + part@.len() <= usize::MAX,
        ensures
            final(self)@ == ({
                let (lines, cursor) = paste_line(
                    old(self)@.lines,
                    old(self)@.cursor,
                    part@,
                    true,
                );
                EditorView { lines, cursor, ..old(self)@ }
            }),
            final(self).cursor.0 < final(self).lines@.len(),
            final(self).lines@.len() == old(self).lines@.len(),
    {
        let ghost start = self@;
        let (l, c) = self.cursor;
        let k = find_byte(self.lines[l].as_str(), c);
        let head = head_text(self.lines[l].as_str(), k);
        let tail = tail_text(self.lines[l].as_str(), k);
        let mut line = cat2(head.as_str(), part);
        line.append(tail.as_str());
        let n = chars_of(part).len();
        self.set_line(l, line);
        self.cursor = (l, c + n);
        proof {
            let (lines, cursor) = paste_line(start.lines, start.cursor, part@, true);
            assert(self@.lines =~= lines);
        }
    }

    /// Puts a text in place of what is selected, and formats the whole where it is
    /// JSON then.
    pub fn paste_and_format(&mut self, text: &str)
        requires
            old(self)@.wf(),
            old(self)@.takes(text@),
        ensures
            final(self)@ == old(self)@.pasted(text@),
    {
        proof {
            lemma_cleared(self@);
        }
        let _had = self.delete_selection();
        let ghost e = self@;
        let cleaned = replace_quotes(text);
        let parts = text_lines_of(cleaned.as_str());
        let ghost views = texts(parts@);
        proof {
            assert(cleaned@.len() == text@.len());
            lemma_lines_bound(cleaned@, cleaned@.len() as int);
            assert(views.len() == parts@.len());
            assert(e.lines.len() <= old(self)@.lines.len());
            assert(e.lines.len() == self.lines@.len());
        }
        let mut i: usize = 0;
        while i < parts.len()
            invariant
                i <= parts@.len(),
                views == texts(parts@),
                views == text_lines(cleaned@),
                cleaned@.len() == text@.len(),
                parts@.len() <= text@.len(),
                forall|k: int| 0 <= k < views.len() ==> (#[trigger] views[k]).len() <= text@.len(),
                e.lines.len() + text@.len() + 2 <= usize::MAX,
                e.cursor.1 + text@.len() + 2 <= usize::MAX,
                self@ == (EditorView {
                    lines: paste_lines(e.lines, e.cursor, views, i as nat).0,
                    cursor: paste_lines(e.lines, e.cursor, views, i as nat).1,
                    ..e
                }),
                self.cursor.0 < self.lines@.len(),
                self.lines@.len() <= e.lines.len() + i,
                i == 0 ==> self.cursor == e.cursor,
            decreases parts@.len() - i,
        {
            assert(views[i as int] == parts@[i as int]@);
            if i == 0 {
                self.put_first(parts[i].as_str());
            } else {
                self.put_later(parts[i].as_str());
            }
            i = i + 1;
        }
        let _formatted = self.format("JSON formatted");
        self.validate_json_status();
    }

    fn put_later(&mut self, part: &str)
        requires
            old(self).cursor.0 < old(self).lines@.len(),
            old(self).lines@.len() < usize::MAX,
        ensures
            final(self)@ == ({
                let (lines, cursor) = paste_line(
                    old(self)@.lines,
                    old(self)@.cursor,
                    part@,
                    false,
                );
                EditorView { lines, cursor, ..old(self)@ }
            }),
            final(self).cursor.0 < final(self).lines@.len(),
            final(self).lines@.len() <= old(self).lines@.len() + 1,
    {
        let ghost start = self@;
        let (l, c) = self.cursor;
        let k = find_byte(self.lines[l].as_str(), c);
        let head = head_text(self.lines[l].as_str(), k);
        let tail = tail_text(self.lines[l].as_str(), k);
        let line = cat2(part, tail.as_str());
        let n = chars_of(part).len();
        let ghost rest = tail@;
        let ghost whole = line@;
        self.set_line(l, head);
        self.insert_line(l + 1, line);
        self.cursor = (l + 1, n);
        proof {
            let (lines, cursor) = paste_line(start.lines, start.cursor, part@, false);
            assert(rest.take(0) =~= Seq::empty());
            assert(rest.skip(0) =~= rest);
            assert(Seq::<char>::empty() + part@ + rest =~= whole);
            assert(self@.lines =~= lines);
        }
    }

    /// Puts in what was on the clipboard, if anything was, and brings the cursor in
    /// sight.
    pub fn paste(&mut self, text: Option<&str>)
        requires
            old(self)@.wf(),
            text matches Some(t) ==> old(self)@.takes(t@),
        ensures
            final(self)@ == match text {
                Some(t) => old(self)@.pasted(t@).scrolled(),
                None => old(self)@.scrolled(),
            },
    {
        if let Some(t) = text {
            self.paste_and_format(t);
        }
        self.sync_editor_scroll();
    }

    /// Reports that the text was put on the clipboard, where that was done.
    pub fn report_copy(&mut self, done: bool)
        ensures
            final(self)@ == old(self)@.copied(done),
    {
        if done {
            self.status = Some(("Copied to clipboard".to_owned(), true));
        }
        assert(self@ =~= old(self)@.copied(done));
    }

    /// Answers a key.
    pub fn handle_native_editor(&mut self, key: Key, held: Held) -> (r: EditorAction)
        requires
            old(self)@.wf(),
        ensures
            (final(self)@, r@) == key_pressed(old(self)@, key, held),
    {
        let ghost start = self@;
        let from = self.cursor;
        let command = held.control || held.command;
        proof {
            assert(start.lines.len() == self.lines@.len());
        }
        if command && key == Key::Char('a') {
            let last: usize = self.lines.len() - 1;
            let end: (usize, usize) = (last, chars_of(self.lines[last].as_str()).len());
            self.selection = Some(((0, 0), end));
            self.cursor = end;
            return EditorAction::Nothing;
        }
        if command && key == Key::Char('r') {
            return EditorAction::Run;
        }
        if command && key == Key::Char('c') {
            return match self.get_selected_text() {
                Some(s) => EditorAction::Copy(s),
                None => EditorAction::Nothing,
            };
        }
        if command && key == Key::Char('v') {
            return EditorAction::Paste;
        }
        let changed = if command && key == Key::Char('f') {
            self.format("Formatted")
        } else {
            self.edit(key)
        };
        self.reselect(from, key, held.shift, changed);
        self.sync_editor_scroll();
        if changed {
            self.validate_json_status();
        }
        EditorAction::Nothing
    }
}

proof fn lemma_spaces(n: nat)
    ensures
        repeated(" "@, n).len() == n,
    decreases n,
{
    reveal_strlit(" ");
    if n > 0 {
        lemma_spaces((n - 1) as nat);
    }
}

proof fn lemma_indent(line: Seq<char>)
    ensures
        indent_of(line) <= line.len(),
    decreases line.len(),
{
    if line.len() > 0 && line[0] == ' ' {
        lemma_indent(line.skip(1));
    }
}

proof fn lemma_typed_stands(e: EditorView, what: Seq<char>)
    requires
        e.stands(e.cursor),
        what.len() <= 2,
        e.line().len() + 2 <= usize::MAX,
    ensures
        e.typed(what).stands(e.typed(what).cursor),
{
    let c = e.cursor.1;
    assert(e.typed(what).line() == head_of(e.line(), c) + what + tail_of(e.line(), c));
}

proof fn lemma_broken_stands(e: EditorView)
    requires
        e.stands(e.cursor),
        e.lines.len() + 2 <= usize::MAX,
        e.line().len() + 2 <= usize::MAX,
    ensures
        e.broken().stands(e.broken().cursor),
{
    let l = e.cursor.0 as int;
    let indent = indent_of(e.line());
    lemma_indent(e.line());
    lemma_spaces(indent);
    lemma_spaces(indent + 2);
    let after = tail_of(e.line(), e.cursor.1);
    let b = e.broken();
    assert(b.cursor.0 == l + 1);
    assert(b.lines.len() > l + 1);
    assert(b.lines[l + 1].len() >= b.cursor.1);
}

proof fn lemma_cleared_stands(e: EditorView)
    requires
        e.wf(),
        e.stands(e.cursor),
        e.selection matches Some(s) ==> e.stands(s.0) && e.stands(s.1),
    ensures
        e.cleared().stands(e.cleared().cursor),
        e.cleared().lines.len() <= e.lines.len(),
        e.cleared().line().len() + 2 <= usize::MAX,
{
    assert(e.lines[e.cursor.0 as int].len() + e.lines[e.cursor.0 as int].len() + 2 <= usize::MAX);
    if let Some((a, b)) = sorted_selection(e.selection) {
        let first = head_of(e.lines[a.0 as int], a.1);
        assert(e.lines[a.0 as int].len() + e.lines[b.0 as int].len() + 2 <= usize::MAX);
        assert(first.len() == a.1);
        if a.0 == b.0 {
            assert(e.cleared().lines[a.0 as int] == first + tail_of(e.lines[a.0 as int], b.1));
        } else {
            assert(e.cleared().lines[a.0 as int] == first + tail_of(e.lines[b.0 as int], b.1));
        }
    }
}

proof fn lemma_back_stands(e: EditorView)
    requires
        e.wf(),
        e.stands(e.cursor),
    ensures
        e.backspaced().0.stands(e.backspaced().0.cursor),
        e.forward_deleted().0.stands(e.forward_deleted().0.cursor),
{
    let (l, c) = e.cursor;
    let b = e.backspaced().0;
    if c > 0 {
        assert(b.lines[l as int] == head_of(e.line(), (c - 1) as usize) + tail_of(e.line(), c));
    } else if l > 0 {
        assert(e.lines[l - 1].len() + e.lines[l as int].len() + 2 <= usize::MAX);
        assert(b.lines[l - 1] == e.lines[l - 1] + e.line());
    }
    let f = e.forward_deleted().0;
    if c < e.line().len() {
        assert(f.lines[l as int] == head_of(e.line(), c) + tail_of(e.line(), (c + 1) as usize));
    } else if l + 1 < e.lines.len() {
        assert(f.lines[l as int] == e.line() + e.lines[l + 1]);
    }
}

proof fn lemma_moved_stands(e: EditorView, key: Key)
    requires
        e.wf(),
        e.stands(e.cursor),
    ensures
        e.stands(e.moved(key)),
{
    let l = e.cursor.0 as int;
    if l > 0 {
        assert(e.lines[l - 1].len() + e.lines[l].len() + 2 <= usize::MAX);
    }
    if l + 1 < e.lines.len() {
        assert(e.lines[l + 1].len() + e.lines[l].len() + 2 <= usize::MAX);
    }
}

proof fn lemma_edited_stands(e: EditorView, key: Key)
    requires
        e.wf(),
        e.stands(e.cursor),
        e.selection matches Some(s) ==> e.stands(s.0) && e.stands(s.1),
    ensures
        e.edited(key).0.stands(e.edited(key).0.cursor),
{
    lemma_cleared_stands(e);
    match key {
        Key::Char(ch) => {
            lemma_typed_stands(e.cleared(), seq![ch]);
        },
        Key::Tab => {
            reveal_strlit("  ");
            lemma_typed_stands(e.cleared(), "  "@);
        },
        Key::Enter => {
            lemma_broken_stands(e.cleared());
        },
        Key::Backspace => {
            lemma_back_stands(e);
        },
        Key::Delete => {
            lemma_back_stands(e);
        },
        _ => {
            lemma_moved_stands(e, key);
        },
    }
}

proof fn lemma_settled_stands(
    e: EditorView,
    from: (usize, usize),
    key: Key,
    shift: bool,
    changed: bool,
)
    requires
        e.stands(e.cursor),
    ensures
        settled(e, from, key, shift, changed).stands(
            settled(e, from, key, shift, changed).cursor,
        ),
{
    let r = e.reselected(from, key, shift, changed);
    assert(r.lines == e.lines && r.cursor == e.cursor);
    let s = r.scrolled();
    assert(s.lines == e.lines && s.cursor == e.cursor);
}

/// After any key the cursor is in the text, where it and what was selected were.
pub proof fn law_cursor_stays_in_text(e: EditorView, key: Key, held: Held)
    requires
        e.wf(),
        e.stands(e.cursor),
        e.selection matches Some(s) ==> e.stands(s.0) && e.stands(s.1),
    ensures
        key_pressed(e, key, held).0.stands(key_pressed(e, key, held).0.cursor),
{
    let command = held.control || held.command;
    if command && key == Key::Char('f') {
        let (f, changed) = e.formatted("Formatted"@);
        lemma_settled_stands(f, e.cursor, key, held.shift, changed);
    } else if command && key == Key::Char('a') {
        let last = (e.lines.len() - 1) as int;
        assert(e.lines[last].len() + e.lines[last].len() + 2 <= usize::MAX);
    } else {
        lemma_edited_stands(e, key);
        let (after, changed) = e.edited(key);
        lemma_settled_stands(after, e.cursor, key, held.shift, changed);
    }
}

/// Typing a character and taking it back leaves the text as it was.
pub proof fn law_type_and_take_back(e: EditorView, ch: char)
    requires
        e.wf(),
        e.selection is None,
        e.cursor.1 <= e.line().len(),
    ensures
        e.edited(Key::Char(ch)).0.edited(Key::Backspace).0 == e,
{
    let c = e.cursor.1;
    let line = e.line();
    let typed = e.typed(seq![ch]);
    let long = head_of(line, c) + seq![ch] + tail_of(line, c);
    assert(typed.line() =~= long);
    assert(head_of(long, c) =~= line.take(c as int));
    assert(tail_of(long, (c + 1) as usize) =~= line.skip(c as int));
    assert(line.take(c as int) + line.skip(c as int) =~= line);
    let back = typed.backspaced().0;
    assert(back.lines =~= e.lines);
}

/// Breaking a line and taking the break back leaves the text as it was, where the
/// line is not indented and no bracket is open.
pub proof fn law_break_and_join(e: EditorView)
    requires
        e.wf(),
        e.cursor.1 <= e.line().len(),
        indent_of(e.line()) == 0,
        !ends_open(head_of(e.line(), e.cursor.1), '{'),
        !ends_open(head_of(e.line(), e.cursor.1), '['),
    ensures
        e.broken().backspaced().0.lines == e.lines,
        e.broken().backspaced().0.cursor == e.cursor,
{
    let l = e.cursor.0 as int;
    let line = e.line();
    let before = head_of(line, e.cursor.1);
    let after = tail_of(line, e.cursor.1);
    let broken = e.broken();
    assert(repeated(" "@, 0) =~= Seq::empty());
    assert(Seq::<char>::empty() + after =~= after);
    assert(broken.lines[l] == before);
    assert(broken.lines[l + 1] =~= after);
    assert(before + after =~= line);
    assert(broken.backspaced().0.lines =~= e.lines);
}

} // verus!
