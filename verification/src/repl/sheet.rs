//! Lines of text in colours, as they are shown.

use crate::text::texts;
use vstd::prelude::*;

verus! {

/// What a piece of text is shown as.
#[derive(Clone, Copy, Debug, PartialEq, Eq, Structural)]
pub enum Tone {
    Plain,
    Text,
    StrongText,
    Active,
    StrongActive,
    Inactive,
    Key,
    Value,
    Grid,
    Fault,
    Dim,
    Add,
    Remove,
    Primary,
    StrongPrimary,
    Frame,
    Heading,
    StrongHeading,
    Badge,
    Guide,
    TableName,
    Sum,
    Selected,
    SelectedOnLine,
    Cursor,
    CursorBlank,
    CursorLine,
    Striped,
    Success,
    Failure,
    FooterOn,
    FooterOff,
    FooterText,
    FooterDim,
}

/// A piece of text.
pub struct Piece {
    pub text: String,
    pub tone: Tone,
}

/// What a piece stands for.
pub type PieceView = (Seq<char>, Tone);

impl View for Piece {
    type V = PieceView;

    open spec fn view(&self) -> PieceView {
        (self.text@, self.tone)
    }
}

/// What a line stands for.
pub open spec fn line_view(line: Seq<Piece>) -> Seq<PieceView> {
    line.map_values(|p: Piece| p@)
}

/// A piece of text.
pub fn piece(text: &str, tone: Tone) -> (r: Piece)
    ensures
        r@ == (text@, tone),
{
    Piece { text: text.to_owned(), tone }
}

/// A line.
pub struct Line {
    pub pieces: Vec<Piece>,
}

impl View for Line {
    type V = Seq<PieceView>;

    open spec fn view(&self) -> Seq<PieceView> {
        line_view(self.pieces@)
    }
}

impl Line {
    /// A line without a piece.
    pub fn new() -> (r: Line)
        ensures
            r@ == Seq::<PieceView>::empty(),
    {
        let r = Line { pieces: Vec::new() };
        assert(r@ =~= Seq::empty());
        r
    }

    /// Adds a piece.
    pub fn put(&mut self, text: &str, tone: Tone)
        ensures
            final(self)@ == old(self)@.push((text@, tone)),
    {
        let p = piece(text, tone);
        self.pieces.push(p);
        assert(self@ =~= old(self)@.push((text@, tone)));
    }
}

/// Lines.
pub struct Sheet {
    pub lines: Vec<Line>,
}

/// What lines stand for.
pub type SheetView = Seq<Seq<PieceView>>;

impl View for Sheet {
    type V = SheetView;

    open spec fn view(&self) -> SheetView {
        self.lines@.map_values(|l: Line| l@)
    }
}

impl Sheet {
    /// No line.
    pub fn new() -> (r: Sheet)
        ensures
            r@ == SheetView::empty(),
    {
        let r = Sheet { lines: Vec::new() };
        assert(r@ =~= SheetView::empty());
        r
    }

    /// Adds a line.
    pub fn add_line(&mut self, line: Line)
        ensures
            final(self)@ == old(self)@.push(line@),
    {
        self.lines.push(line);
        assert(self@ =~= old(self)@.push(line@));
    }

    /// Adds a line of one piece.
    pub fn add1(&mut self, text: &str, tone: Tone)
        ensures
            final(self)@ == old(self)@.push(seq![(text@, tone)]),
    {
        let mut line = Line::new();
        line.put(text, tone);
        assert(line@ =~= seq![(text@, tone)]);
        self.add_line(line);
    }

    /// Adds a line of two pieces.
    pub fn add2(&mut self, a: &str, a_tone: Tone, b: &str, b_tone: Tone)
        ensures
            final(self)@ == old(self)@.push(seq![(a@, a_tone), (b@, b_tone)]),
    {
        let mut line = Line::new();
        line.put(a, a_tone);
        line.put(b, b_tone);
        assert(line@ =~= seq![(a@, a_tone), (b@, b_tone)]);
        self.add_line(line);
    }

    /// Adds a line of three pieces.
    pub fn add3(&mut self, a: &str, a_tone: Tone, b: &str, b_tone: Tone, c: &str, c_tone: Tone)
        ensures
            final(self)@ == old(self)@.push(seq![(a@, a_tone), (b@, b_tone), (c@, c_tone)]),
    {
        let mut line = Line::new();
        line.put(a, a_tone);
        line.put(b, b_tone);
        line.put(c, c_tone);
        assert(line@ =~= seq![(a@, a_tone), (b@, b_tone), (c@, c_tone)]);
        self.add_line(line);
    }

    /// Adds the lines of another sheet.
    pub fn add_sheet(&mut self, other: Sheet)
        ensures
            final(self)@ == old(self)@ + other@,
    {
        let ghost before = self@;
        let ghost more = other@;
        let mut rest = other.lines;
        self.lines.append(&mut rest);
        assert(self@ =~= before + more);
    }
}

/// A line that can be chosen: a mark, filled where it is, and the text.
pub open spec fn choice(text: Seq<char>, chosen: bool) -> Seq<PieceView> {
    if chosen {
        seq![("◉"@, Tone::Active), (" "@ + text, Tone::Plain)]
    } else {
        seq![("○"@, Tone::Plain), (" "@ + text, Tone::Plain)]
    }
}

/// The lines for options of which those of a list are chosen.
pub open spec fn choices(options: Seq<Seq<char>>, chosen: Seq<Seq<char>>) -> SheetView {
    options.map_values(|s: Seq<char>| choice(s, chosen.contains(s)))
}

impl Sheet {
    /// Adds a line that can be chosen.
    pub fn add_choice(&mut self, text: &str, chosen: bool)
        ensures
            final(self)@ == old(self)@.push(choice(text@, chosen)),
    {
        let shown = crate::phrase::cat2(" ", text);
        if chosen {
            self.add2("◉", Tone::Active, shown.as_str(), Tone::Plain);
        } else {
            self.add2("○", Tone::Plain, shown.as_str(), Tone::Plain);
        }
    }

    /// Adds a line for each option; those of a list are chosen.
    pub fn add_choices(&mut self, options: &[String], chosen: &[String])
        ensures
            final(self)@ == old(self)@ + choices(texts(options@), texts(chosen@)),
    {
        let ghost before = self@;
        let ghost all = choices(texts(options@), texts(chosen@));
        let mut i: usize = 0;
        assert(before + all.take(0) =~= before);
        while i < options.len()
            invariant
                i <= options@.len(),
                all == choices(texts(options@), texts(chosen@)),
                all.len() == options@.len(),
                self@ == before + all.take(i as int),
            decreases options@.len() - i,
        {
            let is_chosen = crate::text_sort::has_text(chosen, options[i].as_str());
            assert(texts(options@)[i as int] == options@[i as int]@);
            self.add_choice(options[i].as_str(), is_chosen);
            assert(all.take(i + 1) =~= all.take(i as int).push(all[i as int]));
            assert(self@ =~= before + all.take(i + 1));
            i = i + 1;
        }
        assert(all.take(i as int) =~= all);
    }
}

} // verus!
