//! The console: a catalogue, an editor and the results of a query, side by side.

use crate::repl::catalog::{
    catalog_lines, law_toggle_keeps_tops, law_toggle_twice, lemma_line_count, lines_of_tree, toggle_catalog_node,
    tops_fit, tree_toggled, tree_view, CatalogNode, CatalogNodeType, NodeView,
};
use crate::repl::editor::{
    key_pressed, ActionView, Editor, EditorAction, EditorView,
};
use crate::repl::keys::{Held, Key};
use crate::text::{chars_of, decimal, decimal_spec, lemma_decimal_length, texts};
use vstd::prelude::*;

verus! {

/// A part of the console.
#[derive(Clone, Copy, Debug, PartialEq, Eq, Structural)]
pub enum BitticePanel {
    Catalog,
    Editor,
    Results,
}

/// A rectangle of the screen.
#[derive(Clone, Copy, Debug, PartialEq, Eq, Structural)]
pub struct Area {
    pub x: u16,
    pub y: u16,
    pub width: u16,
    pub height: u16,
}

impl Area {
    /// Whether a cell of the screen lies in the area.
    pub open spec fn has(self, x: u16, y: u16) -> bool {
        self.x <= x < self.x + self.width && self.y <= y < self.y + self.height
    }

    /// Whether a cell of the screen lies in the area.
    pub fn contains(&self, x: u16, y: u16) -> (r: bool)
        ensures
            r == self.has(x, y),
    {
        x >= self.x && (x as u32) < self.x as u32 + self.width as u32 && y >= self.y && (y as u32)
            < self.y as u32 + self.height as u32
    }

    /// How many lines are shown, apart from what surrounds them.
    pub open spec fn lines_but(self, around: u16) -> int {
        if self.height >= around {
            self.height - around
        } else {
            0
        }
    }

    fn lines_within(&self, around: u16) -> (r: usize)
        ensures
            r == self.lines_but(around),
    {
        if self.height >= around {
            (self.height - around) as usize
        } else {
            0
        }
    }
}

/// Where the parts of the console are.
#[derive(Clone, Copy, Debug)]
pub struct ConsoleAreas {
    pub catalog: Area,
    pub editor: Area,
    pub results: Area,
}

/// What the console holds.
pub struct Console {
    pub focused: BitticePanel,
    pub catalog_nodes: Vec<CatalogNode>,
    /// The lines of the catalogue.
    pub catalog_data: Vec<String>,
    pub catalog_selected: Option<usize>,
    pub catalog_scroll: usize,
    pub editor: Editor,
    pub editor_scroll_x: usize,
    pub is_selecting: bool,
    /// How many rows the last query gave, if one was run.
    pub result_rows: Option<usize>,
    pub results_scroll: u16,
}

/// What a `Console` stands for.
#[verifier::ext_equal]
pub struct ConsoleView {
    pub focused: BitticePanel,
    pub nodes: Seq<NodeView>,
    pub lines: Seq<Seq<char>>,
    pub selected: Option<usize>,
    pub scroll: usize,
    pub editor: EditorView,
    pub scroll_x: usize,
    pub selecting: bool,
    pub rows: Option<usize>,
    pub results_scroll: u16,
}

impl View for Console {
    type V = ConsoleView;

    open spec fn view(&self) -> ConsoleView {
        ConsoleView {
            focused: self.focused,
            nodes: tree_view(self.catalog_nodes@),
            lines: texts(self.catalog_data@),
            selected: self.catalog_selected,
            scroll: self.catalog_scroll,
            editor: self.editor@,
            scroll_x: self.editor_scroll_x,
            selecting: self.is_selecting,
            rows: self.result_rows,
            results_scroll: self.results_scroll,
        }
    }
}

/// What happens at the console.
pub enum ConsoleEvent {
    /// A text was pasted into the terminal.
    Paste(String),
    MouseDown { x: u16, y: u16 },
    MouseDrag { x: u16, y: u16 },
    MouseUp,
    ScrollUp { x: u16, y: u16 },
    ScrollDown { x: u16, y: u16 },
    KeyPress { key: Key, held: Held },
}

/// What is to be done then.
#[derive(Debug)]
pub enum ConsoleAction {
    Nothing,
    Quit,
    /// Read the catalogue again.
    Reload,
    Run,
    Copy(String),
    Paste,
}

/// What an action stands for.
pub enum ConsoleActionView {
    Nothing,
    Quit,
    Reload,
    Run,
    Copy(Seq<char>),
    Paste,
}

impl View for ConsoleAction {
    type V = ConsoleActionView;

    open spec fn view(&self) -> ConsoleActionView {
        match self {
            ConsoleAction::Nothing => ConsoleActionView::Nothing,
            ConsoleAction::Quit => ConsoleActionView::Quit,
            ConsoleAction::Reload => ConsoleActionView::Reload,
            ConsoleAction::Run => ConsoleActionView::Run,
            ConsoleAction::Copy(s) => ConsoleActionView::Copy(s@),
            ConsoleAction::Paste => ConsoleActionView::Paste,
        }
    }
}

/// The number less another, none below zero.
pub open spec fn less(a: int, b: int) -> int {
    if a >= b {
        a - b
    } else {
        0
    }
}

/// The smaller of two numbers.
pub open spec fn least(a: int, b: int) -> int {
    if a <= b {
        a
    } else {
        b
    }
}

impl ConsoleView {
    /// Whether the lines are those of the catalogue.
    pub open spec fn wf(self) -> bool {
        &&& tops_fit(self.nodes)
        &&& self.lines == lines_of_tree(self.nodes)
        &&& self.lines.len() <= usize::MAX
    }

    /// Whether the editor can take what happens.
    pub open spec fn room(self, event: ConsoleEvent) -> bool {
        &&& self.editor.wf()
        &&& event matches ConsoleEvent::Paste(text) ==> self.editor.takes(text@)
    }

    /// The console with the node on a line opened or closed.
    pub open spec fn toggled(self, line: int) -> ConsoleView {
        if 0 <= line < self.lines.len() {
            let nodes = tree_toggled(self.nodes, line);
            ConsoleView { nodes, lines: lines_of_tree(nodes), ..self }
        } else {
            self
        }
    }

    /// The width of the numbers of the editor's lines.
    pub open spec fn gutter(self) -> int {
        decimal_spec(self.editor.lines.len()).len() as int + 2
    }

    /// The console after a press of the mouse: the part under it is focused; a line of
    /// the catalogue is selected and opened or closed; in the editor the cursor goes
    /// there and a selection begins.
    pub open spec fn mouse_down(self, areas: ConsoleAreas, x: u16, y: u16) -> ConsoleView {
        if areas.catalog.has(x, y) {
            let line = less(y as int, areas.catalog.y + 1) + self.scroll;
            let c = ConsoleView { focused: BitticePanel::Catalog, ..self };
            if line < self.lines.len() {
                ConsoleView { selected: Some(line as usize), ..c }.toggled(line)
            } else {
                c
            }
        } else if areas.editor.has(x, y) {
            let l = least(
                less(y as int, areas.editor.y + 1) + self.editor.scroll,
                self.editor.lines.len() - 1,
            );
            let c = least(
                less(x as int, areas.editor.x + 1 + self.gutter()) + self.scroll_x,
                self.editor.lines[l].len() as int,
            );
            let spot = (l as usize, c as usize);
            ConsoleView {
                focused: BitticePanel::Editor,
                editor: EditorView {
                    cursor: spot,
                    selection: Some((spot, spot)),
                    ..self.editor
                }.scrolled(),
                selecting: true,
                ..self
            }
        } else if areas.results.has(x, y) {
            ConsoleView { focused: BitticePanel::Results, ..self }
        } else {
            self
        }
    }

    /// A number of a line or a character as it is taken while dragging: one before the
    /// first counts as behind the last.
    pub open spec fn dragged_to(n: int, last: int) -> int {
        if n < 0 || n > last {
            last
        } else {
            n
        }
    }

    /// The console while the mouse is dragged: the editor scrolls at its edges, and the
    /// selection reaches to the cursor.
    pub open spec fn mouse_drag(self, areas: ConsoleAreas, x: u16, y: u16) -> ConsoleView {
        if self.focused == BitticePanel::Editor && self.selecting {
            let a = areas.editor;
            let scroll = if y <= a.y {
                less(self.editor.scroll as int, 1)
            } else if y >= a.y + a.height - 1 {
                least(
                    self.editor.scroll + 1,
                    less(self.editor.lines.len() as int, a.lines_but(2)),
                )
            } else {
                self.editor.scroll as int
            };
            let l = Self::dragged_to(y - (a.y + 1) + scroll, self.editor.lines.len() - 1);
            let c = Self::dragged_to(
                x - (a.x + 1 + self.gutter()) + self.scroll_x,
                self.editor.lines[l].len() as int,
            );
            let spot = (l as usize, c as usize);
            ConsoleView {
                editor: EditorView {
                    scroll: scroll as usize,
                    cursor: spot,
                    selection: match self.editor.selection {
                        Some(s) => Some((s.0, spot)),
                        None => None,
                    },
                    ..self.editor
                },
                ..self
            }
        } else {
            self
        }
    }

    /// The console when the mouse is let go: an empty selection is none.
    pub open spec fn mouse_up(self) -> ConsoleView {
        ConsoleView {
            selecting: false,
            editor: EditorView {
                selection: match self.editor.selection {
                    Some(s) => if s.0 == s.1 {
                        None
                    } else {
                        Some(s)
                    },
                    None => None,
                },
                ..self.editor
            },
            ..self
        }
    }

    /// The console scrolled up by three lines where the mouse is.
    pub open spec fn scrolled_up(self, areas: ConsoleAreas, x: u16, y: u16) -> ConsoleView {
        match self.focused {
            BitticePanel::Catalog => if areas.catalog.has(x, y) {
                let s = less(self.scroll as int, 3) as usize;
                ConsoleView { scroll: s, selected: Some(s), ..self }
            } else {
                self
            },
            BitticePanel::Editor => if areas.editor.has(x, y) {
                ConsoleView {
                    editor: EditorView {
                        scroll: less(self.editor.scroll as int, 3) as usize,
                        ..self.editor
                    },
                    ..self
                }
            } else {
                self
            },
            BitticePanel::Results => if areas.results.has(x, y) {
                ConsoleView {
                    results_scroll: less(self.results_scroll as int, 3) as u16,
                    ..self
                }
            } else {
                self
            },
        }
    }

    /// The results scrolled down by some lines, not further than the last rows.
    pub open spec fn results_down(self, areas: ConsoleAreas, by: int) -> ConsoleView {
        match self.rows {
            Some(n) => {
                let most = less(n as int, areas.results.lines_but(4)) % 0x1_0000;
                ConsoleView {
                    results_scroll: least(self.results_scroll + by, most) as u16,
                    ..self
                }
            },
            None => self,
        }
    }

    /// The console scrolled down by three lines where the mouse is.
    pub open spec fn scrolled_down(self, areas: ConsoleAreas, x: u16, y: u16) -> ConsoleView {
        match self.focused {
            BitticePanel::Catalog => if areas.catalog.has(x, y) {
                let most = less(self.lines.len() as int, areas.catalog.lines_but(2));
                if self.scroll < most {
                    let s = least(self.scroll + 3, most) as usize;
                    ConsoleView { scroll: s, selected: Some(s), ..self }
                } else {
                    self
                }
            } else {
                self
            },
            BitticePanel::Editor => if areas.editor.has(x, y) {
                let most = less(self.editor.lines.len() as int, areas.editor.lines_but(2));
                if self.editor.scroll < most {
                    ConsoleView {
                        editor: EditorView {
                            scroll: least(self.editor.scroll + 3, most) as usize,
                            ..self.editor
                        },
                        ..self
                    }
                } else {
                    self
                }
            } else {
                self
            },
            BitticePanel::Results => if areas.results.has(x, y) {
                self.results_down(areas, 3)
            } else {
                self
            },
        }
    }

    /// The console after a key in the catalogue.
    pub open spec fn catalog_key(self, areas: ConsoleAreas, key: Key) -> (
        ConsoleView,
        ConsoleActionView,
    ) {
        match key {
            Key::Esc => (self, ConsoleActionView::Quit),
            Key::Char('q') => (self, ConsoleActionView::Quit),
            Key::Char('r') => (self, ConsoleActionView::Reload),
            Key::Up => {
                let i = match self.selected {
                    Some(i) => less(i as int, 1),
                    None => 0,
                };
                (
                    ConsoleView {
                        selected: Some(i as usize),
                        scroll: if i < self.scroll {
                            i as usize
                        } else {
                            self.scroll
                        },
                        ..self
                    },
                    ConsoleActionView::Nothing,
                )
            },
            Key::Down => {
                let i = match self.selected {
                    Some(i) => least(i + 1, less(self.lines.len() as int, 1)),
                    None => 0,
                };
                let shown = areas.catalog.lines_but(2);
                (
                    ConsoleView {
                        selected: Some(i as usize),
                        scroll: if shown == 0 {
                            if i >= self.scroll {
                                0
                            } else {
                                self.scroll
                            }
                        } else if i >= self.scroll + shown {
                            (i - shown + 1) as usize
                        } else {
                            self.scroll
                        },
                        ..self
                    },
                    ConsoleActionView::Nothing,
                )
            },
            Key::Enter => (
                match self.selected {
                    Some(i) => self.toggled(i as int),
                    None => self,
                },
                ConsoleActionView::Nothing,
            ),
            Key::Tab => (
                ConsoleView { focused: BitticePanel::Editor, ..self },
                ConsoleActionView::Nothing,
            ),
            _ => (self, ConsoleActionView::Nothing),
        }
    }

    /// The console after a key in the editor.
    pub open spec fn editor_key(self, key: Key, held: Held) -> (ConsoleView, ConsoleActionView) {
        if key == Key::Esc {
            (
                ConsoleView { focused: BitticePanel::Catalog, ..self },
                ConsoleActionView::Nothing,
            )
        } else {
            let (editor, action) = key_pressed(self.editor, key, held);
            (
                ConsoleView { editor, ..self },
                match action {
                    ActionView::Nothing => ConsoleActionView::Nothing,
                    ActionView::Run => ConsoleActionView::Run,
                    ActionView::Copy(s) => ConsoleActionView::Copy(s),
                    ActionView::Paste => ConsoleActionView::Paste,
                },
            )
        }
    }

    /// The console after a key in the results.
    pub open spec fn results_key(self, areas: ConsoleAreas, key: Key) -> (
        ConsoleView,
        ConsoleActionView,
    ) {
        match key {
            Key::Esc => (self, ConsoleActionView::Quit),
            Key::Char('q') => (self, ConsoleActionView::Quit),
            Key::Up => (
                ConsoleView { results_scroll: less(self.results_scroll as int, 1) as u16, ..self },
                ConsoleActionView::Nothing,
            ),
            Key::Down => (self.results_down(areas, 1), ConsoleActionView::Nothing),
            Key::Tab => (
                ConsoleView { focused: BitticePanel::Catalog, ..self },
                ConsoleActionView::Nothing,
            ),
            _ => (self, ConsoleActionView::Nothing),
        }
    }

    /// The console after something happened, and what is to be done.
    pub open spec fn after(self, areas: ConsoleAreas, event: ConsoleEvent) -> (
        ConsoleView,
        ConsoleActionView,
    ) {
        match event {
            ConsoleEvent::Paste(text) => (
                if self.focused == BitticePanel::Editor {
                    ConsoleView { editor: self.editor.pasted(text@), ..self }
                } else {
                    self
                },
                ConsoleActionView::Nothing,
            ),
            ConsoleEvent::MouseDown { x, y } => (
                self.mouse_down(areas, x, y),
                ConsoleActionView::Nothing,
            ),
            ConsoleEvent::MouseDrag { x, y } => (
                self.mouse_drag(areas, x, y),
                ConsoleActionView::Nothing,
            ),
            ConsoleEvent::MouseUp => (self.mouse_up(), ConsoleActionView::Nothing),
            ConsoleEvent::ScrollUp { x, y } => (
                self.scrolled_up(areas, x, y),
                ConsoleActionView::Nothing,
            ),
            ConsoleEvent::ScrollDown { x, y } => (
                self.scrolled_down(areas, x, y),
                ConsoleActionView::Nothing,
            ),
            ConsoleEvent::KeyPress { key, held } => match self.focused {
                BitticePanel::Editor => self.editor_key(key, held),
                BitticePanel::Catalog => self.catalog_key(areas, key),
                BitticePanel::Results => self.results_key(areas, key),
            },
        }
    }
}

/// The number less another, none below zero.
fn minus(a: usize, b: usize) -> (r: usize)
    ensures
        r == less(a as int, b as int),
{
    if a >= b {
        a - b
    } else {
        0
    }
}

fn dragged(n: i128, last: usize) -> (r: usize)
    ensures
        r == ConsoleView::dragged_to(n as int, last as int),
{
    if n < 0 || n > last as i128 {
        last
    } else {
        n as usize
    }
}

impl Console {
    /// Opens or closes the node on a line of the catalogue.
    fn toggle(&mut self, line: usize)
        requires
            old(self)@.wf(),
        ensures
            final(self)@ == old(self)@.toggled(line as int),
            final(self)@.wf(),
    {
        let ghost start = self@;
        let mut current: usize = 0;
        proof {
            lemma_line_count(start.nodes, start.nodes.len(), Seq::empty());
            assert(start.nodes.take(start.nodes.len() as int) =~= start.nodes);
            law_toggle_keeps_tops(start.nodes, line as int);
        }
        if toggle_catalog_node(&mut self.catalog_nodes, line, &mut current) {
            assert(tree_view(self.catalog_nodes@) == tree_toggled(start.nodes, line as int));
            assert(tops_fit(tree_view(self.catalog_nodes@))) by {
                assert forall|i: int| 0 <= i < start.nodes.len() implies (
                #[trigger] tree_toggled(start.nodes, line as int)[i]).node_type
                    != CatalogNodeType::Field by {
                    assert(start.nodes[i].node_type
                        != CatalogNodeType::Field);
                }
            }
            self.catalog_data = catalog_lines(&self.catalog_nodes);
            assert(texts(self.catalog_data@).len() == self.catalog_data.len());
        }
        assert(self@ =~= start.toggled(line as int));
    }

    /// The width of the numbers of the editor's lines.
    fn gutter_width(&self) -> (r: usize)
        requires
            self@.editor.lines.len() <= usize::MAX,
        ensures
            r == self@.gutter(),
            r <= 100,
    {
        let s = decimal(self.editor.lines.len() as u64);
        let n = chars_of(s.as_str()).len();
        assert(self.editor.lines@.len() == self@.editor.lines.len());
        proof {
            lemma_decimal_length(self.editor.lines@.len() as u64);
        }
        n + 2
    }

    fn mouse_down(&mut self, areas: &ConsoleAreas, x: u16, y: u16)
        requires
            old(self)@.wf(),
            old(self)@.editor.wf(),
        ensures
            final(self)@ == old(self)@.mouse_down(*areas, x, y),
            final(self)@.wf(),
    {
        let ghost start = self@;
        if areas.catalog.contains(x, y) {
            self.focused = BitticePanel::Catalog;
            let line: u128 = minus(y as usize, areas.catalog.y as usize + 1) as u128
                + self.catalog_scroll as u128;
            assert(texts(self.catalog_data@).len() == self.catalog_data@.len());
            if line < self.catalog_data.len() as u128 {
                self.catalog_selected = Some(line as usize);
                self.toggle(line as usize);
            }
        } else if areas.editor.contains(x, y) {
            self.focused = BitticePanel::Editor;
            assert(texts(self.editor.lines@).len() == self.editor.lines@.len());
            let line: u128 = minus(y as usize, areas.editor.y as usize + 1) as u128
                + self.editor.scroll as u128;
            let last: usize = self.editor.lines.len() - 1;
            let l: usize = if line <= last as u128 {
                line as usize
            } else {
                last
            };
            let gutter: usize = self.gutter_width();
            let column: u128 = minus(x as usize, areas.editor.x as usize + 1 + gutter) as u128
                + self.editor_scroll_x as u128;
            let width: usize = chars_of(self.editor.lines[l].as_str()).len();
            let c: usize = if column <= width as u128 {
                column as usize
            } else {
                width
            };
            self.editor.cursor = (l, c);
            self.editor.selection = Some(((l, c), (l, c)));
            self.is_selecting = true;
            self.editor.sync_editor_scroll();
        } else if areas.results.contains(x, y) {
            self.focused = BitticePanel::Results;
        }
        assert(self@ =~= start.mouse_down(*areas, x, y));
    }

    fn mouse_drag(&mut self, areas: &ConsoleAreas, x: u16, y: u16)
        requires
            old(self)@.wf(),
            old(self)@.editor.wf(),
        ensures
            final(self)@ == old(self)@.mouse_drag(*areas, x, y),
            final(self)@.wf(),
    {
        let ghost start = self@;
        if self.focused == BitticePanel::Editor && self.is_selecting {
            assert(texts(self.editor.lines@).len() == self.editor.lines@.len());
            let a = areas.editor;
            if y <= a.y {
                self.editor.scroll = minus(self.editor.scroll, 1);
            } else if y as i32 >= a.y as i32 + a.height as i32 - 1 {
                let most: usize = minus(self.editor.lines.len(), a.lines_within(2));
                self.editor.scroll = if self.editor.scroll < most {
                    self.editor.scroll + 1
                } else {
                    most
                };
            }
            let gutter: usize = self.gutter_width();
            let l: usize = dragged(
                y as i128 - (a.y as i128 + 1) + self.editor.scroll as i128,
                self.editor.lines.len() - 1,
            );
            let width: usize = chars_of(self.editor.lines[l].as_str()).len();
            let c: usize = dragged(
                x as i128 - (a.x as i128 + 1 + gutter as i128) + self.editor_scroll_x as i128,
                width,
            );
            self.editor.cursor = (l, c);
            if let Some((from, _to)) = self.editor.selection {
                self.editor.selection = Some((from, (l, c)));
            }
        }
        assert(self@ =~= start.mouse_drag(*areas, x, y));
    }

    fn mouse_up(&mut self)
        requires
            old(self)@.wf(),
        ensures
            final(self)@ == old(self)@.mouse_up(),
            final(self)@.wf(),
    {
        self.is_selecting = false;
        if let Some((from, to)) = self.editor.selection {
            if from.0 == to.0 && from.1 == to.1 {
                self.editor.selection = None;
            }
        }
        assert(self@ =~= old(self)@.mouse_up());
    }

    fn scroll_up(&mut self, areas: &ConsoleAreas, x: u16, y: u16)
        requires
            old(self)@.wf(),
        ensures
            final(self)@ == old(self)@.scrolled_up(*areas, x, y),
            final(self)@.wf(),
    {
        match self.focused {
            BitticePanel::Catalog => {
                if areas.catalog.contains(x, y) {
                    self.catalog_scroll = minus(self.catalog_scroll, 3);
                    self.catalog_selected = Some(self.catalog_scroll);
                }
            },
            BitticePanel::Editor => {
                if areas.editor.contains(x, y) {
                    self.editor.scroll = minus(self.editor.scroll, 3);
                }
            },
            BitticePanel::Results => {
                if areas.results.contains(x, y) {
                    self.results_scroll = minus(self.results_scroll as usize, 3) as u16;
                }
            },
        }
        assert(self@ =~= old(self)@.scrolled_up(*areas, x, y));
    }

    fn results_down(&mut self, areas: &ConsoleAreas, by: u16)
        requires
            old(self)@.wf(),
        ensures
            final(self)@ == old(self)@.results_down(*areas, by as int),
            final(self)@.wf(),
    {
        if let Some(n) = self.result_rows {
            let most: usize = minus(n, areas.results.lines_within(4)) % 0x1_0000;
            let next: usize = self.results_scroll as usize + by as usize;
            self.results_scroll = if next <= most {
                next as u16
            } else {
                most as u16
            };
        }
        assert(self@ =~= old(self)@.results_down(*areas, by as int));
    }

    fn scroll_down(&mut self, areas: &ConsoleAreas, x: u16, y: u16)
        requires
            old(self)@.wf(),
        ensures
            final(self)@ == old(self)@.scrolled_down(*areas, x, y),
            final(self)@.wf(),
    {
        assert(texts(self.catalog_data@).len() == self.catalog_data@.len());
        assert(texts(self.editor.lines@).len() == self.editor.lines@.len());
        match self.focused {
            BitticePanel::Catalog => {
                if areas.catalog.contains(x, y) {
                    let most: usize = minus(self.catalog_data.len(), areas.catalog.lines_within(2));
                    if self.catalog_scroll < most {
                        self.catalog_scroll = if most - self.catalog_scroll > 3 {
                            self.catalog_scroll + 3
                        } else {
                            most
                        };
                        self.catalog_selected = Some(self.catalog_scroll);
                    }
                }
            },
            BitticePanel::Editor => {
                if areas.editor.contains(x, y) {
                    let most: usize = minus(self.editor.lines.len(), areas.editor.lines_within(2));
                    if self.editor.scroll < most {
                        self.editor.scroll = if most - self.editor.scroll > 3 {
                            self.editor.scroll + 3
                        } else {
                            most
                        };
                    }
                }
            },
            BitticePanel::Results => {
                if areas.results.contains(x, y) {
                    self.results_down(areas, 3);
                }
            },
        }
        assert(self@ =~= old(self)@.scrolled_down(*areas, x, y));
    }

    fn catalog_key(&mut self, areas: &ConsoleAreas, key: Key) -> (r: ConsoleAction)
        requires
            old(self)@.wf(),
        ensures
            (final(self)@, r@) == old(self)@.catalog_key(*areas, key),
            final(self)@.wf(),
    {
        let ghost start = self@;
        assert(texts(self.catalog_data@).len() == self.catalog_data@.len());
        match key {
            Key::Esc => ConsoleAction::Quit,
            Key::Char('q') => ConsoleAction::Quit,
            Key::Char('r') => ConsoleAction::Reload,
            Key::Up => {
                let i: usize = match self.catalog_selected {
                    Some(i) => minus(i, 1),
                    None => 0,
                };
                self.catalog_selected = Some(i);
                if i < self.catalog_scroll {
                    self.catalog_scroll = i;
                }
                assert(self@ =~= start.catalog_key(*areas, key).0);
                ConsoleAction::Nothing
            },
            Key::Down => {
                let last: usize = minus(self.catalog_data.len(), 1);
                let i: usize = match self.catalog_selected {
                    Some(i) => if i < last {
                        i + 1
                    } else {
                        last
                    },
                    None => 0,
                };
                self.catalog_selected = Some(i);
                let shown: usize = areas.catalog.lines_within(2);
                if i >= self.catalog_scroll && i - self.catalog_scroll >= shown {
                    self.catalog_scroll = if shown == 0 {
                        0
                    } else {
                        i - shown + 1
                    };
                }
                assert(self@ =~= start.catalog_key(*areas, key).0);
                ConsoleAction::Nothing
            },
            Key::Enter => {
                if let Some(i) = self.catalog_selected {
                    self.toggle(i);
                }
                ConsoleAction::Nothing
            },
            Key::Tab => {
                self.focused = BitticePanel::Editor;
                ConsoleAction::Nothing
            },
            _ => ConsoleAction::Nothing,
        }
    }

    fn editor_key(&mut self, key: Key, held: Held) -> (r: ConsoleAction)
        requires
            old(self)@.wf(),
            old(self)@.editor.wf(),
        ensures
            (final(self)@, r@) == old(self)@.editor_key(key, held),
            final(self)@.wf(),
    {
        let ghost start = self@;
        if key == Key::Esc {
            self.focused = BitticePanel::Catalog;
            ConsoleAction::Nothing
        } else {
            let action = self.editor.handle_native_editor(key, held);
            assert(self@ =~= start.editor_key(key, held).0);
            match action {
                EditorAction::Nothing => ConsoleAction::Nothing,
                EditorAction::Run => ConsoleAction::Run,
                EditorAction::Copy(s) => ConsoleAction::Copy(s),
                EditorAction::Paste => ConsoleAction::Paste,
            }
        }
    }

    fn results_key(&mut self, areas: &ConsoleAreas, key: Key) -> (r: ConsoleAction)
        requires
            old(self)@.wf(),
        ensures
            (final(self)@, r@) == old(self)@.results_key(*areas, key),
            final(self)@.wf(),
    {
        match key {
            Key::Esc => ConsoleAction::Quit,
            Key::Char('q') => ConsoleAction::Quit,
            Key::Up => {
                self.results_scroll = minus(self.results_scroll as usize, 1) as u16;
                ConsoleAction::Nothing
            },
            Key::Down => {
                self.results_down(areas, 1);
                ConsoleAction::Nothing
            },
            Key::Tab => {
                self.focused = BitticePanel::Catalog;
                ConsoleAction::Nothing
            },
            _ => ConsoleAction::Nothing,
        }
    }

    /// Takes in what happened at the console, and tells what is to be done. A
    /// catalogue that was read again goes to `show_catalog`.
    pub fn handle_bittice_input(&mut self, areas: &ConsoleAreas, event: ConsoleEvent) -> (r:
        ConsoleAction)
        requires
            old(self)@.wf(),
            old(self)@.room(event),
        ensures
            (final(self)@, r@) == old(self)@.after(*areas, event),
            final(self)@.wf(),
    {
        let ghost start = self@;
        match event {
            ConsoleEvent::Paste(text) => {
                if self.focused == BitticePanel::Editor {
                    self.editor.paste_and_format(text.as_str());
                }
                assert(self@ =~= start.after(*areas, event).0);
                ConsoleAction::Nothing
            },
            ConsoleEvent::MouseDown { x, y } => {
                self.mouse_down(areas, x, y);
                ConsoleAction::Nothing
            },
            ConsoleEvent::MouseDrag { x, y } => {
                self.mouse_drag(areas, x, y);
                ConsoleAction::Nothing
            },
            ConsoleEvent::MouseUp => {
                self.mouse_up();
                ConsoleAction::Nothing
            },
            ConsoleEvent::ScrollUp { x, y } => {
                self.scroll_up(areas, x, y);
                ConsoleAction::Nothing
            },
            ConsoleEvent::ScrollDown { x, y } => {
                self.scroll_down(areas, x, y);
                ConsoleAction::Nothing
            },
            ConsoleEvent::KeyPress { key, held } => match self.focused {
                BitticePanel::Editor => self.editor_key(key, held),
                BitticePanel::Catalog => self.catalog_key(areas, key),
                BitticePanel::Results => self.results_key(areas, key),
            },
        }
    }

    /// Shows a catalogue that was read.
    pub fn show_catalog(&mut self, nodes: Vec<CatalogNode>)
        requires
            tops_fit(tree_view(nodes@)),
        ensures
            final(self)@ == (ConsoleView {
                nodes: tree_view(nodes@),
                lines: lines_of_tree(tree_view(nodes@)),
                ..old(self)@
            }),
            final(self)@.wf(),
    {
        self.catalog_data = catalog_lines(&nodes);
        self.catalog_nodes = nodes;
        assert(texts(self.catalog_data@).len() == self.catalog_data.len());
        assert(self@ =~= (ConsoleView {
            nodes: tree_view(nodes@),
            lines: lines_of_tree(tree_view(nodes@)),
            ..old(self)@
        }));
    }
}

/// Pressing the mouse twice on one line of the catalogue leaves the tree as it was,
/// where the line is in sight.
pub proof fn law_click_twice(c: ConsoleView, areas: ConsoleAreas, x: u16, y: u16)
    requires
        c.wf(),
        areas.catalog.has(x, y),
        y > areas.catalog.y,
    ensures
        c.mouse_down(areas, x, y).mouse_down(areas, x, y).nodes == c.nodes,
        c.mouse_down(areas, x, y).mouse_down(areas, x, y).lines == c.lines,
{
    let line = less(y as int, areas.catalog.y + 1) + c.scroll;
    lemma_line_count(c.nodes, c.nodes.len(), Seq::empty());
    assert(c.nodes.take(c.nodes.len() as int) =~= c.nodes);
    if line < c.lines.len() {
        let once = tree_toggled(c.nodes, line);
        law_toggle_twice(c.nodes, line);
        lemma_line_count(once, once.len(), Seq::empty());
        assert(once.take(once.len() as int) =~= once);
    }
}

} // verus!
