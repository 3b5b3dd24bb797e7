//! The form by which a file is loaded: its path, and the entity and the table that
//! it goes to.

use crate::phrase::{before_last, cat2, ends_in, ends_with_char, with_char, without_last};
use crate::repl::keys::Key;
use crate::repl::lists::{next_index, next_of, previous_index, previous_of};
use crate::text::{
    chars_of, ends_with_text, occurs_at, starts_with_text, text_between, texts,
};
use crate::text_sort::{sort_texts, sorted_texts};
use vstd::prelude::*;

verus! {

/// What is asked for.
#[derive(Clone, Copy, Debug, PartialEq, Eq, Structural)]
pub enum LoadStep {
    InputPath,
    InputEntity,
    InputTable,
    Processing,
    Done,
}

/// What the form holds.
pub struct LoadForm {
    pub input_buffer: String,
    pub load_step: LoadStep,
    pub ndjson_path: String,
    pub entity_name: String,
    pub table_name: String,
    pub suggestions: Vec<String>,
    pub suggestion_index: Option<usize>,
}

/// What a `LoadForm` stands for.
#[verifier::ext_equal]
pub struct LoadView {
    pub input: Seq<char>,
    pub step: LoadStep,
    pub path: Seq<char>,
    pub entity: Seq<char>,
    pub table: Seq<char>,
    pub suggestions: Seq<Seq<char>>,
    pub index: Option<usize>,
}

impl View for LoadForm {
    type V = LoadView;

    open spec fn view(&self) -> LoadView {
        LoadView {
            input: self.input_buffer@,
            step: self.load_step,
            path: self.ndjson_path@,
            entity: self.entity_name@,
            table: self.table_name@,
            suggestions: texts(self.suggestions@),
            index: self.suggestion_index,
        }
    }
}

/// What is to be done after a key.
#[derive(Clone, Copy, Debug, PartialEq, Eq, Structural)]
pub enum LoadAction {
    Nothing,
    /// Offer paths that go on from what is typed.
    Suggest,
    /// Go back to the menu.
    Leave,
}

impl LoadView {
    /// An empty form.
    pub open spec fn blank() -> LoadView {
        LoadView {
            input: Seq::empty(),
            step: LoadStep::InputPath,
            path: Seq::empty(),
            entity: Seq::empty(),
            table: Seq::empty(),
            suggestions: Seq::empty(),
            index: None,
        }
    }

    /// The suggestion that is selected.
    pub open spec fn suggested(self) -> Option<Seq<char>> {
        match self.index {
            Some(i) => if i < self.suggestions.len() {
                Some(self.suggestions[i as int])
            } else {
                None
            },
            None => None,
        }
    }

    /// The form with a path, asking for the entity.
    pub open spec fn with_path(self, path: Seq<char>) -> LoadView {
        LoadView {
            path,
            input: Seq::empty(),
            suggestions: Seq::empty(),
            index: None,
            step: LoadStep::InputEntity,
            ..self
        }
    }

    /// The name of the file, or another name where it has none.
    pub open spec fn name_or(stem: Option<Seq<char>>, other: Seq<char>) -> Seq<char> {
        match stem {
            Some(s) => s,
            None => other,
        }
    }

    /// The form after what was typed was accepted. Where nothing was typed, the
    /// entity and the table are named after the file.
    pub open spec fn accepted(self, stem: Option<Seq<char>>) -> LoadView {
        match self.step {
            LoadStep::InputPath => if self.input.len() > 0 {
                self.with_path(self.input)
            } else {
                self
            },
            LoadStep::InputEntity => LoadView {
                entity: if self.input.len() == 0 {
                    Self::name_or(stem, "default"@)
                } else {
                    self.input
                },
                input: Seq::empty(),
                step: LoadStep::InputTable,
                ..self
            },
            LoadStep::InputTable => LoadView {
                table: if self.input.len() == 0 {
                    Self::name_or(stem, "records"@)
                } else {
                    self.input
                },
                input: Seq::empty(),
                step: LoadStep::Processing,
                ..self
            },
            _ => self,
        }
    }

    /// The form after the enter key: a folder that is suggested is entered, a file is
    /// taken; else what was typed is accepted.
    pub open spec fn entered(self, separator: char, stem: Option<Seq<char>>) -> (
        LoadView,
        LoadAction,
    ) {
        match self.suggested() {
            Some(s) => if ends_in(s, separator) {
                (LoadView { input: s, ..self }, LoadAction::Suggest)
            } else if ".ndjson"@.is_suffix_of(s) {
                (self.with_path(s), LoadAction::Nothing)
            } else {
                (self.accepted(stem), LoadAction::Nothing)
            },
            None => (self.accepted(stem), LoadAction::Nothing),
        }
    }

    /// The form with other text typed; for a path, suggestions are asked for.
    pub open spec fn typed(self, input: Seq<char>) -> (LoadView, LoadAction) {
        (
            LoadView { input, ..self },
            if self.step == LoadStep::InputPath {
                LoadAction::Suggest
            } else {
                LoadAction::Nothing
            },
        )
    }

    /// The form after a key, and what is to be done.
    pub open spec fn after(self, key: Key, separator: char, stem: Option<Seq<char>>) -> (
        LoadView,
        LoadAction,
    ) {
        match key {
            Key::Enter => self.entered(separator, stem),
            Key::Char(c) => self.typed(self.input.push(c)),
            Key::Backspace => self.typed(before_last(self.input)),
            Key::Esc => (
                LoadView {
                    input: Seq::empty(),
                    suggestions: Seq::empty(),
                    index: None,
                    step: LoadStep::InputPath,
                    ..self
                },
                LoadAction::Leave,
            ),
            Key::Up => (self.previous_suggested(), LoadAction::Nothing),
            Key::Down => (self.next_suggested(), LoadAction::Nothing),
            Key::Tab => match self.suggested() {
                Some(s) => (
                    LoadView { input: s, ..self },
                    if ends_in(s, separator) {
                        LoadAction::Suggest
                    } else {
                        LoadAction::Nothing
                    },
                ),
                None => (self, LoadAction::Nothing),
            },
            _ => (self, LoadAction::Nothing),
        }
    }

    /// The form with the next suggestion selected.
    pub open spec fn next_suggested(self) -> LoadView {
        if self.suggestions.len() == 0 {
            self
        } else {
            LoadView { index: Some(next_of(self.index, self.suggestions.len())), ..self }
        }
    }

    /// The form with the suggestion before selected.
    pub open spec fn previous_suggested(self) -> LoadView {
        if self.suggestions.len() == 0 {
            self
        } else {
            LoadView { index: Some(previous_of(self.index, self.suggestions.len())), ..self }
        }
    }

    /// The form with suggestions, of which the first is selected.
    pub open spec fn offered(self, suggestions: Seq<Seq<char>>) -> LoadView {
        LoadView {
            suggestions,
            index: if suggestions.len() == 0 {
                None
            } else {
                Some(0)
            },
            ..self
        }
    }
}

impl LoadForm {
    /// An empty form.
    pub fn new() -> (r: LoadForm)
        ensures
            r@ == LoadView::blank(),
    {
        let r = LoadForm {
            input_buffer: String::new(),
            load_step: LoadStep::InputPath,
            ndjson_path: String::new(),
            entity_name: String::new(),
            table_name: String::new(),
            suggestions: Vec::new(),
            suggestion_index: None,
        };
        assert(r@ =~= LoadView::blank());
        r
    }

    /// Selects the next suggestion.
    pub fn suggestion_next(&mut self)
        ensures
            final(self)@ == old(self)@.next_suggested(),
    {
        assert(texts(self.suggestions@).len() == self.suggestions@.len());
        if self.suggestions.len() > 0 {
            self.suggestion_index = Some(
                next_index(self.suggestion_index, self.suggestions.len()),
            );
        }
    }

    /// Selects the suggestion before.
    pub fn suggestion_previous(&mut self)
        ensures
            final(self)@ == old(self)@.previous_suggested(),
    {
        assert(texts(self.suggestions@).len() == self.suggestions@.len());
        if self.suggestions.len() > 0 {
            self.suggestion_index = Some(
                previous_index(self.suggestion_index, self.suggestions.len()),
            );
        }
    }

    /// Takes suggestions, of which the first is selected.
    pub fn offer(&mut self, suggestions: Vec<String>)
        ensures
            final(self)@ == old(self)@.offered(texts(suggestions@)),
    {
        self.suggestion_index = if suggestions.len() == 0 {
            None
        } else {
            Some(0)
        };
        self.suggestions = suggestions;
        assert(texts(suggestions@).len() == suggestions@.len());
        assert(self@ =~= old(self)@.offered(texts(suggestions@)));
    }

    fn suggestion(&self) -> (r: Option<String>)
        ensures
            match r {
                Some(s) => self@.suggested() == Some(s@),
                None => self@.suggested() is None,
            },
    {
        assert(texts(self.suggestions@).len() == self.suggestions@.len());
        match self.suggestion_index {
            Some(i) => if i < self.suggestions.len() {
                assert(texts(self.suggestions@)[i as int] == self.suggestions@[i as int]@);
                Some(self.suggestions[i].clone())
            } else {
                None
            },
            None => None,
        }
    }

    fn take_path(&mut self, path: String)
        ensures
            final(self)@ == old(self)@.with_path(path@),
    {
        self.ndjson_path = path;
        self.input_buffer = String::new();
        self.suggestions = Vec::new();
        self.suggestion_index = None;
        self.load_step = LoadStep::InputEntity;
        assert(self@ =~= old(self)@.with_path(path@));
    }

    fn accept(&mut self, stem: Option<&str>)
        ensures
            final(self)@ == old(self)@.accepted(
                match stem {
                    Some(s) => Some(s@),
                    None => None,
                },
            ),
    {
        let ghost start = self@;
        let ghost st = match stem {
            Some(s) => Some(s@),
            None => None,
        };
        match self.load_step {
            LoadStep::InputPath => {
                if !self.input_buffer.as_str().is_empty() {
                    let path = self.input_buffer.clone();
                    self.take_path(path);
                }
            },
            LoadStep::InputEntity => {
                self.entity_name = if self.input_buffer.as_str().is_empty() {
                    match stem {
                        Some(s) => s.to_owned(),
                        None => "default".to_owned(),
                    }
                } else {
                    self.input_buffer.clone()
                };
                self.input_buffer = String::new();
                self.load_step = LoadStep::InputTable;
            },
            LoadStep::InputTable => {
                self.table_name = if self.input_buffer.as_str().is_empty() {
                    match stem {
                        Some(s) => s.to_owned(),
                        None => "records".to_owned(),
                    }
                } else {
                    self.input_buffer.clone()
                };
                self.input_buffer = String::new();
                self.load_step = LoadStep::Processing;
            },
            _ => {},
        }
        assert(self@ =~= start.accepted(st));
    }

    /// Takes in a key, with the name of the file that was chosen and the separator of
    /// paths, and tells what is to be done. Suggestions that are found go to `offer`.
    pub fn handle_load_input(&mut self, key: Key, separator: char, stem: Option<&str>) -> (r:
        LoadAction)
        ensures
            (final(self)@, r) == old(self)@.after(
                key,
                separator,
                match stem {
                    Some(s) => Some(s@),
                    None => None,
                },
            ),
    {
        let ghost start = self@;
        let ghost st = match stem {
            Some(s) => Some(s@),
            None => None,
        };
        match key {
            Key::Enter => {
                match self.suggestion() {
                    Some(s) => {
                        if ends_with_char(s.as_str(), separator) {
                            self.input_buffer = s;
                            assert(self@ =~= start.after(key, separator, st).0);
                            return LoadAction::Suggest;
                        } else if ends_with_text(s.as_str(), ".ndjson") {
                            self.take_path(s);
                            return LoadAction::Nothing;
                        }
                    },
                    None => {},
                }
                self.accept(stem);
                LoadAction::Nothing
            },
            Key::Char(c) => {
                self.input_buffer = with_char(self.input_buffer.as_str(), c);
                assert(self@ =~= start.after(key, separator, st).0);
                if self.load_step == LoadStep::InputPath {
                    LoadAction::Suggest
                } else {
                    LoadAction::Nothing
                }
            },
            Key::Backspace => {
                self.input_buffer = without_last(self.input_buffer.as_str());
                assert(self@ =~= start.after(key, separator, st).0);
                if self.load_step == LoadStep::InputPath {
                    LoadAction::Suggest
                } else {
                    LoadAction::Nothing
                }
            },
            Key::Esc => {
                self.input_buffer = String::new();
                self.suggestions = Vec::new();
                self.suggestion_index = None;
                self.load_step = LoadStep::InputPath;
                assert(self@ =~= start.after(key, separator, st).0);
                LoadAction::Leave
            },
            Key::Up => {
                self.suggestion_previous();
                LoadAction::Nothing
            },
            Key::Down => {
                self.suggestion_next();
                LoadAction::Nothing
            },
            Key::Tab => match self.suggestion() {
                Some(s) => {
                    let folder = ends_with_char(s.as_str(), separator);
                    self.input_buffer = s;
                    assert(self@ =~= start.after(key, separator, st).0);
                    if folder {
                        LoadAction::Suggest
                    } else {
                        LoadAction::Nothing
                    }
                },
                None => LoadAction::Nothing,
            },
            _ => LoadAction::Nothing,
        }
    }
}

/// What is found in a folder.
pub struct FolderEntry {
    pub name: String,
    /// The whole path.
    pub path: String,
    pub is_folder: bool,
}

/// What a `FolderEntry` stands for.
pub struct EntryView {
    pub name: Seq<char>,
    pub path: Seq<char>,
    pub is_folder: bool,
}

impl View for FolderEntry {
    type V = EntryView;

    open spec fn view(&self) -> EntryView {
        EntryView { name: self.name@, path: self.path@, is_folder: self.is_folder }
    }
}

/// What entries stand for.
pub open spec fn entry_views(v: Seq<FolderEntry>) -> Seq<EntryView> {
    v.map_values(|e: FolderEntry| e@)
}

/// What is looked for: the working folder where nothing was typed; a leading `~` is
/// the home folder, where it is known.
pub open spec fn looked_for(input: Seq<char>, home: Option<Seq<char>>) -> Seq<char> {
    let raw = if input.len() == 0 {
        "./"@
    } else {
        input
    };
    if raw.len() > 0 && raw[0] == '~' {
        match home {
            Some(h) => h + raw.skip(1),
            None => raw,
        }
    } else {
        raw
    }
}

/// What is looked for when a path was typed.
pub fn suggestion_query(input: &str, home: Option<&str>) -> (r: String)
    ensures
        r@ == looked_for(
            input@,
            match home {
                Some(h) => Some(h@),
                None => None,
            },
        ),
{
    if input.is_empty() {
        proof {
            reveal_strlit("./");
        }
        return "./".to_owned();
    }
    let cs = chars_of(input);
    if cs[0] == '~' {
        if let Some(h) = home {
            let rest = text_between(cs.as_slice(), 1, cs.len());
            assert(rest@ =~= input@.skip(1));
            return cat2(h, rest.as_str());
        }
    }
    input.to_owned()
}

/// Whether an entry is offered: a folder or a file that can be loaded, whose name
/// begins as it was typed and is not hidden.
pub open spec fn is_offered(e: EntryView, prefix: Seq<char>) -> bool {
    &&& prefix.is_prefix_of(e.name)
    &&& !(e.name.len() > 0 && e.name[0] == '.')
    &&& e.is_folder || ".ndjson"@.is_suffix_of(e.name)
}

/// A text with the first occurrence of another, from a place on, replaced.
pub open spec fn replaced_from(s: Seq<char>, old_part: Seq<char>, new_part: Seq<char>, from: int) ->
    Seq<char>
    decreases s.len() + 1 - from,
{
    if from < 0 || from + old_part.len() > s.len() {
        s
    } else if occurs_at(s, old_part, from) {
        s.take(from) + new_part + s.skip(from + old_part.len())
    } else {
        replaced_from(s, old_part, new_part, from + 1)
    }
}

/// A path as it is offered: with `~` for the home folder where it was typed so, and a
/// separator behind a folder.
pub open spec fn shown_path(e: EntryView, tilde: Option<Seq<char>>, separator: char) -> Seq<char> {
    let p = match tilde {
        Some(h) => replaced_from(e.path, h, "~"@, 0),
        None => e.path,
    };
    if e.is_folder {
        p.push(separator)
    } else {
        p
    }
}

/// The paths that are offered, before they are sorted.
pub open spec fn offered_paths(
    entries: Seq<EntryView>,
    prefix: Seq<char>,
    tilde: Option<Seq<char>>,
    separator: char,
) -> Seq<Seq<char>>
    decreases entries.len(),
{
    if entries.len() == 0 {
        Seq::empty()
    } else {
        let front = offered_paths(entries.drop_last(), prefix, tilde, separator);
        if is_offered(entries.last(), prefix) {
            front.push(shown_path(entries.last(), tilde, separator))
        } else {
            front
        }
    }
}

fn replace_first(s: &str, old_part: &str, new_part: &str) -> (r: String)
    ensures
        r@ == replaced_from(s@, old_part@, new_part@, 0),
{
    let cs = chars_of(s);
    let os = chars_of(old_part);
    let mut i: usize = 0;
    while i <= cs.len() && os.len() <= cs.len() - i
        invariant
            i <= cs@.len() + 1,
            cs@ == s@,
            os@ == old_part@,
            replaced_from(s@, old_part@, new_part@, 0) == replaced_from(
                s@,
                old_part@,
                new_part@,
                i as int,
            ),
        decreases cs@.len() + 1 - i,
    {
        if crate::text::stands_at(cs.as_slice(), os.as_slice(), i) {
            let a = text_between(cs.as_slice(), 0, i);
            let b = text_between(cs.as_slice(), i + os.len(), cs.len());
            assert(a@ =~= s@.take(i as int));
            assert(b@ =~= s@.skip(i + os@.len()));
            return crate::phrase::cat3(a.as_str(), new_part, b.as_str());
        }
        if i == cs.len() {
            assert(replaced_from(s@, old_part@, new_part@, i + 1) == s@);
            return s.to_owned();
        }
        i = i + 1;
    }
    s.to_owned()
}

/// The paths that go on from what was typed, in order: `tilde` is the home folder
/// where it was typed as `~`.
pub fn get_path_suggestions(
    entries: &Vec<FolderEntry>,
    prefix: &str,
    tilde: Option<&str>,
    separator: char,
) -> (r: Vec<String>)
    ensures
        texts(r@) == sorted_texts(
            offered_paths(
                entry_views(entries@),
                prefix@,
                match tilde {
                    Some(h) => Some(h@),
                    None => None,
                },
                separator,
            ),
        ),
{
    let ghost views = entry_views(entries@);
    let ghost t = match tilde {
        Some(h) => Some(h@),
        None => None,
    };
    let mut out: Vec<String> = Vec::new();
    let mut i: usize = 0;
    assert(views.take(0) =~= Seq::empty());
    assert(texts(out@) =~= Seq::empty());
    while i < entries.len()
        invariant
            i <= entries@.len(),
            views == entry_views(entries@),
            t == (match tilde {
                Some(h) => Some(h@),
                None => None,
            }),
            texts(out@) == offered_paths(views.take(i as int), prefix@, t, separator),
        decreases entries@.len() - i,
    {
        assert(views.take(i + 1).drop_last() =~= views.take(i as int));
        assert(views[i as int] == entries@[i as int]@);
        let e = &entries[i];
        let name = e.name.as_str();
        if starts_with_text(name, prefix) && !crate::phrase::starts_with_char(name, '.') && (
        e.is_folder || ends_with_text(name, ".ndjson")) {
            let mut p = match tilde {
                Some(h) => replace_first(e.path.as_str(), h, "~"),
                None => e.path.clone(),
            };
            if e.is_folder {
                p.push(separator);
            }
            let ghost before = texts(out@);
            out.push(p);
            assert(texts(out@) =~= before.push(p@));
        }
        i = i + 1;
    }
    assert(views.take(i as int) =~= views);
    sort_texts(out.as_slice())
}

/// How many lines of what is loaded are shown, with a line above them.
pub open spec fn shown_height(loaded: nat) -> int {
    if loaded == 0 {
        0
    } else if loaded % 0x1_0000 < 8 {
        (loaded % 0x1_0000) as int + 1
    } else {
        9
    }
}

/// How many lines of what is loaded are shown, with a line above them.
pub fn loaded_height(loaded: usize) -> (r: u16)
    ensures
        r == shown_height(loaded as nat),
{
    if loaded == 0 {
        0
    } else {
        let n: usize = loaded % 0x1_0000;
        if n < 8 {
            (n + 1) as u16
        } else {
            9
        }
    }
}

/// Typing a path letter by letter and accepting it without a suggestion takes the
/// path that was typed.
pub proof fn law_typed_path_is_taken(
    form: LoadView,
    c: char,
    separator: char,
    stem: Option<Seq<char>>,
)
    requires
        form.step == LoadStep::InputPath,
        form.suggestions.len() == 0,
    ensures
        form.after(Key::Char(c), separator, stem).0.after(Key::Enter, separator, stem).0.path
            == form.input.push(c),
{
}

} // verus!
