//! The panel of the local server: its endpoints and its log.

use crate::json_text::{first_settings, members_view, parse_settings, JsonCell, JsonCellView};
use crate::phrase::{begins_with, cat2, cat4, starts_with_char, after_first, without_first};
use crate::repl::keys::Key;
use crate::repl::lists::{next_index, next_of, previous_index, previous_of};
use crate::text::{join_spec, join_texts, same_text, texts};
use crate::text_sort::{dedup_texts, distinct_texts, sort_texts, sorted_texts};
use vstd::prelude::*;

verus! {

/// A part of the panel.
#[derive(Clone, Copy, Debug, PartialEq, Eq, Structural)]
pub enum ServerFocus {
    Endpoints,
    Logs,
}

/// A query that was saved: a text that begins with `$` stands for a value that is
/// given when the query is run.
pub struct SavedQuery {
    pub name: String,
    pub entity: String,
    pub table: String,
    /// The values of the filters.
    pub filter_values: Vec<String>,
    pub limit_param: Option<String>,
    /// The texts among the settings of the aggregations.
    pub aggregation_values: Vec<String>,
}

/// A change of a record that was saved.
pub struct SavedChange {
    pub name: String,
    pub entity: String,
    pub table: String,
}

/// Operations that are run together, by their names.
pub struct SavedBatch {
    pub name: String,
    pub operations: Vec<String>,
}

/// An operation that was saved.
pub enum SavedOperation {
    Read(SavedQuery),
    Insert(SavedChange),
    Update(SavedChange),
    Delete(SavedChange),
    Batch(SavedBatch),
}

/// What an operation stands for.
#[verifier::ext_equal]
pub enum OperationView {
    Read { name: Seq<char>, entity: Seq<char>, table: Seq<char>, params: Seq<Seq<char>> },
    Insert { name: Seq<char>, entity: Seq<char>, table: Seq<char> },
    Update { name: Seq<char>, entity: Seq<char>, table: Seq<char> },
    Delete { name: Seq<char>, entity: Seq<char>, table: Seq<char> },
    Batch { name: Seq<char>, operations: Seq<Seq<char>> },
}

/// The texts among some settings.
pub open spec fn setting_texts(m: Seq<(Seq<char>, JsonCellView)>) -> Seq<Seq<char>>
    decreases m.len(),
{
    if m.len() == 0 {
        Seq::empty()
    } else {
        let front = setting_texts(m.drop_last());
        match m.last().1.string() {
            Some(s) => front.push(s),
            None => front,
        }
    }
}

/// The texts among the settings of some aggregations, each a JSON text.
pub open spec fn aggregation_texts(aggregations: Seq<Seq<char>>) -> Seq<Seq<char>>
    decreases aggregations.len(),
{
    if aggregations.len() == 0 {
        Seq::empty()
    } else {
        aggregation_texts(aggregations.drop_last()) + match first_settings(aggregations.last()) {
            Some(m) => setting_texts(m),
            None => Seq::empty(),
        }
    }
}

fn push_texts(out: &mut Vec<String>, members: &Vec<(String, JsonCell)>)
    ensures
        texts(final(out)@) == texts(old(out)@) + setting_texts(members_view(members@)),
{
    let ghost start = texts(out@);
    let ghost m = members_view(members@);
    let mut i: usize = 0;
    assert(m.take(0) =~= Seq::empty());
    assert(texts(out@) =~= start + setting_texts(m.take(0)));
    while i < members.len()
        invariant
            i <= members@.len(),
            m == members_view(members@),
            texts(out@) == start + setting_texts(m.take(i as int)),
        decreases members@.len() - i,
    {
        let ghost before = texts(out@);
        proof {
            assert(m.take(i + 1).drop_last() =~= m.take(i as int));
            assert(m.take(i + 1).last() == (members@[i as int].0@, members@[i as int].1@));
        }
        if let JsonCell::Text(s) = &members[i].1 {
            out.push(s.clone());
            assert(texts(out@) =~= before.push(s@));
        }
        i = i + 1;
        assert(texts(out@) =~= start + setting_texts(m.take(i as int)));
    }
    assert(m.take(i as int) =~= m);
}

/// The texts among the settings of some aggregations, each a JSON text.
pub fn aggregation_values(aggregations: &[String]) -> (r: Vec<String>)
    ensures
        texts(r@) == aggregation_texts(texts(aggregations@)),
{
    let ghost all = texts(aggregations@);
    let mut out: Vec<String> = Vec::new();
    let mut i: usize = 0;
    assert(all.take(0) =~= Seq::empty());
    assert(texts(out@) =~= Seq::empty());
    while i < aggregations.len()
        invariant
            i <= aggregations@.len(),
            all == texts(aggregations@),
            texts(out@) == aggregation_texts(all.take(i as int)),
        decreases aggregations@.len() - i,
    {
        proof {
            assert(all.take(i + 1).drop_last() =~= all.take(i as int));
            assert(all.take(i + 1).last() == aggregations@[i as int]@);
        }
        let ghost before = texts(out@);
        match parse_settings(aggregations[i].as_str()).1 {
            Some(m) => push_texts(&mut out, &m),
            None => {
                assert(before =~= before + Seq::empty());
            },
        }
        i = i + 1;
    }
    assert(all.take(i as int) =~= all);
    out
}

/// The names of the values that are given later, among some texts.
pub open spec fn asked(values: Seq<Seq<char>>) -> Seq<Seq<char>>
    decreases values.len(),
{
    if values.len() == 0 {
        Seq::empty()
    } else {
        let front = asked(values.drop_last());
        if begins_with(values.last(), '$') {
            front.push(after_first(values.last()))
        } else {
            front
        }
    }
}

/// The names of the values that are given when a query is run.
pub open spec fn query_params(
    filters: Seq<Seq<char>>,
    limit: Option<Seq<char>>,
    aggregations: Seq<Seq<char>>,
) -> Seq<Seq<char>> {
    asked(filters) + (match limit {
        Some(p) => asked(seq![p]),
        None => Seq::empty(),
    }) + asked(aggregations)
}

impl View for SavedOperation {
    type V = OperationView;

    open spec fn view(&self) -> OperationView {
        match self {
            SavedOperation::Read(q) => OperationView::Read {
                name: q.name@,
                entity: q.entity@,
                table: q.table@,
                params: query_params(
                    texts(q.filter_values@),
                    match q.limit_param {
                        Some(p) => Some(p@),
                        None => None,
                    },
                    texts(q.aggregation_values@),
                ),
            },
            SavedOperation::Insert(c) => OperationView::Insert {
                name: c.name@,
                entity: c.entity@,
                table: c.table@,
            },
            SavedOperation::Update(c) => OperationView::Update {
                name: c.name@,
                entity: c.entity@,
                table: c.table@,
            },
            SavedOperation::Delete(c) => OperationView::Delete {
                name: c.name@,
                entity: c.entity@,
                table: c.table@,
            },
            SavedOperation::Batch(b) => OperationView::Batch {
                name: b.name@,
                operations: texts(b.operations@),
            },
        }
    }
}

/// What operations stand for.
pub open spec fn operation_views(v: Seq<SavedOperation>) -> Seq<OperationView> {
    v.map_values(|o: SavedOperation| o@)
}

impl OperationView {
    /// The name of the operation.
    pub open spec fn name_of(self) -> Seq<char> {
        match self {
            OperationView::Read { name, .. } => name,
            OperationView::Insert { name, .. } => name,
            OperationView::Update { name, .. } => name,
            OperationView::Delete { name, .. } => name,
            OperationView::Batch { name, .. } => name,
        }
    }

    /// The method by which the operation is asked for.
    pub open spec fn method(self) -> Seq<char> {
        match self {
            OperationView::Read { .. } => "GET"@,
            OperationView::Insert { .. } => "POST"@,
            OperationView::Update { .. } => "PUT"@,
            OperationView::Delete { .. } => "DELETE"@,
            OperationView::Batch { .. } => "GET"@,
        }
    }
}

/// The first operation of a name, from a place on.
pub open spec fn named_from(ops: Seq<OperationView>, name: Seq<char>, from: int) -> Option<
    OperationView,
>
    decreases ops.len() - from,
{
    if from < 0 || from >= ops.len() {
        None
    } else if ops[from].name_of() == name {
        Some(ops[from])
    } else {
        named_from(ops, name, from + 1)
    }
}

/// The names of the values that the queries of a batch are given.
pub open spec fn batch_params(ops: Seq<OperationView>, names: Seq<Seq<char>>) -> Seq<Seq<char>>
    decreases names.len(),
{
    if names.len() == 0 {
        Seq::empty()
    } else {
        let front = batch_params(ops, names.drop_last());
        match named_from(ops, names.last(), 0) {
            Some(OperationView::Read { params, .. }) => front + params,
            _ => front,
        }
    }
}

/// The names of the values that an operation is given in its address.
pub open spec fn params_of(op: OperationView, ops: Seq<OperationView>) -> Seq<Seq<char>> {
    match op {
        OperationView::Read { params, .. } => params,
        OperationView::Batch { operations, .. } => batch_params(ops, operations),
        _ => Seq::empty(),
    }
}

/// The names with a place for each value.
pub open spec fn blanks(params: Seq<Seq<char>>) -> Seq<Seq<char>> {
    params.map_values(|p: Seq<char>| p + "=?"@)
}

/// The address of an operation on a host: its name, and the names of its values in
/// order, each once.
pub open spec fn endpoint_url(host: Seq<char>, op: OperationView, ops: Seq<OperationView>) -> Seq<
    char,
> {
    let base = "http://"@ + host + ":3000/"@ + op.name_of();
    let params = distinct_texts(sorted_texts(params_of(op, ops)));
    if params.len() > 0 {
        base + "?"@ + join_spec(blanks(params), "&"@)
    } else {
        base
    }
}

fn push_asked(out: &mut Vec<String>, values: &Vec<String>)
    ensures
        texts(final(out)@) == texts(old(out)@) + asked(texts(values@)),
{
    let ghost before = texts(out@);
    let ghost vs = texts(values@);
    let mut i: usize = 0;
    assert(vs.take(0) =~= Seq::empty());
    assert(before + asked(vs.take(0)) =~= before);
    while i < values.len()
        invariant
            i <= values@.len(),
            vs == texts(values@),
            texts(out@) == before + asked(vs.take(i as int)),
        decreases values@.len() - i,
    {
        assert(vs.take(i + 1).drop_last() =~= vs.take(i as int));
        assert(vs[i as int] == values@[i as int]@);
        let ghost held = texts(out@);
        if starts_with_char(values[i].as_str(), '$') {
            let name = without_first(values[i].as_str());
            out.push(name);
            assert(texts(out@) =~= held.push(name@));
        }
        assert(texts(out@) =~= before + asked(vs.take(i + 1)));
        i = i + 1;
    }
    assert(vs.take(i as int) =~= vs);
}

impl SavedQuery {
    /// What the query stands for.
    pub open spec fn params_spec(&self) -> Seq<Seq<char>> {
        query_params(
            texts(self.filter_values@),
            match self.limit_param {
                Some(p) => Some(p@),
                None => None,
            },
            texts(self.aggregation_values@),
        )
    }

    fn push_params(&self, out: &mut Vec<String>)
        ensures
            texts(final(out)@) == texts(old(out)@) + self.params_spec(),
    {
        let ghost before = texts(out@);
        push_asked(out, &self.filter_values);
        let ghost a = texts(out@);
        if let Some(p) = &self.limit_param {
            let one = vec![p.clone()];
            assert(texts(one@) =~= seq![p@]);
            push_asked(out, &one);
        }
        let ghost b = texts(out@);
        push_asked(out, &self.aggregation_values);
        assert(texts(out@) =~= before + self.params_spec());
    }
}

impl SavedOperation {
    /// The name of the operation.
    pub fn name(&self) -> (r: &str)
        ensures
            r@ == self@.name_of(),
    {
        match self {
            SavedOperation::Read(q) => q.name.as_str(),
            SavedOperation::Insert(c) => c.name.as_str(),
            SavedOperation::Update(c) => c.name.as_str(),
            SavedOperation::Delete(c) => c.name.as_str(),
            SavedOperation::Batch(b) => b.name.as_str(),
        }
    }

    /// The method by which the operation is asked for.
    pub fn method(&self) -> (r: &str)
        ensures
            r@ == self@.method(),
    {
        match self {
            SavedOperation::Read(_) => "GET",
            SavedOperation::Insert(_) => "POST",
            SavedOperation::Update(_) => "PUT",
            SavedOperation::Delete(_) => "DELETE",
            SavedOperation::Batch(_) => "GET",
        }
    }

    fn params(&self, ops: &Vec<SavedOperation>) -> (r: Vec<String>)
        ensures
            texts(r@) == params_of(self@, operation_views(ops@)),
    {
        let mut out: Vec<String> = Vec::new();
        assert(texts(out@) =~= Seq::empty());
        match self {
            SavedOperation::Read(q) => {
                q.push_params(&mut out);
                assert(texts(out@) =~= params_of(self@, operation_views(ops@)));
            },
            SavedOperation::Batch(b) => {
                let ghost views = operation_views(ops@);
                let ghost names = texts(b.operations@);
                let mut i: usize = 0;
                assert(names.take(0) =~= Seq::empty());
                while i < b.operations.len()
                    invariant
                        i <= b.operations@.len(),
                        views == operation_views(ops@),
                        names == texts(b.operations@),
                        texts(out@) == batch_params(views, names.take(i as int)),
                    decreases b.operations@.len() - i,
                {
                    assert(names.take(i + 1).drop_last() =~= names.take(i as int));
                    assert(names[i as int] == b.operations@[i as int]@);
                    if let Some(k) = find_operation(ops, b.operations[i].as_str()) {
                        assert(views[k as int] == ops@[k as int]@);
                        if let SavedOperation::Read(q) = &ops[k] {
                            q.push_params(&mut out);
                        }
                    }
                    i = i + 1;
                }
                assert(names.take(i as int) =~= names);
            },
            _ => {},
        }
        out
    }

    /// The address of the operation on a host.
    pub fn url(&self, host: &str, ops: &Vec<SavedOperation>) -> (r: String)
        ensures
            r@ == endpoint_url(host@, self@, operation_views(ops@)),
    {
        let base = cat4("http://", host, ":3000/", self.name());
        let all = self.params(ops);
        let sorted = sort_texts(all.as_slice());
        let params = dedup_texts(sorted.as_slice());
        let ghost names = texts(params@);
        assert(names.len() == params@.len());
        if params.len() == 0 {
            return base;
        }
        let mut parts: Vec<String> = Vec::new();
        let mut i: usize = 0;
        assert(texts(parts@) =~= blanks(names).take(0));
        while i < params.len()
            invariant
                i <= params@.len(),
                names == texts(params@),
                texts(parts@) == blanks(names).take(i as int),
            decreases params@.len() - i,
        {
            let part = cat2(params[i].as_str(), "=?");
            assert(names[i as int] == params@[i as int]@);
            let ghost held = texts(parts@);
            parts.push(part);
            assert(texts(parts@) =~= held.push(part@));
            assert(blanks(names).take(i + 1) =~= blanks(names).take(i as int).push(
                blanks(names)[i as int],
            ));
            i = i + 1;
        }
        assert(blanks(names).take(i as int) =~= blanks(names));
        let query = join_texts(parts.as_slice(), "&");
        crate::phrase::cat3(base.as_str(), "?", query.as_str())
    }
}

fn find_operation(ops: &Vec<SavedOperation>, name: &str) -> (r: Option<usize>)
    ensures
        match r {
            Some(k) => k < ops@.len() && named_from(operation_views(ops@), name@, 0) == Some(
                ops@[k as int]@,
            ),
            None => named_from(operation_views(ops@), name@, 0) is None,
        },
{
    let ghost views = operation_views(ops@);
    let mut i: usize = 0;
    while i < ops.len()
        invariant
            i <= ops@.len(),
            views == operation_views(ops@),
            named_from(views, name@, 0) == named_from(views, name@, i as int),
        decreases ops@.len() - i,
    {
        assert(views[i as int] == ops@[i as int]@);
        if same_text(ops[i].name(), name) {
            return Some(i);
        }
        i = i + 1;
    }
    None
}

/// What the panel holds.
pub struct ServerPanel {
    pub running: bool,
    pub focus: ServerFocus,
    pub endpoint: Option<usize>,
    /// The line of the log that is selected, counted from the last one.
    pub log: Option<usize>,
    pub logs: Vec<String>,
    pub status: Option<(String, bool)>,
}

/// What a `ServerPanel` stands for.
#[verifier::ext_equal]
pub struct ServerView {
    pub running: bool,
    pub focus: ServerFocus,
    pub endpoint: Option<usize>,
    pub log: Option<usize>,
    pub logs: Seq<Seq<char>>,
    pub status: Option<(Seq<char>, bool)>,
}

impl View for ServerPanel {
    type V = ServerView;

    open spec fn view(&self) -> ServerView {
        ServerView {
            running: self.running,
            focus: self.focus,
            endpoint: self.endpoint,
            log: self.log,
            logs: texts(self.logs@),
            status: match self.status {
                Some(s) => Some((s.0@, s.1)),
                None => None,
            },
        }
    }
}

/// What is to be done after a key.
#[derive(Debug)]
pub enum ServerAction {
    Nothing,
    /// Stop the server and go back to the menu.
    Leave,
    /// Put a text on the clipboard.
    Copy(String),
}

/// What an action stands for.
pub enum ServerActionView {
    Nothing,
    Leave,
    Copy(Seq<char>),
}

impl View for ServerAction {
    type V = ServerActionView;

    open spec fn view(&self) -> ServerActionView {
        match self {
            ServerAction::Nothing => ServerActionView::Nothing,
            ServerAction::Leave => ServerActionView::Leave,
            ServerAction::Copy(s) => ServerActionView::Copy(s@),
        }
    }
}

impl ServerView {
    /// The panel with the next or the one before selected, among what is in focus.
    pub open spec fn stepped(self, ops: nat, down: bool) -> ServerView {
        match self.focus {
            ServerFocus::Endpoints => if ops == 0 {
                self
            } else {
                ServerView {
                    endpoint: Some(
                        if down {
                            next_of(self.endpoint, ops)
                        } else {
                            previous_of(self.endpoint, ops)
                        } as usize,
                    ),
                    ..self
                }
            },
            ServerFocus::Logs => if self.logs.len() == 0 {
                self
            } else {
                ServerView {
                    log: Some(
                        if down {
                            next_of(self.log, self.logs.len())
                        } else {
                            previous_of(self.log, self.logs.len())
                        } as usize,
                    ),
                    ..self
                }
            },
        }
    }

    /// What is copied: the address of the endpoint that is selected, or the line of
    /// the log; and what is reported then.
    pub open spec fn copied(self, ops: Seq<OperationView>, host: Seq<char>) -> Option<
        (Seq<char>, Seq<char>),
    > {
        match self.focus {
            ServerFocus::Endpoints => match self.endpoint {
                Some(i) => if i < ops.len() {
                    Some(
                        (
                            endpoint_url(host, ops[i as int], ops),
                            ops[i as int].method() + " endpoint copied to clipboard!"@,
                        ),
                    )
                } else {
                    None
                },
                None => None,
            },
            ServerFocus::Logs => match self.log {
                Some(i) => if i < self.logs.len() {
                    Some((self.logs[self.logs.len() - 1 - i], "Log line copied to clipboard!"@))
                } else {
                    None
                },
                None => None,
            },
        }
    }

    /// The panel after a key, and what is to be done.
    pub open spec fn after(self, key: Key, ops: Seq<OperationView>, host: Seq<char>) -> (
        ServerView,
        ServerActionView,
    ) {
        match key {
            Key::Esc => (ServerView { running: false, ..self }, ServerActionView::Leave),
            Key::Tab => (
                ServerView {
                    focus: match self.focus {
                        ServerFocus::Endpoints => ServerFocus::Logs,
                        ServerFocus::Logs => ServerFocus::Endpoints,
                    },
                    ..self
                },
                ServerActionView::Nothing,
            ),
            Key::Down => (self.stepped(ops.len(), true), ServerActionView::Nothing),
            Key::Up => (self.stepped(ops.len(), false), ServerActionView::Nothing),
            Key::Char('c') => match self.copied(ops, host) {
                Some((text, report)) => (
                    ServerView { status: Some((report, true)), ..self },
                    ServerActionView::Copy(text),
                ),
                None => (self, ServerActionView::Nothing),
            },
            _ => (self, ServerActionView::Nothing),
        }
    }
}

impl ServerPanel {
    /// A panel for a server that was started.
    pub fn started(status: Option<(String, bool)>) -> (r: ServerPanel)
        ensures
            r@ == (ServerView {
                running: true,
                focus: ServerFocus::Endpoints,
                endpoint: Some(0),
                log: Some(0),
                logs: Seq::empty(),
                status: match status {
                    Some(s) => Some((s.0@, s.1)),
                    None => None,
                },
            }),
    {
        let r = ServerPanel {
            running: true,
            focus: ServerFocus::Endpoints,
            endpoint: Some(0),
            log: Some(0),
            logs: Vec::new(),
            status,
        };
        assert(r@.logs =~= Seq::empty());
        r
    }

    fn copy(&self, ops: &Vec<SavedOperation>, host: &str) -> (r: Option<(String, String)>)
        ensures
            match r {
                Some(c) => self@.copied(operation_views(ops@), host@) == Some((c.0@, c.1@)),
                None => self@.copied(operation_views(ops@), host@) is None,
            },
    {
        assert(operation_views(ops@).len() == ops@.len());
        assert(texts(self.logs@).len() == self.logs@.len());
        match self.focus {
            ServerFocus::Endpoints => match self.endpoint {
                Some(i) => if i < ops.len() {
                    assert(operation_views(ops@)[i as int] == ops@[i as int]@);
                    let url = ops[i].url(host, ops);
                    let report = cat2(ops[i].method(), " endpoint copied to clipboard!");
                    Some((url, report))
                } else {
                    None
                },
                None => None,
            },
            ServerFocus::Logs => match self.log {
                Some(i) => if i < self.logs.len() {
                    let k: usize = self.logs.len() - 1 - i;
                    assert(texts(self.logs@)[k as int] == self.logs@[k as int]@);
                    Some((self.logs[k].clone(), "Log line copied to clipboard!".to_owned()))
                } else {
                    None
                },
                None => None,
            },
        }
    }

    /// Takes in a key, with the operations that are saved and the host of the server,
    /// and tells what is to be done.
    pub fn handle_server_input(&mut self, key: Key, ops: &Vec<SavedOperation>, host: &str) -> (r:
        ServerAction)
        ensures
            (final(self)@, r@) == old(self)@.after(key, operation_views(ops@), host@),
    {
        let ghost start = self@;
        let ghost views = operation_views(ops@);
        assert(views.len() == ops@.len());
        assert(start.logs.len() == self.logs@.len());
        match key {
            Key::Esc => {
                self.running = false;
                assert(self@ =~= start.after(key, views, host@).0);
                ServerAction::Leave
            },
            Key::Tab => {
                self.focus = match self.focus {
                    ServerFocus::Endpoints => ServerFocus::Logs,
                    ServerFocus::Logs => ServerFocus::Endpoints,
                };
                assert(self@ =~= start.after(key, views, host@).0);
                ServerAction::Nothing
            },
            Key::Down => {
                match self.focus {
                    ServerFocus::Endpoints => {
                        if ops.len() > 0 {
                            self.endpoint = Some(next_index(self.endpoint, ops.len()));
                        }
                    },
                    ServerFocus::Logs => {
                        if self.logs.len() > 0 {
                            self.log = Some(next_index(self.log, self.logs.len()));
                        }
                    },
                }
                assert(self@ =~= start.after(key, views, host@).0);
                ServerAction::Nothing
            },
            Key::Up => {
                match self.focus {
                    ServerFocus::Endpoints => {
                        if ops.len() > 0 {
                            self.endpoint = Some(previous_index(self.endpoint, ops.len()));
                        }
                    },
                    ServerFocus::Logs => {
                        if self.logs.len() > 0 {
                            self.log = Some(previous_index(self.log, self.logs.len()));
                        }
                    },
                }
                assert(self@ =~= start.after(key, views, host@).0);
                ServerAction::Nothing
            },
            Key::Char('c') => match self.copy(ops, host) {
                Some((text, report)) => {
                    self.status = Some((report, true));
                    assert(self@ =~= start.after(key, views, host@).0);
                    ServerAction::Copy(text)
                },
                None => ServerAction::Nothing,
            },
            _ => ServerAction::Nothing,
        }
    }
}

/// The address of an operation that changes a record has no values in it.
pub proof fn law_changes_have_plain_urls(
    host: Seq<char>,
    op: OperationView,
    ops: Seq<OperationView>,
)
    requires
        !(op is Read),
        !(op is Batch),
    ensures
        endpoint_url(host, op, ops) == "http://"@ + host + ":3000/"@ + op.name_of(),
{
    assert(params_of(op, ops) =~= Seq::empty());
    crate::text_sort::law_texts_sorted(Seq::<Seq<char>>::empty());
}

} // verus!
