//! What the program holds between keys, and the main menu.

use crate::phrase::{cat2, cat5};
use crate::repl::keys::Key;
use crate::repl::lists::{next_index, next_of, previous_index, previous_of};
use crate::repl::load_form::{LoadForm, LoadView};
use crate::repl::search_panel::{
    AggregationStep, FilterStep, FocusPanel, SearchCriteria, SearchPanel, SearchView, Task,
};
use crate::repl::server_panel::{
    operation_views, OperationView, SavedOperation, ServerFocus, ServerPanel, ServerView,
};
use crate::text::texts;
use crate::textmap::TextMap;
use crate::types::LogicalOp;
use vstd::prelude::*;

verus! {

/// What the program holds.
pub struct App {
    pub menu_items: Vec<String>,
    pub menu_selected: Option<usize>,
    pub active_task: Option<Task>,
    pub load: LoadForm,
    pub search: SearchPanel,
    pub server: ServerPanel,
    pub results_scroll: u16,
    pub results_scroll_x: u16,
    pub results_page: u64,
    pub status_message: Option<(String, bool)>,
    pub is_saving_query: bool,
    pub show_saved_queries: bool,
    pub is_loading_to_edit: bool,
    pub is_prompting_variable: bool,
    pub saved_queries: Vec<SavedOperation>,
    pub saved_selected: Option<usize>,
}

/// What an `App` stands for.
#[verifier::ext_equal]
pub struct AppView {
    pub items: Seq<Seq<char>>,
    pub selected: Option<usize>,
    pub task: Option<Task>,
    pub load: LoadView,
    pub search: SearchView,
    pub server: ServerView,
    pub scroll: u16,
    pub scroll_x: u16,
    pub page: u64,
    pub status: Option<(Seq<char>, bool)>,
    pub saving: bool,
    pub show_saved: bool,
    pub editing: bool,
    pub prompting: bool,
    pub saved: Seq<OperationView>,
    pub saved_selected: Option<usize>,
}

impl View for App {
    type V = AppView;

    open spec fn view(&self) -> AppView {
        AppView {
            items: texts(self.menu_items@),
            selected: self.menu_selected,
            task: self.active_task,
            load: self.load@,
            search: self.search@,
            server: self.server@,
            scroll: self.results_scroll,
            scroll_x: self.results_scroll_x,
            page: self.results_page,
            status: match self.status_message {
                Some(s) => Some((s.0@, s.1)),
                None => None,
            },
            saving: self.is_saving_query,
            show_saved: self.show_saved_queries,
            editing: self.is_loading_to_edit,
            prompting: self.is_prompting_variable,
            saved: operation_views(self.saved_queries@),
            saved_selected: self.saved_selected,
        }
    }
}

/// The panels before anything was chosen.
pub open spec fn fresh_search() -> SearchView {
    SearchView {
        task: None,
        criteria: SearchCriteria::Entity,
        focus: FocusPanel::Left,
        entities: Seq::empty(),
        tables: Seq::empty(),
        entity: None,
        table: None,
        left: Some(0),
        middle: None,
        right: None,
        extra: None,
        filters: Seq::empty(),
        filters_op: LogicalOp::And,
        filter_step: FilterStep::List,
        available_fields: Seq::empty(),
        order_fields: Seq::empty(),
        value_options: seq!["Write value"@, "Variable (ask later)"@],
        value_input: Seq::empty(),
        aggregations: Seq::empty(),
        agg_step: AggregationStep::Main,
        agg_type_options: seq![
            "TopN"@,
            "GroupBy"@,
            "Sum"@,
            "Avg"@,
            "Min"@,
            "Max"@,
            "ConsecutiveBuckets"@,
            "RetentionByBucket"@,
            "InactiveSinceBucket"@,
        ],
        agg_op_options: seq!["Sum"@, "Count"@, "Avg"@, "Min"@, "Max"@],
        agg_value_options: seq!["Write value"@, "Variable (ask later)"@],
        order_by: Seq::empty(),
        limit: Some(100),
        selected_fields: Seq::empty(),
        payload_keys: Seq::empty(),
        payload: Map::empty(),
        target_id: Seq::empty(),
    }
}

/// The server before it is started.
pub open spec fn fresh_server() -> ServerView {
    ServerView {
        running: false,
        focus: ServerFocus::Endpoints,
        endpoint: None,
        log: None,
        logs: Seq::empty(),
        status: None,
    }
}

/// The program as it starts, with the operations that are saved.
pub open spec fn fresh(saved: Seq<OperationView>) -> AppView {
    AppView {
        items: seq!["Load"@, "Read"@, "Local Server"@, "Exit"@],
        selected: Some(0),
        task: None,
        load: LoadView::blank(),
        search: fresh_search(),
        server: fresh_server(),
        scroll: 0,
        scroll_x: 0,
        page: 1,
        status: None,
        saving: false,
        show_saved: false,
        editing: false,
        prompting: false,
        saved,
        saved_selected: None,
    }
}

fn value_choices() -> (r: Vec<String>)
    ensures
        texts(r@) == seq!["Write value"@, "Variable (ask later)"@],
{
    let r = vec!["Write value".to_owned(), "Variable (ask later)".to_owned()];
    assert(texts(r@) =~= seq!["Write value"@, "Variable (ask later)"@]);
    r
}

impl SearchPanel {
    /// The panels before anything was chosen.
    pub fn new() -> (r: SearchPanel)
        ensures
            r@ == fresh_search(),
            r.wf(),
    {
        let kinds = vec![
            "TopN".to_owned(),
            "GroupBy".to_owned(),
            "Sum".to_owned(),
            "Avg".to_owned(),
            "Min".to_owned(),
            "Max".to_owned(),
            "ConsecutiveBuckets".to_owned(),
            "RetentionByBucket".to_owned(),
            "InactiveSinceBucket".to_owned(),
        ];
        let ops = vec![
            "Sum".to_owned(),
            "Count".to_owned(),
            "Avg".to_owned(),
            "Min".to_owned(),
            "Max".to_owned(),
        ];
        assert(texts(kinds@) =~= fresh_search().agg_type_options);
        assert(texts(ops@) =~= fresh_search().agg_op_options);
        let r = SearchPanel {
            task: None,
            criteria: SearchCriteria::Entity,
            focus: FocusPanel::Left,
            entities: Vec::new(),
            tables: Vec::new(),
            entity: None,
            table: None,
            left: Some(0),
            middle: None,
            right: None,
            extra: None,
            filters: Vec::new(),
            filters_op: LogicalOp::And,
            filter_step: FilterStep::List,
            available_fields: Vec::new(),
            order_fields: Vec::new(),
            value_options: value_choices(),
            value_input: String::new(),
            aggregations: Vec::new(),
            agg_step: AggregationStep::Main,
            agg_type_options: kinds,
            agg_op_options: ops,
            agg_value_options: value_choices(),
            order_by: Vec::new(),
            limit: Some(100),
            selected_fields: Vec::new(),
            payload: TextMap::new(),
            target_id: String::new(),
        };
        assert(r@ =~= fresh_search());
        r
    }
}

/// What is to be done after a key in the main menu.
#[derive(Clone, Copy, Debug, PartialEq, Eq, Structural)]
pub enum MenuAction {
    Nothing,
    Quit,
    /// Offer the paths of the working folder.
    Suggest,
    /// Put a record together.
    StartChange(SearchCriteria),
    StartSearch,
    StartServer,
}

/// How the results of a search are scrolled.
#[derive(Clone, Copy, Debug, PartialEq, Eq, Structural)]
pub enum Scroll {
    Up,
    Down,
    Left,
    Right,
}

/// A number with another taken off, or put to it, within its bounds.
pub open spec fn shifted(n: u16, by: u16, forward: bool) -> u16 {
    if forward {
        if n + by > u16::MAX {
            u16::MAX
        } else {
            (n + by) as u16
        }
    } else if n >= by {
        (n - by) as u16
    } else {
        0
    }
}

fn shift(n: u16, by: u16, forward: bool) -> (r: u16)
    ensures
        r == shifted(n, by, forward),
{
    if forward {
        if n > u16::MAX - by {
            u16::MAX
        } else {
            n + by
        }
    } else if n >= by {
        n - by
    } else {
        0
    }
}

impl AppView {
    /// The program after a key in the main menu, and what is to be done.
    pub open spec fn menu_key(self, key: Key) -> (AppView, MenuAction) {
        match key {
            Key::Char('q') => (self, MenuAction::Quit),
            Key::Esc => (self, MenuAction::Quit),
            Key::Down => (
                AppView { selected: Some(next_of(self.selected, self.items.len())), ..self },
                MenuAction::Nothing,
            ),
            Key::Up => (
                AppView { selected: Some(previous_of(self.selected, self.items.len())), ..self },
                MenuAction::Nothing,
            ),
            Key::Enter => match self.selected {
                Some(0) => (
                    AppView { task: Some(Task::Load), status: None, ..self },
                    MenuAction::Suggest,
                ),
                Some(1) => (self, MenuAction::StartChange(SearchCriteria::Create)),
                Some(2) => (self, MenuAction::StartSearch),
                Some(3) => (self, MenuAction::StartChange(SearchCriteria::Update)),
                Some(4) => (self, MenuAction::StartChange(SearchCriteria::Delete)),
                Some(5) => (
                    AppView {
                        task: Some(Task::Batch),
                        show_saved: true,
                        editing: false,
                        saved_selected: if self.saved.len() > 0 {
                            Some(0)
                        } else {
                            self.saved_selected
                        },
                        ..self
                    },
                    MenuAction::Nothing,
                ),
                Some(6) => (
                    AppView {
                        task: Some(Task::Server),
                        server: ServerView {
                            running: true,
                            focus: ServerFocus::Endpoints,
                            endpoint: Some(0),
                            log: Some(0),
                            logs: Seq::empty(),
                            status: self.server.status,
                        },
                        ..self
                    },
                    MenuAction::StartServer,
                ),
                Some(7) => (AppView { task: Some(Task::Bittice), ..self }, MenuAction::Nothing),
                Some(8) => (self, MenuAction::Quit),
                _ => (self, MenuAction::Nothing),
            },
            _ => (self, MenuAction::Nothing),
        }
    }

    /// The program with the results of a search scrolled: by five columns, or by a
    /// line.
    pub open spec fn scrolled(self, how: Scroll, shift_held: bool) -> AppView {
        match how {
            Scroll::Up => if shift_held {
                AppView { scroll_x: shifted(self.scroll_x, 5, false), ..self }
            } else {
                AppView { scroll: shifted(self.scroll, 1, false), ..self }
            },
            Scroll::Down => if shift_held {
                AppView { scroll_x: shifted(self.scroll_x, 5, true), ..self }
            } else {
                AppView { scroll: shifted(self.scroll, 1, true), ..self }
            },
            Scroll::Left => AppView { scroll_x: shifted(self.scroll_x, 5, false), ..self },
            Scroll::Right => AppView { scroll_x: shifted(self.scroll_x, 5, true), ..self },
        }
    }
}

impl App {
    /// The program as it starts, with the operations that are saved.
    pub fn new(saved: Vec<SavedOperation>) -> (r: App)
        ensures
            r@ == fresh(operation_views(saved@)),
            r.search.wf(),
    {
        let items = vec![
            "Load".to_owned(),
            "Read".to_owned(),
            "Local Server".to_owned(),
            "Exit".to_owned(),
        ];
        assert(texts(items@) =~= seq!["Load"@, "Read"@, "Local Server"@, "Exit"@]);
        let server = ServerPanel {
            running: false,
            focus: ServerFocus::Endpoints,
            endpoint: None,
            log: None,
            logs: Vec::new(),
            status: None,
        };
        assert(server@ =~= fresh_server());
        let r = App {
            menu_items: items,
            menu_selected: Some(0),
            active_task: None,
            load: LoadForm::new(),
            search: SearchPanel::new(),
            server,
            results_scroll: 0,
            results_scroll_x: 0,
            results_page: 1,
            status_message: None,
            is_saving_query: false,
            show_saved_queries: false,
            is_loading_to_edit: false,
            is_prompting_variable: false,
            saved_queries: saved,
            saved_selected: None,
        };
        assert(r@ =~= fresh(operation_views(saved@)));
        r
    }

    /// Selects the next item of the menu.
    pub fn menu_next(&mut self)
        requires
            old(self)@.items.len() > 0,
        ensures
            final(self)@ == (AppView {
                selected: Some(next_of(old(self)@.selected, old(self)@.items.len())),
                ..old(self)@
            }),
    {
        assert(texts(self.menu_items@).len() == self.menu_items@.len());
        self.menu_selected = Some(next_index(self.menu_selected, self.menu_items.len()));
    }

    /// Selects the item of the menu before.
    pub fn menu_previous(&mut self)
        requires
            old(self)@.items.len() > 0,
        ensures
            final(self)@ == (AppView {
                selected: Some(previous_of(old(self)@.selected, old(self)@.items.len())),
                ..old(self)@
            }),
    {
        assert(texts(self.menu_items@).len() == self.menu_items@.len());
        self.menu_selected = Some(previous_index(self.menu_selected, self.menu_items.len()));
    }

    /// Takes in a key in the main menu and tells what is to be done.
    pub fn handle_main_menu_input(&mut self, key: Key) -> (r: MenuAction)
        requires
            old(self)@.items.len() > 0,
        ensures
            (final(self)@, r) == old(self)@.menu_key(key),
    {
        let ghost start = self@;
        match key {
            Key::Char('q') => MenuAction::Quit,
            Key::Esc => MenuAction::Quit,
            Key::Down => {
                self.menu_next();
                MenuAction::Nothing
            },
            Key::Up => {
                self.menu_previous();
                MenuAction::Nothing
            },
            Key::Enter => match self.menu_selected {
                Some(0) => {
                    self.active_task = Some(Task::Load);
                    self.status_message = None;
                    MenuAction::Suggest
                },
                Some(1) => MenuAction::StartChange(SearchCriteria::Create),
                Some(2) => MenuAction::StartSearch,
                Some(3) => MenuAction::StartChange(SearchCriteria::Update),
                Some(4) => MenuAction::StartChange(SearchCriteria::Delete),
                Some(5) => {
                    assert(operation_views(self.saved_queries@).len() == self.saved_queries@.len());
                    self.active_task = Some(Task::Batch);
                    self.show_saved_queries = true;
                    self.is_loading_to_edit = false;
                    if self.saved_queries.len() > 0 {
                        self.saved_selected = Some(0);
                    }
                    MenuAction::Nothing
                },
                Some(6) => {
                    self.active_task = Some(Task::Server);
                    self.server.running = true;
                    self.server.focus = ServerFocus::Endpoints;
                    self.server.endpoint = Some(0);
                    self.server.log = Some(0);
                    self.server.logs = Vec::new();
                    assert(self@.server =~= start.menu_key(key).0.server);
                    MenuAction::StartServer
                },
                Some(7) => {
                    self.active_task = Some(Task::Bittice);
                    MenuAction::Nothing
                },
                Some(8) => MenuAction::Quit,
                _ => MenuAction::Nothing,
            },
            _ => MenuAction::Nothing,
        }
    }

    /// Scrolls the results of a search.
    pub fn scroll_results(&mut self, how: Scroll, shift_held: bool)
        ensures
            final(self)@ == old(self)@.scrolled(how, shift_held),
    {
        match how {
            Scroll::Up => {
                if shift_held {
                    self.results_scroll_x = shift(self.results_scroll_x, 5, false);
                } else {
                    self.results_scroll = shift(self.results_scroll, 1, false);
                }
            },
            Scroll::Down => {
                if shift_held {
                    self.results_scroll_x = shift(self.results_scroll_x, 5, true);
                } else {
                    self.results_scroll = shift(self.results_scroll, 1, true);
                }
            },
            Scroll::Left => {
                self.results_scroll_x = shift(self.results_scroll_x, 5, false);
            },
            Scroll::Right => {
                self.results_scroll_x = shift(self.results_scroll_x, 5, true);
            },
        }
    }

    /// Whether something lies over the panels.
    pub fn is_overlaid(&self) -> (r: bool)
        ensures
            r == (self@.saving || self@.show_saved || self@.prompting),
    {
        self.is_saving_query || self.show_saved_queries || self.is_prompting_variable
    }

    /// Goes back to the menu after a file was loaded.
    pub fn finish_load(&mut self)
        ensures
            final(self)@ == (AppView { task: None, load: LoadView::blank(), ..old(self)@ }),
    {
        self.active_task = None;
        self.load = LoadForm::new();
    }
}

/// Whether an operation is offered while the user is at a task.
pub open spec fn fits_task(op: OperationView, task: Option<Task>) -> bool {
    match task {
        Some(Task::Search) => op is Read,
        Some(Task::Create) => op is Insert,
        Some(Task::Update) => op is Update,
        Some(Task::Delete) => op is Delete,
        _ => true,
    }
}

/// How an operation is listed.
pub open spec fn saved_text(op: OperationView) -> Seq<char> {
    match op {
        OperationView::Read { name, entity, table, .. } => name + " ("@ + ("Search: "@ + entity
            + "/"@ + table + ")"@),
        OperationView::Insert { name, entity, table } => name + " ("@ + ("Insert: "@ + entity + "/"@
            + table + ")"@),
        OperationView::Update { name, entity, table } => name + " ("@ + ("Update: "@ + entity + "/"@
            + table + ")"@),
        OperationView::Delete { name, entity, table } => name + " ("@ + ("Delete: "@ + entity + "/"@
            + table + ")"@),
        OperationView::Batch { name, .. } => name + " (Batch)"@,
    }
}

/// The operations that are offered while the user is at a task.
pub open spec fn offered_operations(ops: Seq<OperationView>, task: Option<Task>) -> Seq<Seq<char>>
    decreases ops.len(),
{
    if ops.len() == 0 {
        Seq::empty()
    } else {
        let front = offered_operations(ops.drop_last(), task);
        if fits_task(ops.last(), task) {
            front.push(saved_text(ops.last()))
        } else {
            front
        }
    }
}

fn operation_fits(op: &SavedOperation, task: Option<Task>) -> (r: bool)
    ensures
        r == fits_task(op@, task),
{
    match task {
        Some(Task::Search) => match op {
            SavedOperation::Read(_) => true,
            _ => false,
        },
        Some(Task::Create) => match op {
            SavedOperation::Insert(_) => true,
            _ => false,
        },
        Some(Task::Update) => match op {
            SavedOperation::Update(_) => true,
            _ => false,
        },
        Some(Task::Delete) => match op {
            SavedOperation::Delete(_) => true,
            _ => false,
        },
        _ => true,
    }
}

fn operation_text(op: &SavedOperation) -> (r: String)
    ensures
        r@ == saved_text(op@),
{
    let (name, kind, entity, table): (&str, &str, &str, &str) = match op {
        SavedOperation::Read(q) => (
            q.name.as_str(),
            "Search: ",
            q.entity.as_str(),
            q.table.as_str(),
        ),
        SavedOperation::Insert(c) => (
            c.name.as_str(),
            "Insert: ",
            c.entity.as_str(),
            c.table.as_str(),
        ),
        SavedOperation::Update(c) => (
            c.name.as_str(),
            "Update: ",
            c.entity.as_str(),
            c.table.as_str(),
        ),
        SavedOperation::Delete(c) => (
            c.name.as_str(),
            "Delete: ",
            c.entity.as_str(),
            c.table.as_str(),
        ),
        SavedOperation::Batch(b) => {
            return cat2(b.name.as_str(), " (Batch)");
        },
    };
    let tail = cat5(kind, entity, "/", table, ")");
    crate::phrase::cat3(name, " (", tail.as_str())
}

/// The operations that are offered while the user is at a task.
pub fn saved_list(ops: &Vec<SavedOperation>, task: Option<Task>) -> (r: Vec<String>)
    ensures
        texts(r@) == offered_operations(operation_views(ops@), task),
{
    let ghost views = operation_views(ops@);
    let mut out: Vec<String> = Vec::new();
    let mut i: usize = 0;
    assert(views.take(0) =~= Seq::empty());
    assert(texts(out@) =~= Seq::empty());
    while i < ops.len()
        invariant
            i <= ops@.len(),
            views == operation_views(ops@),
            texts(out@) == offered_operations(views.take(i as int), task),
        decreases ops@.len() - i,
    {
        assert(views.take(i + 1).drop_last() =~= views.take(i as int));
        assert(views[i as int] == ops@[i as int]@);
        if operation_fits(&ops[i], task) {
            let s = operation_text(&ops[i]);
            let ghost held = texts(out@);
            out.push(s);
            assert(texts(out@) =~= held.push(s@));
        }
        i = i + 1;
    }
    assert(views.take(i as int) =~= views);
    out
}

/// The method of an operation as the panel of the server shows it.
pub open spec fn short_method(op: OperationView) -> Seq<char> {
    match op {
        OperationView::Delete { .. } => "DEL"@,
        _ => op.method(),
    }
}

/// The method of an operation as the panel of the server shows it.
pub fn method_label(op: &SavedOperation) -> (r: &str)
    ensures
        r@ == short_method(op@),
{
    match op {
        SavedOperation::Delete(_) => "DEL",
        _ => op.method(),
    }
}

/// Going down and up again in the menu selects the item that was selected.
pub proof fn law_down_and_up(app: AppView)
    requires
        app.selected matches Some(i) && i < app.items.len(),
        app.items.len() <= usize::MAX,
    ensures
        app.menu_key(Key::Down).0.menu_key(Key::Up).0 == app,
{
    crate::repl::lists::law_back_and_forth(app.selected->0, app.items.len());
    assert(app.menu_key(Key::Down).0.menu_key(Key::Up).0 =~= app);
}

} // verus!
