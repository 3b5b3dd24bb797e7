//! The form by which a database is connected.

use crate::phrase::{before_last, behind, cat2, cat5, strip_front, with_char, without_last};
use crate::repl::keys::Key;
use crate::repl::lists::{next_index, next_of, previous_index, previous_of};
use crate::text::{contains_text, occurs_in};
use vstd::prelude::*;

verus! {

/// What is asked for.
#[derive(Clone, Copy, Debug, PartialEq, Eq, Structural)]
pub enum StartupStep {
    Selection,
    Host,
    Port,
    User,
    Password,
    Database,
    Entity,
    CdcRunning,
    DockerBuild,
}

/// A database and how it is reached.
pub struct CdcInfo {
    pub host: String,
    pub port: String,
    pub user: String,
    pub pass: String,
    pub database: String,
    /// Whether every database of the host is taken.
    pub sync_all_databases: bool,
    pub entity: String,
    pub vpn_file: Option<String>,
}

/// What a `CdcInfo` stands for.
#[verifier::ext_equal]
pub struct CdcView {
    pub host: Seq<char>,
    pub port: Seq<char>,
    pub user: Seq<char>,
    pub pass: Seq<char>,
    pub database: Seq<char>,
    pub all: bool,
    pub entity: Seq<char>,
    pub vpn_file: Option<Seq<char>>,
}

impl View for CdcInfo {
    type V = CdcView;

    open spec fn view(&self) -> CdcView {
        CdcView {
            host: self.host@,
            port: self.port@,
            user: self.user@,
            pass: self.pass@,
            database: self.database@,
            all: self.sync_all_databases,
            entity: self.entity@,
            vpn_file: match self.vpn_file {
                Some(f) => Some(f@),
                None => None,
            },
        }
    }
}

impl CdcView {
    /// The address of the host, with the user that asks.
    pub open spec fn host_url(self) -> Seq<char> {
        "mysql://"@ + self.user + ":"@ + self.pass + "@"@ + (self.host + ":"@ + self.port + "/"@)
    }

    /// The address of the database; of the host, where every database is taken.
    pub open spec fn url(self) -> Seq<char> {
        if self.all {
            self.host_url()
        } else {
            self.host_url() + self.database
        }
    }
}

impl CdcInfo {
    fn host_url(&self) -> (r: String)
        ensures
            r@ == self@.host_url(),
    {
        let mut a = cat5("mysql://", self.user.as_str(), ":", self.pass.as_str(), "@");
        let b = crate::phrase::cat4(self.host.as_str(), ":", self.port.as_str(), "/");
        a.append(b.as_str());
        a
    }

    /// The address of the database; of the host, where every database is taken.
    pub fn url(&self) -> (r: String)
        ensures
            r@ == self@.url(),
    {
        let base = self.host_url();
        if self.sync_all_databases {
            base
        } else {
            cat2(base.as_str(), self.database.as_str())
        }
    }
}

/// What the form holds.
pub struct StartupForm {
    pub step: StartupStep,
    pub selected: Option<usize>,
    pub input_buffer: String,
    pub info: CdcInfo,
    pub build_status: Option<String>,
}

/// What a `StartupForm` stands for.
#[verifier::ext_equal]
pub struct StartupView {
    pub step: StartupStep,
    pub selected: Option<usize>,
    pub input: Seq<char>,
    pub info: CdcView,
    pub build: Option<Seq<char>>,
}

impl View for StartupForm {
    type V = StartupView;

    open spec fn view(&self) -> StartupView {
        StartupView {
            step: self.step,
            selected: self.selected,
            input: self.input_buffer@,
            info: self.info@,
            build: match self.build_status {
                Some(s) => Some(s@),
                None => None,
            },
        }
    }
}

/// What is to be done after a key.
#[derive(Debug)]
pub enum StartupAction {
    Nothing,
    Quit,
    /// Go to the main menu.
    Leave,
    /// Take in a database: its address, the entity and its name.
    Sync { url: String, entity: String, database: String },
    /// Build an image of a name.
    Build(String),
}

/// What an action stands for.
pub enum StartupActionView {
    Nothing,
    Quit,
    Leave,
    Sync { url: Seq<char>, entity: Seq<char>, database: Seq<char> },
    Build(Seq<char>),
}

impl View for StartupAction {
    type V = StartupActionView;

    open spec fn view(&self) -> StartupActionView {
        match self {
            StartupAction::Nothing => StartupActionView::Nothing,
            StartupAction::Quit => StartupActionView::Quit,
            StartupAction::Leave => StartupActionView::Leave,
            StartupAction::Sync { url, entity, database } => StartupActionView::Sync {
                url: url@,
                entity: entity@,
                database: database@,
            },
            StartupAction::Build(s) => StartupActionView::Build(s@),
        }
    }
}

/// How many options there are at first.
pub const STARTUP_OPTIONS: usize = 2;

/// What was typed, or what there was where nothing was typed.
pub open spec fn typed_or(input: Seq<char>, other: Seq<char>) -> Seq<char> {
    if input.len() == 0 {
        other
    } else {
        input
    }
}

impl StartupView {
    /// The form after a key while an option is chosen.
    pub open spec fn chosen(self, key: Key) -> (StartupView, StartupActionView) {
        match key {
            Key::Esc => (self, StartupActionView::Quit),
            Key::Down => (
                StartupView {
                    selected: Some(next_of(self.selected, STARTUP_OPTIONS as nat)),
                    ..self
                },
                StartupActionView::Nothing,
            ),
            Key::Up => (
                StartupView {
                    selected: Some(previous_of(self.selected, STARTUP_OPTIONS as nat)),
                    ..self
                },
                StartupActionView::Nothing,
            ),
            Key::Enter => match self.selected {
                Some(0) => (
                    StartupView { step: StartupStep::Host, input: self.info.host, ..self },
                    StartupActionView::Nothing,
                ),
                Some(1) => (self, StartupActionView::Leave),
                _ => (self, StartupActionView::Nothing),
            },
            _ => (self, StartupActionView::Nothing),
        }
    }

    /// The form after what was typed was accepted: the next thing is asked for, with
    /// what is known of it.
    pub open spec fn accepted(self) -> (StartupView, StartupActionView) {
        let i = self.info;
        match self.step {
            StartupStep::Host => (
                StartupView {
                    info: CdcView { host: typed_or(self.input, i.host), ..i },
                    step: StartupStep::Port,
                    input: i.port,
                    ..self
                },
                StartupActionView::Nothing,
            ),
            StartupStep::Port => (
                StartupView {
                    info: CdcView { port: typed_or(self.input, i.port), ..i },
                    step: StartupStep::User,
                    input: i.user,
                    ..self
                },
                StartupActionView::Nothing,
            ),
            StartupStep::User => (
                StartupView {
                    info: CdcView { user: typed_or(self.input, i.user), ..i },
                    step: StartupStep::Password,
                    input: Seq::empty(),
                    ..self
                },
                StartupActionView::Nothing,
            ),
            StartupStep::Password => (
                StartupView {
                    info: CdcView { pass: self.input, ..i },
                    step: StartupStep::Database,
                    input: Seq::empty(),
                    ..self
                },
                StartupActionView::Nothing,
            ),
            StartupStep::Database => (
                StartupView {
                    info: CdcView { database: self.input, ..i },
                    step: StartupStep::Entity,
                    ..self
                },
                StartupActionView::Nothing,
            ),
            StartupStep::Entity => {
                let info = CdcView { entity: typed_or(self.input, i.entity), ..i };
                (
                    StartupView {
                        info,
                        step: StartupStep::CdcRunning,
                        input: Seq::empty(),
                        ..self
                    },
                    StartupActionView::Sync {
                        url: info.host_url() + info.database,
                        entity: info.entity,
                        database: info.database,
                    },
                )
            },
            _ => (self, StartupActionView::Nothing),
        }
    }

    /// The form after a key while something is typed.
    pub open spec fn typed(self, key: Key) -> (StartupView, StartupActionView) {
        match key {
            Key::Esc => (
                StartupView { step: StartupStep::Selection, input: Seq::empty(), ..self },
                StartupActionView::Nothing,
            ),
            Key::Enter => self.accepted(),
            Key::Char(c) => (
                StartupView { input: self.input.push(c), ..self },
                StartupActionView::Nothing,
            ),
            Key::Backspace => (
                StartupView { input: before_last(self.input), ..self },
                StartupActionView::Nothing,
            ),
            _ => (self, StartupActionView::Nothing),
        }
    }

    /// Whether an image can be built: none is, or building it went wrong.
    pub open spec fn can_build(self) -> bool {
        match self.build {
            Some(s) => occurs_in(s, "Error"@),
            None => true,
        }
    }

    /// The form after a key, and what is to be done.
    pub open spec fn after(self, key: Key) -> (StartupView, StartupActionView) {
        match self.step {
            StartupStep::Selection => self.chosen(key),
            StartupStep::CdcRunning => match key {
                Key::Esc => (self, StartupActionView::Leave),
                Key::Enter => (
                    StartupView { step: StartupStep::DockerBuild, ..self },
                    StartupActionView::Nothing,
                ),
                _ => (self, StartupActionView::Nothing),
            },
            StartupStep::DockerBuild => match key {
                Key::Esc => (
                    StartupView { step: StartupStep::CdcRunning, ..self },
                    StartupActionView::Nothing,
                ),
                Key::Enter => if self.can_build() {
                    (
                        StartupView { build: Some("Iniciando build de Docker..."@), ..self },
                        StartupActionView::Build("bittice-"@ + self.info.entity),
                    )
                } else {
                    (self, StartupActionView::Nothing)
                },
                _ => (self, StartupActionView::Nothing),
            },
            _ => self.typed(key),
        }
    }
}

impl StartupForm {
    fn choose_option(&mut self, key: Key) -> (r: StartupAction)
        ensures
            (final(self)@, r@) == old(self)@.chosen(key),
    {
        let ghost start = self@;
        match key {
            Key::Esc => StartupAction::Quit,
            Key::Down => {
                self.selected = Some(next_index(self.selected, STARTUP_OPTIONS));
                assert(self@ =~= start.chosen(key).0);
                StartupAction::Nothing
            },
            Key::Up => {
                self.selected = Some(previous_index(self.selected, STARTUP_OPTIONS));
                assert(self@ =~= start.chosen(key).0);
                StartupAction::Nothing
            },
            Key::Enter => match self.selected {
                Some(0) => {
                    self.step = StartupStep::Host;
                    self.input_buffer = self.info.host.clone();
                    assert(self@ =~= start.chosen(key).0);
                    StartupAction::Nothing
                },
                Some(1) => StartupAction::Leave,
                _ => StartupAction::Nothing,
            },
            _ => StartupAction::Nothing,
        }
    }

    fn accept(&mut self) -> (r: StartupAction)
        ensures
            (final(self)@, r@) == old(self)@.accepted(),
    {
        let ghost start = self@;
        let typed = !self.input_buffer.as_str().is_empty();
        let input = self.input_buffer.clone();
        match self.step {
            StartupStep::Host => {
                if typed {
                    self.info.host = input;
                }
                self.step = StartupStep::Port;
                self.input_buffer = self.info.port.clone();
                assert(self@ =~= start.accepted().0);
                StartupAction::Nothing
            },
            StartupStep::Port => {
                if typed {
                    self.info.port = input;
                }
                self.step = StartupStep::User;
                self.input_buffer = self.info.user.clone();
                assert(self@ =~= start.accepted().0);
                StartupAction::Nothing
            },
            StartupStep::User => {
                if typed {
                    self.info.user = input;
                }
                self.step = StartupStep::Password;
                self.input_buffer = String::new();
                assert(self@ =~= start.accepted().0);
                StartupAction::Nothing
            },
            StartupStep::Password => {
                self.info.pass = input;
                self.step = StartupStep::Database;
                self.input_buffer = String::new();
                assert(self@ =~= start.accepted().0);
                StartupAction::Nothing
            },
            StartupStep::Database => {
                self.info.database = input;
                self.step = StartupStep::Entity;
                assert(self@ =~= start.accepted().0);
                StartupAction::Nothing
            },
            StartupStep::Entity => {
                if typed {
                    self.info.entity = input;
                }
                self.input_buffer = String::new();
                self.step = StartupStep::CdcRunning;
                let base = self.info.host_url();
                let url = cat2(base.as_str(), self.info.database.as_str());
                assert(self@ =~= start.accepted().0);
                StartupAction::Sync {
                    url,
                    entity: self.info.entity.clone(),
                    database: self.info.database.clone(),
                }
            },
            _ => StartupAction::Nothing,
        }
    }

    /// Takes in a key and tells what is to be done.
    pub fn handle_startup_input(&mut self, key: Key) -> (r: StartupAction)
        ensures
            (final(self)@, r@) == old(self)@.after(key),
    {
        let ghost start = self@;
        match self.step {
            StartupStep::Selection => self.choose_option(key),
            StartupStep::CdcRunning => match key {
                Key::Esc => StartupAction::Leave,
                Key::Enter => {
                    self.step = StartupStep::DockerBuild;
                    assert(self@ =~= start.after(key).0);
                    StartupAction::Nothing
                },
                _ => StartupAction::Nothing,
            },
            StartupStep::DockerBuild => match key {
                Key::Esc => {
                    self.step = StartupStep::CdcRunning;
                    assert(self@ =~= start.after(key).0);
                    StartupAction::Nothing
                },
                Key::Enter => {
                    let can = match &self.build_status {
                        Some(s) => contains_text(s.as_str(), "Error"),
                        None => true,
                    };
                    if can {
                        self.build_status = Some("Iniciando build de Docker...".to_owned());
                        assert(self@ =~= start.after(key).0);
                        StartupAction::Build(cat2("bittice-", self.info.entity.as_str()))
                    } else {
                        StartupAction::Nothing
                    }
                },
                _ => StartupAction::Nothing,
            },
            _ => match key {
                Key::Esc => {
                    self.step = StartupStep::Selection;
                    self.input_buffer = String::new();
                    assert(self@ =~= start.after(key).0);
                    StartupAction::Nothing
                },
                Key::Enter => self.accept(),
                Key::Char(c) => {
                    self.input_buffer = with_char(self.input_buffer.as_str(), c);
                    assert(self@ =~= start.after(key).0);
                    StartupAction::Nothing
                },
                Key::Backspace => {
                    self.input_buffer = without_last(self.input_buffer.as_str());
                    assert(self@ =~= start.after(key).0);
                    StartupAction::Nothing
                },
                _ => StartupAction::Nothing,
            },
        }
    }
}

/// Accepting everything as it is leads from the host to the sync of the database that
/// is known, with the password that was typed left out.
pub proof fn law_accepting_defaults(form: StartupView)
    requires
        form.step == StartupStep::Host,
        form.input.len() == 0,
    ensures
        ({
            let f = form.accepted().0.accepted().0.accepted().0.accepted().0;
            f.step == StartupStep::Database && f.info == (CdcView {
                pass: Seq::empty(),
                ..form.info
            })
        }),
{
    let a = form.accepted().0;
    let b = a.accepted().0;
    let c = b.accepted().0;
    let d = c.accepted().0;
    if form.info.port.len() == 0 {
        assert(form.info.port =~= Seq::empty());
    }
    if form.info.user.len() == 0 {
        assert(form.info.user =~= Seq::empty());
    }
    assert(d.info =~= (CdcView { pass: Seq::empty(), ..form.info }));
}

/// What a message of the sync means.
#[derive(Debug)]
pub enum SyncNews {
    /// Show a line and go on.
    Progress(String),
    /// Show a line and stop waiting.
    Ready(String),
    /// The sync failed.
    Failed(String),
    /// Show nothing and go on.
    Hidden,
}

/// What news stand for.
pub enum NewsView {
    Progress(Seq<char>),
    Ready(Seq<char>),
    Failed(Seq<char>),
    Hidden,
}

impl View for SyncNews {
    type V = NewsView;

    open spec fn view(&self) -> NewsView {
        match self {
            SyncNews::Progress(s) => NewsView::Progress(s@),
            SyncNews::Ready(s) => NewsView::Ready(s@),
            SyncNews::Failed(s) => NewsView::Failed(s@),
            SyncNews::Hidden => NewsView::Hidden,
        }
    }
}

/// What a message of the sync means: progress on tables and rows is shown; the sync
/// stands where it is ready, or without changes as they happen where those cannot be
/// read; lines that may hold a secret are not shown.
pub open spec fn news_of(msg: Seq<char>) -> NewsView {
    if occurs_in(msg, "Syncing table"@) || occurs_in(msg, "Table sync"@) || occurs_in(
        msg,
        "rows"@,
    ) {
        NewsView::Progress("\x1b[34m→\x1b[0m  "@ + msg)
    } else if msg == "CDC_READY"@ {
        NewsView::Ready("✓ Sync established (Real-time enabled)."@)
    } else if msg == "CDC_DISABLED"@ || occurs_in(msg, "Connection timed out"@) || occurs_in(
        msg,
        "Access denied"@,
    ) {
        NewsView::Ready(
            "\x1b[32m◆\x1b[0m  Static data sync established ("@ + (if msg == "CDC_DISABLED"@ {
                "CDC is not enabled on server"@
            } else {
                "Could not connect to Binlog"@
            }) + ". Real-time updates inactive)."@,
        )
    } else if "CDC_ERROR: "@.is_prefix_of(msg) {
        NewsView::Failed(behind(msg, "CDC_ERROR: "@))
    } else if "WARN: "@.is_prefix_of(msg) {
        NewsView::Progress("\x1b[33m▲\x1b[0m  "@ + behind(msg, "WARN: "@))
    } else if !occurs_in(msg, "-----"@) && !occurs_in(msg, "key"@) && !occurs_in(msg, "pass"@) {
        NewsView::Progress(msg)
    } else {
        NewsView::Hidden
    }
}

/// What a message of the sync means.
pub fn sync_news(msg: &str) -> (r: SyncNews)
    ensures
        r@ == news_of(msg@),
{
    if contains_text(msg, "Syncing table") || contains_text(msg, "Table sync") || contains_text(
        msg,
        "rows",
    ) {
        return SyncNews::Progress(cat2("\x1b[34m→\x1b[0m  ", msg));
    }
    if crate::text::same_text(msg, "CDC_READY") {
        return SyncNews::Ready("✓ Sync established (Real-time enabled).".to_owned());
    }
    let disabled = crate::text::same_text(msg, "CDC_DISABLED");
    if disabled || contains_text(msg, "Connection timed out") || contains_text(
        msg,
        "Access denied",
    ) {
        let reason = if disabled {
            "CDC is not enabled on server"
        } else {
            "Could not connect to Binlog"
        };
        return SyncNews::Ready(
            crate::phrase::cat3(
                "\x1b[32m◆\x1b[0m  Static data sync established (",
                reason,
                ". Real-time updates inactive).",
            ),
        );
    }
    if crate::text::starts_with_text(msg, "CDC_ERROR: ") {
        return SyncNews::Failed(strip_front(msg, "CDC_ERROR: "));
    }
    if crate::text::starts_with_text(msg, "WARN: ") {
        let rest = strip_front(msg, "WARN: ");
        return SyncNews::Progress(cat2("\x1b[33m▲\x1b[0m  ", rest.as_str()));
    }
    if !contains_text(msg, "-----") && !contains_text(msg, "key") && !contains_text(msg, "pass") {
        return SyncNews::Progress(msg.to_owned());
    }
    SyncNews::Hidden
}

/// A message that may hold a secret is never shown as it is.
pub proof fn law_secrets_stay_hidden(msg: Seq<char>)
    requires
        occurs_in(msg, "pass"@) || occurs_in(msg, "key"@) || occurs_in(msg, "-----"@),
    ensures
        news_of(msg) != NewsView::Progress(msg),
{
    let arrow = "\x1b[34m→\x1b[0m  "@;
    let sign = "\x1b[33m▲\x1b[0m  "@;
    reveal_strlit("\x1b[34m→\x1b[0m  ");
    reveal_strlit("\x1b[33m▲\x1b[0m  ");
    reveal_strlit("WARN: ");
    assert((arrow + msg).len() > msg.len());
    if "WARN: "@.is_prefix_of(msg) {
        assert("WARN: "@[0] == msg.subrange(0, "WARN: "@.len() as int)[0]);
        assert(msg[0] == 'W');
        assert((sign + behind(msg, "WARN: "@))[0] == '\x1b');
    }
}

} // verus!
