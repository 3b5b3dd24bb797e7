//! The questions by which a database is connected, and the menu that they start from.

use crate::phrase::{cat2, cat3, first_chars, pieces, split_on, take_chars};
use crate::repl::startup_form::{CdcInfo, CdcView};
use crate::text::{
    chars_of, contains_text, ends_with_text, join_spec, join_texts, occurs_in, starts_with_text,
    text_of, texts,
};
use crate::text_sort::{dedup_texts, distinct_texts, sort_texts, sorted_texts};
use vstd::prelude::*;

verus! {

/// The item of a list that stands for going back to the main menu.
pub const BACK_TO_MAIN: usize = 240;

/// What is asked.
#[derive(Clone, Copy, Debug, PartialEq, Eq, Structural)]
pub enum ConnectStep {
    Host,
    Port,
    User,
    Password,
    Mode,
    Profile,
    Database,
    Entity,
    UseVpn,
    VpnProvider,
    VpnConfig,
    /// The file of the VPN is being stored.
    Storing,
    Install,
    /// The VPN is being started.
    Starting,
    Done,
    Cancelled,
}

/// What was answered, or done.
pub enum ConnectAnswer {
    Typed(String),
    Chosen(usize),
    /// The file of the VPN was stored; whether the program of the VPN is there.
    Stored { path: String, installed: bool },
    Finished,
    Interrupted,
}

/// What is to be done then.
#[derive(Debug)]
pub enum ConnectAction {
    /// Ask what the step says.
    Ask,
    Cancel,
    /// Tell that the provider is not supported, and cancel.
    Unsupported,
    /// Tell that no file of a VPN is there, and cancel.
    NoConfigs,
    /// Store a file of a VPN.
    Store(String),
    /// Install the program of the VPN, and start it.
    InstallAndStart,
    /// Start the VPN.
    Start,
    /// Tell why it cannot go on.
    Fail(String),
    /// Keep what was answered.
    Keep,
}

/// What is to be done, by its texts.
pub enum ConnectActionView {
    Ask,
    Cancel,
    Unsupported,
    NoConfigs,
    Store(Seq<char>),
    InstallAndStart,
    Start,
    Fail(Seq<char>),
    Keep,
}

impl View for ConnectAction {
    type V = ConnectActionView;

    open spec fn view(&self) -> ConnectActionView {
        match self {
            ConnectAction::Ask => ConnectActionView::Ask,
            ConnectAction::Cancel => ConnectActionView::Cancel,
            ConnectAction::Unsupported => ConnectActionView::Unsupported,
            ConnectAction::NoConfigs => ConnectActionView::NoConfigs,
            ConnectAction::Store(s) => ConnectActionView::Store(s@),
            ConnectAction::InstallAndStart => ConnectActionView::InstallAndStart,
            ConnectAction::Start => ConnectActionView::Start,
            ConnectAction::Fail(s) => ConnectActionView::Fail(s@),
            ConnectAction::Keep => ConnectActionView::Keep,
        }
    }
}

/// What is known so far.
pub struct ConnectWizard {
    pub step: ConnectStep,
    pub info: CdcInfo,
    /// Whether the program runs in a container.
    pub in_container: bool,
    /// The files of VPNs that are there, and their folder.
    pub configs: Vec<String>,
    pub vpn_folder: String,
}

/// What a `ConnectWizard` stands for.
#[verifier::ext_equal]
pub struct ConnectView {
    pub step: ConnectStep,
    pub info: CdcView,
    pub in_container: bool,
    pub configs: Seq<Seq<char>>,
    pub folder: Seq<char>,
}

impl View for ConnectWizard {
    type V = ConnectView;

    open spec fn view(&self) -> ConnectView {
        ConnectView {
            step: self.step,
            info: self.info@,
            in_container: self.in_container,
            configs: texts(self.configs@),
            folder: self.vpn_folder@,
        }
    }
}

impl ConnectView {
    /// With another step, and all else as it was.
    pub open spec fn at(self, step: ConnectStep) -> ConnectView {
        ConnectView { step, ..self }
    }

    /// After everything on the database was answered: in a container a VPN is asked
    /// for, else it is done.
    pub open spec fn described(self) -> (ConnectView, ConnectActionView) {
        if self.in_container {
            (self.at(ConnectStep::UseVpn), ConnectActionView::Ask)
        } else {
            (self.at(ConnectStep::Done), ConnectActionView::Keep)
        }
    }

    /// After a text was typed.
    pub open spec fn typed(self, t: Seq<char>) -> (ConnectView, ConnectActionView) {
        let i = self.info;
        match self.step {
            ConnectStep::Host => (
                ConnectView { info: CdcView { host: t, ..i }, step: ConnectStep::Port, ..self },
                ConnectActionView::Ask,
            ),
            ConnectStep::Port => (
                ConnectView { info: CdcView { port: t, ..i }, step: ConnectStep::User, ..self },
                ConnectActionView::Ask,
            ),
            ConnectStep::User => (
                ConnectView { info: CdcView { user: t, ..i }, step: ConnectStep::Password, ..self },
                ConnectActionView::Ask,
            ),
            ConnectStep::Password => (
                ConnectView { info: CdcView { pass: t, ..i }, step: ConnectStep::Mode, ..self },
                ConnectActionView::Ask,
            ),
            ConnectStep::Profile => ConnectView {
                info: CdcView { database: Seq::empty(), all: true, entity: t, ..i },
                ..self
            }.described(),
            ConnectStep::Database => (
                ConnectView {
                    info: CdcView { database: t, all: false, ..i },
                    step: ConnectStep::Entity,
                    ..self
                },
                ConnectActionView::Ask,
            ),
            ConnectStep::Entity => ConnectView {
                info: CdcView { entity: t, ..i },
                ..self
            }.described(),
            _ => (self.at(ConnectStep::Cancelled), ConnectActionView::Cancel),
        }
    }

    /// After an item of a list was chosen.
    pub open spec fn chosen(self, c: usize) -> (ConnectView, ConnectActionView) {
        let cancel = (self.at(ConnectStep::Cancelled), ConnectActionView::Cancel);
        match self.step {
            ConnectStep::Mode => if c == BACK_TO_MAIN {
                cancel
            } else if c == 0 {
                (self.at(ConnectStep::Profile), ConnectActionView::Ask)
            } else {
                (self.at(ConnectStep::Database), ConnectActionView::Ask)
            },
            ConnectStep::UseVpn => if c == BACK_TO_MAIN {
                cancel
            } else if c == 0 {
                (self.at(ConnectStep::VpnProvider), ConnectActionView::Ask)
            } else {
                (self.at(ConnectStep::Done), ConnectActionView::Keep)
            },
            ConnectStep::VpnProvider => if c == BACK_TO_MAIN {
                cancel
            } else if c == 1 {
                (self.at(ConnectStep::Cancelled), ConnectActionView::Unsupported)
            } else if self.configs.len() == 0 {
                (self.at(ConnectStep::Cancelled), ConnectActionView::NoConfigs)
            } else {
                (self.at(ConnectStep::VpnConfig), ConnectActionView::Ask)
            },
            ConnectStep::VpnConfig => if c >= self.configs.len() {
                cancel
            } else {
                (
                    self.at(ConnectStep::Storing),
                    ConnectActionView::Store(self.folder + "/"@ + self.configs[c as int]),
                )
            },
            ConnectStep::Install => if c == BACK_TO_MAIN {
                cancel
            } else if c == 0 {
                (self.at(ConnectStep::Starting), ConnectActionView::InstallAndStart)
            } else {
                (
                    self.at(ConnectStep::Cancelled),
                    ConnectActionView::Fail("OpenVPN is required for this connection."@),
                )
            },
            _ => cancel,
        }
    }

    /// After an answer: what is known then, and what is to be done. An answer that
    /// does not fit what was asked cancels.
    pub open spec fn after(self, answer: ConnectAnswer) -> (ConnectView, ConnectActionView) {
        match answer {
            ConnectAnswer::Typed(t) => self.typed(t@),
            ConnectAnswer::Chosen(c) => self.chosen(c),
            ConnectAnswer::Stored { path, installed } => if self.step == ConnectStep::Storing {
                let next = ConnectView {
                    info: CdcView { vpn_file: Some(path@), ..self.info },
                    ..self
                };
                if installed {
                    (next.at(ConnectStep::Starting), ConnectActionView::Start)
                } else {
                    (next.at(ConnectStep::Install), ConnectActionView::Ask)
                }
            } else {
                (self.at(ConnectStep::Cancelled), ConnectActionView::Cancel)
            },
            ConnectAnswer::Finished => if self.step == ConnectStep::Starting {
                (self.at(ConnectStep::Done), ConnectActionView::Keep)
            } else {
                (self.at(ConnectStep::Cancelled), ConnectActionView::Cancel)
            },
            ConnectAnswer::Interrupted => (
                self.at(ConnectStep::Cancelled),
                ConnectActionView::Cancel,
            ),
        }
    }
}

impl ConnectWizard {
    /// Before anything was asked.
    pub fn new(in_container: bool, configs: Vec<String>, vpn_folder: String) -> (r: ConnectWizard)
        ensures
            r@ == (ConnectView {
                step: ConnectStep::Host,
                info: CdcView {
                    host: Seq::empty(),
                    port: Seq::empty(),
                    user: Seq::empty(),
                    pass: Seq::empty(),
                    database: Seq::empty(),
                    all: false,
                    entity: Seq::empty(),
                    vpn_file: None,
                },
                in_container,
                configs: texts(configs@),
                folder: vpn_folder@,
            }),
    {
        ConnectWizard {
            step: ConnectStep::Host,
            info: CdcInfo {
                host: String::new(),
                port: String::new(),
                user: String::new(),
                pass: String::new(),
                database: String::new(),
                sync_all_databases: false,
                entity: String::new(),
                vpn_file: None,
            },
            in_container,
            configs,
            vpn_folder,
        }
    }

    fn describe(&mut self) -> (r: ConnectAction)
        ensures
            (final(self)@, r@) == old(self)@.described(),
    {
        if self.in_container {
            self.step = ConnectStep::UseVpn;
            ConnectAction::Ask
        } else {
            self.step = ConnectStep::Done;
            ConnectAction::Keep
        }
    }

    fn take_text(&mut self, t: String) -> (r: ConnectAction)
        ensures
            (final(self)@, r@) == old(self)@.typed(t@),
    {
        let ghost start = self@;
        match self.step {
            ConnectStep::Host => {
                self.info.host = t;
                self.step = ConnectStep::Port;
                assert(self@ =~= start.typed(t@).0);
                ConnectAction::Ask
            },
            ConnectStep::Port => {
                self.info.port = t;
                self.step = ConnectStep::User;
                assert(self@ =~= start.typed(t@).0);
                ConnectAction::Ask
            },
            ConnectStep::User => {
                self.info.user = t;
                self.step = ConnectStep::Password;
                assert(self@ =~= start.typed(t@).0);
                ConnectAction::Ask
            },
            ConnectStep::Password => {
                self.info.pass = t;
                self.step = ConnectStep::Mode;
                assert(self@ =~= start.typed(t@).0);
                ConnectAction::Ask
            },
            ConnectStep::Profile => {
                self.info.database = String::new();
                self.info.sync_all_databases = true;
                self.info.entity = t;
                assert(self@ =~= ConnectView {
                    info: CdcView {
                        database: Seq::empty(),
                        all: true,
                        entity: t@,
                        ..start.info
                    },
                    ..start
                });
                self.describe()
            },
            ConnectStep::Database => {
                self.info.database = t;
                self.info.sync_all_databases = false;
                self.step = ConnectStep::Entity;
                assert(self@ =~= start.typed(t@).0);
                ConnectAction::Ask
            },
            ConnectStep::Entity => {
                self.info.entity = t;
                assert(self@ =~= ConnectView {
                    info: CdcView { entity: t@, ..start.info },
                    ..start
                });
                self.describe()
            },
            _ => {
                self.step = ConnectStep::Cancelled;
                ConnectAction::Cancel
            },
        }
    }

    fn take_choice(&mut self, c: usize) -> (r: ConnectAction)
        ensures
            (final(self)@, r@) == old(self)@.chosen(c),
    {
        assert(texts(self.configs@).len() == self.configs@.len());
        match self.step {
            ConnectStep::Mode => {
                if c == BACK_TO_MAIN {
                    self.step = ConnectStep::Cancelled;
                    ConnectAction::Cancel
                } else if c == 0 {
                    self.step = ConnectStep::Profile;
                    ConnectAction::Ask
                } else {
                    self.step = ConnectStep::Database;
                    ConnectAction::Ask
                }
            },
            ConnectStep::UseVpn => {
                if c == BACK_TO_MAIN {
                    self.step = ConnectStep::Cancelled;
                    ConnectAction::Cancel
                } else if c == 0 {
                    self.step = ConnectStep::VpnProvider;
                    ConnectAction::Ask
                } else {
                    self.step = ConnectStep::Done;
                    ConnectAction::Keep
                }
            },
            ConnectStep::VpnProvider => {
                if c == BACK_TO_MAIN {
                    self.step = ConnectStep::Cancelled;
                    ConnectAction::Cancel
                } else if c == 1 {
                    self.step = ConnectStep::Cancelled;
                    ConnectAction::Unsupported
                } else if self.configs.len() == 0 {
                    self.step = ConnectStep::Cancelled;
                    ConnectAction::NoConfigs
                } else {
                    self.step = ConnectStep::VpnConfig;
                    ConnectAction::Ask
                }
            },
            ConnectStep::VpnConfig => {
                if c >= self.configs.len() {
                    self.step = ConnectStep::Cancelled;
                    ConnectAction::Cancel
                } else {
                    assert(texts(self.configs@)[c as int] == self.configs@[c as int]@);
                    let path = cat3(self.vpn_folder.as_str(), "/", self.configs[c].as_str());
                    self.step = ConnectStep::Storing;
                    ConnectAction::Store(path)
                }
            },
            ConnectStep::Install => {
                if c == BACK_TO_MAIN {
                    self.step = ConnectStep::Cancelled;
                    ConnectAction::Cancel
                } else if c == 0 {
                    self.step = ConnectStep::Starting;
                    ConnectAction::InstallAndStart
                } else {
                    self.step = ConnectStep::Cancelled;
                    ConnectAction::Fail("OpenVPN is required for this connection.".to_owned())
                }
            },
            _ => {
                self.step = ConnectStep::Cancelled;
                ConnectAction::Cancel
            },
        }
    }

    /// Takes in an answer and tells what is to be done.
    pub fn advance(&mut self, answer: ConnectAnswer) -> (r: ConnectAction)
        ensures
            (final(self)@, r@) == old(self)@.after(answer),
    {
        let ghost start = self@;
        match answer {
            ConnectAnswer::Typed(t) => self.take_text(t),
            ConnectAnswer::Chosen(c) => self.take_choice(c),
            ConnectAnswer::Stored { path, installed } => {
                if self.step == ConnectStep::Storing {
                    self.info.vpn_file = Some(path);
                    if installed {
                        self.step = ConnectStep::Starting;
                        assert(self@ =~= start.after(answer).0);
                        ConnectAction::Start
                    } else {
                        self.step = ConnectStep::Install;
                        assert(self@ =~= start.after(answer).0);
                        ConnectAction::Ask
                    }
                } else {
                    self.step = ConnectStep::Cancelled;
                    ConnectAction::Cancel
                }
            },
            ConnectAnswer::Finished => {
                if self.step == ConnectStep::Starting {
                    self.step = ConnectStep::Done;
                    ConnectAction::Keep
                } else {
                    self.step = ConnectStep::Cancelled;
                    ConnectAction::Cancel
                }
            },
            ConnectAnswer::Interrupted => {
                self.step = ConnectStep::Cancelled;
                ConnectAction::Cancel
            },
        }
    }
}

/// Whoever interrupts a question cancels, and nothing is kept.
pub proof fn law_interrupting_cancels(w: ConnectView)
    ensures
        w.after(ConnectAnswer::Interrupted).1 is Cancel,
        w.after(ConnectAnswer::Interrupted).0.info == w.info,
{
}

/// Outside a container no VPN is asked for: what is kept has none.
pub proof fn law_no_vpn_outside(w: ConnectView, t: String)
    requires
        !w.in_container,
        w.step == ConnectStep::Entity || w.step == ConnectStep::Profile,
    ensures
        w.after(ConnectAnswer::Typed(t)).1 is Keep,
        w.after(ConnectAnswer::Typed(t)).0.info.vpn_file == w.info.vpn_file,
{
}

/// A name cut to fit in a list.
pub open spec fn config_label(name: Seq<char>) -> Seq<char> {
    if name.len() > 48 {
        first_chars(name, 47) + "…"@
    } else {
        name
    }
}

/// A name cut to fit in a list.
pub fn label_config(name: &str) -> (r: String)
    ensures
        r@ == config_label(name@),
{
    if chars_of(name).len() > 48 {
        let t = take_chars(name, 47);
        cat2(t.as_str(), "…")
    } else {
        name.to_owned()
    }
}

/// The names of files of a VPN.
pub open spec fn ovpn_names(names: Seq<Seq<char>>) -> Seq<Seq<char>>
    decreases names.len(),
{
    if names.len() == 0 {
        Seq::empty()
    } else {
        let front = ovpn_names(names.drop_last());
        if ".ovpn"@.is_suffix_of(names.last()) {
            front.push(names.last())
        } else {
            front
        }
    }
}

/// The files of a VPN among the files of a folder, in order.
pub fn list_available_ovpn_configs(names: &Vec<String>) -> (r: Vec<String>)
    ensures
        texts(r@) == sorted_texts(ovpn_names(texts(names@))),
{
    let ghost all = texts(names@);
    let mut out: Vec<String> = Vec::new();
    let mut i: usize = 0;
    assert(all.take(0) =~= Seq::empty());
    assert(texts(out@) =~= Seq::empty());
    while i < names.len()
        invariant
            i <= names@.len(),
            all == texts(names@),
            texts(out@) == ovpn_names(all.take(i as int)),
        decreases names@.len() - i,
    {
        assert(all.take(i + 1).drop_last() =~= all.take(i as int));
        assert(all[i as int] == names@[i as int]@);
        if ends_with_text(names[i].as_str(), ".ovpn") {
            let ghost held = texts(out@);
            out.push(names[i].clone());
            assert(texts(out@) =~= held.push(names@[i as int]@));
        }
        i = i + 1;
    }
    assert(all.take(i as int) =~= all);
    sort_texts(out.as_slice())
}

/// The entities that are synced, from the folders that hold their settings: in order,
/// each once.
pub fn list_synced_entities(folders: &Vec<String>) -> (r: Vec<String>)
    ensures
        texts(r@) == distinct_texts(sorted_texts(texts(folders@))),
{
    let sorted = sort_texts(folders.as_slice());
    dedup_texts(sorted.as_slice())
}

/// Whether any entity is synced.
pub fn synced_workspace_ready(folders: &Vec<String>) -> (r: bool)
    ensures
        r == (folders@.len() > 0),
{
    folders.len() > 0
}

/// What is chosen in the main menu.
#[derive(Debug)]
pub enum MainChoice {
    Connect,
    /// Watch the entities that are named.
    Monitor(String),
    /// Tell that no entity is synced, and ask again.
    NoEntities,
    Deploy,
    Exit,
    /// Ask again.
    Again,
}

/// What is chosen, by its texts.
pub enum MainView {
    Connect,
    Monitor(Seq<char>),
    NoEntities,
    Deploy,
    Exit,
    Again,
}

impl View for MainChoice {
    type V = MainView;

    open spec fn view(&self) -> MainView {
        match self {
            MainChoice::Connect => MainView::Connect,
            MainChoice::Monitor(s) => MainView::Monitor(s@),
            MainChoice::NoEntities => MainView::NoEntities,
            MainChoice::Deploy => MainView::Deploy,
            MainChoice::Exit => MainView::Exit,
            MainChoice::Again => MainView::Again,
        }
    }
}

/// The item by which the program ends: the last one.
pub open spec fn exit_item(synced: bool) -> u8 {
    if synced {
        3
    } else {
        1
    }
}

/// What an item of the main menu stands for.
pub open spec fn main_item(choice: u8, synced: bool, entities: Seq<Seq<char>>) -> MainView {
    if choice == exit_item(synced) {
        MainView::Exit
    } else if choice == 0 {
        MainView::Connect
    } else if choice == 1 {
        if entities.len() == 0 {
            MainView::NoEntities
        } else {
            MainView::Monitor(
                "all synchronized entities ("@ + join_spec(entities, ", "@) + ")"@,
            )
        }
    } else if choice == 2 && synced {
        MainView::Deploy
    } else {
        MainView::Again
    }
}

/// What an item of the main menu stands for.
pub fn main_choice(choice: u8, synced: bool, entities: &Vec<String>) -> (r: MainChoice)
    ensures
        r@ == main_item(choice, synced, texts(entities@)),
{
    let exit: u8 = if synced {
        3
    } else {
        1
    };
    if choice == exit {
        return MainChoice::Exit;
    }
    if choice == 0 {
        return MainChoice::Connect;
    }
    if choice == 1 {
        assert(texts(entities@).len() == entities@.len());
        if entities.len() == 0 {
            return MainChoice::NoEntities;
        }
        let list = join_texts(entities.as_slice(), ", ");
        return MainChoice::Monitor(cat3("all synchronized entities (", list.as_str(), ")"));
    }
    if choice == 2 && synced {
        return MainChoice::Deploy;
    }
    MainChoice::Again
}

/// The items of the main menu, by their numbers: those that need synced entities are
/// offered only where there are some.
pub fn main_items(synced: bool) -> (r: Vec<(u8, &'static str)>)
    ensures
        r@.len() == (if synced {
            4int
        } else {
            2
        }),
        r@[0].0 == 0 && r@[0].1@ == "Connect and sync to a database"@,
        r@[r@.len() - 1].0 == exit_item(synced) && r@[r@.len() - 1].1@ == "Exit"@,
        synced ==> r@[1].0 == 1 && r@[1].1@ == "Use Bittice with synced databases"@ && r@[2].0 == 2
            && r@[2].1@ == "Deploy (Docker / server bundle)"@,
{
    if synced {
        vec![
            (0u8, "Connect and sync to a database"),
            (1u8, "Use Bittice with synced databases"),
            (2u8, "Deploy (Docker / server bundle)"),
            (3u8, "Exit"),
        ]
    } else {
        vec![(0u8, "Connect and sync to a database"), (1u8, "Exit")]
    }
}

/// Without synced entities nothing is watched or deployed.
pub proof fn law_menu_without_entities(choice: u8)
    ensures
        main_item(choice, false, Seq::empty()) is Connect || main_item(choice, false, Seq::empty())
            is Exit || main_item(choice, false, Seq::empty()) is Again,
{
}

/// What is turned while something is waited for.
pub fn spin_frame(i: usize) -> (r: &'static str)
    ensures
        r@ == (if i % 4 == 0 {
            "◐"@
        } else if i % 4 == 1 {
            "◓"@
        } else if i % 4 == 2 {
            "◑"@
        } else {
            "◒"@
        }),
{
    let k: usize = i % 4;
    if k == 0 {
        "◐"
    } else if k == 1 {
        "◓"
    } else if k == 2 {
        "◑"
    } else {
        "◒"
    }
}

/// Where the settings of a VPN come from.
#[derive(Debug)]
pub enum OvpnSource {
    Empty,
    /// An address, and the name that the file gets.
    Address(String),
    /// The settings themselves.
    Pasted,
    Path,
}

/// Where the settings of a VPN come from, by its texts.
pub enum SourceView {
    Empty,
    Address(Seq<char>),
    Pasted,
    Path,
}

impl View for OvpnSource {
    type V = SourceView;

    open spec fn view(&self) -> SourceView {
        match self {
            OvpnSource::Empty => SourceView::Empty,
            OvpnSource::Address(s) => SourceView::Address(s@),
            OvpnSource::Pasted => SourceView::Pasted,
            OvpnSource::Path => SourceView::Path,
        }
    }
}

/// Where the settings of a VPN come from: an address over HTTP, settings that name a
/// client and a device, or else a path.
pub open spec fn source_of(input: Seq<char>) -> SourceView {
    if input.len() == 0 {
        SourceView::Empty
    } else if "http://"@.is_prefix_of(input) || "https://"@.is_prefix_of(input) {
        SourceView::Address(pieces(input, '/').last())
    } else if occurs_in(input, "client"@) && occurs_in(input, "dev"@) {
        SourceView::Pasted
    } else {
        SourceView::Path
    }
}

/// Where the settings of a VPN come from.
pub fn ovpn_source(input: &str) -> (r: OvpnSource)
    ensures
        r@ == source_of(input@),
{
    if input.is_empty() {
        return OvpnSource::Empty;
    }
    if starts_with_text(input, "http://") || starts_with_text(input, "https://") {
        let parts = split_on(input, '/');
        let last: usize = parts.len() - 1;
        assert(texts(parts@)[last as int] == parts@[last as int]@);
        assert(texts(parts@).len() == parts@.len());
        return OvpnSource::Address(parts[last].clone());
    }
    if contains_text(input, "client") && contains_text(input, "dev") {
        return OvpnSource::Pasted;
    }
    OvpnSource::Path
}

/// Whether a path is one of another machine, as it is typed on a server.
pub open spec fn foreign_path(input: Seq<char>) -> bool {
    "/Users/"@.is_prefix_of(input) || "C:\\"@.is_prefix_of(input) || "/home/"@.is_prefix_of(input)
}

/// Whether a path is one of another machine, as it is typed on a server.
pub fn is_foreign_path(input: &str) -> (r: bool)
    ensures
        r == foreign_path(input@),
{
    starts_with_text(input, "/Users/") || starts_with_text(input, "C:\\") || starts_with_text(
        input,
        "/home/",
    )
}

/// A path with its back slashes turned.
pub open spec fn turned(s: Seq<char>) -> Seq<char> {
    s.map_values(
        |c: char|
            if c == '\\' {
                '/'
            } else {
                c
            },
    )
}

/// The texts of a list that are not empty.
pub open spec fn nonempty(v: Seq<Seq<char>>) -> Seq<Seq<char>>
    decreases v.len(),
{
    if v.len() == 0 {
        Seq::empty()
    } else {
        let front = nonempty(v.drop_last());
        if v.last().len() > 0 {
            front.push(v.last())
        } else {
            front
        }
    }
}

/// Where a path may be found in a container: the whole of it under the home of the
/// host, or a part of it from some folder on.
pub open spec fn container_paths(input: Seq<char>) -> Seq<Seq<char>> {
    let parts = nonempty(pieces(turned(input), '/'));
    Seq::new(parts.len(), |i: int| "/app/host_home/"@ + join_spec(parts.skip(i), "/"@))
}

fn turn_slashes(s: &str) -> (r: String)
    ensures
        r@ == turned(s@),
{
    let cs = chars_of(s);
    let mut out: Vec<char> = Vec::new();
    let mut i: usize = 0;
    while i < cs.len()
        invariant
            i <= cs@.len(),
            cs@ == s@,
            out@ == turned(s@).take(i as int),
        decreases cs@.len() - i,
    {
        let ghost before = out@;
        if cs[i] == '\\' {
            out.push('/');
        } else {
            out.push(cs[i]);
        }
        i = i + 1;
        assert(out@ =~= turned(s@).take(i as int));
    }
    assert(turned(s@).take(i as int) =~= turned(s@));
    text_of(out.as_slice())
}

/// Where a path may be found in a container.
pub fn path_candidates(input: &str) -> (r: Vec<String>)
    ensures
        texts(r@) == container_paths(input@),
{
    let t = turn_slashes(input);
    let all = split_on(t.as_str(), '/');
    let ghost pieces_all = texts(all@);
    let mut parts: Vec<String> = Vec::new();
    let mut i: usize = 0;
    assert(pieces_all.take(0) =~= Seq::empty());
    assert(texts(parts@) =~= Seq::empty());
    while i < all.len()
        invariant
            i <= all@.len(),
            pieces_all == texts(all@),
            texts(parts@) == nonempty(pieces_all.take(i as int)),
        decreases all@.len() - i,
    {
        assert(pieces_all.take(i + 1).drop_last() =~= pieces_all.take(i as int));
        assert(pieces_all[i as int] == all@[i as int]@);
        if !all[i].as_str().is_empty() {
            let ghost held = texts(parts@);
            parts.push(all[i].clone());
            assert(texts(parts@) =~= held.push(all@[i as int]@));
        }
        i = i + 1;
    }
    assert(pieces_all.take(i as int) =~= pieces_all);
    let ghost ps = texts(parts@);
    let ghost want = container_paths(input@);
    assert(ps.len() == parts@.len());
    let mut out: Vec<String> = Vec::new();
    let mut k: usize = 0;
    assert(texts(out@) =~= want.take(0));
    while k < parts.len()
        invariant
            k <= parts@.len(),
            ps == texts(parts@),
            ps.len() == parts@.len(),
            ps == nonempty(pieces(turned(input@), '/')),
            want == container_paths(input@),
            texts(out@) == want.take(k as int),
        decreases parts@.len() - k,
    {
        let rest = crate::phrase::keep_last(&parts, parts.len() - k);
        assert(texts(rest@) =~= ps.skip(k as int));
        let path = join_texts(rest.as_slice(), "/");
        let c = cat2("/app/host_home/", path.as_str());
        let ghost held = texts(out@);
        out.push(c);
        assert(texts(out@) =~= held.push(c@));
        assert(want.take(k + 1) =~= want.take(k as int).push(want[k as int]));
        k = k + 1;
    }
    assert(want.take(k as int) =~= want);
    out
}

/// What is said of a path of another machine.
pub fn foreign_message(input: &str) -> (r: String)
    ensures
        r@ == "Path Error: You are using a local machine path ('"@ + input@
            + "') on a cloud Linux instance.\n\n1. Open the .ovpn on your computer.\n2. Copy the full text.\n3. Paste it here."@,
{
    cat3(
        "Path Error: You are using a local machine path ('",
        input,
        "') on a cloud Linux instance.\n\n1. Open the .ovpn on your computer.\n2. Copy the full text.\n3. Paste it here.",
    )
}

/// What is said of a path at which there is no file.
pub fn missing_message(input: &str) -> (r: String)
    ensures
        r@ == "File not found at: "@ + input@
            + ".\n- Ensure the path is valid, or paste the .ovpn text (must include client and dev)."@,
{
    cat3(
        "File not found at: ",
        input,
        ".\n- Ensure the path is valid, or paste the .ovpn text (must include client and dev).",
    )
}

} // verus!
