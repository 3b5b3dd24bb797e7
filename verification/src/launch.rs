//! How the program is started.

use crate::settings::{is_on, is_truthy, setting_view};
use crate::text::{blank, is_blank};
use vstd::prelude::*;

verus! {

/// What the program does when it is started.
#[derive(Clone, Copy, Debug, PartialEq, Eq, Structural)]
pub enum RunMode {
    /// Nothing: the engine runs already as the first process of the container.
    AlreadyRunning,
    /// The engine.
    Engine,
    /// Nothing: the container is for the engine only.
    Locked,
    /// A command.
    Command,
    /// The questions.
    Wizard,
}

/// Whether the container is for the engine only.
pub open spec fn locked(in_container: bool, engine_only: Option<Seq<char>>) -> bool {
    in_container && is_on(engine_only)
}

/// Whether the container is for the engine only.
pub fn docker_engine_deploy_locked(in_container: bool, engine_only: Option<&str>) -> (r: bool)
    ensures
        r == locked(in_container, setting_view(engine_only)),
{
    in_container && is_truthy(engine_only)
}

/// What tells how the program is started.
pub struct Launch {
    /// How many words the command has, with the program's own name.
    pub words: usize,
    pub in_container: bool,
    /// Whether it is the first process.
    pub first_process: bool,
    /// The entity that is set.
    pub entity: Option<String>,
    /// Whether only the engine is to run, as it is set.
    pub engine_only: Option<String>,
    /// Whether the command is that of the questions.
    pub is_setup: bool,
}

/// Whether an entity is set that is not blank.
pub open spec fn has_entity(entity: Option<Seq<char>>) -> bool {
    entity matches Some(e) && !blank(e)
}

/// The text of an option.
pub open spec fn set_text(s: Option<String>) -> Option<Seq<char>> {
    match s {
        Some(x) => Some(x@),
        None => None,
    }
}

impl Launch {
    /// Whether the program is started without a command and without an entity.
    pub open spec fn bare(&self) -> bool {
        self.words == 1 && !has_entity(set_text(self.entity))
    }

    /// What the program does.
    pub open spec fn mode(&self) -> RunMode {
        if self.in_container && self.bare() && !self.first_process && is_on(
            set_text(self.engine_only),
        ) {
            RunMode::AlreadyRunning
        } else if self.in_container && self.bare() && self.first_process {
            RunMode::Engine
        } else if self.words > 1 || has_entity(set_text(self.entity)) {
            if locked(self.in_container, set_text(self.engine_only)) {
                RunMode::Locked
            } else {
                RunMode::Command
            }
        } else {
            RunMode::Wizard
        }
    }

    fn entity_is_set(&self) -> (r: bool)
        ensures
            r == has_entity(set_text(self.entity)),
    {
        match &self.entity {
            Some(e) => !is_blank(e.as_str()),
            None => false,
        }
    }

    fn engine_is_only(&self) -> (r: bool)
        ensures
            r == is_on(set_text(self.engine_only)),
    {
        match &self.engine_only {
            Some(s) => is_truthy(Some(s.as_str())),
            None => is_truthy(None),
        }
    }

    /// What the program does.
    pub fn run_mode(&self) -> (r: RunMode)
        ensures
            r == self.mode(),
    {
        let entity = self.entity_is_set();
        let bare = self.words == 1 && !entity;
        let only = self.engine_is_only();
        if self.in_container && bare && !self.first_process && only {
            return RunMode::AlreadyRunning;
        }
        if self.in_container && bare && self.first_process {
            return RunMode::Engine;
        }
        if self.words > 1 || entity {
            if self.in_container && only {
                return RunMode::Locked;
            }
            return RunMode::Command;
        }
        RunMode::Wizard
    }

    /// Whether nothing is to be logged to the terminal: the questions are asked there.
    pub fn quiet_terminal(&self) -> (r: bool)
        ensures
            r == (self.bare() && !(self.in_container && self.first_process) || self.is_setup),
    {
        let bare = self.words == 1 && !self.entity_is_set();
        (bare && !(self.in_container && self.first_process)) || self.is_setup
    }
}

/// What is migrated.
#[derive(Debug)]
pub enum MigrateScope {
    All,
    Table { entity: String, table: String },
    /// Too little was given.
    Unclear,
}

/// What is migrated: everything, or the table that is named.
pub fn migrate_scope(all: bool, entity: Option<String>, table: Option<String>) -> (r: MigrateScope)
    ensures
        match r {
            MigrateScope::All => all,
            MigrateScope::Table { entity: e, table: t } => !all && set_text(entity) == Some(e@)
                && set_text(table) == Some(t@),
            MigrateScope::Unclear => !all && (entity is None || table is None),
        },
{
    if all {
        return MigrateScope::All;
    }
    match (entity, table) {
        (Some(entity), Some(table)) => MigrateScope::Table { entity, table },
        _ => MigrateScope::Unclear,
    }
}

/// What is kept in step.
#[derive(Debug)]
pub enum SyncScope {
    All,
    Database(String),
    /// No database was named.
    Unclear,
}

/// What is kept in step: every database, or the one that is named.
pub fn sync_scope(sync_all: bool, database: Option<String>) -> (r: SyncScope)
    ensures
        match r {
            SyncScope::All => sync_all,
            SyncScope::Database(d) => !sync_all && set_text(database) == Some(d@),
            SyncScope::Unclear => !sync_all && database is None,
        },
{
    if sync_all {
        return SyncScope::All;
    }
    match database {
        Some(d) => SyncScope::Database(d),
        None => SyncScope::Unclear,
    }
}

/// Outside a container a start without a command asks the questions.
pub proof fn law_bare_start_asks(l: Launch)
    requires
        l.bare(),
        !l.in_container,
    ensures
        l.mode() == RunMode::Wizard,
{
}

/// In a container for the engine only no command is run.
pub proof fn law_locked_runs_no_command(l: Launch)
    requires
        locked(l.in_container, set_text(l.engine_only)),
    ensures
        l.mode() != RunMode::Command,
{
}

} // verus!
