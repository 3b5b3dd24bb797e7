//! The questions that are asked before a deployment, one after another.

use crate::deploy::names::{
    grpc_domain, host_fault, name_fault, suggest_grpc_domain, validate_deployment_name,
    validate_public_hostname,
};
use crate::deploy::placement::{list_targets, target_texts, PlacementView, RdsPlacement};
use crate::phrase::{cat2, cat5};
use crate::text::{join_spec, same_text, starts_with_text, trim_spec, trimmed};
use vstd::prelude::*;

verus! {

/// What a tool is missed for.
pub open spec fn missing_tool(ssh: bool, rsync: bool) -> Option<Seq<char>> {
    if !ssh {
        Some("`ssh` is not on PATH — required for data sync and remote commands."@)
    } else if !rsync {
        Some("`rsync` is not on PATH — required for data sync and remote commands."@)
    } else {
        None
    }
}

/// What is said where a tool is missing.
pub fn check_ssh_rsync(ssh: bool, rsync: bool) -> (r: Option<&'static str>)
    ensures
        match r {
            Some(m) => missing_tool(ssh, rsync) == Some(m@),
            None => missing_tool(ssh, rsync) is None,
        },
{
    if !ssh {
        Some("`ssh` is not on PATH — required for data sync and remote commands.")
    } else if !rsync {
        Some("`rsync` is not on PATH — required for data sync and remote commands.")
    } else {
        None
    }
}

/// Whether a text is the form of a key of an account, white space around it apart.
pub open spec fn is_api_key(raw: Seq<char>) -> bool {
    "bk_live_"@.is_prefix_of(trim_spec(raw))
}

/// The key that was typed, without white space around it; nothing where it has another
/// form.
pub fn read_api_key(raw: &str) -> (r: Option<String>)
    ensures
        match r {
            Some(k) => is_api_key(raw@) && k@ == trim_spec(raw@),
            None => !is_api_key(raw@),
        },
{
    let k = trimmed(raw);
    if starts_with_text(k.as_str(), "bk_live_") {
        Some(k)
    } else {
        None
    }
}

/// What was chosen for a deployment before.
pub struct CloudConfig {
    pub app_name: Option<String>,
    pub rest_domain: Option<String>,
    pub grpc_domain: Option<String>,
}

/// The text of an option.
pub open spec fn told(s: Option<String>) -> Option<Seq<char>> {
    match s {
        Some(x) => Some(x@),
        None => None,
    }
}

/// A setting of a deployment of a name, without white space around it; nothing where
/// it is of another one or blank.
pub open spec fn saved_setting(
    known: Option<Seq<char>>,
    setting: Option<Seq<char>>,
    name: Seq<char>,
) -> Option<Seq<char>> {
    if known == Some(name) {
        match setting {
            Some(s) => if trim_spec(s).len() == 0 {
                None
            } else {
                Some(trim_spec(s))
            },
            None => None,
        }
    } else {
        None
    }
}

fn load_setting(known: &Option<String>, setting: &Option<String>, name: &str) -> (r: Option<String>)
    ensures
        told(r) == saved_setting(told(*known), told(*setting), name@),
{
    match known {
        Some(k) => {
            if !same_text(k.as_str(), name) {
                return None;
            }
        },
        None => {
            return None;
        },
    }
    match setting {
        Some(s) => {
            let t = trimmed(s.as_str());
            if t.as_str().is_empty() {
                None
            } else {
                Some(t)
            }
        },
        None => None,
    }
}

impl CloudConfig {
    /// The host name for REST that was chosen for a deployment.
    pub fn load_cloud_config_domain(&self, app_name: &str) -> (r: Option<String>)
        ensures
            told(r) == saved_setting(told(self.app_name), told(self.rest_domain), app_name@),
    {
        load_setting(&self.app_name, &self.rest_domain, app_name)
    }

    /// The host name for gRPC that was chosen for a deployment.
    pub fn load_cloud_config_grpc_domain(&self, app_name: &str) -> (r: Option<String>)
        ensures
            told(r) == saved_setting(told(self.app_name), told(self.grpc_domain), app_name@),
    {
        load_setting(&self.app_name, &self.grpc_domain, app_name)
    }
}

/// What is asked.
#[derive(Clone, Copy, Debug, PartialEq, Eq, Structural)]
pub enum DeployStep {
    Provider,
    Placement,
    Size,
    Name,
    Rest,
    Grpc,
    Confirm,
    Ready,
    Stopped,
}

/// What was answered.
pub enum DeployAnswer {
    /// An item of a list.
    Chosen(u8),
    Typed(String),
    /// Where the deployment goes.
    Placed(RdsPlacement),
    Interrupted,
}

/// What is to be done then.
#[derive(Debug)]
pub enum DeployAsk {
    /// Find out where the deployment goes.
    Place,
    Size,
    Name,
    /// Tell what is wrong, and ask again.
    Again(String),
    /// Ask for the host name for REST, with a default.
    Rest(String),
    /// Ask for the host name for gRPC, with a default.
    Grpc(String),
    /// Ask whether to go on, with a summary.
    Confirm(String),
    Deploy,
    Stop,
    /// Tell that the provider is not supported, and stop.
    Unsupported,
}

/// What is to be done, by its texts.
pub enum AskView {
    Place,
    Size,
    Name,
    Again(Seq<char>),
    Rest(Seq<char>),
    Grpc(Seq<char>),
    Confirm(Seq<char>),
    Deploy,
    Stop,
    Unsupported,
}

impl View for DeployAsk {
    type V = AskView;

    open spec fn view(&self) -> AskView {
        match self {
            DeployAsk::Place => AskView::Place,
            DeployAsk::Size => AskView::Size,
            DeployAsk::Name => AskView::Name,
            DeployAsk::Again(s) => AskView::Again(s@),
            DeployAsk::Rest(s) => AskView::Rest(s@),
            DeployAsk::Grpc(s) => AskView::Grpc(s@),
            DeployAsk::Confirm(s) => AskView::Confirm(s@),
            DeployAsk::Deploy => AskView::Deploy,
            DeployAsk::Stop => AskView::Stop,
            DeployAsk::Unsupported => AskView::Unsupported,
        }
    }
}

/// What is known so far.
pub struct DeployWizard {
    pub step: DeployStep,
    pub config: CloudConfig,
    pub placement: Option<RdsPlacement>,
    pub instance_type: String,
    pub app_name: String,
    pub rest_domain: String,
    pub grpc_domain: String,
}

/// What a `DeployWizard` stands for.
pub struct DeployView {
    pub step: DeployStep,
    pub known: Option<Seq<char>>,
    pub known_rest: Option<Seq<char>>,
    pub known_grpc: Option<Seq<char>>,
    pub placement: Option<PlacementView>,
    pub size: Seq<char>,
    pub name: Seq<char>,
    pub rest: Seq<char>,
    pub grpc: Seq<char>,
}

impl View for DeployWizard {
    type V = DeployView;

    open spec fn view(&self) -> DeployView {
        DeployView {
            step: self.step,
            known: told(self.config.app_name),
            known_rest: told(self.config.rest_domain),
            known_grpc: told(self.config.grpc_domain),
            placement: match self.placement {
                Some(p) => Some(p@),
                None => None,
            },
            size: self.instance_type@,
            name: self.app_name@,
            rest: self.rest_domain@,
            grpc: self.grpc_domain@,
        }
    }
}

/// The item that stands for going back, or for not going on.
pub const BACK: u8 = 255;

/// The sizes of machines that are offered.
pub open spec fn size_of(choice: u8) -> Seq<char> {
    if choice == 0 {
        "t3.micro"@
    } else if choice == 1 {
        "t3.small"@
    } else if choice == 2 {
        "t3.medium"@
    } else {
        "t3.large"@
    }
}

/// The size of a machine that was chosen.
pub fn machine_size(choice: u8) -> (r: &'static str)
    ensures
        r@ == size_of(choice),
{
    if choice == 0 {
        "t3.micro"
    } else if choice == 1 {
        "t3.small"
    } else if choice == 2 {
        "t3.medium"
    } else {
        "t3.large"
    }
}

/// What is deployed, in a line.
pub open spec fn summary_of(name: Seq<char>, size: Seq<char>, p: PlacementView) -> Seq<char> {
    "(name: "@ + name + ", region: "@ + p.region + ", VM: "@ + (size + ", VPC: "@ + p.vpc
        + " → RDS ["@ + join_spec(target_texts(p.targets), ", "@)) + "])"@
}

impl DeployView {
    /// Stopped, with all else as it was.
    pub open spec fn stopped(self) -> DeployView {
        DeployView { step: DeployStep::Stopped, ..self }
    }

    /// After a name was typed: asked again where it is none.
    pub open spec fn named(self, typed: Seq<char>) -> (DeployView, AskView) {
        let n = trim_spec(typed);
        match name_fault(n) {
            Some(e) => (self, AskView::Again(e.text() + " Try again."@)),
            None => (
                DeployView { name: n, step: DeployStep::Rest, ..self },
                AskView::Rest(
                    match saved_setting(self.known, self.known_rest, n) {
                        Some(d) => d,
                        None => Seq::empty(),
                    },
                ),
            ),
        }
    }

    /// After the host name for REST was typed: asked again where it is none.
    pub open spec fn rest_named(self, typed: Seq<char>) -> (DeployView, AskView) {
        let h = trim_spec(typed);
        match host_fault(h) {
            Some(e) => (self, AskView::Again(e.text(h) + " Try again."@)),
            None => (
                DeployView { rest: h, step: DeployStep::Grpc, ..self },
                AskView::Grpc(
                    match saved_setting(self.known, self.known_grpc, self.name) {
                        Some(d) => d,
                        None => grpc_domain(h),
                    },
                ),
            ),
        }
    }

    /// After the host name for gRPC was typed: asked again where it is none.
    pub open spec fn grpc_named(self, typed: Seq<char>) -> (DeployView, AskView) {
        let h = trim_spec(typed);
        match host_fault(h) {
            Some(e) => (self, AskView::Again(e.text(h) + " Try again."@)),
            None => match self.placement {
                Some(p) => (
                    DeployView { grpc: h, step: DeployStep::Confirm, ..self },
                    AskView::Confirm(summary_of(self.name, self.size, p)),
                ),
                None => (self.stopped(), AskView::Stop),
            },
        }
    }

    /// After an answer: what is known then, and what is to be done. An answer that
    /// does not fit what was asked stops the questions.
    pub open spec fn after(self, answer: DeployAnswer) -> (DeployView, AskView) {
        match (self.step, answer) {
            (DeployStep::Provider, DeployAnswer::Chosen(c)) => if c == BACK {
                (self.stopped(), AskView::Stop)
            } else if c == 1 || c == 2 {
                (self.stopped(), AskView::Unsupported)
            } else {
                (DeployView { step: DeployStep::Placement, ..self }, AskView::Place)
            },
            (DeployStep::Placement, DeployAnswer::Placed(p)) => (
                DeployView { placement: Some(p@), step: DeployStep::Size, ..self },
                AskView::Size,
            ),
            (DeployStep::Size, DeployAnswer::Chosen(c)) => (
                DeployView { size: size_of(c), step: DeployStep::Name, ..self },
                AskView::Name,
            ),
            (DeployStep::Name, DeployAnswer::Typed(t)) => self.named(t@),
            (DeployStep::Rest, DeployAnswer::Typed(t)) => self.rest_named(t@),
            (DeployStep::Grpc, DeployAnswer::Typed(t)) => self.grpc_named(t@),
            (DeployStep::Confirm, DeployAnswer::Chosen(c)) => if c == BACK {
                (self.stopped(), AskView::Stop)
            } else {
                (DeployView { step: DeployStep::Ready, ..self }, AskView::Deploy)
            },
            _ => (self.stopped(), AskView::Stop),
        }
    }
}

impl DeployWizard {
    /// Before anything was asked.
    pub fn new(config: CloudConfig) -> (r: DeployWizard)
        ensures
            r@ == (DeployView {
                step: DeployStep::Provider,
                known: told(config.app_name),
                known_rest: told(config.rest_domain),
                known_grpc: told(config.grpc_domain),
                placement: None,
                size: Seq::empty(),
                name: Seq::empty(),
                rest: Seq::empty(),
                grpc: Seq::empty(),
            }),
    {
        DeployWizard {
            step: DeployStep::Provider,
            config,
            placement: None,
            instance_type: String::new(),
            app_name: String::new(),
            rest_domain: String::new(),
            grpc_domain: String::new(),
        }
    }

    fn take_name(&mut self, typed: &str) -> (r: DeployAsk)
        ensures
            (final(self)@, r@) == old(self)@.named(typed@),
    {
        let n = trimmed(typed);
        match validate_deployment_name(n.as_str()) {
            Err(e) => {
                let m = e.message();
                DeployAsk::Again(cat2(m.as_str(), " Try again."))
            },
            Ok(()) => {
                let saved = self.config.load_cloud_config_domain(n.as_str());
                self.app_name = n;
                self.step = DeployStep::Rest;
                match saved {
                    Some(d) => DeployAsk::Rest(d),
                    None => DeployAsk::Rest(String::new()),
                }
            },
        }
    }

    fn take_rest(&mut self, typed: &str) -> (r: DeployAsk)
        ensures
            (final(self)@, r@) == old(self)@.rest_named(typed@),
    {
        let h = trimmed(typed);
        match validate_public_hostname(h.as_str()) {
            Err(e) => {
                let m = e.message(h.as_str());
                DeployAsk::Again(cat2(m.as_str(), " Try again."))
            },
            Ok(()) => {
                let saved = self.config.load_cloud_config_grpc_domain(self.app_name.as_str());
                let suggested = suggest_grpc_domain(h.as_str());
                self.rest_domain = h;
                self.step = DeployStep::Grpc;
                match saved {
                    Some(d) => DeployAsk::Grpc(d),
                    None => DeployAsk::Grpc(suggested),
                }
            },
        }
    }

    fn take_grpc(&mut self, typed: &str) -> (r: DeployAsk)
        ensures
            (final(self)@, r@) == old(self)@.grpc_named(typed@),
    {
        let h = trimmed(typed);
        match validate_public_hostname(h.as_str()) {
            Err(e) => {
                let m = e.message(h.as_str());
                DeployAsk::Again(cat2(m.as_str(), " Try again."))
            },
            Ok(()) => {
                let summary = match &self.placement {
                    None => {
                        self.step = DeployStep::Stopped;
                        return DeployAsk::Stop;
                    },
                    Some(p) => {
                        let mut s = cat5(
                            "(name: ",
                            self.app_name.as_str(),
                            ", region: ",
                            p.region.as_str(),
                            ", VM: ",
                        );
                        let list = list_targets(&p.targets);
                        let t = cat5(
                            self.instance_type.as_str(),
                            ", VPC: ",
                            p.vpc_id.as_str(),
                            " → RDS [",
                            list.as_str(),
                        );
                        s.append(t.as_str());
                        s.append("])");
                        s
                    },
                };
                self.grpc_domain = h;
                self.step = DeployStep::Confirm;
                DeployAsk::Confirm(summary)
            },
        }
    }

    /// Takes in an answer and tells what is to be done.
    pub fn advance(&mut self, answer: DeployAnswer) -> (r: DeployAsk)
        ensures
            (final(self)@, r@) == old(self)@.after(answer),
    {
        match (self.step, answer) {
            (DeployStep::Provider, DeployAnswer::Chosen(c)) => {
                if c == BACK {
                    self.step = DeployStep::Stopped;
                    DeployAsk::Stop
                } else if c == 1 || c == 2 {
                    self.step = DeployStep::Stopped;
                    DeployAsk::Unsupported
                } else {
                    self.step = DeployStep::Placement;
                    DeployAsk::Place
                }
            },
            (DeployStep::Placement, DeployAnswer::Placed(p)) => {
                self.placement = Some(p);
                self.step = DeployStep::Size;
                DeployAsk::Size
            },
            (DeployStep::Size, DeployAnswer::Chosen(c)) => {
                self.instance_type = machine_size(c).to_owned();
                self.step = DeployStep::Name;
                DeployAsk::Name
            },
            (DeployStep::Name, DeployAnswer::Typed(t)) => self.take_name(t.as_str()),
            (DeployStep::Rest, DeployAnswer::Typed(t)) => self.take_rest(t.as_str()),
            (DeployStep::Grpc, DeployAnswer::Typed(t)) => self.take_grpc(t.as_str()),
            (DeployStep::Confirm, DeployAnswer::Chosen(c)) => {
                if c == BACK {
                    self.step = DeployStep::Stopped;
                    DeployAsk::Stop
                } else {
                    self.step = DeployStep::Ready;
                    DeployAsk::Deploy
                }
            },
            _ => {
                self.step = DeployStep::Stopped;
                DeployAsk::Stop
            },
        }
    }

    /// What is said before going on.
    pub fn address_line(&self) -> (r: String)
        ensures
            r@ == "REST will be https://"@ + self@.rest + "  |  gRPC "@ + self@.grpc
                + ":50051  |  Admin via SSH tunnel"@,
    {
        cat5(
            "REST will be https://",
            self.rest_domain.as_str(),
            "  |  gRPC ",
            self.grpc_domain.as_str(),
            ":50051  |  Admin via SSH tunnel",
        )
    }
}

/// Nothing is deployed but after it was asked whether to go on.
pub proof fn law_deploys_only_confirmed(w: DeployView, answer: DeployAnswer)
    requires
        w.after(answer).1 is Deploy,
    ensures
        w.step == DeployStep::Confirm,
        w.after(answer).0 == (DeployView { step: DeployStep::Ready, ..w }),
{
}

/// Whoever interrupts a question stops the questions.
pub proof fn law_interrupting_stops(w: DeployView)
    ensures
        w.after(DeployAnswer::Interrupted).1 is Stop,
        w.after(DeployAnswer::Interrupted).0 == w.stopped(),
{
}

/// Whether the names that are held so far are names.
pub open spec fn names_hold(w: DeployView) -> bool {
    match w.step {
        DeployStep::Rest => name_fault(w.name) is None,
        DeployStep::Grpc => name_fault(w.name) is None && host_fault(w.rest) is None,
        DeployStep::Confirm => name_fault(w.name) is None && host_fault(w.rest) is None
            && host_fault(w.grpc) is None && w.placement is Some,
        DeployStep::Ready => name_fault(w.name) is None && host_fault(w.rest) is None
            && host_fault(w.grpc) is None && w.placement is Some,
        _ => true,
    }
}

/// From the first question on, what is held are names, and what is deployed has all of
/// them and a place.
pub proof fn law_names_hold(w: DeployView, answer: DeployAnswer)
    requires
        names_hold(w),
    ensures
        names_hold(w.after(answer).0),
{
}

} // verus!
