//! How the place of a deployment is found: the databases are named one by one, all of
//! one network, and a part of that network which is open to the outside is picked.

use crate::deploy::placement::{
    check_vpc, describe_rds, facts_fault, find_public_subnets, nth_label, nth_text, open_parts,
    pair_views, subnet_label, subnet_text, subnet_views, target_views, vpc_message, PlacementView,
    RdsFacts, RdsFault, RdsPlacement, RdsTarget, Subnet, SubnetView, TargetView,
};
use crate::phrase::{cat2, cat3};
use crate::text::{texts, trim_spec, trimmed};
use vstd::prelude::*;

verus! {

/// What is awaited.
#[derive(Clone, Copy, Debug, PartialEq, Eq, Structural)]
pub enum FindStep {
    Identifier,
    Region,
    Description,
    Parts,
    Pick,
    Range,
    Found,
    Failed,
}

/// What happened.
pub enum FindEvent {
    Typed(String),
    /// What is known of the database that was named.
    Described(Option<RdsFacts>),
    /// The parts of the network.
    Listed(Vec<Subnet>),
    /// A part that was picked, by its number.
    Picked(usize),
    /// The addresses of the network.
    Ranged(Option<String>),
    Interrupted,
}

/// What is to be done then.
#[derive(Debug)]
pub enum FindAction {
    /// Ask for a database, counted by a label, with a default.
    AskIdentifier { label: String, default: String },
    /// Ask for its region, with a default.
    AskRegion(String),
    Describe { identifier: String, region: String },
    /// List the parts of a network.
    List { vpc: String, region: String },
    /// Let one of these parts be picked.
    Pick(Vec<String>),
    /// Fetch the addresses of a network.
    FetchRange { vpc: String, region: String },
    Done,
    /// Tell why it cannot go on.
    Fail(String),
}

/// What is to be done, by its texts.
pub enum FindActionView {
    AskIdentifier { label: Seq<char>, default: Seq<char> },
    AskRegion(Seq<char>),
    Describe { identifier: Seq<char>, region: Seq<char> },
    List { vpc: Seq<char>, region: Seq<char> },
    Pick(Seq<Seq<char>>),
    FetchRange { vpc: Seq<char>, region: Seq<char> },
    Done,
    Fail(Seq<char>),
}

impl View for FindAction {
    type V = FindActionView;

    open spec fn view(&self) -> FindActionView {
        match self {
            FindAction::AskIdentifier { label, default } => FindActionView::AskIdentifier {
                label: label@,
                default: default@,
            },
            FindAction::AskRegion(d) => FindActionView::AskRegion(d@),
            FindAction::Describe { identifier, region } => FindActionView::Describe {
                identifier: identifier@,
                region: region@,
            },
            FindAction::List { vpc, region } => FindActionView::List {
                vpc: vpc@,
                region: region@,
            },
            FindAction::Pick(labels) => FindActionView::Pick(texts(labels@)),
            FindAction::FetchRange { vpc, region } => FindActionView::FetchRange {
                vpc: vpc@,
                region: region@,
            },
            FindAction::Done => FindActionView::Done,
            FindAction::Fail(m) => FindActionView::Fail(m@),
        }
    }
}

/// What is known so far.
pub struct Discovery {
    pub step: FindStep,
    /// The names and regions that the profiles hint at.
    pub hints: Vec<(String, String)>,
    /// The databases that were taken.
    pub targets: Vec<RdsTarget>,
    /// The database that is asked for.
    pub identifier: String,
    pub region: String,
    pub vpc: String,
    pub parts: Vec<Subnet>,
    pub subnet: String,
    pub cidr: String,
}

/// What a `Discovery` stands for.
#[verifier::ext_equal]
pub struct FindView {
    pub step: FindStep,
    pub hints: Seq<(Seq<char>, Seq<char>)>,
    pub targets: Seq<TargetView>,
    pub identifier: Seq<char>,
    pub region: Seq<char>,
    pub vpc: Seq<char>,
    pub parts: Seq<SubnetView>,
    pub subnet: Seq<char>,
    pub cidr: Seq<char>,
}

impl View for Discovery {
    type V = FindView;

    open spec fn view(&self) -> FindView {
        FindView {
            step: self.step,
            hints: pair_views(self.hints@),
            targets: target_views(self.targets@),
            identifier: self.identifier@,
            region: self.region@,
            vpc: self.vpc@,
            parts: subnet_views(self.parts@),
            subnet: self.subnet@,
            cidr: self.cidr@,
        }
    }
}

/// What is said of a database that cannot be taken.
pub open spec fn fault_text(fault: RdsFault, identifier: Seq<char>, region: Seq<char>) -> Seq<char> {
    match fault {
        RdsFault::NotFound => "RDS '"@ + identifier + "' not found in region "@ + region,
        RdsFault::NoVpc => "VpcId missing on RDS DBSubnetGroup"@,
        RdsFault::NoPort => "Endpoint.Port missing on RDS"@,
        RdsFault::NoGroup => "RDS has no VPC security group attached"@,
    }
}

/// What is said of a database that cannot be taken.
pub fn fault_message(fault: RdsFault, identifier: &str, region: &str) -> (r: String)
    ensures
        r@ == fault_text(fault, identifier@, region@),
{
    match fault {
        RdsFault::NotFound => {
            let s = cat3("RDS '", identifier, "' not found in region ");
            cat2(s.as_str(), region)
        },
        RdsFault::NoVpc => "VpcId missing on RDS DBSubnetGroup".to_owned(),
        RdsFault::NoPort => "Endpoint.Port missing on RDS".to_owned(),
        RdsFault::NoGroup => "RDS has no VPC security group attached".to_owned(),
    }
}

/// What is said of a network without a part that is open to the outside.
pub open spec fn closed_text(vpc: Seq<char>) -> Seq<char> {
    "VPC "@ + vpc
        + " has no subnet with MapPublicIpOnLaunch=true.\nBittice needs a public subnet to receive SSH and REST/gRPC ingress.\nCreate one (or enable auto-assign public IPv4 on an existing subnet) and retry."@
}

/// The lines in which parts of a network are listed.
pub open spec fn part_lines(parts: Seq<SubnetView>) -> Seq<Seq<char>> {
    parts.map_values(|s: SubnetView| subnet_text(s))
}

impl FindView {
    /// How many databases are asked for: as many as are hinted at, and one at least.
    pub open spec fn total(self) -> int {
        if self.hints.len() == 0 {
            1
        } else {
            self.hints.len() as int
        }
    }

    /// The question for the next database.
    pub open spec fn question(self) -> FindActionView {
        let i = self.targets.len() as int;
        FindActionView::AskIdentifier {
            label: nth_text(i, self.total()),
            default: if i < self.hints.len() {
                self.hints[i].0
            } else {
                Seq::empty()
            },
        }
    }

    /// Given up, with what is said.
    pub open spec fn failed(self, message: Seq<char>) -> (FindView, FindActionView) {
        (FindView { step: FindStep::Failed, ..self }, FindActionView::Fail(message))
    }

    /// After a database was named: the first tells the region, which all others share.
    pub open spec fn named(self, typed: Seq<char>) -> (FindView, FindActionView) {
        let id = trim_spec(typed);
        if id.len() == 0 {
            self.failed("RDS identifier is required"@)
        } else if self.targets.len() == 0 {
            (
                FindView { identifier: id, step: FindStep::Region, ..self },
                FindActionView::AskRegion(
                    if self.hints.len() == 0 {
                        "us-east-1"@
                    } else {
                        self.hints[0].1
                    },
                ),
            )
        } else {
            (
                FindView { identifier: id, step: FindStep::Description, ..self },
                FindActionView::Describe { identifier: id, region: self.region },
            )
        }
    }

    /// After a database was described.
    pub open spec fn described(self, facts: Option<RdsFacts>) -> (FindView, FindActionView) {
        match facts_fault(facts) {
            Some(e) => self.failed(fault_text(e, self.identifier, self.region)),
            None => {
                let vpc = facts->0.vpc->0@;
                if self.targets.len() > 0 && vpc != self.vpc {
                    self.failed(vpc_message(self.identifier, vpc, self.vpc))
                } else {
                    let target = TargetView {
                        identifier: self.identifier,
                        group: facts->0.group->0@,
                        port: (facts->0.port->0 % 0x1_0000) as u16,
                    };
                    let taken = FindView { vpc, targets: self.targets.push(target), ..self };
                    if taken.targets.len() < self.total() {
                        (FindView { step: FindStep::Identifier, ..taken }, taken.question())
                    } else {
                        (
                            FindView { step: FindStep::Parts, ..taken },
                            FindActionView::List { vpc, region: self.region },
                        )
                    }
                }
            },
        }
    }

    /// With a part that was picked.
    pub open spec fn picked(self, i: int) -> (FindView, FindActionView) {
        (
            FindView { subnet: self.parts[i].id, step: FindStep::Range, ..self },
            FindActionView::FetchRange { vpc: self.vpc, region: self.region },
        )
    }

    /// After the parts of the network were listed: the only one is taken without a
    /// question.
    pub open spec fn listed(self, all: Seq<SubnetView>) -> (FindView, FindActionView) {
        let known = FindView { parts: open_parts(all), ..self };
        if known.parts.len() == 0 {
            known.failed(closed_text(self.vpc))
        } else if known.parts.len() == 1 {
            known.picked(0)
        } else {
            (
                FindView { step: FindStep::Pick, ..known },
                FindActionView::Pick(part_lines(known.parts)),
            )
        }
    }

    /// After something happened: what is known then, and what is to be done. What does
    /// not fit what is awaited ends the search.
    pub open spec fn after(self, event: FindEvent) -> (FindView, FindActionView) {
        match (self.step, event) {
            (FindStep::Identifier, FindEvent::Typed(t)) => self.named(t@),
            (FindStep::Region, FindEvent::Typed(t)) => (
                FindView { region: trim_spec(t@), step: FindStep::Description, ..self },
                FindActionView::Describe { identifier: self.identifier, region: trim_spec(t@) },
            ),
            (FindStep::Description, FindEvent::Described(f)) => self.described(f),
            (FindStep::Parts, FindEvent::Listed(all)) => self.listed(subnet_views(all@)),
            (FindStep::Pick, FindEvent::Picked(i)) => if i < self.parts.len() {
                self.picked(i as int)
            } else {
                self.failed("cancelled"@)
            },
            (FindStep::Range, FindEvent::Ranged(c)) => match c {
                Some(c) => (
                    FindView { cidr: c@, step: FindStep::Found, ..self },
                    FindActionView::Done,
                ),
                None => self.failed("CidrBlock not found for VPC "@ + self.vpc),
            },
            _ => self.failed("cancelled"@),
        }
    }

    /// The place that was found.
    pub open spec fn placement(self) -> PlacementView {
        PlacementView {
            region: self.region,
            vpc: self.vpc,
            subnet: self.subnet,
            cidr: self.cidr,
            targets: self.targets,
        }
    }
}

impl Discovery {
    /// Whether the databases that are asked for can be counted on.
    pub open spec fn wf(&self) -> bool {
        self.step == FindStep::Identifier || self.step == FindStep::Region || self.step
            == FindStep::Description ==> self@.targets.len() < self@.total()
    }

    /// Before anything was asked, with the first question.
    pub fn new(hints: Vec<(String, String)>) -> (r: (Discovery, FindAction))
        ensures
            r.0.wf(),
            r.0@ == (FindView {
                step: FindStep::Identifier,
                hints: pair_views(hints@),
                targets: Seq::empty(),
                identifier: Seq::empty(),
                region: Seq::empty(),
                vpc: Seq::empty(),
                parts: Seq::empty(),
                subnet: Seq::empty(),
                cidr: Seq::empty(),
            }),
            r.1@ == r.0@.question(),
    {
        let d = Discovery {
            step: FindStep::Identifier,
            hints,
            targets: Vec::new(),
            identifier: String::new(),
            region: String::new(),
            vpc: String::new(),
            parts: Vec::new(),
            subnet: String::new(),
            cidr: String::new(),
        };
        assert(d@.targets =~= Seq::empty());
        assert(d@.parts =~= Seq::empty());
        let q = d.ask_next();
        (d, q)
    }

    fn total_count(&self) -> (r: usize)
        ensures
            r == self@.total(),
    {
        assert(self@.hints.len() == self.hints@.len());
        if self.hints.len() == 0 {
            1
        } else {
            self.hints.len()
        }
    }

    fn ask_next(&self) -> (r: FindAction)
        requires
            self@.targets.len() < self@.total(),
        ensures
            r@ == self@.question(),
    {
        assert(self@.targets.len() == self.targets@.len());
        assert(self@.hints.len() == self.hints@.len());
        let i = self.targets.len();
        let label = nth_label(i, self.total_count());
        let default = if i < self.hints.len() {
            assert(self@.hints[i as int].0 == self.hints@[i as int].0@);
            self.hints[i].0.clone()
        } else {
            String::new()
        };
        assert(i >= self.hints@.len() ==> default@ =~= Seq::<char>::empty());
        FindAction::AskIdentifier { label, default }
    }

    fn give_up(&mut self, message: String) -> (r: FindAction)
        ensures
            final(self).wf(),
            (final(self)@, r@) == old(self)@.failed(message@),
    {
        self.step = FindStep::Failed;
        FindAction::Fail(message)
    }

    fn take_name(&mut self, typed: &str) -> (r: FindAction)
        requires
            old(self).wf(),
            old(self).step == FindStep::Identifier,
        ensures
            final(self).wf(),
            (final(self)@, r@) == old(self)@.named(typed@),
    {
        let id = trimmed(typed);
        if id.as_str().is_empty() {
            return self.give_up("RDS identifier is required".to_owned());
        }
        assert(self@.targets.len() == self.targets@.len());
        assert(self@.hints.len() == self.hints@.len());
        self.identifier = id;
        if self.targets.len() == 0 {
            self.step = FindStep::Region;
            if self.hints.len() == 0 {
                FindAction::AskRegion("us-east-1".to_owned())
            } else {
                assert(self@.hints[0].1 == self.hints@[0].1@);
                FindAction::AskRegion(self.hints[0].1.clone())
            }
        } else {
            self.step = FindStep::Description;
            FindAction::Describe {
                identifier: self.identifier.clone(),
                region: self.region.clone(),
            }
        }
    }

    fn take_region(&mut self, typed: &str) -> (r: FindAction)
        requires
            old(self).wf(),
            old(self).step == FindStep::Region,
        ensures
            final(self).wf(),
            (final(self)@, r@) == (
                FindView {
                    region: trim_spec(typed@),
                    step: FindStep::Description,
                    ..old(self)@
                },
                FindActionView::Describe {
                    identifier: old(self)@.identifier,
                    region: trim_spec(typed@),
                },
            ),
    {
        self.region = trimmed(typed);
        self.step = FindStep::Description;
        FindAction::Describe { identifier: self.identifier.clone(), region: self.region.clone() }
    }

    fn take_description(&mut self, facts: Option<RdsFacts>) -> (r: FindAction)
        requires
            old(self).wf(),
            old(self).step == FindStep::Description,
        ensures
            final(self).wf(),
            (final(self)@, r@) == old(self)@.described(facts),
    {
        match describe_rds(facts) {
            Err(e) => {
                let m = fault_message(e, self.identifier.as_str(), self.region.as_str());
                self.give_up(m)
            },
            Ok((vpc, port, group)) => {
                assert(self@.targets.len() == self.targets@.len());
                if self.targets.len() > 0 {
                    let other = check_vpc(
                        self.identifier.as_str(),
                        vpc.as_str(),
                        self.vpc.as_str(),
                    );
                    if let Some(m) = other {
                        return self.give_up(m);
                    }
                }
                let ghost before = self@.targets;
                let target = RdsTarget {
                    identifier: self.identifier.clone(),
                    security_group_id: group,
                    port,
                };
                let ghost t = target@;
                self.targets.push(target);
                assert(target_views(self.targets@) =~= before.push(t));
                assert(self@.targets.len() == self.targets@.len());
                self.vpc = vpc;
                if self.targets.len() < self.total_count() {
                    self.step = FindStep::Identifier;
                    self.ask_next()
                } else {
                    self.step = FindStep::Parts;
                    FindAction::List { vpc: self.vpc.clone(), region: self.region.clone() }
                }
            },
        }
    }

    fn take_part(&mut self, i: usize) -> (r: FindAction)
        requires
            i < old(self)@.parts.len(),
        ensures
            final(self).wf(),
            (final(self)@, r@) == old(self)@.picked(i as int),
    {
        assert(self@.parts.len() == self.parts@.len());
        assert(self@.parts[i as int] == self.parts@[i as int]@);
        self.subnet = self.parts[i].id.clone();
        self.step = FindStep::Range;
        FindAction::FetchRange { vpc: self.vpc.clone(), region: self.region.clone() }
    }

    fn list_labels(&self) -> (r: Vec<String>)
        ensures
            texts(r@) == part_lines(self@.parts),
    {
        let ghost want = part_lines(self@.parts);
        let mut out: Vec<String> = Vec::new();
        let mut i: usize = 0;
        assert(texts(out@) =~= want.take(0));
        while i < self.parts.len()
            invariant
                i <= self.parts@.len(),
                want == part_lines(self@.parts),
                texts(out@) == want.take(i as int),
            decreases self.parts@.len() - i,
        {
            assert(self@.parts[i as int] == self.parts@[i as int]@);
            let ghost held = texts(out@);
            let l = subnet_label(&self.parts[i]);
            out.push(l);
            assert(texts(out@) =~= held.push(l@));
            assert(want.take(i + 1) =~= want.take(i as int).push(want[i as int]));
            i = i + 1;
        }
        assert(want.take(i as int) =~= want);
        out
    }

    fn take_parts(&mut self, all: Vec<Subnet>) -> (r: FindAction)
        ensures
            final(self).wf(),
            (final(self)@, r@) == old(self)@.listed(subnet_views(all@)),
    {
        self.parts = find_public_subnets(all);
        assert(self@.parts.len() == self.parts@.len());
        if self.parts.len() == 0 {
            let m = cat3(
                "VPC ",
                self.vpc.as_str(),
                " has no subnet with MapPublicIpOnLaunch=true.\nBittice needs a public subnet to receive SSH and REST/gRPC ingress.\nCreate one (or enable auto-assign public IPv4 on an existing subnet) and retry.",
            );
            self.give_up(m)
        } else if self.parts.len() == 1 {
            self.take_part(0)
        } else {
            self.step = FindStep::Pick;
            FindAction::Pick(self.list_labels())
        }
    }

    /// Takes in what happened, and tells what is to be done.
    pub fn advance(&mut self, event: FindEvent) -> (r: FindAction)
        requires
            old(self).wf(),
        ensures
            final(self).wf(),
            (final(self)@, r@) == old(self)@.after(event),
    {
        match (self.step, event) {
            (FindStep::Identifier, FindEvent::Typed(t)) => self.take_name(t.as_str()),
            (FindStep::Region, FindEvent::Typed(t)) => self.take_region(t.as_str()),
            (FindStep::Description, FindEvent::Described(f)) => self.take_description(f),
            (FindStep::Parts, FindEvent::Listed(all)) => self.take_parts(all),
            (FindStep::Pick, FindEvent::Picked(i)) => {
                assert(self@.parts.len() == self.parts@.len());
                if i < self.parts.len() {
                    self.take_part(i)
                } else {
                    self.give_up("cancelled".to_owned())
                }
            },
            (FindStep::Range, FindEvent::Ranged(c)) => match c {
                Some(c) => {
                    self.cidr = c;
                    self.step = FindStep::Found;
                    FindAction::Done
                },
                None => {
                    let m = cat2("CidrBlock not found for VPC ", self.vpc.as_str());
                    self.give_up(m)
                },
            },
            _ => self.give_up("cancelled".to_owned()),
        }
    }

    /// The place that was found; nothing before it is.
    pub fn placement(self) -> (r: Option<RdsPlacement>)
        ensures
            match r {
                Some(p) => self.step == FindStep::Found && p@ == self@.placement(),
                None => self.step != FindStep::Found,
            },
    {
        if self.step == FindStep::Found {
            Some(
                RdsPlacement {
                    region: self.region,
                    vpc_id: self.vpc,
                    subnet_id: self.subnet,
                    vpc_cidr: self.cidr,
                    targets: self.targets,
                },
            )
        } else {
            None
        }
    }
}

/// A database is only taken where it lies in the network of those before it.
pub proof fn law_one_network(s: FindView, facts: Option<RdsFacts>)
    requires
        s.targets.len() > 0,
        s.described(facts).0.targets.len() > s.targets.len(),
    ensures
        facts->0.vpc->0@ == s.vpc,
        s.described(facts).0.vpc == s.vpc,
        s.described(facts).0.region == s.region,
{
}

/// The part that is picked is one that is open to the outside.
pub proof fn law_picked_part_is_open(s: FindView, all: Seq<SubnetView>, i: usize)
    requires
        s.step == FindStep::Parts,
        0 <= i < s.listed(all).0.parts.len(),
        s.listed(all).0.parts.len() > 1,
    ensures
        s.listed(all).0.after(FindEvent::Picked(i)).0.step == FindStep::Range,
        exists|k: int|
            0 <= k < open_parts(all).len() && s.listed(all).0.after(
                FindEvent::Picked(i),
            ).0.subnet == (#[trigger] open_parts(all)[k]).id,
{
    assert(s.listed(all).0.after(FindEvent::Picked(i)).0.subnet == open_parts(all)[i as int].id);
}

/// Nothing goes on after the search was interrupted.
pub proof fn law_interrupted_search_fails(s: FindView)
    ensures
        s.after(FindEvent::Interrupted).0.step == FindStep::Failed,
        s.after(FindEvent::Interrupted).0.placement() == s.placement(),
{
}

} // verus!
