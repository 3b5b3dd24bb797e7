//! Where a deployment goes: the databases that it must reach, their network and a
//! part of it that is open to the outside.

use crate::phrase::{cat2, cat3, cat4, cat5, end_trimmed, pieces, split_on, trim_end_char};
use crate::text::{
    decimal, decimal_spec, ends_with_text, is_before, join_spec, join_texts,
    lowercase, same_text, text_less, texts, trim_spec, trimmed,
};
use crate::text_sort::has_text;
use vstd::prelude::*;

verus! {

/// A database that is reached.
pub struct RdsTarget {
    pub identifier: String,
    pub security_group_id: String,
    pub port: u16,
}

/// Where a deployment goes.
pub struct RdsPlacement {
    pub region: String,
    pub vpc_id: String,
    pub subnet_id: String,
    pub vpc_cidr: String,
    /// The databases, all in the one network.
    pub targets: Vec<RdsTarget>,
}

/// What an `RdsTarget` stands for.
pub struct TargetView {
    pub identifier: Seq<char>,
    pub group: Seq<char>,
    pub port: u16,
}

impl View for RdsTarget {
    type V = TargetView;

    open spec fn view(&self) -> TargetView {
        TargetView {
            identifier: self.identifier@,
            group: self.security_group_id@,
            port: self.port,
        }
    }
}

/// What targets stand for.
pub open spec fn target_views(v: Seq<RdsTarget>) -> Seq<TargetView> {
    v.map_values(|t: RdsTarget| t@)
}

/// What an `RdsPlacement` stands for.
pub struct PlacementView {
    pub region: Seq<char>,
    pub vpc: Seq<char>,
    pub subnet: Seq<char>,
    pub cidr: Seq<char>,
    pub targets: Seq<TargetView>,
}

impl View for RdsPlacement {
    type V = PlacementView;

    open spec fn view(&self) -> PlacementView {
        PlacementView {
            region: self.region@,
            vpc: self.vpc_id@,
            subnet: self.subnet_id@,
            cidr: self.vpc_cidr@,
            targets: target_views(self.targets@),
        }
    }
}

/// The name and the region of a database that its host tells, where it is one of
/// Amazon's: `<name>.<number>.<region>.rds.amazonaws.com`.
pub open spec fn hint_of(host: Seq<char>) -> Option<(Seq<char>, Seq<char>)> {
    let h = lowercase(end_trimmed(trim_spec(host), '.'));
    let parts = pieces(h, '.');
    if ".rds.amazonaws.com"@.is_suffix_of(h) && parts.len() >= 6 {
        Some((parts[0], parts[2]))
    } else {
        None
    }
}

/// The names and regions that hosts tell, each once.
pub open spec fn hints_of(hosts: Seq<Seq<char>>) -> Seq<(Seq<char>, Seq<char>)>
    decreases hosts.len(),
{
    if hosts.len() == 0 {
        Seq::empty()
    } else {
        let front = hints_of(hosts.drop_last());
        match hint_of(hosts.last()) {
            Some(h) => if front.contains(h) {
                front
            } else {
                front.push(h)
            },
            None => front,
        }
    }
}

/// What pairs of texts stand for.
pub open spec fn pair_views(v: Seq<(String, String)>) -> Seq<(Seq<char>, Seq<char>)> {
    v.map_values(|p: (String, String)| (p.0@, p.1@))
}

/// The name and the region of a database that its host tells.
pub fn rds_hint(host: &str) -> (r: Option<(String, String)>)
    ensures
        match r {
            Some(h) => hint_of(host@) == Some((h.0@, h.1@)),
            None => hint_of(host@) is None,
        },
{
    let t = trimmed(host);
    let e = trim_end_char(t.as_str(), '.');
    let h = e.as_str().to_lowercase();
    if !ends_with_text(h.as_str(), ".rds.amazonaws.com") {
        return None;
    }
    let parts = split_on(h.as_str(), '.');
    let ghost ps = texts(parts@);
    assert(ps.len() == parts@.len());
    if parts.len() < 6 {
        return None;
    }
    assert(ps[0] == parts@[0]@ && ps[2] == parts@[2]@);
    Some((parts[0].clone(), parts[2].clone()))
}

/// The names and regions of the databases of some hosts, each once, in their order.
pub fn extract_rds_hints(hosts: &Vec<String>) -> (r: Vec<(String, String)>)
    ensures
        pair_views(r@) == hints_of(texts(hosts@)),
{
    let ghost hs = texts(hosts@);
    let mut out: Vec<(String, String)> = Vec::new();
    let mut i: usize = 0;
    assert(hs.take(0) =~= Seq::empty());
    assert(pair_views(out@) =~= Seq::empty());
    while i < hosts.len()
        invariant
            i <= hosts@.len(),
            hs == texts(hosts@),
            pair_views(out@) == hints_of(hs.take(i as int)),
        decreases hosts@.len() - i,
    {
        assert(hs.take(i + 1).drop_last() =~= hs.take(i as int));
        assert(hs[i as int] == hosts@[i as int]@);
        if let Some(h) = rds_hint(hosts[i].as_str()) {
            let ghost held = pair_views(out@);
            let ghost want = (h.0@, h.1@);
            let mut known = false;
            let mut k: usize = 0;
            while k < out.len()
                invariant
                    k <= out@.len(),
                    held == pair_views(out@),
                    want == (h.0@, h.1@),
                    known == (exists|j: int| 0 <= j < k && #[trigger] held[j] == want),
                decreases out@.len() - k,
            {
                assert(held[k as int] == (out@[k as int].0@, out@[k as int].1@));
                if same_text(out[k].0.as_str(), h.0.as_str()) && same_text(
                    out[k].1.as_str(),
                    h.1.as_str(),
                ) {
                    known = true;
                }
                k = k + 1;
            }
            if !known {
                out.push(h);
                assert(pair_views(out@) =~= held.push(want));
            }
        }
        i = i + 1;
    }
    assert(hs.take(i as int) =~= hs);
    out
}

/// What Terraform is told of the machine.
pub open spec fn machine_vars(
    region: Seq<char>,
    size: Seq<char>,
    key: Seq<char>,
    name: Seq<char>,
) -> Seq<char> {
    "aws_region     = \""@ + region + "\"\ninstance_type  = \""@ + size
        + "\"\nssh_public_key = \""@ + (key + "\"\napp_name       = \""@ + name + "\"\n"@)
}

/// The groups of the targets, each in quotes.
pub open spec fn quoted_groups(targets: Seq<TargetView>) -> Seq<Seq<char>> {
    targets.map_values(|t: TargetView| "\""@ + t.group + "\""@)
}

/// The port of the first target, or that of MySQL.
pub open spec fn first_port(targets: Seq<TargetView>) -> nat {
    if targets.len() > 0 {
        targets[0].port as nat
    } else {
        3306
    }
}

/// What Terraform is told of the network.
pub open spec fn network_vars(p: PlacementView) -> Seq<char> {
    "target_vpc_id                  = \""@ + p.vpc + "\"\ntarget_subnet_id               = \""@
        + p.subnet + "\"\ntarget_rds_security_group_ids  = ["@ + (join_spec(
        quoted_groups(p.targets),
        ", "@,
    ) + "]\nrds_port                       = "@ + decimal_spec(first_port(p.targets))
        + "\nallowed_admin_cidr             = \""@ + p.cidr) + "\"\n"@
}

/// What Terraform is told: the machine, and the network where there is one.
pub fn build_tfvars(
    region: &str,
    instance_type: &str,
    ssh_pub_key: &str,
    app_name: &str,
    placement: Option<&RdsPlacement>,
) -> (r: String)
    ensures
        r@ == machine_vars(region@, instance_type@, ssh_pub_key@, app_name@) + (match placement {
            Some(p) => network_vars(p@),
            None => Seq::empty(),
        }),
{
    let mut s = cat5(
        "aws_region     = \"",
        region,
        "\"\ninstance_type  = \"",
        instance_type,
        "\"\nssh_public_key = \"",
    );
    let tail = cat4(ssh_pub_key, "\"\napp_name       = \"", app_name, "\"\n");
    s.append(tail.as_str());
    if let Some(p) = placement {
        let ghost ts = target_views(p.targets@);
        let ghost want = quoted_groups(ts);
        let mut groups: Vec<String> = Vec::new();
        let mut i: usize = 0;
        assert(texts(groups@) =~= want.take(0));
        while i < p.targets.len()
            invariant
                i <= p.targets@.len(),
                ts == target_views(p.targets@),
                want == quoted_groups(ts),
                texts(groups@) == want.take(i as int),
            decreases p.targets@.len() - i,
        {
            assert(ts[i as int] == p.targets@[i as int]@);
            let g = cat3("\"", p.targets[i].security_group_id.as_str(), "\"");
            let ghost held = texts(groups@);
            groups.push(g);
            assert(texts(groups@) =~= held.push(g@));
            assert(want.take(i + 1) =~= want.take(i as int).push(want[i as int]));
            i = i + 1;
        }
        assert(want.take(i as int) =~= want);
        let list = join_texts(groups.as_slice(), ", ");
        let port: u16 = if p.targets.len() > 0 {
            assert(ts[0] == p.targets@[0]@);
            p.targets[0].port
        } else {
            3306
        };
        let d = decimal(port as u64);
        let mut n = cat5(
            "target_vpc_id                  = \"",
            p.vpc_id.as_str(),
            "\"\ntarget_subnet_id               = \"",
            p.subnet_id.as_str(),
            "\"\ntarget_rds_security_group_ids  = [",
        );
        let rest = cat5(
            list.as_str(),
            "]\nrds_port                       = ",
            d.as_str(),
            "\nallowed_admin_cidr             = \"",
            p.vpc_cidr.as_str(),
        );
        n.append(rest.as_str());
        n.append("\"\n");
        s.append(n.as_str());
    }
    assert(placement is None ==> s@ =~= machine_vars(
        region@,
        instance_type@,
        ssh_pub_key@,
        app_name@,
    ) + Seq::empty());
    s
}

/// A part of a network.
pub struct Subnet {
    pub id: String,
    pub zone: String,
    pub cidr: String,
    pub name: String,
    /// Whether machines in it get a public address.
    pub public: bool,
}

/// What a `Subnet` stands for.
pub struct SubnetView {
    pub id: Seq<char>,
    pub zone: Seq<char>,
    pub cidr: Seq<char>,
    pub name: Seq<char>,
    pub public: bool,
}

impl View for Subnet {
    type V = SubnetView;

    open spec fn view(&self) -> SubnetView {
        SubnetView {
            id: self.id@,
            zone: self.zone@,
            cidr: self.cidr@,
            name: self.name@,
            public: self.public,
        }
    }
}

/// What parts of a network stand for.
pub open spec fn subnet_views(v: Seq<Subnet>) -> Seq<SubnetView> {
    v.map_values(|s: Subnet| s@)
}

/// Where a part belongs among others that are in the order of their zones.
pub open spec fn zone_slot(s: Seq<SubnetView>, zone: Seq<char>) -> int
    decreases s.len(),
{
    if s.len() == 0 || !text_less(zone, s.last().zone) {
        s.len() as int
    } else {
        zone_slot(s.drop_last(), zone)
    }
}

/// The parts that are open to the outside, in the order of their zones.
pub open spec fn open_parts(s: Seq<SubnetView>) -> Seq<SubnetView>
    decreases s.len(),
{
    if s.len() == 0 {
        Seq::empty()
    } else {
        let front = open_parts(s.drop_last());
        let last = s.last();
        if last.public && last.id.len() > 0 {
            front.insert(zone_slot(front, last.zone), last)
        } else {
            front
        }
    }
}

proof fn lemma_zone_slot(s: Seq<SubnetView>, zone: Seq<char>)
    ensures
        0 <= zone_slot(s, zone) <= s.len(),
    decreases s.len(),
{
    if s.len() > 0 {
        lemma_zone_slot(s.drop_last(), zone);
    }
}

/// The parts that are open to the outside, in the order of their zones.
pub fn find_public_subnets(all: Vec<Subnet>) -> (r: Vec<Subnet>)
    ensures
        subnet_views(r@) == open_parts(subnet_views(all@)),
{
    let ghost views = subnet_views(all@);
    let mut all = all;
    let mut rest: Vec<Subnet> = Vec::new();
    let ghost n = views.len();
    assert(views.len() == all@.len());
    while all.len() > 0
        invariant
            all@.len() + rest@.len() == n,
            views.len() == n,
            subnet_views(all@) == views.take(all@.len() as int),
            forall|k: int|
                0 <= k < rest@.len() ==> (#[trigger] rest@[k])@ == views[n - 1 - k],
        decreases all@.len(),
    {
        let ghost before = all@;
        let s = all.pop().unwrap();
        assert(subnet_views(before)[before.len() - 1] == s@);
        rest.push(s);
        assert(subnet_views(all@) =~= views.take(all@.len() as int)) by {
            assert(subnet_views(before).drop_last() =~= subnet_views(all@));
            assert(views.take(before.len() as int).drop_last() =~= views.take(
                before.len() - 1,
            ));
        }
    }
    let mut out: Vec<Subnet> = Vec::new();
    assert(subnet_views(out@) =~= Seq::empty());
    assert(views.take(0) =~= Seq::empty());
    while rest.len() > 0
        invariant
            rest@.len() <= n,
            views.len() == n,
            forall|k: int|
                0 <= k < rest@.len() ==> (#[trigger] rest@[k])@ == views[n - 1 - k],
            subnet_views(out@) == open_parts(views.take(n - rest@.len())),
        decreases rest@.len(),
    {
        let ghost at = n - rest@.len();
        assert(rest@[rest@.len() - 1]@ == views[at]);
        let s = rest.pop().unwrap();
        assert(views.take(at + 1).drop_last() =~= views.take(at));
        if s.public && !s.id.as_str().is_empty() {
            let ghost held = subnet_views(out@);
            let mut k: usize = out.len();
            assert(held.take(k as int) =~= held);
            while k > 0 && is_before(s.zone.as_str(), out[k - 1].zone.as_str())
                invariant
                    k <= out@.len(),
                    held == subnet_views(out@),
                    zone_slot(held, s@.zone) == zone_slot(held.take(k as int), s@.zone),
                decreases k,
            {
                assert(held[k - 1] == out@[k - 1]@);
                assert(held.take(k as int).drop_last() =~= held.take(k - 1));
                k = k - 1;
            }
            proof {
                if k > 0 {
                    assert(held[k - 1] == out@[k - 1]@);
                    assert(held.take(k as int).last() == held[k - 1]);
                }
                assert(zone_slot(held, s@.zone) == k);
            }
            out.insert(k, s);
            assert(subnet_views(out@) =~= held.insert(k as int, s@));
        }
    }
    assert(views.take(n as int) =~= views);
    out
}

/// How a part of a network is listed.
pub open spec fn subnet_text(s: SubnetView) -> Seq<char> {
    s.id + "  ("@ + s.zone + ", "@ + s.cidr + (if s.name.len() == 0 {
        ")"@
    } else {
        ", \""@ + s.name + "\")"@
    })
}

/// How a part of a network is listed.
pub fn subnet_label(s: &Subnet) -> (r: String)
    ensures
        r@ == subnet_text(s@),
{
    let mut out = cat5(s.id.as_str(), "  (", s.zone.as_str(), ", ", s.cidr.as_str());
    if s.name.as_str().is_empty() {
        out.append(")");
    } else {
        let n = cat3(", \"", s.name.as_str(), "\")");
        out.append(n.as_str());
    }
    out
}

/// A rule on what may come in.
pub struct IngressRule {
    pub protocol: Option<String>,
    pub from_port: Option<u64>,
    pub to_port: Option<u64>,
    /// The groups that may.
    pub groups: Vec<String>,
}

/// What an `IngressRule` stands for.
pub struct RuleView {
    pub protocol: Option<Seq<char>>,
    pub from_port: Option<u64>,
    pub to_port: Option<u64>,
    pub groups: Seq<Seq<char>>,
}

impl View for IngressRule {
    type V = RuleView;

    open spec fn view(&self) -> RuleView {
        RuleView {
            protocol: match self.protocol {
                Some(p) => Some(p@),
                None => None,
            },
            from_port: self.from_port,
            to_port: self.to_port,
            groups: texts(self.groups@),
        }
    }
}

/// What rules stand for.
pub open spec fn rule_views(v: Seq<IngressRule>) -> Seq<RuleView> {
    v.map_values(|r: IngressRule| r@)
}

/// Whether a rule lets a group in at a port, over TCP.
pub open spec fn lets_in(rule: RuleView, group: Seq<char>, port: u16) -> bool {
    &&& rule.protocol == Some("tcp"@)
    &&& rule.from_port == Some(port as u64)
    &&& rule.to_port == Some(port as u64)
    &&& rule.groups.contains(group)
}

/// Whether any rule lets a group in at a port, over TCP.
pub fn rds_ingress_rule_exists(rules: &Vec<IngressRule>, source_sg_id: &str, port: u16) -> (r: bool)
    ensures
        r == (exists|i: int|
            0 <= i < rules@.len() && #[trigger] lets_in(
                rule_views(rules@)[i],
                source_sg_id@,
                port,
            )),
{
    let ghost views = rule_views(rules@);
    let mut i: usize = 0;
    while i < rules.len()
        invariant
            i <= rules@.len(),
            views == rule_views(rules@),
            forall|k: int| 0 <= k < i ==> !(#[trigger] lets_in(views[k], source_sg_id@, port)),
        decreases rules@.len() - i,
    {
        let rule = &rules[i];
        assert(views[i as int] == rule@);
        let tcp = match &rule.protocol {
            Some(p) => same_text(p.as_str(), "tcp"),
            None => false,
        };
        let from = match rule.from_port {
            Some(p) => p == port as u64,
            None => false,
        };
        let to = match rule.to_port {
            Some(p) => p == port as u64,
            None => false,
        };
        if tcp && from && to && has_text(rule.groups.as_slice(), source_sg_id) {
            assert(lets_in(views[i as int], source_sg_id@, port));
            return true;
        }
        i = i + 1;
    }
    false
}

/// A resource that Terraform is told of.
pub struct Import {
    pub address: String,
    pub id: String,
}

/// What an import stands for: the address and the resource.
pub type ImportView = (Seq<char>, Seq<char>);

impl View for Import {
    type V = ImportView;

    open spec fn view(&self) -> ImportView {
        (self.address@, self.id@)
    }
}

/// The key of a deployment.
pub fn key_name(app_name: &str) -> (r: String)
    ensures
        r@ == app_name@ + "-key"@,
{
    cat2(app_name, "-key")
}

/// The security group of a deployment.
pub fn group_name(app_name: &str) -> (r: String)
    ensures
        r@ == app_name@ + "-sg"@,
{
    cat2(app_name, "-sg")
}

/// The import of a resource that is there but that Terraform does not know.
pub open spec fn missing_import(managed: Seq<Seq<char>>, address: Seq<char>, id: Option<Seq<char>>) ->
    Option<ImportView> {
    match id {
        Some(x) => if managed.contains(address) {
            None
        } else {
            Some((address, x))
        },
        None => None,
    }
}

fn import_missing(managed: &Vec<String>, address: &str, id: Option<&str>) -> (r: Option<Import>)
    ensures
        match r {
            Some(i) => missing_import(
                texts(managed@),
                address@,
                match id {
                    Some(x) => Some(x@),
                    None => None,
                },
            ) == Some(i@),
            None => missing_import(
                texts(managed@),
                address@,
                match id {
                    Some(x) => Some(x@),
                    None => None,
                },
            ) is None,
        },
{
    match id {
        Some(x) => if has_text(managed.as_slice(), address) {
            None
        } else {
            Some(Import { address: address.to_owned(), id: x.to_owned() })
        },
        None => None,
    }
}

/// The import of the key of a deployment, where it is there but unknown.
pub fn key_import(managed: &Vec<String>, app_name: &str, is_there: bool) -> (r: Option<Import>)
    ensures
        match r {
            Some(i) => is_there && missing_import(
                texts(managed@),
                "aws_key_pair.bittice"@,
                Some(app_name@ + "-key"@),
            ) == Some(i@),
            None => !is_there || texts(managed@).contains("aws_key_pair.bittice"@),
        },
{
    if !is_there {
        return None;
    }
    let key = key_name(app_name);
    import_missing(managed, "aws_key_pair.bittice", Some(key.as_str()))
}

/// The import of the security group of a deployment, where it is there but unknown.
pub fn group_import(managed: &Vec<String>, found: Option<&str>) -> (r: Option<Import>)
    ensures
        match r {
            Some(i) => missing_import(
                texts(managed@),
                "aws_security_group.bittice"@,
                match found {
                    Some(x) => Some(x@),
                    None => None,
                },
            ) == Some(i@),
            None => found is None || texts(managed@).contains("aws_security_group.bittice"@),
        },
{
    import_missing(managed, "aws_security_group.bittice", found)
}

/// The address of a rule of a target.
pub open spec fn rule_address(i: int) -> Seq<char> {
    "aws_security_group_rule.rds_ingress_from_bittice["@ + decimal_spec(i as nat) + "]"@
}

/// The name of a rule that lets a group in to a target.
pub open spec fn rule_id(target: TargetView, group: Seq<char>) -> Seq<char> {
    target.group + "_ingress_tcp_"@ + decimal_spec(target.port as nat) + "_"@ + decimal_spec(
        target.port as nat,
    ) + ("_"@ + group)
}

/// The imports of the rules of the first targets that are there but unknown.
pub open spec fn rules_missing(
    managed: Seq<Seq<char>>,
    targets: Seq<TargetView>,
    group: Seq<char>,
    there: Seq<bool>,
    n: int,
) -> Seq<ImportView>
    decreases n,
{
    if n <= 0 {
        Seq::empty()
    } else {
        let front = rules_missing(managed, targets, group, there, n - 1);
        if !managed.contains(rule_address(n - 1)) && there[n - 1] {
            front.push((rule_address(n - 1), rule_id(targets[n - 1], group)))
        } else {
            front
        }
    }
}

/// What imports stand for.
pub open spec fn import_views(v: Seq<Import>) -> Seq<ImportView> {
    v.map_values(|i: Import| i@)
}

/// The imports of the rules that let a group in to the targets, of those that are
/// there but unknown.
pub fn rule_imports(
    managed: &Vec<String>,
    targets: &Vec<RdsTarget>,
    group: &str,
    there: &Vec<bool>,
) -> (r: Vec<Import>)
    requires
        there@.len() == targets@.len(),
    ensures
        import_views(r@) == rules_missing(
            texts(managed@),
            target_views(targets@),
            group@,
            there@,
            targets@.len() as int,
        ),
{
    let ghost ts = target_views(targets@);
    let mut out: Vec<Import> = Vec::new();
    let mut i: usize = 0;
    assert(import_views(out@) =~= Seq::empty());
    while i < targets.len()
        invariant
            i <= targets@.len(),
            there@.len() == targets@.len(),
            ts == target_views(targets@),
            import_views(out@) == rules_missing(texts(managed@), ts, group@, there@, i as int),
        decreases targets@.len() - i,
    {
        assert(ts[i as int] == targets@[i as int]@);
        let n = decimal(i as u64);
        let address = cat3(
            "aws_security_group_rule.rds_ingress_from_bittice[",
            n.as_str(),
            "]",
        );
        if !has_text(managed.as_slice(), address.as_str()) && there[i] {
            let t = &targets[i];
            let p = decimal(t.port as u64);
            let mut id = cat5(
                t.security_group_id.as_str(),
                "_ingress_tcp_",
                p.as_str(),
                "_",
                p.as_str(),
            );
            let tail = cat2("_", group);
            id.append(tail.as_str());
            let ghost held = import_views(out@);
            let import = Import { address, id };
            out.push(import);
            assert(import_views(out@) =~= held.push(import@));
        }
        i = i + 1;
    }
    out
}

/// Why a database cannot be placed by.
#[derive(Clone, Copy, Debug, PartialEq, Eq, Structural)]
pub enum RdsFault {
    NotFound,
    NoVpc,
    NoPort,
    NoGroup,
}

/// What is known of a database.
pub struct RdsFacts {
    pub vpc: Option<String>,
    pub port: Option<u64>,
    pub group: Option<String>,
}

/// What a description of a database lacks, if anything.
pub open spec fn facts_fault(facts: Option<RdsFacts>) -> Option<RdsFault> {
    match facts {
        None => Some(RdsFault::NotFound),
        Some(f) => if f.vpc is None {
            Some(RdsFault::NoVpc)
        } else if f.port is None {
            Some(RdsFault::NoPort)
        } else if f.group is None {
            Some(RdsFault::NoGroup)
        } else {
            None
        },
    }
}

/// The network, the port and the group of a database, where its description has them.
/// Of the port the last sixteen bits count.
pub fn describe_rds(facts: Option<RdsFacts>) -> (r: Result<(String, u16, String), RdsFault>)
    ensures
        match r {
            Ok(d) => {
                &&& facts_fault(facts) is None
                &&& d.0@ == facts->0.vpc->0@
                &&& d.1 == facts->0.port->0 % 0x1_0000
                &&& d.2@ == facts->0.group->0@
            },
            Err(e) => facts_fault(facts) == Some(e),
        },
{
    match facts {
        None => Err(RdsFault::NotFound),
        Some(f) => match f.vpc {
            None => Err(RdsFault::NoVpc),
            Some(vpc) => match f.port {
                None => Err(RdsFault::NoPort),
                Some(port) => match f.group {
                    None => Err(RdsFault::NoGroup),
                    Some(group) => Ok((vpc, (port % 0x1_0000) as u16, group)),
                },
            },
        },
    }
}

/// What is said where a database is in another network than the first.
pub open spec fn vpc_message(
    identifier: Seq<char>,
    this_vpc: Seq<char>,
    vpc: Seq<char>,
) -> Seq<char> {
    "RDS '"@ + identifier + "' lives in "@ + this_vpc + ", but the first RDS is in "@ + (vpc
        + ".\nA single Bittice EC2 can only reach RDSes in one VPC. To cover both:\n• Set up VPC peering between "@
        + vpc + " and "@ + this_vpc)
        + ", OR\n• Run a separate Bittice deployment per VPC (one entity per deploy)."@
}

/// What is said where a database is in another network than the first; nothing where
/// it is in the same.
pub fn check_vpc(identifier: &str, this_vpc: &str, vpc: &str) -> (r: Option<String>)
    ensures
        match r {
            Some(m) => this_vpc@ != vpc@ && m@ == vpc_message(identifier@, this_vpc@, vpc@),
            None => this_vpc@ == vpc@,
        },
{
    if same_text(this_vpc, vpc) {
        return None;
    }
    let mut s = cat5(
        "RDS '",
        identifier,
        "' lives in ",
        this_vpc,
        ", but the first RDS is in ",
    );
    let t = cat5(
        vpc,
        ".\nA single Bittice EC2 can only reach RDSes in one VPC. To cover both:\n• Set up VPC peering between ",
        vpc,
        " and ",
        this_vpc,
    );
    s.append(t.as_str());
    s.append(
        ", OR\n• Run a separate Bittice deployment per VPC (one entity per deploy).",
    );
    Some(s)
}

/// How a database is counted where there are several.
pub open spec fn nth_text(i: int, total: int) -> Seq<char> {
    if total > 1 {
        "("@ + decimal_spec((i + 1) as nat) + "/"@ + decimal_spec(total as nat) + ")"@
    } else {
        Seq::empty()
    }
}

/// How a database is counted where there are several.
pub fn nth_label(i: usize, total: usize) -> (r: String)
    requires
        i < total,
    ensures
        r@ == nth_text(i as int, total as int),
{
    if total > 1 {
        let a = decimal((i + 1) as u64);
        let b = decimal(total as u64);
        cat5("(", a.as_str(), "/", b.as_str(), ")")
    } else {
        String::new()
    }
}

/// The databases in a list, with their ports.
pub open spec fn target_texts(targets: Seq<TargetView>) -> Seq<Seq<char>> {
    targets.map_values(|t: TargetView| t.identifier + ":"@ + decimal_spec(t.port as nat))
}

/// The databases in a list, with their ports.
pub fn list_targets(targets: &Vec<RdsTarget>) -> (r: String)
    ensures
        r@ == join_spec(target_texts(target_views(targets@)), ", "@),
{
    let ghost ts = target_views(targets@);
    let ghost want = target_texts(ts);
    let mut parts: Vec<String> = Vec::new();
    let mut i: usize = 0;
    assert(texts(parts@) =~= want.take(0));
    while i < targets.len()
        invariant
            i <= targets@.len(),
            ts == target_views(targets@),
            want == target_texts(ts),
            texts(parts@) == want.take(i as int),
        decreases targets@.len() - i,
    {
        assert(ts[i as int] == targets@[i as int]@);
        let p = decimal(targets[i].port as u64);
        let s = cat3(targets[i].identifier.as_str(), ":", p.as_str());
        let ghost held = texts(parts@);
        parts.push(s);
        assert(texts(parts@) =~= held.push(s@));
        assert(want.take(i + 1) =~= want.take(i as int).push(want[i as int]));
        i = i + 1;
    }
    assert(want.take(i as int) =~= want);
    join_texts(parts.as_slice(), ", ")
}

/// No database is hinted at twice.
pub proof fn law_hints_are_distinct(hosts: Seq<Seq<char>>)
    ensures
        hints_of(hosts).no_duplicates(),
    decreases hosts.len(),
{
    if hosts.len() > 0 {
        law_hints_are_distinct(hosts.drop_last());
    }
}

/// What is imported was not known, so importing again what is known by then imports
/// nothing.
pub proof fn law_imports_settle(
    managed: Seq<Seq<char>>,
    targets: Seq<TargetView>,
    group: Seq<char>,
    there: Seq<bool>,
    n: int,
)
    requires
        forall|i: int| 0 <= i < n && #[trigger] there[i] ==> managed.contains(rule_address(i)),
    ensures
        rules_missing(managed, targets, group, there, n) == Seq::<ImportView>::empty(),
    decreases n,
{
    if n > 0 {
        law_imports_settle(managed, targets, group, there, n - 1);
        assert(there[n - 1] ==> managed.contains(rule_address(n - 1)));
    }
}

/// The parts that are offered are open to the outside and have a name.
pub proof fn law_offered_parts_are_open(s: Seq<SubnetView>, i: int)
    requires
        0 <= i < open_parts(s).len(),
    ensures
        open_parts(s)[i].public,
        open_parts(s)[i].id.len() > 0,
        s.contains(open_parts(s)[i]),
    decreases s.len(),
{
    if s.len() > 0 {
        let front = open_parts(s.drop_last());
        let last = s.last();
        let k = zone_slot(front, last.zone);
        lemma_zone_slot(front, last.zone);
        if last.public && last.id.len() > 0 {
            if i < k {
                law_offered_parts_are_open(s.drop_last(), i);
                assert(open_parts(s)[i] == front[i]);
                let j = choose|j: int|
                    0 <= j < s.drop_last().len() && s.drop_last()[j] == front[i];
                assert(s[j] == front[i]);
            } else if i == k {
                assert(open_parts(s)[i] == last);
                assert(s[s.len() - 1] == last);
            } else {
                law_offered_parts_are_open(s.drop_last(), i - 1);
                assert(open_parts(s)[i] == front[i - 1]);
                let j = choose|j: int|
                    0 <= j < s.drop_last().len() && s.drop_last()[j] == front[i - 1];
                assert(s[j] == front[i - 1]);
            }
        } else {
            law_offered_parts_are_open(s.drop_last(), i);
            let j = choose|j: int| 0 <= j < s.drop_last().len() && s.drop_last()[j] == front[i];
            assert(s[j] == front[i]);
        }
    }
}

} // verus!
