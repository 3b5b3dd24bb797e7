//! What holds of finding the databases that a deployment reaches, and of what is told to
//! the tool that makes the machine.

use crate::deploy::discovery::{FindActionView, FindEvent, FindStep, FindView};
use crate::deploy::placement::{
    facts_fault, lets_in, machine_vars, missing_import, network_vars, open_parts, rule_address,
    rule_id, rules_missing, subnet_text, PlacementView, RdsFacts, RdsFault, RuleView, Subnet,
    TargetView,
};
use crate::deploy::replies::{group_ids, items_or_none, name_tag, profile_hosts, rule_of, subnet_of};
use crate::json_text::{json_flag_at, json_number_at, json_string_at};
use crate::text::{decimal_spec, join_spec, trim_spec};
use vstd::prelude::*;

verus! {

/// Whether a text holds a line.
pub open spec fn has_line(all: Seq<char>, line: Seq<char>) -> bool {
    exists|a: Seq<char>, b: Seq<char>|
        all == #[trigger] (a + line + "\n"@ + b) && (a.len() == 0 || a.last() == '\n')
}

proof fn lemma_has_line(all: Seq<char>, a: Seq<char>, line: Seq<char>, b: Seq<char>)
    requires
        all =~= a + line + "\n"@ + b,
        a.len() == 0 || a.last() == '\n',
    ensures
        has_line(all, line),
{
    assert(all == a + line + "\n"@ + b);
}

/// What is told of a machine: its region, its size, the public half of its key and its
/// name, each in quotes behind what it is.
pub proof fn law_machine_settings(
    region: Seq<char>,
    size: Seq<char>,
    key: Seq<char>,
    name: Seq<char>,
)
    ensures
        ({
            let all = machine_vars(region, size, key, name);
            &&& has_line(all, "aws_region     = \""@ + region + "\""@)
            &&& has_line(all, "instance_type  = \""@ + size + "\""@)
            &&& has_line(all, "ssh_public_key = \""@ + key + "\""@)
            &&& has_line(all, "app_name       = \""@ + name + "\""@)
        }),
{
    let all = machine_vars(region, size, key, name);
    let none = Seq::<char>::empty();
    reveal_strlit("\"");
    reveal_strlit("\n");
    reveal_strlit("\"\n");
    reveal_strlit("aws_region     = \"");
    reveal_strlit("\"\ninstance_type  = \"");
    reveal_strlit("instance_type  = \"");
    reveal_strlit("\"\nssh_public_key = \"");
    reveal_strlit("ssh_public_key = \"");
    reveal_strlit("\"\napp_name       = \"");
    reveal_strlit("app_name       = \"");
    let q = "\""@;
    let n = "\n"@;
    assert("\"\ninstance_type  = \""@ =~= q + n + "instance_type  = \""@);
    assert("\"\nssh_public_key = \""@ =~= q + n + "ssh_public_key = \""@);
    assert("\"\napp_name       = \""@ =~= q + n + "app_name       = \""@);
    assert("\"\n"@ =~= q + n);
    let l1 = "aws_region     = \""@ + region + q;
    let l2 = "instance_type  = \""@ + size + q;
    let l3 = "ssh_public_key = \""@ + key + q;
    let l4 = "app_name       = \""@ + name + q;
    assert(all =~= l1 + n + (l2 + n) + (l3 + n) + (l4 + n));
    lemma_has_line(all, none, l1, (l2 + n) + (l3 + n) + (l4 + n));
    assert((l1 + n).last() == '\n');
    lemma_has_line(all, l1 + n, l2, (l3 + n) + (l4 + n));
    assert((l1 + n + (l2 + n)).last() == '\n');
    lemma_has_line(all, l1 + n + (l2 + n), l3, l4 + n);
    assert((l1 + n + (l2 + n) + (l3 + n)).last() == '\n');
    lemma_has_line(all, l1 + n + (l2 + n) + (l3 + n), l4, none);
}

/// The groups of databases, each in quotes.
pub open spec fn in_quotes(targets: Seq<TargetView>) -> Seq<Seq<char>> {
    Seq::new(targets.len(), |i: int| "\""@ + targets[i].group + "\""@)
}

#[verifier::spinoff_prover]
proof fn lemma_five_lines(
    all: Seq<char>,
    h1: Seq<char>,
    a: Seq<char>,
    h2: Seq<char>,
    b: Seq<char>,
    h3: Seq<char>,
    c: Seq<char>,
    h4: Seq<char>,
    d: Seq<char>,
    h5: Seq<char>,
    e: Seq<char>,
)
    requires
        "\n"@.len() > 0,
        "\n"@.last() == '\n',
        all == h1 + a + ("\""@ + "\n"@ + h2) + b + ("\""@ + "\n"@ + h3) + (c + ("]"@ + "\n"@ + h4)
            + d + ("\n"@ + h5) + e) + ("\""@ + "\n"@),
    ensures
        has_line(all, h1 + a + "\""@),
        has_line(all, h2 + b + "\""@),
        has_line(all, h3 + c + "]"@),
        has_line(all, h4 + d),
        has_line(all, h5 + e + "\""@),
{
    let n = "\n"@;
    let l1 = h1 + a + "\""@;
    let l2 = h2 + b + "\""@;
    let l3 = h3 + c + "]"@;
    let l4 = h4 + d;
    let l5 = h5 + e + "\""@;
    assert(all =~= l1 + n + (l2 + n) + (l3 + n) + (l4 + n) + (l5 + n));
    lemma_lines(all, l1, l2, l3, l4, l5);
}

#[verifier::spinoff_prover]
proof fn lemma_lines(
    all: Seq<char>,
    l1: Seq<char>,
    l2: Seq<char>,
    l3: Seq<char>,
    l4: Seq<char>,
    l5: Seq<char>,
)
    requires
        "\n"@.len() > 0,
        "\n"@.last() == '\n',
        all == l1 + "\n"@ + (l2 + "\n"@) + (l3 + "\n"@) + (l4 + "\n"@) + (l5 + "\n"@),
    ensures
        has_line(all, l1),
        has_line(all, l2),
        has_line(all, l3),
        has_line(all, l4),
        has_line(all, l5),
{
    let n = "\n"@;
    let none = Seq::<char>::empty();
    lemma_has_line(all, none, l1, (l2 + n) + (l3 + n) + (l4 + n) + (l5 + n));
    assert((l1 + n).last() == '\n');
    lemma_has_line(all, l1 + n, l2, (l3 + n) + (l4 + n) + (l5 + n));
    assert((l1 + n + (l2 + n)).last() == '\n');
    lemma_has_line(all, l1 + n + (l2 + n), l3, (l4 + n) + (l5 + n));
    assert((l1 + n + (l2 + n) + (l3 + n)).last() == '\n');
    lemma_has_line(all, l1 + n + (l2 + n) + (l3 + n), l4, l5 + n);
    assert((l1 + n + (l2 + n) + (l3 + n) + (l4 + n)).last() == '\n');
    lemma_has_line(all, l1 + n + (l2 + n) + (l3 + n) + (l4 + n), l5, none);
}

/// What is told of the network: the network, the part of it, the groups of all databases
/// in their order, the port of the first of them, or 3306 where there is none, and the
/// addresses of the network, from which the machine may be administered.
pub proof fn law_network_settings(p: PlacementView)
    ensures
        ({
            let all = network_vars(p);
            &&& has_line(all, "target_vpc_id                  = \""@ + p.vpc + "\""@)
            &&& has_line(all, "target_subnet_id               = \""@ + p.subnet + "\""@)
            &&& has_line(
                all,
                "target_rds_security_group_ids  = ["@ + join_spec(in_quotes(p.targets), ", "@)
                    + "]"@,
            )
            &&& p.targets.len() > 0 ==> has_line(
                all,
                "rds_port                       = "@ + decimal_spec(p.targets[0].port as nat),
            )
            &&& p.targets.len() == 0 ==> has_line(
                all,
                "rds_port                       = "@ + decimal_spec(3306),
            )
            &&& has_line(all, "allowed_admin_cidr             = \""@ + p.cidr + "\""@)
        }),
{
    let q = "\""@;
    let n = "\n"@;
    assert(n.len() > 0 && n.last() == '\n') by {
        reveal_strlit("\n");
    }
    assert("\"\ntarget_subnet_id               = \""@ =~= q + n
        + "target_subnet_id               = \""@) by {
        reveal_strlit("\"");
        reveal_strlit("\n");
        reveal_strlit("\"\ntarget_subnet_id               = \"");
        reveal_strlit("target_subnet_id               = \"");
    }
    assert("\"\ntarget_rds_security_group_ids  = ["@ =~= q + n
        + "target_rds_security_group_ids  = ["@) by {
        reveal_strlit("\"");
        reveal_strlit("\n");
        reveal_strlit("\"\ntarget_rds_security_group_ids  = [");
        reveal_strlit("target_rds_security_group_ids  = [");
    }
    assert("]\nrds_port                       = "@ =~= "]"@ + n
        + "rds_port                       = "@) by {
        reveal_strlit("]");
        reveal_strlit("\n");
        reveal_strlit("]\nrds_port                       = ");
        reveal_strlit("rds_port                       = ");
    }
    assert("\nallowed_admin_cidr             = \""@ =~= n
        + "allowed_admin_cidr             = \""@) by {
        reveal_strlit("\n");
        reveal_strlit("\nallowed_admin_cidr             = \"");
        reveal_strlit("allowed_admin_cidr             = \"");
    }
    assert("\"\n"@ =~= q + n) by {
        reveal_strlit("\"");
        reveal_strlit("\n");
        reveal_strlit("\"\n");
    }
    assert(crate::deploy::placement::quoted_groups(p.targets) =~= in_quotes(p.targets));
    let groups = join_spec(in_quotes(p.targets), ", "@);
    let port = decimal_spec(
        if p.targets.len() > 0 {
            p.targets[0].port as nat
        } else {
            3306
        },
    );
    lemma_five_lines(
        network_vars(p),
        "target_vpc_id                  = \""@,
        p.vpc,
        "target_subnet_id               = \""@,
        p.subnet,
        "target_rds_security_group_ids  = ["@,
        groups,
        "rds_port                       = "@,
        port,
        "allowed_admin_cidr             = \""@,
        p.cidr,
    );
}

/// A rule lets a group in on a port if and only if it speaks of TCP, of that port alone and
/// of that group.
pub proof fn law_rule_lets_in(rule: RuleView, group: Seq<char>, port: u16)
    ensures
        lets_in(rule, group, port) ==> rule.protocol == Some("tcp"@),
        lets_in(rule, group, port) ==> rule.from_port == Some(port as u64) && rule.to_port == Some(
            port as u64,
        ),
        lets_in(rule, group, port) ==> exists|i: int|
            0 <= i < rule.groups.len() && #[trigger] rule.groups[i] == group,
        forall|i: int|
            0 <= i < rule.groups.len() && rule.protocol == Some("tcp"@) && rule.from_port == Some(
                port as u64,
            ) && rule.to_port == Some(port as u64) ==> lets_in(
                rule,
                #[trigger] rule.groups[i],
                port,
            ),
{
}

/// What is there and not managed yet is taken over, under its address; nothing else is.
pub proof fn law_taken_over(
    managed: Seq<Seq<char>>,
    targets: Seq<TargetView>,
    group: Seq<char>,
    there: Seq<bool>,
    n: int,
    address: Seq<char>,
    id: Option<Seq<char>>,
)
    requires
        0 <= n <= there.len(),
        n <= targets.len(),
    ensures
        missing_import(managed, address, id) == (if id is Some && !managed.contains(address) {
            Some((address, id->0))
        } else {
            None
        }),
        forall|i: int|
            0 <= i < n && #[trigger] there[i] && !managed.contains(rule_address(i))
                ==> rules_missing(managed, targets, group, there, n).contains(
                (rule_address(i), rule_id(targets[i], group)),
            ),
        forall|k: int|
            0 <= k < rules_missing(managed, targets, group, there, n).len() ==> exists|i: int|
                0 <= i < n && #[trigger] there[i] && !managed.contains(rule_address(i))
                    && #[trigger] rules_missing(managed, targets, group, there, n)[k] == (
                    rule_address(i),
                    rule_id(targets[i], group),
                ),
    decreases n,
{
    if n > 0 {
        law_taken_over(managed, targets, group, there, n - 1, address, id);
        let front = rules_missing(managed, targets, group, there, n - 1);
        let all = rules_missing(managed, targets, group, there, n);
        let new = (rule_address(n - 1), rule_id(targets[n - 1], group));
        assert forall|i: int|
            0 <= i < n && #[trigger] there[i] && !managed.contains(
                rule_address(i),
            ) implies all.contains((rule_address(i), rule_id(targets[i], group))) by {
            if i < n - 1 {
                let want = (rule_address(i), rule_id(targets[i], group));
                assert(front.contains(want));
                let k = choose|k: int| 0 <= k < front.len() && front[k] == want;
                assert(all[k] == want);
            } else {
                assert(all[all.len() - 1] == new);
            }
        }
        assert forall|k: int| 0 <= k < all.len() implies exists|i: int|
            0 <= i < n && #[trigger] there[i] && !managed.contains(rule_address(i))
                && #[trigger] all[k] == (rule_address(i), rule_id(targets[i], group)) by {
            if k < front.len() {
                assert(all[k] == front[k]);
                let i = choose|i: int|
                    0 <= i < n - 1 && #[trigger] there[i] && !managed.contains(rule_address(i))
                        && front[k] == (rule_address(i), rule_id(targets[i], group));
                assert(there[i]);
            } else {
                assert(there[n - 1]);
            }
        }
    }
}

/// The rule for a database is known by its number, and by the group of the database, its
/// port twice, and the group that it lets in.
pub proof fn law_rule_names(target: TargetView, group: Seq<char>, i: nat)
    ensures
        rule_address(i as int) == "aws_security_group_rule.rds_ingress_from_bittice["@
            + decimal_spec(i) + "]"@,
        rule_id(target, group) == target.group + "_ingress_tcp_"@ + decimal_spec(
            target.port as nat,
        ) + "_"@ + decimal_spec(target.port as nat) + "_"@ + group,
{
    assert(rule_id(target, group) =~= target.group + "_ingress_tcp_"@ + decimal_spec(
        target.port as nat,
    ) + "_"@ + decimal_spec(target.port as nat) + "_"@ + group);
}

/// A database is found with its network, its port and its group, all three; the first that
/// is missing is told.
pub proof fn law_facts(facts: RdsFacts)
    ensures
        facts_fault(None) == Some(RdsFault::NotFound),
        facts_fault(Some(facts)) is None <==> facts.vpc is Some && facts.port is Some
            && facts.group is Some,
        facts.vpc is None ==> facts_fault(Some(facts)) == Some(RdsFault::NoVpc),
        facts.vpc is Some && facts.port is None ==> facts_fault(Some(facts)) == Some(
            RdsFault::NoPort,
        ),
        facts.vpc is Some && facts.port is Some && facts.group is None ==> facts_fault(Some(facts))
            == Some(RdsFault::NoGroup),
{
}

/// A database that is described in full, in the network of those before it, joins them
/// under the name that was typed, with its group and its port; and the others stay. As long
/// as the profiles hint at more databases, the next is asked for, with the name that is
/// hinted at; then the parts of the network are listed.
pub proof fn law_database_joins(s: FindView, facts: RdsFacts)
    requires
        s.step == FindStep::Description,
        facts.vpc is Some,
        facts.port is Some,
        facts.group is Some,
        facts.port->0 < 0x1_0000,
        s.targets.len() == 0 || facts.vpc->0@ == s.vpc,
    ensures
        ({
            let (t, action) = s.after(FindEvent::Described(Some(facts)));
            &&& t.targets.len() == s.targets.len() + 1
            &&& t.targets.drop_last() == s.targets
            &&& t.targets.last().identifier == s.identifier
            &&& t.targets.last().group == facts.group->0@
            &&& t.targets.last().port == facts.port->0
            &&& t.vpc == facts.vpc->0@
            &&& t.region == s.region
            &&& t.hints == s.hints
            &&& t.targets.len() < s.hints.len() ==> t.step == FindStep::Identifier && (
            action matches FindActionView::AskIdentifier { default, .. } && default
                == s.hints[t.targets.len() as int].0)
            &&& t.targets.len() >= s.hints.len() ==> t.step == FindStep::Parts && action
                == FindActionView::List { vpc: t.vpc, region: s.region }
        }),
{
    let (t, action) = s.after(FindEvent::Described(Some(facts)));
    assert(t.targets.drop_last() =~= s.targets);
    let p = facts.port->0;
    assert(p % 0x1_0000 == p);
}

/// A database in another network than those before it is not taken, nor one that is not
/// described in full.
pub proof fn law_database_is_refused(s: FindView, facts: Option<RdsFacts>)
    requires
        s.step == FindStep::Description,
        facts_fault(facts) is Some || s.targets.len() > 0 && facts->0.vpc->0@ != s.vpc,
    ensures
        s.after(FindEvent::Described(facts)).0 == (FindView { step: FindStep::Failed, ..s }),
        s.after(FindEvent::Described(facts)).1 is Fail,
{
}

/// The first database is asked for with its region, which is that of the first hint or
/// `us-east-1`; the region holds for all. What is described is what was typed, without the
/// white space around it.
pub proof fn law_database_is_named(s: FindView, typed: String, region: String)
    requires
        s.step == FindStep::Identifier,
        trim_spec(typed@).len() > 0,
    ensures
        ({
            let (t, action) = s.after(FindEvent::Typed(typed));
            &&& t.identifier == trim_spec(typed@)
            &&& t.targets == s.targets
            &&& s.targets.len() == 0 ==> action == FindActionView::AskRegion(
                if s.hints.len() > 0 {
                    s.hints[0].1
                } else {
                    "us-east-1"@
                },
            )
            &&& s.targets.len() == 0 ==> t.after(FindEvent::Typed(region)).1
                == (FindActionView::Describe {
                identifier: trim_spec(typed@),
                region: trim_spec(region@),
            }) && t.after(FindEvent::Typed(region)).0.region == trim_spec(region@) && t.after(
                FindEvent::Typed(region),
            ).0.step == FindStep::Description
            &&& s.targets.len() > 0 ==> action == (FindActionView::Describe {
                identifier: trim_spec(typed@),
                region: s.region,
            }) && t.region == s.region && t.step == FindStep::Description
        }),
{
}

/// Of the parts of the network that can be taken, the only one is taken, and of more one
/// is picked; where there is none, the search fails. With the part and the addresses of the
/// network the search is done, and gives the region, the network, the part, the addresses
/// and the databases.
pub proof fn law_part_is_picked(s: FindView, all: Vec<Subnet>, i: usize, cidr: String)
    requires
        s.step == FindStep::Parts,
    ensures
        ({
            let parts = open_parts(crate::deploy::placement::subnet_views(all@));
            let (t, action) = s.after(FindEvent::Listed(all));
            let u = if parts.len() == 1 {
                t
            } else {
                t.after(FindEvent::Picked(i)).0
            };
            let k: int = if parts.len() == 1 {
                0
            } else {
                i as int
            };
            let f = u.after(FindEvent::Ranged(Some(cidr)));
            &&& parts.len() == 0 ==> t.step == FindStep::Failed && action is Fail
            &&& parts.len() == 1 ==> action == FindActionView::FetchRange {
                vpc: s.vpc,
                region: s.region,
            }
            &&& parts.len() > 1 ==> action == FindActionView::Pick(
                Seq::new(parts.len(), |j: int| subnet_text(parts[j])),
            )
            &&& parts.len() > 1 && i >= parts.len() ==> u.step == FindStep::Failed
            &&& parts.len() > 0 && 0 <= k < parts.len() ==> f.1 is Done && f.0.step
                == FindStep::Found && f.0.placement() == (PlacementView {
                region: s.region,
                vpc: s.vpc,
                subnet: parts[k].id,
                cidr: cidr@,
                targets: s.targets,
            })
        }),
{
    let parts = open_parts(crate::deploy::placement::subnet_views(all@));
    let want = Seq::new(parts.len(), |j: int| subnet_text(parts[j]));
    assert(crate::deploy::discovery::part_lines(parts) =~= want);
}

proof fn lemma_name_tag(tags: Seq<Seq<char>>, from: int, at: int)
    requires
        0 <= from <= at < tags.len(),
        json_string_at(tags[at], "/Key"@) == Some("Name"@),
        forall|i: int|
            from <= i < at ==> json_string_at(#[trigger] tags[i], "/Key"@) != Some("Name"@),
    ensures
        name_tag(tags, from) == (match json_string_at(tags[at], "/Value"@) {
            Some(v) => v,
            None => Seq::empty(),
        }),
    decreases at - from,
{
    if from < at {
        assert(json_string_at(tags[from], "/Key"@) != Some("Name"@));
        lemma_name_tag(tags, from + 1, at);
    }
}

/// What is read of a part of a network: each value from its own place, and its name from
/// the first tag whose key is `Name`. A part gives public addresses only where it says so.
pub proof fn law_part_is_read(item: Seq<char>, tags: Seq<Seq<char>>, at: int)
    requires
        items_or_none(item, "/Tags"@) == tags,
        0 <= at < tags.len(),
        json_string_at(tags[at], "/Key"@) == Some("Name"@),
        forall|i: int|
            0 <= i < at ==> json_string_at(#[trigger] tags[i], "/Key"@) != Some("Name"@),
    ensures
        json_string_at(item, "/SubnetId"@) matches Some(v) ==> subnet_of(item).id == v,
        json_string_at(item, "/AvailabilityZone"@) matches Some(v) ==> subnet_of(item).zone == v,
        json_string_at(item, "/CidrBlock"@) matches Some(v) ==> subnet_of(item).cidr == v,
        json_string_at(tags[at], "/Value"@) matches Some(v) ==> subnet_of(item).name == v,
        subnet_of(item).public <==> json_flag_at(item, "/MapPublicIpOnLaunch"@) == Some(true),
{
    lemma_name_tag(tags, 0, at);
}

/// What is read of a rule: its protocol, its ports and every group that has a number, in
/// their order.
pub proof fn law_rule_is_read(item: Seq<char>, pairs: Seq<Seq<char>>, last: Seq<char>)
    ensures
        rule_of(item).protocol == json_string_at(item, "/IpProtocol"@),
        rule_of(item).from_port == json_number_at(item, "/FromPort"@),
        rule_of(item).to_port == json_number_at(item, "/ToPort"@),
        items_or_none(item, "/UserIdGroupPairs"@) == pairs.push(last) ==> rule_of(item).groups
            == (match json_string_at(last, "/GroupId"@) {
            Some(g) => group_ids(pairs).push(g),
            None => group_ids(pairs),
        }),
        group_ids(Seq::empty()).len() == 0,
        profile_hosts(Seq::empty()).len() == 0,
        profile_hosts(pairs.push(last)) == (match json_string_at(last, "/host"@) {
            Some(h) => profile_hosts(pairs).push(h),
            None => profile_hosts(pairs),
        }),
{
    assert(pairs.push(last).drop_last() =~= pairs);
}

} // verus!
