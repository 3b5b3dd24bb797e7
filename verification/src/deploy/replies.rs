//! What the cloud's command line and the files of profiles tell, as JSON.

use super::placement::{
    extract_rds_hints, hints_of, pair_views, rule_views, subnet_views, IngressRule, RdsFacts,
    RuleView, Subnet, SubnetView,
};
use super::wizard::{told, CloudConfig};
use crate::json_text::{
    flag_at, is_json, items_at, json_flag_at, json_items_at, json_number_at, json_readable,
    json_string_at, number_at, string_at,
};
use crate::text::{same_text, texts};
use vstd::prelude::*;

verus! {

/// Whether a reply can be read.
pub fn is_readable(reply: &str) -> (r: bool)
    ensures
        r == json_readable(reply@),
{
    is_json(reply)
}

/// The items of a list at a place; none where there is no list.
pub open spec fn items_or_none(s: Seq<char>, place: Seq<char>) -> Seq<Seq<char>> {
    match json_items_at(s, place) {
        Some(v) => v,
        None => Seq::empty(),
    }
}

/// The text at a place; an empty one where there is none.
pub open spec fn string_or_empty(s: Seq<char>, place: Seq<char>) -> Seq<char> {
    match json_string_at(s, place) {
        Some(t) => t,
        None => Seq::empty(),
    }
}

fn list_at(s: &str, place: &str) -> (r: Vec<String>)
    ensures
        texts(r@) == items_or_none(s@, place@),
{
    match items_at(s, place) {
        Some(v) => v,
        None => {
            let none: Vec<String> = Vec::new();
            assert(texts(none@) =~= Seq::empty());
            none
        },
    }
}

fn text_at(s: &str, place: &str) -> (r: String)
    ensures
        r@ == string_or_empty(s@, place@),
{
    match string_at(s, place) {
        Some(t) => t,
        None => String::new(),
    }
}

/// The hosts that profiles name.
pub open spec fn profile_hosts(profiles: Seq<Seq<char>>) -> Seq<Seq<char>>
    decreases profiles.len(),
{
    if profiles.len() == 0 {
        Seq::empty()
    } else {
        let front = profile_hosts(profiles.drop_last());
        match json_string_at(profiles.last(), "/host"@) {
            Some(h) => front.push(h),
            None => front,
        }
    }
}

/// The hosts that profiles name, where they are given.
pub fn list_profile_hosts(profiles: &Vec<String>) -> (r: Vec<String>)
    ensures
        texts(r@) == profile_hosts(texts(profiles@)),
{
    let ghost all = texts(profiles@);
    let mut out: Vec<String> = Vec::new();
    let mut i: usize = 0;
    assert(all.take(0) =~= Seq::empty());
    assert(texts(out@) =~= Seq::empty());
    while i < profiles.len()
        invariant
            i <= profiles@.len(),
            all == texts(profiles@),
            texts(out@) == profile_hosts(all.take(i as int)),
        decreases profiles@.len() - i,
    {
        assert(all[i as int] == profiles@[i as int]@);
        assert(all.take(i + 1).drop_last() =~= all.take(i as int));
        let ghost held = texts(out@);
        if let Some(h) = string_at(profiles[i].as_str(), "/host") {
            out.push(h);
            assert(texts(out@) =~= held.push(h@));
        }
        i = i + 1;
    }
    assert(all.take(i as int) =~= all);
    out
}

/// The names and regions of the databases that profiles name, each once.
pub fn extract_rds_hints_from_cdc_profiles(profiles: &Vec<String>) -> (r: Vec<(String, String)>)
    ensures
        pair_views(r@) == hints_of(profile_hosts(texts(profiles@))),
{
    let hosts = list_profile_hosts(profiles);
    extract_rds_hints(&hosts)
}

/// What was chosen for a deployment before, out of the file that keeps it.
pub fn load_cloud_config(raw: &str) -> (r: CloudConfig)
    ensures
        told(r.app_name) == json_string_at(raw@, "/app_name"@),
        told(r.rest_domain) == json_string_at(raw@, "/rest_domain"@),
        told(r.grpc_domain) == json_string_at(raw@, "/grpc_domain"@),
{
    CloudConfig {
        app_name: string_at(raw, "/app_name"),
        rest_domain: string_at(raw, "/rest_domain"),
        grpc_domain: string_at(raw, "/grpc_domain"),
    }
}

/// Whether a reply lists a database.
pub open spec fn lists_database(reply: Seq<char>) -> bool {
    items_or_none(reply, "/DBInstances"@).len() > 0
}

/// What a reply tells of the first database; nothing where it lists none.
pub fn rds_facts(reply: &str) -> (r: Option<RdsFacts>)
    ensures
        match r {
            Some(f) => {
                let first = items_or_none(reply@, "/DBInstances"@)[0];
                &&& lists_database(reply@)
                &&& told(f.vpc) == json_string_at(first, "/DBSubnetGroup/VpcId"@)
                &&& f.port == json_number_at(first, "/Endpoint/Port"@)
                &&& told(f.group) == json_string_at(
                    first,
                    "/VpcSecurityGroups/0/VpcSecurityGroupId"@,
                )
            },
            None => !lists_database(reply@),
        },
{
    let all = list_at(reply, "/DBInstances");
    assert(texts(all@).len() == all@.len());
    if all.len() == 0 {
        return None;
    }
    assert(texts(all@)[0] == all@[0]@);
    let first = all[0].as_str();
    Some(
        RdsFacts {
            vpc: string_at(first, "/DBSubnetGroup/VpcId"),
            port: number_at(first, "/Endpoint/Port"),
            group: string_at(first, "/VpcSecurityGroups/0/VpcSecurityGroupId"),
        },
    )
}

/// The value of the first tag that is called `Name`, from a place on.
pub open spec fn name_tag(tags: Seq<Seq<char>>, from: int) -> Seq<char>
    decreases tags.len() - from,
{
    if from < 0 || from >= tags.len() {
        Seq::empty()
    } else if json_string_at(tags[from], "/Key"@) == Some("Name"@) {
        string_or_empty(tags[from], "/Value"@)
    } else {
        name_tag(tags, from + 1)
    }
}

fn find_name(tags: &Vec<String>) -> (r: String)
    ensures
        r@ == name_tag(texts(tags@), 0),
{
    let mut i: usize = 0;
    while i < tags.len()
        invariant
            i <= tags@.len(),
            name_tag(texts(tags@), 0) == name_tag(texts(tags@), i as int),
        decreases tags@.len() - i,
    {
        assert(texts(tags@)[i as int] == tags@[i as int]@);
        if let Some(key) = string_at(tags[i].as_str(), "/Key") {
            if same_text(key.as_str(), "Name") {
                return text_at(tags[i].as_str(), "/Value");
            }
        }
        i = i + 1;
    }
    String::new()
}

/// What a reply tells of a part of a network.
pub open spec fn subnet_of(item: Seq<char>) -> SubnetView {
    SubnetView {
        id: string_or_empty(item, "/SubnetId"@),
        zone: string_or_empty(item, "/AvailabilityZone"@),
        cidr: string_or_empty(item, "/CidrBlock"@),
        name: name_tag(items_or_none(item, "/Tags"@), 0),
        public: json_flag_at(item, "/MapPublicIpOnLaunch"@) == Some(true),
    }
}

/// The parts of a network that a reply lists.
pub fn list_subnets(reply: &str) -> (r: Vec<Subnet>)
    ensures
        subnet_views(r@) == items_or_none(reply@, "/Subnets"@).map_values(
            |i: Seq<char>| subnet_of(i),
        ),
{
    let items = list_at(reply, "/Subnets");
    let ghost want = texts(items@).map_values(|i: Seq<char>| subnet_of(i));
    let mut out: Vec<Subnet> = Vec::new();
    let mut i: usize = 0;
    assert(subnet_views(out@) =~= want.take(0));
    while i < items.len()
        invariant
            i <= items@.len(),
            want == texts(items@).map_values(|i: Seq<char>| subnet_of(i)),
            subnet_views(out@) == want.take(i as int),
        decreases items@.len() - i,
    {
        assert(texts(items@)[i as int] == items@[i as int]@);
        let item = items[i].as_str();
        let tags = list_at(item, "/Tags");
        let public = match flag_at(item, "/MapPublicIpOnLaunch") {
            Some(b) => b,
            None => false,
        };
        let s = Subnet {
            id: text_at(item, "/SubnetId"),
            zone: text_at(item, "/AvailabilityZone"),
            cidr: text_at(item, "/CidrBlock"),
            name: find_name(&tags),
            public,
        };
        assert(s@ == subnet_of(item@));
        let ghost held = subnet_views(out@);
        out.push(s);
        i = i + 1;
        assert(subnet_views(out@) =~= held.push(s@));
        assert(want.take(i as int) =~= want.take(i - 1).push(want[i - 1]));
    }
    assert(want.take(i as int) =~= want);
    out
}

/// The groups that a list of pairs names.
pub open spec fn group_ids(pairs: Seq<Seq<char>>) -> Seq<Seq<char>>
    decreases pairs.len(),
{
    if pairs.len() == 0 {
        Seq::empty()
    } else {
        let front = group_ids(pairs.drop_last());
        match json_string_at(pairs.last(), "/GroupId"@) {
            Some(g) => front.push(g),
            None => front,
        }
    }
}

fn list_groups(pairs: &Vec<String>) -> (r: Vec<String>)
    ensures
        texts(r@) == group_ids(texts(pairs@)),
{
    let ghost all = texts(pairs@);
    let mut out: Vec<String> = Vec::new();
    let mut i: usize = 0;
    assert(all.take(0) =~= Seq::empty());
    assert(texts(out@) =~= Seq::empty());
    while i < pairs.len()
        invariant
            i <= pairs@.len(),
            all == texts(pairs@),
            texts(out@) == group_ids(all.take(i as int)),
        decreases pairs@.len() - i,
    {
        assert(all[i as int] == pairs@[i as int]@);
        assert(all.take(i + 1).drop_last() =~= all.take(i as int));
        let ghost held = texts(out@);
        if let Some(g) = string_at(pairs[i].as_str(), "/GroupId") {
            out.push(g);
            assert(texts(out@) =~= held.push(g@));
        }
        i = i + 1;
    }
    assert(all.take(i as int) =~= all);
    out
}

/// What a reply tells of a rule on what may come in.
pub open spec fn rule_of(item: Seq<char>) -> RuleView {
    RuleView {
        protocol: json_string_at(item, "/IpProtocol"@),
        from_port: json_number_at(item, "/FromPort"@),
        to_port: json_number_at(item, "/ToPort"@),
        groups: group_ids(items_or_none(item, "/UserIdGroupPairs"@)),
    }
}

/// The rules of the first group that a reply lists.
pub fn list_ingress_rules(reply: &str) -> (r: Vec<IngressRule>)
    ensures
        rule_views(r@) == items_or_none(reply@, "/SecurityGroups/0/IpPermissions"@).map_values(
            |i: Seq<char>| rule_of(i),
        ),
{
    let items = list_at(reply, "/SecurityGroups/0/IpPermissions");
    let ghost want = texts(items@).map_values(|i: Seq<char>| rule_of(i));
    let mut out: Vec<IngressRule> = Vec::new();
    let mut i: usize = 0;
    assert(rule_views(out@) =~= want.take(0));
    while i < items.len()
        invariant
            i <= items@.len(),
            want == texts(items@).map_values(|i: Seq<char>| rule_of(i)),
            rule_views(out@) == want.take(i as int),
        decreases items@.len() - i,
    {
        assert(texts(items@)[i as int] == items@[i as int]@);
        let item = items[i].as_str();
        let pairs = list_at(item, "/UserIdGroupPairs");
        let rule = IngressRule {
            protocol: string_at(item, "/IpProtocol"),
            from_port: number_at(item, "/FromPort"),
            to_port: number_at(item, "/ToPort"),
            groups: list_groups(&pairs),
        };
        assert(rule@ == rule_of(item@));
        let ghost held = rule_views(out@);
        out.push(rule);
        i = i + 1;
        assert(rule_views(out@) =~= held.push(rule@));
        assert(want.take(i as int) =~= want.take(i - 1).push(want[i - 1]));
    }
    assert(want.take(i as int) =~= want);
    out
}

/// Whether a reply lists a key pair.
pub fn key_pair_exists(reply: &str) -> (r: bool)
    ensures
        r == (items_or_none(reply@, "/KeyPairs"@).len() > 0),
{
    let all = list_at(reply, "/KeyPairs");
    assert(texts(all@).len() == all@.len());
    all.len() > 0
}

/// The number of the first group that a reply lists.
pub fn security_group_id(reply: &str) -> (r: Option<String>)
    ensures
        told(r) == json_string_at(reply@, "/SecurityGroups/0/GroupId"@),
{
    string_at(reply, "/SecurityGroups/0/GroupId")
}

/// The addresses of the first network that a reply lists.
pub fn get_vpc_cidr(reply: &str) -> (r: Option<String>)
    ensures
        told(r) == json_string_at(reply@, "/Vpcs/0/CidrBlock"@),
{
    string_at(reply, "/Vpcs/0/CidrBlock")
}

} // verus!
