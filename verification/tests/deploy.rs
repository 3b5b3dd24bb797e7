use bittice::deploy::compose::{
    deploy_compose, generate_caddyfile, generate_compose, rsync_args, ssh_common_args,
    ssh_probe_args, EngineIdentity,
};
use bittice::deploy::image::{
    container_name, detect_ghcr_repo, image_reference, is_project_manifest, latest_git_tag,
    terraform_platform, terraform_url, terraform_version,
};
use bittice::deploy::names::{
    suggest_grpc_domain, validate_deployment_name, validate_public_hostname, HostError, NameError,
};
use bittice::deploy::placement::{
    build_tfvars, check_vpc, describe_rds, extract_rds_hints, find_public_subnets, group_import,
    key_import, rds_hint, rds_ingress_rule_exists, rule_imports, subnet_label, IngressRule,
    RdsFacts, RdsFault, RdsPlacement, RdsTarget, Subnet,
};
use bittice::deploy::replies::{
    extract_rds_hints_from_cdc_profiles, get_vpc_cidr, is_readable, key_pair_exists,
    list_ingress_rules, list_subnets, load_cloud_config, rds_facts, security_group_id,
};
use bittice::deploy::watch::{cdc_state, count_text, CdcState};
use bittice::deploy::wizard::{
    check_ssh_rsync, machine_size, CloudConfig, DeployAnswer, DeployAsk, DeployStep, DeployWizard,
    BACK,
};
use bittice::repl::ovpn_picker::{
    list_dirs_and_ovpns, pick_items, shorten_prompt, truncate_entry_label, PickEntry, Picked,
};

fn texts(v: &[&str]) -> Vec<String> {
    v.iter().map(|s| s.to_string()).collect()
}

#[test]
fn suggest_grpc_from_prod_rest() {
    assert_eq!(
        suggest_grpc_domain("dash-sac.prod.parking.net.co"),
        "dash-sac-grpc.prod.parking.net.co"
    );
}

#[test]
fn suggest_grpc_from_dev_rest() {
    assert_eq!(
        suggest_grpc_domain("dash-sac.dev.parking.net.co"),
        "dash-sac-grpc.dev.parking.net.co"
    );
}

fn entry(name: &str, is_folder: bool) -> PickEntry {
    PickEntry { name: name.to_string(), is_folder, is_file: !is_folder }
}

#[test]
fn list_sorts() {
    let entries = vec![entry("a", true), entry("z.ovpn", false)];
    let (d, f) = list_dirs_and_ovpns(&entries);
    assert_eq!(d.len(), 1);
    assert_eq!(f.len(), 1);
}

#[test]
fn picker_hides_and_sorts() {
    let entries = vec![
        entry("z", true),
        entry(".hidden", true),
        entry("b.OVPN", false),
        entry("a.ovpn", false),
        entry("notes.txt", false),
        entry("a", true),
    ];
    let (d, f) = list_dirs_and_ovpns(&entries);
    assert_eq!(d, texts(&["a", "z"]));
    assert_eq!(f, texts(&["a.ovpn", "b.OVPN"]));
    let items = pick_items(true, &d, &f);
    assert_eq!(items.len(), 6);
    assert!(matches!(items[0].0, Picked::Up));
    assert!(matches!(items[2].0, Picked::EnterDir(1)));
    assert!(matches!(items[4].0, Picked::OvpnFile(1)));
    assert!(matches!(items[5].0, Picked::TypeInstead));
    assert_eq!(items[1].1, "  📁 a/");
    assert_eq!(pick_items(false, &vec![], &vec![]).len(), 1);
}

#[test]
fn long_labels_are_cut() {
    assert_eq!(truncate_entry_label("x"), "  x");
    let long = "y".repeat(80);
    let cut = truncate_entry_label(&long);
    assert_eq!(cut.chars().count(), 52);
    assert!(cut.ends_with('…'));
    assert_eq!(shorten_prompt("/home/me"), "/home/me");
    let path = format!("/{}", "p".repeat(60));
    assert_eq!(shorten_prompt(&path), format!("...{}", "p".repeat(49)));
}

#[test]
fn deployment_names_are_checked() {
    assert!(validate_deployment_name("my-app1").is_ok());
    assert!(validate_deployment_name(" my-app ").is_ok());
    assert!(matches!(validate_deployment_name("ab"), Err(NameError::Length(2))));
    assert!(matches!(validate_deployment_name("1abc"), Err(NameError::Start('1'))));
    assert!(matches!(validate_deployment_name("Abc"), Err(NameError::Start('A'))));
    assert!(matches!(validate_deployment_name("abc-"), Err(NameError::End)));
    assert!(matches!(validate_deployment_name("ab_c"), Err(NameError::Character('_'))));
    assert_eq!(NameError::Length(2).message(), "Name must be 3–32 characters (got 2).");
    assert_eq!(NameError::Start('1').message(), "Name must start with a lowercase letter (got '1').");
    assert_eq!(NameError::End.message(), "Name cannot end with '-'.");
    assert_eq!(
        NameError::Character('_').message(),
        "Name can only contain lowercase letters, digits, and hyphens (offending char: '_')."
    );
}

#[test]
fn host_names_are_checked() {
    assert!(validate_public_hostname("dash-sac.dev.parking.net.co").is_ok());
    assert!(validate_public_hostname(" a.bc. ").is_ok());
    assert!(matches!(validate_public_hostname("a.b"), Err(HostError::Length)));
    assert!(matches!(validate_public_hostname("https://a.b"), Err(HostError::Address)));
    assert!(matches!(validate_public_hostname("a.bc:80"), Err(HostError::Address)));
    assert!(matches!(validate_public_hostname("localhost"), Err(HostError::NoPoint)));
    assert!(matches!(validate_public_hostname("a..bc"), Err(HostError::Label)));
    assert!(matches!(validate_public_hostname("-a.bc"), Err(HostError::LabelStart)));
    assert!(matches!(validate_public_hostname("a_b.cd"), Err(HostError::LabelCharacter)));
    assert_eq!(HostError::Label.message("a..bc"), "Invalid hostname label in 'a..bc'.");
}

#[test]
fn databases_are_hinted_by_their_hosts() {
    let host = "Prod-DB.abc123.us-east-1.rds.amazonaws.com.";
    assert_eq!(rds_hint(host), Some(("prod-db".to_string(), "us-east-1".to_string())));
    assert_eq!(rds_hint("db.example.com"), None);
    assert_eq!(rds_hint("x.rds.amazonaws.com"), None);
    let hosts = texts(&[host, "localhost", "prod-db.zzz.us-east-1.rds.amazonaws.com"]);
    assert_eq!(extract_rds_hints(&hosts).len(), 1);
    let profiles = vec![
        format!("{{\"host\":\"{}\"}}", host),
        "{\"host\": 3}".to_string(),
        "broken".to_string(),
    ];
    assert_eq!(
        extract_rds_hints_from_cdc_profiles(&profiles),
        vec![("prod-db".to_string(), "us-east-1".to_string())]
    );
}

fn placement() -> RdsPlacement {
    RdsPlacement {
        region: "us-east-1".to_string(),
        vpc_id: "vpc-1".to_string(),
        subnet_id: "subnet-1".to_string(),
        vpc_cidr: "10.0.0.0/16".to_string(),
        targets: vec![
            RdsTarget {
                identifier: "a".to_string(),
                security_group_id: "sg-a".to_string(),
                port: 3307,
            },
            RdsTarget {
                identifier: "b".to_string(),
                security_group_id: "sg-b".to_string(),
                port: 3306,
            },
        ],
    }
}

#[test]
fn terraform_gets_its_variables() {
    assert_eq!(
        build_tfvars("r", "t3", "key", "app", None),
        "aws_region     = \"r\"\ninstance_type  = \"t3\"\nssh_public_key = \"key\"\napp_name       = \"app\"\n"
    );
    let all = build_tfvars("r", "t3", "key", "app", Some(&placement()));
    assert!(all.ends_with(
        "target_vpc_id                  = \"vpc-1\"\n\
         target_subnet_id               = \"subnet-1\"\n\
         target_rds_security_group_ids  = [\"sg-a\", \"sg-b\"]\n\
         rds_port                       = 3307\n\
         allowed_admin_cidr             = \"10.0.0.0/16\"\n"
    ));
}

#[test]
fn replies_of_the_cloud_are_read() {
    let reply = r#"{"DBInstances":[{"DBSubnetGroup":{"VpcId":"vpc-9"},"Endpoint":{"Port":3306},
        "VpcSecurityGroups":[{"VpcSecurityGroupId":"sg-9"}]}]}"#;
    assert!(is_readable(reply));
    assert!(!is_readable("not json"));
    let d = describe_rds(rds_facts(reply));
    assert_eq!(d.ok(), Some(("vpc-9".to_string(), 3306, "sg-9".to_string())));
    assert!(matches!(describe_rds(rds_facts("{}")), Err(RdsFault::NotFound)));
    assert!(matches!(
        describe_rds(rds_facts(r#"{"DBInstances":[{}]}"#)),
        Err(RdsFault::NoVpc)
    ));
    let no_port = RdsFacts { vpc: Some("v".to_string()), port: None, group: None };
    assert!(matches!(describe_rds(Some(no_port)), Err(RdsFault::NoPort)));
    let no_group = RdsFacts { vpc: Some("v".to_string()), port: Some(1), group: None };
    assert!(matches!(describe_rds(Some(no_group)), Err(RdsFault::NoGroup)));
    assert!(key_pair_exists(r#"{"KeyPairs":[{}]}"#));
    assert!(!key_pair_exists(r#"{"KeyPairs":[]}"#));
    assert_eq!(
        security_group_id(r#"{"SecurityGroups":[{"GroupId":"sg-1"}]}"#),
        Some("sg-1".to_string())
    );
    assert_eq!(get_vpc_cidr(r#"{"Vpcs":[]}"#), None);
    assert_eq!(
        get_vpc_cidr(r#"{"Vpcs":[{"CidrBlock":"10.0.0.0/8"}]}"#),
        Some("10.0.0.0/8".to_string())
    );
}

#[test]
fn open_parts_of_a_network_are_listed() {
    let reply = r#"{"Subnets":[
        {"SubnetId":"s-2","AvailabilityZone":"b","CidrBlock":"c2","MapPublicIpOnLaunch":true,
         "Tags":[{"Key":"Env","Value":"x"},{"Key":"Name","Value":"two"}]},
        {"SubnetId":"s-3","AvailabilityZone":"c","CidrBlock":"c3","MapPublicIpOnLaunch":false},
        {"SubnetId":"s-1","AvailabilityZone":"a","CidrBlock":"c1","MapPublicIpOnLaunch":true},
        {"AvailabilityZone":"a","MapPublicIpOnLaunch":true}]}"#;
    let open = find_public_subnets(list_subnets(reply));
    let ids: Vec<&str> = open.iter().map(|s| s.id.as_str()).collect();
    assert_eq!(ids, vec!["s-1", "s-2"]);
    assert_eq!(open[1].name, "two");
    assert_eq!(subnet_label(&open[1]), "s-2  (b, c2, \"two\")");
    assert_eq!(subnet_label(&open[0]), "s-1  (a, c1)");
    let private = Subnet {
        id: "x".to_string(),
        zone: "a".to_string(),
        cidr: "c".to_string(),
        name: String::new(),
        public: false,
    };
    assert!(find_public_subnets(vec![private]).is_empty());
}

#[test]
fn rules_let_groups_in() {
    let reply = r#"{"SecurityGroups":[{"IpPermissions":[
        {"IpProtocol":"udp","FromPort":3306,"ToPort":3306,"UserIdGroupPairs":[{"GroupId":"sg-x"}]},
        {"IpProtocol":"tcp","FromPort":3306,"ToPort":3306,
         "UserIdGroupPairs":[{"UserId":"u"},{"GroupId":"sg-x"}]}]}]}"#;
    let rules = list_ingress_rules(reply);
    assert_eq!(rules.len(), 2);
    assert!(rds_ingress_rule_exists(&rules, "sg-x", 3306));
    assert!(!rds_ingress_rule_exists(&rules, "sg-x", 3307));
    assert!(!rds_ingress_rule_exists(&rules, "sg-y", 3306));
    let open = IngressRule { protocol: None, from_port: None, to_port: None, groups: vec![] };
    assert!(!rds_ingress_rule_exists(&vec![open], "sg-x", 1));
}

#[test]
fn orphans_are_imported_once() {
    let none: Vec<String> = vec![];
    let key = key_import(&none, "app", true).unwrap();
    assert_eq!((key.address.as_str(), key.id.as_str()), ("aws_key_pair.bittice", "app-key"));
    assert!(key_import(&none, "app", false).is_none());
    assert!(key_import(&texts(&["aws_key_pair.bittice"]), "app", true).is_none());
    let group = group_import(&none, Some("sg-1")).unwrap();
    assert_eq!(group.address, "aws_security_group.bittice");
    assert!(group_import(&none, None).is_none());
    let targets = placement().targets;
    let rules = rule_imports(&none, &targets, "sg-0", &vec![true, false]);
    assert_eq!(rules.len(), 1);
    assert_eq!(rules[0].address, "aws_security_group_rule.rds_ingress_from_bittice[0]");
    assert_eq!(rules[0].id, "sg-a_ingress_tcp_3307_3307_sg-0");
}

#[test]
fn databases_share_one_network() {
    assert!(check_vpc("db", "v", "v").is_none());
    let m = check_vpc("db", "v2", "v1").unwrap();
    assert!(m.starts_with("RDS 'db' lives in v2, but the first RDS is in v1."));
}

#[test]
fn images_are_named_by_the_repository() {
    assert_eq!(detect_ghcr_repo("https://github.com/Me/App.git"), Some("me/app".to_string()));
    assert_eq!(detect_ghcr_repo("git@github.com:Me/App.git"), Some("me/app".to_string()));
    assert_eq!(detect_ghcr_repo("https://gitlab.com/me/app"), None);
    assert_eq!(
        image_reference("git@github.com:Me/App.git", "v1"),
        Some("ghcr.io/me/app:v1".to_string())
    );
    assert_eq!(latest_git_tag("v2.0\n"), Some("v2.0".to_string()));
    assert_eq!(latest_git_tag(" \n"), None);
    assert!(is_project_manifest("[package]\nname = \"bittice\"\n"));
    assert!(!is_project_manifest("[package]\nname = \"other\"\n"));
    assert_eq!(container_name(true), "bittice-local");
    assert_eq!(container_name(false), "bittice");
}

#[test]
fn terraform_is_fetched_for_the_machine() {
    let v = terraform_version();
    assert_eq!(
        terraform_url("linux", "amd64"),
        format!("https://releases.hashicorp.com/terraform/{v}/terraform_{v}_linux_amd64.zip")
    );
    assert!(matches!(terraform_platform("macos", "aarch64"), Ok(("darwin", "arm64"))));
    assert!(matches!(terraform_platform("linux", "x86_64"), Ok(("linux", "amd64"))));
    assert!(terraform_platform("plan9", "x86_64").is_err());
    assert!(terraform_platform("linux", "riscv64").is_err());
}

#[test]
fn the_log_tells_whether_changes_flow() {
    assert_eq!(count_text("abcabcab", "abc"), 2);
    assert_eq!(count_text("aaaa", "aa"), 2);
    assert!(matches!(cdc_state("", 1), CdcState::Waiting));
}

#[test]
fn compose_file_has_a_proxy_only_with_a_domain() {
    let plain = generate_compose("img", None, None);
    assert!(plain.starts_with("services:\n  bittice:\n    image: \"img\""));
    assert!(!plain.contains("caddy"));
    let proxied = generate_compose("img", None, Some("a.bc"));
    assert!(proxied.contains("caddy"));
    let ident = EngineIdentity {
        deployment_id: "dep-1".to_string(),
        instance_token: "tok".to_string(),
        control_plane_url: "https://cp".to_string(),
    };
    let known = generate_compose("img", Some(&ident), None);
    assert!(known.contains("dep-1") && known.contains("https://cp"));
    assert_eq!(generate_caddyfile("a.bc"), "a.bc {\n    reverse_proxy bittice:3000\n}\n");
    assert!(!deploy_compose("img", None, None, None).is_empty());
}

#[test]
fn ssh_gets_key_and_address() {
    let a = ssh_common_args("k", "1.2.3.4");
    assert!(a.contains(&"k".to_string()));
    assert_eq!(a.last().unwrap(), "ubuntu@1.2.3.4");
    assert!(ssh_probe_args("k", "1.2.3.4").contains(&"ubuntu@1.2.3.4".to_string()));
    assert!(rsync_args("/d", "1.2.3.4", "k").iter().any(|s| s.contains("1.2.3.4")));
    assert!(check_ssh_rsync(true, true).is_none());
    assert!(check_ssh_rsync(false, true).is_some());
    assert!(check_ssh_rsync(true, false).is_some());
}

#[test]
fn saved_settings_are_of_one_deployment() {
    let raw = r#"{"app_name":"app","rest_domain":" a.bc ","grpc_domain":""}"#;
    let config = load_cloud_config(raw);
    assert_eq!(config.load_cloud_config_domain("app"), Some("a.bc".to_string()));
    assert_eq!(config.load_cloud_config_grpc_domain("app"), None);
    assert_eq!(config.load_cloud_config_domain("other"), None);
    assert!(load_cloud_config("?").app_name.is_none());
}

#[test]
fn deploy_wizard_goes_through_its_steps() {
    let config = CloudConfig { app_name: None, rest_domain: None, grpc_domain: None };
    let mut w = DeployWizard::new(config);
    assert!(matches!(w.step, DeployStep::Provider));
    assert!(matches!(w.advance(DeployAnswer::Chosen(0)), DeployAsk::Place));
    assert!(matches!(w.advance(DeployAnswer::Placed(placement())), DeployAsk::Size));
    assert!(matches!(w.advance(DeployAnswer::Chosen(0)), DeployAsk::Name));
    assert!(matches!(w.advance(DeployAnswer::Typed("X".to_string())), DeployAsk::Again(_)));
    assert!(matches!(w.advance(DeployAnswer::Typed("my-app".to_string())), DeployAsk::Rest(_)));
    assert!(matches!(w.advance(DeployAnswer::Typed("no".to_string())), DeployAsk::Again(_)));
    let grpc = match w.advance(DeployAnswer::Typed("app.dev.co".to_string())) {
        DeployAsk::Grpc(d) => d,
        _ => panic!("the next question is the other host name"),
    };
    assert_eq!(grpc, "app-grpc.dev.co");
    assert!(matches!(w.advance(DeployAnswer::Typed(grpc)), DeployAsk::Confirm(_)));
    assert!(matches!(w.step, DeployStep::Confirm));
    assert_eq!(machine_size(0), "t3.micro");
    assert_eq!(machine_size(2), "t3.medium");
    let mut stopped = DeployWizard::new(CloudConfig {
        app_name: None,
        rest_domain: None,
        grpc_domain: None,
    });
    assert!(matches!(stopped.advance(DeployAnswer::Interrupted), DeployAsk::Stop));
    assert_eq!(BACK, 255);
}
