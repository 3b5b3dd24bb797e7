use bittice::deploy::compose::{report, running_line, write_command};
use bittice::deploy::discovery::{fault_message, Discovery, FindAction, FindEvent, FindStep};
use bittice::deploy::image::{
    ensure_vpn_conf_for_compose, run_plain_container, terraform_binary_path, terraform_cache_dir,
    terraform_platform, terraform_state_list, PlatformError, VpnConf,
};
use bittice::deploy::placement::{group_name, key_name, list_targets, nth_label, RdsFacts, RdsFault, RdsTarget, Subnet};
use bittice::deploy::watch::{
    failure_message, output_tail, timeout_message, waiting_line, CdcWatch, SshWatch, WatchStep, CDC_LOOKS, SSH_LOOKS,
};
use bittice::deploy::wizard::{read_api_key, CloudConfig, DeployWizard};

fn facts(vpc: &str, port: u64, group: &str) -> Option<RdsFacts> {
    Some(RdsFacts { vpc: Some(vpc.to_string()), port: Some(port), group: Some(group.to_string()) })
}

fn part(id: &str, zone: &str, public: bool) -> Subnet {
    Subnet {
        id: id.to_string(),
        zone: zone.to_string(),
        cidr: "10.0.1.0/24".to_string(),
        name: String::new(),
        public,
    }
}

fn typed(s: &str) -> FindEvent {
    FindEvent::Typed(s.to_string())
}

fn hints() -> Vec<(String, String)> {
    vec![
        ("orders".to_string(), "eu-west-1".to_string()),
        ("users".to_string(), "eu-west-1".to_string()),
    ]
}

#[test]
fn discovery_of_two_databases() {
    let (mut d, first) = Discovery::new(hints());
    assert!(matches!(&first, FindAction::AskIdentifier { label, default } if label == "(1/2)" && default == "orders"));
    let region = d.advance(typed(" orders "));
    assert!(matches!(&region, FindAction::AskRegion(r) if r == "eu-west-1"));
    let describe = d.advance(typed("eu-west-1 "));
    assert!(
        matches!(&describe, FindAction::Describe { identifier, region } if identifier == "orders" && region == "eu-west-1")
    );
    let second = d.advance(FindEvent::Described(facts("vpc-1", 3306, "sg-1")));
    assert!(matches!(&second, FindAction::AskIdentifier { label, default } if label == "(2/2)" && default == "users"));
    // The region of the first is that of the others.
    assert!(matches!(d.advance(typed("users")), FindAction::Describe { .. }));
    let list = d.advance(FindEvent::Described(facts("vpc-1", 3307, "sg-2")));
    assert!(matches!(&list, FindAction::List { vpc, region } if vpc == "vpc-1" && region == "eu-west-1"));
    let parts = vec![part("b", "z2", true), part("c", "z1", false), part("a", "z1", true)];
    match d.advance(FindEvent::Listed(parts)) {
        FindAction::Pick(labels) => assert_eq!(labels, ["a  (z1, 10.0.1.0/24)", "b  (z2, 10.0.1.0/24)"]),
        other => panic!("{other:?}"),
    }
    assert!(matches!(d.advance(FindEvent::Picked(1)), FindAction::FetchRange { .. }));
    assert!(matches!(d.advance(FindEvent::Ranged(Some("10.0.0.0/16".to_string()))), FindAction::Done));
    let p = d.placement().unwrap();
    assert_eq!((p.region.as_str(), p.vpc_id.as_str()), ("eu-west-1", "vpc-1"));
    assert_eq!((p.subnet_id.as_str(), p.vpc_cidr.as_str()), ("b", "10.0.0.0/16"));
    assert_eq!(list_targets(&p.targets), "orders:3306, users:3307");
}

#[test]
fn discovery_without_hints_takes_the_only_open_part() {
    let (mut d, first) = Discovery::new(Vec::new());
    assert!(matches!(&first, FindAction::AskIdentifier { label, default } if label.is_empty() && default.is_empty()));
    assert!(matches!(&d.advance(typed("db")), FindAction::AskRegion(r) if r == "us-east-1"));
    d.advance(typed("us-east-1"));
    d.advance(FindEvent::Described(facts("vpc-9", 3306, "sg-9")));
    let next = d.advance(FindEvent::Listed(vec![part("only", "z", true), part("closed", "z", false)]));
    assert!(matches!(next, FindAction::FetchRange { .. }));
    assert_eq!(d.subnet, "only");
}

#[test]
fn discovery_fails_as_it_should() {
    let fail = |a: FindAction| match a {
        FindAction::Fail(m) => m,
        other => panic!("{other:?}"),
    };
    let (mut d, _) = Discovery::new(Vec::new());
    assert_eq!(fail(d.advance(typed("  "))), "RDS identifier is required");
    assert_eq!(d.step, FindStep::Failed);
    assert!(d.placement().is_none());

    let (mut d, _) = Discovery::new(Vec::new());
    assert_eq!(fail(d.advance(FindEvent::Interrupted)), "cancelled");

    let (mut d, _) = Discovery::new(Vec::new());
    d.advance(typed("db"));
    d.advance(typed("eu"));
    assert_eq!(fail(d.advance(FindEvent::Described(None))), "RDS 'db' not found in region eu");

    let (mut d, _) = Discovery::new(hints());
    d.advance(typed("orders"));
    d.advance(typed("eu"));
    d.advance(FindEvent::Described(facts("vpc-1", 3306, "sg")));
    d.advance(typed("users"));
    let message = fail(d.advance(FindEvent::Described(facts("vpc-2", 3306, "sg"))));
    assert!(message.starts_with("RDS 'users' lives in vpc-2, but the first RDS is in vpc-1."));

    let (mut d, _) = Discovery::new(Vec::new());
    d.advance(typed("db"));
    d.advance(typed("eu"));
    d.advance(FindEvent::Described(facts("vpc-1", 3306, "sg")));
    let message = fail(d.advance(FindEvent::Listed(vec![part("x", "z", false)])));
    assert!(message.starts_with("VPC vpc-1 has no subnet with MapPublicIpOnLaunch=true."));

    let (mut d, _) = Discovery::new(Vec::new());
    d.advance(typed("db"));
    d.advance(typed("eu"));
    d.advance(FindEvent::Described(facts("vpc-1", 3306, "sg")));
    d.advance(FindEvent::Listed(vec![part("x", "z", true)]));
    assert_eq!(fail(d.advance(FindEvent::Ranged(None))), "CidrBlock not found for VPC vpc-1");
}

#[test]
fn faults_are_told() {
    assert_eq!(fault_message(RdsFault::NoVpc, "a", "b"), "VpcId missing on RDS DBSubnetGroup");
    assert_eq!(fault_message(RdsFault::NoPort, "a", "b"), "Endpoint.Port missing on RDS");
    assert_eq!(fault_message(RdsFault::NoGroup, "a", "b"), "RDS has no VPC security group attached");
}

#[test]
fn sync_is_waited_for() {
    assert!(CdcWatch::begin(0).is_none());
    let mut w = CdcWatch::begin(2).unwrap();
    assert_eq!(w.line(), "Waiting for CDC live replication (2 profile(s))… (1/180)");
    assert_eq!(w.line(), waiting_line(2, 1, 180));
    assert!(matches!(w.look("finished Phase 4", "k", "1.2.3.4"), WatchStep::Again));
    match w.look("finished Phase 4\nfinished Phase 4", "k", "1.2.3.4") {
        WatchStep::Ready(line) => {
            assert_eq!(line, "CDC live — 2 profile(s) reached Phase 4 (real-time replication).")
        }
        other => panic!("{other:?}"),
    }
    match w.look("staged startup aborted: Connection timed out", "k", "1.2.3.4") {
        WatchStep::GaveUp(m) => assert_eq!(m, failure_message(true, "k", "1.2.3.4")),
        other => panic!("{other:?}"),
    }
    w.looks = CDC_LOOKS - 1;
    match w.look("", "k", "1.2.3.4") {
        WatchStep::GaveUp(m) => {
            assert_eq!(m, timeout_message(2, "k", "1.2.3.4"));
            assert!(m.starts_with("Timed out waiting for live CDC (2 profile(s))."));
            assert!(m.ends_with("ssh -i k ubuntu@1.2.3.4 'docker logs -f bittice'"));
        }
        other => panic!("{other:?}"),
    }
    assert_eq!(w.looks, CDC_LOOKS);
}

#[test]
fn machine_is_waited_for() {
    let mut w = SshWatch::new();
    assert_eq!(w.line("1.2.3.4"), "Waiting for SSH on 1.2.3.4… (1/20)");
    assert!(matches!(w.look(false, "k", "1.2.3.4"), WatchStep::Again));
    assert!(matches!(w.look(true, "k", "1.2.3.4"), WatchStep::Ready(s) if s == "SSH ready."));
    w.looks = SSH_LOOKS - 1;
    match w.look(false, "k", "1.2.3.4") {
        WatchStep::GaveUp(m) => {
            assert!(m.starts_with("Could not connect via SSH to 1.2.3.4.\n\nTroubleshooting:\n1. Test manually: ssh -i k -o"));
            assert!(m.ends_with("4. Make sure this .pem matches the key used when provisioning"));
        }
        other => panic!("{other:?}"),
    }
}

#[test]
fn end_of_output() {
    assert_eq!(output_tail(""), "(no output captured)");
    assert_eq!(output_tail("a\nb\n"), "a\nb");
    let long: Vec<String> = (0..30).map(|i| format!("line {i}")).collect();
    assert_eq!(output_tail(&long.join("\n")), long[5..].join("\n"));
}

#[test]
fn image_is_run_by_itself() {
    let args = run_plain_container("/srv/data", "ghcr.io/a/b:v1");
    assert_eq!(args[..4], ["run", "-d", "--name", "bittice"]);
    assert_eq!(args[args.len() - 3..], ["-v", "/srv/data:/app/data", "ghcr.io/a/b:v1"]);
    assert_eq!(args.len(), 21);
}

#[test]
fn settings_of_the_vpn() {
    assert!(matches!(ensure_vpn_conf_for_compose(true, false, "p"), VpnConf::Keep));
    assert!(matches!(ensure_vpn_conf_for_compose(false, true, "p"), VpnConf::Copy));
    match ensure_vpn_conf_for_compose(false, false, "vpn/bittice-ec2.ovpn") {
        VpnConf::Missing(m) => assert!(m.starts_with("Sync profile uses VPN but vpn/bittice-ec2.ovpn is missing.")),
        _ => panic!(),
    }
}

#[test]
fn state_of_terraform() {
    let out = "aws_key_pair.bittice\n  \n aws_security_group.bittice \n";
    assert_eq!(terraform_state_list(true, out), ["aws_key_pair.bittice", "aws_security_group.bittice"]);
    assert!(terraform_state_list(false, out).is_empty());
    assert_eq!(terraform_cache_dir(Some("/home/a"), "data"), "/home/a/.bittice/bin");
    assert_eq!(terraform_cache_dir(None, "data"), "data/.terraform-bin");
    assert_eq!(terraform_binary_path(None, "data"), "data/.terraform-bin/terraform");
    assert!(matches!(terraform_platform("windows", "x86_64"), Err(PlatformError::System)));
    assert!(matches!(terraform_platform("linux", "riscv64"), Err(PlatformError::Machine)));
}

#[test]
fn api_key_has_its_form() {
    assert_eq!(read_api_key(" bk_live_1 \n").as_deref(), Some("bk_live_1"));
    assert_eq!(read_api_key("live_1"), None);
}

#[test]
fn names_of_parts_of_a_deployment() {
    assert_eq!(key_name("shop"), "shop-key");
    assert_eq!(group_name("shop"), "shop-sg");
    assert_eq!(nth_label(0, 1), "");
    assert_eq!(nth_label(1, 3), "(2/3)");
    let t = RdsTarget { identifier: "a".to_string(), security_group_id: "sg".to_string(), port: 1 };
    assert_eq!(list_targets(&vec![t]), "a:1");
}

#[test]
fn end_of_a_deployment_is_told() {
    assert_eq!(
        running_line("1.2.3.4", true, false, false, 2),
        "Bittice running at 1.2.3.4  (admin local: OK, REST: check pending, CDC profiles: 2)"
    );
    // Behind a domain the certificate may still be on its way.
    assert_eq!(
        running_line("1.2.3.4", false, false, true, 0),
        "Bittice running at 1.2.3.4  (admin local: check pending, REST: OK, CDC profiles: 0)"
    );
    let lines = report("1.2.3.4", "k", Some("rest.example.org"), Some("grpc.example.org"));
    assert_eq!(lines[0], "REST   https://rest.example.org");
    assert_eq!(lines[2], "gRPC   grpc.example.org:50051  (or 1.2.3.4:50051)");
    let plain = report("1.2.3.4", "k", None, None);
    assert_eq!(plain[0], "REST   http://1.2.3.4:3000");
    assert_eq!(write_command("/opt/x", "END", "a\n"), "cat > /opt/x << 'END'\na\nEND");
    let w = DeployWizard {
        rest_domain: "r.example.org".to_string(),
        grpc_domain: "g.example.org".to_string(),
        ..DeployWizard::new(CloudConfig { app_name: None, rest_domain: None, grpc_domain: None })
    };
    assert_eq!(
        w.address_line(),
        "REST will be https://r.example.org  |  gRPC g.example.org:50051  |  Admin via SSH tunnel"
    );
}
