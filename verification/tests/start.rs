use bittice::launch::{
    docker_engine_deploy_locked, migrate_scope, sync_scope, Launch, MigrateScope, RunMode,
    SyncScope,
};
use bittice::release::{
    is_permission_denied, perform_update, release_tag, removal, target_name, Cause, Removal, Update,
};
use bittice::repl::connect_wizard::{
    is_foreign_path, label_config, list_available_ovpn_configs, list_synced_entities, main_choice,
    main_items, ovpn_source, synced_workspace_ready, ConnectAction, ConnectAnswer, ConnectStep,
    ConnectWizard, MainChoice, OvpnSource,
};
use bittice::repl::startup_form::{sync_news, CdcInfo, SyncNews};
use bittice::vpn::{is_docker, VpnManager, VpnStep, VpnWatch};
use bittice::writer::{
    derive_names, derive_value, list_field_files, DateParts, FieldStats, LoadError, Loader,
};

fn texts(v: &[&str]) -> Vec<String> {
    v.iter().map(|s| s.to_string()).collect()
}

fn launch(words: usize, in_container: bool, first_process: bool, engine_only: bool) -> Launch {
    Launch {
        words,
        in_container,
        first_process,
        entity: None,
        engine_only: if engine_only { Some("1".to_string()) } else { None },
        is_setup: false,
    }
}

#[test]
fn the_start_tells_what_runs() {
    assert!(launch(1, false, false, false).run_mode() == RunMode::Wizard);
    assert!(launch(2, false, false, false).run_mode() == RunMode::Command);
    assert!(launch(1, true, true, true).run_mode() == RunMode::Engine);
    assert!(launch(1, true, false, true).run_mode() == RunMode::AlreadyRunning);
    assert!(launch(1, true, false, false).run_mode() == RunMode::Wizard);
    assert!(launch(2, true, false, true).run_mode() == RunMode::Locked);
    let mut l = launch(1, false, false, false);
    l.entity = Some("  ".to_string());
    assert!(l.run_mode() == RunMode::Wizard);
    l.entity = Some("shop".to_string());
    assert!(l.run_mode() == RunMode::Command);
    assert!(!l.quiet_terminal());
    assert!(launch(1, false, false, false).quiet_terminal());
    assert!(!launch(1, true, true, false).quiet_terminal());
    assert!(docker_engine_deploy_locked(true, Some("on")));
    assert!(!docker_engine_deploy_locked(false, Some("on")));
}

#[test]
fn commands_need_their_arguments() {
    assert!(matches!(migrate_scope(true, None, None), MigrateScope::All));
    let named = migrate_scope(false, Some("e".to_string()), Some("t".to_string()));
    assert!(matches!(named, MigrateScope::Table { entity, table } if entity == "e" && table == "t"));
    assert!(matches!(migrate_scope(false, Some("e".to_string()), None), MigrateScope::Unclear));
    assert!(matches!(sync_scope(true, None), SyncScope::All));
    assert!(matches!(sync_scope(false, Some("d".to_string())), SyncScope::Database(d) if d == "d"));
    assert!(matches!(sync_scope(false, None), SyncScope::Unclear));
}

#[test]
fn releases_are_compared_by_version() {
    assert_eq!(target_name(true, "windows", "x86_64"), "bittice-windows-x86_64.exe");
    assert_eq!(target_name(false, "linux", "x86_64"), "bittice-linux-x86_64");
    assert_eq!(release_tag("1.2.0"), "v1.2.0");
    assert_eq!(release_tag("v1.2.0"), "v1.2.0");
    assert!(matches!(perform_update("1.2.0", Some("v1.2.0")), Update::UpToDate));
    assert!(matches!(perform_update("1.2.0", Some("1.3.0")), Update::Fetch(t) if t == "v1.3.0"));
    assert!(matches!(perform_update("1.2.0", None), Update::NoRelease));
    assert!(is_permission_denied(&vec![Cause::Other, Cause::PermissionDenied]));
    assert!(!is_permission_denied(&vec![Cause::Other]));
    assert!(removal(true, true, true, false) == Removal::FromOutside);
    assert!(removal(false, false, true, false) == Removal::Cancelled);
    assert!(removal(false, true, true, true) == Removal::Remove { data: true, program: false });
}

#[test]
fn vpn_settings_are_completed_once() {
    let given = "client\ndev tun\nremote host 1194";
    let ready = VpnManager::prepare_ovpn_file(given, true, Some("10.1.2.3"));
    assert_eq!(
        ready,
        "client\ndev tun\nremote host 1194\n\
         data-ciphers AES-256-GCM:AES-128-GCM\n\
         mssfix 1400\n\
         route-nopull\n\
         pull-filter ignore redirect-gateway\n\
         route 10.1.2.3 255.255.255.255 vpn_gateway\n"
    );
    assert_eq!(VpnManager::prepare_ovpn_file(&ready, true, Some("10.1.2.3")), ready);
    let whole = VpnManager::prepare_ovpn_file("", false, None);
    assert_eq!(whole, "\nclient\ndev tun\ndata-ciphers AES-256-GCM:AES-128-GCM\nmssfix 1400\n");
    assert_eq!(VpnManager::prepared_name("a.ovpn"), "prepared_a.ovpn");
}

#[test]
fn vpn_files_and_programs_are_found() {
    assert_eq!(VpnManager::storage_dir(Some("/v"), true, true, "/d/vpn"), "/v");
    assert_eq!(VpnManager::storage_dir(Some(" "), true, false, "/d/vpn"), "/app/vpn");
    assert_eq!(VpnManager::storage_dir(None, false, false, "/d/vpn"), "/d/vpn");
    let folders = VpnManager::ovpn_folders("/v", "/d/vpn");
    assert_eq!(folders, texts(&["/v", "/d/vpn", "/app/vpn", "/app/data/vpn"]));
    let there = vec![false, true, true, false];
    assert_eq!(VpnManager::resolve_ovpn_path("x", false, &folders, &there), "/d/vpn");
    assert_eq!(VpnManager::resolve_ovpn_path("x", true, &folders, &there), "x");
    let none = vec![false; 4];
    assert_eq!(VpnManager::resolve_ovpn_path("x", false, &folders, &none), "x");

    assert_eq!(VpnManager::binary_candidates(Some(" /o "), false, None), texts(&["/o", "openvpn"]));
    assert!(VpnManager::binary_candidates(Some(" "), true, None).is_empty());
    assert_eq!(VpnManager::binary_candidates(None, true, Some("/w")).len(), 8);
    let works = vec![false, true];
    assert_eq!(
        VpnManager::resolved_openvpn_binary(Some("/o"), false, None, &works),
        Some("openvpn".to_string())
    );
    let mut on_path = vec![false; 8];
    on_path[7] = true;
    assert_eq!(
        VpnManager::resolved_openvpn_binary(None, true, Some("/w"), &on_path),
        Some("/w".to_string())
    );
    assert!(VpnManager::is_installed(&works));
    assert!(!VpnManager::is_installed(&vec![false]));
    assert_eq!(VpnManager::which_openvpn_macos(true, " /x \n/y"), Some("/x".to_string()));
    assert_eq!(VpnManager::which_openvpn_macos(false, "/x"), None);
    assert_eq!(VpnManager::which_openvpn_macos(true, ""), None);
}

#[test]
fn vpn_commands_ask_for_rights_outside_containers() {
    assert!(is_docker(false, false, Some(" on ")));
    assert!(!is_docker(false, false, Some("ON")));
    assert!(is_docker(true, false, None));
    assert!(VpnManager::split_tunnel(Some("TRUE")));
    assert!(!VpnManager::split_tunnel(Some(" true")));
    assert_eq!(VpnManager::install_command(false, true), texts(&["sudo", "apt-get", "update"]));
    assert_eq!(
        VpnManager::install_command(true, false),
        texts(&["apt-get", "install", "-y", "openvpn"])
    );
    assert_eq!(
        VpnManager::stop_command(false),
        "if [ -f /tmp/bittice-openvpn.pid ]; then sudo kill $(cat /tmp/bittice-openvpn.pid) 2>/dev/null || true; fi; command -v pkill >/dev/null 2>&1 && sudo pkill -f openvpn || true"
    );
    assert_eq!(VpnManager::start_command(true, "o", "c", "l")[0], "o");
    assert_eq!(VpnManager::start_command(false, "o", "c", "l")[0], "sudo");
    assert_eq!(VpnManager::daemon_pid(" 42\n"), Some(42));
    assert_eq!(VpnManager::daemon_pid("4294967296"), None);
    assert_eq!(VpnManager::daemon_pid(""), None);
}

#[test]
fn vpn_is_watched_for_a_while() {
    let mut w = VpnWatch::new();
    assert!(matches!(w.look(false, None), VpnStep::Wait));
    assert!(matches!(
        w.look(false, Some("x Initialization Sequence Completed".to_string())),
        VpnStep::Up(2)
    ));
    let mut w = VpnWatch::new();
    for _ in 0..19 {
        assert!(matches!(w.look(false, Some("a\nb".to_string())), VpnStep::Wait));
    }
    match w.look(false, None) {
        VpnStep::Failed(m) => assert!(m.ends_with("Log tail: a | b")),
        _ => panic!("the time is over"),
    }
}

#[test]
fn dates_make_more_fields() {
    let date = FieldStats { is_date: true, has_time: false };
    assert_eq!(derive_names("t", date), texts(&["t", "t_date", "t_day", "t_month"]));
    let time = FieldStats { is_date: true, has_time: true };
    assert_eq!(derive_names("t", time).len(), 5);
    let parts = DateParts {
        day: Some("2024-05-06".to_string()),
        month: Some("2024-05".to_string()),
        hour_bucket: None,
    };
    assert_eq!(derive_value("t", "t", "raw", &parts), "raw");
    assert_eq!(derive_value("t_date", "t", "raw", &parts), "2024-05-06");
    assert_eq!(derive_value("t_month", "t", "raw", &parts), "2024-05");
    assert_eq!(derive_value("t_hour_bucket", "t", "raw", &parts), "");
    assert_eq!(list_field_files("f")[6], "stores/f_columnar_f.dat");
}

#[test]
fn records_are_loaded_into_columns() {
    let plain = FieldStats { is_date: false, has_time: false };
    let mut l = Loader::new(&vec![("a".to_string(), plain), ("b".to_string(), plain)]);
    assert!(l.read_line("  ").is_none());
    let no_date = || DateParts { day: None, month: None, hour_bucket: None };
    for line in [
        r#"{"a":"x","b":12.5}"#,
        r#"{"b":true,"c":1}"#,
        "broken",
        r#"{"a":"x","b":[1,2]}"#,
        r#"{"a":null}"#,
    ] {
        let values = l.read_line(line).expect("the line is not blank");
        l.write(&values, &vec![no_date(), no_date()]);
    }
    assert_eq!(l.records, 5);
    let a = l.stores.get("a").unwrap();
    let b = l.stores.get("b").unwrap();
    assert_eq!(a.count(), 5);
    assert_eq!(a.column.read(0), "x");
    assert_eq!(a.column.read(1), "");
    assert_eq!(b.column.read(0), "12.5");
    assert_eq!(b.column.read(1), "true");
    assert_eq!(b.column.read(2), "");
    assert_eq!(b.column.read(3), "[1,2]");
    assert_eq!(a.rows.get("x").unwrap().ids(), vec![0, 3]);
    assert!(a.rows.get("").is_none());
    assert!(a.encode_rows().is_ok());
    assert_eq!(l.config()[1].field_name, "b");
}

#[test]
fn databases_are_addressed() {
    let info = CdcInfo {
        host: "h".to_string(),
        port: "3306".to_string(),
        user: "u".to_string(),
        pass: "p".to_string(),
        database: "d".to_string(),
        sync_all_databases: false,
        entity: "e".to_string(),
        vpn_file: None,
    };
    assert_eq!(info.url(), "mysql://u:p@h:3306/d");
    assert!(matches!(sync_news("anything else"), SyncNews::Progress(m) if m == "anything else"));
}

#[test]
fn connect_wizard_asks_in_order() {
    let mut w = ConnectWizard::new(true, vec![], "/v".to_string());
    assert!(w.step == ConnectStep::Host);
    assert!(matches!(w.advance(ConnectAnswer::Typed("h".to_string())), ConnectAction::Ask));
    assert!(w.step == ConnectStep::Port);
    assert!(matches!(w.advance(ConnectAnswer::Typed("3306".to_string())), ConnectAction::Ask));
    assert!(w.step == ConnectStep::User);
    assert!(matches!(w.advance(ConnectAnswer::Interrupted), ConnectAction::Cancel));
    assert!(w.step == ConnectStep::Cancelled);
}

#[test]
fn main_menu_depends_on_what_is_synced() {
    assert_eq!(
        main_items(false),
        vec![(0, "Connect and sync to a database"), (1, "Exit")]
    );
    assert_eq!(main_items(true).len(), 4);
    let none: Vec<String> = vec![];
    assert!(matches!(main_choice(0, false, &none), MainChoice::Connect));
    assert!(!synced_workspace_ready(&none));
    assert_eq!(list_synced_entities(&texts(&["b", "a", "b"])), texts(&["a", "b"]));
    assert_eq!(
        list_available_ovpn_configs(&texts(&["b.ovpn", "x.txt", "a.ovpn"])),
        texts(&["a.ovpn", "b.ovpn"])
    );
    assert_eq!(label_config("a.ovpn"), "a.ovpn");
    assert!(matches!(ovpn_source(""), OvpnSource::Empty));
    assert!(matches!(ovpn_source("https://x/y.ovpn"), OvpnSource::Address(n) if n == "y.ovpn"));
    assert!(is_foreign_path("C:\\Users\\me\\a.ovpn"));
    assert!(is_foreign_path("/home/me/a.ovpn"));
    assert!(!is_foreign_path("/app/vpn/a.ovpn"));
}

#[test]
fn cancelled_load_ends_with_an_error() {
    let plain = FieldStats { is_date: false, has_time: false };
    let l = Loader::new(&vec![("a".to_string(), plain)]);
    assert_eq!(l.next_line(true, r#"{"a":"x"}"#), Err(LoadError::Cancelled));
    assert_eq!(l.next_line(true, ""), Err(LoadError::Cancelled));
    assert_eq!(l.next_line(false, " "), Ok(None));
    assert_eq!(l.next_line(false, r#"{"a":"x"}"#), Ok(Some(vec!["x".to_string()])));
    assert_eq!(LoadError::Cancelled.message(), "Operation cancelled by user");
}
