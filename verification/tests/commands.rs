use myvpn::commands::{close_action, starts_minimized, tray_menu_action, CloseAction, TrayAction};
use myvpn::commands::{
    autostart_create_args, autostart_delete_args, autostart_failure, autostart_query_args,
    check_can_host, check_can_join, check_can_use_public, merge_saved_hosts, parse_version,
    prepare_connect, record_autostart, record_hosting_started, record_hosting_stopped,
    remember_host, resume_target, saved_after_connect, update_offer, SavedHost,
    MAX_SAVED_HOSTS,
};
use myvpn::engine::session_proof;
use myvpn::state::{ConnectConfig, ConnectionState, DiscoveredHost, Settings};
use myvpn::transport::hash_pass;

fn saved(name: &str, id: &str, proof: Option<&str>) -> SavedHost {
    SavedHost {
        network_name: name.to_string(),
        endpoint_id: id.to_string(),
        proof: proof.map(str::to_string),
    }
}

fn request(name: &str, endpoint: Option<&str>, ticket: Option<&str>) -> ConnectConfig {
    ConnectConfig {
        network_name: name.to_string(),
        passphrase: None,
        ticket: ticket.map(str::to_string),
        endpoint_id: endpoint.map(str::to_string),
        proof: None,
    }
}

#[test]
fn remembering_puts_the_host_first_without_duplicates() {
    let hosts = vec![saved("a", "A", None), saved("b", "B", Some("pb")), saved("c", "C", None)];
    let out = remember_host(&hosts, saved("b2", "B", Some("new"))).unwrap();
    let ids: Vec<&str> = out.iter().map(|h| h.endpoint_id.as_str()).collect();
    assert_eq!(ids, vec!["B", "A", "C"]);
    assert_eq!(out[0].network_name, "b2");
    assert_eq!(out[0].proof.as_deref(), Some("new"));
}

#[test]
fn remembering_keeps_at_most_sixteen_hosts() {
    let hosts: Vec<SavedHost> = (0..20).map(|i| saved("n", &format!("id{i}"), None)).collect();
    let out = remember_host(&hosts, saved("new", "fresh", None)).unwrap();
    assert_eq!(out.len(), MAX_SAVED_HOSTS);
    assert_eq!(out[0].endpoint_id, "fresh");
    assert_eq!(out[15].endpoint_id, "id14");
}

#[test]
fn a_host_without_endpoint_is_not_remembered() {
    assert!(remember_host(&vec![saved("a", "A", None)], saved("x", "", None)).is_none());
}

#[test]
fn a_remembered_host_reconnects_without_a_secret() {
    let list = remember_host(&Vec::new(), saved("home", "EID", Some("proof1"))).unwrap();
    // By endpoint id.
    let c = prepare_connect(request("whatever", Some("EID"), None), &list);
    assert_eq!(c.proof.as_deref(), Some("proof1"));
    assert_eq!(c.endpoint_id.as_deref(), Some("EID"));
    assert_eq!(session_proof(&c), Some("proof1".to_string()));
    // By network name alone: the saved endpoint is filled in.
    let c = prepare_connect(request("home", None, None), &list);
    assert_eq!(c.proof.as_deref(), Some("proof1"));
    assert_eq!(c.endpoint_id.as_deref(), Some("EID"));
}

#[test]
fn a_request_with_a_secret_is_left_alone() {
    let list = vec![saved("home", "EID", Some("proof1"))];
    let mut r = request("home", None, None);
    r.passphrase = Some("pw".to_string());
    let c = prepare_connect(r, &list);
    assert_eq!(c.proof, None);
    assert_eq!(c.endpoint_id, None);
    assert_eq!(session_proof(&c), Some(hash_pass("pw")));
}

#[test]
fn a_ticket_request_keeps_its_ticket_and_borrows_the_proof() {
    let list = vec![saved("other", "X", None), saved("home", "EID", Some("p"))];
    let c = prepare_connect(request("nomatch", None, Some("EID")), &list);
    assert_eq!(c.proof.as_deref(), Some("p"));
    assert_eq!(c.endpoint_id, None);
    assert_eq!(c.ticket.as_deref(), Some("EID"));
    // The first match wins.
    let list2 = vec![saved("home", "FIRST", Some("p1")), saved("home", "SECOND", Some("p2"))];
    let c2 = prepare_connect(request("home", None, None), &list2);
    assert_eq!(c2.endpoint_id.as_deref(), Some("FIRST"));
    // No match: unchanged.
    let c3 = prepare_connect(request("elsewhere", None, None), &list2);
    assert_eq!(c3.proof, None);
    assert_eq!(c3.endpoint_id, None);
}

#[test]
fn the_entry_saved_after_connecting() {
    let r = request("home", None, Some("T"));
    let e = saved_after_connect(&r, &Some("PEER".to_string()), &Some("pp".to_string())).unwrap();
    assert_eq!(e.network_name, "home");
    assert_eq!(e.endpoint_id, "PEER");
    assert_eq!(e.proof.as_deref(), Some("pp"));
    assert!(saved_after_connect(&r, &None, &None).is_none());
}

fn live(name: &str, id: &str) -> DiscoveredHost {
    DiscoveredHost {
        network_name: name.to_string(),
        endpoint_id: id.to_string(),
        source: "lan".to_string(),
        requires_passphrase: true,
        online: true,
    }
}

#[test]
fn trusted_hosts_are_listed_after_live_ones() {
    let list = merge_saved_hosts(
        vec![live("l1", "A")],
        &vec![saved("s-a", "A", None), saved("s-b", "B", Some("x"))],
    );
    assert_eq!(list.len(), 2);
    assert_eq!(list[0].endpoint_id, "A");
    assert_eq!(list[0].source, "lan");
    assert_eq!(list[1].endpoint_id, "B");
    assert_eq!(list[1].network_name, "s-b");
    assert_eq!(list[1].source, "saved");
    assert!(!list[1].requires_passphrase);
    assert!(!list[1].online);
}

#[test]
fn private_and_public_vpn_exclude_each_other() {
    assert!(check_can_host(false).is_ok());
    assert_eq!(
        check_can_host(true).unwrap_err().to_text(),
        "Disconnect the public VPN before hosting a private network."
    );
    assert!(check_can_join(false).is_ok());
    assert_eq!(
        check_can_join(true).unwrap_err().to_text(),
        "Disconnect the public VPN before joining a private network."
    );
    assert!(check_can_use_public(ConnectionState::Idle).is_ok());
    assert!(check_can_use_public(ConnectionState::Error).is_ok());
    for s in [
        ConnectionState::Hosting,
        ConnectionState::Connecting,
        ConnectionState::Connected,
        ConnectionState::Reconnecting,
        ConnectionState::Discovering,
    ] {
        assert_eq!(
            check_can_use_public(s).unwrap_err().to_text(),
            "Stop the private VPN (host or connect) before using a public server."
        );
    }
}

#[test]
fn hosting_is_resumed_only_when_asked_and_interrupted() {
    let mut s = Settings::default();
    assert!(s.resume_hosting);
    assert_eq!(resume_target(&s), None);
    record_hosting_started(&mut s, "lab".to_string());
    assert!(s.was_hosting);
    assert_eq!(resume_target(&s), Some("lab".to_string()));
    s.resume_hosting = false;
    assert_eq!(resume_target(&s), None);
    s.resume_hosting = true;
    record_hosting_stopped(&mut s);
    assert_eq!(resume_target(&s), None);
    assert_eq!(s.last_network_name.as_deref(), Some("lab"));
    record_autostart(&mut s, true);
    assert!(s.autostart);
}

#[test]
fn default_settings() {
    let s = Settings::default();
    assert!(!s.autostart);
    assert!(s.resume_hosting);
    assert!(s.minimize_to_tray);
    assert_eq!(s.vpn_subnet, "10.66.0.0/24");
    assert_eq!(s.relay_url, None);
    assert_eq!(s.last_network_name, None);
    assert!(!s.was_hosting);
}

#[test]
fn versions_parse_into_triples() {
    assert_eq!(parse_version("v1.2.3"), (1, 2, 3));
    assert_eq!(parse_version(" 1.2.3 "), (1, 2, 3));
    assert_eq!(parse_version("vv2.0"), (2, 0, 0));
    assert_eq!(parse_version("1.4.0-beta.2"), (1, 4, 0));
    assert_eq!(parse_version("1-2+3"), (1, 2, 3));
    assert_eq!(parse_version("x.7.1"), (0, 7, 1));
    assert_eq!(parse_version(""), (0, 0, 0));
    assert_eq!(parse_version("99999999999.1"), (0, 1, 0));
}

#[test]
fn updates_are_offered_only_for_newer_releases() {
    let u = update_offer("v1.3.0", "https://example/rel", "1.2.9").unwrap();
    assert_eq!(u.version, "1.3.0");
    assert_eq!(u.url, "https://example/rel");
    assert!(update_offer("v1.2.9", "https://example/rel", "1.2.9").is_none());
    assert!(update_offer("v1.2.8", "https://example/rel", "1.2.9").is_none());
    assert!(update_offer("v2.0.0", "", "1.2.9").is_none());
    assert_eq!(update_offer("vv1.2.10", "p", "1.2.9").unwrap().version, "1.2.10");
}

#[test]
fn autostart_task_commands() {
    assert_eq!(
        autostart_create_args("C:\\Apps\\MyVPN.exe"),
        vec![
            "/Create", "/TN", "MyVPN Autostart", "/TR", "\"C:\\Apps\\MyVPN.exe\" --minimized", "/SC",
            "ONLOGON", "/RL", "HIGHEST", "/F",
        ]
    );
    assert_eq!(autostart_delete_args(), vec!["/Delete", "/TN", "MyVPN Autostart", "/F"]);
    assert_eq!(autostart_query_args(), vec!["/Query", "/TN", "MyVPN Autostart"]);
    assert_eq!(
        autostart_failure("  Access is denied.\r\n").to_text(),
        "could not enable start on boot: Access is denied."
    );
}

#[test]
fn window_and_tray_decisions() {
    assert_eq!(close_action(true), CloseAction::HideToTray);
    assert_eq!(close_action(false), CloseAction::Quit);
    assert!(starts_minimized(&vec!["myvpn.exe".to_string(), "--minimized".to_string()]));
    assert!(!starts_minimized(&vec!["myvpn.exe".to_string(), "--minimize".to_string()]));
    assert_eq!(tray_menu_action("open"), Some(TrayAction::ShowWindow));
    assert_eq!(tray_menu_action("quit"), Some(TrayAction::Quit));
    assert_eq!(tray_menu_action("other"), None);
}

#[test]
fn refusals_are_plain_messages() {
    assert!(matches!(check_can_host(true), Err(myvpn::error::VpnError::Message(_))));
    assert!(matches!(check_can_join(true), Err(myvpn::error::VpnError::Message(_))));
    assert!(matches!(check_can_use_public(ConnectionState::Connected), Err(myvpn::error::VpnError::Message(_))));
}
