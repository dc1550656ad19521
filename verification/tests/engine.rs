use myvpn::engine::teardown_plan;
use myvpn::engine::{
    clamped_mtu, connecting_snapshot, disconnected_snapshot, generate_ticket, hosting_snapshot,
    keep_supervising, mark_connected, mark_online, mark_peer_connected, mark_reconnected,
    mark_reconnecting, new_bypass_ips, next_backoff, normalize_relay_url, passphrase_proof,
    resolve_target, session_proof, stopped_snapshot, tick_stats, SlotOwner, FIRST_BACKOFF_MS,
    MAX_BACKOFF_MS,
};
use myvpn::state::{ConnectConfig, ConnectionState, StatusSnapshot, VpnRole};
use myvpn::transport::hash_pass;

fn cfg(endpoint: Option<&str>, ticket: Option<&str>) -> ConnectConfig {
    ConnectConfig {
        network_name: "home".to_string(),
        passphrase: None,
        ticket: ticket.map(str::to_string),
        endpoint_id: endpoint.map(str::to_string),
        proof: None,
    }
}

const NEED_CODE: &str = "Enter the host's pairing code to connect. (Typing just a name + passphrase will be supported once DHT discovery lands.)";

#[test]
fn target_prefers_a_trimmed_endpoint_id() {
    assert_eq!(resolve_target(&cfg(Some("  abc123 "), Some("zzz"))).unwrap(), "abc123");
}

#[test]
fn target_from_a_ticket() {
    assert_eq!(resolve_target(&cfg(None, Some(" plainid "))).unwrap(), "plainid");
    assert_eq!(resolve_target(&cfg(Some("   "), Some("myvpn:home:xyz"))).unwrap(), "xyz");
    assert_eq!(resolve_target(&cfg(None, Some("myvpn:a:b:c"))).unwrap(), "c");
    assert_eq!(resolve_target(&cfg(None, Some("myvpn:onlyid"))).unwrap(), "onlyid");
}

#[test]
fn target_missing_asks_for_a_code() {
    for c in [cfg(None, None), cfg(Some(""), Some("  ")), cfg(None, Some("myvpn:home:"))] {
        let e = resolve_target(&c).unwrap_err();
        assert_eq!(e.to_text(), NEED_CODE);
    }
}

#[test]
fn relay_url_is_trimmed_and_blank_means_default() {
    assert_eq!(normalize_relay_url(Some("  https://relay.example/ ".to_string())), Some("https://relay.example/".to_string()));
    assert_eq!(normalize_relay_url(Some("   ".to_string())), None);
    assert_eq!(normalize_relay_url(None), None);
}

#[test]
fn proofs_come_from_a_remembered_proof_or_the_passphrase() {
    assert_eq!(passphrase_proof(&Some("pw".to_string())), Some(hash_pass("pw")));
    assert_eq!(passphrase_proof(&Some(String::new())), None);
    assert_eq!(passphrase_proof(&None), None);
    let mut c = cfg(Some("id"), None);
    c.passphrase = Some("pw".to_string());
    assert_eq!(session_proof(&c), Some(hash_pass("pw")));
    c.proof = Some("remembered".to_string());
    assert_eq!(session_proof(&c), Some("remembered".to_string()));
    c.proof = Some(String::new());
    assert_eq!(session_proof(&c), Some(hash_pass("pw")));
}

#[test]
fn ticket_is_the_hosted_endpoint() {
    let s = hosting_snapshot("net", "EID", true);
    assert_eq!(generate_ticket(&s).unwrap(), "EID");
    let e = generate_ticket(&StatusSnapshot::idle(None)).unwrap_err();
    assert_eq!(e.to_text(), "Not currently hosting");
}

#[test]
fn hosting_status_depends_on_the_data_plane() {
    let s = hosting_snapshot("net", "EID", true);
    assert_eq!(s.state, ConnectionState::Hosting);
    assert_eq!(s.role, VpnRole::Host);
    assert_eq!(s.network_name.as_deref(), Some("net"));
    assert_eq!(s.virtual_ip.as_deref(), Some("10.66.0.1"));
    assert_eq!(s.message.as_deref(), Some("Hosting — waiting for peers to connect"));
    let c = hosting_snapshot("net", "EID", false);
    assert_eq!(
        c.message.as_deref(),
        Some("Hosting (control-plane only — run MyVPN as Administrator to route traffic)")
    );
}

#[test]
fn online_message_only_while_hosting() {
    let mut s = hosting_snapshot("net", "EID", true);
    mark_peer_connected(&mut s);
    assert_eq!(s.message.as_deref(), Some("Peer connected"));
    mark_online(&mut s, true);
    assert_eq!(s.message.as_deref(), Some("Hosting — online and reachable"));
    let mut idle = stopped_snapshot();
    mark_online(&mut idle, true);
    assert_eq!(idle.message.as_deref(), Some("Stopped hosting"));
    assert_eq!(idle.state, ConnectionState::Idle);
}

#[test]
fn connect_then_drop_then_reconnect() {
    let mut s = connecting_snapshot("home");
    assert_eq!(s.state, ConnectionState::Connecting);
    assert_eq!(s.role, VpnRole::Client);
    assert_eq!(s.message.as_deref(), Some("Establishing encrypted tunnel…"));
    mark_connected(&mut s, "PEER", "Connected to home".to_string(), true);
    assert_eq!(s.state, ConnectionState::Connected);
    assert_eq!(s.peer_endpoint_id.as_deref(), Some("PEER"));
    assert_eq!(s.virtual_ip.as_deref(), Some("10.66.0.2"));
    assert_eq!(s.public_ip.as_deref(), Some("routed via host"));
    assert_eq!(s.message.as_deref(), Some("Connected to home"));
    s.stats.direct = true;
    mark_reconnecting(&mut s);
    assert_eq!(s.state, ConnectionState::Reconnecting);
    assert!(!s.stats.direct);
    assert_eq!(s.message.as_deref(), Some("Connection lost — reconnecting…"));
    assert!(keep_supervising(s.state));
    mark_reconnected(&mut s);
    assert_eq!(s.state, ConnectionState::Connected);
    assert_eq!(s.message.as_deref(), Some("Reconnected"));
    assert_eq!(s.peer_endpoint_id.as_deref(), Some("PEER"));
    assert_eq!(s.network_name.as_deref(), Some("home"));
}

#[test]
fn control_plane_only_client_message() {
    let mut s = connecting_snapshot("home");
    mark_connected(&mut s, "PEER", "Connected to home".to_string(), false);
    assert_eq!(
        s.message.as_deref(),
        Some("Connected (control-plane only — run MyVPN as Administrator to route traffic)")
    );
}

#[test]
fn supervising_stops_once_the_user_moved_on() {
    assert!(keep_supervising(ConnectionState::Connected));
    assert!(!keep_supervising(ConnectionState::Idle));
    assert!(!keep_supervising(ConnectionState::Error));
    assert_eq!(disconnected_snapshot().message.as_deref(), Some("Disconnected"));
}

#[test]
fn ticks_compute_rates_and_duration() {
    let mut s = hosting_snapshot("net", "EID", true);
    let st = tick_stats(&mut s, Some(100), 130, 5000, 7000, 4000, 7500, true);
    assert_eq!(st.bytes_up, 5000);
    assert_eq!(st.bytes_down, 7000);
    assert_eq!(st.rate_up, 1000);
    assert_eq!(st.rate_down, 0);
    assert_eq!(st.connected_secs, 30);
    assert!(st.direct);
    assert_eq!(s.stats, st);
    let mut idle = StatusSnapshot::idle(None);
    let st2 = tick_stats(&mut idle, None, 10, 0, 0, 0, 0, true);
    assert_eq!(st2.connected_secs, 0);
    assert!(!st2.direct);
    // A relayed link is not direct.
    let relayed = tick_stats(&mut s, Some(100), 131, 5000, 7000, 5000, 7000, false);
    assert!(!relayed.direct);
    assert!(!s.stats.direct);
}

#[test]
fn backoff_doubles_up_to_the_cap() {
    let mut d = FIRST_BACKOFF_MS;
    let mut seen = vec![d];
    for _ in 0..6 {
        d = next_backoff(d);
        seen.push(d);
    }
    assert_eq!(seen, vec![1000, 2000, 4000, 8000, 15000, 15000, 15000]);
    assert_eq!(next_backoff(MAX_BACKOFF_MS), MAX_BACKOFF_MS);
    assert_eq!(next_backoff(u64::MAX), MAX_BACKOFF_MS);
}

#[test]
fn mtu_is_clamped_to_the_datagram_size() {
    assert_eq!(clamped_mtu(Some(1200)), Some(1200));
    assert_eq!(clamped_mtu(Some(1280)), None);
    assert_eq!(clamped_mtu(Some(1452)), None);
    assert_eq!(clamped_mtu(None), None);
}

#[test]
fn only_new_carrier_addresses_get_bypass_routes() {
    let known = vec!["1.1.1.1".to_string(), "2.2.2.2".to_string()];
    let seen = vec!["2.2.2.2".to_string(), "3.3.3.3".to_string(), "1.1.1.1".to_string(), "4.4.4.4".to_string()];
    assert_eq!(new_bypass_ips(&known, &seen), vec!["3.3.3.3".to_string(), "4.4.4.4".to_string()]);
}

#[test]
fn a_stale_connection_never_frees_the_newer_owner() {
    let mut slot = SlotOwner::new();
    slot.claim(1);
    slot.claim(2);
    assert!(!slot.release(1));
    assert_eq!(slot.current, Some(2));
    assert!(slot.release(2));
    assert_eq!(slot.current, None);
    slot.claim(3);
    slot.clear();
    assert_eq!(slot.current, None);
}

#[test]
fn teardown_reverts_routes_dns_bypass_and_nat() {
    let plan = teardown_plan(&vec!["203.0.113.7".to_string(), "x'; calc; '".to_string(), "198.51.100.2".to_string()], &Some("MyVPN".to_string()), Some(None));
    let scripts: Vec<&str> = plan.iter().map(|c| c.args[3].as_str()).collect();
    assert_eq!(
        scripts,
        vec![
            "Remove-NetRoute -DestinationPrefix '0.0.0.0/1' -InterfaceAlias 'MyVPN' -Confirm:$false -ErrorAction SilentlyContinue",
            "Remove-NetRoute -DestinationPrefix '128.0.0.0/1' -InterfaceAlias 'MyVPN' -Confirm:$false -ErrorAction SilentlyContinue",
            "Remove-NetRoute -DestinationPrefix '::/1' -InterfaceAlias 'MyVPN' -Confirm:$false -ErrorAction SilentlyContinue",
            "Remove-NetRoute -DestinationPrefix '8000::/1' -InterfaceAlias 'MyVPN' -Confirm:$false -ErrorAction SilentlyContinue",
            "Set-DnsClientServerAddress -InterfaceAlias 'MyVPN' -ResetServerAddresses -ErrorAction SilentlyContinue",
            "Remove-NetRoute -DestinationPrefix '203.0.113.7/32' -Confirm:$false -ErrorAction SilentlyContinue",
            "Remove-NetRoute -DestinationPrefix '198.51.100.2/32' -Confirm:$false -ErrorAction SilentlyContinue",
            "Remove-NetNat -Name 'MyVPN' -Confirm:$false -ErrorAction SilentlyContinue",
            "Remove-ItemProperty -Path 'HKLM:\\SOFTWARE\\Policies\\Microsoft\\Windows NT\\DNSClient' -Name DisableSmartNameResolution -ErrorAction SilentlyContinue",
        ]
    );
    assert!(plan.iter().all(|c| !c.required));
    assert_eq!(teardown_plan(&vec![], &None, None).len(), 5);
    let restored = teardown_plan(&vec![], &None, Some(Some(0)));
    assert_eq!(
        restored[5].args[3],
        "Set-ItemProperty -Path 'HKLM:\\SOFTWARE\\Policies\\Microsoft\\Windows NT\\DNSClient' -Name DisableSmartNameResolution -Value 0 -Type DWord -ErrorAction SilentlyContinue"
    );
}
