use myvpn::error::VpnError;
use myvpn::state::{default_true, ConnectionState, PublicState, PublicStatus, Stats, StatusSnapshot, VpnRole};

#[test]
fn idle_status_is_the_default() {
    let s = StatusSnapshot::default();
    assert_eq!(s.state, ConnectionState::Idle);
    assert_eq!(s.role, VpnRole::Idle);
    assert_eq!(s.network_name, None);
    assert_eq!(s.message, None);
    assert_eq!(s.stats, Stats::zero());
    let d = s.duplicate();
    assert_eq!(d.state, s.state);
    let m = StatusSnapshot::idle(Some("bye".to_string()));
    assert_eq!(m.message.as_deref(), Some("bye"));
}

#[test]
fn zero_stats() {
    let z = Stats::zero();
    assert_eq!((z.bytes_up, z.bytes_down, z.rate_up, z.rate_down, z.connected_secs), (0, 0, 0, 0, 0));
    assert_eq!(z.latency_ms, None);
    assert!(!z.direct);
}

#[test]
fn public_status_default_is_idle() {
    let p = PublicStatus::default();
    assert_eq!(p.state, PublicState::Idle);
    assert_eq!(p.server_id, None);
    assert_eq!(p.connected_secs, 0);
}

#[test]
fn full_tunnel_defaults_on() {
    assert!(default_true());
}

#[test]
fn error_text() {
    assert_eq!(VpnError::msg("boom").to_text(), "boom");
    assert_eq!(VpnError::Io("disk".to_string()).to_text(), "disk");
    assert_eq!(VpnError::Other("x".to_string()).to_text(), "x");
}

#[test]
fn a_connect_request_copies_whole() {
    let c = myvpn::state::ConnectConfig {
        network_name: "n".to_string(),
        passphrase: Some("p".to_string()),
        ticket: None,
        endpoint_id: Some("e".to_string()),
        proof: Some("x".to_string()),
    };
    let d = c.duplicate();
    assert_eq!((d.network_name, d.passphrase, d.ticket, d.endpoint_id, d.proof), (c.network_name, c.passphrase, c.ticket, c.endpoint_id, c.proof));
}
