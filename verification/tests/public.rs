use base64::Engine;
use myvpn::public::{attach_failure_message, mgmt_password_reply, monitor_exit_message, PublicCatalog, PublicSession};
use myvpn::sources::parse_vpngate;
use myvpn::state::{PublicServer, PublicState};

fn server(id: &str, score: Option<u64>, ping: Option<u32>) -> PublicServer {
    PublicServer {
        id: id.to_string(),
        source: "vpngate".to_string(),
        country: "Japan".to_string(),
        country_code: "JP".to_string(),
        hostname: "h".to_string(),
        ip: "1.2.3.4".to_string(),
        ping_ms: ping,
        speed_mbps_tenths: None,
        sessions: None,
        score,
    }
}

#[test]
fn password_prompt_gets_throwaway_credentials() {
    assert_eq!(
        mgmt_password_reply(">PASSWORD:Need 'Auth' username/password"),
        Some("username \"Auth\" \"vpn\"\npassword \"Auth\" \"vpn\"\n".to_string())
    );
    assert_eq!(mgmt_password_reply(">STATE:1,CONNECTED"), None);
}

#[test]
fn session_follows_management_states() {
    let mut s = PublicSession::new();
    assert!(!s.is_active());
    // Lines are ignored while idle.
    assert!(!s.handle_mgmt_line(">STATE:1,CONNECTED,SUCCESS", 5));
    assert_eq!(s.status(5).state, PublicState::Idle);
    let srv = server("vpngate:h:1.2.3.4", Some(1), Some(1));
    s.begin_connect(&srv);
    assert!(s.is_active());
    let st = s.status(0);
    assert_eq!(st.state, PublicState::Connecting);
    assert_eq!(st.server_id.as_deref(), Some("vpngate:h:1.2.3.4"));
    assert_eq!(st.message.as_deref(), Some("Connecting…"));
    s.launched(&srv);
    assert_eq!(s.status(0).message.as_deref(), Some("Connecting to Japan · h"));
    assert!(s.handle_mgmt_line(">STATE:1,AUTH,,", 3));
    assert_eq!(s.status(3).state, PublicState::Connecting);
    assert!(!s.handle_mgmt_line(">LOG:something", 3));
    assert!(!s.handle_mgmt_line(">STATE:", 3));
    assert!(s.handle_mgmt_line(">STATE:1,CONNECTED,SUCCESS,10.8.0.2", 10));
    let st = s.status(25);
    assert_eq!(st.state, PublicState::Connected);
    assert_eq!(st.message.as_deref(), Some("Connected · Japan"));
    assert_eq!(st.connected_secs, 15);
    assert!(s.handle_mgmt_line(">STATE:1,RECONNECTING,ping-restart", 30));
    let st = s.status(30);
    assert_eq!(st.state, PublicState::Connecting);
    assert_eq!(st.message.as_deref(), Some("Reconnecting…"));
    s.set_state(PublicState::Error, Some("boom"));
    let st = s.status(40);
    assert_eq!(st.state, PublicState::Error);
    assert_eq!(st.message.as_deref(), Some("boom"));
    assert_eq!(st.connected_secs, 0);
    s.reset();
    assert_eq!(s.status(50).state, PublicState::Idle);
    assert_eq!(s.status(50).server_id, None);
}

#[test]
fn exit_reports_depend_on_the_state() {
    assert_eq!(monitor_exit_message(PublicState::Idle, Some("x".to_string())), None);
    assert_eq!(monitor_exit_message(PublicState::Error, None), None);
    assert_eq!(
        monitor_exit_message(PublicState::Connecting, Some("TLS failed".to_string())),
        Some("Couldn't establish the connection — TLS failed".to_string())
    );
    assert_eq!(
        monitor_exit_message(PublicState::Connecting, None),
        Some("Couldn't establish the connection. The server may be offline, or administrator approval was declined.".to_string())
    );
    assert_eq!(
        monitor_exit_message(PublicState::Connected, Some("reset".to_string())),
        Some("Connection lost — reset".to_string())
    );
    assert_eq!(monitor_exit_message(PublicState::Connected, None), Some("Connection lost.".to_string()));
    assert_eq!(attach_failure_message(Some("no adapter".to_string())), "Couldn't start OpenVPN — no adapter");
    assert_eq!(attach_failure_message(None), "Couldn't attach to OpenVPN.");
}

fn row(host: &str, score: &str, ping: &str) -> String {
    let cfg = base64::engine::general_purpose::STANDARD.encode(format!("remote {host} 1194\n"));
    format!("{host},1.1.1.1,{score},{ping},1,X,XX,1,1,1,1,2,op,msg,{cfg}\n")
}

#[test]
fn catalog_ranks_best_first_and_keeps_ties_in_order() {
    let body = [row("a", "10", "50"), row("b", "30", "90"), row("c", "30", "20"), row("d", "x", "5"), row("e", "10", "50"), row("f", "10", "0")].concat();
    let cat = PublicCatalog::from_fetched(parse_vpngate(&body));
    let order: Vec<String> = cat.list().iter().map(|s| s.hostname.clone()).collect();
    assert_eq!(order, vec!["c", "b", "a", "e", "f", "d"]);
    assert!(!cat.is_empty());
    assert!(PublicCatalog::new().is_empty());
}

#[test]
fn catalog_lookup() {
    let body = [row("a", "1", "1"), row("b", "2", "2")].concat();
    let cat = PublicCatalog::from_fetched(parse_vpngate(&body));
    let (srv, cfg) = cat.lookup("vpngate:b:1.1.1.1").unwrap();
    assert_eq!(srv.hostname, "b");
    assert_eq!(cfg, "remote b 1194\n");
    assert_eq!(cat.lookup("vpngate:zzz:1.1.1.1").unwrap_err().to_text(), "Unknown server (refresh the list).");
    let mut partial = PublicCatalog::new();
    partial.servers.push(server("lonely", None, None));
    assert_eq!(partial.lookup("lonely").unwrap_err().to_text(), "Server config unavailable (refresh).");
}
