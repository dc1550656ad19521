use base64::Engine;
use myvpn::sources::{collect_sources, parse_vpngate, split_vpngate_row, FetchedServer};

fn encode(text: &str) -> String {
    base64::engine::general_purpose::STANDARD.encode(text)
}

#[test]
fn parses_rows_and_ignores_preamble() {
    // A base64 config that decodes to text containing "remote ".
    let cfg = encode("client\nremote 1.2.3.4 443\n");
    let body = format!(
        "*vpn_servers\n#HostName,IP,Score,Ping,Speed,CountryLong,CountryShort,NumVpnSessions,Uptime,TotalUsers,TotalTraffic,LogType,Operator,Message,OpenVPN_ConfigData_Base64\n\
         host1,1.2.3.4,100,42,12000000,Japan,JP,7,1,1,1,2,op,msg,{cfg}\n*\n"
    );
    let servers = parse_vpngate(&body);
    assert_eq!(servers.len(), 1);
    let s = &servers[0].server;
    assert_eq!(s.country, "Japan");
    assert_eq!(s.country_code, "JP");
    assert_eq!(s.ping_ms, Some(42));
    assert_eq!(s.sessions, Some(7));
    assert_eq!(s.speed_mbps_tenths.map(|t| t as f64 / 10.0), Some(12.0));
    assert!(servers[0].ovpn.contains("remote "));
}

#[test]
fn tolerates_commas_in_free_text_columns() {
    let cfg = encode("client\nremote 5.6.7.8 1194\n");
    // The Message column contains commas; the config must still be the last field.
    let body = format!(
        "host2,5.6.7.8,50,10,8000000,United States,US,3,1,1,1,2,op,\"hello, world, x\",{cfg}\n"
    );
    let servers = parse_vpngate(&body);
    assert_eq!(servers.len(), 1);
    assert_eq!(servers[0].server.country_code, "US");
    assert!(servers[0].ovpn.contains("remote "));
}

fn row(host: &str, ip: &str, score: &str, ping: &str, speed: &str, country: &str, code: &str, cfg: &str) -> String {
    format!("{host},{ip},{score},{ping},{speed},{country},{code},4,1,1,1,2,op,msg,{cfg}")
}

#[test]
fn server_fields_are_taken_from_their_columns() {
    let cfg = encode("client\nremote 9.9.9.9 1194\n");
    let body = row("  vpn1 ", "9.9.9.9", "777", "15", "1234567", "Korea Republic of", "kr", &cfg);
    let servers = parse_vpngate(&body);
    assert_eq!(servers.len(), 1);
    let s = &servers[0].server;
    assert_eq!(s.id, "vpngate:vpn1:9.9.9.9");
    assert_eq!(s.source, "vpngate");
    assert_eq!(s.hostname, "vpn1");
    assert_eq!(s.ip, "9.9.9.9");
    assert_eq!(s.score, Some(777));
    assert_eq!(s.country, "Korea Republic of");
    // The country code is upper-cased.
    assert_eq!(s.country_code, "KR");
    // 1234567 bit/s is 12.3 Mbit/s, rounded to one decimal.
    assert_eq!(s.speed_mbps_tenths, Some(12));
    assert_eq!(servers[0].ovpn, "client\nremote 9.9.9.9 1194\n");
}

#[test]
fn speed_rounds_half_up_and_zero_means_unknown() {
    let cfg = encode("remote a 1\n");
    let half = parse_vpngate(&row("h", "1.1.1.1", "1", "1", "150000", "X", "XX", &cfg));
    assert_eq!(half[0].server.speed_mbps_tenths, Some(2));
    let below = parse_vpngate(&row("h", "1.1.1.1", "1", "1", "149999", "X", "XX", &cfg));
    assert_eq!(below[0].server.speed_mbps_tenths, Some(1));
    let zero = parse_vpngate(&row("h", "1.1.1.1", "1", "1", "0", "X", "XX", &cfg));
    assert_eq!(zero[0].server.speed_mbps_tenths, None);
    let junk = parse_vpngate(&row("h", "1.1.1.1", "1", "1", "fast", "X", "XX", &cfg));
    assert_eq!(junk[0].server.speed_mbps_tenths, None);
}

#[test]
fn zero_or_bad_ping_is_unknown() {
    let cfg = encode("remote a 1\n");
    let zero = parse_vpngate(&row("h", "1.1.1.1", "1", "0", "1", "X", "XX", &cfg));
    assert_eq!(zero[0].server.ping_ms, None);
    let bad = parse_vpngate(&row("h", "1.1.1.1", "x", "-3", "1", "X", "XX", &cfg));
    assert_eq!(bad[0].server.ping_ms, None);
    assert_eq!(bad[0].server.score, None);
}

#[test]
fn rows_without_a_usable_config_are_skipped() {
    let no_remote = encode("client\nproto udp\n");
    assert!(parse_vpngate(&row("h", "1.1.1.1", "1", "1", "1", "X", "XX", &no_remote)).is_empty());
    // Not base64 at all.
    assert!(parse_vpngate(&row("h", "1.1.1.1", "1", "1", "1", "X", "XX", "!!!!")).is_empty());
    // Valid base64 of bytes that are not UTF-8.
    let not_utf8 = base64::engine::general_purpose::STANDARD.encode([0xffu8, 0xfe, b'r']);
    assert!(parse_vpngate(&row("h", "1.1.1.1", "1", "1", "1", "X", "XX", &not_utf8)).is_empty());
}

#[test]
fn short_or_incomplete_rows_are_skipped() {
    let cfg = encode("remote a 1\n");
    assert!(parse_vpngate("a,b,c\n").is_empty());
    assert!(parse_vpngate(&row("", "1.1.1.1", "1", "1", "1", "X", "XX", &cfg)).is_empty());
    assert!(parse_vpngate(&row("h", " ", "1", "1", "1", "X", "XX", &cfg)).is_empty());
    assert!(parse_vpngate(&row("h", "1.1.1.1", "1", "1", "1", "", "XX", &cfg)).is_empty());
    assert!(parse_vpngate("").is_empty());
}

#[test]
fn rows_keep_their_order_and_crlf_is_tolerated() {
    let cfg = encode("remote a 1\n");
    let body = format!(
        "{}\r\n{}\r\n",
        row("first", "1.1.1.1", "1", "1", "1", "A", "AA", &cfg),
        row("second", "2.2.2.2", "1", "1", "1", "B", "BB", &cfg)
    );
    let servers = parse_vpngate(&body);
    assert_eq!(servers.len(), 2);
    assert_eq!(servers[0].server.hostname, "first");
    assert_eq!(servers[1].server.hostname, "second");
    assert_eq!(servers[1].server.country_code, "BB");
}

#[test]
fn split_row_reads_the_structured_columns() {
    let r = split_vpngate_row(" h1,10.0.0.1,5,7,800,Nowhere,nw,3,a,b,c,d,e,f,QUJD ").unwrap();
    assert_eq!(r.hostname, "h1");
    assert_eq!(r.ip, "10.0.0.1");
    assert_eq!(r.score, Some(5));
    assert_eq!(r.ping_ms, Some(7));
    assert_eq!(r.speed_bps, Some(800));
    assert_eq!(r.country, "Nowhere");
    assert_eq!(r.country_code, "nw");
    assert_eq!(r.sessions, Some(3));
    assert_eq!(r.config_b64, "QUJD");
    assert!(split_vpngate_row("#HostName,IP").is_none());
    assert!(split_vpngate_row("*vpn_servers").is_none());
}

#[test]
fn collect_sources_explains_an_empty_result() {
    let empty: Result<Vec<FetchedServer>, String> = Ok(Vec::new());
    assert_eq!(
        collect_sources(empty).err().unwrap(),
        "Could not load public servers. Please try again shortly."
    );
    let failed: Result<Vec<FetchedServer>, String> = Err("timed out".to_string());
    assert_eq!(
        collect_sources(failed).err().unwrap(),
        "Could not load public servers. VPN Gate: timed out"
    );
    let cfg = encode("remote a 1\n");
    let one = parse_vpngate(&row("h", "1.1.1.1", "1", "1", "1", "X", "XX", &cfg));
    assert_eq!(collect_sources(Ok(one)).unwrap().len(), 1);
}

#[test]
fn an_empty_server_list_moves_on_to_the_next_source() {
    use_outcome(myvpn::sources::servers_from_body("*vpn_servers\n*\n"));
    let cfg = encode("remote a 1\n");
    let ok = myvpn::sources::servers_from_body(&row("h", "1.1.1.1", "1", "1", "1", "X", "XX", &cfg)).unwrap();
    assert_eq!(ok.len(), 1);
}

fn use_outcome(r: Result<Vec<FetchedServer>, String>) {
    assert_eq!(r.err().unwrap(), "server list was empty");
}
