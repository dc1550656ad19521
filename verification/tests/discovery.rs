use myvpn::discovery::{magic, Beacon, HostTable, BEACON_PORT, TTL_MS};

fn beacon(name: &str, id: &str, protected: bool) -> Beacon {
    Beacon {
        magic: magic(),
        name: name.to_string(),
        endpoint_id: id.to_string(),
        requires_passphrase: protected,
    }
}

#[test]
fn beacons_of_this_app_are_listed() {
    assert_eq!(magic(), "MYVPN1");
    assert_eq!(BEACON_PORT, 50266);
    let mut t = HostTable::new();
    assert!(t.observe(&beacon("Lab", "E1", true), 1000));
    let hosts = t.snapshot(1000);
    assert_eq!(hosts.len(), 1);
    assert_eq!(hosts[0].network_name, "Lab");
    assert_eq!(hosts[0].endpoint_id, "E1");
    assert_eq!(hosts[0].source, "lan");
    assert!(hosts[0].requires_passphrase);
    assert!(hosts[0].online);
}

#[test]
fn foreign_or_empty_beacons_are_ignored() {
    let mut t = HostTable::new();
    let mut b = beacon("Lab", "E1", false);
    b.magic = "OTHER".to_string();
    assert!(!t.observe(&b, 0));
    assert!(!t.observe(&beacon("Lab", "", false), 0));
    assert!(t.snapshot(0).is_empty());
}

#[test]
fn a_host_is_listed_once_and_refreshed_in_place() {
    let mut t = HostTable::new();
    t.observe(&beacon("A", "E1", false), 0);
    t.observe(&beacon("B", "E2", false), 0);
    t.observe(&beacon("A renamed", "E1", true), 5000);
    let hosts = t.snapshot(5000);
    assert_eq!(hosts.len(), 2);
    assert_eq!(hosts[0].endpoint_id, "E1");
    assert_eq!(hosts[0].network_name, "A renamed");
    assert!(hosts[0].requires_passphrase);
    assert_eq!(hosts[1].endpoint_id, "E2");
    // E2 was last heard at 0, E1 at 5000.
    let later = t.snapshot(TTL_MS + 1);
    assert_eq!(later.len(), 1);
    assert_eq!(later[0].endpoint_id, "E1");
}

#[test]
fn stale_hosts_expire() {
    let mut t = HostTable::new();
    t.observe(&beacon("A", "E1", false), 0);
    assert!(!t.expire(TTL_MS - 1));
    assert_eq!(t.snapshot(TTL_MS - 1).len(), 1);
    assert!(t.expire(TTL_MS));
    assert!(t.snapshot(TTL_MS).is_empty());
}

#[test]
fn names_resolve_case_insensitively_among_fresh_hosts() {
    let mut t = HostTable::new();
    t.observe(&beacon("Home Lab", "E1", false), 0);
    t.observe(&beacon("ÄRBEIT", "E2", false), 100);
    assert_eq!(t.find_by_name(100, "  home lab "), Some("E1".to_string()));
    assert_eq!(t.find_by_name(100, "ärbeit"), Some("E2".to_string()));
    assert_eq!(t.find_by_name(100, "office"), None);
    assert_eq!(t.find_by_name(TTL_MS + 50, "home lab"), None);
}

#[test]
fn an_announced_beacon_is_heard() {
    let b = Beacon::announce("Lab".to_string(), "E9".to_string(), true);
    assert_eq!(b.magic, "MYVPN1");
    let mut t = HostTable::new();
    assert!(t.observe(&b, 42));
    assert_eq!(t.snapshot(42)[0].endpoint_id, "E9");
}
