use myvpn::net::{
    add_bypass_route, add_full_tunnel_routes, add_ipv6_killswitch, create_nat, default_gateway,
    default_gateway_command, enable_forwarding, ensure_ip, remove_bypass_route,
    remove_full_tunnel_routes, remove_ipv6_killswitch, remove_nat, reset_dns, set_dns,
    set_interface_ipv4, set_mtu, ShellCommand,
};
use myvpn::net::{
    disable_smart_resolution, prior_smart_resolution, restore_smart_resolution,
    smart_resolution_query_command,
};

fn script(c: &ShellCommand) -> &str {
    assert_eq!(c.program, "powershell");
    assert_eq!(&c.args[..3], &["-NoProfile", "-NonInteractive", "-Command"]);
    assert_eq!(c.args.len(), 4);
    &c.args[3]
}

#[test]
fn ip_literals_are_accepted() {
    for ok in ["1.2.3.4", " 10.66.0.1 ", "255.255.255.255", "0.0.0.0", "::1", "::", "fe80::1", "2001:db8::8a2e:370:7334", "::ffff:192.168.1.1", "1:2:3:4:5:6:7:8"] {
        assert!(ensure_ip(ok).is_ok(), "{ok}");
    }
}

#[test]
fn non_ip_values_are_refused() {
    for bad in [
        "",
        "1.2.3",
        "256.1.1.1",
        "1.2.3.4.5",
        "01.2.3.4",
        "1.2.3.4; Remove-Item C:\\",
        "1.2.3.4' -Foo '",
        "$(calc)",
        "1.2.3.4 | Out-File x",
        "1.2.3.4 & calc",
        "1.2.3.4`calc",
        "::1; whoami",
        "localhost",
        "1:2:3:4:5:6:7:8:9",
        "::1::",
        "fe80::1%3",
        "1.2.3.4/32",
    ] {
        let e = ensure_ip(bad).unwrap_err();
        assert_eq!(e.to_text(), format!("refusing non-IP value: {bad}"));
    }
}

#[test]
fn interface_address_plan() {
    let plan = set_interface_ipv4("MyVPN", "10.66.0.2", 24).unwrap();
    assert_eq!(plan.len(), 2);
    assert_eq!(script(&plan[0]), "Remove-NetIPAddress -InterfaceAlias 'MyVPN' -Confirm:$false -ErrorAction SilentlyContinue");
    assert!(!plan[0].required);
    assert_eq!(script(&plan[1]), "New-NetIPAddress -InterfaceAlias 'MyVPN' -IPAddress 10.66.0.2 -PrefixLength 24 -ErrorAction Stop | Out-Null");
    assert!(plan[1].required);
    assert!(set_interface_ipv4("MyVPN", "10.66.0.2 | evil", 24).is_err());
}

#[test]
fn mtu_plan() {
    let plan = set_mtu("MyVPN", 1200);
    assert_eq!(plan.len(), 1);
    assert_eq!(plan[0].program, "netsh");
    assert_eq!(plan[0].args, vec!["interface", "ipv4", "set", "subinterface", "MyVPN", "mtu=1200", "store=active"]);
    assert!(plan[0].required);
}

#[test]
fn dns_plans() {
    let plan = set_dns("MyVPN", "1.1.1.1").unwrap();
    assert_eq!(script(&plan[0]), "Set-DnsClientServerAddress -InterfaceAlias 'MyVPN' -ServerAddresses 1.1.1.1");
    assert!(plan[0].required);
    assert!(set_dns("MyVPN", "1.1.1.1,8.8.8.8").is_err());
    let reset = reset_dns("MyVPN");
    assert_eq!(script(&reset[0]), "Set-DnsClientServerAddress -InterfaceAlias 'MyVPN' -ResetServerAddresses -ErrorAction SilentlyContinue");
    assert!(!reset[0].required);
}

#[test]
fn default_gateway_is_parsed_from_the_route_query() {
    let c = default_gateway_command();
    assert!(script(&c).starts_with("Get-NetRoute -DestinationPrefix '0.0.0.0/0'"));
    assert_eq!(default_gateway("192.168.1.1 12"), Some(("192.168.1.1".to_string(), 12)));
    assert_eq!(default_gateway("  10.0.0.1\t7 extra\r\n"), Some(("10.0.0.1".to_string(), 7)));
    assert_eq!(default_gateway("0.0.0.0 5"), None);
    assert_eq!(default_gateway("10.0.0.1"), None);
    assert_eq!(default_gateway("10.0.0.1 x"), None);
    assert_eq!(default_gateway(""), None);
}

#[test]
fn full_tunnel_route_plans() {
    let plan = add_full_tunnel_routes("MyVPN", "10.66.0.1").unwrap();
    assert_eq!(plan.len(), 4);
    assert_eq!(script(&plan[0]), "Remove-NetRoute -DestinationPrefix '0.0.0.0/1' -InterfaceAlias 'MyVPN' -Confirm:$false -ErrorAction SilentlyContinue");
    assert_eq!(script(&plan[1]), "New-NetRoute -DestinationPrefix '0.0.0.0/1' -InterfaceAlias 'MyVPN' -NextHop 10.66.0.1 -RouteMetric 1 -ErrorAction Stop | Out-Null");
    assert_eq!(script(&plan[3]), "New-NetRoute -DestinationPrefix '128.0.0.0/1' -InterfaceAlias 'MyVPN' -NextHop 10.66.0.1 -RouteMetric 1 -ErrorAction Stop | Out-Null");
    assert!(!plan[0].required && plan[1].required && !plan[2].required && plan[3].required);
    assert!(add_full_tunnel_routes("MyVPN", "not-an-ip").is_err());
    let rm = remove_full_tunnel_routes("MyVPN");
    assert_eq!(rm.len(), 2);
    assert_eq!(script(&rm[1]), "Remove-NetRoute -DestinationPrefix '128.0.0.0/1' -InterfaceAlias 'MyVPN' -Confirm:$false -ErrorAction SilentlyContinue");
}

#[test]
fn bypass_route_plans() {
    let plan = add_bypass_route("203.0.113.9", "192.168.1.1", 12).unwrap();
    assert_eq!(script(&plan[0]), "Remove-NetRoute -DestinationPrefix '203.0.113.9/32' -Confirm:$false -ErrorAction SilentlyContinue");
    assert_eq!(script(&plan[1]), "New-NetRoute -DestinationPrefix '203.0.113.9/32' -InterfaceIndex 12 -NextHop 192.168.1.1 -RouteMetric 1 -ErrorAction Stop | Out-Null");
    assert_eq!(add_bypass_route("x", "192.168.1.1", 1).unwrap_err().to_text(), "refusing non-IP value: x");
    assert_eq!(add_bypass_route("1.1.1.1", "gw", 1).unwrap_err().to_text(), "refusing non-IP value: gw");
    let rm = remove_bypass_route("203.0.113.9").unwrap();
    assert_eq!(rm.len(), 1);
    assert_eq!(script(&rm[0]), "Remove-NetRoute -DestinationPrefix '203.0.113.9/32' -Confirm:$false -ErrorAction SilentlyContinue");
    assert!(!rm[0].required);
    assert_eq!(
        remove_bypass_route("1.1.1.1'; calc; '").unwrap_err().to_text(),
        "refusing non-IP value: 1.1.1.1'; calc; '"
    );
}

#[test]
fn gateway_plans() {
    let fwd = enable_forwarding("MyVPN");
    assert_eq!(script(&fwd[0]), "Set-NetIPInterface -InterfaceAlias 'MyVPN' -Forwarding Enabled -ErrorAction Stop");
    let nat = create_nat("MyVPN", "10.66.0.0/24");
    assert_eq!(script(&nat[0]), "Remove-NetNat -Name 'MyVPN' -Confirm:$false -ErrorAction SilentlyContinue");
    assert_eq!(script(&nat[1]), "New-NetNat -Name 'MyVPN' -InternalIPInterfaceAddressPrefix '10.66.0.0/24' -ErrorAction Stop | Out-Null");
    assert!(nat[1].required);
    let rm = remove_nat("MyVPN");
    assert_eq!(script(&rm[0]), "Remove-NetNat -Name 'MyVPN' -Confirm:$false -ErrorAction SilentlyContinue");
}

#[test]
fn ipv6_killswitch_plans() {
    let add = add_ipv6_killswitch("MyVPN");
    assert_eq!(add.len(), 4);
    assert_eq!(script(&add[1]), "New-NetRoute -DestinationPrefix '::/1' -InterfaceAlias 'MyVPN' -RouteMetric 1 -ErrorAction SilentlyContinue | Out-Null");
    assert_eq!(script(&add[3]), "New-NetRoute -DestinationPrefix '8000::/1' -InterfaceAlias 'MyVPN' -RouteMetric 1 -ErrorAction SilentlyContinue | Out-Null");
    assert!(add.iter().all(|c| !c.required));
    let rm = remove_ipv6_killswitch("MyVPN");
    assert_eq!(script(&rm[0]), "Remove-NetRoute -DestinationPrefix '::/1' -InterfaceAlias 'MyVPN' -Confirm:$false -ErrorAction SilentlyContinue");
    assert_eq!(script(&rm[1]), "Remove-NetRoute -DestinationPrefix '8000::/1' -InterfaceAlias 'MyVPN' -Confirm:$false -ErrorAction SilentlyContinue");
}

const POLICY_KEY: &str = "HKLM:\\SOFTWARE\\Policies\\Microsoft\\Windows NT\\DNSClient";

#[test]
fn dns_policy_is_captured_disabled_and_restored() {
    let q = smart_resolution_query_command();
    assert_eq!(
        script(&q),
        format!("(Get-ItemProperty -Path '{POLICY_KEY}' -Name DisableSmartNameResolution -ErrorAction SilentlyContinue).DisableSmartNameResolution")
    );
    let off = disable_smart_resolution();
    assert_eq!(script(&off[0]), format!("New-Item -Path '{POLICY_KEY}' -Force -ErrorAction SilentlyContinue | Out-Null"));
    assert_eq!(
        script(&off[1]),
        format!("Set-ItemProperty -Path '{POLICY_KEY}' -Name DisableSmartNameResolution -Value 1 -Type DWord -ErrorAction SilentlyContinue")
    );
    assert!(off.iter().all(|c| !c.required));
    // A prior value is written back exactly; no prior value is removed again.
    assert_eq!(prior_smart_resolution("0\r\n"), Some(0));
    assert_eq!(prior_smart_resolution(""), None);
    assert_eq!(prior_smart_resolution("junk"), None);
    let back = restore_smart_resolution(prior_smart_resolution(" 7 "));
    assert_eq!(
        script(&back[0]),
        format!("Set-ItemProperty -Path '{POLICY_KEY}' -Name DisableSmartNameResolution -Value 7 -Type DWord -ErrorAction SilentlyContinue")
    );
    let cleared = restore_smart_resolution(prior_smart_resolution(""));
    assert_eq!(
        script(&cleared[0]),
        format!("Remove-ItemProperty -Path '{POLICY_KEY}' -Name DisableSmartNameResolution -ErrorAction SilentlyContinue")
    );
}
