use myvpn::openvpn::{
    elevation_failure_message, join_params, log_reason, ovpn_args, truncate_chars, wide,
    ElevatedChild, ERROR_CANCELLED,
};

#[test]
fn launch_arguments() {
    let a = ovpn_args("C:\\data\\public.ovpn", 50123, "C:\\data\\openvpn.log", true);
    assert_eq!(
        a,
        vec![
            "--config", "C:\\data\\public.ovpn", "--management", "127.0.0.1", "50123",
            "--management-query-passwords", "--data-ciphers",
            "AES-256-GCM:AES-128-GCM:AES-256-CBC:AES-128-CBC:BF-CBC", "--data-ciphers-fallback",
            "AES-128-CBC", "--connect-retry-max", "3", "--pull-filter", "ignore",
            "block-outside-dns", "--verb", "3", "--log", "C:\\data\\openvpn.log",
            "--windows-driver", "wintun",
        ]
    );
    let b = ovpn_args("c", 1, "l", false);
    assert_eq!(b.len(), 19);
    assert_eq!(b.last().unwrap(), "l");
}

#[test]
fn command_line_quoting() {
    let args: Vec<String> = vec!["--config".into(), "C:\\Program Files\\a.ovpn".into(), "".into(), "x\ty".into(), "plain".into()];
    assert_eq!(join_params(&args), "--config \"C:\\Program Files\\a.ovpn\" \"\" \"x\ty\" plain");
    assert_eq!(join_params(&Vec::new()), "");
}

#[test]
fn wide_strings_are_nul_terminated_utf16() {
    assert_eq!(wide("ab"), vec![0x61, 0x62, 0]);
    assert_eq!(wide("é😀"), vec![0xE9, 0xD83D, 0xDE00, 0]);
    let expect: Vec<u16> = "C:\\Ω".encode_utf16().chain(std::iter::once(0)).collect();
    assert_eq!(wide("C:\\Ω"), expect);
}

#[test]
fn elevation_failures() {
    assert_eq!(
        elevation_failure_message(ERROR_CANCELLED),
        "Administrator approval is required to create the VPN tunnel. The request was cancelled — click Connect again and choose Yes."
    );
    assert_eq!(elevation_failure_message(5), "Could not launch OpenVPN (Windows error 5).");
}

#[test]
fn truncation_marks_the_cut() {
    assert_eq!(truncate_chars("abc", 3), "abc");
    assert_eq!(truncate_chars("abcdef", 4), "abc…");
    assert_eq!(truncate_chars("ééééé", 2), "é…");
}

#[test]
fn log_reason_prefers_the_last_error_line() {
    let log = "2024 Initialization\nERROR: Cannot open TUN/TAP dev\nsome later line\n\n";
    assert_eq!(log_reason(log), Some("ERROR: Cannot open TUN/TAP dev".to_string()));
    let log2 = "first\n  second line  \n\n";
    assert_eq!(log_reason(log2), Some("second line".to_string()));
    assert_eq!(log_reason(""), None);
    assert_eq!(log_reason(" \n \n"), None);
    let long = format!("fatal {}", "x".repeat(300));
    let r = log_reason(&long).unwrap();
    assert_eq!(r.chars().count(), 240);
    assert!(r.ends_with('…'));
    assert_eq!(log_reason("All TAP-Windows adapters are in use\nok"), Some("All TAP-Windows adapters are in use".to_string()));
}

#[test]
fn a_zero_handle_holds_no_process() {
    assert!(!ElevatedChild::new(0).holds_process());
    assert!(ElevatedChild::new(1234).holds_process());
}
