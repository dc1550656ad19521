use myvpn::transport::{custom_relay_mode, host_ack, load_identity};
use myvpn::transport::{
    authenticate, best_rtt_ms, classify_identity, constant_time_eq, derive_secret,
    derived_endpoint_id, frame_header, frame_len, handshake_result, hash_pass, identity_payload,
    seed_from_plain, to_hex_lower, tun_packet_len, welcome_message, IdentityBlob,
    MAX_FRAME,
};

#[test]
fn hash_pass_is_hex_sha256_of_the_tagged_passphrase() {
    assert_eq!(
        hash_pass("secret"),
        "6482d8227b9f63d854db69be5857e8c14516ecfe76ff0307cf0b03e33c89a630"
    );
    assert_eq!(
        hash_pass(""),
        "a1179616906cb27d5c93b100f23746740ab04efc21af09d88f793cd722055c26"
    );
    assert_ne!(hash_pass("secret"), hash_pass("Secret"));
}

#[test]
fn derive_secret_hashes_the_normalised_name_and_proof() {
    let seed = derive_secret("  Home Network ", "abc");
    assert_eq!(
        to_hex_lower(&seed),
        "f611d3c4f8da01a9abfa54b0f710a37930fed15a4220752d26a3f36263575a9a"
    );
}

#[test]
fn derived_endpoint_id_is_the_public_key_of_the_secret() {
    let id = derived_endpoint_id("Home Network", "abc");
    assert_eq!(id, "df737023797603d4ce8d6a21995a1fdf20bb091923b6ac10689e3ee616aecc42");
    // The public key differs from the secret it is made from.
    assert_ne!(id, to_hex_lower(&derive_secret("Home Network", "abc")));
}

#[test]
fn derived_identity_ignores_case_and_surrounding_space() {
    let a = derived_endpoint_id("Home Network", "p");
    assert_eq!(a, derived_endpoint_id("home network", "p"));
    assert_eq!(a, derived_endpoint_id("  HOME NETWORK  ", "p"));
    assert_ne!(a, derived_endpoint_id("Home  Network", "p"));
    assert_ne!(a, derived_endpoint_id("Home Network", "q"));
}

#[test]
fn identity_input_is_domain_separated() {
    assert_ne!(derive_secret("ab", "c"), derive_secret("a", "bc"));
}

#[test]
fn name_lowercasing_covers_unicode() {
    assert_eq!(derive_secret("ÄBC Ω", "p"), derive_secret("äbc ω", "p"));
    assert_ne!(derive_secret("ÄBC Ω", "p"), derive_secret("ABC Ω", "p"));
}

#[test]
fn constant_time_eq_compares_whole_strings() {
    assert!(constant_time_eq(b"abc", b"abc"));
    assert!(!constant_time_eq(b"abc", b"abd"));
    assert!(!constant_time_eq(b"abc", b"ab"));
    assert!(constant_time_eq(b"", b""));
}

#[test]
fn authentication_of_open_and_protected_networks() {
    assert!(authenticate(None, None));
    assert!(authenticate(None, Some("anything")));
    assert!(authenticate(Some("p1"), Some("p1")));
    assert!(!authenticate(Some("p1"), Some("p2")));
    assert!(!authenticate(Some("p1"), None));
}

#[test]
fn handshake_messages() {
    assert_eq!(welcome_message("Lab"), "Connected to Lab");
    assert_eq!(handshake_result(true, "Connected to Lab".to_string()), Ok("Connected to Lab".to_string()));
    assert_eq!(handshake_result(false, "wrong passphrase".to_string()), Err("wrong passphrase".to_string()));
    assert_eq!(handshake_result(false, String::new()), Err("host rejected the connection".to_string()));
}

#[test]
fn frame_header_round_trips() {
    for len in [0usize, 1, 255, 256, 65535, MAX_FRAME] {
        let h = frame_header(len);
        assert_eq!(frame_len(h), Ok(len));
    }
    assert_eq!(frame_header(0x0102_0304), [1, 2, 3, 4]);
}

#[test]
fn oversized_frames_are_refused() {
    assert_eq!(frame_len([0, 1, 0, 1]), Err("frame too large (65537 bytes)".to_string()));
    assert_eq!(frame_len([0, 1, 0, 0]), Ok(65536));
}

#[test]
fn tun_packet_lengths() {
    assert_eq!(tun_packet_len(0), None);
    assert_eq!(tun_packet_len(1), Some(1));
    assert_eq!(tun_packet_len(65535), Some(65535));
    assert_eq!(tun_packet_len(65536), None);
}

#[test]
fn best_rtt_ignores_unmeasured_paths() {
    assert_eq!(best_rtt_ms(&vec![]), None);
    assert_eq!(best_rtt_ms(&vec![0, 0]), None);
    assert_eq!(best_rtt_ms(&vec![0, 35_000_000, 12_900_000]), Some(12));
}

#[test]
fn identity_blobs_are_classified() {
    let mut protected = b"MVK1".to_vec();
    protected.extend_from_slice(&[9, 8, 7]);
    match classify_identity(&protected) {
        IdentityBlob::Protected(b) => assert_eq!(b, vec![9, 8, 7]),
        _ => panic!("expected a protected blob"),
    }
    let plain = [5u8; 32];
    match classify_identity(&plain) {
        IdentityBlob::Plain(b) => assert_eq!(b, plain.to_vec()),
        _ => panic!("expected a plain key"),
    }
    assert!(matches!(classify_identity(&[1, 2, 3]), IdentityBlob::Invalid));
    assert!(matches!(classify_identity(b"MVK1"), IdentityBlob::Invalid));
}

#[test]
fn identity_payload_round_trips() {
    let raw = [7u8; 32];
    let stored = identity_payload(&raw, Some(vec![1, 2, 3]));
    assert_eq!(stored, b"MVK1\x01\x02\x03".to_vec());
    match classify_identity(&stored) {
        IdentityBlob::Protected(b) => assert_eq!(b, vec![1, 2, 3]),
        _ => panic!("expected a protected blob"),
    }
    // Without protection the key is stored as it is.
    let plain = identity_payload(&raw, None);
    assert_eq!(plain, raw.to_vec());
    assert!(matches!(classify_identity(&plain), IdentityBlob::Plain(_)));
}

#[test]
fn seeds_must_be_32_bytes() {
    assert_eq!(seed_from_plain(vec![3u8; 32]), Some(vec![3u8; 32]));
    assert_eq!(seed_from_plain(vec![3u8; 31]), None);
}

#[test]
fn host_acknowledgements() {
    let pw = hash_pass("pw");
    assert_eq!(host_ack("Lab", Some(&pw), Some(&pw)), (true, "Connected to Lab".to_string()));
    assert_eq!(host_ack("Lab", Some(&pw), Some(&hash_pass("nope"))), (false, "Incorrect passphrase".to_string()));
    assert_eq!(host_ack("Lab", Some(&pw), None), (false, "Incorrect passphrase".to_string()));
    assert_eq!(host_ack("Open", None, None), (true, "Connected to Open".to_string()));
}

#[test]
fn relay_setting_is_used_only_when_it_parses() {
    assert_eq!(custom_relay_mode(Some("  https://relay.example.com ")), Some("https://relay.example.com".to_string()));
    assert_eq!(custom_relay_mode(Some("not a url")), None);
    assert_eq!(custom_relay_mode(Some("   ")), None);
    assert_eq!(custom_relay_mode(None), None);
}

#[test]
fn fresh_seeds_are_32_random_bytes() {
    use_seed(myvpn::transport::generate_seed().unwrap(), myvpn::transport::generate_seed().unwrap());
}

fn use_seed(a: Vec<u8>, b: Vec<u8>) {
    assert_eq!(a.len(), 32);
    assert_eq!(b.len(), 32);
    assert_ne!(a, b);
}

#[test]
fn identity_files_load_back_as_written() {
    let seed = vec![9u8; 32];
    // Protected: the decrypted blob is the seed.
    let stored = identity_payload(&seed, Some(vec![1, 2, 3]));
    assert_eq!(load_identity(&stored, Some(seed.clone())), Some((seed.clone(), false)));
    assert_eq!(load_identity(&stored, None), None);
    assert_eq!(load_identity(&stored, Some(vec![1u8; 31])), None);
    // A legacy plaintext key is kept and marked for rewriting.
    let plain = identity_payload(&seed, None);
    assert_eq!(load_identity(&plain, None), Some((seed.clone(), true)));
    assert_eq!(load_identity(&[1, 2, 3], None), None);
    // A protected file of exactly 32 bytes is rewritten, as a legacy key would be.
    let short = identity_payload(&seed, Some(vec![5u8; 28]));
    assert_eq!(short.len(), 32);
    assert_eq!(load_identity(&short, Some(seed.clone())), Some((seed.clone(), true)));
}
