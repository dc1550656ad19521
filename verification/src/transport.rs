//! The peer-to-peer transport's own logic: passphrase proofs, identity
//! derivation, peer authentication, the handshake outcome, stream framing,
//! packet admission, path latency, and the on-disk identity format.
//!
//! The QUIC endpoint itself (iroh) is driven by the host application.

use sha2::Digest;
use vstd::prelude::*;
use vstd::utf8::encode_utf8;
use crate::error::VpnError;
use crate::text::{
    cat2, chars_of, decimal, decimal_chars, owned, starts_with, string_from_chars, trim, trim_chars,
};

verus! {

// ---------------------------------------------------------------------------
// Outside functions
// ---------------------------------------------------------------------------

/// What SHA-256 (`sha2::Sha256::digest`) returns for the given message.
pub uninterp spec fn sha256(msg: Seq<u8>) -> Seq<u8>;

/// The Ed25519 public key that iroh derives from a 32-byte secret seed
/// (`SecretKey::from_bytes(seed).public()`), as its 32 bytes.
pub uninterp spec fn ed25519_public(seed: Seq<u8>) -> Seq<u8>;

/// What `str::to_lowercase` returns (Unicode lowercase mapping).
pub uninterp spec fn unicode_lower(s: Seq<char>) -> Seq<char>;

/// SHA-256 of `data` with the `sha2` crate (`Sha256::digest`); the result is
/// the name [`sha256`] of the input, 32 bytes long (the digest's output size).
#[verifier::external_body]
fn sha256_digest(data: &[u8]) -> (r: Vec<u8>)
    ensures
        r@ == sha256(data@),
        r@.len() == 32,
{
    sha2::Sha256::digest(data).to_vec()
}

/// The public key of the iroh identity with secret `seed`
/// (`iroh::SecretKey::from_bytes(seed).public()`), as bytes; the result is
/// the name [`ed25519_public`] of the seed, 32 bytes long.
#[verifier::external_body]
fn iroh_public_key(seed: &[u8]) -> (r: Vec<u8>)
    requires
        seed@.len() == 32,
    ensures
        r@ == ed25519_public(seed@),
        r@.len() == 32,
{
    let mut arr = [0u8; 32];
    arr.copy_from_slice(seed);
    iroh::SecretKey::from_bytes(&arr).public().as_bytes().to_vec()
}

/// Whether a text parses as an iroh relay URL (`iroh::RelayUrl::from_str`,
/// which is `url::Url::from_str`).
pub uninterp spec fn relay_url_parses(s: Seq<char>) -> bool;

/// Whether `s` parses as an iroh relay URL; the result is the name
/// [`relay_url_parses`] of the text.
#[verifier::external_body]
fn parses_as_relay_url(s: &str) -> (b: bool)
    ensures
        b == relay_url_parses(s@),
{
    s.parse::<iroh::RelayUrl>().is_ok()
}

/// `str::to_lowercase`; the result is the name [`unicode_lower`] of the input.
#[verifier::external_body]
pub(crate) fn to_lowercase(s: &str) -> (r: String)
    ensures
        r@ == unicode_lower(s@),
{
    s.to_lowercase()
}

// ---------------------------------------------------------------------------
// Relay selection
// ---------------------------------------------------------------------------

/// The relay an endpoint is pinned to: the trimmed relay setting, when it is
/// not blank and parses as a relay URL; otherwise (`None`) iroh's default
/// relays, so a bad setting can never cut connectivity.
pub open spec fn custom_relay_spec(url: Option<Seq<char>>) -> Option<Seq<char>> {
    match url {
        Some(u) => if trim(u).len() > 0 && relay_url_parses(trim(u)) {
            Some(trim(u))
        } else {
            None
        },
        None => None,
    }
}

/// Choose the custom relay for an endpoint from the relay setting.
pub fn custom_relay_mode(relay_url: Option<&str>) -> (r: Option<String>)
    ensures
        match r {
            Some(s) => custom_relay_spec(match relay_url {
                Some(u) => Some(u@),
                None => None,
            }) == Some(s@),
            None => custom_relay_spec(match relay_url {
                Some(u) => Some(u@),
                None => None,
            }) is None,
        },
{
    match relay_url {
        Some(u) => {
            let uc = chars_of(u);
            let t = string_from_chars(trim_chars(uc.as_slice()).as_slice());
            if !t.as_str().is_empty() && parses_as_relay_url(t.as_str()) {
                Some(t)
            } else {
                None
            }
        },
        None => None,
    }
}

// ---------------------------------------------------------------------------
// Bytes and hex
// ---------------------------------------------------------------------------

/// The lowercase hexadecimal digit for `d < 16`.
pub open spec fn hex_digit(d: nat) -> char {
    if d < 10 {
        ((d + '0' as nat) as u32) as char
    } else {
        ((d - 10 + 'a' as nat) as u32) as char
    }
}

/// Lowercase hexadecimal rendering, two digits per byte (`{:02x}` each).
pub open spec fn hex_lower(bytes: Seq<u8>) -> Seq<char>
    decreases bytes.len(),
{
    if bytes.len() == 0 {
        Seq::<char>::empty()
    } else {
        hex_lower(bytes.drop_last()) + seq![
            hex_digit(bytes.last() as nat / 16),
            hex_digit(bytes.last() as nat % 16),
        ]
    }
}

fn hex_char(d: u8) -> (c: char)
    requires
        d < 16,
    ensures
        c == hex_digit(d as nat),
{
    if d < 10 {
        (d + 48) as char
    } else {
        (d - 10 + 97) as char
    }
}

/// Lowercase hexadecimal rendering of bytes.
pub fn to_hex_lower(bytes: &[u8]) -> (s: String)
    ensures
        s@ == hex_lower(bytes@),
{
    let n = bytes.len();
    let mut out: Vec<char> = Vec::new();
    assert(bytes@.take(0) =~= Seq::<u8>::empty());
    for i in 0..n
        invariant
            n == bytes@.len(),
            out@ == hex_lower(bytes@.take(i as int)),
    {
        let b = bytes[i];
        assert(bytes@.take(i + 1).drop_last() == bytes@.take(i as int));
        assert(bytes@.take(i + 1).last() == b);
        out.push(hex_char(b / 16));
        out.push(hex_char(b % 16));
        assert(out@ =~= hex_lower(bytes@.take(i + 1)));
    }
    assert(bytes@.take(n as int) == bytes@);
    string_from_chars(out.as_slice())
}

fn push_bytes(v: &mut Vec<u8>, b: &[u8])
    ensures
        final(v)@ == old(v)@ + b@,
{
    let n = b.len();
    let ghost start = v@;
    for i in 0..n
        invariant
            n == b@.len(),
            v@ == start + b@.take(i as int),
    {
        v.push(b[i]);
        assert(b@.take(i + 1) == b@.take(i as int).push(b@[i as int]));
    }
    assert(b@.take(n as int) == b@);
}

// ---------------------------------------------------------------------------
// Passphrase proof and identity
// ---------------------------------------------------------------------------

/// The passphrase proof: SHA-256 of `"myvpn-auth:" + passphrase` (UTF-8), in
/// lowercase hex.
pub open spec fn pass_proof(passphrase: Seq<char>) -> Seq<char> {
    hex_lower(sha256(encode_utf8("myvpn-auth:"@ + passphrase)))
}

/// Derive a passphrase proof. It is sent over the already end-to-end
/// encrypted channel and compared in constant time by the host.
pub fn hash_pass(passphrase: &str) -> (p: String)
    ensures
        p@ == pass_proof(passphrase@),
{
    let pc = chars_of(passphrase);
    let msg = cat2("myvpn-auth:", pc.as_slice());
    let digest = sha256_digest(msg.as_str().as_bytes());
    to_hex_lower(digest.as_slice())
}

/// The normalised network name that identities are derived from.
pub open spec fn normal_name(name: Seq<char>) -> Seq<char> {
    unicode_lower(trim(name))
}

/// The message hashed into a network identity: a version tag, the
/// normalised name, a zero byte separating name and proof, then the proof.
pub open spec fn identity_input(name: Seq<char>, proof: Seq<char>) -> Seq<u8> {
    encode_utf8("myvpn-net-identity:v1"@) + encode_utf8(normal_name(name)) + seq![0u8]
        + encode_utf8(proof)
}

/// The 32-byte identity seed of a network name and passphrase proof.
pub open spec fn identity_seed_spec(name: Seq<char>, proof: Seq<char>) -> Seq<u8> {
    sha256(identity_input(name, proof))
}

/// The deterministic secret of a passphrase-protected network, as the 32
/// bytes its secret key is made from: a client that knows the name and the
/// passphrase computes the same secret as the host, and so the same
/// endpoint id.
pub fn derive_secret(name: &str, proof: &str) -> (seed: Vec<u8>)
    ensures
        seed@ == identity_seed_spec(name@, proof@),
        seed@.len() == 32,
{
    let nc = chars_of(name);
    let trimmed = string_from_chars(trim_chars(nc.as_slice()).as_slice());
    let lower = to_lowercase(trimmed.as_str());
    let mut msg: Vec<u8> = Vec::new();
    push_bytes(&mut msg, "myvpn-net-identity:v1".as_bytes());
    push_bytes(&mut msg, lower.as_str().as_bytes());
    msg.push(0u8);
    push_bytes(&mut msg, proof.as_bytes());
    assert(msg@ =~= identity_input(name@, proof@));
    sha256_digest(msg.as_slice())
}

/// The endpoint id (pairing code) of a derived identity: its public key in
/// lowercase hex, as iroh displays endpoint ids.
pub open spec fn derived_id_spec(name: Seq<char>, proof: Seq<char>) -> Seq<char> {
    hex_lower(ed25519_public(identity_seed_spec(name, proof)))
}

/// The endpoint id (pairing code / dial target) of the identity derived from
/// a network name and passphrase proof.
pub fn derived_endpoint_id(name: &str, proof: &str) -> (id: String)
    ensures
        id@ == derived_id_spec(name@, proof@),
{
    let seed = derive_secret(name, proof);
    let pk = iroh_public_key(seed.as_slice());
    to_hex_lower(pk.as_slice())
}

/// Names that differ only in surrounding whitespace, or not at all after
/// lowercasing, derive the same identity (and endpoint id) for a proof.
pub proof fn derived_identity_ignores_name_spelling(n1: Seq<char>, n2: Seq<char>, proof: Seq<char>)
    requires
        normal_name(n1) == normal_name(n2),
    ensures
        identity_seed_spec(n1, proof) == identity_seed_spec(n2, proof),
        derived_id_spec(n1, proof) == derived_id_spec(n2, proof),
{
}

proof fn lemma_encode_utf8_len_pos(c: Seq<char>)
    ensures
        encode_utf8(c).len() >= c.len(),
    decreases c.len(),
{
    reveal_with_fuel(encode_utf8, 2);
    if c.len() > 0 {
        lemma_encode_utf8_len_pos(c.drop_first());
    }
}

/// Domain separation: the hashed identity message determines the normalised
/// name and the proof, as long as the normalised name holds no NUL character.
/// So two different networks, such as `("ab", "c")` and `("a", "bc")`, never
/// feed the hash the same message.
pub proof fn identity_input_separates(n1: Seq<char>, p1: Seq<char>, n2: Seq<char>, p2: Seq<char>)
    requires
        identity_input(n1, p1) == identity_input(n2, p2),
        forall|i: int| 0 <= i < normal_name(n1).len() ==> normal_name(n1)[i] != '\0',
        forall|i: int| 0 <= i < normal_name(n2).len() ==> normal_name(n2)[i] != '\0',
    ensures
        normal_name(n1) == normal_name(n2),
        p1 == p2,
{
    let pre = encode_utf8("myvpn-net-identity:v1"@);
    let a = encode_utf8(normal_name(n1));
    let b = encode_utf8(normal_name(n2));
    let x = encode_utf8(p1);
    let y = encode_utf8(p2);
    let m1 = pre + a + seq![0u8] + x;
    let m2 = pre + b + seq![0u8] + y;
    lemma_no_zero_byte(normal_name(n1));
    lemma_no_zero_byte(normal_name(n2));
    let pl = pre.len() as int;
    let al = a.len() as int;
    let bl = b.len() as int;
    // the first zero byte after the prefix ends the name in both messages
    if al < bl {
        assert(m1[pl + al] == 0u8);
        assert(m2[pl + al] == b[al]);
    } else if bl < al {
        assert(m2[pl + bl] == 0u8);
        assert(m1[pl + bl] == a[bl]);
    }
    assert(al == bl);
    assert(a =~= m1.subrange(pl, pl + al));
    assert(b =~= m2.subrange(pl, pl + bl));
    assert(x =~= m1.subrange(pl + al + 1, m1.len() as int));
    assert(y =~= m2.subrange(pl + bl + 1, m2.len() as int));
    vstd::utf8::encode_utf8_decode_utf8(normal_name(n1));
    vstd::utf8::encode_utf8_decode_utf8(normal_name(n2));
    vstd::utf8::encode_utf8_decode_utf8(p1);
    vstd::utf8::encode_utf8_decode_utf8(p2);
}

proof fn lemma_no_zero_byte(c: Seq<char>)
    requires
        forall|i: int| 0 <= i < c.len() ==> c[i] != '\0',
    ensures
        forall|i: int| 0 <= i < encode_utf8(c).len() ==> encode_utf8(c)[i] != 0u8,
    decreases c.len(),
{
    if c.len() > 0 {
        let rest = c.drop_first();
        assert forall|i: int| 0 <= i < rest.len() implies rest[i] != '\0' by {
            assert(rest[i] == c[i + 1]);
        }
        lemma_no_zero_byte(rest);
        let first = vstd::utf8::encode_scalar(c[0] as u32);
        assert(encode_utf8(c) == first + encode_utf8(rest));
        vstd::utf8::char_is_scalar(c[0]);
        assert(c[0] != '\0');
        if c[0] as u32 == 0 {
            vstd::utf8::char_u32_cast(c[0], 0u32);
            vstd::utf8::char_u32_cast('\0', 0u32);
        }
        assert(c[0] as u32 != 0);
        let v = c[0] as u32;
        lemma_multibyte_nonzero(v);
        if vstd::utf8::has_width_1_encoding(v) {
            assert(first == seq![vstd::utf8::leading_byte_width_1(v)]);
            assert(((v & 0x7Fu32) as u8) != 0u8) by (bit_vector)
                requires
                    v != 0,
                    v <= 0x7f,
            ;
        }
        assert forall|i: int| 0 <= i < first.len() implies first[i] != 0u8 by {
            if vstd::utf8::has_width_1_encoding(v) {
            } else if vstd::utf8::has_width_2_encoding(v) {
                assert(first == seq![vstd::utf8::leading_byte_width_2(v), vstd::utf8::last_continuation_byte(v)]);
            } else if vstd::utf8::has_width_3_encoding(v) {
                assert(first == seq![
                    vstd::utf8::leading_byte_width_3(v),
                    vstd::utf8::second_last_continuation_byte(v),
                    vstd::utf8::last_continuation_byte(v),
                ]);
            } else {
                assert(first == seq![
                    vstd::utf8::leading_byte_width_4(v),
                    vstd::utf8::third_last_continuation_byte(v),
                    vstd::utf8::second_last_continuation_byte(v),
                    vstd::utf8::last_continuation_byte(v),
                ]);
            }
        }
        assert forall|i: int| 0 <= i < encode_utf8(c).len() implies encode_utf8(c)[i] != 0u8 by {
            if i < first.len() {
                assert(encode_utf8(c)[i] == first[i]);
            } else {
                assert(encode_utf8(c)[i] == encode_utf8(rest)[i - first.len()]);
            }
        }
    }
}

proof fn lemma_multibyte_nonzero(v: u32)
    ensures
        vstd::utf8::leading_byte_width_2(v) != 0u8,
        vstd::utf8::leading_byte_width_3(v) != 0u8,
        vstd::utf8::leading_byte_width_4(v) != 0u8,
        vstd::utf8::last_continuation_byte(v) != 0u8,
        vstd::utf8::second_last_continuation_byte(v) != 0u8,
        vstd::utf8::third_last_continuation_byte(v) != 0u8,
{
    let x2 = ((v >> 6u32) & 0x1Fu32) as u8;
    let x3 = ((v >> 12u32) & 0x0Fu32) as u8;
    let x4 = ((v >> 18u32) & 0x7u32) as u8;
    let c1 = (v & 0x3Fu32) as u8;
    let c2 = ((v >> 6u32) & 0x3Fu32) as u8;
    let c3 = ((v >> 12u32) & 0x3Fu32) as u8;
    assert((0xC0u8 | x2) != 0u8) by (bit_vector);
    assert((0xE0u8 | x3) != 0u8) by (bit_vector);
    assert((0xF0u8 | x4) != 0u8) by (bit_vector);
    assert((0x80u8 | c1) != 0u8) by (bit_vector);
    assert((0x80u8 | c2) != 0u8) by (bit_vector);
    assert((0x80u8 | c3) != 0u8) by (bit_vector);
}

// ---------------------------------------------------------------------------
// Authentication and handshake
// ---------------------------------------------------------------------------

/// Compare two byte strings without an early exit on the first difference
/// (so the time taken does not reveal how many bytes matched); strings of
/// different lengths differ.
pub fn constant_time_eq(a: &[u8], b: &[u8]) -> (r: bool)
    ensures
        r == (a@ == b@),
{
    if a.len() != b.len() {
        return false;
    }
    let n = a.len();
    let mut diff: u8 = 0;
    for i in 0..n
        invariant
            n == a@.len(),
            n == b@.len(),
            (diff == 0) == (forall|j: int| 0 <= j < i ==> a@[j] == b@[j]),
    {
        let x = a[i];
        let y = b[i];
        let d = diff;
        assert(((d | (x ^ y)) == 0u8) == (d == 0u8 && x == y)) by (bit_vector);
        diff = d | (x ^ y);
    }
    assert((diff == 0) ==> a@ =~= b@);
    diff == 0
}

/// Authenticate a peer against the network passphrase: an open network
/// admits everyone; a protected one only a peer presenting the expected proof.
pub fn authenticate(expected: Option<&str>, presented: Option<&str>) -> (ok: bool)
    ensures
        ok == match expected {
            None => true,
            Some(e) => match presented {
                Some(p) => p@ == e@,
                None => false,
            },
        },
{
    match expected {
        None => true,
        Some(e) => match presented {
            Some(p) => {
                let r = constant_time_eq(p.as_bytes(), e.as_bytes());
                proof {
                    vstd::utf8::encode_utf8_decode_utf8(p@);
                    vstd::utf8::encode_utf8_decode_utf8(e@);
                }
                r
            },
            None => false,
        },
    }
}

/// The welcome a host sends to an admitted peer.
pub fn welcome_message(host_name: &str) -> (m: String)
    ensures
        m@ == "Connected to "@ + host_name@,
{
    let hc = chars_of(host_name);
    cat2("Connected to ", hc.as_slice())
}

/// The host's acknowledgement of a peer's hello: whether it is admitted, and
/// the message sent back (a welcome, or the passphrase refusal).
pub open spec fn ack_spec(host_name: Seq<char>, expected: Option<Seq<char>>, presented: Option<Seq<char>>) -> (bool, Seq<char>) {
    let ok = match expected {
        None => true,
        Some(e) => presented == Some(e),
    };
    if ok {
        (true, "Connected to "@ + host_name)
    } else {
        (false, "Incorrect passphrase"@)
    }
}

/// Answer a peer's hello on a network whose expected passphrase proof is
/// `expected` (`None` for an open network).
pub fn host_ack(host_name: &str, expected: Option<&str>, presented: Option<&str>) -> (r: (bool, String))
    ensures
        (r.0, r.1@) == ack_spec(
            host_name@,
            match expected {
                Some(e) => Some(e@),
                None => None,
            },
            match presented {
                Some(p) => Some(p@),
                None => None,
            },
        ),
{
    if authenticate(expected, presented) {
        (true, welcome_message(host_name))
    } else {
        (false, owned("Incorrect passphrase"))
    }
}

/// A client that knows the passphrase joins: presenting the proof of the
/// host's passphrase, it is admitted and its handshake yields the host's
/// welcome; presenting no proof, or the proof of another passphrase, it is
/// refused with the passphrase message. An open network admits everyone.
pub proof fn passphrase_admits_exactly_its_holders(host_name: Seq<char>, pass: Seq<char>, other: Seq<char>)
    requires
        pass_proof(pass) != pass_proof(other),
    ensures
        ack_spec(host_name, Some(pass_proof(pass)), Some(pass_proof(pass))) == (true, "Connected to "@ + host_name),
        ack_spec(host_name, Some(pass_proof(pass)), Some(pass_proof(other))) == (false, "Incorrect passphrase"@),
        ack_spec(host_name, Some(pass_proof(pass)), None) == (false, "Incorrect passphrase"@),
        ack_spec(host_name, None, Some(pass_proof(other))).0,
{
}

/// The client's reading of the host's acknowledgement: the welcome message
/// when admitted, otherwise the rejection reason (a generic one when the
/// host gave none).
pub fn handshake_result(ok: bool, message: String) -> (r: Result<String, String>)
    ensures
        ok ==> (r matches Ok(m) && m@ == message@),
        !ok && message@.len() > 0 ==> (r matches Err(m) && m@ == message@),
        !ok && message@.len() == 0 ==> (r matches Err(m) && m@ == "host rejected the connection"@),
{
    if ok {
        Ok(message)
    } else if message.as_str().is_empty() {
        Err(owned("host rejected the connection"))
    } else {
        Err(message)
    }
}

// ---------------------------------------------------------------------------
// Framing
// ---------------------------------------------------------------------------

/// The largest frame accepted on the handshake stream.
pub const MAX_FRAME: usize = 65536;

/// The big-endian 4-byte encoding of a value below 2^32.
pub open spec fn be32(v: nat) -> Seq<u8> {
    seq![(v / 16777216 % 256) as u8, (v / 65536 % 256) as u8, (v / 256 % 256) as u8, (v % 256) as u8]
}

/// The value of a big-endian 4-byte header.
pub open spec fn be32_value(h: Seq<u8>) -> nat {
    (h[0] as nat) * 16777216 + (h[1] as nat) * 65536 + (h[2] as nat) * 256 + h[3] as nat
}

/// The length prefix written before a frame of `len` bytes: the length as a
/// big-endian `u32` (lengths of 2^32 or more wrap).
pub fn frame_header(len: usize) -> (h: [u8; 4])
    ensures
        h@ == be32(len as nat % 4294967296),
{
    let v: u64 = (len as u64) % 4294967296;
    assert(v == len as nat % 4294967296);
    [(v / 16777216 % 256) as u8, (v / 65536 % 256) as u8, (v / 256 % 256) as u8, (v % 256) as u8]
}

/// The length announced by a frame header, refused when above [`MAX_FRAME`].
pub fn frame_len(h: [u8; 4]) -> (r: Result<usize, String>)
    ensures
        be32_value(h@) <= MAX_FRAME ==> (r matches Ok(n) && n == be32_value(h@)),
        be32_value(h@) > MAX_FRAME ==> (r matches Err(m) && m@ == "frame too large ("@ + decimal(
            be32_value(h@),
        ) + " bytes)"@),
{
    let n: u64 = (h[0] as u64) * 16777216 + (h[1] as u64) * 65536 + (h[2] as u64) * 256
        + h[3] as u64;
    if n <= MAX_FRAME as u64 {
        Ok(n as usize)
    } else {
        let d = decimal_chars(n);
        let mut v = crate::text::lit("frame too large (");
        crate::text::push_all(&mut v, d.as_slice());
        crate::text::push_str(&mut v, " bytes)");
        Err(string_from_chars(v.as_slice()))
    }
}

/// Reading a frame header gives back the length it was written for.
pub proof fn frame_header_roundtrip(len: nat)
    requires
        len <= MAX_FRAME,
    ensures
        be32_value(be32(len % 4294967296)) == len,
{
    let v = len % 4294967296;
    assert(v == len);
    assert(len / 16777216 == 0);
    assert(len / 65536 % 256 == len / 65536);
    let hi = len / 65536;
    let mid = len / 256 % 256;
    let lo = len % 256;
    assert(len / 256 == hi * 256 + mid) by (nonlinear_arith)
        requires
            hi == len / 65536,
            mid == len / 256 % 256,
    ;
    assert(len == (len / 256) * 256 + lo) by (nonlinear_arith)
        requires
            lo == len % 256,
    ;
    assert(be32_value(be32(v)) == hi * 65536 + mid * 256 + lo);
}

// ---------------------------------------------------------------------------
// Data plane
// ---------------------------------------------------------------------------

/// The size of a received datagram as a tunnel packet length, or `None` when
/// it must be dropped: empty, or larger than a TUN packet can hold.
pub fn tun_packet_len(len: usize) -> (r: Option<u16>)
    ensures
        (len == 0 || len > 65535) ==> r is None,
        (0 < len <= 65535) ==> r == Some(len as u16),
{
    if len == 0 || len > 65535 {
        None
    } else {
        Some(len as u16)
    }
}

/// The smallest positive value of a sequence, if any.
pub open spec fn min_positive(s: Seq<u128>) -> Option<u128>
    decreases s.len(),
{
    if s.len() == 0 {
        None
    } else {
        let rest = min_positive(s.drop_last());
        let x = s.last();
        if x == 0 {
            rest
        } else {
            match rest {
                Some(m) => Some(if x < m {
                    x
                } else {
                    m
                }),
                None => Some(x),
            }
        }
    }
}

/// The best (lowest) measured path round-trip time in whole milliseconds,
/// from per-path RTTs in nanoseconds (0 = not measured yet).
pub fn best_rtt_ms(rtts_nanos: &Vec<u128>) -> (r: Option<u64>)
    ensures
        match min_positive(rtts_nanos@) {
            Some(m) => r == Some((m / 1000000) as u64),
            None => r is None,
        },
{
    let n = rtts_nanos.len();
    let mut best: Option<u128> = None;
    assert(rtts_nanos@.take(0) =~= Seq::<u128>::empty());
    for i in 0..n
        invariant
            n == rtts_nanos@.len(),
            best == min_positive(rtts_nanos@.take(i as int)),
    {
        let x = rtts_nanos[i];
        assert(rtts_nanos@.take(i + 1).drop_last() == rtts_nanos@.take(i as int));
        assert(rtts_nanos@.take(i + 1).last() == x);
        if x > 0 {
            best = match best {
                Some(m) => Some(if x < m {
                    x
                } else {
                    m
                }),
                None => Some(x),
            };
        }
    }
    assert(rtts_nanos@.take(n as int) == rtts_nanos@);
    match best {
        Some(m) => Some((m / 1000000) as u64),
        None => None,
    }
}

// ---------------------------------------------------------------------------
// Identity at rest
// ---------------------------------------------------------------------------

/// The prefix marking an identity blob encrypted for the current user.
pub open spec fn identity_magic() -> Seq<u8> {
    seq![0x4Du8, 0x56u8, 0x4Bu8, 0x31u8]
}

/// What an identity file holds.
#[derive(Debug)]
pub enum IdentityBlob {
    /// An encrypted blob (the bytes after the prefix) to decrypt.
    Protected(Vec<u8>),
    /// A legacy plaintext 32-byte secret.
    Plain(Vec<u8>),
    /// Unreadable contents.
    Invalid,
}

/// The reading of an identity file's bytes.
pub open spec fn classify_spec(bytes: Seq<u8>) -> (bool, bool, Seq<u8>) {
    if bytes.len() > 4 && bytes.take(4) == identity_magic() {
        (true, false, bytes.skip(4))
    } else if bytes.len() == 32 {
        (false, true, bytes)
    } else {
        (false, false, Seq::<u8>::empty())
    }
}

/// Decide how to read an identity file: an encrypted blob behind the `MVK1`
/// prefix, a legacy 32-byte plaintext key, or neither.
pub fn classify_identity(bytes: &[u8]) -> (r: IdentityBlob)
    ensures
        classify_spec(bytes@).0 ==> (r matches IdentityBlob::Protected(b) && b@ == classify_spec(bytes@).2),
        classify_spec(bytes@).1 ==> (r matches IdentityBlob::Plain(b) && b@ == bytes@),
        !classify_spec(bytes@).0 && !classify_spec(bytes@).1 ==> r is Invalid,
{
    if bytes.len() > 4 && bytes[0] == 0x4D && bytes[1] == 0x56 && bytes[2] == 0x4B && bytes[3] == 0x31 {
        assert(bytes@.take(4) =~= identity_magic());
        let mut rest: Vec<u8> = Vec::new();
        let n = bytes.len();
        let mut i: usize = 4;
        while i < n
            invariant
                4 <= i <= n,
                n == bytes@.len(),
                rest@ == bytes@.subrange(4, i as int),
            decreases n - i,
        {
            rest.push(bytes[i]);
            assert(bytes@.subrange(4, i + 1) == bytes@.subrange(4, i as int).push(bytes@[i as int]));
            i += 1;
        }
        assert(bytes@.skip(4) == bytes@.subrange(4, n as int));
        IdentityBlob::Protected(rest)
    } else {
        assert(bytes@.len() > 4 ==> bytes@.take(4) != identity_magic()) by {
            if bytes@.len() > 4 && bytes@.take(4) == identity_magic() {
                assert(bytes@.take(4)[0] == bytes@[0]);
                assert(bytes@.take(4)[1] == bytes@[1]);
                assert(bytes@.take(4)[2] == bytes@[2]);
                assert(bytes@.take(4)[3] == bytes@[3]);
            }
        }
        if bytes.len() == 32 {
            let mut v: Vec<u8> = Vec::new();
            push_bytes(&mut v, bytes);
            assert(v@ =~= bytes@);
            IdentityBlob::Plain(v)
        } else {
            IdentityBlob::Invalid
        }
    }
}

/// The bytes written for an identity: the encrypted blob behind the prefix
/// when encryption succeeded, otherwise the plaintext secret.
pub open spec fn identity_payload_spec(raw: Seq<u8>, protected: Option<Seq<u8>>) -> Seq<u8> {
    match protected {
        Some(blob) => identity_magic() + blob,
        None => raw,
    }
}

/// The bytes to persist for an identity secret.
pub fn identity_payload(raw: &[u8], protected: Option<Vec<u8>>) -> (out: Vec<u8>)
    ensures
        out@ == identity_payload_spec(
            raw@,
            match protected {
                Some(b) => Some(b@),
                None => None,
            },
        ),
{
    let mut out: Vec<u8> = Vec::new();
    match protected {
        Some(blob) => {
            out.push(0x4D);
            out.push(0x56);
            out.push(0x4B);
            out.push(0x31);
            assert(out@ =~= identity_magic());
            push_bytes(&mut out, blob.as_slice());
        },
        None => {
            push_bytes(&mut out, raw);
            assert(out@ =~= raw@);
        },
    }
    out
}

/// Reading back what was written recovers it: an encrypted blob comes back
/// as that blob; a plaintext secret comes back as itself, unless its first
/// four bytes happen to spell the prefix.
pub proof fn identity_roundtrip(raw: Seq<u8>, blob: Seq<u8>)
    requires
        raw.len() == 32,
        blob.len() >= 1,
    ensures
        classify_spec(identity_payload_spec(raw, Some(blob))) == (true, false, blob),
        raw.take(4) != identity_magic() ==> classify_spec(identity_payload_spec(raw, None)) == (
            false,
            true,
            raw,
        ),
{
    let p = identity_magic() + blob;
    assert(p.take(4) =~= identity_magic());
    assert(p.skip(4) =~= blob);
}

/// 32 bytes from the operating system's secure random source
/// (`getrandom::getrandom`), or the text of its error. Nothing is stated of
/// the bytes beyond their number: they are random.
#[verifier::external_body]
fn os_random_32() -> (r: Result<Vec<u8>, String>)
    ensures
        r matches Ok(s) ==> s@.len() == 32,
{
    let mut seed = [0u8; 32];
    match getrandom::getrandom(&mut seed) {
        Ok(()) => Ok(seed.to_vec()),
        Err(e) => Err(e.to_string()),
    }
}

/// A fresh random identity secret for a device that has none yet.
pub fn generate_seed() -> (r: Result<Vec<u8>, VpnError>)
    ensures
        r matches Ok(s) ==> s@.len() == 32,
        r matches Err(e) ==> e is Message && starts_with(e.text(), "secure RNG failed: "@),
{
    match os_random_32() {
        Ok(s) => Ok(s),
        Err(m) => {
            let mc = chars_of(m.as_str());
            let text = cat2("secure RNG failed: ", mc.as_slice());
            proof {
                assert(text@.subrange(0, "secure RNG failed: "@.len() as int) =~= "secure RNG failed: "@);
            }
            Err(VpnError::Message(text))
        },
    }
}

/// A decrypted secret is usable only when it is exactly 32 bytes long.
pub fn seed_from_plain(plain: Vec<u8>) -> (r: Option<Vec<u8>>)
    ensures
        plain@.len() == 32 ==> (r matches Some(s) && s@ == plain@),
        plain@.len() != 32 ==> r is None,
{
    if plain.len() == 32 {
        Some(plain)
    } else {
        None
    }
}

/// What loading an identity file yields: the seed to use, and whether the
/// file must be rewritten in the protected format: whenever it is exactly 32
/// bytes long, the size of a legacy plaintext key.
/// `decrypted` is what decrypting the protected blob gave, when the file
/// holds one; `None` when there is none or decryption failed.
pub open spec fn loaded_identity(file: Seq<u8>, decrypted: Option<Seq<u8>>) -> Option<(Seq<u8>, bool)> {
    let c = classify_spec(file);
    if c.0 {
        match decrypted {
            Some(p) => if p.len() == 32 {
                Some((p, file.len() == 32))
            } else {
                None
            },
            None => None,
        }
    } else if c.1 {
        Some((file, true))
    } else {
        None
    }
}

/// Decide what an identity file yields, given the decryption of its
/// protected blob (see [`classify_identity`]). `None` means the file is
/// unusable and a fresh identity must be made.
pub fn load_identity(file: &[u8], decrypted: Option<Vec<u8>>) -> (r: Option<(Vec<u8>, bool)>)
    ensures
        match loaded_identity(
            file@,
            match decrypted {
                Some(d) => Some(d@),
                None => None,
            },
        ) {
            Some((seed, rewrite)) => r matches Some(p) && p.0@ == seed && p.1 == rewrite,
            None => r is None,
        },
{
    match classify_identity(file) {
        IdentityBlob::Protected(_) => match decrypted {
            Some(plain) => match seed_from_plain(plain) {
                Some(seed) => Some((seed, file.len() == 32)),
                None => None,
            },
            None => None,
        },
        IdentityBlob::Plain(seed) => Some((seed, true)),
        IdentityBlob::Invalid => None,
    }
}

/// A device's identity is stable: a seed stored in either format is loaded
/// back as that seed, given that decrypting the stored blob gives back what
/// was encrypted, and a legacy plaintext key is kept and marked for
/// rewriting in the protected format. It fails for a plaintext key whose
/// first four bytes spell the protected prefix.
pub proof fn identity_stable_across_loads(seed: Seq<u8>, blob: Option<Seq<u8>>, decrypted: Option<Seq<u8>>)
    requires
        seed.len() == 32,
        blob matches Some(b) ==> b.len() >= 1 && decrypted == Some(seed),
        blob is None ==> seed.take(4) != identity_magic(),
    ensures
        loaded_identity(identity_payload_spec(seed, blob), decrypted) matches Some(p) && p.0 == seed,
        blob is None ==> loaded_identity(identity_payload_spec(seed, blob), decrypted) == Some((seed, true)),
{
    match blob {
        Some(b) => {
            identity_roundtrip(seed, b);
        },
        None => {
            identity_roundtrip(seed, seq![0u8]);
        },
    }
}

} // verus!
