//! Public VPN server lists.
//!
//! The implemented source is VPN Gate, whose API answers with a CSV payload: a
//! `*`-prefixed preamble, a `#`-prefixed header, data rows, and a trailing `*`
//! line. The structured fields used are the first eight columns (numeric or
//! short, never containing commas); the base64 OpenVPN config is always the
//! last column (base64 never contains commas either), so free-text columns in
//! between cannot misalign parsing.

use base64::Engine;
use vstd::prelude::*;
use vstd::utf8::{decode_utf8, encode_utf8, valid_utf8};
use crate::state::{PublicServer, ServerModel};
use crate::text::{
    cat2, cat4, chars_of, contains, owned, parse_u32, parse_u32_chars, parse_u64, parse_u64_chars,
    split, split_chars, str_contains, string_from_chars, trim, trim_chars, views,
};

verus! {

// ---------------------------------------------------------------------------
// Outside functions
// ---------------------------------------------------------------------------

/// What `base64::engine::general_purpose::STANDARD.decode` returns for the
/// given input: the decoded bytes, or `None` when it reports an error.
pub uninterp spec fn base64_standard_decode(input: Seq<u8>) -> Option<Seq<u8>>;

/// What `str::to_uppercase` returns (Unicode uppercase mapping).
pub uninterp spec fn unicode_upper(s: Seq<char>) -> Seq<char>;

/// Decodes `input` with the `base64` crate's standard engine
/// (`general_purpose::STANDARD.decode`); the result is the name
/// [`base64_standard_decode`] of the input, with an error reported as `None`.
#[verifier::external_body]
fn decode_base64_standard(input: &[u8]) -> (r: Option<Vec<u8>>)
    ensures
        match r {
            Some(v) => base64_standard_decode(input@) == Some(v@),
            None => base64_standard_decode(input@) is None,
        },
{
    base64::engine::general_purpose::STANDARD.decode(input).ok()
}

/// `String::from_utf8`: succeeds exactly on valid UTF-8, and then holds the
/// decoded characters.
#[verifier::external_body]
fn utf8_string(bytes: Vec<u8>) -> (r: Option<String>)
    ensures
        r is Some <==> valid_utf8(bytes@),
        r matches Some(s) ==> s@ == decode_utf8(bytes@),
{
    String::from_utf8(bytes).ok()
}

/// `str::to_uppercase`; the result is the name [`unicode_upper`] of the input.
#[verifier::external_body]
fn to_uppercase(s: &str) -> (r: String)
    ensures
        r@ == unicode_upper(s@),
{
    s.to_uppercase()
}

// ---------------------------------------------------------------------------
// Models
// ---------------------------------------------------------------------------

/// The structured fields of one VPN Gate data row.
#[derive(Debug)]
pub struct VpngateRow {
    pub hostname: String,
    pub ip: String,
    pub score: Option<u64>,
    pub ping_ms: Option<u32>,
    /// Measured throughput in bits per second.
    pub speed_bps: Option<u64>,
    pub country: String,
    pub country_code: String,
    pub sessions: Option<u32>,
    /// The OpenVPN config, base64-encoded.
    pub config_b64: String,
}

/// The model of a [`VpngateRow`].
pub struct RowModel {
    pub hostname: Seq<char>,
    pub ip: Seq<char>,
    pub score: Option<u64>,
    pub ping_ms: Option<u32>,
    pub speed_bps: Option<u64>,
    pub country: Seq<char>,
    pub country_code: Seq<char>,
    pub sessions: Option<u32>,
    pub config_b64: Seq<char>,
}

impl View for VpngateRow {
    type V = RowModel;

    open spec fn view(&self) -> RowModel {
        RowModel {
            hostname: self.hostname@,
            ip: self.ip@,
            score: self.score,
            ping_ms: self.ping_ms,
            speed_bps: self.speed_bps,
            country: self.country@,
            country_code: self.country_code@,
            sessions: self.sessions,
            config_b64: self.config_b64@,
        }
    }
}

/// A fetched server plus its decoded OpenVPN config text.
#[derive(Debug)]
pub struct FetchedServer {
    pub server: PublicServer,
    pub ovpn: String,
}

/// The model of a [`FetchedServer`].
pub struct FetchedModel {
    pub server: ServerModel,
    pub ovpn: Seq<char>,
}

impl View for FetchedServer {
    type V = FetchedModel;

    open spec fn view(&self) -> FetchedModel {
        FetchedModel { server: self.server@, ovpn: self.ovpn@ }
    }
}

/// The models of a list of fetched servers.
pub open spec fn fetched_views(v: Seq<FetchedServer>) -> Seq<FetchedModel> {
    v.map_values(|f: FetchedServer| f@)
}

// ---------------------------------------------------------------------------
// Specification
// ---------------------------------------------------------------------------

/// The row fields of one line, or `None` for a line that is skipped: blank,
/// a `*` or `#` line, fewer than fifteen columns, or an empty host, address,
/// country or config column.
pub open spec fn row_of_line(raw: Seq<char>) -> Option<RowModel> {
    let line = trim(raw);
    let cols = split(line, ',');
    if line.len() == 0 || line[0] == '*' || line[0] == '#' || cols.len() < 15 {
        None
    } else {
        let hostname = trim(cols[0]);
        let ip = trim(cols[1]);
        let country = trim(cols[5]);
        let b64 = trim(cols.last());
        if hostname.len() == 0 || ip.len() == 0 || country.len() == 0 || b64.len() == 0 {
            None
        } else {
            Some(
                RowModel {
                    hostname,
                    ip,
                    score: parse_u64(trim(cols[2])),
                    ping_ms: match parse_u32(trim(cols[3])) {
                        Some(p) => if p > 0 {
                            Some(p)
                        } else {
                            None
                        },
                        None => None,
                    },
                    speed_bps: parse_u64(trim(cols[4])),
                    country,
                    country_code: trim(cols[6]),
                    sessions: parse_u32(trim(cols[7])),
                    config_b64: b64,
                },
            )
        }
    }
}

/// Bits per second to tenths of a megabit per second, rounded half up; no
/// estimate for a zero or missing speed.
pub open spec fn speed_tenths(bps: Option<u64>) -> Option<u64> {
    match bps {
        Some(b) => if b > 0 {
            Some((b / 100000 + (if b % 100000 >= 50000 {
                1u64
            } else {
                0u64
            })) as u64)
        } else {
            None
        },
        None => None,
    }
}

/// The server entry built from a row, the uppercased country code, and the
/// decoded config bytes: the config must be valid UTF-8 naming a `remote `.
pub open spec fn server_of(row: RowModel, code_upper: Seq<char>, config: Option<Seq<u8>>) -> Option<
    FetchedModel,
> {
    match config {
        None => None,
        Some(bytes) => if !valid_utf8(bytes) || !contains(decode_utf8(bytes), "remote "@) {
            None
        } else {
            Some(
                FetchedModel {
                    server: ServerModel {
                        id: "vpngate:"@ + row.hostname + ":"@ + row.ip,
                        source: "vpngate"@,
                        country: row.country,
                        country_code: code_upper,
                        hostname: row.hostname,
                        ip: row.ip,
                        ping_ms: row.ping_ms,
                        speed_mbps_tenths: speed_tenths(row.speed_bps),
                        sessions: row.sessions,
                        score: row.score,
                    },
                    ovpn: decode_utf8(bytes),
                },
            )
        },
    }
}

/// The entry of one line, if it yields one.
pub open spec fn entry_of_line(raw: Seq<char>) -> Option<FetchedModel> {
    match row_of_line(raw) {
        Some(row) => server_of(
            row,
            unicode_upper(row.country_code),
            base64_standard_decode(encode_utf8(row.config_b64)),
        ),
        None => None,
    }
}

/// The entries of a list of lines, in order.
pub open spec fn entries_of_lines(lines: Seq<Seq<char>>) -> Seq<FetchedModel>
    decreases lines.len(),
{
    if lines.len() == 0 {
        Seq::<FetchedModel>::empty()
    } else {
        let prev = entries_of_lines(lines.drop_last());
        match entry_of_line(lines.last()) {
            Some(e) => prev.push(e),
            None => prev,
        }
    }
}

/// The servers listed in a VPN Gate response. Lines are split at `\n`; the
/// `\r` of a `\r\n` ending is whitespace and is trimmed with the rest.
pub open spec fn vpngate_entries(body: Seq<char>) -> Seq<FetchedModel> {
    entries_of_lines(split(body, '\n'))
}

/// An entry can be connected to and shown: its config names a `remote`, it
/// has a host, an address and a country, from which its id is made, and a
/// latency it reports is never 0 (a 0 reading means unknown).
pub open spec fn usable_entry(e: FetchedModel) -> bool {
    &&& contains(e.ovpn, "remote "@)
    &&& e.server.id == "vpngate:"@ + e.server.hostname + ":"@ + e.server.ip
    &&& e.server.source == "vpngate"@
    &&& e.server.hostname.len() > 0
    &&& e.server.ip.len() > 0
    &&& e.server.country.len() > 0
    &&& e.server.ping_ms != Some(0u32)
}

proof fn lemma_entries_usable(lines: Seq<Seq<char>>)
    ensures
        forall|i: int| 0 <= i < entries_of_lines(lines).len() ==> usable_entry(#[trigger] entries_of_lines(lines)[i]),
    decreases lines.len(),
{
    if lines.len() > 0 {
        lemma_entries_usable(lines.drop_last());
        let prev = entries_of_lines(lines.drop_last());
        assert forall|i: int| 0 <= i < entries_of_lines(lines).len() implies usable_entry(#[trigger] entries_of_lines(lines)[i]) by {
            if i < prev.len() {
                assert(entries_of_lines(lines)[i] == prev[i]);
            }
        }
    }
}

/// Every server read from a VPN Gate list carries a config that names a
/// remote endpoint, a host, an address and a country; its id is made of the
/// host and the address, and its latency, when known, is not 0.
pub proof fn parsed_servers_are_usable(body: Seq<char>)
    ensures
        forall|i: int| 0 <= i < vpngate_entries(body).len() ==> usable_entry(#[trigger] vpngate_entries(body)[i]),
{
    lemma_entries_usable(split(body, '\n'));
}

// ---------------------------------------------------------------------------
// Implementation
// ---------------------------------------------------------------------------

fn row_from_chars(raw: &[char]) -> (r: Option<VpngateRow>)
    ensures
        match row_of_line(raw@) {
            Some(m) => r matches Some(row) && row@ == m,
            None => r is None,
        },
{
    let line = trim_chars(raw);
    let cols = split_chars(line.as_slice(), ',');
    if line.len() == 0 || line[0] == '*' || line[0] == '#' || cols.len() < 15 {
        return None;
    }
    let ghost cv = split(trim(raw@), ',');
    assert(views(cols@) == cv);
    let n = cols.len();
    assert(cols@[0]@ == cv[0] && cols@[1]@ == cv[1] && cols@[2]@ == cv[2] && cols@[3]@ == cv[3]);
    assert(cols@[4]@ == cv[4] && cols@[5]@ == cv[5] && cols@[6]@ == cv[6] && cols@[7]@ == cv[7]);
    assert(cols@[n - 1]@ == cv.last());
    let hostname = trim_chars(cols[0].as_slice());
    let ip = trim_chars(cols[1].as_slice());
    let country = trim_chars(cols[5].as_slice());
    let b64 = trim_chars(cols[n - 1].as_slice());
    if hostname.len() == 0 || ip.len() == 0 || country.len() == 0 || b64.len() == 0 {
        return None;
    }
    let score = parse_u64_chars(trim_chars(cols[2].as_slice()).as_slice());
    let ping_ms = match parse_u32_chars(trim_chars(cols[3].as_slice()).as_slice()) {
        Some(p) => if p > 0 {
            Some(p)
        } else {
            None
        },
        None => None,
    };
    let speed_bps = parse_u64_chars(trim_chars(cols[4].as_slice()).as_slice());
    let code = trim_chars(cols[6].as_slice());
    let sessions = parse_u32_chars(trim_chars(cols[7].as_slice()).as_slice());
    Some(
        VpngateRow {
            hostname: string_from_chars(hostname.as_slice()),
            ip: string_from_chars(ip.as_slice()),
            score,
            ping_ms,
            speed_bps,
            country: string_from_chars(country.as_slice()),
            country_code: string_from_chars(code.as_slice()),
            sessions,
            config_b64: string_from_chars(b64.as_slice()),
        },
    )
}

/// The structured fields of one line of a VPN Gate response, or `None` when
/// the line is skipped.
pub fn split_vpngate_row(line: &str) -> (r: Option<VpngateRow>)
    ensures
        match row_of_line(line@) {
            Some(m) => r matches Some(row) && row@ == m,
            None => r is None,
        },
{
    let cs = chars_of(line);
    row_from_chars(cs.as_slice())
}

fn tenths_of(bps: Option<u64>) -> (r: Option<u64>)
    ensures
        r == speed_tenths(bps),
{
    match bps {
        Some(b) => if b > 0 {
            Some(b / 100000 + if b % 100000 >= 50000 {
                1
            } else {
                0
            })
        } else {
            None
        },
        None => None,
    }
}

/// Build the server entry of a row, given the row's country code in
/// uppercase and its config as decoded from base64 (`None` when decoding
/// failed).
pub fn assemble_vpngate_server(row: VpngateRow, code_upper: String, config: Option<Vec<u8>>) -> (r:
    Option<FetchedServer>)
    ensures
        match server_of(
            row@,
            code_upper@,
            match config {
                Some(c) => Some(c@),
                None => None,
            },
        ) {
            Some(m) => r matches Some(f) && f@ == m,
            None => r is None,
        },
{
    let bytes = match config {
        Some(b) => b,
        None => return None,
    };
    let text = match utf8_string(bytes) {
        Some(t) => t,
        None => return None,
    };
    let tc = chars_of(text.as_str());
    if !str_contains(tc.as_slice(), "remote ") {
        return None;
    }
    let hc = chars_of(row.hostname.as_str());
    let ic = chars_of(row.ip.as_str());
    let id = cat4("vpngate:", hc.as_slice(), ":", ic.as_slice());
    let speed = tenths_of(row.speed_bps);
    Some(
        FetchedServer {
            server: PublicServer {
                id,
                source: owned("vpngate"),
                country: row.country,
                country_code: code_upper,
                hostname: row.hostname,
                ip: row.ip,
                ping_ms: row.ping_ms,
                speed_mbps_tenths: speed,
                sessions: row.sessions,
                score: row.score,
            },
            ovpn: text,
        },
    )
}

fn entry_from_chars(raw: &[char]) -> (r: Option<FetchedServer>)
    ensures
        match entry_of_line(raw@) {
            Some(m) => r matches Some(f) && f@ == m,
            None => r is None,
        },
{
    let row = match row_from_chars(raw) {
        Some(row) => row,
        None => return None,
    };
    let upper = to_uppercase(row.country_code.as_str());
    let config = decode_base64_standard(row.config_b64.as_str().as_bytes());
    assemble_vpngate_server(row, upper, config)
}

/// Parse a VPN Gate CSV API response into servers, in the order of the rows.
pub fn parse_vpngate(body: &str) -> (out: Vec<FetchedServer>)
    ensures
        fetched_views(out@) == vpngate_entries(body@),
{
    let cs = chars_of(body);
    let lines = split_chars(cs.as_slice(), '\n');
    let ghost ls = split(body@, '\n');
    assert(views(lines@) == ls);
    let mut out: Vec<FetchedServer> = Vec::new();
    let n = lines.len();
    assert(ls.take(0) =~= Seq::<Seq<char>>::empty());
    for i in 0..n
        invariant
            n == lines@.len(),
            views(lines@) == ls,
            fetched_views(out@) == entries_of_lines(ls.take(i as int)),
    {
        let ghost prev = out@;
        assert(ls.take(i + 1).drop_last() == ls.take(i as int));
        assert(ls.take(i + 1).last() == lines@[i as int]@);
        match entry_from_chars(lines[i].as_slice()) {
            Some(f) => {
                out.push(f);
                assert(fetched_views(out@) =~= fetched_views(prev).push(out@.last()@));
            },
            None => {},
        }
    }
    assert(ls.take(n as int) == ls);
    out
}

/// The outcome of one server-list download: its servers, or the reason to
/// try the next source when it lists none.
pub fn servers_from_body(body: &str) -> (r: Result<Vec<FetchedServer>, String>)
    ensures
        vpngate_entries(body@).len() > 0 ==> (r matches Ok(v) && fetched_views(v@) == vpngate_entries(body@)),
        vpngate_entries(body@).len() == 0 ==> (r matches Err(m) && m@ == "server list was empty"@),
{
    let servers = parse_vpngate(body);
    if servers.len() > 0 {
        Ok(servers)
    } else {
        Err(owned("server list was empty"))
    }
}

/// The outcome of fetching every source: the merged servers, or a message
/// explaining why none could be loaded.
pub open spec fn collect_outcome(vpngate: Result<Seq<FetchedModel>, Seq<char>>) -> Result<
    Seq<FetchedModel>,
    Seq<char>,
> {
    match vpngate {
        Ok(v) => if v.len() > 0 {
            Ok(v)
        } else {
            Err("Could not load public servers. Please try again shortly."@)
        },
        Err(e) => Err("Could not load public servers. VPN Gate: "@ + e),
    }
}

/// Merge the results of every source (only VPN Gate is implemented). Fails
/// with a descriptive message when nothing could be loaded, so the UI can
/// explain why the list is empty.
pub fn collect_sources(vpngate: Result<Vec<FetchedServer>, String>) -> (r: Result<
    Vec<FetchedServer>,
    String,
>)
    ensures
        match collect_outcome(
            match vpngate {
                Ok(v) => Ok(fetched_views(v@)),
                Err(e) => Err(e@),
            },
        ) {
            Ok(v) => r matches Ok(w) && fetched_views(w@) == v,
            Err(m) => r matches Err(e) && e@ == m,
        },
{
    match vpngate {
        Ok(v) => if v.len() > 0 {
            Ok(v)
        } else {
            Err(owned("Could not load public servers. Please try again shortly."))
        },
        Err(e) => {
            let ec = chars_of(e.as_str());
            Err(cat2("Could not load public servers. VPN Gate: ", ec.as_slice()))
        },
    }
}

} // verus!
