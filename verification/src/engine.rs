//! The VPN engine's decisions: the connection state machine and what each
//! lifecycle event does to the published status, the choice of dial target,
//! the relay setting, live statistics, reconnect backoff, tunnel MTU, carrier
//! bypass routes, and ownership of the single client slot.
//!
//! The host application performs the work (endpoints, adapters, commands,
//! timers) and applies these functions to its state. Times are seconds on a
//! monotonic clock supplied by the caller.

use vstd::prelude::*;
use crate::error::VpnError;
use crate::state::{
    clone_opt, idle_snapshot, opt_view, some_text, ConnectConfig, ConnectModel, ConnectionState,
    SnapshotModel, Stats, StatusSnapshot, VpnRole, zero_stats,
};
use crate::text::{
    is_ws, lemma_split_append, lemma_split_free, lemma_trim_noop, chars_of, lit, owned, split, split_chars, starts_with, starts_with_chars, slice_chars,
    string_from_chars, string_views, trim, trim_chars,
};
use crate::net::{
    ip_ok, restore_smart_resolution, restore_smart_resolution_spec, plan_view, pwsh_view, remove_bypass_route, remove_full_tunnel_routes, remove_host_route_script,
    remove_ipv6_killswitch, remove_nat, remove_nat_script, remove_route_script, reset_dns,
    reset_dns_script, CommandView, ShellCommand,
};
use crate::transport::{hash_pass, pass_proof};

verus! {

/// Event channel for status snapshots.
pub const EVT_STATUS: &'static str = "vpn://status";
/// Event channel for live statistics.
pub const EVT_STATS: &'static str = "vpn://stats";
/// Event channel for the discovered-host list.
pub const EVT_DISCOVERED: &'static str = "vpn://discovered";
/// Event channel for log lines.
pub const EVT_LOG: &'static str = "vpn://log";

/// The tunnel adapter's name.
pub const VPN_IF: &'static str = "MyVPN";
/// The host's tunnel address.
pub const HOST_IP: &'static str = "10.66.0.1";
/// The client's tunnel address.
pub const CLIENT_IP: &'static str = "10.66.0.2";
/// The tunnel subnet.
pub const SUBNET: &'static str = "10.66.0.0/24";
/// The host NAT's name.
pub const NAT_NAME: &'static str = "MyVPN";
/// The tunnel subnet's prefix length.
pub const TUN_PREFIX: u8 = 24;
/// The tunnel MTU.
pub const TUN_MTU: u32 = 1280;
/// The resolver used inside the tunnel.
pub const TUN_DNS: &'static str = "1.1.1.1";

// ---------------------------------------------------------------------------
// Settings and targets
// ---------------------------------------------------------------------------

/// A relay URL setting after normalisation: trimmed, and absent when blank
/// (which keeps the default relays).
pub open spec fn normal_relay(url: Option<Seq<char>>) -> Option<Seq<char>> {
    match url {
        Some(u) => if trim(u).len() > 0 {
            Some(trim(u))
        } else {
            None
        },
        None => None,
    }
}

/// Normalise the self-hosted relay URL setting.
pub fn normalize_relay_url(url: Option<String>) -> (r: Option<String>)
    ensures
        opt_view(r) == normal_relay(opt_view(url)),
{
    match url {
        Some(u) => {
            let uc = chars_of(u.as_str());
            let t = trim_chars(uc.as_slice());
            if t.len() > 0 {
                Some(string_from_chars(t.as_slice()))
            } else {
                None
            }
        },
        None => None,
    }
}

/// The message asking for a pairing code.
pub open spec fn need_code_text() -> Seq<char> {
    "Enter the host's pairing code to connect. (Typing just a name + passphrase will be supported once DHT discovery lands.)"@
}

/// The dial target a ticket names: the ticket itself, or for the
/// `myvpn:<name>:<id>` form the part after the last colon.
pub open spec fn ticket_target(t: Seq<char>) -> Seq<char> {
    let tt = trim(t);
    if starts_with(tt, "myvpn:"@) {
        split(tt.skip(6), ':').last()
    } else {
        tt
    }
}

/// The dial target of a connect request: an explicit endpoint id first,
/// then a ticket; `None` when neither names one.
pub open spec fn target_of(cfg: ConnectModel) -> Option<Seq<char>> {
    if cfg.endpoint_id is Some && trim(cfg.endpoint_id->0).len() > 0 {
        Some(trim(cfg.endpoint_id->0))
    } else if cfg.ticket is Some && ticket_target(cfg.ticket->0).len() > 0 {
        Some(ticket_target(cfg.ticket->0))
    } else {
        None
    }
}

/// Resolve a connect request into a pairing code / endpoint id.
pub fn resolve_target(cfg: &ConnectConfig) -> (r: Result<String, VpnError>)
    ensures
        match target_of(cfg@) {
            Some(t) => r matches Ok(s) && s@ == t,
            None => r matches Err(e) && e is Message && e.text() == need_code_text(),
        },
{
    match &cfg.endpoint_id {
        Some(id) => {
            let ic = chars_of(id.as_str());
            let t = trim_chars(ic.as_slice());
            if t.len() > 0 {
                return Ok(string_from_chars(t.as_slice()));
            }
        },
        None => {},
    }
    match &cfg.ticket {
        Some(ticket) => {
            let tc = chars_of(ticket.as_str());
            let t = trim_chars(tc.as_slice());
            let prefix = lit("myvpn:");
            proof {
                reveal_strlit("myvpn:");
            }
            let id = if starts_with_chars(t.as_slice(), prefix.as_slice()) {
                let rest = slice_chars(t.as_slice(), 6, t.len());
                assert(rest@ == t@.skip(6));
                let pieces = split_chars(rest.as_slice(), ':');
                proof {
                    crate::text::lemma_split_nonempty(rest@, ':');
                }
                let k = pieces.len() - 1;
                assert(pieces@[k as int]@ == split(rest@, ':').last());
                slice_chars(pieces[k].as_slice(), 0, pieces[k].len())
            } else {
                t
            };
            assert(id@ =~= ticket_target(ticket@));
            if id.len() > 0 {
                return Ok(string_from_chars(id.as_slice()));
            }
        },
        None => {},
    }
    Err(VpnError::msg(
        "Enter the host's pairing code to connect. (Typing just a name + passphrase will be supported once DHT discovery lands.)",
    ))
}

/// A pairing code reaches the endpoint it names: the bare endpoint id that
/// a host shows, and the `myvpn:<name>:<id>` form, both resolve to the id
/// when the request names no endpoint of its own.
pub proof fn pairing_codes_resolve_to_their_endpoint(cfg: ConnectModel, name: Seq<char>, id: Seq<char>)
    requires
        id.len() > 0,
        !is_ws(id[0]),
        !is_ws(id.last()),
        forall|i: int| 0 <= i < id.len() ==> id[i] != ':',
        cfg.endpoint_id is None || trim(cfg.endpoint_id->0).len() == 0,
    ensures
        ticket_target(id) == id,
        ticket_target("myvpn:"@ + name + ":"@ + id) == id,
        cfg.ticket == Some(id) ==> target_of(cfg) == Some(id),
        cfg.ticket == Some("myvpn:"@ + name + ":"@ + id) ==> target_of(cfg) == Some(id),
{
    reveal_strlit("myvpn:");
    reveal_strlit(":");
    lemma_trim_noop(id);
    if starts_with(id, "myvpn:"@) {
        assert(id.subrange(0, 6)[5] == "myvpn:"@[5]);
        assert(id[5] == ':');
    }
    let t = "myvpn:"@ + name + ":"@ + id;
    assert(t[0] == 'm');
    assert(t.last() == id.last());
    lemma_trim_noop(t);
    assert(t.subrange(0, 6) =~= "myvpn:"@);
    assert(t.skip(6) =~= name + seq![':'] + id);
    lemma_split_append(name, id, ':');
    lemma_split_free(id, ':');
}

/// A non-empty optional text.
pub open spec fn nonempty(o: Option<Seq<char>>) -> Option<Seq<char>> {
    match o {
        Some(t) => if t.len() > 0 {
            Some(t)
        } else {
            None
        },
        None => None,
    }
}

/// The passphrase proof a session presents: a remembered proof when there
/// is one, otherwise the proof of a non-empty passphrase.
pub open spec fn session_proof_spec(proof: Option<Seq<char>>, passphrase: Option<Seq<char>>) -> Option<Seq<char>> {
    match nonempty(proof) {
        Some(p) => Some(p),
        None => match nonempty(passphrase) {
            Some(pp) => Some(pass_proof(pp)),
            None => None,
        },
    }
}

/// The proof of a passphrase, when one was given.
pub fn passphrase_proof(passphrase: &Option<String>) -> (r: Option<String>)
    ensures
        opt_view(r) == match nonempty(opt_view(*passphrase)) {
            Some(pp) => Some(pass_proof(pp)),
            None => None,
        },
{
    match passphrase {
        Some(p) => if p.as_str().is_empty() {
            None
        } else {
            Some(hash_pass(p.as_str()))
        },
        None => None,
    }
}

/// The passphrase proof to present for a connect request.
pub fn session_proof(cfg: &ConnectConfig) -> (r: Option<String>)
    ensures
        opt_view(r) == session_proof_spec(cfg@.proof, cfg@.passphrase),
{
    let remembered = match &cfg.proof {
        Some(p) => !p.as_str().is_empty(),
        None => false,
    };
    if remembered {
        clone_opt(&cfg.proof)
    } else {
        passphrase_proof(&cfg.passphrase)
    }
}

/// The pairing ticket of the hosted network: its endpoint id.
pub fn generate_ticket(snapshot: &StatusSnapshot) -> (r: Result<String, VpnError>)
    ensures
        match snapshot@.endpoint_id {
            Some(id) => r matches Ok(s) && s@ == id,
            None => r matches Err(e) && e is Message && e.text() == "Not currently hosting"@,
        },
{
    match &snapshot.endpoint_id {
        Some(id) => Ok(id.clone()),
        None => Err(VpnError::msg("Not currently hosting")),
    }
}

// ---------------------------------------------------------------------------
// Status transitions
// ---------------------------------------------------------------------------

/// The message while hosting without the data plane.
pub open spec fn control_plane_host_text() -> Seq<char> {
    "Hosting (control-plane only — run MyVPN as Administrator to route traffic)"@
}

/// The status right after hosting starts.
pub open spec fn hosting_spec(name: Seq<char>, endpoint_id: Seq<char>, data_plane: bool) -> SnapshotModel {
    SnapshotModel {
        state: ConnectionState::Hosting,
        role: VpnRole::Host,
        network_name: Some(name),
        endpoint_id: Some(endpoint_id),
        virtual_ip: Some("10.66.0.1"@),
        message: Some(
            if data_plane {
                "Hosting — waiting for peers to connect"@
            } else {
                control_plane_host_text()
            },
        ),
        ..idle_snapshot(None)
    }
}

/// The status right after hosting starts on `endpoint_id`; `data_plane`
/// tells whether the tunnel adapter and NAT came up.
pub fn hosting_snapshot(name: &str, endpoint_id: &str, data_plane: bool) -> (s: StatusSnapshot)
    ensures
        s@ == hosting_spec(name@, endpoint_id@, data_plane),
{
    let mut s = StatusSnapshot::idle(None);
    s.state = ConnectionState::Hosting;
    s.role = VpnRole::Host;
    s.network_name = some_text(name);
    s.endpoint_id = some_text(endpoint_id);
    s.virtual_ip = some_text("10.66.0.1");
    s.message = if data_plane {
        some_text("Hosting — waiting for peers to connect")
    } else {
        some_text("Hosting (control-plane only — run MyVPN as Administrator to route traffic)")
    };
    s
}

/// The message once the host is published and reachable.
pub open spec fn online_text(data_plane: bool) -> Seq<char> {
    if data_plane {
        "Hosting — online and reachable"@
    } else {
        control_plane_host_text()
    }
}

/// The host became reachable (or a peer left): while still hosting, show the
/// host's standing message; otherwise change nothing.
pub fn mark_online(s: &mut StatusSnapshot, data_plane: bool)
    ensures
        old(s).state == ConnectionState::Hosting ==> final(s)@ == (SnapshotModel {
            message: Some(online_text(data_plane)),
            ..old(s)@
        }),
        old(s).state != ConnectionState::Hosting ==> final(s)@ == old(s)@,
{
    if s.state == ConnectionState::Hosting {
        s.message = if data_plane {
            some_text("Hosting — online and reachable")
        } else {
            some_text("Hosting (control-plane only — run MyVPN as Administrator to route traffic)")
        };
    }
}

/// A peer connected to the hosted network.
pub fn mark_peer_connected(s: &mut StatusSnapshot)
    ensures
        final(s)@ == (SnapshotModel { message: Some("Peer connected"@), ..old(s)@ }),
{
    s.message = some_text("Peer connected");
}

/// The status while dialing a host.
pub open spec fn connecting_spec(name: Seq<char>) -> SnapshotModel {
    SnapshotModel {
        state: ConnectionState::Connecting,
        role: VpnRole::Client,
        network_name: Some(name),
        message: Some("Establishing encrypted tunnel…"@),
        ..idle_snapshot(None)
    }
}

/// The status while dialing a host of network `name`.
pub fn connecting_snapshot(name: &str) -> (s: StatusSnapshot)
    ensures
        s@ == connecting_spec(name@),
{
    let mut s = StatusSnapshot::idle(None);
    s.state = ConnectionState::Connecting;
    s.role = VpnRole::Client;
    s.network_name = some_text(name);
    s.message = some_text("Establishing encrypted tunnel…");
    s
}

/// The message when connected without the data plane.
pub open spec fn control_plane_client_text() -> Seq<char> {
    "Connected (control-plane only — run MyVPN as Administrator to route traffic)"@
}

/// The status once connected to `target`.
pub open spec fn connected_spec(m: SnapshotModel, target: Seq<char>, welcome: Seq<char>, tunnel_up: bool) -> SnapshotModel {
    SnapshotModel {
        state: ConnectionState::Connected,
        peer_endpoint_id: Some(target),
        virtual_ip: Some("10.66.0.2"@),
        public_ip: Some("routed via host"@),
        message: Some(
            if tunnel_up {
                welcome
            } else {
                control_plane_client_text()
            },
        ),
        ..m
    }
}

/// The handshake with `target` succeeded with the host's `welcome`;
/// `tunnel_up` tells whether the client tunnel came up.
pub fn mark_connected(s: &mut StatusSnapshot, target: &str, welcome: String, tunnel_up: bool)
    ensures
        final(s)@ == connected_spec(old(s)@, target@, welcome@, tunnel_up),
{
    s.state = ConnectionState::Connected;
    s.peer_endpoint_id = some_text(target);
    s.virtual_ip = some_text("10.66.0.2");
    s.public_ip = some_text("routed via host");
    s.message = if tunnel_up {
        Some(welcome)
    } else {
        some_text("Connected (control-plane only — run MyVPN as Administrator to route traffic)")
    };
}

/// Whether the connection supervisor keeps going after a connection ends:
/// only while the session is connected or reconnecting (a user disconnect
/// moves the engine on).
pub fn keep_supervising(state: ConnectionState) -> (b: bool)
    ensures
        b == (state == ConnectionState::Connected || state == ConnectionState::Reconnecting),
{
    match state {
        ConnectionState::Connected | ConnectionState::Reconnecting => true,
        _ => false,
    }
}

/// The status while transparently reconnecting.
pub open spec fn reconnecting_spec(m: SnapshotModel) -> SnapshotModel {
    SnapshotModel {
        state: ConnectionState::Reconnecting,
        stats: Stats { direct: false, ..m.stats },
        message: Some("Connection lost — reconnecting…"@),
        ..m
    }
}

/// The connection dropped unexpectedly: reconnect while the kill-switch
/// routes stay in place.
pub fn mark_reconnecting(s: &mut StatusSnapshot)
    ensures
        final(s)@ == reconnecting_spec(old(s)@),
{
    s.state = ConnectionState::Reconnecting;
    s.stats.direct = false;
    s.message = some_text("Connection lost — reconnecting…");
}

/// The status after a successful reconnect.
pub open spec fn reconnected_spec(m: SnapshotModel) -> SnapshotModel {
    SnapshotModel { state: ConnectionState::Connected, message: Some("Reconnected"@), ..m }
}

/// A reconnect succeeded.
pub fn mark_reconnected(s: &mut StatusSnapshot)
    ensures
        final(s)@ == reconnected_spec(old(s)@),
{
    s.state = ConnectionState::Connected;
    s.message = some_text("Reconnected");
}

/// A drop followed by a successful reconnect leaves the session connected
/// to the same network, peer and tunnel address.
pub proof fn reconnect_keeps_session(m: SnapshotModel)
    ensures
        reconnected_spec(reconnecting_spec(m)).state == ConnectionState::Connected,
        reconnected_spec(reconnecting_spec(m)).network_name == m.network_name,
        reconnected_spec(reconnecting_spec(m)).peer_endpoint_id == m.peer_endpoint_id,
        reconnected_spec(reconnecting_spec(m)).virtual_ip == m.virtual_ip,
        reconnected_spec(reconnecting_spec(m)).role == m.role,
{
}

/// The status after hosting stops.
pub fn stopped_snapshot() -> (s: StatusSnapshot)
    ensures
        s@ == idle_snapshot(Some("Stopped hosting"@)),
{
    StatusSnapshot::idle(some_text("Stopped hosting"))
}

/// The status after disconnecting from a host.
pub fn disconnected_snapshot() -> (s: StatusSnapshot)
    ensures
        s@ == idle_snapshot(Some("Disconnected"@)),
{
    StatusSnapshot::idle(some_text("Disconnected"))
}

// ---------------------------------------------------------------------------
// Statistics
// ---------------------------------------------------------------------------

/// `a - b`, or 0 when `b` exceeds `a`.
pub open spec fn sat_sub(a: u64, b: u64) -> u64 {
    if a >= b {
        (a - b) as u64
    } else {
        0
    }
}

/// The statistics published by one tick of the once-per-second ticker.
/// `path_direct` tells whether the peer link currently runs over a direct
/// (hole-punched) path rather than a relay; the link counts as direct only
/// while a session is active.
pub open spec fn tick_spec(m: SnapshotModel, started_at: Option<u64>, now: u64, up: u64, down: u64, last_up: u64, last_down: u64, path_direct: bool) -> Stats {
    Stats {
        connected_secs: match started_at {
            Some(t) => sat_sub(now, t),
            None => 0,
        },
        bytes_up: up,
        bytes_down: down,
        rate_up: sat_sub(up, last_up),
        rate_down: sat_sub(down, last_down),
        direct: (m.state == ConnectionState::Connected || m.state == ConnectionState::Hosting) && path_direct,
        ..m.stats
    }
}

/// Update the live statistics from the byte counters: totals, per-second
/// rates since the previous tick, the session duration, and whether the
/// peer link is direct or relayed.
pub fn tick_stats(s: &mut StatusSnapshot, started_at: Option<u64>, now: u64, up: u64, down: u64, last_up: u64, last_down: u64, path_direct: bool) -> (st: Stats)
    ensures
        st == tick_spec(old(s)@, started_at, now, up, down, last_up, last_down, path_direct),
        final(s)@ == (SnapshotModel { stats: st, ..old(s)@ }),
{
    let active = match s.state {
        ConnectionState::Connected | ConnectionState::Hosting => true,
        _ => false,
    };
    s.stats.connected_secs = match started_at {
        Some(t) => if now >= t {
            now - t
        } else {
            0
        },
        None => 0,
    };
    s.stats.bytes_up = up;
    s.stats.bytes_down = down;
    s.stats.rate_up = if up >= last_up {
        up - last_up
    } else {
        0
    };
    s.stats.rate_down = if down >= last_down {
        down - last_down
    } else {
        0
    };
    s.stats.direct = active && path_direct;
    s.stats
}

/// Each tick publishes the counters themselves as totals, and as rates the
/// bytes moved since the previous tick: the difference of the counters, or
/// 0 when a counter went back (a new session). The duration is the seconds
/// since the session started (0 before it starts or when the clock went
/// back), the link is direct only on a direct path of an active session, and
/// the measured latency is kept.
pub proof fn tick_rates_are_counter_differences(m: SnapshotModel, started_at: Option<u64>, now: u64, up: u64, down: u64, last_up: u64, last_down: u64, path_direct: bool)
    ensures
        ({
            let st = tick_spec(m, started_at, now, up, down, last_up, last_down, path_direct);
            &&& st.bytes_up == up
            &&& st.bytes_down == down
            &&& down >= last_down ==> st.rate_down + last_down == down
            &&& down < last_down ==> st.rate_down == 0
            &&& up >= last_up ==> st.rate_up + last_up == up
            &&& up < last_up ==> st.rate_up == 0
            &&& st.rate_down <= down
            &&& st.rate_up <= up
            &&& started_at is None ==> st.connected_secs == 0
            &&& forall|t: u64| started_at == Some(t) && now >= t ==> st.connected_secs + t == now
            &&& forall|t: u64| started_at == Some(t) && now < t ==> st.connected_secs == 0
            &&& st.direct == (path_direct && (m.state == ConnectionState::Connected || m.state == ConnectionState::Hosting))
            &&& st.latency_ms == m.stats.latency_ms
        }),
{
}

// ---------------------------------------------------------------------------
// Reconnect backoff
// ---------------------------------------------------------------------------

/// The longest wait between reconnect attempts, in milliseconds.
pub const MAX_BACKOFF_MS: u64 = 15000;

/// The first wait before a reconnect attempt, in milliseconds.
pub const FIRST_BACKOFF_MS: u64 = 1000;

/// The next wait: double the previous one, capped.
pub open spec fn next_backoff_spec(delay: u64) -> u64 {
    if delay as int * 2 < MAX_BACKOFF_MS as int {
        (delay * 2) as u64
    } else {
        MAX_BACKOFF_MS
    }
}

/// The wait before the next reconnect attempt.
pub fn next_backoff(delay_ms: u64) -> (d: u64)
    ensures
        d == next_backoff_spec(delay_ms),
{
    if delay_ms < MAX_BACKOFF_MS / 2 + 1 && delay_ms * 2 < MAX_BACKOFF_MS {
        delay_ms * 2
    } else {
        MAX_BACKOFF_MS
    }
}

/// From any wait within the cap, the next wait never shrinks and never
/// exceeds the cap.
pub proof fn backoff_is_capped_and_monotone(delay: u64)
    requires
        delay <= MAX_BACKOFF_MS,
    ensures
        delay <= next_backoff_spec(delay) <= MAX_BACKOFF_MS,
{
}

// ---------------------------------------------------------------------------
// Tunnel set-up decisions
// ---------------------------------------------------------------------------

/// The tunnel MTU to set for a maximum datagram size, when it must drop
/// below the default: the size (as a 32-bit value) if that is smaller.
pub open spec fn clamped_mtu_spec(max_datagram: Option<usize>) -> Option<u32> {
    match max_datagram {
        Some(m) => if ((m as nat) % 4294967296) < TUN_MTU as nat {
            Some(((m as nat) % 4294967296) as u32)
        } else {
            None
        },
        None => None,
    }
}

/// Clamp the tunnel MTU so no IP packet exceeds the QUIC datagram size;
/// `None` keeps the default MTU.
pub fn clamped_mtu(max_datagram: Option<usize>) -> (r: Option<u32>)
    ensures
        r == clamped_mtu_spec(max_datagram),
{
    match max_datagram {
        Some(m) => {
            let v: u32 = (m as u64 % 4294967296) as u32;
            if v < TUN_MTU {
                Some(v)
            } else {
                None
            }
        },
        None => None,
    }
}

/// The MTU in effect after the clamp (the clamped value, or the default when
/// none is set) is the smaller of the datagram size (as a 32-bit value) and
/// the default: a datagram size below the default always lowers the MTU to
/// exactly that size, and a clamp never raises it. Without a known datagram
/// size the default stays.
pub proof fn clamp_follows_datagram_size(m: usize)
    ensures
        m < TUN_MTU ==> clamped_mtu_spec(Some(m)) == Some(m as u32),
        ({
            let eff: int = match clamped_mtu_spec(Some(m)) {
                Some(v) => v as int,
                None => TUN_MTU as int,
            };
            let size: int = (m as int) % 4294967296;
            &&& size < TUN_MTU ==> eff == size
            &&& size >= TUN_MTU ==> eff == TUN_MTU
            &&& eff <= TUN_MTU
            &&& eff <= size
        }),
        clamped_mtu_spec(Some(m)) matches Some(v) ==> v < TUN_MTU,
        clamped_mtu_spec(None) is None,
{
}

/// The carrier addresses that still need a bypass route, in order.
pub open spec fn new_bypass_spec(known: Seq<Seq<char>>, seen: Seq<Seq<char>>) -> Seq<Seq<char>>
    decreases seen.len(),
{
    if seen.len() == 0 {
        seen
    } else if known.contains(seen.last()) {
        new_bypass_spec(known, seen.drop_last())
    } else {
        new_bypass_spec(known, seen.drop_last()).push(seen.last())
    }
}

fn contains_string(v: &Vec<String>, s: &String) -> (b: bool)
    ensures
        b == string_views(v@).contains(s@),
{
    let n = v.len();
    for i in 0..n
        invariant
            n == v@.len(),
            forall|j: int| 0 <= j < i ==> string_views(v@)[j] != s@,
    {
        if v[i] == *s {
            assert(string_views(v@)[i as int] == s@);
            return true;
        }
    }
    false
}

/// The carrier addresses currently in use that have no bypass route yet.
pub fn new_bypass_ips(known: &Vec<String>, seen: &Vec<String>) -> (r: Vec<String>)
    ensures
        string_views(r@) == new_bypass_spec(string_views(known@), string_views(seen@)),
{
    let ghost k = string_views(known@);
    let ghost sv = string_views(seen@);
    let n = seen.len();
    let mut out: Vec<String> = Vec::new();
    assert(sv.take(0) =~= Seq::<Seq<char>>::empty());
    for i in 0..n
        invariant
            n == seen@.len(),
            k == string_views(known@),
            sv == string_views(seen@),
            string_views(out@) == new_bypass_spec(k, sv.take(i as int)),
    {
        assert(sv.take(i + 1).drop_last() == sv.take(i as int));
        assert(sv.take(i + 1).last() == seen@[i as int]@);
        if !contains_string(known, &seen[i]) {
            let ghost before = out@;
            out.push(seen[i].clone());
            assert(string_views(out@) =~= string_views(before).push(seen@[i as int]@));
        }
    }
    assert(sv.take(n as int) == sv);
    out
}

// ---------------------------------------------------------------------------
// Teardown
// ---------------------------------------------------------------------------

/// The recorded carrier addresses that are IP literals, in order; any other
/// value is refused by `remove_bypass_route`, so it never reaches a shell.
pub open spec fn ok_ips(ips: Seq<Seq<char>>) -> Seq<Seq<char>>
    decreases ips.len(),
{
    if ips.len() == 0 {
        ips
    } else if ip_ok(ips.last()) {
        ok_ips(ips.drop_last()).push(ips.last())
    } else {
        ok_ips(ips.drop_last())
    }
}

/// The command that removes the bypass route of one address.
pub open spec fn bypass_removal(ip: Seq<char>) -> CommandView {
    pwsh_view(remove_host_route_script(ip), false)
}

/// The commands that remove carrier bypass routes, in order.
pub open spec fn bypass_removals(ips: Seq<Seq<char>>) -> Seq<CommandView> {
    ok_ips(ips).map_values(|x: Seq<char>| bypass_removal(x))
}

/// The networking changes reverted when a session ends: the full-tunnel
/// routes, the IPv6 kill-switch and the tunnel DNS on the tunnel adapter,
/// then every carrier bypass route, then the host NAT if one was created,
/// then the DNS client policy if it was changed (`smart_prior` holds the
/// policy value captured before the change).
pub open spec fn teardown_spec(bypass: Seq<Seq<char>>, nat_name: Option<Seq<char>>, smart_prior: Option<Option<u32>>) -> Seq<CommandView> {
    seq![
        pwsh_view(remove_route_script("0.0.0.0/1"@, "MyVPN"@), false),
        pwsh_view(remove_route_script("128.0.0.0/1"@, "MyVPN"@), false),
        pwsh_view(remove_route_script("::/1"@, "MyVPN"@), false),
        pwsh_view(remove_route_script("8000::/1"@, "MyVPN"@), false),
        pwsh_view(reset_dns_script("MyVPN"@), false),
    ] + bypass_removals(bypass) + match nat_name {
        Some(n) => seq![pwsh_view(remove_nat_script(n), false)],
        None => Seq::<CommandView>::empty(),
    } + match smart_prior {
        Some(p) => restore_smart_resolution_spec(p),
        None => Seq::<CommandView>::empty(),
    }
}

fn append_plan(plan: &mut Vec<ShellCommand>, more: Vec<ShellCommand>)
    ensures
        plan_view(final(plan)@) == plan_view(old(plan)@) + plan_view(more@),
{
    let mut m = more;
    let ghost a = plan@;
    let ghost b = m@;
    plan.append(&mut m);
    assert(plan_view(plan@) =~= plan_view(a) + plan_view(b));
}

/// The plan that reverts a session's networking changes; each step is a
/// no-op when the change was never applied.
pub fn teardown_plan(bypass: &Vec<String>, nat_name: &Option<String>, smart_prior: Option<Option<u32>>) -> (r: Vec<ShellCommand>)
    ensures
        plan_view(r@) == teardown_spec(string_views(bypass@), opt_view(*nat_name), smart_prior),
{
    let mut plan = remove_full_tunnel_routes("MyVPN");
    append_plan(&mut plan, remove_ipv6_killswitch("MyVPN"));
    append_plan(&mut plan, reset_dns("MyVPN"));
    let ghost head = plan_view(plan@);
    let ghost ips = string_views(bypass@);
    assert(head =~= seq![
        pwsh_view(remove_route_script("0.0.0.0/1"@, "MyVPN"@), false),
        pwsh_view(remove_route_script("128.0.0.0/1"@, "MyVPN"@), false),
        pwsh_view(remove_route_script("::/1"@, "MyVPN"@), false),
        pwsh_view(remove_route_script("8000::/1"@, "MyVPN"@), false),
        pwsh_view(reset_dns_script("MyVPN"@), false),
    ]);
    let n = bypass.len();
    assert(ips.take(0) =~= Seq::<Seq<char>>::empty());
    assert(bypass_removals(ips.take(0)) =~= Seq::<CommandView>::empty());
    assert(head + bypass_removals(ips.take(0)) =~= head);
    for i in 0..n
        invariant
            n == bypass@.len(),
            ips == string_views(bypass@),
            plan_view(plan@) == head + bypass_removals(ips.take(i as int)),
    {
        assert(ips.take(i + 1).drop_last() == ips.take(i as int));
        assert(ips.take(i + 1).last() == bypass@[i as int]@);
        match remove_bypass_route(bypass[i].as_str()) {
            Ok(step) => {
                assert(seq![bypass@[i as int]@][0] == bypass@[i as int]@);
                assert(ip_ok(bypass@[i as int]@));
                append_plan(&mut plan, step);
                assert(bypass_removals(ips.take(i + 1)) =~= bypass_removals(ips.take(i as int)).push(
                    bypass_removal(bypass@[i as int]@),
                ));
                assert(plan_view(plan@) =~= head + bypass_removals(ips.take(i + 1)));
            },
            Err(_) => {
                assert(seq![bypass@[i as int]@][0] == bypass@[i as int]@);
                assert(!ip_ok(bypass@[i as int]@));
                assert(bypass_removals(ips.take(i + 1)) =~= bypass_removals(ips.take(i as int)));
                assert(plan_view(plan@) =~= head + bypass_removals(ips.take(i + 1)));
            },
        }
    }
    assert(ips.take(n as int) == ips);
    match nat_name {
        Some(name) => append_plan(&mut plan, remove_nat(name.as_str())),
        None => {
            assert(plan_view(plan@) + Seq::<CommandView>::empty() =~= plan_view(plan@));
        },
    }
    match smart_prior {
        Some(p) => append_plan(&mut plan, restore_smart_resolution(p)),
        None => {
            assert(plan_view(plan@) + Seq::<CommandView>::empty() =~= plan_view(plan@));
        },
    }
    plan
}

proof fn lemma_ok_ips(ips: Seq<Seq<char>>)
    ensures
        forall|i: int| 0 <= i < ok_ips(ips).len() ==> ip_ok(#[trigger] ok_ips(ips)[i]) && ips.contains(ok_ips(ips)[i]),
        forall|k: int| 0 <= k < ips.len() && ip_ok(ips[k]) ==> ok_ips(ips).contains(#[trigger] ips[k]),
    decreases ips.len(),
{
    if ips.len() > 0 {
        let p = ips.drop_last();
        lemma_ok_ips(p);
        let op = ok_ips(p);
        let o = ok_ips(ips);
        assert forall|i: int| 0 <= i < o.len() implies ip_ok(#[trigger] o[i]) && ips.contains(o[i]) by {
            if i < op.len() {
                assert(o[i] == op[i]);
                let k = choose|k: int| 0 <= k < p.len() && p[k] == op[i];
                assert(ips[k] == p[k]);
            } else {
                assert(o[i] == ips.last());
                assert(ips[ips.len() - 1] == ips.last());
            }
        }
        assert forall|k: int| 0 <= k < ips.len() && ip_ok(ips[k]) implies o.contains(#[trigger] ips[k]) by {
            if k < ips.len() - 1 {
                assert(p[k] == ips[k]);
                let j = choose|j: int| 0 <= j < op.len() && op[j] == p[k];
                assert(o[j] == op[j]);
            } else {
                assert(ips[k] == ips.last());
                assert(o[o.len() - 1] == ips.last());
            }
        }
    }
}

/// Tearing down never stops half-way (every step is best effort). The
/// bypass routes it removes are exactly those recorded that are IP
/// literals (bypass routes are only ever added for IP literals, and no other
/// value reaches a shell), in order; it removes the NAT, and puts the DNS
/// client policy back as it was captured.
pub proof fn teardown_reverts_everything(bypass: Seq<Seq<char>>, nat_name: Option<Seq<char>>, smart_prior: Option<Option<u32>>)
    ensures
        forall|i: int| 0 <= i < teardown_spec(bypass, nat_name, smart_prior).len() ==> !(#[trigger] teardown_spec(bypass, nat_name, smart_prior)[i]).required,
        forall|k: int| 0 <= k < bypass.len() && ip_ok(bypass[k]) ==> teardown_spec(bypass, nat_name, smart_prior).contains(
            bypass_removal(#[trigger] bypass[k]),
        ),
        forall|i: int| 0 <= i < ok_ips(bypass).len() ==> ip_ok(#[trigger] ok_ips(bypass)[i]) && bypass.contains(ok_ips(bypass)[i]),
        teardown_spec(bypass, nat_name, smart_prior).subrange(5, 5 + ok_ips(bypass).len() as int) == ok_ips(bypass).map_values(
            |x: Seq<char>| bypass_removal(x),
        ),
        nat_name matches Some(n) ==> teardown_spec(bypass, nat_name, smart_prior).contains(pwsh_view(remove_nat_script(n), false)),
        smart_prior matches Some(p) ==> teardown_spec(bypass, nat_name, smart_prior).last()
            == restore_smart_resolution_spec(p)[0],
{
    lemma_ok_ips(bypass);
    let t = teardown_spec(bypass, nat_name, smart_prior);
    let b = bypass_removals(bypass);
    let nseq = match nat_name {
        Some(n) => seq![pwsh_view(remove_nat_script(n), false)],
        None => Seq::<CommandView>::empty(),
    };
    let pseq = match smart_prior {
        Some(p) => restore_smart_resolution_spec(p),
        None => Seq::<CommandView>::empty(),
    };
    assert forall|i: int| 0 <= i < t.len() implies !(#[trigger] t[i]).required by {
        if 5 <= i < 5 + b.len() {
            assert(t[i] == b[i - 5]);
        } else if 5 + b.len() <= i < 5 + b.len() + nseq.len() {
            assert(t[i] == nseq[i - 5 - b.len()]);
        } else if i >= 5 + b.len() + nseq.len() {
            assert(t[i] == pseq[i - 5 - b.len() - nseq.len()]);
        }
    }
    assert forall|k: int| 0 <= k < bypass.len() && ip_ok(bypass[k]) implies t.contains(
        bypass_removal(#[trigger] bypass[k]),
    ) by {
        let j = choose|j: int| 0 <= j < ok_ips(bypass).len() && ok_ips(bypass)[j] == bypass[k];
        assert(b[j] == bypass_removal(bypass[k]));
        assert(t[5 + j] == b[j]);
    }
    assert(t.subrange(5, 5 + ok_ips(bypass).len() as int) =~= b);
    if nat_name is Some {
        assert(t[5 + b.len() as int] == pwsh_view(remove_nat_script(nat_name->0), false));
    }
}

// ---------------------------------------------------------------------------
// The single client slot
// ---------------------------------------------------------------------------

/// Which connection generation currently owns the host's single client
/// slot (one client at a time, since every client uses the same tunnel
/// address).
#[derive(Debug)]
pub struct SlotOwner {
    pub current: Option<u64>,
}

impl SlotOwner {
    /// A free slot.
    pub fn new() -> (s: SlotOwner)
        ensures
            s.current is None,
    {
        SlotOwner { current: None }
    }

    /// A newly authenticated connection takes over the slot (evicting any
    /// previous one, usually the same device reconnecting).
    pub fn claim(&mut self, generation: u64)
        ensures
            final(self).current == Some(generation),
    {
        self.current = Some(generation);
    }

    /// A connection that ended releases the slot only if it still owns it.
    /// Returns whether the slot was freed.
    pub fn release(&mut self, generation: u64) -> (freed: bool)
        ensures
            freed == (old(self).current == Some(generation)),
            final(self).current == released(old(self).current, generation),
    {
        if self.current == Some(generation) {
            self.current = None;
            true
        } else {
            false
        }
    }

    /// Free the slot unconditionally (teardown).
    pub fn clear(&mut self)
        ensures
            final(self).current is None,
    {
        self.current = None;
    }
}

/// The slot's owner after the connection of `generation` ends.
pub open spec fn released(current: Option<u64>, generation: u64) -> Option<u64> {
    if current == Some(generation) {
        None
    } else {
        current
    }
}

/// When a newer connection has taken the slot, the end of an older one
/// never frees it; the end of the owner itself does.
pub proof fn stale_release_keeps_newer_owner(old_gen: u64, new_gen: u64)
    requires
        old_gen != new_gen,
    ensures
        released(Some(new_gen), old_gen) == Some(new_gen),
        released(Some(new_gen), new_gen) is None,
{
}

} // verus!
