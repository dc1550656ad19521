//! State shared between the engine and the user interface, with the
//! mathematical model of each type.

use vstd::prelude::*;
use crate::text::owned;

verus! {

/// The model of an optional string.
pub open spec fn opt_view(o: Option<String>) -> Option<Seq<char>> {
    match o {
        Some(s) => Some(s@),
        None => None,
    }
}

/// A copy of an optional string.
pub fn clone_opt(o: &Option<String>) -> (r: Option<String>)
    ensures
        opt_view(r) == opt_view(*o),
{
    match o {
        Some(s) => Some(s.clone()),
        None => None,
    }
}

/// An optional string holding the characters of `s`.
pub fn some_text(s: &str) -> (r: Option<String>)
    ensures
        opt_view(r) == Some(s@),
{
    Some(owned(s))
}

/// Which role this device is currently playing.
#[derive(Debug, Clone, Copy, PartialEq, Eq, Structural)]
pub enum VpnRole {
    Idle,
    Host,
    Client,
}

/// The high-level connection state, surfaced to the UI as a state machine.
#[derive(Debug, Clone, Copy, PartialEq, Eq, Structural)]
pub enum ConnectionState {
    Idle,
    Hosting,
    Discovering,
    Connecting,
    Connected,
    Reconnecting,
    Error,
}

/// Live throughput / link statistics.
#[derive(Debug, Clone, Copy, PartialEq, Eq, Structural)]
pub struct Stats {
    pub bytes_up: u64,
    pub bytes_down: u64,
    /// Instantaneous rate in bytes/second.
    pub rate_up: u64,
    pub rate_down: u64,
    pub latency_ms: Option<u32>,
    /// `true` when the peer link is a direct hole-punched connection,
    /// `false` when traffic is relayed.
    pub direct: bool,
    pub connected_secs: u64,
}

/// The all-zero statistics.
pub open spec fn zero_stats() -> Stats {
    Stats {
        bytes_up: 0,
        bytes_down: 0,
        rate_up: 0,
        rate_down: 0,
        latency_ms: None,
        direct: false,
        connected_secs: 0,
    }
}

impl Stats {
    /// The all-zero statistics (`Stats::default()`).
    pub fn zero() -> (s: Stats)
        ensures
            s == zero_stats(),
    {
        Stats {
            bytes_up: 0,
            bytes_down: 0,
            rate_up: 0,
            rate_down: 0,
            latency_ms: None,
            direct: false,
            connected_secs: 0,
        }
    }
}

/// A full snapshot of the engine's status.
#[derive(Debug)]
pub struct StatusSnapshot {
    pub state: ConnectionState,
    pub role: VpnRole,
    pub network_name: Option<String>,
    pub endpoint_id: Option<String>,
    pub peer_endpoint_id: Option<String>,
    pub virtual_ip: Option<String>,
    pub public_ip: Option<String>,
    pub message: Option<String>,
    pub stats: Stats,
}

/// The model of a [`StatusSnapshot`].
pub struct SnapshotModel {
    pub state: ConnectionState,
    pub role: VpnRole,
    pub network_name: Option<Seq<char>>,
    pub endpoint_id: Option<Seq<char>>,
    pub peer_endpoint_id: Option<Seq<char>>,
    pub virtual_ip: Option<Seq<char>>,
    pub public_ip: Option<Seq<char>>,
    pub message: Option<Seq<char>>,
    pub stats: Stats,
}

impl View for StatusSnapshot {
    type V = SnapshotModel;

    open spec fn view(&self) -> SnapshotModel {
        SnapshotModel {
            state: self.state,
            role: self.role,
            network_name: opt_view(self.network_name),
            endpoint_id: opt_view(self.endpoint_id),
            peer_endpoint_id: opt_view(self.peer_endpoint_id),
            virtual_ip: opt_view(self.virtual_ip),
            public_ip: opt_view(self.public_ip),
            message: opt_view(self.message),
            stats: self.stats,
        }
    }
}

/// The idle snapshot, carrying an optional message.
pub open spec fn idle_snapshot(message: Option<Seq<char>>) -> SnapshotModel {
    SnapshotModel {
        state: ConnectionState::Idle,
        role: VpnRole::Idle,
        network_name: None,
        endpoint_id: None,
        peer_endpoint_id: None,
        virtual_ip: None,
        public_ip: None,
        message,
        stats: zero_stats(),
    }
}

impl StatusSnapshot {
    /// The idle snapshot with an optional message.
    pub fn idle(message: Option<String>) -> (s: StatusSnapshot)
        ensures
            s@ == idle_snapshot(opt_view(message)),
    {
        StatusSnapshot {
            state: ConnectionState::Idle,
            role: VpnRole::Idle,
            network_name: None,
            endpoint_id: None,
            peer_endpoint_id: None,
            virtual_ip: None,
            public_ip: None,
            message,
            stats: Stats::zero(),
        }
    }

    /// A copy of the snapshot.
    pub fn duplicate(&self) -> (s: StatusSnapshot)
        ensures
            s@ == self@,
    {
        StatusSnapshot {
            state: self.state,
            role: self.role,
            network_name: clone_opt(&self.network_name),
            endpoint_id: clone_opt(&self.endpoint_id),
            peer_endpoint_id: clone_opt(&self.peer_endpoint_id),
            virtual_ip: clone_opt(&self.virtual_ip),
            public_ip: clone_opt(&self.public_ip),
            message: clone_opt(&self.message),
            stats: self.stats,
        }
    }
}

impl Default for StatusSnapshot {
    fn default() -> (s: StatusSnapshot)
        ensures
            s@ == idle_snapshot(None),
    {
        StatusSnapshot::idle(None)
    }
}

/// A host discovered on the LAN, or one saved locally.
#[derive(Debug)]
pub struct DiscoveredHost {
    pub network_name: String,
    pub endpoint_id: String,
    /// `"lan"`, `"dht"` or `"saved"`.
    pub source: String,
    pub requires_passphrase: bool,
    pub online: bool,
}

/// The model of a [`DiscoveredHost`].
pub struct HostModel {
    pub network_name: Seq<char>,
    pub endpoint_id: Seq<char>,
    pub source: Seq<char>,
    pub requires_passphrase: bool,
    pub online: bool,
}

impl View for DiscoveredHost {
    type V = HostModel;

    open spec fn view(&self) -> HostModel {
        HostModel {
            network_name: self.network_name@,
            endpoint_id: self.endpoint_id@,
            source: self.source@,
            requires_passphrase: self.requires_passphrase,
            online: self.online,
        }
    }
}

impl DiscoveredHost {
    /// A copy of the host entry.
    pub fn duplicate(&self) -> (h: DiscoveredHost)
        ensures
            h@ == self@,
    {
        DiscoveredHost {
            network_name: self.network_name.clone(),
            endpoint_id: self.endpoint_id.clone(),
            source: self.source.clone(),
            requires_passphrase: self.requires_passphrase,
            online: self.online,
        }
    }
}

/// The models of a list of hosts.
pub open spec fn host_views(v: Seq<DiscoveredHost>) -> Seq<HostModel> {
    v.map_values(|h: DiscoveredHost| h@)
}

/// Configuration provided by the UI when starting to host.
#[derive(Debug)]
pub struct HostConfig {
    pub network_name: String,
    pub passphrase: Option<String>,
    pub full_tunnel: bool,
}

/// Configuration provided by the UI when connecting to a host.
#[derive(Debug)]
pub struct ConnectConfig {
    pub network_name: String,
    pub passphrase: Option<String>,
    /// An out-of-band pairing ticket, if connecting by code.
    pub ticket: Option<String>,
    /// A raw endpoint id, if connecting directly.
    pub endpoint_id: Option<String>,
    /// A passphrase proof remembered from an earlier session, if any.
    pub proof: Option<String>,
}

/// The model of a [`ConnectConfig`].
pub struct ConnectModel {
    pub network_name: Seq<char>,
    pub passphrase: Option<Seq<char>>,
    pub ticket: Option<Seq<char>>,
    pub endpoint_id: Option<Seq<char>>,
    pub proof: Option<Seq<char>>,
}

impl View for ConnectConfig {
    type V = ConnectModel;

    open spec fn view(&self) -> ConnectModel {
        ConnectModel {
            network_name: self.network_name@,
            passphrase: opt_view(self.passphrase),
            ticket: opt_view(self.ticket),
            endpoint_id: opt_view(self.endpoint_id),
            proof: opt_view(self.proof),
        }
    }
}

impl ConnectConfig {
    /// A copy of the request.
    pub fn duplicate(&self) -> (c: ConnectConfig)
        ensures
            c@ == self@,
    {
        ConnectConfig {
            network_name: self.network_name.clone(),
            passphrase: clone_opt(&self.passphrase),
            ticket: clone_opt(&self.ticket),
            endpoint_id: clone_opt(&self.endpoint_id),
            proof: clone_opt(&self.proof),
        }
    }
}

/// Persisted user settings.
#[derive(Debug)]
pub struct Settings {
    pub autostart: bool,
    pub resume_hosting: bool,
    pub minimize_to_tray: bool,
    pub vpn_subnet: String,
    pub relay_url: Option<String>,
    pub last_network_name: Option<String>,
    pub was_hosting: bool,
}

/// The model of [`Settings`].
pub struct SettingsModel {
    pub autostart: bool,
    pub resume_hosting: bool,
    pub minimize_to_tray: bool,
    pub vpn_subnet: Seq<char>,
    pub relay_url: Option<Seq<char>>,
    pub last_network_name: Option<Seq<char>>,
    pub was_hosting: bool,
}

impl View for Settings {
    type V = SettingsModel;

    open spec fn view(&self) -> SettingsModel {
        SettingsModel {
            autostart: self.autostart,
            resume_hosting: self.resume_hosting,
            minimize_to_tray: self.minimize_to_tray,
            vpn_subnet: self.vpn_subnet@,
            relay_url: opt_view(self.relay_url),
            last_network_name: opt_view(self.last_network_name),
            was_hosting: self.was_hosting,
        }
    }
}

/// The settings a fresh installation starts with.
pub open spec fn default_settings() -> SettingsModel {
    SettingsModel {
        autostart: false,
        resume_hosting: true,
        minimize_to_tray: true,
        vpn_subnet: "10.66.0.0/24"@,
        relay_url: None,
        last_network_name: None,
        was_hosting: false,
    }
}

impl Default for Settings {
    fn default() -> (s: Settings)
        ensures
            s@ == default_settings(),
    {
        Settings {
            autostart: false,
            resume_hosting: true,
            minimize_to_tray: true,
            vpn_subnet: owned("10.66.0.0/24"),
            relay_url: None,
            last_network_name: None,
            was_hosting: false,
        }
    }
}

/// The default of `HostConfig::full_tunnel` when the field is absent.
pub fn default_true() -> (b: bool)
    ensures
        b,
{
    true
}

/// A public VPN server entry, surfaced to the UI. The OpenVPN config itself
/// is kept aside (keyed by `id`) and never sent to the UI.
#[derive(Debug)]
pub struct PublicServer {
    /// Stable unique id (source + host), used to start a connection.
    pub id: String,
    /// Which open source this entry came from (e.g. `"vpngate"`).
    pub source: String,
    /// Full country name, e.g. `"Japan"`.
    pub country: String,
    /// Country code, e.g. `"JP"`.
    pub country_code: String,
    pub hostname: String,
    pub ip: String,
    /// Round-trip latency in milliseconds, if known.
    pub ping_ms: Option<u32>,
    /// Throughput estimate in tenths of a megabit per second, if known.
    pub speed_mbps_tenths: Option<u64>,
    /// Active sessions on the server (a load indicator), if known.
    pub sessions: Option<u32>,
    /// A relative quality score (higher is better), if known.
    pub score: Option<u64>,
}

/// The model of a [`PublicServer`].
pub struct ServerModel {
    pub id: Seq<char>,
    pub source: Seq<char>,
    pub country: Seq<char>,
    pub country_code: Seq<char>,
    pub hostname: Seq<char>,
    pub ip: Seq<char>,
    pub ping_ms: Option<u32>,
    pub speed_mbps_tenths: Option<u64>,
    pub sessions: Option<u32>,
    pub score: Option<u64>,
}

impl View for PublicServer {
    type V = ServerModel;

    open spec fn view(&self) -> ServerModel {
        ServerModel {
            id: self.id@,
            source: self.source@,
            country: self.country@,
            country_code: self.country_code@,
            hostname: self.hostname@,
            ip: self.ip@,
            ping_ms: self.ping_ms,
            speed_mbps_tenths: self.speed_mbps_tenths,
            sessions: self.sessions,
            score: self.score,
        }
    }
}

impl PublicServer {
    /// A copy of the entry.
    pub fn duplicate(&self) -> (s: PublicServer)
        ensures
            s@ == self@,
    {
        PublicServer {
            id: self.id.clone(),
            source: self.source.clone(),
            country: self.country.clone(),
            country_code: self.country_code.clone(),
            hostname: self.hostname.clone(),
            ip: self.ip.clone(),
            ping_ms: self.ping_ms,
            speed_mbps_tenths: self.speed_mbps_tenths,
            sessions: self.sessions,
            score: self.score,
        }
    }
}

/// The models of a list of servers.
pub open spec fn server_views(v: Seq<PublicServer>) -> Seq<ServerModel> {
    v.map_values(|s: PublicServer| s@)
}

/// The state of the public VPN connection.
#[derive(Debug, Clone, Copy, PartialEq, Eq, Structural)]
pub enum PublicState {
    Idle,
    Connecting,
    Connected,
    Error,
}

/// Live status of the public VPN connection.
#[derive(Debug)]
pub struct PublicStatus {
    pub state: PublicState,
    pub server_id: Option<String>,
    pub country: Option<String>,
    pub country_code: Option<String>,
    pub message: Option<String>,
    pub connected_secs: u64,
}

/// The model of a [`PublicStatus`].
pub struct PublicStatusModel {
    pub state: PublicState,
    pub server_id: Option<Seq<char>>,
    pub country: Option<Seq<char>>,
    pub country_code: Option<Seq<char>>,
    pub message: Option<Seq<char>>,
    pub connected_secs: u64,
}

impl View for PublicStatus {
    type V = PublicStatusModel;

    open spec fn view(&self) -> PublicStatusModel {
        PublicStatusModel {
            state: self.state,
            server_id: opt_view(self.server_id),
            country: opt_view(self.country),
            country_code: opt_view(self.country_code),
            message: opt_view(self.message),
            connected_secs: self.connected_secs,
        }
    }
}

/// The idle public status.
pub open spec fn idle_public_status() -> PublicStatusModel {
    PublicStatusModel {
        state: PublicState::Idle,
        server_id: None,
        country: None,
        country_code: None,
        message: None,
        connected_secs: 0,
    }
}

impl PublicStatus {
    /// A copy of the status.
    pub fn duplicate(&self) -> (s: PublicStatus)
        ensures
            s@ == self@,
    {
        PublicStatus {
            state: self.state,
            server_id: clone_opt(&self.server_id),
            country: clone_opt(&self.country),
            country_code: clone_opt(&self.country_code),
            message: clone_opt(&self.message),
            connected_secs: self.connected_secs,
        }
    }
}

impl Default for PublicStatus {
    fn default() -> (s: PublicStatus)
        ensures
            s@ == idle_public_status(),
    {
        PublicStatus {
            state: PublicState::Idle,
            server_id: None,
            country: None,
            country_code: None,
            message: None,
            connected_secs: 0,
        }
    }
}

} // verus!
