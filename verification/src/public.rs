//! The public VPN mode: the server catalog and the session state machine
//! driven by OpenVPN's management interface.
//!
//! The host application owns the OpenVPN process and the management socket;
//! it feeds every management line and lifecycle event to a [`PublicSession`]
//! and publishes the resulting status. Times are seconds on a monotonic clock
//! supplied by the caller.

use vstd::prelude::*;
use crate::error::VpnError;
use crate::sources::{fetched_views, FetchedServer};
use crate::state::{
    idle_public_status, opt_view, server_views, PublicServer, PublicState, PublicStatus,
    PublicStatusModel, ServerModel,
};
use crate::text::{
    cat2, cat4, chars_of, eq_lit, lit, owned, slice_chars, split, split_chars, starts_with,
    starts_with_chars, string_from_chars, views,
};

verus! {

// ---------------------------------------------------------------------------
// Management interface
// ---------------------------------------------------------------------------

/// The management prompt that asks for credentials.
pub open spec fn password_prompt() -> Seq<char> {
    ">PASSWORD:Need 'Auth'"@
}

/// Reply to OpenVPN's management password query. Free servers that declare
/// `auth-user-pass` accept throwaway credentials, so supplying them lets those
/// configs connect instead of stalling on the prompt.
pub fn mgmt_password_reply(line: &str) -> (r: Option<String>)
    ensures
        starts_with(line@, password_prompt()) ==> (r matches Some(s) && s@
            == "username \"Auth\" \"vpn\"\npassword \"Auth\" \"vpn\"\n"@),
        !starts_with(line@, password_prompt()) ==> r is None,
{
    let lc = chars_of(line);
    let p = lit(">PASSWORD:Need 'Auth'");
    if starts_with_chars(lc.as_slice(), p.as_slice()) {
        Some(owned("username \"Auth\" \"vpn\"\npassword \"Auth\" \"vpn\"\n"))
    } else {
        None
    }
}

/// The model of a [`PublicSession`].
pub struct SessionModel {
    pub status: PublicStatusModel,
    pub connected_at: Option<u64>,
}

/// Live state of the public VPN connection.
#[derive(Debug)]
pub struct PublicSession {
    pub status: PublicStatus,
    /// When the tunnel came up, on the caller's clock.
    pub connected_at: Option<u64>,
}

impl View for PublicSession {
    type V = SessionModel;

    open spec fn view(&self) -> SessionModel {
        SessionModel { status: self.status@, connected_at: self.connected_at }
    }
}

/// The OpenVPN states that mean a connection is still being set up.
pub open spec fn is_setup_state(s: Seq<char>) -> bool {
    ||| s == "WAIT"@
    ||| s == "AUTH"@
    ||| s == "GET_CONFIG"@
    ||| s == "ASSIGN_IP"@
    ||| s == "ADD_ROUTES"@
    ||| s == "TCP_CONNECT"@
    ||| s == "RESOLVE"@
}

/// The country shown once connected (empty when unknown).
pub open spec fn country_text(c: Option<Seq<char>>) -> Seq<char> {
    match c {
        Some(t) => t,
        None => Seq::<char>::empty(),
    }
}

/// The effect of one management line: the next session and whether the
/// status must be republished. Only `>STATE:` notifications with a state
/// field count, and none once the session is idle.
pub open spec fn mgmt_step(m: SessionModel, line: Seq<char>, now: u64) -> (SessionModel, bool) {
    let fields = split(line.subrange(7, line.len() as int), ',');
    if !starts_with(line, ">STATE:"@) || fields.len() < 2 || m.status.state == PublicState::Idle {
        (m, false)
    } else if fields[1] == "CONNECTED"@ {
        (
            SessionModel {
                status: PublicStatusModel {
                    state: PublicState::Connected,
                    message: Some("Connected · "@ + country_text(m.status.country)),
                    ..m.status
                },
                connected_at: Some(now),
            },
            true,
        )
    } else if fields[1] == "RECONNECTING"@ {
        (
            SessionModel {
                status: PublicStatusModel {
                    state: PublicState::Connecting,
                    message: Some("Reconnecting…"@),
                    ..m.status
                },
                ..m
            },
            true,
        )
    } else if is_setup_state(fields[1]) {
        (
            SessionModel {
                status: PublicStatusModel { state: PublicState::Connecting, ..m.status },
                ..m
            },
            true,
        )
    } else {
        (m, true)
    }
}

/// The session after an explicit state change.
pub open spec fn set_state_step(m: SessionModel, state: PublicState, msg: Option<Seq<char>>) -> SessionModel {
    SessionModel {
        status: PublicStatusModel {
            state,
            message: match msg {
                Some(t) => Some(t),
                None => m.status.message,
            },
            ..m.status
        },
        connected_at: if state != PublicState::Connected {
            None
        } else {
            m.connected_at
        },
    }
}

/// The status published at time `now`, with the live connection duration.
pub open spec fn status_at(m: SessionModel, now: u64) -> PublicStatusModel {
    PublicStatusModel {
        connected_secs: match m.connected_at {
            Some(t) => if now >= t {
                (now - t) as u64
            } else {
                0
            },
            None => 0,
        },
        ..m.status
    }
}

/// The status while a connection to `server` is being launched.
pub open spec fn connecting_status(server: ServerModel) -> PublicStatusModel {
    PublicStatusModel {
        state: PublicState::Connecting,
        server_id: Some(server.id),
        country: Some(server.country),
        country_code: Some(server.country_code),
        message: Some("Connecting…"@),
        connected_secs: 0,
    }
}

impl PublicSession {
    /// An idle session.
    pub fn new() -> (s: PublicSession)
        ensures
            s@ == (SessionModel { status: idle_public_status(), connected_at: None }),
    {
        PublicSession { status: PublicStatus::default(), connected_at: None }
    }

    /// Whether a public connection is in progress or established.
    pub fn is_active(&self) -> (b: bool)
        ensures
            b == (self.status.state == PublicState::Connecting || self.status.state
                == PublicState::Connected),
    {
        match self.status.state {
            PublicState::Connecting | PublicState::Connected => true,
            _ => false,
        }
    }

    /// The current status with the live connection duration.
    pub fn status(&self, now: u64) -> (s: PublicStatus)
        ensures
            s@ == status_at(self@, now),
    {
        let mut s = self.status.duplicate();
        s.connected_secs = match self.connected_at {
            Some(t) => if now >= t {
                now - t
            } else {
                0
            },
            None => 0,
        };
        s
    }

    /// Reflect the intent to connect to `server`: connecting, no tunnel yet.
    pub fn begin_connect(&mut self, server: &PublicServer)
        ensures
            final(self)@ == (SessionModel { status: connecting_status(server@), connected_at: None }),
    {
        self.connected_at = None;
        self.status = PublicStatus {
            state: PublicState::Connecting,
            server_id: Some(server.id.clone()),
            country: Some(server.country.clone()),
            country_code: Some(server.country_code.clone()),
            message: Some(owned("Connecting…")),
            connected_secs: 0,
        };
    }

    /// OpenVPN was launched for `server`; show where it is connecting.
    pub fn launched(&mut self, server: &PublicServer)
        ensures
            final(self)@ == (SessionModel {
                status: PublicStatusModel {
                    message: Some("Connecting to "@ + server.country@ + " · "@ + server.hostname@),
                    ..old(self)@.status
                },
                ..old(self)@
            }),
    {
        let c = chars_of(server.country.as_str());
        let h = chars_of(server.hostname.as_str());
        self.status.message = Some(cat4("Connecting to ", c.as_slice(), " · ", h.as_slice()));
    }

    /// Mark the session idle (a user-initiated disconnect): the monitor then
    /// treats the imminent exit as expected.
    pub fn reset(&mut self)
        ensures
            final(self)@ == (SessionModel { status: idle_public_status(), connected_at: None }),
    {
        self.status = PublicStatus::default();
        self.connected_at = None;
    }

    /// Set the state (and, if given, the message); leaving `Connected`
    /// forgets the connection time.
    pub fn set_state(&mut self, state: PublicState, msg: Option<&str>)
        ensures
            final(self)@ == set_state_step(
                old(self)@,
                state,
                match msg {
                    Some(t) => Some(t@),
                    None => None,
                },
            ),
    {
        self.status.state = state;
        match msg {
            Some(m) => {
                self.status.message = Some(owned(m));
            },
            None => {},
        }
        if state != PublicState::Connected {
            self.connected_at = None;
        }
    }

    /// Apply one line from OpenVPN's management interface at time `now`.
    /// Returns whether the status changed enough to be republished.
    pub fn handle_mgmt_line(&mut self, line: &str, now: u64) -> (emit: bool)
        ensures
            (final(self)@, emit) == mgmt_step(old(self)@, line@, now),
    {
        let lc = chars_of(line);
        let prefix = lit(">STATE:");
        proof {
            reveal_strlit(">STATE:");
        }
        if !starts_with_chars(lc.as_slice(), prefix.as_slice()) {
            return false;
        }
        let ghost fields_spec = split(line@.subrange(7, line@.len() as int), ',');
        let rest = slice_chars(lc.as_slice(), 7, lc.len());
        let fields = split_chars(rest.as_slice(), ',');
        assert(views(fields@) == fields_spec);
        if fields.len() < 2 {
            return false;
        }
        if self.status.state == PublicState::Idle {
            return false;
        }
        let st = fields[1].as_slice();
        assert(fields@[1]@ == fields_spec[1]);
        if eq_lit(st, "CONNECTED") {
            self.status.state = PublicState::Connected;
            self.connected_at = Some(now);
            let country = match &self.status.country {
                Some(c) => chars_of(c.as_str()),
                None => Vec::new(),
            };
            assert(country@ == country_text(old(self)@.status.country)) by {
                if old(self)@.status.country is None {
                    assert(country@ =~= Seq::<char>::empty());
                }
            }
            self.status.message = Some(cat2("Connected · ", country.as_slice()));
        } else if eq_lit(st, "RECONNECTING") {
            self.status.state = PublicState::Connecting;
            self.status.message = Some(owned("Reconnecting…"));
        } else if eq_lit(st, "WAIT") || eq_lit(st, "AUTH") || eq_lit(st, "GET_CONFIG") || eq_lit(
            st,
            "ASSIGN_IP",
        ) || eq_lit(st, "ADD_ROUTES") || eq_lit(st, "TCP_CONNECT") || eq_lit(st, "RESOLVE") {
            self.status.state = PublicState::Connecting;
        }
        true
    }
}

/// The status message after the monitor could not attach to OpenVPN,
/// given the reason distilled from OpenVPN's log.
pub fn attach_failure_message(reason: Option<String>) -> (s: String)
    ensures
        match reason {
            Some(r) => s@ == "Couldn't start OpenVPN — "@ + r@,
            None => s@ == "Couldn't attach to OpenVPN."@,
        },
{
    match reason {
        Some(r) => {
            let rc = chars_of(r.as_str());
            cat2("Couldn't start OpenVPN — ", rc.as_slice())
        },
        None => owned("Couldn't attach to OpenVPN."),
    }
}

/// What to report when the management socket closes, given the state at that
/// moment and the reason from OpenVPN's log: a user-initiated disconnect has
/// already set `Idle` (report nothing); a drop while `Connecting` means the
/// tunnel never came up; a drop while `Connected` means the link was lost.
pub open spec fn exit_report(state: PublicState, reason: Option<Seq<char>>) -> Option<Seq<char>> {
    match state {
        PublicState::Connecting => Some(
            match reason {
                Some(r) => "Couldn't establish the connection — "@ + r,
                None => "Couldn't establish the connection. The server may be offline, or administrator approval was declined."@,
            },
        ),
        PublicState::Connected => Some(
            match reason {
                Some(r) => "Connection lost — "@ + r,
                None => "Connection lost."@,
            },
        ),
        _ => None,
    }
}

/// The error message to publish when OpenVPN's management socket closes;
/// `None` when the closing was expected.
pub fn monitor_exit_message(state: PublicState, reason: Option<String>) -> (r: Option<String>)
    ensures
        match exit_report(state, opt_view(reason)) {
            Some(t) => r matches Some(s) && s@ == t,
            None => r is None,
        },
{
    match state {
        PublicState::Connecting => Some(
            match reason {
                Some(r) => {
                    let rc = chars_of(r.as_str());
                    cat2("Couldn't establish the connection — ", rc.as_slice())
                },
                None => owned(
                    "Couldn't establish the connection. The server may be offline, or administrator approval was declined.",
                ),
            },
        ),
        PublicState::Connected => Some(
            match reason {
                Some(r) => {
                    let rc = chars_of(r.as_str());
                    cat2("Connection lost — ", rc.as_slice())
                },
                None => owned("Connection lost."),
            },
        ),
        _ => None,
    }
}

/// After the user disconnects (the session is reset to idle), nothing
/// OpenVPN still says changes the status or is republished, and the closing
/// of its management socket reports no error.
pub proof fn disconnect_is_silent(line: Seq<char>, now: u64, reason: Option<Seq<char>>)
    ensures
        mgmt_step(SessionModel { status: idle_public_status(), connected_at: None }, line, now) == (
            SessionModel { status: idle_public_status(), connected_at: None },
            false,
        ),
        exit_report(idle_public_status().state, reason) is None,
{
}

// ---------------------------------------------------------------------------
// Server catalog
// ---------------------------------------------------------------------------

/// The sort key of a server: score (missing as 0) and latency (missing as
/// the largest value).
pub open spec fn server_key(s: ServerModel) -> (u64, u32) {
    (
        match s.score {
            Some(v) => v,
            None => 0,
        },
        match s.ping_ms {
            Some(p) => p,
            None => u32::MAX,
        },
    )
}

/// `a` ranks strictly before `b`: higher score first, then lower latency.
pub open spec fn ranks_before(a: (u64, u32), b: (u64, u32)) -> bool {
    a.0 > b.0 || (a.0 == b.0 && a.1 < b.1)
}

/// Servers are in ranking order.
pub open spec fn ranked(s: Seq<ServerModel>) -> bool {
    forall|i: int, j: int|
        0 <= i < j < s.len() ==> !ranks_before(server_key(#[trigger] s[j]), server_key(#[trigger] s[i]))
}

/// The predicate "has sort key `k`".
pub open spec fn key_is(k: (u64, u32)) -> spec_fn(ServerModel) -> bool {
    |s: ServerModel| server_key(s) == k
}

/// `out` lists the servers of `inp` best first, keeping the original order
/// among servers of equal rank (a stable sort).
pub open spec fn stably_ranked(out: Seq<ServerModel>, inp: Seq<ServerModel>) -> bool {
    &&& out.len() == inp.len()
    &&& ranked(out)
    &&& forall|k: (u64, u32)| #[trigger] out.filter(key_is(k)) == inp.filter(key_is(k))
}

/// The config that a list of `(id, config)` pairs gives an id: the last one
/// recorded for it.
pub open spec fn config_lookup(configs: Seq<(Seq<char>, Seq<char>)>, id: Seq<char>) -> Option<Seq<char>>
    decreases configs.len(),
{
    if configs.len() == 0 {
        None
    } else if configs.last().0 == id {
        Some(configs.last().1)
    } else {
        config_lookup(configs.drop_last(), id)
    }
}

/// The first server with the given id.
pub open spec fn first_with_id(servers: Seq<ServerModel>, id: Seq<char>) -> Option<int> {
    if exists|i: int| 0 <= i < servers.len() && (#[trigger] servers[i]).id == id {
        Some(
            choose|i: int|
                0 <= i < servers.len() && (#[trigger] servers[i]).id == id && forall|j: int|
                    0 <= j < i ==> (#[trigger] servers[j]).id != id,
        )
    } else {
        None
    }
}

proof fn lemma_filter_from_source(s: Seq<ServerModel>, pred: spec_fn(ServerModel) -> bool, i: int)
    requires
        0 <= i < s.filter(pred).len(),
    ensures
        s.contains(s.filter(pred)[i]),
    decreases s.len(),
{
    reveal(Seq::filter);
    let p = s.drop_last();
    let fp = p.filter(pred);
    if pred(s.last()) && i == fp.len() {
        assert(s.filter(pred)[i] == s.last());
        assert(s[s.len() - 1] == s.last());
    } else {
        assert(s.filter(pred)[i] == fp[i]);
        lemma_filter_from_source(p, pred, i);
        let j = choose|j: int| 0 <= j < p.len() && p[j] == fp[i];
        assert(s[j] == p[j]);
    }
}

proof fn lemma_config_lookup_unique(cfg: Seq<(Seq<char>, Seq<char>)>, k: int)
    requires
        0 <= k < cfg.len(),
        forall|j: int| 0 <= j < cfg.len() && j != k ==> (#[trigger] cfg[j]).0 != cfg[k].0,
    ensures
        config_lookup(cfg, cfg[k].0) == Some(cfg[k].1),
    decreases cfg.len(),
{
    if k < cfg.len() - 1 {
        let p = cfg.drop_last();
        assert(cfg.last() == cfg[cfg.len() - 1]);
        assert forall|j: int| 0 <= j < p.len() && j != k implies (#[trigger] p[j]).0 != p[k].0 by {
            assert(p[j] == cfg[j]);
        }
        lemma_config_lookup_unique(p, k);
    }
}

/// No two servers share an id.
pub open spec fn unique_server_ids(s: Seq<ServerModel>) -> bool {
    forall|i: int, j: int| 0 <= i < s.len() && 0 <= j < s.len() && i != j ==> (#[trigger] s[i]).id != (#[trigger] s[j]).id
}

proof fn lemma_ranked_keeps(out: Seq<ServerModel>, inp: Seq<ServerModel>, k: int)
    requires
        stably_ranked(out, inp),
        0 <= k < inp.len(),
    ensures
        out.contains(inp[k]),
{
    let kk = server_key(inp[k]);
    inp.lemma_filter_contains(key_is(kk), k);
    assert(out.filter(key_is(kk)) == inp.filter(key_is(kk)));
    let a = choose|a: int| 0 <= a < inp.filter(key_is(kk)).len() && inp.filter(key_is(kk))[a] == inp[k];
    lemma_filter_from_source(out, key_is(kk), a);
}

proof fn lemma_ranked_adds_nothing(out: Seq<ServerModel>, inp: Seq<ServerModel>, i: int)
    requires
        stably_ranked(out, inp),
        0 <= i < out.len(),
    ensures
        inp.contains(out[i]),
{
    let ki = server_key(out[i]);
    out.lemma_filter_contains(key_is(ki), i);
    assert(out.filter(key_is(ki)) == inp.filter(key_is(ki)));
    let b = choose|b: int| 0 <= b < out.filter(key_is(ki)).len() && out.filter(key_is(ki))[b] == out[i];
    lemma_filter_from_source(inp, key_is(ki), b);
}

/// Every server of a refresh can be connected to: once the catalog is built
/// from servers with distinct ids, looking up a server's id finds that very
/// server in the ranked list, and its own config.
pub proof fn refreshed_servers_are_found(
    out: Seq<ServerModel>,
    configs: Seq<(Seq<char>, Seq<char>)>,
    fetched: Seq<crate::sources::FetchedModel>,
    k: int,
)
    requires
        stably_ranked(out, fetched.map_values(|f: crate::sources::FetchedModel| f.server)),
        configs == fetched.map_values(|f: crate::sources::FetchedModel| (f.server.id, f.ovpn)),
        unique_server_ids(fetched.map_values(|f: crate::sources::FetchedModel| f.server)),
        0 <= k < fetched.len(),
    ensures
        first_with_id(out, fetched[k].server.id) matches Some(i) && out[i] == fetched[k].server,
        config_lookup(configs, fetched[k].server.id) == Some(fetched[k].ovpn),
{
    let inp = fetched.map_values(|f: crate::sources::FetchedModel| f.server);
    let id = fetched[k].server.id;
    assert(inp[k] == fetched[k].server);
    assert forall|j: int| 0 <= j < configs.len() && j != k implies (#[trigger] configs[j]).0 != configs[k].0 by {
        assert(configs[j].0 == inp[j].id);
        assert(configs[k].0 == inp[k].id);
    }
    lemma_config_lookup_unique(configs, k);
    lemma_ranked_keeps(out, inp, k);
    let j0 = choose|j: int| 0 <= j < out.len() && out[j] == inp[k];
    assert(out[j0].id == id);
    lemma_least_with_id(out, id, j0);
    let i = choose|i: int|
        0 <= i < out.len() && (#[trigger] out[i]).id == id && forall|j: int|
            0 <= j < i ==> (#[trigger] out[j]).id != id;
    assert(first_with_id(out, id) == Some(i));
    lemma_ranked_adds_nothing(out, inp, i);
    let m = choose|m: int| 0 <= m < inp.len() && inp[m] == out[i];
    assert(inp[m].id == id);
    if m != k {
        assert(inp[m].id != inp[k].id);
    }
}

proof fn lemma_least_with_id(s: Seq<ServerModel>, id: Seq<char>, j: int)
    requires
        0 <= j < s.len(),
        s[j].id == id,
    ensures
        exists|i: int|
            0 <= i < s.len() && (#[trigger] s[i]).id == id && forall|q: int|
                0 <= q < i ==> (#[trigger] s[q]).id != id,
    decreases j,
{
    if exists|q: int| 0 <= q < j && (#[trigger] s[q]).id == id {
        let q = choose|q: int| 0 <= q < j && (#[trigger] s[q]).id == id;
        lemma_least_with_id(s, id, q);
    } else {
        assert(forall|q: int| 0 <= q < j ==> (#[trigger] s[q]).id != id);
    }
}

/// The cached public server list with each server's OpenVPN config.
#[derive(Debug)]
pub struct PublicCatalog {
    /// Best servers first.
    pub servers: Vec<PublicServer>,
    /// `(server id, OpenVPN config)` in the order they were fetched.
    pub configs: Vec<(String, String)>,
}

/// The models of a list of config pairs.
pub open spec fn config_views(c: Seq<(String, String)>) -> Seq<(Seq<char>, Seq<char>)> {
    c.map_values(|p: (String, String)| (p.0@, p.1@))
}

proof fn lemma_ranks_before_trans(a: (u64, u32), b: (u64, u32), c: (u64, u32))
    requires
        ranks_before(a, b),
        !ranks_before(c, b),
    ensures
        ranks_before(a, c),
{
}

proof fn lemma_filter_all_fail(s: Seq<ServerModel>, k: (u64, u32))
    requires
        forall|i: int| 0 <= i < s.len() ==> server_key(#[trigger] s[i]) != k,
    ensures
        s.filter(key_is(k)) == Seq::<ServerModel>::empty(),
    decreases s.len(),
{
    reveal(Seq::filter);
    if s.len() > 0 {
        let t = s.drop_last();
        assert forall|i: int| 0 <= i < t.len() implies server_key(#[trigger] t[i]) != k by {
            assert(t[i] == s[i]);
        }
        lemma_filter_all_fail(t, k);
        assert(!key_is(k)(s.last()));
    }
}

/// Insert `x` after every server that does not rank after it.
fn insert_ranked(v: &mut Vec<PublicServer>, x: PublicServer)
    requires
        ranked(server_views(old(v)@)),
    ensures
        ranked(server_views(final(v)@)),
        final(v)@.len() == old(v)@.len() + 1,
        forall|k: (u64, u32)|
            #[trigger] server_views(final(v)@).filter(key_is(k)) == server_views(old(v)@).push(
                x@,
            ).filter(key_is(k)),
{
    let ghost xv = x@;
    let ghost kx = server_key(xv);
    let ghost s = server_views(v@);
    let n = v.len();
    let xs = match x.score {
        Some(s) => s,
        None => 0,
    };
    let xp = match x.ping_ms {
        Some(p) => p,
        None => u32::MAX,
    };
    let mut p: usize = 0;
    while p < n
        invariant
            p <= n,
            n == v@.len(),
            s == server_views(v@),
            (xs, xp) == kx,
            forall|j: int| 0 <= j < p ==> !ranks_before(kx, server_key(#[trigger] s[j])),
        ensures
            p <= n,
            forall|j: int| 0 <= j < p ==> !ranks_before(kx, server_key(#[trigger] s[j])),
            p < n ==> ranks_before(kx, server_key(s[p as int])),
        decreases n - p,
    {
        let es = match v[p].score {
            Some(s) => s,
            None => 0,
        };
        let ep = match v[p].ping_ms {
            Some(q) => q,
            None => u32::MAX,
        };
        assert(s[p as int] == v@[p as int]@);
        if xs > es || (xs == es && xp < ep) {
            break;
        }
        p += 1;
    }
    assert(p < n ==> ranks_before(kx, server_key(s[p as int])));
    v.insert(p, x);
    let ghost t = server_views(v@);
    assert(t =~= s.insert(p as int, xv));
    proof {
        // every server from position p on ranks after x
        assert forall|q: int| p <= q < s.len() implies ranks_before(kx, server_key(#[trigger] s[q])) by {
            if q > p {
                assert(!ranks_before(server_key(s[q]), server_key(s[p as int])));
                lemma_ranks_before_trans(kx, server_key(s[p as int]), server_key(s[q]));
            }
        }
        assert forall|i: int, j: int| 0 <= i < j < t.len() implies !ranks_before(server_key(#[trigger] t[j]), server_key(#[trigger] t[i])) by {
            if j < p {
                assert(t[i] == s[i] && t[j] == s[j]);
            } else if j == p {
                assert(t[j] == xv && t[i] == s[i]);
            } else if i < p {
                assert(t[j] == s[j - 1] && t[i] == s[i]);
                assert(ranks_before(kx, server_key(s[j - 1])));
                assert(!ranks_before(kx, server_key(s[i])));
            } else if i == p {
                assert(t[j] == s[j - 1] && t[i] == xv);
                assert(ranks_before(kx, server_key(s[j - 1])));
            } else {
                assert(t[j] == s[j - 1] && t[i] == s[i - 1]);
            }
        }
        let a = s.take(p as int);
        let b = s.skip(p as int);
        assert(s =~= a + b);
        assert(t =~= a + seq![xv] + b);
        assert forall|k: (u64, u32)| #[trigger] t.filter(key_is(k)) == s.push(xv).filter(key_is(k)) by {
            Seq::filter_distributes_over_add(a + seq![xv], b, key_is(k));
            Seq::filter_distributes_over_add(a, seq![xv], key_is(k));
            Seq::filter_distributes_over_add(a, b, key_is(k));
            s.lemma_filter_push(xv, key_is(k));
            reveal_with_fuel(Seq::filter, 2);
            assert(seq![xv].drop_last() =~= Seq::<ServerModel>::empty());
            if k == kx {
                assert forall|i: int| 0 <= i < b.len() implies server_key(#[trigger] b[i]) != k by {
                    assert(b[i] == s[p + i]);
                    assert(ranks_before(kx, server_key(s[p + i])));
                }
                lemma_filter_all_fail(b, k);
                assert(seq![xv].filter(key_is(k)) =~= seq![xv]);
            } else {
                assert(seq![xv].filter(key_is(k)) =~= Seq::<ServerModel>::empty());
            }
        }
    }
}

impl PublicCatalog {
    /// An empty catalog.
    pub fn new() -> (c: PublicCatalog)
        ensures
            c.servers@.len() == 0,
            c.configs@.len() == 0,
    {
        PublicCatalog { servers: Vec::new(), configs: Vec::new() }
    }

    /// Build the catalog from freshly fetched servers: the servers best
    /// first (higher score, then lower latency, ties in fetched order), and
    /// each server's config recorded under its id.
    pub fn from_fetched(fetched: Vec<FetchedServer>) -> (c: PublicCatalog)
        ensures
            stably_ranked(server_views(c.servers@), fetched_views(fetched@).map_values(|f: crate::sources::FetchedModel| f.server)),
            config_views(c.configs@) == fetched_views(fetched@).map_values(
                |f: crate::sources::FetchedModel| (f.server.id, f.ovpn),
            ),
    {
        let ghost inp = fetched_views(fetched@).map_values(|f: crate::sources::FetchedModel| f.server);
        let ghost cfg = fetched_views(fetched@).map_values(
            |f: crate::sources::FetchedModel| (f.server.id, f.ovpn),
        );
        let mut servers: Vec<PublicServer> = Vec::new();
        let mut configs: Vec<(String, String)> = Vec::new();
        let n = fetched.len();
        let ghost all = fetched@;
        let mut rest = fetched;
        assert(inp.take(0) =~= Seq::<ServerModel>::empty());
        assert(cfg.take(0) =~= Seq::<(Seq<char>, Seq<char>)>::empty());
        for i in 0..n
            invariant
                n == all.len(),
                inp == fetched_views(all).map_values(|f: crate::sources::FetchedModel| f.server),
                cfg == fetched_views(all).map_values(
                    |f: crate::sources::FetchedModel| (f.server.id, f.ovpn),
                ),
                rest@.len() == n - i,
                rest@ == all.skip(i as int),
                servers@.len() == i,
                ranked(server_views(servers@)),
                forall|k: (u64, u32)|
                    #[trigger] server_views(servers@).filter(key_is(k)) == inp.take(i as int).filter(
                        key_is(k),
                    ),
                config_views(configs@) == cfg.take(i as int),
        {
            let f = rest.remove(0);
            assert(f == all[i as int]);
            assert(rest@ =~= all.skip(i + 1));
            let ghost fs = f.server@;
            assert(inp[i as int] == fs);
            assert(inp.take(i + 1) == inp.take(i as int).push(fs));
            assert(cfg.take(i + 1) == cfg.take(i as int).push((f.server.id@, f.ovpn@)));
            let ghost before = server_views(servers@);
            let id = f.server.id.clone();
            configs.push((id, f.ovpn));
            assert(config_views(configs@) =~= cfg.take(i + 1));
            insert_ranked(&mut servers, f.server);
            assert forall|k: (u64, u32)| #[trigger] server_views(servers@).filter(key_is(k)) == inp.take(i + 1).filter(key_is(k)) by {
                inp.take(i as int).lemma_filter_push(fs, key_is(k));
                before.lemma_filter_push(fs, key_is(k));
            }
        }
        assert(inp.take(n as int) == inp);
        assert(cfg.take(n as int) == cfg);
        PublicCatalog { servers, configs }
    }

    /// The list is empty and must be fetched before use.
    pub fn is_empty(&self) -> (b: bool)
        ensures
            b == (self.servers@.len() == 0),
    {
        self.servers.len() == 0
    }

    /// A copy of the server list, best first, as the UI shows it.
    pub fn list(&self) -> (r: Vec<PublicServer>)
        ensures
            server_views(r@) == server_views(self.servers@),
    {
        let mut out: Vec<PublicServer> = Vec::new();
        let n = self.servers.len();
        for i in 0..n
            invariant
                n == self.servers@.len(),
                server_views(out@) == server_views(self.servers@).take(i as int),
        {
            let ghost before = out@;
            let d = self.servers[i].duplicate();
            assert(d@ == server_views(self.servers@)[i as int]);
            out.push(d);
            assert(server_views(out@) =~= server_views(before).push(d@));
            assert(server_views(self.servers@).take(i + 1) =~= server_views(self.servers@).take(i as int).push(d@));
        }
        assert(server_views(self.servers@).take(n as int) =~= server_views(self.servers@));
        out
    }

    /// The index of the first server with the given id.
    fn find_server(&self, want: &String) -> (r: Option<usize>)
        ensures
            match r {
                Some(i) => i < self.servers@.len() && server_views(self.servers@)[i as int].id == want@
                    && forall|j: int| 0 <= j < i ==> (#[trigger] server_views(self.servers@)[j]).id != want@,
                None => forall|j: int| 0 <= j < self.servers@.len() ==> (#[trigger] server_views(self.servers@)[j]).id != want@,
            },
    {
        let ghost sv = server_views(self.servers@);
        let n = self.servers.len();
        for i in 0..n
            invariant
                n == self.servers@.len(),
                sv == server_views(self.servers@),
                forall|j: int| 0 <= j < i ==> (#[trigger] sv[j]).id != want@,
        {
            assert(sv[i as int] == self.servers@[i as int]@);
            if self.servers[i].id == *want {
                return Some(i);
            }
        }
        None
    }

    /// Look up a server and its config by id, as a connection needs them.
    #[verifier::rlimit(30)]
    pub fn lookup(&self, server_id: &str) -> (r: Result<(PublicServer, String), VpnError>)
        ensures
            match first_with_id(server_views(self.servers@), server_id@) {
                None => r matches Err(e) && e is Message && e.text() == "Unknown server (refresh the list)."@,
                Some(i) => match config_lookup(config_views(self.configs@), server_id@) {
                    None => r matches Err(e) && e is Message && e.text() == "Server config unavailable (refresh)."@,
                    Some(c) => r matches Ok(p) && p.0@ == server_views(self.servers@)[i] && p.1@ == c,
                },
            },
    {
        let ghost sv = server_views(self.servers@);
        let want = server_id.to_owned();
        let idx = match self.find_server(&want) {
            Some(k) => k,
            None => {
                return Err(VpnError::msg("Unknown server (refresh the list)."));
            },
        };
        proof {
            let c = choose|c: int|
                0 <= c < sv.len() && (#[trigger] sv[c]).id == server_id@ && forall|j: int|
                    0 <= j < c ==> (#[trigger] sv[j]).id != server_id@;
            if c < idx {
            } else if c > idx {
                assert(sv[idx as int].id != server_id@);
            }
            assert(first_with_id(sv, server_id@) == Some(idx as int));
        }
        let ghost cv = config_views(self.configs@);
        let m = self.configs.len();
        let mut j: usize = m;
        assert(cv.take(m as int) =~= cv);
        while j > 0
            invariant
                j <= m,
                idx < self.servers@.len(),
                sv == server_views(self.servers@),
                first_with_id(sv, server_id@) == Some(idx as int),
                m == self.configs@.len(),
                cv == config_views(self.configs@),
                want@ == server_id@,
                config_lookup(cv, server_id@) == config_lookup(cv.take(j as int), server_id@),
            decreases j,
        {
            assert(cv.take(j as int).last() == cv[j - 1]);
            assert(cv[j - 1] == (self.configs@[j - 1].0@, self.configs@[j - 1].1@));
            if self.configs[j - 1].0 == want {
                let s = self.servers[idx].duplicate();
                let c = self.configs[j - 1].1.clone();
                assert(sv[idx as int] == self.servers@[idx as int]@);
                return Ok((s, c));
            }
            assert(cv.take(j as int).drop_last() == cv.take(j - 1));
            j -= 1;
        }
        assert(cv.take(0) =~= Seq::<(Seq<char>, Seq<char>)>::empty());
        Err(VpnError::msg("Server config unavailable (refresh)."))
    }
}

} // verus!
