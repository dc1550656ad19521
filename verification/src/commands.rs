//! The decisions behind the user-facing commands: trusted devices, the
//! mutual exclusion of the private and public VPN, the settings kept across
//! runs, and the release check.

use vstd::prelude::*;
use crate::engine::{session_proof_spec, ticket_target};
use crate::error::VpnError;
use crate::state::{
    clone_opt, opt_view, ConnectConfig, ConnectModel, ConnectionState, DiscoveredHost, HostModel,
    Settings, SettingsModel, host_views,
};
use crate::text::{
    decimal, is_ws, lemma_decimal_digits, lemma_parse_decimal, lemma_split_append, lemma_split_free,
    lemma_trim_noop, is_digit, cat2, cat3, chars_of, owned, parse_u32, parse_u32_chars, slice_chars, split, split_chars,
    eq_lit, string_from_chars, string_views, trim, trim_chars, views,
};

verus! {

/// The most hosts remembered as trusted devices.
pub const MAX_SAVED_HOSTS: usize = 16;

/// A host this device has connected to before, with the passphrase proof
/// that was presented, so that reconnecting needs no code or passphrase.
#[derive(Debug)]
pub struct SavedHost {
    pub network_name: String,
    pub endpoint_id: String,
    pub proof: Option<String>,
}

/// The model of a [`SavedHost`].
pub struct SavedModel {
    pub network_name: Seq<char>,
    pub endpoint_id: Seq<char>,
    pub proof: Option<Seq<char>>,
}

impl View for SavedHost {
    type V = SavedModel;

    open spec fn view(&self) -> SavedModel {
        SavedModel {
            network_name: self.network_name@,
            endpoint_id: self.endpoint_id@,
            proof: opt_view(self.proof),
        }
    }
}

impl SavedHost {
    /// A copy of the entry.
    pub fn duplicate(&self) -> (h: SavedHost)
        ensures
            h@ == self@,
    {
        SavedHost {
            network_name: self.network_name.clone(),
            endpoint_id: self.endpoint_id.clone(),
            proof: clone_opt(&self.proof),
        }
    }
}

/// The models of a list of saved hosts.
pub open spec fn saved_views(v: Seq<SavedHost>) -> Seq<SavedModel> {
    v.map_values(|h: SavedHost| h@)
}

/// The entries of `s` whose endpoint id is not `id`, in order.
pub open spec fn without_endpoint(s: Seq<SavedModel>, id: Seq<char>) -> Seq<SavedModel>
    decreases s.len(),
{
    if s.len() == 0 {
        s
    } else if s.last().endpoint_id == id {
        without_endpoint(s.drop_last(), id)
    } else {
        without_endpoint(s.drop_last(), id).push(s.last())
    }
}

/// The saved list after remembering `h`: `h` first, any older entry for the
/// same endpoint dropped, and at most [`MAX_SAVED_HOSTS`] entries kept.
pub open spec fn remembered(s: Seq<SavedModel>, h: SavedModel) -> Seq<SavedModel> {
    let all = seq![h] + without_endpoint(s, h.endpoint_id);
    if all.len() > MAX_SAVED_HOSTS {
        all.take(MAX_SAVED_HOSTS as int)
    } else {
        all
    }
}

/// No two entries share an endpoint id.
pub open spec fn unique_endpoints(s: Seq<SavedModel>) -> bool {
    forall|i: int, j: int|
        0 <= i < j < s.len() ==> (#[trigger] s[i]).endpoint_id != (#[trigger] s[j]).endpoint_id
}

proof fn lemma_without_endpoint(s: Seq<SavedModel>, id: Seq<char>)
    ensures
        without_endpoint(s, id).len() <= s.len(),
        forall|k: int|
            0 <= k < without_endpoint(s, id).len() ==> (#[trigger] without_endpoint(s, id)[k]).endpoint_id != id,
        forall|k: int|
            0 <= k < without_endpoint(s, id).len() ==> s.contains(#[trigger] without_endpoint(s, id)[k]),
        unique_endpoints(s) ==> unique_endpoints(without_endpoint(s, id)),
    decreases s.len(),
{
    if s.len() > 0 {
        let p = s.drop_last();
        lemma_without_endpoint(p, id);
        let w = without_endpoint(p, id);
        assert forall|k: int| 0 <= k < w.len() implies s.contains(#[trigger] w[k]) by {
            let j = choose|j: int| 0 <= j < p.len() && p[j] == w[k];
            assert(s[j] == w[k]);
        }
        if s.last().endpoint_id != id {
            let r = w.push(s.last());
            assert(s[s.len() - 1] == s.last());
            if unique_endpoints(s) {
                assert(unique_endpoints(p)) by {
                    assert forall|i: int, j: int| 0 <= i < j < p.len() implies (#[trigger] p[i]).endpoint_id
                        != (#[trigger] p[j]).endpoint_id by {
                        assert(p[i] == s[i] && p[j] == s[j]);
                    }
                }
                assert forall|i: int, j: int| 0 <= i < j < r.len() implies (#[trigger] r[i]).endpoint_id
                    != (#[trigger] r[j]).endpoint_id by {
                    if j == r.len() - 1 {
                        assert(r[j] == s.last());
                        assert(s.contains(w[i]));
                        let a = choose|a: int| 0 <= a < p.len() && p[a] == w[i];
                        assert(s[a] == w[i]);
                        assert(a < s.len() - 1);
                    } else {
                        assert(r[i] == w[i] && r[j] == w[j]);
                    }
                }
            }
        } else {
            if unique_endpoints(s) {
                assert forall|i: int, j: int| 0 <= i < j < p.len() implies (#[trigger] p[i]).endpoint_id
                    != (#[trigger] p[j]).endpoint_id by {
                    assert(p[i] == s[i] && p[j] == s[j]);
                }
            }
        }
    }
}

/// Remembering a host keeps the saved list free of duplicate endpoints,
/// puts the host first, and never lets the list grow past its bound.
pub proof fn remembered_hosts_stay_unique(s: Seq<SavedModel>, h: SavedModel)
    requires
        unique_endpoints(s),
    ensures
        unique_endpoints(remembered(s, h)),
        remembered(s, h)[0] == h,
        remembered(s, h).len() <= MAX_SAVED_HOSTS,
        remembered(s, h).len() >= 1,
{
    lemma_without_endpoint(s, h.endpoint_id);
    let w = without_endpoint(s, h.endpoint_id);
    let all = seq![h] + w;
    assert(all[0] == h);
    assert forall|i: int, j: int| 0 <= i < j < all.len() implies (#[trigger] all[i]).endpoint_id
        != (#[trigger] all[j]).endpoint_id by {
        assert(all[j] == w[j - 1]);
        if i > 0 {
            assert(all[i] == w[i - 1]);
        }
    }
    let r = remembered(s, h);
    if all.len() > MAX_SAVED_HOSTS {
        assert forall|i: int, j: int| 0 <= i < j < r.len() implies (#[trigger] r[i]).endpoint_id
            != (#[trigger] r[j]).endpoint_id by {
            assert(r[i] == all[i] && r[j] == all[j]);
        }
    }
}

/// The saved list after a successful connection to `host`, or `None` when
/// the host has no endpoint id and nothing is remembered.
pub fn remember_host(hosts: &Vec<SavedHost>, host: SavedHost) -> (r: Option<Vec<SavedHost>>)
    ensures
        host.endpoint_id@.len() == 0 ==> r is None,
        host.endpoint_id@.len() > 0 ==> (r matches Some(v) && saved_views(v@) == remembered(saved_views(hosts@), host@)),
{
    if host.endpoint_id.as_str().is_empty() {
        return None;
    }
    let ghost s = saved_views(hosts@);
    let ghost id = host@.endpoint_id;
    let mut kept: Vec<SavedHost> = Vec::new();
    let n = hosts.len();
    assert(s.take(0) =~= Seq::<SavedModel>::empty());
    for i in 0..n
        invariant
            n == hosts@.len(),
            s == saved_views(hosts@),
            id == host@.endpoint_id,
            saved_views(kept@) == without_endpoint(s.take(i as int), id),
    {
        assert(s.take(i + 1).drop_last() == s.take(i as int));
        assert(s.take(i + 1).last() == hosts@[i as int]@);
        if hosts[i].endpoint_id != host.endpoint_id {
            let ghost before = kept@;
            kept.push(hosts[i].duplicate());
            assert(saved_views(kept@) =~= saved_views(before).push(hosts@[i as int]@));
        } else {
            assert(hosts@[i as int]@.endpoint_id == id);
        }
    }
    assert(s.take(n as int) == s);
    let ghost w = saved_views(kept@);
    let hv = host.duplicate();
    let mut out: Vec<SavedHost> = vec![hv];
    let m = kept.len();
    for i in 0..m
        invariant
            m == kept@.len(),
            w == saved_views(kept@),
            saved_views(out@) == seq![host@] + w.take(i as int),
    {
        let ghost before = out@;
        out.push(kept[i].duplicate());
        assert(w.take(i + 1) == w.take(i as int).push(w[i as int]));
        assert(saved_views(out@) =~= saved_views(before).push(kept@[i as int]@));
    }
    assert(w.take(m as int) == w);
    let ghost all = saved_views(out@);
    out.truncate(MAX_SAVED_HOSTS);
    assert(saved_views(out@) =~= remembered(s, host@));
    Some(out)
}

// ---------------------------------------------------------------------------
// Trusted devices at connect time
// ---------------------------------------------------------------------------

/// The request carries a proof or a passphrase of its own.
pub open spec fn has_secret(cfg: ConnectModel) -> bool {
    (cfg.proof matches Some(p) && p.len() > 0) || (cfg.passphrase matches Some(p) && p.len() > 0)
}

/// The saved entry a request without a secret is matched against: its
/// endpoint id is the requested endpoint (or ticket), or its name is the
/// requested network name.
pub open spec fn saved_matches(h: SavedModel, target: Option<Seq<char>>, name: Seq<char>) -> bool {
    target == Some(h.endpoint_id) || h.network_name == name
}

/// The first saved entry that matches, if any.
pub open spec fn first_saved(s: Seq<SavedModel>, target: Option<Seq<char>>, name: Seq<char>) -> Option<SavedModel>
    decreases s.len(),
{
    if s.len() == 0 {
        None
    } else {
        match first_saved(s.drop_last(), target, name) {
            Some(h) => Some(h),
            None => if saved_matches(s.last(), target, name) {
                Some(s.last())
            } else {
                None
            },
        }
    }
}

/// The endpoint (or, failing that, the ticket) a request names.
pub open spec fn request_target(cfg: ConnectModel) -> Option<Seq<char>> {
    match cfg.endpoint_id {
        Some(e) => Some(e),
        None => cfg.ticket,
    }
}

/// The request after the trusted-device lookup: with no secret of its own,
/// the first matching saved host lends its proof, and its endpoint id when
/// the request named neither an endpoint nor a ticket.
pub open spec fn prepared(cfg: ConnectModel, saved: Seq<SavedModel>) -> ConnectModel {
    if has_secret(cfg) {
        cfg
    } else {
        match first_saved(saved, request_target(cfg), cfg.network_name) {
            Some(h) => ConnectModel {
                proof: h.proof,
                endpoint_id: if cfg.endpoint_id is None && cfg.ticket is None {
                    Some(h.endpoint_id)
                } else {
                    cfg.endpoint_id
                },
                ..cfg
            },
            None => cfg,
        }
    }
}

fn nonempty_opt(o: &Option<String>) -> (b: bool)
    ensures
        b == (opt_view(*o) matches Some(p) && p.len() > 0),
{
    match o {
        Some(p) => !p.as_str().is_empty(),
        None => false,
    }
}

fn matches_saved(h: &SavedHost, target: &Option<String>, name: &String) -> (b: bool)
    ensures
        b == saved_matches(h@, opt_view(*target), name@),
{
    let by_id = match target {
        Some(t) => *t == h.endpoint_id,
        None => false,
    };
    by_id || h.network_name == *name
}

/// Complete a connect request from the trusted devices: a request without
/// a proof or passphrase reuses what the first matching saved host holds.
pub fn prepare_connect(cfg: ConnectConfig, saved: &Vec<SavedHost>) -> (r: ConnectConfig)
    ensures
        r@ == prepared(cfg@, saved_views(saved@)),
{
    if nonempty_opt(&cfg.proof) || nonempty_opt(&cfg.passphrase) {
        return cfg;
    }
    let target = match &cfg.endpoint_id {
        Some(e) => Some(e.clone()),
        None => clone_opt(&cfg.ticket),
    };
    let ghost s = saved_views(saved@);
    let ghost t = opt_view(target);
    let mut found: Option<usize> = None;
    let n = saved.len();
    assert(s.take(0) =~= Seq::<SavedModel>::empty());
    for i in 0..n
        invariant
            n == saved@.len(),
            s == saved_views(saved@),
            t == opt_view(target),
            match found {
                Some(k) => k < i && first_saved(s.take(i as int), t, cfg.network_name@) == Some(s[k as int]),
                None => first_saved(s.take(i as int), t, cfg.network_name@) is None,
            },
    {
        assert(s.take(i + 1).drop_last() == s.take(i as int));
        assert(s.take(i + 1).last() == saved@[i as int]@);
        if found.is_none() && matches_saved(&saved[i], &target, &cfg.network_name) {
            found = Some(i);
        }
    }
    assert(s.take(n as int) == s);
    match found {
        Some(k) => {
            let h = &saved[k];
            let name_only = cfg.endpoint_id.is_none() && cfg.ticket.is_none();
            let endpoint_id = if name_only {
                Some(h.endpoint_id.clone())
            } else {
                cfg.endpoint_id
            };
            ConnectConfig {
                network_name: cfg.network_name,
                passphrase: cfg.passphrase,
                ticket: cfg.ticket,
                endpoint_id,
                proof: clone_opt(&h.proof),
            }
        },
        None => cfg,
    }
}

/// Whether saved entry `h` answers request `cfg`: its endpoint id is the
/// endpoint the request names (or, with none named, its ticket), or its
/// network name is the one asked for.
pub open spec fn answers_request(h: SavedModel, cfg: ConnectModel) -> bool {
    ||| cfg.endpoint_id == Some(h.endpoint_id)
    ||| (cfg.endpoint_id is None && cfg.ticket == Some(h.endpoint_id))
    ||| h.network_name == cfg.network_name
}

proof fn lemma_first_saved_at(s: Seq<SavedModel>, cfg: ConnectModel, i: int)
    requires
        0 <= i <= s.len(),
        forall|j: int| 0 <= j < i ==> !answers_request(#[trigger] s[j], cfg),
    ensures
        i == s.len() ==> first_saved(s, request_target(cfg), cfg.network_name) is None,
        i < s.len() && answers_request(s[i], cfg) ==> first_saved(s, request_target(cfg), cfg.network_name) == Some(s[i]),
    decreases s.len(),
{
    if s.len() > 0 {
        let d = s.drop_last();
        if i < s.len() {
            assert forall|j: int| 0 <= j < i implies !answers_request(#[trigger] d[j], cfg) by {
                assert(d[j] == s[j]);
            }
            if i < d.len() {
                lemma_first_saved_at(d, cfg, i);
                assert(d[i] == s[i]);
            } else {
                lemma_first_saved_at(d, cfg, d.len() as int);
            }
        } else {
            assert forall|j: int| 0 <= j < d.len() implies !answers_request(#[trigger] d[j], cfg) by {
                assert(d[j] == s[j]);
            }
            lemma_first_saved_at(d, cfg, d.len() as int);
            assert(!answers_request(s[s.len() - 1], cfg));
        }
    }
}

/// A request that carries neither a proof nor a passphrase (each absent or
/// empty) borrows the proof of the first saved host that answers it, and
/// keeps its name, passphrase and ticket; only a request that names neither
/// an endpoint nor a ticket also takes that host's endpoint id. With no saved
/// host answering it, the request is unchanged.
pub proof fn secretless_request_borrows_saved_proof(cfg: ConnectModel, saved: Seq<SavedModel>, i: int)
    requires
        cfg.proof is None || cfg.proof.unwrap().len() == 0,
        cfg.passphrase is None || cfg.passphrase.unwrap().len() == 0,
        0 <= i <= saved.len(),
        forall|j: int| 0 <= j < i ==> !answers_request(#[trigger] saved[j], cfg),
    ensures
        i < saved.len() && answers_request(saved[i], cfg) ==> {
            let r = prepared(cfg, saved);
            &&& r.proof == saved[i].proof
            &&& r.network_name == cfg.network_name
            &&& r.passphrase == cfg.passphrase
            &&& r.ticket == cfg.ticket
            &&& r.endpoint_id == if cfg.endpoint_id is None && cfg.ticket is None {
                Some(saved[i].endpoint_id)
            } else {
                cfg.endpoint_id
            }
        },
        i == saved.len() ==> prepared(cfg, saved) == cfg,
{
    assert(!has_secret(cfg));
    lemma_first_saved_at(saved, cfg, i);
}

/// A request that carries a non-empty proof or a non-empty passphrase of its
/// own is used as it is, whatever is saved.
pub proof fn request_with_secret_is_kept(cfg: ConnectModel, saved: Seq<SavedModel>)
    requires
        (cfg.proof matches Some(p) && p.len() > 0) || (cfg.passphrase matches Some(q) && q.len() > 0),
    ensures
        prepared(cfg, saved) == cfg,
{
}

/// The entry to remember after a successful connection: the network name
/// asked for, the peer that answered, and the proof that was presented.
pub fn saved_after_connect(cfg: &ConnectConfig, peer_endpoint_id: &Option<String>, proof_used: &Option<String>) -> (r: Option<SavedHost>)
    ensures
        match opt_view(*peer_endpoint_id) {
            Some(e) => r matches Some(h) && h@ == (SavedModel {
                network_name: cfg@.network_name,
                endpoint_id: e,
                proof: opt_view(*proof_used),
            }),
            None => r is None,
        },
{
    match peer_endpoint_id {
        Some(e) => Some(SavedHost {
            network_name: cfg.network_name.clone(),
            endpoint_id: e.clone(),
            proof: clone_opt(proof_used),
        }),
        None => None,
    }
}

/// A host connected to before is reconnected without a code or passphrase:
/// once it is remembered, a request for its endpoint id (or, naming no
/// endpoint or ticket, for its network name) that brings no secret presents
/// the remembered proof, and finds the remembered endpoint.
pub proof fn remembered_host_needs_no_secret(saved: Seq<SavedModel>, h: SavedModel, cfg: ConnectModel)
    requires
        h.endpoint_id.len() > 0,
        !has_secret(cfg),
        cfg.endpoint_id == Some(h.endpoint_id) || (cfg.endpoint_id is None && cfg.ticket is None
            && cfg.network_name == h.network_name),
    ensures
        prepared(cfg, remembered(saved, h)).proof == h.proof,
        prepared(cfg, remembered(saved, h)).endpoint_id == Some(h.endpoint_id),
        session_proof_spec(prepared(cfg, remembered(saved, h)).proof, prepared(cfg, remembered(saved, h)).passphrase)
            == (match h.proof {
                Some(p) => if p.len() > 0 {
                    Some(p)
                } else {
                    None
                },
                None => None,
            }),
{
    let r = remembered(saved, h);
    let all = seq![h] + without_endpoint(saved, h.endpoint_id);
    assert(r[0] == h);
    assert(r.len() >= 1);
    lemma_first_saved_head(r, request_target(cfg), cfg.network_name);
}

proof fn lemma_first_saved_head(s: Seq<SavedModel>, target: Option<Seq<char>>, name: Seq<char>)
    requires
        s.len() >= 1,
        saved_matches(s[0], target, name),
    ensures
        first_saved(s, target, name) == Some(s[0]),
    decreases s.len(),
{
    if s.len() > 1 {
        assert(s.drop_last()[0] == s[0]);
        lemma_first_saved_head(s.drop_last(), target, name);
    } else {
        assert(s.drop_last().len() == 0);
        assert(first_saved(s.drop_last(), target, name) is None);
        assert(s.last() == s[0]);
    }
}

// ---------------------------------------------------------------------------
// The host list shown to the user
// ---------------------------------------------------------------------------

/// How a saved host is listed while it is not seen on the LAN.
pub open spec fn saved_listing(h: SavedModel) -> HostModel {
    HostModel {
        network_name: h.network_name,
        endpoint_id: h.endpoint_id,
        source: "saved"@,
        requires_passphrase: false,
        online: false,
    }
}

/// The saved hosts whose endpoint is not among `live`, as listed entries.
pub open spec fn offline_saved(live: Seq<Seq<char>>, s: Seq<SavedModel>) -> Seq<HostModel>
    decreases s.len(),
{
    if s.len() == 0 {
        Seq::<HostModel>::empty()
    } else if live.contains(s.last().endpoint_id) {
        offline_saved(live, s.drop_last())
    } else {
        offline_saved(live, s.drop_last()).push(saved_listing(s.last()))
    }
}

/// The endpoint ids of listed hosts.
pub open spec fn endpoint_ids(v: Seq<HostModel>) -> Seq<Seq<char>> {
    v.map_values(|h: HostModel| h.endpoint_id)
}

fn listed(live: &Vec<DiscoveredHost>, id: &String) -> (b: bool)
    ensures
        b == endpoint_ids(host_views(live@)).contains(id@),
{
    let n = live.len();
    for i in 0..n
        invariant
            n == live@.len(),
            forall|j: int| 0 <= j < i ==> endpoint_ids(host_views(live@))[j] != id@,
    {
        if live[i].endpoint_id == *id {
            assert(endpoint_ids(host_views(live@))[i as int] == id@);
            return true;
        }
    }
    false
}

/// The host list: the hosts seen now, then each trusted host that is not
/// among them, marked offline and needing no passphrase.
pub fn merge_saved_hosts(live: Vec<DiscoveredHost>, saved: &Vec<SavedHost>) -> (r: Vec<DiscoveredHost>)
    ensures
        host_views(r@) == host_views(live@) + offline_saved(endpoint_ids(host_views(live@)), saved_views(saved@)),
{
    let ghost ids = endpoint_ids(host_views(live@));
    let ghost lv = host_views(live@);
    let ghost s = saved_views(saved@);
    let mut extra: Vec<DiscoveredHost> = Vec::new();
    let n = saved.len();
    assert(s.take(0) =~= Seq::<SavedModel>::empty());
    for i in 0..n
        invariant
            n == saved@.len(),
            s == saved_views(saved@),
            ids == endpoint_ids(host_views(live@)),
            host_views(extra@) == offline_saved(ids, s.take(i as int)),
    {
        assert(s.take(i + 1).drop_last() == s.take(i as int));
        assert(s.take(i + 1).last() == saved@[i as int]@);
        if !listed(&live, &saved[i].endpoint_id) {
            let ghost before = extra@;
            extra.push(DiscoveredHost {
                network_name: saved[i].network_name.clone(),
                endpoint_id: saved[i].endpoint_id.clone(),
                source: owned("saved"),
                requires_passphrase: false,
                online: false,
            });
            assert(host_views(extra@) =~= host_views(before).push(saved_listing(s[i as int])));
        }
    }
    assert(s.take(n as int) == s);
    let ghost ev = host_views(extra@);
    let mut out = live;
    let m = extra.len();
    for i in 0..m
        invariant
            m == extra@.len(),
            ev == host_views(extra@),
            host_views(out@) == lv + ev.take(i as int),
    {
        let ghost before = out@;
        out.push(extra[i].duplicate());
        assert(ev.take(i + 1) == ev.take(i as int).push(ev[i as int]));
        assert(host_views(out@) =~= host_views(before).push(extra@[i as int]@));
    }
    assert(ev.take(m as int) == ev);
    out
}

// ---------------------------------------------------------------------------
// The private and the public VPN exclude each other
// ---------------------------------------------------------------------------

/// Refusal to host while the public VPN is up.
pub open spec fn host_blocked_text() -> Seq<char> {
    "Disconnect the public VPN before hosting a private network."@
}

/// Refusal to join while the public VPN is up.
pub open spec fn join_blocked_text() -> Seq<char> {
    "Disconnect the public VPN before joining a private network."@
}

/// Refusal to use a public server while the private VPN is busy.
pub open spec fn public_blocked_text() -> Seq<char> {
    "Stop the private VPN (host or connect) before using a public server."@
}

/// Hosting is allowed only while the public VPN is inactive.
pub fn check_can_host(public_active: bool) -> (r: Result<(), VpnError>)
    ensures
        !public_active <==> r is Ok,
        public_active ==> (r matches Err(e) && e is Message && e.text() == host_blocked_text()),
{
    if public_active {
        Err(VpnError::msg("Disconnect the public VPN before hosting a private network."))
    } else {
        Ok(())
    }
}

/// Joining is allowed only while the public VPN is inactive.
pub fn check_can_join(public_active: bool) -> (r: Result<(), VpnError>)
    ensures
        !public_active <==> r is Ok,
        public_active ==> (r matches Err(e) && e is Message && e.text() == join_blocked_text()),
{
    if public_active {
        Err(VpnError::msg("Disconnect the public VPN before joining a private network."))
    } else {
        Ok(())
    }
}

/// The private VPN leaves room for a public server: it is idle or failed.
pub open spec fn private_idle(state: ConnectionState) -> bool {
    state == ConnectionState::Idle || state == ConnectionState::Error
}

/// A public server may be used only while the private VPN is idle or failed.
pub fn check_can_use_public(state: ConnectionState) -> (r: Result<(), VpnError>)
    ensures
        private_idle(state) <==> r is Ok,
        !private_idle(state) ==> (r matches Err(e) && e is Message && e.text() == public_blocked_text()),
{
    match state {
        ConnectionState::Idle | ConnectionState::Error => Ok(()),
        _ => Err(VpnError::msg("Stop the private VPN (host or connect) before using a public server.")),
    }
}

// ---------------------------------------------------------------------------
// Settings kept across runs
// ---------------------------------------------------------------------------

/// Record that hosting `name` has started.
pub fn record_hosting_started(s: &mut Settings, name: String)
    ensures
        final(s)@ == (SettingsModel { was_hosting: true, last_network_name: Some(name@), ..old(s)@ }),
{
    s.was_hosting = true;
    s.last_network_name = Some(name);
}

/// Record that hosting has been stopped by the user.
pub fn record_hosting_stopped(s: &mut Settings)
    ensures
        final(s)@ == (SettingsModel { was_hosting: false, ..old(s)@ }),
{
    s.was_hosting = false;
}

/// Record the start-on-boot choice.
pub fn record_autostart(s: &mut Settings, enabled: bool)
    ensures
        final(s)@ == (SettingsModel { autostart: enabled, ..old(s)@ }),
{
    s.autostart = enabled;
}

/// The network to bring back up at launch: the last one hosted, when the
/// user asked for hosting to resume and was hosting at shutdown.
pub open spec fn resume_spec(s: SettingsModel) -> Option<Seq<char>> {
    if s.resume_hosting && s.was_hosting {
        s.last_network_name
    } else {
        None
    }
}

/// The network to host again at launch, if any.
pub fn resume_target(s: &Settings) -> (r: Option<String>)
    ensures
        opt_view(r) == resume_spec(s@),
{
    if s.resume_hosting && s.was_hosting {
        clone_opt(&s.last_network_name)
    } else {
        None
    }
}

/// With resuming enabled, the network brought back at launch is the one
/// hosted last, and none once hosting was stopped.
pub proof fn resume_follows_last_host(s: SettingsModel, name: Seq<char>)
    requires
        s.resume_hosting,
    ensures
        resume_spec(SettingsModel { was_hosting: true, last_network_name: Some(name), ..s }) == Some(name),
        resume_spec(SettingsModel { was_hosting: false, ..s }) is None,
{
}

// ---------------------------------------------------------------------------
// Release check
// ---------------------------------------------------------------------------

/// A separator between the numbers of a version tag.
pub open spec fn is_version_sep(c: char) -> bool {
    c == '.' || c == '-' || c == '+'
}

/// The tag with every separator written as a dot.
pub open spec fn unify_seps(s: Seq<char>) -> Seq<char> {
    s.map_values(|c: char| if is_version_sep(c) { '.' } else { c })
}

/// The tag without its leading `v`s (`trim_start_matches('v')`).
pub open spec fn strip_v(s: Seq<char>) -> Seq<char>
    decreases s.len(),
{
    if s.len() > 0 && s[0] == 'v' {
        strip_v(s.drop_first())
    } else {
        s
    }
}

/// The `k`-th number of a split tag, 0 when absent or not a number.
pub open spec fn version_part(pieces: Seq<Seq<char>>, k: int) -> u32 {
    if k < pieces.len() {
        match parse_u32(pieces[k]) {
            Some(v) => v,
            None => 0,
        }
    } else {
        0
    }
}

/// A `v1.2.3` / `1.2.3` tag as a comparable triple (unknown parts are 0).
pub open spec fn version_of(s: Seq<char>) -> (u32, u32, u32) {
    let pieces = split(unify_seps(strip_v(trim(s))), '.');
    (version_part(pieces, 0), version_part(pieces, 1), version_part(pieces, 2))
}

/// `a` is a later version than `b` (tuple order).
pub open spec fn newer(a: (u32, u32, u32), b: (u32, u32, u32)) -> bool {
    a.0 > b.0 || (a.0 == b.0 && (a.1 > b.1 || (a.1 == b.1 && a.2 > b.2)))
}

fn strip_v_chars(t: &[char]) -> (out: Vec<char>)
    ensures
        out@ == strip_v(t@),
{
    let n = t.len();
    let mut i: usize = 0;
    assert(t@.subrange(0, n as int) == t@);
    while i < n && t[i] == 'v'
        invariant
            i <= n,
            n == t@.len(),
            strip_v(t@.subrange(i as int, n as int)) == strip_v(t@),
        decreases n - i,
    {
        let ghost rest = t@.subrange(i as int, n as int);
        assert(rest.drop_first() == t@.subrange(i + 1, n as int));
        i += 1;
    }
    slice_chars(t, i, n)
}

fn unify_seps_chars(t: &[char]) -> (out: Vec<char>)
    ensures
        out@ == unify_seps(t@),
{
    let mut out: Vec<char> = Vec::new();
    let n = t.len();
    for i in 0..n
        invariant
            n == t@.len(),
            out@ == unify_seps(t@.take(i as int)),
    {
        let c = t[i];
        out.push(if c == '.' || c == '-' || c == '+' { '.' } else { c });
        assert(out@ =~= unify_seps(t@.take(i + 1)));
    }
    assert(t@.take(n as int) == t@);
    out
}

fn part_of(pieces: &Vec<Vec<char>>, k: usize) -> (v: u32)
    ensures
        v == version_part(views(pieces@), k as int),
{
    if k < pieces.len() {
        match parse_u32_chars(pieces[k].as_slice()) {
            Some(v) => v,
            None => 0,
        }
    } else {
        0
    }
}

/// Parse a `v1.2.3` / `1.2.3` tag into a comparable triple.
pub fn parse_version(s: &str) -> (r: (u32, u32, u32))
    ensures
        r == version_of(s@),
{
    let cs = chars_of(s);
    let t = trim_chars(cs.as_slice());
    let u = strip_v_chars(t.as_slice());
    let w = unify_seps_chars(u.as_slice());
    let pieces = split_chars(w.as_slice(), '.');
    (part_of(&pieces, 0), part_of(&pieces, 1), part_of(&pieces, 2))
}

/// The canonical tag of a version: `v` and the three numbers joined by dots.
pub open spec fn version_tag(a: u32, b: u32, c: u32) -> Seq<char> {
    "v"@ + decimal(a as nat) + "."@ + decimal(b as nat) + "."@ + decimal(c as nat)
}

proof fn lemma_digits_have_no_dot(n: nat)
    ensures
        forall|i: int| 0 <= i < decimal(n).len() ==> decimal(n)[i] != '.',
        forall|i: int| 0 <= i < decimal(n).len() ==> !is_version_sep(decimal(n)[i]),
        decimal(n).len() >= 1,
        !is_ws(decimal(n).last()),
        decimal(n)[0] != 'v',
{
    lemma_decimal_digits(n);
    assert forall|i: int| 0 <= i < decimal(n).len() implies decimal(n)[i] != '.' by {
        assert(is_digit(decimal(n)[i]));
    }
    assert forall|i: int| 0 <= i < decimal(n).len() implies !is_version_sep(decimal(n)[i]) by {
        assert(is_digit(decimal(n)[i]));
    }
    assert(is_digit(decimal(n)[decimal(n).len() - 1]));
    assert(is_digit(decimal(n)[0]));
}

/// A release tag reads back as the version it was written for.
pub proof fn version_tag_roundtrip(a: u32, b: u32, c: u32)
    ensures
        version_of(version_tag(a, b, c)) == (a, b, c),
{
    reveal_strlit("v");
    reveal_strlit(".");
    lemma_digits_have_no_dot(a as nat);
    lemma_digits_have_no_dot(b as nat);
    lemma_digits_have_no_dot(c as nat);
    let da = decimal(a as nat);
    let db = decimal(b as nat);
    let dc = decimal(c as nat);
    let s = version_tag(a, b, c);
    let tail = db + seq!['.'] + dc;
    let u = da + seq!['.'] + tail;
    assert(s =~= seq!['v'] + u);
    assert(s[0] == 'v');
    assert(s.last() == dc.last());
    lemma_trim_noop(s);
    assert(s.drop_first() =~= u);
    assert(u[0] == da[0]);
    assert(strip_v(u) == u);
    assert(strip_v(s) == u);
    assert forall|i: int| 0 <= i < u.len() implies !is_version_sep(u[i]) || u[i] == '.' by {
        if i < da.len() {
            assert(u[i] == da[i]);
        } else if i > da.len() {
            if i - da.len() - 1 < db.len() {
                assert(u[i] == db[i - da.len() - 1]);
            } else if i - da.len() - 1 > db.len() {
                assert(u[i] == dc[i - da.len() - 2 - db.len()]);
            }
        }
    }
    assert(unify_seps(u) =~= u);
    lemma_split_append(da, tail, '.');
    lemma_split_append(db, dc, '.');
    lemma_split_free(da, '.');
    lemma_split_free(db, '.');
    lemma_split_free(dc, '.');
    let pieces = split(u, '.');
    assert(pieces =~= seq![da, db, dc]);
    lemma_parse_decimal(a as nat, u32::MAX as nat);
    lemma_parse_decimal(b as nat, u32::MAX as nat);
    lemma_parse_decimal(c as nat, u32::MAX as nat);
}

/// A newer release, as offered to the user.
#[derive(Debug)]
pub struct UpdateInfo {
    pub version: String,
    pub url: String,
}

/// The release to offer: one with a page whose tag is newer than the running
/// version; its version is the tag without leading `v`s.
pub open spec fn offer_spec(tag: Seq<char>, page: Seq<char>, current: Seq<char>) -> Option<(Seq<char>, Seq<char>)> {
    if page.len() > 0 && newer(version_of(tag), version_of(current)) {
        Some((strip_v(tag), page))
    } else {
        None
    }
}

/// Decide on the latest release's tag and page against the running version.
pub fn update_offer(tag: &str, page: &str, current: &str) -> (r: Option<UpdateInfo>)
    ensures
        match offer_spec(tag@, page@, current@) {
            Some((v, u)) => r matches Some(info) && info.version@ == v && info.url@ == u,
            None => r is None,
        },
{
    if page.is_empty() {
        return None;
    }
    let a = parse_version(tag);
    let b = parse_version(current);
    let is_newer = a.0 > b.0 || (a.0 == b.0 && (a.1 > b.1 || (a.1 == b.1 && a.2 > b.2)));
    if is_newer {
        let tc = chars_of(tag);
        let version = string_from_chars(strip_v_chars(tc.as_slice()).as_slice());
        Some(UpdateInfo { version, url: owned(page) })
    } else {
        None
    }
}

/// The running version is never offered as an update to itself, and neither
/// is any older one.
pub proof fn no_update_to_same_or_older(tag: Seq<char>, page: Seq<char>, current: Seq<char>)
    requires
        !newer(version_of(tag), version_of(current)),
    ensures
        offer_spec(tag, page, current) is None,
        offer_spec(current, page, current) is None,
{
}

/// Version order is the order of (major, minor, patch) read left to right:
/// a larger major number wins whatever follows, then a larger minor number,
/// then a larger patch number; equal triples are not newer.
pub proof fn newer_is_tuple_order(a: (u32, u32, u32), b: (u32, u32, u32))
    ensures
        a.0 > b.0 ==> newer(a, b),
        a.0 < b.0 ==> !newer(a, b),
        a.0 == b.0 && a.1 > b.1 ==> newer(a, b),
        a.0 == b.0 && a.1 < b.1 ==> !newer(a, b),
        a.0 == b.0 && a.1 == b.1 ==> (newer(a, b) <==> a.2 > b.2),
        !newer(a, a),
        newer(a, b) ==> !newer(b, a),
{
}

/// A release is offered exactly when it has a page and its tag reads as a
/// later (major, minor, patch) triple than the running version: a higher
/// major release is always offered, a lower one never, and within one major
/// release the minor and then the patch number decide. What is offered is
/// the tag without its leading `v`s, and the page itself.
pub proof fn update_offer_is_lexicographic(tag: Seq<char>, page: Seq<char>, current: Seq<char>)
    ensures
        page.len() == 0 ==> offer_spec(tag, page, current) is None,
        page.len() > 0 && version_of(tag).0 > version_of(current).0
            ==> offer_spec(tag, page, current) == Some((strip_v(tag), page)),
        version_of(tag).0 < version_of(current).0 ==> offer_spec(tag, page, current) is None,
        page.len() > 0 && version_of(tag).0 == version_of(current).0 && version_of(tag).1 > version_of(current).1
            ==> offer_spec(tag, page, current) == Some((strip_v(tag), page)),
        version_of(tag).0 == version_of(current).0 && version_of(tag).1 < version_of(current).1
            ==> offer_spec(tag, page, current) is None,
        version_of(tag).0 == version_of(current).0 && version_of(tag).1 == version_of(current).1 ==> (
        offer_spec(tag, page, current) is Some <==> page.len() > 0 && version_of(tag).2 > version_of(current).2),
        offer_spec(tag, page, current) is Some ==> offer_spec(tag, page, current) == Some((strip_v(tag), page)),
{
}

// ---------------------------------------------------------------------------
// Start on boot
// ---------------------------------------------------------------------------

/// The name of the scheduled task that starts the app at logon.
pub open spec fn task_name() -> Seq<char> {
    "MyVPN Autostart"@
}

/// The `schtasks` arguments that create the logon task for `exe`, run with
/// highest privileges and minimised.
pub open spec fn create_task_args(exe: Seq<char>) -> Seq<Seq<char>> {
    seq!["/Create"@, "/TN"@, task_name(), "/TR"@, "\""@ + exe + "\" --minimized"@, "/SC"@, "ONLOGON"@,
        "/RL"@, "HIGHEST"@, "/F"@]
}

fn push_owned(v: &mut Vec<String>, t: &str)
    ensures
        string_views(final(v)@) == string_views(old(v)@).push(t@),
{
    let ghost before = v@;
    v.push(owned(t));
    assert(string_views(v@) =~= string_views(before).push(t@));
}

/// The `schtasks` arguments that enable start on boot.
pub fn autostart_create_args(exe: &str) -> (r: Vec<String>)
    ensures
        string_views(r@) == create_task_args(exe@),
{
    let mut v: Vec<String> = Vec::new();
    push_owned(&mut v, "/Create");
    push_owned(&mut v, "/TN");
    push_owned(&mut v, "MyVPN Autostart");
    push_owned(&mut v, "/TR");
    let ec = chars_of(exe);
    let run = cat3("\"", ec.as_slice(), "\" --minimized");
    let ghost before = v@;
    v.push(run);
    assert(string_views(v@) =~= string_views(before).push("\""@ + exe@ + "\" --minimized"@));
    push_owned(&mut v, "/SC");
    push_owned(&mut v, "ONLOGON");
    push_owned(&mut v, "/RL");
    push_owned(&mut v, "HIGHEST");
    push_owned(&mut v, "/F");
    assert(string_views(v@) =~= create_task_args(exe@));
    v
}

/// The `schtasks` arguments that disable start on boot.
pub fn autostart_delete_args() -> (r: Vec<String>)
    ensures
        string_views(r@) == seq!["/Delete"@, "/TN"@, task_name(), "/F"@],
{
    let mut v: Vec<String> = Vec::new();
    push_owned(&mut v, "/Delete");
    push_owned(&mut v, "/TN");
    push_owned(&mut v, "MyVPN Autostart");
    push_owned(&mut v, "/F");
    assert(string_views(v@) =~= seq!["/Delete"@, "/TN"@, task_name(), "/F"@]);
    v
}

/// The `schtasks` arguments that ask whether start on boot is enabled.
pub fn autostart_query_args() -> (r: Vec<String>)
    ensures
        string_views(r@) == seq!["/Query"@, "/TN"@, task_name()],
{
    let mut v: Vec<String> = Vec::new();
    push_owned(&mut v, "/Query");
    push_owned(&mut v, "/TN");
    push_owned(&mut v, "MyVPN Autostart");
    assert(string_views(v@) =~= seq!["/Query"@, "/TN"@, task_name()]);
    v
}

/// The error when the task could not be created, from its error output.
pub fn autostart_failure(stderr: &str) -> (e: VpnError)
    ensures
        e matches VpnError::Message(m) && m@ == "could not enable start on boot: "@ + trim(stderr@),
{
    let sc = chars_of(stderr);
    let t = trim_chars(sc.as_slice());
    VpnError::Message(cat2("could not enable start on boot: ", t.as_slice()))
}

// ---------------------------------------------------------------------------
// Window and tray
// ---------------------------------------------------------------------------

/// What closing the main window does.
#[derive(Debug, Clone, Copy, PartialEq, Eq, Structural)]
pub enum CloseAction {
    /// Hide to the tray and keep running (hosting continues in the background).
    HideToTray,
    /// Quit the application.
    Quit,
}

/// Closing the window honours the user's preference: hide to the tray, or quit.
pub fn close_action(minimize_to_tray: bool) -> (a: CloseAction)
    ensures
        minimize_to_tray <==> a == CloseAction::HideToTray,
{
    if minimize_to_tray {
        CloseAction::HideToTray
    } else {
        CloseAction::Quit
    }
}

/// The app starts hidden when launched at login, which passes `--minimized`.
pub fn starts_minimized(args: &Vec<String>) -> (b: bool)
    ensures
        b == string_views(args@).contains("--minimized"@),
{
    let n = args.len();
    for i in 0..n
        invariant
            n == args@.len(),
            forall|j: int| 0 <= j < i ==> string_views(args@)[j] != "--minimized"@,
    {
        if eq_lit(chars_of(args[i].as_str()).as_slice(), "--minimized") {
            assert(string_views(args@)[i as int] == "--minimized"@);
            return true;
        }
    }
    false
}

/// An entry of the tray menu.
#[derive(Debug, Clone, Copy, PartialEq, Eq, Structural)]
pub enum TrayAction {
    /// Show and focus the main window.
    ShowWindow,
    /// Quit the application.
    Quit,
}

/// The action of a tray menu item by its id; other ids do nothing.
pub fn tray_menu_action(id: &str) -> (a: Option<TrayAction>)
    ensures
        id@ == "open"@ ==> a == Some(TrayAction::ShowWindow),
        id@ == "quit"@ ==> a == Some(TrayAction::Quit),
        id@ != "open"@ && id@ != "quit"@ ==> a is None,
{
    let ic = chars_of(id);
    proof {
        reveal_strlit("open");
        reveal_strlit("quit");
        assert("open"@[0] != "quit"@[0]);
        assert("open"@ != "quit"@);
    }
    if eq_lit(ic.as_slice(), "open") {
        Some(TrayAction::ShowWindow)
    } else if eq_lit(ic.as_slice(), "quit") {
        Some(TrayAction::Quit)
    } else {
        None
    }
}

} // verus!
