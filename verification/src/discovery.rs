//! Local-network host discovery.
//!
//! While hosting, the application broadcasts a small beacon on the LAN every
//! couple of seconds; every instance listens and keeps a table of the hosts
//! heard recently, so hosts on the same network appear automatically and can
//! be reached by name. This module holds that table; times are milliseconds
//! on a monotonic clock supplied by the caller.

use vstd::prelude::*;
use crate::state::{host_views, DiscoveredHost, HostModel};
use crate::text::{chars_of, eq_lit, owned, string_from_chars, trim, trim_chars};
use crate::transport::{to_lowercase, unicode_lower};

verus! {

/// The UDP port beacons are broadcast to.
pub const BEACON_PORT: u16 = 50266;

/// How long a host stays listed after its last beacon, in milliseconds.
pub const TTL_MS: u64 = 8000;

/// A presence beacon as received from the network.
#[derive(Debug)]
pub struct Beacon {
    pub magic: String,
    pub name: String,
    pub endpoint_id: String,
    pub requires_passphrase: bool,
}

/// The marker that identifies this application's beacons.
pub open spec fn beacon_magic() -> Seq<char> {
    "MYVPN1"@
}

/// The marker that identifies this application's beacons.
pub fn magic() -> (s: String)
    ensures
        s@ == beacon_magic(),
{
    owned("MYVPN1")
}

impl Beacon {
    /// The beacon a host broadcasts for its network.
    pub fn announce(name: String, endpoint_id: String, requires_passphrase: bool) -> (b: Beacon)
        ensures
            b.magic@ == beacon_magic(),
            b.name == name,
            b.endpoint_id == endpoint_id,
            b.requires_passphrase == requires_passphrase,
    {
        Beacon { magic: magic(), name, endpoint_id, requires_passphrase }
    }
}

/// The host a beacon announces, if it is a valid beacon of this application.
pub open spec fn host_of_beacon(magic: Seq<char>, name: Seq<char>, endpoint_id: Seq<char>, requires_passphrase: bool) -> Option<HostModel> {
    if magic == beacon_magic() && endpoint_id.len() > 0 {
        Some(
            HostModel {
                network_name: name,
                endpoint_id,
                source: "lan"@,
                requires_passphrase,
                online: true,
            },
        )
    } else {
        None
    }
}

/// One table entry: a host and when it was last heard.
#[derive(Debug)]
pub struct HostEntry {
    pub host: DiscoveredHost,
    pub seen_ms: u64,
}

/// The model of the table: its entries in order.
pub open spec fn entry_views(es: Seq<HostEntry>) -> Seq<(HostModel, u64)> {
    es.map_values(|e: HostEntry| (e.host@, e.seen_ms))
}

/// No endpoint id occurs twice.
pub open spec fn unique_ids(es: Seq<(HostModel, u64)>) -> bool {
    forall|i: int, j: int|
        0 <= i < j < es.len() ==> (#[trigger] es[i]).0.endpoint_id != (#[trigger] es[j]).0.endpoint_id
}

/// The entries after hearing `h` at time `t`: the entry for its endpoint id
/// is replaced in place, or a new one is appended.
pub open spec fn upsert(es: Seq<(HostModel, u64)>, h: HostModel, t: u64) -> Seq<(HostModel, u64)> {
    if exists|i: int| 0 <= i < es.len() && (#[trigger] es[i]).0.endpoint_id == h.endpoint_id {
        let i = choose|i: int| 0 <= i < es.len() && (#[trigger] es[i]).0.endpoint_id == h.endpoint_id;
        es.update(i, (h, t))
    } else {
        es.push((h, t))
    }
}

/// An entry last heard at `seen` is still fresh at `now`.
pub open spec fn fresh(seen: u64, now: u64) -> bool {
    (if now >= seen {
        now - seen
    } else {
        0
    }) < TTL_MS
}

/// The entries still fresh at `now`, in order.
pub open spec fn keep_fresh(es: Seq<(HostModel, u64)>, now: u64) -> Seq<(HostModel, u64)>
    decreases es.len(),
{
    if es.len() == 0 {
        es
    } else if fresh(es.last().1, now) {
        keep_fresh(es.drop_last(), now).push(es.last())
    } else {
        keep_fresh(es.drop_last(), now)
    }
}

/// The first fresh entry whose name matches `want` case-insensitively.
pub open spec fn find_name(es: Seq<(HostModel, u64)>, now: u64, want: Seq<char>) -> Option<Seq<char>>
    decreases es.len(),
{
    if es.len() == 0 {
        None
    } else {
        let earlier = find_name(es.drop_last(), now, want);
        if earlier is Some {
            earlier
        } else if fresh(es.last().1, now) && unicode_lower(es.last().0.network_name) == want {
            Some(es.last().0.endpoint_id)
        } else {
            None
        }
    }
}

proof fn lemma_keep_fresh_sub(es: Seq<(HostModel, u64)>, now: u64)
    ensures
        keep_fresh(es, now).len() <= es.len(),
        forall|k: int|
            0 <= k < keep_fresh(es, now).len() ==> exists|i: int|
                0 <= i < es.len() && #[trigger] keep_fresh(es, now)[k] == es[i],
        unique_ids(es) ==> unique_ids(keep_fresh(es, now)),
        forall|k: int| 0 <= k < keep_fresh(es, now).len() ==> fresh(#[trigger] keep_fresh(es, now)[k].1, now),
    decreases es.len(),
{
    if es.len() > 0 {
        let d = es.drop_last();
        lemma_keep_fresh_sub(d, now);
        let kd = keep_fresh(d, now);
        assert forall|k: int| 0 <= k < kd.len() implies exists|i: int| 0 <= i < es.len() && #[trigger] kd[k] == es[i] by {
            let i = choose|i: int| 0 <= i < d.len() && kd[k] == d[i];
            assert(es[i] == d[i]);
        }
        if fresh(es.last().1, now) {
            let r = kd.push(es.last());
            assert forall|k: int| 0 <= k < r.len() implies exists|i: int| 0 <= i < es.len() && #[trigger] r[k] == es[i] by {
                if k < kd.len() {
                    assert(r[k] == kd[k]);
                } else {
                    assert(r[k] == es[es.len() - 1]);
                }
            }
            if unique_ids(es) {
                assert(unique_ids(d)) by {
                    assert forall|i: int, j: int| 0 <= i < j < d.len() implies (#[trigger] d[i]).0.endpoint_id != (#[trigger] d[j]).0.endpoint_id by {
                        assert(d[i] == es[i] && d[j] == es[j]);
                    }
                }
                assert forall|i: int, j: int| 0 <= i < j < r.len() implies (#[trigger] r[i]).0.endpoint_id != (#[trigger] r[j]).0.endpoint_id by {
                    if j == r.len() - 1 {
                        assert(r[i] == kd[i]);
                        let m = choose|m: int| 0 <= m < d.len() && kd[i] == d[m];
                        assert(es[m] == d[m]);
                        assert(r[j] == es[es.len() - 1]);
                    } else {
                        assert(r[i] == kd[i] && r[j] == kd[j]);
                    }
                }
            }
            assert forall|k: int| 0 <= k < r.len() implies fresh(#[trigger] r[k].1, now) by {
                if k < kd.len() {
                    assert(r[k] == kd[k]);
                }
            }
        } else {
            if unique_ids(es) {
                assert forall|i: int, j: int| 0 <= i < j < d.len() implies (#[trigger] d[i]).0.endpoint_id != (#[trigger] d[j]).0.endpoint_id by {
                    assert(d[i] == es[i] && d[j] == es[j]);
                }
            }
        }
    }
}

proof fn lemma_fresh_entry_kept(es: Seq<(HostModel, u64)>, now: u64, i: int)
    requires
        0 <= i < es.len(),
        fresh(es[i].1, now),
    ensures
        keep_fresh(es, now).contains(es[i]),
    decreases es.len(),
{
    if i == es.len() - 1 {
        assert(keep_fresh(es, now).last() == es[i]);
    } else {
        let p = es.drop_last();
        assert(p[i] == es[i]);
        lemma_fresh_entry_kept(p, now, i);
        let k = choose|k: int| 0 <= k < keep_fresh(p, now).len() && keep_fresh(p, now)[k] == es[i];
        if fresh(es.last().1, now) {
            assert(keep_fresh(es, now)[k] == es[i]);
        }
    }
}

/// A host's own beacon is understood by every listener: right after a
/// beacon announcing a non-empty endpoint is heard, the host is listed,
/// online, under its name, with its passphrase requirement.
pub proof fn announced_host_is_listed(
    es: Seq<(HostModel, u64)>,
    name: Seq<char>,
    endpoint_id: Seq<char>,
    requires_passphrase: bool,
    now: u64,
)
    requires
        endpoint_id.len() > 0,
    ensures
        host_of_beacon(beacon_magic(), name, endpoint_id, requires_passphrase) matches Some(h) && keep_fresh(
            upsert(es, h, now),
            now,
        ).map_values(|e: (HostModel, u64)| e.0).contains(h),
{
    let h = HostModel { network_name: name, endpoint_id, source: "lan"@, requires_passphrase, online: true };
    let u = upsert(es, h, now);
    let idx = if exists|i: int| 0 <= i < es.len() && (#[trigger] es[i]).0.endpoint_id == h.endpoint_id {
        choose|i: int| 0 <= i < es.len() && (#[trigger] es[i]).0.endpoint_id == h.endpoint_id
    } else {
        es.len() as int
    };
    assert(u[idx] == (h, now));
    lemma_fresh_entry_kept(u, now, idx);
    let kf = keep_fresh(u, now);
    let k = choose|k: int| 0 <= k < kf.len() && kf[k] == (h, now);
    assert(kf.map_values(|e: (HostModel, u64)| e.0)[k] == h);
}

/// The table of hosts heard on the LAN.
#[derive(Debug)]
pub struct HostTable {
    entries: Vec<HostEntry>,
}

impl HostTable {
    /// The table's model: its entries in order.
    pub closed spec fn model(&self) -> Seq<(HostModel, u64)> {
        entry_views(self.entries@)
    }

    /// The table is well formed: one entry per endpoint id. Every table
    /// holds this at all times.
    #[verifier::type_invariant]
    spec fn wf(&self) -> bool {
        unique_ids(entry_views(self.entries@))
    }

    /// An empty table.
    pub fn new() -> (t: HostTable)
        ensures
            t.model() == Seq::<(HostModel, u64)>::empty(),
    {
        let t = HostTable { entries: Vec::new() };
        assert(t.model() =~= Seq::<(HostModel, u64)>::empty());
        t
    }

    /// Record a beacon heard at `now`. Returns whether it was accepted (a
    /// beacon of this application naming an endpoint); only then does the
    /// table change.
    pub fn observe(&mut self, beacon: &Beacon, now: u64) -> (accepted: bool)
        ensures
            unique_ids(final(self).model()),
            match host_of_beacon(beacon.magic@, beacon.name@, beacon.endpoint_id@, beacon.requires_passphrase) {
                Some(h) => accepted && final(self).model() == upsert(old(self).model(), h, now),
                None => !accepted && final(self).model() == old(self).model(),
            },
    {
        proof {
            use_type_invariant(&*self);
        }
        let mc = chars_of(beacon.magic.as_str());
        if !eq_lit(mc.as_slice(), "MYVPN1") || beacon.endpoint_id.as_str().is_empty() {
            return false;
        }
        let host = DiscoveredHost {
            network_name: beacon.name.clone(),
            endpoint_id: beacon.endpoint_id.clone(),
            source: owned("lan"),
            requires_passphrase: beacon.requires_passphrase,
            online: true,
        };
        let ghost hm = host@;
        proof {
            use_type_invariant(&*self);
        }
        let ghost es = self.model();
        assert(host_of_beacon(beacon.magic@, beacon.name@, beacon.endpoint_id@, beacon.requires_passphrase) == Some(hm));
        let mut v: Vec<HostEntry> = Vec::new();
        std::mem::swap(&mut v, &mut self.entries);
        assert(entry_views(v@) == es);
        let n = v.len();
        let mut i: usize = 0;
        while i < n
            invariant
                i <= n,
                n == v@.len(),
                es == entry_views(v@),
                es == old(self).model(),
                unique_ids(es),
                hm == host@,
                host_of_beacon(beacon.magic@, beacon.name@, beacon.endpoint_id@, beacon.requires_passphrase) == Some(hm),
                forall|j: int| 0 <= j < i ==> (#[trigger] es[j]).0.endpoint_id != hm.endpoint_id,
            decreases n - i,
        {
            assert(es[i as int] == (v@[i as int].host@, v@[i as int].seen_ms));
            if v[i].host.endpoint_id == host.endpoint_id {
                proof {
                    assert(es[i as int].0.endpoint_id == hm.endpoint_id);
                    let k = choose|k: int| 0 <= k < es.len() && (#[trigger] es[k]).0.endpoint_id == hm.endpoint_id;
                    if k != i {
                        if k < i {
                        } else {
                            assert(es[i as int].0.endpoint_id != es[k].0.endpoint_id);
                        }
                    }
                    assert(k == i);
                    assert(upsert(es, hm, now) == es.update(i as int, (hm, now)));
                }
                v.set(i, HostEntry { host, seen_ms: now });
                let ghost m = entry_views(v@);
                assert(m =~= es.update(i as int, (hm, now)));
                assert forall|a: int, b: int| 0 <= a < b < m.len() implies (#[trigger] m[a]).0.endpoint_id != (#[trigger] m[b]).0.endpoint_id by {
                    if a != i && b != i {
                        assert(m[a] == es[a] && m[b] == es[b]);
                    } else if a == i {
                        assert(m[b] == es[b]);
                        assert(es[a].0.endpoint_id == hm.endpoint_id);
                    } else {
                        assert(m[a] == es[a]);
                        assert(es[b].0.endpoint_id == hm.endpoint_id);
                    }
                }
                self.entries = v;
                return true;
            }
            i += 1;
        }
        v.push(HostEntry { host, seen_ms: now });
        let ghost m = entry_views(v@);
        assert(m =~= es.push((hm, now)));
        assert forall|a: int, b: int| 0 <= a < b < m.len() implies (#[trigger] m[a]).0.endpoint_id != (#[trigger] m[b]).0.endpoint_id by {
            if b < es.len() {
                assert(m[a] == es[a] && m[b] == es[b]);
            } else {
                assert(m[a] == es[a]);
            }
        }
        self.entries = v;
        true
    }

    /// Drop every host not heard within the last [`TTL_MS`]. Returns whether
    /// any was dropped.
    pub fn expire(&mut self, now: u64) -> (changed: bool)
        ensures
            unique_ids(final(self).model()),
            final(self).model() == keep_fresh(old(self).model(), now),
            changed == (keep_fresh(old(self).model(), now).len() != old(self).model().len()),
    {
        proof {
            use_type_invariant(&*self);
        }
        let ghost es = self.model();
        let n = self.entries.len();
        let mut kept: Vec<HostEntry> = Vec::new();
        let mut old_entries: Vec<HostEntry> = Vec::new();
        std::mem::swap(&mut old_entries, &mut self.entries);
        assert(es.take(0) =~= Seq::<(HostModel, u64)>::empty());
        let mut i: usize = 0;
        let ghost all = old_entries@;
        while i < n
            invariant
                i <= n,
                n == all.len(),
                es == entry_views(all),
                old_entries@ == all.skip(i as int),
                entry_views(kept@) == keep_fresh(es.take(i as int), now),
            decreases n - i,
        {
            let e = old_entries.remove(0);
            assert(e == all[i as int]);
            assert(old_entries@ =~= all.skip(i + 1));
            assert(es.take(i + 1).drop_last() == es.take(i as int));
            assert(es.take(i + 1).last() == (e.host@, e.seen_ms));
            let elapsed = if now >= e.seen_ms {
                now - e.seen_ms
            } else {
                0
            };
            if elapsed < TTL_MS {
                let ghost before = kept@;
                kept.push(e);
                assert(entry_views(kept@) =~= entry_views(before).push((e.host@, e.seen_ms)));
            }
            i += 1;
        }
        assert(es.take(n as int) == es);
        proof {
            lemma_keep_fresh_sub(es, now);
        }
        let changed = kept.len() != n;
        self.entries = kept;
        changed
    }

    /// The hosts heard within the last [`TTL_MS`], in table order.
    pub fn snapshot(&self, now: u64) -> (hosts: Vec<DiscoveredHost>)
        ensures
            host_views(hosts@) == keep_fresh(self.model(), now).map_values(|e: (HostModel, u64)| e.0),
    {
        let ghost es = self.model();
        let n = self.entries.len();
        let mut out: Vec<DiscoveredHost> = Vec::new();
        assert(es.take(0) =~= Seq::<(HostModel, u64)>::empty());
        for i in 0..n
            invariant
                n == self.entries@.len(),
                es == self.model(),
                host_views(out@) == keep_fresh(es.take(i as int), now).map_values(|e: (HostModel, u64)| e.0),
        {
            let e = &self.entries[i];
            assert(es.take(i + 1).drop_last() == es.take(i as int));
            assert(es.take(i + 1).last() == (e.host@, e.seen_ms));
            let elapsed = if now >= e.seen_ms {
                now - e.seen_ms
            } else {
                0
            };
            if elapsed < TTL_MS {
                let ghost before = out@;
                out.push(e.host.duplicate());
                assert(host_views(out@) =~= host_views(before).push(e.host@));
                assert(keep_fresh(es.take(i + 1), now).map_values(|e: (HostModel, u64)| e.0) =~= keep_fresh(es.take(i as int), now).map_values(|e: (HostModel, u64)| e.0).push(e.host@));
            }
        }
        assert(es.take(n as int) == es);
        out
    }

    /// Resolve a network name to an endpoint id using the hosts heard within
    /// the last [`TTL_MS`]; names match after trimming the query and
    /// lowercasing both sides.
    pub fn find_by_name(&self, now: u64, name: &str) -> (r: Option<String>)
        ensures
            match find_name(self.model(), now, unicode_lower(trim(name@))) {
                Some(id) => r matches Some(s) && s@ == id,
                None => r is None,
            },
    {
        let nc = chars_of(name);
        let trimmed = string_from_chars(trim_chars(nc.as_slice()).as_slice());
        let want = to_lowercase(trimmed.as_str());
        let ghost es = self.model();
        let n = self.entries.len();
        assert(es.take(0) =~= Seq::<(HostModel, u64)>::empty());
        for i in 0..n
            invariant
                n == self.entries@.len(),
                es == self.model(),
                want@ == unicode_lower(trim(name@)),
                find_name(es.take(i as int), now, want@) is None,
        {
            let e = &self.entries[i];
            assert(es.take(i + 1).drop_last() == es.take(i as int));
            assert(es.take(i + 1).last() == (e.host@, e.seen_ms));
            let elapsed = if now >= e.seen_ms {
                now - e.seen_ms
            } else {
                0
            };
            if elapsed < TTL_MS {
                let lower = to_lowercase(e.host.network_name.as_str());
                if lower == want {
                    proof {
                        lemma_find_name_prefix(es, now, want@, i + 1);
                    }
                    return Some(e.host.endpoint_id.clone());
                }
            }
        }
        assert(es.take(n as int) == es);
        None
    }
}

proof fn lemma_find_name_prefix(es: Seq<(HostModel, u64)>, now: u64, want: Seq<char>, k: int)
    requires
        0 <= k <= es.len(),
        find_name(es.take(k), now, want) is Some,
    ensures
        find_name(es, now, want) == find_name(es.take(k), now, want),
    decreases es.len() - k,
{
    if k < es.len() {
        assert(es.take(k + 1).drop_last() == es.take(k));
        lemma_find_name_prefix(es, now, want, k + 1);
    } else {
        assert(es.take(k) == es);
    }
}

} // verus!
