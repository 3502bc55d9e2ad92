//! Route advertisement and lookup for the mesh.
//!
//! Each Edge advertises the hostnames its authenticated Connectors serve, with the
//! Connector's registration generation and a TTL. Other Edges keep a local cache
//! and use an entry only while it is unexpired, so routes of a crashed Edge
//! disappear on their own, and a reconnecting Connector's newer generation is not
//! removed by the old one's disconnect.

use vstd::prelude::*;
use vstd::string::*;
use vstd::utf8::*;
use crate::addr;
use crate::addr::{parse_socket, SocketAddr};
use crate::config;
use crate::config::Protocol;
use crate::edge::connector_registry;
use crate::edge::connector_registry::{ConnectorHandle, ConnectorRegistry, HandleView};
use crate::json;
use crate::json::write_json_string;
use crate::order;
use crate::order::text_less;
use crate::text;
use crate::text::{decimal_text, same_text};
use crate::text_map::TextMap;
use crate::text_set;
use crate::text_set::TextSet;

verus! {

/// One advertised route.
#[derive(Debug, PartialEq, Eq)]
pub struct RouteAd {
    pub hostname: String,
    pub protocol: Protocol,
    pub tenant_id: String,
    pub edge_id: String,
    pub generation: u64,
}

/// A [`RouteAd`] by the values that it holds.
#[verifier::ext_equal]
pub struct RouteAdView {
    pub hostname: Seq<char>,
    pub protocol: Protocol,
    pub tenant_id: Seq<char>,
    pub edge_id: Seq<char>,
    pub generation: u64,
}

impl View for RouteAd {
    type V = RouteAdView;

    open spec fn view(&self) -> RouteAdView {
        RouteAdView {
            hostname: self.hostname@,
            protocol: self.protocol,
            tenant_id: self.tenant_id@,
            edge_id: self.edge_id@,
            generation: self.generation,
        }
    }
}

pub open spec fn ad_views(ads: Seq<RouteAd>) -> Seq<RouteAdView> {
    ads.map_values(|a: RouteAd| a@)
}

/// A route advertisement as it is published: a compact JSON object.
pub open spec fn ad_json(ad: RouteAdView) -> Seq<char> {
    "{\"h\":"@ + json::json_string(ad.hostname) + ",\"p\":"@ + json::json_string(
        config::protocol_name(ad.protocol),
    ) + ",\"t\":"@ + json::json_string(ad.tenant_id) + ",\"e\":"@ + json::json_string(ad.edge_id)
        + ",\"g\":"@ + text::decimal(ad.generation as nat) + "}"@
}

impl RouteAd {
    /// The advertisement as it is published.
    pub fn to_json(&self) -> (r: String)
        ensures
            r@ == ad_json(self@),
    {
        let mut out: String = "{\"h\":".to_owned();
        out.append(write_json_string(self.hostname.as_str()).as_str());
        out.append(",\"p\":");
        out.append(write_json_string(self.protocol.as_str()).as_str());
        out.append(",\"t\":");
        out.append(write_json_string(self.tenant_id.as_str()).as_str());
        out.append(",\"e\":");
        out.append(write_json_string(self.edge_id.as_str()).as_str());
        out.append(",\"g\":");
        out.append(decimal_text(self.generation).as_str());
        out.append("}");
        out
    }
}

/// What this Edge publishes about itself for peers to reach it.
#[derive(Debug, PartialEq, Eq)]
pub struct EdgeInfo {
    pub advertise: String,
    /// Whether this Edge can forward UDP datagrams
    pub udp: bool,
}

/// A usable remote route with the peer's reachable address.
#[derive(Debug, PartialEq, Eq)]
pub struct RemoteRoute {
    pub edge_id: String,
    pub tenant_id: String,
    pub generation: u64,
    pub addr: SocketAddr,
    /// When the route ends, on the clock of this process, in milliseconds
    pub expires_at: u128,
}

impl Clone for RemoteRoute {
    fn clone(&self) -> (r: Self)
        ensures
            r == *self,
    {
        RemoteRoute {
            edge_id: self.edge_id.clone(),
            tenant_id: self.tenant_id.clone(),
            generation: self.generation,
            addr: self.addr,
            expires_at: self.expires_at,
        }
    }
}

/// A remote route and what it is for.
#[derive(Debug, PartialEq, Eq)]
pub struct RouteEntry {
    pub hostname: String,
    pub protocol: Protocol,
    pub route: RemoteRoute,
}

/// The 64-bit FNV-1a hash of bytes.
pub open spec fn fnv(bytes: Seq<u8>) -> u64
    decreases bytes.len(),
{
    if bytes.len() == 0 {
        0xcbf2_9ce4_8422_2325
    } else {
        let h = fnv(bytes.drop_last()) ^ (bytes.last() as u64);
        ((h as nat * 0x0000_0100_0000_01b3) % 0x1_0000_0000_0000_0000) as u64
    }
}

/// Where a peer stands in the order of those that serve a hostname.
pub open spec fn rank_of(hostname: Seq<char>, edge_id: Seq<char>) -> u64 {
    fnv(encode_utf8(hostname) + seq![124u8] + encode_utf8(edge_id))
}

fn hash_bytes(start: u64, bytes: &[u8], Ghost(before): Ghost<Seq<u8>>) -> (r: u64)
    requires
        start == fnv(before),
    ensures
        r == fnv(before + bytes@),
{
    let mut hash: u64 = start;
    let mut i: usize = 0;
    assert(before + bytes@.take(0) =~= before);
    while i < bytes.len()
        invariant
            i <= bytes.len(),
            hash == fnv(before + bytes@.take(i as int)),
        decreases bytes.len() - i,
    {
        let ghost next = before + bytes@.take(i + 1);
        assert(next.drop_last() =~= before + bytes@.take(i as int));
        assert(next.last() == bytes@[i as int]);
        hash = (hash ^ (bytes[i] as u64)).wrapping_mul(0x0000_0100_0000_01b3);
        i += 1;
    }
    assert(bytes@.take(i as int) =~= bytes@);
    hash
}

/// Deterministic order so that every Edge prefers the same peer for a hostname.
pub fn rank(hostname: &str, edge_id: &str) -> (r: u64)
    ensures
        r == rank_of(hostname@, edge_id@),
{
    let h: u64 = hash_bytes(0xcbf2_9ce4_8422_2325, hostname.as_bytes(), Ghost(Seq::empty()));
    let ghost a = encode_utf8(hostname@);
    assert(Seq::<u8>::empty() + a =~= a);
    let bar: [u8; 1] = [124];
    let h: u64 = hash_bytes(h, bar.as_slice(), Ghost(a));
    assert(bar@ =~= seq![124u8]);
    hash_bytes(h, edge_id.as_bytes(), Ghost(a + seq![124u8]))
}

/// Whether the peer of a route comes before that of another for a hostname.
pub open spec fn before(hostname: Seq<char>, a: RemoteRoute, b: RemoteRoute) -> bool {
    let x = rank_of(hostname, a.edge_id@);
    let y = rank_of(hostname, b.edge_id@);
    x < y || (x == y && order::less(a.edge_id@, b.edge_id@))
}

fn comes_before(hostname: &str, a: &RemoteRoute, b: &RemoteRoute) -> (r: bool)
    ensures
        r == before(hostname@, *a, *b),
{
    let x: u64 = rank(hostname, a.edge_id.as_str());
    let y: u64 = rank(hostname, b.edge_id.as_str());
    x < y || (x == y && text_less(a.edge_id.as_str(), b.edge_id.as_str()))
}

/// A list in order with one more route, behind those that it does not come before.
pub open spec fn placed(
    hostname: Seq<char>,
    list: Seq<RemoteRoute>,
    route: RemoteRoute,
) -> Seq<RemoteRoute>
    decreases list.len(),
{
    if list.len() > 0 && before(hostname, route, list.last()) {
        placed(hostname, list.drop_last(), route).push(list.last())
    } else {
        list.push(route)
    }
}

/// The unexpired routes for a hostname and a protocol, in order.
pub open spec fn candidates_of(
    entries: Seq<RouteEntry>,
    hostname: Seq<char>,
    protocol: Protocol,
    now: u128,
) -> Seq<RemoteRoute>
    decreases entries.len(),
{
    if entries.len() == 0 {
        Seq::empty()
    } else {
        let e = entries.last();
        let list = candidates_of(entries.drop_last(), hostname, protocol, now);
        if e.hostname@ == hostname && e.protocol == protocol && e.route.expires_at > now {
            placed(hostname, list, e.route)
        } else {
            list
        }
    }
}

fn place(hostname: &str, list: &mut Vec<RemoteRoute>, route: RemoteRoute)
    ensures
        final(list)@ == placed(hostname@, old(list)@, route),
{
    let ghost all = list@;
    let mut j: usize = list.len();
    assert(all.take(j as int) =~= all);
    assert(placed(hostname@, all, route) =~= placed(hostname@, all.take(j as int), route)
        + all.skip(j as int));
    while j > 0 && comes_before(hostname, &route, &list[j - 1])
        invariant
            j <= list.len(),
            list@ == all,
            placed(hostname@, all, route) == placed(hostname@, all.take(j as int), route)
                + all.skip(j as int),
        decreases j,
    {
        let ghost head = all.take(j as int);
        assert(head.drop_last() =~= all.take(j - 1));
        assert(head.last() == all[j - 1]);
        assert(placed(hostname@, all.take(j - 1), route).push(all[j - 1]) + all.skip(j as int)
            =~= placed(hostname@, all.take(j - 1), route) + all.skip(j - 1));
        j -= 1;
    }
    proof {
        let head = all.take(j as int);
        if j > 0 {
            assert(head.last() == all[j - 1]);
        }
        assert(placed(hostname@, head, route) == head.push(route));
        assert(all.insert(j as int, route) =~= head.push(route) + all.skip(j as int));
    }
    list.insert(j, route);
}

/// Remote routes learned from the control plane.
#[derive(Debug)]
pub struct RouteTable {
    pub entries: Vec<RouteEntry>,
}

impl RouteTable {
    pub fn new() -> (r: Self)
        ensures
            r.entries@.len() == 0,
    {
        RouteTable { entries: Vec::new() }
    }

    pub fn replace(&mut self, entries: Vec<RouteEntry>)
        ensures
            final(self).entries@ == entries@,
    {
        self.entries = entries;
    }

    /// Unexpired candidates in a stable order.
    pub fn candidates(&self, hostname: &str, protocol: Protocol, now: u128) -> (r: Vec<RemoteRoute>)
        ensures
            r@ == candidates_of(self.entries@, hostname@, protocol, now),
    {
        let ghost all = self.entries@;
        let mut out: Vec<RemoteRoute> = Vec::new();
        let mut i: usize = 0;
        assert(out@ =~= candidates_of(all.take(0), hostname@, protocol, now));
        while i < self.entries.len()
            invariant
                i <= self.entries.len(),
                all == self.entries@,
                out@ == candidates_of(all.take(i as int), hostname@, protocol, now),
            decreases self.entries.len() - i,
        {
            assert(all.take(i + 1).drop_last() =~= all.take(i as int));
            assert(all.take(i + 1).last() == all[i as int]);
            let e: &RouteEntry = &self.entries[i];
            if same_text(e.hostname.as_str(), hostname) && e.protocol == protocol
                && e.route.expires_at > now {
                place(hostname, &mut out, e.route.clone());
            }
            i += 1;
        }
        assert(all.take(i as int) =~= all);
        out
    }
}

/// Whether routes stand in the order of their peers.
pub open spec fn in_order(hostname: Seq<char>, list: Seq<RemoteRoute>) -> bool {
    forall|i: int, j: int|
        0 <= i < j < list.len() ==> !before(hostname, #[trigger] list[j], #[trigger] list[i])
}

proof fn lemma_before_transitive(hostname: Seq<char>, a: RemoteRoute, b: RemoteRoute, c: RemoteRoute)
    requires
        !before(hostname, b, a),
        before(hostname, c, a),
    ensures
        before(hostname, c, b),
{
    order::lemma_less_total(b.edge_id@, a.edge_id@);
    if order::less(c.edge_id@, a.edge_id@) && order::less(a.edge_id@, b.edge_id@) {
        order::lemma_less_transitive(c.edge_id@, a.edge_id@, b.edge_id@);
    }
}

proof fn lemma_placed(hostname: Seq<char>, list: Seq<RemoteRoute>, route: RemoteRoute)
    requires
        in_order(hostname, list),
    ensures
        in_order(hostname, placed(hostname, list, route)),
        placed(hostname, list, route).to_multiset() == list.to_multiset().insert(route),
        forall|r: RemoteRoute| #[trigger]
            placed(hostname, list, route).contains(r) ==> list.contains(r) || r == route,
    decreases list.len(),
{
    broadcast use vstd::seq_lib::group_to_multiset_ensures;

    let r = placed(hostname, list, route);
    if list.len() > 0 && before(hostname, route, list.last()) {
        let head = list.drop_last();
        assert(in_order(hostname, head)) by {
            assert forall|i: int, j: int| 0 <= i < j < head.len() implies !before(
                hostname,
                #[trigger] head[j],
                #[trigger] head[i],
            ) by {
                assert(head[j] == list[j] && head[i] == list[i]);
            }
        }
        lemma_placed(hostname, head, route);
        let p = placed(hostname, head, route);
        assert(r == p.push(list.last()));
        assert forall|i: int, j: int| 0 <= i < j < r.len() implies !before(
            hostname,
            #[trigger] r[j],
            #[trigger] r[i],
        ) by {
            if j < p.len() {
                assert(r[j] == p[j] && r[i] == p[i]);
            } else {
                assert(r[i] == p[i]);
                assert(p.contains(p[i]));
                if p[i] == route {
                    lemma_asymmetric(hostname, route, list.last());
                } else {
                    assert(head.contains(p[i]));
                    let k = choose|k: int| 0 <= k < head.len() && head[k] == p[i];
                    assert(list[k] == p[i]);
                    assert(!before(hostname, list[list.len() - 1], list[k]));
                }
            }
        }
        assert(list =~= head.push(list.last()));
        assert(list.to_multiset() =~= head.to_multiset().insert(list.last()));
        assert(r.to_multiset() =~= p.to_multiset().insert(list.last()));
        assert(r.to_multiset() =~= list.to_multiset().insert(route));
        assert forall|x: RemoteRoute| #[trigger] r.contains(x) implies list.contains(x) || x
            == route by {
            let k = choose|k: int| 0 <= k < r.len() && r[k] == x;
            if k < p.len() {
                assert(p[k] == x);
                assert(p.contains(x));
                if head.contains(x) {
                    let m = choose|m: int| 0 <= m < head.len() && head[m] == x;
                    assert(list[m] == x);
                }
            } else {
                assert(list[list.len() - 1] == x);
            }
        }
    } else {
        assert forall|i: int, j: int| 0 <= i < j < r.len() implies !before(
            hostname,
            #[trigger] r[j],
            #[trigger] r[i],
        ) by {
            if j == list.len() {
                if before(hostname, route, list[i]) {
                    if i < list.len() - 1 {
                        assert(!before(hostname, list[list.len() - 1], list[i]));
                        lemma_before_transitive(hostname, list[i], list.last(), route);
                    }
                }
            } else {
                assert(r[j] == list[j] && r[i] == list[i]);
            }
        }
        assert forall|x: RemoteRoute| #[trigger] r.contains(x) implies list.contains(x) || x
            == route by {
            let k = choose|k: int| 0 <= k < r.len() && r[k] == x;
            if k < list.len() {
                assert(list[k] == x);
            }
        }
    }
}

proof fn lemma_asymmetric(hostname: Seq<char>, a: RemoteRoute, b: RemoteRoute)
    requires
        before(hostname, a, b),
    ensures
        !before(hostname, b, a),
{
    if order::less(a.edge_id@, b.edge_id@) && order::less(b.edge_id@, a.edge_id@) {
        order::lemma_less_transitive(a.edge_id@, b.edge_id@, a.edge_id@);
        order::lemma_less_irreflexive(a.edge_id@);
    }
}

/// The candidates for a hostname stand in an order that depends only on the
/// hostname and the peers, so that every Edge prefers the same peer; none of them
/// has expired.
pub proof fn law_candidates_are_ordered(
    entries: Seq<RouteEntry>,
    hostname: Seq<char>,
    protocol: Protocol,
    now: u128,
)
    ensures
        in_order(hostname, candidates_of(entries, hostname, protocol, now)),
        forall|r: RemoteRoute| #[trigger]
            candidates_of(entries, hostname, protocol, now).contains(r) ==> r.expires_at > now,
    decreases entries.len(),
{
    if entries.len() > 0 {
        law_candidates_are_ordered(entries.drop_last(), hostname, protocol, now);
        let e = entries.last();
        let list = candidates_of(entries.drop_last(), hostname, protocol, now);
        if e.hostname@ == hostname && e.protocol == protocol && e.route.expires_at > now {
            lemma_placed(hostname, list, e.route);
        }
    }
}

/// Later, no candidate is there that was not there before: routes only expire.
pub proof fn law_candidates_only_expire(
    entries: Seq<RouteEntry>,
    hostname: Seq<char>,
    protocol: Protocol,
    now: u128,
    later: u128,
)
    requires
        now <= later,
    ensures
        candidates_of(entries, hostname, protocol, later).to_multiset().subset_of(
            candidates_of(entries, hostname, protocol, now).to_multiset(),
        ),
    decreases entries.len(),
{
    if entries.len() > 0 {
        law_candidates_only_expire(entries.drop_last(), hostname, protocol, now, later);
        law_candidates_are_ordered(entries.drop_last(), hostname, protocol, now);
        law_candidates_are_ordered(entries.drop_last(), hostname, protocol, later);
        let e = entries.last();
        let a = candidates_of(entries.drop_last(), hostname, protocol, now);
        let b = candidates_of(entries.drop_last(), hostname, protocol, later);
        lemma_placed(hostname, a, e.route);
        lemma_placed(hostname, b, e.route);
    }
}

/// The routes of a hostname that a registration contributes.
pub open spec fn hostname_ads(h: HandleView, hostname: Seq<char>, edge_id: Seq<char>) -> Seq<
    RouteAdView,
> {
    let ad = |p: Protocol|
        RouteAdView {
            hostname,
            protocol: p,
            tenant_id: h.tenant_id,
            edge_id,
            generation: h.generation,
        };
    let http = if connector_registry::serves(h, hostname, Protocol::Http) {
        seq![ad(Protocol::Http)]
    } else {
        Seq::empty()
    };
    let tcp = if connector_registry::serves(h, hostname, Protocol::Tcp) {
        seq![ad(Protocol::Tcp)]
    } else {
        Seq::empty()
    };
    let udp = if connector_registry::serves(h, hostname, Protocol::Udp) {
        seq![ad(Protocol::Udp)]
    } else {
        Seq::empty()
    };
    http + tcp + udp
}

/// The routes of hostnames that a registration contributes.
pub open spec fn hostnames_ads(
    h: HandleView,
    hostnames: Seq<Seq<char>>,
    edge_id: Seq<char>,
) -> Seq<RouteAdView>
    decreases hostnames.len(),
{
    if hostnames.len() == 0 {
        Seq::empty()
    } else {
        hostnames_ads(h, hostnames.drop_last(), edge_id) + hostname_ads(
            h,
            hostnames.last(),
            edge_id,
        )
    }
}

/// The routes that a registration contributes.
pub open spec fn ads_of(h: HandleView, edge_id: Seq<char>) -> Seq<RouteAdView> {
    hostnames_ads(h, h.hostnames, edge_id)
}

/// The routes that registrations contribute.
pub open spec fn all_ads(handles: Seq<ConnectorHandle>, edge_id: Seq<char>) -> Seq<RouteAdView>
    decreases handles.len(),
{
    if handles.len() == 0 {
        Seq::empty()
    } else {
        all_ads(handles.drop_last(), edge_id) + ads_of(handles.last()@, edge_id)
    }
}

fn push_ad(
    ads: &mut Vec<RouteAd>,
    handle: &ConnectorHandle,
    hostname: &str,
    protocol: Protocol,
    edge_id: &str,
)
    ensures
        ad_views(final(ads)@) == ad_views(old(ads)@) + (if connector_registry::serves(
            handle@,
            hostname@,
            protocol,
        ) {
            seq![
                RouteAdView {
                    hostname: hostname@,
                    protocol,
                    tenant_id: handle@.tenant_id,
                    edge_id: edge_id@,
                    generation: handle@.generation,
                },
            ]
        } else {
            Seq::empty()
        }),
{
    let ghost start = ad_views(ads@);
    if handle.supports(hostname, protocol) {
        let ad: RouteAd = RouteAd {
            hostname: hostname.to_owned(),
            protocol,
            tenant_id: handle.tenant_id.clone(),
            edge_id: edge_id.to_owned(),
            generation: handle.generation,
        };
        ads.push(ad);
        assert(ad_views(ads@) =~= start + seq![ad@]);
    } else {
        assert(start + Seq::<RouteAdView>::empty() =~= start);
    }
}

fn push_ads(ads: &mut Vec<RouteAd>, handle: &ConnectorHandle, edge_id: &str)
    ensures
        ad_views(final(ads)@) == ad_views(old(ads)@) + ads_of(handle@, edge_id@),
{
    let ghost start = ad_views(ads@);
    let ghost names = handle@.hostnames;
    let mut i: usize = 0;
    assert(start + hostnames_ads(handle@, names.take(0), edge_id@) =~= start);
    while i < handle.hostnames.len()
        invariant
            i <= handle.hostnames.len() == names.len(),
            names == handle@.hostnames,
            ad_views(ads@) == start + hostnames_ads(handle@, names.take(i as int), edge_id@),
        decreases handle.hostnames.len() - i,
    {
        let ghost now = ad_views(ads@);
        assert(names.take(i + 1).drop_last() =~= names.take(i as int));
        assert(names.take(i + 1).last() == handle.hostnames@[i as int]@);
        let hostname: &str = handle.hostnames[i].as_str();
        push_ad(ads, handle, hostname, Protocol::Http, edge_id);
        push_ad(ads, handle, hostname, Protocol::Tcp, edge_id);
        push_ad(ads, handle, hostname, Protocol::Udp, edge_id);
        assert(ad_views(ads@) =~= now + hostname_ads(handle@, hostname@, edge_id@));
        assert(start + (hostnames_ads(handle@, names.take(i as int), edge_id@) + hostname_ads(
            handle@,
            hostname@,
            edge_id@,
        )) =~= now + hostname_ads(handle@, hostname@, edge_id@));
        i += 1;
    }
    assert(names.take(i as int) =~= names);
}

/// Routes a single Connector registration contributes (used when it disconnects).
/// The generation is part of each, so a newer registration's routes are others.
pub fn ads_for(handle: &ConnectorHandle, edge_id: &str) -> (r: Vec<RouteAd>)
    ensures
        ad_views(r@) == ads_of(handle@, edge_id@),
{
    let mut ads: Vec<RouteAd> = Vec::new();
    assert(ad_views(ads@) =~= Seq::<RouteAdView>::empty());
    push_ads(&mut ads, handle, edge_id);
    assert(ad_views(ads@) =~= ads_of(handle@, edge_id@));
    ads
}

/// The routes of registrations, one after the other.
pub fn ads_of_all(handles: &Vec<ConnectorHandle>, edge_id: &str) -> (r: Vec<RouteAd>)
    ensures
        ad_views(r@) == all_ads(handles@, edge_id@),
{
    let mut ads: Vec<RouteAd> = Vec::new();
    let ghost all = handles@;
    let mut i: usize = 0;
    assert(ad_views(ads@) =~= all_ads(all.take(0), edge_id@));
    while i < handles.len()
        invariant
            i <= handles.len(),
            all == handles@,
            ad_views(ads@) == all_ads(all.take(i as int), edge_id@),
        decreases handles.len() - i,
    {
        assert(all.take(i + 1).drop_last() =~= all.take(i as int));
        assert(all.take(i + 1).last() == all[i as int]);
        push_ads(&mut ads, &handles[i], edge_id);
        i += 1;
    }
    assert(all.take(i as int) =~= all);
    ads
}

proof fn lemma_hostname_in_ads(
    h: HandleView,
    hostnames: Seq<Seq<char>>,
    edge_id: Seq<char>,
    ad: RouteAdView,
)
    ensures
        hostnames_ads(h, hostnames, edge_id).contains(ad) == (hostnames.contains(ad.hostname)
            && connector_registry::serves(h, ad.hostname, ad.protocol) && ad.tenant_id
            == h.tenant_id && ad.edge_id == edge_id && ad.generation == h.generation),
    decreases hostnames.len(),
{
    if hostnames.len() > 0 {
        let head = hostnames.drop_last();
        lemma_hostname_in_ads(h, head, edge_id, ad);
        let a = hostnames_ads(h, head, edge_id);
        let b = hostname_ads(h, hostnames.last(), edge_id);
        lemma_contains_concat(a, b, ad);
        assert(hostnames =~= head + seq![hostnames.last()]);
        assert(hostnames.contains(ad.hostname) == (head.contains(ad.hostname) || ad.hostname
            == hostnames.last())) by {
            if head.contains(ad.hostname) {
                let i = choose|i: int| 0 <= i < head.len() && head[i] == ad.hostname;
                assert(hostnames[i] == ad.hostname);
            }
            if hostnames.contains(ad.hostname) {
                let i = choose|i: int| 0 <= i < hostnames.len() && hostnames[i] == ad.hostname;
                if i < head.len() {
                    assert(head[i] == ad.hostname);
                }
            }
            assert(hostnames[hostnames.len() - 1] == hostnames.last());
        }
        lemma_one_hostname(h, hostnames.last(), edge_id, ad);
    }
}

proof fn lemma_contains_concat(a: Seq<RouteAdView>, b: Seq<RouteAdView>, x: RouteAdView)
    ensures
        (a + b).contains(x) == (a.contains(x) || b.contains(x)),
{
    if a.contains(x) {
        let i = choose|i: int| 0 <= i < a.len() && a[i] == x;
        assert((a + b)[i] == x);
    }
    if b.contains(x) {
        let i = choose|i: int| 0 <= i < b.len() && b[i] == x;
        assert((a + b)[a.len() + i] == x);
    }
}

proof fn lemma_one_hostname(
    h: HandleView,
    hostname: Seq<char>,
    edge_id: Seq<char>,
    ad: RouteAdView,
)
    ensures
        hostname_ads(h, hostname, edge_id).contains(ad) == (ad.hostname == hostname
            && connector_registry::serves(h, hostname, ad.protocol) && ad.tenant_id == h.tenant_id
            && ad.edge_id == edge_id && ad.generation == h.generation),
{
    let r = hostname_ads(h, hostname, edge_id);
    let mine = RouteAdView {
        hostname,
        protocol: ad.protocol,
        tenant_id: h.tenant_id,
        edge_id,
        generation: h.generation,
    };
    if connector_registry::serves(h, hostname, ad.protocol) {
        let a: int = if connector_registry::serves(h, hostname, Protocol::Http) { 1 } else { 0 };
        let b: int = if connector_registry::serves(h, hostname, Protocol::Tcp) { 1 } else { 0 };
        match ad.protocol {
            Protocol::Http => {
                assert(r[0] == mine);
            },
            Protocol::Tcp => {
                assert(r[a] == mine);
            },
            Protocol::Udp => {
                assert(r[a + b] == mine);
            },
        }
    }
}

/// A registration advertises exactly the protocols that it serves on its own
/// hostnames, under its own tenant and generation.
pub proof fn law_ads_cover_what_is_served(h: HandleView, edge_id: Seq<char>, ad: RouteAdView)
    ensures
        ads_of(h, edge_id).contains(ad) == (h.hostnames.contains(ad.hostname)
            && connector_registry::serves(h, ad.hostname, ad.protocol) && ad.tenant_id
            == h.tenant_id && ad.edge_id == edge_id && ad.generation == h.generation),
{
    lemma_hostname_in_ads(h, h.hostnames, edge_id, ad);
}

/// What a disconnected registration withdraws is nothing that a newer
/// registration advertises.
pub proof fn law_withdrawal_spares_newer_generation(
    old_handle: HandleView,
    new_handle: HandleView,
    edge_id: Seq<char>,
    ad: RouteAdView,
)
    requires
        old_handle.generation != new_handle.generation,
        ads_of(old_handle, edge_id).contains(ad),
    ensures
        !ads_of(new_handle, edge_id).contains(ad),
{
    law_ads_cover_what_is_served(old_handle, edge_id, ad);
    law_ads_cover_what_is_served(new_handle, edge_id, ad);
}

/// The routes this Edge currently serves locally.
pub fn local_ads(registry: &ConnectorRegistry, edge_id: &str) -> (r: Vec<RouteAd>)
    requires
        registry.wf(),
    ensures
        forall|ad: RouteAdView| #[trigger]
            ad_views(r@).contains(ad) == (exists|t: Seq<char>| #[trigger]
                registry.live().contains_key(t) && ads_of(registry.live()[t], edge_id@).contains(
                    ad,
                )),
{
    let handles: &Vec<ConnectorHandle> = registry.snapshot();
    let r: Vec<RouteAd> = ads_of_all(handles, edge_id);
    proof {
        let live = registry.live();
        assert forall|ad: RouteAdView| #[trigger] ad_views(r@).contains(ad) == (exists|t: Seq<char>|
            #[trigger] live.contains_key(t) && ads_of(live[t], edge_id@).contains(ad)) by {
            lemma_in_all_ads(handles@, edge_id@, ad);
            if all_ads(handles@, edge_id@).contains(ad) {
                let i = choose|i: int|
                    0 <= i < handles@.len() && ads_of(
                        (#[trigger] handles@[i])@,
                        edge_id@,
                    ).contains(ad);
                assert(live.contains_key(handles@[i].tenant_id@));
            }
            if exists|t: Seq<char>| #[trigger]
                live.contains_key(t) && ads_of(live[t], edge_id@).contains(ad) {
                let t = choose|t: Seq<char>| #[trigger]
                    live.contains_key(t) && ads_of(live[t], edge_id@).contains(ad);
                let i = choose|i: int|
                    0 <= i < handles@.len() && (#[trigger] handles@[i])@ == live[t];
                assert(ads_of(handles@[i]@, edge_id@).contains(ad));
            }
        }
    }
    r
}

proof fn lemma_in_all_ads(handles: Seq<ConnectorHandle>, edge_id: Seq<char>, ad: RouteAdView)
    ensures
        all_ads(handles, edge_id).contains(ad) == (exists|i: int|
            0 <= i < handles.len() && ads_of((#[trigger] handles[i])@, edge_id).contains(ad)),
    decreases handles.len(),
{
    if handles.len() > 0 {
        let head = handles.drop_last();
        lemma_in_all_ads(head, edge_id, ad);
        lemma_contains_concat(all_ads(head, edge_id), ads_of(handles.last()@, edge_id), ad);
        if all_ads(head, edge_id).contains(ad) {
            let i = choose|i: int|
                0 <= i < head.len() && ads_of((#[trigger] head[i])@, edge_id).contains(ad);
            assert(handles[i] == head[i]);
        }
        if ads_of(handles.last()@, edge_id).contains(ad) {
            assert(ads_of(handles[handles.len() - 1]@, edge_id).contains(ad));
        }
        if exists|i: int|
            0 <= i < handles.len() && ads_of((#[trigger] handles[i])@, edge_id).contains(ad) {
            let i = choose|i: int|
                0 <= i < handles.len() && ads_of((#[trigger] handles[i])@, edge_id).contains(ad);
            if i < head.len() {
                assert(head[i] == handles[i]);
            }
        }
    }
}

/// Whether routes of an Edge may be used: another Edge that is an allowed peer
/// and alive.
pub open spec fn usable_peer(
    edge_id: Seq<char>,
    own: Seq<char>,
    allowed: Seq<Seq<char>>,
    live: Seq<Seq<char>>,
) -> bool {
    edge_id != own && allowed.contains(edge_id) && live.contains(edge_id)
}

/// What the route cache is built from.
#[derive(Debug)]
pub struct RouteSync {
    pub edge_id: String,
    pub allowed_peers: TextSet,
    /// Addresses from the configuration, preferred over advertised ones
    pub static_addrs: TextMap<SocketAddr>,
}

/// The peers of advertised routes, in ascending order.
pub open spec fn peers_of(
    ads: Seq<(RouteAd, u64)>,
    own: Seq<char>,
    allowed: Seq<Seq<char>>,
    live: Seq<Seq<char>>,
) -> Seq<Seq<char>>
    decreases ads.len(),
{
    if ads.len() == 0 {
        Seq::empty()
    } else {
        let before = peers_of(ads.drop_last(), own, allowed, live);
        let edge = ads.last().0.edge_id@;
        if usable_peer(edge, own, allowed, live) {
            text_set::inserted(before, edge)
        } else {
            before
        }
    }
}

/// The address at which a peer is reached.
pub open spec fn peer_addr(
    edge_id: Seq<char>,
    info: EdgeInfo,
    static_addrs: Map<Seq<char>, SocketAddr>,
) -> Option<SocketAddr> {
    if static_addrs.contains_key(edge_id) {
        Some(static_addrs[edge_id])
    } else {
        addr::parsed_socket(info.advertise@)
    }
}

/// What an advertised route becomes in the cache, if it can be used.
pub open spec fn entry_of(
    ad: RouteAd,
    expiry_ms: u64,
    peers: Seq<Seq<char>>,
    infos: Map<Seq<char>, EdgeInfo>,
    static_addrs: Map<Seq<char>, SocketAddr>,
    now_ms: u64,
    now: u64,
) -> Option<RouteEntry> {
    let edge = ad.edge_id@;
    if !peers.contains(edge) || !infos.contains_key(edge) {
        None
    } else if ad.protocol == Protocol::Udp && !infos[edge].udp {
        None
    } else {
        match peer_addr(edge, infos[edge], static_addrs) {
            None => None,
            Some(a) => Some(
                RouteEntry {
                    hostname: ad.hostname,
                    protocol: ad.protocol,
                    route: RemoteRoute {
                        edge_id: ad.edge_id,
                        tenant_id: ad.tenant_id,
                        generation: ad.generation,
                        addr: a,
                        expires_at: (now + if expiry_ms > now_ms {
                            expiry_ms - now_ms
                        } else {
                            0
                        }) as u128,
                    },
                },
            ),
        }
    }
}

/// The cache that advertised routes make.
pub open spec fn cache_of(
    ads: Seq<(RouteAd, u64)>,
    peers: Seq<Seq<char>>,
    infos: Map<Seq<char>, EdgeInfo>,
    static_addrs: Map<Seq<char>, SocketAddr>,
    now_ms: u64,
    now: u64,
) -> Seq<RouteEntry>
    decreases ads.len(),
{
    if ads.len() == 0 {
        Seq::empty()
    } else {
        let before = cache_of(ads.drop_last(), peers, infos, static_addrs, now_ms, now);
        match entry_of(
            ads.last().0,
            ads.last().1,
            peers,
            infos,
            static_addrs,
            now_ms,
            now,
        ) {
            Some(e) => before.push(e),
            None => before,
        }
    }
}

impl RouteSync {
    pub fn new(edge_id: String, allowed_peers: TextSet, static_addrs: TextMap<SocketAddr>) -> (r:
        Self)
        ensures
            r.edge_id == edge_id,
            r.allowed_peers == allowed_peers,
            r.static_addrs == static_addrs,
    {
        RouteSync { edge_id, allowed_peers, static_addrs }
    }

    /// The peers whose routes may be used.
    pub fn peers(&self, ads: &Vec<(RouteAd, u64)>, live: &TextSet) -> (r: TextSet)
        ensures
            r@ == peers_of(ads@, self.edge_id@, self.allowed_peers@, live@),
    {
        let ghost all = ads@;
        let mut out: TextSet = TextSet::new();
        let mut i: usize = 0;
        assert(out@ =~= peers_of(all.take(0), self.edge_id@, self.allowed_peers@, live@));
        while i < ads.len()
            invariant
                i <= ads.len(),
                all == ads@,
                out@ == peers_of(
                    all.take(i as int),
                    self.edge_id@,
                    self.allowed_peers@,
                    live@,
                ),
            decreases ads.len() - i,
        {
            assert(all.take(i + 1).drop_last() =~= all.take(i as int));
            assert(all.take(i + 1).last() == all[i as int]);
            let edge: &String = &ads[i].0.edge_id;
            if !same_text(edge.as_str(), self.edge_id.as_str()) && self.allowed_peers.contains(
                edge.as_str(),
            ) && live.contains(edge.as_str()) {
                out.insert(edge.clone());
            }
            i += 1;
        }
        assert(all.take(i as int) =~= all);
        out
    }

    fn entry(
        &self,
        ad: RouteAd,
        expiry_ms: u64,
        peers: &TextSet,
        infos: &TextMap<EdgeInfo>,
        now_ms: u64,
        now: u64,
    ) -> (r: Option<RouteEntry>)
        ensures
            r == entry_of(
                ad,
                expiry_ms,
                peers@,
                infos@,
                self.static_addrs@,
                now_ms,
                now,
            ),
    {
        if !peers.contains(ad.edge_id.as_str()) {
            return None;
        }
        let addr: SocketAddr = match infos.get(ad.edge_id.as_str()) {
            None => {
                return None;
            },
            Some(info) => {
                // A peer that cannot forward UDP must not be offered UDP traffic.
                if ad.protocol == Protocol::Udp && !info.udp {
                    return None;
                }
                match self.static_addrs.get(ad.edge_id.as_str()) {
                    Some(a) => *a,
                    None => match parse_socket(info.advertise.as_str()) {
                        Some(a) => a,
                        None => {
                            return None;
                        },
                    },
                }
            },
        };
        let remaining: u64 = if expiry_ms > now_ms {
            expiry_ms - now_ms
        } else {
            0
        };
        let RouteAd { hostname, protocol, tenant_id, edge_id, generation } = ad;
        Some(
            RouteEntry {
                hostname,
                protocol,
                route: RemoteRoute {
                    edge_id,
                    tenant_id,
                    generation,
                    addr,
                    expires_at: now as u128 + remaining as u128,
                },
            },
        )
    }

    /// The cache that the advertised routes make, with what is known of the
    /// peers. `now_ms` is the time in which the expiry of the routes is given,
    /// `now` the same moment on the clock of this process.
    #[verifier::spinoff_prover]
    #[verifier::rlimit(60)]
    pub fn sync(
        &self,
        ads: Vec<(RouteAd, u64)>,
        peers: &TextSet,
        infos: &TextMap<EdgeInfo>,
        now_ms: u64,
        now: u64,
    ) -> (r: Vec<RouteEntry>)
        ensures
            r@ == cache_of(ads@, peers@, infos@, self.static_addrs@, now_ms, now),
    {
        let ghost all = ads@;
        let mut rest: Vec<(RouteAd, u64)> = ads;
        let mut back: Vec<RouteEntry> = Vec::new();
        let ghost whole = cache_of(all, peers@, infos@, self.static_addrs@, now_ms, now);
        assert(all.take(all.len() as int) =~= all);
        assert(whole + back@.reverse() =~= whole);
        while rest.len() > 0
            invariant
                rest@.len() <= all.len(),
                rest@ == all.take(rest@.len() as int),
                whole == cache_of(rest@, peers@, infos@, self.static_addrs@, now_ms, now)
                    + back@.reverse(),
            decreases rest.len(),
        {
            let ghost before = rest@;
            let ghost later = back@;
            match rest.pop() {
                None => {},
                Some((ad, expiry_ms)) => {
                    assert(rest@ =~= before.drop_last());
                    match self.entry(ad, expiry_ms, peers, infos, now_ms, now) {
                        Some(e) => {
                            back.push(e);
                            let ghost head = cache_of(
                                rest@,
                                peers@,
                                infos@,
                                self.static_addrs@,
                                now_ms,
                                now,
                            );
                            assert(head.push(e) + later.reverse() =~= head + back@.reverse());
                        },
                        None => {},
                    }
                    assert(rest@ =~= all.take(rest@.len() as int));
                },
            }
        }
        assert(whole =~= back@.reverse());
        let mut out: Vec<RouteEntry> = Vec::new();
        while back.len() > 0
            invariant
                whole == out@ + back@.reverse(),
            decreases back.len(),
        {
            let ghost before = back@;
            let ghost done = out@;
            match back.pop() {
                None => {},
                Some(e) => {
                    out.push(e);
                    assert(done + before.reverse() =~= out@ + back@.reverse());
                },
            }
        }
        assert(out@ + back@.reverse() =~= out@);
        out
    }
}

/// An Edge's rank for a hostname depends on nothing but the text of the hostname, a bar and
/// the Edge's name; a further character changes it by one round of the hash.
pub proof fn law_rank_hashes_hostname_and_edge(
    a: &str,
    b: &str,
    c: &str,
    front: &str,
    back: &str,
    longer: &str,
    d: char,
    x: u64,
    y: u64,
    z: u64,
    w: u64,
)
    requires
        front@ == a@ + seq!['|'] + b@,
        back@ == b@ + seq!['|'] + c@,
        longer@ == b@ + seq![d],
        (d as u32) < 128,
        call_ensures(rank, (a, back), x),
        call_ensures(rank, (front, c), y),
        call_ensures(rank, (a, b), z),
        call_ensures(rank, (a, longer), w),
    ensures
        x == y,
        w as nat == ((z ^ (d as u64)) as nat * 0x0000_0100_0000_01b3) % 0x1_0000_0000_0000_0000,
{
    let bar = seq!['|'];
    assert(is_ascii_chars(bar));
    is_ascii_chars_encode_utf8(bar);
    assert(encode_utf8(bar) =~= seq![124u8]);
    text::lemma_encoding_joins(a@ + bar, b@);
    text::lemma_encoding_joins(a@, bar);
    text::lemma_encoding_joins(b@ + bar, c@);
    text::lemma_encoding_joins(b@, bar);
    assert(encode_utf8(front@) + seq![124u8] + encode_utf8(c@) =~= encode_utf8(a@) + seq![124u8]
        + encode_utf8(back@));
    let one = seq![d];
    assert(is_ascii_chars(one));
    is_ascii_chars_encode_utf8(one);
    assert(encode_utf8(one) =~= seq![d as u8]);
    text::lemma_encoding_joins(b@, one);
    let short = encode_utf8(a@) + seq![124u8] + encode_utf8(b@);
    let long = encode_utf8(a@) + seq![124u8] + encode_utf8(longer@);
    assert(long.drop_last() =~= short);
    assert(long.last() == d as u8);
    assert((d as u8) as u64 == d as u64);
}

/// Candidates come in the order of their rank, and of the Edges' names where ranks are equal.
pub proof fn law_candidates_come_by_rank(
    table: RouteTable,
    hostname: &str,
    protocol: Protocol,
    now: u128,
    r: Vec<RemoteRoute>,
    i: int,
    j: int,
    a: &str,
    b: &str,
    x: u64,
    y: u64,
)
    requires
        call_ensures(RouteTable::candidates, (&table, hostname, protocol, now), r),
        0 <= i < j < r@.len(),
        a@ == r@[i].edge_id@,
        b@ == r@[j].edge_id@,
        call_ensures(rank, (hostname, a), x),
        call_ensures(rank, (hostname, b), y),
    ensures
        x <= y,
        x == y ==> !order::less(b@, a@),
        r@[i].expires_at > now && r@[j].expires_at > now,
{
    law_candidates_are_ordered(table.entries@, hostname@, protocol, now);
    assert(!before(hostname@, r@[j], r@[i]));
    assert(r@.contains(r@[i]) && r@.contains(r@[j]));
}

proof fn lemma_placed_adds_one(
    hostname: Seq<char>,
    list: Seq<RemoteRoute>,
    route: RemoteRoute,
    x: RemoteRoute,
)
    ensures
        placed(hostname, list, route).len() == list.len() + 1,
        placed(hostname, list, route).contains(x) == (list.contains(x) || x == route),
    decreases list.len(),
{
    let all = placed(hostname, list, route);
    if list.len() > 0 && before(hostname, route, list.last()) {
        let front = list.drop_last();
        lemma_placed_adds_one(hostname, front, route, x);
        let rest = placed(hostname, front, route);
        assert(all =~= rest.push(list.last()));
        assert(list =~= front.push(list.last()));
        if front.contains(x) {
            let k = front.index_of(x);
            assert(list[k] == x);
        }
        if rest.contains(x) {
            let k = rest.index_of(x);
            assert(all[k] == x);
        }
        assert(all[all.len() - 1] == list.last());
        assert(list[list.len() - 1] == list.last());
        if all.contains(x) {
            let k = all.index_of(x);
            if k < rest.len() {
                assert(rest[k] == x);
            }
        }
        if list.contains(x) {
            let k = list.index_of(x);
            if k < front.len() {
                assert(front[k] == x);
            }
        }
    } else {
        assert(all =~= list.push(route));
        assert(all[all.len() - 1] == route);
        if list.contains(x) {
            let k = list.index_of(x);
            assert(all[k] == x);
        }
        if all.contains(x) {
            let k = all.index_of(x);
            if k < list.len() {
                assert(list[k] == x);
            }
        }
    }
}

/// An entry more in the table is a candidate more for requests for its hostname and protocol,
/// until it expires, and changes nothing for any other. An empty table has no candidates.
pub proof fn law_entries_are_candidates(
    fewer: RouteTable,
    table: RouteTable,
    entry: RouteEntry,
    hostname: &str,
    protocol: Protocol,
    now: u128,
    less: Vec<RemoteRoute>,
    r: Vec<RemoteRoute>,
    x: RemoteRoute,
)
    requires
        table.entries@ == fewer.entries@.push(entry),
        call_ensures(RouteTable::candidates, (&fewer, hostname, protocol, now), less),
        call_ensures(RouteTable::candidates, (&table, hostname, protocol, now), r),
    ensures
        fewer.entries@.len() == 0 ==> less@.len() == 0,
        entry.hostname@ == hostname@ && entry.protocol == protocol && now < entry.route.expires_at
            ==> r@.len() == less@.len() + 1 && r@.contains(x) == (less@.contains(x) || x
            == entry.route),
        !(entry.hostname@ == hostname@ && entry.protocol == protocol && now
            < entry.route.expires_at) ==> r@ == less@,
{
    assert(table.entries@.drop_last() =~= fewer.entries@);
    lemma_placed_adds_one(hostname@, less@, entry.route, x);
}

/// A Connector's ads are for what it supports, under its own tenant and generation and this
/// Edge's name, and there is one for every protocol that it supports on its hostnames.
pub proof fn law_ads_say_what_is_supported(
    handle: ConnectorHandle,
    edge_id: &str,
    r: Vec<RouteAd>,
    i: int,
    hostname: &str,
    protocol: Protocol,
    supported: bool,
)
    requires
        call_ensures(ads_for, (&handle, edge_id), r),
        call_ensures(ConnectorHandle::supports, (&handle, hostname, protocol), supported),
    ensures
        0 <= i < r@.len() ==> {
            &&& r@[i].tenant_id@ == handle.tenant_id@
            &&& r@[i].generation == handle.generation
            &&& r@[i].edge_id@ == edge_id@
            &&& r@[i].hostname@ == hostname@ && r@[i].protocol == protocol ==> supported
            &&& exists|j: int|
                0 <= j < handle.hostnames@.len() && (#[trigger] handle.hostnames@[j])@
                    == r@[i].hostname@
        },
        supported && (exists|j: int|
            0 <= j < handle.hostnames@.len() && (#[trigger] handle.hostnames@[j])@ == hostname@)
            ==> exists|k: int|
            0 <= k < r@.len() && (#[trigger] r@[k]).hostname@ == hostname@ && r@[k].protocol
                == protocol,
{
    let views = ad_views(r@);
    if 0 <= i < r@.len() {
        assert(views[i] == r@[i]@);
        assert(ads_of(handle@, edge_id@).contains(r@[i]@));
        law_ads_cover_what_is_served(handle@, edge_id@, r@[i]@);
        let names = text::views(handle.hostnames@);
        let j = names.index_of(r@[i].hostname@);
        assert(names[j] == handle.hostnames@[j]@);
    }
    if supported && (exists|j: int|
        0 <= j < handle.hostnames@.len() && (#[trigger] handle.hostnames@[j])@ == hostname@) {
        let ad = RouteAdView {
            hostname: hostname@,
            protocol,
            tenant_id: handle.tenant_id@,
            edge_id: edge_id@,
            generation: handle.generation,
        };
        let j = choose|j: int|
            0 <= j < handle.hostnames@.len() && (#[trigger] handle.hostnames@[j])@ == hostname@;
        assert(text::views(handle.hostnames@)[j] == hostname@);
        law_ads_cover_what_is_served(handle@, edge_id@, ad);
        let k = views.index_of(ad);
        assert(views[k] == r@[k]@);
    }
}

/// Every ad of this Edge belongs to a connected tenant, in its current generation.
pub proof fn law_local_ads_are_of_connected_tenants(
    registry: ConnectorRegistry,
    edge_id: &str,
    r: Vec<RouteAd>,
    i: int,
)
    requires
        registry.wf(),
        call_ensures(local_ads, (&registry, edge_id), r),
        0 <= i < r@.len(),
    ensures
        r@[i].edge_id@ == edge_id@,
        exists|t: Seq<char>| #[trigger]
            registry.live().contains_key(t) && registry.live()[t].tenant_id == r@[i].tenant_id@
                && registry.live()[t].generation == r@[i].generation
                && registry.live()[t].hostnames.contains(r@[i].hostname@),
{
    let ad = r@[i]@;
    assert(ad_views(r@)[i] == ad);
    assert(ad_views(r@).contains(ad));
    let t = choose|t: Seq<char>| #[trigger]
        registry.live().contains_key(t) && ads_of(registry.live()[t], edge_id@).contains(ad);
    law_ads_cover_what_is_served(registry.live()[t], edge_id@, ad);
}

proof fn lemma_peers(
    ads: Seq<(RouteAd, u64)>,
    own: Seq<char>,
    allowed: Seq<Seq<char>>,
    live: Seq<Seq<char>>,
    edge: Seq<char>,
)
    ensures
        order::ascending(peers_of(ads, own, allowed, live)),
        peers_of(ads, own, allowed, live).contains(edge) == (usable_peer(edge, own, allowed, live)
            && exists|i: int| 0 <= i < ads.len() && (#[trigger] ads[i]).0.edge_id@ == edge),
    decreases ads.len(),
{
    if ads.len() > 0 {
        let front = ads.drop_last();
        lemma_peers(front, own, allowed, live, edge);
        let before = peers_of(front, own, allowed, live);
        text_set::lemma_inserted(before, ads.last().0.edge_id@);
        if exists|i: int| 0 <= i < front.len() && (#[trigger] front[i]).0.edge_id@ == edge {
            let i = choose|i: int| 0 <= i < front.len() && (#[trigger] front[i]).0.edge_id@ == edge;
            assert(ads[i] == front[i]);
        }
        if exists|i: int| 0 <= i < ads.len() && (#[trigger] ads[i]).0.edge_id@ == edge {
            let i = choose|i: int| 0 <= i < ads.len() && (#[trigger] ads[i]).0.edge_id@ == edge;
            if i < front.len() {
                assert(front[i] == ads[i]);
            }
        }
        assert(ads[ads.len() - 1] == ads.last());
    } else {
        assert(peers_of(ads, own, allowed, live) =~= Seq::empty());
    }
}

/// Routes are taken from the other Edges that are configured as peers, are alive and
/// advertise something, and from no others.
pub proof fn law_peers_are_configured_and_alive(
    sync: RouteSync,
    ads: Vec<(RouteAd, u64)>,
    live: TextSet,
    r: TextSet,
    edge: Seq<char>,
)
    requires
        call_ensures(RouteSync::peers, (&sync, &ads, &live), r),
    ensures
        r@.contains(edge) == (edge != sync.edge_id@ && sync.allowed_peers@.contains(edge)
            && live@.contains(edge) && exists|i: int|
            0 <= i < ads@.len() && (#[trigger] ads@[i]).0.edge_id@ == edge),
{
    lemma_peers(ads@, sync.edge_id@, sync.allowed_peers@, live@, edge);
}

/// A further ad of a peer that is known becomes a further entry with what the ad says, the
/// address that is configured for the peer or else the one that it gives, and the time that
/// the ad has left. Ads of others, of peers without an address, and of UDP routes through
/// peers that do not carry UDP, become nothing.
pub proof fn law_ads_of_peers_become_entries(
    sync: RouteSync,
    fewer: Vec<(RouteAd, u64)>,
    ads: Vec<(RouteAd, u64)>,
    ad: RouteAd,
    expiry_ms: u64,
    peers: TextSet,
    infos: TextMap<EdgeInfo>,
    now_ms: u64,
    now: u64,
    less: Vec<RouteEntry>,
    r: Vec<RouteEntry>,
    given: &str,
    parsed: Option<SocketAddr>,
)
    requires
        ads@ == fewer@.push((ad, expiry_ms)),
        call_ensures(RouteSync::sync, (&sync, fewer, &peers, &infos, now_ms, now), less),
        call_ensures(RouteSync::sync, (&sync, ads, &peers, &infos, now_ms, now), r),
        infos@.contains_key(ad.edge_id@) ==> given@ == infos@[ad.edge_id@].advertise@,
        call_ensures(parse_socket, (given,), parsed),
    ensures
        fewer@.len() == 0 ==> less@.len() == 0,
        ({
            let edge = ad.edge_id@;
            let fixed = sync.static_addrs@.contains_key(edge);
            if peers@.contains(edge) && infos@.contains_key(edge) && (ad.protocol != Protocol::Udp
                || infos@[edge].udp) && (fixed || parsed is Some) {
                &&& r@.len() == less@.len() + 1
                &&& r@.drop_last() == less@
                &&& r@.last().hostname@ == ad.hostname@
                &&& r@.last().protocol == ad.protocol
                &&& r@.last().route.edge_id@ == edge
                &&& r@.last().route.tenant_id@ == ad.tenant_id@
                &&& r@.last().route.generation == ad.generation
                &&& r@.last().route.addr == if fixed {
                    sync.static_addrs@[edge]
                } else {
                    parsed->0
                }
                &&& expiry_ms >= now_ms ==> r@.last().route.expires_at == now + (expiry_ms - now_ms)
                &&& expiry_ms < now_ms ==> r@.last().route.expires_at == now
            } else {
                r@ == less@
            }
        }),
{
    assert(ads@.drop_last() =~= fewer@);
    assert(ads@.last() == (ad, expiry_ms));
}

/// The ads of all Connectors are those of each, one behind the other.
pub proof fn law_all_connectors_are_advertised(
    fewer: Vec<ConnectorHandle>,
    handles: Vec<ConnectorHandle>,
    last: ConnectorHandle,
    edge_id: &str,
    less: Vec<RouteAd>,
    own: Vec<RouteAd>,
    r: Vec<RouteAd>,
)
    requires
        handles@ == fewer@.push(last),
        call_ensures(ads_of_all, (&fewer, edge_id), less),
        call_ensures(ads_for, (&last, edge_id), own),
        call_ensures(ads_of_all, (&handles, edge_id), r),
    ensures
        fewer@.len() == 0 ==> less@.len() == 0,
        ad_views(r@) == ad_views(less@) + ad_views(own@),
{
    assert(handles@.drop_last() =~= fewer@);
    assert(ad_views(less@).len() == less@.len());
}

} // verus!
