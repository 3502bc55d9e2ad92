//! Starting the mesh: identity, peers, routes and limits.

use vstd::prelude::*;
use vstd::string::*;
use crate::addr;
use crate::addr::{parse_socket, SocketAddr};
use crate::app_error;
use crate::edge::config::{MeshConfig, MeshPeerConfig};
use crate::edge::mesh::certs;
use crate::edge::mesh::certs::MeshIdentity;
use crate::edge::mesh::forward::MeshLimits;
use crate::edge::mesh::routes::{EdgeInfo, RouteSync};
use crate::edge::mesh::transport::PeerPool;
use crate::pki;
use crate::pki::KeyView;
use crate::text;
use crate::text_map::TextMap;
use crate::text_set;
use crate::text_set::TextSet;
use crate::time::Duration;

verus! {

/// The Edge IDs of configured peers.
pub open spec fn peer_ids(peers: Seq<MeshPeerConfig>) -> Seq<Seq<char>> {
    peers.map_values(|p: MeshPeerConfig| p.edge_id@)
}

/// The peers that may connect and be forwarded to.
pub fn allowed_peers(peers: &Vec<MeshPeerConfig>) -> (r: TextSet)
    ensures
        r@ == text_set::sorted(peer_ids(peers@)),
{
    let ghost all = peer_ids(peers@);
    let mut ids: Vec<String> = Vec::new();
    let mut i: usize = 0;
    assert(text::views(ids@) =~= all.take(0));
    while i < peers.len()
        invariant
            i <= peers.len() == all.len(),
            all == peer_ids(peers@),
            text::views(ids@) == all.take(i as int),
        decreases peers.len() - i,
    {
        let ghost before = text::views(ids@);
        ids.push(peers[i].edge_id.clone());
        assert(text::views(ids@) =~= before.push(all[i as int]));
        assert(all.take(i + 1) =~= all.take(i as int).push(all[i as int]));
        i += 1;
    }
    assert(all.take(i as int) =~= all);
    TextSet::from_vec(ids)
}

/// A peer is allowed exactly where it is configured.
pub proof fn law_only_configured_peers_are_allowed(peers: Seq<MeshPeerConfig>, edge_id: Seq<char>)
    ensures
        text_set::sorted(peer_ids(peers)).contains(edge_id) == (exists|i: int|
            0 <= i < peers.len() && (#[trigger] peers[i]).edge_id@ == edge_id),
{
    let ids = peer_ids(peers);
    text_set::lemma_sorted(ids);
    if ids.contains(edge_id) {
        let i = choose|i: int| 0 <= i < ids.len() && ids[i] == edge_id;
        assert(peers[i].edge_id@ == edge_id);
    }
    if exists|i: int| 0 <= i < peers.len() && (#[trigger] peers[i]).edge_id@ == edge_id {
        let i = choose|i: int| 0 <= i < peers.len() && (#[trigger] peers[i]).edge_id@ == edge_id;
        assert(ids[i] == edge_id);
    }
}

/// The addresses that are configured for peers, as far as they can be read.
pub open spec fn configured_addrs(peers: Seq<MeshPeerConfig>) -> Map<Seq<char>, SocketAddr>
    decreases peers.len(),
{
    if peers.len() == 0 {
        Map::empty()
    } else {
        let before = configured_addrs(peers.drop_last());
        let peer = peers.last();
        match peer.addr {
            None => before,
            Some(a) => match addr::parsed_socket(a@) {
                None => before,
                Some(s) => before.insert(peer.edge_id@, s),
            },
        }
    }
}

/// The addresses that are configured for peers, as far as they can be read.
pub fn static_addrs(peers: &Vec<MeshPeerConfig>) -> (r: TextMap<SocketAddr>)
    ensures
        r@ == configured_addrs(peers@),
{
    let mut out: TextMap<SocketAddr> = TextMap::new();
    let mut i: usize = 0;
    assert(peers@.take(0) =~= Seq::<MeshPeerConfig>::empty());
    while i < peers.len()
        invariant
            i <= peers.len(),
            out@ == configured_addrs(peers@.take(i as int)),
        decreases peers.len() - i,
    {
        assert(peers@.take(i + 1).drop_last() =~= peers@.take(i as int));
        assert(peers@.take(i + 1).last() == peers@[i as int]);
        if let Some(a) = &peers[i].addr {
            if let Some(s) = parse_socket(a.as_str()) {
                out.insert(peers[i].edge_id.clone(), s);
            }
        }
        i += 1;
    }
    assert(peers@.take(i as int) =~= peers@);
    out
}

/// What the mesh runs with. Times are milliseconds.
pub struct MeshSetup {
    pub identity: MeshIdentity,
    pub listen: SocketAddr,
    pub pool: PeerPool,
    pub limits: MeshLimits,
    /// What this Edge says of itself
    pub info: EdgeInfo,
    pub sync: RouteSync,
}

/// A number of seconds in milliseconds, as far as it fits.
pub open spec fn in_millis(secs: u64) -> u64 {
    if secs * 1000 > u64::MAX {
        u64::MAX
    } else {
        (secs * 1000) as u64
    }
}

/// Prepares the mesh from its configuration and the PEM texts of its credentials.
pub fn start(cfg: &MeshConfig, ca_pem: &[u8], cert_pem: &[u8], key_pem: &[u8]) -> (r: Result<
    MeshSetup,
    String,
>)
    ensures
        match certs::identity_fault(cfg.edge_id@, cfg.ca_cert@, ca_pem@, cert_pem@, key_pem@) {
            Some(fault) => r is Err && r->Err_0@ == fault,
            None => match addr::parsed_socket(cfg.listen@) {
                None => r is Err && r->Err_0@ == "mesh.listen: invalid socket address syntax"@,
                Some(listen) => {
                    let s = r->Ok_0;
                    let peers = text_set::sorted(peer_ids(cfg.peers@));
                    &&& r is Ok
                    &&& s.identity.edge_id@ == cfg.edge_id@
                    &&& pki::pem_chain(cert_pem@) == Ok::<Seq<Seq<u8>>, Seq<char>>(
                        pki::chain_views(s.identity.cert_chain@),
                    )
                    &&& pki::pem_private_key(key_pem@) == Ok::<Option<KeyView>, Seq<char>>(
                        Some(s.identity.key@),
                    )
                    &&& pki::anchors(s.identity.roots) == pki::good_sections(
                        pki::pem_certificates(ca_pem@),
                    )
                    &&& s.listen == listen
                    &&& s.pool.allowed() == peers
                    &&& s.pool.period() == in_millis(cfg.peer_failure_cooldown_secs)
                    &&& s.pool.pooled() == Map::<Seq<char>, u64>::empty()
                    &&& s.pool.cooling() == Map::<Seq<char>, u64>::empty()
                    &&& s.limits.max_streams_per_peer == cfg.max_streams_per_peer
                    &&& s.limits.max_streams_per_tenant == cfg.max_streams_per_tenant
                    &&& s.limits.stream_wait.nanos == cfg.stream_wait_ms * 1_000_000
                    &&& s.limits.accept_timeout.nanos == cfg.accept_timeout_ms * 1_000_000
                    &&& s.info.advertise@ == cfg.advertise@
                    &&& s.info.udp == cfg.udp
                    &&& s.sync.edge_id@ == cfg.edge_id@
                    &&& s.sync.allowed_peers@ == peers
                    &&& s.sync.static_addrs@ == configured_addrs(cfg.peers@)
                },
            },
        },
{
    let identity: MeshIdentity = match MeshIdentity::load(
        cfg.edge_id.as_str(),
        cfg.ca_cert.as_str(),
        ca_pem,
        cert_pem,
        key_pem,
    ) {
        Ok(identity) => identity,
        Err(e) => {
            return Err(e);
        },
    };
    let listen: SocketAddr = match parse_socket(cfg.listen.as_str()) {
        Some(listen) => listen,
        None => {
            return Err("mesh.listen: invalid socket address syntax".to_owned());
        },
    };
    let cooldown: u64 = if cfg.peer_failure_cooldown_secs > 18_446_744_073_709_551 {
        u64::MAX
    } else {
        cfg.peer_failure_cooldown_secs * 1000
    };
    let allowed: TextSet = allowed_peers(&cfg.peers);
    Ok(
        MeshSetup {
            identity,
            listen,
            pool: PeerPool::new(allowed.clone(), cooldown),
            limits: MeshLimits {
                max_streams_per_peer: cfg.max_streams_per_peer,
                max_streams_per_tenant: cfg.max_streams_per_tenant,
                stream_wait: cfg.stream_wait(),
                accept_timeout: cfg.accept_timeout(),
            },
            info: EdgeInfo { advertise: cfg.advertise.clone(), udp: cfg.udp },
            sync: RouteSync {
                edge_id: cfg.edge_id.clone(),
                allowed_peers: allowed,
                static_addrs: static_addrs(&cfg.peers),
            },
        },
    )
}

/// What becomes of a peer that connects.
#[derive(Debug, PartialEq, Eq)]
pub enum Welcome {
    Serve(String),
    Close { code: u32, reason: &'static str },
}

/// What becomes of a peer that connects, with the Edge ID that its certificate
/// names.
pub fn welcome(pool: &PeerPool, peer: Option<String>) -> (r: Welcome)
    ensures
        match peer {
            None => r is Close && r->code == app_error::AUTH_FAILED && r->reason@
                == "unknown peer identity"@,
            Some(id) => if pool.allowed().contains(id@) {
                r is Serve && r->Serve_0@ == id@
            } else {
                r is Close && r->code == app_error::AUTH_FAILED && r->reason@
                    == "peer not allowed"@
            },
        },
{
    match peer {
        None => Welcome::Close { code: app_error::AUTH_FAILED, reason: "unknown peer identity" },
        Some(id) => {
            if pool.is_allowed(id.as_str()) {
                Welcome::Serve(id)
            } else {
                Welcome::Close { code: app_error::AUTH_FAILED, reason: "peer not allowed" }
            }
        },
    }
}

/// How often requests without a reply are forgotten and idle budgets released:
/// twice in the time that a reply may take, but not more often than every half
/// second.
pub fn maintenance_interval(reply_timeout: Duration) -> (r: Duration)
    ensures
        r.nanos == (if reply_timeout.nanos / 2 > 500_000_000 {
            reply_timeout.nanos / 2
        } else {
            500_000_000u128
        }),
{
    let half: Duration = reply_timeout.half();
    if half.nanos > 500_000_000 {
        half
    } else {
        Duration::from_millis(500)
    }
}

/// The peers that are allowed are the configured ones, and the addresses known of them are
/// those configured that are socket addresses, the last one where there are several.
pub proof fn law_peers_are_as_configured(
    fewer: Vec<MeshPeerConfig>,
    peers: Vec<MeshPeerConfig>,
    peer: MeshPeerConfig,
    allowed: TextSet,
    known: TextMap<SocketAddr>,
    addrs: TextMap<SocketAddr>,
    given: &str,
    parsed: Option<SocketAddr>,
    edge: Seq<char>,
)
    requires
        peers@ == fewer@.push(peer),
        call_ensures(allowed_peers, (&peers,), allowed),
        call_ensures(static_addrs, (&fewer,), known),
        call_ensures(static_addrs, (&peers,), addrs),
        peer.addr is Some ==> given@ == peer.addr->0@,
        call_ensures(parse_socket, (given,), parsed),
    ensures
        allowed@.contains(edge) == (exists|i: int|
            0 <= i < peers@.len() && (#[trigger] peers@[i]).edge_id@ == edge),
        fewer@.len() == 0 ==> known@ == Map::<Seq<char>, SocketAddr>::empty(),
        peer.addr is Some && parsed is Some ==> addrs@.contains_key(peer.edge_id@)
            && addrs@[peer.edge_id@] == parsed->0,
        edge != peer.edge_id@ || peer.addr is None || parsed is None ==> addrs@.contains_key(edge)
            == known@.contains_key(edge) && addrs@[edge] == known@[edge],
{
    law_only_configured_peers_are_allowed(peers@, edge);
    assert(peers@.drop_last() =~= fewer@);
}

/// A peer is served if and only if it has proved to be an allowed one.
pub proof fn law_only_allowed_peers_are_served(
    pool: PeerPool,
    peer: Option<String>,
    id: &str,
    permitted: bool,
    r: Welcome,
)
    requires
        call_ensures(welcome, (&pool, peer), r),
        peer is Some ==> id@ == peer->0@,
        call_ensures(PeerPool::is_allowed, (&pool, id), permitted),
    ensures
        r is Serve == (peer is Some && permitted),
        r is Serve ==> r->Serve_0@ == peer->0@,
        r is Close ==> r->code == 1,
{
}

/// Maintenance runs twice in the time that a reply may take, but not more often than twice a
/// second.
pub proof fn law_maintenance_is_not_too_often(reply_timeout: Duration, r: Duration)
    requires
        call_ensures(maintenance_interval, (reply_timeout,), r),
    ensures
        r.nanos >= 500_000_000,
        reply_timeout.nanos >= 1_000_000_000 ==> 2 * r.nanos <= reply_timeout.nanos && reply_timeout.nanos
            <= 2 * r.nanos + 1,
        reply_timeout.nanos < 1_000_000_000 ==> r.nanos == 500_000_000,
{
}

/// A mesh that starts does so under its own name, on the address that is configured, with the
/// configured peers and limits.
pub proof fn law_mesh_starts_as_configured(
    cfg: MeshConfig,
    ca_pem: &[u8],
    cert_pem: &[u8],
    key_pem: &[u8],
    listen: &str,
    parsed: Option<SocketAddr>,
    allowed: TextSet,
    addrs: TextMap<SocketAddr>,
    r: Result<MeshSetup, String>,
)
    requires
        call_ensures(self::start, (&cfg, ca_pem, cert_pem, key_pem), r),
        listen@ == cfg.listen@,
        call_ensures(parse_socket, (listen,), parsed),
        call_ensures(allowed_peers, (&cfg.peers,), allowed),
        call_ensures(static_addrs, (&cfg.peers,), addrs),
    ensures
        r matches Ok(s) ==> {
            &&& s.identity.edge_id@ == cfg.edge_id@
            &&& parsed == Some(s.listen)
            &&& s.pool.allowed() == allowed@
            &&& cfg.peer_failure_cooldown_secs * 1000 <= u64::MAX ==> s.pool.period()
                == cfg.peer_failure_cooldown_secs * 1000
            &&& s.limits.max_streams_per_peer == cfg.max_streams_per_peer
            &&& s.limits.max_streams_per_tenant == cfg.max_streams_per_tenant
            &&& s.limits.stream_wait.nanos == cfg.stream_wait_ms * 1_000_000
            &&& s.limits.accept_timeout.nanos == cfg.accept_timeout_ms * 1_000_000
            &&& s.info.advertise@ == cfg.advertise@
            &&& s.info.udp == cfg.udp
            &&& s.sync.edge_id@ == cfg.edge_id@
            &&& s.sync.allowed_peers@ == allowed@
            &&& s.sync.static_addrs@ == addrs@
        },
        parsed is None ==> r is Err,
{
}

} // verus!
