use std::collections::HashSet;
use std::sync::Arc;

use sievetube::addr::{parse_socket, SocketAddr};
use sievetube::concurrent::{found_in_use, in_use};
use sievetube::config::Protocol;
use sievetube::edge::config::{MeshConfig, MeshPeerConfig};
use sievetube::edge::connector_registry::{ConnectorRegistry, Registration};
use sievetube::edge::http_proxy::OpenFailure;
use sievetube::edge::mesh::certs::{generate_ca, issue_edge_cert};
use sievetube::edge::mesh::forward::{
    claim_reply, datagram_fits, forward_request, forward_udp, handle_datagram, open_remote_stream,
    udp_remembered, udp_sent, DatagramStep, Exchange, ForwardAction, ForwardError, ForwardEvent,
    ForwardRun, MeshLimits, PeerReport, PermitTable, RemoteAction, RemoteEvent, ReplyClaim,
};
use sievetube::edge::mesh::routes::{
    ads_for, local_ads, rank, EdgeInfo, RemoteRoute, RouteAd, RouteEntry, RouteSync, RouteTable,
};
use sievetube::edge::mesh::setup::{maintenance_interval, start, welcome, Welcome};
use sievetube::edge::mesh::transport::{peer_edge_id, ConnectStep, PeerPool};
use sievetube::mesh_protocol::{
    ForwardRequest, ForwardResponse, MeshDatagramHeader, MeshDatagramKind, RejectReason,
    MESH_VERSION,
};
use sievetube::text_map::TextMap;
use sievetube::text_set::TextSet;
use sievetube::time::Duration;
use tokio::sync::Semaphore;

fn texts(values: &[&str]) -> TextSet {
    TextSet::from_vec(values.iter().map(|v| v.to_string()).collect())
}

fn socket(s: &str) -> SocketAddr {
    parse_socket(s).unwrap()
}

fn registration(tenant: &str, hostnames: &[&str], connection: u64) -> Registration {
    Registration {
        tenant_id: tenant.to_string(),
        hostnames: hostnames.iter().map(|h| h.to_string()).collect(),
        services: None,
        connection,
    }
}

#[test]
fn stale_generation_does_not_remove_newer_connection() {
    let mut registry = ConnectorRegistry::new();

    let old = registry.register(registration("t1", &["a.test"], 1)).unwrap().handle;
    let replacement = registry.register(registration("t1", &["a.test"], 2)).unwrap();
    let new = replacement.handle;
    assert!(new.generation > old.generation);
    assert_eq!(
        replacement.replaced.map(|previous| previous.generation),
        Some(old.generation),
        "the caller has to close the replaced connection"
    );

    // The old connection closing must not deregister the new one.
    assert!(!registry.remove("t1", old.generation));
    assert_eq!(registry.get_by_hostname("a.test").unwrap().generation, new.generation);
    assert_eq!(registry.len(), 1);

    assert!(registry.remove("t1", new.generation));
    assert!(registry.get_by_hostname("a.test").is_none());
    assert_eq!(registry.len(), 0);
}

#[test]
fn replacement_drops_hostnames_no_longer_claimed() {
    let mut registry = ConnectorRegistry::new();
    registry.register(registration("t1", &["a.test", "b.test"], 1)).unwrap();
    registry.register(registration("t1", &["a.test"], 1)).unwrap();
    assert!(registry.get_by_hostname("a.test").is_some());
    assert!(registry.get_by_hostname("b.test").is_none());
}

#[test]
fn rejects_hostname_of_other_tenant() {
    let mut registry = ConnectorRegistry::new();
    registry.register(registration("t1", &["a.test"], 1)).unwrap();
    let err = registry.register(registration("t2", &["a.test"], 2)).unwrap_err();
    assert!(!err.contains("t1"), "error must not leak the other tenant id: {err}");
    assert_eq!(err, "hostname a.test is already served by another tenant on this edge");
    assert_eq!(registry.get_by_hostname("a.test").unwrap().tenant_id, "t1");
}

#[test]
fn protocol_support() {
    let mut registry = ConnectorRegistry::new();
    let mut reg = registration("t1", &["a.test"], 1);
    let mut services = TextMap::new();
    services.insert("a.test".to_string(), vec![Protocol::Http]);
    reg.services = Some(services);
    let handle = registry.register(reg).unwrap().handle;
    assert!(handle.supports("a.test", Protocol::Http));
    assert!(!handle.supports("a.test", Protocol::Tcp));
    assert!(!handle.supports("b.test", Protocol::Http));
}

#[test]
fn snapshot_lists_each_tenant_once() {
    let mut registry = ConnectorRegistry::new();
    registry.register(registration("t1", &["a.test"], 1)).unwrap();
    registry.register(registration("t2", &["b.test"], 2)).unwrap();
    registry.register(registration("t1", &["c.test"], 3)).unwrap();
    let mut seen: Vec<(String, u64)> = registry
        .snapshot()
        .iter()
        .map(|h| (h.tenant_id.clone(), h.connection))
        .collect();
    seen.sort();
    assert_eq!(seen, vec![("t1".to_string(), 3), ("t2".to_string(), 2)]);
}

fn limits() -> MeshLimits {
    MeshLimits {
        max_streams_per_peer: 4,
        max_streams_per_tenant: 4,
        stream_wait: Duration::from_millis(200),
        accept_timeout: Duration::from_secs(2),
    }
}

#[test]
fn idle_stream_budgets_are_released() {
    let limits = limits();
    let mut table = PermitTable::new();
    let peer_permit = table.peer("edge-b", &limits).try_acquire_owned().expect("peer permit");
    let tenant_permit =
        table.tenant("tenant-1", &limits).try_acquire_owned().expect("tenant permit");

    table.sweep(&limits);
    assert_eq!(
        table.peer("edge-b", &limits).available_permits(),
        3,
        "a held permit keeps its entry"
    );
    assert_eq!(table.tenant("tenant-1", &limits).available_permits(), 3);

    let peer_entry = Arc::downgrade(peer_permit.semaphore());
    let tenant_entry = Arc::downgrade(tenant_permit.semaphore());
    drop((peer_permit, tenant_permit));
    assert!(peer_entry.upgrade().is_some() && tenant_entry.upgrade().is_some());
    table.sweep(&limits);
    assert!(peer_entry.upgrade().is_none(), "ids seen once must not accumulate");
    assert!(tenant_entry.upgrade().is_none());
}

#[test]
fn stream_budgets_are_kept_per_peer_and_per_tenant() {
    let limits = limits();
    let mut table = PermitTable::new();
    let mut held = Vec::new();
    for _ in 0..4 {
        held.push(table.peer("edge-b", &limits).try_acquire_owned().unwrap());
        held.push(table.tenant("t1", &limits).try_acquire_owned().unwrap());
    }
    assert!(table.peer("edge-b", &limits).try_acquire_owned().is_err());
    assert!(table.tenant("t1", &limits).try_acquire_owned().is_err());
    assert!(table.peer("edge-c", &limits).try_acquire_owned().is_ok());
    assert!(table.tenant("t2", &limits).try_acquire_owned().is_ok());
    held.remove(0);
    assert!(table.peer("edge-b", &limits).try_acquire_owned().is_ok());
    // A budget that a task is about to use stays, though all its permits are free.
    held.clear();
    let budget = table.peer("edge-b", &limits);
    assert_eq!(budget.available_permits(), 4);
    table.sweep(&limits);
    assert!(Arc::ptr_eq(&budget, &table.peer("edge-b", &limits)));
    assert!(found_in_use(&budget, 4) && !found_in_use(&Arc::new(Semaphore::new(4)), 4));
    assert!(in_use(1, 3, 4) && in_use(2, 4, 4) && !in_use(1, 4, 4));
}

fn reply(request_id: u64, ingress: &str, payload: &[u8]) -> Vec<u8> {
    MeshDatagramHeader {
        kind: MeshDatagramKind::Reply,
        request_id,
        connection_generation: 0,
        ingress_edge_id: ingress.to_string(),
        tenant_id: String::new(),
        hostname: "game.test".to_string(),
    }
    .encode(payload)
    .ok()
    .expect("encoded")
    .to_vec()
}

#[test]
fn udp_replies_are_accepted_only_from_the_peer_they_went_to() {
    let registry = ConnectorRegistry::new();
    let request_id = 4242;
    // The pending reply of the request, which went to edge-b.
    let mut pending: Option<Option<String>> = Some(Some("edge-b".to_string()));
    let mut delivered: Vec<Vec<u8>> = Vec::new();
    let mut handle = |data: Vec<u8>, peer: &str| -> ReplyClaim {
        match handle_datagram("edge-a", peer, &data, &registry, 1) {
            DatagramStep::Reply { request_id: id, payload } => {
                assert_eq!(id, request_id);
                let claim = claim_reply(&pending, peer);
                if claim == ReplyClaim::Deliver {
                    pending = None;
                    delivered.push(payload);
                }
                claim
            }
            other => panic!("unexpected step: {other:?}"),
        }
    };
    // edge-c is an authorized peer, but this request went to edge-b.
    let claim = handle(reply(request_id, "edge-a", b"spoofed"), "edge-c");
    assert_eq!(claim, ReplyClaim::PeerMismatch);
    let claim = handle(reply(request_id, "edge-a", b"genuine"), "edge-b");
    assert_eq!(claim, ReplyClaim::Deliver);
    // A request is answered once.
    let claim = handle(reply(request_id, "edge-a", b"again"), "edge-b");
    assert_eq!(claim, ReplyClaim::Unknown);
    assert_eq!(delivered, vec![b"genuine".to_vec()]);
    assert!(matches!(
        handle_datagram("edge-x", "edge-b", &reply(request_id, "edge-a", b"x"), &registry, 1),
        DatagramStep::Ignore
    ));
    assert!(matches!(
        handle_datagram("edge-a", "edge-b", b"\x00garbage", &registry, 1),
        DatagramStep::Ignore
    ));
}

#[test]
fn reply_claims_carry_their_drop_label() {
    assert_eq!(ReplyClaim::Deliver.label(), None);
    assert!(ReplyClaim::PeerMismatch.label().is_some());
    assert!(ReplyClaim::Unknown.label().is_some());
    assert_eq!(claim_reply(&Some(None), "edge-b"), ReplyClaim::PeerMismatch);
}

fn request(hostname: &str, tenant: &str) -> ForwardRequest {
    ForwardRequest {
        version: MESH_VERSION,
        ingress_edge_id: "edge-a".to_string(),
        tenant_id: tenant.to_string(),
        hostname: hostname.to_string(),
        protocol: Protocol::Http,
        client_addr: socket("203.0.113.9:1234"),
        request_id: 1,
        hops_remaining: 1,
        connection_generation: 1,
    }
}

/// One forward request of edge-a, answered by an Edge with free permits whose
/// Connector takes the stream.
fn forward(registry: &ConnectorRegistry, request: ForwardRequest) -> ForwardResponse {
    let mut run = ForwardRun::new("edge-a");
    let mut event = ForwardEvent::Read(Some(request));
    loop {
        match run.step(registry, event) {
            ForwardAction::Respond { response, .. } => return response,
            ForwardAction::Acquire { tenant_id } => {
                assert_eq!(tenant_id, "tenant-1");
                event = ForwardEvent::Permits { peer: true, tenant: true };
            }
            ForwardAction::OpenLocal { connection } => {
                assert_eq!(connection, 7);
                event = ForwardEvent::Opened(Ok(()));
            }
            ForwardAction::Accept => return ForwardResponse::accept(),
        }
    }
}

#[test]
fn receiving_edge_checks_ownership_hops_and_version() {
    let mut registry = ConnectorRegistry::new();
    registry.register(registration("tenant-1", &["web.test"], 7)).unwrap();

    // A hostname of another tenant is refused even though the peer is authenticated.
    let response = forward(&registry, request("web.test", "tenant-2"));
    assert_eq!(response.reject, Some(RejectReason::NotAuthorized));

    // Unknown hostname.
    let response = forward(&registry, request("other.test", "tenant-1"));
    assert_eq!(response.reject, Some(RejectReason::NoRoute));

    // A forwarded request must not be forwarded again.
    let mut no_hops = request("web.test", "tenant-1");
    no_hops.hops_remaining = 0;
    assert_eq!(forward(&registry, no_hops).reject, Some(RejectReason::HopLimit));

    // Unknown protocol version.
    let mut future_version = request("web.test", "tenant-1");
    future_version.version = MESH_VERSION + 1;
    assert_eq!(
        forward(&registry, future_version).reject,
        Some(RejectReason::UnsupportedVersion)
    );

    // Metadata must match the authenticated peer identity.
    let mut impostor = request("web.test", "tenant-1");
    impostor.ingress_edge_id = "edge-c".to_string();
    assert_eq!(forward(&registry, impostor).reject, Some(RejectReason::NotAuthorized));

    // A valid request is accepted and reaches the Connector.
    let response = forward(&registry, request("web.test", "tenant-1"));
    assert!(response.accepted, "{response:?}");
}

#[test]
fn forwarded_streams_are_refused_when_the_edge_is_busy() {
    let mut registry = ConnectorRegistry::new();
    registry.register(registration("tenant-1", &["web.test"], 7)).unwrap();
    let answer = |events: Vec<ForwardEvent>| {
        let mut run = ForwardRun::new("edge-a");
        let mut last = None;
        for event in events {
            last = Some(run.step(&registry, event));
        }
        match last {
            Some(ForwardAction::Respond { response, counted }) => (response.reject, counted),
            other => panic!("unexpected action: {other:?}"),
        }
    };
    assert_eq!(
        answer(vec![ForwardEvent::Read(None)]),
        (Some(RejectReason::Invalid), false)
    );
    let read = || ForwardEvent::Read(Some(request("web.test", "tenant-1")));
    let permits = |peer, tenant| ForwardEvent::Permits { peer, tenant };
    assert_eq!(
        answer(vec![read(), permits(true, false)]),
        (Some(RejectReason::Overloaded), true)
    );
    assert_eq!(
        answer(vec![read(), permits(false, true)]),
        (Some(RejectReason::Overloaded), true)
    );
    assert_eq!(
        answer(vec![
            read(),
            permits(true, true),
            ForwardEvent::Opened(Err(OpenFailure::Failed))
        ]),
        (Some(RejectReason::NoRoute), true)
    );
    assert_eq!(
        answer(vec![
            read(),
            permits(true, true),
            ForwardEvent::Opened(Err(OpenFailure::TimedOut))
        ]),
        (Some(RejectReason::Overloaded), true)
    );
}

fn route(edge: &str, expires_at: u128) -> RemoteRoute {
    RemoteRoute {
        edge_id: edge.to_string(),
        tenant_id: "tenant".to_string(),
        generation: 1,
        addr: socket("127.0.0.1:4434"),
        expires_at,
    }
}

fn entries(hostname: &str, routes: Vec<RemoteRoute>) -> Vec<RouteEntry> {
    routes
        .into_iter()
        .map(|route| RouteEntry {
            hostname: hostname.to_string(),
            protocol: Protocol::Http,
            route,
        })
        .collect()
}

#[test]
fn candidates_are_stable_and_expire() {
    let now = 1_000;
    let mut table = RouteTable::new();
    table.replace(entries(
        "web.example.com",
        vec![
            route("edge-b", now + 30_000),
            route("edge-c", now + 30_000),
            route("edge-d", now),
        ],
    ));

    let first = table.candidates("web.example.com", Protocol::Http, now);
    assert_eq!(first.len(), 2, "expired routes are not returned");
    let again = table.candidates("web.example.com", Protocol::Http, now);
    assert_eq!(
        first.iter().map(|r| &r.edge_id).collect::<Vec<_>>(),
        again.iter().map(|r| &r.edge_id).collect::<Vec<_>>()
    );
    assert!(
        rank("web.example.com", &first[0].edge_id) <= rank("web.example.com", &first[1].edge_id)
    );
    assert!(table.candidates("web.example.com", Protocol::Tcp, now).is_empty());
    assert!(table.candidates("other.example.com", Protocol::Http, now).is_empty());
}

#[test]
fn different_hostnames_spread_over_peers() {
    let edges = ["edge-b", "edge-c", "edge-d"];
    let preferred: HashSet<&str> = ["a.test", "b.test", "c.test", "d.test", "e.test"]
        .iter()
        .map(|hostname| *edges.iter().min_by_key(|edge| rank(hostname, edge)).expect("edges"))
        .collect();
    assert!(preferred.len() > 1, "one peer must not absorb every hostname");
}

#[test]
fn ads_cover_supported_protocols_only() {
    let mut registry = ConnectorRegistry::new();
    for connection in 1..7 {
        registry.register(registration("tenant-1", &["old.example.com"], connection)).unwrap();
    }
    let mut reg = registration("tenant-1", &["web.example.com"], 7);
    let mut services = TextMap::new();
    services.insert("web.example.com".to_string(), vec![Protocol::Http, Protocol::Tcp]);
    reg.services = Some(services);
    let handle = registry.register(reg).unwrap().handle;
    let ads = ads_for(&handle, "edge-a");
    assert_eq!(ads.len(), 2);
    assert!(ads.iter().all(|ad| ad.generation == 7 && ad.edge_id == "edge-a"));
    assert!(!ads.iter().any(|ad| ad.protocol == Protocol::Udp));
    assert_eq!(local_ads(&registry, "edge-a"), ads);
}

#[test]
fn route_ads_serialize_compactly() {
    let ad = RouteAd {
        hostname: "web.example.com".into(),
        protocol: Protocol::Http,
        tenant_id: "tenant-1".into(),
        edge_id: "edge-a".into(),
        generation: 3,
    };
    let encoded = ad.to_json();
    assert_eq!(
        encoded,
        r#"{"h":"web.example.com","p":"http","t":"tenant-1","e":"edge-a","g":3}"#
    );
    let decoded: serde_json::Value = serde_json::from_str(&encoded).unwrap();
    assert_eq!(decoded["h"], "web.example.com");
    assert_eq!(decoded["g"], 3);

    let quoted = RouteAd { tenant_id: "a\"b\\c\n".into(), ..ad };
    let decoded: serde_json::Value = serde_json::from_str(&quoted.to_json()).unwrap();
    assert_eq!(decoded["t"], "a\"b\\c\n");
}

fn ad(edge: &str, hostname: &str) -> RouteAd {
    RouteAd {
        hostname: hostname.to_string(),
        protocol: Protocol::Http,
        tenant_id: "t1".to_string(),
        edge_id: edge.to_string(),
        generation: 3,
    }
}

#[test]
fn only_live_allowed_peers_with_an_address_enter_the_cache() {
    let mut addrs = TextMap::new();
    addrs.insert("edge-b".to_string(), socket("203.0.113.2:4434"));
    let sync = RouteSync::new("edge-a".to_string(), texts(&["edge-b", "edge-c", "edge-d"]), addrs);
    let ads = || {
        vec![
            (ad("edge-a", "own.test"), 5_000),
            (ad("edge-b", "b.test"), 5_000),
            (ad("edge-b", "gone.test"), 900),
            (ad("edge-c", "c.test"), 6_000),
            (ad("edge-d", "d.test"), 6_000),
            (ad("edge-x", "x.test"), 6_000),
        ]
    };
    let peers = sync.peers(&ads(), &texts(&["edge-b", "edge-c", "edge-x"]));
    assert_eq!(peers, texts(&["edge-b", "edge-c"]));

    let mut infos = TextMap::new();
    infos.insert(
        "edge-c".to_string(),
        EdgeInfo { advertise: "203.0.113.3:4434".to_string(), udp: false },
    );
    infos.insert(
        "edge-b".to_string(),
        EdgeInfo { advertise: "behind a gateway".to_string(), udp: false },
    );
    let cache = sync.sync(ads(), &peers, &infos, 1_000, 50);
    let names: Vec<&str> = cache.iter().map(|e| e.hostname.as_str()).collect();
    assert_eq!(names, vec!["b.test", "gone.test", "c.test"]);
    assert_eq!(cache[0].route.addr, socket("203.0.113.2:4434"), "the static address is used");
    assert_eq!(cache[0].route.expires_at, 4_050);
    assert_eq!(cache[1].route.expires_at, 50, "an expired route is never offered");
    assert_eq!(cache[2].route.addr, socket("203.0.113.3:4434"));
    assert_eq!(cache[2].route.expires_at, 5_050);

    // A peer that cannot forward UDP is offered no UDP traffic.
    let udp = RouteAd { protocol: Protocol::Udp, ..ad("edge-c", "game.test") };
    assert!(sync.sync(vec![(udp, 6_000)], &peers, &infos, 1_000, 50).is_empty());
    assert!(sync.sync(ads(), &peers, &TextMap::new(), 1_000, 50).is_empty());
}

fn pool(allowed: &[&str]) -> PeerPool {
    PeerPool::new(texts(allowed), 5_000)
}

#[test]
fn failed_connects_cool_down_without_being_repeated() {
    let mut pool = pool(&["edge-b"]);
    assert!(!pool.cooling_down("edge-b", 0));
    assert!(matches!(pool.connection("edge-b", false, 0), ConnectStep::Connect));
    // The attempt ran into the connect timeout.
    pool.start_cooldown("edge-b", 300);
    assert!(pool.cooling_down("edge-b", 300));
    for _ in 0..8 {
        assert!(matches!(pool.connection("edge-b", false, 301), ConnectStep::Refuse(_)));
    }
    assert!(!pool.cooling_down("edge-b", 5_301));
}

#[test]
fn an_unresponsive_connection_is_closed_and_cools_its_peer_down() {
    let mut pool = pool(&["edge-b"]);
    pool.connected("edge-b", socket("127.0.0.1:1"), Some("edge-b"), 11, 0).unwrap();
    assert_eq!(pool.kept("edge-b"), Some(11));
    pool.connection_unresponsive("edge-b", 11, 100);
    assert_eq!(pool.kept("edge-b"), None);
    assert!(pool.cooling_down("edge-b", 100));
    assert!(matches!(pool.connection("edge-b", false, 100), ConnectStep::Refuse(_)));
}

#[test]
fn only_the_closed_pooled_connection_cools_its_peer_down() {
    let mut pool = pool(&["edge-b"]);
    let addr = socket("127.0.0.1:1");

    // A failed stream on a live connection says nothing about the peer.
    pool.connected("edge-b", addr, Some("edge-b"), 1, 0).unwrap();
    pool.connection_failed("edge-b", 1, false, 10);
    assert!(!pool.cooling_down("edge-b", 10));
    assert!(matches!(pool.connection("edge-b", true, 10), ConnectStep::Use(1)));

    // A late report about a replaced connection leaves the newer one alone.
    assert!(matches!(pool.connection("edge-b", false, 20), ConnectStep::Connect));
    pool.connected("edge-b", addr, Some("edge-b"), 2, 20).unwrap();
    pool.connection_failed("edge-b", 1, true, 30);
    assert!(!pool.cooling_down("edge-b", 30));
    assert_eq!(pool.kept("edge-b"), Some(2));

    // The pooled connection closing does cool the peer down.
    pool.connection_failed("edge-b", 2, true, 40);
    assert!(pool.cooling_down("edge-b", 40));
    assert_eq!(pool.close_all(), Vec::<u64>::new());
}

#[test]
fn unlisted_and_impostor_peers_are_refused() {
    let mut pool = pool(&["edge-b", "edge-d"]);
    assert!(pool.is_allowed("edge-b"));
    assert!(matches!(pool.connection("edge-c", false, 0), ConnectStep::Refuse(_)));
    let err = pool
        .connected("edge-b", socket("127.0.0.1:1"), Some("edge-c"), 5, 0)
        .unwrap_err();
    assert!(err.contains("edge-b"), "{err}");
    assert!(pool.cooling_down("edge-b", 0));
    assert!(!pool.cooling_down("edge-d", 0), "a cooldown concerns one peer");
    assert!(pool.connected("edge-b", socket("127.0.0.1:1"), None, 5, 0).is_err());
    pool.connected("edge-d", socket("127.0.0.1:1"), Some("edge-d"), 6, 0).unwrap();
    assert_eq!(pool.close_all(), vec![6]);
}

fn der(pem: &str) -> Vec<u8> {
    rustls_pemfile::certs(&mut pem.as_bytes()).next().unwrap().unwrap().to_vec()
}

#[test]
fn a_peer_is_known_by_its_certificate() {
    let (ca, key) = generate_ca("Test CA").unwrap();
    let (cert, _) = issue_edge_cert(&ca, &key, "edge-b", 30).unwrap();
    assert_eq!(peer_edge_id(&der(&cert)).as_deref(), Some("edge-b"));
    assert_eq!(peer_edge_id(&der(&ca)), None);
    assert_eq!(peer_edge_id(b"no certificate"), None);
}

#[test]
fn the_mesh_starts_from_its_section_and_files() {
    let (ca, ca_key) = generate_ca("Test CA").unwrap();
    let (cert, key) = issue_edge_cert(&ca, &ca_key, "edge-a", 30).unwrap();
    let mut cfg = MeshConfig::default();
    cfg.edge_id = "edge-a".to_string();
    cfg.listen = "127.0.0.1:4434".to_string();
    cfg.advertise = "203.0.113.1:4434".to_string();
    cfg.ca_cert = "ca.pem".to_string();
    cfg.peers = vec![
        MeshPeerConfig { edge_id: "edge-b".to_string(), addr: None },
        MeshPeerConfig {
            edge_id: "edge-c".to_string(),
            addr: Some("203.0.113.3:4434".to_string()),
        },
    ];
    let setup = start(&cfg, ca.as_bytes(), cert.as_bytes(), key.as_bytes()).ok().unwrap();
    assert_eq!(setup.identity.edge_id, "edge-a");
    assert_eq!(setup.listen, socket("127.0.0.1:4434"));
    assert!(setup.pool.is_allowed("edge-b") && setup.pool.is_allowed("edge-c"));
    assert!(!setup.pool.is_allowed("edge-a"));
    assert_eq!(setup.identity.cert_chain.len(), 1);
    assert_eq!(setup.identity.roots.len(), 1);
    assert_eq!(setup.info.advertise, "203.0.113.1:4434");
    assert_eq!(
        setup.sync.static_addrs.get("edge-c"),
        Some(&socket("203.0.113.3:4434"))
    );
    assert!(setup.sync.static_addrs.get("edge-b").is_none());

    assert_eq!(welcome(&setup.pool, Some("edge-b".into())), Welcome::Serve("edge-b".into()));
    assert!(matches!(
        welcome(&setup.pool, Some("edge-x".into())),
        Welcome::Close { reason: "peer not allowed", .. }
    ));
    assert!(matches!(
        welcome(&setup.pool, None),
        Welcome::Close { reason: "unknown peer identity", .. }
    ));

    // A certificate of another Edge is refused.
    let (other, other_key) = issue_edge_cert(&ca, &ca_key, "edge-b", 30).unwrap();
    assert!(start(&cfg, ca.as_bytes(), other.as_bytes(), other_key.as_bytes()).is_err());
    cfg.listen = "nowhere".to_string();
    let err = start(&cfg, ca.as_bytes(), cert.as_bytes(), key.as_bytes()).err().unwrap();
    assert_eq!(err, "mesh.listen: invalid socket address syntax");
}

#[test]
fn maintenance_runs_twice_per_reply_timeout() {
    assert_eq!(maintenance_interval(Duration::from_secs(10)), Duration::from_secs(5));
    assert_eq!(maintenance_interval(Duration::from_millis(100)), Duration::from_millis(500));
}

#[test]
fn remote_streams_report_what_stopped_them() {
    let route = route("edge-b", 0);
    let step = |event| open_remote_stream(&route, event);
    assert!(matches!(step(RemoteEvent::PeerPermit(true)), RemoteAction::AcquireTenant));
    assert!(matches!(step(RemoteEvent::TenantPermit(true)), RemoteAction::Connect));
    assert!(matches!(step(RemoteEvent::Connected(Ok(()))), RemoteAction::Exchange));
    assert!(matches!(
        step(RemoteEvent::Exchanged(Exchange::Response(ForwardResponse::accept()))),
        RemoteAction::Opened
    ));
    let failure = |event| match step(event) {
        RemoteAction::Fail { error, report } => {
            (error.message, error.retryable, error.timed_out, report)
        }
        other => panic!("unexpected action: {other:?}"),
    };
    assert_eq!(
        failure(RemoteEvent::PeerPermit(false)),
        ("no stream slot for edge edge-b".to_string(), true, true, PeerReport::Nothing)
    );
    assert_eq!(
        failure(RemoteEvent::Exchanged(Exchange::CannotOpen("gone".to_string()))),
        ("cannot open mesh stream: gone".to_string(), true, false, PeerReport::Failed)
    );
    assert_eq!(
        failure(RemoteEvent::Exchanged(Exchange::TimedOut)),
        (
            "peer did not answer the forward request".to_string(),
            true,
            true,
            PeerReport::Unresponsive
        )
    );
    let refused = ForwardResponse::reject(RejectReason::NotAuthorized);
    let (_, retryable, _, report) =
        failure(RemoteEvent::Exchanged(Exchange::Response(refused)));
    assert!(!retryable);
    assert_eq!(report, PeerReport::Nothing);
    assert!(ForwardError::rejected(Some(RejectReason::NoRoute)).retryable);
}

#[test]
fn a_forwarded_request_has_one_hop() {
    let route = route("edge-b", 0);
    let sent = forward_request(
        "edge-a",
        &route,
        "web.test",
        Protocol::Http,
        socket("203.0.113.9:1234"),
        9,
    );
    assert_eq!(sent.hops_remaining, 1);
    assert_eq!(sent.version, MESH_VERSION);
    assert_eq!(sent.tenant_id, "tenant");
    assert_eq!(sent.connection_generation, 1);
    assert_eq!(sent.validate(), Ok(()));
}

#[test]
fn udp_datagrams_cross_the_mesh() {
    let mut registry = ConnectorRegistry::new();
    registry.register(registration("tenant", &["game.test"], 7)).unwrap();
    let route = route("edge-b", 0);
    let datagram =
        forward_udp("edge-a", &route, "game.test", b"ping", 9, Some(1200)).ok().unwrap();
    match handle_datagram("edge-b", "edge-a", &datagram, &registry, 77) {
        DatagramStep::Deliver { connection, local_id, request_id, ingress_edge_id, .. } => {
            assert_eq!((connection, local_id, request_id), (7, 77, 9));
            assert_eq!(ingress_edge_id, "edge-a");
        }
        other => panic!("unexpected step: {other:?}"),
    }
    // The metadata must match the authenticated peer.
    assert!(matches!(
        handle_datagram("edge-b", "edge-c", &datagram, &registry, 77),
        DatagramStep::Ignore
    ));
    let dropped = forward_udp("edge-a", &route, "game.test", b"ping", 9, Some(8)).err().unwrap();
    assert_eq!(dropped.label, "oversize");
    assert!(datagram_fits(8, Some(8)));
    assert!(!datagram_fits(9, Some(8)));
    assert!(udp_remembered(true).is_ok());
    assert!(!udp_remembered(false).err().unwrap().forget_reply);
    assert!(udp_sent(Ok(())).is_ok());
    assert!(udp_sent(Err("closed".to_string())).err().unwrap().forget_reply);
}
