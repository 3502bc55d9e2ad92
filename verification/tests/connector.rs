use sievetube::addr::{parse_socket, SocketAddr};
use sievetube::app_error;
use sievetube::config::{IngressRule, Protocol, Target};
use sievetube::connector::config::{
    default_drain_timeout, AuthConfig, ConnectorConfig, NetworkConfig,
};
use sievetube::connector::forwarder::http_status_response;
use sievetube::connector::health::{ConnectorHealth, EdgeStatus};
use sievetube::connector::identity::{base64url_decode, extract_jwt_sub};
use sievetube::connector::ingress::IngressMatcher;
use sievetube::connector::quic_client::{
    certificate_sha256, jittered, jittered_by, tls_server_name, verify_pinned, CaBundle,
    EdgeVerification,
};
use sievetube::connector::session::{
    check_auth_response, connect_error, route_datagram, route_stream, DatagramRoute, EdgeLoop,
    LoopAction, LoopEvent, ServeAction, ServeEvent, Serving, StreamRoute,
};
use sievetube::connector::valkey::{heartbeat, heartbeat_key, heartbeat_ttl, Heartbeat};
use sievetube::health::HealthQuery;
use sievetube::protocol::{AuthResponse, ConnectRequest, DatagramHeader};
use sievetube::time::Duration;

fn rule(hostname: Option<&str>, protocol: Option<Protocol>, target: &str) -> IngressRule {
    IngressRule {
        hostname: hostname.map(str::to_string),
        protocol,
        target: target.to_string(),
    }
}

fn config(ingress: Vec<IngressRule>) -> ConnectorConfig {
    ConnectorConfig {
        auth: AuthConfig { token: "a.b.c".into() },
        network: NetworkConfig {
            public_servers: vec!["edge.test:4433".into()],
            edge_ca_cert: None,
            edge_server_name: None,
            edge_cert_sha256: vec!["ab".repeat(32)],
            drain_timeout_secs: default_drain_timeout(),
        },
        ingress,
        valkey: None,
    }
}

#[test]
fn ingress_targets_are_checked_at_startup() {
    config(vec![
        rule(Some("web.test"), None, "127.0.0.1:8080"),
        rule(Some("game.test"), Some(Protocol::Udp), "[::1]:19132"),
        rule(None, None, "http_status:404"),
    ])
    .validate(true)
    .unwrap();

    for (target, expected) in [
        ("localhost:8080", "invalid socket address"),
        ("http_status:abc", "invalid http status code"),
        ("http_status:42", "not an HTTP status code"),
    ] {
        let error = config(vec![rule(None, None, target)]).validate(true).unwrap_err();
        assert!(error.contains(expected), "{target}: {error}");
    }

    let error = config(vec![rule(None, Some(Protocol::Udp), "http_status:404")])
        .validate(true)
        .unwrap_err();
    assert!(error.contains("rule 1"), "{error}");
}

#[test]
fn drain_timeout_has_a_default() {
    assert_eq!(default_drain_timeout(), 10);
    let cfg = config(vec![rule(None, None, "127.0.0.1:8080")]);
    assert_eq!(cfg.network.drain_timeout_secs, 10);
    assert!(!cfg.notes().unverified_edge);
    assert!(!cfg.notes().no_catch_all);
}

#[test]
fn readiness_requires_a_connected_edge_and_stops_while_draining() {
    let mut health = ConnectorHealth::new(&["edge-a:4433".to_string()]);
    assert!(!health.is_ready());
    health.connected("edge-a:4433");
    assert!(health.is_ready());
    assert_eq!(health.connected_edges(), ["edge-a:4433"]);
    health.set_draining();
    assert!(!health.is_ready());
}

#[test]
fn exact_hostname_match() {
    let matcher = IngressMatcher::new(vec![
        rule(
            Some("web.example.com"),
            Some(Protocol::Http),
            "127.0.0.1:8080",
        ),
        rule(None, None, "http_status:404"),
    ]);
    let t = matcher
        .match_request("web.example.com", Protocol::Http)
        .unwrap();
    assert!(matches!(t, Target::Address(_)));
}

#[test]
fn catch_all_fallback() {
    let matcher = IngressMatcher::new(vec![
        rule(
            Some("web.example.com"),
            Some(Protocol::Http),
            "127.0.0.1:8080",
        ),
        rule(None, None, "http_status:404"),
    ]);
    let t = matcher
        .match_request("other.example.com", Protocol::Http)
        .unwrap();
    assert!(matches!(t, Target::HttpStatus(404)));
}

#[test]
fn no_match_returns_error() {
    let matcher = IngressMatcher::new(vec![rule(
        Some("web.example.com"),
        Some(Protocol::Http),
        "127.0.0.1:8080",
    )]);
    let error = matcher
        .match_request("other.example.com", Protocol::Tcp)
        .unwrap_err();
    assert_eq!(
        error.message(),
        "no matching ingress rule for hostname=\"other.example.com\" protocol=\"tcp\""
    );
}

#[test]
fn protocol_filter() {
    let matcher = IngressMatcher::new(vec![
        rule(Some("ssh.example.com"), Some(Protocol::Tcp), "127.0.0.1:22"),
        rule(None, None, "http_status:404"),
    ]);
    // TCP matches
    let t = matcher
        .match_request("ssh.example.com", Protocol::Tcp)
        .unwrap();
    assert!(matches!(t, Target::Address(_)));
    // HTTP falls through to catch-all
    let t2 = matcher
        .match_request("ssh.example.com", Protocol::Http)
        .unwrap();
    assert!(matches!(t2, Target::HttpStatus(404)));
}

#[test]
fn advertised_services() {
    let matcher = IngressMatcher::new(vec![
        rule(
            Some("web.example.com"),
            Some(Protocol::Http),
            "127.0.0.1:8080",
        ),
        rule(
            Some("game.example.com"),
            Some(Protocol::Udp),
            "127.0.0.1:19132",
        ),
        rule(None, None, "http_status:404"),
    ]);
    let services = matcher.services(&["web.example.com".into(), "game.example.com".into()]);
    assert_eq!(services[0].protocols, vec![Protocol::Http]);
    assert_eq!(services[1].protocols, vec![Protocol::Http, Protocol::Udp]);
}

#[test]
fn case_insensitive_hostname() {
    let matcher = IngressMatcher::new(vec![rule(
        Some("Web.Example.Com"),
        None,
        "127.0.0.1:8080",
    )]);
    let t = matcher
        .match_request("web.example.com", Protocol::Http)
        .unwrap();
    assert!(matches!(t, Target::Address(_)));
}

#[test]
fn verification_mode_follows_the_configuration() {
    assert!(matches!(
        EdgeVerification::from_config(None, &[]).unwrap_or(EdgeVerification::Pinned(vec![])),
        EdgeVerification::Skip
    ));
    assert!(matches!(
        EdgeVerification::from_config(None, &["ab".repeat(32)]).unwrap_or(EdgeVerification::Skip),
        EdgeVerification::Pinned(_)
    ));
    let missing = CaBundle {
        path: "/nonexistent/ca.pem".into(),
        content: Err("No such file or directory (os error 2)".into()),
    };
    assert!(EdgeVerification::from_config(Some(missing), &[]).is_err());

    let ca = rcgen::generate_simple_self_signed(vec!["edge.test".to_string()]).unwrap();
    let bundle = CaBundle {
        path: "ca.pem".into(),
        content: Ok(ca.cert.pem().into_bytes()),
    };
    match EdgeVerification::from_config(Some(bundle), &[]) {
        Ok(EdgeVerification::Ca(roots)) => assert_eq!(roots.len(), 1),
        _ => panic!("the CA is used"),
    }
}

#[test]
fn server_name_handles_literals_and_overrides() {
    assert_eq!(
        tls_server_name("edge.example.com:4433", None).unwrap(),
        "edge.example.com"
    );
    assert_eq!(
        tls_server_name("203.0.113.5:4433", None).unwrap(),
        "203.0.113.5"
    );
    // An IPv6 literal must not be cut at its first colon.
    assert_eq!(
        tls_server_name("[2001:db8::1]:4433", None).unwrap(),
        "2001:db8::1"
    );
    assert_eq!(
        tls_server_name("[2001:db8::1]:4433", Some("edge.example.com")).unwrap(),
        "edge.example.com"
    );
    assert!(tls_server_name("2001:db8::1:4433", None).is_err());
}

#[test]
fn jitter_stays_within_half_of_the_backoff() {
    let backoff = Duration::from_secs(8);
    for _ in 0..100 {
        let delay = jittered(backoff);
        assert!(delay >= backoff.half() && delay <= backoff, "{delay:?}");
    }
    assert_eq!(jittered_by(backoff, 0), backoff.half());
}

#[test]
fn pinning_accepts_only_listed_fingerprints() {
    let cert = rcgen::generate_simple_self_signed(vec!["edge.test".to_string()]).unwrap();
    let der = cert.cert.der().to_vec();
    let fingerprint = certificate_sha256(&der);
    assert_eq!(fingerprint.len(), 64);
    assert!(verify_pinned(&vec![fingerprint.clone()], &der).is_ok());
    assert!(verify_pinned(&vec!["00".repeat(32)], &der).is_err());
}

#[test]
fn replacement_is_told_apart_from_other_closes() {
    let mut health = ConnectorHealth::new(&["edge-a:4433".to_string()]);
    let (mut run, name) =
        EdgeLoop::start("edge-a:4433", None, Ok(()), false, &mut health).unwrap();
    assert_eq!(name, "edge-a");
    assert_eq!(run.step(LoopEvent::Connected, &mut health, 0), LoopAction::Serve);
    assert!(health.is_ready());
    let ended = LoopEvent::SessionEnded {
        lasted: Duration::from_secs(1),
        close_code: Some(app_error::REPLACED),
        error: None,
    };
    let LoopAction::Wait(replaced) = run.step(ended, &mut health, 0) else {
        panic!("a replaced Connector waits");
    };
    assert!(!health.is_ready());
    assert_eq!(run.step(LoopEvent::Waited, &mut health, 0), LoopAction::Connect);
    assert_eq!(run.step(LoopEvent::Connected, &mut health, 0), LoopAction::Serve);
    let ended = LoopEvent::SessionEnded {
        lasted: Duration::from_secs(1),
        close_code: Some(app_error::GOING_AWAY),
        error: None,
    };
    let LoopAction::Wait(other) = run.step(ended, &mut health, 0) else {
        panic!("a closed session is tried again");
    };
    assert!(replaced > other);
}

#[test]
fn shutdown_announces_going_away_and_waits_for_streams_in_flight() {
    let mut serving = Serving::new();
    assert!(matches!(
        serving.step(ServeEvent::Stream { room: true }),
        ServeAction::ServeStream
    ));
    assert!(matches!(serving.step(ServeEvent::Shutdown), ServeAction::Drain));
    assert!(serving.draining);
    assert!(matches!(
        serving.step(ServeEvent::Idle),
        ServeAction::Close { code: app_error::GOING_AWAY }
    ));
}

#[test]
fn excess_streams_do_not_consume_local_connections() {
    let mut serving = Serving::new();
    assert!(matches!(
        serving.step(ServeEvent::Stream { room: true }),
        ServeAction::ServeStream
    ));
    assert!(matches!(
        serving.step(ServeEvent::Stream { room: false }),
        ServeAction::RejectStream
    ));
    // A later stream can use the room that is there again.
    assert!(matches!(
        serving.step(ServeEvent::Stream { room: true }),
        ServeAction::ServeStream
    ));
    let matcher = IngressMatcher::new(vec![rule(None, None, "127.0.0.1:8080")]);
    let request = ConnectRequest {
        request_id: 3,
        hostname: "web.test".into(),
        protocol: Protocol::Tcp,
        client_addr: parse_socket("203.0.113.7:5000").unwrap(),
    };
    match route_stream(&matcher, &request) {
        StreamRoute::Tunnel(target) => {
            assert_eq!(target, parse_socket("127.0.0.1:8080").unwrap());
        }
        other => panic!("{other:?}"),
    }
}

#[test]
fn draining_ends_at_the_drain_timeout() {
    let mut serving = Serving::new();
    assert!(matches!(serving.step(ServeEvent::Shutdown), ServeAction::Drain));
    assert!(matches!(
        serving.step(ServeEvent::DrainTimeout),
        ServeAction::Close { code: app_error::GOING_AWAY }
    ));
}

#[test]
fn failed_connections_back_off() {
    let mut health = ConnectorHealth::new(&["edge-a:4433".to_string()]);
    let (mut run, _) = EdgeLoop::start("edge-a:4433", None, Ok(()), false, &mut health).unwrap();
    let mut waits = Vec::new();
    for _ in 0..8 {
        let LoopAction::Wait(wait) =
            run.step(LoopEvent::ConnectFailed("refused".into()), &mut health, 1023)
        else {
            panic!("a failed connection is tried again");
        };
        waits.push(wait);
        assert_eq!(run.step(LoopEvent::Waited, &mut health, 0), LoopAction::Connect);
    }
    assert!(waits.windows(2).all(|w| w[0] <= w[1]));
    assert!(*waits.last().unwrap() <= Duration::from_secs(30));
    assert_eq!(run.step(LoopEvent::Shutdown, &mut health, 0), LoopAction::Stop);
}

#[test]
fn streams_and_datagrams_are_routed_by_the_rules() {
    let matcher = IngressMatcher::new(vec![
        rule(Some("game.test"), Some(Protocol::Udp), "127.0.0.1:19132"),
        rule(None, None, "http_status:404"),
    ]);
    let header = DatagramHeader { request_id: 5, hostname: "game.test".into() };
    match route_datagram(&matcher, &header.encode(b"ping")) {
        DatagramRoute::Forward { header, target, payload } => {
            assert_eq!(header.request_id, 5);
            assert_eq!(target, SocketAddr::V4(0x7f00_0001, 19132));
            assert_eq!(payload, b"ping");
        }
        other => panic!("{other:?}"),
    }
    let other = DatagramHeader { request_id: 5, hostname: "web.test".into() };
    assert!(matches!(
        route_datagram(&matcher, &other.encode(b"ping")),
        DatagramRoute::NoRoute { .. }
    ));
    assert!(matches!(route_datagram(&matcher, b"x"), DatagramRoute::Malformed));
    let request = ConnectRequest {
        request_id: 1,
        hostname: "web.test".into(),
        protocol: Protocol::Http,
        client_addr: parse_socket("192.0.2.1:1").unwrap(),
    };
    match route_stream(&matcher, &request) {
        StreamRoute::Answer(bytes) => {
            assert_eq!(bytes, http_status_response(404).into_bytes());
        }
        other => panic!("{other:?}"),
    }
    assert!(http_status_response(404).starts_with("HTTP/1.1 404"));
}

#[test]
fn refused_tokens_and_addresses_are_reported() {
    assert!(check_auth_response(&AuthResponse { ok: true, reason: None }).is_ok());
    let refused = AuthResponse { ok: false, reason: Some("bad token".into()) };
    assert!(check_auth_response(&refused).unwrap_err().contains("bad token"));
    let failures = vec![(parse_socket("192.0.2.1:4433").unwrap(), "timed out".to_string())];
    assert!(connect_error(&failures).contains("192.0.2.1:4433"));
}

#[test]
fn tunnel_ids_are_read_from_tokens() {
    assert_eq!(base64url_decode("aGk_").unwrap(), b"hi?");
    assert_eq!(base64url_decode("a+"), None);
    // {"sub":"tenant-1"}
    assert_eq!(
        extract_jwt_sub("e30.eyJzdWIiOiJ0ZW5hbnQtMSJ9.x").as_deref(),
        Some("tenant-1")
    );
    assert_eq!(extract_jwt_sub("e30"), None);
}

#[test]
fn heartbeats_outlive_their_interval() {
    assert_eq!(heartbeat_key("t"), "sievetube:connector:t:last_seen");
    assert!(heartbeat_ttl(30) > 30);
    match heartbeat(&vec!["edge-a:4433".into(), "edge-\"b\"".into()], 30, 1_700_000_000) {
        Heartbeat::Publish { value, ttl } => {
            assert_eq!(
                value,
                r#"{"edges":["edge-a:4433","edge-\"b\""],"last_seen":1700000000}"#
            );
            assert_eq!(ttl, heartbeat_ttl(30));
        }
        Heartbeat::Remove => panic!("a connected Edge is published"),
    }
    assert!(matches!(heartbeat(&vec![], 30, 0), Heartbeat::Remove));
}

#[test]
fn the_health_server_tells_the_state_of_each_edge() {
    let mut health = ConnectorHealth::new(&["b:1".to_string(), "a:1".to_string()]);
    health.update("a:1", EdgeStatus::Connected, None, 5);
    health.update("b:1", EdgeStatus::Disconnected, Some("timed \"out\"".to_string()), 7);
    let expected = r#"{"configured_edges":2,"connected_edges":1,"draining":false,"edges":[{"changed_at":5,"last_error":null,"server":"a:1","status":"connected"},{"changed_at":7,"last_error":"timed \"out\"","server":"b:1","status":"disconnected"}],"status":"ready"}"#;
    assert_eq!(health.json(), expected);
    let ready = health.reply(HealthQuery::Readiness).unwrap();
    assert_eq!((ready.status, ready.body.as_str()), (200, expected));
    health.set_draining();
    assert_eq!(health.reply(HealthQuery::Readiness).unwrap().status, 503);
    assert_eq!(health.reply(HealthQuery::Liveness).unwrap().status, 200);
    assert_eq!(health.reply(HealthQuery::Unknown).unwrap().status, 404);
    assert!(health.reply(HealthQuery::Metrics).is_none());
}
