use sievetube::auth::verify_jwt;
use sievetube::edge::acme::Coordination;
use sievetube::edge::config::{
    AcmeChallenge, AcmeConfig, AcmeCoordination, DnsConfig, MeshConfig, RoutingMode,
};
use sievetube::edge::dns::reconciler::WriterMode;
use sievetube::edge::health::{liveness, readiness, readiness_issues, valkey_issues};
use sievetube::edge::listener::{
    after_peer, start_delivery, tcp_arrival, udp_arrival, Arrival, Delivery, DeliveryStep,
    MAX_INFLIGHT_FORWARDS,
};
use sievetube::edge::startup::{
    acme_coordination, check_byoc_conflict, configured_edge_id, dns_settings, mesh_cert_args,
    mesh_enabled, needs_dns_providers, txt_settings, writer_mode,
};
use sievetube::edge::token::{issue_token, parse_token_args, token_claims, SecretSource};
use sievetube::health::{not_found, query, HealthQuery};
use sievetube::time::Duration;

fn words(list: &[&str]) -> Vec<String> {
    list.iter().map(|w| w.to_string()).collect()
}

#[test]
fn an_issued_token_names_its_tenant_and_hostnames() {
    let args = parse_token_args(&words(&[
        "--secret",
        "s3cret",
        "--sub",
        "tenant-1",
        "--hostname",
        "Web.Example.com",
        "--exp-hours",
        "2",
    ]))
    .ok()
    .unwrap();
    assert_eq!(args.exp_hours, 2);
    assert_eq!(args.secret_source(), SecretSource::Given("s3cret".to_string()));
    let now = std::time::SystemTime::now()
        .duration_since(std::time::UNIX_EPOCH)
        .unwrap()
        .as_secs();
    let token = issue_token(&args, Some("s3cret"), now).unwrap();
    let claims = verify_jwt(&token, b"s3cret").ok().unwrap().claims;
    assert_eq!(claims.sub, "tenant-1");
    assert_eq!(claims.exp, now + 7200);
    assert_eq!(claims.hostnames, vec!["web.example.com"]);
    assert!(verify_jwt(&token, b"other").is_err());
}

#[test]
fn token_arguments_are_checked() {
    assert!(parse_token_args(&words(&["--unknown"])).is_err());
    assert!(parse_token_args(&words(&["--sub"])).is_err());
    assert!(parse_token_args(&words(&["--exp-hours", "soon"])).is_err());
    let args = parse_token_args(&words(&["--secret-file", "/run/secret"])).ok().unwrap();
    assert_eq!(args.secret_source(), SecretSource::File("/run/secret".to_string()));
    let args = parse_token_args(&words(&["--hostname", "a.test"])).ok().unwrap();
    assert_eq!(args.secret_source(), SecretSource::Environment);
    assert!(token_claims(&args, true, 1_000).is_err(), "a tenant is needed");
    let args = parse_token_args(&words(&["--sub", "t1"])).ok().unwrap();
    assert!(token_claims(&args, false, 1_000).is_err(), "a secret is needed");
    assert!(token_claims(&args, true, 1_000).is_err(), "a hostname is needed");
    let args =
        parse_token_args(&words(&["--sub", "t1", "--hostname", "bad host"])).ok().unwrap();
    assert!(token_claims(&args, true, 1_000).is_err());
}

#[test]
fn health_endpoints_answer() {
    assert_eq!(query("/healthz"), HealthQuery::Liveness);
    assert_eq!(query("/readyz"), HealthQuery::Readiness);
    assert_eq!(query("/metrics"), HealthQuery::Metrics);
    assert_eq!(query("/"), HealthQuery::Unknown);
    let live = liveness(3);
    assert_eq!(live.status, 200);
    let body: serde_json::Value = serde_json::from_str(&live.body).unwrap();
    assert_eq!(body["active_connectors"], 3);
    let ready = readiness(&Vec::new());
    assert_eq!((ready.status, ready.body.as_str()), (200, "{\"status\":\"ready\"}"));
    let issues = readiness_issues(&vec![
        valkey_issues(false),
        Vec::new(),
        vec!["certificate \"a\" expired".to_string()],
    ]);
    assert_eq!(issues, vec!["valkey not connected", "certificate \"a\" expired"]);
    let degraded = readiness(&issues);
    assert_eq!(degraded.status, 503);
    let body: serde_json::Value = serde_json::from_str(&degraded.body).unwrap();
    assert_eq!(body["status"], "degraded");
    assert_eq!(body["reasons"][1], "certificate \"a\" expired");
    assert!(readiness_issues(&vec![valkey_issues(true)]).is_empty());
    assert_eq!(not_found().status, 404);
}

#[test]
fn arrivals_are_limited_before_they_are_routed() {
    assert_eq!(tcp_arrival(true, true), Arrival::Rejected);
    assert_eq!(tcp_arrival(false, false), Arrival::NoRoute);
    assert_eq!(tcp_arrival(false, true), Arrival::Forward);
    assert_eq!(udp_arrival(true, false, 0).drop_reason(), Some("policy"));
    assert_eq!(udp_arrival(false, false, 0).drop_reason(), Some("no_route"));
    assert_eq!(
        udp_arrival(false, true, MAX_INFLIGHT_FORWARDS).drop_reason(),
        Some("forward_backlog")
    );
    assert_eq!(udp_arrival(false, true, MAX_INFLIGHT_FORWARDS - 1).drop_reason(), None);
}

#[test]
fn datagrams_try_each_peer_in_order() {
    assert_eq!(start_delivery(Delivery::Local, false), DeliveryStep::ToConnector);
    assert_eq!(start_delivery(Delivery::Remote(2), true), DeliveryStep::ToPeer(0));
    assert_eq!(start_delivery(Delivery::Remote(2), false), DeliveryStep::Done);
    assert_eq!(start_delivery(Delivery::Remote(0), true), DeliveryStep::Dropped);
    assert_eq!(start_delivery(Delivery::Unavailable, true), DeliveryStep::Done);
    assert_eq!(after_peer(2, 0, false), DeliveryStep::ToPeer(1));
    assert_eq!(after_peer(2, 1, false), DeliveryStep::Dropped);
    assert_eq!(after_peer(2, 0, true), DeliveryStep::Done);
}

#[test]
fn startup_follows_the_configuration() {
    let mut mesh = MeshConfig::default();
    assert_eq!(configured_edge_id(None), None);
    assert_eq!(configured_edge_id(Some(&mesh)), None);
    mesh.edge_id = "edge-a".to_string();
    assert_eq!(configured_edge_id(Some(&mesh)).as_deref(), Some("edge-a"));
    assert!(mesh_enabled(Some(RoutingMode::Mesh), true));
    assert!(!mesh_enabled(Some(RoutingMode::Mesh), false));
    assert!(!mesh_enabled(Some(RoutingMode::Direct), true));

    let mut dns = DnsConfig::default();
    let mut acme = AcmeConfig::default();
    acme.enabled = true;
    assert!(!needs_dns_providers(&dns, Some(&acme)));
    acme.challenge = AcmeChallenge::Dns01;
    assert!(needs_dns_providers(&dns, Some(&acme)));
    dns.enabled = true;
    assert!(needs_dns_providers(&dns, None));
    assert_eq!(writer_mode(&dns, true), WriterMode::Valkey);
    assert_eq!(writer_mode(&dns, false), WriterMode::SingleWriter);
    dns.single_writer = true;
    assert_eq!(writer_mode(&dns, true), WriterMode::SingleWriter);
    dns.settle_secs = 7;
    assert_eq!(dns_settings(&dns).settle_secs, 7);
    acme.dns_propagation_timeout_secs = 9;
    assert_eq!(txt_settings(&acme).propagation_timeout, Duration::from_secs(9));

    assert!(matches!(
        acme_coordination(AcmeCoordination::Alone, false),
        Ok(Coordination::Local)
    ));
    assert!(matches!(
        acme_coordination(AcmeCoordination::Valkey, true),
        Ok(Coordination::Valkey)
    ));
    assert!(acme_coordination(AcmeCoordination::Valkey, false).is_err());
}

#[test]
fn a_managed_name_has_no_certificate_file() {
    let domains = words(&["a.test", "b.test"]);
    assert_eq!(check_byoc_conflict(&domains, &vec![false, false], "/certs"), Ok(()));
    assert_eq!(
        check_byoc_conflict(&domains, &vec![false, true], "/certs").unwrap_err(),
        "b.test is listed in tls.acme.domains but /certs/b.test.crt also exists; remove one of them"
    );
}

#[test]
fn mesh_cert_arguments_have_defaults() {
    let args = mesh_cert_args(&words(&["ca", "edge-a"])).unwrap();
    assert_eq!((args.out_dir.as_str(), args.days), ("ca", 365));
    let args = mesh_cert_args(&words(&["ca", "edge-a", "out", "30"])).unwrap();
    assert_eq!((args.out_dir.as_str(), args.days), ("out", 30));
    assert!(mesh_cert_args(&words(&["ca"])).is_err());
    assert!(mesh_cert_args(&words(&["ca", "edge-a", "out", "long"])).is_err());
}
