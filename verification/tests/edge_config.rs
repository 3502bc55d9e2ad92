use sievetube::addr::SocketAddr;
use sievetube::edge::config::{
    default_cert_reload_interval_secs, default_dns_request_timeout_secs, default_drain_timeout_secs,
    default_health_listen, default_max_connector_connections, default_udp_max_pending_replies,
    default_udp_reply_timeout_secs, AcmeChallenge, AcmeConfig, AcmeCoordination, AuthConfig,
    DnsConfig, DnsProviderConfig, DnsProviderType, EdgeConfig, HttpConfig, MeshConfig,
    MeshPeerConfig, PolicyConfig, PortHostMapping, RoutingConfig, RoutingMode, ServerConfig,
    TlsConfig, ValkeyConfig,
};
use sievetube::edge::config_check::{
    challenge_record_name, parse_resolver_addr, validate_listen_addr,
};

fn minimal() -> EdgeConfig {
    EdgeConfig {
        config_version: None,
        server: ServerConfig {
            quic_listen: "127.0.0.1:4433".to_string(),
            quic_cert: None,
            quic_key: None,
            http_listen: "127.0.0.1:8080".to_string(),
            https_listen: "127.0.0.1:8443".to_string(),
            tcp_listen: Vec::new(),
            udp_listen: Vec::new(),
            health_listen: default_health_listen(),
            drain_timeout_secs: default_drain_timeout_secs(),
            udp_reply_timeout_secs: default_udp_reply_timeout_secs(),
            udp_max_pending_replies: default_udp_max_pending_replies(),
            max_connector_connections: default_max_connector_connections(),
        },
        auth: AuthConfig { jwt_secret: "secret".to_string(), jwt_previous_secrets: Vec::new() },
        tls: TlsConfig {
            cert_dir: "/nonexistent".to_string(),
            reload_interval_secs: default_cert_reload_interval_secs(),
            acme: None,
        },
        valkey: None,
        http: HttpConfig::default(),
        policy: PolicyConfig::default(),
        dns: DnsConfig::default(),
        routing: RoutingConfig::default(),
        mesh: None,
    }
}

fn check(cfg: EdgeConfig) -> Result<EdgeConfig, String> {
    cfg.validate(&Vec::new(), Ok(()))
}

fn mapping(addr: &str, hostname: &str) -> PortHostMapping {
    PortHostMapping { addr: addr.to_string(), hostname: hostname.to_string() }
}

fn mesh_section() -> MeshConfig {
    let mut mesh = MeshConfig::default();
    mesh.edge_id = "edge-a".to_string();
    mesh.listen = "0.0.0.0:4434".to_string();
    mesh.advertise = "203.0.113.1:4434".to_string();
    mesh.ca_cert = "ca.pem".to_string();
    mesh.cert = "edge.pem".to_string();
    mesh.key = "edge.key".to_string();
    mesh.peers = vec![MeshPeerConfig {
        edge_id: "edge-b".to_string(),
        addr: Some("203.0.113.2:4434".to_string()),
    }];
    mesh
}

fn mesh_files() -> Vec<String> {
    vec!["ca.pem".to_string(), "edge.pem".to_string(), "edge.key".to_string()]
}

#[test]
fn routing_mode_follows_the_config_version() {
    let cfg = check(minimal()).unwrap();
    assert_eq!(cfg.routing.mode, Some(RoutingMode::Direct));

    let mut v2 = minimal();
    v2.config_version = Some(2);
    let err = check(v2).unwrap_err();
    assert!(err.contains("[mesh]"), "{err}");

    let mut mesh = minimal();
    mesh.routing.mode = Some(RoutingMode::Mesh);
    let mut section = MeshConfig::default();
    section.edge_id = "edge-a".to_string();
    section.listen = "0.0.0.0:4434".to_string();
    section.advertise = "0.0.0.0:4434".to_string();
    section.ca_cert = "/nonexistent/ca.pem".to_string();
    section.cert = "/nonexistent/edge.pem".to_string();
    section.key = "/nonexistent/edge.key".to_string();
    mesh.mesh = Some(section);
    assert!(check(mesh).is_err());
}

#[test]
fn minimal_config_uses_defaults() {
    let cfg = check(minimal()).unwrap();
    assert_eq!(cfg.http.max_header_bytes, 64 * 1024);
    assert_eq!(cfg.http.max_connections, 4096);
    assert_eq!(cfg.server.drain_timeout_secs, 30);
    assert_eq!(cfg.server.max_connector_connections, 4096);
    assert!(cfg.valkey.is_none());
}

#[test]
fn normalizes_listener_hostnames() {
    let mut cfg = minimal();
    cfg.server.tcp_listen.push(mapping("127.0.0.1:2222", "SSH.Example.com."));
    let cfg = check(cfg).unwrap();
    assert_eq!(cfg.server.tcp_listen[0].hostname, "ssh.example.com");
}

#[test]
fn rejects_invalid_values() {
    let mut bad_host = minimal();
    bad_host.server.udp_listen.push(mapping("127.0.0.1:2222", "bad host"));
    assert!(check(bad_host).is_err());

    let mut small_headers = minimal();
    small_headers.http.max_header_bytes = 1024;
    assert!(check(small_headers).is_err());

    let mut bad_quic = minimal();
    bad_quic.server.quic_listen = "localhost".to_string();
    assert!(check(bad_quic).is_err());

    let mut bad_policy = minimal();
    bad_policy.policy.enabled = true;
    bad_policy.policy.blocked_cidrs = vec!["10.0.0.0/33".to_string()];
    assert!(bad_policy
        .validate(&Vec::new(), Err("invalid CIDR '10.0.0.0/33'".to_string()))
        .is_err());
}

fn acme(domains: &[&str]) -> AcmeConfig {
    let mut acme = AcmeConfig::default();
    acme.state_dir = "/var/lib/sievetube".to_string();
    acme.enabled = true;
    acme.terms_of_service_agreed = true;
    acme.domains = domains.iter().map(|d| d.to_string()).collect();
    acme
}

fn with_acme(acme: AcmeConfig) -> EdgeConfig {
    let mut cfg = minimal();
    cfg.tls.acme = Some(acme);
    cfg
}

fn dns01(zone: &str) -> EdgeConfig {
    let mut section = acme(&["*.example.com", "example.com"]);
    section.challenge = AcmeChallenge::Dns01;
    section.dns_resolvers = vec!["127.0.0.1:8053".to_string(), "1.1.1.1".to_string()];
    let mut cfg = with_acme(section);
    cfg.dns.allowed_zones = vec!["example.com".to_string()];
    cfg.dns.providers = vec![DnsProviderConfig {
        name: "cf".to_string(),
        kind: DnsProviderType::Cloudflare,
        zone: zone.to_string(),
        zone_id: Some("z".to_string()),
        api_token_env: Some("CF_TOKEN".to_string()),
        api_token_file: None,
        api_base_url: None,
        hosted_zone_id: None,
        endpoint_url: None,
        region: None,
        request_timeout_secs: default_dns_request_timeout_secs(),
    }];
    cfg
}

#[test]
fn validates_acme_section() {
    let mut good = acme(&["WWW.Example.com."]);
    good.contact_email = Some("ops@example.com".to_string());
    let parsed = check(with_acme(good)).unwrap().tls.acme.unwrap();
    assert_eq!(parsed.domains, vec!["www.example.com"]);
    assert_eq!(parsed.challenge, AcmeChallenge::Http01);

    // Disabled sections are not validated.
    let mut disabled = AcmeConfig::default();
    disabled.state_dir = "/var/lib/sievetube".to_string();
    disabled.enabled = false;
    assert!(check(with_acme(disabled)).is_ok());

    let mut no_terms = acme(&["a.example.com"]);
    no_terms.terms_of_service_agreed = false;
    assert!(check(with_acme(no_terms)).is_err());
    assert!(check(with_acme(acme(&[]))).is_err());
    assert!(check(with_acme(acme(&["*.example.com"]))).is_err());
    assert!(check(with_acme(acme(&["a.example.com", "A.example.com"]))).is_err());
    let mut plain = acme(&["a.example.com"]);
    plain.directory_url = "http://ca.test/dir".to_string();
    assert!(check(with_acme(plain)).is_err());
    let mut late = acme(&["a.example.com"]);
    late.renew_before_billionths = 1_500_000_000;
    assert!(check(with_acme(late)).is_err());
    let mut shared = acme(&["a.example.com"]);
    shared.coordination = AcmeCoordination::Valkey;
    assert!(check(with_acme(shared)).is_err());
    let mut uncovered = acme(&["*.example.com"]);
    uncovered.challenge = AcmeChallenge::Dns01;
    assert!(check(with_acme(uncovered)).is_err());
    let mut resolver = acme(&["a.example.com"]);
    resolver.dns_resolvers = vec!["not-an-ip".to_string()];
    assert!(check(with_acme(resolver)).is_err());

    // dns-01 with a provider covering the domain (wildcards allowed).
    let cfg = check(dns01("example.com")).unwrap();
    assert_eq!(cfg.tls.acme.unwrap().challenge, AcmeChallenge::Dns01);
    assert!(check(dns01("other.example.com")).is_err());
}

#[test]
fn mesh_routing_needs_valkey_its_files_and_an_address() {
    let mesh = |edit: &dyn Fn(&mut EdgeConfig)| {
        let mut cfg = minimal();
        cfg.config_version = Some(2);
        cfg.valkey = Some(ValkeyConfig { url: "redis://127.0.0.1".to_string() });
        cfg.mesh = Some(mesh_section());
        edit(&mut cfg);
        cfg.validate(&mesh_files(), Ok(()))
    };
    let section = |edit: &dyn Fn(&mut MeshConfig)| mesh(&|cfg| edit(cfg.mesh.as_mut().unwrap()));
    assert_eq!(mesh(&|_| {}).unwrap().routing.mode, Some(RoutingMode::Mesh));
    let err = mesh(&|cfg| cfg.valkey = None).unwrap_err();
    assert!(err.contains("requires a [valkey] section"), "{err}");
    assert!(mesh(&|cfg| cfg.mesh = None).is_err());
    assert!(section(&|m| m.peers = Vec::new()).is_ok());
    assert!(section(&|m| m.peers[0].addr = None).is_ok());
    let err = section(&|m| m.key = "other.key".to_string()).unwrap_err();
    assert!(err.contains("mesh.key: other.key does not exist"), "{err}");
    assert!(section(&|m| m.edge_id = "Edge A".to_string()).is_err());
    assert!(section(&|m| m.advertise = "0.0.0.0:4434".to_string()).is_err());
    assert!(section(&|m| m.peers[0].edge_id = "edge-a".to_string()).is_err());
    assert!(section(&|m| m.max_streams_per_peer = 0).is_err());
    assert!(section(&|m| m.route_refresh_secs = m.route_ttl_secs).is_err());
}

#[test]
fn unknown_config_versions_are_rejected() {
    let mut cfg = minimal();
    cfg.config_version = Some(3);
    assert!(check(cfg).is_err());
    let mut cfg = minimal();
    cfg.config_version = Some(2);
    cfg.routing.mode = Some(RoutingMode::Direct);
    assert_eq!(cfg.effective_mode(), RoutingMode::Direct);
    assert_eq!(check(cfg).unwrap().routing.mode, Some(RoutingMode::Direct));
    let mut cfg = minimal();
    cfg.config_version = Some(2);
    assert_eq!(cfg.effective_mode(), RoutingMode::Mesh);
}

#[test]
fn resolver_addresses_default_to_the_dns_port() {
    assert_eq!(
        parse_resolver_addr("1.1.1.1"),
        Ok(SocketAddr::V4(0x0101_0101, 53))
    );
    assert_eq!(
        parse_resolver_addr("127.0.0.1:8053"),
        Ok(SocketAddr::V4(0x7f00_0001, 8053))
    );
    assert!(parse_resolver_addr("resolver.example").is_err());
}

#[test]
fn listen_addresses_and_challenge_names_are_checked() {
    assert_eq!(validate_listen_addr("server.http_listen", "127.0.0.1:80"), Ok(()));
    assert_eq!(validate_listen_addr("server.http_listen", "localhost:80"), Ok(()));
    assert!(validate_listen_addr("server.http_listen", ":80").is_err());
    let err = validate_listen_addr("server.http_listen", "localhost").unwrap_err();
    assert!(err.contains("server.http_listen"), "{err}");
    assert_eq!(challenge_record_name("*.example.com"), "_acme-challenge.example.com");
    assert_eq!(challenge_record_name("www.example.com"), "_acme-challenge.www.example.com");
}
