//! The Edge's configuration.

use vstd::prelude::*;
use vstd::string::*;
use crate::edge::dns::record::RecordType;
use crate::time::Duration;

verus! {

#[derive(Debug)]
pub struct EdgeConfig {
    /// Configuration format version. Version 2 defaults to mesh routing; an
    /// absent value is treated as version 1 (direct routing) so that upgrading
    /// the binary never changes how traffic flows.
    pub config_version: Option<u32>,
    pub server: ServerConfig,
    pub auth: AuthConfig,
    pub tls: TlsConfig,
    pub valkey: Option<ValkeyConfig>,
    pub http: HttpConfig,
    pub policy: PolicyConfig,
    pub dns: DnsConfig,
    pub routing: RoutingConfig,
    pub mesh: Option<MeshConfig>,
}

#[derive(Debug, Clone, Copy, PartialEq, Eq, Structural)]
pub enum RoutingMode {
    /// Only Connectors attached to this Edge are used
    Direct,
    /// Requests without a local Connector are forwarded to a peer Edge
    Mesh,
}

#[derive(Debug, Clone, Copy, PartialEq, Eq, Structural)]
pub struct RoutingConfig {
    /// Defaults to mesh for config_version >= 2, otherwise direct
    pub mode: Option<RoutingMode>,
}

impl Default for RoutingConfig {
    fn default() -> (r: Self)
        ensures
            r.mode is None,
    {
        RoutingConfig { mode: None }
    }
}

#[derive(Debug)]
pub struct MeshPeerConfig {
    pub edge_id: String,
    /// Static address; by default the peer's advertised address is used
    pub addr: Option<String>,
}

/// Edge-to-Edge forwarding. Peers authenticate with certificates from a mesh CA.
#[derive(Debug)]
pub struct MeshConfig {
    /// Stable identifier of this Edge; must match its mesh certificate
    pub edge_id: String,
    pub listen: String,
    /// Address peers use to reach this Edge
    pub advertise: String,
    pub ca_cert: String,
    pub cert: String,
    pub key: String,
    pub peers: Vec<MeshPeerConfig>,
    /// Whether this Edge forwards UDP for peers
    pub udp: bool,
    pub max_streams_per_peer: usize,
    pub max_streams_per_tenant: usize,
    pub stream_wait_ms: u64,
    pub accept_timeout_ms: u64,
    pub connect_timeout_ms: u64,
    /// Lifetime of an advertised route
    pub route_ttl_secs: u64,
    /// How often routes are re-advertised and the cache is refreshed
    pub route_refresh_secs: u64,
    pub peer_failure_cooldown_secs: u64,
    pub max_pending_udp_replies: usize,
}

impl Default for MeshConfig {
    fn default() -> (r: Self)
        ensures
            r.edge_id@ == Seq::<char>::empty(),
            r.listen@ == "0.0.0.0:4434"@,
            r.advertise@ == Seq::<char>::empty(),
            r.ca_cert@ == Seq::<char>::empty(),
            r.cert@ == Seq::<char>::empty(),
            r.key@ == Seq::<char>::empty(),
            r.peers@.len() == 0,
            r.udp,
            r.max_streams_per_peer == 1024,
            r.max_streams_per_tenant == 256,
            r.stream_wait_ms == 2000,
            r.accept_timeout_ms == 3000,
            r.connect_timeout_ms == 5000,
            r.route_ttl_secs == 30,
            r.route_refresh_secs == 10,
            r.peer_failure_cooldown_secs == 15,
            r.max_pending_udp_replies == 4096,
    {
        MeshConfig {
            edge_id: String::new(),
            listen: "0.0.0.0:4434".to_owned(),
            advertise: String::new(),
            ca_cert: String::new(),
            cert: String::new(),
            key: String::new(),
            peers: Vec::new(),
            udp: true,
            max_streams_per_peer: 1024,
            max_streams_per_tenant: 256,
            stream_wait_ms: 2000,
            accept_timeout_ms: 3000,
            connect_timeout_ms: 5000,
            route_ttl_secs: 30,
            route_refresh_secs: 10,
            peer_failure_cooldown_secs: 15,
            max_pending_udp_replies: 4096,
        }
    }
}

impl MeshConfig {
    pub fn stream_wait(&self) -> (r: Duration)
        ensures
            r.nanos == self.stream_wait_ms * 1_000_000,
    {
        Duration::from_millis(self.stream_wait_ms)
    }

    pub fn accept_timeout(&self) -> (r: Duration)
        ensures
            r.nanos == self.accept_timeout_ms * 1_000_000,
    {
        Duration::from_millis(self.accept_timeout_ms)
    }

    pub fn connect_timeout(&self) -> (r: Duration)
        ensures
            r.nanos == self.connect_timeout_ms * 1_000_000,
    {
        Duration::from_millis(self.connect_timeout_ms)
    }

    pub fn route_ttl(&self) -> (r: Duration)
        ensures
            r.nanos == self.route_ttl_secs * 1_000_000_000,
    {
        Duration::from_secs(self.route_ttl_secs)
    }

    pub fn route_refresh(&self) -> (r: Duration)
        ensures
            r.nanos == self.route_refresh_secs * 1_000_000_000,
    {
        Duration::from_secs(self.route_refresh_secs)
    }
}

#[derive(Debug, Clone, Copy, PartialEq, Eq, Structural)]
pub enum DnsProviderType {
    Cloudflare,
    Route53,
}

#[derive(Debug, Clone, Copy, PartialEq, Eq, Structural)]
pub enum RecordState {
    Present,
    /// Delete the record if it is managed by Sieve Tube and unchanged
    Absent,
}

impl Default for RecordState {
    fn default() -> (r: Self)
        ensures
            r == RecordState::Present,
    {
        RecordState::Present
    }
}

/// DNS record management through provider APIs.
#[derive(Debug)]
pub struct DnsConfig {
    pub enabled: bool,
    /// Only log the planned changes
    pub dry_run: bool,
    /// Persistent directory for managed record state (share it between Edges)
    pub state_dir: String,
    pub reconcile_interval_secs: u64,
    /// Tolerated read-after-write delay before a mismatch counts as an external change
    pub settle_secs: u64,
    /// Zone writer lease duration when coordinating through Valkey
    pub lease_ttl_secs: u64,
    /// Explicit single-writer mode for deployments without Valkey
    pub single_writer: bool,
    /// Zones Sieve Tube may modify; providers and records must be inside them
    pub allowed_zones: Vec<String>,
    pub providers: Vec<DnsProviderConfig>,
    pub records: Vec<DnsRecordConfig>,
}

impl Default for DnsConfig {
    fn default() -> (r: Self)
        ensures
            !r.enabled,
            !r.dry_run,
            r.state_dir@ == Seq::<char>::empty(),
            r.reconcile_interval_secs == 300,
            r.settle_secs == 30,
            r.lease_ttl_secs == 60,
            !r.single_writer,
            r.allowed_zones@.len() == 0,
            r.providers@.len() == 0,
            r.records@.len() == 0,
    {
        DnsConfig {
            enabled: false,
            dry_run: false,
            state_dir: String::new(),
            reconcile_interval_secs: 300,
            settle_secs: 30,
            lease_ttl_secs: 60,
            single_writer: false,
            allowed_zones: Vec::new(),
            providers: Vec::new(),
            records: Vec::new(),
        }
    }
}

/// A named provider bound to one zone. Credentials are never inline: Cloudflare
/// tokens come from an environment variable or file, AWS credentials from the
/// SDK's standard provider chain.
#[derive(Debug)]
pub struct DnsProviderConfig {
    pub name: String,
    pub kind: DnsProviderType,
    pub zone: String,
    /// Cloudflare zone id
    pub zone_id: Option<String>,
    pub api_token_env: Option<String>,
    pub api_token_file: Option<String>,
    /// Cloudflare API base URL override
    pub api_base_url: Option<String>,
    /// Route 53 public hosted zone id
    pub hosted_zone_id: Option<String>,
    /// Route 53 endpoint override
    pub endpoint_url: Option<String>,
    /// Route 53 signing region (defaults to us-east-1)
    pub region: Option<String>,
    pub request_timeout_secs: u64,
}

impl Clone for DnsProviderConfig {
    fn clone(&self) -> (r: Self)
        ensures
            r == *self,
    {
        DnsProviderConfig {
            name: self.name.clone(),
            kind: self.kind,
            zone: self.zone.clone(),
            zone_id: self.zone_id.clone(),
            api_token_env: self.api_token_env.clone(),
            api_token_file: self.api_token_file.clone(),
            api_base_url: self.api_base_url.clone(),
            hosted_zone_id: self.hosted_zone_id.clone(),
            endpoint_url: self.endpoint_url.clone(),
            region: self.region.clone(),
            request_timeout_secs: self.request_timeout_secs,
        }
    }
}

/// The request timeout where none is configured, in seconds.
pub fn default_dns_request_timeout_secs() -> (r: u64)
    ensures
        r == 15,
{
    15
}

#[derive(Debug)]
pub struct DnsRecordConfig {
    pub provider: String,
    pub name: String,
    pub record_type: RecordType,
    pub values: Vec<String>,
    pub ttl: u32,
    /// Cloudflare proxy flag; unset keeps the current setting (new records are DNS-only)
    pub proxied: Option<bool>,
    /// Take over an existing record that Sieve Tube did not create
    pub import: bool,
    pub state: RecordState,
}

/// The TTL where none is configured, in seconds.
pub fn default_dns_ttl() -> (r: u32)
    ensures
        r == 300,
{
    300
}

#[derive(Debug, Clone, Copy, PartialEq, Eq, Structural)]
pub enum PolicyMode {
    /// Reject traffic that violates the policy
    Enforce,
    /// Only record decisions (metrics and logs)
    Monitor,
}

impl Default for PolicyMode {
    fn default() -> (r: Self)
        ensures
            r == PolicyMode::Enforce,
    {
        PolicyMode::Enforce
    }
}

#[derive(Debug, Clone, Copy, PartialEq, Eq, Structural)]
pub enum RateLimitKey {
    /// One bucket per tenant, hostname and client IP
    TenantHostnameIp,
    /// One bucket per client IP across all hostnames
    ClientIp,
}

impl Default for RateLimitKey {
    fn default() -> (r: Self)
        ensures
            r == RateLimitKey::TenantHostnameIp,
    {
        RateLimitKey::TenantHostnameIp
    }
}

/// A rate, in millionths per second.
#[derive(Debug, Clone, Copy, PartialEq, Eq, Structural)]
pub struct Rate {
    pub millionths: u64,
}

/// Built-in traffic policy (local to each Edge).
#[derive(Debug)]
pub struct PolicyConfig {
    pub enabled: bool,
    pub mode: PolicyMode,
    /// Peers whose X-Forwarded-For is trusted (addresses or CIDRs)
    pub trusted_proxies: Vec<String>,
    /// Client addresses or CIDRs that are always rejected
    pub blocked_cidrs: Vec<String>,
    /// HTTP requests per second per key (unset = unlimited)
    pub requests_per_second: Option<Rate>,
    /// Bucket size; defaults to requests_per_second, rounded up
    pub burst: Option<u32>,
    pub rate_limit_key: RateLimitKey,
    /// Maximum buckets per table; new keys beyond this are rejected
    pub max_entries: usize,
    /// Idle buckets older than this are reclaimed
    pub idle_ttl_secs: u64,
    pub domains: Vec<DomainPolicyConfig>,
    pub tcp: TcpPolicyConfig,
    pub udp: UdpPolicyConfig,
    /// WebAssembly plugins evaluated after the built-in HTTP rules
    pub plugins: Vec<PluginConfig>,
}

/// A WebAssembly policy plugin (ABI described in the `plugins` module).
#[derive(Debug)]
pub struct PluginConfig {
    pub name: String,
    pub path: String,
    /// Hex SHA-256 of the module file; the module is loaded only if it matches
    pub sha256: String,
    /// Hostnames or `*.` patterns the plugin applies to (all when empty)
    pub applies_to: Vec<String>,
    pub max_memory_bytes: usize,
    /// Fuel per call (roughly proportional to executed instructions)
    pub fuel: u64,
    /// Wall-clock limit per call
    pub timeout_ms: u64,
    /// Concurrent calls; further requests fail with 503
    pub max_concurrent: usize,
}

/// The memory of a plugin where none is configured, in bytes.
pub fn default_plugin_max_memory_bytes() -> (r: usize)
    ensures
        r == 16 * 1024 * 1024,
{
    16_777_216
}

/// The fuel of a plugin call where none is configured.
pub fn default_plugin_fuel() -> (r: u64)
    ensures
        r == 10_000_000,
{
    10_000_000
}

/// The time of a plugin call where none is configured, in milliseconds.
pub fn default_plugin_timeout_ms() -> (r: u64)
    ensures
        r == 20,
{
    20
}

/// The concurrent calls of a plugin where none are configured.
pub fn default_plugin_max_concurrent() -> (r: usize)
    ensures
        r == 64,
{
    64
}

impl Default for PolicyConfig {
    fn default() -> (r: Self)
        ensures
            !r.enabled,
            r.mode == PolicyMode::Enforce,
            r.trusted_proxies@.len() == 0,
            r.blocked_cidrs@.len() == 0,
            r.requests_per_second is None,
            r.burst is None,
            r.rate_limit_key == RateLimitKey::TenantHostnameIp,
            r.max_entries == 100_000,
            r.idle_ttl_secs == 600,
            r.domains@.len() == 0,
            r.tcp == (TcpPolicyConfig {
                connections_per_second: None,
                connection_burst: None,
                max_concurrent_per_ip: None,
                max_concurrent_per_listener: None,
            }),
            r.udp == (UdpPolicyConfig {
                packets_per_second: None,
                packet_burst: None,
                bytes_per_second: None,
                byte_burst: None,
            }),
            r.plugins@.len() == 0,
    {
        PolicyConfig {
            enabled: false,
            mode: PolicyMode::Enforce,
            trusted_proxies: Vec::new(),
            blocked_cidrs: Vec::new(),
            requests_per_second: None,
            burst: None,
            rate_limit_key: RateLimitKey::TenantHostnameIp,
            max_entries: 100_000,
            idle_ttl_secs: 600,
            domains: Vec::new(),
            tcp: TcpPolicyConfig::default(),
            udp: UdpPolicyConfig::default(),
            plugins: Vec::new(),
        }
    }
}

/// Per-domain overrides. Blocked CIDRs add to the global list.
#[derive(Debug)]
pub struct DomainPolicyConfig {
    /// Hostname or `*.` wildcard pattern
    pub hostname: String,
    pub mode: Option<PolicyMode>,
    pub blocked_cidrs: Vec<String>,
    pub requests_per_second: Option<Rate>,
    pub burst: Option<u32>,
}

/// Limits for raw TCP listeners, keyed by listener and client IP.
#[derive(Debug, Clone, Copy, PartialEq, Eq, Structural)]
pub struct TcpPolicyConfig {
    pub connections_per_second: Option<Rate>,
    pub connection_burst: Option<u32>,
    pub max_concurrent_per_ip: Option<usize>,
    pub max_concurrent_per_listener: Option<usize>,
}

impl Default for TcpPolicyConfig {
    fn default() -> (r: Self)
        ensures
            r == (TcpPolicyConfig {
                connections_per_second: None,
                connection_burst: None,
                max_concurrent_per_ip: None,
                max_concurrent_per_listener: None,
            }),
    {
        TcpPolicyConfig {
            connections_per_second: None,
            connection_burst: None,
            max_concurrent_per_ip: None,
            max_concurrent_per_listener: None,
        }
    }
}

/// Limits for UDP listeners, keyed by listener and source IP. Excess datagrams are dropped.
#[derive(Debug, Clone, Copy, PartialEq, Eq, Structural)]
pub struct UdpPolicyConfig {
    pub packets_per_second: Option<Rate>,
    pub packet_burst: Option<u32>,
    pub bytes_per_second: Option<Rate>,
    pub byte_burst: Option<u32>,
}

impl Default for UdpPolicyConfig {
    fn default() -> (r: Self)
        ensures
            r == (UdpPolicyConfig {
                packets_per_second: None,
                packet_burst: None,
                bytes_per_second: None,
                byte_burst: None,
            }),
    {
        UdpPolicyConfig {
            packets_per_second: None,
            packet_burst: None,
            bytes_per_second: None,
            byte_burst: None,
        }
    }
}

#[derive(Debug)]
pub struct PortHostMapping {
    /// Listen address (e.g. "0.0.0.0:2222")
    pub addr: String,
    /// Hostname used for connector routing (since raw TCP/UDP has no Host header)
    pub hostname: String,
}

#[derive(Debug)]
pub struct ServerConfig {
    /// Address where Connectors connect via QUIC (e.g. "0.0.0.0:4433")
    pub quic_listen: String,
    /// Certificate presented to Connectors. Without one a self-signed certificate
    /// is generated, which Connectors can only accept by skipping verification.
    pub quic_cert: Option<String>,
    pub quic_key: Option<String>,
    /// Public HTTP listen address
    pub http_listen: String,
    /// Public HTTPS listen address
    pub https_listen: String,
    /// Raw TCP listeners: each entry maps a listen address to a hostname
    pub tcp_listen: Vec<PortHostMapping>,
    /// UDP listeners: each entry maps a listen address to a hostname
    pub udp_listen: Vec<PortHostMapping>,
    /// Health and metrics server address
    pub health_listen: String,
    /// Seconds to wait for in-flight public connections to finish on shutdown
    pub drain_timeout_secs: u64,
    /// How long a UDP request waits for its reply before its state is discarded
    pub udp_reply_timeout_secs: u64,
    /// Maximum UDP requests awaiting a reply per Connector connection
    pub udp_max_pending_replies: usize,
    /// Maximum authenticated or handshaking Connector QUIC connections.
    pub max_connector_connections: usize,
}

/// The UDP reply timeout where none is configured, in seconds.
pub fn default_udp_reply_timeout_secs() -> (r: u64)
    ensures
        r == 10,
{
    10
}

/// The Connector connections where no limit is configured.
pub fn default_max_connector_connections() -> (r: usize)
    ensures
        r == 4096,
{
    4096
}

/// The pending UDP replies where no limit is configured.
pub fn default_udp_max_pending_replies() -> (r: usize)
    ensures
        r == 4096,
{
    4096
}

/// The health address where none is configured.
pub fn default_health_listen() -> (r: String)
    ensures
        r@ == "127.0.0.1:9090"@,
{
    "127.0.0.1:9090".to_owned()
}

/// The drain timeout where none is configured, in seconds.
pub fn default_drain_timeout_secs() -> (r: u64)
    ensures
        r == 30,
{
    30
}

#[derive(Debug)]
pub struct AuthConfig {
    /// HMAC-SHA256 secret used to verify Connector JWTs
    pub jwt_secret: String,
    /// Older secrets accepted during a rolling rotation. New tokens must be
    /// signed with jwt_secret; remove old values after their tokens expire.
    pub jwt_previous_secrets: Vec<String>,
}

#[derive(Debug)]
pub struct TlsConfig {
    /// Directory containing TLS certs for public HTTPS.
    /// Files should be named: <hostname>.crt and <hostname>.key
    pub cert_dir: String,
    /// How often the certificate directory is re-read (SIGHUP reloads immediately)
    pub reload_interval_secs: u64,
    /// Automatic certificate management for explicitly listed domains
    pub acme: Option<AcmeConfig>,
}

/// The certificate reload interval where none is configured, in seconds.
pub fn default_cert_reload_interval_secs() -> (r: u64)
    ensures
        r == 30,
{
    30
}

#[derive(Debug, Clone, Copy, PartialEq, Eq, Structural)]
pub enum AcmeChallenge {
    Http01,
    /// TXT records through the providers in `[dns]`; required for wildcards
    Dns01,
}

impl Default for AcmeChallenge {
    fn default() -> (r: Self)
        ensures
            r == AcmeChallenge::Http01,
    {
        AcmeChallenge::Http01
    }
}

#[derive(Debug, Clone, Copy, PartialEq, Eq, Structural)]
pub enum AcmeCoordination {
    /// This Edge manages the certificates alone
    Alone,
    /// Edges sharing `state_dir` coordinate through Valkey leases
    Valkey,
}

impl Default for AcmeCoordination {
    fn default() -> (r: Self)
        ensures
            r == AcmeCoordination::Alone,
    {
        AcmeCoordination::Alone
    }
}

#[derive(Debug)]
pub struct AcmeConfig {
    pub enabled: bool,
    /// ACME directory; defaults to Let's Encrypt production
    pub directory_url: String,
    pub contact_email: Option<String>,
    /// Must be set to true to accept the CA's terms of service
    pub terms_of_service_agreed: bool,
    /// Domains to manage (the allowlist; nothing else is ever ordered)
    pub domains: Vec<String>,
    pub challenge: AcmeChallenge,
    /// Persistent directory for the account key and certificates (created 0700)
    pub state_dir: String,
    /// PEM root for a private or test ACME server's HTTPS endpoint
    pub ca_root_pem: Option<String>,
    /// Renew when this fraction of the certificate lifetime remains, in billionths
    pub renew_before_billionths: u64,
    pub retry_initial_secs: u64,
    pub retry_max_secs: u64,
    pub order_timeout_secs: u64,
    /// Concurrent HTTP-01 challenge responses
    pub challenge_max_concurrent: usize,
    pub coordination: AcmeCoordination,
    /// How often Edges look for certificates written by another Edge
    pub store_poll_interval_secs: u64,
    /// Maximum wait for every live Edge to confirm an HTTP-01 response
    pub challenge_distribution_timeout_secs: u64,
    /// Resolvers used to confirm DNS-01 TXT records (`ip` or `ip:port`); system resolvers if empty
    pub dns_resolvers: Vec<String>,
    pub dns_propagation_timeout_secs: u64,
    pub dns_propagation_poll_secs: u64,
    pub dns_txt_ttl: u32,
}

impl Default for AcmeConfig {
    /// The settings of an `[tls.acme]` section that says nothing; a state
    /// directory has to be configured.
    fn default() -> (r: Self)
        ensures
            !r.enabled,
            r.directory_url@ == "https://acme-v02.api.letsencrypt.org/directory"@,
            r.contact_email is None,
            !r.terms_of_service_agreed,
            r.domains@.len() == 0,
            r.challenge == AcmeChallenge::Http01,
            r.state_dir@ == Seq::<char>::empty(),
            r.ca_root_pem is None,
            r.renew_before_billionths == 333_333_333,
            r.retry_initial_secs == 60,
            r.retry_max_secs == 6 * 3600,
            r.order_timeout_secs == 300,
            r.challenge_max_concurrent == 64,
            r.coordination == AcmeCoordination::Alone,
            r.store_poll_interval_secs == 30,
            r.challenge_distribution_timeout_secs == 30,
            r.dns_resolvers@.len() == 0,
            r.dns_propagation_timeout_secs == 300,
            r.dns_propagation_poll_secs == 5,
            r.dns_txt_ttl == 60,
    {
        AcmeConfig {
            enabled: false,
            directory_url: "https://acme-v02.api.letsencrypt.org/directory".to_owned(),
            contact_email: None,
            terms_of_service_agreed: false,
            domains: Vec::new(),
            challenge: AcmeChallenge::Http01,
            state_dir: String::new(),
            ca_root_pem: None,
            renew_before_billionths: 333_333_333,
            retry_initial_secs: 60,
            retry_max_secs: 21_600,
            order_timeout_secs: 300,
            challenge_max_concurrent: 64,
            coordination: AcmeCoordination::Alone,
            store_poll_interval_secs: 30,
            challenge_distribution_timeout_secs: 30,
            dns_resolvers: Vec::new(),
            dns_propagation_timeout_secs: 300,
            dns_propagation_poll_secs: 5,
            dns_txt_ttl: 60,
        }
    }
}

#[derive(Debug)]
pub struct ValkeyConfig {
    pub url: String,
}

/// Limits and timeouts for request-level HTTP/HTTPS proxying.
#[derive(Debug, Clone, Copy, PartialEq, Eq, Structural)]
pub struct HttpConfig {
    /// Maximum active client connections shared by HTTP and HTTPS listeners.
    pub max_connections: usize,
    /// Maximum time to receive a complete HTTP/1.x request head
    pub header_read_timeout_secs: u64,
    /// Maximum request/response header size in bytes (HTTP/1 buffer and HTTP/2 header list)
    pub max_header_bytes: usize,
    /// Maximum time for a TLS handshake on the HTTPS listener
    pub tls_handshake_timeout_secs: u64,
    /// Maximum time to open a tunnel stream to the Connector
    pub backend_open_timeout_secs: u64,
    /// Maximum time to wait for the backend response head
    pub response_header_timeout_secs: u64,
    /// Maximum concurrent streams per HTTP/2 client connection
    pub h2_max_concurrent_streams: u32,
    /// Set X-Forwarded-For / X-Forwarded-Proto on forwarded requests
    pub forwarded_headers: bool,
}

impl Default for HttpConfig {
    fn default() -> (r: Self)
        ensures
            r == (HttpConfig {
                max_connections: 4096,
                header_read_timeout_secs: 30,
                max_header_bytes: 65536,
                tls_handshake_timeout_secs: 10,
                backend_open_timeout_secs: 10,
                response_header_timeout_secs: 60,
                h2_max_concurrent_streams: 256,
                forwarded_headers: true,
            }),
    {
        HttpConfig {
            max_connections: 4096,
            header_read_timeout_secs: 30,
            max_header_bytes: 65536,
            tls_handshake_timeout_secs: 10,
            backend_open_timeout_secs: 10,
            response_header_timeout_secs: 60,
            h2_max_concurrent_streams: 256,
            forwarded_headers: true,
        }
    }
}

impl HttpConfig {
    pub fn header_read_timeout(&self) -> (r: Duration)
        ensures
            r.nanos == self.header_read_timeout_secs * 1_000_000_000,
    {
        Duration::from_secs(self.header_read_timeout_secs)
    }

    pub fn tls_handshake_timeout(&self) -> (r: Duration)
        ensures
            r.nanos == self.tls_handshake_timeout_secs * 1_000_000_000,
    {
        Duration::from_secs(self.tls_handshake_timeout_secs)
    }

    pub fn backend_open_timeout(&self) -> (r: Duration)
        ensures
            r.nanos == self.backend_open_timeout_secs * 1_000_000_000,
    {
        Duration::from_secs(self.backend_open_timeout_secs)
    }

    pub fn response_header_timeout(&self) -> (r: Duration)
        ensures
            r.nanos == self.response_header_timeout_secs * 1_000_000_000,
    {
        Duration::from_secs(self.response_header_timeout_secs)
    }
}

/// The times of the mesh are the configured ones: waits in milliseconds, routes in seconds.
pub proof fn law_mesh_times_are_as_configured(
    c: MeshConfig,
    wait: Duration,
    accept: Duration,
    connect: Duration,
    ttl: Duration,
    refresh: Duration,
)
    requires
        call_ensures(MeshConfig::stream_wait, (&c,), wait),
        call_ensures(MeshConfig::accept_timeout, (&c,), accept),
        call_ensures(MeshConfig::connect_timeout, (&c,), connect),
        call_ensures(MeshConfig::route_ttl, (&c,), ttl),
        call_ensures(MeshConfig::route_refresh, (&c,), refresh),
    ensures
        wait.nanos == c.stream_wait_ms * 1_000_000,
        accept.nanos == c.accept_timeout_ms * 1_000_000,
        connect.nanos == c.connect_timeout_ms * 1_000_000,
        ttl.nanos == c.route_ttl_secs * 1_000_000_000,
        refresh.nanos == c.route_refresh_secs * 1_000_000_000,
        c.route_ttl_secs > c.route_refresh_secs ==> ttl.nanos > refresh.nanos,
{
}

/// What is not configured has limits that work: the reply of a datagram is waited for shorter
/// than a Connector drains, and plugins and DNS requests are bounded.
pub proof fn law_defaults_are_sound(
    reply: u64,
    drain: u64,
    connections: usize,
    replies: usize,
    health: String,
    reload: u64,
    ttl: u32,
    request: u64,
    memory: usize,
    fuel: u64,
    timeout: u64,
    concurrent: usize,
)
    requires
        call_ensures(default_udp_reply_timeout_secs, (), reply),
        call_ensures(default_drain_timeout_secs, (), drain),
        call_ensures(default_max_connector_connections, (), connections),
        call_ensures(default_udp_max_pending_replies, (), replies),
        call_ensures(default_health_listen, (), health),
        call_ensures(default_cert_reload_interval_secs, (), reload),
        call_ensures(default_dns_ttl, (), ttl),
        call_ensures(default_dns_request_timeout_secs, (), request),
        call_ensures(default_plugin_max_memory_bytes, (), memory),
        call_ensures(default_plugin_fuel, (), fuel),
        call_ensures(default_plugin_timeout_ms, (), timeout),
        call_ensures(default_plugin_max_concurrent, (), concurrent),
    ensures
        reply == 10 && drain == 30 && reload == 30 && request == 15,
        connections == 4096 && replies == 4096,
        health@ == "127.0.0.1:9090"@,
        ttl == 300,
        memory == 16 * 1024 * 1024 && fuel == 10_000_000 && timeout == 20 && concurrent == 64,
{
}

} // verus!
