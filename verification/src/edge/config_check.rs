//! Checking the Edge's configuration.

use vstd::prelude::*;
use vstd::string::*;
use crate::addr;
use crate::addr::{parse_ip, parse_socket, IpAddr, SocketAddr};
use crate::edge::config::{
    AcmeChallenge, AcmeConfig, AcmeCoordination, EdgeConfig, HttpConfig, MeshConfig, MeshPeerConfig,
    PortHostMapping, RoutingConfig, RoutingMode, ServerConfig, TlsConfig,
};
use crate::edge::dns::compile;
use crate::edge::dns::plan::{CompiledDns, ProviderSpec};
use crate::edge::mesh::certs;
use crate::hostname;
use crate::text;
use crate::text::{
    chars_of, contains_char, decimal_text, has_prefix, parse_unsigned, quote, same_text, trim,
    white_space,
};

verus! {

/// A resolver address: `ip` or `ip:port`, by default port 53.
pub open spec fn parsed_resolver(value: Seq<char>) -> Option<SocketAddr> {
    let v = text::trimmed(value);
    match addr::parsed_socket(v) {
        Some(a) => Some(a),
        None => match addr::parsed_ip(v) {
            Some(IpAddr::V4(ip)) => Some(SocketAddr::V4(ip, 53)),
            Some(IpAddr::V6(ip)) => Some(SocketAddr::V6(ip, 53, 0)),
            None => None,
        },
    }
}

/// What is said of a text that is no resolver address.
pub open spec fn bad_resolver(value: Seq<char>) -> Seq<char> {
    "invalid resolver address "@ + text::quoted(text::trimmed(value))
}

/// Parse `ip` or `ip:port` (default port 53).
pub fn parse_resolver_addr(value: &str) -> (r: Result<SocketAddr, String>)
    ensures
        match r {
            Ok(a) => parsed_resolver(value@) == Some(a),
            Err(e) => parsed_resolver(value@) is None && e@ == bad_resolver(value@),
        },
{
    let v: String = trim(value);
    match parse_socket(v.as_str()) {
        Some(a) => Ok(a),
        None => match parse_ip(v.as_str()) {
            Some(IpAddr::V4(ip)) => Ok(SocketAddr::V4(ip, 53)),
            Some(IpAddr::V6(ip)) => Ok(SocketAddr::V6(ip, 53, 0)),
            None => Err(
                "invalid resolver address ".to_owned().concat(quote(v.as_str()).as_str()),
            ),
        },
    }
}

/// Whether a text is an address to listen on: an address with a port, or any
/// host and a port.
pub open spec fn is_listen_addr(s: Seq<char>) -> bool {
    addr::parsed_socket(s) is Some || match s.index_of_last(':') {
        Some(i) => i > 0 && text::parsed_unsigned(s.skip(i + 1), 65535) is Some,
        None => false,
    }
}

/// What is said of a text that is no address to listen on.
pub open spec fn bad_listen_addr(field: Seq<char>, s: Seq<char>) -> Seq<char> {
    field + ": invalid listen address "@ + text::quoted(s)
}

fn last_colon(v: &Vec<char>) -> (r: Option<usize>)
    ensures
        match r {
            Some(i) => i < v.len() && v@.index_of_last(':') == Some(i as int),
            None => v@.index_of_last(':') is None,
        },
{
    let mut i: usize = v.len();
    while i > 0
        invariant
            i <= v.len(),
            forall|j: int| i <= j < v.len() ==> v@[j] != ':',
        decreases i,
    {
        if v[i - 1] == ':' {
            proof {
                v@.index_of_last_ensures(':');
                assert(v@.contains(v@[i - 1]));
            }
            return Some(i - 1);
        }
        i -= 1;
    }
    proof {
        v@.index_of_last_ensures(':');
    }
    None
}

fn check_listen_addr(s: &str) -> (r: bool)
    ensures
        r == is_listen_addr(s@),
{
    if parse_socket(s).is_some() {
        return true;
    }
    let v: Vec<char> = chars_of(s);
    match last_colon(&v) {
        None => false,
        Some(i) => {
            let port: &str = s.substring_char(i + 1, v.len());
            assert(port@ == s@.skip(i + 1));
            i > 0 && parse_unsigned(port, 65535).is_some()
        },
    }
}

/// Checks an address to listen on.
pub fn validate_listen_addr(field: &str, s: &str) -> (r: Result<(), String>)
    ensures
        match r {
            Ok(_) => is_listen_addr(s@),
            Err(e) => !is_listen_addr(s@) && e@ == bad_listen_addr(field@, s@),
        },
{
    if check_listen_addr(s) {
        return Ok(());
    }
    let mut m: String = field.to_owned();
    m.append(": invalid listen address ");
    m.append(quote(s).as_str());
    Err(m)
}

/// The first fault among the mappings from `i` on.
pub open spec fn mappings_fault(
    field: Seq<char>,
    mappings: Seq<PortHostMapping>,
    i: int,
) -> Option<Seq<char>>
    decreases mappings.len() - i,
{
    if i >= mappings.len() {
        None
    } else {
        let m = mappings[i];
        if !is_listen_addr(m.addr@) {
            Some(bad_listen_addr(field, m.addr@))
        } else if exists|j: int| 0 <= j < i && (#[trigger] mappings[j]).addr@ == m.addr@ {
            Some(field + ": duplicate listen address "@ + text::quoted(m.addr@))
        } else {
            match hostname::normalized(m.hostname@, false, false) {
                Err(e) => Some(
                    field + ": invalid hostname "@ + text::quoted(m.hostname@) + ": "@ + e,
                ),
                Ok(_) => mappings_fault(field, mappings, i + 1),
            }
        }
    }
}

/// Whether `after` are the mappings of `before` with their hostnames normalized.
pub open spec fn mappings_normalized(
    before: Seq<PortHostMapping>,
    after: Seq<PortHostMapping>,
) -> bool {
    &&& before.len() == after.len()
    &&& forall|i: int|
        0 <= i < before.len() ==> (#[trigger] after[i]).addr@ == before[i].addr@
            && hostname::normalized(before[i].hostname@, false, false) == Ok::<
            Seq<char>,
            Seq<char>,
        >(after[i].hostname@)
}

fn addr_taken(mappings: &Vec<PortHostMapping>, count: usize, s: &str) -> (r: bool)
    requires
        count <= mappings.len(),
    ensures
        r == exists|j: int| 0 <= j < count && (#[trigger] mappings@[j]).addr@ == s@,
{
    let mut i: usize = 0;
    while i < count
        invariant
            i <= count <= mappings.len(),
            forall|j: int| 0 <= j < i ==> (#[trigger] mappings@[j]).addr@ != s@,
        decreases count - i,
    {
        if same_text(mappings[i].addr.as_str(), s) {
            return true;
        }
        i += 1;
    }
    false
}

/// Checks the listeners and normalizes their hostnames.
pub fn validate_port_mappings(field: &str, mappings: &Vec<PortHostMapping>) -> (r: Result<
    Vec<PortHostMapping>,
    String,
>)
    ensures
        match r {
            Ok(v) => mappings_fault(field@, mappings@, 0) is None && mappings_normalized(
                mappings@,
                v@,
            ),
            Err(e) => mappings_fault(field@, mappings@, 0) == Some(e@),
        },
{
    let mut done: Vec<PortHostMapping> = Vec::new();
    let mut i: usize = 0;
    while i < mappings.len()
        invariant
            i <= mappings.len(),
            done.len() == i,
            mappings_fault(field@, mappings@, 0) == mappings_fault(field@, mappings@, i as int),
            forall|j: int|
                0 <= j < i ==> (#[trigger] done@[j]).addr@ == mappings@[j].addr@
                    && hostname::normalized(mappings@[j].hostname@, false, false) == Ok::<
                    Seq<char>,
                    Seq<char>,
                >(done@[j].hostname@),
        decreases mappings.len() - i,
    {
        let m: &PortHostMapping = &mappings[i];
        match validate_listen_addr(field, m.addr.as_str()) {
            Ok(_) => {},
            Err(e) => {
                return Err(e);
            },
        }
        if addr_taken(mappings, i, m.addr.as_str()) {
            let mut t: String = field.to_owned();
            t.append(": duplicate listen address ");
            t.append(quote(m.addr.as_str()).as_str());
            return Err(t);
        }
        match hostname::normalize_hostname(m.hostname.as_str()) {
            Ok(name) => {
                done.push(PortHostMapping { addr: m.addr.clone(), hostname: name });
            },
            Err(e) => {
                let mut t: String = field.to_owned();
                t.append(": invalid hostname ");
                t.append(quote(m.hostname.as_str()).as_str());
                t.append(": ");
                t.append(e.text.as_str());
                return Err(t);
            },
        }
        i += 1;
    }
    Ok(done)
}

/// What is said of a setting that must not be 0.
pub open spec fn must_be_positive(section: Seq<char>, field: Seq<char>) -> Seq<char> {
    section + field + " must be greater than 0"@
}

fn check_positive(section: &str, field: &str, value: u64) -> (r: Result<(), String>)
    ensures
        match r {
            Ok(_) => value != 0,
            Err(e) => value == 0 && e@ == must_be_positive(section@, field@),
        },
{
    if value == 0 {
        let mut m: String = section.to_owned();
        m.append(field);
        m.append(" must be greater than 0");
        return Err(m);
    }
    Ok(())
}

/// What is wrong with the HTTP section, if anything.
pub open spec fn http_fault(c: HttpConfig) -> Option<Seq<char>> {
    if c.max_connections == 0 {
        Some("http.max_connections must be greater than 0"@)
    } else if !(8192 <= c.max_header_bytes <= 1048576) {
        Some("http.max_header_bytes must be between 8192 and 1048576"@)
    } else if c.header_read_timeout_secs == 0 {
        Some(must_be_positive("http."@, "header_read_timeout_secs"@))
    } else if c.tls_handshake_timeout_secs == 0 {
        Some(must_be_positive("http."@, "tls_handshake_timeout_secs"@))
    } else if c.backend_open_timeout_secs == 0 {
        Some(must_be_positive("http."@, "backend_open_timeout_secs"@))
    } else if c.response_header_timeout_secs == 0 {
        Some(must_be_positive("http."@, "response_header_timeout_secs"@))
    } else if c.h2_max_concurrent_streams == 0 {
        Some("http.h2_max_concurrent_streams must be greater than 0"@)
    } else {
        None
    }
}

/// Whether a result says what `fault` says.
pub open spec fn is_verdict(r: Result<(), String>, fault: Option<Seq<char>>) -> bool {
    match r {
        Ok(_) => fault is None,
        Err(e) => fault == Some(e@),
    }
}

impl HttpConfig {
    pub fn validate(&self) -> (r: Result<(), String>)
        ensures
            is_verdict(r, http_fault(*self)),
    {
        if self.max_connections == 0 {
            return Err("http.max_connections must be greater than 0".to_owned());
        }
        if !(8192 <= self.max_header_bytes && self.max_header_bytes <= 1048576) {
            return Err("http.max_header_bytes must be between 8192 and 1048576".to_owned());
        }
        if let Err(e) = check_positive(
            "http.",
            "header_read_timeout_secs",
            self.header_read_timeout_secs,
        ) {
            return Err(e);
        }
        if let Err(e) = check_positive(
            "http.",
            "tls_handshake_timeout_secs",
            self.tls_handshake_timeout_secs,
        ) {
            return Err(e);
        }
        if let Err(e) = check_positive(
            "http.",
            "backend_open_timeout_secs",
            self.backend_open_timeout_secs,
        ) {
            return Err(e);
        }
        if let Err(e) = check_positive(
            "http.",
            "response_header_timeout_secs",
            self.response_header_timeout_secs,
        ) {
            return Err(e);
        }
        if self.h2_max_concurrent_streams == 0 {
            return Err("http.h2_max_concurrent_streams must be greater than 0".to_owned());
        }
        Ok(())
    }
}

/// Whether some text of a list is `s`.
pub fn lists(list: &Vec<String>, s: &str) -> (r: bool)
    ensures
        r == text::views(list@).contains(s@),
{
    let ghost all = text::views(list@);
    let mut i: usize = 0;
    while i < list.len()
        invariant
            i <= list.len(),
            all == text::views(list@),
            forall|j: int| 0 <= j < i ==> (#[trigger] all[j]) != s@,
        decreases list.len() - i,
    {
        if same_text(list[i].as_str(), s) {
            assert(all[i as int] == s@);
            return true;
        }
        i += 1;
    }
    false
}

/// What is wrong with the path of a mesh file. `existing` are the configured
/// files that are there.
pub open spec fn mesh_file_fault(
    field: Seq<char>,
    path: Seq<char>,
    existing: Seq<Seq<char>>,
) -> Option<Seq<char>> {
    if text::trimmed(path).len() == 0 {
        Some("mesh."@ + field + " must be set"@)
    } else if !existing.contains(path) {
        Some("mesh."@ + field + ": "@ + path + " does not exist"@)
    } else {
        None
    }
}

fn check_mesh_file(field: &str, path: &str, existing: &Vec<String>) -> (r: Result<(), String>)
    ensures
        is_verdict(r, mesh_file_fault(field@, path@, text::views(existing@))),
{
    if trim(path).as_str().is_empty() {
        let mut m: String = "mesh.".to_owned();
        m.append(field);
        m.append(" must be set");
        return Err(m);
    }
    if !lists(existing, path) {
        let mut m: String = "mesh.".to_owned();
        m.append(field);
        m.append(": ");
        m.append(path);
        m.append(" does not exist");
        return Err(m);
    }
    Ok(())
}

/// The first fault among the peers from `i` on.
pub open spec fn peers_fault(own: Seq<char>, peers: Seq<MeshPeerConfig>, i: int) -> Option<
    Seq<char>,
>
    decreases peers.len() - i,
{
    if i >= peers.len() {
        None
    } else {
        let p = peers[i];
        let id = p.edge_id@;
        if !certs::is_edge_id(id) {
            Some("mesh.peers: "@ + certs::bad_edge_id(id))
        } else if id == own {
            Some("mesh.peers must not contain this edge's own id "@ + own)
        } else if exists|j: int| 0 <= j < i && (#[trigger] peers[j]).edge_id@ == id {
            Some("mesh.peers: duplicate peer "@ + id)
        } else if p.addr is Some && addr::parsed_socket(p.addr->0@) is None {
            Some("mesh.peers["@ + id + "]: invalid addr "@ + text::quoted(p.addr->0@))
        } else {
            peers_fault(own, peers, i + 1)
        }
    }
}

fn peer_taken(peers: &Vec<MeshPeerConfig>, count: usize, id: &str) -> (r: bool)
    requires
        count <= peers.len(),
    ensures
        r == exists|j: int| 0 <= j < count && (#[trigger] peers@[j]).edge_id@ == id@,
{
    let mut i: usize = 0;
    while i < count
        invariant
            i <= count <= peers.len(),
            forall|j: int| 0 <= j < i ==> (#[trigger] peers@[j]).edge_id@ != id@,
        decreases count - i,
    {
        if same_text(peers[i].edge_id.as_str(), id) {
            return true;
        }
        i += 1;
    }
    false
}

fn check_peers(own: &str, peers: &Vec<MeshPeerConfig>) -> (r: Result<(), String>)
    ensures
        is_verdict(r, peers_fault(own@, peers@, 0)),
{
    let mut i: usize = 0;
    while i < peers.len()
        invariant
            i <= peers.len(),
            peers_fault(own@, peers@, 0) == peers_fault(own@, peers@, i as int),
        decreases peers.len() - i,
    {
        let p: &MeshPeerConfig = &peers[i];
        let id: &str = p.edge_id.as_str();
        if let Err(e) = certs::validate_edge_id(id) {
            return Err("mesh.peers: ".to_owned().concat(e.as_str()));
        }
        if same_text(id, own) {
            return Err(
                "mesh.peers must not contain this edge's own id ".to_owned().concat(own),
            );
        }
        if peer_taken(peers, i, id) {
            return Err("mesh.peers: duplicate peer ".to_owned().concat(id));
        }
        if let Some(a) = &p.addr {
            if parse_socket(a.as_str()).is_none() {
                let mut m: String = "mesh.peers[".to_owned();
                m.append(id);
                m.append("]: invalid addr ");
                m.append(quote(a.as_str()).as_str());
                return Err(m);
            }
        }
        i += 1;
    }
    Ok(())
}

/// Whether peers can reach an address: it is neither unspecified nor without port.
pub open spec fn is_reachable(a: SocketAddr) -> bool {
    match a {
        SocketAddr::V4(ip, port) => ip != 0 && port != 0,
        SocketAddr::V6(ip, port, _) => ip != 0 && port != 0,
    }
}

/// What is wrong with the mesh section, if anything.
pub open spec fn mesh_fault(
    c: MeshConfig,
    has_valkey: bool,
    existing: Seq<Seq<char>>,
) -> Option<Seq<char>> {
    if !certs::is_edge_id(c.edge_id@) {
        Some("mesh.edge_id: "@ + certs::bad_edge_id(c.edge_id@))
    } else if addr::parsed_socket(c.listen@) is None {
        Some("mesh.listen: invalid socket address "@ + text::quoted(c.listen@))
    } else if addr::parsed_socket(c.advertise@) is None {
        Some("mesh.advertise: invalid socket address "@ + text::quoted(c.advertise@))
    } else if !is_reachable(addr::parsed_socket(c.advertise@)->0) {
        Some(
            "mesh.advertise must be an address peers can reach, not "@ + addr::socket_text(
                addr::parsed_socket(c.advertise@)->0,
            ),
        )
    } else if mesh_file_fault("ca_cert"@, c.ca_cert@, existing) is Some {
        mesh_file_fault("ca_cert"@, c.ca_cert@, existing)
    } else if mesh_file_fault("cert"@, c.cert@, existing) is Some {
        mesh_file_fault("cert"@, c.cert@, existing)
    } else if mesh_file_fault("key"@, c.key@, existing) is Some {
        mesh_file_fault("key"@, c.key@, existing)
    } else if peers_fault(c.edge_id@, c.peers@, 0) is Some {
        peers_fault(c.edge_id@, c.peers@, 0)
    } else if c.peers@.len() > 0 && !has_valkey {
        Some("a mesh with peers requires a [valkey] section for route advertisement and leases"@)
    } else if c.route_refresh_secs == 0 || c.route_ttl_secs <= c.route_refresh_secs {
        Some("mesh.route_ttl_secs must be greater than mesh.route_refresh_secs"@)
    } else if c.max_streams_per_peer == 0 {
        Some(must_be_positive("mesh."@, "max_streams_per_peer"@))
    } else if c.max_streams_per_tenant == 0 {
        Some(must_be_positive("mesh."@, "max_streams_per_tenant"@))
    } else if c.max_pending_udp_replies == 0 {
        Some(must_be_positive("mesh."@, "max_pending_udp_replies"@))
    } else if c.stream_wait_ms == 0 {
        Some(must_be_positive("mesh."@, "stream_wait_ms"@))
    } else if c.accept_timeout_ms == 0 {
        Some(must_be_positive("mesh."@, "accept_timeout_ms"@))
    } else if c.connect_timeout_ms == 0 {
        Some(must_be_positive("mesh."@, "connect_timeout_ms"@))
    } else if c.peer_failure_cooldown_secs == 0 {
        Some(must_be_positive("mesh."@, "peer_failure_cooldown_secs"@))
    } else {
        None
    }
}

impl MeshConfig {
    fn check_addresses(&self) -> (r: Result<(), String>)
        ensures
            match r {
                Ok(_) => certs::is_edge_id(self.edge_id@) && addr::parsed_socket(self.listen@)
                    is Some && addr::parsed_socket(self.advertise@) is Some && is_reachable(
                    addr::parsed_socket(self.advertise@)->0,
                ),
                Err(e) => forall|v: bool, x: Seq<Seq<char>>| #[trigger]
                    mesh_fault(*self, v, x) == Some(e@),
            },
    {
        if let Err(e) = certs::validate_edge_id(self.edge_id.as_str()) {
            return Err("mesh.edge_id: ".to_owned().concat(e.as_str()));
        }
        if parse_socket(self.listen.as_str()).is_none() {
            return Err(
                "mesh.listen: invalid socket address ".to_owned().concat(
                    quote(self.listen.as_str()).as_str(),
                ),
            );
        }
        let advertise: SocketAddr = match parse_socket(self.advertise.as_str()) {
            Some(a) => a,
            None => {
                return Err(
                    "mesh.advertise: invalid socket address ".to_owned().concat(
                        quote(self.advertise.as_str()).as_str(),
                    ),
                );
            },
        };
        let reachable: bool = match advertise {
            SocketAddr::V4(ip, port) => ip != 0 && port != 0,
            SocketAddr::V6(ip, port, _) => ip != 0 && port != 0,
        };
        if !reachable {
            return Err(
                "mesh.advertise must be an address peers can reach, not ".to_owned().concat(
                    addr::format_socket(advertise).as_str(),
                ),
            );
        }
        Ok(())
    }

    /// Checks the mesh section. `existing` are the configured files that are there.
    pub fn validate(&self, has_valkey: bool, existing: &Vec<String>) -> (r: Result<(), String>)
        ensures
            is_verdict(r, mesh_fault(*self, has_valkey, text::views(existing@))),
    {
        let ghost fault = mesh_fault(*self, has_valkey, text::views(existing@));
        if let Err(e) = self.check_addresses() {
            return Err(e);
        }
        if let Err(e) = check_mesh_file("ca_cert", self.ca_cert.as_str(), existing) {
            return Err(e);
        }
        if let Err(e) = check_mesh_file("cert", self.cert.as_str(), existing) {
            return Err(e);
        }
        if let Err(e) = check_mesh_file("key", self.key.as_str(), existing) {
            return Err(e);
        }
        if let Err(e) = check_peers(self.edge_id.as_str(), &self.peers) {
            return Err(e);
        }
        // Several Edges need the control plane for routes, leases and presence.
        if self.peers.len() > 0 && !has_valkey {
            return Err(
                "a mesh with peers requires a [valkey] section for route advertisement and leases".to_owned(),
            );
        }
        if self.route_refresh_secs == 0 || self.route_ttl_secs <= self.route_refresh_secs {
            return Err(
                "mesh.route_ttl_secs must be greater than mesh.route_refresh_secs".to_owned(),
            );
        }
        if let Err(e) = check_positive(
            "mesh.",
            "max_streams_per_peer",
            self.max_streams_per_peer as u64,
        ) {
            return Err(e);
        }
        if let Err(e) = check_positive(
            "mesh.",
            "max_streams_per_tenant",
            self.max_streams_per_tenant as u64,
        ) {
            return Err(e);
        }
        if let Err(e) = check_positive(
            "mesh.",
            "max_pending_udp_replies",
            self.max_pending_udp_replies as u64,
        ) {
            return Err(e);
        }
        if let Err(e) = check_positive("mesh.", "stream_wait_ms", self.stream_wait_ms) {
            return Err(e);
        }
        if let Err(e) = check_positive("mesh.", "accept_timeout_ms", self.accept_timeout_ms) {
            return Err(e);
        }
        if let Err(e) = check_positive("mesh.", "connect_timeout_ms", self.connect_timeout_ms) {
            return Err(e);
        }
        check_positive(
            "mesh.",
            "peer_failure_cooldown_secs",
            self.peer_failure_cooldown_secs,
        )
    }
}

/// The normal forms of the domains from `i` on after those that are done.
pub open spec fn normal_domains(
    domains: Seq<Seq<char>>,
    challenge: AcmeChallenge,
    i: int,
    done: Seq<Seq<char>>,
) -> Result<Seq<Seq<char>>, Seq<char>>
    decreases domains.len() - i,
{
    if i >= domains.len() {
        Ok(done)
    } else {
        match hostname::normalized(domains[i], true, false) {
            Err(e) => Err(
                "tls.acme.domains: invalid domain "@ + text::quoted(domains[i]) + ": "@ + e,
            ),
            Ok(name) => if text::starts_with(name, "*."@) && challenge == AcmeChallenge::Http01 {
                Err("tls.acme.domains: wildcard "@ + name + " requires the dns-01 challenge"@)
            } else if done.contains(name) {
                Err("tls.acme.domains: duplicate domain "@ + name)
            } else {
                normal_domains(domains, challenge, i + 1, done.push(name))
            },
        }
    }
}

/// Whether a text may be a mail address: it has an `@`, and neither white space
/// nor a comma.
pub open spec fn is_email(s: Seq<char>) -> bool {
    s.contains('@') && forall|i: int|
        0 <= i < s.len() ==> !text::is_white_space(#[trigger] s[i]) && s[i] != ','
}

fn check_email(s: &str) -> (r: bool)
    ensures
        r == is_email(s@),
{
    if !contains_char(s, '@') {
        return false;
    }
    let v: Vec<char> = chars_of(s);
    let mut i: usize = 0;
    while i < v.len()
        invariant
            i <= v.len(),
            v@ == s@,
            forall|j: int| 0 <= j < i ==> !text::is_white_space(#[trigger] s@[j]) && s@[j] != ',',
        decreases v.len() - i,
    {
        if white_space(v[i]) || v[i] == ',' {
            assert(text::is_white_space(s@[i as int]) || s@[i as int] == ',');
            return false;
        }
        i += 1;
    }
    true
}

/// The first resolver at or after `i` that is none.
pub open spec fn resolvers_fault(resolvers: Seq<Seq<char>>, i: int) -> Option<Seq<char>>
    decreases resolvers.len() - i,
{
    if i >= resolvers.len() {
        None
    } else if parsed_resolver(resolvers[i]) is None {
        Some("tls.acme.dns_resolvers: "@ + bad_resolver(resolvers[i]))
    } else {
        resolvers_fault(resolvers, i + 1)
    }
}

/// What is wrong with the ACME section after its domains, if anything.
pub open spec fn acme_rest_fault(c: AcmeConfig) -> Option<Seq<char>> {
    if text::trimmed(c.state_dir@).len() == 0 {
        Some("tls.acme.state_dir must not be empty"@)
    } else if c.contact_email is Some && !is_email(c.contact_email->0@) {
        Some("tls.acme.contact_email is not a valid address"@)
    } else if !(0 < c.renew_before_billionths < 1_000_000_000) {
        Some("tls.acme.renew_before_fraction must be between 0 and 1"@)
    } else if c.retry_initial_secs == 0 || c.retry_max_secs < c.retry_initial_secs {
        Some("tls.acme.retry_initial_secs must be > 0 and <= retry_max_secs"@)
    } else if c.order_timeout_secs == 0 || c.challenge_max_concurrent == 0 {
        Some(
            "tls.acme.order_timeout_secs and challenge_max_concurrent must be greater than 0"@,
        )
    } else if c.store_poll_interval_secs == 0 || c.challenge_distribution_timeout_secs == 0
        || c.dns_propagation_timeout_secs == 0 || c.dns_propagation_poll_secs == 0 {
        Some("tls.acme intervals and timeouts must be greater than 0"@)
    } else if !(60 <= c.dns_txt_ttl <= 3600) {
        Some("tls.acme.dns_txt_ttl must be between 60 and 3600"@)
    } else {
        resolvers_fault(text::views(c.dns_resolvers@), 0)
    }
}

/// The normal forms of the domains of an ACME section, or what is wrong with the
/// section. One that is not enabled is not looked at.
pub open spec fn acme_outcome(c: AcmeConfig) -> Result<Seq<Seq<char>>, Seq<char>> {
    let domains = normal_domains(text::views(c.domains@), c.challenge, 0, Seq::empty());
    if !c.enabled {
        Ok(text::views(c.domains@))
    } else if !c.terms_of_service_agreed {
        Err("tls.acme.terms_of_service_agreed must be true to use ACME"@)
    } else if !text::starts_with(c.directory_url@, "https://"@) {
        Err("tls.acme.directory_url must be an https:// URL"@)
    } else if c.domains@.len() == 0 {
        Err("tls.acme.domains must list at least one domain"@)
    } else if domains is Err {
        domains
    } else {
        match acme_rest_fault(c) {
            Some(e) => Err(e),
            None => domains,
        }
    }
}

fn check_resolvers(resolvers: &Vec<String>) -> (r: Result<(), String>)
    ensures
        is_verdict(r, resolvers_fault(text::views(resolvers@), 0)),
{
    let ghost all = text::views(resolvers@);
    let mut i: usize = 0;
    while i < resolvers.len()
        invariant
            i <= resolvers.len(),
            all == text::views(resolvers@),
            resolvers_fault(all, 0) == resolvers_fault(all, i as int),
        decreases resolvers.len() - i,
    {
        if let Err(e) = parse_resolver_addr(resolvers[i].as_str()) {
            return Err("tls.acme.dns_resolvers: ".to_owned().concat(e.as_str()));
        }
        i += 1;
    }
    Ok(())
}

fn normalize_domains(domains: &Vec<String>, challenge: AcmeChallenge) -> (r: Result<
    Vec<String>,
    String,
>)
    ensures
        match r {
            Ok(v) => normal_domains(text::views(domains@), challenge, 0, Seq::empty()) == Ok::<
                Seq<Seq<char>>,
                Seq<char>,
            >(text::views(v@)),
            Err(e) => normal_domains(text::views(domains@), challenge, 0, Seq::empty()) == Err::<
                Seq<Seq<char>>,
                Seq<char>,
            >(e@),
        },
{
    let ghost all = text::views(domains@);
    let mut done: Vec<String> = Vec::new();
    let mut i: usize = 0;
    assert(text::views(done@) =~= Seq::<Seq<char>>::empty());
    while i < domains.len()
        invariant
            i <= domains.len(),
            all == text::views(domains@),
            normal_domains(all, challenge, 0, Seq::empty()) == normal_domains(
                all,
                challenge,
                i as int,
                text::views(done@),
            ),
        decreases domains.len() - i,
    {
        let ghost before = text::views(done@);
        match hostname::normalize_hostname_pattern(domains[i].as_str()) {
            Err(e) => {
                let mut m: String = "tls.acme.domains: invalid domain ".to_owned();
                m.append(quote(domains[i].as_str()).as_str());
                m.append(": ");
                m.append(e.text.as_str());
                return Err(m);
            },
            Ok(name) => {
                if has_prefix(name.as_str(), "*.") && challenge == AcmeChallenge::Http01 {
                    let mut m: String = "tls.acme.domains: wildcard ".to_owned();
                    m.append(name.as_str());
                    m.append(" requires the dns-01 challenge");
                    return Err(m);
                }
                if lists(&done, name.as_str()) {
                    return Err(
                        "tls.acme.domains: duplicate domain ".to_owned().concat(name.as_str()),
                    );
                }
                let ghost n = name@;
                done.push(name);
                assert(text::views(done@) =~= before.push(n));
            },
        }
        i += 1;
    }
    Ok(done)
}

impl AcmeConfig {
    fn check_rest(&self) -> (r: Result<(), String>)
        ensures
            is_verdict(r, acme_rest_fault(*self)),
    {
        if trim(self.state_dir.as_str()).as_str().is_empty() {
            return Err("tls.acme.state_dir must not be empty".to_owned());
        }
        if let Some(email) = &self.contact_email {
            if !check_email(email.as_str()) {
                return Err("tls.acme.contact_email is not a valid address".to_owned());
            }
        }
        if !(0 < self.renew_before_billionths && self.renew_before_billionths < 1_000_000_000) {
            return Err("tls.acme.renew_before_fraction must be between 0 and 1".to_owned());
        }
        if self.retry_initial_secs == 0 || self.retry_max_secs < self.retry_initial_secs {
            return Err("tls.acme.retry_initial_secs must be > 0 and <= retry_max_secs".to_owned());
        }
        if self.order_timeout_secs == 0 || self.challenge_max_concurrent == 0 {
            return Err(
                "tls.acme.order_timeout_secs and challenge_max_concurrent must be greater than 0".to_owned(),
            );
        }
        if self.store_poll_interval_secs == 0 || self.challenge_distribution_timeout_secs == 0
            || self.dns_propagation_timeout_secs == 0 || self.dns_propagation_poll_secs == 0 {
            return Err("tls.acme intervals and timeouts must be greater than 0".to_owned());
        }
        if !(60 <= self.dns_txt_ttl && self.dns_txt_ttl <= 3600) {
            return Err("tls.acme.dns_txt_ttl must be between 60 and 3600".to_owned());
        }
        check_resolvers(&self.dns_resolvers)
    }

    /// Checks the section and normalizes its domains.
    pub fn validate(self) -> (r: Result<AcmeConfig, String>)
        ensures
            match r {
                Ok(c) => acme_outcome(self) == Ok::<Seq<Seq<char>>, Seq<char>>(
                    text::views(c.domains@),
                ) && c == (AcmeConfig { domains: c.domains, ..self }),
                Err(e) => acme_outcome(self) == Err::<Seq<Seq<char>>, Seq<char>>(e@),
            },
    {
        if !self.enabled {
            return Ok(self);
        }
        if !self.terms_of_service_agreed {
            return Err("tls.acme.terms_of_service_agreed must be true to use ACME".to_owned());
        }
        if !has_prefix(self.directory_url.as_str(), "https://") {
            return Err("tls.acme.directory_url must be an https:// URL".to_owned());
        }
        if self.domains.len() == 0 {
            return Err("tls.acme.domains must list at least one domain".to_owned());
        }
        let domains: Vec<String> = match normalize_domains(&self.domains, self.challenge) {
            Ok(domains) => domains,
            Err(e) => {
                return Err(e);
            },
        };
        if let Err(e) = self.check_rest() {
            return Err(e);
        }
        Ok(AcmeConfig { domains, ..self })
    }
}

/// The name of the DNS-01 challenge record of a domain.
pub open spec fn challenge_record(domain: Seq<char>) -> Seq<char> {
    "_acme-challenge."@ + hostname::without_wildcard(domain)
}

/// Whether the zone of some provider holds `name`.
pub open spec fn zone_covers(providers: Seq<compile::ProviderView>, name: Seq<char>) -> bool {
    exists|k: int|
        0 <= k < providers.len() && hostname::within_zone(name, (#[trigger] providers[k]).zone)
}

/// The first domain at or after `i` whose challenge record no provider holds.
pub open spec fn coverage_fault(
    domains: Seq<Seq<char>>,
    providers: Seq<compile::ProviderView>,
    i: int,
) -> Option<Seq<char>>
    decreases domains.len() - i,
{
    if i >= domains.len() {
        None
    } else if !zone_covers(providers, challenge_record(domains[i])) {
        Some("tls.acme: no [[dns.providers]] zone covers "@ + challenge_record(domains[i]))
    } else {
        coverage_fault(domains, providers, i + 1)
    }
}

/// The DNS-01 challenge record of a domain.
pub fn challenge_record_name(domain: &str) -> (r: String)
    ensures
        r@ == challenge_record(domain@),
{
    proof {
        reveal_strlit("*.");
    }
    if has_prefix(domain, "*.") {
        let n: usize = domain.unicode_len();
        assert(domain@.subrange(2, n as int) == domain@.skip(2));
        "_acme-challenge.".to_owned().concat(domain.substring_char(2, n))
    } else {
        "_acme-challenge.".to_owned().concat(domain)
    }
}

fn covered(providers: &Vec<ProviderSpec>, name: &str) -> (r: bool)
    ensures
        r == zone_covers(compile::provider_views(providers@), name@),
{
    let ghost all = compile::provider_views(providers@);
    let mut k: usize = 0;
    while k < providers.len()
        invariant
            k <= providers.len(),
            all == compile::provider_views(providers@),
            forall|j: int| 0 <= j < k ==> !hostname::within_zone(name@, (#[trigger] all[j]).zone),
        decreases providers.len() - k,
    {
        if hostname::is_within_zone(name, providers[k].zone.as_str()) {
            assert(hostname::within_zone(name@, all[k as int].zone));
            return true;
        }
        k += 1;
    }
    false
}

fn check_coverage(domains: &Vec<String>, providers: &Vec<ProviderSpec>) -> (r: Result<(), String>)
    ensures
        is_verdict(
            r,
            coverage_fault(text::views(domains@), compile::provider_views(providers@), 0),
        ),
{
    let ghost all = text::views(domains@);
    let ghost zones = compile::provider_views(providers@);
    let mut i: usize = 0;
    while i < domains.len()
        invariant
            i <= domains.len(),
            all == text::views(domains@),
            zones == compile::provider_views(providers@),
            coverage_fault(all, zones, 0) == coverage_fault(all, zones, i as int),
        decreases domains.len() - i,
    {
        let name: String = challenge_record_name(domains[i].as_str());
        if !covered(providers, name.as_str()) {
            return Err(
                "tls.acme: no [[dns.providers]] zone covers ".to_owned().concat(name.as_str()),
            );
        }
        i += 1;
    }
    Ok(())
}

/// What is wrong with how ACME and the rest of the configuration go together.
pub open spec fn acme_context_fault(c: EdgeConfig, domains: Seq<Seq<char>>) -> Option<Seq<char>> {
    match c.tls.acme {
        None => None,
        Some(acme) => if !acme.enabled {
            None
        } else if acme.coordination == AcmeCoordination::Valkey && c.valkey is None {
            Some("tls.acme.coordination = \"valkey\" requires a [valkey] section"@)
        } else if acme.challenge == AcmeChallenge::Dns01 {
            match compile::compiled(c.dns) {
                Err(e) => Some("tls.acme dns-01 needs valid [dns] providers: "@ + e),
                Ok(dns) => coverage_fault(domains, dns.providers, 0),
            }
        } else {
            None
        },
    }
}

/// What is wrong with the certificate for Connectors, if anything.
pub open spec fn quic_cert_fault(c: ServerConfig, existing: Seq<Seq<char>>) -> Option<Seq<char>> {
    match (c.quic_cert, c.quic_key) {
        (Some(cert), Some(key)) => if !existing.contains(cert@) {
            Some("server."@ + "quic_cert"@ + ": "@ + cert@ + " does not exist"@)
        } else if !existing.contains(key@) {
            Some("server."@ + "quic_key"@ + ": "@ + key@ + " does not exist"@)
        } else {
            None
        },
        (None, None) => None,
        _ => Some("server.quic_cert and server.quic_key must be set together"@),
    }
}

/// Whether no secret occurs twice.
pub open spec fn secrets_distinct(active: Seq<char>, previous: Seq<Seq<char>>) -> bool {
    &&& !previous.contains(active)
    &&& forall|i: int, j: int|
        0 <= i < j < previous.len() ==> (#[trigger] previous[i]) != (#[trigger] previous[j])
}

/// What is wrong with the server and authentication sections.
pub open spec fn server_fault(c: EdgeConfig, existing: Seq<Seq<char>>) -> Option<Seq<char>> {
    let s = c.server;
    let previous = text::views(c.auth.jwt_previous_secrets@);
    if addr::parsed_socket(s.quic_listen@) is None {
        Some("server.quic_listen: invalid socket address "@ + text::quoted(s.quic_listen@))
    } else if !is_listen_addr(s.http_listen@) {
        Some(bad_listen_addr("server.http_listen"@, s.http_listen@))
    } else if !is_listen_addr(s.https_listen@) {
        Some(bad_listen_addr("server.https_listen"@, s.https_listen@))
    } else if !is_listen_addr(s.health_listen@) {
        Some(bad_listen_addr("server.health_listen"@, s.health_listen@))
    } else if mappings_fault("server.tcp_listen"@, s.tcp_listen@, 0) is Some {
        mappings_fault("server.tcp_listen"@, s.tcp_listen@, 0)
    } else if mappings_fault("server.udp_listen"@, s.udp_listen@, 0) is Some {
        mappings_fault("server.udp_listen"@, s.udp_listen@, 0)
    } else if quic_cert_fault(s, existing) is Some {
        quic_cert_fault(s, existing)
    } else if s.udp_reply_timeout_secs == 0 || s.udp_max_pending_replies == 0
        || s.max_connector_connections == 0 {
        Some("server UDP limits and max_connector_connections must be greater than 0"@)
    } else if c.auth.jwt_secret@.len() == 0 {
        Some("auth.jwt_secret must not be empty"@)
    } else if exists|i: int| 0 <= i < previous.len() && (#[trigger] previous[i]).len() == 0 {
        Some("auth.jwt_previous_secrets must not contain an empty secret"@)
    } else if !secrets_distinct(c.auth.jwt_secret@, previous) {
        Some("auth JWT secrets must not contain duplicates"@)
    } else {
        None
    }
}

/// The routing mode: the configured one; without one, mesh from version 2 on.
pub open spec fn routing_mode(c: EdgeConfig) -> RoutingMode {
    match c.routing.mode {
        Some(mode) => mode,
        None => if c.config_version == Some(2u32) {
            RoutingMode::Mesh
        } else {
            RoutingMode::Direct
        },
    }
}

/// What is wrong with routing and mesh.
pub open spec fn routing_fault(c: EdgeConfig, existing: Seq<Seq<char>>) -> Option<Seq<char>> {
    let version = match c.config_version {
        Some(v) => v,
        None => 1u32,
    };
    if version == 0 || version > 2 {
        Some(
            "config_version "@ + text::decimal(version as nat)
                + " is not supported by this build"@,
        )
    } else {
        match c.mesh {
            None => if routing_mode(c) == RoutingMode::Mesh {
                Some("routing.mode = \"mesh\" requires a [mesh] section"@)
            } else {
                None
            },
            Some(mesh) => mesh_fault(mesh, c.valkey is Some, existing),
        }
    }
}

/// What is wrong with the DNS section.
pub open spec fn dns_fault(c: EdgeConfig) -> Option<Seq<char>> {
    if !c.dns.enabled {
        None
    } else if text::trimmed(c.dns.state_dir@).len() == 0 {
        Some("dns.state_dir must be set when dns.enabled = true"@)
    } else if c.dns.reconcile_interval_secs == 0 || c.dns.lease_ttl_secs < 5 {
        Some("dns.reconcile_interval_secs must be > 0 and dns.lease_ttl_secs >= 5"@)
    } else if c.valkey is None && !c.dns.single_writer {
        Some(
            "dns requires [valkey] for zone leases, or dns.single_writer = true for a single writing Edge"@,
        )
    } else {
        match compile::compiled(c.dns) {
            Err(e) => Some(e),
            Ok(_) => None,
        }
    }
}

/// What the ACME section of a configuration makes of its domains.
pub open spec fn acme_domains(c: EdgeConfig) -> Result<Seq<Seq<char>>, Seq<char>> {
    match c.tls.acme {
        Some(acme) => acme_outcome(acme),
        None => Ok(Seq::empty()),
    }
}

/// What is wrong with a configuration, if anything. `existing` are the
/// configured files that are there; `policy` is what is wrong with the traffic policy.
pub open spec fn config_fault(
    c: EdgeConfig,
    existing: Seq<Seq<char>>,
    policy: Option<Seq<char>>,
) -> Option<Seq<char>> {
    if server_fault(c, existing) is Some {
        server_fault(c, existing)
    } else if policy is Some {
        policy
    } else if c.tls.reload_interval_secs == 0 {
        Some("tls.reload_interval_secs must be greater than 0"@)
    } else if acme_domains(c) is Err {
        Some(acme_domains(c)->Err_0)
    } else if acme_context_fault(c, acme_domains(c)->Ok_0) is Some {
        acme_context_fault(c, acme_domains(c)->Ok_0)
    } else if c.valkey is Some && text::trimmed(c.valkey->0.url@).len() == 0 {
        Some("valkey.url must not be empty"@)
    } else if http_fault(c.http) is Some {
        http_fault(c.http)
    } else if routing_fault(c, existing) is Some {
        routing_fault(c, existing)
    } else {
        dns_fault(c)
    }
}

/// Whether `after` is the configuration `before` with its names normalized and
/// its routing mode settled.
pub open spec fn is_normalized(before: EdgeConfig, after: EdgeConfig) -> bool {
    &&& mappings_normalized(before.server.tcp_listen@, after.server.tcp_listen@)
    &&& mappings_normalized(before.server.udp_listen@, after.server.udp_listen@)
    &&& match (before.tls.acme, after.tls.acme) {
        (Some(a), Some(b)) => b == (AcmeConfig { domains: b.domains, ..a }) && acme_outcome(a)
            == Ok::<Seq<Seq<char>>, Seq<char>>(text::views(b.domains@)),
        (None, None) => true,
        _ => false,
    }
    &&& after.routing.mode == Some(routing_mode(before))
    &&& after == (EdgeConfig {
        server: ServerConfig {
            tcp_listen: after.server.tcp_listen,
            udp_listen: after.server.udp_listen,
            ..before.server
        },
        tls: TlsConfig { acme: after.tls.acme, ..before.tls },
        routing: after.routing,
        ..before
    })
}

fn check_quic_cert(c: &ServerConfig, existing: &Vec<String>) -> (r: Result<(), String>)
    ensures
        is_verdict(r, quic_cert_fault(*c, text::views(existing@))),
{
    match (&c.quic_cert, &c.quic_key) {
        (Some(cert), Some(key)) => {
            if !lists(existing, cert.as_str()) {
                return Err(missing_file("quic_cert", cert.as_str()));
            }
            if !lists(existing, key.as_str()) {
                return Err(missing_file("quic_key", key.as_str()));
            }
            Ok(())
        },
        (None, None) => Ok(()),
        _ => Err("server.quic_cert and server.quic_key must be set together".to_owned()),
    }
}

fn missing_file(field: &str, path: &str) -> (r: String)
    ensures
        r@ == "server."@ + field@ + ": "@ + path@ + " does not exist"@,
{
    let mut m: String = "server.".to_owned();
    m.append(field);
    m.append(": ");
    m.append(path);
    m.append(" does not exist");
    m
}

fn has_empty(list: &Vec<String>) -> (r: bool)
    ensures
        r == exists|i: int|
            0 <= i < text::views(list@).len() && (#[trigger] text::views(list@)[i]).len() == 0,
{
    let ghost all = text::views(list@);
    let mut i: usize = 0;
    while i < list.len()
        invariant
            i <= list.len(),
            all == text::views(list@),
            forall|j: int| 0 <= j < i ==> (#[trigger] all[j]).len() != 0,
        decreases list.len() - i,
    {
        if list[i].as_str().is_empty() {
            assert(all[i as int].len() == 0);
            return true;
        }
        i += 1;
    }
    false
}

fn check_secrets_distinct(active: &str, previous: &Vec<String>) -> (r: bool)
    ensures
        r == secrets_distinct(active@, text::views(previous@)),
{
    let ghost all = text::views(previous@);
    if lists(previous, active) {
        return false;
    }
    let mut i: usize = 0;
    while i < previous.len()
        invariant
            i <= previous.len(),
            all == text::views(previous@),
            forall|a: int, b: int| 0 <= a < b < all.len() && a < i ==> (#[trigger] all[a]) != (
            #[trigger] all[b]),
        decreases previous.len() - i,
    {
        let mut j: usize = i + 1;
        while j < previous.len()
            invariant
                i < j <= previous.len(),
                all == text::views(previous@),
                forall|b: int| i < b < j ==> all[i as int] != (#[trigger] all[b]),
            decreases previous.len() - j,
        {
            if same_text(previous[i].as_str(), previous[j].as_str()) {
                assert(all[i as int] == all[j as int]);
                return false;
            }
            j += 1;
        }
        i += 1;
    }
    true
}

impl EdgeConfig {
    fn check_server(&self, existing: &Vec<String>) -> (r: Result<
        (Vec<PortHostMapping>, Vec<PortHostMapping>),
        String,
    >)
        ensures
            match r {
                Ok((tcp, udp)) => server_fault(*self, text::views(existing@)) is None
                    && mappings_normalized(self.server.tcp_listen@, tcp@) && mappings_normalized(
                    self.server.udp_listen@,
                    udp@,
                ),
                Err(e) => server_fault(*self, text::views(existing@)) == Some(e@),
            },
    {
        let s: &ServerConfig = &self.server;
        if parse_socket(s.quic_listen.as_str()).is_none() {
            return Err(
                "server.quic_listen: invalid socket address ".to_owned().concat(
                    quote(s.quic_listen.as_str()).as_str(),
                ),
            );
        }
        if let Err(e) = validate_listen_addr("server.http_listen", s.http_listen.as_str()) {
            return Err(e);
        }
        if let Err(e) = validate_listen_addr("server.https_listen", s.https_listen.as_str()) {
            return Err(e);
        }
        if let Err(e) = validate_listen_addr("server.health_listen", s.health_listen.as_str()) {
            return Err(e);
        }
        let tcp: Vec<PortHostMapping> = match validate_port_mappings(
            "server.tcp_listen",
            &s.tcp_listen,
        ) {
            Ok(tcp) => tcp,
            Err(e) => {
                return Err(e);
            },
        };
        let udp: Vec<PortHostMapping> = match validate_port_mappings(
            "server.udp_listen",
            &s.udp_listen,
        ) {
            Ok(udp) => udp,
            Err(e) => {
                return Err(e);
            },
        };
        if let Err(e) = check_quic_cert(s, existing) {
            return Err(e);
        }
        if s.udp_reply_timeout_secs == 0 || s.udp_max_pending_replies == 0
            || s.max_connector_connections == 0 {
            return Err(
                "server UDP limits and max_connector_connections must be greater than 0".to_owned(),
            );
        }
        if self.auth.jwt_secret.as_str().is_empty() {
            return Err("auth.jwt_secret must not be empty".to_owned());
        }
        if has_empty(&self.auth.jwt_previous_secrets) {
            return Err(
                "auth.jwt_previous_secrets must not contain an empty secret".to_owned(),
            );
        }
        if !check_secrets_distinct(
            self.auth.jwt_secret.as_str(),
            &self.auth.jwt_previous_secrets,
        ) {
            return Err("auth JWT secrets must not contain duplicates".to_owned());
        }
        Ok((tcp, udp))
    }

    fn check_acme_context(&self, acme: &AcmeConfig) -> (r: Result<(), String>)
        requires
            self.tls.acme is Some,
            *acme == (AcmeConfig { domains: acme.domains, ..self.tls.acme->0 }),
        ensures
            is_verdict(r, acme_context_fault(*self, text::views(acme.domains@))),
    {
        if !acme.enabled {
            return Ok(());
        }
        if acme.coordination == AcmeCoordination::Valkey && self.valkey.is_none() {
            return Err(
                "tls.acme.coordination = \"valkey\" requires a [valkey] section".to_owned(),
            );
        }
        if acme.challenge == AcmeChallenge::Dns01 {
            let dns: CompiledDns = match compile::compile(&self.dns) {
                Ok(dns) => dns,
                Err(e) => {
                    return Err(
                        "tls.acme dns-01 needs valid [dns] providers: ".to_owned().concat(
                            e.as_str(),
                        ),
                    );
                },
            };
            return check_coverage(&acme.domains, &dns.providers);
        }
        Ok(())
    }

    /// The routing mode: version 2 defaults to mesh, version 1 keeps direct so
    /// that upgrading a binary never silently changes the traffic path.
    pub fn effective_mode(&self) -> (r: RoutingMode)
        ensures
            r == routing_mode(*self),
    {
        match self.routing.mode {
            Some(mode) => mode,
            None => match self.config_version {
                Some(2) => RoutingMode::Mesh,
                _ => RoutingMode::Direct,
            },
        }
    }

    fn check_routing(&self, existing: &Vec<String>) -> (r: Result<(), String>)
        ensures
            is_verdict(r, routing_fault(*self, text::views(existing@))),
    {
        let version: u32 = match self.config_version {
            Some(v) => v,
            None => 1,
        };
        if version == 0 || version > 2 {
            let mut m: String = "config_version ".to_owned();
            m.append(decimal_text(version as u64).as_str());
            m.append(" is not supported by this build");
            return Err(m);
        }
        match &self.mesh {
            None => {
                if self.effective_mode() == RoutingMode::Mesh {
                    return Err("routing.mode = \"mesh\" requires a [mesh] section".to_owned());
                }
                Ok(())
            },
            Some(mesh) => mesh.validate(self.valkey.is_some(), existing),
        }
    }

    fn check_dns(&self) -> (r: Result<(), String>)
        ensures
            is_verdict(r, dns_fault(*self)),
    {
        if !self.dns.enabled {
            return Ok(());
        }
        if trim(self.dns.state_dir.as_str()).as_str().is_empty() {
            return Err("dns.state_dir must be set when dns.enabled = true".to_owned());
        }
        if self.dns.reconcile_interval_secs == 0 || self.dns.lease_ttl_secs < 5 {
            return Err(
                "dns.reconcile_interval_secs must be > 0 and dns.lease_ttl_secs >= 5".to_owned(),
            );
        }
        if self.valkey.is_none() && !self.dns.single_writer {
            return Err(
                "dns requires [valkey] for zone leases, or dns.single_writer = true for a single writing Edge".to_owned(),
            );
        }
        match compile::compile(&self.dns) {
            Ok(_) => Ok(()),
            Err(e) => Err(e),
        }
    }

    /// Validate the configuration and normalize hostnames. `existing` are the
    /// configured files that are there; `policy` is what compiling the traffic
    /// policy gave.
    pub fn validate(self, existing: &Vec<String>, policy: Result<(), String>) -> (r: Result<
        EdgeConfig,
        String,
    >)
        ensures
            ({
                let fault = config_fault(
                    self,
                    text::views(existing@),
                    match policy {
                        Ok(_) => None,
                        Err(e) => Some(e@),
                    },
                );
                match r {
                    Ok(c) => fault is None && is_normalized(self, c),
                    Err(e) => fault == Some(e@),
                }
            }),
    {
        let mut c: EdgeConfig = self;
        let (tcp, udp) = match c.check_server(existing) {
            Ok(x) => x,
            Err(e) => {
                return Err(e);
            },
        };
        if let Err(e) = policy {
            return Err(e);
        }
        if c.tls.reload_interval_secs == 0 {
            return Err("tls.reload_interval_secs must be greater than 0".to_owned());
        }
        let given: Option<AcmeConfig> = c.tls.acme.take();
        let acme: Option<AcmeConfig> = match given {
            Some(acme) => match acme.validate() {
                Ok(acme) => Some(acme),
                Err(e) => {
                    return Err(e);
                },
            },
            None => None,
        };
        c.tls.acme = acme;
        if let Some(acme) = &c.tls.acme {
            if let Err(e) = c.check_acme_context(acme) {
                return Err(e);
            }
        }
        if let Some(valkey) = &c.valkey {
            if trim(valkey.url.as_str()).as_str().is_empty() {
                return Err("valkey.url must not be empty".to_owned());
            }
        }
        if let Err(e) = c.http.validate() {
            return Err(e);
        }
        if let Err(e) = c.check_routing(existing) {
            return Err(e);
        }
        if let Err(e) = c.check_dns() {
            return Err(e);
        }
        let mode: RoutingMode = c.effective_mode();
        c.routing = RoutingConfig { mode: Some(mode) };
        c.server.tcp_listen = tcp;
        c.server.udp_listen = udp;
        Ok(c)
    }
}

/// Upgrading never changes the traffic path: without a version, or with version
/// 1, routing stays direct unless configured otherwise; version 2 defaults to mesh.
pub proof fn law_routing_mode_follows_the_version(c: EdgeConfig)
    requires
        c.routing.mode is None,
    ensures
        c.config_version is None || c.config_version == Some(1u32) ==> routing_mode(c)
            == RoutingMode::Direct,
        c.config_version == Some(2u32) ==> routing_mode(c) == RoutingMode::Mesh,
{
}

/// A resolver is a socket address, or an address of which the port is 53; white space around it
/// does not matter.
pub proof fn law_resolvers_listen_on_the_dns_port(
    value: &str,
    trimmed: String,
    bare: &str,
    socket: Option<SocketAddr>,
    ip: Option<IpAddr>,
    r: Result<SocketAddr, String>,
)
    requires
        call_ensures(parse_resolver_addr, (value,), r),
        call_ensures(trim, (value,), trimmed),
        bare@ == trimmed@,
        call_ensures(addr::parse_socket, (bare,), socket),
        call_ensures(addr::parse_ip, (bare,), ip),
    ensures
        r is Ok == (socket is Some || ip is Some),
        socket is Some ==> r == Ok::<SocketAddr, String>(socket->0),
        socket is None ==> (ip matches Some(IpAddr::V4(n)) ==> r == Ok::<SocketAddr, String>(
            SocketAddr::V4(n, 53),
        )),
        socket is None ==> (ip matches Some(IpAddr::V6(n)) ==> r == Ok::<SocketAddr, String>(
            SocketAddr::V6(n, 53, 0),
        )),
{
}

/// A listen address is a socket address or a host and a port with a colon between.
pub proof fn law_listen_addresses_have_a_port(
    field: &str,
    s: &str,
    host: Seq<char>,
    port: u16,
    socket: Option<SocketAddr>,
    r: Result<(), String>,
)
    requires
        call_ensures(validate_listen_addr, (field, s), r),
        call_ensures(addr::parse_socket, (s,), socket),
    ensures
        socket is Some ==> r is Ok,
        host.len() > 0 && s@ == host + seq![':'] + text::decimal(port as nat) ==> r is Ok,
        socket is None && !s@.contains(':') ==> r is Err,
        socket is None && s@.len() > 0 && s@.last() == ':' ==> r is Err,
{
    let d = text::decimal(port as nat);
    text::law_digits_read_back(port as nat, 10);
    text::lemma_digits_are_digits(port as nat, 10);
    s@.index_of_last_ensures(':');
    if host.len() > 0 && s@ == host + seq![':'] + d {
        let n = host.len() as int;
        assert(s@[n] == ':');
        assert(s@.contains(':'));
        let i = s@.index_of_last(':')->0;
        if i > n {
            assert(s@[i] == d[i - n - 1]);
            assert(text::digit_value(d[i - n - 1], 16) is Some);
        }
        assert(i == n);
        assert(s@.skip(n + 1) =~= d);
        assert(text::digit_value(d[0], 16) is Some);
    }
    if s@.len() > 0 && s@.last() == ':' {
        let n = s@.len() - 1;
        assert(s@[n] == ':');
        assert(s@.contains(':'));
        let i = s@.index_of_last(':')->0;
        assert(i == n);
        assert(s@.skip(n + 1) =~= Seq::empty());
    }
}

proof fn lemma_mappings(field: Seq<char>, mappings: Seq<PortHostMapping>, from: int)
    requires
        0 <= from,
    ensures
        mappings_fault(field, mappings, from) is None == (forall|i: int|
            from <= i < mappings.len() ==> sound_mapping(mappings, #[trigger] mappings[i], i)),
    decreases mappings.len() - from,
{
    if from < mappings.len() {
        lemma_mappings(field, mappings, from + 1);
        assert(mappings_fault(field, mappings, from) is None == (sound_mapping(
            mappings,
            mappings[from],
            from,
        ) && mappings_fault(field, mappings, from + 1) is None));
        if mappings_fault(field, mappings, from) is None {
            assert forall|i: int| from <= i < mappings.len() implies sound_mapping(
                mappings,
                #[trigger] mappings[i],
                i,
            ) by {
                if i > from {
                    assert(from + 1 <= i);
                }
            }
        }
    }
}

spec fn sound_mapping(mappings: Seq<PortHostMapping>, m: PortHostMapping, i: int) -> bool {
    &&& is_listen_addr(m.addr@)
    &&& !(exists|j: int| 0 <= j < i && (#[trigger] mappings[j]).addr@ == m.addr@)
    &&& hostname::normalized(m.hostname@, false, false) is Ok
}

/// A mapping more is accepted if and only if it listens on an address of its own and is for a
/// hostname; the hostname is then in normal form, and nothing else changes.
pub proof fn law_mappings_have_their_own_address(
    field: &str,
    fewer: Vec<PortHostMapping>,
    mappings: Vec<PortHostMapping>,
    m: PortHostMapping,
    address: &str,
    listen: Result<(), String>,
    name: &str,
    normal: Result<String, hostname::HostnameError>,
    less: Result<Vec<PortHostMapping>, String>,
    r: Result<Vec<PortHostMapping>, String>,
)
    requires
        mappings@ == fewer@.push(m),
        call_ensures(validate_port_mappings, (field, &fewer), less),
        call_ensures(validate_port_mappings, (field, &mappings), r),
        address@ == m.addr@,
        call_ensures(validate_listen_addr, (field, address), listen),
        name@ == m.hostname@,
        call_ensures(hostname::normalize_hostname, (name,), normal),
    ensures
        fewer@.len() == 0 ==> less is Ok,
        r is Ok == (less is Ok && listen is Ok && normal is Ok && forall|j: int|
            0 <= j < fewer@.len() ==> (#[trigger] fewer@[j]).addr@ != m.addr@),
        r matches Ok(v) ==> v@.len() == mappings@.len() && v@.last().addr@ == m.addr@
            && v@.last().hostname@ == normal->Ok_0@,
{
    lemma_mappings(field@, fewer@, 0);
    lemma_mappings(field@, mappings@, 0);
    let n = fewer@.len() as int;
    assert(mappings@[n] == m);
    assert forall|i: int| 0 <= i < n implies sound_mapping(fewer@, #[trigger] fewer@[i], i)
        == sound_mapping(mappings@, mappings@[i], i) by {
        assert(mappings@[i] == fewer@[i]);
        assert forall|j: int| 0 <= j < i implies (#[trigger] mappings@[j]) == fewer@[j] by {}
        if exists|j: int| 0 <= j < i && (#[trigger] mappings@[j]).addr@ == fewer@[i].addr@ {
            let j = choose|j: int|
                0 <= j < i && (#[trigger] mappings@[j]).addr@ == fewer@[i].addr@;
            assert(fewer@[j].addr@ == fewer@[i].addr@);
        }
        if exists|j: int| 0 <= j < i && (#[trigger] fewer@[j]).addr@ == fewer@[i].addr@ {
            let j = choose|j: int| 0 <= j < i && (#[trigger] fewer@[j]).addr@ == fewer@[i].addr@;
            assert(mappings@[j].addr@ == fewer@[i].addr@);
        }
    }
    if r is Ok {
        assert(sound_mapping(mappings@, mappings@[n], n));
        assert forall|i: int| 0 <= i < n implies sound_mapping(fewer@, #[trigger] fewer@[i], i) by {
            assert(sound_mapping(mappings@, mappings@[i], i));
        }
        assert forall|j: int| 0 <= j < n implies (#[trigger] fewer@[j]).addr@ != m.addr@ by {
            assert(mappings@[j] == fewer@[j]);
        }
        assert(r->Ok_0@[n].addr@ == mappings@[n].addr@);
    }
    if less is Ok && listen is Ok && normal is Ok && (forall|j: int|
        0 <= j < fewer@.len() ==> (#[trigger] fewer@[j]).addr@ != m.addr@) {
        assert forall|i: int| 0 <= i < mappings@.len() implies sound_mapping(
            mappings@,
            #[trigger] mappings@[i],
            i,
        ) by {
            if i < n {
                assert(sound_mapping(fewer@, fewer@[i], i));
            } else {
                assert forall|j: int| 0 <= j < i implies (#[trigger] mappings@[j]).addr@
                    != m.addr@ by {
                    assert(mappings@[j] == fewer@[j]);
                }
            }
        }
    }
}

/// The HTTP section is accepted if and only if its limits and timeouts are positive and the
/// header limit is between 8 KiB and 1 MiB.
pub proof fn law_http_limits_are_positive(c: HttpConfig, r: Result<(), String>)
    requires
        call_ensures(HttpConfig::validate, (&c,), r),
    ensures
        r is Ok == (c.max_connections > 0 && 8192 <= c.max_header_bytes <= 1048576
            && c.header_read_timeout_secs > 0 && c.tls_handshake_timeout_secs > 0
            && c.backend_open_timeout_secs > 0 && c.response_header_timeout_secs > 0
            && c.h2_max_concurrent_streams > 0),
{
}

spec fn sound_peer(own: Seq<char>, peers: Seq<MeshPeerConfig>, p: MeshPeerConfig, i: int) -> bool {
    &&& certs::is_edge_id(p.edge_id@)
    &&& p.edge_id@ != own
    &&& !(exists|j: int| 0 <= j < i && (#[trigger] peers[j]).edge_id@ == p.edge_id@)
    &&& p.addr is Some ==> addr::parsed_socket(p.addr->0@) is Some
}

proof fn lemma_peers(own: Seq<char>, peers: Seq<MeshPeerConfig>, from: int)
    requires
        0 <= from,
    ensures
        peers_fault(own, peers, from) is None == (forall|i: int|
            from <= i < peers.len() ==> sound_peer(own, peers, #[trigger] peers[i], i)),
    decreases peers.len() - from,
{
    if from < peers.len() {
        lemma_peers(own, peers, from + 1);
        assert(peers_fault(own, peers, from) is None == (sound_peer(
            own,
            peers,
            peers[from],
            from,
        ) && peers_fault(own, peers, from + 1) is None));
        if peers_fault(own, peers, from) is None {
            assert forall|i: int| from <= i < peers.len() implies sound_peer(
                own,
                peers,
                #[trigger] peers[i],
                i,
            ) by {
                if i > from {
                    assert(from + 1 <= i);
                }
            }
        }
    }
}

/// A mesh without peers is accepted if and only if the Edge has a proper name, listens and can be
/// reached on socket addresses, has its files, keeps routes for longer than it takes to refresh
/// them, and has positive limits.
pub proof fn law_mesh_settings_are_sound(
    c: MeshConfig,
    has_valkey: bool,
    existing: Vec<String>,
    id: &str,
    named: Result<(), String>,
    listen: &str,
    listens: Option<SocketAddr>,
    advertise: &str,
    advertised: Option<SocketAddr>,
    r: Result<(), String>,
)
    requires
        c.peers@.len() == 0,
        call_ensures(MeshConfig::validate, (&c, has_valkey, &existing), r),
        id@ == c.edge_id@,
        call_ensures(certs::validate_edge_id, (id,), named),
        listen@ == c.listen@,
        call_ensures(addr::parse_socket, (listen,), listens),
        advertise@ == c.advertise@,
        call_ensures(addr::parse_socket, (advertise,), advertised),
    ensures
        ({
            let files = text::views(existing@);
            let reachable = match advertised {
                Some(SocketAddr::V4(ip, port)) => ip != 0 && port != 0,
                Some(SocketAddr::V6(ip, port, _)) => ip != 0 && port != 0,
                None => false,
            };
            r is Ok == (named is Ok && listens is Some && reachable && text::trimmed(
                c.ca_cert@,
            ).len() > 0 && files.contains(c.ca_cert@) && text::trimmed(c.cert@).len() > 0
                && files.contains(c.cert@) && text::trimmed(c.key@).len() > 0 && files.contains(
                c.key@,
            ) && c.route_refresh_secs > 0 && c.route_ttl_secs > c.route_refresh_secs
                && c.max_streams_per_peer > 0 && c.max_streams_per_tenant > 0
                && c.max_pending_udp_replies > 0 && c.stream_wait_ms > 0 && c.accept_timeout_ms > 0
                && c.connect_timeout_ms > 0 && c.peer_failure_cooldown_secs > 0)
        }),
{
}

/// A peer more is accepted if and only if it has a proper name of its own, that is not this
/// Edge's, an address that is a socket address where it has one, and routes can be shared.
pub proof fn law_peers_have_names_of_their_own(
    fewer: MeshConfig,
    c: MeshConfig,
    p: MeshPeerConfig,
    has_valkey: bool,
    existing: Vec<String>,
    id: &str,
    named: Result<(), String>,
    address: &str,
    parsed: Option<SocketAddr>,
    less: Result<(), String>,
    r: Result<(), String>,
)
    requires
        c == (MeshConfig { peers: c.peers, ..fewer }),
        c.peers@ == fewer.peers@.push(p),
        call_ensures(MeshConfig::validate, (&fewer, has_valkey, &existing), less),
        call_ensures(MeshConfig::validate, (&c, has_valkey, &existing), r),
        less is Ok,
        id@ == p.edge_id@,
        call_ensures(certs::validate_edge_id, (id,), named),
        p.addr is Some ==> address@ == p.addr->0@,
        call_ensures(addr::parse_socket, (address,), parsed),
    ensures
        r is Ok == (has_valkey && named is Ok && p.edge_id@ != c.edge_id@ && (p.addr is None
            || parsed is Some) && forall|j: int|
            0 <= j < fewer.peers@.len() ==> (#[trigger] fewer.peers@[j]).edge_id@ != p.edge_id@),
{
    let own = c.edge_id@;
    let before = fewer.peers@;
    let all = c.peers@;
    let n = before.len() as int;
    lemma_peers(own, before, 0);
    lemma_peers(own, all, 0);
    assert(all[n] == p);
    assert forall|i: int| 0 <= i < n implies sound_peer(own, all, #[trigger] all[i], i) by {
        assert(all[i] == before[i]);
        assert(sound_peer(own, before, before[i], i));
        assert forall|j: int| 0 <= j < i implies (#[trigger] all[j]).edge_id@
            != all[i].edge_id@ by {
            assert(before[j] == all[j]);
        }
    }
    if sound_peer(own, all, p, n) {
        assert forall|j: int| 0 <= j < n implies (#[trigger] before[j]).edge_id@ != p.edge_id@ by {
            assert(all[j] == before[j]);
        }
        assert forall|i: int| 0 <= i < all.len() implies sound_peer(
            own,
            all,
            #[trigger] all[i],
            i,
        ) by {
            if i == n {
                assert(all[i] == p);
            }
        }
    } else {
        assert(!sound_peer(own, all, all[n], n));
        if forall|j: int| 0 <= j < n ==> (#[trigger] before[j]).edge_id@ != p.edge_id@ {
            assert forall|j: int| 0 <= j < n implies (#[trigger] all[j]).edge_id@ != p.edge_id@ by {
                assert(all[j] == before[j]);
            }
        }
    }
}

proof fn lemma_one_domain_more(
    domains: Seq<Seq<char>>,
    d: Seq<char>,
    challenge: AcmeChallenge,
    i: int,
    done: Seq<Seq<char>>,
)
    requires
        0 <= i <= domains.len(),
    ensures
        ({
            let before = normal_domains(domains, challenge, i, done);
            let after = normal_domains(domains.push(d), challenge, i, done);
            &&& before is Err ==> after == before
            &&& before is Ok ==> after is Ok == (hostname::normalized(d, true, false) is Ok && !(
            text::starts_with(hostname::normalized(d, true, false)->Ok_0, "*."@) && challenge
                == AcmeChallenge::Http01) && !before->Ok_0.contains(
                hostname::normalized(d, true, false)->Ok_0,
            ))
            &&& after is Ok ==> after->Ok_0 == before->Ok_0.push(
                hostname::normalized(d, true, false)->Ok_0,
            )
        }),
    decreases domains.len() - i,
{
    let more = domains.push(d);
    reveal_with_fuel(normal_domains, 2);
    if i < domains.len() {
        assert(more[i] == domains[i]);
        if let Ok(name) = hostname::normalized(domains[i], true, false) {
            lemma_one_domain_more(domains, d, challenge, i + 1, done.push(name));
        }
    } else {
        assert(more[i] == d);
    }
}

/// A domain more is accepted if and only if it is a hostname or a wildcard that is not there
/// yet, and a wildcard only with a challenge that allows one; it is then in normal form.
pub proof fn law_domains_are_ordered_once(
    fewer: AcmeConfig,
    c: AcmeConfig,
    d: String,
    name: &str,
    normal: Result<String, hostname::HostnameError>,
    less: AcmeConfig,
    r: Result<AcmeConfig, String>,
)
    requires
        fewer.enabled,
        c == (AcmeConfig { domains: c.domains, ..fewer }),
        c.domains@ == fewer.domains@.push(d),
        name@ == d@,
        call_ensures(hostname::normalize_hostname_pattern, (name,), normal),
        call_ensures(AcmeConfig::validate, (fewer,), Ok::<AcmeConfig, String>(less)),
        call_ensures(AcmeConfig::validate, (c,), r),
    ensures
        r is Ok == (normal is Ok && !(normal->Ok_0@.len() >= 2 && normal->Ok_0@[0] == '*'
            && normal->Ok_0@[1] == '.' && c.challenge is Http01) && forall|i: int|
            0 <= i < less.domains@.len() ==> (#[trigger] less.domains@[i])@ != normal->Ok_0@),
        r matches Ok(v) ==> v.domains@.len() == less.domains@.len() + 1 && v.domains@.last()@
            == normal->Ok_0@,
{
    let before = text::views(fewer.domains@);
    assert(text::views(c.domains@) =~= before.push(d@));
    lemma_one_domain_more(before, d@, c.challenge, 0, Seq::empty());
    let done = text::views(less.domains@);
    reveal_strlit("*.");
    if normal is Ok {
        let n = normal->Ok_0@;
        if n.len() >= 2 && n[0] == '*' && n[1] == '.' {
            assert(n.take(2) =~= "*."@);
        }
        if text::starts_with(n, "*."@) {
            assert(n.take(2)[0] == '*' && n.take(2)[1] == '.');
        }
        if done.contains(n) {
            let i = done.index_of(n);
            assert(less.domains@[i]@ == n);
        }
        if exists|i: int| 0 <= i < less.domains@.len() && (#[trigger] less.domains@[i])@ == n {
            let i = choose|i: int|
                0 <= i < less.domains@.len() && (#[trigger] less.domains@[i])@ == n;
            assert(done[i] == n);
        }
    }
    if r is Ok {
        let v = r->Ok_0;
        let list = text::views(v.domains@);
        assert(list.len() == v.domains@.len());
        assert(list.last() == v.domains@.last()@);
        assert(done.len() == less.domains@.len());
    }
}

/// What is not enabled is accepted as it is. Where ACME is enabled, its terms are agreed to, its
/// directory is reached over HTTPS, it has a domain and a place to keep its state, renewal is
/// within the lifetime, and the times and limits are sound; nothing but the domains changes.
pub proof fn law_acme_settings_are_sound(c: AcmeConfig, r: Result<AcmeConfig, String>)
    requires
        call_ensures(AcmeConfig::validate, (c,), r),
    ensures
        !c.enabled ==> r is Ok && text::views(r->Ok_0.domains@) == text::views(c.domains@),
        r matches Ok(v) ==> v == (AcmeConfig { domains: v.domains, ..c }),
        c.enabled && r is Ok ==> {
            &&& c.terms_of_service_agreed
            &&& text::starts_with(c.directory_url@, "https://"@)
            &&& c.domains@.len() > 0
            &&& text::trimmed(c.state_dir@).len() > 0
            &&& c.contact_email is Some ==> c.contact_email->0@.contains('@')
            &&& 0 < c.renew_before_billionths < 1_000_000_000
            &&& 0 < c.retry_initial_secs <= c.retry_max_secs
            &&& c.order_timeout_secs > 0 && c.challenge_max_concurrent > 0
            &&& c.store_poll_interval_secs > 0 && c.challenge_distribution_timeout_secs > 0
            &&& c.dns_propagation_timeout_secs > 0 && c.dns_propagation_poll_secs > 0
            &&& 60 <= c.dns_txt_ttl <= 3600
        },
        c.enabled && c.terms_of_service_agreed && text::starts_with(c.directory_url@, "https://"@)
            && c.domains@.len() == 1 && hostname::normalized(c.domains@[0]@, true, false) is Ok
            && c.challenge is Dns01 && text::trimmed(c.state_dir@).len() > 0 && c.contact_email is None && 0
            < c.renew_before_billionths < 1_000_000_000 && 0 < c.retry_initial_secs
            <= c.retry_max_secs && c.order_timeout_secs > 0 && c.challenge_max_concurrent > 0
            && c.store_poll_interval_secs > 0 && c.challenge_distribution_timeout_secs > 0
            && c.dns_propagation_timeout_secs > 0 && c.dns_propagation_poll_secs > 0 && 60
            <= c.dns_txt_ttl <= 3600 && c.dns_resolvers@.len() == 0 ==> r is Ok,
{
    if c.enabled && c.domains@.len() == 1 && hostname::normalized(c.domains@[0]@, true, false)
        is Ok {
        let names = text::views(c.domains@);
        assert(names[0] == c.domains@[0]@);
        let name = hostname::normalized(names[0], true, false)->Ok_0;
        reveal_with_fuel(normal_domains, 2);
        assert(!Seq::<Seq<char>>::empty().contains(name));
        assert(normal_domains(names, c.challenge, 1, Seq::empty().push(name)) is Ok);
    }
}

/// The name of a challenge record is that of the domain, or of what a wildcard stands in.
pub proof fn law_challenge_records_have_no_wildcard(
    domain: &str,
    wildcard: &str,
    a: String,
    b: String,
)
    requires
        call_ensures(challenge_record_name, (domain,), a),
        call_ensures(challenge_record_name, (wildcard,), b),
        wildcard@ == seq!['*', '.'] + domain@,
        !(domain@.len() >= 2 && domain@[0] == '*' && domain@[1] == '.'),
    ensures
        a@ == "_acme-challenge."@ + domain@,
        b@ == a@,
{
    reveal_strlit("*.");
    assert(wildcard@.take(2) =~= "*."@);
    assert(wildcard@.skip(2) =~= domain@);
    if text::starts_with(domain@, "*."@) {
        assert(domain@.take(2)[0] == '*' && domain@.take(2)[1] == '.');
    }
}

/// A configuration is accepted only if each of its sections is, and changes in nothing but the
/// normal forms of its names and the mode of routing, which is then said.
pub proof fn law_accepted_configurations_are_sound(
    c: EdgeConfig,
    existing: Vec<String>,
    policy: Result<(), String>,
    http: Result<(), String>,
    mesh: Result<(), String>,
    acme: Result<AcmeConfig, String>,
    tcp: Result<Vec<PortHostMapping>, String>,
    udp: Result<Vec<PortHostMapping>, String>,
    dns: Result<CompiledDns, String>,
    mode: RoutingMode,
    r: Result<EdgeConfig, String>,
)
    requires
        call_ensures(EdgeConfig::validate, (c, &existing, policy), r),
        call_ensures(HttpConfig::validate, (&c.http,), http),
        c.mesh is Some ==> call_ensures(
            MeshConfig::validate,
            (&c.mesh->0, c.valkey is Some, &existing),
            mesh,
        ),
        c.tls.acme is Some ==> call_ensures(AcmeConfig::validate, (c.tls.acme->0,), acme),
        call_ensures(validate_port_mappings, ("server.tcp_listen", &c.server.tcp_listen), tcp),
        call_ensures(validate_port_mappings, ("server.udp_listen", &c.server.udp_listen), udp),
        call_ensures(compile::compile, (&c.dns,), dns),
        call_ensures(EdgeConfig::effective_mode, (&c,), mode),
    ensures
        r is Ok ==> policy is Ok && http is Ok && (c.mesh is Some ==> mesh is Ok) && (c.tls.acme
            is Some ==> acme is Ok) && tcp is Ok && udp is Ok && (c.dns.enabled ==> dns is Ok),
        r is Ok ==> c.auth.jwt_secret@.len() > 0 && c.tls.reload_interval_secs > 0
            && c.server.udp_reply_timeout_secs > 0 && c.server.udp_max_pending_replies > 0
            && c.server.max_connector_connections > 0,
        r is Ok ==> (mode is Mesh ==> c.mesh is Some) && (c.server.quic_cert is Some)
            == (c.server.quic_key is Some),
        r is Ok && c.dns.enabled ==> c.dns.reconcile_interval_secs > 0 && c.dns.lease_ttl_secs >= 5
            && (c.valkey is Some || c.dns.single_writer),
        r is Ok ==> c.config_version is None || 1 <= c.config_version->0 <= 2,
        r matches Ok(v) ==> {
            &&& v.routing.mode == Some(mode)
            &&& v.http == c.http
            &&& v.mesh == c.mesh
            &&& v.dns == c.dns
            &&& v.auth == c.auth
            &&& v.valkey == c.valkey
            &&& v.server.http_listen == c.server.http_listen
            &&& v.server.quic_listen == c.server.quic_listen
            &&& v.tls.acme is Some == c.tls.acme is Some
            &&& c.tls.acme is Some ==> text::views(v.tls.acme->0.domains@) == text::views(
                acme->Ok_0.domains@,
            )
        },
        mode == (match c.routing.mode {
            Some(m) => m,
            None => if c.config_version == Some(2u32) {
                RoutingMode::Mesh
            } else {
                RoutingMode::Direct
            },
        }),
{
}

} // verus!
