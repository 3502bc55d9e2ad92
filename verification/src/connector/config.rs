//! The Connector's configuration.

use vstd::prelude::*;
use vstd::string::*;
use crate::config;
use crate::config::{IngressRule, Protocol, Target};
use crate::pki;
use crate::pki::valid_server_name;
use crate::text;
use crate::text::{chars_of, decimal_text, trim};

verus! {

#[derive(Debug)]
pub struct ConnectorConfig {
    pub auth: AuthConfig,
    pub network: NetworkConfig,
    pub ingress: Vec<IngressRule>,
    pub valkey: Option<ValkeyConfig>,
}

#[derive(Debug)]
pub struct AuthConfig {
    pub token: String,
}

#[derive(Debug)]
pub struct NetworkConfig {
    /// List of Edge server addresses (host:port)
    pub public_servers: Vec<String>,
    /// PEM CA bundle used to verify the Edge's QUIC certificate
    pub edge_ca_cert: Option<String>,
    /// TLS server name to verify the Edge's certificate against. Defaults to the
    /// host part of the `public_servers` entry, which is an IP address when the
    /// Edge is addressed by IP and then requires a matching IP SAN.
    pub edge_server_name: Option<String>,
    /// Hex SHA-256 fingerprints of accepted Edge certificates (pinning)
    pub edge_cert_sha256: Vec<String>,
    /// How long a shutdown waits for the streams in flight before closing
    pub drain_timeout_secs: u64,
}

/// The drain timeout where none is configured, in seconds.
pub fn default_drain_timeout() -> (r: u64)
    ensures
        r == 10,
{
    10
}

#[derive(Debug)]
pub struct ValkeyConfig {
    pub url: String,
    pub heartbeat_interval_secs: u64,
}

/// The heartbeat interval where none is configured, in seconds.
pub fn default_heartbeat_interval() -> (r: u64)
    ensures
        r == 15,
{
    15
}

/// What is wrong with a rule, if anything.
pub open spec fn rule_fault(rule: IngressRule) -> Option<Seq<char>> {
    match config::parsed_target(rule.target@) {
        Err(e) => Some(e),
        Ok(Target::Address(_)) => None,
        Ok(Target::HttpStatus(code)) => if !(100 <= code <= 599) {
            Some("http_status:"@ + text::decimal(code as nat) + " is not an HTTP status code"@)
        } else {
            match rule.protocol {
                Some(Protocol::Tcp) => Some(
                    "an http_status target cannot answer "@ + "tcp"@ + " traffic"@,
                ),
                Some(Protocol::Udp) => Some(
                    "an http_status target cannot answer "@ + "udp"@ + " traffic"@,
                ),
                _ => None,
            }
        },
    }
}

/// The first fault among the rules from `from` on.
pub open spec fn rules_fault(rules: Seq<IngressRule>, from: int) -> Option<Seq<char>>
    decreases rules.len() - from,
{
    if from >= rules.len() {
        None
    } else {
        match rule_fault(rules[from]) {
            Some(e) => Some("[[ingress]] rule "@ + text::decimal((from + 1) as nat) + ": "@ + e),
            None => rules_fault(rules, from + 1),
        }
    }
}

/// Whether a text is a fingerprint: 64 hexadecimal digits, white space around
/// them allowed.
pub open spec fn is_pin(s: Seq<char>) -> bool {
    let pin = text::trimmed(s);
    &&& pin.len() == 64
    &&& forall|i: int| 0 <= i < pin.len() ==> text::digit_value(#[trigger] pin[i], 16) is Some
}

/// What is wrong with a configuration, if anything. `ca_exists` says whether the
/// configured CA bundle is there.
pub open spec fn config_fault(c: ConnectorConfig, ca_exists: bool) -> Option<Seq<char>> {
    let pins = c.network.edge_cert_sha256@;
    if c.ingress@.len() == 0 {
        Some("at least one [[ingress]] rule is required"@)
    } else if c.network.public_servers@.len() == 0 {
        Some("[network] public_servers must not be empty"@)
    } else if rules_fault(c.ingress@, 0) is Some {
        rules_fault(c.ingress@, 0)
    } else if c.network.edge_ca_cert is Some && pins.len() > 0 {
        Some("[network] set either edge_ca_cert or edge_cert_sha256, not both"@)
    } else if exists|i: int| 0 <= i < pins.len() && !is_pin((#[trigger] pins[i])@) {
        Some("[network] edge_cert_sha256 entries must be 64 hex characters"@)
    } else if c.network.edge_ca_cert is Some && !ca_exists {
        Some("[network] edge_ca_cert: "@ + c.network.edge_ca_cert->0@ + " does not exist"@)
    } else {
        match c.network.edge_server_name {
            None => None,
            Some(name) => if text::trimmed(name@).len() == 0 {
                Some("[network] edge_server_name must not be empty"@)
            } else if !pki::is_server_name(name@) {
                Some("[network] edge_server_name: "@ + name@ + " is not a valid server name"@)
            } else {
                None
            },
        }
    }
}

/// A rule whose target cannot be used would otherwise only surface as a
/// hostname the Edge never routes to.
pub fn validate_rule(rule: &IngressRule) -> (r: Result<(), String>)
    ensures
        match r {
            Ok(_) => rule_fault(*rule) is None,
            Err(e) => rule_fault(*rule) == Some(e@),
        },
{
    match Target::parse(rule.target.as_str()) {
        Err(e) => Err(e),
        Ok(Target::Address(_)) => Ok(()),
        Ok(Target::HttpStatus(code)) => {
            if !(100 <= code && code <= 599) {
                let mut m: String = "http_status:".to_owned();
                m.append(decimal_text(code as u64).as_str());
                m.append(" is not an HTTP status code");
                return Err(m);
            }
            let protocol: &str = match rule.protocol {
                Some(Protocol::Tcp) => "tcp",
                Some(Protocol::Udp) => "udp",
                _ => {
                    return Ok(());
                },
            };
            let mut m: String = "an http_status target cannot answer ".to_owned();
            m.append(protocol);
            m.append(" traffic");
            Err(m)
        },
    }
}

fn check_pin_text(s: &str) -> (r: bool)
    ensures
        r == is_pin(s@),
{
    let pin: String = trim(s);
    let v: Vec<char> = chars_of(pin.as_str());
    if v.len() != 64 {
        return false;
    }
    let mut i: usize = 0;
    while i < v.len()
        invariant
            i <= v.len(),
            v@ == pin@,
            forall|j: int| 0 <= j < i ==> text::digit_value(#[trigger] pin@[j], 16) is Some,
        decreases v.len() - i,
    {
        let c: char = v[i];
        let ok: bool = ('0' <= c && c <= '9') || ('a' <= c && c <= 'f') || ('A' <= c && c <= 'F');
        if !ok {
            assert(text::digit_value(pin@[i as int], 16) is None);
            return false;
        }
        i += 1;
    }
    true
}

/// What deserves a word in the log although the configuration is accepted.
#[derive(Debug, Clone, Copy, PartialEq, Eq, Structural)]
pub struct ConfigNotes {
    /// The Edge's QUIC certificate is not verified.
    pub unverified_edge: bool,
    /// Requests that match no rule will return an error.
    pub no_catch_all: bool,
}

impl ConnectorConfig {
    /// Checks the configuration. `ca_exists` says whether the configured CA
    /// bundle is there.
    pub fn validate(&self, ca_exists: bool) -> (r: Result<(), String>)
        ensures
            match r {
                Ok(_) => config_fault(*self, ca_exists) is None,
                Err(e) => config_fault(*self, ca_exists) == Some(e@),
            },
    {
        if self.ingress.len() == 0 {
            return Err("at least one [[ingress]] rule is required".to_owned());
        }
        if self.network.public_servers.len() == 0 {
            return Err("[network] public_servers must not be empty".to_owned());
        }
        let mut i: usize = 0;
        while i < self.ingress.len()
            invariant
                i <= self.ingress.len(),
                rules_fault(self.ingress@, 0) == rules_fault(self.ingress@, i as int),
            decreases self.ingress.len() - i,
        {
            match validate_rule(&self.ingress[i]) {
                Ok(_) => {},
                Err(e) => {
                    let mut m: String = "[[ingress]] rule ".to_owned();
                    m.append(decimal_text(i as u64 + 1).as_str());
                    m.append(": ");
                    m.append(e.as_str());
                    return Err(m);
                },
            }
            i += 1;
        }
        let pins: &Vec<String> = &self.network.edge_cert_sha256;
        if self.network.edge_ca_cert.is_some() && pins.len() > 0 {
            return Err(
                "[network] set either edge_ca_cert or edge_cert_sha256, not both".to_owned(),
            );
        }
        let mut k: usize = 0;
        while k < pins.len()
            invariant
                k <= pins.len(),
                forall|j: int| 0 <= j < k ==> is_pin((#[trigger] pins@[j])@),
            decreases pins.len() - k,
        {
            if !check_pin_text(pins[k].as_str()) {
                return Err(
                    "[network] edge_cert_sha256 entries must be 64 hex characters".to_owned(),
                );
            }
            k += 1;
        }
        if let Some(path) = &self.network.edge_ca_cert {
            if !ca_exists {
                let mut m: String = "[network] edge_ca_cert: ".to_owned();
                m.append(path.as_str());
                m.append(" does not exist");
                return Err(m);
            }
        }
        if let Some(name) = &self.network.edge_server_name {
            if trim(name.as_str()).as_str().is_empty() {
                return Err("[network] edge_server_name must not be empty".to_owned());
            }
            if !valid_server_name(name.as_str()) {
                let mut m: String = "[network] edge_server_name: ".to_owned();
                m.append(name.as_str());
                m.append(" is not a valid server name");
                return Err(m);
            }
        }
        Ok(())
    }

    /// What deserves a word in the log.
    pub fn notes(&self) -> (r: ConfigNotes)
        ensures
            r.unverified_edge == (self.network.edge_ca_cert is None
                && self.network.edge_cert_sha256@.len() == 0),
            r.no_catch_all == (self.ingress@.len() > 0 && self.ingress@.last().hostname is Some),
    {
        ConfigNotes {
            unverified_edge: self.network.edge_ca_cert.is_none()
                && self.network.edge_cert_sha256.len() == 0,
            no_catch_all: self.ingress.len() > 0
                && self.ingress[self.ingress.len() - 1].hostname.is_some(),
        }
    }
}

/// A rule is accepted if and only if its target can be read and, where that is a status, it is a
/// status of HTTP and for HTTP.
pub proof fn law_rules_have_a_usable_target(
    rule: IngressRule,
    target: &str,
    parsed: Result<Target, String>,
    r: Result<(), String>,
)
    requires
        call_ensures(validate_rule, (&rule,), r),
        target@ == rule.target@,
        call_ensures(Target::parse, (target,), parsed),
    ensures
        parsed is Err ==> r is Err,
        parsed matches Ok(Target::Address(_)) ==> r is Ok,
        parsed matches Ok(Target::HttpStatus(code)) ==> r is Ok == (100 <= code <= 599 && (
        rule.protocol is None || rule.protocol->0 is Http)),
{
}

proof fn lemma_rules(rules: Seq<IngressRule>, from: int)
    requires
        0 <= from,
    ensures
        rules_fault(rules, from) is None == (forall|i: int|
            from <= i < rules.len() ==> rule_fault(#[trigger] rules[i]) is None),
    decreases rules.len() - from,
{
    if from < rules.len() && rule_fault(rules[from]) is None {
        lemma_rules(rules, from + 1);
        if rules_fault(rules, from) is None {
            assert forall|i: int| from <= i < rules.len() implies rule_fault(#[trigger] rules[i])
                is None by {
                if i > from {
                    assert(from + 1 <= i);
                }
            }
        }
    }
}

/// A configuration with a CA bundle, or with neither that nor pins nor a name for the Edge, is
/// accepted if and only if it has rules that are accepted and an Edge to connect to, and the
/// bundle is there. A bundle and pins together are refused.
pub proof fn law_connectors_have_rules_and_edges(
    c: ConnectorConfig,
    ca_exists: bool,
    i: int,
    rule: Result<(), String>,
    r: Result<(), String>,
)
    requires
        call_ensures(ConnectorConfig::validate, (&c, ca_exists), r),
        0 <= i < c.ingress@.len() ==> call_ensures(validate_rule, (&c.ingress@[i],), rule),
    ensures
        c.ingress@.len() == 0 || c.network.public_servers@.len() == 0 ==> r is Err,
        0 <= i < c.ingress@.len() && rule is Err ==> r is Err,
        c.network.edge_ca_cert is Some && (c.network.edge_cert_sha256@.len() > 0 || !ca_exists)
            ==> r is Err,
        c.ingress@.len() == 1 && i == 0 && rule is Ok && c.network.public_servers@.len() > 0
            && c.network.edge_cert_sha256@.len() == 0 && c.network.edge_server_name is None && (
        c.network.edge_ca_cert is None || ca_exists) ==> r is Ok,
{
    lemma_rules(c.ingress@, 0);
    if 0 <= i < c.ingress@.len() && rule is Err {
        assert(rule_fault(c.ingress@[i]) is Some);
    }
    if c.ingress@.len() == 1 && i == 0 && rule is Ok {
        assert forall|k: int| 0 <= k < c.ingress@.len() implies rule_fault(
            #[trigger] c.ingress@[k],
        ) is None by {
            assert(k == 0);
        }
    }
}

/// A pin is accepted if and only if it is 64 hexadecimal digits, whatever white space is around
/// it.
pub proof fn law_pins_are_digests(
    c: ConnectorConfig,
    i: int,
    pin: &str,
    trimmed: String,
    r: Result<(), String>,
)
    requires
        call_ensures(ConnectorConfig::validate, (&c, false), r),
        0 <= i < c.network.edge_cert_sha256@.len(),
        pin@ == c.network.edge_cert_sha256@[i]@,
        call_ensures(text::trim, (pin,), trimmed),
    ensures
        r is Ok ==> trimmed@.len() == 64 && forall|k: int|
            0 <= k < 64 ==> '0' <= (#[trigger] trimmed@[k]) <= '9' || 'a' <= trimmed@[k] <= 'f'
                || 'A' <= trimmed@[k] <= 'F',
{
    if r is Ok {
        assert(is_pin(c.network.edge_cert_sha256@[i]@));
        assert forall|k: int| 0 <= k < 64 implies '0' <= (#[trigger] trimmed@[k]) <= '9' || 'a'
            <= trimmed@[k] <= 'f' || 'A' <= trimmed@[k] <= 'F' by {
            assert(text::digit_value(trimmed@[k], 16) is Some);
        }
    }
}

/// It is noted where nothing verifies the Edge, and where the last rule is for one hostname only.
pub proof fn law_notes_tell_what_is_missing(c: ConnectorConfig, r: ConfigNotes)
    requires
        call_ensures(ConnectorConfig::notes, (&c,), r),
    ensures
        r.unverified_edge == (c.network.edge_ca_cert is None
            && c.network.edge_cert_sha256@.len() == 0),
        c.ingress@.len() > 0 ==> r.no_catch_all == c.ingress@[c.ingress@.len() - 1].hostname
            is Some,
        c.ingress@.len() == 0 ==> !r.no_catch_all,
{
}

} // verus!
