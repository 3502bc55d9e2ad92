//! Request-level reverse proxy for the public HTTP listeners.
//!
//! Every request is validated and routed on its own normalized hostname, checked
//! against the traffic policy, then forwarded as HTTP/1.1 over a stream of its
//! own to the Connector.

use vstd::prelude::*;
use vstd::string::*;
use vstd::utf8::*;
use http::{HeaderMap, HeaderValue};
use tokio::sync::OwnedSemaphorePermit;
use crate::addr;
use crate::addr::{format_ip, parse_ip, IpAddr, SocketAddr};
use crate::concurrent;
use crate::edge::acme;
use crate::edge::acme::Http01Challenges;
use crate::edge::headers;
use crate::edge::headers::{
    field_text, field_values, header_tokens, insert_field, remove_field,
    valid_field_name, valid_field_value,
};
use crate::hostname;
use crate::hostname::{normalize_hostname, split_authority};
use crate::text;
use crate::text::{decimal_text, has_prefix, join_text, lower, same_text};

verus! {

#[derive(Debug, Clone, Copy, PartialEq, Eq, Structural)]
pub enum Scheme {
    Http,
    Https,
}

pub open spec fn scheme_name(s: Scheme) -> Seq<char> {
    match s {
        Scheme::Http => "http"@,
        Scheme::Https => "https"@,
    }
}

impl Scheme {
    pub fn as_str(self) -> (r: &'static str)
        ensures
            r@ == scheme_name(self),
    {
        match self {
            Scheme::Http => "http",
            Scheme::Https => "https",
        }
    }
}

/// Per-connection facts established before any request is read.
#[derive(Debug)]
pub struct ConnInfo {
    pub client_addr: SocketAddr,
    pub scheme: Scheme,
    /// Normalized TLS server name (HTTPS only)
    pub sni: Option<String>,
}

/// How to build X-Forwarded-* headers for a request.
#[derive(Debug, Clone, Copy)]
pub struct Forwarded {
    pub peer_ip: IpAddr,
    /// The peer is a trusted proxy, so its forwarding headers are extended, not replaced
    pub trusted_peer: bool,
}

/// What the traffic policy decided.
#[derive(Debug, Clone, Copy, PartialEq, Eq, Structural)]
pub enum Decision {
    Allow,
    Deny,
    RateLimited { retry_after_secs: u64 },
    Unavailable,
}

/// An early response produced by the proxy itself.
#[derive(Debug)]
pub struct Rejection {
    pub status: u16,
    pub reason: &'static str,
    pub retry_after_secs: Option<u64>,
}

/// A [`Rejection`] by the values that it holds.
pub struct RejectionView {
    pub status: u16,
    pub reason: Seq<char>,
    pub retry_after_secs: Option<u64>,
}

impl View for Rejection {
    type V = RejectionView;

    open spec fn view(&self) -> RejectionView {
        RejectionView {
            status: self.status,
            reason: self.reason@,
            retry_after_secs: self.retry_after_secs,
        }
    }
}

/// A rejection that does not say when to try again.
pub open spec fn rejected(status: u16, reason: Seq<char>) -> RejectionView {
    RejectionView { status, reason, retry_after_secs: None }
}

/// What a request is answered that the policy does not let through.
pub open spec fn decision_rejection(d: Decision) -> RejectionView {
    match d {
        Decision::RateLimited { retry_after_secs } => RejectionView {
            status: 429,
            reason: "rate limited by policy"@,
            retry_after_secs: Some(retry_after_secs),
        },
        Decision::Unavailable => rejected(503, "policy evaluation failed"@),
        Decision::Deny => rejected(403, "blocked by policy"@),
        Decision::Allow => rejected(403, "blocked by policy"@),
    }
}

/// A response with a text as its body.
#[derive(Debug)]
pub struct TextResponse {
    pub status: u16,
    pub content_type: &'static str,
    pub retry_after: Option<u64>,
    pub body: String,
}

/// The phrase that goes with a status code, where there is one.
pub uninterp spec fn status_phrase(status: u16) -> Option<Seq<char>>;

/// `http::StatusCode::from_u16` and `StatusCode::canonical_reason`: the phrase
/// that goes with a status code.
#[verifier::external_body]
pub(crate) fn canonical_reason(status: u16) -> (r: Option<String>)
    requires
        100 <= status < 1000,
    ensures
        text::opt_view(r) == status_phrase(status),
{
    let code = http::StatusCode::from_u16(status).expect("a status code");
    code.canonical_reason().map(String::from)
}

/// The body of a rejection.
pub open spec fn rejection_body(status: u16, phrase: Option<Seq<char>>) -> Seq<char> {
    text::decimal(status as nat) + " "@ + (match phrase {
        Some(p) => p,
        None => Seq::empty(),
    }) + "\n"@
}

/// The response to a rejected request, with the phrase of its status.
pub fn rejection_response(rejection: &Rejection, phrase: Option<String>) -> (r: TextResponse)
    ensures
        r.status == rejection.status,
        r.content_type@ == "text/plain; charset=utf-8"@,
        r.retry_after == rejection.retry_after_secs,
        r.body@ == rejection_body(rejection.status, text::opt_view(phrase)),
{
    let mut body: String = decimal_text(rejection.status as u64);
    body.append(" ");
    match phrase {
        Some(p) => body.append(p.as_str()),
        None => {
            assert(body@ + Seq::<char>::empty() =~= body@);
        },
    }
    body.append("\n");
    TextResponse {
        status: rejection.status,
        content_type: "text/plain; charset=utf-8",
        retry_after: rejection.retry_after_secs,
        body,
    }
}

impl Rejection {
    pub fn new(status: u16, reason: &'static str) -> (r: Self)
        ensures
            r@ == rejected(status, reason@),
    {
        Rejection { status, reason, retry_after_secs: None }
    }

    pub fn bad_request(reason: &'static str) -> (r: Self)
        ensures
            r@ == rejected(400, reason@),
    {
        Rejection::new(400, reason)
    }

    pub fn from_decision(decision: Decision) -> (r: Self)
        ensures
            r@ == decision_rejection(decision),
    {
        match decision {
            Decision::RateLimited { retry_after_secs } => Rejection {
                status: 429,
                reason: "rate limited by policy",
                retry_after_secs: Some(retry_after_secs),
            },
            Decision::Unavailable => Rejection::new(503, "policy evaluation failed"),
            Decision::Deny => Rejection::new(403, "blocked by policy"),
            Decision::Allow => Rejection::new(403, "blocked by policy"),
        }
    }

    pub fn into_response(self) -> (r: TextResponse)
        requires
            100 <= self.status < 1000,
        ensures
            r.status == self.status,
            r.content_type@ == "text/plain; charset=utf-8"@,
            r.retry_after == self.retry_after_secs,
            r.body@ == rejection_body(self.status, status_phrase(self.status)),
    {
        let phrase: Option<String> = canonical_reason(self.status);
        rejection_response(&self, phrase)
    }
}

/// What the proxy reads of a request before its body.
#[derive(Debug)]
pub struct RequestHead {
    pub method: String,
    /// Whether the request came as HTTP/1.1.
    pub http11: bool,
    /// The authority of the request target, where it has one.
    pub authority: Option<String>,
    pub path: String,
    /// Path and query of the request target, where it has one.
    pub path_and_query: Option<String>,
    pub headers: HeaderMap<HeaderValue>,
}

/// The authority that a request is addressed to: that of its target, or else of
/// its single host field; they must not contradict each other.
pub open spec fn addressed(
    target: Option<Seq<char>>,
    hosts: Seq<Seq<u8>>,
) -> Result<Seq<char>, RejectionView> {
    if hosts.len() > 1 {
        Err(rejected(400, "duplicate Host header"@))
    } else if hosts.len() == 1 && headers::value_text(hosts[0]) is None {
        Err(rejected(400, "invalid Host header"@))
    } else if target is Some {
        if hosts.len() == 1 && text::ascii_lower(target->0) != text::ascii_lower(
            headers::value_text(hosts[0])->0,
        ) {
            Err(rejected(400, "Host header does not match request authority"@))
        } else {
            Ok(target->0)
        }
    } else if hosts.len() == 1 {
        Ok(headers::value_text(hosts[0])->0)
    } else {
        Err(rejected(400, "missing Host header"@))
    }
}

/// A result of text or rejection, by values.
pub open spec fn text_result(r: Result<String, Rejection>) -> Result<Seq<char>, RejectionView> {
    match r {
        Ok(s) => Ok(s@),
        Err(e) => Err(e@),
    }
}

/// The field names that the proxy uses are field names in lower case.
proof fn lemma_known_names()
    ensures
        headers::is_field_name("host"@),
        text::ascii_lower("host"@) == "host"@,
        headers::is_field_name("cookie"@),
        text::ascii_lower("cookie"@) == "cookie"@,
        headers::is_field_name("connection"@),
        text::ascii_lower("connection"@) == "connection"@,
        headers::is_field_name("upgrade"@),
        text::ascii_lower("upgrade"@) == "upgrade"@,
        headers::is_field_name("x-forwarded-for"@),
        text::ascii_lower("x-forwarded-for"@) == "x-forwarded-for"@,
        headers::is_field_name("x-forwarded-proto"@),
        text::ascii_lower("x-forwarded-proto"@) == "x-forwarded-proto"@,
{
    reveal_strlit("host");
    reveal_strlit("cookie");
    reveal_strlit("connection");
    reveal_strlit("upgrade");
    reveal_strlit("x-forwarded-for");
    reveal_strlit("x-forwarded-proto");
    assert(text::ascii_lower("host"@) =~= "host"@);
    assert(text::ascii_lower("cookie"@) =~= "cookie"@);
    assert(text::ascii_lower("connection"@) =~= "connection"@);
    assert(text::ascii_lower("upgrade"@) =~= "upgrade"@);
    assert(text::ascii_lower("x-forwarded-for"@) =~= "x-forwarded-for"@);
    assert(text::ascii_lower("x-forwarded-proto"@) =~= "x-forwarded-proto"@);
}

/// The authority the client addressed: that of the request target or a single
/// Host header.
pub fn request_authority(req: &RequestHead) -> (r: Result<String, Rejection>)
    ensures
        text_result(r) == addressed(
            text::opt_view(req.authority),
            headers::listed(headers::fields(req.headers), "host"@),
        ),
{
    proof {
        lemma_known_names();
    }
    let hosts: Vec<Vec<u8>> = field_values(&req.headers, "host");
    let ghost values = headers::byte_views(hosts@);
    if hosts.len() > 1 {
        return Err(Rejection::bad_request("duplicate Host header"));
    }
    let mut host: Option<String> = None;
    if hosts.len() == 1 {
        assert(values[0] == hosts@[0]@);
        match field_text(&hosts[0]) {
            Some(t) => {
                host = Some(t);
            },
            None => {
                return Err(Rejection::bad_request("invalid Host header"));
            },
        }
    }
    match (&req.authority, host) {
        (Some(a), Some(h)) => {
            if !same_text(lower(a.as_str()).as_str(), lower(h.as_str()).as_str()) {
                return Err(
                    Rejection::bad_request("Host header does not match request authority"),
                );
            }
            Ok(a.clone())
        },
        (Some(a), None) => Ok(a.clone()),
        (None, Some(h)) => Ok(h),
        (None, None) => Err(Rejection::bad_request("missing Host header")),
    }
}

/// The normalized host of an authority: the usual text of an address, or a
/// hostname in normal form.
pub open spec fn host_of(authority: Seq<char>) -> Result<Seq<char>, RejectionView> {
    match hostname::authority_parts(authority) {
        Err(_) => Err(rejected(400, "invalid authority"@)),
        Ok((host, _)) => match addr::parsed_ip(host) {
            Some(ip) => Ok(addr::ip_text(ip)),
            None => match hostname::normalized(host, false, false) {
                Ok(name) => Ok(name),
                Err(_) => Err(rejected(400, "invalid host"@)),
            },
        },
    }
}

/// The hostname of an authority, on which the request is routed.
pub fn request_hostname(authority: &str) -> (r: Result<String, Rejection>)
    ensures
        text_result(r) == host_of(authority@),
{
    let host: &str = match split_authority(authority) {
        Ok((host, _)) => host,
        Err(_) => {
            return Err(Rejection::bad_request("invalid authority"));
        },
    };
    if let Some(ip) = parse_ip(host) {
        return Ok(format_ip(ip));
    }
    match normalize_hostname(host) {
        Ok(name) => Ok(name),
        Err(_) => Err(Rejection::bad_request("invalid host")),
    }
}

/// Whether a token is among others, in any case of letters.
pub open spec fn has_token(tokens: Seq<Seq<char>>, token: Seq<char>) -> bool {
    exists|i: int|
        0 <= i < tokens.len() && text::ascii_lower(#[trigger] tokens[i]) == text::ascii_lower(token)
}

/// The protocol that a request wants to change to: HTTP/1.1 only, and only where
/// the connection field says so.
pub open spec fn wanted_upgrade(http11: bool, m: Map<Seq<char>, Seq<Seq<u8>>>) -> Option<Seq<u8>> {
    if http11 && has_token(headers::tokens(headers::listed(m, "connection"@)), "upgrade"@)
        && headers::listed(m, "upgrade"@).len() > 0 {
        Some(headers::listed(m, "upgrade"@)[0])
    } else {
        None
    }
}

fn names_token(tokens: &Vec<String>, token: &str) -> (r: bool)
    ensures
        r == has_token(text::views(tokens@), token@),
{
    let ghost all = text::views(tokens@);
    let wanted: String = lower(token);
    let mut i: usize = 0;
    while i < tokens.len()
        invariant
            i <= tokens.len(),
            all == text::views(tokens@),
            wanted@ == text::ascii_lower(token@),
            forall|j: int| 0 <= j < i ==> text::ascii_lower(#[trigger] all[j]) != wanted@,
        decreases tokens.len() - i,
    {
        assert(all[i as int] == tokens@[i as int]@);
        if same_text(lower(tokens[i].as_str()).as_str(), wanted.as_str()) {
            return true;
        }
        i += 1;
    }
    false
}

/// The `Upgrade` protocol of an HTTP/1.1 upgrade request, if any.
pub fn upgrade_protocol(req: &RequestHead) -> (r: Option<Vec<u8>>)
    ensures
        (match r {
            Some(v) => Some(v@),
            None => None,
        }) == wanted_upgrade(req.http11, headers::fields(req.headers)),
        match r {
            Some(v) => headers::is_field_value(v@),
            None => true,
        },
{
    if !req.http11 {
        return None;
    }
    proof {
        lemma_known_names();
    }
    let tokens: Vec<String> = header_tokens(&req.headers, "connection");
    if !names_token(&tokens, "upgrade") {
        return None;
    }
    let mut values: Vec<Vec<u8>> = field_values(&req.headers, "upgrade");
    let ghost all = headers::byte_views(values@);
    if values.len() == 0 {
        return None;
    }
    assert(all[0] == values@[0]@);
    Some(values.remove(0))
}

fn drop_named(h: &mut HeaderMap<HeaderValue>, names: &Vec<String>)
    ensures
        headers::fields(*final(h)) == headers::without(
            headers::fields(*old(h)),
            headers::names_among(text::views(names@)),
        ),
{
    let ghost m = headers::fields(*h);
    let ghost all = text::views(names@);
    let mut i: usize = 0;
    assert(headers::fields(*h) =~= headers::without(m, headers::names_among(all.take(0))));
    while i < names.len()
        invariant
            i <= names.len() == all.len(),
            all == text::views(names@),
            headers::fields(*h) == headers::without(m, headers::names_among(all.take(i as int))),
        decreases names.len() - i,
    {
        let ghost before = headers::names_among(all.take(i as int));
        let ghost after = headers::names_among(all.take(i + 1));
        assert(all.take(i + 1).drop_last() =~= all.take(i as int));
        assert(all.take(i + 1).last() == names@[i as int]@);
        if valid_field_name(names[i].as_str()) {
            remove_field(h, names[i].as_str());
            let ghost k = text::ascii_lower(names@[i as int]@);
            assert(after == before.push(k));
            assert forall|x: Seq<char>| #[trigger]
                after.contains(x) == (before.contains(x) || x == k) by {
                if before.contains(x) {
                    let j = choose|j: int| 0 <= j < before.len() && before[j] == x;
                    assert(after[j] == x);
                }
                assert(after[before.len() as int] == k);
            }
            assert(headers::fields(*h) =~= headers::without(m, after));
        }
        i += 1;
    }
    assert(all.take(i as int) =~= all);
}

fn drop_field(h: &mut HeaderMap<HeaderValue>, name: &str)
    requires
        headers::is_field_name(name@),
        text::ascii_lower(name@) == name@,
    ensures
        headers::fields(*final(h)) == headers::fields(*old(h)).remove(name@),
{
    remove_field(h, name);
}

proof fn lemma_hop_names()
    ensures
        headers::is_field_name("keep-alive"@),
        text::ascii_lower("keep-alive"@) == "keep-alive"@,
        headers::is_field_name("proxy-connection"@),
        text::ascii_lower("proxy-connection"@) == "proxy-connection"@,
        headers::is_field_name("proxy-authenticate"@),
        text::ascii_lower("proxy-authenticate"@) == "proxy-authenticate"@,
        headers::is_field_name("proxy-authorization"@),
        text::ascii_lower("proxy-authorization"@) == "proxy-authorization"@,
        headers::is_field_name("te"@),
        text::ascii_lower("te"@) == "te"@,
        headers::is_field_name("trailer"@),
        text::ascii_lower("trailer"@) == "trailer"@,
        headers::is_field_name("transfer-encoding"@),
        text::ascii_lower("transfer-encoding"@) == "transfer-encoding"@,
{
    reveal_strlit("keep-alive");
    reveal_strlit("proxy-connection");
    reveal_strlit("proxy-authenticate");
    reveal_strlit("proxy-authorization");
    reveal_strlit("te");
    reveal_strlit("trailer");
    reveal_strlit("transfer-encoding");
    assert(text::ascii_lower("keep-alive"@) =~= "keep-alive"@);
    assert(text::ascii_lower("proxy-connection"@) =~= "proxy-connection"@);
    assert(text::ascii_lower("proxy-authenticate"@) =~= "proxy-authenticate"@);
    assert(text::ascii_lower("proxy-authorization"@) =~= "proxy-authorization"@);
    assert(text::ascii_lower("te"@) =~= "te"@);
    assert(text::ascii_lower("trailer"@) =~= "trailer"@);
    assert(text::ascii_lower("transfer-encoding"@) =~= "transfer-encoding"@);
}

/// Takes out the fields that must not be passed on.
pub fn strip_hop_by_hop(h: &mut HeaderMap<HeaderValue>)
    ensures
        headers::fields(*final(h)) == headers::end_to_end(headers::fields(*old(h))),
{
    proof {
        lemma_known_names();
        lemma_hop_names();
    }
    let ghost m = headers::fields(*h);
    let listed: Vec<String> = header_tokens(h, "connection");
    drop_named(h, &listed);
    drop_field(h, "connection");
    drop_field(h, "keep-alive");
    drop_field(h, "proxy-connection");
    drop_field(h, "proxy-authenticate");
    drop_field(h, "proxy-authorization");
    drop_field(h, "te");
    drop_field(h, "trailer");
    drop_field(h, "transfer-encoding");
    drop_field(h, "upgrade");
    assert(headers::fields(*h) =~= headers::end_to_end(m));
}

/// Field values one after the other, with a semicolon and a blank between them.
pub open spec fn joined_values(values: Seq<Seq<u8>>) -> Seq<u8>
    decreases values.len(),
{
    if values.len() == 0 {
        Seq::empty()
    } else {
        let before = joined_values(values.drop_last());
        if before.len() > 0 {
            before + seq![59u8, 32u8] + values.last()
        } else {
            values.last()
        }
    }
}

/// The fields with at most one cookie field.
pub open spec fn with_joined_cookies(m: Map<Seq<char>, Seq<Seq<u8>>>) -> Map<
    Seq<char>,
    Seq<Seq<u8>>,
> {
    if headers::listed(m, "cookie"@).len() > 1 {
        m.insert("cookie"@, seq![joined_values(m["cookie"@])])
    } else {
        m
    }
}

proof fn lemma_few_insert(m: Map<Seq<char>, Seq<Seq<u8>>>, n: nat, k: Seq<char>, v: Seq<Seq<u8>>)
    requires
        headers::few(m, n),
    ensures
        headers::few(m.insert(k, v), n + 1),
{
    assert(m.insert(k, v).dom() =~= m.dom().insert(k));
}

proof fn lemma_few_end_to_end(m: Map<Seq<char>, Seq<Seq<u8>>>, n: nat)
    requires
        headers::few(m, n),
    ensures
        headers::few(headers::end_to_end(m), n),
{
    assert(headers::end_to_end(m).dom().subset_of(m.dom()));
    vstd::set_lib::lemma_len_subset(headers::end_to_end(m).dom(), m.dom());
}

/// Join the `cookie` fields of a request into one. HTTP/2 clients send cookies
/// as separate fields, and an HTTP/1.1 backend may read only the first of them
/// (RFC 9113, section 8.2.3). Says whether the map had room for that.
pub fn join_cookie_fields(h: &mut HeaderMap<HeaderValue>) -> (r: bool)
    ensures
        headers::fields(*final(h)) == (if r {
            with_joined_cookies(headers::fields(*old(h)))
        } else {
            headers::fields(*old(h))
        }),
        headers::few(headers::fields(*old(h)), headers::SURE_FIELD_NAMES as nat) ==> r,
{
    proof {
        lemma_known_names();
    }
    let ghost m = headers::fields(*h);
    let values: Vec<Vec<u8>> = field_values(h, "cookie");
    let ghost all = headers::byte_views(values@);
    if values.len() < 2 {
        return true;
    }
    let mut joined: Vec<u8> = Vec::new();
    let mut i: usize = 0;
    assert(joined@ =~= joined_values(all.take(0)));
    while i < values.len()
        invariant
            i <= values.len() == all.len(),
            all == headers::byte_views(values@),
            joined@ == joined_values(all.take(i as int)),
            headers::is_field_value(joined@),
            forall|j: int| 0 <= j < values@.len() ==> headers::is_field_value(
                (#[trigger] values@[j])@,
            ),
        decreases values.len() - i,
    {
        let ghost before = joined@;
        assert(all.take(i + 1).drop_last() =~= all.take(i as int));
        assert(all.take(i + 1).last() == values@[i as int]@);
        assert(headers::is_field_value(values@[i as int]@));
        if joined.len() > 0 {
            joined.push(59);
            joined.push(32);
            assert(joined@ =~= before + seq![59u8, 32u8]);
        }
        let ghost start = joined@;
        joined.extend_from_slice(values[i].as_slice());
        assert(joined@ =~= start + values@[i as int]@);
        assert forall|k: int| 0 <= k < joined@.len() implies ((#[trigger] joined@[k]) >= 32
            && joined@[k] != 127) || joined@[k] == 9 by {
            if k < before.len() {
                assert(joined@[k] == before[k]);
            } else if k >= start.len() {
                assert(joined@[k] == values@[i as int]@[k - start.len()]);
            }
        }
        i += 1;
    }
    assert(all.take(i as int) =~= all);
    insert_field(h, "cookie", joined.as_slice())
}

/// The visible texts among field values.
pub open spec fn visible_texts(values: Seq<Seq<u8>>) -> Seq<Seq<char>>
    decreases values.len(),
{
    if values.len() == 0 {
        Seq::empty()
    } else {
        let before = visible_texts(values.drop_last());
        match headers::value_text(values.last()) {
            Some(t) => before.push(t),
            None => before,
        }
    }
}

/// The chain of addresses that a request came through: what a trusted proxy says
/// of it and the proxy's own address; otherwise only the address of the peer.
pub open spec fn forwarded_chain(f: Forwarded, values: Seq<Seq<u8>>) -> Seq<char> {
    let peer = addr::ip_text(f.peer_ip);
    let prior = visible_texts(values);
    if f.trusted_peer && prior.len() > 0 {
        text::join(prior, ", "@) + ", "@ + peer
    } else {
        peer
    }
}

/// The fields with the chain of addresses that a request came through.
pub open spec fn with_chain(m: Map<Seq<char>, Seq<Seq<u8>>>, f: Forwarded) -> Map<
    Seq<char>,
    Seq<Seq<u8>>,
> {
    let chain = forwarded_chain(f, headers::listed(m, "x-forwarded-for"@));
    m.insert("x-forwarded-for"@, seq![encode_utf8(chain)])
}

/// The fields with those that say where a request came from.
pub open spec fn with_forwarded(
    m: Map<Seq<char>, Seq<Seq<u8>>>,
    f: Forwarded,
    scheme: Scheme,
) -> Map<Seq<char>, Seq<Seq<u8>>> {
    let next = with_chain(m, f);
    if f.trusted_peer && m.contains_key("x-forwarded-proto"@) {
        next
    } else {
        next.insert("x-forwarded-proto"@, seq![encode_utf8(scheme_name(scheme))])
    }
}

/// Whether all characters of a text are visible ASCII characters, blanks or tabs.
spec fn plain(s: Seq<char>) -> bool {
    forall|i: int| 0 <= i < s.len() ==> (' ' <= #[trigger] s[i] <= '~' || s[i] == '\t')
}

proof fn lemma_plain_value(s: Seq<char>)
    requires
        plain(s),
    ensures
        headers::is_field_value(encode_utf8(s)),
{
    assert(is_ascii_chars(s));
    is_ascii_chars_encode_utf8(s);
    let b = encode_utf8(s);
    assert forall|i: int| 0 <= i < b.len() implies ((#[trigger] b[i]) >= 32 && b[i] != 127) || b[i]
        == 9 by {
        assert(b[i] == s[i] as u8);
        assert(' ' <= s[i] <= '~' || s[i] == '\t');
    }
}

proof fn lemma_plain_join(parts: Seq<Seq<char>>, sep: Seq<char>)
    requires
        forall|i: int| 0 <= i < parts.len() ==> plain(#[trigger] parts[i]),
        plain(sep),
    ensures
        plain(text::join(parts, sep)),
    decreases parts.len(),
{
    if parts.len() > 1 {
        lemma_plain_join(parts.drop_last(), sep);
        lemma_plain_join(parts.skip(1), sep);
        assert(plain(parts[0]));
        assert(plain(parts.last()));
    } else if parts.len() == 1 {
        assert(plain(parts[0]));
    }
}

proof fn lemma_visible_texts_plain(values: Seq<Seq<u8>>)
    ensures
        forall|i: int|
            0 <= i < visible_texts(values).len() ==> plain(#[trigger] visible_texts(values)[i]),
    decreases values.len(),
{
    if values.len() > 0 {
        lemma_visible_texts_plain(values.drop_last());
        let b = values.last();
        if headers::value_text(b) is Some {
            let t = headers::value_text(b)->0;
            assert forall|i: int| 0 <= i < t.len() implies (' ' <= #[trigger] t[i] <= '~' || t[i]
                == '\t') by {
                assert(headers::is_visible(b[i]));
            }
            assert(plain(t));
        }
        let before = visible_texts(values.drop_last());
        assert forall|i: int| 0 <= i < visible_texts(values).len() implies plain(
            #[trigger] visible_texts(values)[i],
        ) by {
            if i < before.len() {
                assert(plain(before[i]));
            }
        }
    }
}

proof fn lemma_address_plain(ip: IpAddr)
    ensures
        plain(addr::ip_text(ip)),
{
    addr::lemma_text_is_trimmed(ip);
    let s = addr::ip_text(ip);
    assert forall|i: int| 0 <= i < s.len() implies (' ' <= #[trigger] s[i] <= '~' || s[i] == '\t') by {
        assert(addr::addr_char(s[i]));
    }
}

fn visible(values: &Vec<Vec<u8>>) -> (r: Vec<String>)
    ensures
        text::views(r@) == visible_texts(headers::byte_views(values@)),
{
    let ghost all = headers::byte_views(values@);
    let mut out: Vec<String> = Vec::new();
    let mut i: usize = 0;
    assert(text::views(out@) =~= visible_texts(all.take(0)));
    while i < values.len()
        invariant
            i <= values.len() == all.len(),
            all == headers::byte_views(values@),
            text::views(out@) == visible_texts(all.take(i as int)),
        decreases values.len() - i,
    {
        let ghost before = text::views(out@);
        assert(all.take(i + 1).drop_last() =~= all.take(i as int));
        assert(all.take(i + 1).last() == values@[i as int]@);
        match field_text(&values[i]) {
            Some(t) => {
                out.push(t);
                assert(text::views(out@) =~= before.push(t@));
            },
            None => {},
        }
        i += 1;
    }
    assert(all.take(i as int) =~= all);
    out
}

/// Set X-Forwarded-For / X-Forwarded-Proto. Values supplied by untrusted peers
/// are replaced; a trusted proxy's chain is extended with the proxy's address. Says
/// whether the map had room for that; where it had not, the chain may be there
/// without the scheme.
pub fn apply_forwarded_headers(
    h: &mut HeaderMap<HeaderValue>,
    forwarded: Forwarded,
    scheme: Scheme,
) -> (r: bool)
    ensures
        r ==> headers::fields(*final(h)) == with_forwarded(
            headers::fields(*old(h)),
            forwarded,
            scheme,
        ),
        !r ==> headers::fields(*final(h)) == headers::fields(*old(h)) || headers::fields(*final(h))
            == with_chain(headers::fields(*old(h)), forwarded),
        headers::few(headers::fields(*old(h)), (headers::SURE_FIELD_NAMES + 10) as nat) ==> r,
{
    proof {
        lemma_known_names();
        reveal_strlit(", ");
        reveal_strlit("http");
        reveal_strlit("https");
    }
    let ghost m = headers::fields(*h);
    let peer: String = format_ip(forwarded.peer_ip);
    let values: Vec<Vec<u8>> = field_values(h, "x-forwarded-for");
    let prior: Vec<String> = visible(&values);
    let ghost said = visible_texts(headers::byte_views(values@));
    let mut chain: String = String::new();
    if forwarded.trusted_peer && prior.len() > 0 {
        chain = join_text(&prior, ", ");
        chain.append(", ");
    }
    let ghost start = chain@;
    chain.append(peer.as_str());
    proof {
        assert(Seq::<char>::empty() + peer@ =~= peer@);
        assert(chain@ == forwarded_chain(forwarded, headers::listed(m, "x-forwarded-for"@)));
        lemma_visible_texts_plain(headers::byte_views(values@));
        lemma_plain_join(said, ", "@);
        lemma_address_plain(forwarded.peer_ip);
        assert forall|i: int| 0 <= i < chain@.len() implies (' ' <= #[trigger] chain@[i] <= '~'
            || chain@[i] == '\t') by {
            if i < start.len() {
                assert(chain@[i] == start[i]);
            } else {
                assert(chain@[i] == peer@[i - start.len()]);
            }
        }
        lemma_plain_value(chain@);
        if headers::few(m, (headers::SURE_FIELD_NAMES + 10) as nat) {
            lemma_few_insert(
                m,
                (headers::SURE_FIELD_NAMES + 10) as nat,
                "x-forwarded-for"@,
                seq![encode_utf8(chain@)],
            );
        }
    }
    let has_proto: bool = field_values(h, "x-forwarded-proto").len() > 0;
    if !insert_field(h, "x-forwarded-for", chain.as_str().as_bytes()) {
        return false;
    }
    if forwarded.trusted_peer && has_proto {
        return true;
    }
    proof {
        lemma_plain_value(scheme_name(scheme));
    }
    insert_field(h, "x-forwarded-proto", scheme.as_str().as_bytes())
}

/// The text of the URI that a text stands for, if it is one.
pub uninterp spec fn uri_text(s: Seq<char>) -> Option<Seq<char>>;

/// `http::Uri::try_from` and its text: the URI that a text stands for.
#[verifier::external_body]
fn read_uri(s: &str) -> (r: Option<String>)
    ensures
        text::opt_view(r) == uri_text(s@),
{
    http::Uri::try_from(s).ok().map(|u| u.to_string())
}

/// A request as it goes to the backend, always as HTTP/1.1.
#[derive(Debug)]
pub struct BackendRequest {
    pub method: String,
    /// The request target in origin form.
    pub target: String,
    pub headers: HeaderMap<HeaderValue>,
}

/// Path and query of a request.
pub open spec fn origin_target(path_and_query: Option<Seq<char>>) -> Seq<char> {
    match path_and_query {
        Some(p) => p,
        None => "/"@,
    }
}

/// The fields of a request as it goes to the backend.
pub open spec fn backend_fields(
    m: Map<Seq<char>, Seq<Seq<u8>>>,
    authority: Seq<char>,
    scheme: Scheme,
    upgrade: Option<Seq<u8>>,
    forwarded: Option<Forwarded>,
) -> Map<Seq<char>, Seq<Seq<u8>>> {
    let own = with_joined_cookies(headers::end_to_end(m)).insert(
        "host"@,
        seq![encode_utf8(authority)],
    );
    let changed = match upgrade {
        Some(protocol) => own.insert("connection"@, seq![encode_utf8("upgrade"@)]).insert(
            "upgrade"@,
            seq![protocol],
        ),
        None => own,
    };
    match forwarded {
        Some(f) => with_forwarded(changed, f, scheme),
        None => changed,
    }
}

/// Why a request cannot go to the backend.
pub open spec fn backend_fault(target: Option<Seq<char>>, authority: Seq<char>) -> Option<
    RejectionView,
> {
    if target is None {
        Some(rejected(400, "invalid request target"@))
    } else if !headers::is_field_value(encode_utf8(authority)) {
        Some(rejected(400, "invalid authority"@))
    } else {
        None
    }
}

/// The rejection of a request that has no room for the fields that the backend gets
/// besides. When there is none depends on how the field names are hashed; there always
/// is with at most [`headers::SURE_FIELD_NAMES`] of them.
pub open spec fn overfull() -> RejectionView {
    rejected(431, "too many header fields"@)
}

/// The request as it goes to the backend, with the URI that its target stands for.
pub fn backend_request(
    req: RequestHead,
    target: Option<String>,
    authority: &str,
    scheme: Scheme,
    upgrade: Option<Vec<u8>>,
    forwarded: Option<Forwarded>,
) -> (r: Result<BackendRequest, Rejection>)
    requires
        upgrade is Some ==> headers::is_field_value(upgrade->0@),
    ensures
        match r {
            Ok(b) => {
                &&& backend_fault(text::opt_view(target), authority@) is None
                &&& b.method@ == req.method@
                &&& b.target@ == target->0@
                &&& headers::fields(b.headers) == backend_fields(
                    headers::fields(req.headers),
                    authority@,
                    scheme,
                    match upgrade {
                        Some(u) => Some(u@),
                        None => None,
                    },
                    forwarded,
                )
            },
            Err(e) => match backend_fault(text::opt_view(target), authority@) {
                Some(fault) => e@ == fault,
                None => e@ == overfull() && !headers::few(
                    headers::fields(req.headers),
                    headers::SURE_FIELD_NAMES as nat,
                ),
            },
        },
{
    let target: String = match target {
        Some(t) => t,
        None => {
            return Err(Rejection::bad_request("invalid request target"));
        },
    };
    if !valid_field_value(authority.as_bytes()) {
        return Err(Rejection::bad_request("invalid authority"));
    }
    let RequestHead { method, http11: _, authority: _, path: _, path_and_query: _, headers: h } =
        req;
    let mut h: HeaderMap<HeaderValue> = h;
    let ghost m = headers::fields(h);
    let ghost n = headers::SURE_FIELD_NAMES as nat;
    proof {
        lemma_known_names();
        if headers::few(m, n) {
            lemma_few_end_to_end(m, n);
        }
    }
    strip_hop_by_hop(&mut h);
    if !join_cookie_fields(&mut h) {
        return Err(Rejection::new(431, "too many header fields"));
    }
    proof {
        if headers::few(m, n) {
            let e = headers::end_to_end(m);
            lemma_few_insert(e, n, "cookie"@, seq![joined_values(e["cookie"@])]);
            lemma_few_insert(headers::fields(h), n + 1, "host"@, seq![encode_utf8(authority@)]);
        }
    }
    if !insert_field(&mut h, "host", authority.as_bytes()) {
        return Err(Rejection::new(431, "too many header fields"));
    }
    if let Some(protocol) = upgrade {
        proof {
            let f = headers::fields(h);
            let g = f.insert("connection"@, seq![encode_utf8("upgrade"@)]);
            reveal_strlit("upgrade");
            lemma_plain_value("upgrade"@);
            if headers::few(m, n) {
                lemma_few_insert(f, n + 2, "connection"@, seq![encode_utf8("upgrade"@)]);
                lemma_few_insert(g, n + 3, "upgrade"@, seq![protocol@]);
            }
        }
        if !insert_field(&mut h, "connection", "upgrade".as_bytes()) || !insert_field(
            &mut h,
            "upgrade",
            protocol.as_slice(),
        ) {
            return Err(Rejection::new(431, "too many header fields"));
        }
    }
    if let Some(f) = forwarded {
        if !apply_forwarded_headers(&mut h, f, scheme) {
            return Err(Rejection::new(431, "too many header fields"));
        }
    }
    Ok(BackendRequest { method, target, headers: h })
}

/// The request as it goes to the backend: HTTP/1.1 in origin form, with the
/// authority that the client addressed, and without what concerns only the
/// client's connection.
pub fn build_backend_request(
    req: RequestHead,
    authority: &str,
    scheme: Scheme,
    upgrade: Option<Vec<u8>>,
    forwarded: Option<Forwarded>,
) -> (r: Result<BackendRequest, Rejection>)
    requires
        upgrade is Some ==> headers::is_field_value(upgrade->0@),
    ensures
        ({
            let target = uri_text(origin_target(text::opt_view(req.path_and_query)));
            match r {
                Ok(b) => {
                    &&& backend_fault(target, authority@) is None
                    &&& b.method@ == req.method@
                    &&& b.target@ == target->0
                    &&& headers::fields(b.headers) == backend_fields(
                        headers::fields(req.headers),
                        authority@,
                        scheme,
                        match upgrade {
                            Some(u) => Some(u@),
                            None => None,
                        },
                        forwarded,
                    )
                },
                Err(e) => match backend_fault(target, authority@) {
                    Some(fault) => e@ == fault,
                    None => e@ == overfull() && !headers::few(
                        headers::fields(req.headers),
                        headers::SURE_FIELD_NAMES as nat,
                    ),
                },
            }
        }),
{
    let target: Option<String> = match &req.path_and_query {
        Some(p) => read_uri(p.as_str()),
        None => read_uri("/"),
    };
    backend_request(req, target, authority, scheme, upgrade, forwarded)
}

/// What becomes of a challenge request.
#[derive(Debug)]
pub enum ChallengeReply {
    Rejected(Rejection),
    /// The response for the token; the permit is given back once it was sent.
    Response(String, OwnedSemaphorePermit),
}

/// The reply to a challenge request, by whether there was a permit for it.
pub open spec fn challenge_reply(
    challenges: Http01Challenges,
    hostname: Seq<char>,
    method: Seq<char>,
    path: Seq<char>,
    permitted: bool,
) -> Result<Seq<char>, RejectionView> {
    let token = acme::path_token(path);
    if !permitted {
        Err(rejected(503, "too many challenge requests"@))
    } else if method != "GET"@ && method != "HEAD"@ {
        Err(rejected(405, "challenge requires GET"@))
    } else if token is Some && challenges.published().contains_key((hostname, token->0)) {
        Ok(challenges.published()[(hostname, token->0)])
    } else {
        Err(rejected(404, "unknown challenge token"@))
    }
}

impl ChallengeReply {
    /// The body of the response, or the rejection.
    pub open spec fn outcome(self) -> Result<Seq<char>, RejectionView> {
        match self {
            ChallengeReply::Rejected(e) => Err(e@),
            ChallengeReply::Response(body, _) => Ok(body@),
        }
    }
}

/// Answers a challenge request for which there is a permit or none. Only a response
/// keeps the permit for longer than the call.
pub fn permitted_response(
    challenges: &Http01Challenges,
    hostname: &str,
    req: &RequestHead,
    permit: Option<OwnedSemaphorePermit>,
) -> (r: ChallengeReply)
    ensures
        r.outcome() == challenge_reply(
            *challenges,
            hostname@,
            req.method@,
            req.path@,
            permit is Some,
        ),
        r matches ChallengeReply::Response(_, kept) ==> permit == Some(kept),
{
    let permit: OwnedSemaphorePermit = match permit {
        Some(permit) => permit,
        None => {
            return ChallengeReply::Rejected(Rejection::new(503, "too many challenge requests"));
        },
    };
    if !same_text(req.method.as_str(), "GET") && !same_text(req.method.as_str(), "HEAD") {
        return ChallengeReply::Rejected(Rejection::new(405, "challenge requires GET"));
    }
    let found: Option<String> = match Http01Challenges::token_from_path(req.path.as_str()) {
        Some(token) => challenges.lookup(hostname, token.as_str()),
        None => None,
    };
    match found {
        Some(body) => ChallengeReply::Response(body, permit),
        None => ChallengeReply::Rejected(Rejection::new(404, "unknown challenge token")),
    }
}

/// Answers a challenge request. Whether there is a permit for it depends on the
/// other requests.
pub fn challenge_response(
    challenges: &Http01Challenges,
    hostname: &str,
    req: &RequestHead,
) -> (r: ChallengeReply)
    ensures
        exists|permitted: bool|
            r.outcome() == #[trigger] challenge_reply(
                *challenges,
                hostname@,
                req.method@,
                req.path@,
                permitted,
            ),
        r matches ChallengeReply::Response(_, kept) ==> concurrent::source(kept)
            == challenges.budget(),
{
    permitted_response(challenges, hostname, req, challenges.try_acquire())
}

/// The authority and the hostname of a request that may be looked at further.
pub open spec fn admitted(
    method: Seq<char>,
    target: Option<Seq<char>>,
    hosts: Seq<Seq<u8>>,
    scheme: Scheme,
    sni: Option<Seq<char>>,
) -> Result<(Seq<char>, Seq<char>), RejectionView> {
    if method == "CONNECT"@ {
        Err(rejected(405, "CONNECT is not supported"@))
    } else {
        match addressed(target, hosts) {
            Err(e) => Err(e),
            Ok(authority) => match host_of(authority) {
                Err(e) => Err(e),
                Ok(name) => if scheme == Scheme::Https && sni != Some(name) {
                    Err(rejected(421, "host does not match TLS server name"@))
                } else {
                    Ok((authority, name))
                },
            },
        }
    }
}

/// Checks the request as far as that needs no route.
pub fn check_request(req: &RequestHead, info: &ConnInfo) -> (r: Result<(String, String), Rejection>)
    ensures
        (match r {
            Ok((authority, name)) => Ok((authority@, name@)),
            Err(e) => Err(e@),
        }) == admitted(
            req.method@,
            text::opt_view(req.authority),
            headers::listed(headers::fields(req.headers), "host"@),
            info.scheme,
            text::opt_view(info.sni),
        ),
{
    if same_text(req.method.as_str(), "CONNECT") {
        return Err(Rejection::new(405, "CONNECT is not supported"));
    }
    let authority: String = match request_authority(req) {
        Ok(a) => a,
        Err(e) => {
            return Err(e);
        },
    };
    let name: String = match request_hostname(authority.as_str()) {
        Ok(n) => n,
        Err(e) => {
            return Err(e);
        },
    };
    if info.scheme == Scheme::Https {
        let matches: bool = match &info.sni {
            Some(sni) => same_text(sni.as_str(), name.as_str()),
            None => false,
        };
        if !matches {
            return Err(Rejection::new(421, "host does not match TLS server name"));
        }
    }
    Ok((authority, name))
}

/// What has to be done next for a request.
#[derive(Debug)]
pub enum ProxyAction {
    /// Nothing more than to answer this.
    Reject(Rejection),
    /// Answer the challenge request for this hostname.
    AnswerChallenge { hostname: String },
    /// Find the route of this hostname.
    Route { hostname: String },
    /// Ask the policy, for the tenant that owns the hostname.
    Evaluate { tenant_id: String },
    /// Open a stream along the route.
    Open(BackendRequest),
    /// Begin HTTP on the stream.
    Handshake,
    /// Send the request and wait for the response header.
    Send,
    /// Pass the response on, without what concerns only the backend's connection.
    Respond,
    /// Pass the response on as it is and join the two connections.
    Upgrade,
}

/// What the last action gave.
#[derive(Debug)]
pub enum ProxyEvent {
    /// The tenant that owns the hostname, where there is a route.
    Routed(Option<String>),
    /// What the policy decided, whether that is enforced, and whether the peer is
    /// a trusted proxy.
    Judged { rejects: bool, decision: Decision, trusted_peer: bool },
    Opened(Result<(), OpenFailure>),
    Shaken(bool),
    Sent(SendOutcome),
}

/// Why no stream was opened.
#[derive(Debug, Clone, Copy, PartialEq, Eq, Structural)]
pub enum OpenFailure {
    TimedOut,
    Failed,
}

/// What came of sending a request.
#[derive(Debug, Clone, Copy, PartialEq, Eq, Structural)]
pub enum SendOutcome {
    /// A response with this status.
    Response(u16),
    Failed,
    TimedOut,
}

/// What is being waited for.
#[derive(Debug, Clone, Copy, PartialEq, Eq, Structural)]
pub enum ProxyPhase {
    Routing,
    Judging,
    Opening,
    Shaking,
    Sending,
    Done,
}

/// The work on one request that is not a challenge.
#[derive(Debug)]
pub struct ProxyRun {
    pub authority: String,
    pub scheme: Scheme,
    /// Who sent the request, with an IPv4 address not written as an IPv6 one.
    pub peer_ip: IpAddr,
    pub forwarded_headers: bool,
    /// Whether the client wants to change to another protocol.
    pub upgrading: bool,
    pub req: Option<RequestHead>,
    pub phase: ProxyPhase,
}

/// Whether an event can come in a phase.
pub open spec fn proxy_awaits(phase: ProxyPhase, event: ProxyEvent) -> bool {
    match phase {
        ProxyPhase::Routing => event is Routed,
        ProxyPhase::Judging => event is Judged,
        ProxyPhase::Opening => event is Opened,
        ProxyPhase::Shaking => event is Shaken,
        ProxyPhase::Sending => event is Sent,
        ProxyPhase::Done => false,
    }
}

/// The phase that an action leads to.
pub open spec fn proxy_phase(action: ProxyAction) -> ProxyPhase {
    match action {
        ProxyAction::Reject(_) => ProxyPhase::Done,
        ProxyAction::AnswerChallenge { .. } => ProxyPhase::Done,
        ProxyAction::Route { .. } => ProxyPhase::Routing,
        ProxyAction::Evaluate { .. } => ProxyPhase::Judging,
        ProxyAction::Open(_) => ProxyPhase::Opening,
        ProxyAction::Handshake => ProxyPhase::Shaking,
        ProxyAction::Send => ProxyPhase::Sending,
        ProxyAction::Respond => ProxyPhase::Done,
        ProxyAction::Upgrade => ProxyPhase::Done,
    }
}

/// An address, with an IPv4 address that is written as an IPv6 one (`::ffff:a.b.c.d`)
/// in its own form.
pub open spec fn canonical_ip(ip: IpAddr) -> IpAddr {
    match ip {
        IpAddr::V4(n) => ip,
        IpAddr::V6(n) => if addr::is_mapped(n as nat) {
            IpAddr::V4((n as nat % 0x1_0000_0000) as u32)
        } else {
            ip
        },
    }
}

fn to_canonical(ip: IpAddr) -> (r: IpAddr)
    ensures
        r == canonical_ip(ip),
{
    match ip {
        IpAddr::V4(_) => ip,
        IpAddr::V6(n) => if n / 0x1_0000_0000 == 0xffff {
            IpAddr::V4((n % 0x1_0000_0000) as u32)
        } else {
            ip
        },
    }
}

/// The address of a client.
pub open spec fn client_ip(a: SocketAddr) -> IpAddr {
    match a {
        SocketAddr::V4(ip, _) => IpAddr::V4(ip),
        SocketAddr::V6(ip, _, _) => IpAddr::V6(ip),
    }
}

/// Whether this is how the work on a request starts: the request is rejected, a
/// challenge that the Edge answers itself, or has to be routed. Only the challenge
/// path on hostnames that the Edge answers for is exempt from routing and policy, and
/// only without TLS.
pub open spec fn started(
    req: RequestHead,
    info: ConnInfo,
    challenges: Option<&Http01Challenges>,
    forwarded_headers: bool,
    run: ProxyRun,
    action: ProxyAction,
) -> bool {
    &&& run.phase == proxy_phase(action)
    &&& run.scheme == info.scheme
    &&& run.peer_ip == canonical_ip(client_ip(info.client_addr))
    &&& run.forwarded_headers == forwarded_headers
    &&& run.req == Some(req)
    &&& run.upgrading == (wanted_upgrade(req.http11, headers::fields(req.headers)) is Some)
    &&& match admitted(
        req.method@,
        text::opt_view(req.authority),
        headers::listed(headers::fields(req.headers), "host"@),
        info.scheme,
        text::opt_view(info.sni),
    ) {
        Err(e) => action is Reject && action->Reject_0@ == e,
        Ok((authority, name)) => {
            &&& run.authority@ == authority
            &&& if info.scheme == Scheme::Http && text::starts_with(
                req.path@,
                acme::challenge_path_prefix(),
            ) && challenges is Some && challenges->0.answers(name) {
                action is AnswerChallenge && action->AnswerChallenge_hostname@ == name
            } else {
                action is Route && action->Route_hostname@ == name
            }
        },
    }
}

impl ProxyRun {
    /// Looks at a request: it is rejected, a challenge that the Edge answers
    /// itself, or has to be routed. Only the challenge path on hostnames that the
    /// Edge answers for is exempt from routing and policy, and only without TLS.
    pub fn start(
        req: RequestHead,
        info: &ConnInfo,
        challenges: Option<&Http01Challenges>,
        forwarded_headers: bool,
    ) -> (r: (ProxyRun, ProxyAction))
        ensures
            started(req, *info, challenges, forwarded_headers, r.0, r.1),
            r.0.holds_request(),
    {
        let ip: IpAddr = match info.client_addr {
            SocketAddr::V4(ip, _) => IpAddr::V4(ip),
            SocketAddr::V6(ip, _, _) => IpAddr::V6(ip),
        };
        let admitted: Result<(String, String), Rejection> = check_request(&req, info);
        let upgrading: bool = upgrade_protocol(&req).is_some();
        let is_challenge: bool = info.scheme == Scheme::Http && has_prefix(
            req.path.as_str(),
            acme::challenge_prefix(),
        );
        let mut run: ProxyRun = ProxyRun {
            authority: String::new(),
            scheme: info.scheme,
            peer_ip: to_canonical(ip),
            forwarded_headers,
            upgrading,
            req: Some(req),
            phase: ProxyPhase::Done,
        };
        match admitted {
            Err(e) => (run, ProxyAction::Reject(e)),
            Ok((authority, hostname)) => {
                run.authority = authority;
                if is_challenge {
                    if let Some(c) = challenges {
                        if c.serves(hostname.as_str()) {
                            return (run, ProxyAction::AnswerChallenge { hostname });
                        }
                    }
                }
                run.phase = ProxyPhase::Routing;
                (run, ProxyAction::Route { hostname })
            },
        }
    }

    /// The fields that say where the request came from.
    pub open spec fn forwarding(self, trusted_peer: bool) -> Option<Forwarded> {
        if self.forwarded_headers {
            Some(Forwarded { peer_ip: self.peer_ip, trusted_peer })
        } else {
            None
        }
    }

    /// Whether the run still holds the request that it is about.
    pub open spec fn holds_request(self) -> bool {
        self.phase == ProxyPhase::Judging || self.phase == ProxyPhase::Routing ==> self.req is Some
    }

    /// Takes in what the last action gave and says what has to be done next. No
    /// stream is opened before the policy let the request through.
    pub fn step(&mut self, event: ProxyEvent) -> (r: ProxyAction)
        requires
            proxy_awaits(old(self).phase, event),
            old(self).holds_request(),
        ensures
            final(self).phase == proxy_phase(r),
            final(self).holds_request(),
            final(self).upgrading == old(self).upgrading,
            final(self).authority == old(self).authority,
            final(self).scheme == old(self).scheme,
            final(self).peer_ip == old(self).peer_ip,
            final(self).forwarded_headers == old(self).forwarded_headers,
            !(event is Judged) ==> final(self).req == old(self).req,
            match event {
                ProxyEvent::Routed(None) => r is Reject && r->Reject_0@ == rejected(
                    502,
                    "no route for hostname"@,
                ),
                ProxyEvent::Routed(Some(tenant)) => r is Evaluate && r->tenant_id@ == tenant@,
                ProxyEvent::Judged { rejects, decision, trusted_peer } => if rejects {
                    r is Reject && r->Reject_0@ == decision_rejection(decision)
                } else {
                    let req = old(self).req->0;
                    let target = uri_text(origin_target(text::opt_view(req.path_and_query)));
                    match backend_fault(target, old(self).authority@) {
                        Some(e) => r is Reject && r->Reject_0@ == e,
                        None => if r is Open {
                            &&& r->Open_0.method@ == req.method@
                            &&& r->Open_0.target@ == target->0
                            &&& headers::fields(r->Open_0.headers) == backend_fields(
                                headers::fields(req.headers),
                                old(self).authority@,
                                old(self).scheme,
                                wanted_upgrade(req.http11, headers::fields(req.headers)),
                                old(self).forwarding(trusted_peer),
                            )
                        } else {
                            r is Reject && r->Reject_0@ == overfull() && !headers::few(
                                headers::fields(req.headers),
                                headers::SURE_FIELD_NAMES as nat,
                            )
                        },
                    }
                },
                ProxyEvent::Opened(Ok(_)) => r is Handshake,
                ProxyEvent::Opened(Err(OpenFailure::TimedOut)) => r is Reject && r->Reject_0@
                    == rejected(504, "tunnel open timed out"@),
                ProxyEvent::Opened(Err(OpenFailure::Failed)) => r is Reject && r->Reject_0@
                    == rejected(502, "tunnel unavailable"@),
                ProxyEvent::Shaken(true) => r is Send,
                ProxyEvent::Shaken(false) => r is Reject && r->Reject_0@ == rejected(
                    502,
                    "backend handshake failed"@,
                ),
                ProxyEvent::Sent(SendOutcome::Failed) => r is Reject && r->Reject_0@ == rejected(
                    502,
                    "backend request failed"@,
                ),
                ProxyEvent::Sent(SendOutcome::TimedOut) => r is Reject && r->Reject_0@ == rejected(
                    504,
                    "backend response timed out"@,
                ),
                ProxyEvent::Sent(SendOutcome::Response(status)) => if status != 101 {
                    r is Respond
                } else if old(self).upgrading {
                    r is Upgrade
                } else {
                    r is Reject && r->Reject_0@ == rejected(502, "unexpected upgrade from backend"@)
                },
            },
    {
        let r: ProxyAction = match event {
            ProxyEvent::Routed(None) => ProxyAction::Reject(
                Rejection::new(502, "no route for hostname"),
            ),
            ProxyEvent::Routed(Some(tenant_id)) => ProxyAction::Evaluate { tenant_id },
            ProxyEvent::Judged { rejects, decision, trusted_peer } => {
                if rejects {
                    ProxyAction::Reject(Rejection::from_decision(decision))
                } else {
                    let mut taken: Option<RequestHead> = None;
                    std::mem::swap(&mut taken, &mut self.req);
                    match taken {
                        None => ProxyAction::Reject(Rejection::from_decision(decision)),
                        Some(req) => {
                            let upgrade: Option<Vec<u8>> = upgrade_protocol(&req);
                            let forwarded: Option<Forwarded> = if self.forwarded_headers {
                                Some(Forwarded { peer_ip: self.peer_ip, trusted_peer })
                            } else {
                                None
                            };
                            match build_backend_request(
                                req,
                                self.authority.as_str(),
                                self.scheme,
                                upgrade,
                                forwarded,
                            ) {
                                Ok(b) => ProxyAction::Open(b),
                                Err(e) => ProxyAction::Reject(e),
                            }
                        },
                    }
                }
            },
            ProxyEvent::Opened(Ok(_)) => ProxyAction::Handshake,
            ProxyEvent::Opened(Err(OpenFailure::TimedOut)) => ProxyAction::Reject(
                Rejection::new(504, "tunnel open timed out"),
            ),
            ProxyEvent::Opened(Err(OpenFailure::Failed)) => ProxyAction::Reject(
                Rejection::new(502, "tunnel unavailable"),
            ),
            ProxyEvent::Shaken(true) => ProxyAction::Send,
            ProxyEvent::Shaken(false) => ProxyAction::Reject(
                Rejection::new(502, "backend handshake failed"),
            ),
            ProxyEvent::Sent(SendOutcome::Failed) => ProxyAction::Reject(
                Rejection::new(502, "backend request failed"),
            ),
            ProxyEvent::Sent(SendOutcome::TimedOut) => ProxyAction::Reject(
                Rejection::new(504, "backend response timed out"),
            ),
            ProxyEvent::Sent(SendOutcome::Response(status)) => if status != 101 {
                ProxyAction::Respond
            } else if self.upgrading {
                ProxyAction::Upgrade
            } else {
                ProxyAction::Reject(Rejection::new(502, "unexpected upgrade from backend"))
            },
        };
        self.phase = match &r {
            ProxyAction::Reject(_) => ProxyPhase::Done,
            ProxyAction::AnswerChallenge { .. } => ProxyPhase::Done,
            ProxyAction::Route { .. } => ProxyPhase::Routing,
            ProxyAction::Evaluate { .. } => ProxyPhase::Judging,
            ProxyAction::Open(_) => ProxyPhase::Opening,
            ProxyAction::Handshake => ProxyPhase::Shaking,
            ProxyAction::Send => ProxyPhase::Sending,
            ProxyAction::Respond => ProxyPhase::Done,
            ProxyAction::Upgrade => ProxyPhase::Done,
        };
        r
    }
}

/// Whatever a client sends, a peer that is not a trusted proxy is named by its
/// own address, and the scheme is the one of the connection.
pub proof fn law_untrusted_peers_cannot_forge(
    m: Map<Seq<char>, Seq<Seq<u8>>>,
    authority: Seq<char>,
    scheme: Scheme,
    upgrade: Option<Seq<u8>>,
    peer_ip: IpAddr,
)
    ensures
        ({
            let sent = backend_fields(
                m,
                authority,
                scheme,
                upgrade,
                Some(Forwarded { peer_ip, trusted_peer: false }),
            );
            &&& headers::listed(sent, "x-forwarded-for"@) == seq![
                encode_utf8(addr::ip_text(peer_ip)),
            ]
            &&& headers::listed(sent, "x-forwarded-proto"@) == seq![
                encode_utf8(scheme_name(scheme)),
            ]
        }),
{
    reveal_strlit("x-forwarded-for");
    reveal_strlit("x-forwarded-proto");
    assert("x-forwarded-for"@.len() == 15);
    assert("x-forwarded-proto"@.len() == 17);
}

/// The backend sees the authority that the client addressed, once, and no field
/// that concerns only the client's connection, unless the client wants to change
/// to another protocol.
pub proof fn law_backend_sees_end_to_end_fields(
    m: Map<Seq<char>, Seq<Seq<u8>>>,
    authority: Seq<char>,
    scheme: Scheme,
    upgrade: Option<Seq<u8>>,
    forwarded: Option<Forwarded>,
    k: Seq<char>,
)
    ensures
        ({
            let sent = backend_fields(m, authority, scheme, upgrade, forwarded);
            &&& headers::listed(sent, "host"@) == seq![encode_utf8(authority)]
            &&& headers::is_hop_by_hop(k) && upgrade is None ==> !sent.contains_key(k)
            &&& headers::is_hop_by_hop(k) && sent.contains_key(k) ==> k == "connection"@ || k
                == "upgrade"@
        }),
{
    reveal_strlit("host");
    reveal_strlit("cookie");
    reveal_strlit("x-forwarded-for");
    reveal_strlit("x-forwarded-proto");
    reveal_strlit("connection");
    reveal_strlit("keep-alive");
    reveal_strlit("proxy-connection");
    reveal_strlit("proxy-authenticate");
    reveal_strlit("proxy-authorization");
    reveal_strlit("te");
    reveal_strlit("trailer");
    reveal_strlit("transfer-encoding");
    reveal_strlit("upgrade");
    assert("host"@[0] == 'h');
    assert("cookie"@[1] == 'o' && "cookie"@.len() == 6);
    assert("x-forwarded-for"@[0] == 'x');
    assert("x-forwarded-proto"@[0] == 'x');
    assert("connection"@[0] == 'c' && "connection"@.len() == 10);
    assert("keep-alive"@[0] == 'k');
    assert("proxy-connection"@[0] == 'p');
    assert("proxy-authenticate"@[0] == 'p');
    assert("proxy-authorization"@[0] == 'p');
    assert("te"@[0] == 't');
    assert("trailer"@[0] == 't');
    assert("transfer-encoding"@[0] == 't');
    assert("upgrade"@[0] == 'u');
}

/// A request without a Host field is addressed to the authority of its target; only one
/// that has neither is rejected for want of a Host.
pub proof fn law_target_names_the_authority(req: RequestHead, r: Result<String, Rejection>)
    requires
        call_ensures(request_authority, (&req,), r),
        !headers::fields(req.headers).contains_key("host"@),
    ensures
        match req.authority {
            Some(authority) => r is Ok && r->Ok_0@ == authority@,
            None => r is Err && r->Err_0.status == 400 && r->Err_0.reason@
                == "missing Host header"@,
        },
{
}

/// A request with one Host field is addressed to what the field says. Where its target
/// has an authority too, they have to be the same but for the case of letters.
pub proof fn law_host_field_names_the_authority(req: RequestHead, r: Result<String, Rejection>)
    requires
        call_ensures(request_authority, (&req,), r),
        headers::fields(req.headers).contains_key("host"@),
        headers::fields(req.headers)["host"@].len() == 1,
    ensures
        ({
            let host = headers::fields(req.headers)["host"@][0];
            let visible = forall|i: int|
                0 <= i < host.len() ==> (32 <= #[trigger] host[i] < 127 || host[i] == 9);
            let said = Seq::new(host.len(), |i: int| host[i] as char);
            match req.authority {
                Some(a) => if visible && text::same_letters(a@, said) {
                    r is Ok && r->Ok_0@ == a@
                } else {
                    r is Err && r->Err_0.status == 400
                },
                None => if visible {
                    r is Ok && r->Ok_0@ == said
                } else {
                    r is Err && r->Err_0.status == 400
                },
            }
        }),
{
    let host = headers::fields(req.headers)["host"@][0];
    assert((forall|i: int|
        0 <= i < host.len() ==> (32 <= #[trigger] host[i] < 127 || host[i] == 9)) == (forall|i: int|
        0 <= i < host.len() ==> headers::is_visible(#[trigger] host[i])));
    if req.authority is Some {
        text::lemma_same_letters(
            req.authority->0@,
            Seq::new(host.len(), |i: int| host[i] as char),
        );
    }
}

/// A request with more than one Host field is rejected, whatever its target says.
pub proof fn law_repeated_host_is_rejected(req: RequestHead, r: Result<String, Rejection>)
    requires
        call_ensures(request_authority, (&req,), r),
        headers::fields(req.headers).contains_key("host"@),
        headers::fields(req.headers)["host"@].len() > 1,
    ensures
        r is Err,
        r->Err_0.status == 400,
{
}

/// The names of the fields that the proxy treats by itself are all different.
proof fn lemma_names_differ()
    ensures
        "host"@.len() == 4,
        "cookie"@.len() == 6,
        "connection"@.len() == 10 && "connection"@[0] == 'c',
        "keep-alive"@.len() == 10 && "keep-alive"@[0] == 'k',
        "proxy-connection"@.len() == 16,
        "proxy-authenticate"@.len() == 18,
        "proxy-authorization"@.len() == 19,
        "te"@.len() == 2,
        "trailer"@.len() == 7 && "trailer"@[0] == 't',
        "transfer-encoding"@.len() == 17 && "transfer-encoding"@[0] == 't',
        "upgrade"@.len() == 7 && "upgrade"@[0] == 'u',
        "x-forwarded-for"@.len() == 15,
        "x-forwarded-proto"@.len() == 17 && "x-forwarded-proto"@[0] == 'x',
{
    reveal_strlit("host");
    reveal_strlit("cookie");
    reveal_strlit("connection");
    reveal_strlit("keep-alive");
    reveal_strlit("proxy-connection");
    reveal_strlit("proxy-authenticate");
    reveal_strlit("proxy-authorization");
    reveal_strlit("te");
    reveal_strlit("trailer");
    reveal_strlit("transfer-encoding");
    reveal_strlit("upgrade");
    reveal_strlit("x-forwarded-for");
    reveal_strlit("x-forwarded-proto");
}

/// The fields of one connection are gone after stripping: the usual ones, and those that the
/// Connection field names, whatever the case of the letters. Every other field stays as it is.
pub proof fn law_stripping_leaves_end_to_end_fields(
    h: &mut HeaderMap<HeaderValue>,
    named: Vec<String>,
    k: Seq<char>,
    i: int,
)
    requires
        call_ensures(strip_hop_by_hop, (h,), ()),
        call_ensures(header_tokens, (&*old(h), "connection"), named),
        forall|j: int| 0 <= j < k.len() ==> !('A' <= (#[trigger] k[j]) <= 'Z'),
    ensures
        headers::fields(*final(h)).contains_key(k) ==> headers::fields(*old(h)).contains_key(k)
            && headers::fields(*final(h))[k] == headers::fields(*old(h))[k],
        k == "connection"@ || k == "keep-alive"@ || k == "proxy-connection"@ || k
            == "proxy-authenticate"@ || k == "proxy-authorization"@ || k == "te"@ || k
            == "trailer"@ || k == "transfer-encoding"@ || k == "upgrade"@ ==> !headers::fields(
            *final(h),
        ).contains_key(k),
        0 <= i < named@.len() && headers::is_field_name(named@[i]@) && text::same_letters(
            named@[i]@,
            k,
        ) ==> !headers::fields(*final(h)).contains_key(k),
        headers::fields(*old(h)).contains_key(k) && k != "connection"@ && k != "keep-alive"@ && k
            != "proxy-connection"@ && k != "proxy-authenticate"@ && k != "proxy-authorization"@ && k
            != "te"@ && k != "trailer"@ && k != "transfer-encoding"@ && k != "upgrade"@ && (forall|
            j: int,
        |
            0 <= j < named@.len() ==> !text::same_letters((#[trigger] named@[j])@, k))
            ==> headers::fields(*final(h)).contains_key(k),
{
    lemma_known_names();
    let texts = text::views(named@);
    headers::lemma_names_among(texts, k);
    assert(text::ascii_lower(k) =~= k);
    assert(headers::tokens(headers::listed(headers::fields(*old(h)), "connection"@)) == texts);
    if 0 <= i < named@.len() {
        text::lemma_same_letters(named@[i]@, k);
        assert(texts[i] == named@[i]@);
    }
    if headers::names_among(texts).contains(k) {
        let j = choose|j: int|
            0 <= j < texts.len() && headers::is_field_name(#[trigger] texts[j]) && text::ascii_lower(
                texts[j],
            ) == k;
        assert(texts[j] == named@[j]@);
        text::lemma_same_letters(named@[j]@, k);
    }
}

/// A client changes to another protocol if and only if it speaks HTTP/1.1, says so in the
/// Connection field and names the protocol; the first protocol that it names is the one.
pub proof fn law_upgrades_are_asked_for(
    req: RequestHead,
    named: Vec<String>,
    r: Option<Vec<u8>>,
)
    requires
        call_ensures(upgrade_protocol, (&req,), r),
        call_ensures(header_tokens, (&req.headers, "connection"), named),
    ensures
        r is Some ==> req.http11 && headers::fields(req.headers).contains_key("upgrade"@) && r->0@
            == headers::fields(req.headers)["upgrade"@][0],
        r is Some ==> exists|i: int|
            0 <= i < named@.len() && text::same_letters((#[trigger] named@[i])@, "upgrade"@),
        req.http11 && headers::fields(req.headers).contains_key("upgrade"@) && headers::fields(
            req.headers,
        )["upgrade"@].len() > 0 && (exists|i: int|
            0 <= i < named@.len() && text::same_letters((#[trigger] named@[i])@, "upgrade"@))
            ==> r is Some,
{
    lemma_known_names();
    let texts = text::views(named@);
    assert(headers::tokens(headers::listed(headers::fields(req.headers), "connection"@)) == texts);
    assert forall|i: int| 0 <= i < named@.len() implies text::same_letters(
        (#[trigger] named@[i])@,
        "upgrade"@,
    ) == (text::ascii_lower(texts[i]) == text::ascii_lower("upgrade"@)) by {
        text::lemma_same_letters(named@[i]@, "upgrade"@);
    }
    if has_token(texts, "upgrade"@) {
        let i = choose|i: int|
            0 <= i < texts.len() && text::ascii_lower(#[trigger] texts[i]) == text::ascii_lower(
                "upgrade"@,
            );
        assert(text::same_letters(named@[i]@, "upgrade"@));
    }
    if exists|i: int|
        0 <= i < named@.len() && text::same_letters((#[trigger] named@[i])@, "upgrade"@) {
        let i = choose|i: int|
            0 <= i < named@.len() && text::same_letters((#[trigger] named@[i])@, "upgrade"@);
        assert(text::ascii_lower(texts[i]) == text::ascii_lower("upgrade"@));
    }
}

/// Cookie fields become one field. A further cookie is put behind the earlier ones with a
/// semicolon and a space between; a single one stays as it is, and so does every other field.
pub proof fn law_cookies_are_put_together(
    h: &mut HeaderMap<HeaderValue>,
    fewer: &mut HeaderMap<HeaderValue>,
    r: bool,
    less: bool,
    last: Seq<u8>,
    k: Seq<char>,
)
    requires
        call_ensures(join_cookie_fields, (h,), r),
        call_ensures(join_cookie_fields, (fewer,), less),
        r && less,
        headers::fields(*old(fewer)).contains_key("cookie"@),
        headers::fields(*old(fewer))["cookie"@].len() > 0,
        headers::fields(*old(fewer))["cookie"@][0].len() > 0,
        headers::fields(*old(h)) == headers::fields(*old(fewer)).insert(
            "cookie"@,
            headers::fields(*old(fewer))["cookie"@].push(last),
        ),
    ensures
        k != "cookie"@ ==> headers::fields(*final(h)).contains_key(k) == headers::fields(
            *old(h),
        ).contains_key(k),
        k != "cookie"@ ==> headers::fields(*final(h))[k] == headers::fields(*old(h))[k],
        headers::fields(*old(fewer))["cookie"@].len() == 1 ==> headers::fields(*final(fewer))
            == headers::fields(*old(fewer)),
        headers::fields(*final(fewer))["cookie"@].len() == 1,
        headers::fields(*final(h)).contains_key("cookie"@),
        headers::fields(*final(h))["cookie"@] == seq![
            headers::fields(*final(fewer))["cookie"@][0] + seq![59u8, 32u8] + last,
        ],
{
    let values = headers::fields(*old(fewer))["cookie"@];
    assert(values.push(last).drop_last() =~= values);
    lemma_joined_not_empty(values);
    reveal_with_fuel(joined_values, 2);
    if values.len() == 1 {
        assert(values.drop_last() =~= Seq::empty());
        assert(joined_values(values) == values[0]);
        assert(values =~= seq![values[0]]);
    }
}

proof fn lemma_joined_not_empty(values: Seq<Seq<u8>>)
    requires
        values.len() > 0,
        values[0].len() > 0,
    ensures
        joined_values(values).len() > 0,
    decreases values.len(),
{
    if values.len() > 1 {
        lemma_joined_not_empty(values.drop_last());
    } else {
        assert(values.drop_last() =~= Seq::empty());
        reveal_with_fuel(joined_values, 2);
    }
}

/// The hostname of a request is the host of its authority: an address in its usual text, or a
/// hostname in normal form. What has no such host is a bad request.
pub proof fn law_requests_name_a_host(
    authority: &str,
    parts: Result<(&str, Option<u16>), hostname::HostnameError>,
    ip: Option<IpAddr>,
    name: Result<String, hostname::HostnameError>,
    shown: String,
    r: Result<String, Rejection>,
)
    requires
        call_ensures(request_hostname, (authority,), r),
        call_ensures(split_authority, (authority,), parts),
        parts is Ok ==> call_ensures(parse_ip, (parts->Ok_0.0,), ip),
        parts is Ok ==> call_ensures(normalize_hostname, (parts->Ok_0.0,), name),
        ip is Some ==> call_ensures(format_ip, (ip->0,), shown),
    ensures
        r matches Err(e) ==> e.status == 400,
        parts is Err ==> r is Err,
        parts is Ok && ip is Some ==> r is Ok && r->Ok_0@ == shown@,
        parts is Ok && ip is None ==> (r is Ok) == (name is Ok),
        parts is Ok && ip is None && name is Ok ==> r->Ok_0@ == name->Ok_0@,
{
}

/// A request is taken up for the authority that it is addressed to and the host named there.
/// CONNECT is not, nor a request over TLS for another host than the connection was made for.
pub proof fn law_requests_are_taken_up_for_their_host(
    req: RequestHead,
    info: ConnInfo,
    authority: Result<String, Rejection>,
    host: &str,
    name: Result<String, Rejection>,
    r: Result<(String, String), Rejection>,
)
    requires
        call_ensures(check_request, (&req, &info), r),
        call_ensures(request_authority, (&req,), authority),
        authority is Ok ==> host@ == authority->Ok_0@,
        authority is Ok ==> call_ensures(request_hostname, (host,), name),
    ensures
        req.method@ == "CONNECT"@ ==> r is Err && r->Err_0.status == 405,
        req.method@ != "CONNECT"@ ==> match authority {
            Err(e) => r is Err && r->Err_0.status == e.status && r->Err_0.reason@ == e.reason@,
            Ok(a) => match name {
                Err(e) => r is Err && r->Err_0.status == e.status,
                Ok(n) => if info.scheme == Scheme::Https && (info.sni is None || info.sni->0@
                    != n@) {
                    r is Err && r->Err_0.status == 421
                } else {
                    r is Ok && r->Ok_0.0@ == a@ && r->Ok_0.1@ == n@
                },
            },
        },
{
    if req.method@ != "CONNECT"@ && authority is Err {
        assert(r->Err_0@ == authority->Err_0@);
    }
    if req.method@ != "CONNECT"@ && authority is Ok && name is Err {
        assert(r->Err_0@ == name->Err_0@);
    }
}

/// A request that is taken up is routed by its hostname, unless it asks over plain HTTP for a
/// challenge that the Edge answers itself. One that is not taken up is rejected for the reason
/// found.
pub proof fn law_requests_are_routed_by_hostname(
    req: RequestHead,
    info: ConnInfo,
    challenges: Option<&Http01Challenges>,
    forwarded_headers: bool,
    admission: Result<(String, String), Rejection>,
    upgrade: Option<Vec<u8>>,
    host: &str,
    served: bool,
    r: (ProxyRun, ProxyAction),
)
    requires
        call_ensures(ProxyRun::start, (req, &info, challenges, forwarded_headers), r),
        call_ensures(check_request, (&req, &info), admission),
        call_ensures(upgrade_protocol, (&req,), upgrade),
        admission is Ok ==> host@ == admission->Ok_0.1@,
        challenges is Some ==> call_ensures(Http01Challenges::serves, (challenges->0, host), served),
    ensures
        r.0.scheme == info.scheme,
        r.0.forwarded_headers == forwarded_headers,
        r.0.req == Some(req),
        r.0.upgrading == upgrade is Some,
        info.client_addr matches SocketAddr::V4(ip, _) ==> r.0.peer_ip == IpAddr::V4(ip),
        info.client_addr matches SocketAddr::V6(ip, _, _) ==> if ip as nat / 0x1_0000_0000
            == 0xffff {
            r.0.peer_ip is V4 && r.0.peer_ip->V4_0 as nat == ip as nat % 0x1_0000_0000
        } else {
            r.0.peer_ip == IpAddr::V6(ip)
        },
        match admission {
            Err(e) => r.1 is Reject && r.1->Reject_0.status == e.status && r.1->Reject_0.reason@
                == e.reason@ && r.0.phase is Done,
            Ok((authority, name)) => {
                let prefix = "/.well-known/acme-challenge/"@;
                &&& r.0.authority@ == authority@
                &&& if info.scheme == Scheme::Http && challenges is Some && served
                    && req.path@.len() >= prefix.len() && req.path@.take(prefix.len() as int)
                    == prefix {
                    r.1 is AnswerChallenge && r.1->AnswerChallenge_hostname@ == name@
                        && r.0.phase is Done
                } else {
                    r.1 is Route && r.1->Route_hostname@ == name@ && r.0.phase is Routing
                }
            },
        },
{
    if admission is Err {
        assert(r.1->Reject_0@ == admission->Err_0@);
    }
}

/// A routed request is judged, one that is allowed is opened as the backend is to see it, and
/// what the backend answers is passed on. Whatever goes wrong on the way is answered with the
/// status for it, and nothing more is done.
pub proof fn law_requests_go_step_by_step(
    run: &mut ProxyRun,
    event: ProxyEvent,
    r: ProxyAction,
    refusal: Rejection,
)
    requires
        proxy_awaits(old(run).phase, event),
        old(run).holds_request(),
        call_ensures(ProxyRun::step, (run, event), r),
        event is Judged ==> call_ensures(
            Rejection::from_decision,
            (event->Judged_decision,),
            refusal,
        ),
    ensures
        final(run).authority@ == old(run).authority@,
        final(run).scheme == old(run).scheme,
        final(run).upgrading == old(run).upgrading,
        match event {
            ProxyEvent::Routed(tenant) => match tenant {
                Some(t) => r is Evaluate && r->tenant_id@ == t@ && final(run).phase is Judging,
                None => r is Reject && r->Reject_0.status == 502 && final(run).phase is Done,
            },
            ProxyEvent::Judged { rejects, .. } => if rejects {
                r is Reject && r->Reject_0.status == refusal.status && r->Reject_0.retry_after_secs
                    == refusal.retry_after_secs && final(run).phase is Done
            } else {
                (r is Open && final(run).phase is Opening) || (r is Reject && (
                r->Reject_0.status == 400 || r->Reject_0.status == 431) && final(run).phase is Done)
            },
            ProxyEvent::Opened(Ok(_)) => r is Handshake && final(run).phase is Shaking,
            ProxyEvent::Opened(Err(OpenFailure::TimedOut)) => r is Reject && r->Reject_0.status
                == 504 && final(run).phase is Done,
            ProxyEvent::Opened(Err(OpenFailure::Failed)) => r is Reject && r->Reject_0.status == 502
                && final(run).phase is Done,
            ProxyEvent::Shaken(ready) => if ready {
                r is Send && final(run).phase is Sending
            } else {
                r is Reject && r->Reject_0.status == 502 && final(run).phase is Done
            },
            ProxyEvent::Sent(SendOutcome::Failed) => r is Reject && r->Reject_0.status == 502
                && final(run).phase is Done,
            ProxyEvent::Sent(SendOutcome::TimedOut) => r is Reject && r->Reject_0.status == 504
                && final(run).phase is Done,
            ProxyEvent::Sent(SendOutcome::Response(status)) => {
                &&& final(run).phase is Done
                &&& status != 101 ==> r is Respond
                &&& status == 101 && old(run).upgrading ==> r is Upgrade
                &&& status == 101 && !old(run).upgrading ==> r is Reject && r->Reject_0.status
                    == 502
            },
        },
        r is Reject && !(event is Judged) ==> r->Reject_0.retry_after_secs is None,
{
    if event is Judged && event->rejects {
        assert(r->Reject_0@ == refusal@);
    }
}

/// What is opened for an allowed request is the request as it is built for the backend, with
/// the forwarding that was asked for and the upgrade that the client wants.
pub proof fn law_allowed_requests_are_opened_as_built(
    run: &mut ProxyRun,
    event: ProxyEvent,
    r: ProxyAction,
    authority: &str,
    upgrade: Option<Vec<u8>>,
    built: Result<BackendRequest, Rejection>,
)
    requires
        event is Judged && !event->rejects,
        proxy_awaits(old(run).phase, event),
        old(run).holds_request(),
        call_ensures(ProxyRun::step, (run, event), r),
        authority@ == old(run).authority@,
        call_ensures(upgrade_protocol, (&old(run).req->0,), upgrade),
        call_ensures(
            build_backend_request,
            (
                old(run).req->0,
                authority,
                old(run).scheme,
                upgrade,
                if old(run).forwarded_headers {
                    Some(
                        Forwarded {
                            peer_ip: old(run).peer_ip,
                            trusted_peer: event->trusted_peer,
                        },
                    )
                } else {
                    None
                },
            ),
            built,
        ),
    ensures
        r is Open && built is Ok ==> {
            &&& r->Open_0.method@ == built->Ok_0.method@
            &&& r->Open_0.target@ == built->Ok_0.target@
            &&& headers::fields(r->Open_0.headers) == headers::fields(built->Ok_0.headers)
        },
        built is Err && built->Err_0.status == 400 ==> r is Reject && r->Reject_0.status == 400,
        built is Ok && headers::few(
            headers::fields(old(run).req->0.headers),
            headers::SURE_FIELD_NAMES as nat,
        ) ==> r is Open,
{
}

/// The backend gets the method as it is, the authority as the one Host, the protocol that the
/// client wants to change to, if any, and every other field as it is after stripping.
pub proof fn law_backend_gets_the_request(
    req: RequestHead,
    authority: &str,
    scheme: Scheme,
    upgrade: Option<Vec<u8>>,
    forwarded: Option<Forwarded>,
    r: Result<BackendRequest, Rejection>,
    stripped: &mut HeaderMap<HeaderValue>,
    k: Seq<char>,
)
    requires
        call_ensures(build_backend_request, (req, authority, scheme, upgrade, forwarded), r),
        upgrade is Some ==> headers::is_field_value(upgrade->0@),
        headers::fields(*old(stripped)) == headers::fields(req.headers),
        call_ensures(strip_hop_by_hop, (stripped,), ()),
    ensures
        r matches Err(e) ==> e.status == 400 || e.status == 431,
        r matches Ok(b) ==> {
            let before = headers::fields(*final(stripped));
            let sent = headers::fields(b.headers);
            &&& b.method@ == req.method@
            &&& sent.contains_key("host"@) && sent["host"@] == seq![encode_utf8(authority@)]
            &&& k != "host"@ && k != "cookie"@ && k != "connection"@ && k != "upgrade"@ && k
                != "x-forwarded-for"@ && k != "x-forwarded-proto"@ ==> sent.contains_key(k)
                == before.contains_key(k) && sent[k] == before[k]
            &&& sent.contains_key("cookie"@) == before.contains_key("cookie"@)
            &&& before.contains_key("cookie"@) && before["cookie"@].len() == 1 ==> sent["cookie"@]
                == before["cookie"@]
            &&& match upgrade {
                Some(protocol) => {
                    &&& sent.contains_key("upgrade"@) && sent["upgrade"@] == seq![protocol@]
                    &&& sent.contains_key("connection"@) && sent["connection"@] == seq![
                        encode_utf8("upgrade"@),
                    ]
                },
                None => !sent.contains_key("upgrade"@) && !sent.contains_key("connection"@),
            }
            &&& forwarded is None ==> {
                &&& sent.contains_key("x-forwarded-for"@) == before.contains_key(
                    "x-forwarded-for"@,
                )
                &&& sent["x-forwarded-for"@] == before["x-forwarded-for"@]
                &&& sent["x-forwarded-proto"@] == before["x-forwarded-proto"@]
            }
        },
{
    lemma_names_differ();
    if r is Ok {
        let b = r->Ok_0;
        let before = headers::fields(*final(stripped));
        let joined = with_joined_cookies(before);
        assert(joined.contains_key("cookie"@) == before.contains_key("cookie"@));
        assert(!before.contains_key("connection"@));
        assert(!before.contains_key("upgrade"@));
    }
}

/// A peer that is not a trusted proxy is named alone, with the scheme of its connection. A
/// trusted one is put behind those that it names itself, and the scheme that it gives stays.
/// No other field changes.
pub proof fn law_forwarding_names_the_peer(
    h: &mut HeaderMap<HeaderValue>,
    forwarded: Forwarded,
    scheme: Scheme,
    r: bool,
    shown: String,
    scheme_text: &'static str,
    prior: Seq<char>,
    k: Seq<char>,
)
    requires
        call_ensures(apply_forwarded_headers, (h, forwarded, scheme), r),
        r,
        call_ensures(format_ip, (forwarded.peer_ip,), shown),
        call_ensures(Scheme::as_str, (scheme,), scheme_text),
        forall|i: int| 0 <= i < prior.len() ==> ' ' <= (#[trigger] prior[i]) <= '~',
    ensures
        scheme_text@ == match scheme {
            Scheme::Http => "http"@,
            Scheme::Https => "https"@,
        },
        ({
            let before = headers::fields(*old(h));
            let after = headers::fields(*final(h));
            &&& after.contains_key("x-forwarded-for"@) && after.contains_key("x-forwarded-proto"@)
            &&& k != "x-forwarded-for"@ && k != "x-forwarded-proto"@ ==> after.contains_key(k)
                == before.contains_key(k) && after[k] == before[k]
            &&& !forwarded.trusted_peer || !before.contains_key("x-forwarded-for"@)
                ==> after["x-forwarded-for"@] == seq![encode_utf8(shown@)]
            &&& !forwarded.trusted_peer || !before.contains_key("x-forwarded-proto"@)
                ==> after["x-forwarded-proto"@] == seq![encode_utf8(scheme_text@)]
            &&& forwarded.trusted_peer && before.contains_key("x-forwarded-proto"@)
                ==> after["x-forwarded-proto"@] == before["x-forwarded-proto"@]
            &&& forwarded.trusted_peer && before.contains_key("x-forwarded-for"@)
                && before["x-forwarded-for"@] == seq![
                Seq::new(prior.len(), |i: int| prior[i] as u8),
            ] ==> after["x-forwarded-for"@] == seq![encode_utf8(prior + ", "@ + shown@)]
        }),
{
    lemma_names_differ();
    let before = headers::fields(*old(h));
    let bytes = Seq::new(prior.len(), |i: int| prior[i] as u8);
    assert(Seq::new(bytes.len(), |i: int| bytes[i] as char) =~= prior);
    assert(headers::value_text(bytes) == Some(prior));
    reveal_with_fuel(visible_texts, 2);
    if before.contains_key("x-forwarded-for"@) && before["x-forwarded-for"@] == seq![bytes] {
        assert(seq![bytes].drop_last() =~= Seq::empty());
        assert(visible_texts(before["x-forwarded-for"@]) =~= seq![prior]);
        assert(text::join(seq![prior], ", "@) == prior);
    }
    if !before.contains_key("x-forwarded-for"@) {
        assert(visible_texts(headers::listed(before, "x-forwarded-for"@)) =~= Seq::empty());
    }
}

/// A decision that does not let a request pass has its own status, and only a limit says when
/// to come back.
pub proof fn law_refusals_have_their_status(d: Decision, r: Rejection)
    requires
        call_ensures(Rejection::from_decision, (d,), r),
    ensures
        match d {
            Decision::RateLimited { retry_after_secs } => r.status == 429 && r.retry_after_secs
                == Some(retry_after_secs),
            Decision::Unavailable => r.status == 503 && r.retry_after_secs is None,
            Decision::Deny => r.status == 403 && r.retry_after_secs is None,
            Decision::Allow => r.status == 403 && r.retry_after_secs is None,
        },
{
}

/// The answer to a rejected request has its status, says when to come back if that is known,
/// and says no more than the status and its usual phrase.
pub proof fn law_rejections_are_answered_shortly(
    rejection: Rejection,
    phrase: Option<String>,
    r: TextResponse,
    direct: TextResponse,
)
    requires
        100 <= rejection.status < 1000,
        call_ensures(rejection_response, (&rejection, phrase), r),
        call_ensures(Rejection::into_response, (rejection,), direct),
        text::opt_view(phrase) == status_phrase(rejection.status),
    ensures
        r.status == rejection.status,
        r.retry_after == rejection.retry_after_secs,
        r.body@ == text::decimal(rejection.status as nat) + seq![' '] + (match phrase {
            Some(p) => p@,
            None => Seq::empty(),
        }) + seq!['\n'],
        direct.status == r.status,
        direct.retry_after == r.retry_after,
        direct.body@ == r.body@,
        direct.content_type@ == r.content_type@,
{
    reveal_strlit(" ");
    reveal_strlit("\n");
    assert(" "@ =~= seq![' ']);
    assert("\n"@ =~= seq!['\n']);
}

/// A challenge is answered with what was published for its hostname and the token at the end
/// of its path, and with nothing else; a request in excess of the budget, or one that would
/// change something, gets no answer at all.
pub proof fn law_challenges_are_answered_as_published(
    challenges: Http01Challenges,
    hostname: &str,
    req: RequestHead,
    path: &str,
    token: Option<String>,
    key: &str,
    found: Option<String>,
    permit: Option<OwnedSemaphorePermit>,
    r: ChallengeReply,
)
    requires
        call_ensures(permitted_response, (&challenges, hostname, &req, permit), r),
        path@ == req.path@,
        call_ensures(Http01Challenges::token_from_path, (path,), token),
        token is Some ==> key@ == token->0@,
        token is Some ==> call_ensures(Http01Challenges::lookup, (&challenges, hostname, key), found),
    ensures
        match r {
            ChallengeReply::Response(body, _) => permit is Some && (req.method@ == "GET"@
                || req.method@ == "HEAD"@) && token is Some && found is Some && body@ == found->0@,
            ChallengeReply::Rejected(e) => {
                &&& permit is None ==> e.status == 503
                &&& permit is Some && req.method@ != "GET"@ && req.method@ != "HEAD"@ ==> e.status
                    == 405
                &&& permit is Some && (req.method@ == "GET"@ || req.method@ == "HEAD"@) ==> e.status
                    == 404 && (token is None || found is None)
            },
        },
{
}

/// The backend is asked for the path and query that the client asked for, or for the root when
/// it named none; what is no URI, or an authority that is no field value, is refused.
pub proof fn law_backend_is_asked_for_the_same_path(
    req: RequestHead,
    authority: &str,
    scheme: Scheme,
    upgrade: Option<Vec<u8>>,
    forwarded: Option<Forwarded>,
    r: Result<BackendRequest, Rejection>,
    given: Result<BackendRequest, Rejection>,
    target: Option<String>,
)
    requires
        upgrade is Some ==> headers::is_field_value(upgrade->0@),
        call_ensures(build_backend_request, (req, authority, scheme, upgrade, forwarded), r),
        call_ensures(backend_request, (req, target, authority, scheme, upgrade, forwarded), given),
    ensures
        r matches Ok(b) ==> {
            &&& req.path_and_query matches Some(p) ==> uri_text(p@) == Some(b.target@)
            &&& req.path_and_query is None ==> uri_text("/"@) == Some(b.target@)
        },
        req.path_and_query matches Some(p) ==> (uri_text(p@) is None ==> r is Err
            && r->Err_0.status == 400),
        target is None ==> given is Err && given->Err_0.status == 400,
        given matches Ok(b) ==> b.target@ == target->0@ && b.method@ == req.method@,
        !headers::is_field_value(encode_utf8(authority@)) ==> r is Err && r->Err_0.status == 400
            && given is Err,
{
    assert(r is Err ==> r->Err_0@.status == r->Err_0.status);
    assert(given is Err ==> given->Err_0@.status == given->Err_0.status);
}

} // verus!
