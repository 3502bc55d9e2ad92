//! Connecting to Edges: whom to trust, when to try again, what to do with a
//! connection's streams and datagrams.

use rustls::RootCertStore;
use vstd::prelude::*;
use vstd::string::*;
use vstd::utf8::*;
use crate::digest;
use crate::digest::sha256_hex;
use crate::hostname;
use crate::pki;
use crate::pki::{add_root, read_certificates};
use crate::text;
use crate::text::{lower, same_text, trim};
use crate::time::Duration;

verus! {

/// The first wait before a reconnect, in nanoseconds.
pub const INITIAL_BACKOFF: u128 = 1_000_000_000;

/// The longest wait before a reconnect, in nanoseconds.
pub const MAX_BACKOFF: u128 = 30_000_000_000;

/// An authenticated session that lasted this long (in nanoseconds) proves the
/// Edge usable, so the next reconnect starts over from the initial backoff.
/// Sessions that end sooner keep backing off, so that an Edge or middlebox
/// dropping Connectors right after authentication is not reconnected to every
/// second.
pub const STABLE_SESSION: u128 = 60_000_000_000;

/// Wait, in nanoseconds, after another Connector with the same token took over
/// this Edge connection. Reconnecting sooner would take it back and cut its
/// streams.
pub const REPLACED_RETRY_DELAY: u128 = 60_000_000_000;

/// Streams the Edge may open at once; it opens one per HTTP request and tunnel.
pub const MAX_INCOMING_STREAMS: u32 = 10_000;

/// Data the Edge may send on a connection beyond what was passed on to local
/// targets, over all streams together.
pub const RECEIVE_WINDOW: u32 = 134_217_728;

/// UDP datagrams forwarded to local targets at once; each holds a socket while
/// it waits for a reply, so datagrams beyond this are dropped.
pub const MAX_PENDING_UDP_FORWARDS: usize = 1024;

/// How the Edge's QUIC certificate is checked.
pub enum EdgeVerification {
    /// Verify against a CA bundle (recommended)
    Ca(RootCertStore),
    /// Accept only these certificate fingerprints
    Pinned(Vec<String>),
    /// No verification; only for migrating existing deployments
    Skip,
}

/// A configured CA bundle: where it is, and what reading it gave.
pub struct CaBundle {
    pub path: String,
    pub content: Result<Vec<u8>, String>,
}

/// The first section from `from` on that is no certificate to be trusted as a root.
pub open spec fn bundle_fault(
    sections: Seq<Result<Seq<u8>, Seq<char>>>,
    from: int,
) -> Option<Seq<char>>
    decreases sections.len() - from,
{
    if from >= sections.len() {
        None
    } else {
        match sections[from] {
            Err(e) => Some(e),
            Ok(der) => match pki::anchor_fault(der) {
                Some(e) => Some(e),
                None => bundle_fault(sections, from + 1),
            },
        }
    }
}

/// The certificates of a bundle without faults.
pub open spec fn bundle_roots(sections: Seq<Result<Seq<u8>, Seq<char>>>) -> Seq<Seq<u8>> {
    sections.map_values(|r: Result<Seq<u8>, Seq<char>>| r->Ok_0)
}

/// A fingerprint without white space around it, in lower case.
pub open spec fn clean_pin(pin: Seq<char>) -> Seq<char> {
    text::ascii_lower(text::trimmed(pin))
}

/// What reading a bundle gives: the roots, or what is wrong.
pub open spec fn bundle_outcome(ca: CaBundle) -> Result<Seq<Seq<u8>>, Seq<char>> {
    match ca.content {
        Err(e) => Err("cannot read "@ + ca.path@ + ": "@ + e@),
        Ok(pem) => {
            let sections = pki::pem_certificates(pem@);
            if bundle_fault(sections, 0) is Some {
                Err(bundle_fault(sections, 0)->0)
            } else if sections.len() == 0 {
                Err("no certificate found in "@ + ca.path@)
            } else {
                Ok(bundle_roots(sections))
            }
        },
    }
}

fn read_roots(pem: &Vec<u8>) -> (r: Result<RootCertStore, String>)
    ensures
        match r {
            Ok(store) => bundle_fault(pki::pem_certificates(pem@), 0) is None && pki::anchors(store)
                == bundle_roots(pki::pem_certificates(pem@)),
            Err(e) => bundle_fault(pki::pem_certificates(pem@), 0) == Some(e@),
        },
{
    let sections: Vec<Result<Vec<u8>, String>> = read_certificates(pem.as_slice());
    let ghost all = pki::section_views(sections@);
    let mut store: RootCertStore = RootCertStore::empty();
    let mut i: usize = 0;
    assert(bundle_roots(all.take(0)) =~= Seq::<Seq<u8>>::empty());
    while i < sections.len()
        invariant
            i <= sections.len(),
            all == pki::section_views(sections@),
            bundle_fault(all, 0) == bundle_fault(all, i as int),
            pki::anchors(store) == bundle_roots(all.take(i as int)),
        decreases sections.len() - i,
    {
        match &sections[i] {
            Err(e) => {
                return Err(e.clone());
            },
            Ok(der) => {
                assert(all[i as int] == Ok::<Seq<u8>, Seq<char>>(der@));
                match add_root(&mut store, der) {
                    Ok(_) => {},
                    Err(e) => {
                        return Err(e);
                    },
                }
                assert(bundle_roots(all.take(i + 1)) =~= bundle_roots(all.take(i as int)).push(der@));
            },
        }
        i += 1;
    }
    assert(all.take(i as int) == all);
    Ok(store)
}

impl EdgeVerification {
    /// Build from the `[network]` settings and the CA bundle, if one is configured.
    pub fn from_config(ca: Option<CaBundle>, pins: &[String]) -> (r: Result<Self, String>)
        ensures
            match ca {
                Some(bundle) => match r {
                    Ok(EdgeVerification::Ca(store)) => bundle_outcome(bundle) == Ok::<
                        Seq<Seq<u8>>,
                        Seq<char>,
                    >(pki::anchors(store)),
                    Ok(_) => false,
                    Err(e) => bundle_outcome(bundle) == Err::<Seq<Seq<u8>>, Seq<char>>(e@),
                },
                None => match r {
                    Ok(EdgeVerification::Ca(_)) => false,
                    Ok(EdgeVerification::Pinned(list)) => pins.len() > 0 && text::views(list@)
                        == text::views(pins@).map_values(|p: Seq<char>| clean_pin(p)),
                    Ok(EdgeVerification::Skip) => pins.len() == 0,
                    Err(_) => false,
                },
            },
    {
        if let Some(bundle) = ca {
            let pem: Vec<u8> = match bundle.content {
                Ok(pem) => pem,
                Err(e) => {
                    let mut m: String = "cannot read ".to_owned();
                    m.append(bundle.path.as_str());
                    m.append(": ");
                    m.append(e.as_str());
                    return Err(m);
                },
            };
            let store: RootCertStore = match read_roots(&pem) {
                Ok(store) => store,
                Err(e) => {
                    return Err(e);
                },
            };
            assert(bundle_roots(pki::pem_certificates(pem@)).len() == pki::pem_certificates(
                pem@,
            ).len());
            if store.is_empty() {
                return Err("no certificate found in ".to_owned().concat(bundle.path.as_str()));
            }
            return Ok(EdgeVerification::Ca(store));
        }
        if pins.len() > 0 {
            let mut list: Vec<String> = Vec::new();
            let ghost cleaned = text::views(pins@).map_values(|p: Seq<char>| clean_pin(p));
            let mut i: usize = 0;
            while i < pins.len()
                invariant
                    i <= pins.len(),
                    text::views(list@) == cleaned.take(i as int),
                    cleaned.len() == pins.len(),
                    forall|j: int| 0 <= j < pins.len() ==> cleaned[j] == clean_pin(
                        #[trigger] pins@[j]@,
                    ),
                decreases pins.len() - i,
            {
                let ghost before = list@;
                let pin: String = trim(pins[i].as_str());
                list.push(lower(pin.as_str()));
                i += 1;
                assert(text::views(list@) =~= text::views(before).push(clean_pin(pins@[i - 1]@)));
                assert(cleaned.take(i as int) =~= cleaned.take(i - 1).push(cleaned[i - 1]));
            }
            assert(cleaned.take(i as int) =~= cleaned);
            return Ok(EdgeVerification::Pinned(list));
        }
        Ok(EdgeVerification::Skip)
    }
}

/// The SHA-256 fingerprint of a certificate, in hexadecimal.
pub fn certificate_sha256(der: &[u8]) -> (r: String)
    ensures
        r@ == digest::hex(digest::sha256(der@)),
{
    sha256_hex(der)
}

/// Accepts only certificates whose SHA-256 fingerprint is pinned. Useful when the
/// Edge presents a self-signed certificate.
pub fn verify_pinned(pins: &Vec<String>, der: &[u8]) -> (r: Result<(), String>)
    ensures
        match r {
            Ok(_) => text::views(pins@).contains(digest::hex(digest::sha256(der@))),
            Err(e) => !text::views(pins@).contains(digest::hex(digest::sha256(der@))) && e@
                == "edge certificate "@ + digest::hex(digest::sha256(der@)) + " is not pinned"@,
        },
{
    let fingerprint: String = certificate_sha256(der);
    let mut i: usize = 0;
    while i < pins.len()
        invariant
            i <= pins.len(),
            forall|j: int| 0 <= j < i ==> (#[trigger] text::views(pins@)[j]) != fingerprint@,
        decreases pins.len() - i,
    {
        if same_text(pins[i].as_str(), fingerprint.as_str()) {
            assert(text::views(pins@)[i as int] == fingerprint@);
            return Ok(());
        }
        i += 1;
    }
    let mut m: String = "edge certificate ".to_owned();
    m.append(fingerprint.as_str());
    m.append(" is not pinned");
    Err(m)
}

/// The TLS server name of an Edge: the configured one, otherwise the host part
/// of its address.
pub open spec fn server_name_of(address: Seq<char>, configured: Option<Seq<char>>) -> Result<
    Seq<char>,
    Seq<char>,
> {
    match configured {
        Some(name) => Ok(name),
        None => match hostname::authority_parts(address) {
            Ok((host, _)) => Ok(host),
            Err(e) => Err("invalid server address "@ + address + ": "@ + e),
        },
    }
}

/// TLS server name for an Edge address: the configured override, otherwise the
/// host part of the address. Splitting on `:` would mangle every IPv6 literal.
pub fn tls_server_name(server_addr_str: &str, configured: Option<&str>) -> (r: Result<
    String,
    String,
>)
    ensures
        ({
            let expected = server_name_of(
                server_addr_str@,
                match configured {
                    Some(name) => Some(name@),
                    None => None,
                },
            );
            match r {
                Ok(name) => expected == Ok::<Seq<char>, Seq<char>>(name@),
                Err(e) => expected == Err::<Seq<char>, Seq<char>>(e@),
            }
        }),
{
    if let Some(name) = configured {
        return Ok(name.to_owned());
    }
    match hostname::split_authority(server_addr_str) {
        Ok((host, _)) => Ok(host.to_owned()),
        Err(e) => {
            let mut m: String = "invalid server address ".to_owned();
            m.append(server_addr_str);
            m.append(": ");
            m.append(e.text.as_str());
            Err(m)
        },
    }
}

/// A wait shortened by a random part of up to half.
pub open spec fn jittered_nanos(backoff: nat, random: nat) -> nat {
    backoff / 2 + (backoff / 2) * (random % 1024) / 1024
}

/// `backoff` shortened by a part of up to half, chosen by `random`.
pub fn jittered_by(backoff: Duration, random: u64) -> (r: Duration)
    requires
        backoff.nanos <= 0x1_0000_0000_0000_0000_0000_0000_0000,
    ensures
        r.nanos == jittered_nanos(backoff.nanos as nat, random as nat),
        backoff.nanos / 2 <= r.nanos <= backoff.nanos,
{
    let half: u128 = backoff.nanos / 2;
    let part: u128 = (random % 1024) as u128;
    proof {
        assert(half * part <= half * 1023 && half * part / 1024 <= half) by (nonlinear_arith)
            requires
                part <= 1023,
        ;
    }
    Duration { nanos: half + half * part / 1024 }
}

/// `BuildHasher::hash_one` of a fresh `std::collections::hash_map::RandomState`:
/// a number that its random seed decides.
#[verifier::external_body]
fn random_number() -> (r: u64) {
    std::hash::BuildHasher::hash_one(&std::collections::hash_map::RandomState::new(), 0u8)
}

/// `backoff` shortened by a random part of up to half, so that Connectors that
/// lost their Edge at the same moment do not all reconnect at the same moment.
pub fn jittered(backoff: Duration) -> (r: Duration)
    requires
        backoff.nanos <= 0x1_0000_0000_0000_0000_0000_0000_0000,
    ensures
        backoff.nanos / 2 <= r.nanos <= backoff.nanos,
        exists|random: nat| r.nanos == #[trigger] jittered_nanos(backoff.nanos as nat, random),
{
    jittered_by(backoff, random_number())
}

/// The server is known by the configured name, or else by the host of its address.
pub proof fn law_servers_are_known_by_their_host(
    address: &str,
    configured: Option<&str>,
    parts: Result<(&str, Option<u16>), hostname::HostnameError>,
    r: Result<String, String>,
)
    requires
        call_ensures(tls_server_name, (address, configured), r),
        call_ensures(hostname::split_authority, (address,), parts),
    ensures
        match configured {
            Some(name) => r is Ok && r->Ok_0@ == name@,
            None => (r is Ok) == (parts is Ok) && (r is Ok ==> r->Ok_0@ == parts->Ok_0.0@),
        },
{
}

/// A certificate is accepted if and only if its fingerprint is among the pins.
pub proof fn law_pinned_certificates_are_accepted(
    pins: Vec<String>,
    der: &[u8],
    fingerprint: String,
    r: Result<(), String>,
)
    requires
        call_ensures(verify_pinned, (&pins, der), r),
        call_ensures(certificate_sha256, (der,), fingerprint),
    ensures
        r is Ok == (exists|i: int| 0 <= i < pins@.len() && (#[trigger] pins@[i])@ == fingerprint@),
{
    let views = text::views(pins@);
    if views.contains(fingerprint@) {
        let i = views.index_of(fingerprint@);
        assert(pins@[i]@ == fingerprint@);
    }
    if exists|i: int| 0 <= i < pins@.len() && (#[trigger] pins@[i])@ == fingerprint@ {
        let i = choose|i: int| 0 <= i < pins@.len() && (#[trigger] pins@[i])@ == fingerprint@;
        assert(views[i] == fingerprint@);
    }
}

/// A CA bundle decides alone. Without one the pins decide, each without white space around it
/// and in lower case; without those nothing is verified.
pub proof fn law_verification_is_as_configured(
    ca: Option<CaBundle>,
    pins: &[String],
    r: Result<EdgeVerification, String>,
    i: int,
    pin: &str,
    trimmed: String,
    bare: &str,
    lowered: String,
)
    requires
        call_ensures(EdgeVerification::from_config, (ca, pins), r),
        0 <= i < pins@.len() ==> pin@ == pins@[i]@,
        call_ensures(text::trim, (pin,), trimmed),
        bare@ == trimmed@,
        call_ensures(text::lower, (bare,), lowered),
    ensures
        ca is Some && r is Ok ==> r->Ok_0 is Ca,
        ca is None && pins@.len() == 0 ==> r is Ok && r->Ok_0 is Skip,
        ca is None && pins@.len() > 0 ==> (r matches Ok(EdgeVerification::Pinned(list))
            && list@.len() == pins@.len()),
        ca is None && 0 <= i < pins@.len() ==> (r matches Ok(EdgeVerification::Pinned(list))
            && list@[i]@ == lowered@),
        ca matches Some(bundle) ==> (bundle.content is Err ==> r is Err),
{
    if ca is None && pins@.len() > 0 {
        let list = r->Ok_0->Pinned_0;
        let cleaned = text::views(pins@).map_values(|p: Seq<char>| clean_pin(p));
        assert(text::views(list@).len() == cleaned.len());
        if 0 <= i < pins@.len() {
            assert(text::views(list@)[i] == cleaned[i]);
            assert(text::views(pins@)[i] == pins@[i]@);
        }
    }
}

/// Jitter takes off at most half of the wait; more chance means a longer wait.
pub proof fn law_jitter_is_at_most_half(
    backoff: Duration,
    low: u64,
    high: u64,
    a: Duration,
    b: Duration,
)
    requires
        backoff.nanos <= 0x1_0000_0000_0000_0000_0000_0000_0000,
        low <= high < 1024,
        call_ensures(jittered_by, (backoff, low), a),
        call_ensures(jittered_by, (backoff, high), b),
    ensures
        backoff.nanos / 2 <= a.nanos <= b.nanos <= backoff.nanos,
        low == 0 ==> a.nanos == backoff.nanos / 2,
        low == 512 ==> a.nanos == backoff.nanos / 2 + backoff.nanos / 4,
{
    let half = backoff.nanos as nat / 2;
    assert(low as nat % 1024 == low as nat && high as nat % 1024 == high as nat);
    assert(half * (low as nat) <= half * (high as nat)) by (nonlinear_arith)
        requires
            low <= high,
    ;
    assert(half * 0 == 0) by (nonlinear_arith);
    assert(half * 512 / 1024 == half / 2) by (nonlinear_arith);
}

} // verus!
