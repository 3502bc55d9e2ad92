//! Matching requests against the ingress rules.

use vstd::prelude::*;
use vstd::string::*;
use crate::config;
use crate::config::{IngressRule, Protocol, Target};
use crate::error::{ErrorView, SieveTubeError};
use crate::protocol::ServiceAdvertisement;
use crate::text;
use crate::text::{lower, same_text};

verus! {

pub struct IngressMatcher {
    pub rules: Vec<IngressRule>,
}

/// Whether a rule applies to a request: its hostname, if it has one, is the
/// request's up to ASCII letter case, and its protocol, if any, is the request's.
pub open spec fn applies(rule: IngressRule, hostname: Seq<char>, protocol: Protocol) -> bool {
    &&& match rule.hostname {
        Some(h) => text::ascii_lower(h@) == text::ascii_lower(hostname),
        None => true,
    }
    &&& match rule.protocol {
        Some(p) => p == protocol,
        None => true,
    }
}

/// The first rule at or after `from` that applies to a request.
pub open spec fn first_match(
    rules: Seq<IngressRule>,
    hostname: Seq<char>,
    protocol: Protocol,
    from: int,
) -> Option<int>
    decreases rules.len() - from,
{
    if from >= rules.len() {
        None
    } else if applies(rules[from], hostname, protocol) {
        Some(from)
    } else {
        first_match(rules, hostname, protocol, from + 1)
    }
}

/// Where a request goes: the target of the first rule that applies.
pub open spec fn routed(
    rules: Seq<IngressRule>,
    hostname: Seq<char>,
    protocol: Protocol,
) -> Result<Target, ErrorView> {
    match first_match(rules, hostname, protocol, 0) {
        Some(i) => match config::parsed_target(rules[i].target@) {
            Ok(target) => Ok(target),
            Err(e) => Err(ErrorView::Config(e)),
        },
        None => Err(ErrorView::NoIngressMatch(hostname, config::protocol_name(protocol))),
    }
}

/// Whether the rules can serve a protocol for a hostname. A status code only
/// serves HTTP.
pub open spec fn usable(rules: Seq<IngressRule>, hostname: Seq<char>, protocol: Protocol) -> bool {
    match routed(rules, hostname, protocol) {
        Ok(Target::Address(_)) => true,
        Ok(Target::HttpStatus(_)) => protocol == Protocol::Http,
        Err(_) => false,
    }
}

/// The protocols that the rules can serve for a hostname, in a fixed order.
pub open spec fn usable_protocols(rules: Seq<IngressRule>, hostname: Seq<char>) -> Seq<Protocol> {
    seq![Protocol::Http, Protocol::Tcp, Protocol::Udp].filter(|p: Protocol| usable(rules, hostname, p))
}

impl IngressMatcher {
    pub fn new(rules: Vec<IngressRule>) -> (r: Self)
        ensures
            r.rules == rules,
    {
        IngressMatcher { rules }
    }

    fn rule_applies(&self, index: usize, hostname: &str, protocol: Protocol) -> (r: bool)
        requires
            index < self.rules.len(),
        ensures
            r == applies(self.rules@[index as int], hostname@, protocol),
    {
        let rule: &IngressRule = &self.rules[index];
        let hostname_matches: bool = match &rule.hostname {
            Some(h) => same_text(lower(h.as_str()).as_str(), lower(hostname).as_str()),
            None => true,
        };
        let protocol_matches: bool = match rule.protocol {
            Some(p) => p == protocol,
            None => true,
        };
        hostname_matches && protocol_matches
    }

    /// Evaluate rules top-to-bottom; return the Target for the first match.
    pub fn match_request(&self, hostname: &str, protocol: Protocol) -> (r: Result<
        Target,
        SieveTubeError,
    >)
        ensures
            match r {
                Ok(t) => routed(self.rules@, hostname@, protocol) == Ok::<Target, ErrorView>(t),
                Err(e) => routed(self.rules@, hostname@, protocol) == Err::<Target, ErrorView>(e@),
            },
    {
        let mut i: usize = 0;
        while i < self.rules.len()
            invariant
                i <= self.rules.len(),
                first_match(self.rules@, hostname@, protocol, 0) == first_match(
                    self.rules@,
                    hostname@,
                    protocol,
                    i as int,
                ),
            decreases self.rules.len() - i,
        {
            if self.rule_applies(i, hostname, protocol) {
                return match Target::parse(self.rules[i].target.as_str()) {
                    Ok(target) => Ok(target),
                    Err(e) => Err(SieveTubeError::Config(e)),
                };
            }
            i += 1;
        }
        Err(
            SieveTubeError::NoIngressMatch {
                hostname: hostname.to_owned(),
                protocol: protocol.as_str().to_owned(),
            },
        )
    }

    fn serves(&self, hostname: &str, protocol: Protocol) -> (r: bool)
        ensures
            r == usable(self.rules@, hostname@, protocol),
    {
        match self.match_request(hostname, protocol) {
            Ok(Target::Address(_)) => true,
            Ok(Target::HttpStatus(_)) => protocol == Protocol::Http,
            Err(_) => false,
        }
    }

    fn protocols(&self, hostname: &str) -> (r: Vec<Protocol>)
        ensures
            r@ == usable_protocols(self.rules@, hostname@),
    {
        let mut r: Vec<Protocol> = Vec::new();
        if self.serves(hostname, Protocol::Http) {
            r.push(Protocol::Http);
        }
        if self.serves(hostname, Protocol::Tcp) {
            r.push(Protocol::Tcp);
        }
        if self.serves(hostname, Protocol::Udp) {
            r.push(Protocol::Udp);
        }
        proof {
            let keep = |p: Protocol| usable(self.rules@, hostname@, p);
            let all = seq![Protocol::Http, Protocol::Tcp, Protocol::Udp];
            reveal_with_fuel(Seq::filter, 4);
            assert(all.drop_last() =~= seq![Protocol::Http, Protocol::Tcp]);
            assert(all.drop_last().drop_last() =~= seq![Protocol::Http]);
            assert(all.drop_last().drop_last().drop_last() =~= Seq::<Protocol>::empty());
            assert(all.filter(keep) =~= r@);
        }
        r
    }

    /// Protocols that have a usable ingress rule for each hostname. A status-code
    /// target only counts for HTTP, since it cannot answer raw TCP or UDP traffic.
    pub fn services(&self, hostnames: &[String]) -> (r: Vec<ServiceAdvertisement>)
        ensures
            r.len() == hostnames.len(),
            forall|i: int|
                0 <= i < r.len() ==> (#[trigger] r@[i]).hostname@ == hostnames@[i]@
                    && r@[i].protocols@ == usable_protocols(self.rules@, hostnames@[i]@),
    {
        let mut r: Vec<ServiceAdvertisement> = Vec::new();
        let mut i: usize = 0;
        while i < hostnames.len()
            invariant
                i <= hostnames.len(),
                r.len() == i,
                forall|j: int|
                    0 <= j < i ==> (#[trigger] r@[j]).hostname@ == hostnames@[j]@
                        && r@[j].protocols@ == usable_protocols(self.rules@, hostnames@[j]@),
            decreases hostnames.len() - i,
        {
            let hostname: &String = &hostnames[i];
            r.push(
                ServiceAdvertisement {
                    hostname: hostname.clone(),
                    protocols: self.protocols(hostname.as_str()),
                },
            );
            i += 1;
        }
        r
    }
}

/// First match wins: a rule that applies decides the request whatever the rules
/// below it say.
pub proof fn law_first_match_wins(
    rules: Seq<IngressRule>,
    more: Seq<IngressRule>,
    hostname: Seq<char>,
    protocol: Protocol,
)
    requires
        first_match(rules, hostname, protocol, 0) is Some,
    ensures
        routed(rules + more, hostname, protocol) == routed(rules, hostname, protocol),
{
    lemma_match_kept(rules, more, hostname, protocol, 0);
    lemma_match_in_range(rules, hostname, protocol, 0);
}

proof fn lemma_match_kept(
    rules: Seq<IngressRule>,
    more: Seq<IngressRule>,
    hostname: Seq<char>,
    protocol: Protocol,
    from: int,
)
    requires
        0 <= from,
        first_match(rules, hostname, protocol, from) is Some,
    ensures
        first_match(rules + more, hostname, protocol, from) == first_match(
            rules,
            hostname,
            protocol,
            from,
        ),
    decreases rules.len() - from,
{
    if !applies(rules[from], hostname, protocol) {
        lemma_match_kept(rules, more, hostname, protocol, from + 1);
    }
}

proof fn lemma_match_in_range(
    rules: Seq<IngressRule>,
    hostname: Seq<char>,
    protocol: Protocol,
    from: int,
)
    requires
        0 <= from,
    ensures
        match first_match(rules, hostname, protocol, from) {
            Some(i) => from <= i < rules.len() && applies(rules[i], hostname, protocol)
                && forall|j: int| from <= j < i ==> !applies(#[trigger] rules[j], hostname, protocol),
            None => forall|j: int|
                from <= j < rules.len() ==> !applies(#[trigger] rules[j], hostname, protocol),
        },
    decreases rules.len() - from,
{
    if from < rules.len() && !applies(rules[from], hostname, protocol) {
        lemma_match_in_range(rules, hostname, protocol, from + 1);
    }
}

/// A rule without hostname and protocol catches every request that reaches it,
/// so with one at the end every request is decided by some rule.
pub proof fn law_catch_all_decides(
    rules: Seq<IngressRule>,
    hostname: Seq<char>,
    protocol: Protocol,
)
    requires
        rules.len() > 0,
        rules.last().hostname is None,
        rules.last().protocol is None,
    ensures
        first_match(rules, hostname, protocol, 0) is Some,
{
    lemma_match_in_range(rules, hostname, protocol, 0);
    assert(applies(rules[rules.len() - 1], hostname, protocol));
}

/// Whether a rule is for a request: it names no hostname or this one, in any case of
/// ASCII letters, and no protocol or this one.
pub open spec fn is_for(rule: IngressRule, hostname: Seq<char>, protocol: Protocol) -> bool {
    &&& rule.hostname is None || text::same_letters(rule.hostname->0@, hostname)
    &&& rule.protocol is None || rule.protocol->0 == protocol
}

/// The first rule that is for a request decides it, whatever the others say: the
/// request goes to the target that this rule names. Where no rule is for it, it goes
/// nowhere.
pub proof fn law_first_rule_for_a_request_decides(
    matcher: IngressMatcher,
    hostname: &str,
    protocol: Protocol,
    r: Result<Target, SieveTubeError>,
    i: int,
    target: &str,
    read: Result<Target, String>,
)
    requires
        call_ensures(IngressMatcher::match_request, (&matcher, hostname, protocol), r),
        0 <= i <= matcher.rules@.len(),
        forall|j: int| 0 <= j < i ==> !is_for(#[trigger] matcher.rules@[j], hostname@, protocol),
        i < matcher.rules@.len() ==> is_for(matcher.rules@[i], hostname@, protocol) && target@
            == matcher.rules@[i].target@ && call_ensures(Target::parse, (target,), read),
    ensures
        i < matcher.rules@.len() ==> match read {
            Ok(t) => r == Ok::<Target, SieveTubeError>(t),
            Err(e) => r is Err && r->Err_0 is Config,
        },
        i == matcher.rules@.len() ==> r is Err && r->Err_0 is NoIngressMatch,
{
    let rules = matcher.rules@;
    assert forall|j: int| 0 <= j < rules.len() implies applies(#[trigger] rules[j], hostname@, protocol)
        == is_for(rules[j], hostname@, protocol) by {
        if rules[j].hostname is Some {
            text::lemma_same_letters(rules[j].hostname->0@, hostname@);
        }
    }
    lemma_match_in_range(rules, hostname@, protocol, 0);
    if i < rules.len() {
        let k = first_match(rules, hostname@, protocol, 0);
        assert(applies(rules[i], hostname@, protocol));
        assert(k == Some(i));
    }
}

/// A rule that names a hostname decides the requests for that name, in any case of
/// ASCII letters, and no others.
pub proof fn law_rule_decides_its_own_hostname(
    matcher: IngressMatcher,
    hostname: &str,
    protocol: Protocol,
    r: Result<Target, SieveTubeError>,
    target: &str,
    read: Result<Target, String>,
)
    requires
        matcher.rules@.len() == 1,
        matcher.rules@[0].hostname is Some,
        matcher.rules@[0].protocol is None,
        target@ == matcher.rules@[0].target@,
        call_ensures(IngressMatcher::match_request, (&matcher, hostname, protocol), r),
        call_ensures(Target::parse, (target,), read),
    ensures
        read is Ok ==> (r is Ok) == text::same_letters(matcher.rules@[0].hostname->0@, hostname@),
        r is Ok ==> read == Ok::<Target, String>(r->Ok_0),
{
    let i: int = if is_for(matcher.rules@[0], hostname@, protocol) {
        0
    } else {
        1
    };
    law_first_rule_for_a_request_decides(matcher, hostname, protocol, r, i, target, read);
}

/// A hostname is advertised for exactly the protocols whose requests reach a target:
/// an address, or a status code for HTTP.
pub proof fn law_services_are_what_requests_reach(
    matcher: IngressMatcher,
    hostnames: &[String],
    services: Vec<ServiceAdvertisement>,
    i: int,
    hostname: &str,
    protocol: Protocol,
    r: Result<Target, SieveTubeError>,
)
    requires
        call_ensures(IngressMatcher::services, (&matcher, hostnames), services),
        0 <= i < hostnames@.len(),
        hostname@ == hostnames@[i]@,
        call_ensures(IngressMatcher::match_request, (&matcher, hostname, protocol), r),
    ensures
        services@.len() == hostnames@.len(),
        services@[i].hostname@ == hostnames@[i]@,
        services@[i].protocols@.contains(protocol) == (r is Ok && (r->Ok_0 is Address || protocol
            == Protocol::Http)),
{
    let all = seq![Protocol::Http, Protocol::Tcp, Protocol::Udp];
    let keep = |p: Protocol| usable(matcher.rules@, hostname@, p);
    assert(all[0] == Protocol::Http && all[1] == Protocol::Tcp && all[2] == Protocol::Udp);
    let k: int = match protocol {
        Protocol::Http => 0,
        Protocol::Tcp => 1,
        Protocol::Udp => 2,
    };
    broadcast use vstd::seq_lib::group_filter_ensures;

    let served = all.filter(keep);
    assert(services@[i].protocols@ == served);
    if served.contains(protocol) {
        let j = choose|j: int| 0 <= j < served.len() && served[j] == protocol;
        assert(keep(served[j]));
    }
    if keep(all[k]) {
        assert(served.contains(all[k]));
    }
}

} // verus!
