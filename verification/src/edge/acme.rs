//! Automatic certificates through ACME.

use vstd::prelude::*;
use vstd::string::*;
use vstd::utf8::*;
use dashmap::DashMap;
use std::hash::RandomState;
use std::sync::Arc;
use tokio::sync::{OwnedSemaphorePermit, Semaphore};
use crate::concurrent;
use crate::concurrent::{
    new_semaphore, new_texts, pairs, remove_text, set_text, take_permit, text_of,
};
use crate::digest;
use crate::digest::{hex_text, sha256_digest};
use crate::edge::certificate_store;
use crate::edge::certificate_store::{CertEntry, CertSource};
use crate::text;
use crate::text::{chars_of, has_prefix, same_text, substring};
use crate::text_map::TextMap;
use crate::text_set::TextSet;
use crate::time::Duration;

verus! {

/// Where an Edge answers HTTP-01 challenges.
pub open spec fn challenge_path_prefix() -> Seq<char> {
    "/.well-known/acme-challenge/"@
}

/// Where an Edge answers HTTP-01 challenges.
pub fn challenge_prefix() -> (r: &'static str)
    ensures
        r@ == challenge_path_prefix(),
{
    "/.well-known/acme-challenge/"
}

/// Longest challenge token.
pub const MAX_TOKEN_LEN: usize = 256;

pub open spec fn is_token_char(c: char) -> bool {
    text::is_alphanumeric(c) || c == '-' || c == '_'
}

/// Whether a text can be a challenge token.
pub open spec fn is_token(t: Seq<char>) -> bool {
    &&& 1 <= t.len() <= MAX_TOKEN_LEN
    &&& forall|i: int| 0 <= i < t.len() ==> is_token_char(#[trigger] t[i])
}

/// The token that a challenge path asks for.
pub open spec fn path_token(path: Seq<char>) -> Option<Seq<char>> {
    if text::starts_with(path, challenge_path_prefix()) && is_token(
        path.skip(challenge_path_prefix().len() as int),
    ) {
        Some(path.skip(challenge_path_prefix().len() as int))
    } else {
        None
    }
}

/// HTTP-01 responses currently served by this Edge.
#[derive(Debug)]
pub struct Http01Challenges {
    domains: TextSet,
    responses: DashMap<(String, String), String, RandomState>,
    /// Each challenge request that is answered takes a permit of it.
    in_flight: Arc<Semaphore>,
}

impl Http01Challenges {
    pub fn new(domains: TextSet, max_concurrent: usize) -> (r: Self)
        requires
            max_concurrent <= usize::MAX / 8,
        ensures
            r.managed() == domains@,
            r.published() == Map::<(Seq<char>, Seq<char>), Seq<char>>::empty(),
            concurrent::capacity(r.budget()) == max_concurrent,
    {
        Http01Challenges {
            domains,
            responses: new_texts(),
            in_flight: Arc::new(new_semaphore(max_concurrent)),
        }
    }

    /// The hostnames whose certificates this Edge manages itself.
    pub closed spec fn managed(self) -> Seq<Seq<char>> {
        self.domains@
    }

    /// The responses, by hostname and token.
    pub closed spec fn published(self) -> Map<(Seq<char>, Seq<char>), Seq<char>> {
        concurrent::texts(self.responses)
    }

    /// The semaphore whose permits bound how many challenge requests are answered
    /// at the same time.
    pub closed spec fn budget(self) -> Semaphore {
        *self.in_flight
    }

    /// Whether challenge requests for a hostname are answered by the Edge.
    pub open spec fn answers(self, hostname: Seq<char>) -> bool {
        self.managed().contains(hostname) || exists|token: Seq<char>|
            #[trigger] self.published().contains_key((hostname, token))
    }

    /// Whether this Edge manages the certificate for `hostname` itself.
    pub fn is_managed(&self, hostname: &str) -> (r: bool)
        ensures
            r == self.managed().contains(hostname@),
    {
        self.domains.contains(hostname)
    }

    /// Whether challenge requests for this hostname are answered by the Edge.
    ///
    /// Besides its own domains this includes a hostname a peer published a
    /// response for: in a cluster the CA may reach any Edge, so every Edge has
    /// to answer for the domain being validated. Without a published response
    /// the request belongs to the tenant as usual.
    pub fn serves(&self, hostname: &str) -> (r: bool)
        ensures
            r == self.answers(hostname@),
    {
        if self.is_managed(hostname) {
            return true;
        }
        let keys: Vec<(String, String)> = pairs(&self.responses);
        let ghost m = self.published();
        let mut i: usize = 0;
        while i < keys.len()
            invariant
                i <= keys.len(),
                m == self.published(),
                forall|j: int| 0 <= j < i ==> (#[trigger] keys@[j]).0@ != hostname@,
            decreases keys.len() - i,
        {
            if same_text(keys[i].0.as_str(), hostname) {
                assert(m.contains_key((keys@[i as int].0@, keys@[i as int].1@)));
                return true;
            }
            i += 1;
        }
        assert forall|token: Seq<char>| !(#[trigger] m.contains_key((hostname@, token))) by {
            if m.contains_key((hostname@, token)) {
                let j = choose|j: int|
                    0 <= j < keys@.len() && ((#[trigger] keys@[j]).0@, keys@[j].1@) == (
                        hostname@,
                        token,
                    );
                assert(keys@[j].0@ == hostname@);
            }
        }
        false
    }

    /// Extract a syntactically valid token from a challenge path.
    pub fn token_from_path(path: &str) -> (r: Option<String>)
        ensures
            text::opt_view(r) == path_token(path@),
    {
        proof {
            reveal_strlit("/.well-known/acme-challenge/");
        }
        if !has_prefix(path, "/.well-known/acme-challenge/") {
            return None;
        }
        let v: Vec<char> = chars_of(path);
        let n: usize = v.len();
        let ghost t = path@.skip(28);
        assert(challenge_path_prefix().len() == 28);
        if n == 28 || n - 28 > MAX_TOKEN_LEN {
            return None;
        }
        let mut i: usize = 28;
        while i < n
            invariant
                28 <= i <= n == v.len(),
                v@ == path@,
                t == path@.skip(28),
                forall|j: int| 0 <= j < i - 28 ==> is_token_char(#[trigger] t[j]),
            decreases n - i,
        {
            let c: char = v[i];
            assert(t[i - 28] == c);
            if !(('0' <= c && c <= '9') || ('a' <= c && c <= 'z') || ('A' <= c && c <= 'Z') || c
                == '-' || c == '_') {
                assert(!is_token_char(t[i - 28]));
                return None;
            }
            i += 1;
        }
        let r: String = substring(path, 28, n);
        assert(r@ =~= t);
        Some(r)
    }

    /// Publishes the response for a token.
    pub fn insert(&mut self, hostname: &str, token: &str, key_authorization: &str)
        ensures
            final(self).published() == old(self).published().insert(
                (hostname@, token@),
                key_authorization@,
            ),
            final(self).managed() == old(self).managed(),
            final(self).budget() == old(self).budget(),
    {
        set_text(
            &mut self.responses,
            (hostname.to_owned(), token.to_owned()),
            key_authorization.to_owned(),
        );
    }

    /// Withdraws the response for a token.
    pub fn remove(&mut self, hostname: &str, token: &str)
        ensures
            final(self).published() == old(self).published().remove((hostname@, token@)),
            final(self).managed() == old(self).managed(),
            final(self).budget() == old(self).budget(),
    {
        remove_text(&mut self.responses, &(hostname.to_owned(), token.to_owned()));
    }

    /// The response for a token.
    pub fn lookup(&self, hostname: &str, token: &str) -> (r: Option<String>)
        ensures
            text::opt_view(r) == (if self.published().contains_key((hostname@, token@)) {
                Some(self.published()[(hostname@, token@)])
            } else {
                None
            }),
    {
        text_of(&self.responses, &(hostname.to_owned(), token.to_owned()))
    }

    /// Challenge responses have their own concurrency budget; a permit is held until
    /// the response body has been sent. Whether one is free depends on the other
    /// requests.
    pub fn try_acquire(&self) -> (r: Option<OwnedSemaphorePermit>)
        ensures
            match r {
                Some(permit) => concurrent::source(permit) == self.budget(),
                None => true,
            },
    {
        take_permit(self.in_flight.clone())
    }
}

/// While a response for a hostname is published, the Edge answers for it; once
/// the response is withdrawn, it answers as it did before.
pub proof fn law_published_response_is_served(
    before: Http01Challenges,
    during: Http01Challenges,
    after: Http01Challenges,
    hostname: Seq<char>,
    token: Seq<char>,
    response: Seq<char>,
)
    requires
        !before.published().contains_key((hostname, token)),
        during.managed() == before.managed(),
        during.published() == before.published().insert((hostname, token), response),
        after.managed() == during.managed(),
        after.published() == during.published().remove((hostname, token)),
    ensures
        during.answers(hostname),
        after.answers(hostname) == before.answers(hostname),
{
    assert(during.published().contains_key((hostname, token)));
    assert(after.published() =~= before.published());
}

/// Wall-clock source (unix seconds).
pub trait WallClock {
    fn now_unix(&self) -> i64;
}

/// The clock of this machine.
#[derive(Debug, Clone, Copy)]
pub struct SystemClock;

impl WallClock for SystemClock {
    fn now_unix(&self) -> i64 {
        certificate_store::now_unix()
    }
}

/// A whole, for fractions in billionths.
pub const BILLION: u64 = 1_000_000_000;

/// The part of a span that a fraction makes, to the nearest second.
pub open spec fn fraction_of(secs: int, billionths: int) -> int {
    (secs * billionths + BILLION / 2) / BILLION as int
}

/// How long a certificate is valid.
pub open spec fn lifetime(not_before: int, not_after: int) -> int {
    if not_after > not_before {
        not_after - not_before
    } else {
        0
    }
}

/// Unix time at which a certificate should be renewed: when a fraction of its
/// validity period remains, given in billionths. Works for any certificate lifetime.
pub fn renewal_due_at(entry: &CertEntry, renew_before_billionths: u64) -> (r: i64)
    requires
        renew_before_billionths <= BILLION,
        i64::MIN <= entry.not_after - entry.not_before <= i64::MAX,
    ensures
        r == entry.not_after - fraction_of(
            lifetime(entry.not_before as int, entry.not_after as int),
            renew_before_billionths as int,
        ),
        entry.not_before <= entry.not_after ==> entry.not_before <= r <= entry.not_after,
{
    let secs: i64 = entry.lifetime_secs();
    let ghost b = renew_before_billionths as int;
    proof {
        assert(0 <= secs * b <= secs * 1_000_000_000) by (nonlinear_arith)
            requires
                0 <= b <= 1_000_000_000,
                secs >= 0,
        ;
    }
    let part: i128 = (secs as i128 * renew_before_billionths as i128 + (BILLION / 2) as i128)
        / BILLION as i128;
    assert(0 <= part <= secs);
    entry.not_after - part as i64
}

/// Two to some power.
pub open spec fn doubled(n: int, times: nat) -> int
    decreases times,
{
    if times == 0 {
        n
    } else {
        2 * doubled(n, (times - 1) as nat)
    }
}

/// How often the first delay is doubled after so many failures.
pub open spec fn doublings(failures: u32) -> nat {
    if failures <= 1 {
        0
    } else if failures - 1 > 32 {
        32
    } else {
        (failures - 1) as nat
    }
}

/// The delay after some failures before it is spread.
pub open spec fn base_delay(failures: u32, initial: int, max: int) -> int {
    let grown = doubled(initial, doublings(failures));
    if grown < max {
        grown
    } else {
        max
    }
}

/// A Unix time, or the last one that can be named.
pub open spec fn last_at_most(at: int) -> i64 {
    if at > i64::MAX {
        i64::MAX
    } else {
        at as i64
    }
}

/// Longest span of time that the retries are computed with.
pub const MAX_SPAN_NANOS: u128 = 0x8000_0000_0000_0000_0000_0000;

/// Exponential backoff after `failures` consecutive failures, capped at `max`,
/// with a jitter of a fifth more or less (`jitter` in millionths, up to one).
pub fn retry_delay(failures: u32, initial: Duration, max: Duration, jitter: u64) -> (r: Duration)
    requires
        initial.nanos <= MAX_SPAN_NANOS,
        max.nanos <= MAX_SPAN_NANOS,
    ensures
        ({
            let base = base_delay(failures, initial.nanos as int, max.nanos as int);
            let j = if jitter < 1_000_000 {
                jitter as int
            } else {
                1_000_000
            };
            &&& r.nanos == base * (2_000_000 + j) / 2_500_000
            &&& base * 4 / 5 <= r.nanos <= base * 6 / 5
        }),
{
    let times: u32 = if failures <= 1 {
        0
    } else if failures - 1 > 32 {
        32
    } else {
        failures - 1
    };
    let mut grown: u128 = initial.nanos;
    let mut i: u32 = 0;
    while i < times
        invariant
            i <= times <= 32,
            grown == doubled(initial.nanos as int, i as nat),
            grown <= MAX_SPAN_NANOS * pow2(i as nat),
        decreases times - i,
    {
        proof {
            lemma_pow2(i as nat);
            lemma_pow2((i + 1) as nat);
            assert(pow2((i + 1) as nat) == 2 * pow2(i as nat));
            assert(MAX_SPAN_NANOS * pow2((i + 1) as nat) <= MAX_SPAN_NANOS * 0x1_0000_0000)
                by (nonlinear_arith)
                requires
                    pow2((i + 1) as nat) <= 0x1_0000_0000,
            ;
            assert(2 * (MAX_SPAN_NANOS * pow2(i as nat)) == MAX_SPAN_NANOS * pow2((i + 1) as nat))
                by (nonlinear_arith)
                requires
                    pow2((i + 1) as nat) == 2 * pow2(i as nat),
            ;
        }
        grown = grown * 2;
        i += 1;
    }
    let base: u128 = if grown < max.nanos {
        grown
    } else {
        max.nanos
    };
    let j: u128 = if jitter < 1_000_000 {
        jitter as u128
    } else {
        1_000_000
    };
    proof {
        assert(base * (2_000_000 + j) <= 0x8000_0000_0000_0000_0000_0000 * 3_000_000)
            by (nonlinear_arith)
            requires
                base <= 0x8000_0000_0000_0000_0000_0000,
                j <= 1_000_000,
        ;
        assert(base * 2_000_000 <= base * (2_000_000 + j) <= base * 3_000_000) by (nonlinear_arith)
            requires
                0 <= base,
                0 <= j <= 1_000_000,
        ;
    }
    Duration { nanos: base * (2_000_000 + j) / 2_500_000 }
}

spec fn pow2(n: nat) -> int
    decreases n,
{
    if n == 0 {
        1
    } else {
        2 * pow2((n - 1) as nat)
    }
}

proof fn lemma_pow2(n: nat)
    ensures
        1 <= pow2(n),
        n <= 32 ==> pow2(n) * pow2((32 - n) as nat) == 0x1_0000_0000,
        n <= 32 ==> pow2(n) <= 0x1_0000_0000,
    decreases n,
{
    if n == 0 {
        reveal_with_fuel(pow2, 34);
    } else {
        lemma_pow2((n - 1) as nat);
        if n <= 32 {
            let k = (32 - n) as nat;
            assert(pow2((32 - (n - 1)) as nat) == 2 * pow2(k));
            assert(pow2(n) == 2 * pow2((n - 1) as nat));
            assert(pow2(n) * pow2(k) == pow2((n - 1) as nat) * (2 * pow2(k))) by (nonlinear_arith)
                requires
                    pow2(n) == 2 * pow2((n - 1) as nat),
            ;
            lemma_pow2_positive(k);
            assert(pow2(n) <= pow2(n) * pow2(k)) by (nonlinear_arith)
                requires
                    pow2(n) >= 1,
                    pow2(k) >= 1,
            ;
        }
    }
}

proof fn lemma_pow2_positive(n: nat)
    ensures
        pow2(n) >= 1,
    decreases n,
{
    if n > 0 {
        lemma_pow2_positive((n - 1) as nat);
    }
}

/// Each further failure at least keeps the delay, and no delay exceeds its cap by
/// more than the jitter.
pub proof fn law_delays_grow_up_to_the_cap(failures: u32, initial: int, max: int)
    requires
        0 <= initial,
        0 <= max,
        failures < u32::MAX,
    ensures
        base_delay(failures, initial, max) <= base_delay((failures + 1) as u32, initial, max)
            <= max,
{
    let a = doublings(failures);
    let b = doublings((failures + 1) as u32);
    assert(b == a || b == a + 1);
    lemma_doubled_positive(initial, a);
    if b == a + 1 {
        assert(doubled(initial, b) == 2 * doubled(initial, a));
    }
}

proof fn lemma_doubled_positive(n: int, times: nat)
    requires
        n >= 0,
    ensures
        doubled(n, times) >= 0,
    decreases times,
{
    if times > 0 {
        lemma_doubled_positive(n, (times - 1) as nat);
    }
}

/// `uuid::Uuid::new_v4`, as a number: random bits.
#[verifier::external_body]
fn random_bits() -> (r: u128) {
    uuid::Uuid::new_v4().as_u128()
}

/// A random part of one, in millionths.
pub fn random_unit() -> (r: u64)
    ensures
        r <= 1_000_000,
{
    let bits: u128 = random_bits();
    ((bits / 0x1_0000_0000_0000_0000) % 1_000_001) as u64
}

/// What is remembered of the orders for a domain.
#[derive(Debug, Clone, Copy, PartialEq, Eq, Structural)]
pub struct DomainState {
    pub failures: u32,
    /// Unix time before which no new order is attempted
    pub next_attempt: i64,
}

/// How Edges agree on which one orders a certificate.
#[derive(Debug, Clone, Copy, PartialEq, Eq, Structural)]
pub enum Coordination {
    /// This Edge is the only one managing the domains
    Local,
    /// Per-domain Valkey leases; challenges are distributed to all live Edges
    Valkey,
}

/// Upper bound for how long the scheduler sleeps between checks.
pub const MAX_SLEEP_SECS: i64 = 300;

/// Issues and renews certificates for the configured domains.
pub struct AcmeManager {
    pub domains: Vec<String>,
    pub renew_before_billionths: u64,
    pub retry_initial_secs: u64,
    pub retry_max_secs: u64,
    pub coordination: Coordination,
    /// The certificates in use, by name
    pub installed: TextMap<CertEntry>,
    pub state: TextMap<DomainState>,
}

/// Whether the certificate in use for a name came from ACME and is valid.
pub open spec fn has_valid(installed: Map<Seq<char>, CertEntry>, domain: Seq<char>, now: int) -> bool {
    installed.contains_key(domain) && installed[domain].source == CertSource::Acme && now
        < installed[domain].not_after
}

/// What is said of a domain without a valid certificate.
pub open spec fn not_ready(domain: Seq<char>) -> Seq<char> {
    "no valid ACME certificate for "@ + domain
}

/// What is said of domains without a valid certificate.
pub open spec fn issues_of(
    domains: Seq<Seq<char>>,
    installed: Map<Seq<char>, CertEntry>,
    now: int,
) -> Seq<Seq<char>>
    decreases domains.len(),
{
    if domains.len() == 0 {
        Seq::empty()
    } else {
        let before = issues_of(domains.drop_last(), installed, now);
        if has_valid(installed, domains.last(), now) {
            before
        } else {
            before.push(not_ready(domains.last()))
        }
    }
}

/// Whether the validity of certificates can be computed with.
pub open spec fn spans_fit(installed: Map<Seq<char>, CertEntry>) -> bool {
    forall|k: Seq<char>| #[trigger]
        installed.contains_key(k) ==> i64::MIN <= installed[k].not_after - installed[k].not_before
            <= i64::MAX
}

impl AcmeManager {
    /// When the next order for a domain may be attempted: when its certificate
    /// should be renewed, now where there is no valid one, but not before a
    /// backoff ends.
    pub open spec fn due(self, domain: Seq<char>, now: i64) -> int {
        let entry = self.installed@[domain];
        let certificate = if has_valid(self.installed@, domain, now as int) {
            entry.not_after - fraction_of(
                lifetime(entry.not_before as int, entry.not_after as int),
                self.renew_before_billionths as int,
            )
        } else {
            now as int
        };
        let backoff: int = if self.state@.contains_key(domain) {
            self.state@[domain].next_attempt as int
        } else {
            0
        };
        if certificate > backoff {
            certificate
        } else {
            backoff
        }
    }

    fn valid(&self, domain: &str, now: i64) -> (r: Option<&CertEntry>)
        ensures
            match r {
                Some(e) => has_valid(self.installed@, domain@, now as int) && *e
                    == self.installed@[domain@],
                None => !has_valid(self.installed@, domain@, now as int),
            },
    {
        match self.installed.get(domain) {
            Some(e) => if e.source == CertSource::Acme && !e.is_expired(now) {
                Some(e)
            } else {
                None
            },
            None => None,
        }
    }

    /// When the next order for `domain` may be attempted.
    pub fn due_at(&self, domain: &str, now: i64) -> (r: i64)
        requires
            self.renew_before_billionths <= BILLION,
            spans_fit(self.installed@),
        ensures
            r == self.due(domain@, now),
    {
        let certificate: i64 = match self.valid(domain, now) {
            Some(e) => {
                assert(self.installed@.contains_key(domain@));
                renewal_due_at(e, self.renew_before_billionths)
            },
            None => now,
        };
        let backoff: i64 = match self.state.get(domain) {
            Some(s) => s.next_attempt,
            None => 0,
        };
        if certificate > backoff {
            certificate
        } else {
            backoff
        }
    }

    /// Domains that have no usable certificate.
    pub fn readiness_issues(&self, now: i64) -> (r: Vec<String>)
        ensures
            text::views(r@) == issues_of(text::views(self.domains@), self.installed@, now as int),
    {
        let ghost all = text::views(self.domains@);
        let mut out: Vec<String> = Vec::new();
        let mut i: usize = 0;
        assert(text::views(out@) =~= issues_of(all.take(0), self.installed@, now as int));
        while i < self.domains.len()
            invariant
                i <= self.domains.len() == all.len(),
                all == text::views(self.domains@),
                text::views(out@) == issues_of(all.take(i as int), self.installed@, now as int),
            decreases self.domains.len() - i,
        {
            let ghost before = text::views(out@);
            assert(all.take(i + 1).drop_last() =~= all.take(i as int));
            assert(all.take(i + 1).last() == self.domains@[i as int]@);
            if self.valid(self.domains[i].as_str(), now).is_none() {
                let m: String = "no valid ACME certificate for ".to_owned().concat(
                    self.domains[i].as_str(),
                );
                out.push(m);
                assert(text::views(out@) =~= before.push(m@));
            }
            i += 1;
        }
        assert(all.take(i as int) =~= all);
        out
    }

    /// The generation of the certificate in use, where it came from ACME.
    pub open spec fn installed_generation(self, domain: Seq<char>) -> Option<u64> {
        if self.installed@.contains_key(domain) && self.installed@[domain].source
            == CertSource::Acme {
            self.installed@[domain].generation
        } else {
            None
        }
    }

    /// Whether the store holds another generation than the one in use, e.g. one
    /// written by another Edge.
    pub fn needs_refresh(&self, domain: &str, stored: Option<u64>) -> (r: bool)
        ensures
            r == (stored is Some && stored != self.installed_generation(domain@)),
    {
        let installed: Option<u64> = match self.installed.get(domain) {
            Some(e) => if e.source == CertSource::Acme {
                e.generation
            } else {
                None
            },
            None => None,
        };
        match stored {
            None => false,
            Some(current) => match installed {
                Some(g) => g != current,
                None => true,
            },
        }
    }

    /// Takes a certificate into use.
    pub fn install(&mut self, entry: CertEntry)
        ensures
            final(self).installed@ == old(self).installed@.insert(entry.name@, entry),
            final(self).state == old(self).state,
            final(self).domains == old(self).domains,
            final(self).renew_before_billionths == old(self).renew_before_billionths,
            final(self).retry_initial_secs == old(self).retry_initial_secs,
            final(self).retry_max_secs == old(self).retry_max_secs,
            final(self).coordination == old(self).coordination,
    {
        let name: String = entry.name.clone();
        self.installed.insert(name, entry);
    }

    /// An order succeeded: its certificate is taken into use, and failures are
    /// forgotten.
    pub fn order_succeeded(&mut self, domain: &str, entry: CertEntry)
        ensures
            final(self).installed@ == old(self).installed@.insert(entry.name@, entry),
            final(self).state@ == old(self).state@.remove(domain@),
            final(self).domains == old(self).domains,
            final(self).renew_before_billionths == old(self).renew_before_billionths,
            final(self).retry_initial_secs == old(self).retry_initial_secs,
            final(self).retry_max_secs == old(self).retry_max_secs,
            final(self).coordination == old(self).coordination,
    {
        self.install(entry);
        self.state.remove(domain);
    }

    /// The failures so far.
    pub open spec fn failures(self, domain: Seq<char>) -> u32 {
        if self.state@.contains_key(domain) {
            self.state@[domain].failures
        } else {
            0
        }
    }

    /// An order failed: the next one is not attempted before a delay that grows
    /// with the failures, at least a second; where that is beyond the last time that
    /// can be named, at that one.
    pub fn order_failed(&mut self, domain: &str, now: i64, jitter: u64)
        requires
            old(self).failures(domain@) < u32::MAX,
        ensures
            final(self).installed == old(self).installed,
            final(self).domains == old(self).domains,
            final(self).renew_before_billionths == old(self).renew_before_billionths,
            final(self).retry_initial_secs == old(self).retry_initial_secs,
            final(self).retry_max_secs == old(self).retry_max_secs,
            final(self).coordination == old(self).coordination,
            ({
                let n = (old(self).failures(domain@) + 1) as u32;
                let base = base_delay(
                    n,
                    old(self).retry_initial_secs * 1_000_000_000,
                    old(self).retry_max_secs * 1_000_000_000,
                );
                let j = if jitter < 1_000_000 {
                    jitter as int
                } else {
                    1_000_000
                };
                let secs = base * (2_000_000 + j) / 2_500_000 / 1_000_000_000;
                final(self).state@ == old(self).state@.insert(
                    domain@,
                    DomainState {
                        failures: n,
                        next_attempt: last_at_most(
                            now + if secs > 1 {
                                secs
                            } else {
                                1
                            },
                        ),
                    },
                )
            }),
    {
        let failures: u32 = match self.state.get(domain) {
            Some(s) => s.failures + 1,
            None => 1,
        };
        let initial: Duration = Duration::from_secs(self.retry_initial_secs);
        let max: Duration = Duration::from_secs(self.retry_max_secs);
        let delay: Duration = retry_delay(failures, initial, max, jitter);
        let secs: u128 = delay.nanos / 1_000_000_000;
        proof {
            let base = base_delay(failures, initial.nanos as int, max.nanos as int);
            assert(base <= max.nanos);
            assert(delay.nanos <= max.nanos * 6 / 5);
        }
        let wait: i128 = if secs > 1 {
            secs as i128
        } else {
            1
        };
        let at: i128 = now as i128 + wait;
        let next_attempt: i64 = if at > i64::MAX as i128 {
            i64::MAX
        } else {
            at as i64
        };
        self.state.insert(domain.to_owned(), DomainState { failures, next_attempt });
    }

    /// Whether an order for a domain may be made now: neither order nor switch
    /// certificates without the control plane.
    pub fn may_order(&self, domain: &str, now: i64, control_plane_ready: bool) -> (r: bool)
        requires
            self.renew_before_billionths <= BILLION,
            spans_fit(self.installed@),
        ensures
            r == (control_plane_ready && self.due(domain@, now) <= now),
    {
        control_plane_ready && self.due_at(domain, now) <= now
    }

    /// When to look again after a domain was looked at.
    pub fn wake_after(
        &self,
        wake_at: i64,
        domain: &str,
        now: i64,
        poll_secs: i64,
        control_plane_ready: bool,
    ) -> (r: i64)
        requires
            self.renew_before_billionths <= BILLION,
            spans_fit(self.installed@),
            i64::MIN <= now + poll_secs <= i64::MAX,
        ensures
            ({
                let due = self.due(domain@, now);
                let polled = !control_plane_ready || self.coordination == Coordination::Valkey;
                let a = if control_plane_ready && due < wake_at {
                    due
                } else {
                    wake_at as int
                };
                r == (if polled && now + poll_secs < a {
                    now + poll_secs
                } else {
                    a
                })
            }),
    {
        let mut wake: i64 = wake_at;
        if control_plane_ready {
            let due: i64 = self.due_at(domain, now);
            if due < wake {
                wake = due;
            }
        }
        if (!control_plane_ready || self.coordination == Coordination::Valkey) && now + poll_secs
            < wake {
            wake = now + poll_secs;
        }
        wake
    }
}

/// How long to sleep until `wake_at`: at least a second, at most
/// [`MAX_SLEEP_SECS`].
pub fn sleep_secs(wake_at: i64, now: i64) -> (r: u64)
    requires
        i64::MIN <= wake_at - now <= i64::MAX,
    ensures
        r == (if wake_at - now < 1 {
            1
        } else if wake_at - now > MAX_SLEEP_SECS {
            MAX_SLEEP_SECS as int
        } else {
            wake_at - now
        }),
{
    let d: i64 = wake_at - now;
    if d < 1 {
        1
    } else if d > MAX_SLEEP_SECS {
        MAX_SLEEP_SECS as u64
    } else {
        d as u64
    }
}

/// A failed order is not repeated at once: the domain is due again only after at
/// least a second.
pub proof fn law_failed_orders_back_off(
    manager: AcmeManager,
    domain: Seq<char>,
    failures: u32,
    now: i64,
    next_attempt: i64,
)
    requires
        now < next_attempt,
        manager.state@.contains_key(domain),
        manager.state@[domain] == (DomainState { failures, next_attempt }),
    ensures
        manager.due(domain, now) >= next_attempt,
{
}

/// The generation under which an ordered certificate is stored, or why it is not
/// stored: a holder whose lease expired must not overwrite a newer writer.
pub fn storing_generation(
    leased: Option<u64>,
    coordination: Coordination,
    lease_held: bool,
    next: u64,
) -> (r: Result<u64, String>)
    ensures
        match leased {
            None => r == Ok::<u64, String>(next),
            Some(g) => if coordination == Coordination::Valkey && !lease_held {
                r is Err && r->Err_0@ == "lost the ACME lease before storing the certificate"@
            } else {
                r == Ok::<u64, String>(g)
            },
        },
{
    match leased {
        None => Ok(next),
        Some(g) => if coordination == Coordination::Valkey && !lease_held {
            Err("lost the ACME lease before storing the certificate".to_owned())
        } else {
            Ok(g)
        },
    }
}

/// The lease under which a certificate for a domain is ordered.
pub fn lease_resource(domain: &str) -> (r: String)
    ensures
        r@ == "acme:"@ + domain@,
{
    "acme:".to_owned().concat(domain)
}

/// Where the first `://` from `from` on begins.
pub open spec fn scheme_end(s: Seq<char>, from: int) -> Option<int>
    decreases s.len() - from,
{
    if from + 3 > s.len() {
        None
    } else if s[from] == ':' && s[from + 1] == '/' && s[from + 2] == '/' {
        Some(from)
    } else {
        scheme_end(s, from + 1)
    }
}

/// A text up to its first slash.
pub open spec fn before_slash(s: Seq<char>) -> Seq<char>
    decreases s.len(),
{
    if s.len() == 0 || s[0] == '/' {
        Seq::empty()
    } else {
        seq![s[0]] + before_slash(s.skip(1))
    }
}

/// The host of a URL, as far as a label needs it.
pub open spec fn label_host(url: Seq<char>) -> Seq<char> {
    match scheme_end(url, 0) {
        None => "acme"@,
        Some(i) => {
            let rest = match scheme_end(url, i + 3) {
                Some(j) => url.subrange(i + 3, j),
                None => url.skip(i + 3),
            };
            before_slash(rest)
        },
    }
}

/// A character that is safe in a file name, or an underscore.
pub open spec fn safe_char(c: char) -> char {
    if text::is_alphanumeric(c) || c == '.' || c == '-' {
        c
    } else {
        '_'
    }
}

/// A stable, filesystem-safe name for an ACME directory.
pub open spec fn label_of(url: Seq<char>) -> Seq<char> {
    label_host(url).map_values(|c: char| safe_char(c)) + "-"@ + digest::hex(
        digest::sha256(encode_utf8(url)).take(6),
    )
}

fn find_scheme_end(v: &Vec<char>, from: usize) -> (r: Option<usize>)
    requires
        from <= v.len(),
    ensures
        (match r {
            Some(i) => Some(i as int),
            None => None,
        }) == scheme_end(v@, from as int),
        match r {
            Some(i) => from <= i && i + 3 <= v.len(),
            None => true,
        },
{
    let n: usize = v.len();
    let mut i: usize = from;
    while n >= 3 && i <= n - 3
        invariant
            from <= i <= n == v.len(),
            scheme_end(v@, from as int) == scheme_end(v@, i as int),
        decreases n - i,
    {
        if v[i] == ':' && v[i + 1] == '/' && v[i + 2] == '/' {
            return Some(i);
        }
        i += 1;
    }
    None
}

fn host_label(url: &str) -> (r: String)
    ensures
        r@ == label_host(url@).map_values(|c: char| safe_char(c)),
{
    let v: Vec<char> = chars_of(url);
    let (from, to) = match find_scheme_end(&v, 0) {
        None => {
            proof {
                reveal_strlit("acme");
                assert("acme"@.map_values(|c: char| safe_char(c)) =~= "acme"@);
            }
            return "acme".to_owned();
        },
        Some(i) => match find_scheme_end(&v, i + 3) {
            Some(j) => (i + 3, j),
            None => (i + 3, v.len()),
        },
    };
    let ghost rest = v@.subrange(from as int, to as int);
    assert(to == v.len() ==> rest =~= v@.skip(from as int));
    let ghost host = before_slash(rest);
    assert(host == label_host(url@));
    let mut out: String = String::new();
    let mut i: usize = from;
    assert(v@.subrange(i as int, to as int) =~= rest);
    assert(out@ + before_slash(v@.subrange(i as int, to as int)).map_values(|c: char| safe_char(c))
        =~= host.map_values(|c: char| safe_char(c)));
    while i < to && v[i] != '/'
        invariant
            from <= i <= to <= v.len(),
            out@ + before_slash(v@.subrange(i as int, to as int)).map_values(
                |c: char| safe_char(c),
            ) == host.map_values(|c: char| safe_char(c)),
        decreases to - i,
    {
        let ghost now = v@.subrange(i as int, to as int);
        let ghost before = out@;
        let c: char = v[i];
        assert(now[0] == c);
        assert(now.skip(1) =~= v@.subrange(i + 1, to as int));
        let ok: bool = ('0' <= c && c <= '9') || ('a' <= c && c <= 'z') || ('A' <= c && c <= 'Z')
            || c == '.' || c == '-';
        if ok {
            out.push(c);
        } else {
            out.push('_');
        }
        assert(out@ =~= before.push(safe_char(c)));
        let ghost tail = before_slash(now.skip(1)).map_values(|c: char| safe_char(c));
        assert((seq![c] + before_slash(now.skip(1))).map_values(|c: char| safe_char(c)) =~= seq![
            safe_char(c),
        ] + tail);
        assert(before + (seq![safe_char(c)] + tail) =~= out@ + tail);
        i += 1;
    }
    let ghost left = v@.subrange(i as int, to as int);
    assert(left.len() > 0 ==> left[0] == v@[i as int]);
    assert(before_slash(left) =~= Seq::<char>::empty());
    assert(out@ + before_slash(left).map_values(|c: char| safe_char(c)) =~= out@);
    out
}

/// A stable, filesystem-safe name for an ACME directory, so that accounts and
/// certificates from different CAs (e.g. staging and production) never mix.
pub fn directory_label(url: &str) -> (r: String)
    ensures
        r@ == label_of(url@),
{
    let mut out: String = host_label(url);
    let sum: Vec<u8> = sha256_digest(url.as_bytes());
    out.append("-");
    let short: &[u8] = vstd::slice::slice_subrange(sum.as_slice(), 0, 6);
    assert(short@ =~= digest::sha256(encode_utf8(url@)).take(6));
    out.append(hex_text(short).as_str());
    out
}

/// What is published is found until it is withdrawn, under its hostname and token and no
/// others; the hostname is served meanwhile.
pub proof fn law_responses_are_found_until_withdrawn(
    a: &mut Http01Challenges,
    b: &mut Http01Challenges,
    hostname: &str,
    token: &str,
    response: &str,
    other_host: &str,
    other_token: &str,
    found: Option<String>,
    other_before: Option<String>,
    other_found: Option<String>,
    gone: Option<String>,
    served: bool,
)
    requires
        call_ensures(Http01Challenges::insert, (a, hostname, token, response), ()),
        call_ensures(Http01Challenges::remove, (b, hostname, token), ()),
        *old(b) == *final(a),
        call_ensures(Http01Challenges::lookup, (&*final(a), hostname, token), found),
        call_ensures(Http01Challenges::serves, (&*final(a), hostname), served),
        call_ensures(Http01Challenges::lookup, (&*final(b), hostname, token), gone),
        other_host@ != hostname@ || other_token@ != token@,
        call_ensures(Http01Challenges::lookup, (&*old(a), other_host, other_token), other_before),
        call_ensures(Http01Challenges::lookup, (&*final(b), other_host, other_token), other_found),
    ensures
        found is Some && found->0@ == response@,
        served,
        gone is None,
        other_before is Some == other_found is Some,
        other_before is Some ==> other_found->0@ == other_before->0@,
{
    assert(final(a).published().contains_key((hostname@, token@)));
    assert((other_host@, other_token@) != (hostname@, token@));
    assert(text::opt_view(found) == Some(response@));
    assert(text::opt_view(other_found) == text::opt_view(other_before));
}

/// The Edge's own domains are served from the start, and nothing else is.
pub proof fn law_own_domains_are_served(
    domains: TextSet,
    max: usize,
    r: Http01Challenges,
    hostname: &str,
    token: &str,
    managed: bool,
    served: bool,
    found: Option<String>,
)
    requires
        max <= usize::MAX / 8,
        call_ensures(Http01Challenges::new, (domains, max), r),
        call_ensures(Http01Challenges::is_managed, (&r, hostname), managed),
        call_ensures(Http01Challenges::serves, (&r, hostname), served),
        call_ensures(Http01Challenges::lookup, (&r, hostname, token), found),
    ensures
        managed == domains@.contains(hostname@),
        served == managed,
        found is None,
{
}

/// A challenge path is the well-known prefix and a token of 1 to 256 letters, digits, hyphens
/// and underscores; no other path has a token.
pub proof fn law_challenge_paths_end_with_their_token(
    path: &str,
    token: Seq<char>,
    prefix: &'static str,
    r: Option<String>,
)
    requires
        call_ensures(Http01Challenges::token_from_path, (path,), r),
        call_ensures(challenge_prefix, (), prefix),
    ensures
        prefix@ == "/.well-known/acme-challenge/"@,
        r is Some ==> path@ == prefix@ + r->0@,
        path@ == prefix@ + token ==> r is Some == (1 <= token.len() <= 256 && forall|i: int|
            0 <= i < token.len() ==> 'a' <= (#[trigger] token[i]) <= 'z' || 'A' <= token[i] <= 'Z'
                || '0' <= token[i] <= '9' || token[i] == '-' || token[i] == '_'),
        path@ == prefix@ + token && r is Some ==> r->0@ == token,
{
    let n = prefix@.len() as int;
    if path@ == prefix@ + token {
        assert(path@.take(n) =~= prefix@);
        assert(path@.skip(n) =~= token);
        assert((forall|i: int|
            0 <= i < token.len() ==> 'a' <= (#[trigger] token[i]) <= 'z' || 'A' <= token[i] <= 'Z'
                || '0' <= token[i] <= '9' || token[i] == '-' || token[i] == '_') == (forall|i: int|
            0 <= i < token.len() ==> is_token_char(#[trigger] token[i])));
    }
    if r is Some {
        assert(path@ =~= path@.take(n) + path@.skip(n));
    }
}

/// A certificate is renewed when the configured part of its lifetime is left, to the nearest
/// second.
pub proof fn law_renewal_leaves_the_configured_part(entry: CertEntry, part: u64, r: i64)
    requires
        part <= 1_000_000_000,
        entry.not_before <= entry.not_after <= entry.not_before + i64::MAX,
        call_ensures(renewal_due_at, (&entry, part), r),
    ensures
        entry.not_before <= r <= entry.not_after,
        ({
            let left = (entry.not_after - r) * 1_000_000_000;
            let wanted = (entry.not_after - entry.not_before) * part;
            -500_000_000 <= left - wanted <= 500_000_000
        }),
{
}

proof fn lemma_fifths(x: int)
    ensures
        x * 2_500_000 / 2_500_000 == x,
        x * 2_000_000 / 2_500_000 == x * 4 / 5,
        x * 3_000_000 / 2_500_000 == x * 6 / 5,
{
    vstd::arithmetic::div_mod::lemma_div_multiples_vanish(x, 2_500_000);
    assert(x * 2_000_000 / 2_500_000 == x * 4 / 5) by (nonlinear_arith);
    assert(x * 3_000_000 / 2_500_000 == x * 6 / 5) by (nonlinear_arith);
}

/// The first delay is the initial one, and each further failure doubles the delay up to the
/// longest; chance makes it a fifth longer or shorter.
pub proof fn law_delays_double_up_to_the_longest(
    failures: u32,
    initial: Duration,
    max: Duration,
    first: Duration,
    once: Duration,
    again: Duration,
    least: Duration,
    most: Duration,
)
    requires
        initial.nanos <= MAX_SPAN_NANOS,
        max.nanos <= MAX_SPAN_NANOS,
        1 <= failures <= 32,
        call_ensures(retry_delay, (1u32, initial, max, 500_000u64), first),
        call_ensures(retry_delay, (failures, initial, max, 500_000u64), once),
        call_ensures(retry_delay, ((failures + 1) as u32, initial, max, 500_000u64), again),
        call_ensures(retry_delay, (failures, initial, max, 0u64), least),
        call_ensures(retry_delay, (failures, initial, max, 1_000_000u64), most),
    ensures
        first.nanos == if initial.nanos < max.nanos {
            initial.nanos
        } else {
            max.nanos
        },
        again.nanos == if 2 * once.nanos < max.nanos {
            2 * once.nanos
        } else {
            max.nanos as int
        },
        least.nanos == once.nanos * 4 / 5,
        most.nanos == once.nanos * 6 / 5,
{
    let a = doublings(failures);
    assert(doublings((failures + 1) as u32) == a + 1);
    assert(doubled(initial.nanos as int, a + 1) == 2 * doubled(initial.nanos as int, a));
    lemma_doubled_positive(initial.nanos as int, a);
    let base = base_delay(failures, initial.nanos as int, max.nanos as int);
    let next = base_delay((failures + 1) as u32, initial.nanos as int, max.nanos as int);
    lemma_fifths(base);
    lemma_fifths(next);
    assert(doubled(initial.nanos as int, 0) == initial.nanos);
    let start = base_delay(1, initial.nanos as int, max.nanos as int);
    lemma_fifths(start);
}

/// A domain without a valid ACME certificate is due now, one with a certificate when that is to
/// be renewed, but neither before the next attempt after a failure. It is ordered once it is
/// due and the control plane is ready.
pub proof fn law_domains_are_due_for_renewal(
    manager: AcmeManager,
    domain: &str,
    now: i64,
    renewal: i64,
    r: i64,
    ready: bool,
    order: bool,
)
    requires
        manager.renew_before_billionths <= 1_000_000_000,
        spans_fit(manager.installed@),
        call_ensures(AcmeManager::due_at, (&manager, domain, now), r),
        manager.installed@.contains_key(domain@) ==> call_ensures(
            renewal_due_at,
            (&manager.installed@[domain@], manager.renew_before_billionths),
            renewal,
        ),
        call_ensures(AcmeManager::may_order, (&manager, domain, now, ready), order),
    ensures
        ({
            let valid = manager.installed@.contains_key(domain@)
                && manager.installed@[domain@].source is Acme && now
                < manager.installed@[domain@].not_after;
            let earliest: int = if manager.state@.contains_key(domain@) {
                manager.state@[domain@].next_attempt as int
            } else {
                0
            };
            let wanted: int = if valid {
                renewal as int
            } else {
                now as int
            };
            r == if wanted > earliest {
                wanted
            } else {
                earliest
            }
        }),
        order == (ready && r <= now),
{
}

/// An order that fails is counted and puts off the next one by the delay for that many
/// failures, at least by a second. One that succeeds clears the count and installs what it
/// gave. No other domain is concerned.
pub proof fn law_orders_change_their_domain(
    a: &mut AcmeManager,
    b: &mut AcmeManager,
    domain: &str,
    now: i64,
    jitter: u64,
    entry: CertEntry,
    delay: Duration,
    other: Seq<char>,
)
    requires
        old(a).failures(domain@) < u32::MAX,
        old(a).retry_initial_secs <= 0xffff_ffff,
        old(a).retry_max_secs <= 0xffff_ffff,
        i64::MIN <= now <= i64::MAX - 0x2_0000_0000,
        call_ensures(AcmeManager::order_failed, (a, domain, now, jitter), ()),
        call_ensures(
            retry_delay,
            (
                (old(a).failures(domain@) + 1) as u32,
                Duration { nanos: (old(a).retry_initial_secs * 1_000_000_000) as u128 },
                Duration { nanos: (old(a).retry_max_secs * 1_000_000_000) as u128 },
                jitter,
            ),
            delay,
        ),
        call_ensures(AcmeManager::order_succeeded, (b, domain, entry), ()),
        other != domain@,
    ensures
        final(a).installed@ == old(a).installed@,
        final(a).state@.contains_key(domain@),
        final(a).state@[domain@].failures == if old(a).state@.contains_key(domain@) {
            old(a).state@[domain@].failures + 1
        } else {
            1
        },
        delay.nanos < 2_000_000_000 ==> final(a).state@[domain@].next_attempt == now + 1,
        delay.nanos >= 2_000_000_000 ==> final(a).state@[domain@].next_attempt == now + delay.nanos
            as int / 1_000_000_000,
        final(a).state@.contains_key(other) == old(a).state@.contains_key(other),
        final(a).state@[other] == old(a).state@[other],
        !final(b).state@.contains_key(domain@),
        final(b).state@.contains_key(other) == old(b).state@.contains_key(other),
        final(b).state@[other] == old(b).state@[other],
        final(b).installed@.contains_key(entry.name@) && final(b).installed@[entry.name@] == entry,
        other != entry.name@ ==> final(b).installed@.contains_key(other) == old(b).installed@.contains_key(other) && final(b).installed@[other] == old(b).installed@[other],
{
    let n = (old(a).failures(domain@) + 1) as u32;
    let base = base_delay(
        n,
        old(a).retry_initial_secs * 1_000_000_000,
        old(a).retry_max_secs * 1_000_000_000,
    );
    assert(base <= old(a).retry_max_secs * 1_000_000_000);
    assert(delay.nanos <= base * 6 / 5);
    assert(delay.nanos as int / 1_000_000_000 < 0x2_0000_0000);
}

proof fn lemma_issues(
    domains: Seq<Seq<char>>,
    installed: Map<Seq<char>, CertEntry>,
    now: int,
    i: int,
)
    requires
        0 <= i < domains.len(),
    ensures
        !has_valid(installed, domains[i], now) ==> issues_of(domains, installed, now).contains(
            not_ready(domains[i]),
        ),
        issues_of(domains, installed, now).len() > 0 ==> exists|j: int|
            0 <= j < domains.len() && !has_valid(installed, #[trigger] domains[j], now),
    decreases domains.len(),
{
    let front = domains.drop_last();
    let before = issues_of(front, installed, now);
    let all = issues_of(domains, installed, now);
    let last = domains.len() - 1;
    if front.len() == 0 {
        assert(before =~= Seq::empty());
    } else {
        let k = if i < last {
            i
        } else {
            0
        };
        lemma_issues(front, installed, now, k);
        if before.len() > 0 {
            let j = choose|j: int|
                0 <= j < front.len() && !has_valid(installed, #[trigger] front[j], now);
            assert(domains[j] == front[j]);
        }
        if i < last && !has_valid(installed, domains[i], now) {
            assert(front[i] == domains[i]);
            let at = before.index_of(not_ready(domains[i]));
            assert(all[at] == not_ready(domains[i]));
        }
    }
    if !has_valid(installed, domains[last], now) {
        assert(all[all.len() - 1] == not_ready(domains[last]));
    }
}

/// A domain keeps the Edge from being ready if and only if it has no valid ACME certificate,
/// and each one that does is named.
pub proof fn law_readiness_needs_every_certificate(
    manager: AcmeManager,
    now: i64,
    r: Vec<String>,
    i: int,
)
    requires
        call_ensures(AcmeManager::readiness_issues, (&manager, now), r),
        0 <= i < manager.domains@.len(),
    ensures
        ({
            let domain = manager.domains@[i]@;
            !(manager.installed@.contains_key(domain) && manager.installed@[domain].source is Acme
                && now < manager.installed@[domain].not_after) ==> exists|j: int|
                0 <= j < r@.len() && (#[trigger] r@[j])@ == "no valid ACME certificate for "@
                    + domain
        }),
        r@.len() > 0 ==> exists|j: int|
            0 <= j < manager.domains@.len() && {
                let domain = (#[trigger] manager.domains@[j])@;
                !(manager.installed@.contains_key(domain) && manager.installed@[domain].source
                    is Acme && now < manager.installed@[domain].not_after)
            },
{
    let names = text::views(manager.domains@);
    let issues = text::views(r@);
    lemma_issues(names, manager.installed@, now as int, i);
    let domain = manager.domains@[i]@;
    assert(names[i] == domain);
    if !has_valid(manager.installed@, domain, now as int) {
        let j = issues.index_of(not_ready(domain));
        assert(issues[j] == r@[j]@);
    }
    if r@.len() > 0 {
        assert(issues.len() == r@.len());
        let j = choose|j: int|
            0 <= j < names.len() && !has_valid(manager.installed@, #[trigger] names[j], now as int);
        assert(manager.domains@[j]@ == names[j]);
    }
}

/// A stored certificate is taken over if and only if it is not the one installed.
pub proof fn law_other_generations_are_taken_over(
    manager: AcmeManager,
    domain: &str,
    stored: Option<u64>,
    r: bool,
)
    requires
        call_ensures(AcmeManager::needs_refresh, (&manager, domain, stored), r),
    ensures
        stored is None ==> !r,
        stored is Some && manager.installed@.contains_key(domain@)
            && manager.installed@[domain@].source is Acme ==> r == (
        manager.installed@[domain@].generation != stored),
        stored is Some && !(manager.installed@.contains_key(domain@)
            && manager.installed@[domain@].source is Acme) ==> r,
{
}

/// The manager wakes at the latest when a domain is due that may be ordered, and polls where it
/// shares its work or waits for the control plane; it never sleeps for less than a second or
/// for more than five minutes.
pub proof fn law_manager_wakes_in_time(
    manager: AcmeManager,
    wake_at: i64,
    domain: &str,
    now: i64,
    poll: i64,
    ready: bool,
    due: i64,
    r: i64,
    at: i64,
    sleep: u64,
)
    requires
        manager.renew_before_billionths <= 1_000_000_000,
        spans_fit(manager.installed@),
        i64::MIN <= now + poll <= i64::MAX,
        i64::MIN <= at - now <= i64::MAX,
        call_ensures(AcmeManager::due_at, (&manager, domain, now), due),
        call_ensures(AcmeManager::wake_after, (&manager, wake_at, domain, now, poll, ready), r),
        call_ensures(sleep_secs, (at, now), sleep),
    ensures
        r <= wake_at,
        ready ==> r <= due,
        !ready || manager.coordination is Valkey ==> r <= now + poll,
        r == wake_at || r == due || r == now + poll,
        r == due && r != wake_at && r != now + poll ==> ready,
        r == now + poll && r != wake_at && r != due ==> !ready || manager.coordination is Valkey,
        1 <= sleep <= 300,
        1 <= at - now <= 300 ==> sleep == at - now,
        at <= now ==> sleep == 1,
        at - now > 300 ==> sleep == 300,
{
}

/// A certificate is stored under the generation of its lease, as long as the lease is held;
/// without a lease, under the next generation.
pub proof fn law_certificates_are_stored_under_their_lease(
    leased: Option<u64>,
    coordination: Coordination,
    held: bool,
    next: u64,
    r: Result<u64, String>,
    domain: &str,
    resource: String,
)
    requires
        call_ensures(storing_generation, (leased, coordination, held, next), r),
        call_ensures(lease_resource, (domain,), resource),
    ensures
        leased is None ==> r == Ok::<u64, String>(next),
        leased is Some && (held || coordination is Local) ==> r == Ok::<u64, String>(leased->0),
        leased is Some && !held && coordination is Valkey ==> r is Err,
        resource@ == seq!['a', 'c', 'm', 'e', ':'] + domain@,
{
    reveal_strlit("acme:");
    assert("acme:"@ =~= seq!['a', 'c', 'm', 'e', ':']);
}

proof fn lemma_scheme_end(s: Seq<char>, from: int, at: int)
    requires
        0 <= from <= at,
        at + 3 <= s.len(),
        s[at] == ':' && s[at + 1] == '/' && s[at + 2] == '/',
        forall|i: int| from <= i < at ==> s[i] != ':',
    ensures
        scheme_end(s, from) == Some(at),
    decreases at - from,
{
    if from < at {
        lemma_scheme_end(s, from + 1, at);
    }
}

proof fn lemma_no_scheme_end(s: Seq<char>, from: int)
    requires
        0 <= from,
        forall|i: int| from <= i < s.len() ==> s[i] != ':',
    ensures
        scheme_end(s, from) is None,
    decreases s.len() - from,
{
    if from + 3 <= s.len() {
        lemma_no_scheme_end(s, from + 1);
    }
}

proof fn lemma_before_slash(host: Seq<char>, rest: Seq<char>)
    requires
        !host.contains('/'),
        rest.len() > 0 ==> rest[0] == '/',
    ensures
        before_slash(host + rest) == host,
    decreases host.len(),
{
    let s = host + rest;
    if host.len() == 0 {
        assert(s =~= rest);
        assert(before_slash(s) =~= host);
    } else {
        assert(s[0] == host[0]);
        assert(host.contains(host[0]));
        assert forall|c: char| host.skip(1).contains(c) implies host.contains(c) by {
            let i = choose|i: int| 0 <= i < host.skip(1).len() && host.skip(1)[i] == c;
            assert(host[i + 1] == c);
        }
        lemma_before_slash(host.skip(1), rest);
        assert(s.skip(1) =~= host.skip(1) + rest);
        assert(seq![host[0]] + host.skip(1) =~= host);
    }
}

/// A CA is labelled by the host of its directory and the first six bytes of the digest of the
/// whole address.
pub proof fn law_directories_are_labelled_by_host(
    scheme: Seq<char>,
    host: Seq<char>,
    path: Seq<char>,
    url: &str,
    r: String,
)
    requires
        !scheme.contains(':'),
        forall|i: int|
            0 <= i < host.len() ==> 'a' <= (#[trigger] host[i]) <= 'z' || '0' <= host[i] <= '9'
                || host[i] == '.' || host[i] == '-',
        !path.contains(':'),
        path.len() > 0 ==> path[0] == '/',
        url@ == scheme + seq![':', '/', '/'] + host + path,
        call_ensures(directory_label, (url,), r),
    ensures
        r@ == host + seq!['-'] + digest::hex(digest::sha256(encode_utf8(url@)).take(6)),
{
    let s = url@;
    let at = scheme.len() as int;
    assert forall|i: int| 0 <= i < at implies s[i] != ':' by {
        assert(scheme.contains(scheme[i]));
        assert(s[i] == scheme[i]);
    }
    assert(s[at] == ':' && s[at + 1] == '/' && s[at + 2] == '/');
    lemma_scheme_end(s, 0, at);
    assert forall|i: int| at + 3 <= i < s.len() implies s[i] != ':' by {
        let j = i - at - 3;
        if j < host.len() {
            assert(s[i] == host[j]);
        } else {
            assert(s[i] == path[j - host.len()]);
            assert(path.contains(path[j - host.len()]));
        }
    }
    lemma_no_scheme_end(s, at + 3);
    assert(s.skip(at + 3) =~= host + path);
    lemma_before_slash(host, path);
    assert(label_host(s) == host);
    assert(host.map_values(|c: char| safe_char(c)) =~= host);
    reveal_strlit("-");
    assert("-"@ =~= seq!['-']);
}

} // verus!
