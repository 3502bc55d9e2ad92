//! One ACME order, step by step, and the challenges that Edges answer for each
//! other.

use rcgen::KeyPair;
use vstd::prelude::*;
use vstd::string::*;
use crate::edge::acme::{Coordination, Http01Challenges};
use crate::edge::config::AcmeChallenge;
use crate::pki;
use crate::pki::{key_pem, new_key};
use crate::text;
use crate::text::{decimal_text, same_text};
use crate::text_set::TextSet;

verus! {

/// What the CA says of an authorization.
#[derive(Debug)]
pub enum AuthorizationStatus {
    Valid,
    Pending,
    /// Anything else, in the CA client's words.
    Other(String),
}

/// Whom an authorization is for.
#[derive(Debug)]
pub enum AuthorizedName {
    Dns(String),
    /// Anything else, in the CA client's words.
    Other(String),
}

/// One authorization of an order, with the challenges that the CA offers.
#[derive(Debug)]
pub struct Authorization {
    pub status: AuthorizationStatus,
    pub name: AuthorizedName,
    /// Token and key authorization of the http-01 challenge
    pub http01: Option<(String, String)>,
    /// The TXT value of the dns-01 challenge
    pub dns01: Option<String>,
}

/// What has to be done next for an order.
#[derive(Debug)]
pub enum OrderAction {
    NextAuthorization,
    /// Answer this token with the key authorization; tell the other Edges too
    /// where the order is coordinated, and wait for them.
    PublishHttp01 { token: String, key_authorization: String, distribute: bool },
    /// Add a TXT value for the name.
    AddTxt { base: String, value: String },
    WaitPropagated,
    /// Tell the CA that the challenge can be checked.
    SetReady,
    /// Wait until the CA has checked the challenges.
    PollReady,
    /// Send a certificate request for the domain.
    Finalize,
    Download,
    Done,
    Fail(String),
}

/// What came of waiting for an order.
#[derive(Debug)]
pub enum OrderStatus {
    Ready,
    /// Anything else, in the CA client's words.
    Other(String),
}

/// What the last action gave.
#[derive(Debug)]
pub enum OrderEvent {
    /// `None` after the last authorization.
    Authorization(Result<Option<Authorization>, String>),
    Published(Result<(), String>),
    TxtAdded(Result<(), String>),
    Propagated(Result<(), String>),
    ReadySet(Result<(), String>),
    Polled(Result<OrderStatus, String>),
    Finalized(Result<(), String>),
    Downloaded(Result<(), String>),
}

/// An order for a domain.
#[derive(Debug)]
pub struct OrderRun {
    pub challenge: AcmeChallenge,
    pub coordination: Coordination,
    /// Whether there are DNS providers for dns-01
    pub has_solver: bool,
    /// The tokens that have to be withdrawn afterwards
    pub published: Vec<String>,
    /// How many TXT values have to be removed afterwards
    pub txt_values: u64,
}

/// Why a challenge cannot be met.
pub open spec fn authorization_fault(
    a: Authorization,
    challenge: AcmeChallenge,
    has_solver: bool,
) -> Option<Seq<char>> {
    match a.status {
        AuthorizationStatus::Other(s) => Some("authorization is "@ + s@),
        AuthorizationStatus::Valid => None,
        AuthorizationStatus::Pending => match challenge {
            AcmeChallenge::Http01 => if a.http01 is None {
                Some("CA did not offer an http-01 challenge"@)
            } else {
                None
            },
            AcmeChallenge::Dns01 => if !has_solver {
                Some("dns-01 requires DNS providers"@)
            } else {
                match a.name {
                    AuthorizedName::Other(s) => Some("unsupported identifier "@ + s@),
                    AuthorizedName::Dns(_) => if a.dns01 is None {
                        Some("CA did not offer a dns-01 challenge"@)
                    } else {
                        None
                    },
                }
            },
        },
    }
}

/// Whether an action is a failure with these words.
pub open spec fn fails(r: OrderAction, words: Seq<char>) -> bool {
    r is Fail && r->Fail_0@ == words
}

fn fail(context: &str, e: String) -> (r: OrderAction)
    ensures
        fails(r, context@ + e@),
{
    OrderAction::Fail(context.to_owned().concat(e.as_str()))
}

impl OrderRun {
    pub fn new(challenge: AcmeChallenge, coordination: Coordination, has_solver: bool) -> (r: Self)
        ensures
            r.challenge == challenge,
            r.coordination == coordination,
            r.has_solver == has_solver,
            r.published@.len() == 0,
            r.txt_values == 0,
    {
        OrderRun { challenge, coordination, has_solver, published: Vec::new(), txt_values: 0 }
    }

    fn on_authorization(&mut self, a: Authorization) -> (r: OrderAction)
        ensures
            final(self).challenge == old(self).challenge,
            final(self).coordination == old(self).coordination,
            final(self).has_solver == old(self).has_solver,
            final(self).txt_values == old(self).txt_values,
            match authorization_fault(a, old(self).challenge, old(self).has_solver) {
                Some(e) => fails(r, e) && text::views(final(self).published@) == text::views(
                    old(self).published@,
                ),
                None => if a.status is Valid {
                    r is NextAuthorization && text::views(final(self).published@) == text::views(
                        old(self).published@,
                    )
                } else if old(self).challenge == AcmeChallenge::Http01 {
                    &&& r is PublishHttp01
                    &&& r->token@ == (a.http01->0).0@
                    &&& r->key_authorization@ == (a.http01->0).1@
                    &&& r->distribute == (old(self).coordination == Coordination::Valkey)
                    &&& text::views(final(self).published@) == text::views(
                        old(self).published@,
                    ).push((a.http01->0).0@)
                } else {
                    &&& r is AddTxt
                    &&& r->base@ == a.name->Dns_0@
                    &&& r->value@ == a.dns01->0@
                    &&& text::views(final(self).published@) == text::views(old(self).published@)
                },
            },
    {
        match a.status {
            AuthorizationStatus::Valid => {
                return OrderAction::NextAuthorization;
            },
            AuthorizationStatus::Other(s) => {
                return fail("authorization is ", s);
            },
            AuthorizationStatus::Pending => {},
        }
        match self.challenge {
            AcmeChallenge::Http01 => match a.http01 {
                None => OrderAction::Fail("CA did not offer an http-01 challenge".to_owned()),
                Some((token, key_authorization)) => {
                    let ghost before = text::views(self.published@);
                    self.published.push(token.clone());
                    assert(text::views(self.published@) =~= before.push(token@));
                    OrderAction::PublishHttp01 {
                        token,
                        key_authorization,
                        distribute: self.coordination == Coordination::Valkey,
                    }
                },
            },
            AcmeChallenge::Dns01 => {
                if !self.has_solver {
                    return OrderAction::Fail("dns-01 requires DNS providers".to_owned());
                }
                let base: String = match a.name {
                    AuthorizedName::Dns(name) => name,
                    AuthorizedName::Other(s) => {
                        return fail("unsupported identifier ", s);
                    },
                };
                match a.dns01 {
                    None => OrderAction::Fail("CA did not offer a dns-01 challenge".to_owned()),
                    Some(value) => OrderAction::AddTxt { base, value },
                }
            },
        }
    }

    /// Takes in what the last action gave and says what has to be done next. What
    /// was published is remembered, so that it can be withdrawn whatever becomes
    /// of the order.
    pub fn step(&mut self, event: OrderEvent) -> (r: OrderAction)
        requires
            old(self).txt_values < u64::MAX,
        ensures
            final(self).challenge == old(self).challenge,
            final(self).coordination == old(self).coordination,
            final(self).has_solver == old(self).has_solver,
            ({
                let published = text::views(old(self).published@);
                let keeps = text::views(final(self).published@) == published
                    && final(self).txt_values == old(self).txt_values;
                match event {
                    OrderEvent::Authorization(Err(e)) => keeps && fails(r, e@),
                    OrderEvent::Authorization(Ok(None)) => keeps && r is PollReady,
                    OrderEvent::Authorization(Ok(Some(a))) => match authorization_fault(
                        a,
                        old(self).challenge,
                        old(self).has_solver,
                    ) {
                        Some(e) => keeps && fails(r, e),
                        None => if a.status is Valid {
                            keeps && r is NextAuthorization
                        } else if old(self).challenge == AcmeChallenge::Http01 {
                            &&& r is PublishHttp01
                            &&& r->token@ == (a.http01->0).0@
                            &&& r->key_authorization@ == (a.http01->0).1@
                            &&& r->distribute == (old(self).coordination == Coordination::Valkey)
                            &&& text::views(final(self).published@) == published.push(
                                (a.http01->0).0@,
                            )
                            &&& final(self).txt_values == old(self).txt_values
                        } else {
                            &&& keeps
                            &&& r is AddTxt
                            &&& r->base@ == a.name->Dns_0@
                            &&& r->value@ == a.dns01->0@
                        },
                    },
                    OrderEvent::Published(Ok(_)) => keeps && r is SetReady,
                    OrderEvent::Published(Err(e)) => keeps && fails(r, e@),
                    OrderEvent::TxtAdded(Ok(_)) => r is WaitPropagated && text::views(
                        final(self).published@,
                    ) == published && final(self).txt_values == old(self).txt_values + 1,
                    OrderEvent::TxtAdded(Err(e)) => keeps && fails(r, e@),
                    OrderEvent::Propagated(Ok(_)) => keeps && r is SetReady,
                    OrderEvent::Propagated(Err(e)) => keeps && fails(r, e@),
                    OrderEvent::ReadySet(Ok(_)) => keeps && r is NextAuthorization,
                    OrderEvent::ReadySet(Err(e)) => keeps && fails(
                        r,
                        "set challenge ready: "@ + e@,
                    ),
                    OrderEvent::Polled(Ok(OrderStatus::Ready)) => keeps && r is Finalize,
                    OrderEvent::Polled(Ok(OrderStatus::Other(s))) => keeps && fails(
                        r,
                        "order became "@ + s@,
                    ),
                    OrderEvent::Polled(Err(e)) => keeps && fails(r, "wait for order: "@ + e@),
                    OrderEvent::Finalized(Ok(_)) => keeps && r is Download,
                    OrderEvent::Finalized(Err(e)) => keeps && fails(r, "finalize order: "@ + e@),
                    OrderEvent::Downloaded(Ok(_)) => keeps && r is Done,
                    OrderEvent::Downloaded(Err(e)) => keeps && fails(
                        r,
                        "download certificate: "@ + e@,
                    ),
                }
            }),
    {
        match event {
            OrderEvent::Authorization(Err(e)) => OrderAction::Fail(e),
            OrderEvent::Authorization(Ok(None)) => OrderAction::PollReady,
            OrderEvent::Authorization(Ok(Some(a))) => self.on_authorization(a),
            OrderEvent::Published(Ok(_)) => OrderAction::SetReady,
            OrderEvent::Published(Err(e)) => OrderAction::Fail(e),
            OrderEvent::TxtAdded(Ok(_)) => {
                self.txt_values = self.txt_values + 1;
                OrderAction::WaitPropagated
            },
            OrderEvent::TxtAdded(Err(e)) => OrderAction::Fail(e),
            OrderEvent::Propagated(Ok(_)) => OrderAction::SetReady,
            OrderEvent::Propagated(Err(e)) => OrderAction::Fail(e),
            OrderEvent::ReadySet(Ok(_)) => OrderAction::NextAuthorization,
            OrderEvent::ReadySet(Err(e)) => fail("set challenge ready: ", e),
            OrderEvent::Polled(Ok(OrderStatus::Ready)) => OrderAction::Finalize,
            OrderEvent::Polled(Ok(OrderStatus::Other(s))) => fail("order became ", s),
            OrderEvent::Polled(Err(e)) => fail("wait for order: ", e),
            OrderEvent::Finalized(Ok(_)) => OrderAction::Download,
            OrderEvent::Finalized(Err(e)) => fail("finalize order: ", e),
            OrderEvent::Downloaded(Ok(_)) => OrderAction::Done,
            OrderEvent::Downloaded(Err(e)) => fail("download certificate: ", e),
        }
    }
}

/// Whether a certificate request asks for this name alone, under this key.
pub uninterp spec fn requests(csr: Seq<u8>, name: Seq<char>, key: Seq<u8>) -> bool;

/// `rcgen::CertificateParams::serialize_request` for a single name, without a
/// distinguished name: a request for that name under the key, as DER. Whether the
/// name can be asked for is left unsaid.
#[verifier::external_body]
fn sign_request(domain: &str, key: &KeyPair) -> (r: Result<Vec<u8>, String>)
    ensures
        r is Ok ==> requests(r->Ok_0@, domain@, pki::public_key(*key)),
{
    let mut params = rcgen::CertificateParams::new(vec![domain.to_string()]).map_err(
        |e| e.to_string(),
    )?;
    params.distinguished_name = rcgen::DistinguishedName::new();
    let csr = params.serialize_request(key).map_err(|e| e.to_string())?;
    Ok(csr.der().to_vec())
}

/// What is sent to finalize an order, or why there is nothing to send.
pub enum Finalization {
    /// The certificate request as DER, and the key that it is for as PEM.
    Request { csr_der: Vec<u8>, key_pem: String },
    Failed(OrderAction),
}

/// A certificate request for the domain of an order that is ready, under a new key.
pub fn finalize_request(domain: &str) -> (r: Finalization)
    ensures
        match r {
            Finalization::Request { csr_der, key_pem } => pki::pem_key(key_pem@) is Ok && requests(
                csr_der@,
                domain@,
                pki::pem_key(key_pem@)->Ok_0,
            ),
            Finalization::Failed(action) => action is Fail,
        },
{
    let key: KeyPair = match new_key() {
        Ok(key) => key,
        Err(e) => {
            return Finalization::Failed(OrderAction::Fail(e));
        },
    };
    match sign_request(domain, &key) {
        Ok(csr_der) => Finalization::Request { csr_der, key_pem: key_pem(&key) },
        Err(e) => Finalization::Failed(OrderAction::Fail(e)),
    }
}

/// Whether a journaled TXT value of a domain may be removed: nobody else holds
/// the lease for the domain or for its wildcard, as far as that could be checked.
/// An entry whose domain is leased by another Edge belongs to an order that is
/// still running.
pub fn removable(
    own_edge_id: &str,
    domain_owner: &Result<Option<String>, String>,
    wildcard_owner: &Result<Option<String>, String>,
) -> (r: bool)
    ensures
        r == (free_for(own_edge_id@, *domain_owner) && free_for(own_edge_id@, *wildcard_owner)),
{
    lease_is_free(own_edge_id, domain_owner) && lease_is_free(own_edge_id, wildcard_owner)
}

/// Whether a lease is held by nobody or by this Edge.
pub open spec fn free_for(own: Seq<char>, owner: Result<Option<String>, String>) -> bool {
    match owner {
        Ok(None) => true,
        Ok(Some(o)) => o@ == own,
        Err(_) => false,
    }
}

fn lease_is_free(own: &str, owner: &Result<Option<String>, String>) -> (r: bool)
    ensures
        r == free_for(own@, *owner),
{
    match owner {
        Ok(None) => true,
        Ok(Some(o)) => same_text(o.as_str(), own),
        Err(_) => false,
    }
}

/// The texts of a list that the other does or does not contain.
pub open spec fn chosen(
    list: Seq<Seq<char>>,
    among: Seq<Seq<char>>,
    without: Seq<Seq<char>>,
) -> Seq<Seq<char>>
    decreases list.len(),
{
    if list.len() == 0 {
        Seq::empty()
    } else {
        let before = chosen(list.drop_last(), among, without);
        if among.contains(list.last()) && !without.contains(list.last()) {
            before.push(list.last())
        } else {
            before
        }
    }
}

fn choose_texts(list: &TextSet, among: &TextSet, without: &TextSet) -> (r: Vec<String>)
    ensures
        text::views(r@) == chosen(list@, among@, without@),
{
    let ghost all = list@;
    let n: usize = list.len();
    let mut out: Vec<String> = Vec::new();
    let mut i: usize = 0;
    assert(text::views(out@) =~= chosen(all.take(0), among@, without@));
    while i < n
        invariant
            i <= n == all.len(),
            all == list@,
            text::views(out@) == chosen(all.take(i as int), among@, without@),
        decreases n - i,
    {
        let ghost before = text::views(out@);
        assert(all.take(i + 1).drop_last() =~= all.take(i as int));
        assert(all.take(i + 1).last() == all[i as int]);
        let x: &String = list.item(i);
        if among.contains(x.as_str()) && !without.contains(x.as_str()) {
            out.push(x.clone());
            assert(text::views(out@) =~= before.push(x@));
        }
        i += 1;
    }
    assert(all.take(i as int) =~= all);
    out
}

/// What follows from the confirmations of a published response so far.
#[derive(Debug)]
pub enum Distribution {
    /// Every Edge that answers challenges confirmed it.
    Confirmed,
    Wait,
    Fail(String),
}

/// The live Edges that do not answer challenges; validation fails if the CA
/// reaches one of them.
pub fn silent_edges(live: &TextSet, responders: &TextSet) -> (r: Vec<String>)
    ensures
        text::views(r@) == chosen(live@, live@, responders@),
{
    choose_texts(live, live, responders)
}

/// Decides on a published HTTP-01 response. An Edge that does not serve
/// challenges never confirms one, so only live Edges that do are waited for.
pub fn distribution(
    live: &TextSet,
    responders: &TextSet,
    acks: &TextSet,
    past_deadline: bool,
) -> (r: Distribution)
    ensures
        ({
            let missing = chosen(live@, responders@, acks@).len();
            if missing == 0 {
                r is Confirmed
            } else if past_deadline {
                r is Fail && r->Fail_0@ == text::decimal(missing)
                    + " edge(s) did not confirm the HTTP-01 response; use dns-01 when not every edge can serve challenges"@
            } else {
                r is Wait
            }
        }),
{
    let missing: usize = choose_texts(live, responders, acks).len();
    if missing == 0 {
        return Distribution::Confirmed;
    }
    if past_deadline {
        let mut m: String = decimal_text(missing as u64);
        m.append(
            " edge(s) did not confirm the HTTP-01 response; use dns-01 when not every edge can serve challenges",
        );
        return Distribution::Fail(m);
    }
    Distribution::Wait
}

/// A response that a peer published.
#[derive(Debug)]
pub struct PublishedResponse {
    pub hostname: String,
    pub token: String,
    pub key_authorization: String,
}

/// For whom a response is.
pub open spec fn response_key(p: PublishedResponse) -> (Seq<char>, Seq<char>) {
    (p.hostname@, p.token@)
}

/// Pairs of texts by the values that they hold.
pub open spec fn pair_views(v: Seq<(String, String)>) -> Seq<(Seq<char>, Seq<char>)> {
    v.map_values(|p: (String, String)| (p.0@, p.1@))
}

/// The responses with those that peers published and were not there yet, and the
/// keys of those that were taken over.
pub open spec fn taken_over(
    m: Map<(Seq<char>, Seq<char>), Seq<char>>,
    synced: Seq<(Seq<char>, Seq<char>)>,
    pending: Seq<PublishedResponse>,
) -> (Map<(Seq<char>, Seq<char>), Seq<char>>, Seq<(Seq<char>, Seq<char>)>)
    decreases pending.len(),
{
    if pending.len() == 0 {
        (m, synced)
    } else {
        let (now, keys) = taken_over(m, synced, pending.drop_last());
        let key = response_key(pending.last());
        if now.contains_key(key) {
            (now, keys)
        } else {
            (now.insert(key, pending.last().key_authorization@), keys.push(key))
        }
    }
}

/// Whether a response with this key is published.
pub open spec fn is_pending(pending: Seq<PublishedResponse>, key: (Seq<char>, Seq<char>)) -> bool {
    exists|i: int| 0 <= i < pending.len() && response_key(#[trigger] pending[i]) == key
}

/// The keys of which responses are still published.
pub open spec fn still_pending(
    keys: Seq<(Seq<char>, Seq<char>)>,
    pending: Seq<PublishedResponse>,
) -> Seq<(Seq<char>, Seq<char>)>
    decreases keys.len(),
{
    if keys.len() == 0 {
        Seq::empty()
    } else {
        let before = still_pending(keys.drop_last(), pending);
        if is_pending(pending, keys.last()) {
            before.push(keys.last())
        } else {
            before
        }
    }
}

/// The responses without those that were taken over and are no longer published.
pub open spec fn without_withdrawn(
    m: Map<(Seq<char>, Seq<char>), Seq<char>>,
    keys: Seq<(Seq<char>, Seq<char>)>,
    pending: Seq<PublishedResponse>,
) -> Map<(Seq<char>, Seq<char>), Seq<char>>
    decreases keys.len(),
{
    if keys.len() == 0 {
        m
    } else {
        let before = without_withdrawn(m, keys.drop_last(), pending);
        if is_pending(pending, keys.last()) {
            before
        } else {
            before.remove(keys.last())
        }
    }
}

fn has_pending(pending: &Vec<PublishedResponse>, hostname: &str, token: &str) -> (r: bool)
    ensures
        r == is_pending(pending@, (hostname@, token@)),
{
    let mut i: usize = 0;
    while i < pending.len()
        invariant
            i <= pending.len(),
            forall|j: int| 0 <= j < i ==> response_key(#[trigger] pending@[j]) != (hostname@, token@),
        decreases pending.len() - i,
    {
        if same_text(pending[i].hostname.as_str(), hostname) && same_text(
            pending[i].token.as_str(),
            token,
        ) {
            assert(response_key(pending@[i as int]) == (hostname@, token@));
            return true;
        }
        i += 1;
    }
    false
}

/// Answers the challenges that peers published, whatever domain they validate,
/// and stops answering those that they withdrew. Responses of this Edge's own
/// orders are left alone. `synced` holds what was taken over from peers.
pub fn sync_http01_challenges(
    challenges: &mut Http01Challenges,
    pending: &Vec<PublishedResponse>,
    synced: &mut Vec<(String, String)>,
)
    ensures
        ({
            let (now, keys) = taken_over(
                old(challenges).published(),
                pair_views(old(synced)@),
                pending@,
            );
            &&& final(challenges).published() == without_withdrawn(now, keys, pending@)
            &&& pair_views(final(synced)@) == still_pending(keys, pending@)
        }),
        final(challenges).managed() == old(challenges).managed(),
        final(challenges).budget() == old(challenges).budget(),
{
    let ghost m = challenges.published();
    let ghost first = pair_views(synced@);
    let ghost all = pending@;
    let mut i: usize = 0;
    assert(all.take(0) =~= Seq::<PublishedResponse>::empty());
    while i < pending.len()
        invariant
            i <= pending.len(),
            all == pending@,
            (challenges.published(), pair_views(synced@)) == taken_over(
                m,
                first,
                all.take(i as int),
            ),
            challenges.managed() == old(challenges).managed(),
            challenges.budget() == old(challenges).budget(),
        decreases pending.len() - i,
    {
        let ghost keys = pair_views(synced@);
        assert(all.take(i + 1).drop_last() =~= all.take(i as int));
        assert(all.take(i + 1).last() == all[i as int]);
        let p: &PublishedResponse = &pending[i];
        if challenges.lookup(p.hostname.as_str(), p.token.as_str()).is_none() {
            challenges.insert(
                p.hostname.as_str(),
                p.token.as_str(),
                p.key_authorization.as_str(),
            );
            synced.push((p.hostname.clone(), p.token.clone()));
            assert(pair_views(synced@) =~= keys.push(response_key(*p)));
        }
        i += 1;
    }
    assert(all.take(i as int) =~= all);
    let ghost now = challenges.published();
    let ghost keys = pair_views(synced@);
    let mut kept: Vec<(String, String)> = Vec::new();
    let mut k: usize = 0;
    assert(keys.take(0) =~= Seq::<(Seq<char>, Seq<char>)>::empty());
    assert(pair_views(kept@) =~= still_pending(keys.take(0), all));
    while k < synced.len()
        invariant
            k <= synced.len() == keys.len(),
            keys == pair_views(synced@),
            all == pending@,
            challenges.published() == without_withdrawn(now, keys.take(k as int), all),
            pair_views(kept@) == still_pending(keys.take(k as int), all),
            challenges.managed() == old(challenges).managed(),
            challenges.budget() == old(challenges).budget(),
        decreases synced.len() - k,
    {
        let ghost before = pair_views(kept@);
        assert(keys.take(k + 1).drop_last() =~= keys.take(k as int));
        assert(keys.take(k + 1).last() == (synced@[k as int].0@, synced@[k as int].1@));
        let hostname: String = synced[k].0.clone();
        let token: String = synced[k].1.clone();
        if has_pending(pending, hostname.as_str(), token.as_str()) {
            kept.push((hostname, token));
            assert(pair_views(kept@) =~= before.push((hostname@, token@)));
        } else {
            challenges.remove(hostname.as_str(), token.as_str());
        }
        k += 1;
    }
    assert(keys.take(k as int) =~= keys);
    *synced = kept;
}

/// A response of one of this Edge's own orders, which was not taken over from a
/// peer, is neither replaced nor withdrawn on account of what peers publish.
pub proof fn law_own_responses_are_left_alone(
    m: Map<(Seq<char>, Seq<char>), Seq<char>>,
    synced: Seq<(Seq<char>, Seq<char>)>,
    pending: Seq<PublishedResponse>,
    key: (Seq<char>, Seq<char>),
)
    requires
        m.contains_key(key),
        !synced.contains(key),
    ensures
        ({
            let (now, keys) = taken_over(m, synced, pending);
            let after = without_withdrawn(now, keys, pending);
            after.contains_key(key) && after[key] == m[key]
        }),
{
    lemma_taken_over_keeps(m, synced, pending, key);
    let (now, keys) = taken_over(m, synced, pending);
    lemma_withdrawn_keeps(now, keys, pending, key);
}

proof fn lemma_taken_over_keeps(
    m: Map<(Seq<char>, Seq<char>), Seq<char>>,
    synced: Seq<(Seq<char>, Seq<char>)>,
    pending: Seq<PublishedResponse>,
    key: (Seq<char>, Seq<char>),
)
    requires
        m.contains_key(key),
        !synced.contains(key),
    ensures
        ({
            let (now, keys) = taken_over(m, synced, pending);
            now.contains_key(key) && now[key] == m[key] && !keys.contains(key)
        }),
    decreases pending.len(),
{
    if pending.len() > 0 {
        lemma_taken_over_keeps(m, synced, pending.drop_last(), key);
        let (now, keys) = taken_over(m, synced, pending.drop_last());
        let k = response_key(pending.last());
        if !now.contains_key(k) {
            let next = keys.push(k);
            if next.contains(key) {
                let i = choose|i: int| 0 <= i < next.len() && next[i] == key;
                if i < keys.len() {
                    assert(keys[i] == key);
                }
            }
        }
    }
}

proof fn lemma_withdrawn_keeps(
    m: Map<(Seq<char>, Seq<char>), Seq<char>>,
    keys: Seq<(Seq<char>, Seq<char>)>,
    pending: Seq<PublishedResponse>,
    key: (Seq<char>, Seq<char>),
)
    requires
        m.contains_key(key),
        !keys.contains(key),
    ensures
        ({
            let after = without_withdrawn(m, keys, pending);
            after.contains_key(key) && after[key] == m[key]
        }),
    decreases keys.len(),
{
    if keys.len() > 0 {
        let head = keys.drop_last();
        if head.contains(key) {
            let i = choose|i: int| 0 <= i < head.len() && head[i] == key;
            assert(keys[i] == key);
        }
        assert(keys[keys.len() - 1] == keys.last());
        lemma_withdrawn_keeps(m, head, pending, key);
    }
}

/// A pending authorization is answered by the configured challenge and by nothing else: over
/// HTTP with the token and response that the CA gave, spread to the other Edges where they
/// share the work, or in DNS with the CA's value under the authorized name.
pub proof fn law_pending_authorizations_are_answered(
    run: &mut OrderRun,
    a: Authorization,
    r: OrderAction,
)
    requires
        old(run).txt_values < u64::MAX,
        call_ensures(OrderRun::step, (run, OrderEvent::Authorization(Ok(Some(a)))), r),
    ensures
        a.status is Valid ==> r is NextAuthorization,
        a.status is Other ==> r is Fail,
        a.status is Pending && old(run).challenge is Http01 ==> match a.http01 {
            Some((token, response)) => {
                &&& r is PublishHttp01
                &&& r->token@ == token@
                &&& r->key_authorization@ == response@
                &&& r->distribute == (old(run).coordination is Valkey)
                &&& final(run).published@.len() == old(run).published@.len() + 1
                &&& final(run).published@.last()@ == token@
            },
            None => r is Fail,
        },
        a.status is Pending && old(run).challenge is Dns01 ==> match (a.name, a.dns01) {
            (AuthorizedName::Dns(name), Some(value)) => if old(run).has_solver {
                r is AddTxt && r->base@ == name@ && r->value@ == value@
            } else {
                r is Fail
            },
            _ => r is Fail,
        },
        !(r is PublishHttp01) ==> text::views(final(run).published@) == text::views(
            old(run).published@,
        ),
        final(run).txt_values == old(run).txt_values,
{
    if r is PublishHttp01 {
        let before = text::views(old(run).published@);
        let after = text::views(final(run).published@);
        assert(after.len() == before.len() + 1);
        assert(after.last() == final(run).published@.last()@);
    }
}

/// Once every authorization was answered the order is waited for, finalized when it is ready,
/// and its certificate is downloaded. Whatever fails on the way ends the order.
pub proof fn law_orders_go_step_by_step(run: &mut OrderRun, event: OrderEvent, r: OrderAction)
    requires
        old(run).txt_values < u64::MAX,
        call_ensures(OrderRun::step, (run, event), r),
    ensures
        event matches OrderEvent::Authorization(Ok(None)) ==> r is PollReady,
        event matches OrderEvent::Published(Ok(_)) ==> r is SetReady,
        event matches OrderEvent::TxtAdded(Ok(_)) ==> r is WaitPropagated && final(run).txt_values
            == old(run).txt_values + 1,
        event matches OrderEvent::Propagated(Ok(_)) ==> r is SetReady,
        event matches OrderEvent::ReadySet(Ok(_)) ==> r is NextAuthorization,
        event matches OrderEvent::Polled(Ok(status)) ==> match status {
            OrderStatus::Ready => r is Finalize,
            OrderStatus::Other(_) => r is Fail,
        },
        event matches OrderEvent::Finalized(Ok(_)) ==> r is Download,
        event matches OrderEvent::Downloaded(Ok(_)) ==> r is Done,
        !(event matches OrderEvent::TxtAdded(Ok(_))) ==> final(run).txt_values == old(run).txt_values,
        match event {
            OrderEvent::Authorization(x) => x is Err,
            OrderEvent::Published(x) => x is Err,
            OrderEvent::TxtAdded(x) => x is Err,
            OrderEvent::Propagated(x) => x is Err,
            OrderEvent::ReadySet(x) => x is Err,
            OrderEvent::Polled(x) => x is Err,
            OrderEvent::Finalized(x) => x is Err,
            OrderEvent::Downloaded(x) => x is Err,
        } ==> r is Fail,
        r is Done ==> event is Downloaded,
        r is Finalize ==> event is Polled,
{
}

/// Values in DNS may be removed if and only if no other Edge holds the lease of the domain or of
/// its wildcard, as far as both are known.
pub proof fn law_values_are_removed_by_their_owner(
    own: &str,
    domain_owner: Result<Option<String>, String>,
    wildcard_owner: Result<Option<String>, String>,
    r: bool,
)
    requires
        call_ensures(removable, (own, &domain_owner, &wildcard_owner), r),
    ensures
        domain_owner is Err || wildcard_owner is Err ==> !r,
        domain_owner matches Ok(Some(o)) ==> (o@ != own@ ==> !r),
        wildcard_owner matches Ok(Some(o)) ==> (o@ != own@ ==> !r),
        domain_owner is Ok && wildcard_owner is Ok && (domain_owner->Ok_0 is None || (
        domain_owner->Ok_0->0)@ == own@) && (wildcard_owner->Ok_0 is None || (
        wildcard_owner->Ok_0->0)@ == own@) ==> r,
{
}

proof fn lemma_chosen(
    list: Seq<Seq<char>>,
    among: Seq<Seq<char>>,
    without: Seq<Seq<char>>,
    x: Seq<char>,
)
    ensures
        chosen(list, among, without).contains(x) == (list.contains(x) && among.contains(x)
            && !without.contains(x)),
    decreases list.len(),
{
    if list.len() > 0 {
        let front = list.drop_last();
        lemma_chosen(front, among, without, x);
        let before = chosen(front, among, without);
        let all = chosen(list, among, without);
        assert(list =~= front.push(list.last()));
        if before.contains(x) {
            let i = before.index_of(x);
            assert(all[i] == x);
        }
        if front.contains(x) {
            let i = front.index_of(x);
            assert(list[i] == x);
        }
        if list.contains(x) {
            let i = list.index_of(x);
            if i < front.len() {
                assert(front[i] == x);
            } else if all.len() > before.len() {
                assert(all[all.len() - 1] == x);
            }
        }
        if all.contains(x) {
            let i = all.index_of(x);
            if i < before.len() {
                assert(before[i] == x);
            } else {
                assert(list[list.len() - 1] == x);
            }
        }
    }
}

/// A response is confirmed if and only if every live Edge that answers challenges has
/// acknowledged it; after the deadline an Edge that has not makes it fail. The live Edges that
/// do not answer are the silent ones.
pub proof fn law_live_responders_have_to_confirm(
    live: TextSet,
    responders: TextSet,
    acks: TextSet,
    past_deadline: bool,
    r: Distribution,
    silent: Vec<String>,
    x: Seq<char>,
)
    requires
        call_ensures(distribution, (&live, &responders, &acks, past_deadline), r),
        call_ensures(silent_edges, (&live, &responders), silent),
    ensures
        live@.contains(x) && responders@.contains(x) && !acks@.contains(x) ==> !(r is Confirmed),
        !(r is Confirmed) ==> exists|y: Seq<char>| #[trigger]
            live@.contains(y) && responders@.contains(y) && !acks@.contains(y),
        r is Fail ==> past_deadline,
        past_deadline ==> !(r is Wait),
        text::views(silent@).contains(x) == (live@.contains(x) && !responders@.contains(x)),
{
    let missing = chosen(live@, responders@, acks@);
    lemma_chosen(live@, responders@, acks@, x);
    lemma_chosen(live@, live@, responders@, x);
    if missing.contains(x) {
        assert(missing.len() > 0);
    }
    if missing.len() > 0 {
        let y = missing[0];
        assert(missing.contains(y));
        lemma_chosen(live@, responders@, acks@, y);
    }
}

proof fn lemma_taken_over(
    m: Map<(Seq<char>, Seq<char>), Seq<char>>,
    synced: Seq<(Seq<char>, Seq<char>)>,
    pending: Seq<PublishedResponse>,
    key: (Seq<char>, Seq<char>),
)
    ensures
        ({
            let (now, keys) = taken_over(m, synced, pending);
            &&& now.contains_key(key) == (m.contains_key(key) || is_pending(pending, key))
            &&& m.contains_key(key) ==> now[key] == m[key]
            &&& keys.contains(key) == (synced.contains(key) || (is_pending(pending, key)
                && !m.contains_key(key)))
            &&& is_pending(pending, key) && !m.contains_key(key) ==> exists|i: int|
                0 <= i < pending.len() && response_key(#[trigger] pending[i]) == key && now[key]
                    == pending[i].key_authorization@
        }),
    decreases pending.len(),
{
    if pending.len() > 0 {
        let front = pending.drop_last();
        lemma_taken_over(m, synced, front, key);
        let (then_m, then_keys) = taken_over(m, synced, front);
        let (now, keys) = taken_over(m, synced, pending);
        let k = response_key(pending.last());
        let last = pending.len() - 1;
        assert(pending[last] == pending.last());
        if is_pending(front, key) {
            let i = choose|i: int| 0 <= i < front.len() && response_key(#[trigger] front[i]) == key;
            assert(pending[i] == front[i]);
            if !m.contains_key(key) {
                let j = choose|j: int|
                    0 <= j < front.len() && response_key(#[trigger] front[j]) == key && then_m[key]
                        == front[j].key_authorization@;
                assert(pending[j] == front[j]);
                assert(now[key] == then_m[key]);
            }
        }
        if is_pending(pending, key) && !is_pending(front, key) {
            let i = choose|i: int|
                0 <= i < pending.len() && response_key(#[trigger] pending[i]) == key;
            if i < front.len() {
                assert(front[i] == pending[i]);
            }
            assert(k == key);
        }
        if then_keys.contains(key) {
            let i = then_keys.index_of(key);
            assert(keys[i] == key);
        }
        if keys.contains(key) && keys.len() > then_keys.len() {
            let i = keys.index_of(key);
            if i < then_keys.len() {
                assert(then_keys[i] == key);
            }
        }
        if k == key && keys.len() > then_keys.len() {
            assert(keys[keys.len() - 1] == key);
        }
    }
}

proof fn lemma_withdrawn(
    m: Map<(Seq<char>, Seq<char>), Seq<char>>,
    keys: Seq<(Seq<char>, Seq<char>)>,
    pending: Seq<PublishedResponse>,
    key: (Seq<char>, Seq<char>),
)
    ensures
        ({
            let after = without_withdrawn(m, keys, pending);
            &&& after.contains_key(key) == (m.contains_key(key) && (is_pending(pending, key)
                || !keys.contains(key)))
            &&& after.contains_key(key) ==> after[key] == m[key]
        }),
    decreases keys.len(),
{
    if keys.len() > 0 {
        let head = keys.drop_last();
        lemma_withdrawn(m, head, pending, key);
        assert(keys[keys.len() - 1] == keys.last());
        if head.contains(key) {
            let i = head.index_of(key);
            assert(keys[i] == key);
        }
        if keys.contains(key) {
            let i = keys.index_of(key);
            if i < head.len() {
                assert(head[i] == key);
            }
        }
    }
}

/// What the other Edges publish is answered here too, as long as they publish it; what was
/// taken over from them goes when they withdraw it. An Edge's own responses stay as they are.
pub proof fn law_responses_of_others_are_taken_over(
    challenges: &mut Http01Challenges,
    pending: Vec<PublishedResponse>,
    synced: &mut Vec<(String, String)>,
    hostname: Seq<char>,
    token: Seq<char>,
)
    requires
        call_ensures(sync_http01_challenges, (challenges, &pending, synced), ()),
    ensures
        ({
            let key = (hostname, token);
            let before = old(challenges).published();
            let after = final(challenges).published();
            let offered = exists|i: int|
                0 <= i < pending@.len() && (#[trigger] pending@[i]).hostname@ == hostname
                    && pending@[i].token@ == token;
            let theirs = exists|i: int|
                0 <= i < old(synced)@.len() && (#[trigger] old(synced)@[i]).0@ == hostname && old(synced)@[i].1@ == token;
            &&& offered ==> after.contains_key(key)
            &&& before.contains_key(key) && (offered || !theirs) ==> after.contains_key(key)
                && after[key] == before[key]
            &&& !offered && theirs ==> !after.contains_key(key)
            &&& !offered && !before.contains_key(key) ==> !after.contains_key(key)
            &&& offered && !before.contains_key(key) ==> exists|i: int|
                0 <= i < pending@.len() && (#[trigger] pending@[i]).hostname@ == hostname
                    && pending@[i].token@ == token && after[key] == pending@[i].key_authorization@
        }),
        final(challenges).managed() == old(challenges).managed(),
{
    let key = (hostname, token);
    let before = old(challenges).published();
    let theirs = pair_views(old(synced)@);
    let (now, keys) = taken_over(before, theirs, pending@);
    lemma_taken_over(before, theirs, pending@, key);
    lemma_withdrawn(now, keys, pending@, key);
    if exists|i: int|
        0 <= i < pending@.len() && (#[trigger] pending@[i]).hostname@ == hostname
            && pending@[i].token@ == token {
        let i = choose|i: int|
            0 <= i < pending@.len() && (#[trigger] pending@[i]).hostname@ == hostname
                && pending@[i].token@ == token;
        assert(response_key(pending@[i]) == key);
    }
    if is_pending(pending@, key) {
        let i = choose|i: int|
            0 <= i < pending@.len() && response_key(#[trigger] pending@[i]) == key;
        assert(pending@[i].hostname@ == hostname);
        if !before.contains_key(key) {
            let j = choose|j: int|
                0 <= j < pending@.len() && response_key(#[trigger] pending@[j]) == key && now[key]
                    == pending@[j].key_authorization@;
            assert(pending@[j].hostname@ == hostname);
        }
    }
    if exists|i: int|
        0 <= i < old(synced)@.len() && (#[trigger] old(synced)@[i]).0@ == hostname && old(synced)@[i].1@ == token {
        let i = choose|i: int|
            0 <= i < old(synced)@.len() && (#[trigger] old(synced)@[i]).0@ == hostname && old(synced)@[i].1@ == token;
        assert(theirs[i] == key);
    }
    if theirs.contains(key) {
        let i = theirs.index_of(key);
        assert(old(synced)@[i].0@ == hostname);
    }
}

} // verus!
