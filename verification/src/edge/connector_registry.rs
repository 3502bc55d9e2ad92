//! The Connectors that are connected to this Edge, by hostname and by tenant.

use vstd::prelude::*;
use vstd::string::*;
use dashmap::DashMap;
use std::hash::RandomState;
use crate::concurrent;
use crate::concurrent::{new_numbers, number_of, remove_number, set_number};
use crate::config::Protocol;
use crate::text;
use crate::text::same_text;
use crate::text_map::TextMap;
use crate::text_set::clone_texts;

verus! {

/// One authenticated connection of a Connector.
#[derive(Debug)]
pub struct ConnectorHandle {
    pub tenant_id: String,
    /// Normalized hostnames authorized by the Connector's JWT
    pub hostnames: Vec<String>,
    /// Protocols served per hostname; `None` for Connectors that do not advertise them
    pub services: Option<TextMap<Vec<Protocol>>>,
    /// The number of the QUIC connection
    pub connection: u64,
    /// Unique per registration so that a stale disconnect cannot remove a newer connection
    pub generation: u64,
}

/// A [`ConnectorHandle`] by the values that it holds.
#[verifier::ext_equal]
pub struct HandleView {
    pub tenant_id: Seq<char>,
    pub hostnames: Seq<Seq<char>>,
    pub services: Option<Map<Seq<char>, Seq<Protocol>>>,
    pub connection: u64,
    pub generation: u64,
}

/// Services by the values that they hold.
pub open spec fn services_view(s: Option<TextMap<Vec<Protocol>>>) -> Option<
    Map<Seq<char>, Seq<Protocol>>,
> {
    match s {
        Some(m) => Some(m@.map_values(|v: Vec<Protocol>| v@)),
        None => None,
    }
}

impl View for ConnectorHandle {
    type V = HandleView;

    open spec fn view(&self) -> HandleView {
        HandleView {
            tenant_id: self.tenant_id@,
            hostnames: text::views(self.hostnames@),
            services: services_view(self.services),
            connection: self.connection,
            generation: self.generation,
        }
    }
}

/// Whether a Connector serves a protocol on a hostname. One that does not
/// advertise its services serves every protocol on its hostnames.
pub open spec fn serves(h: HandleView, hostname: Seq<char>, protocol: Protocol) -> bool {
    match h.services {
        None => h.hostnames.contains(hostname),
        Some(m) => m.contains_key(hostname) && m[hostname].contains(protocol),
    }
}

fn has_text(v: &Vec<String>, t: &str) -> (r: bool)
    ensures
        r == text::views(v@).contains(t@),
{
    let ghost all = text::views(v@);
    let mut i: usize = 0;
    while i < v.len()
        invariant
            i <= v.len(),
            all == text::views(v@),
            forall|j: int| 0 <= j < i ==> #[trigger] all[j] != t@,
        decreases v.len() - i,
    {
        assert(all[i as int] == v@[i as int]@);
        if same_text(v[i].as_str(), t) {
            return true;
        }
        i += 1;
    }
    false
}

impl ConnectorHandle {
    pub fn supports(&self, hostname: &str, protocol: Protocol) -> (r: bool)
        ensures
            r == serves(self@, hostname@, protocol),
    {
        match &self.services {
            None => has_text(&self.hostnames, hostname),
            Some(services) => match services.get(hostname) {
                None => false,
                Some(protocols) => {
                    let mut i: usize = 0;
                    while i < protocols.len()
                        invariant
                            i <= protocols.len(),
                            forall|j: int| 0 <= j < i ==> #[trigger] protocols@[j] != protocol,
                        decreases protocols.len() - i,
                    {
                        if protocols[i] == protocol {
                            assert(protocols@[i as int] == protocol);
                            return true;
                        }
                        i += 1;
                    }
                    false
                },
            },
        }
    }
}

fn clone_protocols(v: &Vec<Protocol>) -> (r: Vec<Protocol>)
    ensures
        r@ == v@,
{
    let mut out: Vec<Protocol> = Vec::new();
    let mut i: usize = 0;
    while i < v.len()
        invariant
            i <= v.len(),
            out@ == v@.take(i as int),
        decreases v.len() - i,
    {
        out.push(v[i]);
        i += 1;
        assert(v@.take(i as int) =~= v@.take(i - 1).push(v@[i - 1]));
    }
    assert(v@.take(i as int) =~= v@);
    out
}

fn clone_services(s: &Option<TextMap<Vec<Protocol>>>) -> (r: Option<TextMap<Vec<Protocol>>>)
    ensures
        services_view(r) == services_view(*s),
{
    match s {
        None => None,
        Some(m) => {
            let mut out: TextMap<Vec<Protocol>> = TextMap::new();
            let n: usize = m.len();
            let ghost keys = m.keys();
            let mut i: usize = 0;
            while i < n
                invariant
                    i <= n == keys.len(),
                    keys == m.keys(),
                    forall|k: Seq<char>| #[trigger]
                        out@.contains_key(k) == (exists|j: int| 0 <= j < i && #[trigger] keys[j] == k),
                    forall|k: Seq<char>| #[trigger]
                        out@.contains_key(k) ==> m@.contains_key(k) && out@[k]@ == m@[k]@,
                decreases n - i,
            {
                let ghost before = out@;
                assert(keys.contains(keys[i as int]));
                assert(m@.contains_key(keys[i as int]));
                out.insert(m.key_at(i).clone(), clone_protocols(m.value_at(i)));
                i += 1;
                assert forall|k: Seq<char>| #[trigger]
                    out@.contains_key(k) == (exists|j: int|
                        0 <= j < i && #[trigger] keys[j] == k) by {
                    assert(out@.contains_key(k) == (before.contains_key(k) || k == keys[i - 1]));
                    if before.contains_key(k) {
                        let j = choose|j: int| 0 <= j < i - 1 && #[trigger] keys[j] == k;
                        assert(0 <= j < i && keys[j] == k);
                    }
                }
            }
            assert forall|k: Seq<char>| out@.contains_key(k) == m@.contains_key(k) by {
                if m@.contains_key(k) {
                    assert(keys.contains(k));
                }
            }
            assert(services_view(Some(out))->0 =~= services_view(*s)->0);
            Some(out)
        },
    }
}

impl Clone for ConnectorHandle {
    fn clone(&self) -> (r: Self)
        ensures
            r@ == self@,
    {
        ConnectorHandle {
            tenant_id: self.tenant_id.clone(),
            hostnames: clone_texts(&self.hostnames),
            services: clone_services(&self.services),
            connection: self.connection,
            generation: self.generation,
        }
    }
}

/// The outcome of a registration.
#[derive(Debug)]
pub struct Registered {
    pub handle: ConnectorHandle,
    /// The registration this one replaced. Its QUIC connection is still open and
    /// the caller closes it, since it no longer receives any traffic.
    pub replaced: Option<ConnectorHandle>,
}

/// Everything needed to register an authenticated Connector connection.
#[derive(Debug)]
pub struct Registration {
    pub tenant_id: String,
    pub hostnames: Vec<String>,
    pub services: Option<TextMap<Vec<Protocol>>>,
    pub connection: u64,
}

/// Registry of active Connector QUIC connections. The hostname and tenant
/// indexes always change together.
#[derive(Debug)]
pub struct ConnectorRegistry {
    /// normalized hostname → generation of the connector
    by_hostname: DashMap<String, u64, RandomState>,
    /// tenant_id → generation of the current connector
    by_tenant: DashMap<String, u64, RandomState>,
    /// The current connectors, in the order of their registration.
    handles: Vec<ConnectorHandle>,
    next_generation: u64,
}

/// The first hostname that another tenant serves.
pub open spec fn first_taken(
    live: Map<Seq<char>, HandleView>,
    tenant_id: Seq<char>,
    hostnames: Seq<Seq<char>>,
) -> Option<Seq<char>>
    decreases hostnames.len(),
{
    if hostnames.len() == 0 {
        None
    } else if exists|t: Seq<char>|
        t != tenant_id && #[trigger] live.contains_key(t) && live[t].hostnames.contains(
            hostnames[0],
        ) {
        Some(hostnames[0])
    } else {
        first_taken(live, tenant_id, hostnames.skip(1))
    }
}

/// Whether a registration is the one that serves a hostname.
pub open spec fn answers_for(
    live: Map<Seq<char>, HandleView>,
    hostname: Seq<char>,
    h: HandleView,
) -> bool {
    live.contains_key(h.tenant_id) && live[h.tenant_id] == h && h.hostnames.contains(hostname)
}

/// Whether no registration serves a hostname.
pub open spec fn unserved(live: Map<Seq<char>, HandleView>, hostname: Seq<char>) -> bool {
    forall|t: Seq<char>| #[trigger]
        live.contains_key(t) ==> !live[t].hostnames.contains(hostname)
}

/// Whether no two tenants serve the same hostname.
pub open spec fn exclusive(live: Map<Seq<char>, HandleView>) -> bool {
    forall|a: Seq<char>, b: Seq<char>, h: Seq<char>|
        #![trigger live[a].hostnames.contains(h), live[b].hostnames.contains(h)]
        live.contains_key(a) && live.contains_key(b) && live[a].hostnames.contains(h)
            && live[b].hostnames.contains(h) ==> a == b
}

impl ConnectorRegistry {
    /// The current registration of each tenant.
    pub closed spec fn live(self) -> Map<Seq<char>, HandleView> {
        Map::new(
            |t: Seq<char>|
                exists|i: int| 0 <= i < self.handles@.len() && (#[trigger] self.handles@[i]).tenant_id@ == t,
            |t: Seq<char>|
                self.handles@[choose|i: int|
                    0 <= i < self.handles@.len() && (#[trigger] self.handles@[i]).tenant_id@ == t]@,
        )
    }

    /// The generation of the last registration.
    pub closed spec fn last_generation(self) -> u64 {
        self.next_generation
    }

    /// The indexes agree with the connectors, and no hostname or tenant has two.
    pub closed spec fn wf(self) -> bool {
        let tenants = concurrent::numbers(self.by_tenant);
        let hosts = concurrent::numbers(self.by_hostname);
        &&& forall|i: int|
            0 <= i < self.handles@.len() ==> (#[trigger] self.handles@[i]).generation
                <= self.next_generation
        &&& forall|i: int, j: int|
            0 <= i < j < self.handles@.len() ==> (#[trigger] self.handles@[i]).generation != (
            #[trigger] self.handles@[j]).generation
        &&& forall|i: int|
            0 <= i < self.handles@.len() ==> tenants.contains_key(
                (#[trigger] self.handles@[i]).tenant_id@,
            ) && tenants[self.handles@[i].tenant_id@] == self.handles@[i].generation
        &&& forall|t: Seq<char>| #[trigger]
            tenants.contains_key(t) ==> exists|i: int|
                0 <= i < self.handles@.len() && (#[trigger] self.handles@[i]).tenant_id@ == t
        &&& forall|i: int, h: Seq<char>|
            0 <= i < self.handles@.len() && #[trigger] text::views(
                self.handles@[i].hostnames@,
            ).contains(h) ==> hosts.contains_key(h) && hosts[h] == self.handles@[i].generation
        &&& forall|h: Seq<char>| #[trigger]
            hosts.contains_key(h) ==> exists|i: int|
                0 <= i < self.handles@.len() && #[trigger] text::views(
                    self.handles@[i].hostnames@,
                ).contains(h)
    }

    proof fn lemma_live(self, i: int)
        requires
            self.wf(),
            0 <= i < self.handles@.len(),
        ensures
            self.live().contains_key(self.handles@[i].tenant_id@),
            self.live()[self.handles@[i].tenant_id@] == self.handles@[i]@,
    {
        let t = self.handles@[i].tenant_id@;
        let k = choose|k: int|
            0 <= k < self.handles@.len() && (#[trigger] self.handles@[k]).tenant_id@ == t;
        assert(self.handles@[i].tenant_id@ == t);
        assert(concurrent::numbers(self.by_tenant)[t] == self.handles@[k].generation);
        if i < k {
            assert(self.handles@[i].generation != self.handles@[k].generation);
        } else if k < i {
            assert(self.handles@[k].generation != self.handles@[i].generation);
        }
    }

    proof fn lemma_live_count(self)
        requires
            self.wf(),
        ensures
            self.live().dom().finite(),
            self.live().dom().len() == self.handles@.len(),
    {
        let tenants = self.handles@.map_values(|h: ConnectorHandle| h.tenant_id@);
        assert forall|i: int, j: int| 0 <= i < j < tenants.len() implies tenants[i]
            != tenants[j] by {
            self.lemma_live(i);
            self.lemma_live(j);
            assert(self.handles@[i].generation != self.handles@[j].generation);
        }
        assert(tenants.no_duplicates());
        tenants.unique_seq_to_set();
        assert(self.live().dom() =~= tenants.to_set()) by {
            assert forall|t: Seq<char>| self.live().dom().contains(t)
                == tenants.to_set().contains(t) by {
                if self.live().contains_key(t) {
                    let i = choose|i: int|
                        0 <= i < self.handles@.len() && (#[trigger] self.handles@[i]).tenant_id@
                            == t;
                    assert(tenants[i] == t);
                }
                if tenants.contains(t) {
                    let i = choose|i: int| 0 <= i < tenants.len() && tenants[i] == t;
                    self.lemma_live(i);
                }
            }
        }
    }

    proof fn lemma_live_tenant(self, t: Seq<char>)
        requires
            self.wf(),
            self.live().contains_key(t),
        ensures
            self.live()[t].tenant_id == t,
            self.live()[t].generation <= self.last_generation(),
    {
        let i = choose|i: int|
            0 <= i < self.handles@.len() && (#[trigger] self.handles@[i]).tenant_id@ == t;
        self.lemma_live(i);
    }

    /// Whether the generations are used up.
    pub fn is_full(&self) -> (r: bool)
        ensures
            r == (self.last_generation() == u64::MAX),
    {
        self.next_generation == u64::MAX
    }

    pub fn new() -> (r: Self)
        ensures
            r.wf(),
            r.live() == Map::<Seq<char>, HandleView>::empty(),
            r.last_generation() == 0,
    {
        let r: ConnectorRegistry = ConnectorRegistry {
            by_hostname: new_numbers(),
            by_tenant: new_numbers(),
            handles: Vec::new(),
            next_generation: 0,
        };
        assert(r.live() =~= Map::<Seq<char>, HandleView>::empty());
        r
    }

    fn position(&self, generation: u64) -> (r: Option<usize>)
        ensures
            match r {
                Some(i) => i < self.handles@.len() && self.handles@[i as int].generation
                    == generation,
                None => forall|i: int|
                    0 <= i < self.handles@.len() ==> (#[trigger] self.handles@[i]).generation
                        != generation,
            },
    {
        let mut i: usize = 0;
        while i < self.handles.len()
            invariant
                i <= self.handles.len(),
                forall|j: int| 0 <= j < i ==> (#[trigger] self.handles@[j]).generation != generation,
            decreases self.handles.len() - i,
        {
            if self.handles[i].generation == generation {
                return Some(i);
            }
            i += 1;
        }
        None
    }

    /// Look up by a normalized hostname.
    pub fn get_by_hostname(&self, hostname: &str) -> (r: Option<&ConnectorHandle>)
        requires
            self.wf(),
        ensures
            match r {
                Some(h) => answers_for(self.live(), hostname@, h@),
                None => unserved(self.live(), hostname@),
            },
    {
        let ghost hosts = concurrent::numbers(self.by_hostname);
        match number_of(&self.by_hostname, hostname) {
            None => {
                assert forall|t: Seq<char>| #[trigger] self.live().contains_key(t) implies
                    !self.live()[t].hostnames.contains(hostname@) by {
                    let i = choose|i: int|
                        0 <= i < self.handles@.len() && (#[trigger] self.handles@[i]).tenant_id@ == t;
                    self.lemma_live(i);
                    assert(!text::views(self.handles@[i].hostnames@).contains(hostname@));
                }
                None
            },
            Some(generation) => match self.position(generation) {
                None => {
                    proof {
                        assert(hosts.contains_key(hostname@));
                        let i = choose|i: int|
                            0 <= i < self.handles@.len() && #[trigger] text::views(
                                self.handles@[i].hostnames@,
                            ).contains(hostname@);
                        assert(self.handles@[i].generation == generation);
                    }
                    None
                },
                Some(k) => {
                    proof {
                        assert(hosts.contains_key(hostname@));
                        let i = choose|i: int|
                            0 <= i < self.handles@.len() && #[trigger] text::views(
                                self.handles@[i].hostnames@,
                            ).contains(hostname@);
                        assert(self.handles@[i].generation == generation);
                        if i < k {
                            assert(self.handles@[i].generation != self.handles@[k as int].generation);
                        } else if k < i {
                            assert(self.handles@[k as int].generation != self.handles@[i].generation);
                        }
                        self.lemma_live(k as int);
                    }
                    Some(&self.handles[k])
                },
            },
        }
    }

    /// How many tenants are connected.
    pub fn len(&self) -> (r: usize)
        requires
            self.wf(),
        ensures
            self.live().dom().finite(),
            r == self.live().dom().len(),
    {
        proof {
            self.lemma_live_count();
        }
        self.handles.len()
    }

    /// All current registrations, e.g. to advertise their routes.
    pub fn snapshot(&self) -> (r: &Vec<ConnectorHandle>)
        requires
            self.wf(),
        ensures
            forall|i: int| 0 <= i < r@.len() ==> self.live().contains_key(
                (#[trigger] r@[i]).tenant_id@,
            ) && self.live()[r@[i].tenant_id@] == r@[i]@,
            forall|t: Seq<char>| #[trigger]
                self.live().contains_key(t) ==> exists|i: int|
                    0 <= i < r@.len() && (#[trigger] r@[i])@ == self.live()[t],
    {
        proof {
            assert forall|i: int| 0 <= i < self.handles@.len() implies self.live().contains_key(
                (#[trigger] self.handles@[i]).tenant_id@,
            ) && self.live()[self.handles@[i].tenant_id@] == self.handles@[i]@ by {
                self.lemma_live(i);
            }
            assert forall|t: Seq<char>| #[trigger] self.live().contains_key(t) implies exists|i: int|
                0 <= i < self.handles@.len() && (#[trigger] self.handles@[i])@ == self.live()[t] by {
                let i = choose|i: int|
                    0 <= i < self.handles@.len() && (#[trigger] self.handles@[i]).tenant_id@ == t;
                self.lemma_live(i);
                assert(self.handles@[i]@ == self.live()[t]);
            }
        }
        &self.handles
    }
}

/// The numbers but for those of some texts.
spec fn without(m: Map<Seq<char>, u64>, names: Seq<Seq<char>>) -> Map<Seq<char>, u64> {
    Map::new(|k: Seq<char>| m.contains_key(k) && !names.contains(k), |k: Seq<char>| m[k])
}

/// The numbers with the same one for some texts.
spec fn with_all(m: Map<Seq<char>, u64>, names: Seq<Seq<char>>, n: u64) -> Map<Seq<char>, u64> {
    Map::new(
        |k: Seq<char>| m.contains_key(k) || names.contains(k),
        |k: Seq<char>|
            if names.contains(k) {
                n
            } else {
                m[k]
            },
    )
}

proof fn lemma_contains_push(names: Seq<Seq<char>>, x: Seq<char>, k: Seq<char>)
    ensures
        names.push(x).contains(k) == (names.contains(k) || k == x),
{
    if names.contains(k) {
        let j = choose|j: int| 0 <= j < names.len() && names[j] == k;
        assert(names.push(x)[j] == k);
    }
    assert(names.push(x)[names.len() as int] == x);
}

fn remove_all(m: &mut DashMap<String, u64, RandomState>, names: &Vec<String>, generation: u64)
    requires
        forall|k: Seq<char>| #[trigger]
            text::views(names@).contains(k) && concurrent::numbers(*old(m)).contains_key(k)
                ==> concurrent::numbers(*old(m))[k] == generation,
    ensures
        concurrent::numbers(*final(m)) == without(
            concurrent::numbers(*old(m)),
            text::views(names@),
        ),
{
    let ghost before = concurrent::numbers(*m);
    let ghost all = text::views(names@);
    let mut i: usize = 0;
    assert(concurrent::numbers(*m) =~= without(before, all.take(0)));
    while i < names.len()
        invariant
            i <= names.len() == all.len(),
            all == text::views(names@),
            concurrent::numbers(*m) == without(before, all.take(i as int)),
            forall|k: Seq<char>| #[trigger]
                all.contains(k) && before.contains_key(k) ==> before[k] == generation,
        decreases names.len() - i,
    {
        let ghost now = concurrent::numbers(*m);
        let ghost x = all[i as int];
        assert(x == names@[i as int]@);
        assert(all.contains(x));
        assert(all.take(i + 1) =~= all.take(i as int).push(x));
        if number_of(m, names[i].as_str()) == Some(generation) {
            remove_number(m, names[i].as_str());
        } else {
            assert(!now.contains_key(x));
        }
        assert forall|k: Seq<char>| #[trigger] all.take(i + 1).contains(k) == (all.take(
            i as int,
        ).contains(k) || k == x) by {
            lemma_contains_push(all.take(i as int), x, k);
        }
        assert(concurrent::numbers(*m) =~= without(before, all.take(i + 1)));
        i += 1;
    }
    assert(all.take(i as int) =~= all);
}

fn set_all(m: &mut DashMap<String, u64, RandomState>, names: &Vec<String>, generation: u64)
    ensures
        concurrent::numbers(*final(m)) == with_all(
            concurrent::numbers(*old(m)),
            text::views(names@),
            generation,
        ),
{
    let ghost before = concurrent::numbers(*m);
    let ghost all = text::views(names@);
    let mut i: usize = 0;
    assert(concurrent::numbers(*m) =~= with_all(before, all.take(0), generation));
    while i < names.len()
        invariant
            i <= names.len() == all.len(),
            all == text::views(names@),
            concurrent::numbers(*m) == with_all(before, all.take(i as int), generation),
        decreases names.len() - i,
    {
        let ghost x = all[i as int];
        assert(x == names@[i as int]@);
        assert(all.take(i + 1) =~= all.take(i as int).push(x));
        set_number(m, names[i].clone(), generation);
        assert forall|k: Seq<char>| #[trigger] all.take(i + 1).contains(k) == (all.take(
            i as int,
        ).contains(k) || k == x) by {
            lemma_contains_push(all.take(i as int), x, k);
        }
        assert(concurrent::numbers(*m) =~= with_all(before, all.take(i + 1), generation));
        i += 1;
    }
    assert(all.take(i as int) =~= all);
}

impl ConnectorRegistry {
    /// No two tenants serve the same hostname.
    pub proof fn law_hostname_has_one_tenant(self)
        requires
            self.wf(),
        ensures
            exclusive(self.live()),
    {
        let live = self.live();
        assert forall|a: Seq<char>, b: Seq<char>, h: Seq<char>|
            #![trigger live[a].hostnames.contains(h), live[b].hostnames.contains(h)]
            live.contains_key(a) && live.contains_key(b) && live[a].hostnames.contains(h)
                && live[b].hostnames.contains(h) implies a == b by {
            let i = choose|i: int|
                0 <= i < self.handles@.len() && (#[trigger] self.handles@[i]).tenant_id@ == a;
            let j = choose|j: int|
                0 <= j < self.handles@.len() && (#[trigger] self.handles@[j]).tenant_id@ == b;
            self.lemma_live(i);
            self.lemma_live(j);
            assert(text::views(self.handles@[i].hostnames@).contains(h));
            assert(text::views(self.handles@[j].hostnames@).contains(h));
            if i < j {
                assert(self.handles@[i].generation != self.handles@[j].generation);
            } else if j < i {
                assert(self.handles@[j].generation != self.handles@[i].generation);
            }
        }
    }

    fn forget(&mut self, k: usize) -> (r: ConnectorHandle)
        requires
            old(self).wf(),
            k < old(self).handles@.len(),
        ensures
            r == old(self).handles@[k as int],
            final(self).wf(),
            final(self).live() == old(self).live().remove(r.tenant_id@),
            final(self).next_generation == old(self).next_generation,
            final(self).handles@ == old(self).handles@.remove(k as int),
    {
        let ghost before = *self;
        let ghost hosts = concurrent::numbers(self.by_hostname);
        let h: ConnectorHandle = self.handles.remove(k);
        proof {
            assert forall|x: Seq<char>| #[trigger]
                text::views(h.hostnames@).contains(x) && hosts.contains_key(x) implies hosts[x]
                == h.generation by {
                assert(text::views(before.handles@[k as int].hostnames@).contains(x));
            }
        }
        remove_all(&mut self.by_hostname, &h.hostnames, h.generation);
        remove_number(&mut self.by_tenant, h.tenant_id.as_str());
        proof {
            before.lemma_live(k as int);
            before.law_hostname_has_one_tenant();
            assert(self.handles@ =~= before.handles@.remove(k as int));
            let kept = |i: int| if i < k { i } else { i + 1 };
            assert forall|i: int| 0 <= i < self.handles@.len() implies (#[trigger] self.handles@[i])
                == before.handles@[kept(i)] && self.handles@[i].tenant_id@ != h.tenant_id@ by {
                before.lemma_live(kept(i));
                if kept(i) < k {
                    assert(before.handles@[kept(i)].generation != before.handles@[k as int].generation);
                } else {
                    assert(before.handles@[k as int].generation != before.handles@[kept(i)].generation);
                }
            }
            assert forall|i: int, j: int| 0 <= i < j < self.handles@.len() implies (
            #[trigger] self.handles@[i]).generation != (#[trigger] self.handles@[j]).generation by {
                assert(before.handles@[kept(i)].generation != before.handles@[kept(j)].generation);
            }
            let tenants = concurrent::numbers(self.by_tenant);
            assert forall|t: Seq<char>| #[trigger] tenants.contains_key(t) implies exists|i: int|
                0 <= i < self.handles@.len() && (#[trigger] self.handles@[i]).tenant_id@ == t by {
                let j = choose|j: int|
                    0 <= j < before.handles@.len() && (#[trigger] before.handles@[j]).tenant_id@ == t;
                let i = if j < k { j } else { j - 1 };
                assert(self.handles@[i].tenant_id@ == t);
            }
            assert forall|i: int, x: Seq<char>|
                0 <= i < self.handles@.len() && #[trigger] text::views(
                    self.handles@[i].hostnames@,
                ).contains(x) implies concurrent::numbers(self.by_hostname).contains_key(x)
                && concurrent::numbers(self.by_hostname)[x] == self.handles@[i].generation by {
                assert(self.handles@[i] == before.handles@[kept(i)]);
                assert(text::views(before.handles@[kept(i)].hostnames@).contains(x));
                if text::views(h.hostnames@).contains(x) {
                    assert(text::views(before.handles@[k as int].hostnames@).contains(x));
                    assert(before.handles@[kept(i)].generation
                        == before.handles@[k as int].generation);
                    if kept(i) < k {
                        assert(before.handles@[kept(i)].generation
                            != before.handles@[k as int].generation);
                    } else {
                        assert(before.handles@[k as int].generation
                            != before.handles@[kept(i)].generation);
                    }
                }
            }
            assert forall|x: Seq<char>| #[trigger]
                concurrent::numbers(self.by_hostname).contains_key(x) implies exists|i: int|
                0 <= i < self.handles@.len() && #[trigger] text::views(
                    self.handles@[i].hostnames@,
                ).contains(x) by {
                assert(hosts.contains_key(x));
                let j = choose|j: int|
                    0 <= j < before.handles@.len() && #[trigger] text::views(
                        before.handles@[j].hostnames@,
                    ).contains(x);
                let i = if j < k { j } else { j - 1 };
                assert(self.handles@[i] == before.handles@[j]);
                assert(text::views(self.handles@[i].hostnames@).contains(x));
            }
            assert(self.wf());
            let rest = before.live().remove(h.tenant_id@);
            assert forall|t: Seq<char>| #[trigger] self.live().contains_key(t) implies
                rest.contains_key(t) && self.live()[t] == rest[t] by {
                let i = choose|i: int|
                    0 <= i < self.handles@.len() && (#[trigger] self.handles@[i]).tenant_id@ == t;
                self.lemma_live(i);
                before.lemma_live(kept(i));
                assert(self.handles@[i] == before.handles@[kept(i)]);
            }
            assert forall|t: Seq<char>| #[trigger] rest.contains_key(t) implies
                self.live().contains_key(t) by {
                let j = choose|j: int|
                    0 <= j < before.handles@.len() && (#[trigger] before.handles@[j]).tenant_id@ == t;
                let i = if j < k { j } else { j - 1 };
                assert(self.handles@[i] == before.handles@[j]);
                self.lemma_live(i);
            }
            assert(self.live() =~= rest);
        }
        h
    }

    fn find_taken(&self, tenant_id: &str, hostnames: &Vec<String>) -> (r: Option<usize>)
        requires
            self.wf(),
        ensures
            match r {
                Some(i) => i < hostnames@.len() && first_taken(
                    self.live(),
                    tenant_id@,
                    text::views(hostnames@),
                ) == Some(hostnames@[i as int]@),
                None => first_taken(self.live(), tenant_id@, text::views(hostnames@)) is None,
            },
    {
        let ghost live = self.live();
        let ghost all = text::views(hostnames@);
        let mut i: usize = 0;
        assert(all.skip(0) =~= all);
        while i < hostnames.len()
            invariant
                i <= hostnames.len() == all.len(),
                all == text::views(hostnames@),
                live == self.live(),
                first_taken(live, tenant_id@, all) == first_taken(
                    live,
                    tenant_id@,
                    all.skip(i as int),
                ),
            decreases hostnames.len() - i,
        {
            assert(all.skip(i as int)[0] == hostnames@[i as int]@);
            assert(all.skip(i as int).skip(1) =~= all.skip(i + 1));
            if let Some(h) = self.get_by_hostname(hostnames[i].as_str()) {
                if !same_text(h.tenant_id.as_str(), tenant_id) {
                    assert(live.contains_key(h.tenant_id@));
                    return Some(i);
                }
                proof {
                    self.law_hostname_has_one_tenant();
                    assert(live[tenant_id@].hostnames.contains(hostnames@[i as int]@));
                }
            }
            i += 1;
        }
        assert(all.skip(i as int) =~= Seq::<Seq<char>>::empty());
        None
    }

    fn enlist(&mut self, handle: ConnectorHandle)
        requires
            old(self).wf(),
            handle.generation == old(self).next_generation,
            forall|i: int|
                0 <= i < old(self).handles@.len() ==> (#[trigger] old(self).handles@[i]).generation
                    < handle.generation,
            !old(self).live().contains_key(handle.tenant_id@),
            first_taken(old(self).live(), handle.tenant_id@, text::views(handle.hostnames@)) is None,
        ensures
            final(self).wf(),
            final(self).live() == old(self).live().insert(handle.tenant_id@, handle@),
            final(self).next_generation == old(self).next_generation,
    {
        let ghost rest = *self;
        let ghost live = self.live();
        let ghost tenant = handle.tenant_id@;
        let generation: u64 = handle.generation;
        set_number(&mut self.by_tenant, handle.tenant_id.clone(), generation);
        set_all(&mut self.by_hostname, &handle.hostnames, generation);
        self.handles.push(handle);
        proof {
            let n = rest.handles@.len();
            let views = text::views(handle.hostnames@);
            assert(self.handles@ =~= rest.handles@.push(handle));
            assert forall|i: int| 0 <= i < n implies (#[trigger] rest.handles@[i]).tenant_id@
                != tenant by {
                rest.lemma_live(i);
            }
            assert forall|i: int, x: Seq<char>|
                0 <= i < n && #[trigger] text::views(rest.handles@[i].hostnames@).contains(
                    x,
                ) implies !views.contains(x) by {
                rest.lemma_live(i);
                let t = rest.handles@[i].tenant_id@;
                assert(live.contains_key(t) && live[t].hostnames.contains(x));
                if views.contains(x) {
                    lemma_not_taken(live, tenant, views, x, t);
                }
            }
            let tenants = concurrent::numbers(self.by_tenant);
            let hosts = concurrent::numbers(self.by_hostname);
            assert forall|i: int| 0 <= i < self.handles@.len() implies tenants.contains_key(
                (#[trigger] self.handles@[i]).tenant_id@,
            ) && tenants[self.handles@[i].tenant_id@] == self.handles@[i].generation by {
                if i < n {
                    assert(self.handles@[i] == rest.handles@[i]);
                }
            }
            assert forall|t: Seq<char>| #[trigger] tenants.contains_key(t) implies exists|i: int|
                0 <= i < self.handles@.len() && (#[trigger] self.handles@[i]).tenant_id@ == t by {
                if t == tenant {
                    assert(self.handles@[n as int].tenant_id@ == t);
                } else {
                    assert(concurrent::numbers(rest.by_tenant).contains_key(t));
                    let j = choose|j: int|
                        0 <= j < n && (#[trigger] rest.handles@[j]).tenant_id@ == t;
                    assert(self.handles@[j].tenant_id@ == t);
                }
            }
            assert forall|i: int, x: Seq<char>|
                0 <= i < self.handles@.len() && #[trigger] text::views(
                    self.handles@[i].hostnames@,
                ).contains(x) implies hosts.contains_key(x) && hosts[x]
                == self.handles@[i].generation by {
                if i < n {
                    assert(self.handles@[i] == rest.handles@[i]);
                    assert(text::views(rest.handles@[i].hostnames@).contains(x));
                }
            }
            assert forall|x: Seq<char>| #[trigger] hosts.contains_key(x) implies exists|i: int|
                0 <= i < self.handles@.len() && #[trigger] text::views(
                    self.handles@[i].hostnames@,
                ).contains(x) by {
                if views.contains(x) {
                    assert(text::views(self.handles@[n as int].hostnames@).contains(x));
                } else {
                    assert(concurrent::numbers(rest.by_hostname).contains_key(x));
                    let j = choose|j: int|
                        0 <= j < n && #[trigger] text::views(
                            rest.handles@[j].hostnames@,
                        ).contains(x);
                    assert(text::views(self.handles@[j].hostnames@).contains(x));
                }
            }
            assert(self.wf());
            let after = self.live();
            let expected = live.insert(tenant, handle@);
            assert forall|t: Seq<char>|
                #![trigger after.contains_key(t)]
                #![trigger expected.contains_key(t)]
                after.contains_key(t) == expected.contains_key(t) && (after.contains_key(t)
                    ==> after[t] == expected[t]) by {
                if after.contains_key(t) {
                    let i = choose|i: int|
                        0 <= i < self.handles@.len() && (#[trigger] self.handles@[i]).tenant_id@ == t;
                    self.lemma_live(i);
                    if i < n {
                        rest.lemma_live(i);
                        assert(self.handles@[i] == rest.handles@[i]);
                    }
                }
                if t == tenant {
                    self.lemma_live(n as int);
                } else if live.contains_key(t) {
                    let j = choose|j: int|
                        0 <= j < n && (#[trigger] rest.handles@[j]).tenant_id@ == t;
                    assert(self.handles@[j] == rest.handles@[j]);
                    self.lemma_live(j);
                }
            }
            assert(after =~= expected);
        }
    }

    /// Register a connection. A newer connection of the same tenant replaces the
    /// previous one; hostnames served by another tenant are rejected.
    pub fn register(&mut self, registration: Registration) -> (r: Result<Registered, String>)
        requires
            old(self).wf(),
            old(self).last_generation() < u64::MAX,
        ensures
            final(self).wf(),
            ({
                let tenant = registration.tenant_id@;
                let live = old(self).live();
                let hostnames = text::views(registration.hostnames@);
                match first_taken(live, tenant, hostnames) {
                    Some(h) => {
                        &&& r is Err
                        &&& r->Err_0@ == "hostname "@ + h
                            + " is already served by another tenant on this edge"@
                        &&& final(self).live() == live
                        &&& final(self).last_generation() == old(self).last_generation()
                    },
                    None => {
                        &&& r is Ok
                        &&& r->Ok_0.handle@ == (HandleView {
                            tenant_id: tenant,
                            hostnames,
                            services: services_view(registration.services),
                            connection: registration.connection,
                            generation: (old(self).last_generation() + 1) as u64,
                        })
                        &&& (match r->Ok_0.replaced {
                            Some(h) => live.contains_key(tenant) && live[tenant] == h@,
                            None => !live.contains_key(tenant),
                        })
                        &&& final(self).live() == live.insert(tenant, r->Ok_0.handle@)
                        &&& final(self).last_generation() == old(self).last_generation() + 1
                    },
                }
            }),
    {
        if let Some(i) = self.find_taken(
            registration.tenant_id.as_str(),
            &registration.hostnames,
        ) {
            let mut e: String = "hostname ".to_owned();
            e.append(registration.hostnames[i].as_str());
            e.append(" is already served by another tenant on this edge");
            return Err(e);
        }
        let ghost before = *self;
        let ghost live = self.live();
        let ghost tenant = registration.tenant_id@;
        let ghost mut at: int = 0;
        let generation: u64 = self.next_generation + 1;
        self.next_generation = generation;
        proof {
            assert(self.live() =~= live);
            assert(self.wf());
        }
        let replaced: Option<ConnectorHandle> = match number_of(
            &self.by_tenant,
            registration.tenant_id.as_str(),
        ) {
            None => {
                assert(!live.contains_key(tenant));
                None
            },
            Some(g) => match self.position(g) {
                None => {
                    proof {
                        let j = choose|j: int|
                            0 <= j < self.handles@.len() && (
                            #[trigger] self.handles@[j]).tenant_id@ == tenant;
                        assert(self.handles@[j].generation == g);
                    }
                    None
                },
                Some(k) => {
                    proof {
                        let j = choose|j: int|
                            0 <= j < self.handles@.len() && (
                            #[trigger] self.handles@[j]).tenant_id@ == tenant;
                        assert(self.handles@[j].generation == g);
                        if j < k {
                            assert(self.handles@[j].generation != self.handles@[k as int].generation);
                        } else if k < j {
                            assert(self.handles@[k as int].generation != self.handles@[j].generation);
                        }
                        self.lemma_live(k as int);
                        at = k as int;
                    }
                    Some(self.forget(k))
                },
            },
        };
        let ghost rest = *self;
        assert(rest.live() =~= live.remove(tenant));
        let handle: ConnectorHandle = ConnectorHandle {
            tenant_id: registration.tenant_id,
            hostnames: registration.hostnames,
            services: registration.services,
            connection: registration.connection,
            generation,
        };
        let r: ConnectorHandle = handle.clone();
        proof {
            lemma_taken_without(live, tenant, text::views(handle.hostnames@));
            assert forall|i: int| 0 <= i < rest.handles@.len() implies (
            #[trigger] rest.handles@[i]).generation < generation by {
                if replaced is Some {
                    assert(rest.handles@[i] == before.handles@[if i < at { i } else { i + 1 }]);
                } else {
                    assert(rest.handles@[i] == before.handles@[i]);
                }
            }
        }
        self.enlist(handle);
        assert(live.remove(tenant).insert(tenant, handle@) =~= live.insert(tenant, handle@));
        Ok(Registered { handle: r, replaced })
    }

    /// Remove the tenant's connection only if it is still the given generation.
    /// Returns `true` when the registration was removed.
    pub fn remove(&mut self, tenant_id: &str, generation: u64) -> (r: bool)
        requires
            old(self).wf(),
        ensures
            final(self).wf(),
            r == (old(self).live().contains_key(tenant_id@) && old(
                self,
            ).live()[tenant_id@].generation == generation),
            final(self).live() == (if r {
                old(self).live().remove(tenant_id@)
            } else {
                old(self).live()
            }),
            final(self).last_generation() == old(self).last_generation(),
    {
        let found: Option<u64> = number_of(&self.by_tenant, tenant_id);
        proof {
            if found is Some {
                let j = choose|j: int|
                    0 <= j < self.handles@.len() && (#[trigger] self.handles@[j]).tenant_id@
                        == tenant_id@;
                self.lemma_live(j);
            } else {
                assert(!self.live().contains_key(tenant_id@));
            }
        }
        if found != Some(generation) {
            return false;
        }
        match self.position(generation) {
            None => false,
            Some(k) => {
                proof {
                    let j = choose|j: int|
                        0 <= j < self.handles@.len() && (#[trigger] self.handles@[j]).tenant_id@
                            == tenant_id@;
                    if j < k {
                        assert(self.handles@[j].generation != self.handles@[k as int].generation);
                    } else if k < j {
                        assert(self.handles@[k as int].generation != self.handles@[j].generation);
                    }
                }
                let _ = self.forget(k);
                true
            },
        }
    }
}

proof fn lemma_taken_without(
    live: Map<Seq<char>, HandleView>,
    tenant: Seq<char>,
    hostnames: Seq<Seq<char>>,
)
    ensures
        first_taken(live, tenant, hostnames) is None ==> first_taken(
            live.remove(tenant),
            tenant,
            hostnames,
        ) is None,
    decreases hostnames.len(),
{
    if hostnames.len() > 0 {
        lemma_taken_without(live, tenant, hostnames.skip(1));
    }
}

proof fn lemma_not_taken(
    live: Map<Seq<char>, HandleView>,
    tenant: Seq<char>,
    hostnames: Seq<Seq<char>>,
    x: Seq<char>,
    t: Seq<char>,
)
    requires
        hostnames.contains(x),
        t != tenant,
        live.contains_key(t),
        live[t].hostnames.contains(x),
    ensures
        first_taken(live, tenant, hostnames) is Some,
    decreases hostnames.len(),
{
    let i = choose|i: int| 0 <= i < hostnames.len() && hostnames[i] == x;
    if i > 0 {
        assert(hostnames.skip(1)[i - 1] == x);
        lemma_not_taken(live, tenant, hostnames.skip(1), x, t);
    }
}

impl ConnectorRegistry {
    /// After a registration each of its hostnames is served by it alone, those that
    /// only the registration before it had are served by none, and nothing changes for
    /// any other. There is one registration more unless one was replaced, and the new
    /// generation is greater than all before.
    pub proof fn law_registration_takes_over(self, next: HandleView, hostname: Seq<char>)
        requires
            self.wf(),
            first_taken(self.live(), next.tenant_id, next.hostnames) is None,
            next.generation == self.last_generation() + 1,
        ensures
            ({
                let before = self.live();
                let after = before.insert(next.tenant_id, next);
                let replaced = before.contains_key(next.tenant_id);
                &&& next.hostnames.contains(hostname) ==> forall|h: HandleView|
                    #[trigger] answers_for(after, hostname, h) == (h == next)
                &&& !next.hostnames.contains(hostname) ==> if replaced
                    && before[next.tenant_id].hostnames.contains(hostname) {
                    unserved(after, hostname)
                } else {
                    forall|h: HandleView|
                        #[trigger] answers_for(after, hostname, h) == answers_for(before, hostname, h)
                }
                &&& forall|t: Seq<char>| #[trigger]
                    before.contains_key(t) ==> before[t].generation < next.generation
                &&& after.dom().len() == before.dom().len() + if replaced {
                    0int
                } else {
                    1int
                }
            }),
    {
        let before = self.live();
        let after = before.insert(next.tenant_id, next);
        self.law_hostname_has_one_tenant();
        self.lemma_live_count();
        assert(after.dom() =~= before.dom().insert(next.tenant_id));
        assert forall|t: Seq<char>| #[trigger] before.contains_key(t) implies before[t].tenant_id == t
            && before[t].generation < next.generation by {
            let i = choose|i: int|
                0 <= i < self.handles@.len() && (#[trigger] self.handles@[i]).tenant_id@ == t;
            self.lemma_live(i);
        }
        if next.hostnames.contains(hostname) {
            law_only_taken_hostnames_are_refused(before, next.tenant_id, next.hostnames);
            assert forall|h: HandleView| #[trigger] answers_for(after, hostname, h) implies h == next by {
                if h.tenant_id != next.tenant_id {
                    assert(before.contains_key(h.tenant_id));
                    assert(taken(before, next.tenant_id, hostname));
                }
            }
        } else if before.contains_key(next.tenant_id) && before[next.tenant_id].hostnames.contains(
            hostname,
        ) {
            assert forall|t: Seq<char>| #[trigger] after.contains_key(t) implies
                !after[t].hostnames.contains(hostname) by {
                if t != next.tenant_id && before[t].hostnames.contains(hostname) {
                    assert(before[next.tenant_id].hostnames.contains(hostname));
                }
            }
        }
    }

    /// A connection that was replaced by a newer one of its tenant can no longer
    /// remove anything: its generation is not the one of the new registration.
    pub proof fn law_stale_disconnect_removes_nothing(self, tenant: Seq<char>, newer: HandleView)
        requires
            self.wf(),
            self.live().contains_key(tenant),
            newer.generation == self.last_generation() + 1,
        ensures
            self.live().insert(tenant, newer)[tenant].generation
                != self.live()[tenant].generation,
    {
        let i = choose|i: int|
            0 <= i < self.handles@.len() && (#[trigger] self.handles@[i]).tenant_id@ == tenant;
        self.lemma_live(i);
    }
}

/// Whether another tenant serves a hostname.
pub open spec fn taken(
    live: Map<Seq<char>, HandleView>,
    tenant_id: Seq<char>,
    hostname: Seq<char>,
) -> bool {
    exists|t: Seq<char>|
        t != tenant_id && #[trigger] live.contains_key(t) && live[t].hostnames.contains(hostname)
}

/// A registration is refused if and only if another tenant serves one of its hostnames;
/// it is one of these that the refusal names.
pub proof fn law_only_taken_hostnames_are_refused(
    live: Map<Seq<char>, HandleView>,
    tenant_id: Seq<char>,
    hostnames: Seq<Seq<char>>,
)
    ensures
        match first_taken(live, tenant_id, hostnames) {
            Some(h) => hostnames.contains(h) && taken(live, tenant_id, h),
            None => forall|h: Seq<char>|
                hostnames.contains(h) ==> !#[trigger] taken(live, tenant_id, h),
        },
    decreases hostnames.len(),
{
    if hostnames.len() > 0 {
        let rest = hostnames.skip(1);
        law_only_taken_hostnames_are_refused(live, tenant_id, rest);
        assert forall|h: Seq<char>| rest.contains(h) implies hostnames.contains(h) by {
            let i = choose|i: int| 0 <= i < rest.len() && rest[i] == h;
            assert(hostnames[i + 1] == h);
        }
        assert forall|h: Seq<char>| hostnames.contains(h) implies h == hostnames[0] || rest.contains(
            h,
        ) by {
            let i = choose|i: int| 0 <= i < hostnames.len() && hostnames[i] == h;
            if i > 0 {
                assert(rest[i - 1] == h);
            }
        }
        assert(hostnames.contains(hostnames[0]));
    }
}

/// A Connector that names its services serves exactly these; one that does not serves
/// every protocol on each of its hostnames.
pub proof fn law_connectors_serve_what_they_say(
    handle: ConnectorHandle,
    hostname: &str,
    protocol: Protocol,
    r: bool,
)
    requires
        call_ensures(ConnectorHandle::supports, (&handle, hostname, protocol), r),
    ensures
        match handle.services {
            None => r == exists|i: int|
                0 <= i < handle.hostnames@.len() && (#[trigger] handle.hostnames@[i])@ == hostname@,
            Some(m) => r == (m@.contains_key(hostname@) && m@[hostname@]@.contains(protocol)),
        },
{
    let names = text::views(handle.hostnames@);
    if handle.services is None {
        if r {
            let i = choose|i: int| 0 <= i < names.len() && names[i] == hostname@;
            assert(handle.hostnames@[i]@ == hostname@);
        }
        assert forall|i: int|
            0 <= i < handle.hostnames@.len() && (#[trigger] handle.hostnames@[i])@
                == hostname@ implies r by {
            assert(names[i] == hostname@);
        }
    }
}

/// After a registration its hostnames lead to its connection, and the tenant's registration
/// before it is handed back.
pub proof fn law_registered_hostnames_are_found(
    registry: &mut ConnectorRegistry,
    registration: Registration,
    r: Registered,
    hostname: &str,
    found: Option<&ConnectorHandle>,
    i: int,
)
    requires
        old(registry).wf(),
        old(registry).last_generation() < u64::MAX,
        call_ensures(
            ConnectorRegistry::register,
            (registry, registration),
            Ok::<Registered, String>(r),
        ),
        call_ensures(ConnectorRegistry::get_by_hostname, (&*final(registry), hostname), found),
        0 <= i < registration.hostnames@.len(),
        hostname@ == registration.hostnames@[i]@,
    ensures
        found is Some,
        found->0.connection == registration.connection,
        found->0.tenant_id@ == registration.tenant_id@,
        found->0.generation == r.handle.generation,
        r.handle.connection == registration.connection,
        r.handle.tenant_id@ == registration.tenant_id@,
        r.replaced is Some ==> r.replaced->0.tenant_id@ == registration.tenant_id@
            && r.replaced->0.generation < r.handle.generation,
{
    let names = text::views(registration.hostnames@);
    let tenant = registration.tenant_id@;
    assert(names[i] == hostname@);
    assert(names.contains(hostname@));
    old(registry).law_registration_takes_over(r.handle@, hostname@);
    let after = final(registry).live();
    assert(answers_for(after, hostname@, r.handle@));
    assert(after.contains_key(tenant) && after[tenant].hostnames.contains(hostname@));
    assert(found is Some);
    assert(answers_for(after, hostname@, found->0@));
    if r.replaced is Some {
        let before = old(registry).live();
        assert(before.contains_key(tenant));
        old(registry).lemma_live_tenant(tenant);
    }
}

/// A hostname that another tenant's Connector serves cannot be registered, and a refused
/// registration changes no lookup.
pub proof fn law_served_hostnames_cannot_be_taken(
    registry: &mut ConnectorRegistry,
    registration: Registration,
    r: Result<Registered, String>,
    hostname: &str,
    found: &ConnectorHandle,
    other: &str,
    before: Option<&ConnectorHandle>,
    after: Option<&ConnectorHandle>,
    i: int,
)
    requires
        old(registry).wf(),
        old(registry).last_generation() < u64::MAX,
        call_ensures(ConnectorRegistry::register, (registry, registration), r),
        call_ensures(ConnectorRegistry::get_by_hostname, (&*old(registry), hostname), Some(found)),
        0 <= i < registration.hostnames@.len(),
        hostname@ == registration.hostnames@[i]@,
        found.tenant_id@ != registration.tenant_id@,
        call_ensures(ConnectorRegistry::get_by_hostname, (&*old(registry), other), before),
        call_ensures(ConnectorRegistry::get_by_hostname, (&*final(registry), other), after),
    ensures
        r is Err,
        match (before, after) {
            (Some(x), Some(y)) => x@ == y@,
            (None, None) => true,
            _ => false,
        },
{
    let live = old(registry).live();
    let names = text::views(registration.hostnames@);
    assert(names[i] == hostname@);
    lemma_not_taken(live, registration.tenant_id@, names, hostname@, found.tenant_id@);
    old(registry).law_hostname_has_one_tenant();
    assert(final(registry).live() == live);
    if before is Some {
        assert(answers_for(live, other@, before->0@));
        assert(live.contains_key(before->0.tenant_id@));
        assert(after is Some);
        assert(answers_for(live, other@, after->0@));
        assert(live[before->0.tenant_id@].hostnames.contains(other@));
        assert(live[after->0.tenant_id@].hostnames.contains(other@));
    }
    if after is Some {
        assert(answers_for(live, other@, after->0@));
        assert(live.contains_key(after->0.tenant_id@));
    }
}

/// A registration is removed by its own generation only; its hostnames then lead nowhere.
pub proof fn law_removed_registrations_are_gone(
    registry: &mut ConnectorRegistry,
    hostname: &str,
    found: &ConnectorHandle,
    tenant_id: &str,
    generation: u64,
    removed: bool,
    after: Option<&ConnectorHandle>,
)
    requires
        old(registry).wf(),
        call_ensures(ConnectorRegistry::get_by_hostname, (&*old(registry), hostname), Some(found)),
        tenant_id@ == found.tenant_id@,
        call_ensures(ConnectorRegistry::remove, (registry, tenant_id, generation), removed),
        call_ensures(ConnectorRegistry::get_by_hostname, (&*final(registry), hostname), after),
    ensures
        removed == (generation == found.generation),
        removed ==> after is None,
        !removed ==> after is Some && after->0@ == found@,
{
    let live = old(registry).live();
    assert(answers_for(live, hostname@, found@));
    old(registry).law_hostname_has_one_tenant();
    assert(live[tenant_id@].hostnames.contains(hostname@));
    let later = final(registry).live();
    if after is Some {
        assert(answers_for(later, hostname@, after->0@));
        assert(live[after->0.tenant_id@].hostnames.contains(hostname@));
    } else if !removed {
        assert(later.contains_key(tenant_id@));
    }
}

} // verus!
