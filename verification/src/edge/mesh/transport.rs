//! Connections to other Edges: who may be a peer, which connections are reused,
//! and which peers are left alone for a while.

use vstd::prelude::*;
use vstd::string::*;
use dashmap::DashMap;
use std::hash::RandomState;
use crate::addr;
use crate::addr::{format_socket, SocketAddr};
use crate::concurrent;
use crate::concurrent::{new_numbers, number_of, numbered, remove_number, set_number};
use crate::edge::mesh::certs;
use crate::edge::mesh::certs::edge_ids_from_cert;
use crate::pki;
use crate::text;
use crate::text::same_text;
use crate::text_set::TextSet;

verus! {

/// The only text of a list.
pub open spec fn only(list: Seq<Seq<char>>) -> Option<Seq<char>> {
    if list.len() == 1 {
        Some(list[0])
    } else {
        None
    }
}

/// The authenticated Edge ID of a peer, from its certificate: there must be
/// exactly one.
pub fn peer_edge_id(leaf_der: &[u8]) -> (r: Option<String>)
    ensures
        text::opt_view(r) == only(certs::ids_of(pki::certificate_info(leaf_der@))),
{
    let mut ids: Vec<String> = edge_ids_from_cert(leaf_der);
    let ghost all = text::views(ids@);
    if ids.len() == 1 {
        assert(all[0] == ids@[0]@);
        Some(ids.remove(0))
    } else {
        None
    }
}

/// Outgoing connections to authorized peers, reused across requests.
#[derive(Debug)]
pub struct PeerPool {
    allowed: TextSet,
    /// By Edge ID, the number of the connection
    connections: DashMap<String, u64, RandomState>,
    /// By Edge ID, until when the peer is left alone
    cooldown: DashMap<String, u64, RandomState>,
    cooldown_period: u64,
}

/// What has to be done to get a connection to a peer.
#[derive(Debug)]
pub enum ConnectStep {
    /// There is none to be had.
    Refuse(String),
    /// Use this one.
    Use(u64),
    /// Connect to the peer.
    Connect,
}

/// Whether a connection is that of some peer.
pub open spec fn is_pooled(pooled: Map<Seq<char>, u64>, connection: u64) -> bool {
    exists|k: Seq<char>| #[trigger] pooled.contains_key(k) && pooled[k] == connection
}

/// A map whose keys are listed, each once, has as many as the list.
proof fn lemma_listed_once(m: Map<Seq<char>, u64>, keys: Seq<Seq<char>>)
    requires
        keys.no_duplicates(),
        forall|k: Seq<char>| #[trigger] m.contains_key(k) == keys.contains(k),
    ensures
        m.dom().len() == keys.len(),
{
    assert(m.dom() =~= keys.to_set());
    keys.unique_seq_to_set();
}

/// The end of a cooldown that starts now.
pub open spec fn cooldown_end(now: u64, period: u64) -> u64 {
    if now + period > u64::MAX {
        u64::MAX
    } else {
        (now + period) as u64
    }
}

impl PeerPool {
    /// The Edge IDs of those that may be peers.
    pub closed spec fn allowed(self) -> Seq<Seq<char>> {
        self.allowed@
    }

    /// How long a peer that failed is left alone.
    pub closed spec fn period(self) -> u64 {
        self.cooldown_period
    }

    /// The pooled connections, by Edge ID.
    pub closed spec fn pooled(self) -> Map<Seq<char>, u64> {
        concurrent::numbers(self.connections)
    }

    /// Until when peers are left alone, by Edge ID.
    pub closed spec fn cooling(self) -> Map<Seq<char>, u64> {
        concurrent::numbers(self.cooldown)
    }

    /// Whether a peer is left alone.
    pub open spec fn cools_down(self, edge_id: Seq<char>, now: u64) -> bool {
        let m = self.cooling();
        m.contains_key(edge_id) && m[edge_id] > now
    }

    pub fn new(allowed: TextSet, cooldown_period: u64) -> (r: Self)
        ensures
            r.allowed() == allowed@,
            r.period() == cooldown_period,
            r.pooled() == Map::<Seq<char>, u64>::empty(),
            r.cooling() == Map::<Seq<char>, u64>::empty(),
    {
        PeerPool { allowed, connections: new_numbers(), cooldown: new_numbers(), cooldown_period }
    }

    pub fn is_allowed(&self, edge_id: &str) -> (r: bool)
        ensures
            r == self.allowed().contains(edge_id@),
    {
        self.allowed.contains(edge_id)
    }

    /// Whether a peer recently failed and should not be used as a candidate.
    pub fn cooling_down(&self, edge_id: &str, now: u64) -> (r: bool)
        ensures
            r == self.cools_down(edge_id@, now),
    {
        match number_of(&self.cooldown, edge_id) {
            Some(until) => until > now,
            None => false,
        }
    }

    /// Leaves a peer alone for a while.
    pub fn start_cooldown(&mut self, edge_id: &str, now: u64)
        ensures
            final(self).cooling() == old(self).cooling().insert(edge_id@, cooldown_end(now, old(self).period())),
            final(self).pooled() == old(self).pooled(),
            final(self).allowed() == old(self).allowed(),
            final(self).period() == old(self).period(),
    {
        let until: u64 = if now > u64::MAX - self.cooldown_period {
            u64::MAX
        } else {
            now + self.cooldown_period
        };
        set_number(&mut self.cooldown, edge_id.to_owned(), until);
    }

    /// Report a failure seen on `connection`. Only a closed connection says
    /// anything about the peer: a failed stream on a live connection leaves the
    /// connection and its other streams alone. A newer connection that replaced
    /// the closed one is kept as well.
    pub fn connection_failed(&mut self, edge_id: &str, connection: u64, closed: bool, now: u64)
        ensures
            final(self).allowed() == old(self).allowed(),
            final(self).period() == old(self).period(),
            ({
                let pooled = old(self).pooled();
                let cooldown = old(self).cooling();
                let newer = pooled.contains_key(edge_id@) && pooled[edge_id@] != connection;
                if !closed || newer {
                    &&& final(self).pooled() == pooled
                    &&& final(self).cooling() == cooldown
                } else {
                    &&& final(self).pooled() == pooled.remove(edge_id@)
                    &&& final(self).cooling() == cooldown.insert(
                        edge_id@,
                        cooldown_end(now, old(self).period()),
                    )
                }
            }),
    {
        if !closed {
            return;
        }
        match number_of(&self.connections, edge_id) {
            Some(pooled) => {
                if pooled != connection {
                    return;
                }
                remove_number(&mut self.connections, edge_id);
            },
            None => {
                assert(self.pooled().remove(edge_id@) =~= self.pooled());
            },
        }
        self.start_cooldown(edge_id, now);
    }

    /// Give up on a connection whose peer stopped answering altogether; the
    /// connection was closed for that.
    pub fn connection_unresponsive(&mut self, edge_id: &str, connection: u64, now: u64)
        ensures
            final(self).allowed() == old(self).allowed(),
            final(self).period() == old(self).period(),
            ({
                let pooled = old(self).pooled();
                let cooldown = old(self).cooling();
                if pooled.contains_key(edge_id@) && pooled[edge_id@] != connection {
                    &&& final(self).pooled() == pooled
                    &&& final(self).cooling() == cooldown
                } else {
                    &&& final(self).pooled() == pooled.remove(edge_id@)
                    &&& final(self).cooling() == cooldown.insert(
                        edge_id@,
                        cooldown_end(now, old(self).period()),
                    )
                }
            }),
    {
        self.connection_failed(edge_id, connection, true, now);
    }

    /// The connection that is kept for a peer, open or not.
    pub fn kept(&self, edge_id: &str) -> (r: Option<u64>)
        ensures
            match r {
                Some(c) => self.pooled().contains_key(edge_id@) && c == self.pooled()[edge_id@],
                None => !self.pooled().contains_key(edge_id@),
            },
    {
        number_of(&self.connections, edge_id)
    }

    /// How to get a connection to `edge_id`, where `open` says whether the
    /// connection that is kept for it is still open. While a peer cools down no
    /// new attempt is made.
    pub fn connection(&self, edge_id: &str, open: bool, now: u64) -> (r: ConnectStep)
        ensures
            if !self.allowed().contains(edge_id@) {
                r is Refuse && r->Refuse_0@ == "edge "@ + edge_id@ + " is not an allowed mesh peer"@
            } else if open && self.pooled().contains_key(edge_id@) {
                r == ConnectStep::Use(self.pooled()[edge_id@])
            } else if self.cools_down(edge_id@, now) {
                r is Refuse && r->Refuse_0@ == "edge "@ + edge_id@ + " failed recently"@
            } else {
                r is Connect
            },
    {
        if !self.is_allowed(edge_id) {
            let mut e: String = "edge ".to_owned();
            e.append(edge_id);
            e.append(" is not an allowed mesh peer");
            return ConnectStep::Refuse(e);
        }
        if open {
            if let Some(c) = number_of(&self.connections, edge_id) {
                return ConnectStep::Use(c);
            }
        }
        if self.cooling_down(edge_id, now) {
            let mut e: String = "edge ".to_owned();
            e.append(edge_id);
            e.append(" failed recently");
            return ConnectStep::Refuse(e);
        }
        ConnectStep::Connect
    }

    /// Takes in a new connection to `edge_id`. The server name check already binds
    /// the certificate; the identity that the peer authenticated as is checked
    /// too. Without it the connection is not kept and the peer cools down.
    pub fn connected(
        &mut self,
        edge_id: &str,
        addr: SocketAddr,
        peer: Option<&str>,
        connection: u64,
        now: u64,
    ) -> (r: Result<(), String>)
        ensures
            final(self).allowed() == old(self).allowed(),
            final(self).period() == old(self).period(),
            ({
                let cooldown = old(self).cooling();
                if peer is Some && peer->0@ == edge_id@ {
                    &&& r is Ok
                    &&& final(self).pooled() == old(self).pooled().insert(edge_id@, connection)
                    &&& final(self).cooling() == cooldown.remove(edge_id@)
                } else {
                    &&& r is Err
                    &&& r->Err_0@ == "peer at "@ + addr::socket_text(addr)
                        + " did not authenticate as "@ + edge_id@
                    &&& final(self).pooled() == old(self).pooled()
                    &&& final(self).cooling() == cooldown.insert(
                        edge_id@,
                        cooldown_end(now, old(self).period()),
                    )
                }
            }),
    {
        let same: bool = match peer {
            Some(p) => same_text(p, edge_id),
            None => false,
        };
        if !same {
            let mut e: String = "peer at ".to_owned();
            e.append(format_socket(addr).as_str());
            e.append(" did not authenticate as ");
            e.append(edge_id);
            self.start_cooldown(edge_id, now);
            return Err(e);
        }
        remove_number(&mut self.cooldown, edge_id);
        set_number(&mut self.connections, edge_id.to_owned(), connection);
        Ok(())
    }

    /// Forgets all connections; returns those that have to be closed.
    pub fn close_all(&mut self) -> (r: Vec<u64>)
        ensures
            final(self).pooled() == Map::<Seq<char>, u64>::empty(),
            final(self).allowed() == old(self).allowed(),
            final(self).cooling() == old(self).cooling(),
            final(self).period() == old(self).period(),
            forall|k: Seq<char>| #[trigger]
                old(self).pooled().contains_key(k) ==> r@.contains(old(self).pooled()[k]),
            forall|i: int| 0 <= i < r@.len() ==> is_pooled(old(self).pooled(), #[trigger] r@[i]),
            r@.len() == old(self).pooled().dom().len(),
    {
        let keys: Vec<String> = numbered(&self.connections);
        let ghost before = self.pooled();
        let mut out: Vec<u64> = Vec::new();
        let mut i: usize = 0;
        while i < keys.len()
            invariant
                i <= keys.len(),
                before == self.pooled(),
                out@.len() == i,
                forall|j: int| 0 <= j < out@.len() ==> is_pooled(before, #[trigger] out@[j]),
                forall|j: int|
                    0 <= j < i && before.contains_key((#[trigger] keys@[j])@) ==> out@.contains(
                        before[keys@[j]@],
                    ),
            decreases keys.len() - i,
        {
            let ghost done = out@;
            assert(before.contains_key(keys@[i as int]@));
            if let Some(c) = number_of(&self.connections, keys[i].as_str()) {
                out.push(c);
                assert(out@[done.len() as int] == c);
            }
            assert forall|j: int|
                0 <= j <= i && before.contains_key((#[trigger] keys@[j])@) implies out@.contains(
                before[keys@[j]@],
            ) by {
                if j < i {
                    let k = choose|k: int| 0 <= k < done.len() && done[k] == before[keys@[j]@];
                    assert(out@[k] == before[keys@[j]@]);
                }
            }
            i += 1;
        }
        assert forall|k: Seq<char>| #[trigger] before.contains_key(k) implies out@.contains(
            before[k],
        ) by {
            let j = choose|j: int| 0 <= j < keys@.len() && (#[trigger] keys@[j])@ == k;
            assert(before.contains_key(keys@[j]@));
        }
        proof {
            let listed = text::views(keys@);
            assert forall|k: Seq<char>| #[trigger] before.contains_key(k) == listed.contains(k) by {
                if before.contains_key(k) {
                    let j = choose|j: int| 0 <= j < keys@.len() && (#[trigger] keys@[j])@ == k;
                    assert(listed[j] == k);
                }
                if listed.contains(k) {
                    let j = choose|j: int| 0 <= j < listed.len() && listed[j] == k;
                    assert(keys@[j]@ == k);
                }
            }
            lemma_listed_once(before, listed);
        }
        self.connections = new_numbers();
        out
    }
}

/// A peer that was given up is left alone until its cooldown ends, and no other
/// peer is on its account.
pub proof fn law_cooldown_concerns_one_peer(
    pool: PeerPool,
    edge_id: Seq<char>,
    now: u64,
    later: PeerPool,
)
    requires
        later.cooling() == pool.cooling().insert(
            edge_id,
            cooldown_end(now, pool.period()),
        ),
    ensures
        forall|t: u64|
            #[trigger] later.cools_down(edge_id, t) == (t < cooldown_end(now, pool.period())),
        forall|other: Seq<char>, t: u64|
            other != edge_id ==> #[trigger] later.cools_down(other, t) == pool.cools_down(other, t),
{
}

/// A pool starts with the configured peers, without connections and with nobody cooling down.
pub proof fn law_pools_start_empty(
    allowed: TextSet,
    period: u64,
    pool: PeerPool,
    edge: &str,
    now: u64,
    permitted: bool,
    kept: Option<u64>,
    cooling: bool,
)
    requires
        call_ensures(PeerPool::new, (allowed, period), pool),
        call_ensures(PeerPool::is_allowed, (&pool, edge), permitted),
        call_ensures(PeerPool::kept, (&pool, edge), kept),
        call_ensures(PeerPool::cooling_down, (&pool, edge, now), cooling),
    ensures
        permitted == allowed@.contains(edge@),
        kept is None,
        !cooling,
{
}

/// An open connection to an allowed peer is used again. Without one a new connection is made,
/// unless the last one failed a short while ago. A peer that is not allowed gets none.
pub proof fn law_connections_are_used_again(
    pool: PeerPool,
    edge: &str,
    open: bool,
    now: u64,
    permitted: bool,
    kept: Option<u64>,
    cooling: bool,
    r: ConnectStep,
)
    requires
        call_ensures(PeerPool::connection, (&pool, edge, open, now), r),
        call_ensures(PeerPool::is_allowed, (&pool, edge), permitted),
        call_ensures(PeerPool::kept, (&pool, edge), kept),
        call_ensures(PeerPool::cooling_down, (&pool, edge, now), cooling),
    ensures
        !permitted ==> r is Refuse,
        permitted && open && kept is Some ==> r == ConnectStep::Use(kept->0),
        permitted && !(open && kept is Some) ==> if cooling {
            r is Refuse
        } else {
            r is Connect
        },
{
}

/// A peer that proves to be who it should be has its connection kept and no longer cools down.
/// Any other leaves what was kept, and the peer cools down for the period. No other peer is
/// concerned.
pub proof fn law_authenticated_connections_are_kept(
    pool: &mut PeerPool,
    edge: &str,
    addr: SocketAddr,
    peer: Option<&str>,
    connection: u64,
    now: u64,
    r: Result<(), String>,
    seen: &str,
    later: u64,
    before: Option<u64>,
    kept: Option<u64>,
    cooled: bool,
    cooling: bool,
)
    requires
        call_ensures(PeerPool::connected, (pool, edge, addr, peer, connection, now), r),
        call_ensures(PeerPool::kept, (&*old(pool), seen), before),
        call_ensures(PeerPool::kept, (&*final(pool), seen), kept),
        call_ensures(PeerPool::cooling_down, (&*old(pool), seen, later), cooled),
        call_ensures(PeerPool::cooling_down, (&*final(pool), seen, later), cooling),
    ensures
        r is Ok == (peer is Some && peer->0@ == edge@),
        seen@ != edge@ ==> kept == before && cooling == cooled,
        seen@ == edge@ && r is Ok ==> kept == Some(connection) && !cooling,
        seen@ == edge@ && r is Err ==> kept == before,
        seen@ == edge@ && r is Err && now + old(pool).period() <= u64::MAX ==> cooling == (later
            < now + old(pool).period()),
{
}

/// A connection that was closed is not kept any more, and its peer cools down for the period,
/// unless another connection to that peer was made since. One that is still open stays.
pub proof fn law_closed_connections_are_dropped(
    pool: &mut PeerPool,
    edge: &str,
    connection: u64,
    closed: bool,
    now: u64,
    seen: &str,
    later: u64,
    before: Option<u64>,
    kept: Option<u64>,
    cooled: bool,
    cooling: bool,
)
    requires
        call_ensures(PeerPool::connection_failed, (pool, edge, connection, closed, now), ()),
        call_ensures(PeerPool::kept, (&*old(pool), seen), before),
        call_ensures(PeerPool::kept, (&*final(pool), seen), kept),
        call_ensures(PeerPool::cooling_down, (&*old(pool), seen, later), cooled),
        call_ensures(PeerPool::cooling_down, (&*final(pool), seen, later), cooling),
    ensures
        seen@ != edge@ || !closed ==> kept == before && cooling == cooled,
        seen@ == edge@ && before is Some && before->0 != connection ==> kept == before && cooling
            == cooled,
        seen@ == edge@ && closed && (before is None || before->0 == connection) ==> kept is None,
        seen@ == edge@ && closed && (before is None || before->0 == connection) && now + old(pool).period() <= u64::MAX ==> cooling == (later < now + old(pool).period()),
{
}

/// A connection on which the peer does not answer is dropped like a closed one, open or not.
pub proof fn law_unresponsive_connections_are_dropped(
    pool: &mut PeerPool,
    edge: &str,
    connection: u64,
    now: u64,
    seen: &str,
    later: u64,
    before: Option<u64>,
    kept: Option<u64>,
    cooled: bool,
    cooling: bool,
)
    requires
        call_ensures(PeerPool::connection_unresponsive, (pool, edge, connection, now), ()),
        call_ensures(PeerPool::kept, (&*old(pool), seen), before),
        call_ensures(PeerPool::kept, (&*final(pool), seen), kept),
        call_ensures(PeerPool::cooling_down, (&*old(pool), seen, later), cooled),
        call_ensures(PeerPool::cooling_down, (&*final(pool), seen, later), cooling),
    ensures
        seen@ != edge@ ==> kept == before && cooling == cooled,
        seen@ == edge@ && before is Some && before->0 != connection ==> kept == before && cooling
            == cooled,
        seen@ == edge@ && (before is None || before->0 == connection) ==> kept is None,
        seen@ == edge@ && (before is None || before->0 == connection) && now + old(pool).period()
            <= u64::MAX ==> cooling == (later < now + old(pool).period()),
{
}

/// A peer cools down from now on for the period, and keeps its connection meanwhile.
pub proof fn law_cooldown_lasts_for_the_period(
    pool: &mut PeerPool,
    edge: &str,
    now: u64,
    seen: &str,
    later: u64,
    before: Option<u64>,
    kept: Option<u64>,
    cooled: bool,
    cooling: bool,
)
    requires
        call_ensures(PeerPool::start_cooldown, (pool, edge, now), ()),
        call_ensures(PeerPool::kept, (&*old(pool), seen), before),
        call_ensures(PeerPool::kept, (&*final(pool), seen), kept),
        call_ensures(PeerPool::cooling_down, (&*old(pool), seen, later), cooled),
        call_ensures(PeerPool::cooling_down, (&*final(pool), seen, later), cooling),
    ensures
        kept == before,
        seen@ != edge@ ==> cooling == cooled,
        seen@ == edge@ && now + old(pool).period() <= u64::MAX ==> cooling == (later < now + old(pool).period()),
{
}

/// When all are closed, every connection that was kept is among those to close, and none is
/// kept.
pub proof fn law_all_connections_are_closed(
    pool: &mut PeerPool,
    r: Vec<u64>,
    seen: &str,
    before: Option<u64>,
    kept: Option<u64>,
)
    requires
        call_ensures(PeerPool::close_all, (pool,), r),
        call_ensures(PeerPool::kept, (&*old(pool), seen), before),
        call_ensures(PeerPool::kept, (&*final(pool), seen), kept),
    ensures
        kept is None,
        before is Some ==> r@.contains(before->0),
{
}

/// A peer is the one Edge that its certificate names; one that names none, or more than one,
/// is nobody.
pub proof fn law_peers_are_named_once(leaf: &[u8], ids: Vec<String>, r: Option<String>)
    requires
        call_ensures(edge_ids_from_cert, (leaf,), ids),
        call_ensures(peer_edge_id, (leaf,), r),
    ensures
        r is Some == (ids@.len() == 1),
        r is Some ==> r->0@ == ids@[0]@,
{
    let views = text::views(ids@);
    assert(views.len() == ids@.len());
    if ids@.len() == 1 {
        assert(views[0] == ids@[0]@);
    }
}

} // verus!
