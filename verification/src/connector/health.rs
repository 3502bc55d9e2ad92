//! What the Connector says of its own state.

use vstd::prelude::*;
use vstd::string::*;
use crate::health::{not_found, HealthQuery, HealthReply};
use crate::json;
use crate::json::write_json_string;
use crate::order;
use crate::text;
use crate::text::{decimal_text, join_text};
use crate::text_map::TextMap;
use crate::time::unix_time;

verus! {

#[derive(Debug, Clone, Copy, PartialEq, Eq, Structural)]
pub enum EdgeStatus {
    Starting,
    Connecting,
    Connected,
    Disconnected,
}

/// The name of a status.
pub open spec fn status_name(s: EdgeStatus) -> Seq<char> {
    match s {
        EdgeStatus::Starting => "starting"@,
        EdgeStatus::Connecting => "connecting"@,
        EdgeStatus::Connected => "connected"@,
        EdgeStatus::Disconnected => "disconnected"@,
    }
}

impl EdgeStatus {
    pub fn as_str(&self) -> (r: &'static str)
        ensures
            r@ == status_name(*self),
    {
        match self {
            EdgeStatus::Starting => "starting",
            EdgeStatus::Connecting => "connecting",
            EdgeStatus::Connected => "connected",
            EdgeStatus::Disconnected => "disconnected",
        }
    }
}

/// The state of the connection to one Edge.
#[derive(Debug)]
pub struct EdgeState {
    pub status: EdgeStatus,
    pub changed_at: u64,
    pub last_error: Option<String>,
}

/// The Connector's health: its Edges, and whether it is shutting down.
#[derive(Debug)]
pub struct ConnectorHealth {
    pub draining: bool,
    pub edges: TextMap<EdgeState>,
}

/// Whether some Edge is connected.
pub open spec fn some_connected(edges: Map<Seq<char>, EdgeState>) -> bool {
    exists|k: Seq<char>| #[trigger]
        edges.contains_key(k) && edges[k].status == EdgeStatus::Connected
}

/// Among ascending servers, those whose Edge is connected.
pub open spec fn connected_of(
    keys: Seq<Seq<char>>,
    edges: Map<Seq<char>, EdgeState>,
) -> Seq<Seq<char>> {
    keys.filter(|k: Seq<char>| edges[k].status == EdgeStatus::Connected)
}

/// Whether a state says what an update put into it; when it was put there is
/// decided by the clock.
pub open spec fn says(state: EdgeState, status: EdgeStatus, error: Option<Seq<char>>) -> bool {
    state.status == status && text::opt_view(state.last_error) == error
}

/// The word for the whole state: draining comes before ready.
pub open spec fn overall(draining: bool, connected: nat) -> Seq<char> {
    if draining {
        "draining"@
    } else if connected > 0 {
        "ready"@
    } else {
        "not_ready"@
    }
}

/// The state of the connection to one Edge, as JSON.
pub open spec fn edge_json(server: Seq<char>, state: EdgeState) -> Seq<char> {
    "{\"changed_at\":"@ + text::decimal(state.changed_at as nat) + ",\"last_error\":"@ + (
    match text::opt_view(state.last_error) {
        Some(e) => json::json_string(e),
        None => "null"@,
    }) + ",\"server\":"@ + json::json_string(server) + ",\"status\":"@ + json::json_string(
        status_name(state.status),
    ) + "}"@
}

/// The states of the connections to Edges, as JSON.
pub open spec fn edge_jsons(keys: Seq<Seq<char>>, edges: Map<Seq<char>, EdgeState>) -> Seq<
    Seq<char>,
> {
    keys.map_values(|k: Seq<char>| edge_json(k, edges[k]))
}

/// The whole state, as JSON.
pub open spec fn health_json(
    draining: bool,
    keys: Seq<Seq<char>>,
    edges: Map<Seq<char>, EdgeState>,
) -> Seq<char> {
    let connected = connected_of(keys, edges).len();
    "{\"configured_edges\":"@ + text::decimal(keys.len()) + ",\"connected_edges\":"@
        + text::decimal(connected) + ",\"draining\":"@ + (if draining {
        "true"@
    } else {
        "false"@
    }) + ",\"edges\":["@ + text::join(edge_jsons(keys, edges), ","@) + "],\"status\":"@
        + json::json_string(overall(draining, connected)) + "}"@
}

fn write_edge(server: &str, state: &EdgeState) -> (r: String)
    ensures
        r@ == edge_json(server@, *state),
{
    let mut out: String = "{\"changed_at\":".to_owned();
    out.append(decimal_text(state.changed_at).as_str());
    out.append(",\"last_error\":");
    match &state.last_error {
        Some(e) => {
            out.append(write_json_string(e.as_str()).as_str());
        },
        None => {
            out.append("null");
        },
    }
    out.append(",\"server\":");
    out.append(write_json_string(server).as_str());
    out.append(",\"status\":");
    out.append(write_json_string(state.status.as_str()).as_str());
    out.append("}");
    out
}

impl ConnectorHealth {
    /// All servers starting, none draining.
    pub fn new(servers: &[String]) -> (r: Self)
        ensures
            !r.draining,
            forall|k: Seq<char>| #[trigger]
                r.edges@.contains_key(k) == text::views(servers@).contains(k),
            forall|k: Seq<char>| #[trigger]
                r.edges@.contains_key(k) ==> says(r.edges@[k], EdgeStatus::Starting, None),
    {
        let changed_at: u64 = unix_time();
        let mut edges: TextMap<EdgeState> = TextMap::new();
        let mut i: usize = 0;
        assert(text::views(servers@).take(0) =~= Seq::<Seq<char>>::empty());
        while i < servers.len()
            invariant
                i <= servers.len(),
                forall|k: Seq<char>| #[trigger]
                    edges@.contains_key(k) == text::views(servers@).take(i as int).contains(k),
                forall|k: Seq<char>| #[trigger]
                    edges@.contains_key(k) ==> says(edges@[k], EdgeStatus::Starting, None),
            decreases servers.len() - i,
        {
            let ghost before = edges@;
            let ghost seen = text::views(servers@).take(i as int);
            edges.insert(
                servers[i].clone(),
                EdgeState { status: EdgeStatus::Starting, changed_at, last_error: None },
            );
            i += 1;
            let ghost now = text::views(servers@).take(i as int);
            assert(now == seen.push(servers@[i - 1]@));
            assert forall|k: Seq<char>| #[trigger] edges@.contains_key(k) == now.contains(k) by {
                assert(before.contains_key(k) == seen.contains(k));
                if seen.contains(k) {
                    let j = choose|j: int| 0 <= j < seen.len() && seen[j] == k;
                    assert(now[j] == k);
                }
                if now.contains(k) {
                    let j = choose|j: int| 0 <= j < now.len() && now[j] == k;
                    if j < seen.len() {
                        assert(seen[j] == k);
                    }
                }
                assert(now[i - 1] == servers@[i - 1]@);
            }
        }
        assert(text::views(servers@).take(i as int) == text::views(servers@));
        ConnectorHealth { draining: false, edges }
    }

    /// Records a state of the connection to `server` at the time `now`.
    pub fn update(
        &mut self,
        server: &str,
        status: EdgeStatus,
        last_error: Option<String>,
        now: u64,
    )
        ensures
            final(self).draining == old(self).draining,
            final(self).edges@ == old(self).edges@.insert(
                server@,
                (EdgeState { status, changed_at: now, last_error }),
            ),
    {
        self.edges.insert(server.to_owned(), EdgeState { status, changed_at: now, last_error });
    }

    pub fn connecting(&mut self, server: &str)
        ensures
            final(self).draining == old(self).draining,
            exists|state: EdgeState| #[trigger]
                says(state, EdgeStatus::Connecting, None) && final(self).edges@ == old(self).edges@.insert(server@, state),
    {
        let now: u64 = unix_time();
        let ghost state = EdgeState {
            status: EdgeStatus::Connecting,
            changed_at: now,
            last_error: None,
        };
        assert(says(state, EdgeStatus::Connecting, None));
        self.update(server, EdgeStatus::Connecting, None, now);
    }

    pub fn connected(&mut self, server: &str)
        ensures
            final(self).draining == old(self).draining,
            exists|state: EdgeState| #[trigger]
                says(state, EdgeStatus::Connected, None) && final(self).edges@ == old(self).edges@.insert(server@, state),
    {
        let now: u64 = unix_time();
        let ghost state = EdgeState {
            status: EdgeStatus::Connected,
            changed_at: now,
            last_error: None,
        };
        assert(says(state, EdgeStatus::Connected, None));
        self.update(server, EdgeStatus::Connected, None, now);
    }

    pub fn disconnected(&mut self, server: &str, error: &str)
        ensures
            final(self).draining == old(self).draining,
            exists|state: EdgeState| #[trigger]
                says(state, EdgeStatus::Disconnected, Some(error@)) && final(self).edges@ == old(self).edges@.insert(server@, state),
    {
        let now: u64 = unix_time();
        let last_error: Option<String> = Some(error.to_owned());
        let ghost state = EdgeState {
            status: EdgeStatus::Disconnected,
            changed_at: now,
            last_error,
        };
        assert(says(state, EdgeStatus::Disconnected, Some(error@)));
        self.update(server, EdgeStatus::Disconnected, last_error, now);
    }

    pub fn set_draining(&mut self)
        ensures
            final(self).draining,
            final(self).edges == old(self).edges,
    {
        self.draining = true;
    }

    /// The servers whose Edge is connected, in ascending order.
    pub fn connected_edges(&self) -> (r: Vec<String>)
        ensures
            text::views(r@) == connected_of(self.edges.keys(), self.edges@),
            order::ascending(self.edges.keys()),
            forall|k: Seq<char>| #[trigger]
                self.edges@.contains_key(k) == self.edges.keys().contains(k),
    {
        let ghost keep = |k: Seq<char>| self.edges@[k].status == EdgeStatus::Connected;
        let n: usize = self.edges.len();
        let mut r: Vec<String> = Vec::new();
        let mut i: usize = 0;
        assert(text::views(r@) =~= Seq::<Seq<char>>::empty());
        assert(self.edges.keys().take(0) =~= Seq::<Seq<char>>::empty());
        assert(Seq::<Seq<char>>::empty().filter(keep) =~= Seq::<Seq<char>>::empty()) by {
            reveal(Seq::filter);
        }
        while i < n
            invariant
                i <= n,
                n == self.edges.keys().len(),
                text::views(r@) == self.edges.keys().take(i as int).filter(keep),
            decreases n - i,
        {
            let ghost seen = self.edges.keys().take(i as int);
            let ghost now = self.edges.keys().take(i + 1);
            let ghost before = r@;
            proof {
                assert(now.drop_last() == seen);
                reveal(Seq::filter);
            }
            if self.edges.value_at(i).status == EdgeStatus::Connected {
                r.push(self.edges.key_at(i).clone());
                assert(text::views(r@) =~= text::views(before).push(self.edges.keys()[i as int]));
            }
            i += 1;
        }
        assert(self.edges.keys().take(i as int) == self.edges.keys());
        r
    }

    /// Ready as long as some Edge is connected and draining has not begun.
    pub fn is_ready(&self) -> (r: bool)
        ensures
            r == (!self.draining && some_connected(self.edges@)),
    {
        if self.draining {
            return false;
        }
        let n: usize = self.edges.len();
        let mut i: usize = 0;
        while i < n
            invariant
                i <= n,
                n == self.edges.keys().len(),
                forall|j: int|
                    0 <= j < i ==> self.edges@[#[trigger] self.edges.keys()[j]].status
                        != EdgeStatus::Connected,
            decreases n - i,
        {
            if self.edges.value_at(i).status == EdgeStatus::Connected {
                let ghost k = self.edges.keys()[i as int];
                assert(self.edges.keys().contains(k));
                assert(self.edges@.contains_key(k));
                return true;
            }
            i += 1;
        }
        proof {
            if some_connected(self.edges@) {
                let k = choose|k: Seq<char>| #[trigger]
                    self.edges@.contains_key(k) && self.edges@[k].status == EdgeStatus::Connected;
                let j = choose|j: int|
                    0 <= j < self.edges.keys().len() && self.edges.keys()[j] == k;
            }
        }
        false
    }

    /// The word for the whole state.
    pub fn status(&self) -> (r: &'static str)
        ensures
            r@ == overall(
                self.draining,
                connected_of(self.edges.keys(), self.edges@).len(),
            ),
    {
        let connected: Vec<String> = self.connected_edges();
        assert(text::views(connected@).len() == connected.len());
        if self.draining {
            "draining"
        } else if connected.len() > 0 {
            "ready"
        } else {
            "not_ready"
        }
    }

    /// The whole state, as JSON.
    pub fn json(&self) -> (r: String)
        ensures
            r@ == health_json(self.draining, self.edges.keys(), self.edges@),
    {
        let ghost keys = self.edges.keys();
        let ghost all = edge_jsons(keys, self.edges@);
        let connected: Vec<String> = self.connected_edges();
        assert(text::views(connected@).len() == connected.len());
        let n: usize = self.edges.len();
        let mut parts: Vec<String> = Vec::new();
        let mut i: usize = 0;
        assert(text::views(parts@) =~= all.take(0));
        while i < n
            invariant
                i <= n == keys.len() == all.len(),
                keys == self.edges.keys(),
                all == edge_jsons(keys, self.edges@),
                text::views(parts@) == all.take(i as int),
            decreases n - i,
        {
            let ghost before = text::views(parts@);
            parts.push(write_edge(self.edges.key_at(i).as_str(), self.edges.value_at(i)));
            assert(text::views(parts@) =~= before.push(all[i as int]));
            assert(all.take(i + 1) =~= all.take(i as int).push(all[i as int]));
            i += 1;
        }
        assert(all.take(i as int) =~= all);
        let mut out: String = "{\"configured_edges\":".to_owned();
        out.append(decimal_text(n as u64).as_str());
        out.append(",\"connected_edges\":");
        out.append(decimal_text(connected.len() as u64).as_str());
        out.append(",\"draining\":");
        out.append(
            if self.draining {
                "true"
            } else {
                "false"
            },
        );
        out.append(",\"edges\":[");
        out.append(join_text(&parts, ",").as_str());
        out.append("],\"status\":");
        out.append(write_json_string(self.status()).as_str());
        out.append("}");
        out
    }

    /// The reply to a query, but for one for metrics.
    pub fn reply(&self, query: HealthQuery) -> (r: Option<HealthReply>)
        ensures
            r is None <==> query == HealthQuery::Metrics,
            match query {
                HealthQuery::Metrics => true,
                HealthQuery::Unknown => r->0.status == 404 && r->0.content_type is None
                    && r->0.body@ == "not found\n"@,
                _ => {
                    &&& r->0.status == (if query == HealthQuery::Readiness && (self.draining
                        || !some_connected(self.edges@)) {
                        503u16
                    } else {
                        200u16
                    })
                    &&& r->0.content_type is Some && r->0.content_type->0@ == "application/json"@
                    &&& r->0.body@ == health_json(self.draining, self.edges.keys(), self.edges@)
                },
            },
    {
        let status: u16 = match query {
            HealthQuery::Metrics => {
                return None;
            },
            HealthQuery::Unknown => {
                return Some(not_found());
            },
            HealthQuery::Liveness => 200,
            HealthQuery::Readiness => {
                if self.is_ready() {
                    200
                } else {
                    503
                }
            },
        };
        Some(HealthReply { status, content_type: Some("application/json"), body: self.json() })
    }
}

/// Once an Edge is recorded as connected, some Edge is connected.
pub proof fn law_connected_edge_counts(
    before: Map<Seq<char>, EdgeState>,
    server: Seq<char>,
    state: EdgeState,
)
    requires
        state.status == EdgeStatus::Connected,
    ensures
        some_connected(before.insert(server, state)),
{
    assert(before.insert(server, state).contains_key(server));
}

/// Every change of an Edge's state is seen at that Edge and at no other, and says nothing of
/// draining.
pub proof fn law_states_are_kept_by_edge(
    health: &mut ConnectorHealth,
    server: &str,
    status: EdgeStatus,
    error: Option<String>,
    now: u64,
    other: Seq<char>,
)
    requires
        call_ensures(ConnectorHealth::update, (health, server, status, error, now), ()),
        other != server@,
    ensures
        final(health).draining == old(health).draining,
        final(health).edges@.contains_key(server@),
        final(health).edges@[server@].status == status,
        final(health).edges@[server@].changed_at == now,
        final(health).edges@[server@].last_error == error,
        final(health).edges@.contains_key(other) == old(health).edges@.contains_key(other),
        final(health).edges@[other] == old(health).edges@[other],
{
}

/// A Connector knows its configured Edges from the start, none of them connected.
pub proof fn law_connectors_start_unconnected(
    servers: &[String],
    health: ConnectorHealth,
    ready: bool,
    i: int,
    k: Seq<char>,
)
    requires
        call_ensures(ConnectorHealth::new, (servers,), health),
        call_ensures(ConnectorHealth::is_ready, (&health,), ready),
    ensures
        !health.draining && !ready,
        0 <= i < servers@.len() ==> health.edges@.contains_key(servers@[i]@) && health.edges@[
        servers@[i]@].status is Starting && health.edges@[servers@[i]@].last_error is None,
        health.edges@.contains_key(k) ==> exists|j: int|
            0 <= j < servers@.len() && (#[trigger] servers@[j])@ == k,
{
    let views = text::views(servers@);
    if 0 <= i < servers@.len() {
        assert(views[i] == servers@[i]@);
        assert(views.contains(servers@[i]@));
        assert(health.edges@.contains_key(servers@[i]@));
        assert(says(health.edges@[servers@[i]@], EdgeStatus::Starting, None));
    }
    if health.edges@.contains_key(k) {
        let j = views.index_of(k);
        assert(views[j] == servers@[j]@);
    }
    if some_connected(health.edges@) {
        let c = choose|c: Seq<char>| #[trigger]
            health.edges@.contains_key(c) && health.edges@[c].status == EdgeStatus::Connected;
        assert(says(health.edges@[c], EdgeStatus::Starting, None));
    }
}

/// Connecting, connecting successfully and losing a connection set the state of one Edge.
pub proof fn law_connections_set_the_state(
    a: &mut ConnectorHealth,
    b: &mut ConnectorHealth,
    c: &mut ConnectorHealth,
    server: &str,
    error: &str,
    ready: bool,
    other: Seq<char>,
)
    requires
        call_ensures(ConnectorHealth::connecting, (a, server), ()),
        call_ensures(ConnectorHealth::connected, (b, server), ()),
        call_ensures(ConnectorHealth::disconnected, (c, server, error), ()),
        call_ensures(ConnectorHealth::is_ready, (&*final(b),), ready),
        other != server@,
    ensures
        final(a).edges@[server@].status is Connecting && final(a).edges@[server@].last_error
            is None,
        final(b).edges@[server@].status is Connected && final(b).edges@[server@].last_error is None,
        final(c).edges@[server@].status is Disconnected && final(c).edges@[server@].last_error
            is Some && final(c).edges@[server@].last_error->0@ == error@,
        final(a).edges@[other] == old(a).edges@[other],
        final(b).edges@[other] == old(b).edges@[other],
        final(c).edges@[other] == old(c).edges@[other],
        ready == !old(b).draining,
{
    assert(final(b).edges@.contains_key(server@));
}

/// A Connector is ready if and only if it does not drain and an Edge is connected; its status
/// says so, and so does the answer to who asks for readiness. Once it drains it never is.
pub proof fn law_readiness_needs_a_connected_edge(
    health: ConnectorHealth,
    ready: bool,
    connected: Vec<String>,
    status: &'static str,
    query: HealthQuery,
    reply: Option<HealthReply>,
    body: String,
)
    requires
        call_ensures(ConnectorHealth::is_ready, (&health,), ready),
        call_ensures(ConnectorHealth::connected_edges, (&health,), connected),
        call_ensures(ConnectorHealth::status, (&health,), status),
        call_ensures(ConnectorHealth::reply, (&health, query), reply),
        call_ensures(ConnectorHealth::json, (&health,), body),
    ensures
        ready == (!health.draining && connected@.len() > 0),
        status@ == if health.draining {
            "draining"@
        } else if ready {
            "ready"@
        } else {
            "not_ready"@
        },
        reply is None == (query is Metrics),
        query is Readiness ==> (reply->0).status == if ready {
            200int
        } else {
            503
        },
        query is Unknown ==> (reply->0).status == 404,
        reply is Some && !(query is Unknown) ==> (reply->0).body@ == body@,
        reply is Some && !(query is Unknown) && !(query is Readiness) ==> (reply->0).status == 200,
{
    let keys = health.edges.keys();
    let f = |k: Seq<char>| health.edges@[k].status == EdgeStatus::Connected;
    let list = connected_of(keys, health.edges@);
    broadcast use vstd::seq_lib::group_filter_ensures;

    assert(text::views(connected@).len() == connected@.len());
    if list.len() > 0 {
        let k = list[0];
        assert(list.contains(k));
        keys.lemma_filter_contains_rev(f, k);
        assert(f(k));
        assert(health.edges@.contains_key(k));
    }
    if some_connected(health.edges@) {
        let k = choose|k: Seq<char>| #[trigger]
            health.edges@.contains_key(k) && health.edges@[k].status == EdgeStatus::Connected;
        assert(keys.contains(k));
        assert(f(k));
        let i = keys.index_of(k);
        assert(keys.filter(f).contains(keys[i]));
    }
}

/// An Edge is listed as connected if and only if its state says so.
pub proof fn law_connected_edges_are_listed(
    health: ConnectorHealth,
    connected: Vec<String>,
    k: Seq<char>,
    i: int,
)
    requires
        call_ensures(ConnectorHealth::connected_edges, (&health,), connected),
    ensures
        0 <= i < connected@.len() ==> health.edges@.contains_key(connected@[i]@) && health.edges@[
        connected@[i]@].status is Connected,
        health.edges@.contains_key(k) && health.edges@[k].status is Connected ==> exists|j: int|
            0 <= j < connected@.len() && (#[trigger] connected@[j])@ == k,
{
    let keys = health.edges.keys();
    let f = |k: Seq<char>| health.edges@[k].status == EdgeStatus::Connected;
    let list = connected_of(keys, health.edges@);
    broadcast use vstd::seq_lib::group_filter_ensures;

    assert(text::views(connected@).len() == connected@.len());
    if 0 <= i < connected@.len() {
        assert(list[i] == connected@[i]@);
        assert(list.contains(list[i]));
        assert(f(list[i]));
        keys.lemma_filter_contains_rev(f, list[i]);
        assert(health.edges@.contains_key(list[i]));
    }
    if health.edges@.contains_key(k) && health.edges@[k].status is Connected {
        assert(keys.contains(k));
        assert(f(k));
        let a = keys.index_of(k);
        assert(list.contains(keys[a]));
        let j = list.index_of(k);
        assert(connected@[j]@ == list[j]);
    }
}

/// Draining is all that changes when draining starts.
pub proof fn law_draining_ends_readiness(health: &mut ConnectorHealth, ready: bool)
    requires
        call_ensures(ConnectorHealth::set_draining, (health,), ()),
        call_ensures(ConnectorHealth::is_ready, (&*final(health),), ready),
    ensures
        final(health).draining && !ready,
        final(health).edges@ == old(health).edges@,
{
}

} // verus!
