//! One-hop forwarding between Edges.
//!
//! The ingress Edge applies the traffic policy once, then opens a stream to a peer
//! that has the Connector. The receiving Edge verifies that the hostname belongs to
//! the claimed tenant and delivers only to its own Connectors: a forwarded request
//! is never forwarded again.

use vstd::prelude::*;
use vstd::string::*;
use vstd::utf8::*;
use bytes::Bytes;
use dashmap::DashMap;
use std::hash::RandomState;
use std::sync::Arc;
use tokio::sync::Semaphore;
use crate::addr::SocketAddr;
use crate::buffer;
use crate::concurrent;
use crate::concurrent::{keep_used, new_semaphore, new_semaphores, semaphore_of, set_semaphore};
use crate::config::Protocol;
use crate::edge::connector_registry;
use crate::edge::connector_registry::{ConnectorRegistry, HandleView};
use crate::edge::http_proxy::OpenFailure;
use crate::edge::mesh::routes::RemoteRoute;
use crate::hostname;
use crate::mesh_protocol;
use crate::mesh_protocol::{
    ForwardRequest, ForwardResponse, HeaderView, MeshDatagramHeader, MeshDatagramKind, RejectReason,
    MESH_VERSION,
};
use crate::protocol;
use crate::protocol::DatagramHeader;
use crate::text;
use crate::text::{decimal_text, same_text};
use crate::time::Duration;

verus! {

/// Limits that keep one peer or tenant from exhausting this Edge.
#[derive(Debug, Clone, Copy)]
pub struct MeshLimits {
    pub max_streams_per_peer: usize,
    pub max_streams_per_tenant: usize,
    /// How long to wait for a stream slot before giving up
    pub stream_wait: Duration,
    /// How long to wait for the peer to accept a forwarded request
    pub accept_timeout: Duration,
}

/// Why a forwarding attempt failed, and whether another peer may be tried.
#[derive(Debug)]
pub struct ForwardError {
    pub message: String,
    /// Nothing was forwarded yet, so another candidate is safe to try
    pub retryable: bool,
    pub timed_out: bool,
}

/// A [`ForwardError`] by the values that it holds.
pub struct ForwardErrorView {
    pub message: Seq<char>,
    pub retryable: bool,
    pub timed_out: bool,
}

impl View for ForwardError {
    type V = ForwardErrorView;

    open spec fn view(&self) -> ForwardErrorView {
        ForwardErrorView {
            message: self.message@,
            retryable: self.retryable,
            timed_out: self.timed_out,
        }
    }
}

/// The reason of a rejection.
pub open spec fn reason_or_invalid(reason: Option<RejectReason>) -> RejectReason {
    match reason {
        Some(r) => r,
        None => RejectReason::Invalid,
    }
}

/// The error for a request that the peer rejected.
pub open spec fn rejection_error(reason: Option<RejectReason>) -> ForwardErrorView {
    let r = reason_or_invalid(reason);
    ForwardErrorView {
        message: "peer rejected the request: "@ + mesh_protocol::reason_name(r),
        retryable: r == RejectReason::NoRoute || r == RejectReason::Overloaded,
        timed_out: false,
    }
}

impl ForwardError {
    pub fn retryable(message: String) -> (r: Self)
        ensures
            r@ == (ForwardErrorView { message: message@, retryable: true, timed_out: false }),
    {
        ForwardError { message, retryable: true, timed_out: false }
    }

    pub fn timeout(message: String) -> (r: Self)
        ensures
            r@ == (ForwardErrorView { message: message@, retryable: true, timed_out: true }),
    {
        ForwardError { message, retryable: true, timed_out: true }
    }

    pub fn rejected(reason: Option<RejectReason>) -> (r: Self)
        ensures
            r@ == rejection_error(reason),
    {
        let reason: RejectReason = match reason {
            Some(r) => r,
            None => RejectReason::Invalid,
        };
        ForwardError {
            message: "peer rejected the request: ".to_owned().concat(reason.as_str()),
            retryable: reason.retryable(),
            timed_out: false,
        }
    }
}

/// Whether a semaphore is that of `key` where it is asked for: the one that is
/// there, or a new one with `limit` permits.
pub open spec fn budget_of(
    before: Map<Seq<char>, Semaphore>,
    key: Seq<char>,
    limit: usize,
    permits: Semaphore,
    after: Map<Seq<char>, Semaphore>,
) -> bool {
    if before.contains_key(key) {
        permits == before[key] && after == before
    } else {
        concurrent::capacity(permits) == limit && after == before.insert(key, permits)
    }
}

/// Whether idle entries are dropped: what is left is as it was and can be found in
/// use, what is gone can be found idle.
pub open spec fn swept(
    before: Map<Seq<char>, Semaphore>,
    limit: usize,
    after: Map<Seq<char>, Semaphore>,
) -> bool {
    &&& forall|k: Seq<char>| #[trigger]
        after.contains_key(k) ==> before.contains_key(k) && after[k] == before[k]
            && concurrent::can_be_found(before[k], limit, true)
    &&& forall|k: Seq<char>| #[trigger]
        before.contains_key(k) && !after.contains_key(k) ==> concurrent::can_be_found(
            before[k],
            limit,
            false,
        )
}

/// Whether each budget has `limit` permits.
pub open spec fn budgets_of(m: Map<Seq<char>, Semaphore>, limit: usize) -> bool {
    forall|k: Seq<char>| #[trigger] m.contains_key(k) ==> concurrent::capacity(m[k]) == limit
}

/// Per-peer and per-tenant stream budgets for one direction: a semaphore for each.
///
/// Entries are created on demand and removed again by [`PermitTable::sweep`]
/// once nothing holds a permit, so that ids seen once do not accumulate for the
/// lifetime of the process.
#[derive(Debug)]
pub struct PermitTable {
    peers: DashMap<String, Arc<Semaphore>, RandomState>,
    tenants: DashMap<String, Arc<Semaphore>, RandomState>,
}

fn budget(
    m: &mut DashMap<String, Arc<Semaphore>, RandomState>,
    key: &str,
    limit: usize,
) -> (r: Arc<Semaphore>)
    requires
        concurrent::semaphores(*old(m)).contains_key(key@) || limit <= usize::MAX / 8,
    ensures
        budget_of(
            concurrent::semaphores(*old(m)),
            key@,
            limit,
            *r,
            concurrent::semaphores(*final(m)),
        ),
{
    match semaphore_of(m, key) {
        Some(permits) => permits,
        None => {
            let permits: Arc<Semaphore> = Arc::new(new_semaphore(limit));
            set_semaphore(m, key.to_owned(), permits.clone());
            permits
        },
    }
}

impl PermitTable {
    /// The budgets of peers.
    pub closed spec fn by_peer(self) -> Map<Seq<char>, Semaphore> {
        concurrent::semaphores(self.peers)
    }

    /// The budgets of tenants.
    pub closed spec fn by_tenant(self) -> Map<Seq<char>, Semaphore> {
        concurrent::semaphores(self.tenants)
    }

    pub fn new() -> (r: Self)
        ensures
            r.by_peer() == Map::<Seq<char>, Semaphore>::empty(),
            r.by_tenant() == Map::<Seq<char>, Semaphore>::empty(),
    {
        PermitTable { peers: new_semaphores(), tenants: new_semaphores() }
    }

    /// The budget of a peer: each stream takes a permit of it.
    pub fn peer(&mut self, peer: &str, limits: &MeshLimits) -> (r: Arc<Semaphore>)
        requires
            old(self).by_peer().contains_key(peer@) || limits.max_streams_per_peer <= usize::MAX
                / 8,
        ensures
            budget_of(
                old(self).by_peer(),
                peer@,
                limits.max_streams_per_peer,
                *r,
                final(self).by_peer(),
            ),
            final(self).by_tenant() == old(self).by_tenant(),
    {
        budget(&mut self.peers, peer, limits.max_streams_per_peer)
    }

    /// The budget of a tenant: each stream takes a permit of it.
    pub fn tenant(&mut self, tenant: &str, limits: &MeshLimits) -> (r: Arc<Semaphore>)
        requires
            old(self).by_tenant().contains_key(tenant@) || limits.max_streams_per_tenant
                <= usize::MAX / 8,
        ensures
            budget_of(
                old(self).by_tenant(),
                tenant@,
                limits.max_streams_per_tenant,
                *r,
                final(self).by_tenant(),
            ),
            final(self).by_peer() == old(self).by_peer(),
    {
        budget(&mut self.tenants, tenant, limits.max_streams_per_tenant)
    }

    /// Drop idle entries. The table is not shared meanwhile, so that an entry is
    /// never removed while a task holds or is about to hold one of its permits.
    /// When an entry is idle depends on the tasks that run.
    pub fn sweep(&mut self, limits: &MeshLimits)
        ensures
            swept(old(self).by_peer(), limits.max_streams_per_peer, final(self).by_peer()),
            swept(old(self).by_tenant(), limits.max_streams_per_tenant, final(self).by_tenant()),
    {
        keep_used(&mut self.peers, limits.max_streams_per_peer);
        keep_used(&mut self.tenants, limits.max_streams_per_tenant);
    }
}

/// Whoever asks for the budget of one peer or tenant gets the same semaphore, and
/// asking for another changes nothing of it: the streams of one share one limit.
pub proof fn law_budgets_are_shared(
    before: Map<Seq<char>, Semaphore>,
    key: Seq<char>,
    limit: usize,
    first: Semaphore,
    between: Map<Seq<char>, Semaphore>,
    other: Seq<char>,
    second: Semaphore,
    after: Map<Seq<char>, Semaphore>,
)
    requires
        budget_of(before, key, limit, first, between),
        budget_of(between, other, limit, second, after),
    ensures
        after.contains_key(key),
        after[key] == first,
        other == key ==> second == first && after == between,
{
}

/// Every budget keeps its limit, whether one is asked for or idle ones are dropped.
pub proof fn law_budgets_are_kept(
    before: Map<Seq<char>, Semaphore>,
    key: Seq<char>,
    limit: usize,
    permits: Semaphore,
    after: Map<Seq<char>, Semaphore>,
)
    requires
        budgets_of(before, limit),
        budget_of(before, key, limit, permits, after) || swept(before, limit, after),
    ensures
        budgets_of(after, limit),
        budget_of(before, key, limit, permits, after) ==> concurrent::capacity(permits) == limit,
{
}

/// Dropping idle entries takes away no budget that cannot be found idle, and
/// leaves none that cannot be found in use.
pub proof fn law_sweep_drops_idle_budgets(
    before: Map<Seq<char>, Semaphore>,
    limit: usize,
    after: Map<Seq<char>, Semaphore>,
    key: Seq<char>,
)
    requires
        swept(before, limit, after),
        before.contains_key(key),
    ensures
        !concurrent::can_be_found(before[key], limit, false) ==> after.contains_key(key)
            && after[key] == before[key],
        !concurrent::can_be_found(before[key], limit, true) ==> !after.contains_key(key),
{
}

/// What a request for a peer says.
pub open spec fn request_of(
    edge_id: Seq<char>,
    route: RemoteRoute,
    hostname: Seq<char>,
    protocol: Protocol,
    client_addr: SocketAddr,
    request_id: u64,
    r: ForwardRequest,
) -> bool {
    &&& r.version == MESH_VERSION
    &&& r.ingress_edge_id@ == edge_id
    &&& r.tenant_id@ == route.tenant_id@
    &&& r.hostname@ == hostname
    &&& r.protocol == protocol
    &&& r.client_addr == client_addr
    &&& r.request_id == request_id
    &&& r.hops_remaining == 1
    &&& r.connection_generation == route.generation
}

/// The request that is sent to the peer of a route. It may go one hop only: the
/// receiving Edge must deliver locally.
pub fn forward_request(
    edge_id: &str,
    route: &RemoteRoute,
    hostname: &str,
    protocol: Protocol,
    client_addr: SocketAddr,
    request_id: u64,
) -> (r: ForwardRequest)
    ensures
        request_of(edge_id@, *route, hostname@, protocol, client_addr, request_id, r),
{
    ForwardRequest {
        version: MESH_VERSION,
        ingress_edge_id: edge_id.to_owned(),
        tenant_id: route.tenant_id.clone(),
        hostname: hostname.to_owned(),
        protocol,
        client_addr,
        request_id,
        hops_remaining: 1,
        connection_generation: route.generation,
    }
}

/// What is told to the pool of connections about the peer.
#[derive(Debug, Clone, Copy, PartialEq, Eq, Structural)]
pub enum PeerReport {
    Nothing,
    /// Something failed on the connection.
    Failed,
    /// The peer does not answer any more.
    Unresponsive,
}

/// What has to be done next to open a stream through a peer.
#[derive(Debug)]
pub enum RemoteAction {
    /// Take a permit for the tenant of the route.
    AcquireTenant,
    /// Get a connection to the peer.
    Connect,
    /// Open a stream, send the request and read the response.
    Exchange,
    /// The stream is open.
    Opened,
    Fail { error: ForwardError, report: PeerReport },
}

/// What the last action gave.
#[derive(Debug)]
pub enum RemoteEvent {
    /// Whether there was a permit for the peer.
    PeerPermit(bool),
    TenantPermit(bool),
    Connected(Result<(), String>),
    Exchanged(Exchange),
}

/// What came of a request to a peer.
#[derive(Debug)]
pub enum Exchange {
    CannotOpen(String),
    CannotSend(String),
    InvalidResponse(String),
    TimedOut,
    Response(ForwardResponse),
}

/// Why a stream through a peer was not opened, and what the pool is told.
pub open spec fn remote_failure(edge_id: Seq<char>, event: RemoteEvent) -> Option<
    (ForwardErrorView, PeerReport),
> {
    let retryable = |message: Seq<char>|
        ForwardErrorView { message, retryable: true, timed_out: false };
    let timeout = |message: Seq<char>|
        ForwardErrorView { message, retryable: true, timed_out: true };
    match event {
        RemoteEvent::PeerPermit(true) => None,
        RemoteEvent::PeerPermit(false) => Some(
            (timeout("no stream slot for edge "@ + edge_id), PeerReport::Nothing),
        ),
        RemoteEvent::TenantPermit(true) => None,
        RemoteEvent::TenantPermit(false) => Some(
            (timeout("no stream slot for tenant"@), PeerReport::Nothing),
        ),
        RemoteEvent::Connected(Ok(_)) => None,
        RemoteEvent::Connected(Err(e)) => Some((retryable(e@), PeerReport::Nothing)),
        RemoteEvent::Exchanged(Exchange::CannotOpen(e)) => Some(
            (retryable("cannot open mesh stream: "@ + e@), PeerReport::Failed),
        ),
        RemoteEvent::Exchanged(Exchange::CannotSend(e)) => Some(
            (retryable("cannot send forward request: "@ + e@), PeerReport::Failed),
        ),
        RemoteEvent::Exchanged(Exchange::InvalidResponse(e)) => Some(
            (retryable("invalid forward response: "@ + e@), PeerReport::Failed),
        ),
        RemoteEvent::Exchanged(Exchange::TimedOut) => Some(
            (timeout("peer did not answer the forward request"@), PeerReport::Unresponsive),
        ),
        RemoteEvent::Exchanged(Exchange::Response(r)) => if r.accepted {
            None
        } else {
            Some((rejection_error(r.reject), PeerReport::Nothing))
        },
    }
}

/// Ingress: what has to be done next to open a stream through the peer that has
/// the Connector. A peer is given up only for what its connection did.
pub fn open_remote_stream(route: &RemoteRoute, event: RemoteEvent) -> (r: RemoteAction)
    ensures
        match remote_failure(route.edge_id@, event) {
            Some((error, report)) => r is Fail && r->error@ == error && r->report == report,
            None => match event {
                RemoteEvent::PeerPermit(_) => r is AcquireTenant,
                RemoteEvent::TenantPermit(_) => r is Connect,
                RemoteEvent::Connected(_) => r is Exchange,
                RemoteEvent::Exchanged(_) => r is Opened,
            },
        },
{
    match event {
        RemoteEvent::PeerPermit(true) => RemoteAction::AcquireTenant,
        RemoteEvent::PeerPermit(false) => RemoteAction::Fail {
            error: ForwardError::timeout(
                "no stream slot for edge ".to_owned().concat(route.edge_id.as_str()),
            ),
            report: PeerReport::Nothing,
        },
        RemoteEvent::TenantPermit(true) => RemoteAction::Connect,
        RemoteEvent::TenantPermit(false) => RemoteAction::Fail {
            error: ForwardError::timeout("no stream slot for tenant".to_owned()),
            report: PeerReport::Nothing,
        },
        RemoteEvent::Connected(Ok(_)) => RemoteAction::Exchange,
        RemoteEvent::Connected(Err(e)) => RemoteAction::Fail {
            error: ForwardError::retryable(e),
            report: PeerReport::Nothing,
        },
        RemoteEvent::Exchanged(Exchange::CannotOpen(e)) => RemoteAction::Fail {
            error: ForwardError::retryable(
                "cannot open mesh stream: ".to_owned().concat(e.as_str()),
            ),
            report: PeerReport::Failed,
        },
        RemoteEvent::Exchanged(Exchange::CannotSend(e)) => RemoteAction::Fail {
            error: ForwardError::retryable(
                "cannot send forward request: ".to_owned().concat(e.as_str()),
            ),
            report: PeerReport::Failed,
        },
        RemoteEvent::Exchanged(Exchange::InvalidResponse(e)) => RemoteAction::Fail {
            error: ForwardError::retryable(
                "invalid forward response: ".to_owned().concat(e.as_str()),
            ),
            report: PeerReport::Failed,
        },
        RemoteEvent::Exchanged(Exchange::TimedOut) => RemoteAction::Fail {
            error: ForwardError::timeout("peer did not answer the forward request".to_owned()),
            report: PeerReport::Unresponsive,
        },
        RemoteEvent::Exchanged(Exchange::Response(r)) => if r.accepted {
            RemoteAction::Opened
        } else {
            RemoteAction::Fail {
                error: ForwardError::rejected(r.reject),
                report: PeerReport::Nothing,
            }
        },
    }
}

/// Whether a Connector of the tenant serves the hostname here.
pub open spec fn owns(
    live: Map<Seq<char>, HandleView>,
    tenant: Seq<char>,
    hostname: Seq<char>,
) -> bool {
    live.contains_key(tenant) && live[tenant].hostnames.contains(hostname)
}

/// Whether any Connector serves the hostname here.
pub open spec fn owned(live: Map<Seq<char>, HandleView>, hostname: Seq<char>) -> bool {
    exists|t: Seq<char>| #[trigger] live.contains_key(t) && live[t].hostnames.contains(hostname)
}

/// Why a forwarded request is rejected, before any budget is touched.
pub open spec fn forward_fault(
    live: Map<Seq<char>, HandleView>,
    peer_id: Seq<char>,
    r: ForwardRequest,
) -> Option<RejectReason> {
    if mesh_protocol::request_fault(r) is Some {
        mesh_protocol::request_fault(r)
    } else if r.ingress_edge_id@ != peer_id {
        Some(RejectReason::NotAuthorized)
    } else if !owned(live, r.hostname@) {
        Some(RejectReason::NoRoute)
    } else if !owns(live, r.tenant_id@, r.hostname@) {
        Some(RejectReason::NotAuthorized)
    } else if !connector_registry::serves(live[r.tenant_id@], r.hostname@, r.protocol) {
        Some(RejectReason::NoRoute)
    } else {
        None
    }
}

/// What has to be done next for a forwarded request.
#[derive(Debug)]
pub enum ForwardAction {
    /// Answer this and nothing more. It is counted unless the request was not read.
    Respond { response: ForwardResponse, counted: bool },
    /// Take a permit for the peer and one for this tenant.
    Acquire { tenant_id: String },
    /// Open a stream on this connection.
    OpenLocal { connection: u64 },
    /// Answer that the request is accepted and join the streams.
    Accept,
}

/// What the last action gave.
#[derive(Debug)]
pub enum ForwardEvent {
    /// The request, unless none came in time or it could not be read.
    Read(Option<ForwardRequest>),
    Permits { peer: bool, tenant: bool },
    Opened(Result<(), OpenFailure>),
}

/// What is being waited for.
#[derive(Debug, Clone, Copy, PartialEq, Eq, Structural)]
pub enum ForwardPhase {
    Reading,
    Acquiring,
    Opening,
    Done,
}

/// The work on a request that a peer forwarded.
#[derive(Debug)]
pub struct ForwardRun {
    /// The authenticated Edge ID of the peer
    pub peer_id: String,
    /// The connection of the Connector, once it is known.
    pub connection: u64,
    pub phase: ForwardPhase,
}

pub open spec fn forward_awaits(phase: ForwardPhase, event: ForwardEvent) -> bool {
    match phase {
        ForwardPhase::Reading => event is Read,
        ForwardPhase::Acquiring => event is Permits,
        ForwardPhase::Opening => event is Opened,
        ForwardPhase::Done => false,
    }
}

pub open spec fn forward_phase(action: ForwardAction) -> ForwardPhase {
    match action {
        ForwardAction::Respond { .. } => ForwardPhase::Done,
        ForwardAction::Acquire { .. } => ForwardPhase::Acquiring,
        ForwardAction::OpenLocal { .. } => ForwardPhase::Opening,
        ForwardAction::Accept => ForwardPhase::Done,
    }
}

/// An answer that rejects.
pub open spec fn rejects(action: ForwardAction, reason: RejectReason, counted: bool) -> bool {
    action == (ForwardAction::Respond {
        response: ForwardResponse { accepted: false, reject: Some(reason) },
        counted,
    })
}

fn reject(reason: RejectReason) -> (r: ForwardAction)
    ensures
        rejects(r, reason, true),
{
    ForwardAction::Respond { response: ForwardResponse::reject(reason), counted: true }
}

impl ForwardRun {
    pub fn new(peer_id: &str) -> (r: Self)
        ensures
            r.peer_id@ == peer_id@,
            r.phase == ForwardPhase::Reading,
    {
        ForwardRun { peer_id: peer_id.to_owned(), connection: 0, phase: ForwardPhase::Reading }
    }

    fn check(&self, registry: &ConnectorRegistry, request: &ForwardRequest) -> (r: Result<
        u64,
        RejectReason,
    >)
        requires
            registry.wf(),
        ensures
            match r {
                Ok(c) => forward_fault(registry.live(), self.peer_id@, *request) is None && c
                    == registry.live()[request.tenant_id@].connection,
                Err(e) => forward_fault(registry.live(), self.peer_id@, *request) == Some(e),
            },
    {
        if let Err(reason) = request.validate() {
            return Err(reason);
        }
        // The metadata must match the authenticated peer identity.
        if !same_text(request.ingress_edge_id.as_str(), self.peer_id.as_str()) {
            return Err(RejectReason::NotAuthorized);
        }
        proof {
            registry.law_hostname_has_one_tenant();
        }
        let ghost live = registry.live();
        match registry.get_by_hostname(request.hostname.as_str()) {
            None => Err(RejectReason::NoRoute),
            Some(connector) => {
                assert(live.contains_key(connector.tenant_id@));
                assert(live[connector.tenant_id@].hostnames.contains(request.hostname@));
                // Peer authentication alone does not authorize a tenant's hostname.
                if !same_text(connector.tenant_id.as_str(), request.tenant_id.as_str()) {
                    assert(!owns(live, request.tenant_id@, request.hostname@));
                    return Err(RejectReason::NotAuthorized);
                }
                if !connector.supports(request.hostname.as_str(), request.protocol) {
                    return Err(RejectReason::NoRoute);
                }
                Ok(connector.connection)
            },
        }
    }

    /// Takes in what the last action gave and says what has to be done next.
    pub fn step(&mut self, registry: &ConnectorRegistry, event: ForwardEvent) -> (r: ForwardAction)
        requires
            registry.wf(),
            forward_awaits(old(self).phase, event),
        ensures
            final(self).phase == forward_phase(r),
            final(self).peer_id == old(self).peer_id,
            match event {
                ForwardEvent::Read(None) => rejects(r, RejectReason::Invalid, false),
                ForwardEvent::Read(Some(request)) => match forward_fault(
                    registry.live(),
                    old(self).peer_id@,
                    request,
                ) {
                    Some(reason) => rejects(r, reason, true),
                    None => r is Acquire && r->tenant_id@ == request.tenant_id@
                        && final(self).connection
                        == registry.live()[request.tenant_id@].connection,
                },
                ForwardEvent::Permits { peer, tenant } => {
                    &&& final(self).connection == old(self).connection
                    &&& if peer && tenant {
                        r == (ForwardAction::OpenLocal { connection: old(self).connection })
                    } else {
                        rejects(r, RejectReason::Overloaded, true)
                    }
                },
                ForwardEvent::Opened(Ok(_)) => r is Accept,
                ForwardEvent::Opened(Err(OpenFailure::Failed)) => rejects(
                    r,
                    RejectReason::NoRoute,
                    true,
                ),
                ForwardEvent::Opened(Err(OpenFailure::TimedOut)) => rejects(
                    r,
                    RejectReason::Overloaded,
                    true,
                ),
            },
    {
        let r: ForwardAction = match event {
            ForwardEvent::Read(None) => ForwardAction::Respond {
                response: ForwardResponse::reject(RejectReason::Invalid),
                counted: false,
            },
            ForwardEvent::Read(Some(request)) => match self.check(registry, &request) {
                Err(reason) => reject(reason),
                Ok(connection) => {
                    self.connection = connection;
                    ForwardAction::Acquire { tenant_id: request.tenant_id }
                },
            },
            ForwardEvent::Permits { peer, tenant } => if peer && tenant {
                ForwardAction::OpenLocal { connection: self.connection }
            } else {
                reject(RejectReason::Overloaded)
            },
            ForwardEvent::Opened(Ok(_)) => ForwardAction::Accept,
            ForwardEvent::Opened(Err(OpenFailure::Failed)) => reject(RejectReason::NoRoute),
            ForwardEvent::Opened(Err(OpenFailure::TimedOut)) => reject(RejectReason::Overloaded),
        };
        self.phase = match &r {
            ForwardAction::Respond { .. } => ForwardPhase::Done,
            ForwardAction::Acquire { .. } => ForwardPhase::Acquiring,
            ForwardAction::OpenLocal { .. } => ForwardPhase::Opening,
            ForwardAction::Accept => ForwardPhase::Done,
        };
        r
    }
}

/// A request that was forwarded once cannot be forwarded again: what a receiving
/// Edge accepts had a hop left, and what an Edge sends has exactly one, which the
/// receiving Edge uses up by delivering locally.
pub proof fn law_forwarding_goes_one_hop(
    live: Map<Seq<char>, HandleView>,
    peer_id: Seq<char>,
    r: ForwardRequest,
)
    requires
        r.hops_remaining == 0,
    ensures
        forward_fault(live, peer_id, r) is Some,
{
}

/// A peer reaches a hostname only as the tenant that serves it here, and only
/// under its own identity.
pub proof fn law_peers_cannot_cross_tenants(
    live: Map<Seq<char>, HandleView>,
    peer_id: Seq<char>,
    r: ForwardRequest,
)
    requires
        forward_fault(live, peer_id, r) is None,
    ensures
        r.ingress_edge_id@ == peer_id,
        live.contains_key(r.tenant_id@),
        live[r.tenant_id@].hostnames.contains(r.hostname@),
        connector_registry::serves(live[r.tenant_id@], r.hostname@, r.protocol),
{
}

/// Why a UDP datagram is dropped.
#[derive(Debug)]
pub struct UdpDrop {
    /// The label under which it is counted
    pub label: &'static str,
    pub message: String,
    /// Whether the entry for the reply has to be taken out again.
    pub forget_reply: bool,
}

/// What is sent to a peer for a datagram of a client.
pub open spec fn udp_header(
    edge_id: Seq<char>,
    route: RemoteRoute,
    hostname: Seq<char>,
    request_id: u64,
) -> HeaderView {
    HeaderView {
        kind: MeshDatagramKind::Request,
        request_id,
        connection_generation: route.generation,
        ingress_edge_id: edge_id,
        tenant_id: route.tenant_id@,
        hostname,
    }
}

/// What is said of a datagram that is too long.
pub open spec fn oversize(len: nat) -> Seq<char> {
    "datagram of "@ + text::decimal(len) + " bytes exceeds the mesh datagram limit"@
}

/// Whether a datagram fits.
pub open spec fn fits(len: nat, max: Option<usize>) -> bool {
    max is Some ==> len <= max->0
}

/// Ingress: the datagram for the peer of a route, if it can be sent over a
/// connection with this limit.
pub fn forward_udp(
    edge_id: &str,
    route: &RemoteRoute,
    hostname: &str,
    payload: &[u8],
    request_id: u64,
    max_datagram_size: Option<usize>,
) -> (r: Result<Bytes, UdpDrop>)
    requires
        792 + payload@.len() <= isize::MAX,
    ensures
        ({
            let h = udp_header(edge_id@, *route, hostname@, request_id);
            let len = mesh_protocol::header_len(h) + payload@.len();
            let fault = mesh_protocol::header_fault(h);
            match r {
                Ok(bytes) => fault is None && fits(len, max_datagram_size) && buffer::contents(
                    bytes,
                ) == mesh_protocol::datagram_of(h, payload@),
                Err(e) => !e.forget_reply && if fault is Some {
                    e.label@ == "encode_failed"@ && e.message@ == "protocol error: "@ + fault->0
                } else {
                    !fits(len, max_datagram_size) && e.label@ == "oversize"@ && e.message@
                        == oversize(len)
                },
            }
        }),
{
    let header: MeshDatagramHeader = MeshDatagramHeader {
        kind: MeshDatagramKind::Request,
        request_id,
        connection_generation: route.generation,
        ingress_edge_id: edge_id.to_owned(),
        tenant_id: route.tenant_id.clone(),
        hostname: hostname.to_owned(),
    };
    let bytes: Bytes = match header.encode(payload) {
        Ok(b) => b,
        Err(e) => {
            return Err(
                UdpDrop { label: "encode_failed", message: e.message(), forget_reply: false },
            );
        },
    };
    let len: usize = header.encoded_len() + payload.len();
    if let Some(max) = max_datagram_size {
        if len > max {
            let mut m: String = "datagram of ".to_owned();
            m.append(decimal_text(len as u64).as_str());
            m.append(" bytes exceeds the mesh datagram limit");
            return Err(UdpDrop { label: "oversize", message: m, forget_reply: false });
        }
    }
    Ok(bytes)
}

/// What follows once the reply of a forwarded datagram was to be remembered.
pub fn udp_remembered(inserted: bool) -> (r: Result<(), UdpDrop>)
    ensures
        match r {
            Ok(_) => inserted,
            Err(e) => !inserted && e.label@ == "reply_table_full"@ && e.message@
                == "too many UDP requests awaiting replies"@ && !e.forget_reply,
        },
{
    if inserted {
        Ok(())
    } else {
        Err(
            UdpDrop {
                label: "reply_table_full",
                message: "too many UDP requests awaiting replies".to_owned(),
                forget_reply: false,
            },
        )
    }
}

/// What follows once a forwarded datagram was to be sent.
pub fn udp_sent(result: Result<(), String>) -> (r: Result<(), UdpDrop>)
    ensures
        match result {
            Ok(_) => r is Ok,
            Err(e) => r is Err && r->Err_0.label@ == "send_failed"@ && r->Err_0.message@
                == "cannot send mesh datagram: "@ + e@ && r->Err_0.forget_reply,
        },
{
    match result {
        Ok(_) => Ok(()),
        Err(e) => Err(
            UdpDrop {
                label: "send_failed",
                message: "cannot send mesh datagram: ".to_owned().concat(e.as_str()),
                forget_reply: true,
            },
        ),
    }
}

/// What becomes of a datagram from a peer.
#[derive(Debug)]
pub enum DatagramStep {
    Ignore,
    /// Remember under the local id where the reply goes, then send this to the
    /// Connector.
    Deliver {
        connection: u64,
        local_id: u64,
        /// The request id at the ingress Edge
        request_id: u64,
        ingress_edge_id: String,
        hostname: String,
        datagram: Bytes,
        len: usize,
    },
    /// Hand this to the client whose request the reply is for, if it may be.
    Reply { request_id: u64, payload: Vec<u8> },
}

/// Whether a datagram of a peer may go to a Connector.
pub open spec fn deliverable(
    live: Map<Seq<char>, HandleView>,
    peer_id: Seq<char>,
    h: HeaderView,
) -> bool {
    &&& h.ingress_edge_id == peer_id
    &&& owns(live, h.tenant_id, h.hostname)
    &&& connector_registry::serves(live[h.tenant_id], h.hostname, Protocol::Udp)
}

/// Decides on a datagram from an authenticated peer. A local request id keeps the
/// replies of different ingress Edges apart.
pub fn handle_datagram(
    edge_id: &str,
    peer_id: &str,
    data: &[u8],
    registry: &ConnectorRegistry,
    local_id: u64,
) -> (r: DatagramStep)
    requires
        registry.wf(),
        data@.len() + 300 <= isize::MAX,
    ensures
        match mesh_protocol::parsed_datagram(data@) {
            Err(_) => r is Ignore,
            Ok((h, payload)) => match h.kind {
                MeshDatagramKind::Request => if deliverable(registry.live(), peer_id@, h) {
                    &&& r is Deliver
                    &&& r->connection == registry.live()[h.tenant_id].connection
                    &&& r->local_id == local_id
                    &&& r->Deliver_request_id == h.request_id
                    &&& r->ingress_edge_id@ == h.ingress_edge_id
                    &&& r->hostname@ == h.hostname
                    &&& buffer::contents(r->datagram) == protocol::datagram_of(
                        local_id as nat,
                        h.hostname,
                        payload,
                    )
                    &&& r->len == 10 + encode_utf8(h.hostname).len() + payload.len()
                } else {
                    r is Ignore
                },
                MeshDatagramKind::Reply => if h.ingress_edge_id == edge_id@ {
                    r is Reply && r->Reply_request_id == h.request_id && r->payload@ == payload
                } else {
                    r is Ignore
                },
            },
        },
{
    let (header, payload) = match MeshDatagramHeader::decode(data) {
        Ok(decoded) => decoded,
        Err(_) => {
            return DatagramStep::Ignore;
        },
    };
    match header.kind {
        MeshDatagramKind::Request => {
            if !same_text(header.ingress_edge_id.as_str(), peer_id) {
                return DatagramStep::Ignore;
            }
            proof {
                registry.law_hostname_has_one_tenant();
            }
            let ghost live = registry.live();
            let connection: u64 = match registry.get_by_hostname(header.hostname.as_str()) {
                None => {
                    assert(!owns(live, header.tenant_id@, header.hostname@));
                    return DatagramStep::Ignore;
                },
                Some(connector) => {
                    assert(live.contains_key(connector.tenant_id@));
                    assert(live[connector.tenant_id@].hostnames.contains(header.hostname@));
                    if !same_text(connector.tenant_id.as_str(), header.tenant_id.as_str()) {
                        assert(!owns(live, header.tenant_id@, header.hostname@));
                        return DatagramStep::Ignore;
                    }
                    if !connector.supports(header.hostname.as_str(), Protocol::Udp) {
                        return DatagramStep::Ignore;
                    }
                    connector.connection
                },
            };
            let MeshDatagramHeader {
                kind: _,
                request_id,
                connection_generation: _,
                ingress_edge_id,
                tenant_id: _,
                hostname,
            } = header;
            let len: usize = 10 + hostname.as_str().as_bytes().len() + payload.len();
            let out: DatagramHeader = DatagramHeader {
                request_id: local_id,
                hostname: hostname.clone(),
            };
            let datagram: Bytes = out.encode(payload);
            DatagramStep::Deliver {
                connection,
                local_id,
                request_id,
                ingress_edge_id,
                hostname,
                datagram,
                len,
            }
        },
        MeshDatagramKind::Reply => {
            // Replies are only valid for requests this Edge sent.
            if !same_text(header.ingress_edge_id.as_str(), edge_id) {
                return DatagramStep::Ignore;
            }
            DatagramStep::Reply {
                request_id: header.request_id,
                payload: vstd::slice::slice_to_vec(payload),
            }
        },
    }
}

/// Whether a datagram of so many bytes can be sent.
pub fn datagram_fits(len: usize, max_datagram_size: Option<usize>) -> (r: bool)
    ensures
        r == fits(len as nat, max_datagram_size),
{
    match max_datagram_size {
        Some(max) => len <= max,
        None => true,
    }
}

/// Whether a reply may be handed to the client.
#[derive(Debug, Clone, Copy, PartialEq, Eq, Structural)]
pub enum ReplyClaim {
    Deliver,
    /// The request went to another peer; its entry stays in place.
    PeerMismatch,
    Unknown,
}

/// Decides on a reply from a peer, where `expected` is the peer that the request
/// went to, if there is an entry for it. Request ids are sequential, so matching
/// on the id alone would let any authorized peer claim another peer's pending
/// reply.
pub fn claim_reply(expected: &Option<Option<String>>, peer_id: &str) -> (r: ReplyClaim)
    ensures
        r == (match *expected {
            None => ReplyClaim::Unknown,
            Some(e) => if text::opt_view(e) == Some(peer_id@) {
                ReplyClaim::Deliver
            } else {
                ReplyClaim::PeerMismatch
            },
        }),
{
    match expected {
        None => ReplyClaim::Unknown,
        Some(Some(peer)) => if same_text(peer.as_str(), peer_id) {
            ReplyClaim::Deliver
        } else {
            ReplyClaim::PeerMismatch
        },
        Some(None) => ReplyClaim::PeerMismatch,
    }
}

impl ReplyClaim {
    /// The label under which a reply is counted that is not handed on.
    pub fn label(self) -> (r: Option<&'static str>)
        ensures
            match self {
                ReplyClaim::Deliver => r is None,
                ReplyClaim::PeerMismatch => r is Some && r->0@ == "reply_peer_mismatch"@,
                ReplyClaim::Unknown => r is Some && r->0@ == "unknown_reply"@,
            },
    {
        match self {
            ReplyClaim::Deliver => None,
            ReplyClaim::PeerMismatch => Some("reply_peer_mismatch"),
            ReplyClaim::Unknown => Some("unknown_reply"),
        }
    }
}

/// Whether a request from a peer is one to be taken on: it is well-formed, comes from the
/// Edge that it names, and its tenant's Connector here has its hostname and serves its
/// protocol.
pub open spec fn is_welcome(
    registry: ConnectorRegistry,
    peer_id: Seq<char>,
    request: ForwardRequest,
    connector: connector_registry::ConnectorHandle,
) -> bool {
    &&& request.version == 1
    &&& request.hops_remaining > 0
    &&& 0 < request.ingress_edge_id@.len() && encode_utf8(request.ingress_edge_id@).len() <= 256
    &&& 0 < request.tenant_id@.len() && encode_utf8(request.tenant_id@).len() <= 256
    &&& 0 < request.hostname@.len() && encode_utf8(request.hostname@).len() <= 256
    &&& hostname::normalized(request.hostname@, false, false) == Ok::<Seq<char>, Seq<char>>(
        request.hostname@,
    )
    &&& request.ingress_edge_id@ == peer_id
    &&& connector.tenant_id@ == request.tenant_id@
    &&& registry.live().contains_key(request.tenant_id@)
    &&& registry.live()[request.tenant_id@] == connector@
    &&& connector@.hostnames.contains(request.hostname@)
    &&& match connector@.services {
        None => true,
        Some(m) => m.contains_key(request.hostname@) && m[request.hostname@].contains(
            request.protocol,
        ),
    }
}

/// A request is taken on if and only if it is one to be taken on, whatever its protocol;
/// it is then for its own tenant and goes to that tenant's connection. Every other one is
/// answered with a rejection.
pub proof fn law_welcome_requests_are_taken_on(
    run: &mut ForwardRun,
    registry: &ConnectorRegistry,
    request: ForwardRequest,
    connector: connector_registry::ConnectorHandle,
    r: ForwardAction,
)
    requires
        registry.wf(),
        old(run).phase == ForwardPhase::Reading,
        call_ensures(ForwardRun::step, (run, registry, ForwardEvent::Read(Some(request))), r),
        registry.live().contains_key(request.tenant_id@) ==> connector@
            == registry.live()[request.tenant_id@] && connector.tenant_id@ == request.tenant_id@,
    ensures
        if is_welcome(*registry, old(run).peer_id@, request, connector) {
            &&& r is Acquire
            &&& r->tenant_id@ == request.tenant_id@
            &&& final(run).connection == connector.connection
            &&& final(run).phase == ForwardPhase::Acquiring
        } else {
            &&& r is Respond
            &&& !r->response.accepted
            &&& r->response.reject is Some
            &&& final(run).phase == ForwardPhase::Done
        },
{
    let live = registry.live();
    if is_welcome(*registry, old(run).peer_id@, request, connector) {
        assert(owned(live, request.hostname@));
    }
}

/// Why a request is not taken on is said in order: what is wrong with it, then whether the
/// peer may make it at all, then whether it can be served.
pub proof fn law_rejections_name_their_reason(
    run: &mut ForwardRun,
    registry: &ConnectorRegistry,
    request: ForwardRequest,
    r: ForwardAction,
)
    requires
        registry.wf(),
        old(run).phase == ForwardPhase::Reading,
        call_ensures(ForwardRun::step, (run, registry, ForwardEvent::Read(Some(request))), r),
    ensures
        request.version != 1 ==> rejects(r, RejectReason::UnsupportedVersion, true),
        request.version == 1 && request.hops_remaining == 0 ==> rejects(
            r,
            RejectReason::HopLimit,
            true,
        ),
        mesh_protocol::request_fault(request) is None && request.ingress_edge_id@ != old(run).peer_id@
            ==> rejects(r, RejectReason::NotAuthorized, true),
        mesh_protocol::request_fault(request) is None && request.ingress_edge_id@ == old(run).peer_id@
            && connector_registry::unserved(registry.live(), request.hostname@) ==> rejects(
            r,
            RejectReason::NoRoute,
            true,
        ),
{
}

/// A stream is opened on the connection of the tenant only with both permits, and the
/// request is accepted only once it is open.
pub proof fn law_streams_need_both_permits(
    run: &mut ForwardRun,
    registry: &ConnectorRegistry,
    event: ForwardEvent,
    r: ForwardAction,
)
    requires
        registry.wf(),
        forward_awaits(old(run).phase, event),
        call_ensures(ForwardRun::step, (run, registry, event), r),
    ensures
        r is OpenLocal ==> r->connection == old(run).connection && event is Permits,
        event matches ForwardEvent::Permits { peer, tenant } ==> (r is OpenLocal) == (peer
            && tenant),
        (r is Accept) == (event matches ForwardEvent::Opened(o) && o is Ok),
        r is Respond ==> !r->response.accepted,
        event == ForwardEvent::Read(None) ==> rejects(r, RejectReason::Invalid, false),
        event matches ForwardEvent::Permits { peer, tenant } && !(peer && tenant) ==> rejects(
            r,
            RejectReason::Overloaded,
            true,
        ),
        event == ForwardEvent::Opened(Err(OpenFailure::TimedOut)) ==> rejects(
            r,
            RejectReason::Overloaded,
            true,
        ),
        event == ForwardEvent::Opened(Err(OpenFailure::Failed)) ==> rejects(
            r,
            RejectReason::NoRoute,
            true,
        ),
{
}

/// What an Edge asks a peer for is what the peer takes on: a request that it makes for a
/// route to the tenant's Connector there is welcome.
pub proof fn law_forwarded_requests_are_welcome(
    edge_id: &str,
    route: RemoteRoute,
    hostname: &str,
    protocol: Protocol,
    client_addr: SocketAddr,
    request_id: u64,
    request: ForwardRequest,
    registry: ConnectorRegistry,
    connector: connector_registry::ConnectorHandle,
)
    requires
        call_ensures(
            forward_request,
            (edge_id, &route, hostname, protocol, client_addr, request_id),
            request,
        ),
        0 < edge_id@.len() && encode_utf8(edge_id@).len() <= 256,
        0 < route.tenant_id@.len() && encode_utf8(route.tenant_id@).len() <= 256,
        0 < hostname@.len() && encode_utf8(hostname@).len() <= 256,
        hostname::normalized(hostname@, false, false) == Ok::<Seq<char>, Seq<char>>(hostname@),
        registry.live().contains_key(route.tenant_id@),
        registry.live()[route.tenant_id@] == connector@,
        connector.tenant_id@ == route.tenant_id@,
        connector@.hostnames.contains(hostname@),
        connector.services is None,
    ensures
        is_welcome(registry, edge_id@, request, connector),
        request.hops_remaining == 1,
        request.hostname@ == hostname@,
        request.protocol == protocol,
        request.client_addr == client_addr,
        request.request_id == request_id,
        request.connection_generation == route.generation,
{
}

/// Opening a stream through a peer goes on as long as each step succeeds; once one fails
/// nothing was forwarded, and another peer may be tried unless this one refused for good.
pub proof fn law_remote_streams_open_step_by_step(
    route: RemoteRoute,
    event: RemoteEvent,
    r: RemoteAction,
)
    requires
        call_ensures(open_remote_stream, (&route, event), r),
    ensures
        event == RemoteEvent::PeerPermit(true) ==> r is AcquireTenant,
        event == RemoteEvent::TenantPermit(true) ==> r is Connect,
        event matches RemoteEvent::Connected(c) && c is Ok ==> r is Exchange,
        (r is Opened) == (event matches RemoteEvent::Exchanged(Exchange::Response(x)) && x.accepted),
        event == RemoteEvent::PeerPermit(false) || event == RemoteEvent::TenantPermit(false) ==> r
            is Fail && r->error.retryable && r->error.timed_out && r->report
            == PeerReport::Nothing,
        event matches RemoteEvent::Connected(c) ==> (c is Err ==> r is Fail && r->error.retryable
            && !r->error.timed_out && r->error.message@ == c->Err_0@),
        event matches RemoteEvent::Exchanged(x) && x is TimedOut ==> r is Fail && r->error.retryable
            && r->error.timed_out && r->report == PeerReport::Unresponsive,
        event matches RemoteEvent::Exchanged(x) && (x is CannotOpen || x is CannotSend
            || x is InvalidResponse) ==> r is Fail && r->error.retryable && !r->error.timed_out
            && r->report == PeerReport::Failed,
        event matches RemoteEvent::Exchanged(Exchange::Response(x)) ==> (!x.accepted ==> r is Fail
            && !r->error.timed_out && r->report == PeerReport::Nothing && r->error.retryable == (
        x.reject == Some(RejectReason::NoRoute) || x.reject == Some(RejectReason::Overloaded))),
{
}

/// A datagram that an Edge sends to a peer is delivered there, under the hostname and with
/// the payload that it was sent with, where the tenant's Connector serves UDP on the
/// hostname; a Connector reads from it the local number and this payload.
pub proof fn law_forwarded_datagrams_arrive(
    edge_id: &str,
    route: RemoteRoute,
    hostname: &str,
    payload: &[u8],
    request_id: u64,
    max: Option<usize>,
    sent: Bytes,
    other: &str,
    data: &[u8],
    registry: ConnectorRegistry,
    local_id: u64,
    step: DatagramStep,
)
    requires
        call_ensures(
            forward_udp,
            (edge_id, &route, hostname, payload, request_id, max),
            Ok::<Bytes, UdpDrop>(sent),
        ),
        792 + payload@.len() <= isize::MAX,
        data@ == buffer::contents(sent),
        data@.len() + 300 <= isize::MAX,
        registry.wf(),
        call_ensures(handle_datagram, (other, edge_id, data, &registry, local_id), step),
    ensures
        ({
            let live = registry.live();
            let serving = live.contains_key(route.tenant_id@)
                && live[route.tenant_id@].hostnames.contains(hostname@) && match live[route.tenant_id@].services {
                None => true,
                Some(m) => m.contains_key(hostname@) && m[hostname@].contains(Protocol::Udp),
            };
            &&& (step is Deliver) == serving
            &&& (step is Ignore) == !serving
            &&& step is Deliver ==> {
                &&& step->connection == live[route.tenant_id@].connection
                &&& step->Deliver_request_id == request_id
                &&& step->ingress_edge_id@ == edge_id@
                &&& step->hostname@ == hostname@
                &&& step->local_id == local_id
                &&& protocol::parsed_datagram(buffer::contents(step->datagram)) == Some(
                    (local_id as nat, encode_utf8(hostname@), payload@),
                )
                &&& buffer::contents(step->datagram).len() == step->len
            }
        }),
{
    let h = udp_header(edge_id@, route, hostname@, request_id);
    mesh_protocol::law_mesh_datagram_reads_back(h, payload@);
    protocol::law_datagram_reads_back(local_id as nat, hostname@, payload@);
}

/// A datagram with a foreign ingress Edge is ignored: a peer sends requests only under its
/// own name, and replies only come to the Edge that asked.
pub proof fn law_datagrams_keep_to_their_edges(
    edge_id: &str,
    peer_id: &str,
    header: MeshDatagramHeader,
    payload: Seq<u8>,
    data: &[u8],
    registry: ConnectorRegistry,
    local_id: u64,
    step: DatagramStep,
)
    requires
        registry.wf(),
        mesh_protocol::header_fault(header@) is None,
        data@ == mesh_protocol::datagram_of(header@, payload),
        data@.len() + 300 <= isize::MAX,
        call_ensures(handle_datagram, (edge_id, peer_id, data, &registry, local_id), step),
    ensures
        header.kind == MeshDatagramKind::Request && header.ingress_edge_id@ != peer_id@ ==> step
            is Ignore,
        header.kind == MeshDatagramKind::Reply ==> if header.ingress_edge_id@ == edge_id@ {
            step is Reply && step->Reply_request_id == header.request_id && step->payload@ == payload
        } else {
            step is Ignore
        },
        step is Reply ==> header.kind == MeshDatagramKind::Reply,
        step is Deliver ==> header.kind == MeshDatagramKind::Request,
{
    mesh_protocol::law_mesh_datagram_reads_back(header@, payload);
}

/// A datagram is sent whole or not at all: it is dropped where the connection cannot take
/// it, before any reply is waited for.
pub proof fn law_datagrams_respect_the_limit(
    edge_id: &str,
    route: RemoteRoute,
    hostname: &str,
    payload: &[u8],
    request_id: u64,
    max: usize,
    r: Result<Bytes, UdpDrop>,
)
    requires
        792 + payload@.len() <= isize::MAX,
        encode_utf8(edge_id@).len() <= 256,
        encode_utf8(route.tenant_id@).len() <= 256,
        encode_utf8(hostname@).len() <= 256,
        call_ensures(forward_udp, (edge_id, &route, hostname, payload, request_id, Some(max)), r),
    ensures
        (r is Ok) == (24 + encode_utf8(edge_id@).len() + encode_utf8(route.tenant_id@).len()
            + encode_utf8(hostname@).len() + payload@.len() <= max),
        r is Ok ==> buffer::contents(r->Ok_0).len() <= max,
        r is Err ==> !r->Err_0.forget_reply && r->Err_0.label@ == "oversize"@,
{
    let h = udp_header(edge_id@, route, hostname@, request_id);
    mesh_protocol::law_mesh_datagram_reads_back(h, payload@);
}

/// Only the peer that a request went to can answer it.
pub proof fn law_only_the_asked_peer_answers(
    expected: Option<Option<String>>,
    peer_id: &str,
    r: ReplyClaim,
)
    requires
        call_ensures(claim_reply, (&expected, peer_id), r),
    ensures
        r == ReplyClaim::Deliver <==> expected is Some && expected->0 is Some && expected->0->0@
            == peer_id@,
        r == ReplyClaim::Unknown <==> expected is None,
{
}

/// Another candidate is tried when the peer timed out, has no route or too much to do, and only
/// then: any other rejection is final.
pub proof fn law_only_passing_trouble_is_tried_again(
    reason: Option<RejectReason>,
    message: String,
    late: ForwardError,
    r: ForwardError,
)
    requires
        call_ensures(ForwardError::timeout, (message,), late),
        call_ensures(ForwardError::rejected, (reason,), r),
    ensures
        late.retryable && late.timed_out && late.message@ == message@,
        !r.timed_out,
        r.retryable == (reason is Some && (reason->0 is NoRoute || reason->0 is Overloaded)),
        reason is Some ==> r.message@ == "peer rejected the request: "@
            + mesh_protocol::reason_name(reason->0),
        reason is None ==> r.message@ == "peer rejected the request: "@ + "invalid"@,
{
    assert(r@.retryable == r.retryable);
    assert(late@.retryable == late.retryable);
    assert(r@.message == r.message@);
    assert(late@.message == message@);
}

/// A datagram goes out only with a place for its reply, which is given back when it cannot be
/// sent, and only if it is not larger than the connection allows.
pub proof fn law_unsent_datagrams_are_dropped(
    inserted: bool,
    sent: Result<(), String>,
    len: usize,
    max: Option<usize>,
    a: Result<(), UdpDrop>,
    b: Result<(), UdpDrop>,
    fits_in: bool,
)
    requires
        call_ensures(udp_remembered, (inserted,), a),
        call_ensures(udp_sent, (sent,), b),
        call_ensures(datagram_fits, (len, max), fits_in),
    ensures
        a is Ok == inserted,
        b is Ok == (sent is Ok),
        a matches Err(e) ==> !e.forget_reply && e.label@ == "reply_table_full"@,
        b matches Err(e) ==> e.forget_reply && e.label@ == "send_failed"@,
        max is None ==> fits_in,
        max is Some ==> fits_in == (len <= max->0),
{
}

/// Who asks for a peer's or a tenant's budget again gets the same one, with the limit that is
/// configured for its kind, and no other budget changes.
pub proof fn law_peers_and_tenants_have_their_budgets(
    a: &mut PermitTable,
    b: &mut PermitTable,
    c: &mut PermitTable,
    limits: &MeshLimits,
    peer: &str,
    tenant: &str,
    first: Arc<Semaphore>,
    again: Arc<Semaphore>,
    third: Arc<Semaphore>,
)
    requires
        call_ensures(PermitTable::peer, (a, peer, limits), first),
        *old(b) == *final(a),
        call_ensures(PermitTable::tenant, (b, tenant, limits), third),
        *old(c) == *final(b),
        call_ensures(PermitTable::peer, (c, peer, limits), again),
    ensures
        *again == *first,
        final(a).by_tenant() == old(a).by_tenant(),
        final(b).by_peer() == old(b).by_peer(),
        !old(a).by_peer().contains_key(peer@) ==> concurrent::capacity(*first)
            == limits.max_streams_per_peer,
        !old(b).by_tenant().contains_key(tenant@) ==> concurrent::capacity(*third)
            == limits.max_streams_per_tenant,
        old(b).by_tenant().contains_key(tenant@) ==> *third == old(b).by_tenant()[tenant@],
        forall|k: Seq<char>|
            k != peer@ ==> #[trigger] final(a).by_peer().contains_key(k) == old(a).by_peer().contains_key(k) && (final(a).by_peer().contains_key(k)
                ==> final(a).by_peer()[k] == old(a).by_peer()[k]),
{
}

} // verus!
