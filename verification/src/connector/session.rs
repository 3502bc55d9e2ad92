//! The life of a connection to one Edge: connect, serve, drain, try again.

use vstd::prelude::*;
use vstd::string::*;
use vstd::utf8::*;
use crate::addr;
use crate::addr::{format_socket, SocketAddr};
use crate::app_error;
use crate::config::{Protocol, Target};
use crate::connector::forwarder;
use crate::connector::forwarder::http_status_response;
use crate::connector::health;
use crate::connector::health::{ConnectorHealth, EdgeState, EdgeStatus};
use crate::connector::ingress;
use crate::connector::ingress::IngressMatcher;
use crate::connector::quic_client;
use crate::connector::quic_client::{
    jittered_by, tls_server_name, INITIAL_BACKOFF, MAX_BACKOFF, REPLACED_RETRY_DELAY,
    STABLE_SESSION,
};
use crate::protocol;
use crate::protocol::{AuthResponse, ConnectRequest, DatagramHeader};
use crate::text;
use crate::text::join_text;
use crate::time::Duration;

verus! {

/// What the loop around one Edge is waiting for.
#[derive(Debug, Clone, Copy, PartialEq, Eq, Structural)]
pub enum Phase {
    /// For the connection to be made and authenticated.
    Connecting,
    /// For the session to end.
    Serving,
    /// For the time of the next attempt.
    Waiting,
    /// For nothing more.
    Stopped,
}

/// The loop around one Edge.
#[derive(Debug)]
pub struct EdgeLoop {
    pub server: String,
    pub phase: Phase,
    /// The next wait, in nanoseconds, before it is shortened at random.
    pub backoff: u128,
}

/// What happened.
#[derive(Debug)]
pub enum LoopEvent {
    /// A shutdown was requested before or between connections. (During a session
    /// the session itself drains and ends.)
    Shutdown,
    Connected,
    ConnectFailed(String),
    SessionEnded {
        /// How long the session lasted since it was authenticated.
        lasted: Duration,
        /// The code with which the Edge closed the connection, if it did.
        close_code: Option<u32>,
        /// Why serving ended, if it was an error.
        error: Option<String>,
    },
    Waited,
}

/// What is to be done next.
#[derive(Debug, Clone, Copy, PartialEq, Eq, Structural)]
pub enum LoopAction {
    Connect,
    Serve,
    Wait(Duration),
    Stop,
}

impl EdgeLoop {
    /// The backoff stays between its bounds.
    pub open spec fn wf(self) -> bool {
        INITIAL_BACKOFF <= self.backoff <= MAX_BACKOFF
    }
}

/// Whether an event can happen in a phase.
pub open spec fn can_happen(phase: Phase, event: LoopEvent) -> bool {
    match phase {
        Phase::Connecting => event is Shutdown || event is Connected || event is ConnectFailed,
        Phase::Serving => event is SessionEnded,
        Phase::Waiting => event is Shutdown || event is Waited,
        Phase::Stopped => false,
    }
}

/// Whether the session ended because a newer connection of the same tenant
/// replaced it.
pub open spec fn was_replaced(event: LoopEvent) -> bool {
    event is SessionEnded && event->close_code == Some(app_error::REPLACED)
}

/// The backoff that an event leaves: a stable session starts it over, a wait
/// doubles it up to the longest.
pub open spec fn backoff_after(backoff: nat, event: LoopEvent) -> nat {
    if event is SessionEnded && event->lasted.nanos >= STABLE_SESSION {
        INITIAL_BACKOFF as nat
    } else if event is Waited {
        if backoff * 2 <= MAX_BACKOFF {
            backoff * 2
        } else {
            MAX_BACKOFF as nat
        }
    } else {
        backoff
    }
}

/// The phase after an event.
pub open spec fn phase_after(event: LoopEvent) -> Phase {
    match event {
        LoopEvent::Shutdown => Phase::Stopped,
        LoopEvent::Connected => Phase::Serving,
        LoopEvent::ConnectFailed(_) => Phase::Waiting,
        LoopEvent::SessionEnded { .. } => Phase::Waiting,
        LoopEvent::Waited => Phase::Connecting,
    }
}

/// What is done after an event. After a replacement the wait is not shortened:
/// reconnecting early would take the connection back from the other Connector.
pub open spec fn action_after(backoff: nat, event: LoopEvent, random: nat) -> LoopAction {
    match event {
        LoopEvent::Shutdown => LoopAction::Stop,
        LoopEvent::Connected => LoopAction::Serve,
        LoopEvent::Waited => LoopAction::Connect,
        _ => LoopAction::Wait(
            Duration {
                nanos: if was_replaced(event) {
                    REPLACED_RETRY_DELAY
                } else {
                    quic_client::jittered_nanos(backoff_after(backoff, event), random) as u128
                },
            },
        ),
    }
}

/// What an event says of the Edge's state, and why it is disconnected.
pub open spec fn status_after(event: LoopEvent) -> Option<(EdgeStatus, Option<Seq<char>>)> {
    match event {
        LoopEvent::Shutdown => None,
        LoopEvent::Connected => Some((EdgeStatus::Connected, None)),
        LoopEvent::Waited => Some((EdgeStatus::Connecting, None)),
        LoopEvent::ConnectFailed(e) => Some((EdgeStatus::Disconnected, Some(e@))),
        LoopEvent::SessionEnded { error, .. } => Some(
            (
                EdgeStatus::Disconnected,
                Some(
                    if was_replaced(event) {
                        "connection replaced by another connector"@
                    } else {
                        match error {
                            Some(e) => e@,
                            None => "connection closed"@,
                        }
                    },
                ),
            ),
        ),
    }
}

/// Whether the health changed by exactly the given state of one server.
pub open spec fn health_follows(
    before: ConnectorHealth,
    after: ConnectorHealth,
    server: Seq<char>,
    status: Option<(EdgeStatus, Option<Seq<char>>)>,
) -> bool {
    &&& after.draining == before.draining
    &&& match status {
        None => after.edges@ == before.edges@,
        Some((status, error)) => exists|state: EdgeState| #[trigger]
            health::says(state, status, error) && after.edges@ == before.edges@.insert(
                server,
                state,
            ),
    }
}

impl EdgeLoop {
    /// Begins the loop around an Edge, unless its TLS server name cannot be
    /// determined or the QUIC client cannot be set up (`client`), or a shutdown was
    /// already requested. Gives the loop and the server name; the first action is to connect.
    pub fn start(
        server: &str,
        configured_server_name: Option<&str>,
        client: Result<(), String>,
        shutdown: bool,
        health: &mut ConnectorHealth,
    ) -> (r: Option<(EdgeLoop, String)>)
        ensures
            ({
                let name = quic_client::server_name_of(
                    server@,
                    match configured_server_name {
                        Some(n) => Some(n@),
                        None => None,
                    },
                );
                let status = match name {
                    Err(e) => Some((EdgeStatus::Disconnected, Some(e))),
                    Ok(_) => match client {
                        Err(e) => Some((EdgeStatus::Disconnected, Some(e@))),
                        Ok(_) => if shutdown {
                            None
                        } else {
                            Some((EdgeStatus::Connecting, None))
                        },
                    },
                };
                &&& health_follows(*old(health), *final(health), server@, status)
                &&& r is Some == (name is Ok && client is Ok && !shutdown)
                &&& match r {
                    Some((l, n)) => l.wf() && l.server@ == server@ && l.phase == Phase::Connecting
                        && l.backoff == INITIAL_BACKOFF && name == Ok::<Seq<char>, Seq<char>>(n@),
                    None => true,
                }
            }),
    {
        let name: String = match tls_server_name(server, configured_server_name) {
            Ok(name) => name,
            Err(e) => {
                health.disconnected(server, e.as_str());
                return None;
            },
        };
        if let Err(e) = client {
            health.disconnected(server, e.as_str());
            return None;
        }
        if shutdown {
            return None;
        }
        health.connecting(server);
        let l: EdgeLoop = EdgeLoop {
            server: server.to_owned(),
            phase: Phase::Connecting,
            backoff: INITIAL_BACKOFF,
        };
        Some((l, name))
    }

    fn wait(&self, random: u64) -> (r: Duration)
        requires
            self.wf(),
        ensures
            r.nanos == quic_client::jittered_nanos(self.backoff as nat, random as nat),
            self.backoff / 2 <= r.nanos <= self.backoff,
    {
        jittered_by(Duration { nanos: self.backoff }, random)
    }

    /// Takes an event in: records it in the health and says what is to be done
    /// next. `random` shortens the wait.
    pub fn step(&mut self, event: LoopEvent, health: &mut ConnectorHealth, random: u64) -> (r:
        LoopAction)
        requires
            old(self).wf(),
            can_happen(old(self).phase, event),
        ensures
            final(self).wf(),
            final(self).server == old(self).server,
            final(self).phase == phase_after(event),
            final(self).backoff == backoff_after(old(self).backoff as nat, event),
            r == action_after(old(self).backoff as nat, event, random as nat),
            health_follows(*old(health), *final(health), old(self).server@, status_after(event)),
    {
        match event {
            LoopEvent::Shutdown => {
                self.phase = Phase::Stopped;
                LoopAction::Stop
            },
            LoopEvent::Connected => {
                health.connected(self.server.as_str());
                self.phase = Phase::Serving;
                LoopAction::Serve
            },
            LoopEvent::ConnectFailed(e) => {
                health.disconnected(self.server.as_str(), e.as_str());
                self.phase = Phase::Waiting;
                LoopAction::Wait(self.wait(random))
            },
            LoopEvent::SessionEnded { lasted, close_code, error } => {
                if lasted.nanos >= STABLE_SESSION {
                    self.backoff = INITIAL_BACKOFF;
                }
                self.phase = Phase::Waiting;
                let replaced: bool = match close_code {
                    Some(code) => code == app_error::REPLACED,
                    None => false,
                };
                if replaced {
                    health.disconnected(
                        self.server.as_str(),
                        "connection replaced by another connector",
                    );
                    return LoopAction::Wait(Duration { nanos: REPLACED_RETRY_DELAY });
                }
                match error {
                    Some(e) => health.disconnected(self.server.as_str(), e.as_str()),
                    None => health.disconnected(self.server.as_str(), "connection closed"),
                }
                LoopAction::Wait(self.wait(random))
            },
            LoopEvent::Waited => {
                self.backoff = if self.backoff * 2 <= MAX_BACKOFF {
                    self.backoff * 2
                } else {
                    MAX_BACKOFF
                };
                health.connecting(self.server.as_str());
                self.phase = Phase::Connecting;
                LoopAction::Connect
            },
        }
    }
}

/// Every wait is at most the longest backoff and at least half of the current
/// one, except after a replacement, where it is exactly the replacement delay.
pub proof fn law_waits_are_bounded(backoff: nat, event: LoopEvent, random: nat)
    requires
        INITIAL_BACKOFF <= backoff <= MAX_BACKOFF,
        event is ConnectFailed || event is SessionEnded,
    ensures
        action_after(backoff, event, random) is Wait,
        ({
            let wait = action_after(backoff, event, random)->Wait_0.nanos;
            if was_replaced(event) {
                wait == REPLACED_RETRY_DELAY
            } else {
                backoff_after(backoff, event) / 2 <= wait <= MAX_BACKOFF
            }
        }),
{
    let half = backoff_after(backoff, event) / 2;
    let part = random % 1024;
    assert(half * part / 1024 <= half && half * part >= 0) by (nonlinear_arith)
        requires
            part <= 1023,
    ;
}

/// A session that proved stable starts the backoff over, whatever it was before.
pub proof fn law_stable_session_resets(backoff: nat, event: LoopEvent)
    requires
        event is SessionEnded,
        event->lasted.nanos >= STABLE_SESSION,
    ensures
        backoff_after(backoff, event) == INITIAL_BACKOFF,
{
}

/// What happened on an established connection.
#[derive(Debug)]
pub enum ServeEvent {
    /// A shutdown was requested.
    Shutdown,
    /// No stream and no UDP forward is in flight any more.
    Idle,
    /// The time for draining is over.
    DrainTimeout,
    /// The Edge opened a stream; whether there is room for one more.
    Stream { room: bool },
    /// No stream can be accepted any more: whether the Edge closed the
    /// connection, and the error in words.
    StreamsEnded { closed_by_edge: bool, error: String },
    /// No datagram can be received any more.
    DatagramsEnded,
}

/// What is to be done on an established connection.
#[derive(Debug)]
pub enum ServeAction {
    /// Announce going away, take no new work into account, and start the drain timer.
    Drain,
    /// Close the connection with this code, and end without error.
    Close { code: u32 },
    /// Serve the stream in a task of its own.
    ServeStream,
    /// Drop the stream.
    RejectStream,
    /// End without error.
    End,
    /// End with an error.
    Fail(String),
    /// Nothing.
    Ignore,
}

/// Whether `action` is what an event asks for.
pub open spec fn serve_decision(draining: bool, event: ServeEvent, action: ServeAction) -> bool {
    match event {
        ServeEvent::Shutdown => if draining {
            action is Ignore
        } else {
            action is Drain
        },
        ServeEvent::Idle => if draining {
            action is Close && action->code == app_error::GOING_AWAY
        } else {
            action is Ignore
        },
        ServeEvent::DrainTimeout => if draining {
            action is Close && action->code == app_error::GOING_AWAY
        } else {
            action is Ignore
        },
        ServeEvent::Stream { room } => if room {
            action is ServeStream
        } else {
            action is RejectStream
        },
        ServeEvent::StreamsEnded { closed_by_edge, error } => if closed_by_edge {
            action is End
        } else {
            action is Fail && action->0@ == error@
        },
        ServeEvent::DatagramsEnded => action is End,
    }
}

/// A connection that is being served.
#[derive(Debug, Clone, Copy, PartialEq, Eq, Structural)]
pub struct Serving {
    /// A shutdown was requested: the streams in flight may finish until the
    /// drain timeout.
    pub draining: bool,
}

impl Serving {
    pub fn new() -> (r: Self)
        ensures
            !r.draining,
    {
        Serving { draining: false }
    }

    /// What an event asks for. The streams in flight are let finish after a
    /// shutdown request: the connection is closed once they have, or at the
    /// drain timeout.
    pub fn step(&mut self, event: ServeEvent) -> (r: ServeAction)
        ensures
            serve_decision(old(self).draining, event, r),
            final(self).draining == (old(self).draining || event is Shutdown),
    {
        match event {
            ServeEvent::Shutdown => {
                if self.draining {
                    ServeAction::Ignore
                } else {
                    self.draining = true;
                    ServeAction::Drain
                }
            },
            ServeEvent::Idle => {
                if self.draining {
                    ServeAction::Close { code: app_error::GOING_AWAY }
                } else {
                    ServeAction::Ignore
                }
            },
            ServeEvent::DrainTimeout => {
                if self.draining {
                    ServeAction::Close { code: app_error::GOING_AWAY }
                } else {
                    ServeAction::Ignore
                }
            },
            ServeEvent::Stream { room } => {
                if room {
                    ServeAction::ServeStream
                } else {
                    ServeAction::RejectStream
                }
            },
            ServeEvent::StreamsEnded { closed_by_edge, error } => {
                if closed_by_edge {
                    ServeAction::End
                } else {
                    ServeAction::Fail(error)
                }
            },
            ServeEvent::DatagramsEnded => ServeAction::End,
        }
    }
}

/// What becomes of a datagram from the Edge.
#[derive(Debug)]
pub enum DatagramRoute {
    /// It cannot be read.
    Malformed,
    /// No rule forwards UDP for its hostname to an address.
    NoRoute { hostname: String },
    /// It goes to a local target; the reply carries the same header.
    Forward { header: DatagramHeader, target: SocketAddr, payload: Vec<u8> },
}

/// Decides where a datagram from the Edge goes.
pub fn route_datagram(matcher: &IngressMatcher, data: &[u8]) -> (r: DatagramRoute)
    ensures
        match protocol::parsed_datagram(data@) {
            None => r is Malformed,
            Some((id, name, payload)) => match ingress::routed(
                matcher.rules@,
                decode_utf8(name),
                Protocol::Udp,
            ) {
                Ok(Target::Address(target)) => r is Forward && r->header.request_id == id
                    && r->header.hostname@ == decode_utf8(name) && r->target == target
                    && r->payload@ == payload,
                _ => r is NoRoute && r->hostname@ == decode_utf8(name),
            },
        },
{
    match DatagramHeader::decode(data) {
        None => DatagramRoute::Malformed,
        Some((header, payload)) => {
            proof {
                encode_utf8_decode_utf8(header.hostname@);
            }
            match matcher.match_request(header.hostname.as_str(), Protocol::Udp) {
                Ok(Target::Address(target)) => DatagramRoute::Forward {
                    header,
                    target,
                    payload: vstd::slice::slice_to_vec(payload),
                },
                _ => DatagramRoute::NoRoute { hostname: header.hostname },
            }
        },
    }
}

/// What becomes of a stream whose request was read.
#[derive(Debug)]
pub enum StreamRoute {
    /// No usable rule: the stream is dropped; why, in words.
    NoRoute(String),
    /// The stream is piped to this address.
    Tunnel(SocketAddr),
    /// The stream is answered with these bytes.
    Answer(Vec<u8>),
}

/// Decides where a stream goes.
pub fn route_stream(matcher: &IngressMatcher, request: &ConnectRequest) -> (r: StreamRoute)
    ensures
        match ingress::routed(matcher.rules@, request.hostname@, request.protocol) {
            Ok(Target::Address(addr)) => r == StreamRoute::Tunnel(addr),
            Ok(Target::HttpStatus(code)) => r is Answer && r->Answer_0@ == encode_utf8(
                forwarder::status_response(code),
            ),
            Err(e) => r is NoRoute && r->NoRoute_0@ == crate::error::error_text(e),
        },
{
    match matcher.match_request(request.hostname.as_str(), request.protocol) {
        Ok(Target::Address(addr)) => StreamRoute::Tunnel(addr),
        Ok(Target::HttpStatus(code)) => {
            let response: String = http_status_response(code);
            StreamRoute::Answer(vstd::slice::slice_to_vec(response.as_str().as_bytes()))
        },
        Err(e) => StreamRoute::NoRoute(e.message()),
    }
}

/// Whether the Edge accepted the token; otherwise why not.
pub fn check_auth_response(response: &AuthResponse) -> (r: Result<(), String>)
    ensures
        match r {
            Ok(_) => response.ok,
            Err(e) => !response.ok && e@ == "authentication rejected: "@ + (
            match response.reason {
                Some(reason) => reason@,
                None => Seq::empty(),
            }),
        },
{
    if response.ok {
        return Ok(());
    }
    let mut m: String = "authentication rejected: ".to_owned();
    match &response.reason {
        Some(reason) => m.append(reason.as_str()),
        None => {
            assert(m@ + Seq::<char>::empty() =~= m@);
        },
    }
    Err(m)
}

/// The failed attempts, in words: each address with what went wrong.
pub open spec fn failure_texts(failures: Seq<(SocketAddr, String)>) -> Seq<Seq<char>> {
    failures.map_values(|f: (SocketAddr, String)| addr::socket_text(f.0) + ": "@ + f.1@)
}

/// The error where no address of an Edge answered.
pub fn connect_error(failures: &Vec<(SocketAddr, String)>) -> (r: String)
    ensures
        r@ == "QUIC connect failed: "@ + text::join(failure_texts(failures@), "; "@),
{
    let ghost all = failure_texts(failures@);
    let mut parts: Vec<String> = Vec::new();
    let mut i: usize = 0;
    assert(text::views(parts@) =~= all.take(0));
    while i < failures.len()
        invariant
            i <= failures.len(),
            all == failure_texts(failures@),
            text::views(parts@) == all.take(i as int),
        decreases failures.len() - i,
    {
        let ghost before = parts@;
        let mut part: String = format_socket(failures[i].0);
        part.append(": ");
        part.append(failures[i].1.as_str());
        parts.push(part);
        i += 1;
        assert(text::views(parts@) =~= text::views(before).push(all[i - 1]));
        assert(all.take(i as int) =~= all.take(i - 1).push(all[i - 1]));
    }
    assert(all.take(i as int) =~= all);
    "QUIC connect failed: ".to_owned().concat(join_text(&parts, "; ").as_str())
}

/// A connection to an Edge is served once it stands, made anew after a wait once it is lost or
/// was not made, and given up only on shutdown. The wait starts at a second and doubles up to
/// half a minute; a session that lasted starts it anew, and a Connector that was replaced
/// waits for a minute.
pub proof fn law_edges_are_connected_again(
    edge: &mut EdgeLoop,
    event: LoopEvent,
    health: &mut ConnectorHealth,
    random: u64,
    r: LoopAction,
)
    requires
        old(edge).wf(),
        can_happen(old(edge).phase, event),
        call_ensures(EdgeLoop::step, (edge, event, health, random), r),
    ensures
        final(edge).server@ == old(edge).server@,
        1_000_000_000 <= final(edge).backoff <= 30_000_000_000,
        match event {
            LoopEvent::Shutdown => r is Stop && final(edge).phase is Stopped,
            LoopEvent::Connected => r is Serve && final(edge).phase is Serving && final(edge).backoff == old(edge).backoff,
            LoopEvent::ConnectFailed(_) => {
                &&& final(edge).phase is Waiting
                &&& final(edge).backoff == old(edge).backoff
                &&& r matches LoopAction::Wait(d) && old(edge).backoff / 2 <= d.nanos <= old(edge).backoff
            },
            LoopEvent::SessionEnded { lasted, close_code, .. } => {
                &&& final(edge).phase is Waiting
                &&& lasted.nanos >= 60_000_000_000 ==> final(edge).backoff == 1_000_000_000
                &&& lasted.nanos < 60_000_000_000 ==> final(edge).backoff == old(edge).backoff
                &&& r matches LoopAction::Wait(d) && if close_code == Some(5u32) {
                    d.nanos == 60_000_000_000
                } else {
                    final(edge).backoff / 2 <= d.nanos <= final(edge).backoff
                }
            },
            LoopEvent::Waited => {
                &&& r is Connect
                &&& final(edge).phase is Connecting
                &&& old(edge).backoff <= 15_000_000_000 ==> final(edge).backoff == 2 * old(edge).backoff
                &&& old(edge).backoff > 15_000_000_000 ==> final(edge).backoff == 30_000_000_000
            },
        },
{
    let half = final(edge).backoff as nat / 2;
    let part = random as nat % 1024;
    assert(half * part / 1024 <= half && half * part >= 0) by (nonlinear_arith)
        requires
            part <= 1023,
    ;
}

/// What is known of an Edge follows what happens to its connection, and the others keep what
/// is known of them.
pub proof fn law_health_follows_the_connection(
    edge: &mut EdgeLoop,
    event: LoopEvent,
    health: &mut ConnectorHealth,
    random: u64,
    r: LoopAction,
    other: Seq<char>,
)
    requires
        old(edge).wf(),
        can_happen(old(edge).phase, event),
        call_ensures(EdgeLoop::step, (edge, event, health, random), r),
        other != old(edge).server@,
    ensures
        final(health).draining == old(health).draining,
        final(health).edges@.contains_key(other) == old(health).edges@.contains_key(other),
        final(health).edges@[other] == old(health).edges@[other],
        event is Shutdown ==> final(health).edges@ == old(health).edges@,
        !(event is Shutdown) ==> {
            let server = old(edge).server@;
            let state = final(health).edges@[server];
            &&& final(health).edges@.contains_key(server)
            &&& event is Connected ==> state.status is Connected && state.last_error is None
            &&& event is Waited ==> state.status is Connecting && state.last_error is None
            &&& event matches LoopEvent::ConnectFailed(e) ==> state.status is Disconnected
                && state.last_error is Some && state.last_error->0@ == e@
            &&& event matches LoopEvent::SessionEnded { close_code, error, .. } ==> state.status
                is Disconnected && state.last_error is Some && state.last_error->0@ == (
            if close_code == Some(5u32) {
                "connection replaced by another connector"@
            } else {
                match error {
                    Some(e) => e@,
                    None => "connection closed"@,
                }
            })
        },
{
}

/// An Edge is connected to if and only if it has a name, a client could be made and nothing
/// shuts down; the first wait is a second.
pub proof fn law_edges_start_connecting(
    server: &str,
    configured: Option<&str>,
    client: Result<(), String>,
    shutdown: bool,
    health: &mut ConnectorHealth,
    name: Result<String, String>,
    r: Option<(EdgeLoop, String)>,
)
    requires
        call_ensures(EdgeLoop::start, (server, configured, client, shutdown, health), r),
        call_ensures(tls_server_name, (server, configured), name),
    ensures
        r is Some == (name is Ok && client is Ok && !shutdown),
        r matches Some((l, n)) ==> l.server@ == server@ && l.phase is Connecting && l.backoff
            == 1_000_000_000 && n@ == name->Ok_0@,
        name is Err || client is Err ==> final(health).edges@.contains_key(server@) && final(health).edges@[server@].status is Disconnected,
        r is Some ==> final(health).edges@.contains_key(server@) && final(health).edges@[server@].status is Connecting,
{
}

/// A session that drains stays draining. It is closed as going away once it is idle or its time
/// is up, and never before it drains; streams are served as long as there is room, and what
/// ends the session otherwise is told.
pub proof fn law_sessions_drain_before_they_close(
    serving: &mut Serving,
    event: ServeEvent,
    r: ServeAction,
)
    requires
        call_ensures(Serving::step, (serving, event), r),
    ensures
        old(serving).draining ==> final(serving).draining,
        final(serving).draining && !old(serving).draining ==> r is Drain && event is Shutdown,
        r is Close ==> old(serving).draining && r->code == 4 && (event is Idle || event
            is DrainTimeout),
        old(serving).draining && (event is Idle || event is DrainTimeout) ==> r is Close,
        event is Shutdown && !old(serving).draining ==> r is Drain && final(serving).draining,
        event is Shutdown && old(serving).draining ==> r is Ignore,
        event matches ServeEvent::Stream { room } ==> (room == (r is ServeStream) && !room == (
        r is RejectStream)),
        event matches ServeEvent::StreamsEnded { closed_by_edge, error } ==> if closed_by_edge {
            r is End
        } else {
            r is Fail && r->0@ == error@
        },
        event is DatagramsEnded ==> r is End,
{
}

/// A datagram goes where the rules send UDP for its hostname, with its header and payload.
pub proof fn law_datagrams_follow_the_rules(
    matcher: IngressMatcher,
    data: &[u8],
    decoded: Option<(DatagramHeader, &[u8])>,
    name: &str,
    target: Result<Target, crate::error::SieveTubeError>,
    r: DatagramRoute,
)
    requires
        call_ensures(route_datagram, (&matcher, data), r),
        call_ensures(DatagramHeader::decode, (data,), decoded),
        decoded is Some ==> name@ == (decoded->0).0.hostname@,
        call_ensures(IngressMatcher::match_request, (&matcher, name, Protocol::Udp), target),
    ensures
        decoded is None ==> r is Malformed,
        decoded is Some ==> match target {
            Ok(Target::Address(a)) => {
                &&& r is Forward
                &&& r->target == a
                &&& r->header.request_id == (decoded->0).0.request_id
                &&& r->header.hostname@ == name@
                &&& r->payload@ == (decoded->0).1@
            },
            _ => r is NoRoute && r->hostname@ == name@,
        },
{
    if decoded is Some {
        encode_utf8_decode_utf8((decoded->0).0.hostname@);
    }
}

/// A stream goes where the rules send its protocol for its hostname; where they name a status,
/// that is the answer.
pub proof fn law_streams_follow_the_rules(
    matcher: IngressMatcher,
    request: ConnectRequest,
    name: &str,
    target: Result<Target, crate::error::SieveTubeError>,
    answer: String,
    r: StreamRoute,
)
    requires
        call_ensures(route_stream, (&matcher, &request), r),
        name@ == request.hostname@,
        call_ensures(IngressMatcher::match_request, (&matcher, name, request.protocol), target),
        target matches Ok(Target::HttpStatus(code)) ==> call_ensures(
            http_status_response,
            (code,),
            answer,
        ),
    ensures
        match target {
            Ok(Target::Address(a)) => r == StreamRoute::Tunnel(a),
            Ok(Target::HttpStatus(_)) => r is Answer && r->Answer_0@ == encode_utf8(answer@),
            Err(_) => r is NoRoute,
        },
{
}

/// An Edge's answer counts as a success if and only if it says so.
pub proof fn law_rejected_authentication_is_an_error(response: AuthResponse, r: Result<(), String>)
    requires
        call_ensures(check_auth_response, (&response,), r),
    ensures
        r is Ok == response.ok,
        r is Err && response.reason is Some ==> text::ends_with(r->Err_0@, response.reason->0@),
{
    if r is Err && response.reason is Some {
        let e = r->Err_0@;
        let reason = response.reason->0@;
        assert(e.skip(e.len() - reason.len()) =~= reason);
    }
}

/// What went wrong is told of each address, in the order in which they were tried.
pub proof fn law_failed_addresses_are_told(
    fewer: Vec<(SocketAddr, String)>,
    failures: Vec<(SocketAddr, String)>,
    last: (SocketAddr, String),
    shown: String,
    less: String,
    r: String,
)
    requires
        failures@ == fewer@.push(last),
        call_ensures(format_socket, (last.0,), shown),
        call_ensures(connect_error, (&fewer,), less),
        call_ensures(connect_error, (&failures,), r),
    ensures
        fewer@.len() == 0 ==> r@ == "QUIC connect failed: "@ + (shown@ + ": "@ + last.1@),
        fewer@.len() > 0 ==> r@ == less@ + "; "@ + (shown@ + ": "@ + last.1@),
{
    let all = failure_texts(failures@);
    assert(all.drop_last() =~= failure_texts(fewer@));
    assert(all.last() == shown@ + ": "@ + last.1@);
    let start = "QUIC connect failed: "@;
    if fewer@.len() == 0 {
        assert(all[0] == shown@ + ": "@ + last.1@);
    } else {
        let before = text::join(failure_texts(fewer@), "; "@);
        assert(start + (before + "; "@ + all.last()) =~= start + before + "; "@ + all.last());
    }
}

} // verus!
