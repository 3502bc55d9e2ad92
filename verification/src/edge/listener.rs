//! Raw TCP and UDP traffic: what becomes of what arrives.

use vstd::prelude::*;
use vstd::string::*;

verus! {

/// Forwarded datagrams in flight per UDP listener. Forwarding is done off the
/// receive loop, and this bounds how much that can accumulate.
pub const MAX_INFLIGHT_FORWARDS: usize = 1024;

/// What becomes of something that arrived.
#[derive(Debug, Clone, Copy, PartialEq, Eq, Structural)]
pub enum Arrival {
    /// Refused by the traffic policy
    Rejected,
    /// No Connector serves the hostname.
    NoRoute,
    /// Too much is being forwarded already.
    Backlog,
    Forward,
}

/// What becomes of a TCP connection. The policy is asked before any routing work.
pub fn tcp_arrival(rejected: bool, available: bool) -> (r: Arrival)
    ensures
        r == (if rejected {
            Arrival::Rejected
        } else if !available {
            Arrival::NoRoute
        } else {
            Arrival::Forward
        }),
{
    if rejected {
        Arrival::Rejected
    } else if !available {
        Arrival::NoRoute
    } else {
        Arrival::Forward
    }
}

/// What becomes of a datagram, with how many are being forwarded. Limits are
/// applied before routing and before any reply state is allocated.
pub fn udp_arrival(rejected: bool, available: bool, inflight: usize) -> (r: Arrival)
    ensures
        r == (if rejected {
            Arrival::Rejected
        } else if !available {
            Arrival::NoRoute
        } else if inflight >= MAX_INFLIGHT_FORWARDS {
            Arrival::Backlog
        } else {
            Arrival::Forward
        }),
{
    if rejected {
        Arrival::Rejected
    } else if !available {
        Arrival::NoRoute
    } else if inflight >= MAX_INFLIGHT_FORWARDS {
        Arrival::Backlog
    } else {
        Arrival::Forward
    }
}

impl Arrival {
    /// The label under which a dropped datagram is counted.
    pub fn drop_reason(self) -> (r: Option<&'static str>)
        ensures
            match self {
                Arrival::Rejected => r is Some && r->0@ == "policy"@,
                Arrival::NoRoute => r is Some && r->0@ == "no_route"@,
                Arrival::Backlog => r is Some && r->0@ == "forward_backlog"@,
                Arrival::Forward => r is None,
            },
    {
        match self {
            Arrival::Rejected => Some("policy"),
            Arrival::NoRoute => Some("no_route"),
            Arrival::Backlog => Some("forward_backlog"),
            Arrival::Forward => None,
        }
    }
}

/// How a datagram is delivered.
#[derive(Debug, Clone, Copy, PartialEq, Eq, Structural)]
pub enum Delivery {
    /// To a Connector of this Edge
    Local,
    /// To peer Edges, of which there are this many, tried in order
    Remote(usize),
    Unavailable,
}

/// What is done with a datagram next.
#[derive(Debug, Clone, Copy, PartialEq, Eq, Structural)]
pub enum DeliveryStep {
    ToConnector,
    ToPeer(usize),
    /// It is delivered, or there is nothing left to do.
    Done,
    /// No peer took it: it is counted as dropped for want of a route.
    Dropped,
}

/// What is done with a datagram first.
pub fn start_delivery(delivery: Delivery, has_mesh: bool) -> (r: DeliveryStep)
    ensures
        r == (match delivery {
            Delivery::Local => DeliveryStep::ToConnector,
            Delivery::Remote(n) => if !has_mesh {
                DeliveryStep::Done
            } else if n == 0 {
                DeliveryStep::Dropped
            } else {
                DeliveryStep::ToPeer(0)
            },
            Delivery::Unavailable => DeliveryStep::Done,
        }),
{
    match delivery {
        Delivery::Local => DeliveryStep::ToConnector,
        Delivery::Remote(n) => {
            if !has_mesh {
                DeliveryStep::Done
            } else if n == 0 {
                DeliveryStep::Dropped
            } else {
                DeliveryStep::ToPeer(0)
            }
        },
        Delivery::Unavailable => DeliveryStep::Done,
    }
}

/// What is done with a datagram after one of `peers` peers was tried.
pub fn after_peer(peers: usize, tried: usize, delivered: bool) -> (r: DeliveryStep)
    requires
        tried < peers,
    ensures
        r == (if delivered {
            DeliveryStep::Done
        } else if tried + 1 < peers {
            DeliveryStep::ToPeer((tried + 1) as usize)
        } else {
            DeliveryStep::Dropped
        }),
{
    if delivered {
        DeliveryStep::Done
    } else if tried + 1 < peers {
        DeliveryStep::ToPeer(tried + 1)
    } else {
        DeliveryStep::Dropped
    }
}

/// What the policy rejects and what has no route goes no further. A datagram does not either
/// while too many are under way, and everything else is forwarded; what is dropped is counted
/// under its reason.
pub proof fn law_arrivals_are_forwarded_or_dropped(
    rejected: bool,
    available: bool,
    inflight: usize,
    tcp: Arrival,
    udp: Arrival,
    reason: Option<&'static str>,
)
    requires
        call_ensures(tcp_arrival, (rejected, available), tcp),
        call_ensures(udp_arrival, (rejected, available, inflight), udp),
        call_ensures(Arrival::drop_reason, (udp,), reason),
    ensures
        tcp is Forward == (!rejected && available),
        udp is Forward == (!rejected && available && inflight < 1024),
        rejected ==> tcp is Rejected && udp is Rejected,
        !rejected && !available ==> tcp is NoRoute && udp is NoRoute,
        udp is Backlog == (!rejected && available && inflight >= 1024),
        reason is None == (udp is Forward),
        udp is Rejected ==> reason->0@ == "policy"@,
        udp is NoRoute ==> reason->0@ == "no_route"@,
        udp is Backlog ==> reason->0@ == "forward_backlog"@,
{
}

/// A datagram goes to the local Connector, or to one peer after the other until one takes it;
/// it is dropped when none did.
pub proof fn law_peers_are_tried_in_turn(
    n: usize,
    has_mesh: bool,
    local: DeliveryStep,
    remote: DeliveryStep,
    nowhere: DeliveryStep,
    tried: usize,
    delivered: bool,
    next: DeliveryStep,
)
    requires
        call_ensures(start_delivery, (Delivery::Local, has_mesh), local),
        call_ensures(start_delivery, (Delivery::Remote(n), has_mesh), remote),
        call_ensures(start_delivery, (Delivery::Unavailable, has_mesh), nowhere),
        tried < n,
        call_ensures(after_peer, (n, tried, delivered), next),
    ensures
        local is ToConnector,
        nowhere is Done,
        has_mesh ==> remote == DeliveryStep::ToPeer(0),
        !has_mesh ==> remote is Done,
        delivered ==> next is Done,
        !delivered && tried + 1 < n ==> next == DeliveryStep::ToPeer((tried + 1) as usize),
        !delivered && tried + 1 == n ==> next is Dropped,
{
}

} // verus!
