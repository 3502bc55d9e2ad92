//! Heartbeats in the control plane.

use vstd::prelude::*;
use vstd::string::*;
use crate::json;
use crate::json::write_json_list;
use crate::text;
use crate::text::decimal_text;

verus! {

/// The key of a Connector's heartbeat.
pub open spec fn heartbeat_key_of(tunnel_id: Seq<char>) -> Seq<char> {
    "sievetube:connector:"@ + tunnel_id + ":last_seen"@
}

pub fn heartbeat_key(tunnel_id: &str) -> (r: String)
    ensures
        r@ == heartbeat_key_of(tunnel_id@),
{
    let mut r: String = "sievetube:connector:".to_owned();
    r.append(tunnel_id);
    r.append(":last_seen");
    r
}

/// How long a heartbeat lives, in seconds: four intervals, but at least a minute.
pub open spec fn heartbeat_ttl_of(interval_secs: nat) -> nat {
    if interval_secs * 4 < 60 {
        60
    } else if interval_secs * 4 > u64::MAX {
        u64::MAX as nat
    } else {
        interval_secs * 4
    }
}

pub fn heartbeat_ttl(interval_secs: u64) -> (r: u64)
    ensures
        r == heartbeat_ttl_of(interval_secs as nat),
{
    let ttl: u128 = interval_secs as u128 * 4;
    if ttl < 60 {
        60
    } else if ttl > 0xffff_ffff_ffff_ffff {
        0xffff_ffff_ffff_ffff
    } else {
        ttl as u64
    }
}

/// What a heartbeat does with its key.
#[derive(Debug)]
pub enum Heartbeat {
    /// No Edge is connected: the key is taken away.
    Remove,
    /// The key has a value that names the connected Edges, and lives this many
    /// seconds.
    Publish { value: String, ttl: u64 },
}

/// What a heartbeat says: the connected Edges and the time, as JSON.
pub open spec fn heartbeat_value(edges: Seq<Seq<char>>, now: u64) -> Seq<char> {
    "{\"edges\":"@ + json::json_list(edges) + ",\"last_seen\":"@ + text::decimal(now as nat) + "}"@
}

/// The key is absent while no Edge is authenticated, so control-plane users do
/// not mistake a running but isolated Connector for a usable one.
pub fn heartbeat(edges: &Vec<String>, interval_secs: u64, now: u64) -> (r: Heartbeat)
    ensures
        match r {
            Heartbeat::Remove => edges@.len() == 0,
            Heartbeat::Publish { value, ttl } => edges@.len() > 0 && value@ == heartbeat_value(
                text::views(edges@),
                now,
            ) && ttl == heartbeat_ttl_of(interval_secs as nat),
        },
{
    if edges.len() == 0 {
        return Heartbeat::Remove;
    }
    let mut value: String = "{\"edges\":".to_owned();
    value.append(write_json_list(edges).as_str());
    value.append(",\"last_seen\":");
    value.append(decimal_text(now).as_str());
    value.append("}");
    Heartbeat::Publish { value, ttl: heartbeat_ttl(interval_secs) }
}

/// A Connector says that it is there as long as an Edge is connected, under its own key, for
/// four intervals and at least a minute.
pub proof fn law_heartbeats_last_four_intervals(
    id: &str,
    key: String,
    edges: Vec<String>,
    interval: u64,
    now: u64,
    ttl: u64,
    r: Heartbeat,
)
    requires
        call_ensures(heartbeat_key, (id,), key),
        call_ensures(heartbeat_ttl, (interval,), ttl),
        call_ensures(heartbeat, (&edges, interval, now), r),
    ensures
        key@ == "sievetube:connector:"@ + id@ + ":last_seen"@,
        ttl >= 60,
        15 <= interval <= u64::MAX / 4 ==> ttl == 4 * interval,
        interval < 15 ==> ttl == 60,
        r is Remove == (edges@.len() == 0),
        r is Publish ==> r->ttl == ttl,
{
}

} // verus!
