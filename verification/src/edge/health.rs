//! The Edge's health endpoints.

use vstd::prelude::*;
use vstd::string::*;
use crate::health::HealthReply;
use crate::json;
use crate::json::write_json_list;
use crate::text;
use crate::text::decimal_text;

verus! {

/// The reply to a liveness query: how many Connectors are connected.
pub fn liveness(active_connectors: usize) -> (r: HealthReply)
    ensures
        r.status == 200,
        r.content_type is Some && r.content_type->0@ == "application/json"@,
        r.body@ == "{\"status\":\"ok\",\"active_connectors\":"@ + text::decimal(
            active_connectors as nat,
        ) + "}"@,
{
    let mut body: String = "{\"status\":\"ok\",\"active_connectors\":".to_owned();
    body.append(decimal_text(active_connectors as u64).as_str());
    body.append("}");
    HealthReply { status: 200, content_type: Some("application/json"), body }
}

/// The reply to a readiness query: the Edge is ready where nothing is amiss, else
/// every reason is told.
pub fn readiness(issues: &Vec<String>) -> (r: HealthReply)
    ensures
        r.content_type is Some && r.content_type->0@ == "application/json"@,
        r.status == (if issues@.len() == 0 {
            200u16
        } else {
            503u16
        }),
        r.body@ == (if issues@.len() == 0 {
            "{\"status\":\"ready\"}"@
        } else {
            "{\"reasons\":"@ + json::json_list(text::views(issues@)) + ",\"status\":\"degraded\"}"@
        }),
{
    if issues.len() == 0 {
        return HealthReply {
            status: 200,
            content_type: Some("application/json"),
            body: "{\"status\":\"ready\"}".to_owned(),
        };
    }
    let mut body: String = "{\"reasons\":".to_owned();
    body.append(write_json_list(issues).as_str());
    body.append(",\"status\":\"degraded\"}");
    HealthReply { status: 503, content_type: Some("application/json"), body }
}

/// The texts of lists, one list after the other.
pub open spec fn flattened(lists: Seq<Vec<String>>) -> Seq<Seq<char>>
    decreases lists.len(),
{
    if lists.len() == 0 {
        Seq::empty()
    } else {
        flattened(lists.drop_last()) + text::views(lists.last()@)
    }
}

/// Why the Edge is not fully ready, from what each probe says of it.
pub fn readiness_issues(probes: &Vec<Vec<String>>) -> (r: Vec<String>)
    ensures
        text::views(r@) == flattened(probes@),
{
    let mut out: Vec<String> = Vec::new();
    let mut i: usize = 0;
    assert(text::views(out@) =~= flattened(probes@.take(0)));
    while i < probes.len()
        invariant
            i <= probes.len(),
            text::views(out@) == flattened(probes@.take(i as int)),
        decreases probes.len() - i,
    {
        let ghost before = text::views(out@);
        let list: &Vec<String> = &probes[i];
        let ghost all = text::views(list@);
        assert(probes@.take(i + 1).drop_last() =~= probes@.take(i as int));
        assert(probes@.take(i + 1).last() == probes@[i as int]);
        let mut j: usize = 0;
        assert(text::views(out@) =~= before + all.take(0));
        while j < list.len()
            invariant
                j <= list.len() == all.len(),
                all == text::views(list@),
                text::views(out@) == before + all.take(j as int),
            decreases list.len() - j,
        {
            let ghost so_far = text::views(out@);
            out.push(list[j].clone());
            assert(text::views(out@) =~= so_far.push(all[j as int]));
            assert(all.take(j + 1) =~= all.take(j as int).push(all[j as int]));
            j += 1;
        }
        assert(all.take(j as int) =~= all);
        i += 1;
    }
    assert(probes@.take(i as int) =~= probes@);
    out
}

/// What the probe of the control plane says.
pub fn valkey_issues(connected: bool) -> (r: Vec<String>)
    ensures
        text::views(r@) == (if connected {
            Seq::<Seq<char>>::empty()
        } else {
            seq!["valkey not connected"@]
        }),
{
    let mut out: Vec<String> = Vec::new();
    if !connected {
        out.push("valkey not connected".to_owned());
        assert(text::views(out@) =~= seq!["valkey not connected"@]);
    } else {
        assert(text::views(out@) =~= Seq::<Seq<char>>::empty());
    }
    out
}

/// The Edge is ready exactly where no probe finds anything amiss.
pub proof fn law_ready_without_issues(probes: Seq<Vec<String>>)
    ensures
        (flattened(probes).len() == 0) == (forall|i: int|
            0 <= i < probes.len() ==> (#[trigger] probes[i])@.len() == 0),
    decreases probes.len(),
{
    if probes.len() > 0 {
        let front = probes.drop_last();
        law_ready_without_issues(front);
        assert(flattened(probes).len() == flattened(front).len() + probes.last()@.len());
        if flattened(probes).len() == 0 {
            assert forall|i: int| 0 <= i < probes.len() implies (#[trigger] probes[i])@.len()
                == 0 by {
                if i < front.len() {
                    assert(front[i] == probes[i]);
                }
            }
        }
        if forall|i: int| 0 <= i < probes.len() ==> (#[trigger] probes[i])@.len() == 0 {
            assert forall|i: int| 0 <= i < front.len() implies (#[trigger] front[i])@.len() == 0 by {
                assert(front[i] == probes[i]);
            }
            assert(probes[probes.len() - 1]@.len() == 0);
        }
    }
}

/// An Edge is ready if and only if no probe has an issue with it, and answers 503 otherwise;
/// that it lives it answers in any case.
pub proof fn law_issues_keep_an_edge_from_being_ready(
    fewer: Vec<Vec<String>>,
    probes: Vec<Vec<String>>,
    last: Vec<String>,
    less: Vec<String>,
    issues: Vec<String>,
    r: HealthReply,
    n: usize,
    alive: HealthReply,
    connected: bool,
    valkey: Vec<String>,
)
    requires
        probes@ == fewer@.push(last),
        call_ensures(readiness_issues, (&fewer,), less),
        call_ensures(readiness_issues, (&probes,), issues),
        call_ensures(readiness, (&issues,), r),
        call_ensures(liveness, (n,), alive),
        call_ensures(valkey_issues, (connected,), valkey),
    ensures
        fewer@.len() == 0 ==> less@.len() == 0,
        text::views(issues@) == text::views(less@) + text::views(last@),
        issues@.len() == less@.len() + last@.len(),
        r.status == if issues@.len() == 0 {
            200int
        } else {
            503
        },
        alive.status == 200,
        connected == (valkey@.len() == 0),
{
    assert(probes@.drop_last() =~= fewer@);
    assert(text::views(issues@).len() == issues@.len());
    assert(text::views(less@).len() == less@.len());
    assert(text::views(last@).len() == last@.len());
    assert(text::views(valkey@).len() == valkey@.len());
}

} // verus!
