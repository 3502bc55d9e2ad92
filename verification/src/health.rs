//! What is asked of a health server, and how it answers.

use vstd::prelude::*;
use vstd::string::*;
use crate::text::same_text;

verus! {

/// What is asked of the health server.
#[derive(Debug, Clone, Copy, PartialEq, Eq, Structural)]
pub enum HealthQuery {
    Liveness,
    Readiness,
    Metrics,
    Unknown,
}

/// What a path asks for.
pub open spec fn query_of(path: Seq<char>) -> HealthQuery {
    if path == "/healthz"@ {
        HealthQuery::Liveness
    } else if path == "/readyz"@ {
        HealthQuery::Readiness
    } else if path == "/metrics"@ {
        HealthQuery::Metrics
    } else {
        HealthQuery::Unknown
    }
}

/// What a path asks for.
pub fn query(path: &str) -> (r: HealthQuery)
    ensures
        r == query_of(path@),
{
    if same_text(path, "/healthz") {
        HealthQuery::Liveness
    } else if same_text(path, "/readyz") {
        HealthQuery::Readiness
    } else if same_text(path, "/metrics") {
        HealthQuery::Metrics
    } else {
        HealthQuery::Unknown
    }
}

/// A response with a JSON body, or a plain text where there is no content type.
#[derive(Debug)]
pub struct HealthReply {
    pub status: u16,
    pub content_type: Option<&'static str>,
    pub body: String,
}

/// The reply to a query for anything else.
pub fn not_found() -> (r: HealthReply)
    ensures
        r.status == 404,
        r.content_type is None,
        r.body@ == "not found\n"@,
{
    HealthReply { status: 404, content_type: None, body: "not found\n".to_owned() }
}

/// The three paths of the health server are told apart, and no other path is known.
pub proof fn law_health_paths_are_told_apart(path: &str, r: HealthQuery, missing: HealthReply)
    requires
        call_ensures(query, (path,), r),
        call_ensures(not_found, (), missing),
    ensures
        r is Liveness == (path@ == "/healthz"@),
        r is Readiness == (path@ == "/readyz"@),
        r is Metrics == (path@ == "/metrics"@),
        missing.status == 404,
{
    reveal_strlit("/healthz");
    reveal_strlit("/readyz");
    reveal_strlit("/metrics");
    assert("/healthz"@.len() == 8 && "/healthz"@[1] == 'h');
    assert("/readyz"@.len() == 7);
    assert("/metrics"@.len() == 8 && "/metrics"@[1] == 'm');
}

} // verus!
