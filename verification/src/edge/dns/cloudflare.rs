//! Cloudflare (API v4): what is asked of the API and what its answers mean.
//!
//! Cloudflare stores one record per value; here they make up a single normalized
//! record set, and a change is applied as the difference value by value.

use vstd::prelude::*;
use vstd::string::*;
use crate::edge::dns::record;
use crate::edge::dns::record::{
    check_expected, quote_txt, DnsError, DnsErrorView, Observed, ObservedView, RecordSet,
    RecordSetView, RecordType,
};
use crate::edge::http_proxy;
use crate::edge::http_proxy::canonical_reason;
use crate::text;
use crate::text::{
    decimal_text, drop_end, join_text, parse_unsigned, same_text, signed_text, trim,
};
use crate::text_set::TextSet;
use crate::time::Duration;

verus! {

/// How many records a page holds.
pub const PAGE_SIZE: u32 = 100;

/// How many pages are read at most.
pub const MAX_PAGES: u32 = 1000;

/// The address of the API.
pub fn default_api_base_url() -> (r: &'static str)
    ensures
        r@ == "https://api.cloudflare.com/client/v4"@,
{
    "https://api.cloudflare.com/client/v4"
}

/// The address of the API without slashes at its end.
pub fn api_base(base_url: Option<&str>) -> (r: String)
    ensures
        r@ == text::without_end(
            match base_url {
                Some(url) => url@,
                None => "https://api.cloudflare.com/client/v4"@,
            },
            '/',
        ),
{
    match base_url {
        Some(url) => drop_end(url, '/'),
        None => drop_end(default_api_base_url(), '/'),
    }
}

/// A credential that is never printed.
pub struct Secret(String);

impl View for Secret {
    type V = Seq<char>;

    closed spec fn view(&self) -> Seq<char> {
        self.0@
    }
}

impl Clone for Secret {
    fn clone(&self) -> (r: Self)
        ensures
            r@ == self@,
    {
        Secret(self.0.clone())
    }
}

impl Secret {
    pub fn new(value: String) -> (r: Self)
        ensures
            r@ == value@,
    {
        Secret(value)
    }

    /// The value of an `Authorization` field.
    pub fn bearer(&self) -> (r: String)
        ensures
            r@ == "Bearer "@ + self@,
    {
        "Bearer ".to_owned().concat(self.0.as_str())
    }
}

/// Where an API token comes from, with what was found there.
#[derive(Debug)]
pub enum TokenSource {
    /// An environment variable
    Variable { name: String, value: Option<String> },
    /// A file, or why it cannot be read
    File { path: String, content: Result<String, String> },
    Unconfigured,
}

/// What was read of a token, or why it is not to be had.
pub open spec fn token_read(source: TokenSource) -> Result<Seq<char>, Seq<char>> {
    match source {
        TokenSource::Variable { name, value } => match value {
            Some(v) => Ok(v@),
            None => Err("environment variable "@ + name@ + " is not set"@),
        },
        TokenSource::File { path, content } => match content {
            Ok(v) => Ok(v@),
            Err(e) => Err("cannot read token file "@ + path@ + ": "@ + e@),
        },
        TokenSource::Unconfigured => Err("no API token source configured"@),
    }
}

/// An API token from what was read of it.
pub fn load_token(source: TokenSource) -> (r: Result<Secret, String>)
    ensures
        match token_read(source) {
            Err(e) => r is Err && r->Err_0@ == e,
            Ok(raw) => if text::trimmed(raw).len() == 0 {
                r is Err && r->Err_0@ == "API token is empty"@
            } else {
                r is Ok && r->Ok_0@ == text::trimmed(raw)
            },
        },
{
    let raw: String = match source {
        TokenSource::Variable { name, value } => match value {
            Some(v) => v,
            None => {
                let mut e: String = "environment variable ".to_owned();
                e.append(name.as_str());
                e.append(" is not set");
                return Err(e);
            },
        },
        TokenSource::File { path, content } => match content {
            Ok(v) => v,
            Err(why) => {
                let mut e: String = "cannot read token file ".to_owned();
                e.append(path.as_str());
                e.append(": ");
                e.append(why.as_str());
                return Err(e);
            },
        },
        TokenSource::Unconfigured => {
            return Err("no API token source configured".to_owned());
        },
    };
    let token: String = trim(raw.as_str());
    if token.as_str().unicode_len() == 0 {
        return Err("API token is empty".to_owned());
    }
    Ok(Secret::new(token))
}

/// Which records can be proxied.
pub open spec fn can_be_proxied(t: RecordType) -> bool {
    t != RecordType::Txt
}

pub fn proxiable(record_type: RecordType) -> (r: bool)
    ensures
        r == can_be_proxied(record_type),
{
    match record_type {
        RecordType::A => true,
        RecordType::Aaaa => true,
        RecordType::Cname => true,
        RecordType::Txt => false,
    }
}

/// A message of the API.
#[derive(Debug)]
pub struct ApiMessage {
    pub code: i64,
    pub message: String,
}

/// One record.
#[derive(Debug)]
pub struct CfRecord {
    pub id: String,
    pub content: String,
    pub ttl: u32,
    pub proxied: Option<bool>,
}

/// The body of a response.
#[derive(Debug)]
pub struct Envelope {
    pub success: bool,
    pub errors: Vec<ApiMessage>,
    /// The records, in the response to a listing
    pub result: Option<Vec<CfRecord>>,
    pub total_pages: Option<u32>,
}

/// A message as it is reported.
pub open spec fn message_text(m: ApiMessage) -> Seq<char> {
    m.message@ + " ("@ + text::signed_decimal(m.code as int) + ")"@
}

/// Messages as they are reported.
pub open spec fn messages_text(errors: Seq<ApiMessage>) -> Seq<char> {
    text::join(errors.map_values(|m: ApiMessage| message_text(m)), "; "@)
}

/// Messages as they are reported.
pub fn messages(errors: &Vec<ApiMessage>) -> (r: String)
    ensures
        r@ == messages_text(errors@),
{
    let ghost all = errors@.map_values(|m: ApiMessage| message_text(m));
    let mut parts: Vec<String> = Vec::new();
    let mut i: usize = 0;
    assert(text::views(parts@) =~= all.take(0));
    while i < errors.len()
        invariant
            i <= errors.len() == all.len(),
            all == errors@.map_values(|m: ApiMessage| message_text(m)),
            text::views(parts@) == all.take(i as int),
        decreases errors.len() - i,
    {
        let ghost before = text::views(parts@);
        let mut part: String = errors[i].message.clone();
        part.append(" (");
        part.append(signed_text(errors[i].code).as_str());
        part.append(")");
        parts.push(part);
        assert(text::views(parts@) =~= before.push(all[i as int]));
        assert(all.take(i + 1) =~= all.take(i as int).push(all[i as int]));
        i += 1;
    }
    assert(all.take(i as int) =~= all);
    join_text(&parts, "; ")
}

/// Whether a code means that a conflicting record already exists.
pub open spec fn is_conflict_code(code: i64) -> bool {
    code == 81053 || code == 81057 || code == 81058
}

/// Whether any message says that a conflicting record already exists.
pub open spec fn any_conflict(errors: Seq<ApiMessage>) -> bool {
    exists|i: int| 0 <= i < errors.len() && is_conflict_code((#[trigger] errors[i]).code)
}

fn has_conflict(errors: &Vec<ApiMessage>) -> (r: bool)
    ensures
        r == any_conflict(errors@),
{
    let mut i: usize = 0;
    while i < errors.len()
        invariant
            i <= errors.len(),
            forall|j: int| 0 <= j < i ==> !is_conflict_code((#[trigger] errors@[j]).code),
        decreases errors.len() - i,
    {
        let code: i64 = errors[i].code;
        if code == 81053 || code == 81057 || code == 81058 {
            return true;
        }
        i += 1;
    }
    false
}

/// A status as it is reported.
pub open spec fn status_text(status: u16, phrase: Option<Seq<char>>) -> Seq<char> {
    text::decimal(status as nat) + " "@ + (match phrase {
        Some(p) => p,
        None => "<unknown status code>"@,
    })
}

fn write_status(status: u16) -> (r: String)
    requires
        100 <= status < 1000,
    ensures
        r@ == status_text(status, http_proxy::status_phrase(status)),
{
    let mut out: String = decimal_text(status as u64);
    out.append(" ");
    match canonical_reason(status) {
        Some(p) => out.append(p.as_str()),
        None => out.append("<unknown status code>"),
    }
    out
}

/// How long the API asks to wait.
pub open spec fn asked_wait(retry_after: Option<Seq<char>>) -> Option<Duration> {
    match retry_after {
        None => None,
        Some(v) => match text::parsed_unsigned(text::trimmed(v), u64::MAX as nat) {
            Some(n) => Some(Duration { nanos: (n * 1_000_000_000) as u128 }),
            None => None,
        },
    }
}

/// What a response means where it is an error, with the status as it is reported.
pub open spec fn response_error(
    status: u16,
    reported: Seq<char>,
    retry_after: Option<Seq<char>>,
    body: Result<Envelope, Seq<char>>,
) -> Option<DnsErrorView> {
    if status == 429 {
        Some(DnsErrorView::RateLimited(asked_wait(retry_after)))
    } else if status == 401 || status == 403 {
        Some(
            DnsErrorView::Auth(
                match body {
                    Ok(envelope) => messages_text(envelope.errors@),
                    Err(_) => reported,
                },
            ),
        )
    } else if 500 <= status < 600 {
        Some(DnsErrorView::Provider("HTTP "@ + reported))
    } else {
        match body {
            Err(e) => Some(
                DnsErrorView::Provider("unexpected response (HTTP "@ + reported + "): "@ + e),
            ),
            Ok(envelope) => if envelope.success {
                None
            } else if any_conflict(envelope.errors@) {
                Some(DnsErrorView::Conflict(messages_text(envelope.errors@)))
            } else {
                Some(DnsErrorView::Provider(messages_text(envelope.errors@)))
            },
        }
    }
}

/// A body or why it cannot be read, by its values.
pub open spec fn body_view(body: Result<Envelope, String>) -> Result<Envelope, Seq<char>> {
    match body {
        Ok(envelope) => Ok(envelope),
        Err(e) => Err(e@),
    }
}

/// A response with the status as it is reported: its body, or the error that it
/// means.
pub fn judge(
    status: u16,
    reported: String,
    retry_after: Option<&str>,
    body: Result<Envelope, String>,
) -> (r: Result<Envelope, DnsError>)
    ensures
        match response_error(
            status,
            reported@,
            match retry_after {
                Some(v) => Some(v@),
                None => None,
            },
            body_view(body),
        ) {
            Some(e) => r is Err && r->Err_0@ == e,
            None => r is Ok && body is Ok && r->Ok_0 == body->Ok_0,
        },
{
    if status == 429 {
        let wait: Option<Duration> = match retry_after {
            None => None,
            Some(v) => match parse_unsigned(trim(v).as_str(), u64::MAX) {
                Some(n) => Some(Duration::from_secs(n)),
                None => None,
            },
        };
        return Err(DnsError::RateLimited { retry_after: wait });
    }
    if status == 401 || status == 403 {
        return Err(
            DnsError::Auth(
                match &body {
                    Ok(envelope) => messages(&envelope.errors),
                    Err(_) => reported,
                },
            ),
        );
    }
    if 500 <= status && status < 600 {
        return Err(DnsError::Provider("HTTP ".to_owned().concat(reported.as_str())));
    }
    match body {
        Err(e) => {
            let mut detail: String = "unexpected response (HTTP ".to_owned();
            detail.append(reported.as_str());
            detail.append("): ");
            detail.append(e.as_str());
            Err(DnsError::Provider(detail))
        },
        Ok(envelope) => {
            if envelope.success {
                return Ok(envelope);
            }
            let detail: String = messages(&envelope.errors);
            if has_conflict(&envelope.errors) {
                Err(DnsError::Conflict(detail))
            } else {
                Err(DnsError::Provider(detail))
            }
        },
    }
}

/// A response: its body, or the error that it means.
pub fn read_response(
    status: u16,
    retry_after: Option<&str>,
    body: Result<Envelope, String>,
) -> (r: Result<Envelope, DnsError>)
    requires
        100 <= status < 1000,
    ensures
        match response_error(
            status,
            status_text(status, http_proxy::status_phrase(status)),
            match retry_after {
                Some(v) => Some(v@),
                None => None,
            },
            body_view(body),
        ) {
            Some(e) => r is Err && r->Err_0@ == e,
            None => r is Ok && body is Ok && r->Ok_0 == body->Ok_0,
        },
{
    let reported: String = write_status(status);
    judge(status, reported, retry_after, body)
}

/// The path of a page of a listing.
pub open spec fn listing_path(zone: Seq<char>, name: Seq<char>, t: RecordType, page: u32) -> Seq<
    char,
> {
    "/zones/"@ + zone + "/dns_records?type="@ + record::record_type_name(t) + "&name="@ + name
        + "&per_page="@ + text::decimal(PAGE_SIZE as nat) + "&page="@ + text::decimal(page as nat)
}

/// The path of a page of a listing.
pub fn list_path(zone_id: &str, name: &str, record_type: RecordType, page: u32) -> (r: String)
    ensures
        r@ == listing_path(zone_id@, name@, record_type, page),
{
    let mut path: String = "/zones/".to_owned();
    path.append(zone_id);
    path.append("/dns_records?type=");
    path.append(record_type.as_str());
    path.append("&name=");
    path.append(name);
    path.append("&per_page=");
    path.append(decimal_text(PAGE_SIZE as u64).as_str());
    path.append("&page=");
    path.append(decimal_text(page as u64).as_str());
    path
}

/// Takes in a page of a listing; returns the number of the next one, if there is
/// one to be read.
pub fn take_page(found: &mut Vec<CfRecord>, page: u32, body: Envelope) -> (r: Option<u32>)
    ensures
        final(found)@ == old(found)@ + match body.result {
            Some(records) => records@,
            None => Seq::empty(),
        },
        r == (if page >= (match body.total_pages {
            Some(n) => n,
            None => 1,
        }) || page >= MAX_PAGES {
            None::<u32>
        } else {
            Some((page + 1) as u32)
        }),
{
    let ghost start = found@;
    match body.result {
        Some(records) => {
            let mut records: Vec<CfRecord> = records;
            found.append(&mut records);
        },
        None => {
            assert(start + Seq::<CfRecord>::empty() =~= start);
        },
    }
    let total: u32 = match body.total_pages {
        Some(n) => n,
        None => 1,
    };
    if page >= total || page >= MAX_PAGES {
        None
    } else {
        Some(page + 1)
    }
}

/// The contents of records.
pub open spec fn contents(records: Seq<CfRecord>) -> Seq<Seq<char>> {
    records.map_values(|r: CfRecord| r.content@)
}

/// Whether all records have the settings of the first: the TTL, and whether they
/// are proxied.
pub open spec fn same_ttl(records: Seq<CfRecord>) -> bool {
    forall|i: int| 0 <= i < records.len() ==> (#[trigger] records[i]).ttl == records[0].ttl
}

pub open spec fn same_proxy_setting(records: Seq<CfRecord>) -> bool {
    forall|i: int| 0 <= i < records.len() ==> (#[trigger] records[i]).proxied == records[0].proxied
}

/// What the listed records of a name and type say.
pub open spec fn observed_of(name: Seq<char>, t: RecordType, records: Seq<CfRecord>) -> Option<
    ObservedView,
> {
    if records.len() == 0 {
        None
    } else {
        let values = record::canonical_values(t, contents(records));
        Some(
            ObservedView {
                set: RecordSetView {
                    name,
                    record_type: t,
                    ttl: records[0].ttl,
                    values,
                    proxied: if can_be_proxied(t) {
                        records[0].proxied
                    } else {
                        None
                    },
                },
                unsupported: if values.len() != records.len() {
                    Some("duplicate or unparsable record values"@)
                } else if !same_ttl(records) {
                    Some("records with different TTLs"@)
                } else if !same_proxy_setting(records) {
                    Some("records with different proxy settings"@)
                } else {
                    None
                },
            },
        )
    }
}

/// What the listed records of a name and type say.
#[verifier::spinoff_prover]
#[verifier::rlimit(60)]
pub fn observed(name: &str, record_type: RecordType, records: &Vec<CfRecord>) -> (r: Option<
    Observed,
>)
    ensures
        (match r {
            Some(o) => Some(o@),
            None => None,
        }) == observed_of(name@, record_type, records@),
{
    if records.len() == 0 {
        return None;
    }
    let ghost all = contents(records@);
    let mut values: TextSet = TextSet::new();
    let mut one_ttl: bool = true;
    let mut one_setting: bool = true;
    let mut i: usize = 0;
    assert(values@ =~= record::canonical_values(record_type, all.take(0)));
    while i < records.len()
        invariant
            i <= records.len() == all.len(),
            all == contents(records@),
            values@ == record::canonical_values(record_type, all.take(i as int)),
            one_ttl == forall|j: int|
                0 <= j < i ==> (#[trigger] records@[j]).ttl == records@[0].ttl,
            one_setting == forall|j: int|
                0 <= j < i ==> (#[trigger] records@[j]).proxied == records@[0].proxied,
        decreases records.len() - i,
    {
        assert(all.take(i + 1).drop_last() =~= all.take(i as int));
        assert(all.take(i + 1).last() == records@[i as int].content@);
        if let Ok(v) = record_type.normalize_value(records[i].content.as_str()) {
            values.insert(v);
        }
        if records[i].ttl != records[0].ttl {
            one_ttl = false;
        }
        if records[i].proxied != records[0].proxied {
            one_setting = false;
        }
        i += 1;
    }
    assert(all.take(i as int) =~= all);
    let unsupported: Option<String> = if values.len() != records.len() {
        Some("duplicate or unparsable record values".to_owned())
    } else if !one_ttl {
        Some("records with different TTLs".to_owned())
    } else if !one_setting {
        Some("records with different proxy settings".to_owned())
    } else {
        None
    };
    let proxied: Option<bool> = if proxiable(record_type) {
        records[0].proxied
    } else {
        None
    };
    let r: Observed = Observed {
        set: RecordSet {
            name: name.to_owned(),
            record_type,
            ttl: records[0].ttl,
            values,
            proxied,
        },
        unsupported,
    };
    assert(r@ == observed_of(name@, record_type, records@)->0);
    Some(r)
}

/// A call that changes records.
#[derive(Debug)]
pub enum ApiCall {
    /// DELETE of one record
    Delete { path: String },
    /// PATCH of one record
    Patch { path: String, ttl: u32, proxied: Option<bool> },
    /// POST of a new record
    Create {
        path: String,
        kind: &'static str,
        name: String,
        content: String,
        ttl: u32,
        proxied: Option<bool>,
    },
}

/// An [`ApiCall`] by its values.
pub enum CallView {
    Delete { path: Seq<char> },
    Patch { path: Seq<char>, ttl: u32, proxied: Option<bool> },
    Create {
        path: Seq<char>,
        kind: Seq<char>,
        name: Seq<char>,
        content: Seq<char>,
        ttl: u32,
        proxied: Option<bool>,
    },
}

impl View for ApiCall {
    type V = CallView;

    open spec fn view(&self) -> CallView {
        match *self {
            ApiCall::Delete { path } => CallView::Delete { path: path@ },
            ApiCall::Patch { path, ttl, proxied } => CallView::Patch { path: path@, ttl, proxied },
            ApiCall::Create { path, kind, name, content, ttl, proxied } => CallView::Create {
                path: path@,
                kind: kind@,
                name: name@,
                content: content@,
                ttl,
                proxied,
            },
        }
    }
}

/// Calls by their values.
pub open spec fn call_views(calls: Seq<ApiCall>) -> Seq<CallView> {
    calls.map_values(|c: ApiCall| c@)
}

/// The path of the records of a zone.
pub open spec fn records_path(zone: Seq<char>) -> Seq<char> {
    "/zones/"@ + zone + "/dns_records"@
}

/// The path of a record.
pub open spec fn record_path(zone: Seq<char>, id: Seq<char>) -> Seq<char> {
    records_path(zone) + "/"@ + id
}

/// Whether a record has this value.
pub open spec fn has_value(r: CfRecord, t: RecordType, value: Seq<char>) -> bool {
    record::canonical(t, r.content@) == Ok::<Seq<char>, Seq<char>>(value)
}

/// Whether a record has one of these values.
pub open spec fn has_any_value(r: CfRecord, t: RecordType, values: Seq<Seq<char>>) -> bool {
    record::canonical(t, r.content@) is Ok && values.contains(record::canonical(t, r.content@)->Ok_0)
}

/// The calls that delete the records whose value is not among those to keep.
pub open spec fn deletions(
    zone: Seq<char>,
    t: RecordType,
    records: Seq<CfRecord>,
    keep: Seq<Seq<char>>,
) -> Seq<CallView>
    decreases records.len(),
{
    if records.len() == 0 {
        Seq::empty()
    } else {
        let before = deletions(zone, t, records.drop_last(), keep);
        if has_any_value(records.last(), t, keep) {
            before
        } else {
            before.push(CallView::Delete { path: record_path(zone, records.last().id@) })
        }
    }
}

/// The first record with a value.
pub open spec fn first_with(records: Seq<CfRecord>, t: RecordType, value: Seq<char>) -> Option<
    CfRecord,
>
    decreases records.len(),
{
    if records.len() == 0 {
        None
    } else if has_value(records[0], t, value) {
        Some(records[0])
    } else {
        first_with(records.skip(1), t, value)
    }
}

/// The content of a record with a value.
pub open spec fn content_for(t: RecordType, value: Seq<char>) -> Seq<char> {
    if t == RecordType::Txt {
        record::quoted_txt(value)
    } else {
        value
    }
}

/// What a change makes of a value that is to be held: it is created, adapted, or
/// left as it is.
pub open spec fn upkeep(
    zone: Seq<char>,
    t: RecordType,
    name: Seq<char>,
    ttl: u32,
    proxied: bool,
    records: Seq<CfRecord>,
    value: Seq<char>,
) -> Option<CallView> {
    let setting = if can_be_proxied(t) {
        Some(proxied)
    } else {
        None
    };
    match first_with(records, t, value) {
        Some(r) => if r.ttl != ttl || (can_be_proxied(t) && r.proxied != Some(proxied)) {
            Some(CallView::Patch { path: record_path(zone, r.id@), ttl, proxied: setting })
        } else {
            None
        },
        None => Some(
            CallView::Create {
                path: records_path(zone),
                kind: record::record_type_name(t),
                name,
                content: content_for(t, value),
                ttl,
                proxied: setting,
            },
        ),
    }
}

/// What a change makes of the values that are to be held, one after the other.
pub open spec fn upkeeps(
    zone: Seq<char>,
    t: RecordType,
    name: Seq<char>,
    ttl: u32,
    proxied: bool,
    records: Seq<CfRecord>,
    values: Seq<Seq<char>>,
) -> Seq<CallView>
    decreases values.len(),
{
    if values.len() == 0 {
        Seq::empty()
    } else {
        let before = upkeeps(zone, t, name, ttl, proxied, records, values.drop_last());
        match upkeep(zone, t, name, ttl, proxied, records, values.last()) {
            Some(call) => before.push(call),
            None => before,
        }
    }
}

/// Whether the desired records are proxied: as asked for, else as they are, else
/// not.
pub open spec fn proxy_setting(
    current: Option<ObservedView>,
    desired: RecordSetView,
) -> bool {
    if desired.proxied is Some {
        desired.proxied->0
    } else if current is Some && current->0.set.proxied is Some {
        current->0.set.proxied->0
    } else {
        false
    }
}

/// The calls that make a change, in order. A name can hold only one CNAME, so the
/// old target is removed first; for other types new values are added first, to
/// avoid an empty answer during the change.
pub open spec fn change_calls(
    zone: Seq<char>,
    name: Seq<char>,
    t: RecordType,
    records: Seq<CfRecord>,
    desired: Option<RecordSetView>,
) -> Seq<CallView> {
    let current = observed_of(name, t, records);
    match desired {
        None => deletions(zone, t, records, Seq::empty()),
        Some(d) => {
            let gone = deletions(zone, t, records, d.values);
            let held = upkeeps(
                zone,
                t,
                name,
                d.ttl,
                proxy_setting(current, d),
                records,
                d.values,
            );
            if t == RecordType::Cname {
                gone + held
            } else {
                held + gone
            }
        },
    }
}

fn write_records_path(zone_id: &str) -> (r: String)
    ensures
        r@ == records_path(zone_id@),
{
    let mut path: String = "/zones/".to_owned();
    path.append(zone_id);
    path.append("/dns_records");
    path
}

fn write_record_path(zone_id: &str, id: &str) -> (r: String)
    ensures
        r@ == record_path(zone_id@, id@),
{
    let mut path: String = write_records_path(zone_id);
    path.append("/");
    path.append(id);
    path
}

/// The calls that delete the records whose value is not among those to keep.
fn delete_records(
    zone_id: &str,
    record_type: RecordType,
    records: &Vec<CfRecord>,
    keep: &TextSet,
) -> (r: Vec<ApiCall>)
    ensures
        call_views(r@) == deletions(zone_id@, record_type, records@, keep@),
{
    let mut out: Vec<ApiCall> = Vec::new();
    let mut i: usize = 0;
    assert(call_views(out@) =~= deletions(zone_id@, record_type, records@.take(0), keep@));
    while i < records.len()
        invariant
            i <= records.len(),
            call_views(out@) == deletions(zone_id@, record_type, records@.take(i as int), keep@),
        decreases records.len() - i,
    {
        let ghost before = call_views(out@);
        assert(records@.take(i + 1).drop_last() =~= records@.take(i as int));
        assert(records@.take(i + 1).last() == records@[i as int]);
        let kept: bool = match record_type.normalize_value(records[i].content.as_str()) {
            Ok(v) => keep.contains(v.as_str()),
            Err(_) => false,
        };
        if !kept {
            let call: ApiCall = ApiCall::Delete {
                path: write_record_path(zone_id, records[i].id.as_str()),
            };
            let ghost seen = call@;
            out.push(call);
            assert(call_views(out@) =~= before.push(seen));
        }
        i += 1;
    }
    assert(records@.take(i as int) =~= records@);
    out
}

fn find_value<'a>(records: &'a Vec<CfRecord>, record_type: RecordType, value: &str) -> (r: Option<
    &'a CfRecord,
>)
    ensures
        (match r {
            Some(c) => Some(*c),
            None => None,
        }) == first_with(records@, record_type, value@),
{
    let mut i: usize = 0;
    assert(records@.skip(0) =~= records@);
    while i < records.len()
        invariant
            i <= records.len(),
            first_with(records@, record_type, value@) == first_with(
                records@.skip(i as int),
                record_type,
                value@,
            ),
        decreases records.len() - i,
    {
        assert(records@.skip(i as int)[0] == records@[i as int]);
        assert(records@.skip(i as int).skip(1) =~= records@.skip(i + 1));
        if let Ok(v) = record_type.normalize_value(records[i].content.as_str()) {
            if same_text(v.as_str(), value) {
                return Some(&records[i]);
            }
        }
        i += 1;
    }
    None
}

/// What a change makes of a value that is to be held.
fn hold_value(
    zone_id: &str,
    record_type: RecordType,
    name: &str,
    ttl: u32,
    proxied: bool,
    records: &Vec<CfRecord>,
    value: &str,
) -> (r: Option<ApiCall>)
    ensures
        (match r {
            Some(c) => Some(c@),
            None => None,
        }) == upkeep(zone_id@, record_type, name@, ttl, proxied, records@, value@),
{
    let setting: Option<bool> = if proxiable(record_type) {
        Some(proxied)
    } else {
        None
    };
    match find_value(records, record_type, value) {
        Some(record) => {
            let proxy_changed: bool = proxiable(record_type) && match record.proxied {
                Some(p) => p != proxied,
                None => true,
            };
            if record.ttl != ttl || proxy_changed {
                Some(
                    ApiCall::Patch {
                        path: write_record_path(zone_id, record.id.as_str()),
                        ttl,
                        proxied: setting,
                    },
                )
            } else {
                None
            }
        },
        None => {
            let content: String = match record_type {
                RecordType::Txt => quote_txt(value),
                _ => value.to_owned(),
            };
            Some(
                ApiCall::Create {
                    path: write_records_path(zone_id),
                    kind: record_type.as_str(),
                    name: name.to_owned(),
                    content,
                    ttl,
                    proxied: setting,
                },
            )
        },
    }
}

/// The calls that change the records from what was listed, to be made in order
/// until one fails; none, but an error, where they are not what was expected.
pub fn replacement(
    zone_id: &str,
    name: &str,
    record_type: RecordType,
    records: &Vec<CfRecord>,
    expected: Option<&RecordSet>,
    desired: Option<&RecordSet>,
) -> (r: Result<Vec<ApiCall>, DnsError>)
    ensures
        match record::refusal(
            observed_of(name@, record_type, records@),
            record::ref_view(expected),
        ) {
            Some(reason) => r is Err && r->Err_0@ == DnsErrorView::Conflict(reason),
            None => r is Ok && call_views(r->Ok_0@) == change_calls(
                zone_id@,
                name@,
                record_type,
                records@,
                record::ref_view(desired),
            ),
        },
{
    let current: Option<Observed> = observed(name, record_type, records);
    if let Err(e) = check_expected(current.as_ref(), expected) {
        return Err(e);
    }
    let desired: &RecordSet = match desired {
        Some(d) => d,
        None => {
            let nothing: TextSet = TextSet::new();
            return Ok(delete_records(zone_id, record_type, records, &nothing));
        },
    };
    let proxied: bool = match desired.proxied {
        Some(p) => p,
        None => match &current {
            Some(c) => match c.set.proxied {
                Some(p) => p,
                None => false,
            },
            None => false,
        },
    };
    let mut gone: Vec<ApiCall> = delete_records(zone_id, record_type, records, &desired.values);
    let mut held: Vec<ApiCall> = Vec::new();
    let n: usize = desired.values.len();
    let ghost values = desired.values@;
    let mut i: usize = 0;
    assert(call_views(held@) =~= upkeeps(
        zone_id@,
        record_type,
        name@,
        desired.ttl,
        proxied,
        records@,
        values.take(0),
    ));
    while i < n
        invariant
            i <= n == values.len(),
            values == desired.values@,
            call_views(held@) == upkeeps(
                zone_id@,
                record_type,
                name@,
                desired.ttl,
                proxied,
                records@,
                values.take(i as int),
            ),
        decreases n - i,
    {
        let ghost before = call_views(held@);
        assert(values.take(i + 1).drop_last() =~= values.take(i as int));
        assert(values.take(i + 1).last() == values[i as int]);
        if let Some(call) = hold_value(
            zone_id,
            record_type,
            name,
            desired.ttl,
            proxied,
            records,
            desired.values.item(i).as_str(),
        ) {
            let ghost seen = call@;
            held.push(call);
            assert(call_views(held@) =~= before.push(seen));
        }
        i += 1;
    }
    assert(values.take(i as int) =~= values);
    let ghost a = gone@;
    let ghost b = held@;
    if record_type == RecordType::Cname {
        gone.append(&mut held);
        assert(call_views(gone@) =~= call_views(a) + call_views(b));
        Ok(gone)
    } else {
        held.append(&mut gone);
        assert(call_views(held@) =~= call_views(b) + call_views(a));
        Ok(held)
    }
}

/// Whether the records have different ids.
pub open spec fn ids_differ(records: Seq<CfRecord>) -> bool {
    forall|i: int, j: int|
        0 <= i < j < records.len() ==> (#[trigger] records[i]).id@ != (#[trigger] records[j]).id@
}

proof fn lemma_paths_differ(zone: Seq<char>, a: Seq<char>, b: Seq<char>)
    requires
        record_path(zone, a) == record_path(zone, b),
    ensures
        a == b,
{
    let prefix = records_path(zone) + "/"@;
    assert((prefix + a).skip(prefix.len() as int) =~= a);
    assert((prefix + b).skip(prefix.len() as int) =~= b);
}

proof fn lemma_deletions(
    zone: Seq<char>,
    t: RecordType,
    records: Seq<CfRecord>,
    keep: Seq<Seq<char>>,
)
    requires
        ids_differ(records),
    ensures
        forall|i: int|
            0 <= i < records.len() ==> deletions(zone, t, records, keep).contains(
                CallView::Delete { path: record_path(zone, (#[trigger] records[i]).id@) },
            ) == !has_any_value(records[i], t, keep),
        forall|k: int|
            0 <= k < deletions(zone, t, records, keep).len() ==> exists|i: int|
                0 <= i < records.len() && #[trigger] deletions(zone, t, records, keep)[k]
                    == (CallView::Delete { path: record_path(zone, (#[trigger] records[i]).id@) }),
    decreases records.len(),
{
    if records.len() > 0 {
        let front = records.drop_last();
        let before = deletions(zone, t, front, keep);
        let all = deletions(zone, t, records, keep);
        assert forall|i: int, j: int| 0 <= i < j < front.len() implies (#[trigger] front[i]).id@
            != (#[trigger] front[j]).id@ by {
            assert(front[i] == records[i] && front[j] == records[j]);
        }
        lemma_deletions(zone, t, front, keep);
        let last = CallView::Delete { path: record_path(zone, records.last().id@) };
        assert forall|k: int| 0 <= k < all.len() implies exists|i: int|
            0 <= i < records.len() && #[trigger] all[k] == (CallView::Delete {
                path: record_path(zone, (#[trigger] records[i]).id@),
            }) by {
            if k < before.len() {
                assert(all[k] == before[k]);
                let i = choose|i: int|
                    0 <= i < front.len() && before[k] == (CallView::Delete {
                        path: record_path(zone, (#[trigger] front[i]).id@),
                    });
                assert(records[i] == front[i]);
            } else {
                assert(all[k] == last);
                assert(records[records.len() - 1] == records.last());
            }
        }
        assert forall|i: int| 0 <= i < records.len() implies all.contains(
            CallView::Delete { path: record_path(zone, (#[trigger] records[i]).id@) },
        ) == !has_any_value(records[i], t, keep) by {
            let call = CallView::Delete { path: record_path(zone, records[i].id@) };
            if i < front.len() {
                assert(front[i] == records[i]);
                assert(before.contains(call) == !has_any_value(records[i], t, keep));
                if before.contains(call) {
                    let k = choose|k: int| 0 <= k < before.len() && before[k] == call;
                    assert(all[k] == call);
                }
                if all.contains(call) && !before.contains(call) {
                    let k = choose|k: int| 0 <= k < all.len() && all[k] == call;
                    if k < before.len() {
                        assert(before[k] == call);
                    }
                    assert(call == last);
                    lemma_paths_differ(zone, records[i].id@, records.last().id@);
                    assert(records[records.len() - 1].id@ != records[i].id@);
                }
            } else {
                assert(records[i] == records.last());
                if !has_any_value(records[i], t, keep) {
                    assert(all[all.len() - 1] == call);
                } else if all.contains(call) {
                    let k = choose|k: int| 0 <= k < before.len() && before[k] == call;
                    let j = choose|j: int|
                        0 <= j < front.len() && before[k] == (CallView::Delete {
                            path: record_path(zone, (#[trigger] front[j]).id@),
                        });
                    assert(front[j] == records[j]);
                    lemma_paths_differ(zone, records[i].id@, records[j].id@);
                }
            }
        }
    }
}

proof fn lemma_upkeeps(
    zone: Seq<char>,
    t: RecordType,
    name: Seq<char>,
    ttl: u32,
    proxied: bool,
    records: Seq<CfRecord>,
    values: Seq<Seq<char>>,
)
    ensures
        forall|i: int|
            0 <= i < values.len() && upkeep(
                zone,
                t,
                name,
                ttl,
                proxied,
                records,
                #[trigger] values[i],
            ) is Some ==> upkeeps(zone, t, name, ttl, proxied, records, values).contains(
                upkeep(zone, t, name, ttl, proxied, records, values[i])->0,
            ),
        forall|k: int|
            0 <= k < upkeeps(zone, t, name, ttl, proxied, records, values).len() ==> exists|i: int|
                0 <= i < values.len() && upkeep(
                    zone,
                    t,
                    name,
                    ttl,
                    proxied,
                    records,
                    #[trigger] values[i],
                ) == Some(
                    #[trigger] upkeeps(zone, t, name, ttl, proxied, records, values)[k],
                ),
    decreases values.len(),
{
    if values.len() > 0 {
        let front = values.drop_last();
        let before = upkeeps(zone, t, name, ttl, proxied, records, front);
        let all = upkeeps(zone, t, name, ttl, proxied, records, values);
        lemma_upkeeps(zone, t, name, ttl, proxied, records, front);
        assert(values[values.len() - 1] == values.last());
        assert forall|i: int|
            0 <= i < values.len() && upkeep(
                zone,
                t,
                name,
                ttl,
                proxied,
                records,
                #[trigger] values[i],
            ) is Some implies all.contains(
            upkeep(zone, t, name, ttl, proxied, records, values[i])->0,
        ) by {
            let call = upkeep(zone, t, name, ttl, proxied, records, values[i])->0;
            if i < front.len() {
                assert(front[i] == values[i]);
                assert(before.contains(call));
                let k = choose|k: int| 0 <= k < before.len() && before[k] == call;
                assert(all[k] == call);
            } else {
                assert(all[all.len() - 1] == call);
            }
        }
        assert forall|k: int| 0 <= k < all.len() implies exists|i: int|
            0 <= i < values.len() && upkeep(
                zone,
                t,
                name,
                ttl,
                proxied,
                records,
                #[trigger] values[i],
            ) == Some(#[trigger] all[k]) by {
            if k < before.len() {
                assert(all[k] == before[k]);
                let i = choose|i: int|
                    0 <= i < front.len() && upkeep(
                        zone,
                        t,
                        name,
                        ttl,
                        proxied,
                        records,
                        #[trigger] front[i],
                    ) == Some(before[k]);
                assert(values[i] == front[i]);
            }
        }
    }
}

proof fn lemma_first_with(records: Seq<CfRecord>, t: RecordType, value: Seq<char>)
    ensures
        match first_with(records, t, value) {
            Some(r) => has_value(r, t, value) && records.contains(r),
            None => forall|i: int| 0 <= i < records.len() ==> !has_value(#[trigger] records[i], t, value),
        },
    decreases records.len(),
{
    if records.len() > 0 {
        let rest = records.skip(1);
        assert(records.contains(records[0]));
        if !has_value(records[0], t, value) {
            lemma_first_with(rest, t, value);
            match first_with(rest, t, value) {
                Some(r) => {
                    let k = choose|k: int| 0 <= k < rest.len() && rest[k] == r;
                    assert(records[k + 1] == r);
                },
                None => {
                    assert forall|i: int| 0 <= i < records.len() implies !has_value(
                        #[trigger] records[i],
                        t,
                        value,
                    ) by {
                        if i > 0 {
                            assert(rest[i - 1] == records[i]);
                        }
                    }
                },
            }
        }
    }
}

/// Whether the calls leave a record in place.
pub open spec fn stays(zone: Seq<char>, r: CfRecord, calls: Seq<CallView>) -> bool {
    !calls.contains(CallView::Delete { path: record_path(zone, r.id@) })
}

/// Whether the calls leave a record with this value.
pub open spec fn value_stays(
    zone: Seq<char>,
    t: RecordType,
    records: Seq<CfRecord>,
    calls: Seq<CallView>,
    value: Seq<char>,
) -> bool {
    exists|i: int|
        0 <= i < records.len() && has_value(#[trigger] records[i], t, value) && stays(
            zone,
            records[i],
            calls,
        )
}

/// Whether a call creates a record with this value.
pub open spec fn creates(call: CallView, t: RecordType, value: Seq<char>) -> bool {
    call is Create && record::canonical(t, call->content) == Ok::<Seq<char>, Seq<char>>(value)
}

/// Whether the calls create a record with this value.
pub open spec fn value_comes(t: RecordType, calls: Seq<CallView>, value: Seq<char>) -> bool {
    exists|k: int| 0 <= k < calls.len() && creates(#[trigger] calls[k], t, value)
}

/// The calls of a change leave exactly the desired values: each of them is held by
/// a record that stays or comes, and no other is.
pub proof fn law_change_leaves_the_desired_values(
    zone: Seq<char>,
    name: Seq<char>,
    t: RecordType,
    records: Seq<CfRecord>,
    desired: Option<RecordSetView>,
    value: Seq<char>,
)
    requires
        ids_differ(records),
        desired is Some ==> forall|v: Seq<char>| #[trigger]
            desired->0.values.contains(v) ==> exists|raw: Seq<char>|
                #[trigger] record::canonical(t, raw) == Ok::<Seq<char>, Seq<char>>(v),
    ensures
        ({
            let calls = change_calls(zone, name, t, records, desired);
            (value_stays(zone, t, records, calls, value) || value_comes(t, calls, value)) == (
            desired is Some && desired->0.values.contains(value))
        }),
{
    let calls = change_calls(zone, name, t, records, desired);
    match desired {
        None => {
            let gone = deletions(zone, t, records, Seq::empty());
            lemma_deletions(zone, t, records, Seq::empty());
            assert forall|i: int| 0 <= i < records.len() implies !stays(
                zone,
                #[trigger] records[i],
                calls,
            ) by {
                assert(!has_any_value(records[i], t, Seq::empty()));
            }
            assert(!value_comes(t, calls, value)) by {
                if value_comes(t, calls, value) {
                    let k = choose|k: int|
                        0 <= k < calls.len() && creates(#[trigger] calls[k], t, value);
                    assert(gone[k] is Delete);
                }
            }
        },
        Some(d) => {
            lemma_change_stays(zone, name, t, records, d);
            lemma_change_comes(zone, name, t, records, d, value);
            lemma_first_with(records, t, value);
            match first_with(records, t, value) {
                Some(r) => {
                    let j = choose|j: int| 0 <= j < records.len() && records[j] == r;
                    assert(has_value(records[j], t, value));
                    assert(stays(zone, records[j], calls) == has_any_value(records[j], t, d.values));
                    if value_stays(zone, t, records, calls, value) {
                        let i = choose|i: int|
                            0 <= i < records.len() && has_value(#[trigger] records[i], t, value)
                                && stays(zone, records[i], calls);
                        assert(has_any_value(records[i], t, d.values));
                    }
                },
                None => {},
            }
        },
    }
}

proof fn lemma_change_stays(
    zone: Seq<char>,
    name: Seq<char>,
    t: RecordType,
    records: Seq<CfRecord>,
    d: RecordSetView,
)
    requires
        ids_differ(records),
    ensures
        forall|i: int|
            0 <= i < records.len() ==> stays(
                zone,
                #[trigger] records[i],
                change_calls(zone, name, t, records, Some(d)),
            ) == has_any_value(records[i], t, d.values),
{
    let calls = change_calls(zone, name, t, records, Some(d));
    let proxied = proxy_setting(observed_of(name, t, records), d);
    let gone = deletions(zone, t, records, d.values);
    let held = upkeeps(zone, t, name, d.ttl, proxied, records, d.values);
    lemma_deletions(zone, t, records, d.values);
    lemma_upkeeps(zone, t, name, d.ttl, proxied, records, d.values);
    let n = held.len() as int;
    let m = gone.len() as int;
    assert forall|i: int| 0 <= i < records.len() implies stays(zone, #[trigger] records[i], calls)
        == has_any_value(records[i], t, d.values) by {
        let call = CallView::Delete { path: record_path(zone, records[i].id@) };
        if gone.contains(call) {
            let k = choose|k: int| 0 <= k < m && gone[k] == call;
            if t == RecordType::Cname {
                assert(calls[k] == call);
            } else {
                assert(calls[n + k] == call);
            }
        }
        if calls.contains(call) {
            let k = choose|k: int| 0 <= k < calls.len() && calls[k] == call;
            if t == RecordType::Cname {
                if k < m {
                    assert(gone[k] == call);
                } else {
                    assert(held[k - m] == call);
                }
            } else {
                if k < n {
                    assert(held[k] == call);
                } else {
                    assert(gone[k - n] == call);
                }
            }
        }
    }
}

proof fn lemma_change_comes(
    zone: Seq<char>,
    name: Seq<char>,
    t: RecordType,
    records: Seq<CfRecord>,
    d: RecordSetView,
    value: Seq<char>,
)
    requires
        ids_differ(records),
        forall|v: Seq<char>| #[trigger]
            d.values.contains(v) ==> exists|raw: Seq<char>|
                #[trigger] record::canonical(t, raw) == Ok::<Seq<char>, Seq<char>>(v),
    ensures
        value_comes(t, change_calls(zone, name, t, records, Some(d)), value) == (
        d.values.contains(value) && first_with(records, t, value) is None),
{
    let calls = change_calls(zone, name, t, records, Some(d));
    let keep = d.values;
    let proxied = proxy_setting(observed_of(name, t, records), d);
    let gone = deletions(zone, t, records, keep);
    let held = upkeeps(zone, t, name, d.ttl, proxied, records, keep);
    lemma_deletions(zone, t, records, keep);
    lemma_upkeeps(zone, t, name, d.ttl, proxied, records, keep);
    let n = held.len() as int;
    let m = gone.len() as int;
    if value_comes(t, calls, value) {
        let k = choose|k: int| 0 <= k < calls.len() && creates(#[trigger] calls[k], t, value);
        let at = if t == RecordType::Cname {
            k - m
        } else {
            k
        };
        if 0 <= at < n {
            assert(held[at] == calls[k]);
            let i = choose|i: int|
                0 <= i < keep.len() && upkeep(
                    zone,
                    t,
                    name,
                    d.ttl,
                    proxied,
                    records,
                    #[trigger] keep[i],
                ) == Some(held[at]);
            assert(keep.contains(keep[i]));
            lemma_content_reads_back(t, keep[i]);
            assert(keep[i] == value);
        } else if t == RecordType::Cname {
            assert(gone[k] == calls[k]);
        } else {
            assert(gone[k - n] == calls[k]);
        }
    }
    if keep.contains(value) && first_with(records, t, value) is None {
        let i = choose|i: int| 0 <= i < keep.len() && keep[i] == value;
        let call = upkeep(zone, t, name, d.ttl, proxied, records, keep[i])->0;
        assert(held.contains(call));
        let k = choose|k: int| 0 <= k < n && held[k] == call;
        lemma_content_reads_back(t, value);
        if t == RecordType::Cname {
            assert(calls[m + k] == call);
            assert(creates(calls[m + k], t, value));
        } else {
            assert(calls[k] == call);
            assert(creates(calls[k], t, value));
        }
    }
}

proof fn lemma_content_reads_back(t: RecordType, value: Seq<char>)
    requires
        exists|raw: Seq<char>|
            #[trigger] record::canonical(t, raw) == Ok::<Seq<char>, Seq<char>>(value),
    ensures
        record::canonical(t, content_for(t, value)) == Ok::<Seq<char>, Seq<char>>(value),
{
    let raw = choose|raw: Seq<char>|
        #[trigger] record::canonical(t, raw) == Ok::<Seq<char>, Seq<char>>(value);
    if t == RecordType::Txt {
        record::law_txt_quoting_round_trips(value);
    } else {
        record::law_canonical_is_stable(t, raw);
    }
}

/// After a change, every record that stays has the desired settings, or is given
/// them.
pub proof fn law_change_leaves_the_desired_settings(
    zone: Seq<char>,
    name: Seq<char>,
    t: RecordType,
    records: Seq<CfRecord>,
    desired: RecordSetView,
    i: int,
)
    requires
        ids_differ(records),
        0 <= i < records.len(),
        observed_of(name, t, records) is Some,
        observed_of(name, t, records)->0.unsupported is None,
        stays(zone, records[i], change_calls(zone, name, t, records, Some(desired))),
    ensures
        ({
            let proxied = proxy_setting(observed_of(name, t, records), desired);
            let setting = if can_be_proxied(t) {
                Some(proxied)
            } else {
                None
            };
            ||| records[i].ttl == desired.ttl && (can_be_proxied(t) ==> records[i].proxied == setting)
            ||| change_calls(zone, name, t, records, Some(desired)).contains(
                CallView::Patch {
                    path: record_path(zone, records[i].id@),
                    ttl: desired.ttl,
                    proxied: setting,
                },
            )
        }),
{
    let keep = desired.values;
    let calls = change_calls(zone, name, t, records, Some(desired));
    let proxied = proxy_setting(observed_of(name, t, records), desired);
    let gone = deletions(zone, t, records, keep);
    let held = upkeeps(zone, t, name, desired.ttl, proxied, records, keep);
    let n = held.len() as int;
    let m = gone.len() as int;
    lemma_deletions(zone, t, records, keep);
    lemma_upkeeps(zone, t, name, desired.ttl, proxied, records, keep);
    let call = CallView::Delete { path: record_path(zone, records[i].id@) };
    if gone.contains(call) {
        let k = choose|k: int| 0 <= k < m && gone[k] == call;
        if t == RecordType::Cname {
            assert(calls[k] == call);
        } else {
            assert(calls[n + k] == call);
        }
    }
    assert(has_any_value(records[i], t, keep));
    let value = record::canonical(t, records[i].content@)->Ok_0;
    lemma_first_with(records, t, value);
    let r = first_with(records, t, value)->0;
    let j = choose|j: int| 0 <= j < records.len() && records[j] == r;
    record::lemma_canonical_values(t, contents(records));
    assert(contents(records)[i] == records[i].content@);
    assert(contents(records)[j] == records[j].content@);
    assert(i == j);
    let at = choose|at: int| 0 <= at < keep.len() && keep[at] == value;
    match upkeep(zone, t, name, desired.ttl, proxied, records, keep[at]) {
        Some(c) => {
            assert(held.contains(c));
            let k = choose|k: int| 0 <= k < n && held[k] == c;
            if t == RecordType::Cname {
                assert(calls[m + k] == c);
            } else {
                assert(calls[k] == c);
            }
        },
        None => {},
    }
}

/// The API is the configured one, or else Cloudflare's own, without slashes at its end.
pub proof fn law_api_has_no_slash_at_its_end(
    base_url: Option<&str>,
    own: &'static str,
    r: String,
)
    requires
        call_ensures(api_base, (base_url,), r),
        call_ensures(default_api_base_url, (), own),
    ensures
        r@.len() > 0 ==> r@.last() != '/',
        base_url is Some && (base_url->0@.len() == 0 || base_url->0@.last() != '/') ==> r@
            == base_url->0@,
        base_url is None ==> r@ == own@,
{
    reveal_strlit("https://api.cloudflare.com/client/v4");
    assert("https://api.cloudflare.com/client/v4"@.last() == '4');
    let given = match base_url {
        Some(url) => url@,
        None => "https://api.cloudflare.com/client/v4"@,
    };
    lemma_without_end(given, '/');
}

proof fn lemma_without_end(s: Seq<char>, c: char)
    ensures
        text::without_end(s, c).len() > 0 ==> text::without_end(s, c).last() != c,
    decreases s.len(),
{
    if s.len() > 0 && s.last() == c {
        lemma_without_end(s.drop_last(), c);
    }
}

/// A token is what its source holds without the white space around it; a source that is not
/// there or holds nothing else is an error. It is sent as a bearer token.
pub proof fn law_tokens_are_trimmed(
    name: String,
    value: String,
    held: &str,
    trimmed: String,
    why: String,
    r: Result<Secret, String>,
    from_file: Result<Secret, String>,
    unset: Result<Secret, String>,
    unread: Result<Secret, String>,
    unconfigured: Result<Secret, String>,
    bearer: String,
)
    requires
        held@ == value@,
        call_ensures(trim, (held,), trimmed),
        call_ensures(load_token, (TokenSource::Variable { name, value: Some(value) },), r),
        call_ensures(load_token, (TokenSource::File { path: name, content: Ok(value) },), from_file),
        call_ensures(load_token, (TokenSource::Variable { name, value: None },), unset),
        call_ensures(load_token, (TokenSource::File { path: name, content: Err(why) },), unread),
        call_ensures(load_token, (TokenSource::Unconfigured,), unconfigured),
        r is Ok ==> call_ensures(Secret::bearer, (&r->Ok_0,), bearer),
    ensures
        r is Ok == (trimmed@.len() > 0),
        from_file is Ok == (trimmed@.len() > 0),
        r is Ok ==> r->Ok_0@ == trimmed@ && bearer@ == "Bearer "@ + trimmed@,
        from_file is Ok ==> from_file->Ok_0@ == trimmed@,
        unset is Err && unread is Err && unconfigured is Err,
{
}

/// A response counts as a success only where its envelope says so and its status is none of an
/// error. Too many requests, a missing permission and trouble at the provider are told apart
/// by the status, and a conflict by the codes in the envelope.
pub proof fn law_responses_are_judged_by_status(
    status: u16,
    reported: String,
    retry_after: Option<&str>,
    body: Result<Envelope, String>,
    r: Result<Envelope, DnsError>,
    i: int,
)
    requires
        call_ensures(judge, (status, reported, retry_after, body), r),
    ensures
        status == 429 ==> r is Err && r->Err_0 is RateLimited,
        status == 401 || status == 403 ==> r is Err && r->Err_0 is Auth,
        500 <= status < 600 ==> r is Err && r->Err_0 is Provider,
        ({
            let plain = status != 429 && status != 401 && status != 403 && !(500 <= status < 600);
            &&& r is Ok == (plain && body is Ok && body->Ok_0.success)
            &&& r is Ok ==> r->Ok_0 == body->Ok_0
            &&& plain && body is Err ==> r->Err_0 is Provider
            &&& plain && body is Ok && !body->Ok_0.success && 0 <= i < body->Ok_0.errors@.len() && (
            body->Ok_0.errors@[i].code == 81053 || body->Ok_0.errors@[i].code == 81057
                || body->Ok_0.errors@[i].code == 81058) ==> r->Err_0 is Conflict
            &&& r is Err && r->Err_0 is Conflict ==> plain && exists|j: int|
                0 <= j < body->Ok_0.errors@.len() && ((#[trigger] body->Ok_0.errors@[j]).code
                    == 81053 || body->Ok_0.errors@[j].code == 81057 || body->Ok_0.errors@[j].code
                    == 81058)
        }),
        status == 429 && retry_after is None ==> r->Err_0->retry_after is None,
{
    if r is Err {
        let e = r->Err_0@;
        if body is Ok && any_conflict(body->Ok_0.errors@) {
            let j = choose|j: int|
                0 <= j < body->Ok_0.errors@.len() && is_conflict_code(
                    (#[trigger] body->Ok_0.errors@[j]).code,
                );
            assert(body->Ok_0.errors@[j].code == 81053 || body->Ok_0.errors@[j].code == 81057
                || body->Ok_0.errors@[j].code == 81058);
        }
        if body is Ok && 0 <= i < body->Ok_0.errors@.len() && is_conflict_code(
            body->Ok_0.errors@[i].code,
        ) {
            assert(any_conflict(body->Ok_0.errors@));
        }
    }
}

/// The time that the provider asks to wait is a number of seconds.
pub proof fn law_asked_waits_are_seconds(
    reported: String,
    n: u64,
    asked: &str,
    body: Result<Envelope, String>,
    r: Result<Envelope, DnsError>,
)
    requires
        asked@ == text::decimal(n as nat),
        call_ensures(judge, (429u16, reported, Some(asked), body), r),
    ensures
        r matches Err(DnsError::RateLimited { retry_after: Some(d) }) && d.nanos == n
            * 1_000_000_000,
{
    let d = text::decimal(n as nat);
    text::law_digits_read_back(n as nat, 10);
    text::lemma_digits_are_digits(n as nat, 10);
    assert(text::digit_value(d[0], 16) is Some);
    assert(text::digit_value(d[d.len() - 1], 16) is Some);
    assert(text::trim_start(d) == d);
    assert(text::trimmed(d) == d);
    assert(r->Err_0@ is RateLimited);
}

/// Every page's records are taken, and the next page is asked for as long as there is one, up to
/// the thousandth.
pub proof fn law_all_pages_are_taken(
    found: &mut Vec<CfRecord>,
    page: u32,
    body: Envelope,
    r: Option<u32>,
)
    requires
        call_ensures(take_page, (found, page, body), r),
    ensures
        body.result is None ==> final(found)@ == old(found)@,
        body.result is Some ==> final(found)@ == old(found)@ + body.result->0@,
        r is Some ==> r->0 == page + 1 && r->0 <= 1000,
        body.total_pages is Some && page < body.total_pages->0 && page < 1000 ==> r is Some,
        body.total_pages is Some && page >= body.total_pages->0 ==> r is None,
        body.total_pages is None && page >= 1 ==> r is None,
{
}

/// No records are no record set. The set has the name and type asked for and what its records
/// say; records that do not go together cannot be managed.
pub proof fn law_records_are_seen_as_a_set(
    name: &str,
    t: RecordType,
    records: Vec<CfRecord>,
    r: Option<Observed>,
    i: int,
)
    requires
        call_ensures(observed, (name, t, &records), r),
        0 <= i < records@.len(),
    ensures
        r is Some,
        r->0.set.name@ == name@,
        r->0.set.record_type == t,
        r->0.set.ttl == records@[0].ttl,
        t is Txt ==> r->0.set.proxied is None,
        !(t is Txt) ==> r->0.set.proxied == records@[0].proxied,
        records@[i].ttl != records@[0].ttl || records@[i].proxied != records@[0].proxied
            ==> r->0.unsupported is Some,
        r->0.set.values@.len() != records@.len() ==> r->0.unsupported is Some,
        r->0.unsupported is Some && r->0.set.values@.len() == records@.len() ==> exists|j: int|
            0 <= j < records@.len() && ((#[trigger] records@[j]).ttl != records@[0].ttl
                || records@[j].proxied != records@[0].proxied),
{
    assert(r->0@.unsupported == text::opt_view(r->0.unsupported));
    assert(r->0@.set.values == r->0.set.values@);
    if same_ttl(records@) {
        assert(records@[i].ttl == records@[0].ttl);
    }
    if same_proxy_setting(records@) {
        assert(records@[i].proxied == records@[0].proxied);
    }
}

proof fn lemma_deleted(
    zone: Seq<char>,
    t: RecordType,
    records: Seq<CfRecord>,
    keep: Seq<Seq<char>>,
    i: int,
)
    requires
        0 <= i < records.len(),
        !has_any_value(records[i], t, keep),
    ensures
        deletions(zone, t, records, keep).contains(
            CallView::Delete { path: record_path(zone, records[i].id@) },
        ),
    decreases records.len(),
{
    let front = records.drop_last();
    let before = deletions(zone, t, front, keep);
    let all = deletions(zone, t, records, keep);
    let call = CallView::Delete { path: record_path(zone, records[i].id@) };
    if i < front.len() {
        lemma_deleted(zone, t, front, keep, i);
        let k = before.index_of(call);
        assert(all[k] == call);
    } else {
        assert(all[all.len() - 1] == call);
    }
}

proof fn lemma_only_deleted(
    zone: Seq<char>,
    t: RecordType,
    records: Seq<CfRecord>,
    keep: Seq<Seq<char>>,
    k: int,
)
    requires
        0 <= k < deletions(zone, t, records, keep).len(),
    ensures
        exists|i: int|
            0 <= i < records.len() && !has_any_value(#[trigger] records[i], t, keep) && deletions(
                zone,
                t,
                records,
                keep,
            )[k] == (CallView::Delete { path: record_path(zone, records[i].id@) }),
    decreases records.len(),
{
    let front = records.drop_last();
    let before = deletions(zone, t, front, keep);
    if k < before.len() {
        lemma_only_deleted(zone, t, front, keep, k);
        let i = choose|i: int|
            0 <= i < front.len() && !has_any_value(#[trigger] front[i], t, keep) && before[k] == (
            CallView::Delete { path: record_path(zone, front[i].id@) });
        assert(records[i] == front[i]);
    } else {
        assert(records[records.len() - 1] == records.last());
    }
}

proof fn lemma_kept_up(
    zone: Seq<char>,
    t: RecordType,
    name: Seq<char>,
    ttl: u32,
    proxied: bool,
    records: Seq<CfRecord>,
    values: Seq<Seq<char>>,
    i: int,
)
    requires
        0 <= i < values.len(),
        upkeep(zone, t, name, ttl, proxied, records, values[i]) is Some,
    ensures
        upkeeps(zone, t, name, ttl, proxied, records, values).contains(
            upkeep(zone, t, name, ttl, proxied, records, values[i])->0,
        ),
    decreases values.len(),
{
    let front = values.drop_last();
    let before = upkeeps(zone, t, name, ttl, proxied, records, front);
    let all = upkeeps(zone, t, name, ttl, proxied, records, values);
    let call = upkeep(zone, t, name, ttl, proxied, records, values[i])->0;
    if i < front.len() {
        lemma_kept_up(zone, t, name, ttl, proxied, records, front, i);
        let k = before.index_of(call);
        assert(all[k] == call);
    } else {
        assert(all[all.len() - 1] == call);
    }
}

proof fn lemma_only_kept_up(
    zone: Seq<char>,
    t: RecordType,
    name: Seq<char>,
    ttl: u32,
    proxied: bool,
    records: Seq<CfRecord>,
    values: Seq<Seq<char>>,
    k: int,
)
    requires
        0 <= k < upkeeps(zone, t, name, ttl, proxied, records, values).len(),
    ensures
        exists|i: int|
            0 <= i < values.len() && upkeep(
                zone,
                t,
                name,
                ttl,
                proxied,
                records,
                #[trigger] values[i],
            ) == Some(upkeeps(zone, t, name, ttl, proxied, records, values)[k]),
    decreases values.len(),
{
    let front = values.drop_last();
    let before = upkeeps(zone, t, name, ttl, proxied, records, front);
    if k < before.len() {
        lemma_only_kept_up(zone, t, name, ttl, proxied, records, front, k);
        let i = choose|i: int|
            0 <= i < front.len() && upkeep(
                zone,
                t,
                name,
                ttl,
                proxied,
                records,
                #[trigger] front[i],
            ) == Some(before[k]);
        assert(values[i] == front[i]);
    } else {
        assert(values[values.len() - 1] == values.last());
    }
}

/// A change is made only where the records are what was expected. Then every record without a
/// desired value is deleted, and none with one; every desired value that no record has is
/// created with the desired settings; and a single record with the value gets the settings
/// that it does not have.
pub proof fn law_records_are_changed_to_what_is_desired(
    zone: &str,
    name: &str,
    t: RecordType,
    records: Vec<CfRecord>,
    expected: Option<&RecordSet>,
    desired: Option<&RecordSet>,
    seen: Option<Observed>,
    allowed: Result<(), DnsError>,
    i: int,
    content: &str,
    value: Result<String, String>,
    j: int,
    r: Result<Vec<ApiCall>, DnsError>,
)
    requires
        call_ensures(replacement, (zone, name, t, &records, expected, desired), r),
        call_ensures(observed, (name, t, &records), seen),
        call_ensures(
            check_expected,
            (
                match seen {
                    Some(o) => Some(&o),
                    None => None,
                },
                expected,
            ),
            allowed,
        ),
        0 <= i < records@.len() ==> content@ == records@[i].content@,
        call_ensures(RecordType::normalize_value, (t, content), value),
    ensures
        r is Ok == allowed is Ok,
        r matches Err(e) ==> e is Conflict,
        r matches Ok(calls) ==> {
            let path = "/zones/"@ + zone@ + "/dns_records"@;
            let wanted = desired is Some && value is Ok && desired->0.values@.contains(
                value->Ok_0@,
            );
            &&& 0 <= i < records@.len() && !wanted ==> exists|k: int|
                0 <= k < calls@.len() && ((#[trigger] calls@[k]) matches ApiCall::Delete { path: p }
                    && p@ == path + "/"@ + records@[i].id@)
            &&& records@.len() == 0 && desired is Some && 0 <= j < desired->0.values@.len()
                ==> exists|k: int|
                0 <= k < calls@.len() && ((#[trigger] calls@[k]) matches ApiCall::Create {
                    path: p,
                    kind,
                    name: n,
                    content: c,
                    ttl,
                    proxied,
                } && p@ == path && n@ == name@ && c@ == content_for(t, desired->0.values@[j]) && ttl
                    == desired->0.ttl && (t is Txt ==> proxied is None) && (!(t is Txt)
                    && desired->0.proxied is Some ==> proxied == desired->0.proxied))
            &&& records@.len() == 1 && i == 0 && desired is Some && wanted && records@[0].ttl
                != desired->0.ttl ==> exists|k: int|
                0 <= k < calls@.len() && ((#[trigger] calls@[k]) matches ApiCall::Patch {
                    path: p,
                    ttl,
                    ..
                } && p@ == path + "/"@ + records@[0].id@ && ttl == desired->0.ttl)
            &&& desired is None ==> forall|k: int|
                0 <= k < calls@.len() ==> (#[trigger] calls@[k]) is Delete
        },
{
    let cur = match seen {
        Some(o) => Some(&o),
        None => None,
    };
    assert(record::observed_view(cur) == observed_of(name@, t, records@));
    if r is Err {
        assert(r->Err_0@ is Conflict);
    } else {
        let calls = r->Ok_0;
        let views = call_views(calls@);
        let keep = match desired {
            Some(d) => d.values@,
            None => Seq::empty(),
        };
        let gone = deletions(zone@, t, records@, keep);
        let d = desired->0;
        let proxied = proxy_setting(observed_of(name@, t, records@), d@);
        let held = upkeeps(zone@, t, name@, d.ttl, proxied, records@, keep);
        assert(views.len() == calls@.len());
        assert forall|k: int| 0 <= k < calls@.len() implies views[k] == (#[trigger] calls@[k])@ by {}
        if 0 <= i < records@.len() && !(desired is Some && value is Ok && keep.contains(
            value->Ok_0@,
        )) {
            assert(!has_any_value(records@[i], t, keep));
            lemma_deleted(zone@, t, records@, keep, i);
            let call = CallView::Delete { path: record_path(zone@, records@[i].id@) };
            let g = gone.index_of(call);
            let k = if desired is Some && t != RecordType::Cname {
                held.len() + g
            } else {
                g
            };
            assert(views[k] == call);
            assert(calls@[k]@ == call);
        }
        if records@.len() == 0 && desired is Some && 0 <= j < keep.len() {
            lemma_kept_up(zone@, t, name@, d.ttl, proxied, records@, keep, j);
            let call = upkeep(zone@, t, name@, d.ttl, proxied, records@, keep[j])->0;
            let h = held.index_of(call);
            let k = if t == RecordType::Cname {
                gone.len() + h
            } else {
                h
            };
            assert(views[k] == call);
            assert(calls@[k]@ == call);
        }
        if records@.len() == 1 && i == 0 && desired is Some && value is Ok && keep.contains(
            value->Ok_0@,
        ) && records@[0].ttl != d.ttl {
            let at = keep.index_of(value->Ok_0@);
            assert(has_value(records@[0], t, keep[at]));
            assert(first_with(records@, t, keep[at]) == Some(records@[0]));
            lemma_kept_up(zone@, t, name@, d.ttl, proxied, records@, keep, at);
            let call = upkeep(zone@, t, name@, d.ttl, proxied, records@, keep[at])->0;
            let h = held.index_of(call);
            let k = if t == RecordType::Cname {
                gone.len() + h
            } else {
                h
            };
            assert(views[k] == call);
            assert(calls@[k]@ == call);
        }
        if desired is None {
            assert forall|k: int| 0 <= k < calls@.len() implies (#[trigger] calls@[k])
                is Delete by {
                lemma_only_deleted(zone@, t, records@, keep, k);
                assert(views[k] == calls@[k]@);
            }
        }
    }
}

/// Nothing is deleted, changed or created but for a reason: what is deleted has no desired
/// value, what is created has a desired value that no record has, and what is changed is a
/// record with other settings than desired.
pub proof fn law_every_call_has_a_reason(
    zone: &str,
    name: &str,
    t: RecordType,
    records: Vec<CfRecord>,
    expected: Option<&RecordSet>,
    desired: RecordSet,
    calls: Vec<ApiCall>,
    k: int,
)
    requires
        call_ensures(
            replacement,
            (zone, name, t, &records, expected, Some(&desired)),
            Ok::<Vec<ApiCall>, DnsError>(calls),
        ),
        0 <= k < calls@.len(),
    ensures
        match calls@[k] {
            ApiCall::Delete { path } => exists|i: int|
                0 <= i < records@.len() && path@ == "/zones/"@ + zone@ + "/dns_records"@ + "/"@ + (
                #[trigger] records@[i]).id@ && !(record::canonical(t, records@[i].content@) is Ok
                    && desired.values@.contains(
                    record::canonical(t, records@[i].content@)->Ok_0,
                )),
            ApiCall::Create { kind, name: n, content, ttl, .. } => n@ == name@ && ttl == desired.ttl
                && kind@ == record::record_type_name(t) && exists|v: int|
                0 <= v < desired.values@.len() && content@ == content_for(
                    t,
                    #[trigger] desired.values@[v],
                ) && forall|i: int|
                    0 <= i < records@.len() ==> record::canonical(
                        t,
                        (#[trigger] records@[i]).content@,
                    ) != Ok::<Seq<char>, Seq<char>>(desired.values@[v]),
            ApiCall::Patch { ttl, proxied, .. } => ttl == desired.ttl && (t is Txt
                ==> proxied is None),
        },
{
    let views = call_views(calls@);
    let keep = desired.values@;
    let gone = deletions(zone@, t, records@, keep);
    let proxied = proxy_setting(observed_of(name@, t, records@), desired@);
    let held = upkeeps(zone@, t, name@, desired.ttl, proxied, records@, keep);
    assert(views.len() == calls@.len());
    assert(views[k] == calls@[k]@);
    if t == RecordType::Cname {
        assert(views == gone + held);
        if k < gone.len() {
            lemma_only_deleted(zone@, t, records@, keep, k);
        } else {
            lemma_only_kept_up(
                zone@,
                t,
                name@,
                desired.ttl,
                proxied,
                records@,
                keep,
                k - gone.len(),
            );
            lemma_reason(zone@, t, name@, desired.ttl, proxied, records@, keep, views[k]);
        }
    } else {
        assert(views == held + gone);
        if k < held.len() {
            lemma_only_kept_up(zone@, t, name@, desired.ttl, proxied, records@, keep, k);
            lemma_reason(zone@, t, name@, desired.ttl, proxied, records@, keep, views[k]);
        } else {
            lemma_only_deleted(zone@, t, records@, keep, k - held.len());
        }
    }
}

proof fn lemma_reason(
    zone: Seq<char>,
    t: RecordType,
    name: Seq<char>,
    ttl: u32,
    proxied: bool,
    records: Seq<CfRecord>,
    values: Seq<Seq<char>>,
    call: CallView,
)
    requires
        exists|i: int|
            0 <= i < values.len() && upkeep(
                zone,
                t,
                name,
                ttl,
                proxied,
                records,
                #[trigger] values[i],
            ) == Some(call),
    ensures
        match call {
            CallView::Delete { .. } => false,
            CallView::Create { kind, name: n, content, ttl: l, .. } => n == name && l == ttl && kind
                == record::record_type_name(t) && exists|v: int|
                0 <= v < values.len() && content == content_for(t, #[trigger] values[v])
                    && forall|i: int|
                    0 <= i < records.len() ==> record::canonical(
                        t,
                        (#[trigger] records[i]).content@,
                    ) != Ok::<Seq<char>, Seq<char>>(values[v]),
            CallView::Patch { ttl: l, proxied: p, .. } => l == ttl && (t is Txt ==> p is None),
        },
{
    let v = choose|v: int|
        0 <= v < values.len() && upkeep(zone, t, name, ttl, proxied, records, #[trigger] values[v])
            == Some(call);
    lemma_first_with(records, t, values[v]);
    if call is Create {
        assert forall|i: int| 0 <= i < records.len() implies record::canonical(
            t,
            (#[trigger] records[i]).content@,
        ) != Ok::<Seq<char>, Seq<char>>(values[v]) by {
            assert(!has_value(records[i], t, values[v]));
        }
    }
}

/// A listing asks for the zone's records of one name and type, a hundred to a page.
pub proof fn law_listings_ask_for_name_and_type(
    zone: &str,
    name: &str,
    t: RecordType,
    page: u32,
    kind: &'static str,
    r: String,
)
    requires
        call_ensures(list_path, (zone, name, t, page), r),
        call_ensures(RecordType::as_str, (t,), kind),
    ensures
        text::starts_with(r@, "/zones/"@ + zone@ + "/dns_records?type="@ + kind@),
        text::ends_with(r@, "&page="@ + text::decimal(page as nat)),
{
    let head = "/zones/"@ + zone@ + "/dns_records?type="@ + kind@;
    let tail = "&page="@ + text::decimal(page as nat);
    assert(r@.take(head.len() as int) =~= head);
    assert(r@.skip(r@.len() - tail.len()) =~= tail);
}

/// The messages of the API are told one behind the other, each with its code. Everything but a
/// TXT record can be proxied.
pub proof fn law_messages_are_told_in_order(
    fewer: Vec<ApiMessage>,
    errors: Vec<ApiMessage>,
    last: ApiMessage,
    code: String,
    less: String,
    r: String,
    t: RecordType,
    p: bool,
)
    requires
        errors@ == fewer@.push(last),
        call_ensures(text::signed_text, (last.code,), code),
        call_ensures(messages, (&fewer,), less),
        call_ensures(messages, (&errors,), r),
        call_ensures(proxiable, (t,), p),
    ensures
        fewer@.len() == 0 ==> less@.len() == 0 && r@ == last.message@ + " ("@ + code@ + ")"@,
        fewer@.len() > 0 ==> r@ == less@ + "; "@ + (last.message@ + " ("@ + code@ + ")"@),
        p == !(t is Txt),
{
    let f = |m: ApiMessage| message_text(m);
    let all = errors@.map_values(f);
    assert(all.drop_last() =~= fewer@.map_values(f));
    assert(all.last() == message_text(last));
    if fewer@.len() == 0 {
        assert(all[0] == message_text(last));
    }
}

} // verus!
