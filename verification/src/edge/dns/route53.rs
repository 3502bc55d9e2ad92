//! Amazon Route 53: what is asked of the API and what its answers mean.
//!
//! Only simple record sets in public hosted zones are managed; alias records and
//! routing policies (weighted, failover, ...) are reported as unsupported. A change
//! is one atomic change batch: DELETE of the exact current record set plus CREATE
//! of the desired one, so any concurrent modification makes the batch fail.

use vstd::prelude::*;
use vstd::string::*;
use vstd::utf8::*;
use crate::edge::dns::record;
use crate::edge::dns::record::{
    check_expected, quote_txt, DnsError, DnsErrorView, Observed, ObservedView, RecordSet,
    RecordSetView, RecordType,
};
use crate::hostname;
use crate::text;
use crate::text::{chars_of, drop_end, drop_prefixes, holds_text, lower, same_text, trim};
use crate::text_set::TextSet;

verus! {

/// A name with each asterisk in octal.
pub open spec fn octal_stars(s: Seq<char>) -> Seq<char>
    decreases s.len(),
{
    if s.len() == 0 {
        Seq::empty()
    } else {
        (if s[0] == '*' {
            "\\052"@
        } else {
            seq![s[0]]
        }) + octal_stars(s.skip(1))
    }
}

/// A name as the API takes it.
pub open spec fn fqdn_of(name: Seq<char>) -> Seq<char> {
    octal_stars(name) + "."@
}

/// A name as the API takes it: with a dot at its end.
pub fn fqdn(name: &str) -> (r: String)
    ensures
        r@ == fqdn_of(name@),
{
    let v: Vec<char> = chars_of(name);
    let mut out: String = String::new();
    let mut i: usize = 0;
    assert(v@.skip(0) =~= v@);
    assert(out@ + octal_stars(v@) =~= octal_stars(v@));
    while i < v.len()
        invariant
            i <= v.len(),
            v@ == name@,
            octal_stars(name@) == out@ + octal_stars(v@.skip(i as int)),
        decreases v.len() - i,
    {
        let ghost rest = v@.skip(i as int);
        let ghost before = out@;
        assert(rest[0] == v@[i as int]);
        assert(rest.skip(1) =~= v@.skip(i + 1));
        if v[i] == '*' {
            out.append("\\052");
            assert(before + ("\\052"@ + octal_stars(rest.skip(1))) =~= out@ + octal_stars(
                rest.skip(1),
            ));
        } else {
            out.push(v[i]);
            assert(before + (seq![v@[i as int]] + octal_stars(rest.skip(1))) =~= out@ + octal_stars(
                rest.skip(1),
            ));
        }
        i += 1;
    }
    assert(v@.skip(i as int) =~= Seq::<char>::empty());
    assert(out@ + Seq::<char>::empty() =~= out@);
    out.append(".");
    out
}

/// The number that three octal digits write, if it fits into a byte.
pub open spec fn octal_value(a: u8, b: u8, c: u8) -> Option<u8> {
    if 48 <= a <= 55 && 48 <= b <= 55 && 48 <= c <= 55 && (a - 48) * 64 + (b - 48) * 8 + (c - 48)
        <= 255 {
        Some(((a - 48) * 64 + (b - 48) * 8 + (c - 48)) as u8)
    } else {
        None
    }
}

/// The characters that bytes stand for: a backslash and three octal digits for
/// the byte that they write, any other byte for itself.
pub open spec fn octal_decoded(b: Seq<u8>) -> Seq<char>
    decreases b.len(),
{
    if b.len() == 0 {
        Seq::empty()
    } else if b[0] == 92 && b.len() > 3 && octal_value(b[1], b[2], b[3]) is Some {
        seq![octal_value(b[1], b[2], b[3])->0 as char] + octal_decoded(b.skip(4))
    } else {
        seq![b[0] as char] + octal_decoded(b.skip(1))
    }
}

/// A name that the API returned.
pub open spec fn decoded_name(raw: Seq<char>) -> Seq<char> {
    text::ascii_lower(octal_decoded(encode_utf8(text::without_end(raw, '.'))))
}

fn read_octal(a: u8, b: u8, c: u8) -> (r: Option<u8>)
    ensures
        r == octal_value(a, b, c),
{
    if 48 <= a && a <= 55 && 48 <= b && b <= 55 && 48 <= c && c <= 55 {
        let v: u16 = (a as u16 - 48) * 64 + (b as u16 - 48) * 8 + (c as u16 - 48);
        if v <= 255 {
            return Some(v as u8);
        }
    }
    None
}

/// Route 53 returns names with a trailing dot and octal escapes (`\052` for `*`).
pub fn decode_name(raw: &str) -> (r: String)
    ensures
        r@ == decoded_name(raw@),
{
    let clean: String = drop_end(raw, '.');
    let b: &[u8] = clean.as_str().as_bytes();
    let mut out: String = String::new();
    let mut i: usize = 0;
    assert(b@.skip(0) =~= b@);
    assert(out@ + octal_decoded(b@) =~= octal_decoded(b@));
    while i < b.len()
        invariant
            i <= b.len(),
            octal_decoded(b@) == out@ + octal_decoded(b@.skip(i as int)),
        decreases b.len() - i,
    {
        let ghost rest = b@.skip(i as int);
        let ghost before = out@;
        assert(rest[0] == b@[i as int]);
        let mut escape: Option<u8> = None;
        if b[i] == 92 && b.len() - i > 3 {
            assert(rest[1] == b@[i + 1] && rest[2] == b@[i + 2] && rest[3] == b@[i + 3]);
            escape = read_octal(b[i + 1], b[i + 2], b[i + 3]);
        }
        match escape {
            Some(code) => {
                out.push(code as char);
                assert(rest.skip(4) =~= b@.skip(i + 4));
                assert(before + (seq![code as char] + octal_decoded(rest.skip(4))) =~= out@
                    + octal_decoded(rest.skip(4)));
                i += 4;
            },
            None => {
                out.push(b[i] as char);
                assert(rest.skip(1) =~= b@.skip(i + 1));
                assert(before + (seq![b@[i as int] as char] + octal_decoded(rest.skip(1))) =~= out@
                    + octal_decoded(rest.skip(1)));
                i += 1;
            },
        }
    }
    assert(b@.skip(i as int) =~= Seq::<u8>::empty());
    assert(out@ + Seq::<char>::empty() =~= out@);
    lower(out.as_str())
}

/// Whether a name can be read back from its form for the API: ASCII in lower
/// case, without backslashes, not ending in a dot.
pub open spec fn reads_back(name: Seq<char>) -> bool {
    &&& is_ascii_chars(name)
    &&& forall|i: int|
        0 <= i < name.len() ==> (#[trigger] name[i]) != '\\' && !('A' <= name[i] <= 'Z')
    &&& name.len() > 0 ==> name.last() != '.'
}

proof fn lemma_stars(s: Seq<char>)
    requires
        is_ascii_chars(s),
        forall|i: int| 0 <= i < s.len() ==> (#[trigger] s[i]) != '\\',
    ensures
        is_ascii_chars(octal_stars(s)),
        octal_decoded(encode_utf8(octal_stars(s))) == s,
        s.len() > 0 && s.last() != '.' ==> octal_stars(s).len() > 0 && octal_stars(s).last() != '.',
    decreases s.len(),
{
    reveal_strlit("\\052");
    let e = octal_stars(s);
    if s.len() > 0 {
        let tail = s.skip(1);
        assert forall|i: int| 0 <= i < tail.len() implies (#[trigger] tail[i]) != '\\' by {
            assert(tail[i] == s[i + 1]);
        }
        assert(is_ascii_chars(tail)) by {
            is_ascii_chars_concat(s, s.take(1), tail);
        }
        lemma_stars(tail);
        let t = octal_stars(tail);
        let head = if s[0] == '*' {
            "\\052"@
        } else {
            seq![s[0]]
        };
        assert(e == head + t);
        assert(is_ascii_chars(head));
        is_ascii_chars_concat(e, head, t);
        is_ascii_chars_encode_utf8(e);
        is_ascii_chars_encode_utf8(t);
        let b = encode_utf8(e);
        assert(b.skip(head.len() as int) =~= encode_utf8(t)) by {
            assert forall|i: int| 0 <= i < t.len() implies b.skip(head.len() as int)[i]
                == encode_utf8(t)[i] by {
                assert(e[i + head.len()] == t[i]);
            }
        }
        assert(e[0] == head[0]);
        if s[0] == '*' {
            assert(e[1] == '0' && e[2] == '5' && e[3] == '2');
            assert(b[0] == 92 && b[1] == 48 && b[2] == 53 && b[3] == 50);
            assert(octal_value(48, 53, 50) == Some(42u8));
            assert(octal_decoded(b) == seq!['*'] + octal_decoded(b.skip(4)));
        } else {
            assert(s[0] != '\\');
            assert(b[0] == s[0] as u8);
            assert(octal_decoded(b) == seq![s[0]] + octal_decoded(b.skip(1)));
        }
        assert(seq![s[0]] + tail =~= s);
        if s.last() != '.' {
            if tail.len() > 0 {
                assert(tail.last() == s.last());
                assert(e.last() == t.last());
            } else {
                assert(t =~= Seq::<char>::empty());
                assert(e =~= head);
                assert(s.last() == s[0]);
            }
        }
    } else {
        assert(encode_utf8(e) =~= Seq::<u8>::empty());
    }
}

/// A name survives its way through the API.
pub proof fn law_names_read_back(name: Seq<char>)
    requires
        reads_back(name),
    ensures
        decoded_name(fqdn_of(name)) == name,
{
    lemma_stars(name);
    reveal_strlit(".");
    let e = octal_stars(name);
    let f = fqdn_of(name);
    assert(f.drop_last() =~= e);
    assert(f.last() == '.');
    assert(text::without_end(f, '.') == text::without_end(e, '.'));
    assert(text::without_end(e, '.') == e) by {
        if name.len() == 0 {
            assert(e =~= Seq::<char>::empty());
        }
    }
    assert(text::ascii_lower(name) =~= name);
}

/// The id of a hosted zone without what may stand before it.
pub open spec fn zone_id_of(id: Seq<char>) -> Seq<char> {
    text::without_prefixes(
        text::without_prefixes(text::trimmed(id), "/hostedzone/"@),
        "hostedzone/"@,
    )
}

pub fn normalize_zone_id(id: &str) -> (r: String)
    ensures
        r@ == zone_id_of(id@),
{
    let clean: String = trim(id);
    let clean: String = drop_prefixes(clean.as_str(), "/hostedzone/");
    drop_prefixes(clean.as_str(), "hostedzone/")
}

/// What an error code of the service means.
pub open spec fn service_error_of(code: Seq<char>, message: Seq<char>) -> DnsErrorView {
    if code == "InvalidChangeBatch"@ {
        DnsErrorView::Conflict(message)
    } else if code == "PriorRequestNotComplete"@ || code == "Throttling"@ || code
        == "ThrottlingException"@ || code == "RequestLimitExceeded"@ {
        DnsErrorView::RateLimited(None)
    } else if code == "AccessDenied"@ || code == "AccessDeniedException"@ || code
        == "InvalidClientTokenId"@ || code == "SignatureDoesNotMatch"@ || code == "ExpiredToken"@
        || code == "UnrecognizedClientException"@ {
        DnsErrorView::Auth(code + ": "@ + message)
    } else {
        DnsErrorView::Provider(code + ": "@ + message)
    }
}

/// What an error of the service means.
pub fn service_error(code: &str, message: &str) -> (r: DnsError)
    ensures
        r@ == service_error_of(code@, message@),
{
    if same_text(code, "InvalidChangeBatch") {
        return DnsError::Conflict(message.to_owned());
    }
    if same_text(code, "PriorRequestNotComplete") || same_text(code, "Throttling") || same_text(
        code,
        "ThrottlingException",
    ) || same_text(code, "RequestLimitExceeded") {
        return DnsError::RateLimited { retry_after: None };
    }
    let mut detail: String = code.to_owned();
    detail.append(": ");
    detail.append(message);
    if same_text(code, "AccessDenied") || same_text(code, "AccessDeniedException") || same_text(
        code,
        "InvalidClientTokenId",
    ) || same_text(code, "SignatureDoesNotMatch") || same_text(code, "ExpiredToken") || same_text(
        code,
        "UnrecognizedClientException",
    ) {
        return DnsError::Auth(detail);
    }
    DnsError::Provider(detail)
}

/// What an error means that did not come from the service.
pub fn client_error(timed_out: bool, detail: &str) -> (r: DnsError)
    ensures
        r@ == (if timed_out {
            DnsErrorView::Timeout
        } else if text::holds(detail@, "credentials"@) {
            DnsErrorView::Auth(detail@)
        } else {
            DnsErrorView::Provider(detail@)
        }),
{
    if timed_out {
        DnsError::Timeout
    } else if holds_text(detail, "credentials") {
        DnsError::Auth(detail.to_owned())
    } else {
        DnsError::Provider(detail.to_owned())
    }
}

/// A record set as the API lists it.
#[derive(Debug)]
pub struct ListedSet {
    pub name: String,
    pub kind: String,
    pub ttl: Option<i64>,
    pub values: Vec<String>,
    /// Whether it has an identifier, as sets with a routing policy do
    pub has_identifier: bool,
    pub is_alias: bool,
}

/// One page of a listing.
#[derive(Debug)]
pub struct ListedPage {
    pub sets: Vec<ListedSet>,
    pub truncated: bool,
    pub next_name: Option<String>,
    pub next_kind: Option<String>,
    pub next_identifier: Option<String>,
}

/// Whether a listed set has this name and type.
pub open spec fn is_exact(set: ListedSet, name: Seq<char>, t: RecordType) -> bool {
    decoded_name(set.name@) == name && set.kind@ == record::record_type_name(t)
}

/// How many sets at the start of a page have this name and type.
pub open spec fn leading(sets: Seq<ListedSet>, name: Seq<char>, t: RecordType) -> nat
    decreases sets.len(),
{
    if sets.len() > 0 && is_exact(sets[0], name, t) {
        1 + leading(sets.skip(1), name, t)
    } else {
        0
    }
}

/// Where a listing goes on, if more sets of the name and type may follow a page.
pub open spec fn continues_at(page: ListedPage, name: Seq<char>, t: RecordType) -> Option<Seq<char>> {
    if page.truncated && leading(page.sets@, name, t) == page.sets@.len() && page.next_name is Some
        && decoded_name(page.next_name->0@) == name && page.next_kind is Some && page.next_kind->0@
        == record::record_type_name(t) {
        text::opt_view(page.next_identifier)
    } else {
        None
    }
}

/// Takes in a page of a listing: the sets with exactly this name and type are
/// found; returns where to go on.
pub fn take_page(
    found: &mut Vec<ListedSet>,
    page: ListedPage,
    name: &str,
    record_type: RecordType,
) -> (r: Option<String>)
    ensures
        final(found)@ == old(found)@ + page.sets@.take(
            leading(page.sets@, name@, record_type) as int,
        ),
        text::opt_view(r) == continues_at(page, name@, record_type),
{
    let ListedPage { sets, truncated, next_name, next_kind, next_identifier } = page;
    let ghost all = sets@;
    let ghost start = found@;
    let mut n: usize = 0;
    assert(all.skip(0) =~= all);
    while n < sets.len() && same_text(
        decode_name(sets[n].name.as_str()).as_str(),
        name,
    ) && same_text(sets[n].kind.as_str(), record_type.as_str())
        invariant
            n <= sets.len(),
            all == sets@,
            leading(all, name@, record_type) == n + leading(
                all.skip(n as int),
                name@,
                record_type,
            ),
        decreases sets.len() - n,
    {
        assert(all.skip(n as int)[0] == all[n as int]);
        assert(all.skip(n as int).skip(1) =~= all.skip(n + 1));
        n += 1;
    }
    proof {
        if n < all.len() {
            assert(all.skip(n as int)[0] == all[n as int]);
        }
        assert(leading(all, name@, record_type) == n);
    }
    let left_range: bool = n < sets.len();
    let mut rest: Vec<ListedSet> = sets;
    rest.truncate(n);
    assert(rest@ =~= all.take(n as int));
    found.append(&mut rest);
    assert(found@ =~= start + all.take(n as int));
    if !truncated || left_range {
        return None;
    }
    let same_name: bool = match &next_name {
        Some(next) => same_text(decode_name(next.as_str()).as_str(), name),
        None => false,
    };
    let same_kind: bool = match &next_kind {
        Some(kind) => same_text(kind.as_str(), record_type.as_str()),
        None => false,
    };
    if same_name && same_kind {
        next_identifier
    } else {
        None
    }
}

/// The canonical forms of values, each once.
pub fn normalized_values(record_type: RecordType, values: &Vec<String>) -> (r: TextSet)
    ensures
        r@ == record::canonical_values(record_type, text::views(values@)),
{
    let ghost all = text::views(values@);
    let mut out: TextSet = TextSet::new();
    let mut i: usize = 0;
    assert(out@ =~= record::canonical_values(record_type, all.take(0)));
    while i < values.len()
        invariant
            i <= values.len() == all.len(),
            all == text::views(values@),
            out@ == record::canonical_values(record_type, all.take(i as int)),
        decreases values.len() - i,
    {
        assert(all.take(i + 1).drop_last() =~= all.take(i as int));
        assert(all.take(i + 1).last() == values@[i as int]@);
        if let Ok(v) = record_type.normalize_value(values[i].as_str()) {
            out.insert(v);
        }
        i += 1;
    }
    assert(all.take(i as int) =~= all);
    out
}

/// A TTL as far as it fits.
pub open spec fn clamped_ttl(ttl: Option<i64>) -> u32 {
    match ttl {
        None => 0,
        Some(t) => if t < 0 {
            0
        } else if t > u32::MAX {
            u32::MAX
        } else {
            t as u32
        },
    }
}

/// What the listed sets of a name and type say.
pub open spec fn observed_of(name: Seq<char>, t: RecordType, sets: Seq<ListedSet>) -> Option<
    ObservedView,
> {
    if sets.len() == 0 {
        None
    } else {
        let first = sets[0];
        let values = record::canonical_values(t, text::views(first.values@));
        Some(
            ObservedView {
                set: RecordSetView {
                    name,
                    record_type: t,
                    ttl: clamped_ttl(first.ttl),
                    values,
                    proxied: None,
                },
                unsupported: if sets.len() > 1 || first.has_identifier {
                    Some("record sets with routing policies are not supported"@)
                } else if first.is_alias {
                    Some("alias records are not supported"@)
                } else if values.len() != first.values@.len() {
                    Some("unparsable record values"@)
                } else {
                    None
                },
            },
        )
    }
}

/// What the listed sets of a name and type say.
pub fn observed(name: &str, record_type: RecordType, sets: &Vec<ListedSet>) -> (r: Option<Observed>)
    ensures
        (match r {
            Some(o) => Some(o@),
            None => None,
        }) == observed_of(name@, record_type, sets@),
{
    if sets.len() == 0 {
        return None;
    }
    let first: &ListedSet = &sets[0];
    let values: TextSet = normalized_values(record_type, &first.values);
    let unsupported: Option<String> = if sets.len() > 1 || first.has_identifier {
        Some("record sets with routing policies are not supported".to_owned())
    } else if first.is_alias {
        Some("alias records are not supported".to_owned())
    } else if values.len() != first.values.len() {
        Some("unparsable record values".to_owned())
    } else {
        None
    };
    let ttl: u32 = match first.ttl {
        None => 0,
        Some(t) => if t < 0 {
            0
        } else if t > 4_294_967_295 {
            4_294_967_295
        } else {
            t as u32
        },
    };
    let r: Observed = Observed {
        set: RecordSet { name: name.to_owned(), record_type, ttl, values, proxied: None },
        unsupported,
    };
    assert(r@ == observed_of(name@, record_type, sets@)->0);
    Some(r)
}

/// A value as the API takes it.
pub open spec fn value_for(t: RecordType, value: Seq<char>) -> Seq<char> {
    match t {
        RecordType::Txt => record::quoted_txt(value),
        RecordType::Cname => value + "."@,
        _ => value,
    }
}

/// A record set as the API takes it.
#[derive(Debug)]
pub struct BuiltSet {
    pub name: String,
    pub kind: &'static str,
    pub ttl: i64,
    pub values: Vec<String>,
}

/// A record set as the API takes it.
pub fn build_set(set: &RecordSet) -> (r: BuiltSet)
    ensures
        r.name@ == fqdn_of(set.name@),
        r.kind@ == record::record_type_name(set.record_type),
        r.ttl == set.ttl,
        text::views(r.values@) == set.values@.map_values(
            |v: Seq<char>| value_for(set.record_type, v),
        ),
{
    let ghost all = set.values@.map_values(|v: Seq<char>| value_for(set.record_type, v));
    let n: usize = set.values.len();
    let mut values: Vec<String> = Vec::new();
    let mut i: usize = 0;
    assert(text::views(values@) =~= all.take(0));
    while i < n
        invariant
            i <= n == set.values@.len() == all.len(),
            all == set.values@.map_values(|v: Seq<char>| value_for(set.record_type, v)),
            text::views(values@) == all.take(i as int),
        decreases n - i,
    {
        let ghost before = text::views(values@);
        let v: &String = set.values.item(i);
        let written: String = match set.record_type {
            RecordType::Txt => quote_txt(v.as_str()),
            RecordType::Cname => v.clone().concat("."),
            _ => v.clone(),
        };
        values.push(written);
        assert(text::views(values@) =~= before.push(all[i as int]));
        assert(all.take(i + 1) =~= all.take(i as int).push(all[i as int]));
        i += 1;
    }
    assert(all.take(i as int) =~= all);
    BuiltSet {
        name: fqdn(set.name.as_str()),
        kind: set.record_type.as_str(),
        ttl: set.ttl as i64,
        values,
    }
}

/// What a change asks of the API.
#[derive(Debug)]
pub enum Replacement {
    /// There is nothing to change.
    Nothing,
    /// One change batch: delete the listed set as it is, create the built one.
    Batch { delete: bool, create: Option<BuiltSet> },
}

/// Decides on a change from what was listed. The provider's exact record set is
/// deleted, since its textual forms may differ from the normalized values.
pub fn replacement(
    current: Option<&Observed>,
    expected: Option<&RecordSet>,
    desired: Option<&RecordSet>,
) -> (r: Result<Replacement, DnsError>)
    ensures
        match record::refusal(record::observed_view(current), record::ref_view(expected)) {
            Some(reason) => r is Err && r->Err_0@ == DnsErrorView::Conflict(reason),
            None => {
                &&& r is Ok
                &&& if expected is None && desired is None {
                    r->Ok_0 is Nothing
                } else {
                    &&& r->Ok_0 is Batch
                    &&& r->Ok_0->delete == (current is Some)
                    &&& (r->Ok_0->create is Some) == (desired is Some)
                    &&& desired is Some ==> {
                        let b = r->Ok_0->create->0;
                        let d = *desired->0;
                        &&& b.name@ == fqdn_of(d.name@)
                        &&& b.kind@ == record::record_type_name(d.record_type)
                        &&& b.ttl == d.ttl
                        &&& text::views(b.values@) == d.values@.map_values(
                            |v: Seq<char>| value_for(d.record_type, v),
                        )
                    }
                }
            },
        },
{
    if let Err(e) = check_expected(current, expected) {
        return Err(e);
    }
    if expected.is_none() && desired.is_none() {
        return Ok(Replacement::Nothing);
    }
    let create: Option<BuiltSet> = match desired {
        Some(d) => Some(build_set(d)),
        None => None,
    };
    Ok(Replacement::Batch { delete: current.is_some(), create })
}

/// The id of a submitted change.
pub fn change_id(id: &str) -> (r: String)
    ensures
        r@ == text::without_prefixes(id@, "/change/"@),
{
    drop_prefixes(id, "/change/")
}

/// A value in canonical form that a set is created with is read back as it was:
/// what is listed after a change has the desired data.
pub proof fn law_created_values_read_back(t: RecordType, raw: Seq<char>)
    requires
        record::canonical(t, raw) is Ok,
    ensures
        record::canonical(t, value_for(t, record::canonical(t, raw)->Ok_0)) == record::canonical(
            t,
            raw,
        ),
{
    let value = record::canonical(t, raw)->Ok_0;
    match t {
        RecordType::Txt => {
            record::law_txt_quoting_round_trips(value);
        },
        RecordType::Cname => {
            record::law_canonical_is_stable(t, raw);
            hostname::lemma_normal_form(text::trimmed(raw), true, true);
            assert(hostname::name_char(value[0]));
            assert(hostname::name_char(value.last()));
            hostname::law_trailing_dot_does_not_matter(value, true, true);
            reveal_strlit(".");
            assert(value + "."@ =~= value.push('.'));
            assert(text::trimmed(value.push('.')) == value.push('.'));
            assert(text::trimmed(value) == value);
        },
        _ => {
            record::law_canonical_is_stable(t, raw);
        },
    }
}

/// A name is sent with a dot at its end, and read back from there.
pub proof fn law_sent_names_are_read_back(
    name: &str,
    sent: String,
    sent_text: &str,
    back: String,
)
    requires
        call_ensures(fqdn, (name,), sent),
        sent_text@ == sent@,
        call_ensures(decode_name, (sent_text,), back),
        is_ascii_chars(name@),
        forall|i: int|
            0 <= i < name@.len() ==> (#[trigger] name@[i]) != '\\' && !('A' <= name@[i] <= 'Z'),
        name@.len() > 0 ==> name@.last() != '.',
    ensures
        back@ == name@,
        sent@.last() == '.',
        !name@.contains('*') ==> sent@ == name@.push('.'),
        !sent@.contains('*'),
{
    law_names_read_back(name@);
    reveal_strlit(".");
    reveal_strlit("\\052");
    assert("."@ =~= seq!['.']);
    lemma_no_stars(name@);
    assert(sent@ =~= octal_stars(name@).push('.'));
    assert forall|i: int| 0 <= i < sent@.len() implies sent@[i] != '*' by {
        if i < octal_stars(name@).len() {
            assert(sent@[i] == octal_stars(name@)[i]);
        }
    }
}

proof fn lemma_no_stars(s: Seq<char>)
    ensures
        forall|i: int| 0 <= i < octal_stars(s).len() ==> (#[trigger] octal_stars(s)[i]) != '*',
        !s.contains('*') ==> octal_stars(s) == s,
    decreases s.len(),
{
    reveal_strlit("\\052");
    if s.len() > 0 {
        let rest = s.skip(1);
        lemma_no_stars(rest);
        if !s.contains('*') {
            assert(s[0] != '*');
            assert forall|i: int| 0 <= i < rest.len() implies rest[i] != '*' by {
                assert(s[i + 1] == rest[i]);
            }
            assert(seq![s[0]] + rest =~= s);
        }
        let head = if s[0] == '*' {
            "\\052"@
        } else {
            seq![s[0]]
        };
        assert forall|i: int| 0 <= i < octal_stars(s).len() implies (#[trigger] octal_stars(s)[i])
            != '*' by {
            if i < head.len() {
                assert(octal_stars(s)[i] == head[i]);
            } else {
                assert(octal_stars(s)[i] == octal_stars(rest)[i - head.len()]);
            }
        }
    }
}

/// What the service refuses for its state is a conflict, what it puts off is a limit, what it
/// does not permit is an authentication error, and anything else is the provider's.
pub proof fn law_service_errors_are_told_apart(
    code: &str,
    message: &str,
    r: DnsError,
    timed_out: bool,
    detail: &str,
    c: DnsError,
)
    requires
        call_ensures(service_error, (code, message), r),
        call_ensures(client_error, (timed_out, detail), c),
    ensures
        r is Conflict == (code@ == "InvalidChangeBatch"@),
        r is RateLimited == (code@ == "PriorRequestNotComplete"@ || code@ == "Throttling"@ || code@
            == "ThrottlingException"@ || code@ == "RequestLimitExceeded"@),
        r is Auth == (code@ == "AccessDenied"@ || code@ == "AccessDeniedException"@ || code@
            == "InvalidClientTokenId"@ || code@ == "SignatureDoesNotMatch"@ || code@
            == "ExpiredToken"@ || code@ == "UnrecognizedClientException"@),
        r is Conflict || r is RateLimited || r is Auth || r is Provider,
        r matches DnsError::Conflict(m) ==> m@ == message@,
        timed_out == (c is Timeout),
        !timed_out ==> c is Auth || c is Provider,
        !timed_out && (c is Auth) ==> text::holds(detail@, "credentials"@),
        !timed_out && text::holds(detail@, "credentials"@) ==> c is Auth,
{
    reveal_strlit("InvalidChangeBatch");
    reveal_strlit("PriorRequestNotComplete");
    reveal_strlit("Throttling");
    reveal_strlit("ThrottlingException");
    reveal_strlit("RequestLimitExceeded");
    reveal_strlit("AccessDenied");
    reveal_strlit("AccessDeniedException");
    reveal_strlit("InvalidClientTokenId");
    reveal_strlit("SignatureDoesNotMatch");
    reveal_strlit("ExpiredToken");
    reveal_strlit("UnrecognizedClientException");
    assert("InvalidChangeBatch"@.len() == 18);
    assert("PriorRequestNotComplete"@.len() == 23);
    assert("Throttling"@.len() == 10);
    assert("ThrottlingException"@.len() == 19);
    assert("RequestLimitExceeded"@.len() == 20 && "RequestLimitExceeded"@[0] == 'R');
    assert("AccessDenied"@.len() == 12 && "AccessDenied"@[0] == 'A');
    assert("AccessDeniedException"@.len() == 21 && "AccessDeniedException"@[0] == 'A');
    assert("InvalidClientTokenId"@.len() == 20 && "InvalidClientTokenId"@[0] == 'I');
    assert("SignatureDoesNotMatch"@.len() == 21);
    assert("ExpiredToken"@.len() == 12);
    assert("UnrecognizedClientException"@.len() == 27);
    assert(r@ == service_error_of(code@, message@));
}

proof fn lemma_leading(sets: Seq<ListedSet>, name: Seq<char>, t: RecordType)
    ensures
        leading(sets, name, t) <= sets.len(),
        forall|i: int|
            0 <= i < leading(sets, name, t) ==> is_exact(#[trigger] sets[i], name, t),
        leading(sets, name, t) < sets.len() ==> !is_exact(
            sets[leading(sets, name, t) as int],
            name,
            t,
        ),
    decreases sets.len(),
{
    if sets.len() > 0 && is_exact(sets[0], name, t) {
        let rest = sets.skip(1);
        lemma_leading(rest, name, t);
        let n = leading(rest, name, t);
        assert forall|i: int| 0 <= i < leading(sets, name, t) implies is_exact(
            #[trigger] sets[i],
            name,
            t,
        ) by {
            if i > 0 {
                assert(rest[i - 1] == sets[i]);
            }
        }
        if n < rest.len() {
            assert(rest[n as int] == sets[n as int + 1]);
        }
    }
}

/// Of a page the sets at its beginning are taken that have the name and the type; the next page
/// is asked for only where all of them do and it goes on with the same.
pub proof fn law_pages_are_read_as_far_as_they_fit(
    found: &mut Vec<ListedSet>,
    page: ListedPage,
    name: &str,
    t: RecordType,
    r: Option<String>,
    i: int,
    listed: &str,
    decoded: String,
    kind: &'static str,
)
    requires
        call_ensures(take_page, (found, page, name, t), r),
        0 <= i < page.sets@.len() ==> listed@ == page.sets@[i].name@,
        call_ensures(decode_name, (listed,), decoded),
        call_ensures(RecordType::as_str, (t,), kind),
    ensures
        ({
            let taken = final(found)@.len() - old(found)@.len();
            &&& 0 <= taken <= page.sets@.len()
            &&& 0 <= i < old(found)@.len() ==> final(found)@[i] == old(found)@[i]
            &&& 0 <= i < taken ==> final(found)@[old(found)@.len() + i] == page.sets@[i]
                && decoded@ == name@ && page.sets@[i].kind@ == kind@
            &&& i == taken && taken < page.sets@.len() ==> decoded@ != name@ || page.sets@[i].kind@
                != kind@
            &&& r is Some ==> page.truncated && taken == page.sets@.len() && page.next_identifier
                is Some && r->0@ == page.next_identifier->0@ && page.next_kind is Some
                && page.next_kind->0@ == kind@
        }),
{
    lemma_leading(page.sets@, name@, t);
    let n = leading(page.sets@, name@, t) as int;
    assert(final(found)@.len() == old(found)@.len() + n);
    if 0 <= i < n {
        assert(is_exact(page.sets@[i], name@, t));
    }
    if i == n && n < page.sets@.len() {
        assert(!is_exact(page.sets@[n], name@, t));
    }
    if r is Some {
        assert(text::opt_view(r) == continues_at(page, name@, t));
    }
}

/// No listed set is no record; several sets, a set with an identifier and an alias cannot be
/// managed. What is seen of a set has the name and type asked for and its time to live.
pub proof fn law_listed_sets_are_observed(
    name: &str,
    t: RecordType,
    sets: Vec<ListedSet>,
    values: TextSet,
    r: Option<Observed>,
)
    requires
        call_ensures(observed, (name, t, &sets), r),
        sets@.len() > 0 ==> call_ensures(normalized_values, (t, &sets@[0].values), values),
    ensures
        r is Some == (sets@.len() > 0),
        r matches Some(o) ==> {
            &&& o.set.name@ == name@
            &&& o.set.record_type == t
            &&& o.set.values@ == values@
            &&& o.set.proxied is None
            &&& sets@[0].ttl matches Some(ttl) ==> (0 <= ttl <= u32::MAX ==> o.set.ttl == ttl)
            &&& sets@[0].ttl is None ==> o.set.ttl == 0
            &&& sets@.len() > 1 || sets@[0].has_identifier || sets@[0].is_alias ==> o.unsupported
                is Some
            &&& o.unsupported is None ==> values@.len() == sets@[0].values@.len()
            &&& sets@.len() == 1 && !sets@[0].has_identifier && !sets@[0].is_alias && values@.len()
                == sets@[0].values@.len() ==> o.unsupported is None
        },
{
    if r is Some {
        assert(r->0@.unsupported == text::opt_view(r->0.unsupported));
        assert(r->0@.set.values == r->0.set.values@);
    }
}

/// A set is sent under its full name, with its type and time to live and each of its values: a
/// text in quotes, a target with a dot at its end, an address as it is.
pub proof fn law_sets_are_sent_with_their_values(
    set: RecordSet,
    name: &str,
    full: String,
    i: int,
    value: &str,
    quoted: String,
    kind: &'static str,
    r: BuiltSet,
)
    requires
        call_ensures(build_set, (&set,), r),
        name@ == set.name@,
        call_ensures(fqdn, (name,), full),
        0 <= i < set.values@.len() ==> value@ == set.values@[i],
        call_ensures(quote_txt, (value,), quoted),
        call_ensures(RecordType::as_str, (set.record_type,), kind),
    ensures
        r.name@ == full@,
        r.kind@ == kind@,
        r.ttl == set.ttl,
        r.values@.len() == set.values@.len(),
        0 <= i < set.values@.len() ==> r.values@[i]@ == match set.record_type {
            RecordType::Txt => quoted@,
            RecordType::Cname => value@.push('.'),
            _ => value@,
        },
{
    reveal_strlit(".");
    assert("."@ =~= seq!['.']);
    let sent = text::views(r.values@);
    assert(sent.len() == r.values@.len());
    if 0 <= i < set.values@.len() {
        assert(sent[i] == r.values@[i]@);
        assert(value@ + "."@ =~= value@.push('.'));
    }
}

/// A replacement is a batch that takes out what is there and puts in what is desired, as it
/// would be sent; it is refused where the record is not what was expected.
pub proof fn law_replacements_are_one_batch(
    current: Option<&Observed>,
    expected: Option<&RecordSet>,
    desired: Option<&RecordSet>,
    allowed: Result<(), DnsError>,
    built: BuiltSet,
    r: Result<Replacement, DnsError>,
)
    requires
        call_ensures(replacement, (current, expected, desired), r),
        call_ensures(check_expected, (current, expected), allowed),
        desired is Some ==> call_ensures(build_set, (desired->0,), built),
    ensures
        r is Ok == allowed is Ok,
        r matches Err(e) ==> e is Conflict,
        r matches Ok(what) ==> (expected is None && desired is None) == (what is Nothing),
        r matches Ok(Replacement::Batch { delete, create }) ==> delete == (current is Some)
            && create is Some == (desired is Some) && (desired is Some ==> create->0.name@
            == built.name@ && create->0.kind@ == built.kind@ && create->0.ttl == built.ttl
            && text::views(create->0.values@) == text::views(built.values@)),
{
    if r is Err {
        assert(r->Err_0@ is Conflict);
    }
}

/// An id is the same with and without the path in front of it, and without white space around
/// it.
pub proof fn law_ids_have_no_path(
    id: Seq<char>,
    plain: &str,
    with_path: &str,
    zone: String,
    path_zone: String,
    change: &str,
    change_path: &str,
    c: String,
    d: String,
)
    requires
        id.len() > 0,
        forall|i: int| 0 <= i < id.len() ==> 'A' <= (#[trigger] id[i]) <= 'Z' || '0' <= id[i] <= '9',
        plain@ == id,
        with_path@ == "/hostedzone/"@ + id,
        call_ensures(normalize_zone_id, (plain,), zone),
        call_ensures(normalize_zone_id, (with_path,), path_zone),
        change@ == id,
        change_path@ == "/change/"@ + id,
        call_ensures(change_id, (change,), c),
        call_ensures(change_id, (change_path,), d),
    ensures
        zone@ == id,
        path_zone@ == id,
        c@ == id,
        d@ == id,
{
    reveal_strlit("/hostedzone/");
    reveal_strlit("hostedzone/");
    reveal_strlit("/change/");
    let long = "/hostedzone/"@;
    let short = "hostedzone/"@;
    let path = "/change/"@;
    assert(text::trim_start(id) == id);
    assert(text::trimmed(id) == id);
    assert(with_path@[0] == '/');
    assert(text::trim_start(with_path@) == with_path@);
    assert(with_path@.last() == id.last());
    assert(text::trimmed(with_path@) == with_path@);
    assert forall|p: Seq<char>| p.len() > 0 && !('A' <= p[0] <= 'Z' || '0' <= p[0] <= '9') implies
        text::without_prefixes(id, p) == id by {
        if text::starts_with(id, p) {
            assert(id.take(p.len() as int)[0] == id[0]);
        }
    }
    assert(long[0] == '/' && short[0] == 'h' && path[0] == '/');
    assert(with_path@.take(long.len() as int) =~= long);
    assert(with_path@.skip(long.len() as int) =~= id);
    assert(change_path@.take(path.len() as int) =~= path);
    assert(change_path@.skip(path.len() as int) =~= id);
    reveal_with_fuel(text::without_prefixes, 2);
}

} // verus!
