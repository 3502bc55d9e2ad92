//! Hostname normalization shared by routing, ownership checks, TLS and DNS.
//!
//! Every hostname that is used as a lookup key (registry, control plane,
//! certificate store, policy) goes through [`normalize_hostname`] first, so that
//! `Web.Example.com.` and `web.example.com` resolve to the same entry.

use vstd::prelude::*;
use vstd::string::*;
use vstd::utf8::*;
use crate::text;
use crate::text::{chars_of, contains_char, find_char, has_prefix, has_suffix, parse_unsigned, lower, quote, same_text, split_text, substring, trim};

verus! {

/// Longest name, in bytes.
pub const MAX_NAME_LEN: usize = 253;

/// Longest label, in bytes.
pub const MAX_LABEL_LEN: usize = 63;

/// Why a hostname or an authority was rejected.
#[derive(Debug, PartialEq, Eq)]
pub struct HostnameError {
    pub text: String,
}

impl HostnameError {
    /// The reason in words.
    pub fn message(&self) -> (r: String)
        ensures
            r@ == self.text@,
    {
        self.text.clone()
    }
}

/// The characters that may stand in a label, besides the lone `*`.
pub open spec fn label_char(c: char, underscore: bool) -> bool {
    text::is_alphanumeric(c) || c == '-' || (underscore && c == '_')
}

pub open spec fn label_chars(label: Seq<char>, underscore: bool) -> bool {
    forall|i: int| 0 <= i < label.len() ==> #[trigger] label_char(label[i], underscore)
}

/// What is wrong with the label at `index` of the name `name`, if anything.
pub open spec fn label_fault(
    name: Seq<char>,
    labels: Seq<Seq<char>>,
    index: int,
    wildcard: bool,
    underscore: bool,
) -> Option<Seq<char>> {
    let label = labels[index];
    if label.len() == 0 {
        Some("empty label in "@ + text::quoted(name))
    } else if label.len() > MAX_LABEL_LEN {
        Some("label longer than 63 bytes"@)
    } else if label == "*"@ {
        if wildcard && index == 0 && labels.len() > 1 {
            None
        } else {
            Some("wildcard not allowed in "@ + text::quoted(name))
        }
    } else if label[0] == '-' || label.last() == '-' {
        Some("label "@ + text::quoted(label) + " starts or ends with '-'"@)
    } else if !label_chars(label, underscore) {
        Some("invalid character in label "@ + text::quoted(label))
    } else {
        None
    }
}

/// The first fault among the labels from `from` on.
pub open spec fn first_fault(
    name: Seq<char>,
    labels: Seq<Seq<char>>,
    from: int,
    wildcard: bool,
    underscore: bool,
) -> Option<Seq<char>>
    decreases labels.len() - from,
{
    if from >= labels.len() {
        None
    } else {
        match label_fault(name, labels, from, wildcard, underscore) {
            Some(fault) => Some(fault),
            None => first_fault(name, labels, from + 1, wildcard, underscore),
        }
    }
}

/// `s` without one trailing dot.
pub open spec fn without_trailing_dot(s: Seq<char>) -> Seq<char> {
    if s.len() > 0 && s.last() == '.' {
        s.drop_last()
    } else {
        s
    }
}

/// The normal form of a name, or why it has none.
pub open spec fn normalized(input: Seq<char>, wildcard: bool, underscore: bool) -> Result<
    Seq<char>,
    Seq<char>,
> {
    let name = without_trailing_dot(text::trimmed(input));
    let lower = text::ascii_lower(name);
    if name.len() == 0 {
        Err("empty hostname"@)
    } else if encode_utf8(name).len() > MAX_NAME_LEN {
        Err("hostname longer than 253 bytes"@)
    } else if !is_ascii_chars(name) {
        Err("hostname must be ASCII (use punycode for IDN)"@)
    } else {
        match first_fault(lower, text::split(lower, '.'), 0, wildcard, underscore) {
            Some(fault) => Err(fault),
            None => Ok(lower),
        }
    }
}

/// Whether a returned text or error is what `expected` says.
pub open spec fn is_outcome(
    r: Result<String, HostnameError>,
    expected: Result<Seq<char>, Seq<char>>,
) -> bool {
    match r {
        Ok(name) => expected == Ok::<Seq<char>, Seq<char>>(name@),
        Err(e) => expected == Err::<Seq<char>, Seq<char>>(e.text@),
    }
}

fn err(text: &str) -> (r: HostnameError)
    ensures
        r.text@ == text@,
{
    HostnameError { text: text.to_owned() }
}

/// Normalize a hostname: trim, drop one trailing dot, ASCII-lowercase and
/// validate the label syntax. Non-ASCII names must be supplied as punycode.
pub fn normalize_hostname(input: &str) -> (r: Result<String, HostnameError>)
    ensures
        is_outcome(r, normalized(input@, false, false)),
{
    normalize(input, false, false)
}

/// Like [`normalize_hostname`] but additionally accepts a single leading `*`
/// label (e.g. `*.example.com`).
pub fn normalize_hostname_pattern(input: &str) -> (r: Result<String, HostnameError>)
    ensures
        is_outcome(r, normalized(input@, true, false)),
{
    normalize(input, true, false)
}

/// DNS owner names may contain underscores (e.g. `_acme-challenge.example.com`).
pub fn normalize_dns_name(input: &str) -> (r: Result<String, HostnameError>)
    ensures
        is_outcome(r, normalized(input@, true, true)),
{
    normalize(input, true, true)
}

fn valid_label_chars(label: &str, underscore: bool) -> (r: bool)
    ensures
        r == label_chars(label@, underscore),
{
    let v: Vec<char> = chars_of(label);
    let mut i: usize = 0;
    while i < v.len()
        invariant
            i <= v.len(),
            v@ == label@,
            forall|j: int| 0 <= j < i ==> #[trigger] label_char(label@[j], underscore),
        decreases v.len() - i,
    {
        let c: char = v[i];
        let ok: bool = ('0' <= c && c <= '9') || ('a' <= c && c <= 'z') || ('A' <= c && c <= 'Z') || c
            == '-' || (underscore && c == '_');
        if !ok {
            assert(!label_char(label@[i as int], underscore));
            return false;
        }
        i += 1;
    }
    true
}

fn check_label(
    name: &str,
    labels: &Vec<String>,
    index: usize,
    wildcard: bool,
    underscore: bool,
) -> (r: Option<HostnameError>)
    requires
        index < labels.len(),
    ensures
        match r {
            Some(e) => label_fault(name@, text::views(labels@), index as int, wildcard, underscore)
                == Some(e.text@),
            None => label_fault(
                name@,
                text::views(labels@),
                index as int,
                wildcard,
                underscore,
            ) is None,
        },
{
    let label: &str = labels[index].as_str();
    let v: Vec<char> = chars_of(label);
    if v.len() == 0 {
        return Some(HostnameError { text: "empty label in ".to_owned().concat(quote(name).as_str()) });
    }
    if v.len() > MAX_LABEL_LEN {
        return Some(err("label longer than 63 bytes"));
    }
    if same_text(label, "*") {
        if wildcard && index == 0 && labels.len() > 1 {
            return None;
        }
        return Some(
            HostnameError { text: "wildcard not allowed in ".to_owned().concat(quote(name).as_str()) },
        );
    }
    if v[0] == '-' || v[v.len() - 1] == '-' {
        let mut text: String = "label ".to_owned();
        text.append(quote(label).as_str());
        text.append(" starts or ends with '-'");
        return Some(HostnameError { text });
    }
    if !valid_label_chars(label, underscore) {
        return Some(
            HostnameError {
                text: "invalid character in label ".to_owned().concat(quote(label).as_str()),
            },
        );
    }
    None
}

fn normalize(input: &str, wildcard: bool, underscore: bool) -> (r: Result<String, HostnameError>)
    ensures
        is_outcome(r, normalized(input@, wildcard, underscore)),
{
    let trimmed_text: String = trim(input);
    let v: Vec<char> = chars_of(trimmed_text.as_str());
    let name: String = if v.len() > 0 && v[v.len() - 1] == '.' {
        assert(v@.subrange(0, v@.len() - 1) == v@.drop_last());
        substring(trimmed_text.as_str(), 0, v.len() - 1)
    } else {
        trimmed_text
    };
    if name.as_str().is_empty() {
        return Err(err("empty hostname"));
    }
    if name.as_str().as_bytes().len() > MAX_NAME_LEN {
        return Err(err("hostname longer than 253 bytes"));
    }
    if !name.as_str().is_ascii() {
        return Err(err("hostname must be ASCII (use punycode for IDN)"));
    }
    let lower_name: String = lower(name.as_str());
    let labels: Vec<String> = split_text(lower_name.as_str(), '.');
    let mut i: usize = 0;
    while i < labels.len()
        invariant
            i <= labels.len(),
            first_fault(lower_name@, text::views(labels@), 0, wildcard, underscore) == first_fault(
                lower_name@,
                text::views(labels@),
                i as int,
                wildcard,
                underscore,
            ),
        decreases labels.len() - i,
    {
        if let Some(e) = check_label(lower_name.as_str(), &labels, i, wildcard, underscore) {
            return Err(e);
        }
        i += 1;
    }
    Ok(lower_name)
}

/// The port of an authority: nothing, or a 16-bit number.
pub open spec fn authority_port(port: Seq<char>) -> Result<Option<nat>, Seq<char>> {
    if port.len() == 0 {
        Ok(None)
    } else {
        match text::parsed_unsigned(port, 65535) {
            Some(n) => Ok(Some(n)),
            None => Err("invalid port "@ + text::quoted(port)),
        }
    }
}

/// Host and port of an authority, or why it is rejected.
pub open spec fn authority_parts(a: Seq<char>) -> Result<(Seq<char>, Option<nat>), Seq<char>> {
    if a.contains('@') {
        Err("userinfo is not allowed in authority"@)
    } else if a.len() > 0 && a[0] == '[' {
        let rest = a.skip(1);
        match rest.index_of_first(']') {
            None => Err("unterminated IPv6 literal"@),
            Some(end) => {
                let after = rest.skip(end + 1);
                if after.len() == 0 {
                    Ok((rest.take(end), None))
                } else if after[0] == ':' {
                    match authority_port(after.skip(1)) {
                        Ok(port) => Ok((rest.take(end), port)),
                        Err(e) => Err(e),
                    }
                } else {
                    Err("unexpected data after IPv6 literal"@)
                }
            },
        }
    } else {
        match a.index_of_first(':') {
            None => Ok((a, None)),
            Some(i) => {
                if a.skip(i + 1).contains(':') {
                    Err("IPv6 literal must be bracketed"@)
                } else {
                    match authority_port(a.skip(i + 1)) {
                        Ok(port) => Ok((a.take(i), port)),
                        Err(e) => Err(e),
                    }
                }
            },
        }
    }
}

/// A 16-bit port as a number.
pub open spec fn port_view(port: Option<u16>) -> Option<nat> {
    match port {
        Some(p) => Some(p as nat),
        None => None,
    }
}

fn parse_port(port: &str) -> (r: Result<Option<u16>, HostnameError>)
    ensures
        match r {
            Ok(p) => authority_port(port@) == Ok::<Option<nat>, Seq<char>>(port_view(p)),
            Err(e) => authority_port(port@) == Err::<Option<nat>, Seq<char>>(e.text@),
        },
{
    if port.is_empty() {
        return Ok(None);
    }
    match parse_unsigned(port, 65535) {
        Some(n) => Ok(Some(n as u16)),
        None => Err(HostnameError { text: "invalid port ".to_owned().concat(quote(port).as_str()) }),
    }
}

/// Split an HTTP authority (`host`, `host:port`, `[v6]:port`) into its host and
/// optional port. User information (`user@host`) is rejected.
pub fn split_authority(authority: &str) -> (r: Result<(&str, Option<u16>), HostnameError>)
    ensures
        match r {
            Ok((host, port)) => authority_parts(authority@) == Ok::<
                (Seq<char>, Option<nat>),
                Seq<char>,
            >((host@, port_view(port))),
            Err(e) => authority_parts(authority@) == Err::<(Seq<char>, Option<nat>), Seq<char>>(
                e.text@,
            ),
        },
{
    let v: Vec<char> = chars_of(authority);
    let len: usize = v.len();
    if contains_char(authority, '@') {
        return Err(err("userinfo is not allowed in authority"));
    }
    if len > 0 && v[0] == '[' {
        let rest: &[char] = vstd::slice::slice_subrange(v.as_slice(), 1, len);
        assert(rest@ == v@.skip(1));
        let end: usize = match find_char(rest, ']') {
            Some(end) => end,
            None => {
                return Err(err("unterminated IPv6 literal"));
            },
        };
        let host: &str = authority.substring_char(1, end + 1);
        assert(host@ == rest@.take(end as int));
        let ghost after = rest@.skip(end + 1);
        assert(after == v@.skip(end + 2));
        if end + 2 == len {
            return Ok((host, None));
        }
        if v[end + 2] != ':' {
            return Err(err("unexpected data after IPv6 literal"));
        }
        let port: &str = authority.substring_char(end + 3, len);
        assert(port@ == after.skip(1));
        return match parse_port(port) {
            Ok(port) => Ok((host, port)),
            Err(e) => Err(e),
        };
    }
    match find_char(v.as_slice(), ':') {
        None => Ok((authority, None)),
        Some(i) => {
            let host: &str = authority.substring_char(0, i);
            assert(host@ == v@.take(i as int));
            let port: &str = authority.substring_char(i + 1, len);
            assert(port@ == v@.skip(i + 1));
            if contains_char(port, ':') {
                return Err(err("IPv6 literal must be bracketed"));
            }
            match parse_port(port) {
                Ok(port) => Ok((host, port)),
                Err(e) => Err(e),
            }
        },
    }
}

/// Whether a pattern covers a hostname: the two are equal, or the pattern is
/// `*.` followed by what comes after the hostname's first label.
pub open spec fn covers(pattern: Seq<char>, hostname: Seq<char>) -> bool {
    ||| pattern == hostname
    ||| {
        &&& text::starts_with(pattern, "*."@)
        &&& match hostname.index_of_first('.') {
            Some(i) => i > 0 && hostname.take(i) != "*"@ && hostname.skip(i + 1) == pattern.skip(2),
            None => false,
        }
    }
}

/// Whether a normalized `hostname` is covered by a normalized `pattern`
/// (exact match, or a single-label `*.` wildcard).
pub fn matches_pattern(pattern: &str, hostname: &str) -> (r: bool)
    ensures
        r == covers(pattern@, hostname@),
{
    if same_text(pattern, hostname) {
        return true;
    }
    if !has_prefix(pattern, "*.") {
        return false;
    }
    proof {
        reveal_strlit("*.");
    }
    let v: Vec<char> = chars_of(hostname);
    match find_char(v.as_slice(), '.') {
        None => false,
        Some(i) => {
            let first: &str = hostname.substring_char(0, i);
            let rest: &str = hostname.substring_char(i + 1, v.len());
            let suffix: &str = pattern.substring_char(2, pattern.unicode_len());
            assert(first@ == hostname@.take(i as int));
            assert(rest@ == hostname@.skip(i + 1));
            assert(suffix@ == pattern@.skip(2));
            i > 0 && !same_text(first, "*") && same_text(rest, suffix)
        },
    }
}

/// The wildcard that covers the hostname's siblings, if the hostname has at
/// least three labels.
pub open spec fn sibling_wildcard(hostname: Seq<char>) -> Option<Seq<char>> {
    match hostname.index_of_first('.') {
        Some(i) => if hostname.skip(i + 1).contains('.') {
            Some("*."@ + hostname.skip(i + 1))
        } else {
            None
        },
        None => None,
    }
}

/// The wildcard pattern that would cover `hostname` (`a.example.com` gives `*.example.com`).
pub fn wildcard_for(hostname: &str) -> (r: Option<String>)
    ensures
        text::opt_view(r) == sibling_wildcard(hostname@),
{
    let v: Vec<char> = chars_of(hostname);
    match find_char(v.as_slice(), '.') {
        None => None,
        Some(i) => {
            let rest: &str = hostname.substring_char(i + 1, v.len());
            assert(rest@ == hostname@.skip(i + 1));
            if contains_char(rest, '.') {
                Some("*.".to_owned().concat(rest))
            } else {
                None
            }
        },
    }
}

/// `name` without a leading `*.`.
pub open spec fn without_wildcard(name: Seq<char>) -> Seq<char> {
    if text::starts_with(name, "*."@) {
        name.skip(2)
    } else {
        name
    }
}

/// Whether a name, its wildcard taken off, equals `zone` or ends with a dot and `zone`.
pub open spec fn within_zone(name: Seq<char>, zone: Seq<char>) -> bool {
    let n = without_wildcard(name);
    ||| n == zone
    ||| text::ends_with(n, zone) && n.len() > zone.len() && n[n.len() - zone.len() - 1] == '.'
}

/// Whether a normalized `name` equals `zone` or is inside it.
pub fn is_within_zone(name: &str, zone: &str) -> (r: bool)
    ensures
        r == within_zone(name@, zone@),
{
    proof {
        reveal_strlit("*.");
    }
    let len: usize = name.unicode_len();
    let bare: &str = if has_prefix(name, "*.") {
        assert(name@.subrange(2, len as int) == name@.skip(2));
        name.substring_char(2, len)
    } else {
        name
    };
    if same_text(bare, zone) {
        return true;
    }
    if !has_suffix(bare, zone) {
        return false;
    }
    let zone_len: usize = zone.unicode_len();
    let v: Vec<char> = chars_of(bare);
    v.len() > zone_len && v[v.len() - zone_len - 1] == '.'
}

proof fn lemma_split_shape(s: Seq<char>, sep: char)
    ensures
        text::split(s, sep).len() >= 1,
        (text::split(s, sep).last().len() == 0) == (s.len() == 0 || s.last() == sep),
        forall|i: int|
            0 <= i < s.len() && s[i] != sep ==> exists|k: int|
                0 <= k < text::split(s, sep).len() && #[trigger] text::split(s, sep)[k].contains(
                    #[trigger] s[i],
                ),
    decreases s.len(),
{
    if s.len() > 0 {
        let front = s.drop_last();
        lemma_split_shape(front, sep);
        let before = text::split(front, sep);
        let all = text::split(s, sep);
        assert forall|i: int| 0 <= i < s.len() && s[i] != sep implies exists|k: int|
            0 <= k < all.len() && #[trigger] all[k].contains(s[i]) by {
            if i < front.len() {
                assert(front[i] == s[i]);
                let k = choose|k: int| 0 <= k < before.len() && #[trigger] before[k].contains(front[i]);
                if s.last() == sep || k < before.len() - 1 {
                    assert(all[k] == before[k]);
                } else {
                    let at = choose|at: int| 0 <= at < before[k].len() && before[k][at] == s[i];
                    assert(all[k] == before.last().push(s.last()));
                    assert(all[k][at] == s[i]);
                }
                assert(all[k].contains(s[i]));
            } else {
                let k = all.len() - 1;
                assert(all[k].last() == s[i]);
                assert(all[k].contains(s[i]));
            }
        }
    }
}

proof fn lemma_no_fault(
    name: Seq<char>,
    labels: Seq<Seq<char>>,
    from: int,
    k: int,
    wildcard: bool,
    underscore: bool,
)
    requires
        0 <= from <= k < labels.len(),
        first_fault(name, labels, from, wildcard, underscore) is None,
    ensures
        label_fault(name, labels, k, wildcard, underscore) is None,
    decreases k - from,
{
    if from < k {
        lemma_no_fault(name, labels, from + 1, k, wildcard, underscore);
    }
}

/// The characters of a normal form: those of labels, `*` and `.`.
pub open spec fn name_char(c: char) -> bool {
    label_char(c, true) || c == '*' || c == '.'
}

/// What every normal form is made of.
pub proof fn lemma_normal_form(input: Seq<char>, wildcard: bool, underscore: bool)
    requires
        normalized(input, wildcard, underscore) is Ok,
    ensures
        ({
            let n = normalized(input, wildcard, underscore)->Ok_0;
            &&& n.len() > 0
            &&& n.last() != '.'
            &&& is_ascii_chars(n)
            &&& encode_utf8(n).len() <= MAX_NAME_LEN
            &&& text::ascii_lower(n) == n
            &&& forall|i: int| 0 <= i < n.len() ==> #[trigger] name_char(n[i])
        }),
{
    let name = without_trailing_dot(text::trimmed(input));
    let n = text::ascii_lower(name);
    let labels = text::split(n, '.');
    lemma_split_shape(n, '.');
    is_ascii_chars_encode_utf8(name);
    assert(is_ascii_chars(n));
    is_ascii_chars_encode_utf8(n);
    lemma_no_fault(n, labels, 0, labels.len() - 1, wildcard, underscore);
    assert(text::ascii_lower(n) =~= n);
    assert forall|i: int| 0 <= i < n.len() implies #[trigger] name_char(n[i]) by {
        if n[i] != '.' {
            let k = choose|k: int| 0 <= k < labels.len() && #[trigger] labels[k].contains(n[i]);
            lemma_no_fault(n, labels, 0, k, wildcard, underscore);
            let at = choose|at: int| 0 <= at < labels[k].len() && labels[k][at] == n[i];
            reveal_strlit("*");
            if labels[k] == "*"@ {
                assert(labels[k][at] == '*');
            } else {
                assert(label_char(labels[k][at], underscore));
            }
        }
    }
}

/// A normal form is its own normal form: normalizing twice changes nothing.
pub proof fn law_normal_form_is_stable(input: Seq<char>, wildcard: bool, underscore: bool)
    requires
        normalized(input, wildcard, underscore) is Ok,
    ensures
        normalized(normalized(input, wildcard, underscore)->Ok_0, wildcard, underscore)
            == normalized(input, wildcard, underscore),
{
    lemma_normal_form(input, wildcard, underscore);
    let n = normalized(input, wildcard, underscore)->Ok_0;
    assert(name_char(n[0]));
    assert(name_char(n.last()));
    assert(text::trimmed(n) == n);
}

proof fn lemma_lower_trims(s: Seq<char>)
    ensures
        text::trim_start(text::ascii_lower(s)) == text::ascii_lower(text::trim_start(s)),
    decreases s.len(),
{
    let l = text::ascii_lower(s);
    if s.len() > 0 {
        assert(text::is_white_space(l[0]) == text::is_white_space(s[0]));
        assert(l.skip(1) =~= text::ascii_lower(s.skip(1)));
        lemma_lower_trims(s.skip(1));
    }
}

proof fn lemma_lower_trims_end(s: Seq<char>)
    ensures
        text::trim_end(text::ascii_lower(s)) == text::ascii_lower(text::trim_end(s)),
    decreases s.len(),
{
    let l = text::ascii_lower(s);
    if s.len() > 0 {
        assert(text::is_white_space(l.last()) == text::is_white_space(s.last()));
        assert(l.drop_last() =~= text::ascii_lower(s.drop_last()));
        lemma_lower_trims_end(s.drop_last());
    }
}

proof fn lemma_lower_keeps_length(s: Seq<char>)
    ensures
        encode_utf8(text::ascii_lower(s)).len() == encode_utf8(s).len(),
    decreases s.len(),
{
    let l = text::ascii_lower(s);
    if s.len() > 0 {
        assert(l.drop_first() =~= text::ascii_lower(s.drop_first()));
        lemma_lower_keeps_length(s.drop_first());
        assert(encode_scalar(l[0] as u32).len() == encode_scalar(s[0] as u32).len());
    }
}

/// Letter case does not matter: a name and its ASCII lower case have the same
/// normal form, or are rejected for the same reason.
pub proof fn law_case_does_not_matter(input: Seq<char>, wildcard: bool, underscore: bool)
    ensures
        normalized(text::ascii_lower(input), wildcard, underscore) == normalized(
            input,
            wildcard,
            underscore,
        ),
{
    lemma_lower_trims(input);
    lemma_lower_trims_end(text::trim_start(input));
    let t = text::trimmed(input);
    let name = without_trailing_dot(t);
    let other = without_trailing_dot(text::ascii_lower(t));
    if t.len() > 0 {
        assert(text::ascii_lower(t).last() == text::lower_char(t.last()));
    }
    assert(other =~= text::ascii_lower(name));
    lemma_lower_keeps_length(name);
    assert(text::ascii_lower(other) =~= text::ascii_lower(name));
    assert(is_ascii_chars(other) == is_ascii_chars(name)) by {
        if is_ascii_chars(other) {
            assert forall|i: int| 0 <= i < name.len() implies '\0' <= #[trigger] name[i] <= '\u{7f}' by {
                assert(other[i] == text::lower_char(name[i]));
            }
        }
        if is_ascii_chars(name) {
            assert forall|i: int| 0 <= i < other.len() implies '\0' <= #[trigger] other[i]
                <= '\u{7f}' by {
                assert(other[i] == text::lower_char(name[i]));
            }
        }
    }
}

proof fn lemma_trim_start_push(s: Seq<char>, c: char)
    requires
        s.len() > 0,
        !text::is_white_space(s.last()),
    ensures
        text::trim_start(s.push(c)) == text::trim_start(s).push(c),
        text::trim_start(s).len() > 0,
        text::trim_start(s).last() == s.last(),
    decreases s.len(),
{
    if text::is_white_space(s[0]) {
        assert(s.len() > 1);
        assert(s.push(c).skip(1) =~= s.skip(1).push(c));
        assert(s.skip(1).last() == s.last());
        lemma_trim_start_push(s.skip(1), c);
    }
}

/// One dot at the end does not matter.
pub proof fn law_trailing_dot_does_not_matter(input: Seq<char>, wildcard: bool, underscore: bool)
    requires
        input.len() > 0,
        input.last() != '.',
        !text::is_white_space(input.last()),
    ensures
        normalized(input.push('.'), wildcard, underscore) == normalized(input, wildcard, underscore),
{
    lemma_trim_start_push(input, '.');
    let t = text::trim_start(input);
    assert(t.push('.').drop_last() =~= t);
}

/// The wildcard made for a hostname covers that hostname, unless its first label
/// is empty or itself `*`.
pub proof fn law_sibling_wildcard_covers(hostname: Seq<char>)
    requires
        sibling_wildcard(hostname) is Some,
        hostname[0] != '.',
        !text::starts_with(hostname, "*."@),
    ensures
        covers(sibling_wildcard(hostname)->0, hostname),
{
    let w = sibling_wildcard(hostname)->0;
    hostname.index_of_first_ensures('.');
    let i = hostname.index_of_first('.')->0;
    reveal_strlit("*.");
    reveal_strlit("*");
    assert(w.take(2) =~= "*."@);
    assert(w.skip(2) =~= hostname.skip(i + 1));
    if hostname.take(i) == "*"@ {
        assert(hostname.take(i).len() == i);
        assert(hostname.take(i)[0] == '*');
        assert(hostname.take(2) =~= "*."@);
    }
}

/// A zone lies within itself.
pub proof fn law_zone_is_within_itself(zone: Seq<char>)
    requires
        !text::starts_with(zone, "*."@),
    ensures
        within_zone(zone, zone),
{
}

/// What is inside a zone is inside every zone around it.
pub proof fn law_zones_nest(name: Seq<char>, inner: Seq<char>, outer: Seq<char>)
    requires
        !text::starts_with(inner, "*."@),
        within_zone(name, inner),
        within_zone(inner, outer),
    ensures
        within_zone(name, outer),
{
    let n = without_wildcard(name);
    if n != inner && inner != outer {
        assert(n.skip(n.len() - outer.len()) =~= inner.skip(inner.len() - outer.len())) by {
            assert(n.skip(n.len() - inner.len()) == inner);
        }
        assert(inner[inner.len() - outer.len() - 1] == n[n.len() - outer.len() - 1]) by {
            assert(n.skip(n.len() - inner.len()) == inner);
        }
    }
}

/// A normal form has no white space around it.
pub proof fn lemma_normal_form_is_trimmed(input: Seq<char>, wildcard: bool, underscore: bool)
    requires
        normalized(input, wildcard, underscore) is Ok,
    ensures
        text::trimmed(normalized(input, wildcard, underscore)->Ok_0) == normalized(
            input,
            wildcard,
            underscore,
        )->Ok_0,
{
    lemma_normal_form(input, wildcard, underscore);
    let n = normalized(input, wildcard, underscore)->Ok_0;
    assert(name_char(n[0]));
    assert(name_char(n.last()));
}

/// Whether a text is a label in normal form: up to 63 lower-case letters, digits and
/// hyphens, with no hyphen at either end.
pub open spec fn is_plain_label(label: Seq<char>) -> bool {
    &&& 0 < label.len() <= 63
    &&& forall|i: int|
        0 <= i < label.len() ==> 'a' <= (#[trigger] label[i]) <= 'z' || '0' <= label[i] <= '9'
            || label[i] == '-'
    &&& label[0] != '-'
    &&& label.last() != '-'
}

/// Labels with a dot between each two.
pub open spec fn dotted(labels: Seq<Seq<char>>) -> Seq<char> {
    text::join(labels, seq!['.'])
}

proof fn lemma_plain_chars(labels: Seq<Seq<char>>)
    requires
        labels.len() > 0,
        forall|i: int| 0 <= i < labels.len() ==> is_plain_label(#[trigger] labels[i]),
    ensures
        dotted(labels).len() > 0,
        dotted(labels).last() != '.',
        forall|i: int|
            0 <= i < dotted(labels).len() ==> 'a' <= (#[trigger] dotted(labels)[i]) <= 'z' || '0'
                <= dotted(labels)[i] <= '9' || dotted(labels)[i] == '-' || dotted(labels)[i] == '.',
        dotted(labels)[0] == labels[0][0],
    decreases labels.len(),
{
    let last = labels[labels.len() - 1];
    assert(is_plain_label(last));
    if labels.len() > 1 {
        let front = labels.drop_last();
        assert forall|i: int| 0 <= i < front.len() implies is_plain_label(#[trigger] front[i]) by {
            assert(front[i] == labels[i]);
        }
        lemma_plain_chars(front);
        let before = dotted(front);
        let whole = dotted(labels);
        assert(whole == before + seq!['.'] + last);
        assert forall|i: int| 0 <= i < whole.len() implies 'a' <= (#[trigger] whole[i]) <= 'z' || '0'
            <= whole[i] <= '9' || whole[i] == '-' || whole[i] == '.' by {
            if i < before.len() {
                assert(whole[i] == before[i]);
            } else if i > before.len() {
                assert(whole[i] == last[i - before.len() - 1]);
            }
        }
        assert(whole[0] == before[0]);
        assert(whole.last() == last.last());
    }
}

proof fn lemma_faultless(
    name: Seq<char>,
    labels: Seq<Seq<char>>,
    from: int,
    wildcard: bool,
    underscore: bool,
)
    requires
        0 <= from <= labels.len(),
        forall|i: int|
            from <= i < labels.len() ==> label_fault(name, labels, i, wildcard, underscore) is None,
    ensures
        first_fault(name, labels, from, wildcard, underscore) is None,
    decreases labels.len() - from,
{
    if from < labels.len() {
        assert(label_fault(name, labels, from, wildcard, underscore) is None);
        lemma_faultless(name, labels, from + 1, wildcard, underscore);
    }
}

/// Every name of labels in normal form is accepted as it is, by each of the functions that
/// normalize names, as long as it has at most 253 characters.
pub proof fn law_plain_names_are_accepted(
    labels: Seq<Seq<char>>,
    input: &str,
    name: Result<String, HostnameError>,
    pattern: Result<String, HostnameError>,
    dns: Result<String, HostnameError>,
)
    requires
        labels.len() > 0,
        forall|i: int| 0 <= i < labels.len() ==> is_plain_label(#[trigger] labels[i]),
        input@ == dotted(labels),
        input@.len() <= 253,
        call_ensures(normalize_hostname, (input,), name),
        call_ensures(normalize_hostname_pattern, (input,), pattern),
        call_ensures(normalize_dns_name, (input,), dns),
    ensures
        name is Ok && name->Ok_0@ == input@,
        pattern is Ok && pattern->Ok_0@ == input@,
        dns is Ok && dns->Ok_0@ == input@,
{
    let s = input@;
    lemma_plain_chars(labels);
    assert(text::trim_start(s) == s);
    assert(text::trimmed(s) == s);
    assert(without_trailing_dot(s) == s);
    assert(is_ascii_chars(s));
    is_ascii_chars_encode_utf8(s);
    assert(text::ascii_lower(s) =~= s);
    assert forall|i: int| 0 <= i < labels.len() implies !(#[trigger] labels[i]).contains('.') by {
        assert(is_plain_label(labels[i]));
    }
    text::law_split_join(labels, '.');
    reveal_strlit("*");
    assert forall|w: bool, u: bool, i: int| 0 <= i < labels.len() implies #[trigger] label_fault(
        s,
        labels,
        i,
        w,
        u,
    ) is None by {
        let label = labels[i];
        assert(is_plain_label(label));
        if label == "*"@ {
            assert(label[0] == '*');
        }
        assert forall|j: int| 0 <= j < label.len() implies #[trigger] label_char(label[j], u) by {}
    }
    lemma_faultless(s, labels, 0, false, false);
    lemma_faultless(s, labels, 0, true, false);
    lemma_faultless(s, labels, 0, true, true);
}

/// Whether a text is a label that a name may have, with the extras that are allowed.
pub open spec fn is_allowed_label(label: Seq<char>, star: bool, underscore: bool) -> bool {
    ||| star && label == seq!['*']
    ||| {
        &&& 0 < label.len() <= 63
        &&& forall|i: int|
            0 <= i < label.len() ==> 'a' <= (#[trigger] label[i]) <= 'z' || '0' <= label[i] <= '9'
                || label[i] == '-' || (underscore && label[i] == '_')
        &&& label[0] != '-'
        &&& label.last() != '-'
    }
}

proof fn lemma_allowed(input: Seq<char>, wildcard: bool, underscore: bool, k: int)
    requires
        normalized(input, wildcard, underscore) is Ok,
        0 <= k < text::split(normalized(input, wildcard, underscore)->Ok_0, '.').len(),
    ensures
        is_allowed_label(
            text::split(normalized(input, wildcard, underscore)->Ok_0, '.')[k],
            wildcard && k == 0,
            underscore,
        ),
{
    let n = normalized(input, wildcard, underscore)->Ok_0;
    let labels = text::split(n, '.');
    lemma_normal_form(input, wildcard, underscore);
    lemma_no_fault(n, labels, 0, k, wildcard, underscore);
    let label = labels[k];
    reveal_strlit("*");
    assert("*"@ =~= seq!['*']);
    if label != "*"@ {
        assert forall|i: int| 0 <= i < label.len() implies 'a' <= (#[trigger] label[i]) <= 'z' || '0'
            <= label[i] <= '9' || label[i] == '-' || (underscore && label[i] == '_') by {
            assert(label_char(label[i], underscore));
            text::lemma_split_chars(n, '.', k, i);
            let at = choose|at: int| 0 <= at < n.len() && n[at] == label[i];
            assert(text::ascii_lower(n)[at] == n[at]);
        }
    }
}

/// A name that is accepted is the given one without white space around it and without a
/// dot at its end, in lower case. It has at most 253 characters, and each of its labels is
/// one that is allowed: a wildcard only where wildcards are, and only as the first label;
/// an underscore only in DNS names.
pub proof fn law_accepted_names_are_normal(
    input: &str,
    trimmed: String,
    name: Result<String, HostnameError>,
    pattern: Result<String, HostnameError>,
    dns: Result<String, HostnameError>,
    k: int,
)
    requires
        call_ensures(text::trim, (input,), trimmed),
        call_ensures(normalize_hostname, (input,), name),
        call_ensures(normalize_hostname_pattern, (input,), pattern),
        call_ensures(normalize_dns_name, (input,), dns),
    ensures
        name matches Ok(n) ==> {
            &&& 0 < n@.len() <= 253
            &&& text::same_letters(n@, trimmed@) || text::same_letters(n@.push('.'), trimmed@)
            &&& forall|i: int| 0 <= i < n@.len() ==> !('A' <= (#[trigger] n@[i]) <= 'Z')
            &&& 0 <= k < text::split(n@, '.').len() ==> is_allowed_label(
                text::split(n@, '.')[k],
                false,
                false,
            )
        },
        pattern matches Ok(n) ==> {
            &&& 0 < n@.len() <= 253
            &&& text::same_letters(n@, trimmed@) || text::same_letters(n@.push('.'), trimmed@)
            &&& 0 <= k < text::split(n@, '.').len() ==> is_allowed_label(
                text::split(n@, '.')[k],
                k == 0,
                false,
            )
        },
        dns matches Ok(n) ==> {
            &&& 0 < n@.len() <= 253
            &&& text::same_letters(n@, trimmed@) || text::same_letters(n@.push('.'), trimmed@)
            &&& 0 <= k < text::split(n@, '.').len() ==> is_allowed_label(
                text::split(n@, '.')[k],
                k == 0,
                true,
            )
        },
        name is Ok ==> pattern is Ok && pattern->Ok_0@ == name->Ok_0@,
        pattern is Ok ==> dns is Ok && dns->Ok_0@ == pattern->Ok_0@,
{
    let t = trimmed@;
    let bare = without_trailing_dot(t);
    let lower = text::ascii_lower(bare);
    let labels = text::split(lower, '.');
    assert forall|i: int| 0 <= i < bare.len() implies text::same_letter(#[trigger] lower[i], bare[i]) by {
        assert(lower[i] == text::lower_char(bare[i]));
    }
    assert(text::same_letters(lower, bare));
    if bare != t {
        assert(t =~= bare.push('.'));
        assert forall|i: int| 0 <= i < t.len() implies text::same_letter(
            #[trigger] lower.push('.')[i],
            t[i],
        ) by {
            if i < bare.len() {
                assert(text::same_letter(lower[i], bare[i]));
            }
        }
        assert(text::same_letters(lower.push('.'), t));
    }
    if is_ascii_chars(bare) {
        is_ascii_chars_encode_utf8(bare);
    }
    if name is Ok {
        lemma_more_is_allowed(lower, labels, 0, false, false, true, false);
        if 0 <= k < labels.len() {
            lemma_allowed(input@, false, false, k);
        }
    }
    if pattern is Ok {
        lemma_more_is_allowed(lower, labels, 0, true, false, true, true);
        if 0 <= k < labels.len() {
            lemma_allowed(input@, true, false, k);
        }
    }
    if dns is Ok && 0 <= k < labels.len() {
        lemma_allowed(input@, true, true, k);
    }
}

proof fn lemma_more_is_allowed(
    name: Seq<char>,
    labels: Seq<Seq<char>>,
    from: int,
    wildcard: bool,
    underscore: bool,
    more_wildcard: bool,
    more_underscore: bool,
)
    requires
        0 <= from,
        first_fault(name, labels, from, wildcard, underscore) is None,
        wildcard ==> more_wildcard,
        underscore ==> more_underscore,
    ensures
        first_fault(name, labels, from, more_wildcard, more_underscore) is None,
    decreases labels.len() - from,
{
    if from < labels.len() {
        let label = labels[from];
        assert forall|i: int| 0 <= i < label.len() && label_chars(label, underscore) implies
            #[trigger] label_char(label[i], more_underscore) by {
            assert(label_char(label[i], underscore));
        }
        lemma_more_is_allowed(
            name,
            labels,
            from + 1,
            wildcard,
            underscore,
            more_wildcard,
            more_underscore,
        );
    }
}

/// A pattern without a wildcard is for its own name only. One with a wildcard is for every
/// name with exactly one more label in its place, and for no other but itself.
pub proof fn law_wildcards_stand_for_one_label(
    pattern: &str,
    hostname: &str,
    r: bool,
    label: Seq<char>,
    rest: Seq<char>,
)
    requires
        call_ensures(matches_pattern, (pattern, hostname), r),
        hostname@ == label + seq!['.'] + rest,
        label.len() > 0,
        !label.contains('.'),
        label != seq!['*'],
    ensures
        r == (pattern@ == hostname@ || pattern@ == seq!['*', '.'] + rest),
{
    reveal_strlit("*.");
    reveal_strlit("*");
    assert("*"@ =~= seq!['*']);
    let h = hostname@;
    let n = label.len() as int;
    assert(h[n] == '.');
    assert(h.contains('.'));
    assert forall|j: int| 0 <= j < n implies h[j] != '.' by {
        assert(label[j] == h[j]);
        assert(label.contains(label[j]));
    }
    h.index_of_first_ensures('.');
    assert(h.index_of_first('.') == Some(n));
    assert(h.take(n) =~= label);
    assert(h.skip(n + 1) =~= rest);
    let p = pattern@;
    if text::starts_with(p, "*."@) {
        assert(p =~= seq!['*', '.'] + p.skip(2)) by {
            assert(p.take(2)[0] == '*' && p.take(2)[1] == '.');
        }
    }
    if p == seq!['*', '.'] + rest {
        assert(p.take(2) =~= "*."@);
        assert(p.skip(2) =~= rest);
    }
}

/// A name is within a zone if and only if it is the zone or ends with a dot and the zone;
/// a wildcard lies where the names lie that it stands for.
pub proof fn law_zones_hold_what_ends_with_them(
    name: &str,
    zone: &str,
    r: bool,
    bare: Seq<char>,
    front: Seq<char>,
)
    requires
        call_ensures(is_within_zone, (name, zone), r),
        name@ == bare || name@ == seq!['*', '.'] + bare,
        !(bare.len() >= 2 && bare[0] == '*' && bare[1] == '.'),
    ensures
        bare == zone@ ==> r,
        bare == front + seq!['.'] + zone@ ==> r,
        r ==> bare == zone@ || (bare.len() > zone@.len() && bare[bare.len() - zone@.len() - 1] == '.'
            && bare.skip(bare.len() - zone@.len()) == zone@),
{
    reveal_strlit("*.");
    let n = name@;
    if text::starts_with(n, "*."@) {
        assert(n.take(2)[0] == '*' && n.take(2)[1] == '.');
        assert(n[0] == '*' && n[1] == '.');
        assert(n.skip(2) =~= bare);
    } else {
        if n == seq!['*', '.'] + bare {
            assert(n.take(2) =~= "*."@);
        }
    }
    assert(without_wildcard(n) == bare);
    if bare == front + seq!['.'] + zone@ {
        assert(bare.skip(bare.len() - zone@.len()) =~= zone@);
        assert(bare[bare.len() - zone@.len() - 1] == '.');
    }
}

/// The wildcard for a name has a star for its first label, and there is one only where two
/// labels are left.
pub proof fn law_wildcard_takes_the_first_label(
    hostname: &str,
    r: Option<String>,
    label: Seq<char>,
    rest: Seq<char>,
)
    requires
        call_ensures(wildcard_for, (hostname,), r),
        hostname@ == label + seq!['.'] + rest,
        !label.contains('.'),
    ensures
        r is Some == rest.contains('.'),
        r is Some ==> r->0@ == seq!['*', '.'] + rest,
{
    reveal_strlit("*.");
    assert("*."@ =~= seq!['*', '.']);
    let h = hostname@;
    let n = label.len() as int;
    assert(h[n] == '.');
    assert forall|j: int| 0 <= j < n implies h[j] != '.' by {
        assert(label[j] == h[j]);
        assert(label.contains(label[j]));
    }
    h.index_of_first_ensures('.');
    assert(h.index_of_first('.') == Some(n));
    assert(h.skip(n + 1) =~= rest);
}

/// An authority is a host, or a host in brackets, with or without a port after a colon.
pub proof fn law_authorities_have_a_host_and_a_port(
    host: Seq<char>,
    port: u16,
    plain: &str,
    with_port: &str,
    bracketed: &str,
    bracketed_port: &str,
    a: Result<(&str, Option<u16>), HostnameError>,
    b: Result<(&str, Option<u16>), HostnameError>,
    c: Result<(&str, Option<u16>), HostnameError>,
    d: Result<(&str, Option<u16>), HostnameError>,
)
    requires
        !host.contains('@'),
        !host.contains(']'),
        !host.contains('['),
        plain@ == host,
        with_port@ == host + seq![':'] + text::decimal(port as nat),
        bracketed@ == seq!['['] + host + seq![']'],
        bracketed_port@ == seq!['['] + host + seq![']', ':'] + text::decimal(port as nat),
        call_ensures(split_authority, (plain,), a),
        call_ensures(split_authority, (with_port,), b),
        call_ensures(split_authority, (bracketed,), c),
        call_ensures(split_authority, (bracketed_port,), d),
    ensures
        !host.contains(':') ==> a is Ok && a->Ok_0.0@ == host && a->Ok_0.1 is None,
        !host.contains(':') ==> b is Ok && b->Ok_0.0@ == host && b->Ok_0.1 == Some(port),
        c is Ok && c->Ok_0.0@ == host && c->Ok_0.1 is None,
        d is Ok && d->Ok_0.0@ == host && d->Ok_0.1 == Some(port),
{
    let digits = text::decimal(port as nat);
    text::law_digits_read_back(port as nat, 10);
    text::lemma_digits_are_digits(port as nat, 10);
    assert forall|i: int| 0 <= i < digits.len() implies digits[i] != ':' && digits[i] != '@'
        && digits[i] != '+' by {
        assert(text::digit_value(digits[i], 16) is Some);
    }
    assert(authority_port(digits) == Ok::<Option<nat>, Seq<char>>(Some(port as nat)));
    if !host.contains(':') {
        lemma_first_at(host, seq![], ':');
        let w = with_port@;
        assert(!plain@.contains(':'));
        lemma_not_in(host, seq![':'] + digits, '@');
        assert(w =~= host + (seq![':'] + digits));
        lemma_first_at(host, digits, ':');
        assert(w =~= host + seq![':'] + digits);
        assert(w.skip(host.len() as int + 1) =~= digits);
        assert(w.take(host.len() as int) =~= host);
        if host.len() > 0 {
            assert(w[0] == host[0]);
            assert(host.contains(host[0]));
        }
        host.index_of_first_ensures(':');
    }
    let x = bracketed@;
    lemma_not_in(seq!['['] + host, seq![']'], '@');
    assert forall|i: int| 0 <= i < (seq!['['] + host).len() implies (seq!['['] + host)[i] != '@' by {
        if i > 0 {
            assert(host.contains(host[i - 1]));
        }
    }
    assert(x.skip(1) =~= host + seq![']'] + seq![]);
    lemma_first_at(host, seq![], ']');
    let rest = x.skip(1);
    assert(rest.skip(host.len() as int + 1) =~= Seq::<char>::empty());
    assert(rest.take(host.len() as int) =~= host);
    let y = bracketed_port@;
    assert(y =~= (seq!['['] + host) + (seq![']', ':'] + digits));
    lemma_not_in(seq!['['] + host, seq![']', ':'] + digits, '@');
    let tail = seq![':'] + digits;
    assert(y.skip(1) =~= host + seq![']'] + tail);
    lemma_first_at(host, tail, ']');
    assert(y.skip(1).skip(host.len() as int + 1) =~= tail);
    assert(y.skip(1).take(host.len() as int) =~= host);
    assert(tail.skip(1) =~= digits);
}

proof fn lemma_not_in(a: Seq<char>, b: Seq<char>, c: char)
    requires
        forall|i: int| 0 <= i < b.len() ==> b[i] != c,
        forall|i: int| 0 <= i < a.len() ==> a[i] != c,
    ensures
        !(a + b).contains(c),
{
}

proof fn lemma_first_at(a: Seq<char>, b: Seq<char>, c: char)
    requires
        !a.contains(c),
    ensures
        (a + seq![c] + b).index_of_first(c) == Some(a.len() as int),
{
    let s = a + seq![c] + b;
    assert(s[a.len() as int] == c);
    assert(s.contains(c));
    s.index_of_first_ensures(c);
    assert forall|j: int| 0 <= j < a.len() implies s[j] != c by {
        assert(a.contains(a[j]));
    }
}

/// An authority with user information is refused.
pub proof fn law_user_information_is_refused(
    authority: &str,
    r: Result<(&str, Option<u16>), HostnameError>,
)
    requires
        call_ensures(split_authority, (authority,), r),
        authority@.contains('@'),
    ensures
        r is Err,
{
}

} // verus!
