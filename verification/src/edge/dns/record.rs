//! Records: types, canonical values, and what a provider reports of them.

use vstd::prelude::*;
use vstd::string::*;
use vstd::utf8::*;
use crate::addr;
use crate::hostname;
use crate::order;
use crate::text;
use crate::text::{chars_of, join_text, quote, same_text, trim};
use crate::text_set;
use crate::text_set::TextSet;
use crate::time::Duration;

verus! {

#[derive(Debug, Clone, Copy, PartialEq, Eq, Hash, PartialOrd, Ord, Structural)]
pub enum RecordType {
    A,
    Aaaa,
    Cname,
    Txt,
}

/// The name of a record type.
pub open spec fn record_type_name(t: RecordType) -> Seq<char> {
    match t {
        RecordType::A => "A"@,
        RecordType::Aaaa => "AAAA"@,
        RecordType::Cname => "CNAME"@,
        RecordType::Txt => "TXT"@,
    }
}

/// Longest TXT value, in bytes.
pub const MAX_TXT_LEN: usize = 4000;

/// The control characters (Unicode general category `Cc`).
pub open spec fn is_control(c: char) -> bool {
    c <= '\u{1f}' || '\u{7f}' <= c <= '\u{9f}'
}

/// Canonical form of a record value, or why it is no value of the type.
pub open spec fn canonical(t: RecordType, raw: Seq<char>) -> Result<Seq<char>, Seq<char>> {
    let value = text::trimmed(raw);
    match t {
        RecordType::A => match addr::parsed_ipv4(value) {
            Some(n) => Ok(addr::ipv4_text(n)),
            None => Err("invalid IPv4 address "@ + text::quoted(value)),
        },
        RecordType::Aaaa => match addr::parsed_ipv6(value) {
            Some(n) => Ok(addr::ipv6_text(n)),
            None => Err("invalid IPv6 address "@ + text::quoted(value)),
        },
        RecordType::Cname => match hostname::normalized(value, true, true) {
            Ok(name) => Ok(name),
            Err(e) => Err("invalid CNAME target "@ + text::quoted(value) + ": "@ + e),
        },
        RecordType::Txt => {
            let content = unquoted_txt(value);
            if encode_utf8(content).len() > MAX_TXT_LEN || exists|i: int|
                0 <= i < content.len() && is_control(#[trigger] content[i]) {
                Err("TXT value must be printable and at most 4000 bytes"@)
            } else {
                Ok(content)
            }
        },
    }
}

fn has_control(s: &str) -> (r: bool)
    ensures
        r == exists|i: int| 0 <= i < s@.len() && is_control(#[trigger] s@[i]),
{
    let v: Vec<char> = chars_of(s);
    let mut i: usize = 0;
    while i < v.len()
        invariant
            i <= v.len(),
            v@ == s@,
            forall|j: int| 0 <= j < i ==> !is_control(#[trigger] s@[j]),
        decreases v.len() - i,
    {
        let c: char = v[i];
        if c <= '\u{1f}' || ('\u{7f}' <= c && c <= '\u{9f}') {
            assert(is_control(s@[i as int]));
            return true;
        }
        i += 1;
    }
    false
}

impl RecordType {
    pub fn as_str(self) -> (r: &'static str)
        ensures
            r@ == record_type_name(self),
    {
        match self {
            RecordType::A => "A",
            RecordType::Aaaa => "AAAA",
            RecordType::Cname => "CNAME",
            RecordType::Txt => "TXT",
        }
    }

    /// Canonical form of a record value, used for comparisons.
    pub fn normalize_value(self, value: &str) -> (r: Result<String, String>)
        ensures
            match r {
                Ok(v) => canonical(self, value@) == Ok::<Seq<char>, Seq<char>>(v@),
                Err(e) => canonical(self, value@) == Err::<Seq<char>, Seq<char>>(e@),
            },
    {
        let value: String = trim(value);
        match self {
            RecordType::A => match addr::parse_ipv4(value.as_str()) {
                Some(n) => Ok(addr::format_ipv4(n)),
                None => Err("invalid IPv4 address ".to_owned().concat(quote(value.as_str()).as_str())),
            },
            RecordType::Aaaa => match addr::parse_ipv6(value.as_str()) {
                Some(n) => Ok(addr::format_ipv6(n)),
                None => Err("invalid IPv6 address ".to_owned().concat(quote(value.as_str()).as_str())),
            },
            RecordType::Cname => match hostname::normalize_dns_name(value.as_str()) {
                Ok(name) => Ok(name),
                Err(e) => {
                    let mut m: String = "invalid CNAME target ".to_owned();
                    m.append(quote(value.as_str()).as_str());
                    m.append(": ");
                    m.append(e.text.as_str());
                    Err(m)
                },
            },
            RecordType::Txt => {
                let content: String = unquote_trimmed(value.as_str());
                if content.as_str().as_bytes().len() > MAX_TXT_LEN || has_control(content.as_str()) {
                    return Err("TXT value must be printable and at most 4000 bytes".to_owned());
                }
                Ok(content)
            },
        }
    }
}

/// What quoted strings hold: characters between quotes, with a backslash before
/// a character that stands for itself. What is outside of quotes is passed over.
pub open spec fn unquoted(s: Seq<char>, inside: bool) -> Seq<char>
    decreases s.len(),
{
    if s.len() == 0 {
        Seq::empty()
    } else if !inside {
        unquoted(s.skip(1), s[0] == '"')
    } else if s[0] == '\\' {
        if s.len() == 1 {
            Seq::empty()
        } else {
            seq![s[1]] + unquoted(s.skip(2), true)
        }
    } else if s[0] == '"' {
        unquoted(s.skip(1), false)
    } else {
        seq![s[0]] + unquoted(s.skip(1), true)
    }
}

/// The content of a TXT value without white space around it.
pub open spec fn unquoted_txt(s: Seq<char>) -> Seq<char> {
    if s.len() > 0 && s[0] == '"' {
        unquoted(s, false)
    } else {
        s
    }
}

fn unquote_trimmed(raw: &str) -> (r: String)
    ensures
        r@ == unquoted_txt(raw@),
{
    let v: Vec<char> = chars_of(raw);
    if v.len() == 0 || v[0] != '"' {
        return raw.to_owned();
    }
    let mut out: String = String::new();
    let mut inside: bool = false;
    let mut i: usize = 0;
    assert(v@.skip(0) =~= v@);
    assert(out@ + unquoted(v@, false) =~= unquoted(v@, false));
    while i < v.len()
        invariant
            i <= v.len(),
            unquoted(v@, false) == out@ + unquoted(v@.skip(i as int), inside),
        decreases v.len() - i,
    {
        let ghost rest = v@.skip(i as int);
        let ghost before = out@;
        let c: char = v[i];
        assert(rest[0] == c);
        assert(rest.skip(1) =~= v@.skip(i + 1));
        if !inside {
            inside = c == '"';
            i += 1;
        } else if c == '\\' {
            if i + 1 == v.len() {
                i += 1;
                assert(v@.skip(i as int) =~= Seq::<char>::empty());
            } else {
                out.push(v[i + 1]);
                assert(rest.skip(2) =~= v@.skip(i + 2));
                assert(rest[1] == v@[i + 1]);
                assert(before + (seq![v@[i + 1]] + unquoted(rest.skip(2), true)) =~= out@ + unquoted(
                    rest.skip(2),
                    true,
                ));
                i += 2;
            }
        } else if c == '"' {
            inside = false;
            i += 1;
        } else {
            out.push(c);
            assert(before + (seq![c] + unquoted(rest.skip(1), true)) =~= out@ + unquoted(
                rest.skip(1),
                true,
            ));
            i += 1;
        }
    }
    assert(v@.skip(i as int) =~= Seq::<char>::empty());
    assert(out@ + Seq::<char>::empty() =~= out@);
    out
}

/// Whether a TXT value is written as quoted strings, with or without white space
/// around them.
pub open spec fn is_quoted(raw: Seq<char>) -> bool {
    text::trimmed(raw).len() > 0 && text::trimmed(raw)[0] == '"'
}

/// What a TXT value stands for: what its quoted strings hold, or, where it is not
/// quoted, the value itself.
pub open spec fn decoded_txt(raw: Seq<char>) -> Seq<char> {
    if is_quoted(raw) {
        unquoted(text::trimmed(raw), false)
    } else {
        raw
    }
}

/// Decode a TXT value that may be written as one or more quoted strings
/// (`"abc" "def"` gives `abcdef`). Unquoted values are returned unchanged.
pub fn unquote_txt(raw: &str) -> (r: String)
    ensures
        r@ == decoded_txt(raw@),
{
    let trimmed: String = trim(raw);
    let v: Vec<char> = chars_of(trimmed.as_str());
    if v.len() > 0 && v[0] == '"' {
        unquote_trimmed(trimmed.as_str())
    } else {
        raw.to_owned()
    }
}

/// A text cut into pieces of at most 255 bytes: the finished ones, and the one
/// that the next character joins if it fits.
pub open spec fn cut(s: Seq<char>) -> (Seq<Seq<char>>, Seq<char>)
    decreases s.len(),
{
    if s.len() == 0 {
        (Seq::empty(), Seq::empty())
    } else {
        let (done, current) = cut(s.drop_last());
        if encode_utf8(current).len() + encode_scalar(s.last() as u32).len() > 255 {
            (done.push(current), seq![s.last()])
        } else {
            (done, current.push(s.last()))
        }
    }
}

/// The pieces of a text, each at most 255 bytes long; nothing makes one empty piece.
pub open spec fn pieces(s: Seq<char>) -> Seq<Seq<char>> {
    let (done, current) = cut(s);
    if current.len() > 0 || done.len() == 0 {
        done.push(current)
    } else {
        done
    }
}

/// A text with a backslash before each backslash and each quote.
pub open spec fn escaped(s: Seq<char>) -> Seq<char>
    decreases s.len(),
{
    if s.len() == 0 {
        Seq::empty()
    } else if s.last() == '\\' || s.last() == '"' {
        escaped(s.drop_last()) + seq!['\\', s.last()]
    } else {
        escaped(s.drop_last()).push(s.last())
    }
}

/// A piece as a quoted string.
pub open spec fn quoted_piece(s: Seq<char>) -> Seq<char> {
    seq!['"'] + escaped(s) + seq!['"']
}

/// A TXT value as quoted strings with blanks between them.
pub open spec fn quoted_txt(s: Seq<char>) -> Seq<char> {
    text::join(pieces(s).map_values(|p: Seq<char>| quoted_piece(p)), " "@)
}

fn utf8_len(c: char) -> (r: usize)
    ensures
        r == encode_scalar(c as u32).len(),
        1 <= r <= 4,
{
    if c <= '\u{7f}' {
        1
    } else if c <= '\u{7ff}' {
        2
    } else if c <= '\u{ffff}' {
        3
    } else {
        4
    }
}

proof fn lemma_encode_push(s: Seq<char>, c: char)
    ensures
        encode_utf8(s.push(c)).len() == encode_utf8(s).len() + encode_scalar(c as u32).len(),
    decreases s.len(),
{
    if s.len() == 0 {
        assert(s.push(c).drop_first() =~= Seq::<char>::empty());
        reveal_with_fuel(encode_utf8, 2);
    } else {
        assert(s.push(c).drop_first() =~= s.drop_first().push(c));
        assert(s.push(c)[0] == s[0]);
        lemma_encode_push(s.drop_first(), c);
    }
}

fn quote_piece(s: &str) -> (r: String)
    ensures
        r@ == quoted_piece(s@),
{
    let v: Vec<char> = chars_of(s);
    let mut r: String = String::new();
    r.push('"');
    assert(r@ =~= seq!['"'] + escaped(v@.take(0)));
    let mut i: usize = 0;
    while i < v.len()
        invariant
            i <= v.len(),
            r@ == seq!['"'] + escaped(v@.take(i as int)),
        decreases v.len() - i,
    {
        let ghost before = r@;
        let c: char = v[i];
        assert(v@.take(i + 1).drop_last() =~= v@.take(i as int));
        if c == '\\' || c == '"' {
            r.push('\\');
        }
        r.push(c);
        i += 1;
        assert(r@ =~= seq!['"'] + escaped(v@.take(i as int)));
    }
    assert(v@.take(i as int) =~= v@);
    let ghost before = r@;
    r.push('"');
    assert(r@ =~= before + seq!['"']);
    r
}

/// Encode a TXT value as quoted character strings of at most 255 bytes each.
pub fn quote_txt(value: &str) -> (r: String)
    ensures
        r@ == quoted_txt(value@),
{
    let v: Vec<char> = chars_of(value);
    let mut chunks: Vec<String> = Vec::new();
    let mut current: String = String::new();
    let mut size: usize = 0;
    let mut i: usize = 0;
    assert(text::views(chunks@) =~= Seq::<Seq<char>>::empty());
    while i < v.len()
        invariant
            i <= v.len(),
            cut(v@.take(i as int)) == (text::views(chunks@), current@),
            size == encode_utf8(current@).len(),
            size <= 255,
        decreases v.len() - i,
    {
        let c: char = v[i];
        let n: usize = utf8_len(c);
        let ghost before = text::views(chunks@);
        let ghost piece = current@;
        assert(v@.take(i + 1).drop_last() =~= v@.take(i as int));
        if size + n > 255 {
            chunks.push(current);
            assert(text::views(chunks@) =~= before.push(piece));
            current = String::new();
            size = 0;
        }
        proof {
            lemma_encode_push(current@, c);
        }
        current.push(c);
        size += n;
        i += 1;
        assert(seq![c] =~= Seq::<char>::empty().push(c));
    }
    assert(v@.take(i as int) =~= v@);
    let ghost before = text::views(chunks@);
    let ghost piece = current@;
    if !current.as_str().is_empty() || chunks.len() == 0 {
        chunks.push(current);
        assert(text::views(chunks@) =~= before.push(piece));
    }
    assert(text::views(chunks@) == pieces(value@));
    let ghost all = pieces(value@).map_values(|p: Seq<char>| quoted_piece(p));
    let mut parts: Vec<String> = Vec::new();
    let mut k: usize = 0;
    assert(text::views(parts@) =~= all.take(0));
    while k < chunks.len()
        invariant
            k <= chunks.len(),
            all.len() == chunks.len(),
            forall|j: int| 0 <= j < chunks.len() ==> all[j] == quoted_piece(#[trigger] chunks@[j]@),
            text::views(parts@) == all.take(k as int),
        decreases chunks.len() - k,
    {
        let ghost so_far = text::views(parts@);
        parts.push(quote_piece(chunks[k].as_str()));
        k += 1;
        assert(text::views(parts@) =~= so_far.push(all[k - 1]));
        assert(all.take(k as int) =~= all.take(k - 1).push(all[k - 1]));
    }
    assert(all.take(k as int) =~= all);
    join_text(&parts, " ")
}

/// All the pieces in a row.
pub open spec fn concat(parts: Seq<Seq<char>>) -> Seq<char>
    decreases parts.len(),
{
    if parts.len() == 0 {
        Seq::empty()
    } else {
        concat(parts.drop_last()) + parts.last()
    }
}

proof fn lemma_cut(s: Seq<char>)
    ensures
        concat(cut(s).0) + cut(s).1 == s,
    decreases s.len(),
{
    if s.len() > 0 {
        let (done, current) = cut(s.drop_last());
        lemma_cut(s.drop_last());
        assert(s =~= s.drop_last().push(s.last()));
        assert(done.push(current).drop_last() =~= done);
        assert(concat(done.push(current)) =~= concat(done) + current);
        assert(concat(cut(s).0) + cut(s).1 =~= s);
    } else {
        assert(concat(cut(s).0) + cut(s).1 =~= s);
    }
}

proof fn lemma_unquote_piece(s: Seq<char>, rest: Seq<char>)
    ensures
        unquoted(escaped(s) + seq!['"'] + rest, true) == s + unquoted(rest, false),
    decreases s.len(),
{
    // By the first character: what is escaped in front comes out in front.
    if s.len() == 0 {
        let t = escaped(s) + seq!['"'] + rest;
        assert(t[0] == '"');
        assert(t.skip(1) =~= rest);
        assert(s + unquoted(rest, false) =~= unquoted(rest, false));
    } else {
        let tail = s.skip(1);
        lemma_escaped_front(s);
        lemma_unquote_piece(tail, rest);
        let t = escaped(s) + seq!['"'] + rest;
        let u = escaped(tail) + seq!['"'] + rest;
        if s[0] == '\\' || s[0] == '"' {
            assert(t[0] == '\\');
            assert(t[1] == s[0]);
            assert(t.skip(2) =~= u);
        } else {
            assert(t[0] == s[0]);
            assert(t.skip(1) =~= u);
        }
        assert(seq![s[0]] + (tail + unquoted(rest, false)) =~= s + unquoted(rest, false));
    }
}

proof fn lemma_escaped_front(s: Seq<char>)
    requires
        s.len() > 0,
    ensures
        escaped(s) == (if s[0] == '\\' || s[0] == '"' {
            seq!['\\', s[0]]
        } else {
            seq![s[0]]
        }) + escaped(s.skip(1)),
    decreases s.len(),
{
    let front = if s[0] == '\\' || s[0] == '"' {
        seq!['\\', s[0]]
    } else {
        seq![s[0]]
    };
    if s.len() == 1 {
        assert(s.drop_last() =~= Seq::<char>::empty());
        assert(s.skip(1) =~= Seq::<char>::empty());
        assert(escaped(s) =~= front + escaped(s.skip(1)));
    } else {
        lemma_escaped_front(s.drop_last());
        assert(s.drop_last().skip(1) =~= s.skip(1).drop_last());
        assert(s.skip(1).last() == s.last());
        assert(escaped(s) =~= front + escaped(s.skip(1)));
    }
}

proof fn lemma_unquote_joined(parts: Seq<Seq<char>>, rest: Seq<char>)
    ensures
        unquoted(
            text::join(parts.map_values(|p: Seq<char>| quoted_piece(p)), " "@) + rest,
            false,
        ) == concat(parts) + unquoted(rest, false),
    decreases parts.len(),
{
    let q = parts.map_values(|p: Seq<char>| quoted_piece(p));
    reveal_strlit(" ");
    assert(" "@ =~= seq![' ']);
    if parts.len() == 0 {
        assert(text::join(q, " "@) + rest =~= rest);
        assert(concat(parts) + unquoted(rest, false) =~= unquoted(rest, false));
    } else {
        let last = parts.last();
        let inner = escaped(last) + seq!['"'] + rest;
        lemma_unquote_piece(last, rest);
        let whole = quoted_piece(last) + rest;
        assert(whole[0] == '"');
        assert(whole.skip(1) =~= inner);
        assert(unquoted(whole, false) == last + unquoted(rest, false));
        let front = parts.drop_last();
        assert(q.drop_last() =~= front.map_values(|p: Seq<char>| quoted_piece(p)));
        if parts.len() == 1 {
            assert(text::join(q, " "@) + rest =~= whole);
            assert(concat(front) =~= Seq::<char>::empty());
            assert(concat(parts) =~= last);
        } else {
            let more = seq![' '] + whole;
            assert(more.skip(1) =~= whole);
            assert(unquoted(more, false) == unquoted(whole, false));
            lemma_unquote_joined(front, more);
            assert(text::join(q, " "@) + rest =~= text::join(q.drop_last(), " "@) + more);
            assert(concat(front) + (last + unquoted(rest, false)) =~= concat(parts) + unquoted(
                rest,
                false,
            ));
        }
    }
}

/// A TXT value is read back from its quoted form.
pub proof fn law_txt_quoting_round_trips(s: Seq<char>)
    ensures
        decoded_txt(quoted_txt(s)) == s,
        unquoted_txt(text::trimmed(quoted_txt(s))) == s,
{
    let parts = pieces(s);
    let q = parts.map_values(|p: Seq<char>| quoted_piece(p));
    let t = quoted_txt(s);
    lemma_cut(s);
    let (done, current) = cut(s);
    assert(done.push(current).drop_last() =~= done);
    assert(concat(parts) =~= s);
    lemma_unquote_joined(parts, Seq::empty());
    assert(t + Seq::<char>::empty() =~= t);
    assert(concat(parts) + Seq::<char>::empty() =~= s);
    lemma_joined_ends(q);
    assert(text::trimmed(t) == t);
}

proof fn lemma_joined_ends(q: Seq<Seq<char>>)
    requires
        q.len() > 0,
        forall|i: int|
            0 <= i < q.len() ==> (#[trigger] q[i]).len() >= 2 && q[i][0] == '"' && q[i].last()
                == '"',
    ensures
        text::join(q, " "@).len() >= 2,
        text::join(q, " "@)[0] == '"',
        text::join(q, " "@).last() == '"',
    decreases q.len(),
{
    if q.len() == 1 {
        assert(q[0].len() >= 2);
    } else {
        let front = q.drop_last();
        assert forall|i: int| 0 <= i < front.len() implies (#[trigger] front[i]).len() >= 2
            && front[i][0] == '"' && front[i].last() == '"' by {
            assert(front[i] == q[i]);
        }
        lemma_joined_ends(front);
        assert(q[q.len() - 1].len() >= 2);
        let t = text::join(q, " "@);
        assert(t.last() == q.last().last());
    }
}

/// The canonical form of a value is its own canonical form, for addresses and names.
pub proof fn law_canonical_is_stable(t: RecordType, raw: Seq<char>)
    requires
        t != RecordType::Txt,
        canonical(t, raw) is Ok,
    ensures
        canonical(t, canonical(t, raw)->Ok_0) == canonical(t, raw),
{
    let value = text::trimmed(raw);
    match t {
        RecordType::A => {
            let n = addr::parsed_ipv4(value)->0;
            addr::lemma_ipv4_bound(value);
            addr::law_ipv4_reads_back(n);
            addr::lemma_text_is_trimmed(addr::IpAddr::V4(n as u32));
        },
        RecordType::Aaaa => {
            let n = addr::parsed_ipv6(value)->0;
            addr::lemma_ipv6_bound(value);
            addr::law_ipv6_reads_back(n);
            addr::lemma_text_is_trimmed(addr::IpAddr::V6(n as u128));
        },
        _ => {
            hostname::law_normal_form_is_stable(value, true, true);
            hostname::lemma_normal_form_is_trimmed(value, true, true);
        },
    }
}

/// The canonical forms of the values that have one, each once.
pub open spec fn canonical_values(t: RecordType, values: Seq<Seq<char>>) -> Seq<Seq<char>>
    decreases values.len(),
{
    if values.len() == 0 {
        Seq::empty()
    } else {
        let before = canonical_values(t, values.drop_last());
        match canonical(t, values.last()) {
            Ok(v) => text_set::inserted(before, v),
            Err(_) => before,
        }
    }
}

/// The texts among results, in ascending order, each once.
spec fn gathered(results: Seq<Result<Seq<char>, Seq<char>>>) -> Seq<Seq<char>>
    decreases results.len(),
{
    if results.len() == 0 {
        Seq::empty()
    } else {
        match results.last() {
            Ok(v) => text_set::inserted(gathered(results.drop_last()), v),
            Err(_) => gathered(results.drop_last()),
        }
    }
}

proof fn lemma_gathered(results: Seq<Result<Seq<char>, Seq<char>>>)
    ensures
        order::ascending(gathered(results)),
        gathered(results).len() <= results.len(),
        forall|i: int|
            0 <= i < results.len() && (#[trigger] results[i]) is Ok ==> gathered(results).contains(
                results[i]->Ok_0,
            ),
        gathered(results).len() == results.len() ==> forall|i: int|
            0 <= i < results.len() ==> (#[trigger] results[i]) is Ok,
        gathered(results).len() == results.len() ==> forall|i: int, j: int|
            0 <= i < j < results.len() ==> #[trigger] results[i] != #[trigger] results[j],
    decreases results.len(),
{
    if results.len() > 0 {
        let front = results.drop_last();
        let before = gathered(front);
        let all = gathered(results);
        lemma_gathered(front);
        match results.last() {
            Ok(v) => {
                text_set::lemma_inserted(before, v);
                text_set::lemma_inserted_len(before, v);
            },
            Err(_) => {},
        }
        assert forall|i: int| 0 <= i < results.len() && (#[trigger] results[i]) is Ok implies all.contains(
            results[i]->Ok_0,
        ) by {
            if i < front.len() {
                assert(front[i] == results[i]);
                assert(before.contains(front[i]->Ok_0));
            }
        }
        if all.len() == results.len() {
            assert forall|i: int| 0 <= i < results.len() implies (#[trigger] results[i]) is Ok by {
                if i < front.len() {
                    assert(front[i] == results[i]);
                }
            }
            assert forall|i: int, j: int| 0 <= i < j < results.len() implies #[trigger] results[i]
                != #[trigger] results[j] by {
                assert(front[i] == results[i]);
                if j < front.len() {
                    assert(front[j] == results[j]);
                }
            }
        }
    }
}

proof fn lemma_canonical_gathered(t: RecordType, values: Seq<Seq<char>>)
    ensures
        canonical_values(t, values) == gathered(values.map_values(|v: Seq<char>| canonical(t, v))),
    decreases values.len(),
{
    if values.len() > 0 {
        let all = values.map_values(|v: Seq<char>| canonical(t, v));
        lemma_canonical_gathered(t, values.drop_last());
        assert(all.drop_last() =~= values.drop_last().map_values(
            |v: Seq<char>| canonical(t, v),
        ));
    }
}

/// As many canonical forms as values: every value has one, and no two the same.
pub proof fn lemma_canonical_values(t: RecordType, values: Seq<Seq<char>>)
    requires
        canonical_values(t, values).len() == values.len(),
    ensures
        forall|i: int, j: int|
            0 <= i < j < values.len() ==> canonical(t, #[trigger] values[i]) != canonical(
                t,
                #[trigger] values[j],
            ),
{
    let all = values.map_values(|v: Seq<char>| canonical(t, v));
    lemma_canonical_gathered(t, values);
    lemma_gathered(all);
    assert forall|i: int, j: int| 0 <= i < j < values.len() implies canonical(
        t,
        #[trigger] values[i],
    ) != canonical(t, #[trigger] values[j]) by {
        assert(all[i] == canonical(t, values[i]));
        assert(all[j] == canonical(t, values[j]));
    }
}

/// All values for one (name, type), normalized.
#[derive(Debug, PartialEq, Eq)]
pub struct RecordSet {
    pub name: String,
    pub record_type: RecordType,
    pub ttl: u32,
    pub values: TextSet,
    /// Cloudflare proxy flag; `None` means "not specified"
    pub proxied: Option<bool>,
}

/// A [`RecordSet`] by the values that it holds.
#[verifier::ext_equal]
pub struct RecordSetView {
    pub name: Seq<char>,
    pub record_type: RecordType,
    pub ttl: u32,
    pub values: Seq<Seq<char>>,
    pub proxied: Option<bool>,
}

impl View for RecordSet {
    type V = RecordSetView;

    open spec fn view(&self) -> RecordSetView {
        RecordSetView {
            name: self.name@,
            record_type: self.record_type,
            ttl: self.ttl,
            values: self.values@,
            proxied: self.proxied,
        }
    }
}

impl Clone for RecordSet {
    fn clone(&self) -> (r: Self)
        ensures
            r@ == self@,
    {
        RecordSet {
            name: self.name.clone(),
            record_type: self.record_type,
            ttl: self.ttl,
            values: self.values.clone(),
            proxied: self.proxied,
        }
    }
}

/// Whether two record sets hold the same DNS data. The proxy flag is compared
/// only when both sides specify it.
pub open spec fn same_records(a: RecordSetView, b: RecordSetView) -> bool {
    &&& a.name == b.name
    &&& a.record_type == b.record_type
    &&& a.ttl == b.ttl
    &&& a.values == b.values
    &&& (a.proxied is Some && b.proxied is Some ==> a.proxied == b.proxied)
}

/// The same of two that may be missing.
pub open spec fn same_optional_records(a: Option<RecordSetView>, b: Option<RecordSetView>) -> bool {
    match (a, b) {
        (None, None) => true,
        (Some(a), Some(b)) => same_records(a, b),
        _ => false,
    }
}

/// An optional record set by the values that it holds.
pub open spec fn set_view(o: Option<RecordSet>) -> Option<RecordSetView> {
    match o {
        Some(s) => Some(s@),
        None => None,
    }
}

/// An optional reference to a record set by the values that it holds.
pub open spec fn ref_view(o: Option<&RecordSet>) -> Option<RecordSetView> {
    match o {
        Some(s) => Some(s@),
        None => None,
    }
}

/// A copy of an optional record set.
pub fn clone_set(o: &Option<RecordSet>) -> (r: Option<RecordSet>)
    ensures
        set_view(r) == set_view(*o),
{
    match o {
        Some(s) => Some(s.clone()),
        None => None,
    }
}

impl RecordSet {
    /// Same DNS data. `proxied` is compared only when both sides specify it.
    pub fn same_data(&self, other: &RecordSet) -> (r: bool)
        ensures
            r == same_records(self@, other@),
    {
        same_text(self.name.as_str(), other.name.as_str()) && self.record_type == other.record_type
            && self.ttl == other.ttl && self.values.same(&other.values) && match (
            self.proxied,
            other.proxied,
        ) {
            (Some(a), Some(b)) => a == b,
            _ => true,
        }
    }
}

pub fn same_optional(a: Option<&RecordSet>, b: Option<&RecordSet>) -> (r: bool)
    ensures
        r == same_optional_records(ref_view(a), ref_view(b)),
{
    match (a, b) {
        (None, None) => true,
        (Some(a), Some(b)) => a.same_data(b),
        _ => false,
    }
}

/// A record set as read from a provider.
#[derive(Debug, PartialEq, Eq)]
pub struct Observed {
    pub set: RecordSet,
    /// Set when the provider-side configuration cannot be managed (e.g. alias records)
    pub unsupported: Option<String>,
}

impl Clone for Observed {
    fn clone(&self) -> (r: Self)
        ensures
            r.set@ == self.set@,
            r.unsupported == self.unsupported,
    {
        Observed { set: self.set.clone(), unsupported: self.unsupported.clone() }
    }
}

#[derive(Debug, PartialEq, Eq)]
pub enum DnsError {
    Conflict(String),
    RateLimited { retry_after: Option<Duration> },
    Auth(String),
    Timeout,
    Unsupported(String),
    Provider(String),
}

/// A [`DnsError`] by the texts that it holds.
pub enum DnsErrorView {
    Conflict(Seq<char>),
    RateLimited(Option<Duration>),
    Auth(Seq<char>),
    Timeout,
    Unsupported(Seq<char>),
    Provider(Seq<char>),
}

impl View for DnsError {
    type V = DnsErrorView;

    open spec fn view(&self) -> DnsErrorView {
        match *self {
            DnsError::Conflict(s) => DnsErrorView::Conflict(s@),
            DnsError::RateLimited { retry_after } => DnsErrorView::RateLimited(retry_after),
            DnsError::Auth(s) => DnsErrorView::Auth(s@),
            DnsError::Timeout => DnsErrorView::Timeout,
            DnsError::Unsupported(s) => DnsErrorView::Unsupported(s@),
            DnsError::Provider(s) => DnsErrorView::Provider(s@),
        }
    }
}

/// The label of an error.
pub open spec fn error_label(e: DnsErrorView) -> Seq<char> {
    match e {
        DnsErrorView::Conflict(_) => "conflict"@,
        DnsErrorView::RateLimited(_) => "rate_limited"@,
        DnsErrorView::Auth(_) => "auth"@,
        DnsErrorView::Timeout => "timeout"@,
        DnsErrorView::Unsupported(_) => "unsupported"@,
        DnsErrorView::Provider(_) => "provider"@,
    }
}

/// An error in words.
pub open spec fn error_text(e: DnsErrorView) -> Seq<char> {
    match e {
        DnsErrorView::Conflict(s) => "conflict: "@ + s,
        DnsErrorView::RateLimited(_) => "rate limited by provider"@,
        DnsErrorView::Auth(s) => "authentication failed: "@ + s,
        DnsErrorView::Timeout => "provider request timed out"@,
        DnsErrorView::Unsupported(s) => "unsupported: "@ + s,
        DnsErrorView::Provider(s) => "provider error: "@ + s,
    }
}

impl DnsError {
    pub fn label(&self) -> (r: &'static str)
        ensures
            r@ == error_label(self@),
    {
        match self {
            DnsError::Conflict(_) => "conflict",
            DnsError::RateLimited { .. } => "rate_limited",
            DnsError::Auth(_) => "auth",
            DnsError::Timeout => "timeout",
            DnsError::Unsupported(_) => "unsupported",
            DnsError::Provider(_) => "provider",
        }
    }

    /// The error in words.
    pub fn message(&self) -> (r: String)
        ensures
            r@ == error_text(self@),
    {
        match self {
            DnsError::Conflict(s) => "conflict: ".to_owned().concat(s.as_str()),
            DnsError::RateLimited { .. } => "rate limited by provider".to_owned(),
            DnsError::Auth(s) => "authentication failed: ".to_owned().concat(s.as_str()),
            DnsError::Timeout => "provider request timed out".to_owned(),
            DnsError::Unsupported(s) => "unsupported: ".to_owned().concat(s.as_str()),
            DnsError::Provider(s) => "provider error: ".to_owned().concat(s.as_str()),
        }
    }
}

/// Identifies a submitted change whose propagation inside the provider can be tracked.
#[derive(Debug, PartialEq, Eq)]
pub enum ChangeTicket {
    /// Applied synchronously (Cloudflare)
    Immediate,
    /// Route 53 change id, pending until INSYNC
    Route53 { change_id: String },
}

impl Clone for ChangeTicket {
    fn clone(&self) -> (r: Self)
        ensures
            r == *self,
    {
        match self {
            ChangeTicket::Immediate => ChangeTicket::Immediate,
            ChangeTicket::Route53 { change_id } => ChangeTicket::Route53 {
                change_id: change_id.clone(),
            },
        }
    }
}

/// The provider APIs.
#[derive(Debug, Clone, Copy, PartialEq, Eq, Structural)]
pub enum Provider {
    Cloudflare,
    Route53,
    /// Keeps its records in memory.
    Memory,
}

impl Provider {
    pub fn kind(&self) -> (r: &'static str)
        ensures
            r@ == match *self {
                Provider::Cloudflare => "cloudflare"@,
                Provider::Route53 => "route53"@,
                Provider::Memory => "memory"@,
            },
    {
        match self {
            Provider::Cloudflare => "cloudflare",
            Provider::Route53 => "route53",
            Provider::Memory => "memory",
        }
    }

    /// Whether a submitted change is applied inside the provider: `Ok(None)`
    /// where it is for sure, `Ok` with the change id where the provider has to be
    /// asked. This does not mean recursive resolvers have picked it up.
    pub fn change_synced(&self, ticket: &ChangeTicket) -> (r: Result<Option<String>, DnsError>)
        ensures
            match *ticket {
                ChangeTicket::Immediate => r == Ok::<Option<String>, DnsError>(None),
                ChangeTicket::Route53 { change_id } => if *self == Provider::Cloudflare {
                    r is Err && r->Err_0@ == DnsErrorView::Unsupported(
                        "change ticket does not belong to this provider"@,
                    )
                } else {
                    r is Ok && r->Ok_0 is Some && r->Ok_0->0@ == change_id@
                },
            },
    {
        match ticket {
            ChangeTicket::Immediate => Ok(None),
            ChangeTicket::Route53 { change_id } => match self {
                Provider::Cloudflare => Err(
                    DnsError::Unsupported(
                        "change ticket does not belong to this provider".to_owned(),
                    ),
                ),
                _ => Ok(Some(change_id.clone())),
            },
        }
    }
}

/// What a provider reports of a record set, by its values.
#[verifier::ext_equal]
pub struct ObservedView {
    pub set: RecordSetView,
    pub unsupported: Option<Seq<char>>,
}

impl View for Observed {
    type V = ObservedView;

    open spec fn view(&self) -> ObservedView {
        ObservedView { set: self.set@, unsupported: text::opt_view(self.unsupported) }
    }
}

/// The record set of what is reported.
pub open spec fn reported_set(o: Option<ObservedView>) -> Option<RecordSetView> {
    match o {
        Some(o) => Some(o.set),
        None => None,
    }
}

/// Why a change is refused: the record set cannot be managed, or is not the one
/// that was expected.
pub open spec fn refusal(
    current: Option<ObservedView>,
    expected: Option<RecordSetView>,
) -> Option<Seq<char>> {
    if current is Some && current->0.unsupported is Some {
        current->0.unsupported
    } else if !same_optional_records(reported_set(current), expected) {
        Some("record set changed at the provider"@)
    } else {
        None
    }
}

/// What is reported, by its values.
pub open spec fn observed_view(o: Option<&Observed>) -> Option<ObservedView> {
    match o {
        Some(o) => Some(o@),
        None => None,
    }
}

/// Whether a change may be made from what the provider reports.
pub fn check_expected(current: Option<&Observed>, expected: Option<&RecordSet>) -> (r: Result<
    (),
    DnsError,
>)
    ensures
        match refusal(observed_view(current), ref_view(expected)) {
            None => r is Ok,
            Some(reason) => r is Err && r->Err_0@ == DnsErrorView::Conflict(reason),
        },
{
    match current {
        Some(o) => {
            if let Some(reason) = &o.unsupported {
                return Err(DnsError::Conflict(reason.clone()));
            }
            if !same_optional(Some(&o.set), expected) {
                return Err(DnsError::Conflict("record set changed at the provider".to_owned()));
            }
        },
        None => {
            if !same_optional(None, expected) {
                return Err(DnsError::Conflict("record set changed at the provider".to_owned()));
            }
        },
    }
    Ok(())
}

/// Whether two record sets have the same name, type, TTL and values, and do not differ
/// in a proxy setting that both of them have.
pub open spec fn agrees(a: RecordSet, b: RecordSet) -> bool {
    &&& a.name@ == b.name@
    &&& a.record_type == b.record_type
    &&& a.ttl == b.ttl
    &&& a.values@ == b.values@
    &&& a.proxied is None || b.proxied is None || a.proxied == b.proxied
}

/// Two record sets have the same data if and only if they agree in everything that a
/// provider can hold of them.
pub proof fn law_same_data_means_agreement(a: RecordSet, b: RecordSet, r: bool)
    requires
        call_ensures(RecordSet::same_data, (&a, &b), r),
    ensures
        r == agrees(a, b),
{
}

/// A change is made only on what was expected: nothing where nothing is reported, and a
/// set that agrees with the reported one where it can be managed.
pub proof fn law_change_needs_what_was_expected(
    current: Option<&Observed>,
    expected: Option<&RecordSet>,
    r: Result<(), DnsError>,
)
    requires
        call_ensures(check_expected, (current, expected), r),
    ensures
        (r is Ok) == match (current, expected) {
            (None, None) => true,
            (Some(c), Some(e)) => c.unsupported is None && agrees(c.set, *e),
            _ => false,
        },
        r is Err ==> r->Err_0 is Conflict,
{
}

/// A value is normalized as what its type says it is: an address is written the usual way, a
/// target is a name in normal form, and a text is printable and has at most 4000 bytes.
pub proof fn law_values_are_of_their_type(
    t: RecordType,
    raw: &str,
    trimmed: String,
    bare: &str,
    v4: Option<u32>,
    shown4: String,
    v6: Option<u128>,
    shown6: String,
    name: Result<String, hostname::HostnameError>,
    r: Result<String, String>,
)
    requires
        call_ensures(RecordType::normalize_value, (t, raw), r),
        call_ensures(text::trim, (raw,), trimmed),
        bare@ == trimmed@,
        call_ensures(addr::parse_ipv4, (bare,), v4),
        v4 is Some ==> call_ensures(addr::format_ipv4, (v4->0,), shown4),
        call_ensures(addr::parse_ipv6, (bare,), v6),
        v6 is Some ==> call_ensures(addr::format_ipv6, (v6->0,), shown6),
        call_ensures(hostname::normalize_dns_name, (bare,), name),
    ensures
        match t {
            RecordType::A => (r is Ok) == (v4 is Some) && (r is Ok ==> r->Ok_0@ == shown4@),
            RecordType::Aaaa => (r is Ok) == (v6 is Some) && (r is Ok ==> r->Ok_0@ == shown6@),
            RecordType::Cname => (r is Ok) == (name is Ok) && (r is Ok ==> r->Ok_0@
                == name->Ok_0@),
            RecordType::Txt => {
                &&& r matches Ok(v) ==> encode_utf8(v@).len() <= 4000 && (forall|i: int|
                    0 <= i < v@.len() ==> (#[trigger] v@[i]) >= ' ' && !('\u{7f}' <= v@[i]
                        <= '\u{9f}'))
                &&& !(bare@.len() > 0 && bare@[0] == '"') ==> (r is Ok ==> r->Ok_0@ == bare@) && (
                encode_utf8(bare@).len() <= 4000 && (forall|i: int|
                    0 <= i < bare@.len() ==> (#[trigger] bare@[i]) >= ' ' && !('\u{7f}' <= bare@[i]
                        <= '\u{9f}')) ==> r is Ok)
            },
        },
{
    if t == RecordType::Txt && r is Ok {
        let v = r->Ok_0@;
        assert forall|i: int| 0 <= i < v.len() implies (#[trigger] v[i]) >= ' ' && !('\u{7f}'
            <= v[i] <= '\u{9f}') by {
            assert(!is_control(v[i]));
        }
    }
}

/// A text that was quoted is read back as it was, and a text without quotes is taken as it is.
pub proof fn law_quoted_texts_are_read_back(
    value: &str,
    quoted: String,
    text_quoted: &str,
    back: String,
    plain: String,
    trimmed: String,
)
    requires
        call_ensures(quote_txt, (value,), quoted),
        text_quoted@ == quoted@,
        call_ensures(unquote_txt, (text_quoted,), back),
        call_ensures(unquote_txt, (value,), plain),
        call_ensures(text::trim, (value,), trimmed),
    ensures
        back@ == value@,
        !(trimmed@.len() > 0 && trimmed@[0] == '"') ==> plain@ == value@,
{
    law_txt_quoting_round_trips(value@);
}

/// The four types have four names.
pub proof fn law_record_types_are_told_apart(
    a: RecordType,
    b: RecordType,
    x: &'static str,
    y: &'static str,
)
    requires
        call_ensures(RecordType::as_str, (a,), x),
        call_ensures(RecordType::as_str, (b,), y),
    ensures
        x@ == y@ ==> a == b,
        a is A ==> x@ == seq!['A'],
        a is Aaaa ==> x@ == seq!['A', 'A', 'A', 'A'],
        a is Cname ==> x@ == seq!['C', 'N', 'A', 'M', 'E'],
        a is Txt ==> x@ == seq!['T', 'X', 'T'],
{
    reveal_strlit("A");
    reveal_strlit("AAAA");
    reveal_strlit("CNAME");
    reveal_strlit("TXT");
    assert("A"@ =~= seq!['A']);
    assert("AAAA"@ =~= seq!['A', 'A', 'A', 'A']);
    assert("CNAME"@ =~= seq!['C', 'N', 'A', 'M', 'E']);
    assert("TXT"@ =~= seq!['T', 'X', 'T']);
}

/// A change that was made at once is synced without asking; one that was submitted is asked
/// about by its own id, and only by a provider that submits changes.
pub proof fn law_submitted_changes_are_asked_about(
    provider: Provider,
    ticket: ChangeTicket,
    r: Result<Option<String>, DnsError>,
)
    requires
        call_ensures(Provider::change_synced, (&provider, &ticket), r),
    ensures
        ticket is Immediate ==> r is Ok && r->Ok_0 is None,
        ticket matches ChangeTicket::Route53 { change_id } ==> if provider is Cloudflare {
            r is Err && r->Err_0 is Unsupported
        } else {
            r is Ok && r->Ok_0 is Some && r->Ok_0->0@ == change_id@
        },
{
    if r is Err {
        assert(r->Err_0@ is Unsupported);
    }
}

/// Every kind of trouble is told as what it is, with what the provider said of it.
pub proof fn law_trouble_is_told(e: DnsError, r: String, p: Provider, k: &'static str)
    requires
        call_ensures(DnsError::message, (&e,), r),
        call_ensures(Provider::kind, (&p,), k),
    ensures
        r@ == match e {
            DnsError::Conflict(s) => "conflict: "@ + s@,
            DnsError::RateLimited { .. } => "rate limited by provider"@,
            DnsError::Auth(s) => "authentication failed: "@ + s@,
            DnsError::Timeout => "provider request timed out"@,
            DnsError::Unsupported(s) => "unsupported: "@ + s@,
            DnsError::Provider(s) => "provider error: "@ + s@,
        },
        p is Cloudflare == (k@ == "cloudflare"@),
        p is Route53 == (k@ == "route53"@),
        p is Memory == (k@ == "memory"@),
{
    reveal_strlit("cloudflare");
    reveal_strlit("route53");
    reveal_strlit("memory");
    assert("cloudflare"@.len() == 10);
    assert("route53"@.len() == 7);
    assert("memory"@.len() == 6);
}

} // verus!
