//! Who the Connector is, according to its own token.

use vstd::prelude::*;
use vstd::string::*;
use vstd::utf8::*;
use crate::text;
use crate::text::split_text;

verus! {

/// What a character of URL-safe base64 stands for.
pub open spec fn sextet(b: u8) -> Option<nat> {
    if 65 <= b <= 90 {
        Some((b - 65) as nat)
    } else if 97 <= b <= 122 {
        Some((b - 97 + 26) as nat)
    } else if 48 <= b <= 57 {
        Some((b - 48 + 52) as nat)
    } else if b == 45 {
        Some(62)
    } else if b == 95 {
        Some(63)
    } else {
        None
    }
}

/// The bytes that up to four characters of base64 stand for: one byte less than
/// there are characters.
pub open spec fn quantum(s: Seq<u8>) -> Option<Seq<u8>> {
    let known = forall|i: int| 0 <= i < s.len() ==> sextet(#[trigger] s[i]) is Some;
    let v = |i: int| sextet(s[i])->0;
    if !known {
        None
    } else if s.len() == 1 {
        Some(Seq::empty())
    } else if s.len() == 2 {
        Some(seq![(v(0) * 4 + v(1) / 16) as u8])
    } else if s.len() == 3 {
        Some(seq![(v(0) * 4 + v(1) / 16) as u8, (v(1) % 16 * 16 + v(2) / 4) as u8])
    } else {
        Some(
            seq![
                (v(0) * 4 + v(1) / 16) as u8,
                (v(1) % 16 * 16 + v(2) / 4) as u8,
                (v(2) % 4 * 64 + v(3)) as u8,
            ],
        )
    }
}

/// The bytes that a text in base64 without padding stands for.
pub open spec fn unpadded(s: Seq<u8>) -> Option<Seq<u8>>
    decreases s.len(),
{
    if s.len() == 0 {
        Some(Seq::empty())
    } else if s.len() <= 4 {
        quantum(s)
    } else {
        match (quantum(s.take(4)), unpadded(s.skip(4))) {
            (Some(a), Some(b)) => Some(a + b),
            _ => None,
        }
    }
}

/// The bytes that a text in URL-safe base64 stands for; padding is passed over.
pub open spec fn base64url(s: Seq<char>) -> Option<Seq<u8>> {
    unpadded(encode_utf8(s).filter(|b: u8| b != 61))
}

fn to_sextet(b: u8) -> (r: Option<u8>)
    ensures
        match r {
            Some(v) => sextet(b) == Some(v as nat) && v < 64,
            None => sextet(b) is None,
        },
{
    if 65 <= b && b <= 90 {
        Some(b - 65)
    } else if 97 <= b && b <= 122 {
        Some(b - 97 + 26)
    } else if 48 <= b && b <= 57 {
        Some(b - 48 + 52)
    } else if b == 45 {
        Some(62)
    } else if b == 95 {
        Some(63)
    } else {
        None
    }
}

fn decode_quantum(s: &[u8]) -> (r: Option<Vec<u8>>)
    requires
        1 <= s.len() <= 4,
    ensures
        match r {
            Some(v) => quantum(s@) == Some(v@),
            None => quantum(s@) is None,
        },
{
    let mut v: Vec<u8> = Vec::new();
    let mut i: usize = 0;
    while i < s.len()
        invariant
            i <= s.len() <= 4,
            v.len() == i,
            forall|j: int|
                0 <= j < i ==> sextet(#[trigger] s@[j]) == Some(v@[j] as nat) && v@[j] < 64,
        decreases s.len() - i,
    {
        match to_sextet(s[i]) {
            None => {
                assert(sextet(s@[i as int]) is None);
                return None;
            },
            Some(x) => v.push(x),
        }
        i += 1;
    }
    let mut out: Vec<u8> = Vec::new();
    assert(sextet(s@[0]) == Some(v@[0] as nat));
    if v.len() >= 2 {
        assert(sextet(s@[1]) == Some(v@[1] as nat));
        out.push(v[0] * 4 + v[1] / 16);
    }
    if v.len() >= 3 {
        assert(sextet(s@[2]) == Some(v@[2] as nat));
        out.push(v[1] % 16 * 16 + v[2] / 4);
    }
    if v.len() >= 4 {
        assert(sextet(s@[3]) == Some(v@[3] as nat));
        out.push(v[2] % 4 * 64 + v[3]);
    }
    assert(out@ =~= quantum(s@)->0);
    Some(out)
}

fn without_padding(input: &str) -> (r: Vec<u8>)
    ensures
        r@ == encode_utf8(input@).filter(|b: u8| b != 61),
{
    let bytes: &[u8] = input.as_bytes();
    let ghost keep = |b: u8| b != 61;
    let mut r: Vec<u8> = Vec::new();
    let mut i: usize = 0;
    proof {
        reveal(Seq::filter);
        assert(bytes@.take(0).filter(keep) =~= Seq::<u8>::empty());
    }
    while i < bytes.len()
        invariant
            i <= bytes.len(),
            r@ == bytes@.take(i as int).filter(keep),
            keep == (|b: u8| b != 61),
        decreases bytes.len() - i,
    {
        proof {
            reveal(Seq::filter);
            assert(bytes@.take(i + 1).drop_last() =~= bytes@.take(i as int));
        }
        if bytes[i] != 61 {
            r.push(bytes[i]);
        }
        i += 1;
    }
    assert(bytes@.take(i as int) =~= bytes@);
    r
}

/// Minimal URL-safe base64 decode (no padding required).
pub fn base64url_decode(input: &str) -> (r: Option<Vec<u8>>)
    ensures
        match r {
            Some(v) => base64url(input@) == Some(v@),
            None => base64url(input@) is None,
        },
{
    let bytes: Vec<u8> = without_padding(input);
    let ghost all = bytes@;
    let mut out: Vec<u8> = Vec::new();
    let mut i: usize = 0;
    assert(all.skip(0) =~= all);
    proof {
        if unpadded(all) is Some {
            assert(out@ + unpadded(all)->0 =~= unpadded(all)->0);
        }
    }
    while i < bytes.len()
        invariant
            i <= bytes.len(),
            bytes@ == all,
            unpadded(all) == match unpadded(all.skip(i as int)) {
                Some(rest) => Some(out@ + rest),
                None => None,
            },
        decreases bytes.len() - i,
    {
        let ghost rest = all.skip(i as int);
        let end: usize = if bytes.len() - i <= 4 {
            bytes.len()
        } else {
            i + 4
        };
        let part: &[u8] = vstd::slice::slice_subrange(bytes.as_slice(), i, end);
        proof {
            if rest.len() <= 4 {
                assert(part@ =~= rest);
            } else {
                assert(part@ =~= rest.take(4));
            }
            assert(rest.skip(4) =~= all.skip(i + 4) || rest.len() <= 4);
        }
        match decode_quantum(part) {
            None => {
                return None;
            },
            Some(mut more) => {
                let ghost before = out@;
                let ghost added = more@;
                out.append(&mut more);
                proof {
                    let next = all.skip(end as int);
                    if rest.len() <= 4 {
                        assert(next =~= Seq::<u8>::empty());
                        assert(before + added + Seq::<u8>::empty() =~= before + added);
                        assert(unpadded(all) == Some(before + added));
                    } else {
                        assert(next =~= rest.skip(4));
                        if unpadded(next) is Some {
                            assert(before + (added + unpadded(next)->0) =~= before + added
                                + unpadded(next)->0);
                        }
                    }
                }
            },
        }
        i = end;
    }
    assert(all.skip(i as int) =~= Seq::<u8>::empty());
    assert(out@ + Seq::<u8>::empty() =~= out@);
    Some(out)
}

/// The text that a member of a JSON object holds: `None` where the bytes are no
/// JSON, no object, or have no such member with a text.
pub uninterp spec fn json_text(bytes: Seq<u8>, member: Seq<char>) -> Option<Seq<char>>;

/// `serde_json::from_slice` into a `Value`, and the text that one of its members holds.
#[verifier::external_body]
fn read_json_text(bytes: &[u8], member: &str) -> (r: Option<String>)
    ensures
        text::opt_view(r) == json_text(bytes@, member@),
{
    let value: serde_json::Value = serde_json::from_slice(bytes).ok()?;
    value[member].as_str().map(String::from)
}

/// The `sub` claim in a token's second part.
pub open spec fn token_sub(token: Seq<char>) -> Option<Seq<char>> {
    let parts = text::split(token, '.');
    if parts.len() < 2 {
        None
    } else {
        match base64url(parts[1]) {
            Some(bytes) => json_text(bytes, "sub"@),
            None => None,
        }
    }
}

/// Decode the `sub` claim from a JWT payload without verifying the signature.
/// Used only for logging: not a security boundary.
pub fn extract_jwt_sub(token: &str) -> (r: Option<String>)
    ensures
        text::opt_view(r) == token_sub(token@),
{
    let parts: Vec<String> = split_text(token, '.');
    assert(parts.len() == text::split(token@, '.').len());
    if parts.len() < 2 {
        return None;
    }
    assert(text::views(parts@)[1] == parts@[1]@);
    match base64url_decode(parts[1].as_str()) {
        Some(bytes) => read_json_text(bytes.as_slice(), "sub"),
        None => None,
    }
}

/// What a character of base64url stands for; negative for any other.
pub open spec fn base64_value(c: char) -> int {
    if 'A' <= c <= 'Z' {
        c as int - 65
    } else if 'a' <= c <= 'z' {
        c as int - 71
    } else if '0' <= c <= '9' {
        c as int + 4
    } else if c == '-' {
        62
    } else if c == '_' {
        63
    } else {
        -1
    }
}

proof fn lemma_base64_value(c: char)
    requires
        '\0' <= c <= '\u{7f}',
    ensures
        sextet(c as u8) is Some == (base64_value(c) >= 0),
        sextet(c as u8) matches Some(v) ==> v == base64_value(c),
{
}

/// Four characters more at the beginning are three bytes more, and a character that is none of
/// base64url makes the whole unreadable.
pub proof fn law_four_characters_are_three_bytes(
    four: Seq<char>,
    rest: Seq<char>,
    whole: &str,
    later: &str,
    r: Option<Vec<u8>>,
    tail: Option<Vec<u8>>,
)
    requires
        four.len() == 4,
        forall|i: int|
            0 <= i < (four + rest).len() ==> '\0' <= (#[trigger] (four + rest)[i]) <= '\u{7f}',
        !(four + rest).contains('='),
        rest.len() > 0,
        whole@ == four + rest,
        later@ == rest,
        call_ensures(base64url_decode, (whole,), r),
        call_ensures(base64url_decode, (later,), tail),
    ensures
        r is Some == (base64_value(four[0]) >= 0 && base64_value(four[1]) >= 0 && base64_value(
            four[2],
        ) >= 0 && base64_value(four[3]) >= 0 && tail is Some),
        r is Some ==> {
            &&& r->0@.len() == 3 + tail->0@.len()
            &&& r->0@.skip(3) == tail->0@
            &&& r->0@[0] * 0x10000 + r->0@[1] * 0x100 + r->0@[2] == base64_value(four[0]) * 0x40000
                + base64_value(four[1]) * 0x1000 + base64_value(four[2]) * 0x40 + base64_value(
                four[3],
            )
        },
{
    let s = four + rest;
    assert forall|i: int| 0 <= i < s.len() implies is_ascii_char(#[trigger] s[i]) by {}
    lemma_plain_bytes(s);
    assert forall|i: int| 0 <= i < rest.len() implies is_ascii_char(#[trigger] rest[i]) && rest[i]
        != '=' by {
        assert(s[4 + i] == rest[i]);
        assert(s.contains(s[4 + i]));
    }
    lemma_plain_bytes(rest);
    let bytes = encode_utf8(s);
    assert(bytes.skip(4) =~= encode_utf8(rest)) by {
        assert forall|i: int| 0 <= i < rest.len() implies bytes.skip(4)[i]
            == #[trigger] encode_utf8(rest)[i] by {
            assert(s[4 + i] == rest[i]);
            assert(bytes[4 + i] == s[4 + i] as u8);
        }
    }
    let q = bytes.take(4);
    assert(s[0] == four[0] && s[1] == four[1] && s[2] == four[2] && s[3] == four[3]);
    assert(q[0] == four[0] as u8 && q[1] == four[1] as u8 && q[2] == four[2] as u8 && q[3]
        == four[3] as u8);
    lemma_quantum(q);
    lemma_base64_value(four[0]);
    lemma_base64_value(four[1]);
    lemma_base64_value(four[2]);
    lemma_base64_value(four[3]);
    lemma_unpadded(bytes, r, tail);
}

proof fn lemma_unpadded(bytes: Seq<u8>, r: Option<Vec<u8>>, tail: Option<Vec<u8>>)
    requires
        bytes.len() > 4,
        match r {
            Some(v) => unpadded(bytes) == Some(v@),
            None => unpadded(bytes) is None,
        },
        match tail {
            Some(v) => unpadded(bytes.skip(4)) == Some(v@),
            None => unpadded(bytes.skip(4)) is None,
        },
    ensures
        r is Some == (quantum(bytes.take(4)) is Some && tail is Some),
        r is Some ==> r->0@.len() == 3 + tail->0@.len() && r->0@.skip(3) == tail->0@ && r->0@[0]
            == quantum(bytes.take(4))->0[0] && r->0@[1] == quantum(bytes.take(4))->0[1] && r->0@[2]
            == quantum(bytes.take(4))->0[2],
{
    if r is Some {
        let three = quantum(bytes.take(4))->0;
        assert(bytes.take(4).len() == 4);
        assert(three.len() == 3);
        assert(r->0@ == three + tail->0@);
        assert(r->0@.skip(3) =~= tail->0@);
    }
}

/// Whether a character is one of ASCII.
spec fn is_ascii_char(c: char) -> bool {
    '\0' <= c <= '\u{7f}'
}

proof fn lemma_plain_bytes(s: Seq<char>)
    requires
        forall|i: int| 0 <= i < s.len() ==> is_ascii_char(#[trigger] s[i]),
        !s.contains('='),
    ensures
        encode_utf8(s).len() == s.len(),
        forall|i: int| 0 <= i < s.len() ==> (#[trigger] encode_utf8(s)[i]) == s[i] as u8,
        encode_utf8(s).filter(|b: u8| b != 61) == encode_utf8(s),
{
    assert(is_ascii_chars(s)) by {
        assert forall|i: int| 0 <= i < s.len() implies '\0' <= #[trigger] s[i] <= '\u{7f}' by {
            assert(is_ascii_char(s[i]));
        }
    }
    is_ascii_chars_encode_utf8(s);
    let keep = |b: u8| b != 61;
    let bytes = encode_utf8(s);
    assert forall|i: int| 0 <= i < bytes.len() implies keep(#[trigger] bytes[i]) by {
        assert(bytes[i] == s[i] as u8);
        assert(s.contains(s[i]));
    }
    lemma_filter_keeps(bytes, keep);
}

proof fn lemma_quantum(q: Seq<u8>)
    requires
        q.len() == 4,
    ensures
        quantum(q) is Some == (sextet(q[0]) is Some && sextet(q[1]) is Some && sextet(q[2]) is Some
            && sextet(q[3]) is Some),
        quantum(q) matches Some(b) ==> b.len() == 3 && b[0] * 0x10000 + b[1] * 0x100 + b[2]
            == sextet(q[0])->0 * 0x40000 + sextet(q[1])->0 * 0x1000 + sextet(q[2])->0 * 0x40
            + sextet(q[3])->0,
{
    let known = forall|i: int| 0 <= i < q.len() ==> sextet(#[trigger] q[i]) is Some;
    if sextet(q[0]) is Some && sextet(q[1]) is Some && sextet(q[2]) is Some && sextet(q[3])
        is Some {
        assert forall|i: int| 0 <= i < q.len() implies sextet(#[trigger] q[i]) is Some by {
            assert(i == 0 || i == 1 || i == 2 || i == 3);
        }
        assert(known);
    } else {
        assert(!known) by {
            if known {
                assert(sextet(q[0]) is Some && sextet(q[1]) is Some && sextet(q[2]) is Some
                    && sextet(q[3]) is Some);
            }
        }
    }
}

proof fn lemma_filter_keeps(s: Seq<u8>, keep: spec_fn(u8) -> bool)
    requires
        forall|i: int| 0 <= i < s.len() ==> keep(#[trigger] s[i]),
    ensures
        s.filter(keep) == s,
    decreases s.len(),
{
    reveal(Seq::filter);
    if s.len() > 0 {
        let front = s.drop_last();
        assert forall|i: int| 0 <= i < front.len() implies keep(#[trigger] front[i]) by {
            assert(s[i] == front[i]);
        }
        lemma_filter_keeps(front, keep);
        assert(keep(s.last())) by {
            assert(s[s.len() - 1] == s.last());
        }
        assert(s =~= front.push(s.last()));
    } else {
        assert(s.filter(keep) =~= s);
    }
}

/// The subject of a token is read from its second part and from nothing else; a text without a
/// dot has none.
pub proof fn law_subjects_are_read_from_the_second_part(
    a: Seq<char>,
    b: Seq<char>,
    c: Seq<char>,
    other: Seq<char>,
    token: &str,
    same: &str,
    body: &str,
    bytes: Option<Vec<u8>>,
    r: Option<String>,
    s: Option<String>,
)
    requires
        !a.contains('.') && !b.contains('.') && !c.contains('.') && !other.contains('.'),
        token@ == a + seq!['.'] + b + seq!['.'] + c,
        same@ == other + seq!['.'] + b,
        body@ == b,
        call_ensures(base64url_decode, (body,), bytes),
        call_ensures(extract_jwt_sub, (token,), r),
        call_ensures(extract_jwt_sub, (same,), s),
    ensures
        r is Some == s is Some,
        r is Some ==> r->0@ == s->0@,
        bytes is None ==> r is None,
        bytes is Some ==> text::opt_view(r) == json_text(bytes->0@, "sub"@),
{
    let three = seq![a, b, c];
    let two = seq![other, b];
    assert(three.drop_last() =~= seq![a, b]);
    assert(seq![a, b].drop_last() =~= seq![a]);
    assert(two.drop_last() =~= seq![other]);
    reveal_with_fuel(text::join, 4);
    assert(text::join(three, seq!['.']) =~= token@);
    assert(text::join(two, seq!['.']) =~= same@);
    text::law_split_join(three, '.');
    text::law_split_join(two, '.');
    assert(text::opt_view(r) == text::opt_view(s));
}

} // verus!
