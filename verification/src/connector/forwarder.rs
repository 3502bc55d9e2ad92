//! Answers that the Connector gives by itself.

use vstd::prelude::*;
use vstd::string::*;
use crate::text;
use crate::text::decimal_text;

verus! {

/// The reason phrase of a status code.
pub open spec fn reason_phrase(status: u16) -> Seq<char> {
    if status == 200 {
        "OK"@
    } else if status == 404 {
        "Not Found"@
    } else if status == 502 {
        "Bad Gateway"@
    } else if status == 503 {
        "Service Unavailable"@
    } else {
        "Unknown"@
    }
}

/// An HTTP response without a body.
pub open spec fn status_response(status: u16) -> Seq<char> {
    "HTTP/1.1 "@ + text::decimal(status as nat) + " "@ + reason_phrase(status)
        + "\r\nContent-Length: 0\r\nConnection: close\r\n\r\n"@
}

/// The HTTP response of an `http_status` target.
pub fn http_status_response(status: u16) -> (r: String)
    ensures
        r@ == status_response(status),
{
    let reason: &str = match status {
        200 => "OK",
        404 => "Not Found",
        502 => "Bad Gateway",
        503 => "Service Unavailable",
        _ => "Unknown",
    };
    let mut r: String = "HTTP/1.1 ".to_owned();
    r.append(decimal_text(status as u64).as_str());
    r.append(" ");
    r.append(reason);
    r.append("\r\nContent-Length: 0\r\nConnection: close\r\n\r\n");
    r
}

/// An answer names its status twice, as a number and in words, and has no body; answers with
/// different statuses differ.
pub proof fn law_status_answers_differ(a: u16, b: u16, x: String, y: String)
    requires
        call_ensures(http_status_response, (a,), x),
        call_ensures(http_status_response, (b,), y),
    ensures
        text::starts_with(x@, "HTTP/1.1 "@ + text::decimal(a as nat) + seq![' ']),
        x@ == y@ ==> a == b,
{
    reveal_strlit(" ");
    reveal_strlit("HTTP/1.1 ");
    let head = "HTTP/1.1 "@;
    assert(head.len() == 9);
    let p = text::decimal(a as nat);
    let q = text::decimal(b as nat);
    assert(" "@ =~= seq![' ']);
    assert(x@.take((head + p + seq![' ']).len() as int) =~= head + p + seq![' ']);
    text::lemma_digits_are_digits(a as nat, 10);
    text::lemma_digits_are_digits(b as nat, 10);
    text::law_digits_read_back(a as nat, 10);
    text::law_digits_read_back(b as nat, 10);
    if x@ == y@ {
        assert forall|i: int| 0 <= i < p.len() implies x@[9 + i] == p[i] by {}
        assert forall|i: int| 0 <= i < q.len() implies y@[9 + i] == q[i] by {}
        assert(x@[9 + p.len() as int] == ' ');
        assert(y@[9 + q.len() as int] == ' ');
        if p.len() < q.len() {
            assert(text::digit_value(q[p.len() as int], 16) is Some);
            assert(y@[9 + p.len() as int] == q[p.len() as int]);
        }
        if q.len() < p.len() {
            assert(text::digit_value(p[q.len() as int], 16) is Some);
            assert(x@[9 + q.len() as int] == p[q.len() as int]);
        }
        assert(p =~= q) by {
            assert forall|i: int| 0 <= i < p.len() implies p[i] == q[i] by {
                assert(x@[9 + i] == p[i] && y@[9 + i] == q[i]);
            }
        }
    }
}

} // verus!
