//! Ingress rules: what a Connector forwards, and where to.

use vstd::prelude::*;
use vstd::string::*;
use crate::addr;
use crate::addr::SocketAddr;
use crate::text;
use crate::text::{has_prefix, lowercase, parse_unsigned, same_text};

verus! {

/// A single ingress routing rule.
/// Rules are evaluated top-to-bottom; the first match wins.
#[derive(Debug)]
pub struct IngressRule {
    /// Optional hostname to match (None = catch-all)
    pub hostname: Option<String>,
    /// Optional protocol filter; None matches any protocol
    pub protocol: Option<Protocol>,
    /// Forwarding target: "127.0.0.1:8080" or "http_status:404"
    pub target: String,
}

#[derive(Debug, Clone, Copy, PartialEq, Eq, Structural)]
pub enum Protocol {
    Http,
    Tcp,
    Udp,
}

/// The name of a protocol.
pub open spec fn protocol_name(p: Protocol) -> Seq<char> {
    match p {
        Protocol::Http => "http"@,
        Protocol::Tcp => "tcp"@,
        Protocol::Udp => "udp"@,
    }
}

/// The protocol with the given name, in any letter case.
pub open spec fn named_protocol(s: Seq<char>) -> Result<Protocol, Seq<char>> {
    let name = text::unicode_lower(s);
    if name == "http"@ {
        Ok(Protocol::Http)
    } else if name == "tcp"@ {
        Ok(Protocol::Tcp)
    } else if name == "udp"@ {
        Ok(Protocol::Udp)
    } else {
        Err("unknown protocol: "@ + name)
    }
}

impl Protocol {
    pub fn as_str(&self) -> (r: &'static str)
        ensures
            r@ == protocol_name(*self),
    {
        match self {
            Protocol::Http => "http",
            Protocol::Tcp => "tcp",
            Protocol::Udp => "udp",
        }
    }

    /// The protocol with the given name, in any letter case.
    pub fn parse(s: &str) -> (r: Result<Protocol, String>)
        ensures
            match r {
                Ok(p) => named_protocol(s@) == Ok::<Protocol, Seq<char>>(p),
                Err(e) => named_protocol(s@) == Err::<Protocol, Seq<char>>(e@),
            },
            vstd::utf8::is_ascii_chars(s@) ==> text::unicode_lower(s@) == text::ascii_lower(s@),
    {
        let name: String = lowercase(s);
        if same_text(name.as_str(), "http") {
            Ok(Protocol::Http)
        } else if same_text(name.as_str(), "tcp") {
            Ok(Protocol::Tcp)
        } else if same_text(name.as_str(), "udp") {
            Ok(Protocol::Udp)
        } else {
            Err("unknown protocol: ".to_owned().concat(name.as_str()))
        }
    }
}

impl core::str::FromStr for Protocol {
    type Err = String;

    /// The protocol with the given name, in any letter case.
    fn from_str(s: &str) -> (r: Result<Self, String>)
        ensures
            match r {
                Ok(p) => named_protocol(s@) == Ok::<Protocol, Seq<char>>(p),
                Err(e) => named_protocol(s@) == Err::<Protocol, Seq<char>>(e@),
            },
            vstd::utf8::is_ascii_chars(s@) ==> text::unicode_lower(s@) == text::ascii_lower(s@),
    {
        Protocol::parse(s)
    }
}

/// Parsed target endpoint
#[derive(Debug, Clone, Copy, PartialEq, Eq, Structural)]
pub enum Target {
    /// Forward to a local address
    Address(SocketAddr),
    /// Return an HTTP status code
    HttpStatus(u16),
}

/// What a target text stands for: `http_status:` and a 16-bit number, or an
/// address with a port.
pub open spec fn parsed_target(s: Seq<char>) -> Result<Target, Seq<char>> {
    if text::starts_with(s, "http_status:"@) {
        let code = s.skip("http_status:"@.len() as int);
        match text::parsed_unsigned(code, 65535) {
            Some(n) => Ok(Target::HttpStatus(n as u16)),
            None => Err("invalid http status code: "@ + code),
        }
    } else {
        match addr::parsed_socket(s) {
            Some(a) => Ok(Target::Address(a)),
            None => Err("invalid socket address: "@ + s),
        }
    }
}

impl Target {
    pub fn parse(s: &str) -> (r: Result<Target, String>)
        ensures
            match r {
                Ok(t) => parsed_target(s@) == Ok::<Target, Seq<char>>(t),
                Err(e) => parsed_target(s@) == Err::<Target, Seq<char>>(e@),
            },
    {
        if has_prefix(s, "http_status:") {
            let n: usize = "http_status:".unicode_len();
            let len: usize = s.unicode_len();
            let code: &str = s.substring_char(n, len);
            assert(code@ == s@.skip(n as int));
            match parse_unsigned(code, 65535) {
                Some(n) => Ok(Target::HttpStatus(n as u16)),
                None => Err("invalid http status code: ".to_owned().concat(code)),
            }
        } else {
            match addr::parse_socket(s) {
                Some(a) => Ok(Target::Address(a)),
                None => Err("invalid socket address: ".to_owned().concat(s)),
            }
        }
    }
}

/// The three protocols have three names. Each is read from its name, whatever the case of
/// the letters, and from no other ASCII text.
pub proof fn law_protocol_names_read_back(
    p: Protocol,
    name: &'static str,
    s: &str,
    r: Result<Protocol, String>,
)
    requires
        call_ensures(Protocol::as_str, (&p,), name),
        call_ensures(Protocol::parse, (s,), r),
        vstd::utf8::is_ascii_chars(s@),
    ensures
        name@ == match p {
            Protocol::Http => seq!['h', 't', 't', 'p'],
            Protocol::Tcp => seq!['t', 'c', 'p'],
            Protocol::Udp => seq!['u', 'd', 'p'],
        },
        (r is Ok && r->Ok_0 == p) == text::same_letters(s@, name@),
{
    reveal_strlit("http");
    reveal_strlit("tcp");
    reveal_strlit("udp");
    assert("http"@ =~= seq!['h', 't', 't', 'p']);
    assert("tcp"@ =~= seq!['t', 'c', 'p']);
    assert("udp"@ =~= seq!['u', 'd', 'p']);
    assert("tcp"@[0] == 't' && "udp"@[0] == 'u');
    text::lemma_same_letters(s@, name@);
    assert(text::ascii_lower(name@) =~= name@);
}

/// A target is an answer with a status code if and only if it starts with `http_status:`, and
/// the code is the decimal number behind that. Any other target is a socket address.
pub proof fn law_targets_are_codes_or_addresses(
    s: &str,
    code: Seq<char>,
    n: u16,
    r: Result<Target, String>,
    address: Option<SocketAddr>,
)
    requires
        call_ensures(Target::parse, (s,), r),
        call_ensures(addr::parse_socket, (s,), address),
    ensures
        s@ == "http_status:"@ + text::decimal(n as nat) ==> r == Ok::<Target, String>(
            Target::HttpStatus(n),
        ),
        s@ == "http_status:"@ + code && code.len() == 0 ==> r is Err,
        r matches Ok(Target::HttpStatus(_)) ==> text::starts_with(s@, "http_status:"@),
        !(s@.len() >= 12 && s@.take(12) == "http_status:"@) ==> match address {
            Some(a) => r == Ok::<Target, String>(Target::Address(a)),
            None => r is Err,
        },
{
    reveal_strlit("http_status:");
    text::law_digits_read_back(n as nat, 10);
    text::lemma_digits_are_digits(n as nat, 10);
    let digits = text::decimal(n as nat);
    if s@ == "http_status:"@ + digits {
        assert(s@.take(12) =~= "http_status:"@);
        assert(s@.skip(12) =~= digits);
        assert(text::digit_value(digits[0], 16) is Some);
    }
    if s@ == "http_status:"@ + code && code.len() == 0 {
        assert(s@.take(12) =~= "http_status:"@);
        assert(s@.skip(12) =~= code);
    }
}

} // verus!
