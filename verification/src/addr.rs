//! Internet addresses and their text forms.

use vstd::prelude::*;
use vstd::string::*;
use crate::positional;
use crate::text;
use crate::text::{chars_of, decimal_text, digits_text, find_char, join_text, read_number, split_text};

verus! {

/// An address, as the number that its bits write.
#[derive(Debug, Clone, Copy, PartialEq, Eq, Structural)]
pub enum IpAddr {
    V4(u32),
    V6(u128),
}

/// An address with a port.
#[derive(Debug, Clone, Copy, PartialEq, Eq, Structural)]
pub enum SocketAddr {
    /// Address and port.
    V4(u32, u16),
    /// Address, port and scope.
    V6(u128, u16, u32),
}

/// One octet: up to three decimal digits, without leading zeros.
pub open spec fn parsed_octet(s: Seq<char>) -> Option<nat> {
    if s.len() > 3 || (s.len() > 1 && s[0] == '0') {
        None
    } else {
        match text::number(s, 10) {
            Some(n) => if n <= 255 { Some(n) } else { None },
            None => None,
        }
    }
}

/// Four octets with dots between them.
pub open spec fn parsed_ipv4(s: Seq<char>) -> Option<nat> {
    let parts = text::split(s, '.');
    if parts.len() != 4 {
        None
    } else {
        match (
            parsed_octet(parts[0]),
            parsed_octet(parts[1]),
            parsed_octet(parts[2]),
            parsed_octet(parts[3]),
        ) {
            (Some(a), Some(b), Some(c), Some(d)) => Some(
                ((a * 256 + b) * 256 + c) * 256 + d,
            ),
            _ => None,
        }
    }
}

/// One group: up to four hexadecimal digits.
pub open spec fn parsed_group(s: Seq<char>) -> Option<nat> {
    if s.len() > 4 {
        None
    } else {
        text::number(s, 16)
    }
}

/// A list of groups.
pub open spec fn parsed_groups(parts: Seq<Seq<char>>) -> Option<Seq<nat>>
    decreases parts.len(),
{
    if parts.len() == 0 {
        Some(Seq::empty())
    } else {
        match (parsed_groups(parts.drop_last()), parsed_group(parts.last())) {
            (Some(front), Some(g)) => Some(front.push(g)),
            _ => None,
        }
    }
}

/// A list of groups whose last two may be written as an IPv4 address.
pub open spec fn parsed_tail(parts: Seq<Seq<char>>) -> Option<Seq<nat>> {
    if parts.len() == 0 {
        Some(Seq::empty())
    } else {
        match parsed_ipv4(parts.last()) {
            Some(n) => match parsed_groups(parts.drop_last()) {
                Some(front) => Some(front.push(n / 65536).push(n % 65536)),
                None => None,
            },
            None => parsed_groups(parts),
        }
    }
}

/// The pieces between colons; nothing has no pieces.
pub open spec fn colon_parts(s: Seq<char>) -> Seq<Seq<char>> {
    if s.len() == 0 {
        Seq::empty()
    } else {
        text::split(s, ':')
    }
}

/// The first `::` at or after `from`.
pub open spec fn double_colon(s: Seq<char>, from: int) -> Option<int>
    decreases s.len() - from,
{
    if from + 1 >= s.len() {
        None
    } else if s[from] == ':' && s[from + 1] == ':' {
        Some(from)
    } else {
        double_colon(s, from + 1)
    }
}

/// `n` zeros.
pub open spec fn zeros(n: nat) -> Seq<nat> {
    Seq::new(n, |i: int| 0nat)
}

/// The eight groups of an IPv6 address; one `::` stands for one or more zeros.
pub open spec fn parsed_ipv6_groups(s: Seq<char>) -> Option<Seq<nat>> {
    match double_colon(s, 0) {
        None => match parsed_tail(colon_parts(s)) {
            Some(groups) => if groups.len() == 8 {
                Some(groups)
            } else {
                None
            },
            None => None,
        },
        Some(i) => match (
            parsed_groups(colon_parts(s.take(i))),
            parsed_tail(colon_parts(s.skip(i + 2))),
        ) {
            (Some(head), Some(tail)) => if head.len() + tail.len() <= 7 {
                Some(head + zeros((8 - head.len() - tail.len()) as nat) + tail)
            } else {
                None
            },
            _ => None,
        },
    }
}

pub open spec fn parsed_ipv6(s: Seq<char>) -> Option<nat> {
    match parsed_ipv6_groups(s) {
        Some(groups) => Some(positional::value(groups, 65536)),
        None => None,
    }
}

/// Either kind of address.
pub open spec fn parsed_ip(s: Seq<char>) -> Option<IpAddr> {
    match parsed_ipv4(s) {
        Some(n) => Some(IpAddr::V4(n as u32)),
        None => match parsed_ipv6(s) {
            Some(n) => Some(IpAddr::V6(n as u128)),
            None => None,
        },
    }
}

/// A number of at most `max` in decimal digits.
pub open spec fn parsed_bounded(s: Seq<char>, max: nat) -> Option<nat> {
    match text::number(s, 10) {
        Some(n) => if n <= max { Some(n) } else { None },
        None => None,
    }
}

/// What stands in the brackets: an IPv6 address, with `%` and a scope number allowed.
pub open spec fn parsed_scoped(s: Seq<char>) -> Option<(nat, nat)> {
    match s.index_of_first('%') {
        None => match parsed_ipv6(s) {
            Some(ip) => Some((ip, 0nat)),
            None => None,
        },
        Some(i) => match (parsed_ipv6(s.take(i)), parsed_bounded(s.skip(i + 1), 0xffff_ffff)) {
            (Some(ip), Some(scope)) => Some((ip, scope)),
            _ => None,
        },
    }
}

/// `a.b.c.d:port` or `[v6]:port`.
pub open spec fn parsed_socket(s: Seq<char>) -> Option<SocketAddr> {
    if s.len() > 0 && s[0] == '[' {
        match s.index_of_first(']') {
            None => None,
            Some(end) => {
                let after = s.skip(end + 1);
                if after.len() == 0 || after[0] != ':' {
                    None
                } else {
                    match (parsed_scoped(s.subrange(1, end)), parsed_bounded(after.skip(1), 65535)) {
                        (Some((ip, scope)), Some(port)) => Some(
                            SocketAddr::V6(ip as u128, port as u16, scope as u32),
                        ),
                        _ => None,
                    }
                }
            },
        }
    } else {
        match s.index_of_first(':') {
            None => None,
            Some(i) => match (parsed_ipv4(s.take(i)), parsed_bounded(s.skip(i + 1), 65535)) {
                (Some(ip), Some(port)) => Some(
                    SocketAddr::V4(ip as u32, port as u16),
                ),
                _ => None,
            },
        }
    }
}

fn parse_octet(s: &str) -> (r: Option<u64>)
    ensures
        match r {
            Some(n) => parsed_octet(s@) == Some(n as nat) && n <= 255,
            None => parsed_octet(s@) is None,
        },
{
    let v: Vec<char> = chars_of(s);
    if v.len() > 3 || (v.len() > 1 && v[0] == '0') {
        return None;
    }
    read_number(v.as_slice(), 10, 255)
}

/// Reads an IPv4 address.
pub fn parse_ipv4(s: &str) -> (r: Option<u32>)
    ensures
        match r {
            Some(n) => parsed_ipv4(s@) == Some(n as nat),
            None => parsed_ipv4(s@) is None,
        },
{
    let parts: Vec<String> = split_text(s, '.');
    assert(parts.len() == text::split(s@, '.').len());
    if parts.len() != 4 {
        return None;
    }
    match (
        parse_octet(parts[0].as_str()),
        parse_octet(parts[1].as_str()),
        parse_octet(parts[2].as_str()),
        parse_octet(parts[3].as_str()),
    ) {
        (Some(a), Some(b), Some(c), Some(d)) => Some(
            (((a * 256 + b) * 256 + c) * 256 + d) as u32,
        ),
        _ => None,
    }
}

/// The groups as numbers.
pub open spec fn group_values(v: Seq<u16>) -> Seq<nat> {
    v.map_values(|g: u16| g as nat)
}

proof fn lemma_groups_prefix(parts: Seq<Seq<char>>, i: int)
    requires
        0 <= i <= parts.len(),
        parsed_groups(parts.take(i)) is None,
    ensures
        parsed_groups(parts) is None,
    decreases parts.len(),
{
    if i == parts.len() {
        assert(parts.take(i) == parts);
    } else {
        assert(parts.drop_last().take(i) == parts.take(i));
        lemma_groups_prefix(parts.drop_last(), i);
    }
}

fn parse_groups(parts: &Vec<String>, count: usize) -> (r: Option<Vec<u16>>)
    requires
        count <= parts.len(),
    ensures
        match r {
            Some(v) => parsed_groups(text::views(parts@).take(count as int)) == Some(
                group_values(v@),
            ) && v.len() == count,
            None => parsed_groups(text::views(parts@).take(count as int)) is None,
        },
{
    let ghost all = text::views(parts@).take(count as int);
    let mut v: Vec<u16> = Vec::new();
    let mut i: usize = 0;
    while i < count
        invariant
            i <= count <= parts.len(),
            v.len() == i,
            parsed_groups(all.take(i as int)) == Some(group_values(v@)),
        decreases count - i,
    {
        assert(all.take(i + 1).drop_last() == all.take(i as int));
        assert(all.take(i + 1).last() == parts@[i as int]@);
        let digits: Vec<char> = chars_of(parts[i].as_str());
        let group: Option<u64> = if digits.len() > 4 {
            None
        } else {
            proof {
                lemma_group_bound(digits@);
            }
            read_number(digits.as_slice(), 16, 65535)
        };
        match group {
            None => {
                proof {
                    lemma_groups_prefix(all, i + 1);
                }
                return None;
            },
            Some(g) => {
                let ghost before = v@;
                v.push(g as u16);
                assert(group_values(v@) == group_values(before).push(g as nat));
            },
        }
        i += 1;
    }
    assert(all.take(i as int) == all);
    Some(v)
}

proof fn lemma_number_bound(s: Seq<char>, base: nat)
    requires
        number_is(s, base),
        base >= 1,
    ensures
        text::number(s, base)->0 < positional::weight(base, s.len()),
    decreases s.len(),
{
    if s.len() == 1 {
        assert(positional::weight(base, 1) == positional::weight(base, 0) * base);
        assert(1 * base == base) by (nonlinear_arith);
    } else {
        lemma_number_bound(s.drop_last(), base);
        let high = text::number(s.drop_last(), base)->0;
        let low = text::digit_value(s.last(), base)->0;
        let w = positional::weight(base, (s.len() - 1) as nat);
        assert(high * base + low < w * base) by (nonlinear_arith)
            requires
                high + 1 <= w,
                low < base,
        ;
    }
}

spec fn number_is(s: Seq<char>, base: nat) -> bool {
    text::number(s, base) is Some
}

proof fn lemma_group_bound(s: Seq<char>)
    requires
        s.len() <= 4,
    ensures
        text::number(s, 16) is Some ==> text::number(s, 16)->0 <= 65535,
{
    if text::number(s, 16) is Some {
        lemma_number_bound(s, 16);
        reveal_with_fuel(positional::weight, 5);
    }
}

fn split_colons(s: &str) -> (r: Vec<String>)
    ensures
        text::views(r@) == colon_parts(s@),
{
    if s.is_empty() {
        let r: Vec<String> = Vec::new();
        assert(text::views(r@) == Seq::<Seq<char>>::empty());
        r
    } else {
        split_text(s, ':')
    }
}

fn parse_head(s: &str) -> (r: Option<Vec<u16>>)
    ensures
        match r {
            Some(v) => parsed_groups(colon_parts(s@)) == Some(group_values(v@)),
            None => parsed_groups(colon_parts(s@)) is None,
        },
{
    let parts: Vec<String> = split_colons(s);
    assert(text::views(parts@).take(parts.len() as int) == text::views(parts@));
    parse_groups(&parts, parts.len())
}

fn parse_tail(s: &str) -> (r: Option<Vec<u16>>)
    ensures
        match r {
            Some(v) => parsed_tail(colon_parts(s@)) == Some(group_values(v@)),
            None => parsed_tail(colon_parts(s@)) is None,
        },
{
    let parts: Vec<String> = split_colons(s);
    let n: usize = parts.len();
    assert(text::views(parts@).take(n as int) == text::views(parts@));
    if n == 0 {
        let v: Vec<u16> = Vec::new();
        assert(group_values(v@) == Seq::<nat>::empty());
        return Some(v);
    }
    assert(text::views(parts@).last() == parts@[n - 1]@);
    assert(text::views(parts@).take(n - 1) == text::views(parts@).drop_last());
    match parse_ipv4(parts[n - 1].as_str()) {
        None => parse_groups(&parts, n),
        Some(ip) => match parse_groups(&parts, n - 1) {
            None => None,
            Some(mut v) => {
                let ghost front = group_values(v@);
                v.push((ip / 65536) as u16);
                v.push((ip % 65536) as u16);
                assert(group_values(v@) == front.push((ip / 65536) as nat).push(
                    (ip % 65536) as nat,
                ));
                Some(v)
            },
        },
    }
}

fn find_double_colon(v: &Vec<char>) -> (r: Option<usize>)
    ensures
        match r {
            Some(i) => double_colon(v@, 0) == Some(i as int) && i + 1 < v.len(),
            None => double_colon(v@, 0) is None,
        },
{
    let mut i: usize = 0;
    while i < v.len() && v.len() - i > 1
        invariant
            i <= v.len(),
            double_colon(v@, 0) == double_colon(v@, i as int),
        decreases v.len() - i,
    {
        if v[i] == ':' && v[i + 1] == ':' {
            return Some(i);
        }
        i += 1;
    }
    None
}

fn number_of_groups(v: &Vec<u16>) -> (r: u128)
    requires
        v.len() == 8,
    ensures
        r == positional::value(group_values(v@), 65536),
{
    let ghost ds = group_values(v@);
    let mut r: u128 = 0;
    let mut i: usize = 0;
    while i < 8
        invariant
            i <= 8,
            v.len() == 8,
            ds == group_values(v@),
            r == positional::value(ds.take(i as int), 65536),
            r < positional::weight(65536, i as nat),
        decreases 8 - i,
    {
        let ghost next = ds.take(i + 1);
        assert(next.drop_last() == ds.take(i as int));
        proof {
            reveal_with_fuel(positional::weight, 9);
            assert(positional::weight(65536, i as nat) <= 0x1_0000_0000_0000_0000_0000_0000_0000int);
            assert(positional::are_digits(next, 65536));
            positional::lemma_value_bound(next, 65536);
        }
        r = r * 65536 + v[i] as u128;
        i += 1;
    }
    assert(ds.take(8) == ds);
    r
}

/// Reads an IPv6 address.
pub fn parse_ipv6(s: &str) -> (r: Option<u128>)
    ensures
        match r {
            Some(n) => parsed_ipv6(s@) == Some(n as nat),
            None => parsed_ipv6(s@) is None,
        },
{
    let v: Vec<char> = chars_of(s);
    match find_double_colon(&v) {
        None => match parse_tail(s) {
            Some(groups) => if groups.len() == 8 {
                Some(number_of_groups(&groups))
            } else {
                assert(group_values(groups@).len() == groups.len());
                None
            },
            None => None,
        },
        Some(i) => {
            let head_text: &str = s.substring_char(0, i);
            let tail_text: &str = s.substring_char(i + 2, v.len());
            assert(head_text@ == s@.take(i as int));
            assert(tail_text@ == s@.skip(i + 2));
            match (parse_head(head_text), parse_tail(tail_text)) {
                (Some(head), Some(tail)) => {
                    let ghost head_values = group_values(head@);
                    let ghost tail_values = group_values(tail@);
                    assert(head_values.len() == head.len() && tail_values.len() == tail.len());
                    if head.len() > 7 || tail.len() > 7 - head.len() {
                        return None;
                    }
                    let gap: usize = 8 - head.len() - tail.len();
                    let mut groups: Vec<u16> = head;
                    let mut k: usize = 0;
                    while k < gap
                        invariant
                            k <= gap <= 8,
                            group_values(groups@) == head_values + zeros(k as nat),
                        decreases gap - k,
                    {
                        let ghost before = group_values(groups@);
                        groups.push(0);
                        k += 1;
                        assert(group_values(groups@) =~= before.push(0));
                        assert(group_values(groups@) =~= head_values + zeros(k as nat));
                    }
                    let ghost front = groups@;
                    let mut j: usize = 0;
                    while j < tail.len()
                        invariant
                            j <= tail.len(),
                            groups@ == front + tail@.take(j as int),
                        decreases tail.len() - j,
                    {
                        groups.push(tail[j]);
                        j += 1;
                        assert(groups@ =~= front + tail@.take(j as int));
                    }
                    assert(tail@.take(j as int) == tail@);
                    assert(group_values(groups@) =~= head_values + zeros(gap as nat) + tail_values);
                    assert(group_values(groups@).len() == 8);
                    Some(number_of_groups(&groups))
                },
                _ => None,
            }
        },
    }
}

/// Reads an address of either kind.
pub fn parse_ip(s: &str) -> (r: Option<IpAddr>)
    ensures
        r == parsed_ip(s@),
{
    match parse_ipv4(s) {
        Some(n) => Some(IpAddr::V4(n)),
        None => match parse_ipv6(s) {
            Some(n) => Some(IpAddr::V6(n)),
            None => None,
        },
    }
}

fn parse_bounded(s: &str, max: u64) -> (r: Option<u64>)
    ensures
        match r {
            Some(n) => parsed_bounded(s@, max as nat) == Some(n as nat) && n <= max,
            None => parsed_bounded(s@, max as nat) is None,
        },
{
    read_number(chars_of(s).as_slice(), 10, max)
}

fn parse_scoped(s: &str) -> (r: Option<(u128, u32)>)
    ensures
        match r {
            Some((ip, scope)) => parsed_scoped(s@) == Some((ip as nat, scope as nat)),
            None => parsed_scoped(s@) is None,
        },
{
    let v: Vec<char> = chars_of(s);
    match find_char(v.as_slice(), '%') {
        None => match parse_ipv6(s) {
            Some(ip) => Some((ip, 0)),
            None => None,
        },
        Some(i) => {
            let ip_text: &str = s.substring_char(0, i);
            let scope_text: &str = s.substring_char(i + 1, v.len());
            assert(ip_text@ == s@.take(i as int));
            assert(scope_text@ == s@.skip(i + 1));
            match (parse_ipv6(ip_text), parse_bounded(scope_text, 0xffff_ffff)) {
                (Some(ip), Some(scope)) => Some((ip, scope as u32)),
                _ => None,
            }
        },
    }
}

/// Reads an address with a port: `a.b.c.d:port` or `[v6]:port`.
pub fn parse_socket(s: &str) -> (r: Option<SocketAddr>)
    ensures
        r == parsed_socket(s@),
{
    let v: Vec<char> = chars_of(s);
    let len: usize = v.len();
    if len > 0 && v[0] == '[' {
        match find_char(v.as_slice(), ']') {
            None => None,
            Some(end) => {
                if end + 1 == len || v[end + 1] != ':' {
                    return None;
                }
                let inside: &str = s.substring_char(1, end);
                let port_text: &str = s.substring_char(end + 2, len);
                assert(port_text@ == s@.skip(end + 1).skip(1));
                match (parse_scoped(inside), parse_bounded(port_text, 65535)) {
                    (Some((ip, scope)), Some(port)) => Some(
                        SocketAddr::V6(ip, port as u16, scope),
                    ),
                    _ => None,
                }
            },
        }
    } else {
        match find_char(v.as_slice(), ':') {
            None => None,
            Some(i) => {
                let ip_text: &str = s.substring_char(0, i);
                let port_text: &str = s.substring_char(i + 1, len);
                assert(ip_text@ == s@.take(i as int));
                assert(port_text@ == s@.skip(i + 1));
                match (parse_ipv4(ip_text), parse_bounded(port_text, 65535)) {
                    (Some(ip), Some(port)) => Some(SocketAddr::V4(ip, port as u16)),
                    _ => None,
                }
            },
        }
    }
}

/// Octets in decimal with dots between them.
pub open spec fn ipv4_text(n: nat) -> Seq<char> {
    text::join(
        seq![
            text::decimal(n / 16777216),
            text::decimal(n / 65536 % 256),
            text::decimal(n / 256 % 256),
            text::decimal(n % 256),
        ],
        "."@,
    )
}

/// The groups of an IPv6 address.
pub open spec fn ipv6_groups(n: nat) -> Seq<nat> {
    positional::digits(n, 65536, 8)
}

/// How many zeros stand in a row from `i` on.
pub open spec fn zero_run(groups: Seq<nat>, i: int) -> nat
    decreases groups.len() - i,
{
    if i < 0 || i >= groups.len() || groups[i] != 0 {
        0
    } else {
        1 + zero_run(groups, i + 1)
    }
}

/// Where the longest run of zeros at or after `i` begins; of several, the first.
pub open spec fn longest_zero_run(groups: Seq<nat>, i: int) -> int
    decreases groups.len() - i,
{
    if i >= groups.len() {
        groups.len() as int
    } else {
        let later = longest_zero_run(groups, i + 1);
        if zero_run(groups, i) >= zero_run(groups, later) {
            i
        } else {
            later
        }
    }
}

/// Groups in hexadecimal with colons between them.
pub open spec fn groups_text(groups: Seq<nat>) -> Seq<char> {
    text::join(groups.map_values(|g: nat| text::digits_of(g, 16)), ":"@)
}

/// Whether the address stands for an IPv4 address (`::ffff:a.b.c.d`).
pub open spec fn is_mapped(n: nat) -> bool {
    n / 0x1_0000_0000 == 0xffff
}

/// The usual text of an IPv6 address: lower case, no leading zeros, the longest
/// run of two or more zero groups left out.
pub open spec fn ipv6_text(n: nat) -> Seq<char> {
    let groups = ipv6_groups(n);
    let at = longest_zero_run(groups, 0);
    let run = zero_run(groups, at);
    if is_mapped(n) {
        "::ffff:"@ + ipv4_text(n % 0x1_0000_0000)
    } else if run > 1 {
        groups_text(groups.take(at)) + "::"@ + groups_text(groups.skip(at + run))
    } else {
        groups_text(groups)
    }
}

pub open spec fn ip_text(ip: IpAddr) -> Seq<char> {
    match ip {
        IpAddr::V4(n) => ipv4_text(n as nat),
        IpAddr::V6(n) => ipv6_text(n as nat),
    }
}

pub open spec fn socket_text(addr: SocketAddr) -> Seq<char> {
    match addr {
        SocketAddr::V4(ip, port) => ipv4_text(ip as nat) + ":"@ + text::decimal(port as nat),
        SocketAddr::V6(ip, port, scope_id) => if scope_id == 0 {
            "["@ + ipv6_text(ip as nat) + "]:"@ + text::decimal(port as nat)
        } else {
            "["@ + ipv6_text(ip as nat) + "%"@ + text::decimal(scope_id as nat) + "]:"@
                + text::decimal(port as nat)
        },
    }
}

/// The text of an IPv4 address.
pub fn format_ipv4(n: u32) -> (r: String)
    ensures
        r@ == ipv4_text(n as nat),
{
    let mut parts: Vec<String> = Vec::new();
    parts.push(decimal_text((n / 16777216) as u64));
    parts.push(decimal_text((n / 65536 % 256) as u64));
    parts.push(decimal_text((n / 256 % 256) as u64));
    parts.push(decimal_text((n % 256) as u64));
    let r: String = join_text(&parts, ".");
    assert(text::views(parts@) == seq![
        text::decimal(n as nat / 16777216),
        text::decimal(n as nat / 65536 % 256),
        text::decimal(n as nat / 256 % 256),
        text::decimal(n as nat % 256),
    ]);
    r
}

fn split_groups(n: u128, width: usize) -> (r: Vec<u16>)
    ensures
        group_values(r@) == positional::digits(n as nat, 65536, width as nat),
        r.len() == width,
    decreases width,
{
    if width == 0 {
        let r: Vec<u16> = Vec::new();
        assert(group_values(r@) == Seq::<nat>::empty());
        r
    } else {
        let mut r: Vec<u16> = split_groups(n / 65536, width - 1);
        let ghost front = group_values(r@);
        r.push((n % 65536) as u16);
        assert(group_values(r@) == front.push(n as nat % 65536));
        r
    }
}

fn format_groups(groups: &Vec<u16>, from: usize, to: usize) -> (r: String)
    requires
        from <= to <= groups.len(),
    ensures
        r@ == groups_text(group_values(groups@).subrange(from as int, to as int)),
{
    let ghost part = group_values(groups@).subrange(from as int, to as int);
    let ghost texts = part.map_values(|g: nat| text::digits_of(g, 16));
    let mut parts: Vec<String> = Vec::new();
    let mut i: usize = from;
    while i < to
        invariant
            from <= i <= to <= groups.len(),
            text::views(parts@) == texts.take(i - from),
        decreases to - i,
    {
        let ghost before = parts@;
        parts.push(digits_text(groups[i] as u64, 16));
        i += 1;
        assert(text::views(parts@) =~= texts.take(i - from));
    }
    assert(texts.take(to - from) == texts);
    join_text(&parts, ":")
}

fn find_longest_run(groups: &Vec<u16>) -> (r: (usize, usize))
    requires
        groups.len() == 8,
    ensures
        r.0 == longest_zero_run(group_values(groups@), 0),
        r.1 == zero_run(group_values(groups@), r.0 as int),
        r.0 + r.1 <= 8,
{
    let ghost values = group_values(groups@);
    let mut i: usize = 8;
    let mut run: usize = 0;
    let mut best: usize = 8;
    let mut best_run: usize = 0;
    while i > 0
        invariant
            i <= 8,
            groups.len() == 8,
            run == zero_run(values, i as int),
            i + run <= 8,
            best == longest_zero_run(values, i as int),
            best_run == zero_run(values, best as int),
            best + best_run <= 8,
        decreases i,
    {
        i -= 1;
        if groups[i] == 0 {
            run += 1;
        } else {
            run = 0;
        }
        if run >= best_run {
            best = i;
            best_run = run;
        }
    }
    (best, best_run)
}

/// The text of an IPv6 address.
pub fn format_ipv6(n: u128) -> (r: String)
    ensures
        r@ == ipv6_text(n as nat),
{
    if n / 0x1_0000_0000 == 0xffff {
        return "::ffff:".to_owned().concat(format_ipv4((n % 0x1_0000_0000) as u32).as_str());
    }
    let groups: Vec<u16> = split_groups(n, 8);
    let ghost values = group_values(groups@);
    let (at, run) = find_longest_run(&groups);
    if run > 1 {
        let mut r: String = format_groups(&groups, 0, at);
        r.append("::");
        r.append(format_groups(&groups, at + run, 8).as_str());
        assert(values.subrange(0, at as int) == values.take(at as int));
        assert(values.subrange(at + run, 8) == values.skip(at + run));
        r
    } else {
        assert(values.subrange(0, 8) == values);
        format_groups(&groups, 0, 8)
    }
}

/// The text of an address.
pub fn format_ip(ip: IpAddr) -> (r: String)
    ensures
        r@ == ip_text(ip),
{
    match ip {
        IpAddr::V4(n) => format_ipv4(n),
        IpAddr::V6(n) => format_ipv6(n),
    }
}

/// The text of an address with its port.
pub fn format_socket(addr: SocketAddr) -> (r: String)
    ensures
        r@ == socket_text(addr),
{
    match addr {
        SocketAddr::V4(ip, port) => {
            let mut r: String = format_ipv4(ip);
            r.append(":");
            r.append(decimal_text(port as u64).as_str());
            r
        },
        SocketAddr::V6(ip, port, scope_id) => {
            let mut r: String = "[".to_owned();
            r.append(format_ipv6(ip).as_str());
            if scope_id != 0 {
                r.append("%");
                r.append(decimal_text(scope_id as u64).as_str());
            }
            r.append("]:");
            r.append(decimal_text(port as u64).as_str());
            r
        },
    }
}

proof fn lemma_no_separator(n: nat, base: nat, sep: char)
    requires
        2 <= base <= 16,
        sep == '.' || sep == ':' || sep == ']' || sep == '%',
    ensures
        !text::digits_of(n, base).contains(sep),
        text::digits_of(n, base).len() >= 1,
{
    text::lemma_digits_are_digits(n, base);
    text::law_digits_read_back(n, base);
    let s = text::digits_of(n, base);
    assert forall|i: int| 0 <= i < s.len() implies s[i] != sep by {
        assert(text::digit_value(s[i], 16) is Some);
    }
}

proof fn lemma_octet_reads_back(k: nat)
    requires
        k < 256,
    ensures
        parsed_octet(text::decimal(k)) == Some(k),
{
    text::law_digits_read_back(k, 10);
    reveal_with_fuel(text::digits_of, 3);
    let s = text::decimal(k);
    if k >= 100 {
        assert(s.len() == 3);
        assert(s[0] == text::digit_char(k / 10 / 10));
    } else if k >= 10 {
        assert(s.len() == 2);
        assert(s[0] == text::digit_char(k / 10));
    }
}

/// An IPv4 address is read back from its text.
pub proof fn law_ipv4_reads_back(n: nat)
    requires
        n < 0x1_0000_0000,
    ensures
        parsed_ipv4(ipv4_text(n)) == Some(n),
{
    let octets = seq![n / 16777216, n / 65536 % 256, n / 256 % 256, n % 256];
    let parts = seq![
        text::decimal(octets[0]),
        text::decimal(octets[1]),
        text::decimal(octets[2]),
        text::decimal(octets[3]),
    ];
    reveal_strlit(".");
    assert("."@ =~= seq!['.']);
    assert forall|i: int| 0 <= i < parts.len() implies !(#[trigger] parts[i]).contains('.') by {
        lemma_no_separator(octets[i], 10, '.');
    }
    text::law_split_join(parts, '.');
    lemma_octet_reads_back(octets[0]);
    lemma_octet_reads_back(octets[1]);
    lemma_octet_reads_back(octets[2]);
    lemma_octet_reads_back(octets[3]);
}

/// No colon at an end, no two colons in a row.
spec fn single_colons(s: Seq<char>) -> bool {
    forall|i: int|
        0 <= i < s.len() && #[trigger] s[i] == ':' ==> 0 < i && i + 1 < s.len() && s[i + 1] != ':'
            && s[i - 1] != ':'
}

proof fn lemma_join_single_colons(parts: Seq<Seq<char>>)
    requires
        forall|i: int|
            0 <= i < parts.len() ==> (#[trigger] parts[i]).len() > 0 && !parts[i].contains(':'),
    ensures
        single_colons(text::join(parts, seq![':'])),
        parts.len() > 0 ==> text::join(parts, seq![':']).len() > 0,
    decreases parts.len(),
{
    let s = text::join(parts, seq![':']);
    if parts.len() == 1 {
        assert(!parts[0].contains(':'));
        assert(forall|i: int| 0 <= i < s.len() ==> s[i] != ':');
    } else if parts.len() > 1 {
        let front = parts.drop_last();
        assert forall|i: int| 0 <= i < front.len() implies (#[trigger] front[i]).len() > 0
            && !front[i].contains(':') by {
            assert(front[i] == parts[i]);
        }
        lemma_join_single_colons(front);
        let head = text::join(front, seq![':']);
        let last = parts.last();
        assert(last.len() > 0 && !last.contains(':'));
        assert(last[0] != ':') by {
            assert(last.contains(last[0]));
        }
        assert(head.last() != ':') by {
            if head.last() == ':' {
                assert(head[head.len() - 1] == ':');
            }
        }
        assert forall|i: int| 0 <= i < s.len() && #[trigger] s[i] == ':' implies 0 < i && i + 1
            < s.len() && s[i + 1] != ':' && s[i - 1] != ':' by {
            if i < head.len() {
                assert(head[i] == ':');
                assert(head[i + 1] == s[i + 1]);
                assert(head[i - 1] == s[i - 1]);
            } else if i == head.len() {
                assert(s[i + 1] == last[0]);
                assert(s[i - 1] == head.last());
            } else {
                assert(s[i] == last[i - head.len() - 1]);
                assert(last.contains(s[i]));
            }
        }
    }
}

proof fn lemma_no_double_colon(s: Seq<char>, from: int)
    requires
        single_colons(s),
        0 <= from,
    ensures
        double_colon(s, from) is None,
    decreases s.len() - from,
{
    if from + 1 < s.len() {
        lemma_no_double_colon(s, from + 1);
    }
}

proof fn lemma_double_colon_at(head: Seq<char>, tail: Seq<char>, from: int)
    requires
        single_colons(head),
        0 <= from <= head.len(),
    ensures
        double_colon(head + seq![':', ':'] + tail, from) == Some(head.len() as int),
    decreases head.len() - from,
{
    let s = head + seq![':', ':'] + tail;
    if from < head.len() {
        assert(s[from] == head[from]);
        if head[from] == ':' {
            assert(s[from + 1] == head[from + 1]);
        }
        lemma_double_colon_at(head, tail, from + 1);
    }
}

spec fn group_parts(groups: Seq<nat>) -> Seq<Seq<char>> {
    groups.map_values(|g: nat| text::digits_of(g, 16))
}

proof fn lemma_group_reads_back(g: nat)
    requires
        g < 65536,
    ensures
        parsed_group(text::digits_of(g, 16)) == Some(g),
        parsed_ipv4(text::digits_of(g, 16)) is None,
{
    text::law_digits_read_back(g, 16);
    lemma_no_separator(g, 16, '.');
    let s = text::digits_of(g, 16);
    text::law_split_join(seq![s], '.');
    assert(text::join(seq![s], seq!['.']) == s);
    reveal_with_fuel(text::digits_of, 4);
}

proof fn lemma_groups_read_back(groups: Seq<nat>)
    requires
        positional::are_digits(groups, 65536),
    ensures
        parsed_groups(group_parts(groups)) == Some(groups),
        parsed_tail(group_parts(groups)) == Some(groups),
        colon_parts(groups_text(groups)) == group_parts(groups),
        single_colons(groups_text(groups)),
    decreases groups.len(),
{
    let parts = group_parts(groups);
    reveal_strlit(":");
    assert(":"@ =~= seq![':']);
    assert forall|i: int| 0 <= i < parts.len() implies (#[trigger] parts[i]).len() > 0
        && !parts[i].contains(':') by {
        lemma_no_separator(groups[i], 16, ':');
    }
    lemma_join_single_colons(parts);
    if groups.len() > 0 {
        text::law_split_join(parts, ':');
        let front = groups.drop_last();
        assert(positional::are_digits(front, 65536));
        lemma_groups_read_back(front);
        assert(parts.drop_last() =~= group_parts(front));
        assert(groups[groups.len() - 1] < 65536);
        lemma_group_reads_back(groups.last());
        assert(front.push(groups.last()) =~= groups);
    } else {
        assert(groups =~= Seq::empty());
        assert(parts =~= Seq::empty());
    }
}

proof fn lemma_run_is_zeros(groups: Seq<nat>, i: int, k: int)
    requires
        0 <= i <= k < i + zero_run(groups, i),
    ensures
        k < groups.len(),
        groups[k] == 0,
    decreases groups.len() - i,
{
    if i < k {
        lemma_run_is_zeros(groups, i + 1, k);
    }
}

proof fn lemma_longest_run_bounds(groups: Seq<nat>, i: int)
    requires
        0 <= i <= groups.len(),
    ensures
        i <= longest_zero_run(groups, i) <= groups.len(),
    decreases groups.len() - i,
{
    if i < groups.len() {
        lemma_longest_run_bounds(groups, i + 1);
    }
}

proof fn lemma_ipv4_text_has_no(n: nat, sep: char)
    requires
        sep == ':' || sep == ']' || sep == '%',
    ensures
        !ipv4_text(n).contains(sep),
        ipv4_text(n).len() > 0,
{
    reveal_strlit(".");
    assert("."@ =~= seq!['.']);
    let a = text::decimal(n / 16777216);
    let b = text::decimal(n / 65536 % 256);
    let c = text::decimal(n / 256 % 256);
    let d = text::decimal(n % 256);
    lemma_no_separator(n / 16777216, 10, sep);
    lemma_no_separator(n / 65536 % 256, 10, sep);
    lemma_no_separator(n / 256 % 256, 10, sep);
    lemma_no_separator(n % 256, 10, sep);
    reveal_with_fuel(text::join, 5);
    let parts = seq![a, b, c, d];
    assert(parts.drop_last() =~= seq![a, b, c]);
    assert(seq![a, b, c].drop_last() =~= seq![a, b]);
    assert(seq![a, b].drop_last() =~= seq![a]);
    let s = ipv4_text(n);
    assert(s =~= a + seq!['.'] + b + seq!['.'] + c + seq!['.'] + d);
    assert forall|i: int| 0 <= i < s.len() implies s[i] != sep by {
        let i1 = i - a.len() - 1;
        let i2 = i1 - b.len() - 1;
        let i3 = i2 - c.len() - 1;
        if i < a.len() {
            assert(s[i] == a[i]);
            assert(a.contains(a[i]));
        } else if i1 >= 0 && i1 < b.len() {
            assert(s[i] == b[i1]);
            assert(b.contains(b[i1]));
        } else if i2 >= 0 && i2 < c.len() {
            assert(s[i] == c[i2]);
            assert(c.contains(c[i2]));
        } else if i3 >= 0 {
            assert(s[i] == d[i3]);
            assert(d.contains(d[i3]));
        }
    }
}

proof fn lemma_mapped_value(low: nat)
    requires
        low < 0x1_0000_0000,
    ensures
        positional::value(
            zeros(5) + seq![65535nat, low / 65536, low % 65536],
            65536,
        ) == 0xffff_0000_0000 + low,
{
    let all = zeros(5) + seq![65535nat, low / 65536, low % 65536];
    let a7 = all.drop_last();
    let a6 = a7.drop_last();
    let a5 = a6.drop_last();
    let a4 = a5.drop_last();
    let a3 = a4.drop_last();
    let a2 = a3.drop_last();
    let a1 = a2.drop_last();
    assert(positional::value(a1.drop_last(), 65536) == 0);
    assert(positional::value(a1, 65536) == 0);
    assert(positional::value(a2, 65536) == 0);
    assert(positional::value(a3, 65536) == 0);
    assert(positional::value(a4, 65536) == 0);
    assert(positional::value(a5, 65536) == 0);
    assert(positional::value(a6, 65536) == 65535);
    assert(positional::value(a7, 65536) == 65535 * 65536 + low / 65536);
}

proof fn lemma_mapped_reads_back(n: nat)
    requires
        is_mapped(n),
    ensures
        parsed_ipv6(ipv6_text(n)) == Some(n),
{
    let low = n % 0x1_0000_0000;
    let v4 = ipv4_text(low);
    let s = ipv6_text(n);
    reveal_strlit("::ffff:");
    reveal_strlit("ffff");
    let f = "ffff"@;
    let tail = f + seq![':'] + v4;
    assert(s =~= Seq::<char>::empty() + seq![':', ':'] + tail);
    lemma_double_colon_at(Seq::empty(), tail, 0);
    assert(s.take(0) =~= Seq::empty());
    assert(s.skip(2) =~= tail);
    let parts = seq![f, v4];
    assert(parts.drop_last() =~= seq![f]);
    lemma_ipv4_text_has_no(low, ':');
    assert forall|i: int| 0 <= i < parts.len() implies !(#[trigger] parts[i]).contains(':') by {
        if i == 0 {
            assert(forall|k: int| 0 <= k < f.len() ==> f[k] == 'f');
        }
    }
    assert(text::join(seq![f], seq![':']) == f);
    assert(text::join(parts, seq![':']) =~= tail);
    text::law_split_join(parts, ':');
    law_ipv4_reads_back(low);
    assert(parsed_group(f) == Some(65535nat)) by {
        assert(f.drop_last().len() == 3);
        assert(f.drop_last().drop_last().len() == 2);
        assert(f.drop_last().drop_last().drop_last().len() == 1);
        assert(text::number(f.drop_last().drop_last().drop_last(), 16) == Some(15nat));
        assert(text::number(f.drop_last().drop_last(), 16) == Some(255nat));
        assert(text::number(f.drop_last(), 16) == Some(4095nat));
    }
    assert(parsed_groups(seq![f]) == Some(seq![65535nat])) by {
        assert(seq![f].drop_last() =~= Seq::<Seq<char>>::empty());
        assert(Seq::<nat>::empty().push(65535) =~= seq![65535nat]);
    }
    let tail_groups = seq![65535nat, low / 65536, low % 65536];
    assert(seq![65535nat].push(low / 65536).push(low % 65536) =~= tail_groups);
    assert(Seq::<nat>::empty() + zeros(5) + tail_groups =~= zeros(5) + tail_groups);
    lemma_mapped_value(low);
}

proof fn lemma_compressed_reads_back(n: nat)
    requires
        n < 0x1_0000_0000_0000_0000_0000_0000_0000_0000,
        !is_mapped(n),
        zero_run(ipv6_groups(n), longest_zero_run(ipv6_groups(n), 0)) > 1,
    ensures
        parsed_ipv6_groups(ipv6_text(n)) == Some(ipv6_groups(n)),
{
    let groups = ipv6_groups(n);
    lemma_ipv6_groups(n);
    let at = longest_zero_run(groups, 0);
    let run = zero_run(groups, at);
    lemma_longest_run_bounds(groups, 0);
    reveal_strlit("::");
    assert("::"@ =~= seq![':', ':']);
    lemma_run_is_zeros(groups, at, at + run - 1);
    let head = groups.take(at);
    let tail = groups.skip(at + run);
    assert(positional::are_digits(head, 65536));
    assert forall|i: int| 0 <= i < tail.len() implies #[trigger] tail[i] < 65536 by {
        assert(tail[i] == groups[at + run + i]);
    }
    lemma_groups_read_back(head);
    lemma_groups_read_back(tail);
    let h = groups_text(head);
    let t = groups_text(tail);
    let s = ipv6_text(n);
    lemma_double_colon_at(h, t, 0);
    assert(s.take(h.len() as int) =~= h);
    assert(s.skip((h.len() + 2) as int) =~= t);
    let all = head + zeros(run) + tail;
    assert forall|k: int| 0 <= k < 8 implies all[k] == groups[k] by {
        if at <= k < at + run {
            lemma_run_is_zeros(groups, at, k);
        }
    }
    assert(all =~= groups);
}

proof fn lemma_ipv6_groups(n: nat)
    requires
        n < 0x1_0000_0000_0000_0000_0000_0000_0000_0000,
    ensures
        ipv6_groups(n).len() == 8,
        positional::are_digits(ipv6_groups(n), 65536),
        positional::value(ipv6_groups(n), 65536) == n,
{
    assert(positional::weight(65536, 8) == 0x1_0000_0000_0000_0000_0000_0000_0000_0000) by {
        reveal_with_fuel(positional::weight, 9);
    }
    positional::law_digits_value(n, 65536, 8);
}

/// An IPv6 address is read back from its text.
pub proof fn law_ipv6_reads_back(n: nat)
    requires
        n < 0x1_0000_0000_0000_0000_0000_0000_0000_0000,
    ensures
        parsed_ipv6(ipv6_text(n)) == Some(n),
{
    let groups = ipv6_groups(n);
    lemma_ipv6_groups(n);
    if is_mapped(n) {
        lemma_mapped_reads_back(n);
    } else if zero_run(groups, longest_zero_run(groups, 0)) > 1 {
        lemma_compressed_reads_back(n);
    } else {
        lemma_groups_read_back(groups);
        lemma_no_double_colon(groups_text(groups), 0);
    }
}

pub proof fn lemma_ipv4_bound(s: Seq<char>)
    requires
        parsed_ipv4(s) is Some,
    ensures
        parsed_ipv4(s)->0 < 0x1_0000_0000,
{
}

proof fn lemma_groups_bound(parts: Seq<Seq<char>>)
    requires
        parsed_groups(parts) is Some,
    ensures
        positional::are_digits(parsed_groups(parts)->0, 65536),
    decreases parts.len(),
{
    if parts.len() > 0 {
        lemma_groups_bound(parts.drop_last());
        lemma_group_bound(parts.last());
    }
}

proof fn lemma_tail_bound(parts: Seq<Seq<char>>)
    requires
        parsed_tail(parts) is Some,
    ensures
        positional::are_digits(parsed_tail(parts)->0, 65536),
{
    if parts.len() > 0 {
        if parsed_ipv4(parts.last()) is Some {
            lemma_groups_bound(parts.drop_last());
            lemma_ipv4_bound(parts.last());
        } else {
            lemma_groups_bound(parts);
        }
    }
}

pub proof fn lemma_ipv6_bound(s: Seq<char>)
    requires
        parsed_ipv6(s) is Some,
    ensures
        parsed_ipv6(s)->0 < 0x1_0000_0000_0000_0000_0000_0000_0000_0000,
{
    match double_colon(s, 0) {
        None => {
            lemma_tail_bound(colon_parts(s));
        },
        Some(i) => {
            lemma_groups_bound(colon_parts(s.take(i)));
            lemma_tail_bound(colon_parts(s.skip(i + 2)));
        },
    }
    let groups = parsed_ipv6_groups(s)->0;
    assert(positional::are_digits(groups, 65536));
    positional::lemma_value_bound(groups, 65536);
    assert(positional::weight(65536, 8) == 0x1_0000_0000_0000_0000_0000_0000_0000_0000) by {
        reveal_with_fuel(positional::weight, 9);
    }
}

/// The characters of an address.
pub open spec fn addr_char(c: char) -> bool {
    text::digit_value(c, 16) is Some || c == ':' || c == '.'
}

spec fn addr_chars(s: Seq<char>) -> bool {
    forall|i: int| 0 <= i < s.len() ==> addr_char(#[trigger] s[i])
}

proof fn lemma_joined_chars(parts: Seq<Seq<char>>, sep: Seq<char>)
    requires
        addr_chars(sep),
        forall|i: int| 0 <= i < parts.len() ==> addr_chars(#[trigger] parts[i]),
    ensures
        addr_chars(text::join(parts, sep)),
    decreases parts.len(),
{
    if parts.len() == 1 {
        assert(addr_chars(parts[0]));
    } else if parts.len() > 1 {
        let front = parts.drop_last();
        assert forall|i: int| 0 <= i < front.len() implies addr_chars(#[trigger] front[i]) by {
            assert(front[i] == parts[i]);
        }
        lemma_joined_chars(front, sep);
        assert(addr_chars(parts[parts.len() - 1]));
        let s = text::join(parts, sep);
        let head = text::join(front, sep);
        assert forall|i: int| 0 <= i < s.len() implies addr_char(#[trigger] s[i]) by {
            if i < head.len() {
                assert(s[i] == head[i]);
            } else if i < head.len() + sep.len() {
                assert(s[i] == sep[i - head.len()]);
            } else {
                assert(s[i] == parts.last()[i - head.len() - sep.len()]);
            }
        }
    }
}

proof fn lemma_ipv4_text_chars(n: nat)
    ensures
        addr_chars(ipv4_text(n)),
{
    let octets = seq![n / 16777216, n / 65536 % 256, n / 256 % 256, n % 256];
    let parts = seq![
        text::decimal(octets[0]),
        text::decimal(octets[1]),
        text::decimal(octets[2]),
        text::decimal(octets[3]),
    ];
    reveal_strlit(".");
    assert forall|i: int| 0 <= i < parts.len() implies addr_chars(#[trigger] parts[i]) by {
        text::lemma_digits_are_digits(octets[i], 10);
    }
    lemma_joined_chars(parts, "."@);
}

proof fn lemma_groups_text_chars(groups: Seq<nat>)
    ensures
        addr_chars(groups_text(groups)),
{
    let parts = group_parts(groups);
    reveal_strlit(":");
    assert forall|i: int| 0 <= i < parts.len() implies addr_chars(#[trigger] parts[i]) by {
        text::lemma_digits_are_digits(groups[i], 16);
    }
    lemma_joined_chars(parts, ":"@);
}

/// The text of an address holds only characters of an address, so that there is
/// no white space around it.
pub proof fn lemma_text_is_trimmed(ip: IpAddr)
    ensures
        text::trimmed(ip_text(ip)) == ip_text(ip),
        forall|i: int| 0 <= i < ip_text(ip).len() ==> addr_char(#[trigger] ip_text(ip)[i]),
{
    let s = ip_text(ip);
    match ip {
        IpAddr::V4(n) => {
            lemma_ipv4_text_chars(n as nat);
        },
        IpAddr::V6(n) => {
            let n = n as nat;
            let groups = ipv6_groups(n);
            let at = longest_zero_run(groups, 0);
            lemma_ipv4_text_chars(n % 0x1_0000_0000);
            lemma_groups_text_chars(groups);
            lemma_groups_text_chars(groups.take(at));
            lemma_groups_text_chars(groups.skip(at + zero_run(groups, at)));
            reveal_strlit("::ffff:");
            reveal_strlit("::");
            let h = groups_text(groups.take(at));
            assert forall|i: int| 0 <= i < s.len() implies addr_char(#[trigger] s[i]) by {
                if is_mapped(n) {
                    if i >= 7 {
                        assert(s[i] == ipv4_text(n % 0x1_0000_0000)[i - 7]);
                    }
                } else if zero_run(groups, at) > 1 {
                    if i < h.len() {
                        assert(s[i] == h[i]);
                    } else if i >= h.len() + 2 {
                        assert(s[i] == groups_text(groups.skip(at + zero_run(groups, at)))[i
                            - h.len() - 2]);
                    }
                }
            }
        },
    }
    if s.len() > 0 {
        assert(addr_char(s[0]));
        assert(addr_char(s[s.len() - 1]));
    }
}

/// An address is read back from its text: the four octets in decimal, or the groups of an IPv6
/// address.
pub proof fn law_addresses_are_read_back(
    n: u32,
    m: u128,
    shown4: String,
    text4: &str,
    back4: Option<u32>,
    any: Option<IpAddr>,
    shown6: String,
    text6: &str,
    back6: Option<u128>,
    a: String,
    b: String,
)
    requires
        call_ensures(format_ipv4, (n,), shown4),
        text4@ == shown4@,
        call_ensures(parse_ipv4, (text4,), back4),
        call_ensures(parse_ip, (text4,), any),
        call_ensures(format_ipv6, (m,), shown6),
        text6@ == shown6@,
        call_ensures(parse_ipv6, (text6,), back6),
        call_ensures(format_ip, (IpAddr::V4(n),), a),
        call_ensures(format_ip, (IpAddr::V6(m),), b),
    ensures
        back4 == Some(n),
        any == Some(IpAddr::V4(n)),
        back6 == Some(m),
        a@ == shown4@,
        b@ == shown6@,
        shown4@ == text::decimal(n as nat / 0x1000000) + seq!['.'] + text::decimal(
            n as nat / 0x10000 % 256,
        ) + seq!['.'] + text::decimal(n as nat / 0x100 % 256) + seq!['.'] + text::decimal(
            n as nat % 256,
        ),
{
    law_ipv4_reads_back(n as nat);
    law_ipv6_reads_back(m as nat);
    reveal_strlit(".");
    assert("."@ =~= seq!['.']);
    reveal_with_fuel(text::join, 5);
    let parts = seq![
        text::decimal(n as nat / 16777216),
        text::decimal(n as nat / 65536 % 256),
        text::decimal(n as nat / 256 % 256),
        text::decimal(n as nat % 256),
    ];
    assert(parts.drop_last() =~= seq![parts[0], parts[1], parts[2]]);
    assert(parts.drop_last().drop_last() =~= seq![parts[0], parts[1]]);
    assert(parts.drop_last().drop_last().drop_last() =~= seq![parts[0]]);
}

/// An IPv4 address with a port behind a colon is a socket address.
pub proof fn law_socket_addresses_have_a_port(
    host: &str,
    port: u16,
    v4: Option<u32>,
    plain: &str,
    r: Option<SocketAddr>,
)
    requires
        call_ensures(parse_ipv4, (host,), v4),
        plain@ == host@ + seq![':'] + text::decimal(port as nat),
        call_ensures(parse_socket, (plain,), r),
        !host@.contains('[') && !host@.contains(':'),
    ensures
        r is Some == (v4 is Some),
        v4 is Some ==> r == Some(SocketAddr::V4(v4->0, port)),
{
    let d = text::decimal(port as nat);
    text::law_digits_read_back(port as nat, 10);
    let h = host@;
    let n = h.len() as int;
    let w = plain@;
    assert(w[n] == ':');
    assert(w.contains(':'));
    w.index_of_first_ensures(':');
    assert forall|j: int| 0 <= j < n implies w[j] != ':' by {
        assert(h[j] == w[j]);
        assert(h.contains(h[j]));
    }
    assert(w.index_of_first(':') == Some(n));
    assert(w.take(n) =~= h);
    assert(w.skip(n + 1) =~= d);
    if n > 0 {
        assert(w[0] == h[0]);
        assert(h.contains(h[0]));
    }
}

/// An IPv6 address in brackets with a port behind a colon is a socket address.
#[verifier::spinoff_prover]
#[verifier::rlimit(60)]
pub proof fn law_bracketed_addresses_have_a_port(
    host: &str,
    port: u16,
    v6: Option<u128>,
    bracketed: &str,
    s: Option<SocketAddr>,
)
    requires
        call_ensures(parse_ipv6, (host,), v6),
        bracketed@ == seq!['['] + host@ + seq![']', ':'] + text::decimal(port as nat),
        call_ensures(parse_socket, (bracketed,), s),
        !host@.contains(']') && !host@.contains('%'),
    ensures
        s is Some == (v6 is Some),
        v6 is Some ==> s == Some(SocketAddr::V6(v6->0, port, 0)),
{
    let d = text::decimal(port as nat);
    text::law_digits_read_back(port as nat, 10);
    let h = host@;
    let n = h.len() as int;
    let y = bracketed@;
    assert(y[0] == '[');
    assert(y[n + 1] == ']');
    assert(y.contains(']'));
    y.index_of_first_ensures(']');
    assert forall|j: int| 0 <= j < n + 1 implies y[j] != ']' by {
        if j > 0 {
            assert(h[j - 1] == y[j]);
            assert(h.contains(h[j - 1]));
        }
    }
    assert(y.index_of_first(']') == Some(n + 1));
    assert(y.subrange(1, n + 1) =~= h);
    let after = y.skip(n + 2);
    assert(after[0] == ':');
    assert(after.skip(1) =~= d);
    h.index_of_first_ensures('%');
    assert(h.index_of_first('%') is None);
}

/// A socket address is read back from its text.
pub proof fn law_socket_addresses_are_read_back(
    ip: u32,
    port: u16,
    shown: String,
    s: &str,
    r: Option<SocketAddr>,
    six: u128,
    inner: String,
    shown6: String,
)
    requires
        call_ensures(format_socket, (SocketAddr::V4(ip, port),), shown),
        s@ == shown@,
        call_ensures(parse_socket, (s,), r),
        call_ensures(format_ipv6, (six,), inner),
        call_ensures(format_socket, (SocketAddr::V6(six, port, 0),), shown6),
    ensures
        r == Some(SocketAddr::V4(ip, port)),
        shown6@ == seq!['['] + inner@ + seq![']', ':'] + text::decimal(port as nat),
{
    let d = text::decimal(port as nat);
    let h = ipv4_text(ip as nat);
    reveal_strlit(":");
    reveal_strlit("[");
    reveal_strlit("]:");
    assert(":"@ =~= seq![':']);
    assert("["@ =~= seq!['[']);
    assert("]:"@ =~= seq![']', ':']);
    law_ipv4_reads_back(ip as nat);
    text::law_digits_read_back(port as nat, 10);
    let w = s@;
    let n = h.len() as int;
    lemma_ipv4_text_has_no(ip as nat, ':');
    lemma_ipv4_text_chars(ip as nat);
    assert forall|j: int| 0 <= j < n implies w[j] != ':' && w[j] != '[' by {
        assert(w[j] == h[j]);
        assert(h.contains(h[j]));
    }
    assert(w[n] == ':');
    assert(w.contains(':'));
    w.index_of_first_ensures(':');
    assert(w.index_of_first(':') == Some(n));
    assert(w.take(n) =~= h);
    assert(w.skip(n + 1) =~= d);
}

} // verus!
