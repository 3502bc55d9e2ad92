//! Text as sequences of characters: the vocabulary in which every other module
//! states what it reads and writes.

use vstd::prelude::*;
use vstd::string::*;

verus! {

/// The characters with the Unicode property `White_Space`.
pub open spec fn is_white_space(c: char) -> bool {
    ||| '\u{9}' <= c <= '\u{d}'
    ||| c == ' '
    ||| c == '\u{85}'
    ||| c == '\u{a0}'
    ||| c == '\u{1680}'
    ||| '\u{2000}' <= c <= '\u{200a}'
    ||| c == '\u{2028}'
    ||| c == '\u{2029}'
    ||| c == '\u{202f}'
    ||| c == '\u{205f}'
    ||| c == '\u{3000}'
}

/// `s` without its leading white space.
pub open spec fn trim_start(s: Seq<char>) -> Seq<char>
    decreases s.len(),
{
    if s.len() > 0 && is_white_space(s[0]) {
        trim_start(s.skip(1))
    } else {
        s
    }
}

/// `s` without its trailing white space.
pub open spec fn trim_end(s: Seq<char>) -> Seq<char>
    decreases s.len(),
{
    if s.len() > 0 && is_white_space(s.last()) {
        trim_end(s.drop_last())
    } else {
        s
    }
}

/// `s` without white space at either end.
pub open spec fn trimmed(s: Seq<char>) -> Seq<char> {
    trim_end(trim_start(s))
}

/// ASCII lower case of one character; other characters stay as they are.
pub open spec fn lower_char(c: char) -> char {
    if 'A' <= c <= 'Z' {
        (c as u8 + 32) as char
    } else {
        c
    }
}

/// ASCII lower case of a text.
pub open spec fn ascii_lower(s: Seq<char>) -> Seq<char> {
    s.map_values(|c: char| lower_char(c))
}

pub open spec fn is_digit(c: char) -> bool {
    '0' <= c <= '9'
}

pub open spec fn is_alphanumeric(c: char) -> bool {
    is_digit(c) || 'a' <= c <= 'z' || 'A' <= c <= 'Z'
}

/// The pieces of `s` between occurrences of `sep`: always at least one piece.
pub open spec fn split(s: Seq<char>, sep: char) -> Seq<Seq<char>>
    decreases s.len(),
{
    if s.len() == 0 {
        seq![Seq::<char>::empty()]
    } else {
        let before = split(s.drop_last(), sep);
        if s.last() == sep {
            before.push(Seq::<char>::empty())
        } else {
            before.drop_last().push(before.last().push(s.last()))
        }
    }
}

/// The pieces with `sep` between them.
pub open spec fn join(parts: Seq<Seq<char>>, sep: Seq<char>) -> Seq<char>
    decreases parts.len(),
{
    if parts.len() == 0 {
        Seq::empty()
    } else if parts.len() == 1 {
        parts[0]
    } else {
        join(parts.drop_last(), sep) + sep + parts.last()
    }
}

/// Whether `s` begins with `prefix`.
pub open spec fn starts_with(s: Seq<char>, prefix: Seq<char>) -> bool {
    prefix.len() <= s.len() && s.take(prefix.len() as int) == prefix
}

/// Whether `s` ends with `suffix`.
pub open spec fn ends_with(s: Seq<char>, suffix: Seq<char>) -> bool {
    suffix.len() <= s.len() && s.skip(s.len() - suffix.len()) == suffix
}

/// The digit that stands for `d` (0 to 15), in lower case.
pub open spec fn digit_char(d: nat) -> char {
    if d < 10 {
        ('0' as u8 + d) as char
    } else {
        ('a' as u8 + (d - 10)) as char
    }
}

/// `n` written in base `base` (2 to 16) without leading zeros.
pub open spec fn digits_of(n: nat, base: nat) -> Seq<char>
    decreases n,
    when 2 <= base <= 16
{
    if n < base {
        seq![digit_char(n)]
    } else {
        proof {
            assert(n / base < n) by (nonlinear_arith)
                requires
                    2 <= base <= n,
            ;
        }
        digits_of(n / base, base).push(digit_char(n % base))
    }
}

/// `n` in decimal.
pub open spec fn decimal(n: nat) -> Seq<char> {
    digits_of(n, 10)
}

/// What one digit stands for; `None` for a character that is no digit of the base.
pub open spec fn digit_value(c: char, base: nat) -> Option<nat> {
    let d: int = if is_digit(c) {
        c as int - '0' as int
    } else if 'a' <= c <= 'f' {
        c as int - 'a' as int + 10
    } else if 'A' <= c <= 'F' {
        c as int - 'A' as int + 10
    } else {
        99
    };
    if 0 <= d < base {
        Some(d as nat)
    } else {
        None
    }
}

/// The number that a non-empty run of digits writes.
pub open spec fn number(s: Seq<char>, base: nat) -> Option<nat>
    decreases s.len(),
{
    if s.len() == 0 {
        None
    } else if s.len() == 1 {
        digit_value(s[0], base)
    } else {
        match (number(s.drop_last(), base), digit_value(s.last(), base)) {
            (Some(high), Some(low)) => Some(high * base + low),
            _ => None,
        }
    }
}

/// What an unsigned integer of at most `max` is read from: decimal digits, with
/// one `+` before them allowed.
pub open spec fn parsed_unsigned(s: Seq<char>, max: nat) -> Option<nat> {
    let digits = if s.len() > 0 && s[0] == '+' { s.skip(1) } else { s };
    match number(digits, 10) {
        Some(n) => if n <= max { Some(n) } else { None },
        None => None,
    }
}

/// The views of a list of texts.
pub open spec fn views(v: Seq<String>) -> Seq<Seq<char>> {
    v.map_values(|s: String| s@)
}

/// The view of an optional text.
pub open spec fn opt_view(o: Option<String>) -> Option<Seq<char>> {
    match o {
        Some(s) => Some(s@),
        None => None,
    }
}

/// `String::push`: the character is appended.
pub assume_specification[ String::push ](s: &mut String, c: char)
    ensures
        final(s)@ == old(s)@.push(c),
;

/// The characters of a text.
pub fn chars_of(s: &str) -> (r: Vec<char>)
    ensures
        r@ == s@,
{
    let mut r: Vec<char> = Vec::new();
    for c in it: s.chars()
        invariant
            r@ == it.seq().take(it.index()),
            it.seq() == s@,
    {
        r.push(c);
    }
    r
}

/// The text between two positions, counted in characters.
pub fn substring(s: &str, from: usize, to: usize) -> (r: String)
    requires
        from <= to <= s@.len(),
    ensures
        r@ == s@.subrange(from as int, to as int),
{
    s.substring_char(from, to).to_owned()
}

/// Whether two texts are the same.
pub fn same_text(a: &str, b: &str) -> (r: bool)
    ensures
        r == (a@ == b@),
{
    let x: Vec<char> = chars_of(a);
    let y: Vec<char> = chars_of(b);
    if x.len() != y.len() {
        return false;
    }
    let mut i: usize = 0;
    while i < x.len()
        invariant
            i <= x.len(),
            x.len() == y.len(),
            x@ == a@,
            y@ == b@,
            x@.take(i as int) == y@.take(i as int),
        decreases x.len() - i,
    {
        if x[i] != y[i] {
            assert(a@[i as int] != b@[i as int]);
            return false;
        }
        i += 1;
        assert(x@.take(i as int) == y@.take(i as int));
    }
    assert(x@.take(i as int) == x@);
    assert(y@.take(i as int) == y@);
    true
}

pub fn white_space(c: char) -> (r: bool)
    ensures
        r == is_white_space(c),
{
    ('\u{9}' <= c && c <= '\u{d}') || c == ' ' || c == '\u{85}' || c == '\u{a0}' || c == '\u{1680}'
        || ('\u{2000}' <= c && c <= '\u{200a}') || c == '\u{2028}' || c == '\u{2029}' || c
        == '\u{202f}' || c == '\u{205f}' || c == '\u{3000}'
}

/// The text without white space at either end.
pub fn trim(s: &str) -> (r: String)
    ensures
        r@ == trimmed(s@),
{
    let v: Vec<char> = chars_of(s);
    let mut from: usize = 0;
    assert(v@.skip(0) == v@);
    while from < v.len() && white_space(v[from])
        invariant
            from <= v.len(),
            trim_start(v@) == trim_start(v@.skip(from as int)),
        decreases v.len() - from,
    {
        assert(v@.skip(from as int).skip(1) == v@.skip(from + 1));
        from += 1;
    }
    let ghost rest = v@.skip(from as int);
    let mut to: usize = v.len();
    assert(rest.take(rest.len() as int) == rest);
    while to > from && white_space(v[to - 1])
        invariant
            from <= to <= v.len(),
            rest == v@.skip(from as int),
            trim_end(rest) == trim_end(rest.take(to - from)),
        decreases to,
    {
        let ghost now = rest.take(to - from);
        assert(now.last() == v@[to - 1]);
        assert(now.drop_last() == rest.take(to - 1 - from));
        to -= 1;
    }
    let ghost now = rest.take(to - from);
    assert(to > from ==> now.last() == v@[to - 1]);
    assert(now == v@.subrange(from as int, to as int));
    substring(s, from, to)
}

pub fn to_lower_char(c: char) -> (r: char)
    ensures
        r == lower_char(c),
{
    if 'A' <= c && c <= 'Z' {
        ((c as u8) + 32) as char
    } else {
        c
    }
}

/// ASCII lower case of a text.
pub fn lower(s: &str) -> (r: String)
    ensures
        r@ == ascii_lower(s@),
{
    let v: Vec<char> = chars_of(s);
    let mut r: String = String::new();
    let mut i: usize = 0;
    while i < v.len()
        invariant
            i <= v.len(),
            r@ == ascii_lower(v@.take(i as int)),
        decreases v.len() - i,
    {
        r.push(to_lower_char(v[i]));
        i += 1;
        assert(ascii_lower(v@.take(i as int)) == ascii_lower(v@.take(i - 1)).push(
            lower_char(v@[i - 1]),
        ));
    }
    assert(v@.take(i as int) == v@);
    r
}

/// The position of the first `c` in `v`.
pub fn find_char(v: &[char], c: char) -> (r: Option<usize>)
    ensures
        match r {
            Some(i) => i < v.len() && v@[i as int] == c && v@.index_of_first(c) == Some(i as int)
                && !v@.take(i as int).contains(c),
            None => !v@.contains(c) && v@.index_of_first(c) is None,
        },
{
    let mut i: usize = 0;
    while i < v.len()
        invariant
            i <= v.len(),
            forall|j: int| 0 <= j < i ==> v@[j] != c,
        decreases v.len() - i,
    {
        if v[i] == c {
            proof {
                v@.index_of_first_ensures(c);
                assert(v@.contains(v@[i as int]));
            }
            return Some(i);
        }
        i += 1;
    }
    proof {
        v@.index_of_first_ensures(c);
    }
    None
}

/// Whether `c` occurs in a text.
pub fn contains_char(s: &str, c: char) -> (r: bool)
    ensures
        r == s@.contains(c),
{
    find_char(chars_of(s).as_slice(), c).is_some()
}

/// The pieces of a text between occurrences of `sep`.
pub fn split_text(s: &str, sep: char) -> (r: Vec<String>)
    ensures
        views(r@) == split(s@, sep),
        r.len() >= 1,
{
    let v: Vec<char> = chars_of(s);
    let mut r: Vec<String> = Vec::new();
    let mut piece: String = String::new();
    let mut i: usize = 0;
    assert(views(r@).push(piece@) == split(v@.take(0), sep));
    while i < v.len()
        invariant
            i <= v.len(),
            views(r@).push(piece@) == split(v@.take(i as int), sep),
        decreases v.len() - i,
    {
        let ghost before = split(v@.take(i as int), sep);
        let ghost done = r@;
        assert(v@.take(i + 1).drop_last() == v@.take(i as int));
        assert(before.last() == piece@);
        assert(before.drop_last() == views(r@));
        if v[i] == sep {
            r.push(piece);
            piece = String::new();
            assert(views(r@) == before);
        } else {
            piece.push(v[i]);
        }
        i += 1;
    }
    assert(v@.take(i as int) == v@);
    let ghost done = r@;
    let ghost last = piece@;
    r.push(piece);
    assert(views(r@) == views(done).push(last));
    r
}

/// The pieces of a text with `sep` between them.
pub fn join_text(parts: &Vec<String>, sep: &str) -> (r: String)
    ensures
        r@ == join(views(parts@), sep@),
{
    let mut r: String = String::new();
    let mut i: usize = 0;
    while i < parts.len()
        invariant
            i <= parts.len(),
            r@ == join(views(parts@).take(i as int), sep@),
        decreases parts.len() - i,
    {
        assert(views(parts@).take(i + 1).drop_last() == views(parts@).take(i as int));
        if i > 0 {
            r.append(sep);
        }
        let ghost before = r@;
        r.append(parts[i].as_str());
        assert(i == 0 ==> r@ == parts@[i as int]@);
        i += 1;
    }
    assert(views(parts@).take(i as int) == views(parts@));
    r
}

proof fn lemma_split_append(a: Seq<char>, b: Seq<char>, sep: char)
    requires
        !b.contains(sep),
    ensures
        split(a + b, sep) == split(a, sep).drop_last().push(split(a, sep).last() + b),
        split(a, sep).len() >= 1,
    decreases b.len(),
{
    if b.len() == 0 {
        assert(a + b =~= a);
        lemma_split_nonempty(a, sep);
        assert(split(a, sep).last() + b =~= split(a, sep).last());
        assert(split(a, sep) =~= split(a, sep).drop_last().push(split(a, sep).last()));
    } else {
        let front = b.drop_last();
        assert(!front.contains(sep)) by {
            assert(forall|i: int| 0 <= i < front.len() ==> front[i] == b[i]);
        }
        lemma_split_append(a, front, sep);
        assert((a + b).drop_last() =~= a + front);
        assert((a + b).last() == b.last());
        assert(b.contains(b.last()));
        assert((split(a, sep).last() + front).push(b.last()) =~= split(a, sep).last() + b);
        assert(split(a + b, sep) =~= split(a, sep).drop_last().push(split(a, sep).last() + b));
    }
}

proof fn lemma_split_nonempty(s: Seq<char>, sep: char)
    ensures
        split(s, sep).len() >= 1,
    decreases s.len(),
{
    if s.len() > 0 {
        lemma_split_nonempty(s.drop_last(), sep);
    }
}

/// Splitting what was joined gives the pieces, as long as none of them holds
/// the separator.
pub proof fn law_split_join(parts: Seq<Seq<char>>, sep: char)
    requires
        parts.len() >= 1,
        forall|i: int| 0 <= i < parts.len() ==> !(#[trigger] parts[i]).contains(sep),
    ensures
        split(join(parts, seq![sep]), sep) == parts,
    decreases parts.len(),
{
    if parts.len() == 1 {
        lemma_split_append(Seq::empty(), parts[0], sep);
        assert(Seq::<char>::empty() + parts[0] =~= parts[0]);
        assert(split(Seq::empty(), sep) =~= seq![Seq::<char>::empty()]);
        assert(split(parts[0], sep) =~= parts);
    } else {
        let front = parts.drop_last();
        assert forall|i: int| 0 <= i < front.len() implies !(#[trigger] front[i]).contains(sep) by {
            assert(front[i] == parts[i]);
        }
        law_split_join(front, sep);
        let head = join(front, seq![sep]) + seq![sep];
        assert(head.drop_last() =~= join(front, seq![sep]));
        assert(split(head, sep) =~= front.push(Seq::empty()));
        assert(!parts.last().contains(sep));
        lemma_split_append(head, parts.last(), sep);
        assert(Seq::<char>::empty() + parts.last() =~= parts.last());
        assert(split(head, sep).drop_last() =~= front);
        assert(front.push(parts.last()) =~= parts);
    }
}

/// Whether a text begins with `prefix`.
pub fn has_prefix(s: &str, prefix: &str) -> (r: bool)
    ensures
        r == starts_with(s@, prefix@),
{
    let n: usize = prefix.unicode_len();
    if n > s.unicode_len() {
        return false;
    }
    assert(s@.subrange(0, n as int) == s@.take(n as int));
    same_text(s.substring_char(0, n), prefix)
}

/// Whether a text ends with `suffix`.
pub fn has_suffix(s: &str, suffix: &str) -> (r: bool)
    ensures
        r == ends_with(s@, suffix@),
{
    let n: usize = suffix.unicode_len();
    let len: usize = s.unicode_len();
    if n > len {
        return false;
    }
    assert(s@.subrange(len - n, len as int) == s@.skip(len - n));
    same_text(s.substring_char(len - n, len), suffix)
}

/// `n` in base `base`, without leading zeros.
pub fn digits_text(n: u64, base: u64) -> (r: String)
    requires
        2 <= base <= 16,
    ensures
        r@ == digits_of(n as nat, base as nat),
    decreases n,
{
    if n < base {
        let mut r: String = String::new();
        r.push(to_digit_char(n));
        assert(r@ == seq![digit_char(n as nat)]);
        r
    } else {
        proof {
            assert(n / base < n) by (nonlinear_arith)
                requires
                    2 <= base <= n,
            ;
            assert(n % base < base) by (nonlinear_arith)
                requires
                    2 <= base,
            ;
        }
        let mut r: String = digits_text(n / base, base);
        r.push(to_digit_char(n % base));
        r
    }
}

fn to_digit_char(d: u64) -> (r: char)
    requires
        d < 16,
    ensures
        r == digit_char(d as nat),
{
    if d < 10 {
        (48 + d as u8) as char
    } else {
        (87 + d as u8) as char
    }
}

/// `n` in decimal.
pub fn decimal_text(n: u64) -> (r: String)
    ensures
        r@ == decimal(n as nat),
{
    digits_text(n, 10)
}

/// A run of digits writes a number only if each of its beginnings does, and a
/// longer run never writes a smaller number.
pub proof fn lemma_number_prefix(s: Seq<char>, i: int, base: nat)
    requires
        1 <= i <= s.len(),
        1 <= base,
        number(s, base) is Some,
    ensures
        number(s.take(i), base) is Some,
        number(s.take(i), base)->0 <= number(s, base)->0,
    decreases s.len(),
{
    if i == s.len() {
        assert(s.take(i) == s);
    } else {
        lemma_number_prefix(s.drop_last(), i, base);
        assert(s.drop_last().take(i) == s.take(i));
        let high = number(s.drop_last(), base)->0;
        assert(high * base >= high) by (nonlinear_arith)
            requires
                base >= 1,
        ;
    }
}

/// Writing a number and reading it back gives the number.
pub proof fn law_digits_read_back(n: nat, base: nat)
    requires
        2 <= base <= 16,
    ensures
        number(digits_of(n, base), base) == Some(n),
        digits_of(n, base).len() >= 1,
    decreases n,
{
    if n < base {
        assert(digits_of(n, base)[0] == digit_char(n));
    } else {
        assert(n / base < n) by (nonlinear_arith)
            requires
                2 <= base <= n,
        ;
        assert(n % base < base) by (nonlinear_arith)
            requires
                2 <= base,
        ;
        law_digits_read_back(n / base, base);
        let s = digits_of(n, base);
        assert(s.drop_last() == digits_of(n / base, base));
        assert(digit_value(s.last(), base) == Some(n % base));
        assert((n / base) * base + n % base == n) by (nonlinear_arith)
            requires
                2 <= base,
        ;
    }
}

/// Written digits are digits.
pub proof fn lemma_digits_are_digits(n: nat, base: nat)
    requires
        2 <= base <= 16,
    ensures
        forall|i: int|
            0 <= i < digits_of(n, base).len() ==> #[trigger] digit_value(
                digits_of(n, base)[i],
                16,
            ) is Some,
    decreases n,
{
    if n >= base {
        assert(n / base < n) by (nonlinear_arith)
            requires
                2 <= base <= n,
        ;
        assert(n % base < base) by (nonlinear_arith)
            requires
                2 <= base,
        ;
        lemma_digits_are_digits(n / base, base);
    }
}

fn to_digit_value(c: char, base: u64) -> (r: Option<u64>)
    requires
        base <= 16,
    ensures
        match r {
            Some(d) => digit_value(c, base as nat) == Some(d as nat),
            None => digit_value(c, base as nat) is None,
        },
{
    let d: u64 = if '0' <= c && c <= '9' {
        c as u64 - 48
    } else if 'a' <= c && c <= 'f' {
        c as u64 - 97 + 10
    } else if 'A' <= c && c <= 'F' {
        c as u64 - 65 + 10
    } else {
        99
    };
    if d < base {
        Some(d)
    } else {
        None
    }
}

/// The number that a non-empty run of digits writes, if it is at most `max`.
pub fn read_number(v: &[char], base: u64, max: u64) -> (r: Option<u64>)
    requires
        2 <= base <= 16,
    ensures
        match r {
            Some(n) => number(v@, base as nat) == Some(n as nat) && n <= max,
            None => match number(v@, base as nat) {
                Some(n) => n > max,
                None => true,
            },
        },
{
    if v.len() == 0 {
        return None;
    }
    let mut value: u64 = 0;
    let mut i: usize = 0;
    while i < v.len()
        invariant
            i <= v.len(),
            2 <= base <= 16,
            i == 0 ==> value == 0,
            i > 0 ==> number(v@.take(i as int), base as nat) == Some(value as nat) && value <= max,
        decreases v.len() - i,
    {
        let ghost next_text = v@.take(i + 1);
        assert(i > 0 ==> next_text.drop_last() == v@.take(i as int));
        assert(next_text.last() == v@[i as int]);
        match to_digit_value(v[i], base) {
            None => {
                proof {
                    if number(v@, base as nat) is Some {
                        lemma_number_prefix(v@, i + 1, base as nat);
                    }
                }
                return None;
            },
            Some(d) => {
                proof {
                    assert(value * base <= 0xffff_ffff_ffff_ffff * 16) by (nonlinear_arith)
                        requires
                            value <= 0xffff_ffff_ffff_ffff,
                            base <= 16,
                    ;
                }
                let next: u128 = value as u128 * base as u128 + d as u128;
                assert(number(next_text, base as nat) == Some(next as nat)) by {
                    if i == 0 {
                        assert(0 * base == 0) by (nonlinear_arith);
                    }
                }
                if next > max as u128 {
                    proof {
                        if number(v@, base as nat) is Some {
                            lemma_number_prefix(v@, i + 1, base as nat);
                        }
                    }
                    return None;
                }
                value = next as u64;
            },
        }
        i += 1;
    }
    assert(v@.take(i as int) == v@);
    Some(value)
}

/// Reads an unsigned integer of at most `max`, as `str::parse` does for the
/// unsigned integer types.
pub fn parse_unsigned(s: &str, max: u64) -> (r: Option<u64>)
    ensures
        match r {
            Some(n) => parsed_unsigned(s@, max as nat) == Some(n as nat),
            None => parsed_unsigned(s@, max as nat) is None,
        },
{
    let v: Vec<char> = chars_of(s);
    if v.len() > 0 && v[0] == '+' {
        let rest: &[char] = vstd::slice::slice_subrange(v.as_slice(), 1, v.len());
        assert(rest@ == v@.skip(1));
        read_number(rest, 10, max)
    } else {
        read_number(v.as_slice(), 10, max)
    }
}

/// A text in double quotes, with the escapes that Rust's `Debug` writes.
pub uninterp spec fn quoted(s: Seq<char>) -> Seq<char>;

/// Whether a text holds only letters, digits, blanks and signs of ASCII, and neither
/// quotes nor backslashes.
pub open spec fn is_plain(s: Seq<char>) -> bool {
    forall|i: int|
        0 <= i < s.len() ==> ' ' <= (#[trigger] s[i]) <= '~' && s[i] != '"' && s[i] != '\''
            && s[i] != '\\'
}

/// `format!` with `{:?}` on a `str`: the text in double quotes, escaped. What is
/// escaped is decided by tables of the standard library, so the result is named; in
/// plain ASCII text nothing is.
#[verifier::external_body]
pub(crate) fn quote(s: &str) -> (r: String)
    ensures
        r@ == quoted(s@),
        is_plain(s@) ==> r@ == seq!['"'] + s@ + seq!['"'],
{
    format!("{:?}", s)
}

/// `std::str::from_utf8`: the text that the bytes encode, if they are UTF-8.
#[verifier::external_body]
pub(crate) fn from_utf8(bytes: &[u8]) -> (r: Option<String>)
    ensures
        match r {
            Some(s) => vstd::utf8::valid_utf8(bytes@) && vstd::utf8::encode_utf8(s@) == bytes@,
            None => !vstd::utf8::valid_utf8(bytes@),
        },
{
    std::str::from_utf8(bytes).ok().map(String::from)
}

/// Unicode lower case of a text.
pub uninterp spec fn unicode_lower(s: Seq<char>) -> Seq<char>;

/// `str::to_lowercase`: the Unicode lower case of a text, which on ASCII text
/// is the ASCII lower case.
#[verifier::external_body]
pub(crate) fn lowercase(s: &str) -> (r: String)
    ensures
        r@ == unicode_lower(s@),
        vstd::utf8::is_ascii_chars(s@) ==> r@ == ascii_lower(s@),
{
    s.to_lowercase()
}

/// Texts in quotes, as Rust's `Debug` writes a list of them.
pub open spec fn quoted_list(texts: Seq<Seq<char>>) -> Seq<char> {
    "["@ + join(texts.map_values(|t: Seq<char>| quoted(t)), ", "@) + "]"@
}

/// Texts in quotes, as Rust's `Debug` writes a list of them.
pub fn quote_list(texts: &Vec<String>) -> (r: String)
    ensures
        r@ == quoted_list(views(texts@)),
{
    let ghost all = views(texts@).map_values(|t: Seq<char>| quoted(t));
    let mut parts: Vec<String> = Vec::new();
    let mut i: usize = 0;
    assert(views(parts@) =~= all.take(0));
    while i < texts.len()
        invariant
            i <= texts.len() == all.len(),
            all == views(texts@).map_values(|t: Seq<char>| quoted(t)),
            views(parts@) == all.take(i as int),
        decreases texts.len() - i,
    {
        let ghost before = views(parts@);
        parts.push(quote(texts[i].as_str()));
        assert(views(parts@) =~= before.push(all[i as int]));
        assert(all.take(i + 1) =~= all.take(i as int).push(all[i as int]));
        i += 1;
    }
    assert(all.take(i as int) =~= all);
    let mut r: String = "[".to_owned();
    r.append(join_text(&parts, ", ").as_str());
    r.append("]");
    r
}

/// The decimal digits of a number, behind a minus sign where it is negative.
pub open spec fn signed_decimal(n: int) -> Seq<char> {
    if n < 0 {
        "-"@ + decimal((-n) as nat)
    } else {
        decimal(n as nat)
    }
}

/// The decimal digits of a number.
pub fn signed_text(n: i64) -> (r: String)
    ensures
        r@ == signed_decimal(n as int),
{
    if n < 0 {
        let m: u64 = (-(n as i128)) as u64;
        "-".to_owned().concat(decimal_text(m).as_str())
    } else {
        decimal_text(n as u64)
    }
}

/// A text without the given character at its end.
pub open spec fn without_end(s: Seq<char>, c: char) -> Seq<char>
    decreases s.len(),
{
    if s.len() > 0 && s.last() == c {
        without_end(s.drop_last(), c)
    } else {
        s
    }
}

/// A text without the given character at its end.
pub fn drop_end(s: &str, c: char) -> (r: String)
    ensures
        r@ == without_end(s@, c),
{
    let v: Vec<char> = chars_of(s);
    let mut n: usize = v.len();
    assert(v@.take(n as int) =~= v@);
    while n > 0 && v[n - 1] == c
        invariant
            n <= v.len(),
            v@ == s@,
            without_end(s@, c) == without_end(v@.take(n as int), c),
        decreases n,
    {
        assert(v@.take(n as int).drop_last() =~= v@.take(n - 1));
        assert(v@.take(n as int).last() == v@[n - 1]);
        n -= 1;
    }
    assert(n > 0 ==> v@.take(n as int).last() == v@[n - 1]);
    let r: String = substring(s, 0, n);
    assert(r@ =~= v@.take(n as int));
    r
}

/// Whether a text holds another.
pub open spec fn holds(s: Seq<char>, part: Seq<char>) -> bool {
    exists|i: int| 0 <= i <= s.len() - part.len() && #[trigger] s.subrange(i, i + part.len()) == part
}

/// Whether a text holds another.
pub fn holds_text(s: &str, part: &str) -> (r: bool)
    ensures
        r == holds(s@, part@),
{
    let n: usize = chars_of(s).len();
    let m: usize = chars_of(part).len();
    if m > n {
        return false;
    }
    let mut i: usize = 0;
    while i <= n - m
        invariant
            m <= n,
            n == s@.len(),
            m == part@.len(),
            i <= n - m,
            forall|j: int| 0 <= j < i ==> #[trigger] s@.subrange(j, j + part@.len()) != part@,
        decreases n - m + 1 - i,
    {
        let here: String = substring(s, i, i + m);
        if same_text(here.as_str(), part) {
            assert(s@.subrange(i as int, i + part@.len()) == part@);
            return true;
        }
        if i == n - m {
            return false;
        }
        i += 1;
    }
    false
}

/// A text without any repetition of another at its start.
pub open spec fn without_prefixes(s: Seq<char>, prefix: Seq<char>) -> Seq<char>
    decreases s.len(),
{
    if prefix.len() > 0 && starts_with(s, prefix) {
        without_prefixes(s.skip(prefix.len() as int), prefix)
    } else {
        s
    }
}

/// A text without any repetition of another at its start.
pub fn drop_prefixes(s: &str, prefix: &str) -> (r: String)
    ensures
        r@ == without_prefixes(s@, prefix@),
{
    let m: usize = chars_of(prefix).len();
    let mut rest: String = s.to_owned();
    if m == 0 {
        return rest;
    }
    while has_prefix(rest.as_str(), prefix)
        invariant
            m == prefix@.len(),
            m > 0,
            without_prefixes(s@, prefix@) == without_prefixes(rest@, prefix@),
        decreases rest@.len(),
    {
        let n: usize = chars_of(rest.as_str()).len();
        let next: String = substring(rest.as_str(), m, n);
        assert(next@ =~= rest@.skip(m as int));
        rest = next;
    }
    rest
}

/// Whether two characters are the same but for the case of an ASCII letter.
pub open spec fn same_letter(a: char, b: char) -> bool {
    ||| a == b
    ||| ('A' <= a <= 'Z' && b as int == a as int + 32)
    ||| ('A' <= b <= 'Z' && a as int == b as int + 32)
}

/// Whether two texts are the same but for the case of ASCII letters.
pub open spec fn same_letters(a: Seq<char>, b: Seq<char>) -> bool {
    a.len() == b.len() && forall|i: int| 0 <= i < a.len() ==> same_letter(#[trigger] a[i], b[i])
}

pub proof fn lemma_same_letters(a: Seq<char>, b: Seq<char>)
    ensures
        (ascii_lower(a) == ascii_lower(b)) == same_letters(a, b),
{
    if ascii_lower(a) == ascii_lower(b) {
        assert(ascii_lower(a).len() == a.len() && ascii_lower(b).len() == b.len());
        assert forall|i: int| 0 <= i < a.len() implies same_letter(#[trigger] a[i], b[i]) by {
            assert(ascii_lower(a)[i] == ascii_lower(b)[i]);
        }
    }
    if same_letters(a, b) {
        assert forall|i: int| 0 <= i < a.len() implies ascii_lower(a)[i] == ascii_lower(b)[i] by {
            assert(same_letter(a[i], b[i]));
        }
        assert(ascii_lower(a) =~= ascii_lower(b));
    }
}

/// Lower case changes nothing but the case of ASCII letters, leaves none of them in
/// upper case, and is the same of two texts if and only if they differ in no more.
pub proof fn law_lower_case_folds_letters(a: &str, b: &str, x: String, y: String)
    requires
        call_ensures(lower, (a,), x),
        call_ensures(lower, (b,), y),
    ensures
        same_letters(x@, a@),
        forall|i: int| 0 <= i < x@.len() ==> !('A' <= (#[trigger] x@[i]) <= 'Z'),
        (x@ == y@) == same_letters(a@, b@),
{
    lemma_same_letters(a@, b@);
    assert forall|i: int| 0 <= i < x@.len() implies same_letter(#[trigger] x@[i], a@[i]) by {
        assert(x@[i] == lower_char(a@[i]));
    }
}

proof fn lemma_trim_start(s: Seq<char>) -> (n: int)
    ensures
        0 <= n <= s.len(),
        trim_start(s) == s.skip(n),
        forall|i: int| 0 <= i < n ==> is_white_space(#[trigger] s[i]),
        trim_start(s).len() > 0 ==> !is_white_space(trim_start(s)[0]),
    decreases s.len(),
{
    if s.len() > 0 && is_white_space(s[0]) {
        let n = lemma_trim_start(s.skip(1));
        assert(s.skip(1).skip(n) =~= s.skip(n + 1));
        assert forall|i: int| 0 <= i < n + 1 implies is_white_space(#[trigger] s[i]) by {
            if i > 0 {
                assert(s.skip(1)[i - 1] == s[i]);
            }
        }
        n + 1
    } else {
        assert(s.skip(0) =~= s);
        0
    }
}

proof fn lemma_trim_end(s: Seq<char>) -> (n: int)
    ensures
        0 <= n <= s.len(),
        trim_end(s) == s.take(n),
        forall|i: int| n <= i < s.len() ==> is_white_space(#[trigger] s[i]),
        n > 0 ==> !is_white_space(s[n - 1]),
    decreases s.len(),
{
    if s.len() > 0 && is_white_space(s.last()) {
        let n = lemma_trim_end(s.drop_last());
        assert(s.drop_last().take(n) =~= s.take(n));
        assert forall|i: int| n <= i < s.len() implies is_white_space(#[trigger] s[i]) by {
            if i < s.len() - 1 {
                assert(s.drop_last()[i] == s[i]);
            }
        }
        if n > 0 {
            assert(s.drop_last()[n - 1] == s[n - 1]);
        }
        n
    } else {
        assert(s.take(s.len() as int) =~= s);
        s.len() as int
    }
}

/// Trimming takes white space off both ends and nothing else, and leaves none there.
pub proof fn law_trimming_takes_white_space_off(s: &str, r: String) -> (at: (int, int))
    requires
        call_ensures(trim, (s,), r),
    ensures
        0 <= at.0 <= at.1 <= s@.len(),
        r@ == s@.subrange(at.0, at.1),
        forall|i: int| 0 <= i < at.0 || at.1 <= i < s@.len() ==> is_white_space(#[trigger] s@[i]),
        r@.len() > 0 ==> !is_white_space(r@[0]) && !is_white_space(r@.last()),
{
    let from = lemma_trim_start(s@);
    let rest = trim_start(s@);
    let n = lemma_trim_end(rest);
    assert(r@ =~= s@.subrange(from, from + n));
    assert forall|i: int| 0 <= i < from || from + n <= i < s@.len() implies is_white_space(
        #[trigger] s@[i],
    ) by {
        if i >= from {
            assert(rest[i - from] == s@[i]);
        }
    }
    (from, from + n)
}

/// The parts of a text hold no separator, and joined with it they are the text.
pub proof fn law_split_parts_join(s: &str, sep: char, r: Vec<String>)
    requires
        call_ensures(split_text, (s, sep), r),
    ensures
        r@.len() >= 1,
        join(views(r@), seq![sep]) == s@,
        forall|i: int| 0 <= i < r@.len() ==> !(#[trigger] r@[i])@.contains(sep),
{
    lemma_split_parts(s@, sep);
    assert forall|i: int| 0 <= i < r@.len() implies !(#[trigger] r@[i])@.contains(sep) by {
        assert(views(r@)[i] == r@[i]@);
    }
}

proof fn lemma_split_parts(s: Seq<char>, sep: char)
    ensures
        split(s, sep).len() >= 1,
        join(split(s, sep), seq![sep]) == s,
        forall|i: int| 0 <= i < split(s, sep).len() ==> !(#[trigger] split(s, sep)[i]).contains(sep),
    decreases s.len(),
{
    let parts = split(s, sep);
    let by = seq![sep];
    if s.len() == 0 {
        assert(parts[0] =~= Seq::<char>::empty());
        assert(join(parts, by) =~= s);
    } else {
        let before = split(s.drop_last(), sep);
        lemma_split_parts(s.drop_last(), sep);
        assert(s =~= s.drop_last().push(s.last()));
        assert(parts.drop_last() =~= if s.last() == sep {
            before
        } else {
            before.drop_last()
        });
        assert forall|i: int| 0 <= i < parts.len() implies !(#[trigger] parts[i]).contains(sep) by {
            if i < parts.len() - 1 {
                assert(parts[i] == before[i]);
            } else if s.last() != sep {
                assert(!before[before.len() - 1].contains(sep));
                let last = before.last();
                if last.push(s.last()).contains(sep) {
                    let k = choose|k: int|
                        0 <= k < last.push(s.last()).len() && last.push(s.last())[k] == sep;
                    assert(last[k] == sep);
                }
            }
        }
        if s.last() == sep {
            assert(join(parts, by) =~= join(before, by) + by + Seq::<char>::empty());
            assert(join(parts, by) =~= s);
        } else if before.len() == 1 {
            assert(join(parts, by) =~= before[0].push(s.last()));
        } else {
            assert(join(before, by) == join(before.drop_last(), by) + by + before.last());
            assert(join(parts, by) =~= join(before.drop_last(), by) + by + before.last().push(
                s.last(),
            ));
            assert(join(parts, by) =~= s);
        }
    }
}

/// A part of a text holds only characters of the text.
pub proof fn lemma_split_chars(s: Seq<char>, sep: char, k: int, i: int)
    requires
        0 <= k < split(s, sep).len(),
        0 <= i < split(s, sep)[k].len(),
    ensures
        exists|at: int| 0 <= at < s.len() && s[at] == split(s, sep)[k][i],
    decreases s.len(),
{
    if s.len() > 0 {
        let front = s.drop_last();
        let before = split(front, sep);
        let c = split(s, sep)[k][i];
        if s.last() != sep && k == before.len() - 1 && i == before.last().len() {
            assert(s[s.len() - 1] == c);
        } else {
            lemma_split_chars(front, sep, k, i);
            let at = choose|at: int| 0 <= at < front.len() && front[at] == c;
            assert(s[at] == c);
        }
    }
}

/// The encoding of two texts put together is that of the one and then that of the other.
pub proof fn lemma_encoding_joins(a: Seq<char>, b: Seq<char>)
    ensures
        vstd::utf8::encode_utf8(a + b) == vstd::utf8::encode_utf8(a) + vstd::utf8::encode_utf8(b),
    decreases a.len(),
{
    if a.len() == 0 {
        assert(a + b =~= b);
        assert(vstd::utf8::encode_utf8(a) =~= Seq::empty());
    } else {
        lemma_encoding_joins(a.drop_first(), b);
        assert((a + b).drop_first() =~= a.drop_first() + b);
        assert((a + b)[0] == a[0]);
    }
    assert(vstd::utf8::encode_utf8(a + b) =~= vstd::utf8::encode_utf8(a) + vstd::utf8::encode_utf8(
        b,
    ));
}

/// A number is read back from its decimal digits, with or without a plus sign, where it is not
/// too large. A text without digits, or with anything else in it, is no number.
pub proof fn law_numbers_are_read_back(
    n: u64,
    max: u64,
    shown: String,
    s: &str,
    signed: &str,
    r: Option<u64>,
    q: Option<u64>,
    any: &str,
    i: int,
    p: Option<u64>,
)
    requires
        call_ensures(decimal_text, (n,), shown),
        s@ == shown@,
        signed@ == seq!['+'] + shown@,
        call_ensures(parse_unsigned, (s, max), r),
        call_ensures(parse_unsigned, (signed, max), q),
        call_ensures(parse_unsigned, (any, max), p),
    ensures
        n <= max ==> r == Some(n) && q == Some(n),
        n > max ==> r is None && q is None,
        p is Some ==> p->0 <= max,
        any@.len() == 0 ==> p is None,
        0 <= i < any@.len() && !('0' <= any@[i] <= '9') && !(i == 0 && any@[0] == '+') ==> p
            is None,
{
    law_digits_read_back(n as nat, 10);
    lemma_digits_are_digits(n as nat, 10);
    let d = decimal(n as nat);
    assert(digit_value(d[0], 16) is Some);
    assert(signed@.skip(1) =~= d);
    if 0 <= i < any@.len() && !('0' <= any@[i] <= '9') && !(i == 0 && any@[0] == '+') {
        let digits = if any@[0] == '+' {
            any@.skip(1)
        } else {
            any@
        };
        let k = if any@[0] == '+' {
            i - 1
        } else {
            i
        };
        assert(digits[k] == any@[i]);
        lemma_number_digits(digits, k);
    }
}

proof fn lemma_number_digits(s: Seq<char>, k: int)
    requires
        0 <= k < s.len(),
        !('0' <= s[k] <= '9'),
    ensures
        number(s, 10) is None,
    decreases s.len(),
{
    assert(digit_value(s[k], 10) is None);
    if s.len() > 1 && k < s.len() - 1 {
        assert(s.drop_last()[k] == s[k]);
        lemma_number_digits(s.drop_last(), k);
    }
}

/// A text begins, or ends, with another if and only if something put behind it, or before it,
/// makes it up.
pub proof fn law_beginnings_and_ends_are_found(
    s: &str,
    part: &str,
    rest: Seq<char>,
    begins: bool,
    ends: bool,
    same: bool,
)
    requires
        call_ensures(has_prefix, (s, part), begins),
        call_ensures(has_suffix, (s, part), ends),
        call_ensures(same_text, (s, part), same),
    ensures
        s@ == part@ + rest ==> begins,
        s@ == rest + part@ ==> ends,
        begins ==> s@.len() >= part@.len() && s@ == part@ + s@.skip(part@.len() as int),
        ends ==> s@.len() >= part@.len() && s@ == s@.take(s@.len() - part@.len()) + part@,
        same == (s@ == part@),
{
    if s@ == part@ + rest {
        assert(s@.take(part@.len() as int) =~= part@);
    }
    if s@ == rest + part@ {
        assert(s@.skip(s@.len() - part@.len()) =~= part@);
    }
    if begins {
        assert(s@ =~= s@.take(part@.len() as int) + s@.skip(part@.len() as int));
    }
    if ends {
        let n = s@.len() - part@.len();
        assert(s@ =~= s@.take(n) + s@.skip(n));
    }
}

/// A text holds another if and only if it is that one with something before and behind it.
pub proof fn law_contained_texts_are_found(
    s: &str,
    part: &str,
    front: Seq<char>,
    back: Seq<char>,
    c: char,
    i: int,
    r: bool,
    has: bool,
) -> (at: int)
    requires
        call_ensures(holds_text, (s, part), r),
        call_ensures(contains_char, (s, c), has),
    ensures
        s@ == front + part@ + back ==> r,
        r ==> 0 <= at <= s@.len() - part@.len() && s@ == s@.take(at) + part@ + s@.skip(
            at + part@.len(),
        ),
        0 <= i < s@.len() && s@[i] == c ==> has,
        has ==> exists|k: int| 0 <= k < s@.len() && #[trigger] s@[k] == c,
{
    if s@ == front + part@ + back {
        let n = front.len() as int;
        assert(s@.subrange(n, n + part@.len()) =~= part@);
    }
    let at = choose|i: int|
        0 <= i <= s@.len() - part@.len() && #[trigger] s@.subrange(i, i + part@.len()) == part@;
    if r {
        assert(s@ =~= s@.take(at) + s@.subrange(at, at + part@.len()) + s@.skip(
            at + part@.len(),
        ));
    }
    at
}

/// What is taken off the end is that character and nothing else, and none of it is left there;
/// so with what is taken off the front.
pub proof fn law_only_what_is_named_is_taken_off(
    s: &str,
    c: char,
    prefix: &str,
    r: String,
    q: String,
)
    requires
        call_ensures(drop_end, (s, c), r),
        call_ensures(drop_prefixes, (s, prefix), q),
        prefix@.len() > 0,
    ensures
        r@.len() <= s@.len() && s@.take(r@.len() as int) == r@,
        forall|i: int| r@.len() <= i < s@.len() ==> #[trigger] s@[i] == c,
        r@.len() > 0 ==> r@.last() != c,
        q@.len() <= s@.len() && s@.skip(s@.len() - q@.len()) == q@,
        !starts_with(q@, prefix@),
        !starts_with(s@, prefix@) ==> q@ == s@,
        s@ == prefix@ + q@ || s@ == q@ || s@.len() >= 2 * prefix@.len(),
{
    lemma_end_taken_off(s@, c);
    lemma_prefixes_taken_off(s@, prefix@);
}

proof fn lemma_end_taken_off(s: Seq<char>, c: char)
    ensures
        ({
            let r = without_end(s, c);
            &&& r.len() <= s.len()
            &&& s.take(r.len() as int) == r
            &&& forall|i: int| r.len() <= i < s.len() ==> #[trigger] s[i] == c
            &&& r.len() > 0 ==> r.last() != c
        }),
    decreases s.len(),
{
    if s.len() > 0 && s.last() == c {
        let t = s.drop_last();
        lemma_end_taken_off(t, c);
        let r = without_end(t, c);
        assert(s.take(r.len() as int) =~= t.take(r.len() as int));
        assert forall|i: int| r.len() <= i < s.len() implies #[trigger] s[i] == c by {
            if i < t.len() {
                assert(t[i] == c);
            }
        }
    } else {
        assert(s.take(s.len() as int) =~= s);
    }
}

proof fn lemma_prefixes_taken_off(s: Seq<char>, prefix: Seq<char>)
    requires
        prefix.len() > 0,
    ensures
        ({
            let q = without_prefixes(s, prefix);
            &&& q.len() <= s.len()
            &&& s.skip(s.len() - q.len()) == q
            &&& !starts_with(q, prefix)
            &&& s == prefix + q || s == q || s.len() >= 2 * prefix.len()
        }),
    decreases s.len(),
{
    if starts_with(s, prefix) {
        let t = s.skip(prefix.len() as int);
        lemma_prefixes_taken_off(t, prefix);
        let q = without_prefixes(t, prefix);
        assert(s.skip(s.len() - q.len()) =~= t.skip(t.len() - q.len()));
        assert(s =~= s.take(prefix.len() as int) + t);
    } else {
        assert(s.skip(0) =~= s);
    }
}

/// Texts are joined with the separator between each two of them.
pub proof fn law_texts_are_joined_in_order(
    fewer: Vec<String>,
    parts: Vec<String>,
    last: String,
    sep: &str,
    less: String,
    r: String,
)
    requires
        parts@ == fewer@.push(last),
        call_ensures(join_text, (&fewer, sep), less),
        call_ensures(join_text, (&parts, sep), r),
    ensures
        fewer@.len() == 0 ==> less@.len() == 0 && r@ == last@,
        fewer@.len() > 0 ==> r@ == less@ + sep@ + last@,
{
    let all = views(parts@);
    assert(all.drop_last() =~= views(fewer@));
    assert(all.last() == last@);
}

} // verus!
