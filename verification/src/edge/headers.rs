//! Header fields of HTTP messages, kept in `http::HeaderMap`.

use vstd::prelude::*;
use vstd::string::*;
use http::{HeaderMap, HeaderValue};
use crate::text;
use crate::text::{split_text, trim};

verus! {

#[verifier::external_type_specification]
#[verifier::external_body]
#[verifier::reject_recursive_types(T)]
pub struct ExHeaderMap<T>(http::HeaderMap<T>);

#[verifier::external_type_specification]
#[verifier::external_body]
pub struct ExHeaderValue(http::HeaderValue);

/// The field values that a header map holds, by field name in lower case, in the
/// order in which they were added.
pub uninterp spec fn fields(h: HeaderMap<HeaderValue>) -> Map<Seq<char>, Seq<Seq<u8>>>;

/// The values of a field; none where it is missing.
pub open spec fn listed(m: Map<Seq<char>, Seq<Seq<u8>>>, name: Seq<char>) -> Seq<Seq<u8>> {
    if m.contains_key(name) {
        m[name]
    } else {
        Seq::empty()
    }
}

/// Byte strings by what they hold.
pub open spec fn byte_views(v: Seq<Vec<u8>>) -> Seq<Seq<u8>> {
    v.map_values(|b: Vec<u8>| b@)
}

/// The characters that a field name can hold.
pub open spec fn is_name_char(c: char) -> bool {
    ||| text::is_alphanumeric(c)
    ||| c == '!' || c == '#' || c == '$' || c == '%' || c == '&' || c == '\'' || c == '*'
    ||| c == '+' || c == '-' || c == '.' || c == '^' || c == '_' || c == '`' || c == '|' || c == '~'
}

/// Whether a text can be a field name, in any case of letters.
pub open spec fn is_field_name(s: Seq<char>) -> bool {
    &&& 1 <= s.len() <= 65535
    &&& forall|i: int| 0 <= i < s.len() ==> is_name_char(#[trigger] s[i])
}

/// Whether bytes can be a field value.
pub open spec fn is_field_value(b: Seq<u8>) -> bool {
    forall|i: int| 0 <= i < b.len() ==> ((#[trigger] b[i]) >= 32 && b[i] != 127) || b[i] == 9
}

/// Whether a byte of a field value is a visible ASCII character, a blank or a tab.
pub open spec fn is_visible(b: u8) -> bool {
    32 <= b < 127 || b == 9
}

/// A field value as text, where all of it is visible.
pub open spec fn value_text(b: Seq<u8>) -> Option<Seq<char>> {
    if forall|i: int| 0 <= i < b.len() ==> is_visible(#[trigger] b[i]) {
        Some(Seq::new(b.len(), |i: int| b[i] as char))
    } else {
        None
    }
}

/// How many field names a request may have for those to fit for sure that the backend
/// gets besides.
pub const SURE_FIELD_NAMES: usize = 6500;

/// `HeaderMap::get_all`: the values of a field, in the order in which they were
/// added. A field that is there has a value, and a `HeaderValue` holds only bytes
/// that a field value can hold.
#[verifier::external_body]
pub(crate) fn field_values(h: &HeaderMap<HeaderValue>, name: &str) -> (r: Vec<Vec<u8>>)
    requires
        is_field_name(name@),
    ensures
        byte_views(r@) == listed(fields(*h), text::ascii_lower(name@)),
        (r@.len() > 0) == fields(*h).contains_key(text::ascii_lower(name@)),
        forall|i: int| 0 <= i < r@.len() ==> is_field_value((#[trigger] r@[i])@),
{
    h.get_all(name).iter().map(|v| v.as_bytes().to_vec()).collect()
}

/// Whether a header map has at most so many field names.
pub open spec fn few(m: Map<Seq<char>, Seq<Seq<u8>>>, n: nat) -> bool {
    m.dom().finite() && m.dom().len() <= n
}

/// `HeaderMap::remove`: takes a field with all its values out.
#[verifier::external_body]
pub(crate) fn remove_field(h: &mut HeaderMap<HeaderValue>, name: &str)
    requires
        is_field_name(name@),
    ensures
        fields(*final(h)) == fields(*old(h)).remove(text::ascii_lower(name@)),
{
    let _ = h.remove(name);
}

/// `HeaderMap::try_insert`: gives a field a single value in place of all that it had,
/// and says whether it could. It cannot where the map would have to grow beyond its
/// largest size, which depends on how the names are hashed but never happens with as
/// few field names as stated here; the fields then stay as they are.
#[verifier::external_body]
pub(crate) fn insert_field(
    h: &mut HeaderMap<HeaderValue>,
    name: &'static str,
    value: &[u8],
) -> (r: bool)
    requires
        is_field_name(name@),
        text::ascii_lower(name@) == name@,
        is_field_value(value@),
    ensures
        fields(*final(h)) == (if r {
            fields(*old(h)).insert(name@, seq![value@])
        } else {
            fields(*old(h))
        }),
        few(fields(*old(h)), 6552) ==> r,
{
    let value = HeaderValue::from_bytes(value).expect("a valid field value");
    h.try_insert(name, value).is_ok()
}

/// Whether bytes can be a field value.
pub fn valid_field_value(b: &[u8]) -> (r: bool)
    ensures
        r == is_field_value(b@),
{
    let mut i: usize = 0;
    while i < b.len()
        invariant
            i <= b.len(),
            forall|j: int| 0 <= j < i ==> ((#[trigger] b@[j]) >= 32 && b@[j] != 127) || b@[j] == 9,
        decreases b.len() - i,
    {
        let c: u8 = b[i];
        if !((c >= 32 && c != 127) || c == 9) {
            assert(b@[i as int] == c);
            return false;
        }
        i += 1;
    }
    true
}

/// A field value as text, where all of it is visible.
pub fn field_text(b: &Vec<u8>) -> (r: Option<String>)
    ensures
        text::opt_view(r) == value_text(b@),
{
    let mut s: String = String::new();
    let mut i: usize = 0;
    while i < b.len()
        invariant
            i <= b.len(),
            forall|j: int| 0 <= j < i ==> is_visible(#[trigger] b@[j]),
            s@ == Seq::new(i as nat, |j: int| b@[j] as char),
        decreases b.len() - i,
    {
        let c: u8 = b[i];
        if !((32 <= c && c < 127) || c == 9) {
            assert(!is_visible(b@[i as int]));
            return None;
        }
        s.push(c as char);
        i += 1;
        assert(s@ =~= Seq::new(i as nat, |j: int| b@[j] as char));
    }
    Some(s)
}

fn name_char(c: char) -> (r: bool)
    ensures
        r == is_name_char(c),
{
    ('0' <= c && c <= '9') || ('a' <= c && c <= 'z') || ('A' <= c && c <= 'Z') || c == '!' || c
        == '#' || c == '$' || c == '%' || c == '&' || c == '\'' || c == '*' || c == '+' || c == '-'
        || c == '.' || c == '^' || c == '_' || c == '`' || c == '|' || c == '~'
}

/// Whether a text can be a field name.
pub fn valid_field_name(s: &str) -> (r: bool)
    ensures
        r == is_field_name(s@),
{
    let v: Vec<char> = text::chars_of(s);
    if v.len() == 0 || v.len() > 65535 {
        return false;
    }
    let mut i: usize = 0;
    while i < v.len()
        invariant
            i <= v.len(),
            v@ == s@,
            forall|j: int| 0 <= j < i ==> is_name_char(#[trigger] s@[j]),
        decreases v.len() - i,
    {
        if !name_char(v[i]) {
            assert(!is_name_char(s@[i as int]));
            return false;
        }
        i += 1;
    }
    true
}

/// The parts without white space around them; parts that are then empty are
/// passed over.
pub open spec fn trimmed_parts(parts: Seq<Seq<char>>) -> Seq<Seq<char>>
    decreases parts.len(),
{
    if parts.len() == 0 {
        Seq::empty()
    } else {
        let before = trimmed_parts(parts.drop_last());
        let last = text::trimmed(parts.last());
        if last.len() > 0 {
            before.push(last)
        } else {
            before
        }
    }
}

/// The comma-separated tokens of field values; values that are not visible text
/// are passed over.
pub open spec fn tokens(values: Seq<Seq<u8>>) -> Seq<Seq<char>>
    decreases values.len(),
{
    if values.len() == 0 {
        Seq::empty()
    } else {
        let before = tokens(values.drop_last());
        match value_text(values.last()) {
            Some(t) => before + trimmed_parts(text::split(t, ',')),
            None => before,
        }
    }
}

fn push_parts(out: &mut Vec<String>, s: &str)
    ensures
        text::views(final(out)@) == text::views(old(out)@) + trimmed_parts(text::split(s@, ',')),
{
    let ghost start = text::views(out@);
    let parts: Vec<String> = split_text(s, ',');
    let ghost all = text::views(parts@);
    let mut i: usize = 0;
    assert(trimmed_parts(all.take(0)) =~= Seq::<Seq<char>>::empty());
    assert(text::views(out@) =~= start + trimmed_parts(all.take(0)));
    while i < parts.len()
        invariant
            i <= parts.len() == all.len(),
            all == text::views(parts@),
            text::views(out@) == start + trimmed_parts(all.take(i as int)),
        decreases parts.len() - i,
    {
        let ghost before = text::views(out@);
        let t: String = trim(parts[i].as_str());
        assert(all.take(i + 1).drop_last() =~= all.take(i as int));
        assert(all.take(i + 1).last() == parts@[i as int]@);
        let n: usize = text::chars_of(t.as_str()).len();
        if n > 0 {
            out.push(t);
            assert(text::views(out@) =~= before.push(t@));
            assert(text::views(out@) =~= start + trimmed_parts(all.take(i + 1)));
        }
        i += 1;
    }
    assert(all.take(i as int) =~= all);
}

/// The comma-separated tokens of a field.
pub fn header_tokens(h: &HeaderMap<HeaderValue>, name: &str) -> (r: Vec<String>)
    requires
        is_field_name(name@),
    ensures
        text::views(r@) == tokens(listed(fields(*h), text::ascii_lower(name@))),
{
    let values: Vec<Vec<u8>> = field_values(h, name);
    let ghost all = byte_views(values@);
    let mut out: Vec<String> = Vec::new();
    let mut i: usize = 0;
    assert(text::views(out@) =~= tokens(all.take(0)));
    while i < values.len()
        invariant
            i <= values.len() == all.len(),
            all == byte_views(values@),
            text::views(out@) == tokens(all.take(i as int)),
        decreases values.len() - i,
    {
        assert(all.take(i + 1).drop_last() =~= all.take(i as int));
        assert(all.take(i + 1).last() == values@[i as int]@);
        match field_text(&values[i]) {
            Some(t) => push_parts(&mut out, t.as_str()),
            None => {},
        }
        i += 1;
    }
    assert(all.take(i as int) =~= all);
    out
}

/// The field names, in lower case, among texts.
pub open spec fn names_among(texts: Seq<Seq<char>>) -> Seq<Seq<char>>
    decreases texts.len(),
{
    if texts.len() == 0 {
        Seq::empty()
    } else {
        let before = names_among(texts.drop_last());
        if is_field_name(texts.last()) {
            before.push(text::ascii_lower(texts.last()))
        } else {
            before
        }
    }
}

/// The fields but for those with these names.
pub open spec fn without(m: Map<Seq<char>, Seq<Seq<u8>>>, names: Seq<Seq<char>>) -> Map<
    Seq<char>,
    Seq<Seq<u8>>,
> {
    Map::new(|k: Seq<char>| m.contains_key(k) && !names.contains(k), |k: Seq<char>| m[k])
}

/// Whether a field concerns only one connection (RFC 9110, section 7.6.1).
pub open spec fn is_hop_by_hop(k: Seq<char>) -> bool {
    ||| k == "connection"@
    ||| k == "keep-alive"@
    ||| k == "proxy-connection"@
    ||| k == "proxy-authenticate"@
    ||| k == "proxy-authorization"@
    ||| k == "te"@
    ||| k == "trailer"@
    ||| k == "transfer-encoding"@
    ||| k == "upgrade"@
}

/// The fields that may be passed on: those that do not concern only one
/// connection, by name or because the connection field lists them.
pub open spec fn end_to_end(m: Map<Seq<char>, Seq<Seq<u8>>>) -> Map<Seq<char>, Seq<Seq<u8>>> {
    let listed_names = names_among(tokens(listed(m, "connection"@)));
    Map::new(
        |k: Seq<char>| m.contains_key(k) && !listed_names.contains(k) && !is_hop_by_hop(k),
        |k: Seq<char>| m[k],
    )
}

proof fn lemma_trimmed_parts(parts: Seq<Seq<char>>, trims: Seq<Seq<char>>)
    requires
        parts.len() == trims.len(),
        forall|i: int|
            0 <= i < parts.len() ==> text::trimmed(#[trigger] parts[i]) == trims[i]
                && trims[i].len() > 0,
    ensures
        trimmed_parts(parts) == trims,
    decreases parts.len(),
{
    if parts.len() > 0 {
        let front = parts.drop_last();
        assert forall|i: int| 0 <= i < front.len() implies text::trimmed(#[trigger] front[i])
            == trims.drop_last()[i] && trims.drop_last()[i].len() > 0 by {
            assert(front[i] == parts[i]);
        }
        lemma_trimmed_parts(front, trims.drop_last());
        assert(text::trimmed(parts.last()) == trims.last()) by {
            assert(parts[parts.len() - 1] == parts.last());
        }
        assert(trimmed_parts(parts) =~= trims);
    } else {
        assert(trimmed_parts(parts) =~= trims);
    }
}

/// A field with one visible value lists what stands between the commas of that value, in
/// order, without the white space around it.
pub proof fn law_tokens_stand_between_commas(
    h: HeaderMap<HeaderValue>,
    name: &str,
    key: String,
    raw: Seq<&str>,
    trims: Seq<String>,
    value: Seq<char>,
    r: Vec<String>,
)
    requires
        is_field_name(name@),
        call_ensures(text::lower, (name,), key),
        call_ensures(header_tokens, (&h, name), r),
        raw.len() > 0,
        raw.len() == trims.len(),
        forall|i: int|
            0 <= i < raw.len() ==> !(#[trigger] raw[i])@.contains(',') && call_ensures(
                text::trim,
                (raw[i],),
                trims[i],
            ) && trims[i]@.len() > 0,
        value == text::join(raw.map_values(|s: &str| s@), seq![',']),
        forall|i: int| 0 <= i < value.len() ==> ' ' <= (#[trigger] value[i]) <= '~',
        fields(h).contains_key(key@),
        fields(h)[key@] == seq![Seq::new(value.len(), |i: int| value[i] as u8)],
    ensures
        r@.len() == raw.len(),
        forall|i: int| 0 <= i < raw.len() ==> (#[trigger] r@[i])@ == trims[i]@,
{
    let parts = raw.map_values(|s: &str| s@);
    let cut = trims.map_values(|s: String| s@);
    let bytes = Seq::new(value.len(), |i: int| value[i] as u8);
    assert(Seq::new(bytes.len(), |i: int| bytes[i] as char) =~= value);
    assert(value_text(bytes) == Some(value));
    assert forall|i: int| 0 <= i < parts.len() implies !(#[trigger] parts[i]).contains(',') by {
        assert(parts[i] == raw[i]@);
    }
    text::law_split_join(parts, ',');
    assert forall|i: int| 0 <= i < parts.len() implies text::trimmed(#[trigger] parts[i]) == cut[i]
        && cut[i].len() > 0 by {
        assert(parts[i] == raw[i]@);
    }
    lemma_trimmed_parts(parts, cut);
    let values = fields(h)[key@];
    assert(values.drop_last() =~= Seq::empty());
    reveal_with_fuel(tokens, 2);
    assert(tokens(values) =~= cut);
    assert forall|i: int| 0 <= i < raw.len() implies (#[trigger] r@[i])@ == trims[i]@ by {
        assert(text::views(r@)[i] == cut[i]);
    }
    assert(text::views(r@).len() == r@.len());
}

/// No listed token is empty.
pub proof fn law_tokens_are_not_empty(
    h: HeaderMap<HeaderValue>,
    name: &str,
    r: Vec<String>,
    i: int,
)
    requires
        is_field_name(name@),
        call_ensures(header_tokens, (&h, name), r),
        0 <= i < r@.len(),
    ensures
        r@[i]@.len() > 0,
{
    let values = listed(fields(h), text::ascii_lower(name@));
    assert(text::views(r@)[i] == r@[i]@);
    lemma_tokens_are_not_empty(values, i);
}

proof fn lemma_tokens_are_not_empty(values: Seq<Seq<u8>>, i: int)
    requires
        0 <= i < tokens(values).len(),
    ensures
        tokens(values)[i].len() > 0,
    decreases values.len(),
{
    if values.len() > 0 {
        let before = tokens(values.drop_last());
        if i < before.len() {
            lemma_tokens_are_not_empty(values.drop_last(), i);
        } else {
            lemma_parts_are_not_empty(
                text::split(value_text(values.last())->0, ','),
                i - before.len(),
            );
        }
    }
}

proof fn lemma_parts_are_not_empty(parts: Seq<Seq<char>>, i: int)
    requires
        0 <= i < trimmed_parts(parts).len(),
    ensures
        trimmed_parts(parts)[i].len() > 0,
    decreases parts.len(),
{
    if parts.len() > 0 && i < trimmed_parts(parts.drop_last()).len() {
        lemma_parts_are_not_empty(parts.drop_last(), i);
    }
}

/// The names among texts are the field names among them, in lower case.
pub proof fn lemma_names_among(texts: Seq<Seq<char>>, k: Seq<char>)
    ensures
        names_among(texts).contains(k) == (exists|i: int|
            0 <= i < texts.len() && is_field_name(#[trigger] texts[i]) && text::ascii_lower(
                texts[i],
            ) == k),
    decreases texts.len(),
{
    if texts.len() > 0 {
        let front = texts.drop_last();
        lemma_names_among(front, k);
        let before = names_among(front);
        let all = names_among(texts);
        let last = texts.len() - 1;
        if before.contains(k) {
            let at = before.index_of(k);
            assert(all[at] == k);
            let i = choose|i: int|
                0 <= i < front.len() && is_field_name(#[trigger] front[i]) && text::ascii_lower(
                    front[i],
                ) == k;
            assert(texts[i] == front[i]);
        }
        if is_field_name(texts[last]) && text::ascii_lower(texts[last]) == k {
            assert(all[all.len() - 1] == k);
        }
        if all.contains(k) {
            let at = all.index_of(k);
            if at < before.len() {
                assert(before[at] == k);
                let i = choose|i: int|
                    0 <= i < front.len() && is_field_name(#[trigger] front[i]) && text::ascii_lower(
                        front[i],
                    ) == k;
                assert(texts[i] == front[i]);
            } else {
                assert(is_field_name(texts[last]));
            }
        }
        if exists|i: int|
            0 <= i < texts.len() && is_field_name(#[trigger] texts[i]) && text::ascii_lower(texts[i])
                == k {
            let i = choose|i: int|
                0 <= i < texts.len() && is_field_name(#[trigger] texts[i]) && text::ascii_lower(
                    texts[i],
                ) == k;
            if i < front.len() {
                assert(front[i] == texts[i]);
            }
        }
    }
}

/// A field name is a text of 1 to 65535 letters, digits and those signs that a name may have;
/// no separator, control or non-ASCII character is one of them.
pub proof fn law_field_names_have_no_separators(s: &str, r: bool, i: int)
    requires
        call_ensures(valid_field_name, (s,), r),
        0 <= i < s@.len(),
    ensures
        r ==> s@.len() <= 65535,
        r ==> '!' <= s@[i] <= '~',
        r ==> s@[i] != ':' && s@[i] != ',' && s@[i] != ';' && s@[i] != '"' && s@[i] != '(' && s@[i]
            != ')' && s@[i] != '/' && s@[i] != '<' && s@[i] != '=' && s@[i] != '>' && s@[i] != '?'
            && s@[i] != '@' && s@[i] != '[' && s@[i] != '\\' && s@[i] != ']' && s@[i] != '{'
            && s@[i] != '}',
        s@.len() <= 65535 && (forall|j: int|
            0 <= j < s@.len() ==> 'a' <= (#[trigger] s@[j]) <= 'z' || 'A' <= s@[j] <= 'Z' || '0'
                <= s@[j] <= '9' || s@[j] == '-' || s@[j] == '_') ==> r,
{
    if r {
        assert(is_name_char(s@[i]));
    }
}

/// The text of a field value is the value byte by byte, and there is one if and only if every
/// byte is visible.
pub proof fn law_field_text_is_the_value(b: Vec<u8>, valid: bool, slice: &[u8], r: Option<String>)
    requires
        call_ensures(field_text, (&b,), r),
        slice@ == b@,
        call_ensures(valid_field_value, (slice,), valid),
    ensures
        r is Some == (forall|i: int|
            0 <= i < b@.len() ==> 32 <= (#[trigger] b@[i]) <= 126 || b@[i] == 9),
        r is Some ==> r->0@.len() == b@.len() && (forall|i: int|
            0 <= i < b@.len() ==> (#[trigger] r->0@[i]) as u8 == b@[i]),
        r is Some ==> valid,
        valid == (forall|i: int|
            0 <= i < b@.len() ==> ((#[trigger] b@[i]) >= 32 || b@[i] == 9) && b@[i] != 127),
{
    assert((forall|i: int| 0 <= i < b@.len() ==> 32 <= (#[trigger] b@[i]) <= 126 || b@[i] == 9)
        == (forall|i: int| 0 <= i < b@.len() ==> is_visible(#[trigger] b@[i])));
    if r is Some {
        assert(r->0@ == Seq::new(b@.len(), |i: int| b@[i] as char));
    }
}

} // verus!
