//! JSON texts.

use vstd::prelude::*;
use vstd::string::*;
use crate::text;

verus! {

/// A character inside a JSON string.
pub open spec fn json_char(c: char) -> Seq<char> {
    if c == '"' {
        "\\\""@
    } else if c == '\\' {
        "\\\\"@
    } else if c == '\u{8}' {
        "\\b"@
    } else if c == '\t' {
        "\\t"@
    } else if c == '\n' {
        "\\n"@
    } else if c == '\u{c}' {
        "\\f"@
    } else if c == '\r' {
        "\\r"@
    } else if c as nat <= 31 {
        "\\u00"@ + seq![
            text::digit_char((c as nat / 16) as nat),
            text::digit_char((c as nat % 16) as nat),
        ]
    } else {
        seq![c]
    }
}

/// The characters of a text inside a JSON string.
pub open spec fn json_chars(s: Seq<char>) -> Seq<char>
    decreases s.len(),
{
    if s.len() == 0 {
        Seq::empty()
    } else {
        json_chars(s.drop_last()) + json_char(s.last())
    }
}

/// A text as a JSON string.
pub open spec fn json_string(s: Seq<char>) -> Seq<char> {
    "\""@ + json_chars(s) + "\""@
}

/// `serde_json::to_string` of a text: a JSON string with quotes, backslashes and
/// control characters escaped.
#[verifier::external_body]
pub(crate) fn write_json_string(s: &str) -> (r: String)
    ensures
        r@ == json_string(s@),
{
    serde_json::to_string(s).expect("a text can be written")
}

/// Texts as a JSON array.
pub open spec fn json_list(items: Seq<Seq<char>>) -> Seq<char> {
    "["@ + text::join(items.map_values(|s: Seq<char>| json_string(s)), ","@) + "]"@
}

/// Texts as a JSON array.
pub fn write_json_list(items: &Vec<String>) -> (r: String)
    ensures
        r@ == json_list(text::views(items@)),
{
    let ghost all = text::views(items@).map_values(|s: Seq<char>| json_string(s));
    let mut parts: Vec<String> = Vec::new();
    let mut i: usize = 0;
    assert(text::views(parts@) =~= all.take(0));
    while i < items.len()
        invariant
            i <= items.len() == all.len(),
            all == text::views(items@).map_values(|s: Seq<char>| json_string(s)),
            text::views(parts@) == all.take(i as int),
        decreases items.len() - i,
    {
        let ghost before = text::views(parts@);
        assert(text::views(items@)[i as int] == items@[i as int]@);
        parts.push(write_json_string(items[i].as_str()));
        assert(text::views(parts@) =~= before.push(all[i as int]));
        assert(all.take(i + 1) =~= all.take(i as int).push(all[i as int]));
        i += 1;
    }
    assert(all.take(i as int) =~= all);
    let mut out: String = "[".to_owned();
    out.append(text::join_text(&parts, ",").as_str());
    out.append("]");
    out
}

} // verus!
