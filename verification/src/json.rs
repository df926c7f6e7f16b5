//! Reading and writing JSON text with `serde_json`.
//!
//! Values are held as JSON text throughout the library; these functions ask
//! `serde_json` how it reads such text.

use crate::text::hex_digit;
use serde_json::Value;
use vstd::prelude::*;

verus! {

/// `serde_json::from_str` reads `text` as a JSON value.
pub uninterp spec fn json_accepts(text: Seq<char>) -> bool;

/// The compact JSON text that `Value`'s `Display` writes for the value `serde_json`
/// reads from `text` (object members in the order of `serde_json`'s map).
pub uninterp spec fn json_compact_text(text: Seq<char>) -> Seq<char>;

/// How `serde_json` writes one character inside a JSON string: `"` and `\` behind a
/// backslash, the control characters with a short escape as `\b`, `\t`, `\n`, `\f`, `\r`,
/// the other control characters as `\u00` and two lowercase hex digits, and every other
/// character as it is.
pub open spec fn json_escaped_char(c: char) -> Seq<char> {
    let n = c as u32;
    if c == '"' {
        seq!['\\', '"']
    } else if c == '\\' {
        seq!['\\', '\\']
    } else if n == 8 {
        seq!['\\', 'b']
    } else if n == 9 {
        seq!['\\', 't']
    } else if n == 10 {
        seq!['\\', 'n']
    } else if n == 12 {
        seq!['\\', 'f']
    } else if n == 13 {
        seq!['\\', 'r']
    } else if n < 32 {
        seq!['\\', 'u', '0', '0', hex_digit((n / 16) as nat), hex_digit((n % 16) as nat)]
    } else {
        seq![c]
    }
}

/// The characters of `s`, each written as inside a JSON string.
pub open spec fn json_escaped(s: Seq<char>) -> Seq<char>
    decreases s.len(),
{
    if s.len() == 0 {
        Seq::empty()
    } else {
        json_escaped(s.drop_last()) + json_escaped_char(s.last())
    }
}

/// The JSON text `serde_json::to_string` writes for the string `s`: the string literal
/// with `s` escaped between double quotes.
pub open spec fn json_string_text(s: Seq<char>) -> Seq<char> {
    seq!['"'] + json_escaped(s) + seq!['"']
}

/// The string that `text` holds, if `serde_json` reads it as a JSON string.
pub uninterp spec fn json_str_content(text: Seq<char>) -> Option<Seq<char>>;

/// The members of the object that `text` holds, if `serde_json` reads it as a JSON
/// object: each key with the compact JSON text of its value, in the order of
/// `serde_json`'s map.
pub uninterp spec fn json_members(text: Seq<char>) -> Option<Seq<(Seq<char>, Seq<char>)>>;

/// The compact JSON texts of the elements of the array that `text` holds, if
/// `serde_json` reads it as a JSON array.
pub uninterp spec fn json_elements(text: Seq<char>) -> Option<Seq<Seq<char>>>;

/// What `serde_json::to_string_pretty` writes for the value that `text` holds
/// (empty text if `text` is not JSON).
pub uninterp spec fn json_pretty_text(text: Seq<char>) -> Seq<char>;

/// The views of pairs of strings.
pub open spec fn pair_views(v: Seq<(String, String)>) -> Seq<(Seq<char>, Seq<char>)> {
    v.map_values(|p: (String, String)| (p.0@, p.1@))
}

/// The views of strings.
pub open spec fn string_views(v: Seq<String>) -> Seq<Seq<char>> {
    v.map_values(|s: String| s@)
}

/// The JSON string literal for `s` (`serde_json::to_string`), which is JSON and which
/// `serde_json` reads back as `s`.
#[verifier::external_body]
pub(crate) fn quote(s: &str) -> (r: String)
    ensures
        r@ == json_string_text(s@),
        json_accepts(r@),
        json_str_content(r@) == Some(s@),
{
    serde_json::to_string(s).unwrap_or_default()
}

/// The text is JSON (`serde_json::from_str` reads it as a `Value`): `Ok` with the compact
/// JSON text that `Value`'s `Display` writes back for it, else the parser's message,
/// whose text is not stated here.
#[verifier::external_body]
pub(crate) fn compact_json(text: &str) -> (r: Result<String, String>)
    ensures
        r is Ok <==> json_accepts(text@),
        r matches Ok(c) ==> c@ == json_compact_text(text@),
{
    serde_json::from_str::<Value>(text).map(|v| v.to_string()).map_err(|e| e.to_string())
}

/// The string that `text` holds, read with `serde_json::from_str` and `Value::as_str`.
#[verifier::external_body]
pub(crate) fn read_str(text: &str) -> (r: Option<String>)
    ensures
        match r {
            Some(s) => json_str_content(text@) == Some(s@),
            None => json_str_content(text@) is None,
        },
{
    serde_json::from_str::<Value>(text).ok().and_then(|v| v.as_str().map(|s| s.to_string()))
}

/// The members of the object that `text` holds, read with `serde_json::from_str` and
/// `Value::as_object`, each value written back with its `Display` (compact JSON).
#[verifier::external_body]
pub(crate) fn read_members(text: &str) -> (r: Option<Vec<(String, String)>>)
    ensures
        match r {
            Some(v) => json_members(text@) == Some(pair_views(v@)),
            None => json_members(text@) is None,
        },
{
    serde_json::from_str::<Value>(text).ok().and_then(|v| {
        v.as_object().map(|m| m.iter().map(|(k, x)| (k.clone(), x.to_string())).collect())
    })
}

/// The elements of the array that `text` holds, read with `serde_json::from_str` and
/// `Value::as_array`, each written back with its `Display` (compact JSON).
#[verifier::external_body]
pub(crate) fn read_elements(text: &str) -> (r: Option<Vec<String>>)
    ensures
        match r {
            Some(v) => json_elements(text@) == Some(string_views(v@)),
            None => json_elements(text@) is None,
        },
{
    serde_json::from_str::<Value>(text).ok().and_then(|v| {
        v.as_array().map(|a| a.iter().map(|x| x.to_string()).collect())
    })
}

/// The value that `text` holds, written with `serde_json::to_string_pretty`.
#[verifier::external_body]
pub(crate) fn pretty(text: &str) -> (r: String)
    ensures
        r@ == json_pretty_text(text@),
{
    serde_json::from_str::<Value>(text).ok().and_then(|v| serde_json::to_string_pretty(&v).ok()).unwrap_or_default()
}

/// A JSON string literal is its text's characters, each escaped in turn, between double
/// quotes: escaping two texts one after the other is escaping the first, then the second.
pub proof fn lemma_json_escaped_by_char(a: Seq<char>, b: Seq<char>, c: char)
    ensures
        json_escaped(seq![c]) == json_escaped_char(c),
        json_escaped(a + b) == json_escaped(a) + json_escaped(b),
        json_string_text(a)[0] == '"',
        json_string_text(a).last() == '"',
        json_string_text(a).len() == json_escaped(a).len() + 2,
    decreases b.len(),
{
    assert(seq![c].drop_last() =~= Seq::<char>::empty());
    assert(seq![c].last() == c);
    assert(json_escaped(Seq::<char>::empty()) =~= Seq::<char>::empty());
    assert(json_escaped(seq![c]) =~= json_escaped_char(c));
    if b.len() == 0 {
        assert(a + b =~= a);
        assert(json_escaped(a) + json_escaped(b) =~= json_escaped(a));
    } else {
        lemma_json_escaped_by_char(a, b.drop_last(), c);
        assert((a + b).drop_last() =~= a + b.drop_last());
        assert((a + b).last() == b.last());
        assert(json_escaped(a + b) =~= json_escaped(a) + json_escaped(b));
    }
}

} // verus!
