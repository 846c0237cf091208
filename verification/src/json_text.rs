//! JSON text as `serde_json` writes it: string literals, the compact object
//! text of a translation map, and the pretty text of bundles and locale
//! lists.
use vstd::prelude::*;
use crate::json_map::{JsonMap, sorted_keys};
use crate::state::hex_digit;
use crate::text::{join_with, strings_view};

verus! {

/// How `serde_json` writes one character inside a string literal: `"` and
/// `\` and the control characters below U+0020 are escaped (`\b`, `\t`, `\n`,
/// `\f`, `\r`, else `\u00XX` in lower-case hex); every other character is
/// written as it is.
pub open spec fn json_char_escape(c: char) -> Seq<char> {
    if c == '"' {
        seq!['\\', '"']
    } else if c == '\\' {
        seq!['\\', '\\']
    } else if c == '\x08' {
        seq!['\\', 'b']
    } else if c == '\t' {
        seq!['\\', 't']
    } else if c == '\n' {
        seq!['\\', 'n']
    } else if c == '\x0C' {
        seq!['\\', 'f']
    } else if c == '\r' {
        seq!['\\', 'r']
    } else if (c as u32) < 0x20 {
        seq!['\\', 'u', '0', '0', hex_digit((c as u32 / 16) as nat), hex_digit((c as u32 % 16) as nat)]
    } else {
        seq![c]
    }
}

/// The escaped characters of a string.
pub open spec fn json_escaped(s: Seq<char>) -> Seq<char>
    decreases s.len(),
{
    if s.len() == 0 {
        Seq::empty()
    } else {
        json_escaped(s.drop_last()) + json_char_escape(s.last())
    }
}

/// A string as a JSON string literal.
pub open spec fn json_string_literal(s: Seq<char>) -> Seq<char> {
    "\""@ + json_escaped(s) + "\""@
}

/// Trusted: `serde_json::to_string` on a string slice. It writes into a
/// `Vec`, which cannot fail, so the result is the string's literal.
#[verifier::external_body]
pub(crate) fn json_quote(s: &str) -> (r: Result<String, String>)
    ensures
        match r {
            Ok(t) => t@ == json_string_literal(s@),
            Err(_) => false,
        },
{
    serde_json::to_string(s).map_err(|e| e.to_string())
}

/// The key views of a vector of pairs, with the values.
pub open spec fn text_pairs(v: Seq<(String, String)>) -> Seq<(Seq<char>, String)> {
    Seq::new(v.len(), |i: int| (v[i].0@, v[i].1))
}

/// Compact JSON object text of pairs: `{`, the members `"key":"value"`
/// joined by `,`, then `}`.
pub open spec fn json_object_text_of(pairs: Seq<(Seq<char>, String)>) -> Seq<char> {
    "{"@ + join_with(
        Seq::new(pairs.len(), |i: int| json_string_literal(pairs[i].0) + ":"@ + json_string_literal(pairs[i].1@)),
        ","@,
    ) + "}"@
}

/// Trusted: `serde_json::to_string` of a `BTreeMap` holding the pairs. The
/// map iterates in ascending key order (the keys' byte order, which for
/// UTF-8 is the order of code points), here the order of the pairs; the
/// compact writer puts `{`, the members separated by `,`, each a key
/// literal, `:` and a value literal, then `}`. Writing into a `Vec` cannot
/// fail.
#[verifier::external_body]
pub(crate) fn json_object_of(pairs: &Vec<(String, String)>) -> (r: Result<String, String>)
    requires
        sorted_keys(text_pairs(pairs@)),
    ensures
        match r {
            Ok(t) => t@ == json_object_text_of(text_pairs(pairs@)),
            Err(_) => false,
        },
{
    let map: std::collections::BTreeMap<&str, &str> = pairs.iter().map(|(k, v)| (k.as_str(), v.as_str())).collect();
    serde_json::to_string(&map).map_err(|e| e.to_string())
}

/// The pairs of a map, in key order.
fn map_pairs(map: &JsonMap) -> (pairs: Vec<(String, String)>)
    ensures
        text_pairs(pairs@) == map.pairs(),
{
    let mut pairs: Vec<(String, String)> = Vec::new();
    let n = map.len();
    let mut i: usize = 0;
    while i < n
        invariant
            n == map.pairs().len(),
            i <= n,
            text_pairs(pairs@) == map.pairs().take(i as int),
        decreases n - i,
    {
        let ghost before = pairs@;
        pairs.push((map.key_at(i).clone(), map.value_at(i).clone()));
        assert(text_pairs(pairs@) =~= text_pairs(before).push(map.pairs()[i as int]));
        assert(map.pairs().take(i + 1) =~= map.pairs().take(i as int).push(map.pairs()[i as int]));
        i = i + 1;
    }
    assert(map.pairs().take(n as int) =~= map.pairs());
    pairs
}

/// Serializes a map as compact JSON (`{"k":"v",...}`, keys ascending).
pub fn json_object_text(map: &JsonMap) -> (r: Result<String, String>)
    requires
        map.wf(),
    ensures
        r matches Ok(t) && t@ == json_object_text_of(map.pairs()),
{
    let pairs = map_pairs(map);
    json_object_of(&pairs)
}

/// Pretty JSON object text of pairs, with a two-space indent: `{}` when
/// there are none; else `{`, then each member `"key": "value"` on a line of
/// its own, indented, the lines separated by `,`, then `}` on a last line.
pub open spec fn json_pretty_object_text_of(pairs: Seq<(Seq<char>, String)>) -> Seq<char> {
    if pairs.len() == 0 {
        "{}"@
    } else {
        "{\n  "@ + join_with(
            Seq::new(pairs.len(), |i: int| json_string_literal(pairs[i].0) + ": "@ + json_string_literal(pairs[i].1@)),
            ",\n  "@,
        ) + "\n}"@
    }
}

/// Pretty JSON array text of strings, with a two-space indent: `[]` when
/// there are none; else `[`, then each string literal on a line of its own,
/// indented, the lines separated by `,`, then `]` on a last line.
pub open spec fn json_pretty_array_text_of(items: Seq<Seq<char>>) -> Seq<char> {
    if items.len() == 0 {
        "[]"@
    } else {
        "[\n  "@ + join_with(Seq::new(items.len(), |i: int| json_string_literal(items[i])), ",\n  "@) + "\n]"@
    }
}

/// Trusted: `serde_json::to_string_pretty` of a `BTreeMap` holding the
/// pairs. The map iterates in ascending key order, here the order of the
/// pairs; the pretty writer (two-space indent) writes `{}` for an empty map,
/// else `{`, each member on a new indented line as a key literal, `: ` and a
/// value literal, members separated by `,`, and a newline before `}`.
/// Writing into a `Vec` cannot fail.
#[verifier::external_body]
fn json_pretty_object_of(pairs: &Vec<(String, String)>) -> (r: Result<String, String>)
    requires
        sorted_keys(text_pairs(pairs@)),
    ensures
        match r {
            Ok(t) => t@ == json_pretty_object_text_of(text_pairs(pairs@)),
            Err(_) => false,
        },
{
    let map: std::collections::BTreeMap<&str, &str> = pairs.iter().map(|(k, v)| (k.as_str(), v.as_str())).collect();
    serde_json::to_string_pretty(&map).map_err(|e| e.to_string())
}

/// Trusted: `serde_json::to_string_pretty` of a vector of strings: `[]` when
/// empty, else `[`, each string literal on a new line indented by two
/// spaces, separated by `,`, and a newline before `]`. Writing into a `Vec`
/// cannot fail.
#[verifier::external_body]
fn json_pretty_array_of(items: &Vec<String>) -> (r: Result<String, String>)
    ensures
        match r {
            Ok(t) => t@ == json_pretty_array_text_of(strings_view(items@)),
            Err(_) => false,
        },
{
    serde_json::to_string_pretty(items).map_err(|e| e.to_string())
}

/// Serializes a map as pretty JSON, keys ascending.
pub fn json_pretty_object_text(map: &JsonMap) -> (r: String)
    requires
        map.wf(),
    ensures
        r@ == json_pretty_object_text_of(map.pairs()),
{
    let pairs = map_pairs(map);
    match json_pretty_object_of(&pairs) {
        Ok(t) => t,
        Err(_) => {
            proof {
                assert(false);
            }
            String::new()
        },
    }
}

/// Serializes strings as a pretty JSON array, in their order.
pub fn json_pretty_array_text(items: &Vec<String>) -> (r: String)
    ensures
        r@ == json_pretty_array_text_of(strings_view(items@)),
{
    match json_pretty_array_of(items) {
        Ok(t) => t,
        Err(_) => {
            proof {
                assert(false);
            }
            String::new()
        },
    }
}

} // verus!
