//! The few questions the library asks of JSON text, answered by `serde_json`.

use vstd::prelude::*;

use crate::text::text_less;

verus! {

/// The string member `key` of the JSON object in `text`: `None` when the
/// text is not JSON, is not an object, lacks the member, or the member is
/// not a string.
pub uninterp spec fn json_string_member(text: Seq<char>, key: Seq<char>) -> Option<Seq<char>>;

/// The lower-case hexadecimal digit of `n` (below 16).
pub open spec fn hex_digit(n: int) -> char {
    if n < 10 {
        (48 + n) as char
    } else {
        (87 + n) as char
    }
}

/// How one character is written inside a JSON string: `"` and `\` and the
/// control characters below U+0020 are escaped (the usual short escapes for
/// backspace, tab, line feed, form feed and carriage return, `\u00XX` for the
/// others); every other character stands for itself.
pub open spec fn json_escape_char(c: char) -> Seq<char> {
    if c == '"' {
        seq!['\\', '"']
    } else if c == '\\' {
        seq!['\\', '\\']
    } else if c == '\u{8}' {
        seq!['\\', 'b']
    } else if c == '\t' {
        seq!['\\', 't']
    } else if c == '\n' {
        seq!['\\', 'n']
    } else if c == '\u{c}' {
        seq!['\\', 'f']
    } else if c == '\r' {
        seq!['\\', 'r']
    } else if (c as u32) < 0x20 {
        seq!['\\', 'u', '0', '0', hex_digit((c as int) / 16), hex_digit((c as int) % 16)]
    } else {
        seq![c]
    }
}

/// The characters of `s`, each written as inside a JSON string.
pub open spec fn json_escaped(s: Seq<char>) -> Seq<char>
    decreases s.len(),
{
    if s.len() == 0 {
        Seq::empty()
    } else {
        json_escaped(s.drop_last()) + json_escape_char(s.last())
    }
}

/// The JSON string literal that stands for `s`: `s` escaped, in quotes.
pub open spec fn json_quoted(s: Seq<char>) -> Seq<char> {
    seq!['"'] + json_escaped(s) + seq!['"']
}

/// The compact JSON text of the value that `bytes` hold, or `None` when the
/// bytes are not a JSON document.
pub uninterp spec fn json_compact(bytes: Seq<u8>) -> Option<Seq<char>>;

/// The decimal digits of `n`, without leading zeros.
pub open spec fn decimal_text(n: nat) -> Seq<char>
    decreases n,
{
    if n < 10 {
        seq![(48 + n) as char]
    } else {
        decimal_text(n / 10) + seq![(48 + n % 10) as char]
    }
}

/// The members of the JSON object that is member `key` of the JSON object
/// in `text`, in the order in which `serde_json` walks them, each with its
/// value when that is a string: empty when the text is not JSON, is not an
/// object, or its member `key` is missing or is not an object.
pub uninterp spec fn json_object_members(text: Seq<char>, key: Seq<char>) -> Seq<(Seq<char>, Option<Seq<char>>)>;

/// The character views of a list of members with optional string values.
pub open spec fn members_view(m: Seq<(String, Option<String>)>) -> Seq<(Seq<char>, Option<Seq<char>>)> {
    m.map_values(|p: (String, Option<String>)| (p.0@, opt_view(p.1)))
}

/// `entries` (sorted by key, keys distinct) with the member `key: value`
/// put in, as inserting into a map sorted by key does: it replaces the
/// entry with the same key, or goes before the first entry with a greater
/// key.
pub open spec fn map_insert(entries: Seq<(Seq<char>, Seq<char>)>, key: Seq<char>, value: Seq<char>) -> Seq<
    (Seq<char>, Seq<char>),
>
    decreases entries.len(),
{
    if entries.len() == 0 {
        seq![(key, value)]
    } else if entries[0].0 == key {
        seq![(key, value)] + entries.drop_first()
    } else if text_less(key, entries[0].0) {
        seq![(key, value)] + entries
    } else {
        seq![entries[0]] + map_insert(entries.drop_first(), key, value)
    }
}

/// The entries of a map sorted by key after `members` were inserted one
/// after the other: each key once, with the value inserted last.
pub open spec fn string_map(members: Seq<(Seq<char>, Seq<char>)>) -> Seq<(Seq<char>, Seq<char>)>
    decreases members.len(),
{
    if members.len() == 0 {
        Seq::empty()
    } else {
        map_insert(string_map(members.drop_last()), members.last().0, members.last().1)
    }
}

/// One member of a JSON object with a string value: `"key":"value"`.
pub open spec fn member_text(p: (Seq<char>, Seq<char>)) -> Seq<char> {
    json_quoted(p.0) + ":"@ + json_quoted(p.1)
}

/// Members of a JSON object, in order, separated by commas.
pub open spec fn members_text(entries: Seq<(Seq<char>, Seq<char>)>) -> Seq<char>
    decreases entries.len(),
{
    if entries.len() == 0 {
        Seq::empty()
    } else if entries.len() == 1 {
        member_text(entries[0])
    } else {
        members_text(entries.drop_last()) + ","@ + member_text(entries.last())
    }
}

/// The compact JSON text of an object with these string-valued entries,
/// in this order.
pub open spec fn json_string_object(entries: Seq<(Seq<char>, Seq<char>)>) -> Seq<char> {
    "{"@ + members_text(entries) + "}"@
}

/// The character view of an optional string.
pub open spec fn opt_view(o: Option<String>) -> Option<Seq<char>> {
    match o {
        Some(s) => Some(s@),
        None => None,
    }
}

/// Calls `serde_json::from_str::<serde_json::Value>` on `text` and reads the
/// member `key` as a string (`Value::get`, then `Value::as_str`); the result
/// is the named `json_string_member` of the two texts.
#[verifier::external_body]
pub(crate) fn string_member(text: &str, key: &str) -> (r: Option<String>)
    ensures
        opt_view(r) == json_string_member(text@, key@),
{
    match serde_json::from_str::<serde_json::Value>(text) {
        Ok(v) => v.get(key).and_then(|m| m.as_str()).map(|m| m.to_string()),
        Err(_) => None,
    }
}

/// Calls `serde_json::to_string` on a string slice, which cannot fail for a
/// string; the result is `s` escaped and quoted as `json_quoted` states
/// (serde_json's `format_escaped_str` with its `ESCAPE` table).
#[verifier::external_body]
pub(crate) fn quote(s: &str) -> (r: String)
    ensures
        r@ == json_quoted(s@),
{
    match serde_json::to_string(s) {
        Ok(t) => t,
        Err(_) => String::new(),
    }
}

/// Calls `serde_json::to_string` on an integer, which cannot fail for a
/// `u16` and writes its decimal digits (serde_json's `itoa` formatting).
#[verifier::external_body]
pub(crate) fn number_text(n: u16) -> (r: String)
    ensures
        r@ == decimal_text(n as nat),
{
    match serde_json::to_string(&n) {
        Ok(t) => t,
        Err(_) => String::new(),
    }
}

/// Inserts `members`, in order, as string values into a `serde_json::Map`
/// (`Map::insert`, which keeps one entry per key with the value inserted
/// last; without the `preserve_order` feature the map is a `BTreeMap`,
/// whose keys come out in the order of their bytes) and writes the object
/// with `Value::to_string`: the compact text `json_string_object` states.
#[verifier::external_body]
pub(crate) fn string_object(members: &Vec<(String, String)>) -> (r: String)
    ensures
        r@ == json_string_object(string_map(crate::orchestrator::pairs_view(members@))),
{
    let mut m = serde_json::Map::new();
    for (k, v) in members {
        m.insert(k.clone(), serde_json::Value::String(v.clone()));
    }
    serde_json::Value::Object(m).to_string()
}

/// Calls `serde_json::from_str::<serde_json::Value>` on `text`, reads its
/// member `key` as an object (`Value::get`, `Value::as_object`) and lists
/// that object's members with `Value::as_str` of each value; the result is
/// the named `json_object_members` of the two texts.
#[verifier::external_body]
pub(crate) fn object_members(text: &str, key: &str) -> (r: Vec<(String, Option<String>)>)
    ensures
        members_view(r@) == json_object_members(text@, key@),
{
    let v: serde_json::Value = match serde_json::from_str(text) {
        Ok(v) => v,
        Err(_) => serde_json::Value::Null,
    };
    match v.get(key).and_then(|m| m.as_object()) {
        Some(o) => o.iter().map(|(k, m)| (k.clone(), m.as_str().map(|t| t.to_string()))).collect(),
        None => Vec::new(),
    }
}

/// Calls `serde_json::from_slice::<serde_json::Value>` on `bytes` and writes
/// the value back as compact text (`Value::to_string`); the result is the
/// named `json_compact` of the bytes.
#[verifier::external_body]
pub(crate) fn compact(bytes: &[u8]) -> (r: Option<String>)
    ensures
        opt_view(r) == json_compact(bytes@),
{
    match serde_json::from_slice::<serde_json::Value>(bytes) {
        Ok(v) => Some(v.to_string()),
        Err(_) => None,
    }
}

} // verus!
