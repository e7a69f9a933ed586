//! The configuration entries that open a session: the node's mode and the
//! endpoints it connects to, each written as JSON text.

use vstd::prelude::*;

verus! {

/// The hexadecimal digit (lower case) of `d`, 0 to 15.
pub open spec fn hex_digit(d: int) -> char {
    if d < 10 {
        (d + 48) as char
    } else {
        (d + 87) as char
    }
}

/// The JSON text of one character inside a string literal: quote and
/// backslash escaped, the control characters below 0x20 written as `\b`,
/// `\t`, `\n`, `\f`, `\r` or `\u00XX`, every other character as it is.
pub open spec fn json_escape_char(c: char) -> Seq<char> {
    let n = c as int;
    if c == '"' {
        seq!['\\', '"']
    } else if c == '\\' {
        seq!['\\', '\\']
    } else if n == 8 {
        seq!['\\', 'b']
    } else if n == 9 {
        seq!['\\', 't']
    } else if n == 10 {
        seq!['\\', 'n']
    } else if n == 12 {
        seq!['\\', 'f']
    } else if n == 13 {
        seq!['\\', 'r']
    } else if n < 32 {
        seq!['\\', 'u', '0', '0', hex_digit(n / 16), hex_digit(n % 16)]
    } else {
        seq![c]
    }
}

/// The escaped characters of a string.
pub open spec fn json_escape(s: Seq<char>) -> Seq<char>
    decreases s.len(),
{
    if s.len() == 0 {
        Seq::empty()
    } else {
        json_escape(s.drop_last()) + json_escape_char(s.last())
    }
}

/// The JSON text of a string: the escaped characters between quotes.
pub open spec fn json_string(s: Seq<char>) -> Seq<char> {
    seq!['"'] + json_escape(s) + seq!['"']
}

/// The strings as JSON texts, separated by commas.
pub open spec fn json_items(l: Seq<Seq<char>>) -> Seq<char>
    decreases l.len(),
{
    if l.len() == 0 {
        Seq::empty()
    } else if l.len() == 1 {
        json_string(l[0])
    } else {
        json_items(l.drop_last()) + seq![','] + json_string(l.last())
    }
}

/// The compact JSON text of a list of strings.
pub open spec fn json_string_list(l: Seq<Seq<char>>) -> Seq<char> {
    seq!['['] + json_items(l) + seq![']']
}

/// The texts of a list of strings.
pub open spec fn texts(v: Seq<String>) -> Seq<Seq<char>> {
    v.map_values(|s: String| s@)
}

/// `serde_json::to_string` of a string slice: the JSON string literal of
/// the text, escaped as the crate's compact serializer escapes it. Writing a
/// string to a vector of bytes does not fail.
#[verifier::external_body]
fn json_of_str(s: &str) -> (r: String)
    ensures
        r@ == json_string(s@),
{
    match serde_json::to_string(s) {
        Ok(text) => text,
        Err(_) => String::new(),
    }
}

/// `serde_json::to_string` of a list of strings: the compact JSON array of
/// their string literals, with no spaces. Writing strings to a vector of
/// bytes does not fail.
#[verifier::external_body]
fn json_of_strings(v: &Vec<String>) -> (r: String)
    ensures
        r@ == json_string_list(texts(v@)),
{
    match serde_json::to_string(v) {
        Ok(text) => text,
        Err(_) => String::new(),
    }
}

/// The values, as JSON5 text, that a session's configuration takes for its
/// mode and for the endpoints it connects to.
pub struct SessionConfig {
    pub mode: String,
    pub endpoints: String,
}

/// The configuration that opens a session in `mode` (such as `client` or
/// `peer`) connected to `endpoints`.
pub fn session_config(mode: &str, endpoints: &Vec<String>) -> (r: SessionConfig)
    ensures
        r.mode@ == json_string(mode@),
        r.endpoints@ == json_string_list(texts(endpoints@)),
{
    SessionConfig { mode: json_of_str(mode), endpoints: json_of_strings(endpoints) }
}

} // verus!
