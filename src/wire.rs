use vstd::prelude::*;
use vstd::string::*;
use crate::types::{LogMessage, LogMessageKind};

verus! {

/// The lowercase hexadecimal digit for `n < 16`.
pub open spec fn hex_digit(n: u32) -> char {
    seq!['0', '1', '2', '3', '4', '5', '6', '7', '8', '9', 'a', 'b', 'c', 'd', 'e', 'f'][n as int]
}

/// How one character stands inside a JSON string: `"` and `\` are escaped with a backslash,
/// backspace, tab, line feed, form feed and carriage return by their short escapes, the other
/// control characters below U+0020 as `\u00XX`, and everything else as itself.
pub open spec fn json_escape(c: char) -> Seq<char> {
    if c == '"' {
        seq!['\\', '"']
    } else if c == '\\' {
        seq!['\\', '\\']
    } else if c == '\u{8}' {
        seq!['\\', 'b']
    } else if c == '\t' {
        seq!['\\', 't']
    } else if c == '\n' {
        seq!['\\', 'n']
    } else if c == '\u{c}' {
        seq!['\\', 'f']
    } else if c == '\r' {
        seq!['\\', 'r']
    } else if (c as u32) < 0x20 {
        seq!['\\', 'u', '0', '0', hex_digit((c as u32) / 16), hex_digit((c as u32) % 16)]
    } else {
        seq![c]
    }
}

/// The characters of `s`, each escaped for a JSON string.
pub open spec fn json_escaped(s: Seq<char>) -> Seq<char>
    decreases s.len(),
{
    if s.len() == 0 {
        Seq::empty()
    } else {
        json_escape(s[0]) + json_escaped(s.drop_first())
    }
}

/// The JSON string literal for `s`: its escaped characters between double quotes.
pub open spec fn json_string_of(s: Seq<char>) -> Seq<char> {
    seq!['"'] + json_escaped(s) + seq!['"']
}

/// Relies on `serde_json::to_string` applied to a `str`: it writes `s` between double quotes
/// with the escapes of its `ESCAPE` table, and serialising a `str` into an in-memory buffer
/// does not fail.
#[verifier::external_body]
fn json_quote(s: &str) -> (r: Result<String, serde_json::Error>)
    ensures
        r is Ok,
        r matches Ok(t) ==> t@ == json_string_of(s@),
{
    serde_json::to_string(s)
}

/// serde_json's error type, held opaque.
#[verifier::external_type_specification]
#[verifier::external_body]
pub struct ExJsonError(serde_json::Error);

/// The JSON string that names a message kind on the wire.
pub open spec fn kind_json(k: LogMessageKind) -> Seq<char> {
    match k {
        LogMessageKind::Stdout => "\"Stdout\""@,
        LogMessageKind::Stderr => "\"Stderr\""@,
        LogMessageKind::Meta => "\"Meta\""@,
    }
}

/// The frame sent for a message: one JSON object with exactly the fields
/// `backend_id`, `kind` and `text`, in that order.
pub open spec fn frame_of(m: LogMessage) -> Seq<char> {
    "{\"backend_id\":"@ + json_string_of(m.backend_id@) + ",\"kind\":"@ + kind_json(m.kind)
        + ",\"text\":"@ + json_string_of(m.text@) + "}"@
}

fn quoted(s: &str) -> (r: String)
    ensures
        r@ == json_string_of(s@),
{
    match json_quote(s) {
        Ok(t) => t,
        Err(_) => String::new(),
    }
}

fn kind_str(k: LogMessageKind) -> (r: &'static str)
    ensures
        r@ == kind_json(k),
{
    match k {
        LogMessageKind::Stdout => "\"Stdout\"",
        LogMessageKind::Stderr => "\"Stderr\"",
        LogMessageKind::Meta => "\"Meta\"",
    }
}

/// Serialises a message into the text of one frame.
pub fn encode_frame(m: &LogMessage) -> (r: String)
    ensures
        r@ == frame_of(*m),
{
    let mut out = String::from_str("{\"backend_id\":");
    out.append(quoted(m.backend_id.as_str()).as_str());
    out.append(",\"kind\":");
    out.append(kind_str(m.kind));
    out.append(",\"text\":");
    out.append(quoted(m.text.as_str()).as_str());
    out.append("}");
    out
}

} // verus!
