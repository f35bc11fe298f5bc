//! JSON values, built and written with `serde_json`, and Base64 text, written
//! with `base64`.

use base64::Engine;
use base64::engine::general_purpose::STANDARD;
use serde_json::Value;
use vstd::prelude::*;
use vstd::utf8::encode_utf8;

use crate::text::{decimal, hex_digit, signed_decimal};

verus! {

/// A JSON value.
#[verifier::external_type_specification]
#[verifier::external_body]
pub struct ExValue(serde_json::Value);

/// The compact text of a JSON value.
pub uninterp spec fn json_text(v: serde_json::Value) -> Seq<char>;

/// A character as it stands in a JSON string.
pub open spec fn escaped_char(c: char) -> Seq<char> {
    if c == '"' {
        seq!['\\', '"']
    } else if c == '\\' {
        seq!['\\', '\\']
    } else if c == '\u{8}' {
        seq!['\\', 'b']
    } else if c == '\u{c}' {
        seq!['\\', 'f']
    } else if c == '\n' {
        seq!['\\', 'n']
    } else if c == '\r' {
        seq!['\\', 'r']
    } else if c == '\t' {
        seq!['\\', 't']
    } else if (c as int) < 0x20 {
        seq![
            '\\',
            'u',
            '0',
            '0',
            hex_digit(c as nat / 16),
            hex_digit(c as nat % 16),
        ]
    } else {
        seq![c]
    }
}

/// Text as it stands between the quotes of a JSON string.
pub open spec fn escaped(s: Seq<char>) -> Seq<char>
    decreases s.len(),
{
    if s.len() == 0 {
        Seq::empty()
    } else {
        escaped(s.drop_last()) + escaped_char(s.last())
    }
}

/// A JSON string.
pub open spec fn quoted(s: Seq<char>) -> Seq<char> {
    seq!['"'] + escaped(s) + seq!['"']
}

/// Texts with a comma between them.
pub open spec fn joined(texts: Seq<Seq<char>>) -> Seq<char>
    decreases texts.len(),
{
    if texts.len() == 0 {
        Seq::empty()
    } else if texts.len() == 1 {
        texts[0]
    } else {
        joined(texts.drop_last()) + seq![','] + texts.last()
    }
}

/// The text of an array whose items have these texts.
pub open spec fn array_text(items: Seq<Seq<char>>) -> Seq<char> {
    seq!['['] + joined(items) + seq![']']
}

/// The text of an object whose members have these names and texts.
pub open spec fn object_text(members: Seq<(Seq<char>, Seq<char>)>) -> Seq<char> {
    seq!['{'] + joined(
        Seq::new(members.len(), |i: int| quoted(members[i].0) + seq![':'] + members[i].1),
    ) + seq!['}']
}

/// The texts of values.
pub open spec fn value_texts(items: Seq<Value>) -> Seq<Seq<char>> {
    Seq::new(items.len(), |i: int| json_text(items[i]))
}

/// The names and texts of members.
pub open spec fn member_texts(fields: Seq<(String, Value)>) -> Seq<(Seq<char>, Seq<char>)> {
    Seq::new(fields.len(), |i: int| (fields[i].0@, json_text(fields[i].1)))
}

/// Whether `a` comes before `b`: it does at the first character in which they
/// differ, or is the beginning of `b`.
pub open spec fn comes_before(a: Seq<char>, b: Seq<char>) -> bool
    decreases a.len(),
{
    if b.len() == 0 {
        false
    } else if a.len() == 0 {
        true
    } else if a[0] == b[0] {
        comes_before(a.skip(1), b.skip(1))
    } else {
        (a[0] as int) < (b[0] as int)
    }
}

/// Whether the names of the members of an object are in order.
pub open spec fn names_in_order(fields: Seq<(String, Value)>) -> bool {
    forall|i: int|
        0 <= i < fields.len() - 1 ==> comes_before(
            (#[trigger] fields[i]).0@,
            fields[i + 1].0@,
        )
}

/// `Value::from` a string: a JSON string.
#[verifier::external_body]
pub(crate) fn json_string(s: &str) -> (v: Value)
    ensures
        json_text(v) == quoted(s@),
{
    Value::from(s)
}

/// `Value::from` a signed integer: the number in decimal.
#[verifier::external_body]
pub(crate) fn json_integer(i: i64) -> (v: Value)
    ensures
        json_text(v) == signed_decimal(i as int),
{
    Value::from(i)
}

/// `Value::from` an unsigned integer: the number in decimal.
#[verifier::external_body]
pub(crate) fn json_unsigned(n: u64) -> (v: Value)
    ensures
        json_text(v) == decimal(n as nat),
{
    Value::from(n)
}

/// `Value::Array`: the items in order.
#[verifier::external_body]
pub(crate) fn json_array(items: Vec<Value>) -> (v: Value)
    ensures
        json_text(v) == array_text(value_texts(items@)),
{
    Value::Array(items)
}

/// `Value::Object` of a `serde_json::Map` with these members: an object is
/// written in the order of its names, so members that come in that order are
/// written as they come.
#[verifier::external_body]
pub(crate) fn json_object(fields: Vec<(String, Value)>) -> (v: Value)
    requires
        names_in_order(fields@),
    ensures
        json_text(v) == object_text(member_texts(fields@)),
{
    Value::Object(serde_json::Map::from_iter(fields))
}

/// `Value::to_string`: the compact text of the value.
#[verifier::external_body]
pub(crate) fn render(v: &Value) -> (text: String)
    ensures
        text@ == json_text(*v),
{
    v.to_string()
}

/// `serde_json::to_vec` of a list of values: the bytes of the array's compact
/// text. It fails only where a value cannot be written, and every `Value` can.
#[verifier::external_body]
pub(crate) fn render_array(items: &Vec<Value>) -> (bytes: Vec<u8>)
    ensures
        bytes@ == encode_utf8(array_text(value_texts(items@))),
{
    serde_json::to_vec(items).unwrap_or_default()
}

/// The Base64 character for six bits.
pub open spec fn base64_char(n: nat) -> char {
    if n < 26 {
        (65 + n) as char
    } else if n < 52 {
        (71 + n) as char
    } else if n < 62 {
        (n - 4) as char
    } else if n == 62 {
        '+'
    } else {
        '/'
    }
}

/// Bytes in Base64: four characters for three bytes, padded at the end.
pub open spec fn base64(bytes: Seq<u8>) -> Seq<char>
    decreases bytes.len(),
{
    if bytes.len() == 0 {
        Seq::empty()
    } else {
        let a = bytes[0] as nat;
        let b = if bytes.len() > 1 {
            bytes[1] as nat
        } else {
            0
        };
        let c = if bytes.len() > 2 {
            bytes[2] as nat
        } else {
            0
        };
        let third = if bytes.len() > 1 {
            base64_char(b % 16 * 4 + c / 64)
        } else {
            '='
        };
        let fourth = if bytes.len() > 2 {
            base64_char(c % 64)
        } else {
            '='
        };
        let group = seq![base64_char(a / 4), base64_char(a % 4 * 16 + b / 16), third, fourth];
        if bytes.len() <= 3 {
            group
        } else {
            group + base64(bytes.skip(3))
        }
    }
}

/// Whether bytes are few enough for their Base64 text to be held in memory.
pub open spec fn base64_fits(len: nat) -> bool {
    (len + 2) / 3 * 4 <= isize::MAX
}

/// `Engine::encode` of `base64`'s standard engine: the bytes in Base64 with
/// the standard alphabet and with padding. It panics where the text would be
/// too long for memory.
#[verifier::external_body]
pub(crate) fn base64_encode(bytes: &[u8]) -> (text: String)
    requires
        base64_fits(bytes@.len()),
    ensures
        text@ == base64(bytes@),
{
    STANDARD.encode(bytes)
}

} // verus!
