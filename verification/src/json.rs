//! JSON objects, as the `serde_json` crate builds and renders them.
use vstd::prelude::*;

use crate::text::{decimal, digit};

verus! {

/// A JSON value of the `serde_json` crate.
#[verifier::external_type_specification]
#[verifier::external_body]
pub struct ExJsonValue(serde_json::Value);

/// The members of a JSON object of the `serde_json` crate.
#[verifier::external_type_specification]
#[verifier::external_body]
#[verifier::reject_recursive_types(K)]
#[verifier::reject_recursive_types(V)]
pub struct ExJsonMap<K, V>(serde_json::Map<K, V>);

/// The members of `object`: each name with the compact JSON text of its value.
pub uninterp spec fn members(object: serde_json::Map<String, serde_json::Value>) -> Map<
    Seq<char>,
    Seq<char>,
>;

/// The hexadecimal digit of `d`, for `d` below sixteen.
pub open spec fn hex_digit(d: nat) -> char {
    if d < 10 {
        digit(d)
    } else if d == 10 {
        'a'
    } else if d == 11 {
        'b'
    } else if d == 12 {
        'c'
    } else if d == 13 {
        'd'
    } else if d == 14 {
        'e'
    } else {
        'f'
    }
}

/// A character inside a JSON string: quotes, backslashes and the control characters
/// up to 0x1f are escaped.
pub open spec fn json_char(c: char) -> Seq<char> {
    let code = c as u32;
    if c == '"' || c == '\\' {
        seq!['\\', c]
    } else if code == 0x08 {
        seq!['\\', 'b']
    } else if code == 0x09 {
        seq!['\\', 't']
    } else if code == 0x0a {
        seq!['\\', 'n']
    } else if code == 0x0c {
        seq!['\\', 'f']
    } else if code == 0x0d {
        seq!['\\', 'r']
    } else if code <= 0x1f {
        seq!['\\', 'u', '0', '0', hex_digit((code / 16) as nat), hex_digit((code % 16) as nat)]
    } else {
        seq![c]
    }
}

/// The characters of `text` inside a JSON string.
pub open spec fn json_chars(text: Seq<char>) -> Seq<char>
    decreases text.len(),
{
    if text.len() == 0 {
        Seq::empty()
    } else {
        json_chars(text.drop_last()) + json_char(text.last())
    }
}

/// `text` as a JSON string, in quotes and escaped.
pub open spec fn json_string(text: Seq<char>) -> Seq<char> {
    seq!['"'] + json_chars(text) + seq!['"']
}

/// The compact JSON text of an object with these members.
pub uninterp spec fn json_object(members: Map<Seq<char>, Seq<char>>) -> Seq<char>;

/// `n` as a JSON number.
pub open spec fn json_integer(n: int) -> Seq<char> {
    if n < 0 {
        seq!['-'] + decimal((-n) as nat)
    } else {
        decimal(n as nat)
    }
}

/// Calls `serde_json::Map::new`: the object has no members.
#[verifier::external_body]
pub(crate) fn object_new() -> (object: serde_json::Map<String, serde_json::Value>)
    ensures
        (members(object) == Map::<Seq<char>, Seq<char>>::empty()),
{
    serde_json::Map::new()
}

/// Calls `serde_json::Map::insert` with a string value: the member is set to it,
/// written in quotes and escaped, and the others stay.
#[verifier::external_body]
pub(crate) fn put_text(
    object: &mut serde_json::Map<String, serde_json::Value>,
    name: &str,
    text: &str,
)
    ensures
        members(*final(object)) == members(*old(object)).insert(name@, json_string(text@)),
{
    object.insert(name.to_string(), serde_json::Value::from(text));
}

/// Calls `serde_json::Map::insert` with an unsigned number: the member is set to it,
/// and the others stay.
#[verifier::external_body]
pub(crate) fn put_unsigned(
    object: &mut serde_json::Map<String, serde_json::Value>,
    name: &str,
    number: u64,
)
    ensures
        members(*final(object)) == members(*old(object)).insert(name@, json_integer(number as int)),
{
    object.insert(name.to_string(), serde_json::Value::from(number));
}

/// Calls `serde_json::Map::insert` with a signed number: the member is set to it,
/// and the others stay.
#[verifier::external_body]
pub(crate) fn put_signed(
    object: &mut serde_json::Map<String, serde_json::Value>,
    name: &str,
    number: i32,
)
    ensures
        members(*final(object)) == members(*old(object)).insert(name@, json_integer(number as int)),
{
    object.insert(name.to_string(), serde_json::Value::from(number));
}

/// Calls the `Display` impl of `serde_json::Value`: the compact text of an object
/// depends on its members alone, and is one line, since every control character
/// in a string is escaped.
#[verifier::external_body]
pub(crate) fn object_text(object: serde_json::Map<String, serde_json::Value>) -> (text: String)
    ensures
        text@ == json_object(members(object)),
        !text@.contains('\n'),
{
    serde_json::Value::Object(object).to_string()
}

} // verus!
