//! What this crate takes from `serde_json`: the reading of a JSON document and
//! the picking of members and scalars from it. Nothing here is proved; each
//! contract restates what `serde_json` documents.

use vstd::prelude::*;

verus! {

/// `serde_json::Value`, a JSON value of any kind. Nothing is known of what it
/// holds but through the functions below.
#[verifier::external_type_specification]
#[verifier::external_body]
pub struct ExValue(serde_json::Value);

/// `serde_json::Error`, what `serde_json` says of a text that is no JSON
/// document.
#[verifier::external_type_specification]
#[verifier::external_body]
pub struct ExError(serde_json::Error);

/// The JSON value that `text` spells, if it is a JSON document.
pub uninterp spec fn json_document(text: Seq<char>) -> Option<serde_json::Value>;

/// The member of the JSON object `value` under `key`; nothing if `value` is no
/// object or has no such member.
pub uninterp spec fn json_member(value: serde_json::Value, key: Seq<char>) -> Option<serde_json::Value>;

/// The text of the JSON string `value`; nothing if `value` is no string.
pub uninterp spec fn json_string(value: serde_json::Value) -> Option<Seq<char>>;

/// The JSON number `value` as an unsigned integer; nothing if `value` is no
/// number, or is negative, or was written with a fraction or an exponent.
pub uninterp spec fn json_unsigned(value: serde_json::Value) -> Option<u64>;

/// The bits of the IEEE 754 double that stands for the JSON number `value`;
/// nothing if `value` is no number.
pub uninterp spec fn json_double(value: serde_json::Value) -> Option<u64>;

/// `serde_json::from_str`, at the type `serde_json::Value`. It succeeds on
/// the texts that are JSON documents, and the value it returns depends on the
/// text alone.
#[verifier::external_body]
pub(crate) fn read_document(text: &str) -> (r: Result<serde_json::Value, serde_json::Error>)
    ensures
        r is Ok <==> json_document(text@) is Some,
        r matches Ok(value) ==> json_document(text@) == Some(value),
{
    serde_json::from_str::<serde_json::Value>(text)
}

/// `serde_json::Value::get` with a string index: the member under `key` of an
/// object, nothing for any other value or a missing key.
#[verifier::external_body]
pub(crate) fn member<'a>(
    value: &'a serde_json::Value,
    key: &str,
) -> (r: Option<&'a serde_json::Value>)
    ensures
        r is Some <==> json_member(*value, key@) is Some,
        r matches Some(found) ==> json_member(*value, key@) == Some(*found),
{
    value.get(key)
}

/// `serde_json::Value::as_str`: the text of a string, nothing for any other
/// value.
#[verifier::external_body]
pub(crate) fn string_of<'a>(value: &'a serde_json::Value) -> (r: Option<&'a str>)
    ensures
        r is Some <==> json_string(*value) is Some,
        r matches Some(text) ==> json_string(*value) == Some(text@),
{
    value.as_str()
}

/// `serde_json::Value::as_u64`: a number that was read as a non-negative
/// integer, nothing for any other value.
#[verifier::external_body]
pub(crate) fn unsigned_of(value: &serde_json::Value) -> (r: Option<u64>)
    ensures
        r == json_unsigned(*value),
{
    value.as_u64()
}

/// `serde_json::Value::as_f64`, the double handed on as its bits: a number as
/// a double, nothing for any other value.
#[verifier::external_body]
pub(crate) fn double_of(value: &serde_json::Value) -> (r: Option<u64>)
    ensures
        r == json_double(*value),
{
    match value.as_f64() {
        Some(double) => Some(double.to_bits()),
        None => None,
    }
}

} // verus!
