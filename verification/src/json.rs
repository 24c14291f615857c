//! The JSON values that the vendor's replies are read from.
//!
//! Values are `serde_json::Value`s. Nothing is known of one but what its
//! accessors return, and what they return is given a name here, so that
//! contracts can say which member or which text of a value they mean.

use crate::text::decimal;
use serde_json::Value;
use vstd::prelude::*;

verus! {

/// `serde_json::Value`, a JSON value; nothing inside it is known here.
#[verifier::external_type_specification]
#[verifier::external_body]
pub struct ExValue(serde_json::Value);

/// `serde_json::Error`, which says why a text is no JSON.
#[verifier::external_type_specification]
#[verifier::external_body]
pub struct ExJsonError(serde_json::Error);

/// The value that `text` parses to as JSON, if it is well-formed JSON.
pub uninterp spec fn json_parsed(text: Seq<char>) -> Option<Value>;

/// The member of the object `v` under `key`; nothing where `v` is no
/// object or has no such member.
pub uninterp spec fn json_member(v: Value, key: Seq<char>) -> Option<Value>;

/// The elements of the array `v`; nothing where `v` is no array.
pub uninterp spec fn json_items(v: Value) -> Option<Seq<Value>>;

/// The compact JSON text of `v`.
pub uninterp spec fn json_text(v: Value) -> Seq<char>;

/// The integer that `v` holds, where `v` is a number that fits an `i64`.
pub uninterp spec fn json_int(v: Value) -> Option<i64>;

/// The string that `v` holds, where `v` is a string.
pub uninterp spec fn json_str(v: Value) -> Option<Seq<char>>;

/// Text that JSON writes between quotes as it is: it holds no double quote,
/// no backslash and no control character below U+0020.
pub open spec fn is_plain_text(s: Seq<char>) -> bool {
    forall|i: int|
        0 <= i < s.len() ==> (#[trigger] s[i]) != '"' && s[i] != '\\' && s[i] as u32 >= 0x20
}

/// `s` between two double quotes.
pub open spec fn quoted(s: Seq<char>) -> Seq<char> {
    seq!['"'] + s + seq!['"']
}

/// The decimal numeral of `n`, with a minus sign where `n` is negative.
pub open spec fn numeral(n: int) -> Seq<char> {
    if n < 0 {
        seq!['-'] + decimal((-n) as nat)
    } else {
        decimal(n as nat)
    }
}

/// `serde_json::from_str` at `Value`: the parsed value is the one that
/// `json_parsed` names, and an error comes back exactly where it names none.
#[verifier::external_body]
pub(crate) fn parse_value(text: &str) -> (r: Result<Value, serde_json::Error>)
    ensures
        match r {
            Ok(v) => json_parsed(text@) == Some(v),
            Err(_) => json_parsed(text@) is None,
        },
{
    serde_json::from_str::<Value>(text)
}

/// `Value::get` with a string key: the member that `json_member` names.
#[verifier::external_body]
pub(crate) fn member<'a>(v: &'a Value, key: &str) -> (r: Option<&'a Value>)
    ensures
        match r {
            Some(m) => json_member(*v, key@) == Some(*m),
            None => json_member(*v, key@) is None,
        },
{
    v.get(key)
}

/// `Value::as_array`: the elements that `json_items` names.
#[verifier::external_body]
pub(crate) fn items<'a>(v: &'a Value) -> (r: Option<&'a Vec<Value>>)
    ensures
        match r {
            Some(a) => json_items(*v) == Some(a@),
            None => json_items(*v) is None,
        },
{
    v.as_array()
}

/// `to_string` on a `Value`, which goes through its `Display`: the text
/// that `json_text` names. Of that text two things are claimed, both for
/// `serde_json` with its default features: a string of plain text is
/// written between quotes as it is, and an integer that fits an `i64` is
/// written as its decimal numeral.
#[verifier::external_body]
pub(crate) fn render(v: &Value) -> (r: String)
    ensures
        r@ == json_text(*v),
        match json_str(*v) {
            Some(s) => is_plain_text(s) ==> r@ == quoted(s),
            None => true,
        },
        match json_int(*v) {
            Some(n) => r@ == numeral(n as int),
            None => true,
        },
{
    v.to_string()
}

/// `Value::as_i64`: the integer that `json_int` names.
#[verifier::external_body]
pub(crate) fn as_integer(v: &Value) -> (r: Option<i64>)
    ensures
        r == json_int(*v),
{
    v.as_i64()
}

/// `Value::as_str`: the string that `json_str` names.
#[verifier::external_body]
pub(crate) fn as_text<'a>(v: &'a Value) -> (r: Option<&'a str>)
    ensures
        match r {
            Some(s) => json_str(*v) == Some(s@),
            None => json_str(*v) is None,
        },
{
    v.as_str()
}

} // verus!
