//! Reading values out of JSON replies with serde_json: each read parses the
//! reply and follows a JSON pointer (RFC 6901, as `Value::pointer` reads it)
//! to one value.
use vstd::prelude::*;
use crate::numfmt::{decimal, push_decimal};
use crate::text::{chars_of, extend_chars, string_of};
use crate::profiles::opt_view;

verus! {

/// The message of serde_json's error for a text that is not a JSON
/// document; `None` for a document.
pub uninterp spec fn json_error_of(text: Seq<char>) -> Option<Seq<char>>;

/// The string at `pointer`; `None` when the text is not a document, nothing
/// is there, or it is not a string.
pub uninterp spec fn json_str_at(text: Seq<char>, pointer: Seq<char>) -> Option<Seq<char>>;

/// The number at `pointer` when it is an integer that fits in a `u64`.
pub uninterp spec fn json_u64_at(text: Seq<char>, pointer: Seq<char>) -> Option<u64>;

/// The number at `pointer` when it is an integer that fits in an `i64`.
pub uninterp spec fn json_i64_at(text: Seq<char>, pointer: Seq<char>) -> Option<i64>;

/// The boolean at `pointer`.
pub uninterp spec fn json_bool_at(text: Seq<char>, pointer: Seq<char>) -> Option<bool>;

/// Whether the value at `pointer` is `null`; `None` when nothing is there.
pub uninterp spec fn json_null_at(text: Seq<char>, pointer: Seq<char>) -> Option<bool>;

/// The value at `pointer` written back as compact JSON text.
pub uninterp spec fn json_text_at(text: Seq<char>, pointer: Seq<char>) -> Option<Seq<char>>;

/// The length of the array at `pointer`.
pub uninterp spec fn json_len_at(text: Seq<char>, pointer: Seq<char>) -> Option<usize>;

/// `serde_json::from_str::<Value>`: whether `text` is a JSON document, with
/// serde_json's error message when it is not.
#[verifier::external_body]
pub(crate) fn json_syntax(text: &str) -> (r: Result<(), String>)
    ensures
        match json_error_of(text@) {
            Some(m) => r matches Err(e) && e@ == m,
            None => r is Ok,
        },
{
    serde_json::from_str::<serde_json::Value>(text).map(|_| ()).map_err(|e| e.to_string())
}

/// `Value::pointer` then `Value::as_str` on the parsed text.
#[verifier::external_body]
pub(crate) fn json_str(text: &str, pointer: &str) -> (r: Option<String>)
    ensures
        opt_view(r) == json_str_at(text@, pointer@),
{
    let v: serde_json::Value = serde_json::from_str(text).ok()?;
    v.pointer(pointer).and_then(|x| x.as_str()).map(|s| s.to_string())
}

/// `Value::pointer` then `Value::as_u64` on the parsed text.
#[verifier::external_body]
pub(crate) fn json_u64(text: &str, pointer: &str) -> (r: Option<u64>)
    ensures
        r == json_u64_at(text@, pointer@),
{
    let v: serde_json::Value = serde_json::from_str(text).ok()?;
    v.pointer(pointer).and_then(|x| x.as_u64())
}

/// `Value::pointer` then `Value::as_i64` on the parsed text.
#[verifier::external_body]
pub(crate) fn json_i64(text: &str, pointer: &str) -> (r: Option<i64>)
    ensures
        r == json_i64_at(text@, pointer@),
{
    let v: serde_json::Value = serde_json::from_str(text).ok()?;
    v.pointer(pointer).and_then(|x| x.as_i64())
}

/// `Value::pointer` then `Value::as_bool` on the parsed text.
#[verifier::external_body]
pub(crate) fn json_bool(text: &str, pointer: &str) -> (r: Option<bool>)
    ensures
        r == json_bool_at(text@, pointer@),
{
    let v: serde_json::Value = serde_json::from_str(text).ok()?;
    v.pointer(pointer).and_then(|x| x.as_bool())
}

/// `Value::pointer` then `Value::is_null` on the parsed text.
#[verifier::external_body]
pub(crate) fn json_null(text: &str, pointer: &str) -> (r: Option<bool>)
    ensures
        r == json_null_at(text@, pointer@),
{
    let v: serde_json::Value = serde_json::from_str(text).ok()?;
    v.pointer(pointer).map(|x| x.is_null())
}

/// `Value::pointer` then `Value::to_string` on the parsed text.
#[verifier::external_body]
pub(crate) fn json_text(text: &str, pointer: &str) -> (r: Option<String>)
    ensures
        opt_view(r) == json_text_at(text@, pointer@),
{
    let v: serde_json::Value = serde_json::from_str(text).ok()?;
    v.pointer(pointer).map(|x| x.to_string())
}

/// `Value::pointer` then `Value::as_array` and its length on the parsed
/// text.
#[verifier::external_body]
pub(crate) fn json_len(text: &str, pointer: &str) -> (r: Option<usize>)
    ensures
        r == json_len_at(text@, pointer@),
{
    let v: serde_json::Value = serde_json::from_str(text).ok()?;
    v.pointer(pointer).and_then(|x| x.as_array()).map(|a| a.len())
}

/// The pointer to member `key` (or element `key`) of the value at `base`.
pub open spec fn json_member(base: Seq<char>, key: Seq<char>) -> Seq<char> {
    base + "/"@ + key
}

/// The text of a string read, the empty text when there is none.
pub open spec fn str_or_empty(s: Option<Seq<char>>) -> Seq<char> {
    match s {
        Some(x) => x,
        None => Seq::empty(),
    }
}

/// The pointer to member `key` of the value at `base`.
pub fn member(base: &str, key: &str) -> (r: String)
    ensures
        r@ == json_member(base@, key@),
{
    let mut v = chars_of(base);
    v.push('/');
    let k = chars_of(key);
    extend_chars(&mut v, k.as_slice());
    proof {
        reveal_strlit("/");
        assert(v@ == base@ + "/"@ + key@);
    }
    string_of(v.as_slice())
}

/// The pointer to element `i` of the array at `base`.
pub fn element(base: &str, i: usize) -> (r: String)
    ensures
        r@ == json_member(base@, decimal(i as nat)),
{
    let mut v = chars_of(base);
    v.push('/');
    push_decimal(&mut v, i as u64);
    proof {
        reveal_strlit("/");
        assert(v@ == base@ + "/"@ + decimal(i as nat));
    }
    string_of(v.as_slice())
}

/// A flag sent as a boolean or as an integer, non-zero meaning set.
pub open spec fn json_flag_at(text: Seq<char>, pointer: Seq<char>) -> bool {
    match json_bool_at(text, pointer) {
        Some(b) => b,
        None => match json_u64_at(text, pointer) {
            Some(n) => n != 0,
            None => match json_i64_at(text, pointer) {
                Some(n) => n != 0,
                None => false,
            },
        },
    }
}

/// Reads a flag sent as a boolean or as an integer.
pub fn json_flag(text: &str, pointer: &str) -> (r: bool)
    ensures
        r == json_flag_at(text@, pointer@),
{
    match json_bool(text, pointer) {
        Some(b) => b,
        None => match json_u64(text, pointer) {
            Some(n) => n != 0,
            None => match json_i64(text, pointer) {
                Some(n) => n != 0,
                None => false,
            },
        },
    }
}


/// An optional string borrowed as a string slice.
pub fn as_opt_str(o: &Option<String>) -> (r: Option<&str>)
    ensures
        r is Some <==> o is Some,
        r matches Some(x) ==> x@ == o->0@,
{
    match o {
        Some(s) => Some(s.as_str()),
        None => None,
    }
}

/// A string read, or the empty string when there is none.
pub fn string_or_empty(o: Option<String>) -> (r: String)
    ensures
        r@ == str_or_empty(opt_view(o)),
{
    match o {
        Some(s) => s,
        None => String::new(),
    }
}

/// The value at `pointer` written back as JSON text: a number as its
/// digits (what a caller parses a fractional number from), a string in
/// quotes.
pub fn value_text_at(text: &str, pointer: &str) -> (r: Option<String>)
    ensures
        opt_view(r) == json_text_at(text@, pointer@),
{
    json_text(text, pointer)
}

/// The length of the array at `pointer`.
pub fn array_len_at(text: &str, pointer: &str) -> (r: Option<usize>)
    ensures
        r == json_len_at(text@, pointer@),
{
    json_len(text, pointer)
}

} // verus!
