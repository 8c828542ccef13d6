//! JSON values, read and built through `serde_json`.
//!
//! `Json` is what a `serde_json::Value` holds; the contracts speak of it.

use vstd::prelude::*;
use vstd::string::*;

use crate::binary64::{bits_of_whole, SIGN_BIT};

verus! {

/// What a JSON number holds.
pub enum JsonNumber {
    /// A number kept as an integer.
    Whole(int),
    /// A number kept in binary64, by its bits.
    Float(u64),
}

/// What a JSON value holds.
pub enum Json {
    Null,
    Bool(bool),
    Number(JsonNumber),
    Text(Seq<char>),
    List(Seq<Json>),
    Object(Map<Seq<char>, Json>),
}

/// The value under `key`, if `j` is an object that has it.
pub open spec fn member(j: Json, key: Seq<char>) -> Option<Json> {
    match j {
        Json::Object(m) => if m.dom().contains(key) {
            Some(m[key])
        } else {
            None
        },
        _ => None,
    }
}

/// The text that `j` is, if it is a text.
pub open spec fn text_in(j: Json) -> Option<Seq<char>> {
    match j {
        Json::Text(s) => Some(s),
        _ => None,
    }
}

/// The text under `key`, if `j` is an object that has a text there.
pub open spec fn text_under(j: Json, key: Seq<char>) -> Option<Seq<char>> {
    match member(j, key) {
        Some(m) => text_in(m),
        None => None,
    }
}

/// The integer that `j` is, if it is a number kept as an integer.
pub open spec fn integer_in(j: Json) -> Option<int> {
    match j {
        Json::Number(JsonNumber::Whole(n)) => Some(n),
        _ => None,
    }
}

/// `j`, an object, with `x` under `key`.
pub open spec fn with_member(j: Json, key: Seq<char>, x: Json) -> Json {
    match j {
        Json::Object(m) => Json::Object(m.insert(key, x)),
        _ => j,
    }
}

/// Whether `j` is an object that has these keys and no others.
pub open spec fn has_only(j: Json, keys: Set<Seq<char>>) -> bool {
    j matches Json::Object(m) && m.dom() == keys
}

/// The object that has nothing in it.
pub open spec fn empty_object() -> Json {
    Json::Object(Map::empty())
}

// ---------------------------------------------------------------- serde_json

#[verifier::external_type_specification]
#[verifier::external_body]
pub struct ExValue(serde_json::Value);

#[verifier::external_type_specification]
#[verifier::external_body]
pub struct ExNumber(serde_json::Number);

/// What a `serde_json::Value` holds.
pub uninterp spec fn held(v: serde_json::Value) -> Json;

/// What a `serde_json::Number` holds.
pub uninterp spec fn number_held(n: serde_json::Number) -> JsonNumber;

/// What `serde_json::from_str` makes of a text; `None` where it is not JSON.
pub uninterp spec fn json_in(text: Seq<char>) -> Option<Json>;

/// The compact text in which `serde_json` writes a value.
pub uninterp spec fn json_text(j: Json) -> Seq<char>;

/// `serde_json::from_str` into a `Value`: the value that the text denotes, or an
/// error, here `None`. What it is depends on the text alone.
#[verifier::external_body]
pub(crate) fn parse(text: &str) -> (r: Option<serde_json::Value>)
    ensures
        r is Some == (json_in(text@) is Some),
        r matches Some(v) ==> held(v) == json_in(text@)->0,
{
    serde_json::from_str(text).ok()
}

/// `Value::to_string`: the compact text of the value, with the members of an
/// object in the order of their keys, so that it depends on what is held alone.
#[verifier::external_body]
pub(crate) fn render(v: &serde_json::Value) -> (r: String)
    ensures
        r@ == json_text(held(*v)),
{
    v.to_string()
}

/// `Value::get` with a key: the member of an object, `None` where it has no such
/// member or where the value is no object.
#[verifier::external_body]
pub(crate) fn get<'a>(v: &'a serde_json::Value, key: &str) -> (r: Option<&'a serde_json::Value>)
    ensures
        r is Some == (member(held(*v), key@) is Some),
        r matches Some(m) ==> held(*m) == member(held(*v), key@)->0,
{
    v.get(key)
}

/// `Value::as_str`: the text, where the value is one.
#[verifier::external_body]
pub(crate) fn as_str(v: &serde_json::Value) -> (r: Option<&str>)
    ensures
        r is Some == (text_in(held(*v)) is Some),
        r matches Some(s) ==> s@ == text_in(held(*v))->0,
{
    v.as_str()
}

/// `Value::as_u64`: the number, where the value is one kept as an integer and not negative.
#[verifier::external_body]
pub(crate) fn as_u64(v: &serde_json::Value) -> (r: Option<u64>)
    ensures
        r == (match integer_in(held(*v)) {
            Some(n) if 0 <= n <= u64::MAX => Some(n as u64),
            _ => None,
        }),
{
    v.as_u64()
}

/// `Value::as_i64`: the number, where the value is one kept as an integer that fits.
#[verifier::external_body]
pub(crate) fn as_i64(v: &serde_json::Value) -> (r: Option<i64>)
    ensures
        r == (match integer_in(held(*v)) {
            Some(n) if i64::MIN <= n <= i64::MAX => Some(n as i64),
            _ => None,
        }),
{
    v.as_i64()
}

/// `Value::as_number`: the number, where the value is one.
#[verifier::external_body]
pub(crate) fn as_number(v: &serde_json::Value) -> (r: Option<&serde_json::Number>)
    ensures
        r is Some == held(*v) is Number,
        r matches Some(n) ==> held(*v) == Json::Number(number_held(*n)),
{
    v.as_number()
}

/// `Value::is_null`: whether the value is null.
#[verifier::external_body]
pub(crate) fn is_null(v: &serde_json::Value) -> (r: bool)
    ensures
        r == held(*v) is Null,
{
    v.is_null()
}

/// `Value::clone`: a value that holds the same.
#[verifier::external_body]
pub(crate) fn copy(v: &serde_json::Value) -> (r: serde_json::Value)
    ensures
        held(r) == held(*v),
{
    v.clone()
}

/// `Number::clone`: a number that holds the same.
#[verifier::external_body]
pub(crate) fn copy_number(n: &serde_json::Number) -> (r: serde_json::Number)
    ensures
        number_held(r) == number_held(*n),
{
    n.clone()
}

/// `Value::Null`, the null value.
#[verifier::external_body]
pub(crate) fn null() -> (r: serde_json::Value)
    ensures
        held(r) == Json::Null,
{
    serde_json::Value::Null
}

/// `Value::from` of a `bool`.
#[verifier::external_body]
pub(crate) fn flag(b: bool) -> (r: serde_json::Value)
    ensures
        held(r) == Json::Bool(b),
{
    serde_json::Value::from(b)
}

/// `Value::from` of a `u64`: a number kept as an integer.
#[verifier::external_body]
pub(crate) fn unsigned(n: u64) -> (r: serde_json::Value)
    ensures
        held(r) == Json::Number(JsonNumber::Whole(n as int)),
{
    serde_json::Value::from(n)
}

/// `Value::from` of an `i64`: a number kept as an integer.
#[verifier::external_body]
pub(crate) fn signed(n: i64) -> (r: serde_json::Value)
    ensures
        held(r) == Json::Number(JsonNumber::Whole(n as int)),
{
    serde_json::Value::from(n)
}

/// `Number::from_f64` of a whole number: kept in binary64, which holds every
/// 32-bit number exactly.
#[verifier::external_body]
pub(crate) fn whole_float(n: u32) -> (r: serde_json::Value)
    ensures
        held(r) == Json::Number(JsonNumber::Float(bits_of_whole(n as nat) as u64)),
{
    serde_json::Value::from(serde_json::Number::from_f64(n.into()))
}

/// `Number::from_f64` of minus zero, which std reads from its text: kept in binary64.
#[verifier::external_body]
pub(crate) fn minus_zero() -> (r: serde_json::Value)
    ensures
        held(r) == Json::Number(JsonNumber::Float(SIGN_BIT)),
{
    serde_json::Value::from(serde_json::Number::from_f64("-0.0".parse().unwrap_or_default()))
}

/// `Value::from` of a `Number`: that number.
#[verifier::external_body]
pub(crate) fn number(n: serde_json::Number) -> (r: serde_json::Value)
    ensures
        held(r) == Json::Number(number_held(n)),
{
    serde_json::Value::from(n)
}

/// `Value::from` of a `&str`: that text.
#[verifier::external_body]
pub(crate) fn text(s: &str) -> (r: serde_json::Value)
    ensures
        held(r) == Json::Text(s@),
{
    serde_json::Value::from(s)
}

/// What a row of values holds.
pub open spec fn all_held(s: Seq<serde_json::Value>) -> Seq<Json> {
    s.map_values(|v: serde_json::Value| held(v))
}

/// `Value::from` of a `Vec` of values: the list of them.
#[verifier::external_body]
pub(crate) fn list(items: Vec<serde_json::Value>) -> (r: serde_json::Value)
    ensures
        held(r) == Json::List(all_held(items@)),
{
    serde_json::Value::from(items)
}

/// `Value::Object` of an empty `Map`: the object that has nothing in it.
#[verifier::external_body]
pub(crate) fn object() -> (r: serde_json::Value)
    ensures
        held(r) == empty_object(),
{
    serde_json::Value::Object(serde_json::Map::new())
}

/// `IndexMut` of `Value` with a key: puts a member into an object, in place of
/// one that has the key already.
#[verifier::external_body]
pub(crate) fn with(v: serde_json::Value, key: &str, x: serde_json::Value) -> (r: serde_json::Value)
    requires
        held(v) is Object,
    ensures
        held(r) == with_member(held(v), key@, held(x)),
{
    let mut v = v;
    v[key] = x;
    v
}

// ---------------------------------------------------------------- readers

/// The text under `key`, if there is one.
pub(crate) fn text_at<'a>(v: &'a serde_json::Value, key: &str) -> (r: Option<&'a str>)
    ensures
        r is Some == (text_under(held(*v), key@) is Some),
        r matches Some(s) ==> s@ == text_under(held(*v), key@)->0,
{
    match get(v, key) {
        Some(m) => as_str(m),
        None => None,
    }
}

// ---------------------------------------------------------------- laws

/// What is put into an object is found there under its key, and what was there under
/// other keys is as it was.
pub proof fn what_is_put_is_found(j: Json, key: Seq<char>, x: Json, other: Seq<char>)
    requires
        j is Object,
    ensures
        member(with_member(j, key, x), key) == Some(x),
        other != key ==> member(with_member(j, key, x), other) == member(j, other),
        member(empty_object(), key) is None,
        with_member(j, key, x) is Object,
{
}

/// A text is found under a key exactly if a text stands there.
pub proof fn texts_are_found_where_they_stand(j: Json, key: Seq<char>, s: Seq<char>)
    ensures
        (text_under(j, key) == Some(s)) == (member(j, key) == Some(Json::Text(s))),
{
}

/// A number is an integer exactly if it is kept as one.
pub proof fn integers_are_kept_as_such(j: Json, n: int)
    ensures
        (integer_in(j) == Some(n)) == (j == Json::Number(JsonNumber::Whole(n))),
{
}

} // verus!
