//! Request headers as `axum` hands them on.

use vstd::prelude::*;
use vstd::string::*;
use vstd::utf8::*;

verus! {

#[verifier::external_type_specification]
#[verifier::external_body]
pub struct ExHeaderValue(axum::http::HeaderValue);

#[verifier::external_type_specification]
#[verifier::external_body]
#[verifier::reject_recursive_types(T)]
pub struct ExHeaderMap<T>(axum::http::HeaderMap<T>);

#[verifier::external_type_specification]
#[verifier::external_body]
pub struct ExInvalidHeaderValue(axum::http::header::InvalidHeaderValue);

/// The bytes of a header's value.
pub uninterp spec fn header_bytes(v: axum::http::HeaderValue) -> Seq<u8>;

/// The headers of a request: for each name, in lower case, the values that came
/// under it, in the order in which they came.
pub uninterp spec fn headers_held(m: axum::http::HeaderMap<axum::http::HeaderValue>) -> Map<Seq<char>, Seq<Seq<u8>>>;

/// Whether a byte may stand in a header's value.
pub open spec fn is_header_byte(b: u8) -> bool {
    (b >= 32 && b != 127) || b == 9
}

/// Whether a byte of a header's value is one of ASCII text.
pub open spec fn is_text_byte(b: u8) -> bool {
    32 <= b < 127 || b == 9
}

/// Whether all bytes may stand in a header's value.
pub open spec fn is_header_text(s: Seq<u8>) -> bool {
    forall|i: int| 0 <= i < s.len() ==> is_header_byte(#[trigger] s[i])
}

/// Whether all bytes are those of ASCII text.
pub open spec fn is_ascii_text(s: Seq<u8>) -> bool {
    forall|i: int| 0 <= i < s.len() ==> is_text_byte(#[trigger] s[i])
}

/// Whether a text is the name of a header in lower case, made of letters and hyphens.
pub open spec fn is_lower_name(s: Seq<char>) -> bool {
    0 < s.len() < 100 && forall|i: int| 0 <= i < s.len() ==> 'a' <= #[trigger] s[i] <= 'z' || s[i] == '-'
}

/// `axum::http::HeaderValue::from_str`: takes any text of which each byte may stand in
/// a header's value, and keeps its bytes.
#[verifier::external_body]
pub(crate) fn header_value(s: &str) -> (r: Result<axum::http::HeaderValue, axum::http::header::InvalidHeaderValue>)
    ensures
        r is Ok == is_header_text(encode_utf8(s@)),
        r matches Ok(v) ==> header_bytes(v) == encode_utf8(s@),
{
    axum::http::HeaderValue::from_str(s)
}

/// What an `InvalidHeaderValue` says of itself, by its `Display`. Nothing is claimed of
/// the words.
#[verifier::external_body]
pub(crate) fn error_text(e: &axum::http::header::InvalidHeaderValue) -> (r: String) {
    e.to_string()
}

/// `axum::http::HeaderMap::get`: the first value under a name.
#[verifier::external_body]
pub(crate) fn get<'a>(m: &'a axum::http::HeaderMap<axum::http::HeaderValue>, name: &str) -> (r: Option<
    &'a axum::http::HeaderValue,
>)
    requires
        is_lower_name(name@),
    ensures
        r is Some == headers_held(*m).dom().contains(name@),
        r matches Some(v) ==> header_bytes(*v) == headers_held(*m)[name@][0],
{
    m.get(name)
}

/// `axum::http::HeaderValue::to_str`: the value as text, if it is ASCII text.
#[verifier::external_body]
pub(crate) fn to_str(v: &axum::http::HeaderValue) -> (r: Option<&str>)
    ensures
        r is Some == is_ascii_text(header_bytes(*v)),
        r matches Some(s) ==> encode_utf8(s@) == header_bytes(*v),
{
    v.to_str().ok()
}

} // verus!
