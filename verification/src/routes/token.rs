//! The token that a caller shows.

use vstd::prelude::*;
use vstd::string::*;
use vstd::utf8::*;

use crate::error::AppResult;
use crate::headers;
use crate::headers::{headers_held, is_ascii_text, is_lower_name};
use crate::state::{is_let_in, AppState};
use crate::text::{has_prefix, strip_prefix, trimmed};

verus! {

/// The first value under a name, if there is one and it is ASCII text.
pub open spec fn header_text(m: axum::http::HeaderMap<axum::http::HeaderValue>, name: Seq<char>) -> Option<Seq<char>> {
    if headers_held(m).dom().contains(name) && is_ascii_text(headers_held(m)[name][0]) {
        Some(decode_utf8(headers_held(m)[name][0]))
    } else {
        None
    }
}

/// The token that a caller shows.
pub open spec fn token_in(m: axum::http::HeaderMap<axum::http::HeaderValue>) -> Option<Seq<char>> {
    let bearer = header_text(m, "authorization"@);
    if bearer is Some && has_prefix(bearer->0, "Bearer "@) {
        Some(trimmed(bearer->0.skip("Bearer "@.len() as int)))
    } else {
        match header_text(m, "x-speaklab-token"@) {
            Some(s) => Some(trimmed(s)),
            None => None,
        }
    }
}

fn text_under<'a>(m: &'a axum::http::HeaderMap<axum::http::HeaderValue>, name: &str) -> (r: Option<&'a str>)
    requires
        is_lower_name(name@),
    ensures
        r is Some == (header_text(*m, name@) is Some),
        r matches Some(s) ==> s@ == header_text(*m, name@)->0,
{
    match headers::get(m, name) {
        Some(v) => match headers::to_str(v) {
            Some(s) => {
                proof {
                    encode_utf8_decode_utf8(s@);
                }
                Some(s)
            },
            None => None,
        },
        None => None,
    }
}

/// The token that a caller shows, after `Bearer` in `Authorization`, or in
/// `X-SpeakLab-Token`. Another scheme in `Authorization` is as good as none.
pub fn bearer_token(headers: &axum::http::HeaderMap<axum::http::HeaderValue>) -> (r: Option<String>)
    ensures
        r is Some == (token_in(*headers) is Some),
        r matches Some(t) ==> t@ == token_in(*headers)->0,
{
    proof {
        reveal_strlit("authorization");
        reveal_strlit("x-speaklab-token");
    }
    if let Some(s) = text_under(headers, "authorization") {
        if let Some(rest) = strip_prefix(s, "Bearer ") {
            return Some(rest.trim().to_owned());
        }
    }
    match text_under(headers, "x-speaklab-token") {
        Some(s) => Some(s.trim().to_owned()),
        None => None,
    }
}

/// Whether a request is let in.
pub open spec fn is_admitted(state: AppState, m: axum::http::HeaderMap<axum::http::HeaderValue>) -> bool {
    is_let_in(state.config.api_token, token_in(m))
}

/// Lets a request in that shows the right token.
pub fn let_in(state: &AppState, headers: &axum::http::HeaderMap<axum::http::HeaderValue>) -> (r: AppResult<()>)
    ensures
        r is Ok == is_admitted(*state, *headers),
        r matches Err(e) ==> e is Unauthorized,
{
    match bearer_token(headers) {
        Some(token) => state.authorize(Some(token.as_str())),
        None => state.authorize(None),
    }
}

/// A token is taken from behind `Bearer` if it stands there, and otherwise from the header
/// of its own; without either there is none.
pub proof fn a_token_stands_in_one_of_two_places(m: axum::http::HeaderMap<axum::http::HeaderValue>, token: Seq<char>)
    ensures
        header_text(m, "authorization"@) == Some("Bearer "@ + token) ==> token_in(m) == Some(trimmed(token)),
        header_text(m, "authorization"@) is None ==> (header_text(m, "x-speaklab-token"@) == Some(token) ==> token_in(m)
            == Some(trimmed(token))),
        header_text(m, "authorization"@) is None && header_text(m, "x-speaklab-token"@) is None ==> token_in(m) is None,
        header_text(m, "authorization"@) matches Some(s) ==> (!has_prefix(s, "Bearer "@) && header_text(
            m,
            "x-speaklab-token"@,
        ) is None ==> token_in(m) is None),
{
    let s = "Bearer "@ + token;
    let n = "Bearer "@.len() as int;
    assert(s.take(n) =~= "Bearer "@);
    assert(s.skip(n) =~= token);
}

/// A request is let in exactly if no token is asked for, or if the one that it shows is
/// the one that is.
pub proof fn requests_are_let_in_by_their_token(
    state: AppState,
    m: axum::http::HeaderMap<axum::http::HeaderValue>,
)
    ensures
        state.config.api_token is None ==> is_admitted(state, m),
        state.config.api_token matches Some(t) ==> (is_admitted(state, m) == (token_in(m) is Some && token_in(m)->0
            == t@)),
{
}

} // verus!
