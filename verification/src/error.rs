//! The one error type of the service and what a caller sees of it.

use vstd::prelude::*;
use vstd::string::*;

use crate::json;
use crate::json::{empty_object, has_only, held, member, with_member, Json};
use crate::text::{decimal, decimal_text};

verus! {

/// What a request can fail with.
#[derive(Debug)]
pub enum AppError {
    /// The request itself is at fault.
    BadRequest(String),
    /// No token, or the wrong one.
    Unauthorized,
    /// What was asked for does not exist.
    NotFound(String),
    /// The body is larger than `limit` bytes.
    PayloadTooLarge { limit: usize },
    /// The ability exists but is not configured here.
    NotImplemented(String),
    /// Something that the service leans on refused.
    Upstream(String),
    /// A fault of the service. The detail is for the log only.
    Internal(String),
}

pub type AppResult<T> = Result<T, AppError>;

/// What goes back to the caller: the status line and the body
/// `{"error": {"code": ..., "message": ...}}`.
#[derive(Debug)]
pub struct ErrorReply {
    pub status: u16,
    pub code: &'static str,
    pub message: String,
    /// Whether the log keeps the full cause: the fault is not the caller's.
    pub server_fault: bool,
}

/// The machine-readable code of an error.
pub open spec fn code_of(e: AppError) -> Seq<char> {
    match e {
        AppError::BadRequest(_) => "bad_request"@,
        AppError::Unauthorized => "unauthorized"@,
        AppError::NotFound(_) => "not_found"@,
        AppError::PayloadTooLarge { .. } => "payload_too_large"@,
        AppError::NotImplemented(_) => "not_implemented"@,
        AppError::Upstream(_) => "upstream_error"@,
        AppError::Internal(_) => "internal"@,
    }
}

/// The HTTP status of an error.
pub open spec fn status_of(e: AppError) -> u16 {
    match e {
        AppError::BadRequest(_) => 400,
        AppError::Unauthorized => 401,
        AppError::NotFound(_) => 404,
        AppError::PayloadTooLarge { .. } => 413,
        AppError::NotImplemented(_) => 501,
        AppError::Upstream(_) => 502,
        AppError::Internal(_) => 500,
    }
}

/// The text of an error for people. It never holds the detail of an internal error.
pub open spec fn message_of(e: AppError) -> Seq<char> {
    match e {
        AppError::BadRequest(what) => "请求参数有误："@ + what@,
        AppError::Unauthorized => "未授权"@,
        AppError::NotFound(what) => "找不到 "@ + what@,
        AppError::PayloadTooLarge { limit } => "请求体过大，上限 "@ + decimal(limit as nat) + " 字节"@,
        AppError::NotImplemented(what) => what@ + " 尚未配置"@,
        AppError::Upstream(what) => "上游服务不可用："@ + what@,
        AppError::Internal(_) => "服务内部错误"@,
    }
}

/// The text that the caller is shown: for an internal error, a pointer to the log.
pub open spec fn shown_message_of(e: AppError) -> Seq<char> {
    if e is Internal {
        "服务内部错误，请查看服务端日志"@
    } else {
        message_of(e)
    }
}

impl AppError {
    /// A stable code for programs to branch on.
    pub fn code(&self) -> (r: &'static str)
        ensures
            r@ == code_of(*self),
    {
        match self {
            AppError::BadRequest(_) => "bad_request",
            AppError::Unauthorized => "unauthorized",
            AppError::NotFound(_) => "not_found",
            AppError::PayloadTooLarge { .. } => "payload_too_large",
            AppError::NotImplemented(_) => "not_implemented",
            AppError::Upstream(_) => "upstream_error",
            AppError::Internal(_) => "internal",
        }
    }

    /// The HTTP status code.
    pub fn status(&self) -> (r: u16)
        ensures
            r == status_of(*self),
    {
        match self {
            AppError::BadRequest(_) => 400,
            AppError::Unauthorized => 401,
            AppError::NotFound(_) => 404,
            AppError::PayloadTooLarge { .. } => 413,
            AppError::NotImplemented(_) => 501,
            AppError::Upstream(_) => 502,
            AppError::Internal(_) => 500,
        }
    }

    /// The error in words.
    pub fn message(&self) -> (r: String)
        ensures
            r@ == message_of(*self),
    {
        match self {
            AppError::BadRequest(what) => "请求参数有误：".to_owned().concat(what.as_str()),
            AppError::Unauthorized => "未授权".to_owned(),
            AppError::NotFound(what) => "找不到 ".to_owned().concat(what.as_str()),
            AppError::PayloadTooLarge { limit } => {
                let shown = decimal_text(*limit as u64);
                "请求体过大，上限 ".to_owned().concat(shown.as_str()).concat(" 字节")
            },
            AppError::NotImplemented(what) => what.clone().concat(" 尚未配置"),
            AppError::Upstream(what) => "上游服务不可用：".to_owned().concat(what.as_str()),
            AppError::Internal(_) => "服务内部错误".to_owned(),
        }
    }

    /// The reply that the error turns into.
    pub fn into_response(&self) -> (r: ErrorReply)
        ensures
            r.status == status_of(*self),
            r.code@ == code_of(*self),
            r.message@ == shown_message_of(*self),
            r.server_fault == (500 <= status_of(*self) < 600),
    {
        let status: u16 = self.status();
        let message = match self {
            AppError::Internal(_) => "服务内部错误，请查看服务端日志".to_owned(),
            _ => self.message(),
        };
        ErrorReply { status, code: self.code(), message, server_fault: status >= 500 && status < 600 }
    }
}

impl ErrorReply {
    /// What the caller is told: the code, for programs, and the message, for people.
    pub open spec fn told(self) -> Json {
        let detail = with_member(empty_object(), "code"@, Json::Text(self.code@));
        let detail = with_member(detail, "message"@, Json::Text(self.message@));
        with_member(empty_object(), "error"@, detail)
    }

    /// What the caller is told.
    pub fn body(&self) -> (r: serde_json::Value)
        ensures
            held(r) == self.told(),
    {
        let detail = json::with(json::object(), "code", json::text(self.code));
        let detail = json::with(detail, "message", json::text(self.message.as_str()));
        json::with(json::object(), "error", detail)
    }
}

/// An internal error gives nothing of its detail away: whatever it holds,
/// the caller gets the same reply.
pub proof fn internal_errors_look_alike(a: String, b: String)
    ensures
        code_of(AppError::Internal(a)) == code_of(AppError::Internal(b)),
        status_of(AppError::Internal(a)) == status_of(AppError::Internal(b)),
        message_of(AppError::Internal(a)) == message_of(AppError::Internal(b)),
        shown_message_of(AppError::Internal(a)) == shown_message_of(AppError::Internal(b)),
{
}

/// A letter of snake case.
pub open spec fn is_snake(c: char) -> bool {
    'a' <= c <= 'z' || c == '_'
}

proof fn reveal_codes()
    ensures
        forall|e: AppError| 8 <= (#[trigger] code_of(e)).len() <= 17,
        forall|e: AppError, i: int| 0 <= i < code_of(e).len() ==> is_snake(#[trigger] code_of(e)[i]),
        forall|e: AppError| e is BadRequest ==> (#[trigger] code_of(e)).len() == 11,
        forall|e: AppError| e is Unauthorized ==> (#[trigger] code_of(e)).len() == 12,
        forall|e: AppError| e is NotFound ==> (#[trigger] code_of(e)).len() == 9,
        forall|e: AppError| e is PayloadTooLarge ==> (#[trigger] code_of(e)).len() == 17,
        forall|e: AppError| e is NotImplemented ==> (#[trigger] code_of(e)).len() == 15,
        forall|e: AppError| e is Upstream ==> (#[trigger] code_of(e)).len() == 14,
        forall|e: AppError| e is Internal ==> (#[trigger] code_of(e)).len() == 8,
{
    reveal_strlit("bad_request");
    reveal_strlit("unauthorized");
    reveal_strlit("not_found");
    reveal_strlit("payload_too_large");
    reveal_strlit("not_implemented");
    reveal_strlit("upstream_error");
    reveal_strlit("internal");
}

/// Every code is in snake case.
pub proof fn codes_are_in_snake_case(e: AppError)
    ensures
        code_of(e).len() > 0,
        forall|i: int| 0 <= i < code_of(e).len() ==> is_snake(#[trigger] code_of(e)[i]),
{
    reveal_codes();
}

/// The code tells the kinds of error apart: two errors have the same code exactly
/// when they are of the same kind, and then they have the same status.
pub proof fn codes_tell_errors_apart(a: AppError, b: AppError)
    ensures
        (code_of(a) == code_of(b)) == (status_of(a) == status_of(b)),
        (code_of(a) == code_of(b)) == match a {
            AppError::BadRequest(_) => b is BadRequest,
            AppError::Unauthorized => b is Unauthorized,
            AppError::NotFound(_) => b is NotFound,
            AppError::PayloadTooLarge { .. } => b is PayloadTooLarge,
            AppError::NotImplemented(_) => b is NotImplemented,
            AppError::Upstream(_) => b is Upstream,
            AppError::Internal(_) => b is Internal,
        },
{
    reveal_codes();
}

/// A reply has one shape: an error with its code and its message, and nothing else.
pub proof fn a_reply_has_one_shape(r: ErrorReply)
    ensures
        ({
            let j = r.told();
            &&& has_only(j, set!["error"@])
            &&& member(j, "error"@) matches Some(detail)
            &&& member(detail, "code"@) == Some(Json::Text(r.code@))
            &&& member(detail, "message"@) == Some(Json::Text(r.message@))
            &&& has_only(detail, set!["code"@, "message"@])
        }),
{
    reveal_strlit("code");
    reveal_strlit("message");
    assert("code"@.len() == 4 && "message"@.len() == 7);
    let detail = member(r.told(), "error"@)->0;
    assert(r.told()->Object_0.dom() =~= set!["error"@]);
    assert(detail->Object_0.dom() =~= set!["code"@, "message"@]);
}

/// The status tells whose fault it was: the caller's below 500, and not the caller's from
/// there on.
pub proof fn statuses_tell_whose_fault_it_was(e: AppError)
    ensures
        400 <= status_of(e) < 600,
        (e is BadRequest || e is Unauthorized || e is NotFound || e is PayloadTooLarge) == (status_of(e) < 500),
        e is BadRequest ==> status_of(e) == 400,
        e is Unauthorized ==> status_of(e) == 401,
        e is NotFound ==> status_of(e) == 404,
        e is PayloadTooLarge ==> status_of(e) == 413,
        e is Internal ==> status_of(e) == 500,
        e is NotImplemented ==> status_of(e) == 501,
        e is Upstream ==> status_of(e) == 502,
{
}

/// Every error but an internal one is shown with its own detail.
pub proof fn other_errors_show_their_detail(what: String)
    ensures
        shown_message_of(AppError::BadRequest(what)) == "请求参数有误："@ + what@,
        shown_message_of(AppError::NotFound(what)) == "找不到 "@ + what@,
        shown_message_of(AppError::NotImplemented(what)) == what@ + " 尚未配置"@,
        shown_message_of(AppError::Upstream(what)) == "上游服务不可用："@ + what@,
{
}

} // verus!
