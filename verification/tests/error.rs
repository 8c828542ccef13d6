use axum::http::StatusCode;
use speaklab_server::error::AppError;

#[test]
fn status_mapping_is_stable() {
    assert_eq!(AppError::Unauthorized.status(), StatusCode::UNAUTHORIZED.as_u16());
    assert_eq!(
        AppError::BadRequest("x".into()).status(),
        StatusCode::BAD_REQUEST.as_u16()
    );
    assert_eq!(
        AppError::NotImplemented("asr".into()).status(),
        StatusCode::NOT_IMPLEMENTED.as_u16()
    );
    assert_eq!(
        AppError::Internal("boom".into()).status(),
        StatusCode::INTERNAL_SERVER_ERROR.as_u16()
    );
}

#[test]
fn internal_errors_do_not_leak_details() {
    let err = AppError::Internal("secret path C:\\keys\\prod.pem".into());
    assert!(!err.message().contains("secret"));
    assert!(!err.into_response().message.contains("secret"));
}

#[test]
fn codes_are_snake_case() {
    let all = [
        AppError::BadRequest(String::new()),
        AppError::Unauthorized,
        AppError::NotFound(String::new()),
        AppError::PayloadTooLarge { limit: 1 },
        AppError::NotImplemented(String::new()),
        AppError::Upstream(String::new()),
        AppError::Internal("x".into()),
    ];
    for e in all {
        let c = e.code();
        assert!(
            c.chars().all(|ch| ch.is_ascii_lowercase() || ch == '_'),
            "错误码 {:?} 不是 snake_case",
            c
        );
    }
}

#[test]
fn each_error_has_its_reply() {
    let replies = [
        (AppError::BadRequest("x".into()), 400, "bad_request", "请求参数有误：x"),
        (AppError::Unauthorized, 401, "unauthorized", "未授权"),
        (AppError::NotFound("x".into()), 404, "not_found", "找不到 x"),
        (AppError::PayloadTooLarge { limit: 1048 }, 413, "payload_too_large", "请求体过大，上限 1048 字节"),
        (AppError::NotImplemented("x".into()), 501, "not_implemented", "x 尚未配置"),
        (AppError::Upstream("x".into()), 502, "upstream_error", "上游服务不可用：x"),
        (AppError::Internal("x".into()), 500, "internal", "服务内部错误，请查看服务端日志"),
    ];
    for (e, status, code, message) in replies {
        let r = e.into_response();
        assert_eq!(r.status, status);
        assert_eq!(r.code, code);
        assert_eq!(r.message, message);
        assert_eq!(r.server_fault, status >= 500);
    }
}

#[test]
fn a_reply_has_one_shape() {
    let reply = AppError::NotFound("x".into()).into_response();
    assert_eq!(
        reply.body().to_string(),
        "{\"error\":{\"code\":\"not_found\",\"message\":\"找不到 x\"}}"
    );
}
