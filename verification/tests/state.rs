use speaklab_server::config::{Config, Environment, Host};
use speaklab_server::error::AppError;
use speaklab_server::state::{constant_time_eq, AppState};

fn state(token: Option<&str>, concurrency: &str) -> AppState {
    let env = Environment {
        token: token.map(str::to_owned),
        asr_concurrency: Some(concurrency.to_owned()),
        ..Environment::default()
    };
    let host = Host { parallelism: None, found_browser: None, profile_root: "p".into(), whisper: false };
    AppState::new(Config::from_env(env, host).ok().unwrap(), 1_000)
}

#[test]
fn constant_time_eq_matches_normal_eq() {
    assert!(constant_time_eq(b"abc", b"abc"));
    assert!(!constant_time_eq(b"abc", b"abd"));
    assert!(!constant_time_eq(b"abc", b"ab"));
    assert!(constant_time_eq(b"", b""));
}

#[test]
fn without_a_token_everyone_is_let_in() {
    let s = state(None, "2");
    assert!(s.authorize(None).is_ok());
    assert!(s.authorize(Some("anything")).is_ok());
}

#[test]
fn with_a_token_only_that_token_is_let_in() {
    let s = state(Some("密钥"), "2");
    assert!(s.authorize(Some("密钥")).is_ok());
    for wrong in [None, Some(""), Some("密"), Some("密钥 "), Some("key")] {
        assert!(matches!(s.authorize(wrong), Err(AppError::Unauthorized)), "{:?}", wrong);
    }
}

#[test]
fn one_recording_can_always_be_worked_on() {
    assert_eq!(state(None, "0").asr_permits, 1);
    assert_eq!(state(None, "3").asr_permits, 3);
}

#[test]
fn uptime_counts_whole_seconds() {
    let s = state(None, "1");
    assert_eq!(s.uptime_secs(1_000), 0);
    assert_eq!(s.uptime_secs(3_999), 2);
    assert_eq!(s.uptime_secs(0), 0);
    assert_eq!(s.config().asr.max_concurrency, 1);
}
