use axum::http::{HeaderMap, HeaderValue};
use rusqlite::types::Value;
use speaklab_server::config::{Config, Environment, Host};
use speaklab_server::domain::{Field, PracticeKind, PracticeRecord, Score, Violation};
use speaklab_server::error::AppError;
use speaklab_server::routes::bearer_token;
use speaklab_server::routes::health::{health, meta};
use speaklab_server::routes::practices::{
    create, list, part_kind, stats, CreateRequest, ListQuery, PartKind, Upload, UploadFault,
};
use speaklab_server::state::AppState;
use speaklab_server::store::Store;

fn config(token: Option<&str>, lang: Option<&str>, model: Option<&str>, whisper: bool) -> Config {
    let env = Environment {
        token: token.map(str::to_owned),
        asr_lang: lang.map(str::to_owned),
        asr_model: model.map(str::to_owned),
        ..Environment::default()
    };
    let host = Host { parallelism: None, found_browser: None, profile_root: "p".into(), whisper };
    Config::from_env(env, host).ok().unwrap()
}

fn open_state() -> AppState {
    AppState::new(config(None, None, None, false), 0)
}

fn score(x: f32) -> Score {
    Score::new(Value::Real(f64::from(x))).unwrap()
}

fn rec(id: &str, total: f32, at: &str) -> PracticeRecord {
    PracticeRecord {
        id: id.into(),
        kind: PracticeKind::Shadow,
        target: "hello".into(),
        transcript: "hello".into(),
        total: score(total),
        accuracy: score(0.5),
        fluency: score(0.5),
        completeness: score(0.5),
        label: "Daily".into(),
        at: at.into(),
    }
}

fn all(kind: Option<&str>, limit: Option<usize>) -> ListQuery {
    ListQuery { kind: kind.map(str::to_owned), limit }
}

#[test]
fn reads_bearer_header() {
    let mut h = HeaderMap::new();
    h.insert("authorization", HeaderValue::from_static("Bearer abc123"));
    assert_eq!(bearer_token(&h).as_deref(), Some("abc123"));
}

#[test]
fn reads_custom_header() {
    let mut h = HeaderMap::new();
    h.insert("x-speaklab-token", HeaderValue::from_static("xyz"));
    assert_eq!(bearer_token(&h).as_deref(), Some("xyz"));
}

#[test]
fn missing_token_is_none() {
    assert!(bearer_token(&HeaderMap::new()).is_none());
}

#[test]
fn other_auth_schemes_are_ignored() {
    let mut h = HeaderMap::new();
    h.insert("authorization", HeaderValue::from_static("Basic abc"));
    assert!(bearer_token(&h).is_none());
}

#[test]
fn tokens_are_trimmed_and_the_bearer_comes_first() {
    let mut h = HeaderMap::new();
    h.insert("Authorization", HeaderValue::from_static("Bearer  one \t"));
    h.append("authorization", HeaderValue::from_static("Bearer two"));
    h.insert("X-SpeakLab-Token", HeaderValue::from_static(" three "));
    assert_eq!(bearer_token(&h).as_deref(), Some("one"));
    h.insert("authorization", HeaderValue::from_bytes(b"Bearer \xe5").unwrap());
    assert_eq!(bearer_token(&h).as_deref(), Some("three"));
    h.insert("x-speaklab-token", HeaderValue::from_bytes(b"\xe5").unwrap());
    assert!(bearer_token(&h).is_none());
}

#[test]
fn health_tells_the_uptime() {
    let h = health(&open_state(), 61_999);
    assert!(h.ok);
    assert_eq!(h.version, "0.1.0");
    assert_eq!(h.uptime_secs, 61);
}

#[test]
fn meta_tells_what_can_be_done() {
    let m = meta(&config(None, None, None, false));
    assert_eq!((m.name, m.version, m.api_version), ("speaklab-server", "0.1.0", 1));
    assert!(!m.capabilities.asr_local && !m.capabilities.llm_proxy && !m.capabilities.auth_required);
    assert_eq!(m.capabilities.asr_languages, vec!["en", "zh", "ja", "ko"]);
    let m = meta(&config(Some("t"), Some("auto"), Some("m"), true));
    assert!(m.capabilities.asr_local && m.capabilities.auth_required);
    assert_eq!(m.capabilities.asr_languages, vec!["en", "zh", "ja", "ko", "auto"]);
}

#[test]
fn one_bad_record_does_not_spoil_the_rest() {
    let state = open_state();
    let mut store = Store::open_memory().unwrap();
    let req = CreateRequest {
        records: vec![rec("a", 0.9, "2026-09-15T08:00:00Z"), rec("bad", 1.7, "2026-09-15T08:00:00Z"), rec("b", 0.1, " ")],
    };
    let done = create(&state, &HeaderMap::new(), req, &mut store).unwrap();
    assert_eq!(done.accepted, 1);
    assert_eq!(done.rejected.len(), 2);
    assert_eq!(done.rejected[0].id, "bad");
    assert_eq!(done.rejected[0].reason, Violation::OutOfRange(Field::Total));
    assert_eq!(done.rejected[0].score, Some(score(1.7)));
    assert_eq!(done.rejected[1].reason, Violation::BlankTime);
    assert_eq!(done.rejected[1].score, None);
    let out = list(&state, &HeaderMap::new(), all(None, None), &store).unwrap();
    assert_eq!(out.total, 1);
    assert_eq!(out.records[0].id, "a");
    let s = stats(&state, &HeaderMap::new(), &store).unwrap();
    assert_eq!((s.total_sessions, s.active_days), (1, 1));
}

#[test]
fn batches_have_a_size() {
    let state = open_state();
    let mut store = Store::open_memory().unwrap();
    let none = create(&state, &HeaderMap::new(), CreateRequest { records: Vec::new() }, &mut store);
    assert_eq!(none.unwrap_err().message(), "请求参数有误：records 不能为空");
    let many: Vec<PracticeRecord> = (0..501).map(|i| rec(&i.to_string(), 0.5, "t")).collect();
    let too_many = create(&state, &HeaderMap::new(), CreateRequest { records: many.clone() }, &mut store);
    assert_eq!(too_many.unwrap_err().message(), "请求参数有误：单次最多 500 条，收到 501");
    assert_eq!(store.count().unwrap(), 0);
    let most = CreateRequest { records: many[..500].to_vec() };
    assert_eq!(create(&state, &HeaderMap::new(), most, &mut store).unwrap().accepted, 500);
    assert_eq!(store.count().unwrap(), 500);
}

#[test]
fn lists_are_limited_and_of_one_kind() {
    let state = open_state();
    let mut store = Store::open_memory().unwrap();
    let mut records: Vec<PracticeRecord> = (100..160).map(|i| rec(&i.to_string(), 0.5, &i.to_string())).collect();
    records[0].kind = PracticeKind::Chat;
    store.insert_many(records).unwrap();
    let h = HeaderMap::new();
    assert_eq!(list(&state, &h, all(None, None), &store).unwrap().total, 50);
    assert_eq!(list(&state, &h, all(None, Some(usize::MAX)), &store).unwrap().total, 60);
    assert_eq!(list(&state, &h, all(None, Some(3)), &store).unwrap().records[0].id, "159");
    let chats = list(&state, &h, all(Some("chat"), None), &store).unwrap();
    assert_eq!(chats.total, 1);
    assert_eq!(chats.records[0].id, "100");
    assert_eq!(list(&state, &h, all(Some("nonsense"), None), &store).unwrap().total, 0);
}

#[test]
fn without_the_token_nothing_is_done() {
    let state = AppState::new(config(Some("t"), None, None, false), 0);
    let mut store = Store::open_memory().unwrap();
    let h = HeaderMap::new();
    let req = || CreateRequest { records: vec![rec("a", 0.5, "t")] };
    assert!(matches!(create(&state, &h, req(), &mut store), Err(AppError::Unauthorized)));
    assert!(matches!(list(&state, &h, all(None, None), &store), Err(AppError::Unauthorized)));
    assert!(matches!(stats(&state, &h, &store), Err(AppError::Unauthorized)));
    assert_eq!(store.count().unwrap(), 0);
    let mut h = HeaderMap::new();
    h.insert("authorization", HeaderValue::from_static("Bearer t"));
    assert_eq!(create(&state, &h, req(), &mut store).unwrap().accepted, 1);
}

#[test]
fn an_upload_needs_a_recording_and_a_recogniser() {
    let able = config(None, Some("ja"), Some("m"), true);
    let unable = config(None, None, None, false);
    let words = |e: AppError| e.message();
    assert_eq!(words(Upload::new().finish(&able).unwrap_err()), "请求参数有误：缺少 audio 字段");
    let mut u = Upload::new();
    u.take_audio(Vec::new());
    assert_eq!(words(u.finish(&able).unwrap_err()), "请求参数有误：音频为空");
    let mut u = Upload::new();
    u.take_audio(vec![1]);
    assert_eq!(
        words(u.finish(&unable).unwrap_err()),
        "本地语音识别（编译时加 --features whisper 并设置 SPEAKLAB_ASR_MODEL） 尚未配置"
    );
    let mut u = Upload::new();
    u.take_audio(vec![1]);
    u.take_audio(vec![2]);
    assert_eq!(u.finish(&able).unwrap(), (vec![2], "ja".to_owned()));
    let mut u = Upload::new();
    u.take_language(Some("zh".into()));
    u.take_audio(vec![3]);
    assert_eq!(u.finish(&able).unwrap(), (vec![3], "zh".to_owned()));
}

#[test]
fn parts_go_by_their_names() {
    assert_eq!(part_kind(Some("audio")), PartKind::Audio);
    assert_eq!(part_kind(Some("language")), PartKind::Language);
    assert_eq!(part_kind(Some("Audio")), PartKind::Other);
    assert_eq!(part_kind(None), PartKind::Other);
    assert_eq!(UploadFault::Unreadable("e".into()).error().message(), "请求参数有误：multipart 解析失败：e");
    assert_eq!(UploadFault::AudioUnreadable("e".into()).error().message(), "请求参数有误：读取音频失败：e");
}
