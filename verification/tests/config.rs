use speaklab_server::config::{env_bool, env_usize, AsrConfig, CloudConfig, Config, Environment, Host};

fn host() -> Host {
    Host { parallelism: Some(8), found_browser: None, profile_root: "/tmp/speaklab-cloud".into(), whisper: false }
}

fn some(s: &str) -> Option<String> {
    Some(s.to_owned())
}

#[test]
fn asr_disabled_without_model() {
    let cfg = AsrConfig {
        whisper: false,
        model_path: None,
        language: "en".into(),
        max_concurrency: 1,
    };
    assert!(!cfg.enabled());
}

#[test]
fn asr_enabled_requires_both_feature_and_model() {
    let cfg = AsrConfig {
        whisper: false,
        model_path: Some("/tmp/model.bin".into()),
        language: "en".into(),
        max_concurrency: 1,
    };
    assert_eq!(cfg.enabled(), cfg.whisper);
    let cfg = AsrConfig { whisper: true, ..cfg };
    assert_eq!(cfg.enabled(), cfg.whisper);
}

#[test]
fn env_usize_falls_back_on_garbage() {
    assert_eq!(env_usize(&some("abc"), 7), 7);
}

#[test]
fn numbers_are_read_as_std_reads_them() {
    assert_eq!(env_usize(&None, 7), 7);
    for text in ["0", " 42 ", "+5", "007", "-1", "", "+", "1 2", "99999999999999999999999", "18446744073709551615"] {
        assert_eq!(env_usize(&some(text), 7), text.trim().parse().unwrap_or(7), "{:?}", text);
    }
}

#[test]
fn switches_know_four_words() {
    for yes in ["1", "true", "YES", " On "] {
        assert!(env_bool(&some(yes), false), "{:?}", yes);
    }
    for no in ["0", "false", "", "y", "11"] {
        assert!(!env_bool(&some(no), true), "{:?}", no);
    }
    assert!(env_bool(&None, true));
    assert!(!env_bool(&None, false));
}

#[test]
fn nothing_set_gives_the_defaults() {
    let c = Config::from_env(Environment::default(), host()).ok().unwrap();
    assert_eq!(c.bind, "127.0.0.1:8787");
    assert!(c.dev_mode);
    assert!(c.allowed_origins.is_empty());
    assert_eq!(c.max_body_bytes, 8 * 1024 * 1024);
    assert_eq!(c.asr.language, "en");
    assert_eq!(c.asr.max_concurrency, 4);
    assert!(c.asr.model_path.is_none());
    assert!(c.llm.is_none());
    assert!(c.api_token.is_none());
    assert_eq!(c.db_path, "speaklab.db");
    assert!(!c.cloud.enabled());
    assert_eq!(c.cloud.profile_root, "/tmp/speaklab-cloud");
    assert_eq!(c.cloud.port_base, 9222);
    assert_eq!(c.cloud.quality, 60);
    assert_eq!((c.cloud.max_width, c.cloud.max_height), (480, 320));
    assert_eq!(c.cloud.dormant_timeout_secs, 90);
    assert_eq!(c.upstream_timeout(), 30);
}

#[test]
fn settings_stay_in_bounds() {
    let low = Environment {
        cloud_port: some("1"),
        cloud_quality: some("1"),
        cloud_width: some("1"),
        cloud_height: some("1"),
        cloud_sleep_timeout: some("0"),
        ..Environment::default()
    };
    let c = Config::from_env(low, host()).ok().unwrap().cloud;
    assert_eq!((c.port_base, c.quality, c.max_width, c.max_height), (1024, 10, 160, 120));
    assert_eq!(c.dormant_timeout_secs, 0);
    let high = Environment {
        cloud_port: some("99999"),
        cloud_quality: some("999"),
        cloud_width: some("9999"),
        cloud_height: some("9999"),
        cloud_sleep_timeout: some("99999999"),
        ..Environment::default()
    };
    let c = Config::from_env(high, host()).ok().unwrap().cloud;
    assert_eq!((c.port_base, c.quality, c.max_width, c.max_height), (65000, 100, 1920, 1080));
    assert_eq!(c.dormant_timeout_secs, 86_400);
}

#[test]
fn what_is_blank_counts_as_unset() {
    let env = Environment {
        token: some("  "),
        asr_model: some(" "),
        db: some(""),
        browser: some(" "),
        llm_api_key: some("\t"),
        cloud_profile: some(" "),
        ..Environment::default()
    };
    let found = Host { found_browser: some("/usr/bin/chromium"), parallelism: Some(1), ..host() };
    let c = Config::from_env(env, found).ok().unwrap();
    assert!(c.api_token.is_none());
    assert!(c.asr.model_path.is_none());
    assert_eq!(c.asr.max_concurrency, 1);
    assert_eq!(c.db_path, "speaklab.db");
    assert_eq!(c.cloud.browser_exe.as_deref(), Some("/usr/bin/chromium"));
    assert_eq!(c.cloud.profile_root, "/tmp/speaklab-cloud");
    assert!(c.llm.is_none());
}

#[test]
fn what_is_set_is_used() {
    let env = Environment {
        dev: some("0"),
        token: some("  s3cret "),
        browser: some("/opt/edge"),
        llm_api_key: some("k"),
        llm_model: some("m"),
        asr_model: some("m.bin"),
        asr_lang: some("auto"),
        asr_concurrency: some("3"),
        bind: some("0.0.0.0:1"),
        db: some("x.db"),
        allowed_origins: some(" https://a.example , ,https://b.example,"),
        ..Environment::default()
    };
    let c = Config::from_env(env, Host { parallelism: None, ..host() }).ok().unwrap();
    assert!(!c.dev_mode);
    assert_eq!(c.api_token.as_deref(), Some("s3cret"));
    assert_eq!(c.cloud.browser_exe.as_deref(), Some("/opt/edge"));
    let llm = c.llm.unwrap();
    assert_eq!(llm.api_key, "k");
    assert_eq!(llm.base_url, "https://api.deepseek.com");
    assert_eq!(llm.model, "m");
    assert_eq!(c.asr.model_path.as_deref(), Some("m.bin"));
    assert_eq!(c.asr.language, "auto");
    assert_eq!(c.asr.max_concurrency, 3);
    assert_eq!(c.bind, "0.0.0.0:1");
    assert_eq!(c.db_path, "x.db");
    let origins: Vec<&str> = c.allowed_origins.iter().map(|v| v.to_str().unwrap()).collect();
    assert_eq!(origins, vec!["https://a.example", "https://b.example"]);
}

#[test]
fn the_first_bad_origin_is_reported() {
    let env = Environment { allowed_origins: some("https://a, x\u{7}y ,\u{1}"), ..Environment::default() };
    let e = Config::from_env(env, host()).err().unwrap();
    assert_eq!(e.origin, "x\u{7}y");
    assert_eq!(e.why, "failed to parse header value");
}

#[test]
fn descriptions_are_for_the_log() {
    let cloud = |exe: Option<&str>| CloudConfig {
        browser_exe: exe.map(str::to_owned),
        profile_root: "p".into(),
        port_base: 9222,
        quality: 60,
        max_width: 480,
        max_height: 320,
        dormant_timeout_secs: 90,
    };
    assert_eq!(cloud(Some("/usr/bin/chromium")).describe(), "已启用（chromium，480x320）");
    assert_eq!(cloud(Some("msedge")).describe(), "已启用（msedge，480x320）");
    assert_eq!(cloud(Some("a/./b c/Google Chrome")).describe(), "已启用（Google Chrome，480x320）");
    assert_eq!(cloud(Some("/")).describe(), "已启用（，480x320）");
    assert_eq!(cloud(None).describe(), "未启用（没找到 Edge 或 Chrome）");
    assert_eq!(cloud(None).describe_as("x"), "已启用（x，480x320）");
    let asr = |whisper: bool, model: Option<&str>| AsrConfig {
        whisper,
        model_path: model.map(str::to_owned),
        language: "en".into(),
        max_concurrency: 1,
    };
    assert_eq!(asr(false, Some("m")).describe(), "未启用（编译时未打开 whisper feature）");
    assert_eq!(asr(true, Some("m")).describe(), "whisper 本地推理，模型 m");
    assert_eq!(asr(true, None).describe(), "未启用（未设置 SPEAKLAB_ASR_MODEL）");
}
