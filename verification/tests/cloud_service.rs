use speaklab_server::cloud::browser::{find_browser, launch, profile_name, BrowserFault, DevtoolsWait};
use speaklab_server::cloud::service::{all_overdue, overdue, Admission, Forgetting, Nap};
use speaklab_server::cloud::target::targets;
use speaklab_server::cloud::{find_target, CloudService};
use speaklab_server::config::CloudConfig;
use speaklab_server::error::AppError;
use speaklab_server::routes::cloud::{forget, forget_reply, list, start_failed, started, stop, stop_reply, ws};

fn service(exe: Option<&str>) -> CloudService<u32> {
    CloudService::new(exe.map(str::to_owned), "/p".into(), 9222, 60, 480, 320, 90)
}

fn config(exe: Option<&str>) -> CloudConfig {
    CloudConfig {
        browser_exe: exe.map(str::to_owned),
        profile_root: "/p".into(),
        port_base: 9222,
        quality: 60,
        max_width: 480,
        max_height: 320,
        dormant_timeout_secs: 90,
    }
}

#[test]
fn sites_go_by_their_names() {
    let names: Vec<&str> = targets().iter().map(|t| t.name).collect();
    assert_eq!(names, vec!["genshin", "starrail", "yihuan"]);
    let t = find_target("starrail").unwrap();
    assert_eq!((t.title, t.url), ("云·星穹铁道", "https://sr.mihoyo.com/cloud/"));
    assert_eq!(
        t.mobile_user_agent,
        "Mozilla/5.0 (Linux; Android 12.0; Pixel 5) AppleWebKit/537.36 (KHTML, like Gecko) Chrome/120.0.0.0 Mobile Safari/537.36"
    );
    assert!(find_target("Genshin").is_none());
}

#[test]
fn the_first_browser_is_taken() {
    assert_eq!(find_browser(|p| p.starts_with("/usr/bin/")), Some("/usr/bin/microsoft-edge"));
    assert_eq!(
        find_browser(|p| p.contains("Chrome\\")),
        Some("C:\\Program Files\\Google\\Chrome\\Application\\chrome.exe")
    );
    assert_eq!(
        find_browser(|_| true),
        Some("C:\\Program Files (x86)\\Microsoft\\Edge\\Application\\msedge.exe")
    );
    assert_eq!(find_browser(|_| false), None);
}

#[test]
fn a_browser_is_started_unseen() {
    let args = launch("/x/edge", true, 9223, "/p/profile-genshin", 480, 320).unwrap();
    assert_eq!(
        args,
        vec![
            "--remote-debugging-port=9223",
            "--user-data-dir=/p/profile-genshin",
            "--headless=new",
            "--window-size=480,320",
            "--no-first-run",
            "--no-default-browser-check",
            "--disable-features=Translate,MediaRouter",
            "--autoplay-policy=no-user-gesture-required",
            "--enable-features=WebRTC-H264WithOpenH264FFmpeg",
            "--hide-crash-restore-bubble",
            "about:blank",
        ]
    );
    match launch("/x/edge", false, 9223, "d", 1, 1) {
        Err(AppError::NotImplemented(what)) => assert_eq!(what, "浏览器（找不到 /x/edge）"),
        _ => panic!(),
    }
    assert_eq!(profile_name("genshin"), "profile-genshin");
    let words = |f: BrowserFault| match f.error() {
        AppError::Internal(why) => why,
        _ => panic!(),
    };
    assert_eq!(words(BrowserFault::NoProfile("e".into())), "建不了浏览器配置目录：e");
    assert_eq!(words(BrowserFault::NotStarted("e".into())), "启动浏览器失败：e");
    assert_eq!(words(BrowserFault::NoClient("e".into())), "建 HTTP 客户端失败：e");
    assert_eq!(
        words(BrowserFault::NotReached { url: "ws://x".into(), why: "e".into() }),
        "连不上浏览器调试端口 ws://x：e"
    );
    assert_eq!(words(BrowserFault::ProfileStays("e".into())), "删配置目录失败：e");
}

#[test]
fn a_browser_is_given_fifteen_seconds() {
    let mut w = DevtoolsWait::new(9222);
    assert_eq!(w.url(), "http://127.0.0.1:9222/json/version");
    assert!(w.goes_on(14_999) && !w.goes_on(15_000));
    let words = |w: &DevtoolsWait| match w.give_up() {
        AppError::Internal(why) => why,
        _ => panic!(),
    };
    assert_eq!(words(&w), "浏览器在 15 秒内没有开放调试端口 9222：未知");
    assert_eq!(w.heard(Err("refused".into())), None);
    assert_eq!(words(&w), "浏览器在 15 秒内没有开放调试端口 9222：refused");
    assert_eq!(w.heard(Ok(serde_json::Value::Null)), None);
    assert_eq!(words(&w), "浏览器在 15 秒内没有开放调试端口 9222：响应里没有 webSocketDebuggerUrl");
    let answer = serde_json::from_str(r#"{"webSocketDebuggerUrl":"ws://x"}"#).unwrap();
    assert_eq!(w.heard(Ok(answer)).as_deref(), Some("ws://x"));
}

#[test]
fn a_running_session_is_used_again() {
    let mut s = service(Some("/x/edge"));
    assert!(s.available());
    assert!(matches!(s.session("genshin", true), Ok(Admission::Launch { exe, port: 9222 }) if exe == "/x/edge"));
    s.insert("genshin".into(), 7);
    assert!(matches!(s.session("genshin", true), Ok(Admission::Reuse)));
    assert_eq!(s.get("genshin"), Some(&7));
    assert!(s.is_running("genshin") && !s.is_running("yihuan"));
    // One that no longer answers gives way.
    assert!(matches!(s.session("genshin", false), Ok(Admission::Launch { port: 9223, .. })));
    assert!(!s.is_running("genshin"));
}

#[test]
fn ports_take_turns() {
    let mut s = service(Some("/x/edge"));
    let mut ports = Vec::new();
    for _ in 0..21 {
        match s.session("genshin", false) {
            Ok(Admission::Launch { port, .. }) => ports.push(port),
            _ => panic!(),
        }
    }
    let want: Vec<u16> = (9222..9242).chain(9222..9223).collect();
    assert_eq!(ports, want);
}

#[test]
fn without_a_browser_there_is_no_session() {
    let mut s = service(None);
    assert!(!s.available());
    match s.session("genshin", true) {
        Err(AppError::NotImplemented(what)) => assert_eq!(what, "云游戏串流（没找到 Edge 或 Chrome）"),
        _ => panic!(),
    }
}

#[test]
fn a_port_is_needed_only_to_start() {
    let mut s: CloudService<u32> = CloudService::new(Some("e".into()), "/p".into(), u16::MAX - 1, 60, 480, 320, 90);
    assert!(s.has_port());
    assert!(matches!(s.session("a", false), Ok(Admission::Launch { port: 65534, .. })));
    assert!(matches!(s.session("a", false), Ok(Admission::Launch { port: 65535, .. })));
    assert!(!s.has_port());
    s.insert("a".into(), 1);
    assert!(matches!(s.session("a", true), Ok(Admission::Reuse)));
    let mut none: CloudService<u32> = CloudService::new(None, "/p".into(), u16::MAX, 60, 480, 320, 90);
    none.insert("a".into(), 1);
    assert!(none.session("a", false).is_err());
    assert!(!none.is_running("a"));
}

#[test]
fn a_site_has_one_session() {
    let mut s = service(Some("e"));
    s.insert("a".into(), 1);
    s.insert("b".into(), 2);
    s.insert("a".into(), 3);
    assert_eq!(s.sessions().len(), 2);
    assert_eq!(s.get("a"), Some(&3));
    assert_eq!(s.close("a"), Some(3));
    assert_eq!(s.close("a"), None);
    assert_eq!(s.get("b"), Some(&2));
    s.insert("c".into(), 4);
    let mut all: Vec<u32> = s.close_all().into_iter().map(|(_, x)| x).collect();
    all.sort();
    assert_eq!(all, vec![2, 4]);
    assert!(s.sessions().is_empty());
    assert_eq!(s.settings().profile_root, "/p");
}

#[test]
fn long_sleepers_are_closed() {
    let nap = |name: &str, dormant: bool, idle: u64| Nap { name: name.into(), dormant, idle };
    let naps = vec![
        nap("a", true, 90_000),
        nap("b", true, 89_999),
        nap("c", false, u64::MAX),
        nap("d", true, u64::MAX),
    ];
    assert_eq!(all_overdue(&naps, 90), vec!["a", "d"]);
    assert!(all_overdue(&naps, 0).is_empty());
    assert!(!overdue(&naps[3], u64::MAX));
}

#[test]
fn the_list_tells_what_runs() {
    let mut s = service(Some("e"));
    s.insert("starrail".into(), 1);
    let l = list(&config(Some("e")), Some(&s));
    assert!(l.available);
    assert_eq!((l.width, l.height), (480, 320));
    let seen: Vec<(&str, &str, bool)> = l.targets.iter().map(|t| (t.name, t.title, t.running)).collect();
    assert_eq!(
        seen,
        vec![("genshin", "云·原神", false), ("starrail", "云·星穹铁道", true), ("yihuan", "云·异环", false)]
    );
    let busy: Option<&CloudService<u32>> = None;
    let l = list(&config(None), busy);
    assert!(!l.available && l.targets.iter().all(|t| !t.running));
}

#[test]
fn sessions_are_stopped_and_forgotten() {
    let mut s = service(Some("e"));
    s.insert("genshin".into(), 1);
    assert_eq!(stop(&mut s, "genshin").unwrap(), Some(1));
    assert_eq!(stop(&mut s, "genshin").unwrap(), None);
    assert_eq!(stop(&mut s, "nope").unwrap_err().message(), "找不到 云游戏 nope");
    assert!(matches!(forget(&mut s, "genshin"), Ok(Forgetting::Remove(d)) if d == "profile-genshin"));
    s.insert("genshin".into(), 2);
    assert!(matches!(forget(&mut s, "genshin"), Ok(Forgetting::Stop(2))));
    assert!(!s.is_running("genshin"));
    assert_eq!(forget(&mut s, "nope").unwrap_err().message(), "找不到 云游戏 nope");
    assert_eq!(stop_reply(true).to_string(), r#"{"closed":true}"#);
    assert_eq!(stop_reply(false).to_string(), r#"{"closed":false}"#);
    assert_eq!(forget_reply().to_string(), r#"{"forgotten":true}"#);
}

#[test]
fn who_connects_is_told_what_is_up() {
    let t = ws(&config(Some("e")), "yihuan").unwrap();
    assert_eq!(t.name, "yihuan");
    assert_eq!(ws(&config(Some("e")), "x").unwrap_err().message(), "找不到 云游戏 x");
    assert_eq!(
        ws(&config(None), "yihuan").unwrap_err().message(),
        "云游戏串流（没找到 Edge 或 Chrome，或用 SPEAKLAB_BROWSER 指定路径） 尚未配置"
    );
    let told: serde_json::Value = serde_json::from_str(&started(&t, (480, 320))).unwrap();
    let want: serde_json::Value = serde_json::from_str(
        r#"{"type":"ready","target":"yihuan","title":"云·异环","width":480,"height":320}"#,
    )
    .unwrap();
    assert_eq!(told, want);
    let told: serde_json::Value = serde_json::from_str(&start_failed(&AppError::Internal("x".into()))).unwrap();
    assert_eq!(told, serde_json::from_str::<serde_json::Value>(r#"{"type":"error","message":"服务内部错误"}"#).unwrap());
}
