use serde_json::Value;
use speaklab_server::cloud::cdp::{
    call_message, call_result, open_frame, read_message, CallOutcome, Calls, Command, Event, Incoming, WireFrame, WireStep,
};
use speaklab_server::cloud::commands;
use speaklab_server::cloud::pixel::Coord;
use speaklab_server::cloud::session::{Departure, InputEvent, InputStep, Outgoing, Session};
use speaklab_server::cloud::start::{page_is_ready, Stage, Startup, PAGE_PATIENCE};
use speaklab_server::cloud::stream::{
    attached_page, captured, on_event, settle_in, tab_to_follow, title_of, Keeper, StreamStep,
};
use speaklab_server::cloud::{find_target, Target};
use speaklab_server::error::{AppError, AppResult};

fn json(text: &str) -> Value {
    serde_json::from_str(text).unwrap()
}

fn coord(x: f64) -> Coord {
    Coord::new(x.to_bits()).unwrap()
}

fn genshin() -> Target {
    find_target("genshin").unwrap()
}

fn session() -> Session {
    Session::new(genshin(), "T".into(), "P".into(), 480, 320, 1_000)
}

fn event(method: &str, params: &str, page: Option<&str>) -> Event {
    Event { method: method.into(), params: json(params), session_id: page.map(str::to_owned) }
}

fn says(c: Command, method: &str, params: &str, page: Option<&str>) {
    assert_eq!(c.method, method);
    assert_eq!(c.params, json(params));
    assert_eq!(c.session.as_deref(), page);
}

fn called(step: AppResult<InputStep>) -> Command {
    match step {
        Ok(InputStep::Call(c)) => c,
        _ => panic!("no call"),
    }
}

// ---------------------------------------------------------------- the wire

#[test]
fn a_call_is_one_json_object() {
    let text = call_message(7, commands::attach("T"));
    assert_eq!(
        json(&text),
        json(r#"{"id":7,"method":"Target.attachToTarget","params":{"targetId":"T","flatten":true}}"#)
    );
    let text = call_message(8, commands::reload("P"));
    assert_eq!(json(&text), json(r#"{"id":8,"method":"Page.reload","params":{},"sessionId":"P"}"#));
}

#[test]
fn frames_are_opened() {
    assert!(matches!(open_frame(WireFrame::Text("x".into())), WireStep::Read(s) if s == "x"));
    assert!(matches!(open_frame(WireFrame::Binary("é".as_bytes().to_vec())), WireStep::Read(s) if s == "é"));
    assert!(matches!(open_frame(WireFrame::Binary(vec![0xff])), WireStep::Skip));
    assert!(matches!(open_frame(WireFrame::Close), WireStep::Stop));
    assert!(matches!(open_frame(WireFrame::Other), WireStep::Skip));
}

#[test]
fn messages_are_told_apart() {
    match read_message(r#"{"id":3,"result":{"a":1}}"#) {
        Incoming::Reply { id, body } => {
            assert_eq!(id, 3);
            assert_eq!(body, json(r#"{"id":3,"result":{"a":1}}"#));
        }
        _ => panic!(),
    }
    match read_message(r#"{"method":"Page.x","params":[1],"sessionId":"P"}"#) {
        Incoming::Event(ev) => {
            assert_eq!(ev.method, "Page.x");
            assert_eq!(ev.params, json("[1]"));
            assert_eq!(ev.session_id.as_deref(), Some("P"));
        }
        _ => panic!(),
    }
    match read_message(r#"{"id":-1,"method":"m"}"#) {
        Incoming::Event(ev) => {
            assert_eq!(ev.params, Value::Null);
            assert_eq!(ev.session_id, None);
        }
        _ => panic!(),
    }
    for text in ["", "[]", "{}", "{\"id\":\"1\"}", "nonsense"] {
        assert!(matches!(read_message(text), Incoming::Ignored), "{}", text);
    }
}

#[test]
fn what_a_call_brings() {
    let ok = call_result("M", CallOutcome::Reply(json(r#"{"id":1,"result":{"x":2}}"#))).unwrap();
    assert_eq!(ok, json(r#"{"x":2}"#));
    assert_eq!(call_result("M", CallOutcome::Reply(json(r#"{"id":1}"#))).unwrap(), Value::Null);
    let internal = |o: CallOutcome| match call_result("M", o) {
        Err(AppError::Internal(why)) => why,
        other => panic!("{:?}", other),
    };
    assert_eq!(internal(CallOutcome::NotSent), "CDP 连接已关闭");
    assert_eq!(internal(CallOutcome::TimedOut), "CDP 命令 M 超时");
    assert_eq!(internal(CallOutcome::Dropped), "CDP 连接在等待 M 时断开");
    assert_eq!(internal(CallOutcome::Reply(Value::Null)), "CDP 连接在等待 M 时断开");
    let refused = |text: &str| match call_result("M", CallOutcome::Reply(json(text))) {
        Err(AppError::Upstream(why)) => why,
        other => panic!("{:?}", other),
    };
    assert_eq!(refused(r#"{"error":{"message":"no"}}"#), "CDP M 被浏览器拒绝：no");
    assert_eq!(refused(r#"{"error":{}}"#), "CDP M 被浏览器拒绝：未知错误");
}

#[test]
fn a_reply_finds_its_caller() {
    let mut calls: Calls<&str> = Calls::new();
    let a = calls.open("a");
    let b = calls.open("b");
    assert_eq!((a, b), (1, 2));
    assert_eq!(calls.settle(2), Some("b"));
    assert_eq!(calls.settle(2), None);
    calls.open("c");
    let mut left: Vec<&str> = calls.abandon().into_values().collect();
    left.sort();
    assert_eq!(left, vec!["a", "c"]);
    assert_eq!(calls.settle(1), None);
}

// ---------------------------------------------------------------- coordinates

#[test]
fn pixels_are_those_of_the_rounded_product() {
    let xs = [
        0.0, -0.0, -1.0, 0.5, 0.25, 1.0, 1.5, 0.1, 0.3, 0.7, 1.0 / 3.0, 0.999_999_9, 1e-300, f64::MIN_POSITIVE, 5e-324,
        f64::INFINITY, f64::NEG_INFINITY, 0.001_041_666_666_666_666_7, 0.498_958_333_333_333_3,
    ];
    for extent in [0u32, 1, 2, 3, 160, 320, 480, 1080, 1920, u32::MAX] {
        for x in xs {
            let want = (x.clamp(0.0, 1.0) * f64::from(extent)).round() as u32;
            assert_eq!(coord(x).pixel(extent), want, "{} of {}", x, extent);
        }
        for i in 0..2_000 {
            let x = f64::from(i) / 1_999.0;
            assert_eq!(coord(x).pixel(extent), (x * f64::from(extent)).round() as u32, "{} of {}", x, extent);
        }
    }
    assert!(Coord::new(f64::NAN.to_bits()).is_none());
}

// ---------------------------------------------------------------- input

#[test]
fn touches_become_commands() {
    let mut s = session();
    let touch = |kind: &str| InputEvent::Touch { kind: kind.into(), x: coord(0.5), y: coord(0.25), id: 3 };
    says(
        called(s.input(touch("start"), 0)),
        "Input.dispatchTouchEvent",
        r#"{"type":"touchStart","touchPoints":[{"x":240.0,"y":80.0,"id":3}]}"#,
        Some("P"),
    );
    says(
        called(s.input(touch("end"), 0)),
        "Input.dispatchTouchEvent",
        r#"{"type":"touchEnd","touchPoints":[]}"#,
        Some("P"),
    );
    match s.input(touch("poke"), 0) {
        Err(AppError::BadRequest(why)) => assert_eq!(why, "未知的触摸类型 poke"),
        _ => panic!(),
    }
}

#[test]
fn the_mouse_the_keys_and_the_wheel() {
    let mut s = session();
    let mouse = |kind: &str, button: Option<&str>| InputEvent::Mouse {
        kind: kind.into(),
        x: coord(1.0),
        y: coord(0.0),
        button: button.map(str::to_owned),
    };
    says(
        called(s.input(mouse("down", None), 0)),
        "Input.dispatchMouseEvent",
        r#"{"type":"mousePressed","x":480.0,"y":0.0,"button":"left","clickCount":1,"buttons":1}"#,
        Some("P"),
    );
    says(
        called(s.input(mouse("up", Some("right")), 0)),
        "Input.dispatchMouseEvent",
        r#"{"type":"mouseReleased","x":480.0,"y":0.0,"button":"right","clickCount":1,"buttons":0}"#,
        Some("P"),
    );
    says(
        called(s.input(mouse("move", None), 0)),
        "Input.dispatchMouseEvent",
        r#"{"type":"mouseMoved","x":480.0,"y":0.0,"button":"left","clickCount":0}"#,
        Some("P"),
    );
    assert!(s.input(mouse("drag", None), 0).is_err());
    let key = |kind: &str| InputEvent::Key { kind: kind.into(), key: "a".into(), code: "KeyA".into(), vk: 65 };
    says(
        called(s.input(key("down"), 0)),
        "Input.dispatchKeyEvent",
        r#"{"type":"keyDown","key":"a","code":"KeyA","windowsVirtualKeyCode":65,"nativeVirtualKeyCode":65}"#,
        Some("P"),
    );
    assert!(s.input(key("press"), 0).is_err());
    says(
        called(s.input(InputEvent::Text { text: "你好".into() }, 0)),
        "Input.insertText",
        r#"{"text":"你好"}"#,
        Some("P"),
    );
    let number = |x: f64| serde_json::Number::from_f64(x).unwrap();
    let scroll = InputEvent::Scroll { x: coord(0.5), y: coord(0.5), dx: number(0.5), dy: number(-120.0) };
    says(
        called(s.input(scroll, 0)),
        "Input.dispatchMouseEvent",
        r#"{"type":"mouseWheel","x":240.0,"y":160.0,"deltaX":0.5,"deltaY":-120.0}"#,
        Some("P"),
    );
}

#[test]
fn a_resize_is_kept_in_bounds() {
    let mut s = session();
    let c = called(s.input(InputEvent::Resize { width: 1, height: 5_000 }, 0));
    says(
        c,
        "Emulation.setDeviceMetricsOverride",
        r#"{"width":160,"height":1080,"deviceScaleFactor":1.0,"mobile":true}"#,
        Some("P"),
    );
    assert_eq!(s.size(), (160, 1080));
}

#[test]
fn a_sleeping_session_takes_no_input() {
    let mut s = session();
    match s.input(InputEvent::Sleep, 0) {
        Ok(InputStep::Try(c)) => says(c, "Page.stopScreencast", "{}", Some("P")),
        _ => panic!(),
    }
    assert!(s.is_dormant());
    assert!(matches!(s.input(InputEvent::Sleep, 0), Ok(InputStep::Nothing)));
    assert!(matches!(s.input(InputEvent::Text { text: "x".into() }, 0), Ok(InputStep::Nothing)));
    assert!(matches!(s.input(InputEvent::Wake, 5_000), Ok(InputStep::Nothing)));
    assert!(!s.is_dormant());
    assert_eq!(s.idle_for(5_400), 400);
    assert!(matches!(s.input(InputEvent::Text { text: "x".into() }, 0), Ok(InputStep::Call(_))));
}

#[test]
fn sleep_and_wake_keep_the_rest() {
    let mut s = session();
    assert!(s.sleep().is_some());
    assert!(s.sleep().is_none());
    assert!(s.wake(2_000));
    assert!(!s.wake(9_000));
    assert_eq!(s.last_seen, 2_000);
    assert_eq!((s.page_session.as_str(), s.width, s.alive), ("P", 480, true));
    assert_eq!(s.idle_for(1_000), 0);
}

#[test]
fn watchers_never_go_below_none() {
    let mut s = session();
    assert_eq!(s.remove_watcher(), 0);
    s.add_watcher(3_000);
    s.add_watcher(4_000);
    assert_eq!(s.last_seen, 4_000);
    assert_eq!(s.remove_watcher(), 1);
    assert_eq!(s.remove_watcher(), 0);
    assert_eq!(s.remove_watcher(), 0);
}

#[test]
fn the_last_page_closes_the_session() {
    let mut s = session();
    s.add_watcher(0);
    s.add_watcher(0);
    assert_eq!(s.leave(), Departure::Stay);
    assert_eq!(s.leave(), Departure::Close);
    assert_eq!(s.watchers, 0);
    assert_eq!(s.leave(), Departure::Close);
}

#[test]
fn minus_zero_stays_minus_zero() {
    let mut s = session();
    let scroll = |x: f64| InputEvent::Scroll { x: coord(x), y: coord(x), dx: 0.into(), dy: 0.into() };
    let sent = |c: Command| (c.params["x"].as_f64().unwrap().to_bits(), c.params["y"].as_f64().unwrap().to_bits());
    let minus = (-0.0f64).to_bits();
    assert_eq!(sent(called(s.input(scroll(-0.0), 0))), (minus, minus));
    assert_eq!(sent(called(s.input(scroll(0.0), 0))), (0, 0));
    assert_eq!(sent(called(s.input(scroll(-1.0), 0))), (0, 0));
    assert_eq!(coord(-0.0).pixel(480), 0);
}

#[test]
fn a_session_ends_once_and_for_all() {
    let mut s = session();
    s.count_frame();
    assert_eq!(s.frames_sent(), 1);
    says(s.probe().unwrap(), "Runtime.evaluate", r#"{"expression":"1"}"#, Some("P"));
    assert!(s.is_alive(true) && !s.is_alive(false));
    says(s.follow("U".into(), "Q".into()), "Page.stopScreencast", "{}", Some("P"));
    assert_eq!(s.tab, "U");
    says(s.reload(), "Page.reload", "{}", Some("Q"));
    for _ in 0..2 {
        let (stop, close) = s.shutdown();
        says(stop, "Page.stopScreencast", "{}", Some("Q"));
        says(close, "Target.closeTarget", r#"{"targetId":"T"}"#, None);
        assert!(!s.is_alive(true));
        assert!(s.probe().is_none());
    }
}

// ---------------------------------------------------------------- coming up

fn step(s: &mut Startup, method: &str, reply: &str) {
    assert_eq!(s.command().unwrap().method, method);
    s.advance(Ok(json(reply)), 0).unwrap();
}

#[test]
fn a_session_comes_up_by_its_script() {
    let mut s = Session::start(genshin(), 480, 320);
    says(
        s.command().unwrap(),
        "Target.createTarget",
        r#"{"url":"https://ys.mihoyo.com/cloud/","newWindow":true,"width":480,"height":320}"#,
        None,
    );
    step(&mut s, "Target.createTarget", r#"{"targetId":"T"}"#);
    step(&mut s, "Target.attachToTarget", r#"{"sessionId":"P"}"#);
    step(&mut s, "Page.enable", "{}");
    step(&mut s, "Runtime.enable", "{}");
    step(&mut s, "Network.enable", "{}");
    step(&mut s, "Emulation.setUserAgentOverride", "{}");
    step(&mut s, "Emulation.setTouchEmulationEnabled", "{}");
    step(&mut s, "Emulation.setDeviceMetricsOverride", "{}");
    step(&mut s, "Runtime.evaluate", r#"{"result":{"value":"loading"}}"#);
    assert_eq!(s.stage, Stage::AwaitPage);
    step(&mut s, "Runtime.evaluate", r#"{"result":{"value":"interactive"}}"#);
    step(&mut s, "Target.setDiscoverTargets", "{}");
    assert!(s.command().is_none());
    match s.ready() {
        Outgoing::Ready { target, title, width, height } => {
            assert_eq!((target.as_str(), title.as_str(), width, height), ("genshin", "云·原神", 480, 320));
        }
        _ => panic!(),
    }
    let up = s.finish(77);
    assert_eq!((up.target_id.as_str(), up.page_session.as_str(), up.last_seen), ("T", "P", 77));
}

#[test]
fn a_start_fails_with_its_command() {
    let mut s = Session::start(genshin(), 480, 320);
    match s.advance(Err(AppError::Upstream("x".into())), 0) {
        Err(AppError::Upstream(why)) => assert_eq!(why, "x"),
        _ => panic!(),
    }
    match s.advance(Ok(json("{}")), 0) {
        Err(AppError::Internal(why)) => assert_eq!(why, "createTarget 没返回 targetId"),
        _ => panic!(),
    }
    s.advance(Ok(json(r#"{"targetId":"T"}"#)), 0).unwrap();
    match s.advance(Ok(json("{}")), 0) {
        Err(AppError::Internal(why)) => assert_eq!(why, "attachToTarget 没返回 sessionId"),
        _ => panic!(),
    }
    s.stage = Stage::AwaitPage;
    s.advance(Err(AppError::Unauthorized), PAGE_PATIENCE - 1).unwrap();
    assert_eq!(s.stage, Stage::AwaitPage);
    s.advance(Err(AppError::Unauthorized), PAGE_PATIENCE).unwrap();
    assert_eq!(s.stage, Stage::Discover);
    assert!(page_is_ready(&json(r#"{"result":{"value":"complete"}}"#)));
    assert!(!page_is_ready(&json("{}")));
}

// ---------------------------------------------------------------- the stream

fn new_tab(kind: &str, url: &str) -> Event {
    event(
        "Target.targetCreated",
        &format!(r#"{{"targetInfo":{{"type":"{}","url":"{}","targetId":"N"}}}}"#, kind, url),
        None,
    )
}

#[test]
fn new_tabs_are_followed() {
    let follow = |ev: &Event, current: &str| tab_to_follow(ev, current);
    assert_eq!(follow(&new_tab("page", "https://x"), "T").as_deref(), Some("N"));
    assert_eq!(follow(&new_tab("page", "https://x"), "N"), None);
    for url in ["", "about:blank", "devtools://x", "edge://y"] {
        assert_eq!(follow(&new_tab("page", url), "T"), None, "{}", url);
    }
    assert_eq!(follow(&new_tab("worker", "https://x"), "T"), None);
    let other = event("Target.targetDestroyed", r#"{"targetInfo":{}}"#, None);
    assert_eq!(follow(&other, "T"), None);
    let changed = event(
        "Target.targetInfoChanged",
        r#"{"targetInfo":{"type":"page","url":"https://y","targetId":"M"}}"#,
        None,
    );
    assert_eq!(follow(&changed, "T").as_deref(), Some("M"));
    assert_eq!(attached_page(&json(r#"{"sessionId":"S"}"#)).as_deref(), Some("S"));
    assert_eq!(attached_page(&json("{}")), None);
    let methods: Vec<String> = settle_in("S", "agent", 480, 320).into_iter().map(|c| c.method).collect();
    assert_eq!(
        methods,
        vec![
            "Page.enable",
            "Runtime.enable",
            "Emulation.setUserAgentOverride",
            "Emulation.setDeviceMetricsOverride",
            "Emulation.setTouchEmulationEnabled",
        ]
    );
}

#[test]
fn frames_are_acknowledged_and_passed_on() {
    let ev = event(
        "Page.screencastFrame",
        r#"{"data":"QUJD","sessionId":9,"metadata":{"timestamp":12.5,"deviceWidth":480,"deviceHeight":4294967297}}"#,
        Some("P"),
    );
    let s = on_event(&ev, false);
    says(s.ack.unwrap(), "Page.screencastFrameAck", r#"{"sessionId":9}"#, Some("P"));
    let f = s.frame.unwrap();
    assert_eq!((f.data.as_str(), f.width, f.height), ("QUJD", 480, 1));
    assert_eq!(f.ts.unwrap().as_f64(), Some(12.5));
    let s = on_event(&ev, true);
    assert!(s.ack.is_some() && s.frame.is_none());
    let s = on_event(&event("Page.screencastFrame", "{}", None), false);
    says(s.ack.unwrap(), "Page.screencastFrameAck", r#"{"sessionId":0}"#, None);
    assert!(s.frame.is_none());
    let s = on_event(&event("Page.loadEventFired", r#"{"data":"x"}"#, None), false);
    assert!(s.ack.is_none() && s.frame.is_none());
    let f = captured(&json(r#"{"data":"Wg=="}"#)).unwrap();
    assert_eq!((f.data.as_str(), f.ts, f.width, f.height), ("Wg==", None, 0, 0));
    assert!(captured(&json(r#"{"data":""}"#)).is_none());
}

#[test]
fn titles_are_of_main_frames() {
    let nav = |params: &str| title_of(&event("Page.frameNavigated", params, None));
    assert_eq!(nav(r#"{"frame":{"url":"https://x"}}"#).as_deref(), Some("https://x"));
    assert_eq!(nav(r#"{"frame":{"url":"https://x","parentId":null}}"#).as_deref(), Some("https://x"));
    assert_eq!(nav(r#"{"frame":{"url":"https://x","parentId":"F"}}"#), None);
    assert_eq!(nav("{}"), None);
    assert_eq!(title_of(&event("Page.x", r#"{"frame":{"url":"u"}}"#, None)), None);
}

#[test]
fn a_still_page_is_pictured_now_and_then() {
    let mut k = Keeper::new(0, "P".into(), 0);
    let mut pictures = Vec::new();
    for i in 1..=30u64 {
        let now = i * 2_000;
        if let StreamStep::Capture(page) = k.look(false, "P", 0, now) {
            assert_eq!(page, "P");
            pictures.push(now);
        }
    }
    assert_eq!(pictures, vec![12_000, 24_000, 36_000, 48_000, 60_000]);
}

#[test]
fn a_lively_page_is_left_alone() {
    let mut k = Keeper::new(0, "P".into(), 0);
    for i in 1..=30u64 {
        assert!(matches!(k.look(false, "P", i, i * 2_000), StreamStep::Rest));
    }
}

#[test]
fn waking_and_moving_start_the_frames_again() {
    let mut k = Keeper::new(5, "P".into(), 0);
    assert!(matches!(k.look(true, "P", 5, 2_000), StreamStep::Rest));
    assert!(matches!(k.look(true, "Q", 5, 4_000), StreamStep::Rest));
    assert!(matches!(k.look(false, "Q", 5, 6_000), StreamStep::Revive(p) if p == "Q"));
    k.reopened("Q".into(), 5, 6_500);
    assert!(matches!(k.look(false, "Q", 5, 8_000), StreamStep::Rest));
    assert!(matches!(k.look(false, "R", 6, 10_000), StreamStep::Move { from, to } if from == "Q" && to == "R"));
    assert_eq!((k.frames, k.still, k.captured_at), (6, 0, 6_500));
}
