//! A streaming session: who watches it, whether it sleeps, how large its view is,
//! and what it does with what the player sends.

use vstd::arithmetic::power2::pow2;
use vstd::prelude::*;
use vstd::string::*;

use crate::binary64::{is_finite, signed_steps, steps, SIGN_BIT};
use crate::cloud::cdp::{Command, CommandView};
use crate::cloud::commands;
use crate::cloud::commands::{ask_alive_view, close_target_view, pointed, reload_view, stop_screencast_view, to_page, view_size_view, whole};
use crate::cloud::pixel::{lemma_pixel_in_range, pixel_of, Coord};
use crate::cloud::target::Target;
use crate::error::{AppError, AppResult};
use crate::json;
use crate::json::{all_held, empty_object, has_only, held, member, number_held, with_member, Json, JsonNumber};
use crate::text::same;

verus! {

/// One picture of the page.
#[derive(Debug)]
pub struct Frame {
    /// The picture, a JPEG in base64, as the browser gives it.
    pub data: String,
    /// The browser's time stamp, if it gave one.
    pub ts: Option<serde_json::Number>,
    pub width: u32,
    pub height: u32,
}

/// What a session tells those who watch it.
#[derive(Debug)]
pub enum Outgoing {
    /// The session runs.
    Ready { target: String, title: String, width: u32, height: u32 },
    Frame(Frame),
    /// The page has gone elsewhere.
    Title { title: String },
    Error { message: String },
}

/// What the player does. Coordinates are fractions of the view.
#[derive(Debug)]
pub enum InputEvent {
    Touch { kind: String, x: Coord, y: Coord, id: i64 },
    Mouse { kind: String, x: Coord, y: Coord, button: Option<String> },
    Key { kind: String, key: String, code: String, vk: i64 },
    Text { text: String },
    Scroll { x: Coord, y: Coord, dx: serde_json::Number, dy: serde_json::Number },
    Resize { width: u32, height: u32 },
    /// The page went to the background: stop the frames, keep the browser.
    Sleep,
    /// The page is back: start the frames again.
    Wake,
}

/// What an input calls for.
pub enum InputStep {
    Nothing,
    /// Give this command; if it fails, so be it.
    Try(Command),
    /// Give this command; if it fails, the input has failed.
    Call(Command),
}

/// What becomes of a session that a page has stopped watching.
#[derive(Debug, Clone, Copy, PartialEq, Eq, Structural)]
pub enum Departure {
    /// Others still watch it.
    Stay,
    /// Nobody does: close it.
    Close,
}

// ---------------------------------------------------------------- inputs

/// The protocol's word for a kind of touch.
pub open spec fn touch_type(kind: Seq<char>) -> Option<Seq<char>> {
    if kind == "start"@ {
        Some("touchStart"@)
    } else if kind == "move"@ {
        Some("touchMove"@)
    } else if kind == "end"@ {
        Some("touchEnd"@)
    } else if kind == "cancel"@ {
        Some("touchCancel"@)
    } else {
        None
    }
}

/// The protocol's word for a kind of mouse action.
pub open spec fn mouse_type(kind: Seq<char>) -> Option<Seq<char>> {
    if kind == "down"@ {
        Some("mousePressed"@)
    } else if kind == "up"@ {
        Some("mouseReleased"@)
    } else if kind == "move"@ {
        Some("mouseMoved"@)
    } else {
        None
    }
}

/// The protocol's word for a kind of key action.
pub open spec fn key_type(kind: Seq<char>) -> Option<Seq<char>> {
    if kind == "down"@ {
        Some("keyDown"@)
    } else if kind == "up"@ {
        Some("keyUp"@)
    } else {
        None
    }
}

/// Where a coordinate is sent to: its pixel. Minus zero stays minus zero.
pub open spec fn placed(bits: u64, extent: u32) -> Json {
    if bits == SIGN_BIT {
        Json::Number(JsonNumber::Float(SIGN_BIT))
    } else {
        pointed(pixel_of(bits, extent) as u32)
    }
}

/// The fingers on the screen: none once the touch is over, else one.
pub open spec fn touch_points(kind: Seq<char>, x: Json, y: Json, id: i64) -> Json {
    if kind == "end"@ || kind == "cancel"@ {
        Json::List(seq![])
    } else {
        let p = with_member(empty_object(), "x"@, x);
        let p = with_member(p, "y"@, y);
        let p = with_member(p, "id"@, whole(id as int));
        Json::List(seq![p])
    }
}

/// The command for a touch.
pub open spec fn touch_view(session: Seq<char>, ty: Seq<char>, points: Json) -> CommandView {
    let p = with_member(empty_object(), "type"@, Json::Text(ty));
    let p = with_member(p, "touchPoints"@, points);
    to_page(session, "Input.dispatchTouchEvent"@, p)
}

/// The command for a mouse action. A move counts no clicks and holds no button down.
pub open spec fn mouse_view(session: Seq<char>, kind: Seq<char>, x: Json, y: Json, button: Seq<char>) -> CommandView {
    let moved = kind == "move"@;
    let p = with_member(empty_object(), "type"@, Json::Text(mouse_type(kind)->0));
    let p = with_member(p, "x"@, x);
    let p = with_member(p, "y"@, y);
    let p = with_member(p, "button"@, Json::Text(button));
    let p = with_member(p, "clickCount"@, whole(if moved { 0 } else { 1 }));
    let p = if moved {
        p
    } else {
        with_member(p, "buttons"@, whole(if button == "left"@ { 1 } else { 0 }))
    };
    to_page(session, "Input.dispatchMouseEvent"@, p)
}

/// The command for a key action.
pub open spec fn key_view(session: Seq<char>, ty: Seq<char>, key: Seq<char>, code: Seq<char>, vk: i64) -> CommandView {
    let p = with_member(empty_object(), "type"@, Json::Text(ty));
    let p = with_member(p, "key"@, Json::Text(key));
    let p = with_member(p, "code"@, Json::Text(code));
    let p = with_member(p, "windowsVirtualKeyCode"@, whole(vk as int));
    let p = with_member(p, "nativeVirtualKeyCode"@, whole(vk as int));
    to_page(session, "Input.dispatchKeyEvent"@, p)
}

/// The command for a turn of the wheel.
pub open spec fn scroll_view(session: Seq<char>, x: Json, y: Json, dx: Json, dy: Json) -> CommandView {
    let p = with_member(empty_object(), "type"@, Json::Text("mouseWheel"@));
    let p = with_member(p, "x"@, x);
    let p = with_member(p, "y"@, y);
    let p = with_member(p, "deltaX"@, dx);
    let p = with_member(p, "deltaY"@, dy);
    to_page(session, "Input.dispatchMouseEvent"@, p)
}

/// `n`, taken to the nearer end of the range from `low` to `high` if it lies outside.
pub open spec fn clamped(n: int, low: int, high: int) -> int {
    if n < low {
        low
    } else if n > high {
        high
    } else {
        n
    }
}

/// Whether an input has called for a command whose `type` is this word.
pub open spec fn calls_for(r: AppResult<InputStep>, word: Seq<char>) -> bool {
    r matches Ok(InputStep::Call(c)) && member(c@.params, "type"@) == Some(Json::Text(word))
}

/// The command that an input other than falling asleep or waking calls for in a
/// session that is awake, or the reason why it is refused.
pub open spec fn input_call(s: Session, event: InputEvent) -> Result<CommandView, Seq<char>> {
    let session = s.page_session@;
    match event {
        InputEvent::Touch { kind, x, y, id } => match touch_type(kind@) {
            Some(ty) => Ok(
                touch_view(
                    session,
                    ty,
                    touch_points(kind@, placed(x.bits(), s.width), placed(y.bits(), s.height), id),
                ),
            ),
            None => Err("未知的触摸类型 "@ + kind@),
        },
        InputEvent::Mouse { kind, x, y, button } => match mouse_type(kind@) {
            Some(_) => Ok(
                mouse_view(
                    session,
                    kind@,
                    placed(x.bits(), s.width),
                    placed(y.bits(), s.height),
                    match button {
                        Some(b) => b@,
                        None => "left"@,
                    },
                ),
            ),
            None => Err("未知的鼠标类型 "@ + kind@),
        },
        InputEvent::Key { kind, key, code, vk } => match key_type(kind@) {
            Some(ty) => Ok(key_view(session, ty, key@, code@, vk)),
            None => Err("未知的按键类型 "@ + kind@),
        },
        InputEvent::Text { text } => Ok(
            to_page(session, "Input.insertText"@, with_member(empty_object(), "text"@, Json::Text(text@))),
        ),
        InputEvent::Scroll { x, y, dx, dy } => Ok(
            scroll_view(
                session,
                placed(x.bits(), s.width),
                placed(y.bits(), s.height),
                Json::Number(number_held(dx)),
                Json::Number(number_held(dy)),
            ),
        ),
        InputEvent::Resize { width, height } => Ok(
            view_size_view(
                session,
                clamped(width as int, 160, 1920) as u32,
                clamped(height as int, 120, 1080) as u32,
            ),
        ),
        InputEvent::Sleep | InputEvent::Wake => Err(seq![]),
    }
}

fn touch_word(kind: &str) -> (r: Option<&'static str>)
    ensures
        r is Some == (touch_type(kind@) is Some),
        r matches Some(w) ==> w@ == touch_type(kind@)->0,
{
    if same(kind, "start") {
        Some("touchStart")
    } else if same(kind, "move") {
        Some("touchMove")
    } else if same(kind, "end") {
        Some("touchEnd")
    } else if same(kind, "cancel") {
        Some("touchCancel")
    } else {
        None
    }
}

fn mouse_word(kind: &str) -> (r: Option<&'static str>)
    ensures
        r is Some == (mouse_type(kind@) is Some),
        r matches Some(w) ==> w@ == mouse_type(kind@)->0,
{
    if same(kind, "down") {
        Some("mousePressed")
    } else if same(kind, "up") {
        Some("mouseReleased")
    } else if same(kind, "move") {
        Some("mouseMoved")
    } else {
        None
    }
}

fn key_word(kind: &str) -> (r: Option<&'static str>)
    ensures
        r is Some == (key_type(kind@) is Some),
        r matches Some(w) ==> w@ == key_type(kind@)->0,
{
    if same(kind, "down") {
        Some("keyDown")
    } else if same(kind, "up") {
        Some("keyUp")
    } else {
        None
    }
}

fn place(c: Coord, extent: u32) -> (r: serde_json::Value)
    ensures
        held(r) == placed(c.bits(), extent),
{
    if c.is_minus_zero() {
        json::minus_zero()
    } else {
        json::whole_float(c.pixel(extent))
    }
}

fn points(kind: &str, x: serde_json::Value, y: serde_json::Value, id: i64) -> (r: serde_json::Value)
    ensures
        held(r) == touch_points(kind@, held(x), held(y), id),
{
    let mut items: Vec<serde_json::Value> = Vec::new();
    if same(kind, "end") || same(kind, "cancel") {
        assert(all_held(items@) =~= seq![]);
        return json::list(items);
    }
    let p = json::with(json::object(), "x", x);
    let p = json::with(p, "y", y);
    let p = json::with(p, "id", json::signed(id));
    items.push(p);
    assert(all_held(items@) =~= seq![held(p)]);
    json::list(items)
}

fn mouse_call(
    session: &str,
    kind: &str,
    word: &str,
    x: serde_json::Value,
    y: serde_json::Value,
    button: &str,
) -> (r: Command)
    requires
        mouse_type(kind@) == Some(word@),
    ensures
        r@ == mouse_view(session@, kind@, held(x), held(y), button@),
{
    let moved = same(kind, "move");
    let p = json::with(json::object(), "type", json::text(word));
    let p = json::with(p, "x", x);
    let p = json::with(p, "y", y);
    let p = json::with(p, "button", json::text(button));
    let clicks: u64 = if moved {
        0
    } else {
        1
    };
    let p = json::with(p, "clickCount", json::unsigned(clicks));
    let p = if moved {
        p
    } else {
        let down: u64 = if same(button, "left") {
            1
        } else {
            0
        };
        json::with(p, "buttons", json::unsigned(down))
    };
    commands::page_command(session, "Input.dispatchMouseEvent", p)
}

fn key_call(session: &str, word: &str, key: &str, code: &str, vk: i64) -> (r: Command)
    ensures
        r@ == key_view(session@, word@, key@, code@, vk),
{
    let p = json::with(json::object(), "type", json::text(word));
    let p = json::with(p, "key", json::text(key));
    let p = json::with(p, "code", json::text(code));
    let p = json::with(p, "windowsVirtualKeyCode", json::signed(vk));
    let p = json::with(p, "nativeVirtualKeyCode", json::signed(vk));
    commands::page_command(session, "Input.dispatchKeyEvent", p)
}

fn scroll_call(
    session: &str,
    x: serde_json::Value,
    y: serde_json::Value,
    dx: serde_json::Number,
    dy: serde_json::Number,
) -> (r: Command)
    ensures
        r@ == scroll_view(
            session@,
            held(x),
            held(y),
            Json::Number(number_held(dx)),
            Json::Number(number_held(dy)),
        ),
{
    let p = json::with(json::object(), "type", json::text("mouseWheel"));
    let p = json::with(p, "x", x);
    let p = json::with(p, "y", y);
    let p = json::with(p, "deltaX", json::number(dx));
    let p = json::with(p, "deltaY", json::number(dy));
    commands::page_command(session, "Input.dispatchMouseEvent", p)
}

fn clamp(n: u32, low: u32, high: u32) -> (r: u32)
    requires
        low <= high,
    ensures
        r == clamped(n as int, low as int, high as int),
{
    if n < low {
        low
    } else if n > high {
        high
    } else {
        n
    }
}

// ---------------------------------------------------------------- the session

/// The state of a session. Times are milliseconds on one clock.
pub struct Session {
    pub target: Target,
    /// The window that the session began with.
    pub target_id: String,
    /// The tab that is streamed now. It changes as the session follows new tabs.
    pub tab: String,
    /// The page in it.
    pub page_session: String,
    pub alive: bool,
    pub frames_sent: u64,
    pub width: u32,
    pub height: u32,
    /// How many pages watch.
    pub watchers: u32,
    /// Asleep: the frames are stopped and the browser is kept.
    pub dormant: bool,
    /// When somebody was last seen watching.
    pub last_seen: u64,
}

impl Session {
    /// The session asleep.
    pub open spec fn asleep(self) -> Session {
        Session { dormant: true, ..self }
    }

    /// The session awake.
    pub open spec fn awake(self, now: u64) -> Session {
        if self.dormant {
            Session { dormant: false, last_seen: now, ..self }
        } else {
            self
        }
    }

    /// The session with one more page watching.
    pub open spec fn watched(self, now: u64) -> Session {
        Session {
            watchers: if self.watchers == u32::MAX {
                0
            } else {
                (self.watchers + 1) as u32
            },
            last_seen: now,
            ..self
        }
    }

    /// The session with one page fewer watching.
    pub open spec fn unwatched(self) -> Session {
        Session {
            watchers: if self.watchers == 0 {
                0
            } else {
                (self.watchers - 1) as u32
            },
            ..self
        }
    }

    /// A session that has just been set up: awake, with nobody watching yet.
    pub fn new(target: Target, target_id: String, page_session: String, width: u32, height: u32, now: u64) -> (r: Session)
        ensures
            r.tab@ == target_id@,
            r == (Session {
                target,
                target_id,
                tab: r.tab,
                page_session,
                alive: true,
                frames_sent: 0,
                width,
                height,
                watchers: 0,
                dormant: false,
                last_seen: now,
            }),
    {
        Session {
            target,
            tab: target_id.clone(),
            target_id,
            page_session,
            alive: true,
            frames_sent: 0,
            width,
            height,
            watchers: 0,
            dormant: false,
            last_seen: now,
        }
    }

    /// Puts the session to sleep. The command is owed only if it was awake.
    pub fn sleep(&mut self) -> (r: Option<Command>)
        ensures
            *final(self) == old(self).asleep(),
            r is Some == !old(self).dormant,
            r matches Some(c) ==> c@ == stop_screencast_view(old(self).page_session@),
    {
        if self.dormant {
            return None;
        }
        self.dormant = true;
        Some(commands::stop_screencast(self.page_session.as_str()))
    }

    /// Wakes the session. The frames are started again by the next look at the stream.
    pub fn wake(&mut self, now: u64) -> (r: bool)
        ensures
            r == old(self).dormant,
            *final(self) == old(self).awake(now),
    {
        if !self.dormant {
            return false;
        }
        self.dormant = false;
        self.last_seen = now;
        true
    }

    /// Whether the session sleeps.
    pub fn is_dormant(&self) -> (r: bool)
        ensures
            r == self.dormant,
    {
        self.dormant
    }

    /// How long ago somebody was last seen watching.
    pub fn idle_for(&self, now: u64) -> (r: u64)
        ensures
            r == (if now >= self.last_seen {
                now - self.last_seen
            } else {
                0
            }),
    {
        if now >= self.last_seen {
            now - self.last_seen
        } else {
            0
        }
    }

    /// One more page watches.
    pub fn add_watcher(&mut self, now: u64)
        ensures
            *final(self) == old(self).watched(now),
    {
        self.watchers = self.watchers.wrapping_add(1);
        self.last_seen = now;
    }

    /// One page fewer watches; how many are left. The count does not go below zero.
    pub fn remove_watcher(&mut self) -> (r: u32)
        ensures
            *final(self) == old(self).unwatched(),
            r == final(self).watchers,
    {
        if self.watchers > 0 {
            self.watchers = self.watchers - 1;
        }
        self.watchers
    }

    /// A page stops watching. When the last one has gone the session is to be closed:
    /// a browser that nobody watches holds on to its memory for nothing.
    pub fn leave(&mut self) -> (r: Departure)
        ensures
            *final(self) == old(self).unwatched(),
            r is Close == (final(self).watchers == 0),
    {
        if self.remove_watcher() == 0 {
            Departure::Close
        } else {
            Departure::Stay
        }
    }

    /// The size of the view.
    pub fn size(&self) -> (r: (u32, u32))
        ensures
            r == (self.width, self.height),
    {
        (self.width, self.height)
    }

    /// How many frames have been passed on.
    pub fn frames_sent(&self) -> (r: u64)
        ensures
            r == self.frames_sent,
    {
        self.frames_sent
    }

    /// One more frame is passed on.
    pub fn count_frame(&mut self)
        ensures
            *final(self) == (Session {
                frames_sent: if old(self).frames_sent == u64::MAX {
                    0
                } else {
                    (old(self).frames_sent + 1) as u64
                },
                ..*old(self)
            }),
    {
        self.frames_sent = self.frames_sent.wrapping_add(1);
    }

    /// The question that finds out whether the browser still answers; none if the
    /// session is known to be over.
    pub fn probe(&self) -> (r: Option<Command>)
        ensures
            r is Some == self.alive,
            r matches Some(c) ==> c@ == ask_alive_view(self.page_session@),
    {
        if self.alive {
            Some(commands::ask_alive(self.page_session.as_str()))
        } else {
            None
        }
    }

    /// Whether the session is alive, given whether the browser answered.
    pub fn is_alive(&self, answered: bool) -> (r: bool)
        ensures
            r == (self.alive && answered),
    {
        self.alive && answered
    }

    /// From now on the session streams this page of this tab and sends its input
    /// there. The command stops the frames of the page before it.
    pub fn follow(&mut self, tab: String, page_session: String) -> (r: Command)
        ensures
            *final(self) == (Session { tab, page_session, ..*old(self) }),
            r@ == stop_screencast_view(old(self).page_session@),
    {
        let stop = commands::stop_screencast(self.page_session.as_str());
        self.tab = tab;
        self.page_session = page_session;
        stop
    }

    /// What an input does to the session, and the command that it calls for. A
    /// sleeping session takes no input but the one that wakes it.
    pub fn input(&mut self, event: InputEvent, now: u64) -> (r: AppResult<InputStep>)
        ensures
            match event {
                InputEvent::Sleep => {
                    &&& *final(self) == (Session { dormant: true, ..*old(self) })
                    &&& r matches Ok(step)
                    &&& if old(self).dormant {
                        step is Nothing
                    } else {
                        step matches InputStep::Try(c) && c@ == stop_screencast_view(old(self).page_session@)
                    }
                },
                InputEvent::Wake => {
                    &&& r matches Ok(InputStep::Nothing)
                    &&& *final(self) == (if old(self).dormant {
                        Session { dormant: false, last_seen: now, ..*old(self) }
                    } else {
                        *old(self)
                    })
                },
                _ => if old(self).dormant {
                    r matches Ok(InputStep::Nothing) && *final(self) == *old(self)
                } else {
                    &&& match input_call(*old(self), event) {
                        Ok(command) => r matches Ok(InputStep::Call(c)) && c@ == command,
                        Err(why) => r matches Err(AppError::BadRequest(s)) && s@ == why,
                    }
                    &&& *final(self) == (match event {
                        InputEvent::Resize { width, height } => Session {
                            width: clamped(width as int, 160, 1920) as u32,
                            height: clamped(height as int, 120, 1080) as u32,
                            ..*old(self)
                        },
                        _ => *old(self),
                    })
                },
            },
            !old(self).dormant ==> (event matches InputEvent::Touch { kind, .. } ==> {
                &&& kind@ == "start"@ ==> calls_for(r, "touchStart"@)
                &&& kind@ == "move"@ ==> calls_for(r, "touchMove"@)
                &&& kind@ == "end"@ ==> calls_for(r, "touchEnd"@)
                &&& kind@ == "cancel"@ ==> calls_for(r, "touchCancel"@)
            }),
            !old(self).dormant ==> (event matches InputEvent::Mouse { kind, .. } ==> {
                &&& kind@ == "down"@ ==> calls_for(r, "mousePressed"@)
                &&& kind@ == "up"@ ==> calls_for(r, "mouseReleased"@)
                &&& kind@ == "move"@ ==> calls_for(r, "mouseMoved"@)
            }),
            !old(self).dormant ==> (event matches InputEvent::Key { kind, .. } ==> {
                &&& kind@ == "down"@ ==> calls_for(r, "keyDown"@)
                &&& kind@ == "up"@ ==> calls_for(r, "keyUp"@)
            }),
            !old(self).dormant && event is Scroll ==> calls_for(r, "mouseWheel"@),
            !old(self).dormant ==> (event matches InputEvent::Resize { width, height } ==> {
                &&& 160 <= final(self).width <= 1920
                &&& 120 <= final(self).height <= 1080
                &&& 160 <= width <= 1920 ==> final(self).width == width
                &&& 120 <= height <= 1080 ==> final(self).height == height
            }),
    {
        proof {
            lemma_types(*self, event);
        }
        match event {
            InputEvent::Sleep => {
                return Ok(
                    match self.sleep() {
                        Some(c) => InputStep::Try(c),
                        None => InputStep::Nothing,
                    },
                );
            },
            InputEvent::Wake => {
                self.wake(now);
                return Ok(InputStep::Nothing);
            },
            _ => {},
        }
        if self.dormant {
            return Ok(InputStep::Nothing);
        }
        let (w, h) = self.size();
        let command = match event {
            InputEvent::Touch { kind, x, y, id } => {
                let px = place(x, w);
                let py = place(y, h);
                let word = match touch_word(kind.as_str()) {
                    Some(word) => word,
                    None => {
                        return Err(AppError::BadRequest("未知的触摸类型 ".to_owned().concat(kind.as_str())));
                    },
                };
                let p = json::with(json::object(), "type", json::text(word));
                let p = json::with(p, "touchPoints", points(kind.as_str(), px, py, id));
                commands::page_command(self.page_session.as_str(), "Input.dispatchTouchEvent", p)
            },
            InputEvent::Mouse { kind, x, y, button } => {
                let px = place(x, w);
                let py = place(y, h);
                let word = match mouse_word(kind.as_str()) {
                    Some(word) => word,
                    None => {
                        return Err(AppError::BadRequest("未知的鼠标类型 ".to_owned().concat(kind.as_str())));
                    },
                };
                let button = match button {
                    Some(b) => b,
                    None => "left".to_owned(),
                };
                mouse_call(self.page_session.as_str(), kind.as_str(), word, px, py, button.as_str())
            },
            InputEvent::Key { kind, key, code, vk } => {
                let word = match key_word(kind.as_str()) {
                    Some(word) => word,
                    None => {
                        return Err(AppError::BadRequest("未知的按键类型 ".to_owned().concat(kind.as_str())));
                    },
                };
                key_call(self.page_session.as_str(), word, key.as_str(), code.as_str(), vk)
            },
            InputEvent::Text { text } => {
                let p = json::with(json::object(), "text", json::text(text.as_str()));
                commands::page_command(self.page_session.as_str(), "Input.insertText", p)
            },
            InputEvent::Scroll { x, y, dx, dy } => {
                let px = place(x, w);
                let py = place(y, h);
                scroll_call(self.page_session.as_str(), px, py, dx, dy)
            },
            InputEvent::Resize { width, height } => {
                let nw = clamp(width, 160, 1920);
                let nh = clamp(height, 120, 1080);
                self.width = nw;
                self.height = nh;
                commands::view_size(self.page_session.as_str(), nw, nh)
            },
            InputEvent::Sleep | InputEvent::Wake => {
                return Ok(InputStep::Nothing);
            },
        };
        Ok(InputStep::Call(command))
    }

    /// The command that loads the page again.
    pub fn reload(&self) -> (r: Command)
        ensures
            r@ == reload_view(self.page_session@),
    {
        commands::reload(self.page_session.as_str())
    }

    /// Ends the session: it counts as dead from now on, and these two commands stop
    /// the frames and close the window. Doing it again asks for the same.
    pub fn shutdown(&mut self) -> (r: (Command, Command))
        ensures
            *final(self) == (Session { alive: false, ..*old(self) }),
            r.0@ == stop_screencast_view(old(self).page_session@),
            r.1@ == close_target_view(old(self).target_id@),
    {
        self.alive = false;
        (
            commands::stop_screencast(self.page_session.as_str()),
            commands::close_target(self.target_id.as_str()),
        )
    }
}

/// To put a session to sleep that sleeps changes nothing.
pub proof fn sleep_is_sleep(s: Session)
    ensures
        s.asleep().asleep() == s.asleep(),
{
}

/// A sleep costs a session nothing: once awake again it is as it was, but that
/// somebody has just been seen.
pub proof fn waking_undoes_sleep(s: Session, now: u64)
    requires
        !s.dormant,
    ensures
        s.asleep().awake(now) == (Session { last_seen: now, ..s }),
{
}

/// A page that comes to watch and goes leaves the count as it was.
pub proof fn watchers_are_counted(s: Session, now: u64)
    requires
        s.watchers < u32::MAX,
    ensures
        s.watched(now).watchers == s.watchers + 1,
        s.watched(now).unwatched().watchers == s.watchers,
{
}

/// It is the last page that closes a session: one that leaves does so exactly where no
/// more than one was watching.
pub proof fn the_last_one_closes(s: Session)
    ensures
        s.watchers <= 1 <==> s.unwatched().watchers == 0,
{
}

/// Whether a member is the pixel that a coordinate stands for in a view of this extent.
pub open spec fn is_pixel(j: Option<Json>, c: Coord, extent: u32) -> bool {
    &&& j matches Some(Json::Number(JsonNumber::Float(bits)))
    &&& is_finite(bits)
    &&& signed_steps(bits) == pixel_of(c.bits(), extent) * pow2(1074)
}

proof fn lemma_placed(c: Coord, extent: u32)
    ensures
        is_pixel(Some(placed(c.bits(), extent)), c, extent),
{
    let p = pixel_of(c.bits(), extent);
    lemma_pixel_in_range(c.bits(), extent);
    if c.bits() == SIGN_BIT {
        assert(steps(0) == 0);
        assert(0 * pow2(1074) == 0);
    } else {
        commands::a_pointed_number_is_itself(p as u32);
    }
}

/// A touch reaches the page as what it is: each kind under its own word, with the one
/// finger where it is in pixels, or with none once it has been lifted. A kind that is
/// not known is refused by name.
pub proof fn touches_are_passed_on(s: Session, kind: String, x: Coord, y: Coord, id: i64)
    ensures
        ({
            let r = input_call(s, InputEvent::Touch { kind, x, y, id });
            &&& r is Ok == (kind@ == "start"@ || kind@ == "move"@ || kind@ == "end"@ || kind@ == "cancel"@)
            &&& r matches Err(why) ==> why == "未知的触摸类型 "@ + kind@
            &&& r matches Ok(c) ==> {
                &&& c.method == "Input.dispatchTouchEvent"@
                &&& c.session == Some(s.page_session@)
                &&& has_only(c.params, set!["type"@, "touchPoints"@])
                &&& kind@ == "start"@ ==> member(c.params, "type"@) == Some(Json::Text("touchStart"@))
                &&& kind@ == "move"@ ==> member(c.params, "type"@) == Some(Json::Text("touchMove"@))
                &&& kind@ == "end"@ ==> member(c.params, "type"@) == Some(Json::Text("touchEnd"@))
                &&& kind@ == "cancel"@ ==> member(c.params, "type"@) == Some(Json::Text("touchCancel"@))
                &&& kind@ == "end"@ || kind@ == "cancel"@ ==> member(c.params, "touchPoints"@) == Some(
                    Json::List(Seq::empty()),
                )
                &&& kind@ == "start"@ || kind@ == "move"@ ==> {
                    &&& member(c.params, "touchPoints"@) matches Some(Json::List(points))
                    &&& points.len() == 1
                    &&& is_pixel(member(points[0], "x"@), x, s.width)
                    &&& is_pixel(member(points[0], "y"@), y, s.height)
                    &&& member(points[0], "id"@) == Some(Json::Number(JsonNumber::Whole(id as int)))
                    &&& has_only(points[0], set!["x"@, "y"@, "id"@])
                }
            }
        }),
{
    lemma_placed(x, s.width);
    lemma_placed(y, s.height);
    reveal_strlit("start");
    reveal_strlit("move");
    reveal_strlit("end");
    reveal_strlit("cancel");
    assert("start"@.len() == 5 && "move"@.len() == 4 && "end"@.len() == 3 && "cancel"@.len() == 6);
    reveal_strlit("type");
    reveal_strlit("touchPoints");
    assert("type"@.len() == 4 && "touchPoints"@.len() == 11);
    reveal_strlit("x");
    reveal_strlit("y");
    reveal_strlit("id");
    assert("x"@.len() == 1 && "y"@.len() == 1 && "id"@.len() == 2);
    assert("x"@[0] == 'x' && "y"@[0] == 'y');
    let r = input_call(s, InputEvent::Touch { kind, x, y, id });
    if r is Ok {
        let c = r->Ok_0;
        assert(c.params->Object_0.dom() =~= set!["type"@, "touchPoints"@]);
        if kind@ == "start"@ || kind@ == "move"@ {
            let p = member(c.params, "touchPoints"@)->0->List_0[0];
            assert(p->Object_0.dom() =~= set!["x"@, "y"@, "id"@]);
        }
    }
}

proof fn lemma_types(s: Session, event: InputEvent)
    ensures
        ({
            let ty = member(input_call(s, event)->Ok_0.params, "type"@);
            match event {
                InputEvent::Touch { kind, .. } => {
                    &&& kind@ == "start"@ ==> input_call(s, event) is Ok && ty == Some(Json::Text("touchStart"@))
                    &&& kind@ == "move"@ ==> input_call(s, event) is Ok && ty == Some(Json::Text("touchMove"@))
                    &&& kind@ == "end"@ ==> input_call(s, event) is Ok && ty == Some(Json::Text("touchEnd"@))
                    &&& kind@ == "cancel"@ ==> input_call(s, event) is Ok && ty == Some(Json::Text("touchCancel"@))
                },
                InputEvent::Mouse { kind, .. } => {
                    &&& kind@ == "down"@ ==> input_call(s, event) is Ok && ty == Some(Json::Text("mousePressed"@))
                    &&& kind@ == "up"@ ==> input_call(s, event) is Ok && ty == Some(Json::Text("mouseReleased"@))
                    &&& kind@ == "move"@ ==> input_call(s, event) is Ok && ty == Some(Json::Text("mouseMoved"@))
                },
                InputEvent::Key { kind, .. } => {
                    &&& kind@ == "down"@ ==> input_call(s, event) is Ok && ty == Some(Json::Text("keyDown"@))
                    &&& kind@ == "up"@ ==> input_call(s, event) is Ok && ty == Some(Json::Text("keyUp"@))
                },
                InputEvent::Scroll { .. } => input_call(s, event) is Ok && ty == Some(Json::Text("mouseWheel"@)),
                _ => true,
            }
        }),
{
    match event {
        InputEvent::Touch { kind, x, y, id } => touches_are_passed_on(s, kind, x, y, id),
        InputEvent::Mouse { kind, x, y, button } => the_mouse_is_passed_on(s, kind, x, y, button),
        InputEvent::Key { kind, key, code, vk } => keys_are_passed_on(s, kind, key, code, vk),
        InputEvent::Scroll { x, y, dx, dy } => the_wheel_is_passed_on(s, x, y, dx, dy),
        _ => {},
    }
}

/// Touches of two kinds never look the same to the page.
pub proof fn touches_are_told_apart(s: Session, a: String, b: String, x: Coord, y: Coord, id: i64)
    requires
        a@ != b@,
        input_call(s, InputEvent::Touch { kind: a, x, y, id }) is Ok,
        input_call(s, InputEvent::Touch { kind: b, x, y, id }) is Ok,
    ensures
        member(input_call(s, InputEvent::Touch { kind: a, x, y, id })->Ok_0.params, "type"@) != member(
            input_call(s, InputEvent::Touch { kind: b, x, y, id })->Ok_0.params,
            "type"@,
        ),
{
    touches_are_passed_on(s, a, x, y, id);
    touches_are_passed_on(s, b, x, y, id);
    reveal_strlit("touchStart");
    reveal_strlit("touchMove");
    reveal_strlit("touchEnd");
    reveal_strlit("touchCancel");
    assert("touchStart"@.len() == 10 && "touchMove"@.len() == 9 && "touchEnd"@.len() == 8 && "touchCancel"@.len() == 11);
}

/// A mouse action reaches the page as what it is, where it is in pixels, with its button,
/// which is the left one unless another is named. A press and a release are one click,
/// and say whether the left button is meant; a move is none and says nothing of it.
pub proof fn the_mouse_is_passed_on(s: Session, kind: String, x: Coord, y: Coord, button: Option<String>)
    ensures
        ({
            let r = input_call(s, InputEvent::Mouse { kind, x, y, button });
            let named = match button {
                Some(b) => b@,
                None => "left"@,
            };
            &&& r is Ok == (kind@ == "down"@ || kind@ == "up"@ || kind@ == "move"@)
            &&& r matches Err(why) ==> why == "未知的鼠标类型 "@ + kind@
            &&& r matches Ok(c) ==> {
                &&& c.method == "Input.dispatchMouseEvent"@
                &&& c.session == Some(s.page_session@)
                &&& kind@ == "down"@ ==> member(c.params, "type"@) == Some(Json::Text("mousePressed"@))
                &&& kind@ == "up"@ ==> member(c.params, "type"@) == Some(Json::Text("mouseReleased"@))
                &&& kind@ == "move"@ ==> member(c.params, "type"@) == Some(Json::Text("mouseMoved"@))
                &&& is_pixel(member(c.params, "x"@), x, s.width)
                &&& is_pixel(member(c.params, "y"@), y, s.height)
                &&& member(c.params, "button"@) == Some(Json::Text(named))
                &&& kind@ == "move"@ ==> {
                    &&& member(c.params, "clickCount"@) == Some(Json::Number(JsonNumber::Whole(0)))
                    &&& has_only(c.params, set!["type"@, "x"@, "y"@, "button"@, "clickCount"@])
                }
                &&& kind@ != "move"@ ==> {
                    &&& member(c.params, "clickCount"@) == Some(Json::Number(JsonNumber::Whole(1)))
                    &&& named == "left"@ ==> member(c.params, "buttons"@) == Some(Json::Number(JsonNumber::Whole(1)))
                    &&& named != "left"@ ==> member(c.params, "buttons"@) == Some(Json::Number(JsonNumber::Whole(0)))
                    &&& has_only(c.params, set!["type"@, "x"@, "y"@, "button"@, "clickCount"@, "buttons"@])
                }
            }
        }),
{
    lemma_placed(x, s.width);
    lemma_placed(y, s.height);
    reveal_strlit("down");
    reveal_strlit("up");
    reveal_strlit("move");
    assert("down"@.len() == 4 && "up"@.len() == 2 && "move"@.len() == 4);
    assert("down"@[0] == 'd' && "move"@[0] == 'm');
    reveal_strlit("type");
    reveal_strlit("x");
    reveal_strlit("y");
    reveal_strlit("button");
    reveal_strlit("clickCount");
    reveal_strlit("buttons");
    assert("type"@.len() == 4 && "x"@.len() == 1 && "y"@.len() == 1 && "button"@.len() == 6 && "clickCount"@.len() == 10 && "buttons"@.len() == 7);
    assert("x"@[0] == 'x' && "y"@[0] == 'y');
    let r = input_call(s, InputEvent::Mouse { kind, x, y, button });
    if r is Ok {
        let keys = r->Ok_0.params->Object_0.dom();
        if kind@ == "move"@ {
            assert(keys =~= set!["type"@, "x"@, "y"@, "button"@, "clickCount"@]);
        } else {
            assert(keys =~= set!["type"@, "x"@, "y"@, "button"@, "clickCount"@, "buttons"@]);
        }
    }
}

/// A key reaches the page as it was pressed or released, with its name, its place on the
/// keyboard and its number.
pub proof fn keys_are_passed_on(s: Session, kind: String, key: String, code: String, vk: i64)
    ensures
        ({
            let r = input_call(s, InputEvent::Key { kind, key, code, vk });
            &&& r is Ok == (kind@ == "down"@ || kind@ == "up"@)
            &&& r matches Err(why) ==> why == "未知的按键类型 "@ + kind@
            &&& r matches Ok(c) ==> {
                &&& c.method == "Input.dispatchKeyEvent"@
                &&& c.session == Some(s.page_session@)
                &&& kind@ == "down"@ ==> member(c.params, "type"@) == Some(Json::Text("keyDown"@))
                &&& kind@ == "up"@ ==> member(c.params, "type"@) == Some(Json::Text("keyUp"@))
                &&& member(c.params, "key"@) == Some(Json::Text(key@))
                &&& member(c.params, "code"@) == Some(Json::Text(code@))
                &&& member(c.params, "windowsVirtualKeyCode"@) == Some(Json::Number(JsonNumber::Whole(vk as int)))
                &&& member(c.params, "nativeVirtualKeyCode"@) == Some(Json::Number(JsonNumber::Whole(vk as int)))
                &&& has_only(
                    c.params,
                    set!["type"@, "key"@, "code"@, "windowsVirtualKeyCode"@, "nativeVirtualKeyCode"@],
                )
            }
        }),
{
    reveal_strlit("down");
    reveal_strlit("up");
    assert("down"@.len() == 4 && "up"@.len() == 2);
    reveal_strlit("type");
    reveal_strlit("key");
    reveal_strlit("code");
    reveal_strlit("windowsVirtualKeyCode");
    reveal_strlit("nativeVirtualKeyCode");
    assert("type"@.len() == 4 && "key"@.len() == 3 && "code"@.len() == 4 && "windowsVirtualKeyCode"@.len() == 21 && "nativeVirtualKeyCode"@.len() == 20);
    assert("type"@[0] == 't' && "code"@[0] == 'c');
    let r = input_call(s, InputEvent::Key { kind, key, code, vk });
    if r is Ok {
        assert(r->Ok_0.params->Object_0.dom() =~= set![
            "type"@,
            "key"@,
            "code"@,
            "windowsVirtualKeyCode"@,
            "nativeVirtualKeyCode"@,
        ]);
    }
}

/// A text reaches the page as it was typed.
pub proof fn texts_are_passed_on(s: Session, text: String)
    ensures
        ({
            let r = input_call(s, InputEvent::Text { text });
            &&& r matches Ok(c)
            &&& c.method == "Input.insertText"@
            &&& c.session == Some(s.page_session@)
            &&& member(c.params, "text"@) == Some(Json::Text(text@))
            &&& has_only(c.params, set!["text"@])
        }),
{
    assert(input_call(s, InputEvent::Text { text })->Ok_0.params->Object_0.dom() =~= set!["text"@]);
}

/// A turn of the wheel reaches the page where it was made, with the distances that were
/// sent, across and down.
pub proof fn the_wheel_is_passed_on(s: Session, x: Coord, y: Coord, dx: serde_json::Number, dy: serde_json::Number)
    ensures
        ({
            let r = input_call(s, InputEvent::Scroll { x, y, dx, dy });
            &&& r matches Ok(c)
            &&& c.method == "Input.dispatchMouseEvent"@
            &&& c.session == Some(s.page_session@)
            &&& member(c.params, "type"@) == Some(Json::Text("mouseWheel"@))
            &&& is_pixel(member(c.params, "x"@), x, s.width)
            &&& is_pixel(member(c.params, "y"@), y, s.height)
            &&& member(c.params, "deltaX"@) == Some(Json::Number(number_held(dx)))
            &&& member(c.params, "deltaY"@) == Some(Json::Number(number_held(dy)))
            &&& has_only(c.params, set!["type"@, "x"@, "y"@, "deltaX"@, "deltaY"@])
        }),
{
    lemma_placed(x, s.width);
    lemma_placed(y, s.height);
    reveal_strlit("type");
    reveal_strlit("x");
    reveal_strlit("y");
    reveal_strlit("deltaX");
    reveal_strlit("deltaY");
    assert("type"@.len() == 4 && "x"@.len() == 1 && "y"@.len() == 1 && "deltaX"@.len() == 6 && "deltaY"@.len() == 6);
    assert("x"@[0] == 'x' && "y"@[0] == 'y');
    assert("deltaX"@[5] == 'X' && "deltaY"@[5] == 'Y');
    assert(input_call(s, InputEvent::Scroll { x, y, dx, dy })->Ok_0.params->Object_0.dom() =~= set![
        "type"@,
        "x"@,
        "y"@,
        "deltaX"@,
        "deltaY"@,
    ]);
}

/// A page that is resized is laid out anew, with the width and the height that were asked
/// for where they are in bounds, and with the nearest that are where they are not.
pub proof fn a_resize_stays_in_bounds(s: Session, width: u32, height: u32)
    ensures
        ({
            let r = input_call(s, InputEvent::Resize { width, height });
            &&& r matches Ok(c)
            &&& c.method == "Emulation.setDeviceMetricsOverride"@
            &&& c.session == Some(s.page_session@)
            &&& member(c.params, "width"@) matches Some(Json::Number(JsonNumber::Whole(w)))
            &&& member(c.params, "height"@) matches Some(Json::Number(JsonNumber::Whole(h)))
            &&& 160 <= w <= 1920
            &&& 120 <= h <= 1080
            &&& 160 <= width <= 1920 ==> w == width
            &&& 120 <= height <= 1080 ==> h == height
            &&& width < 160 ==> w == 160
            &&& width > 1920 ==> w == 1920
            &&& height < 120 ==> h == 120
            &&& height > 1080 ==> h == 1080
        }),
{
    commands::the_page_is_as_large_as_the_view(
        s.page_session@,
        clamped(width as int, 160, 1920) as u32,
        clamped(height as int, 120, 1080) as u32,
    );
}

/// Who comes to watch and who goes changes the count and the time, and nothing else.
pub proof fn watchers_change_nothing_else(s: Session, now: u64)
    ensures
        s.watched(now) == (Session { watchers: s.watched(now).watchers, last_seen: now, ..s }),
        s.unwatched() == (Session { watchers: s.unwatched().watchers, ..s }),
        s.watchers > 0 ==> s.unwatched().watchers == s.watchers - 1,
        s.watchers == 0 ==> s.unwatched().watchers == 0,
{
}

/// To fall asleep and to wake changes whether the session sleeps, and waking the time,
/// and nothing else; to wake a session that is awake changes nothing.
pub proof fn sleep_changes_nothing_else(s: Session, now: u64)
    ensures
        s.asleep() == (Session { dormant: true, ..s }),
        s.dormant ==> s.awake(now) == (Session { dormant: false, last_seen: now, ..s }),
        !s.dormant ==> s.awake(now) == s,
{
}

} // verus!
