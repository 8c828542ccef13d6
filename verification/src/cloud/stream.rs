//! What keeps the picture coming: following the game into new tabs, passing frames
//! on, and reviving the stream of frames when it has gone quiet.

use vstd::prelude::*;
use vstd::string::*;

use crate::cloud::cdp::{Command, CommandView, Event, EventView};
use crate::cloud::commands;
use crate::cloud::commands::{acknowledge_view, enable_page_view, enable_runtime_view, touch_screen_view, user_agent_view, view_size_view};
use crate::cloud::session::Frame;
use crate::json;
use crate::json::{held, integer_in, member, number_held, text_under, Json, JsonNumber};
use crate::text::{has_prefix, same, starts_with};

verus! {

// ---------------------------------------------------------------- new tabs

/// Whether an address is one to follow: a page of the game, not of the browser's own.
pub open spec fn is_worth_following(url: Seq<char>) -> bool {
    &&& url.len() > 0
    &&& !has_prefix(url, "about:"@)
    &&& !has_prefix(url, "devtools:"@)
    &&& !has_prefix(url, "edge:"@)
}

/// The tab that an event says has appeared, or has gone to a new address.
pub open spec fn tab_in(ev: EventView) -> Option<Seq<char>> {
    if ev.method != "Target.targetCreated"@ && ev.method != "Target.targetInfoChanged"@ {
        None
    } else {
        match member(ev.params, "targetInfo"@) {
            None => None,
            Some(info) => {
                let url = match text_under(info, "url"@) {
                    Some(u) => u,
                    None => ""@,
                };
                if text_under(info, "type"@) == Some("page"@) && is_worth_following(url) {
                    text_under(info, "targetId"@)
                } else {
                    None
                }
            },
        }
    }
}

/// The tab to move on to; none where it is the one that is streamed already.
pub open spec fn next_tab(ev: EventView, current: Seq<char>) -> Option<Seq<char>> {
    match tab_in(ev) {
        None => None,
        Some(tab) => if tab == current {
            None
        } else {
            Some(tab)
        },
    }
}

/// The tab to move on to, if the event calls for it, from the one that is streamed now.
pub fn tab_to_follow(ev: &Event, current: &str) -> (r: Option<String>)
    ensures
        r is Some == (next_tab(ev@, current@) is Some),
        r matches Some(t) ==> t@ == next_tab(ev@, current@)->0,
{
    let method = ev.method.as_str();
    if !same(method, "Target.targetCreated") && !same(method, "Target.targetInfoChanged") {
        return None;
    }
    let info = match json::get(&ev.params, "targetInfo") {
        Some(info) => info,
        None => return None,
    };
    let is_page = match json::text_at(info, "type") {
        Some(t) => same(t, "page"),
        None => false,
    };
    if !is_page {
        return None;
    }
    proof {
        reveal_strlit("");
    }
    let url = match json::text_at(info, "url") {
        Some(u) => u,
        None => "",
    };
    if url.is_empty() || starts_with(url, "about:") || starts_with(url, "devtools:") || starts_with(url, "edge:") {
        return None;
    }
    let tab = match json::text_at(info, "targetId") {
        Some(t) => t,
        None => return None,
    };
    if same(current, tab) {
        return None;
    }
    Some(tab.to_owned())
}

/// The page of a tab that has been attached to, if the reply names one.
pub fn attached_page(reply: &serde_json::Value) -> (r: Option<String>)
    ensures
        r is Some == (text_under(held(*reply), "sessionId"@) is Some),
        r matches Some(s) ==> s@ == text_under(held(*reply), "sessionId"@)->0,
{
    match json::text_at(reply, "sessionId") {
        Some(s) => Some(s.to_owned()),
        None => None,
    }
}

/// What a row of commands says.
pub open spec fn all_said(s: Seq<Command>) -> Seq<CommandView> {
    s.map_values(|c: Command| c@)
}

/// The commands that make a new page like the one before it: what they set holds
/// for one page only.
pub fn settle_in(page: &str, agent: &str, width: u32, height: u32) -> (r: Vec<Command>)
    ensures
        all_said(r@) == seq![
            enable_page_view(page@),
            enable_runtime_view(page@),
            user_agent_view(page@, agent@),
            view_size_view(page@, width, height),
            touch_screen_view(page@),
        ],
{
    let mut r: Vec<Command> = Vec::new();
    r.push(commands::enable_page(page));
    r.push(commands::enable_runtime(page));
    r.push(commands::user_agent(page, agent));
    r.push(commands::view_size(page, width, height));
    r.push(commands::touch_screen(page));
    assert(all_said(r@) =~= seq![
        enable_page_view(page@),
        enable_runtime_view(page@),
        user_agent_view(page@, agent@),
        view_size_view(page@, width, height),
        touch_screen_view(page@),
    ]);
    r
}

/// What happens in the tab that is streamed is no reason to move.
pub proof fn a_followed_tab_is_not_followed_again(ev: EventView, current: Seq<char>)
    requires
        tab_in(ev) == Some(current),
    ensures
        next_tab(ev, current) is None,
{
}

// ---------------------------------------------------------------- frames

/// What a frame shows.
#[verifier::ext_equal]
pub struct FrameView {
    pub data: Seq<char>,
    pub ts: Option<JsonNumber>,
    pub width: u32,
    pub height: u32,
}

impl View for Frame {
    type V = FrameView;

    open spec fn view(&self) -> FrameView {
        FrameView {
            data: self.data@,
            ts: match self.ts {
                Some(n) => Some(number_held(n)),
                None => None,
            },
            width: self.width,
            height: self.height,
        }
    }
}

/// The member of a member.
pub open spec fn member_of(j: Option<Json>, key: Seq<char>) -> Option<Json> {
    match j {
        Some(x) => member(x, key),
        None => None,
    }
}

/// The 32 low bits of a length that the browser gives; 0 if it gives none.
pub open spec fn length_in(j: Option<Json>) -> u32 {
    match j {
        Some(x) => match integer_in(x) {
            Some(n) if 0 <= n <= u64::MAX => n as u64 as u32,
            _ => 0,
        },
        None => 0,
    }
}

/// The picture that the parameters of a frame event, or a reply, hold; empty if none.
pub open spec fn picture_in(params: Json) -> Seq<char> {
    match text_under(params, "data"@) {
        Some(d) => d,
        None => ""@,
    }
}

/// The frame that the parameters of a frame event describe.
pub open spec fn frame_in(params: Json) -> FrameView {
    let meta = member(params, "metadata"@);
    FrameView {
        data: picture_in(params),
        ts: match member_of(meta, "timestamp"@) {
            Some(Json::Number(n)) => Some(n),
            _ => None,
        },
        width: length_in(member_of(meta, "deviceWidth"@)),
        height: length_in(member_of(meta, "deviceHeight"@)),
    }
}

/// The number under which a frame is acknowledged; 0 if it has none.
pub open spec fn frame_number(params: Json) -> i64 {
    match member(params, "sessionId"@) {
        Some(x) => match integer_in(x) {
            Some(n) if i64::MIN <= n <= i64::MAX => n as i64,
            _ => 0,
        },
        None => 0,
    }
}

/// What an event of the browser asks of the stream.
pub struct FrameStep {
    /// The acknowledgement, which is due for every frame.
    pub ack: Option<Command>,
    /// The frame to pass on.
    pub frame: Option<Frame>,
}

fn length(meta: Option<&serde_json::Value>, key: &str) -> (r: u32)
    ensures
        r == length_in(
            match meta {
                Some(m) => member(held(*m), key@),
                None => None,
            },
        ),
{
    let value = match meta {
        Some(m) => json::get(m, key),
        None => None,
    };
    let n = match value {
        Some(v) => json::as_u64(v),
        None => None,
    };
    match n {
        Some(n) => #[verifier::truncate] (n as u32),
        None => 0,
    }
}

/// What to do about an event. Every frame is acknowledged to the page that sent it,
/// asleep or not, or no further frame would come; it is passed on only if it has a
/// picture and the session is awake.
pub fn on_event(ev: &Event, sleeping: bool) -> (r: FrameStep)
    ensures
        r.ack is Some == (ev@.method == "Page.screencastFrame"@),
        r.ack matches Some(c) ==> c@ == acknowledge_view(ev@.session_id, frame_number(ev@.params)),
        r.frame is Some == (ev@.method == "Page.screencastFrame"@ && !sleeping && picture_in(ev@.params).len() > 0),
        r.frame matches Some(f) ==> f@ == frame_in(ev@.params),
{
    if !same(ev.method.as_str(), "Page.screencastFrame") {
        return FrameStep { ack: None, frame: None };
    }
    let number = match json::get(&ev.params, "sessionId") {
        Some(v) => match json::as_i64(v) {
            Some(n) => n,
            None => 0,
        },
        None => 0,
    };
    let session = match &ev.session_id {
        Some(s) => Some(s.clone()),
        None => None,
    };
    let ack = Some(commands::acknowledge(session, number));
    proof {
        reveal_strlit("");
    }
    let data = match json::text_at(&ev.params, "data") {
        Some(d) => d,
        None => "",
    };
    if data.is_empty() || sleeping {
        return FrameStep { ack, frame: None };
    }
    let meta = json::get(&ev.params, "metadata");
    let stamp = match meta {
        Some(m) => json::get(m, "timestamp"),
        None => None,
    };
    let ts = match stamp {
        Some(v) => match json::as_number(v) {
            Some(n) => Some(json::copy_number(n)),
            None => None,
        },
        None => None,
    };
    let frame = Frame {
        data: data.to_owned(),
        ts,
        width: length(meta, "deviceWidth"),
        height: length(meta, "deviceHeight"),
    };
    FrameStep { ack, frame: Some(frame) }
}

/// The frame that a picture taken on purpose makes; none if there is no picture. It
/// has no time and no size of its own.
pub fn captured(reply: &serde_json::Value) -> (r: Option<Frame>)
    ensures
        r is Some == (picture_in(held(*reply)).len() > 0),
        r matches Some(f) ==> f@ == (FrameView { data: picture_in(held(*reply)), ts: None, width: 0, height: 0 }),
{
    proof {
        reveal_strlit("");
    }
    let data = match json::text_at(reply, "data") {
        Some(d) => d,
        None => "",
    };
    if data.is_empty() {
        return None;
    }
    Some(Frame { data: data.to_owned(), ts: None, width: 0, height: 0 })
}

/// Whether a navigation is of a page itself and not of a frame inside one.
pub open spec fn is_main_frame(params: Json) -> bool {
    match member_of(member(params, "frame"@), "parentId"@) {
        Some(parent) => parent is Null,
        None => true,
    }
}

/// The address that an event says a page has gone to.
pub open spec fn new_address(ev: EventView) -> Option<Seq<char>> {
    if ev.method == "Page.frameNavigated"@ && is_main_frame(ev.params) {
        match member(ev.params, "frame"@) {
            Some(frame) => text_under(frame, "url"@),
            None => None,
        }
    } else {
        None
    }
}

/// The new title to announce, if the event says that a page has gone elsewhere.
pub fn title_of(ev: &Event) -> (r: Option<String>)
    ensures
        r is Some == (new_address(ev@) is Some),
        r matches Some(t) ==> t@ == new_address(ev@)->0,
{
    if !same(ev.method.as_str(), "Page.frameNavigated") {
        return None;
    }
    let frame = match json::get(&ev.params, "frame") {
        Some(frame) => frame,
        None => return None,
    };
    let is_main = match json::get(frame, "parentId") {
        Some(parent) => json::is_null(parent),
        None => true,
    };
    if !is_main {
        return None;
    }
    match json::text_at(frame, "url") {
        Some(url) => Some(url.to_owned()),
        None => None,
    }
}

// ---------------------------------------------------------------- revival

/// How many looks in a row without a new frame make the page count as still.
pub const STILL_LOOKS: u32 = 3;

/// The least time between two pictures taken on purpose, in milliseconds.
pub const CAPTURE_PAUSE: u64 = 10_000;

/// What a look at the stream calls for.
#[derive(Debug)]
pub enum StreamStep {
    Rest,
    /// The session has woken: stop the frames of this page, start them again, then
    /// report with `reopened`.
    Revive(String),
    /// The session has moved: stop the frames of the page before, start those of the
    /// new one.
    Move { from: String, to: String },
    /// The page is still: take one picture of it.
    Capture(String),
}

/// What a step says.
#[verifier::ext_equal]
pub enum StepView {
    Rest,
    Revive(Seq<char>),
    Move { from: Seq<char>, to: Seq<char> },
    Capture(Seq<char>),
}

impl View for StreamStep {
    type V = StepView;

    open spec fn view(&self) -> StepView {
        match self {
            StreamStep::Rest => StepView::Rest,
            StreamStep::Revive(page) => StepView::Revive(page@),
            StreamStep::Move { from, to } => StepView::Move { from: from@, to: to@ },
            StreamStep::Capture(page) => StepView::Capture(page@),
        }
    }
}

/// The memory of the one who looks after the stream of frames. Times are
/// milliseconds on one clock.
pub struct Keeper {
    /// The frame count at the last look.
    pub frames: u64,
    /// Looks in a row without a new frame.
    pub still: u32,
    /// The page that is streamed.
    pub page: String,
    /// When a picture was last taken on purpose.
    pub captured_at: u64,
    /// Whether the session slept at the last look.
    pub slept: bool,
}

/// What the keeper remembers.
#[verifier::ext_equal]
pub struct KeeperView {
    pub frames: u64,
    pub still: u32,
    pub page: Seq<char>,
    pub captured_at: u64,
    pub slept: bool,
}

impl View for Keeper {
    type V = KeeperView;

    open spec fn view(&self) -> KeeperView {
        KeeperView {
            frames: self.frames,
            still: self.still,
            page: self.page@,
            captured_at: self.captured_at,
            slept: self.slept,
        }
    }
}

/// What is seen at a look: whether the session sleeps, which page it is on, how many
/// frames have been passed on, and what time it is.
pub struct Look {
    pub sleeping: bool,
    pub page: Seq<char>,
    pub frames: u64,
    pub now: u64,
}

/// How long ago `then` was.
pub open spec fn since(then: u64, now: u64) -> int {
    if now >= then {
        now - then
    } else {
        0
    }
}

impl KeeperView {
    /// Whether the count of still looks is one that a look can leave behind.
    pub open spec fn is_sound(self) -> bool {
        self.still < STILL_LOOKS
    }

    /// What a look leaves in memory, and what it calls for.
    pub open spec fn looked(self, l: Look) -> (KeeperView, StepView) {
        if l.sleeping {
            (KeeperView { slept: true, ..self }, StepView::Rest)
        } else if self.slept {
            (KeeperView { slept: false, ..self }, StepView::Revive(l.page))
        } else if self.page != l.page {
            (KeeperView { frames: l.frames, still: 0, page: l.page, ..self }, StepView::Move { from: self.page, to: l.page })
        } else if l.frames != self.frames {
            (KeeperView { frames: l.frames, still: 0, ..self }, StepView::Rest)
        } else if self.still + 1 < STILL_LOOKS {
            (KeeperView { still: (self.still + 1) as u32, ..self }, StepView::Rest)
        } else if since(self.captured_at, l.now) < CAPTURE_PAUSE {
            (KeeperView { still: 0, ..self }, StepView::Rest)
        } else {
            (KeeperView { still: 0, captured_at: l.now, ..self }, StepView::Capture(l.page))
        }
    }
}

impl Keeper {
    /// Begins to look after the frames of `page`.
    pub fn new(frames: u64, page: String, now: u64) -> (r: Keeper)
        ensures
            r@ == (KeeperView { frames, still: 0, page: page@, captured_at: now, slept: false }),
            r@.is_sound(),
    {
        Keeper { frames, still: 0, page, captured_at: now, slept: false }
    }

    /// Takes a look: whether the session sleeps, which page it is on, and how many
    /// frames have been passed on.
    pub fn look(&mut self, sleeping: bool, page: &str, frames: u64, now: u64) -> (r: StreamStep)
        requires
            old(self)@.is_sound(),
        ensures
            final(self)@.is_sound(),
            (final(self)@, r@) == old(self)@.looked(Look { sleeping, page: page@, frames, now }),
    {
        if sleeping {
            self.slept = true;
            return StreamStep::Rest;
        }
        if self.slept {
            self.slept = false;
            return StreamStep::Revive(page.to_owned());
        }
        let switched = !same(page, self.page.as_str());
        let producing = frames != self.frames;
        if producing {
            self.frames = frames;
        }
        if switched {
            let from = self.page.clone();
            self.page = page.to_owned();
            self.still = 0;
            return StreamStep::Move { from, to: page.to_owned() };
        }
        if producing {
            self.still = 0;
            return StreamStep::Rest;
        }
        self.still = self.still + 1;
        if self.still < STILL_LOOKS {
            return StreamStep::Rest;
        }
        self.still = 0;
        let pause: u64 = if now >= self.captured_at {
            now - self.captured_at
        } else {
            0
        };
        if pause < CAPTURE_PAUSE {
            return StreamStep::Rest;
        }
        self.captured_at = now;
        StreamStep::Capture(page.to_owned())
    }

    /// The frames have been started again after a sleep: what was seen before it
    /// says nothing any more.
    pub fn reopened(&mut self, page: String, frames: u64, now: u64)
        ensures
            final(self)@ == (KeeperView { frames, still: 0, page: page@, captured_at: now, slept: old(self)@.slept }),
            final(self)@.is_sound(),
    {
        self.frames = frames;
        self.still = 0;
        self.page = page;
        self.captured_at = now;
    }
}

/// What happens to the keeper: a look, or the report that the frames have been started
/// again.
pub enum Happening {
    Looked(Look),
    Reopened { page: Seq<char>, frames: u64, now: u64 },
}

/// When it happens.
pub open spec fn time_of(h: Happening) -> u64 {
    match h {
        Happening::Looked(l) => l.now,
        Happening::Reopened { page, frames, now } => now,
    }
}

/// What the keeper remembers after the first `n` of these happenings.
pub open spec fn memory_after(k: KeeperView, hs: Seq<Happening>, n: nat) -> KeeperView
    decreases n,
{
    if n == 0 {
        k
    } else {
        let before = memory_after(k, hs, (n - 1) as nat);
        match hs[n - 1] {
            Happening::Looked(l) => before.looked(l).0,
            Happening::Reopened { page, frames, now } => KeeperView {
                frames,
                still: 0,
                page,
                captured_at: now,
                slept: before.slept,
            },
        }
    }
}

/// Whether the happening at `i` is a look that calls for a picture.
pub open spec fn takes_picture(k: KeeperView, hs: Seq<Happening>, i: int) -> bool {
    hs[i] matches Happening::Looked(l) && memory_after(k, hs, i as nat).looked(l).1 is Capture
}

/// Whether time never runs back.
pub open spec fn in_time_order(hs: Seq<Happening>) -> bool {
    forall|i: int, j: int| 0 <= i <= j < hs.len() ==> time_of(#[trigger] hs[i]) <= time_of(#[trigger] hs[j])
}

proof fn pictures_are_remembered(k: KeeperView, hs: Seq<Happening>, i: int, n: nat)
    requires
        in_time_order(hs),
        0 <= i < n <= hs.len(),
        takes_picture(k, hs, i),
    ensures
        memory_after(k, hs, n).captured_at >= time_of(hs[i]),
    decreases n,
{
    assert(time_of(hs[i]) <= time_of(hs[n - 1]));
    if i < n - 1 {
        pictures_are_remembered(k, hs, i, (n - 1) as nat);
    }
}

/// However the stream fares, two pictures are never taken within the pause.
pub proof fn pictures_keep_their_distance(k: KeeperView, hs: Seq<Happening>, i: int, j: int)
    requires
        in_time_order(hs),
        0 <= i < j < hs.len(),
        takes_picture(k, hs, i),
        takes_picture(k, hs, j),
    ensures
        time_of(hs[j]) - time_of(hs[i]) >= CAPTURE_PAUSE,
{
    pictures_are_remembered(k, hs, i, j as nat);
}

/// While the session sleeps nothing is done about its frames.
pub proof fn sleep_is_left_alone(k: KeeperView, l: Look)
    requires
        l.sleeping,
    ensures
        k.looked(l).1 is Rest,
        k.looked(l).0 == (KeeperView { slept: true, ..k }),
{
}

/// The first look after a sleep starts the frames again, whatever else has happened.
pub proof fn waking_revives(k: KeeperView, asleep: Look, awake: Look)
    requires
        asleep.sleeping,
        !awake.sleeping,
    ensures
        k.looked(asleep).0.looked(awake).1 == StepView::Revive(awake.page),
{
}

/// A tab is followed exactly if the browser says that it has appeared or has gone
/// elsewhere, it is a page and not one of the browser's own, and it is not streamed yet.
pub proof fn only_new_pages_are_followed(ev: EventView, current: Seq<char>, tab: Seq<char>)
    ensures
        (next_tab(ev, current) == Some(tab)) == {
            &&& ev.method == "Target.targetCreated"@ || ev.method == "Target.targetInfoChanged"@
            &&& member(ev.params, "targetInfo"@) matches Some(info)
            &&& text_under(info, "type"@) == Some("page"@)
            &&& text_under(info, "targetId"@) == Some(tab)
            &&& text_under(info, "url"@) matches Some(url)
            &&& url.len() > 0
            &&& !has_prefix(url, "about:"@)
            &&& !has_prefix(url, "devtools:"@)
            &&& !has_prefix(url, "edge:"@)
            &&& tab != current
        },
{
    reveal_strlit("");
    assert(""@.len() == 0);
}

/// A frame shows what the browser sent: its picture, its time, and the size of the view
/// that it says it has.
pub proof fn a_frame_shows_what_was_sent(params: Json)
    ensures
        ({
            let f = frame_in(params);
            let meta = member(params, "metadata"@);
            &&& text_under(params, "data"@) matches Some(d) ==> f.data == d
            &&& text_under(params, "data"@) is None ==> f.data.len() == 0
            &&& meta matches Some(m) ==> {
                &&& member(m, "timestamp"@) matches Some(Json::Number(n)) ==> f.ts == Some(n)
                &&& !(member(m, "timestamp"@) matches Some(Json::Number(_))) ==> f.ts is None
                &&& member(m, "deviceWidth"@) matches Some(Json::Number(JsonNumber::Whole(w))) ==> (0 <= w <= u32::MAX
                    ==> f.width == w)
                &&& member(m, "deviceHeight"@) matches Some(Json::Number(JsonNumber::Whole(h))) ==> (0 <= h <= u32::MAX
                    ==> f.height == h)
                &&& member(m, "deviceWidth"@) is None ==> f.width == 0
                &&& member(m, "deviceHeight"@) is None ==> f.height == 0
            }
            &&& meta is None ==> f.ts is None && f.width == 0 && f.height == 0
        }),
{
    reveal_strlit("");
    assert(""@.len() == 0);
}

/// A frame is acknowledged by the number that it came with.
pub proof fn a_frame_has_its_own_number(params: Json)
    ensures
        member(params, "sessionId"@) matches Some(Json::Number(JsonNumber::Whole(n))) ==> (i64::MIN <= n <= i64::MAX
            ==> frame_number(params) == n),
        member(params, "sessionId"@) is None ==> frame_number(params) == 0,
        (member(params, "sessionId"@) matches Some(j) && !(j matches Json::Number(JsonNumber::Whole(_)))) ==> frame_number(
            params,
        ) == 0,
{
}

/// A title is announced for the page itself and not for a frame inside it, and it is the
/// address that the page has gone to.
pub proof fn only_pages_have_titles(ev: EventView, url: Seq<char>)
    ensures
        (new_address(ev) == Some(url)) == {
            &&& ev.method == "Page.frameNavigated"@
            &&& member(ev.params, "frame"@) matches Some(frame)
            &&& member(frame, "parentId"@) is None || member(frame, "parentId"@) == Some(Json::Null)
            &&& text_under(frame, "url"@) == Some(url)
        },
{
}

/// A page that gives no frame is pictured at the third look in a row, if the last picture
/// is ten seconds old; a page that gives frames never is.
pub proof fn a_still_page_is_pictured(k: KeeperView, l: Look)
    requires
        !l.sleeping,
        !k.slept,
        k.page == l.page,
    ensures
        l.frames == k.frames && k.still >= 2 && l.now >= k.captured_at + 10_000 ==> k.looked(l).1 == StepView::Capture(
            l.page,
        ) && k.looked(l).0.captured_at == l.now,
        l.frames == k.frames && k.still < 2 ==> k.looked(l).1 is Rest && k.looked(l).0 == (KeeperView {
            still: (k.still + 1) as u32,
            ..k
        }),
        l.now < k.captured_at + 10_000 ==> k.looked(l).1 is Rest,
        l.frames != k.frames ==> k.looked(l).1 is Rest && k.looked(l).0 == (KeeperView { frames: l.frames, still: 0, ..k }),
{
}

/// A session that has moved has the frames of its old page stopped and those of its new
/// page started, and is looked after there from then on.
pub proof fn a_move_goes_from_the_old_page_to_the_new(k: KeeperView, l: Look)
    requires
        !l.sleeping,
        !k.slept,
        k.page != l.page,
    ensures
        k.looked(l).1 == (StepView::Move { from: k.page, to: l.page }),
        k.looked(l).0 == (KeeperView { frames: l.frames, still: 0, page: l.page, ..k }),
{
}

/// Frames, steps and the keeper's memory are known by all that they hold.
pub proof fn frames_and_steps_are_known_whole(f: Frame, step: StreamStep, k: Keeper)
    ensures
        f@.data == f.data@,
        f@.width == f.width,
        f@.height == f.height,
        f.ts is Some == f@.ts is Some,
        f.ts matches Some(n) ==> f@.ts == Some(number_held(n)),
        step is Rest == step@ is Rest,
        step matches StreamStep::Revive(page) ==> step@ == StepView::Revive(page@),
        step matches StreamStep::Move { from, to } ==> step@ == (StepView::Move { from: from@, to: to@ }),
        step matches StreamStep::Capture(page) ==> step@ == StepView::Capture(page@),
        k@.frames == k.frames,
        k@.still == k.still,
        k@.page == k.page@,
        k@.captured_at == k.captured_at,
        k@.slept == k.slept,
{
}

/// A page that is followed is made like the one before it by five commands, all of them
/// to that page: its user agent, the size of the view and the touch screen among them.
pub proof fn a_followed_page_is_made_like_the_last(page: Seq<char>, agent: Seq<char>, width: u32, height: u32)
    ensures
        ({
            let agents = user_agent_view(page, agent);
            let sizes = view_size_view(page, width, height);
            let touch = touch_screen_view(page);
            &&& agents.session == Some(page) && sizes.session == Some(page) && touch.session == Some(page)
            &&& member(agents.params, "userAgent"@) == Some(Json::Text(agent))
            &&& member(sizes.params, "width"@) == Some(Json::Number(JsonNumber::Whole(width as int)))
            &&& member(sizes.params, "height"@) == Some(Json::Number(JsonNumber::Whole(height as int)))
            &&& member(touch.params, "enabled"@) == Some(Json::Bool(true))
        }),
{
    commands::the_agent_is_the_one_named(page, agent);
    commands::the_page_is_as_large_as_the_view(page, width, height);
    commands::the_touch_screen_is_switched_on(page);
}

} // verus!
