//! How a session comes up: the commands that are given one after the other until
//! the page can be streamed.

use vstd::prelude::*;
use vstd::string::*;

use crate::cloud::cdp::{is_internal, Command, CommandView};
use crate::cloud::commands;
use crate::cloud::commands::{ask_ready_state_view, attach_view, create_target_view, discover_view, enable_network_view, enable_page_view, enable_runtime_view, touch_screen_view, user_agent_view, view_size_view};
use crate::cloud::session::{Outgoing, Session};
use crate::cloud::target::{Target, TargetView};
use crate::error::{AppError, AppResult};
use crate::json;
use crate::json::{held, member, text_under, Json, JsonNumber};
use crate::text::same;

verus! {

/// How long the page is given to become ready, in milliseconds. A page that keeps
/// loading may be streamed all the same.
pub const PAGE_PATIENCE: u64 = 8_000;

/// The steps of coming up, in their order.
#[derive(Debug, Clone, Copy, PartialEq, Eq, Structural)]
pub enum Stage {
    CreateTarget,
    Attach,
    EnablePage,
    EnableRuntime,
    EnableNetwork,
    UserAgent,
    TouchScreen,
    ViewSize,
    AwaitPage,
    Discover,
    Done,
}

/// The number of a step.
pub open spec fn step_number(stage: Stage) -> int {
    match stage {
        Stage::CreateTarget => 0,
        Stage::Attach => 1,
        Stage::EnablePage => 2,
        Stage::EnableRuntime => 3,
        Stage::EnableNetwork => 4,
        Stage::UserAgent => 5,
        Stage::TouchScreen => 6,
        Stage::ViewSize => 7,
        Stage::AwaitPage => 8,
        Stage::Discover => 9,
        Stage::Done => 10,
    }
}

/// The commands of all steps, for a window `target_id` with the page `session`.
pub open spec fn script(target: TargetView, width: u32, height: u32, target_id: Seq<char>, session: Seq<char>) -> Seq<
    CommandView,
> {
    seq![
        create_target_view(target.url, width, height),
        attach_view(target_id),
        enable_page_view(session),
        enable_runtime_view(session),
        enable_network_view(session),
        user_agent_view(session, target.mobile_user_agent),
        touch_screen_view(session),
        view_size_view(session, width, height),
        ask_ready_state_view(session),
        discover_view(),
    ]
}

/// The state of the page that a reply to the question for it gives.
pub open spec fn ready_state(reply: Json) -> Seq<char> {
    match member(reply, "result"@) {
        Some(result) => match text_under(result, "value"@) {
            Some(state) => state,
            None => ""@,
        },
        None => ""@,
    }
}

/// Whether a page in this state can be streamed.
pub open spec fn is_ready(state: Seq<char>) -> bool {
    state == "interactive"@ || state == "complete"@
}

/// Whether the reply says that the page can be streamed.
pub fn page_is_ready(reply: &serde_json::Value) -> (r: bool)
    ensures
        r == is_ready(ready_state(held(*reply))),
{
    let state = match json::get(reply, "result") {
        Some(result) => match json::text_at(result, "value") {
            Some(state) => state,
            None => "",
        },
        None => "",
    };
    same(state, "interactive") || same(state, "complete")
}

impl Session {
    /// Begins to bring a session up.
    pub fn start(target: Target, width: u32, height: u32) -> (r: Startup)
        ensures
            r.target == target,
            r.width == width,
            r.height == height,
            r.stage == Stage::CreateTarget,
            r.target_id@ == Seq::<char>::empty(),
            r.page_session@ == Seq::<char>::empty(),
    {
        Startup {
            target,
            width,
            height,
            stage: Stage::CreateTarget,
            target_id: String::new(),
            page_session: String::new(),
        }
    }
}

/// Whether `b` is what `a` has become by a step that went well.
pub open spec fn stepped(a: Startup, b: Startup) -> bool {
    &&& b.target == a.target && b.width == a.width && b.height == a.height
    &&& step_number(b.stage) == step_number(a.stage) + 1 || (a.stage == Stage::AwaitPage && b.stage == a.stage)
    &&& a.stage == Stage::CreateTarget || b.target_id@ == a.target_id@
    &&& a.stage == Stage::Attach || b.page_session@ == a.page_session@
}

/// A session that is coming up.
pub struct Startup {
    pub target: Target,
    pub width: u32,
    pub height: u32,
    pub stage: Stage,
    /// The window, once it is open.
    pub target_id: String,
    /// The page, once it is attached to.
    pub page_session: String,
}

impl Startup {
    /// The commands that this session gives as it comes up.
    pub open spec fn script(self) -> Seq<CommandView> {
        script(self.target@, self.width, self.height, self.target_id@, self.page_session@)
    }

    /// The command of the step that the session is at; none when it is up.
    pub fn command(&self) -> (r: Option<Command>)
        ensures
            r is Some == (self.stage != Stage::Done),
            r matches Some(c) ==> c@ == self.script()[step_number(self.stage)],
            self.stage == Stage::CreateTarget ==> ({
                &&& r matches Some(c)
                &&& c@.method == "Target.createTarget"@
                &&& member(c@.params, "url"@) == Some(Json::Text(self.target.url@))
            }),
            self.stage == Stage::ViewSize ==> ({
                &&& r matches Some(c)
                &&& c@.session == Some(self.page_session@)
                &&& member(c@.params, "width"@) == Some(Json::Number(JsonNumber::Whole(self.width as int)))
                &&& member(c@.params, "height"@) == Some(Json::Number(JsonNumber::Whole(self.height as int)))
            }),
            self.stage == Stage::Discover ==> ({
                &&& r matches Some(c)
                &&& c@.method == "Target.setDiscoverTargets"@
                &&& member(c@.params, "discover"@) == Some(Json::Bool(true))
            }),
    {
        let session = self.page_session.as_str();
        match self.stage {
            Stage::CreateTarget => Some(commands::create_target(self.target.url, self.width, self.height)),
            Stage::Attach => Some(commands::attach(self.target_id.as_str())),
            Stage::EnablePage => Some(commands::enable_page(session)),
            Stage::EnableRuntime => Some(commands::enable_runtime(session)),
            Stage::EnableNetwork => Some(commands::enable_network(session)),
            Stage::UserAgent => Some(commands::user_agent(session, self.target.mobile_user_agent)),
            Stage::TouchScreen => Some(commands::touch_screen(session)),
            Stage::ViewSize => Some(commands::view_size(session, self.width, self.height)),
            Stage::AwaitPage => Some(commands::ask_ready_state(session)),
            Stage::Discover => Some(commands::discover()),
            Stage::Done => None,
        }
    }

    /// Takes what became of the command of this step, `waited` milliseconds after
    /// the page was first asked for its state. A step whose command fails ends the
    /// attempt, but for the question whether the page is ready: that one is put
    /// again until it is, or until patience runs out.
    pub fn advance(&mut self, answer: AppResult<serde_json::Value>, waited: u64) -> (r: AppResult<()>)
        requires
            old(self).stage != Stage::Done,
        ensures
            final(self).target == old(self).target,
            final(self).width == old(self).width,
            final(self).height == old(self).height,
            r is Err ==> *final(self) == *old(self),
            r is Ok ==> stepped(*old(self), *final(self)),
            r is Ok && old(self).stage != Stage::AwaitPage ==> step_number(final(self).stage) == step_number(
                old(self).stage,
            ) + 1,
            match old(self).stage {
                Stage::CreateTarget => match answer {
                    Err(e) => r == Err::<(), AppError>(e),
                    Ok(v) => match text_under(held(v), "targetId"@) {
                        Some(id) => r is Ok && final(self).target_id@ == id && final(self).page_session == old(
                            self,
                        ).page_session,
                        None => r matches Err(e) && is_internal(e, "createTarget 没返回 targetId"@),
                    },
                },
                Stage::Attach => match answer {
                    Err(e) => r == Err::<(), AppError>(e),
                    Ok(v) => match text_under(held(v), "sessionId"@) {
                        Some(id) => r is Ok && final(self).page_session@ == id && final(self).target_id == old(
                            self,
                        ).target_id,
                        None => r matches Err(e) && is_internal(e, "attachToTarget 没返回 sessionId"@),
                    },
                },
                Stage::AwaitPage => {
                    &&& r is Ok
                    &&& final(self).target_id == old(self).target_id
                    &&& final(self).page_session == old(self).page_session
                    &&& final(self).stage == (if (answer matches Ok(v) && is_ready(ready_state(held(v)))) || waited
                        >= PAGE_PATIENCE {
                        Stage::Discover
                    } else {
                        Stage::AwaitPage
                    })
                },
                _ => {
                    &&& final(self).target_id == old(self).target_id
                    &&& final(self).page_session == old(self).page_session
                    &&& match answer {
                        Err(e) => r == Err::<(), AppError>(e),
                        Ok(_) => r is Ok,
                    }
                },
            },
            old(self).stage == Stage::AwaitPage && waited >= 8000 ==> final(self).stage == Stage::Discover,
            old(self).stage == Stage::AwaitPage && waited < 8000 && answer is Err ==> final(self).stage
                == Stage::AwaitPage,
    {
        if self.stage == Stage::AwaitPage {
            let ready = match answer {
                Ok(v) => page_is_ready(&v),
                Err(_) => false,
            };
            if ready || waited >= PAGE_PATIENCE {
                self.stage = Stage::Discover;
            }
            return Ok(());
        }
        let v = match answer {
            Ok(v) => v,
            Err(e) => return Err(e),
        };
        match self.stage {
            Stage::CreateTarget => match json::text_at(&v, "targetId") {
                Some(id) => {
                    self.target_id = id.to_owned();
                    self.stage = Stage::Attach;
                },
                None => return Err(AppError::Internal("createTarget 没返回 targetId".to_owned())),
            },
            Stage::Attach => match json::text_at(&v, "sessionId") {
                Some(id) => {
                    self.page_session = id.to_owned();
                    self.stage = Stage::EnablePage;
                },
                None => return Err(AppError::Internal("attachToTarget 没返回 sessionId".to_owned())),
            },
            Stage::EnablePage => {
                self.stage = Stage::EnableRuntime;
            },
            Stage::EnableRuntime => {
                self.stage = Stage::EnableNetwork;
            },
            Stage::EnableNetwork => {
                self.stage = Stage::UserAgent;
            },
            Stage::UserAgent => {
                self.stage = Stage::TouchScreen;
            },
            Stage::TouchScreen => {
                self.stage = Stage::ViewSize;
            },
            Stage::ViewSize => {
                self.stage = Stage::AwaitPage;
            },
            Stage::Discover => {
                self.stage = Stage::Done;
            },
            Stage::AwaitPage | Stage::Done => {},
        }
        Ok(())
    }

    /// What those who watch are told when the session is up.
    pub fn ready(&self) -> (r: Outgoing)
        ensures
            r matches Outgoing::Ready { target, title, width, height } && {
                &&& target@ == self.target@.name
                &&& title@ == self.target@.title
                &&& width == self.width
                &&& height == self.height
            },
    {
        Outgoing::Ready {
            target: self.target.name.to_owned(),
            title: self.target.title.to_owned(),
            width: self.width,
            height: self.height,
        }
    }

    /// The session, once it is up.
    pub fn finish(self, now: u64) -> (r: Session)
        requires
            self.stage == Stage::Done,
        ensures
            r.tab@ == self.target_id@,
            r == (Session {
                target: self.target,
                target_id: self.target_id,
                tab: r.tab,
                page_session: self.page_session,
                alive: true,
                frames_sent: 0,
                width: self.width,
                height: self.height,
                watchers: 0,
                dormant: false,
                last_seen: now,
            }),
    {
        Session::new(self.target, self.target_id, self.page_session, self.width, self.height, now)
    }
}

/// Whether `run` is a way to bring a session up: from the first step, each state
/// what the one before it has become, to the end.
pub open spec fn is_run(run: Seq<Startup>) -> bool {
    &&& run.len() > 0
    &&& run.first().stage == Stage::CreateTarget
    &&& forall|i: int| 0 <= i < run.len() - 1 ==> stepped(#[trigger] run[i], run[i + 1])
}

/// A session that has come up has given every command of its script: each step was
/// there, and its command was the one that the script of the finished session has
/// in that place.
pub proof fn startup_follows_its_script(run: Seq<Startup>, n: int)
    requires
        is_run(run),
        0 <= n < step_number(run.last().stage),
    ensures
        exists|i: int|
            0 <= i < run.len() && step_number((#[trigger] run[i]).stage) == n && run[i].script()[n]
                == run.last().script()[n],
    decreases run.len(),
{
    let shorter = run.drop_last();
    if run.len() == 1 {
        assert(false);
    }
    assert forall|i: int| 0 <= i < shorter.len() - 1 implies stepped(#[trigger] shorter[i], shorter[i + 1]) by {
        assert(shorter[i] == run[i] && shorter[i + 1] == run[i + 1]);
    }
    assert(shorter.first() == run.first());
    let k = run.len() - 2;
    assert(stepped(run[k], run[k + 1]));
    let a = run[k];
    let b = run.last();
    assert(shorter.last() == a);
    assert(a.script()[n] == b.script()[n]);
    if step_number(a.stage) != n {
        startup_follows_its_script(shorter, n);
        let i = choose|i: int|
            0 <= i < shorter.len() && step_number((#[trigger] shorter[i]).stage) == n && shorter[i].script()[n]
                == shorter.last().script()[n];
        assert(run[i] == shorter[i]);
    }
}

/// The script brings the page of a site up: a window on its address, as large as the
/// view; its page attached to by the window; then, all in that page, the events that are
/// needed, the user agent of the site, a touch screen and the size of the view; then the
/// question how far it has loaded; and at last the report of new tabs.
pub proof fn the_script_brings_the_page_up(
    target: TargetView,
    width: u32,
    height: u32,
    target_id: Seq<char>,
    session: Seq<char>,
)
    ensures
        ({
            let s = script(target, width, height, target_id, session);
            &&& s.len() == 10
            &&& s[0].method == "Target.createTarget"@ && s[0].session is None
            &&& member(s[0].params, "url"@) == Some(Json::Text(target.url))
            &&& member(s[0].params, "width"@) == Some(Json::Number(JsonNumber::Whole(width as int)))
            &&& member(s[0].params, "height"@) == Some(Json::Number(JsonNumber::Whole(height as int)))
            &&& s[1].method == "Target.attachToTarget"@ && s[1].session is None
            &&& member(s[1].params, "targetId"@) == Some(Json::Text(target_id))
            &&& forall|i: int| 2 <= i < 9 ==> (#[trigger] s[i]).session == Some(session)
            &&& s[2].method == "Page.enable"@
            &&& s[3].method == "Runtime.enable"@
            &&& s[4].method == "Network.enable"@
            &&& s[5].method == "Emulation.setUserAgentOverride"@
            &&& member(s[5].params, "userAgent"@) == Some(Json::Text(target.mobile_user_agent))
            &&& s[6].method == "Emulation.setTouchEmulationEnabled"@
            &&& member(s[6].params, "enabled"@) == Some(Json::Bool(true))
            &&& s[7].method == "Emulation.setDeviceMetricsOverride"@
            &&& member(s[7].params, "width"@) == Some(Json::Number(JsonNumber::Whole(width as int)))
            &&& member(s[7].params, "height"@) == Some(Json::Number(JsonNumber::Whole(height as int)))
            &&& member(s[7].params, "mobile"@) == Some(Json::Bool(true))
            &&& s[8].method == "Runtime.evaluate"@
            &&& member(s[8].params, "expression"@) == Some(Json::Text("document.readyState"@))
            &&& s[9].method == "Target.setDiscoverTargets"@ && s[9].session is None
            &&& member(s[9].params, "discover"@) == Some(Json::Bool(true))
        }),
{
    commands::a_window_opens_on_its_address(target.url, width, height);
    commands::attaching_names_the_tab(target_id);
    commands::page_events_are_switched_on(session);
    commands::scripts_are_switched_on(session);
    commands::network_events_are_switched_on(session);
    commands::the_agent_is_the_one_named(session, target.mobile_user_agent);
    commands::the_touch_screen_is_switched_on(session);
    commands::the_page_is_as_large_as_the_view(session, width, height);
    commands::the_document_is_asked_for_its_state(session);
    commands::tabs_are_reported();
}

/// The steps come in the order of the script, each once.
pub proof fn steps_are_in_order(a: Stage, b: Stage)
    ensures
        (step_number(a) == step_number(b)) == (a == b),
        0 <= step_number(a) <= 10,
        step_number(Stage::CreateTarget) == 0,
        step_number(Stage::Attach) == 1,
        step_number(Stage::AwaitPage) == 8,
        step_number(Stage::Discover) == 9,
        step_number(Stage::Done) == 10,
{
}

/// A page can be streamed exactly once its document says that it is there or complete.
pub proof fn a_page_is_ready_by_its_own_word(reply: Json)
    ensures
        is_ready(ready_state(reply)) == (member(reply, "result"@) matches Some(result) && (text_under(result, "value"@)
            == Some("interactive"@) || text_under(result, "value"@) == Some("complete"@))),
{
    reveal_strlit("");
    reveal_strlit("interactive");
    reveal_strlit("complete");
    assert(""@.len() == 0 && "interactive"@.len() == 11 && "complete"@.len() == 8);
}

/// A session that comes up keeps to its own site, its own size, and its own window and
/// page: the commands of its script say so.
pub proof fn a_startup_keeps_to_its_own(u: Startup)
    ensures
        ({
            let s = u.script();
            &&& s.len() == 10
            &&& member(s[0].params, "url"@) == Some(Json::Text(u.target.url@))
            &&& member(s[0].params, "width"@) == Some(Json::Number(JsonNumber::Whole(u.width as int)))
            &&& member(s[0].params, "height"@) == Some(Json::Number(JsonNumber::Whole(u.height as int)))
            &&& member(s[1].params, "targetId"@) == Some(Json::Text(u.target_id@))
            &&& forall|i: int| 2 <= i < 9 ==> (#[trigger] s[i]).session == Some(u.page_session@)
            &&& member(s[5].params, "userAgent"@) == Some(Json::Text(u.target.mobile_user_agent@))
            &&& member(s[7].params, "width"@) == Some(Json::Number(JsonNumber::Whole(u.width as int)))
            &&& member(s[7].params, "height"@) == Some(Json::Number(JsonNumber::Whole(u.height as int)))
            &&& s[9].method == "Target.setDiscoverTargets"@
            &&& member(s[9].params, "discover"@) == Some(Json::Bool(true))
        }),
{
    the_script_brings_the_page_up(u.target@, u.width, u.height, u.target_id@, u.page_session@);
}

} // verus!
