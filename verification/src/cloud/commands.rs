//! The commands that a streaming session gives to the browser, word for word.

use vstd::arithmetic::power2::{lemma2_to64, lemma2_to64_rest, pow2};
use vstd::prelude::*;
use vstd::string::*;

use crate::binary64::{bits_of_whole, is_finite, one_is_one, signed_steps, whole_numbers_have_their_value, ONE_BITS};
use crate::cloud::cdp::{opt_text, Command, CommandView};
use crate::json;
use crate::json::{empty_object, has_only, held, member, with_member, Json, JsonNumber};

verus! {

/// A whole number as the protocol writes it.
pub open spec fn whole(n: int) -> Json {
    Json::Number(JsonNumber::Whole(n))
}

/// A whole number written with a decimal point.
pub open spec fn pointed(n: u32) -> Json {
    Json::Number(JsonNumber::Float(bits_of_whole(n as nat) as u64))
}

/// A command to the browser as a whole.
pub open spec fn to_browser(method: Seq<char>, params: Json) -> CommandView {
    CommandView { method, params, session: None }
}

/// A command to one page.
pub open spec fn to_page(session: Seq<char>, method: Seq<char>, params: Json) -> CommandView {
    CommandView { method, params, session: Some(session) }
}

fn browser_command(method: &str, params: serde_json::Value) -> (r: Command)
    ensures
        r@ == to_browser(method@, held(params)),
{
    Command { method: method.to_owned(), params, session: None }
}

pub(crate) fn page_command(session: &str, method: &str, params: serde_json::Value) -> (r: Command)
    ensures
        r@ == to_page(session@, method@, held(params)),
{
    Command { method: method.to_owned(), params, session: Some(session.to_owned()) }
}

/// Opens a window on `url`.
pub open spec fn create_target_view(url: Seq<char>, width: u32, height: u32) -> CommandView {
    let p = with_member(empty_object(), "url"@, Json::Text(url));
    let p = with_member(p, "newWindow"@, Json::Bool(true));
    let p = with_member(p, "width"@, whole(width as int));
    let p = with_member(p, "height"@, whole(height as int));
    to_browser("Target.createTarget"@, p)
}

/// Opens a window on `url`.
pub fn create_target(url: &str, width: u32, height: u32) -> (r: Command)
    ensures
        r@ == create_target_view(url@, width, height),
        r@.method == "Target.createTarget"@,
        r@.session == None::<Seq<char>>,
        member(r@.params, "url"@) == Some(Json::Text(url@)),
        member(r@.params, "newWindow"@) == Some(Json::Bool(true)),
        member(r@.params, "width"@) == Some(Json::Number(JsonNumber::Whole(width as int))),
        member(r@.params, "height"@) == Some(Json::Number(JsonNumber::Whole(height as int))),
{
    proof {
        a_window_opens_on_its_address(url@, width, height);
    }
    let p = json::with(json::object(), "url", json::text(url));
    let p = json::with(p, "newWindow", json::flag(true));
    let p = json::with(p, "width", json::unsigned(width as u64));
    let p = json::with(p, "height", json::unsigned(height as u64));
    browser_command("Target.createTarget", p)
}

/// Attaches to a target, so that its pages can be spoken to.
pub open spec fn attach_view(target_id: Seq<char>) -> CommandView {
    let p = with_member(empty_object(), "targetId"@, Json::Text(target_id));
    let p = with_member(p, "flatten"@, Json::Bool(true));
    to_browser("Target.attachToTarget"@, p)
}

/// Attaches to a target, so that its pages can be spoken to.
pub fn attach(target_id: &str) -> (r: Command)
    ensures
        r@ == attach_view(target_id@),
        r@.method == "Target.attachToTarget"@,
        r@.session == None::<Seq<char>>,
        member(r@.params, "targetId"@) == Some(Json::Text(target_id@)),
        member(r@.params, "flatten"@) == Some(Json::Bool(true)),
{
    proof {
        attaching_names_the_tab(target_id@);
    }
    let p = json::with(json::object(), "targetId", json::text(target_id));
    let p = json::with(p, "flatten", json::flag(true));
    browser_command("Target.attachToTarget", p)
}

/// Reports targets as they appear.
pub open spec fn discover_view() -> CommandView {
    to_browser("Target.setDiscoverTargets"@, with_member(empty_object(), "discover"@, Json::Bool(true)))
}

/// Reports targets as they appear.
pub fn discover() -> (r: Command)
    ensures
        r@ == discover_view(),
        r@.method == "Target.setDiscoverTargets"@,
        r@.session == None::<Seq<char>>,
        member(r@.params, "discover"@) == Some(Json::Bool(true)),
{
    proof {
        tabs_are_reported();
    }
    browser_command("Target.setDiscoverTargets", json::with(json::object(), "discover", json::flag(true)))
}

/// Closes a target.
pub open spec fn close_target_view(target_id: Seq<char>) -> CommandView {
    to_browser("Target.closeTarget"@, with_member(empty_object(), "targetId"@, Json::Text(target_id)))
}

/// Closes a target.
pub fn close_target(target_id: &str) -> (r: Command)
    ensures
        r@ == close_target_view(target_id@),
        r@.method == "Target.closeTarget"@,
        r@.session == None::<Seq<char>>,
        member(r@.params, "targetId"@) == Some(Json::Text(target_id@)),
{
    proof {
        closing_names_the_tab(target_id@);
    }
    browser_command("Target.closeTarget", json::with(json::object(), "targetId", json::text(target_id)))
}

/// Switches the page events on.
pub open spec fn enable_page_view(session: Seq<char>) -> CommandView {
    to_page(session, "Page.enable"@, empty_object())
}

/// Switches the page events on.
pub fn enable_page(session: &str) -> (r: Command)
    ensures
        r@ == enable_page_view(session@),
        r@.method == "Page.enable"@,
        r@.session == Some(session@),
{
    proof {
        page_events_are_switched_on(session@);
    }
    page_command(session, "Page.enable", json::object())
}

/// Switches script evaluation on.
pub open spec fn enable_runtime_view(session: Seq<char>) -> CommandView {
    to_page(session, "Runtime.enable"@, empty_object())
}

/// Switches script evaluation on.
pub fn enable_runtime(session: &str) -> (r: Command)
    ensures
        r@ == enable_runtime_view(session@),
        r@.method == "Runtime.enable"@,
        r@.session == Some(session@),
{
    proof {
        scripts_are_switched_on(session@);
    }
    page_command(session, "Runtime.enable", json::object())
}

/// Switches the network events on.
pub open spec fn enable_network_view(session: Seq<char>) -> CommandView {
    to_page(session, "Network.enable"@, empty_object())
}

/// Switches the network events on.
pub fn enable_network(session: &str) -> (r: Command)
    ensures
        r@ == enable_network_view(session@),
        r@.method == "Network.enable"@,
        r@.session == Some(session@),
{
    proof {
        network_events_are_switched_on(session@);
    }
    page_command(session, "Network.enable", json::object())
}

/// Passes the page off as another browser.
pub open spec fn user_agent_view(session: Seq<char>, agent: Seq<char>) -> CommandView {
    to_page(session, "Emulation.setUserAgentOverride"@, with_member(empty_object(), "userAgent"@, Json::Text(agent)))
}

/// Passes the page off as another browser.
pub fn user_agent(session: &str, agent: &str) -> (r: Command)
    ensures
        r@ == user_agent_view(session@, agent@),
        r@.method == "Emulation.setUserAgentOverride"@,
        r@.session == Some(session@),
        member(r@.params, "userAgent"@) == Some(Json::Text(agent@)),
{
    proof {
        the_agent_is_the_one_named(session@, agent@);
    }
    page_command(session, "Emulation.setUserAgentOverride", json::with(json::object(), "userAgent", json::text(agent)))
}

/// Gives the page a touch screen.
pub open spec fn touch_screen_view(session: Seq<char>) -> CommandView {
    let p = with_member(empty_object(), "enabled"@, Json::Bool(true));
    let p = with_member(p, "maxTouchPoints"@, whole(5));
    to_page(session, "Emulation.setTouchEmulationEnabled"@, p)
}

/// Gives the page a touch screen.
pub fn touch_screen(session: &str) -> (r: Command)
    ensures
        r@ == touch_screen_view(session@),
        r@.method == "Emulation.setTouchEmulationEnabled"@,
        r@.session == Some(session@),
        member(r@.params, "enabled"@) == Some(Json::Bool(true)),
        member(r@.params, "maxTouchPoints"@) == Some(Json::Number(JsonNumber::Whole(5 as int))),
{
    proof {
        the_touch_screen_is_switched_on(session@);
    }
    let p = json::with(json::object(), "enabled", json::flag(true));
    let p = json::with(p, "maxTouchPoints", json::unsigned(5));
    page_command(session, "Emulation.setTouchEmulationEnabled", p)
}

/// Lays the page out for a phone with a view of this size.
pub open spec fn view_size_view(session: Seq<char>, width: u32, height: u32) -> CommandView {
    let p = with_member(empty_object(), "width"@, whole(width as int));
    let p = with_member(p, "height"@, whole(height as int));
    let p = with_member(p, "deviceScaleFactor"@, pointed(1));
    let p = with_member(p, "mobile"@, Json::Bool(true));
    to_page(session, "Emulation.setDeviceMetricsOverride"@, p)
}

/// Lays the page out for a phone with a view of this size.
pub fn view_size(session: &str, width: u32, height: u32) -> (r: Command)
    ensures
        r@ == view_size_view(session@, width, height),
        r@.method == "Emulation.setDeviceMetricsOverride"@,
        r@.session == Some(session@),
        member(r@.params, "width"@) == Some(Json::Number(JsonNumber::Whole(width as int))),
        member(r@.params, "height"@) == Some(Json::Number(JsonNumber::Whole(height as int))),
        member(r@.params, "deviceScaleFactor"@) == Some(Json::Number(JsonNumber::Float(ONE_BITS))),
        member(r@.params, "mobile"@) == Some(Json::Bool(true)),
{
    proof {
        the_page_is_as_large_as_the_view(session@, width, height);
    }
    let p = json::with(json::object(), "width", json::unsigned(width as u64));
    let p = json::with(p, "height", json::unsigned(height as u64));
    let p = json::with(p, "deviceScaleFactor", json::whole_float(1));
    let p = json::with(p, "mobile", json::flag(true));
    page_command(session, "Emulation.setDeviceMetricsOverride", p)
}

/// Asks how far the page has loaded.
pub open spec fn ask_ready_state_view(session: Seq<char>) -> CommandView {
    let p = with_member(empty_object(), "expression"@, Json::Text("document.readyState"@));
    let p = with_member(p, "returnByValue"@, Json::Bool(true));
    to_page(session, "Runtime.evaluate"@, p)
}

/// Asks how far the page has loaded.
pub fn ask_ready_state(session: &str) -> (r: Command)
    ensures
        r@ == ask_ready_state_view(session@),
        r@.method == "Runtime.evaluate"@,
        r@.session == Some(session@),
        member(r@.params, "expression"@) == Some(Json::Text("document.readyState"@)),
        member(r@.params, "returnByValue"@) == Some(Json::Bool(true)),
{
    proof {
        the_document_is_asked_for_its_state(session@);
    }
    let p = json::with(json::object(), "expression", json::text("document.readyState"));
    let p = json::with(p, "returnByValue", json::flag(true));
    page_command(session, "Runtime.evaluate", p)
}

/// Asks the page for anything at all.
pub open spec fn ask_alive_view(session: Seq<char>) -> CommandView {
    to_page(session, "Runtime.evaluate"@, with_member(empty_object(), "expression"@, Json::Text("1"@)))
}

/// Asks the page for anything at all.
pub fn ask_alive(session: &str) -> (r: Command)
    ensures
        r@ == ask_alive_view(session@),
        r@.method == "Runtime.evaluate"@,
        r@.session == Some(session@),
        member(r@.params, "expression"@) == Some(Json::Text("1"@)),
{
    proof {
        any_page_can_say_that_it_is_alive(session@);
    }
    page_command(session, "Runtime.evaluate", json::with(json::object(), "expression", json::text("1")))
}

/// Starts the stream of frames.
pub open spec fn start_screencast_view(session: Seq<char>, quality: u8, width: u32, height: u32) -> CommandView {
    let p = with_member(empty_object(), "format"@, Json::Text("jpeg"@));
    let p = with_member(p, "quality"@, whole(quality as int));
    let p = with_member(p, "maxWidth"@, whole(width as int));
    let p = with_member(p, "maxHeight"@, whole(height as int));
    let p = with_member(p, "everyNthFrame"@, whole(1));
    to_page(session, "Page.startScreencast"@, p)
}

/// Starts the stream of frames.
pub fn start_screencast(session: &str, quality: u8, width: u32, height: u32) -> (r: Command)
    ensures
        r@ == start_screencast_view(session@, quality, width, height),
        r@.method == "Page.startScreencast"@,
        r@.session == Some(session@),
        member(r@.params, "format"@) == Some(Json::Text("jpeg"@)),
        member(r@.params, "quality"@) == Some(Json::Number(JsonNumber::Whole(quality as int))),
        member(r@.params, "maxWidth"@) == Some(Json::Number(JsonNumber::Whole(width as int))),
        member(r@.params, "maxHeight"@) == Some(Json::Number(JsonNumber::Whole(height as int))),
        member(r@.params, "everyNthFrame"@) == Some(Json::Number(JsonNumber::Whole(1 as int))),
{
    proof {
        frames_have_room_for_the_view(session@, quality, width, height);
    }
    let p = json::with(json::object(), "format", json::text("jpeg"));
    let p = json::with(p, "quality", json::unsigned(quality as u64));
    let p = json::with(p, "maxWidth", json::unsigned(width as u64));
    let p = json::with(p, "maxHeight", json::unsigned(height as u64));
    let p = json::with(p, "everyNthFrame", json::unsigned(1));
    page_command(session, "Page.startScreencast", p)
}

/// Stops the stream of frames.
pub open spec fn stop_screencast_view(session: Seq<char>) -> CommandView {
    to_page(session, "Page.stopScreencast"@, empty_object())
}

/// Stops the stream of frames.
pub fn stop_screencast(session: &str) -> (r: Command)
    ensures
        r@ == stop_screencast_view(session@),
        r@.method == "Page.stopScreencast"@,
        r@.session == Some(session@),
{
    proof {
        frames_of_one_page_are_stopped(session@);
    }
    page_command(session, "Page.stopScreencast", json::object())
}

/// Takes one picture of the page.
pub open spec fn capture_view(session: Seq<char>, quality: u8) -> CommandView {
    let p = with_member(empty_object(), "format"@, Json::Text("jpeg"@));
    let p = with_member(p, "quality"@, whole(quality as int));
    to_page(session, "Page.captureScreenshot"@, p)
}

/// Takes one picture of the page.
pub fn capture(session: &str, quality: u8) -> (r: Command)
    ensures
        r@ == capture_view(session@, quality),
        r@.method == "Page.captureScreenshot"@,
        r@.session == Some(session@),
        member(r@.params, "format"@) == Some(Json::Text("jpeg"@)),
        member(r@.params, "quality"@) == Some(Json::Number(JsonNumber::Whole(quality as int))),
{
    proof {
        a_picture_is_like_a_frame(session@, quality);
    }
    let p = json::with(json::object(), "format", json::text("jpeg"));
    let p = json::with(p, "quality", json::unsigned(quality as u64));
    page_command(session, "Page.captureScreenshot", p)
}

/// Loads the page again.
pub open spec fn reload_view(session: Seq<char>) -> CommandView {
    to_page(session, "Page.reload"@, empty_object())
}

/// Loads the page again.
pub fn reload(session: &str) -> (r: Command)
    ensures
        r@ == reload_view(session@),
        r@.method == "Page.reload"@,
        r@.session == Some(session@),
{
    proof {
        one_page_is_loaded_again(session@);
    }
    page_command(session, "Page.reload", json::object())
}

/// Acknowledges a frame to the page that sent it; without it no further frame comes.
pub open spec fn acknowledge_view(session: Option<Seq<char>>, number: i64) -> CommandView {
    CommandView {
        method: "Page.screencastFrameAck"@,
        params: with_member(empty_object(), "sessionId"@, whole(number as int)),
        session,
    }
}

/// Acknowledges a frame to the page that sent it; without it no further frame comes.
pub fn acknowledge(session: Option<String>, number: i64) -> (r: Command)
    ensures
        r@ == acknowledge_view(opt_text(session), number),
        r@.method == "Page.screencastFrameAck"@,
        r@.session == opt_text(session),
        member(r@.params, "sessionId"@) == Some(Json::Number(JsonNumber::Whole(number as int))),
{
    let params = json::with(json::object(), "sessionId", json::signed(number));
    Command { method: "Page.screencastFrameAck".to_owned(), params, session }
}

// ---------------------------------------------------------------- laws

/// A window is opened on the address that is asked for, new and as large as the view.
pub proof fn a_window_opens_on_its_address(url: Seq<char>, width: u32, height: u32)
    ensures
        ({
            let c = create_target_view(url, width, height);
            &&& c.method == "Target.createTarget"@
            &&& c.session == None::<Seq<char>>
            &&& member(c.params, "url"@) == Some(Json::Text(url))
            &&& member(c.params, "newWindow"@) == Some(Json::Bool(true))
            &&& member(c.params, "width"@) == Some(Json::Number(JsonNumber::Whole(width as int)))
            &&& member(c.params, "height"@) == Some(Json::Number(JsonNumber::Whole(height as int)))
            &&& has_only(c.params, set!["url"@, "newWindow"@, "width"@, "height"@])
        }),
{
    reveal_strlit("url");
    reveal_strlit("newWindow");
    reveal_strlit("width");
    reveal_strlit("height");
    assert("url"@.len() == 3 && "newWindow"@.len() == 9 && "width"@.len() == 5 && "height"@.len() == 6);
    assert(create_target_view(url, width, height).params->Object_0.dom() =~= set!["url"@, "newWindow"@, "width"@, "height"@]);
}

/// Attaching names the tab, and asks for its page to be spoken to over the same connection.
pub proof fn attaching_names_the_tab(target_id: Seq<char>)
    ensures
        ({
            let c = attach_view(target_id);
            &&& c.method == "Target.attachToTarget"@
            &&& c.session == None::<Seq<char>>
            &&& member(c.params, "targetId"@) == Some(Json::Text(target_id))
            &&& member(c.params, "flatten"@) == Some(Json::Bool(true))
            &&& has_only(c.params, set!["targetId"@, "flatten"@])
        }),
{
    reveal_strlit("targetId");
    reveal_strlit("flatten");
    assert("targetId"@.len() == 8 && "flatten"@.len() == 7);
    assert(attach_view(target_id).params->Object_0.dom() =~= set!["targetId"@, "flatten"@]);
}

/// The browser is asked to report tabs, and not to stop reporting them.
pub proof fn tabs_are_reported()
    ensures
        ({
            let c = discover_view();
            &&& c.method == "Target.setDiscoverTargets"@
            &&& c.session == None::<Seq<char>>
            &&& member(c.params, "discover"@) == Some(Json::Bool(true))
            &&& has_only(c.params, set!["discover"@])
        }),
{
    reveal_strlit("discover");
    assert(discover_view().params->Object_0.dom() =~= set!["discover"@]);
}

/// The tab that is closed is the one that is named.
pub proof fn closing_names_the_tab(target_id: Seq<char>)
    ensures
        ({
            let c = close_target_view(target_id);
            &&& c.method == "Target.closeTarget"@
            &&& c.session == None::<Seq<char>>
            &&& member(c.params, "targetId"@) == Some(Json::Text(target_id))
            &&& has_only(c.params, set!["targetId"@])
        }),
{
    reveal_strlit("targetId");
    assert(close_target_view(target_id).params->Object_0.dom() =~= set!["targetId"@]);
}

/// The events of the page are switched on, in that page.
pub proof fn page_events_are_switched_on(session: Seq<char>)
    ensures
        ({
            let c = enable_page_view(session);
            &&& c.method == "Page.enable"@
            &&& c.session == Some(session)
            &&& has_only(c.params, Set::empty())
        }),
{
    assert(enable_page_view(session).params->Object_0.dom() =~= Set::<Seq<char>>::empty());
}

/// Scripts can be run, in that page.
pub proof fn scripts_are_switched_on(session: Seq<char>)
    ensures
        ({
            let c = enable_runtime_view(session);
            &&& c.method == "Runtime.enable"@
            &&& c.session == Some(session)
            &&& has_only(c.params, Set::empty())
        }),
{
    assert(enable_runtime_view(session).params->Object_0.dom() =~= Set::<Seq<char>>::empty());
}

/// The events of the network are switched on, in that page.
pub proof fn network_events_are_switched_on(session: Seq<char>)
    ensures
        ({
            let c = enable_network_view(session);
            &&& c.method == "Network.enable"@
            &&& c.session == Some(session)
            &&& has_only(c.params, Set::empty())
        }),
{
    assert(enable_network_view(session).params->Object_0.dom() =~= Set::<Seq<char>>::empty());
}

/// The page passes itself off as the browser that is named.
pub proof fn the_agent_is_the_one_named(session: Seq<char>, agent: Seq<char>)
    ensures
        ({
            let c = user_agent_view(session, agent);
            &&& c.method == "Emulation.setUserAgentOverride"@
            &&& c.session == Some(session)
            &&& member(c.params, "userAgent"@) == Some(Json::Text(agent))
            &&& has_only(c.params, set!["userAgent"@])
        }),
{
    reveal_strlit("userAgent");
    assert(user_agent_view(session, agent).params->Object_0.dom() =~= set!["userAgent"@]);
}

/// The page gets a touch screen, which takes five fingers.
pub proof fn the_touch_screen_is_switched_on(session: Seq<char>)
    ensures
        ({
            let c = touch_screen_view(session);
            &&& c.method == "Emulation.setTouchEmulationEnabled"@
            &&& c.session == Some(session)
            &&& member(c.params, "enabled"@) == Some(Json::Bool(true))
            &&& member(c.params, "maxTouchPoints"@) == Some(Json::Number(JsonNumber::Whole(5 as int)))
            &&& has_only(c.params, set!["enabled"@, "maxTouchPoints"@])
        }),
{
    reveal_strlit("enabled");
    reveal_strlit("maxTouchPoints");
    assert("enabled"@.len() == 7 && "maxTouchPoints"@.len() == 14);
    assert(touch_screen_view(session).params->Object_0.dom() =~= set!["enabled"@, "maxTouchPoints"@]);
}

/// The page is laid out for a phone, as wide and as high as the view, with a pixel for a pixel.
pub proof fn the_page_is_as_large_as_the_view(session: Seq<char>, width: u32, height: u32)
    ensures
        ({
            let c = view_size_view(session, width, height);
            &&& c.method == "Emulation.setDeviceMetricsOverride"@
            &&& c.session == Some(session)
            &&& member(c.params, "width"@) == Some(Json::Number(JsonNumber::Whole(width as int)))
            &&& member(c.params, "height"@) == Some(Json::Number(JsonNumber::Whole(height as int)))
            &&& member(c.params, "deviceScaleFactor"@) == Some(Json::Number(JsonNumber::Float(ONE_BITS)))
            &&& member(c.params, "mobile"@) == Some(Json::Bool(true))
            &&& has_only(c.params, set!["width"@, "height"@, "deviceScaleFactor"@, "mobile"@])
        }),
{
    reveal_strlit("width");
    reveal_strlit("height");
    reveal_strlit("deviceScaleFactor");
    reveal_strlit("mobile");
    assert("width"@.len() == 5 && "height"@.len() == 6 && "deviceScaleFactor"@.len() == 17 && "mobile"@.len() == 6);
    assert("height"@[0] == 'h' && "mobile"@[0] == 'm');
    one_is_one();
    assert(view_size_view(session, width, height).params->Object_0.dom() =~= set!["width"@, "height"@, "deviceScaleFactor"@, "mobile"@]);
}

/// What is asked for is how far the document has loaded, as a value.
pub proof fn the_document_is_asked_for_its_state(session: Seq<char>)
    ensures
        ({
            let c = ask_ready_state_view(session);
            &&& c.method == "Runtime.evaluate"@
            &&& c.session == Some(session)
            &&& member(c.params, "expression"@) == Some(Json::Text("document.readyState"@))
            &&& member(c.params, "returnByValue"@) == Some(Json::Bool(true))
            &&& has_only(c.params, set!["expression"@, "returnByValue"@])
        }),
{
    reveal_strlit("expression");
    reveal_strlit("returnByValue");
    assert("expression"@.len() == 10 && "returnByValue"@.len() == 13);
    assert(ask_ready_state_view(session).params->Object_0.dom() =~= set!["expression"@, "returnByValue"@]);
}

/// The page is asked for something that any page can answer.
pub proof fn any_page_can_say_that_it_is_alive(session: Seq<char>)
    ensures
        ({
            let c = ask_alive_view(session);
            &&& c.method == "Runtime.evaluate"@
            &&& c.session == Some(session)
            &&& member(c.params, "expression"@) == Some(Json::Text("1"@))
            &&& has_only(c.params, set!["expression"@])
        }),
{
    reveal_strlit("expression");
    assert(ask_alive_view(session).params->Object_0.dom() =~= set!["expression"@]);
}

/// Frames come as JPEG of the quality that is asked for, each of them, and a page as large as the view fits into one without being scaled.
pub proof fn frames_have_room_for_the_view(session: Seq<char>, quality: u8, width: u32, height: u32)
    ensures
        ({
            let c = start_screencast_view(session, quality, width, height);
            &&& c.method == "Page.startScreencast"@
            &&& c.session == Some(session)
            &&& member(c.params, "format"@) == Some(Json::Text("jpeg"@))
            &&& member(c.params, "quality"@) == Some(Json::Number(JsonNumber::Whole(quality as int)))
            &&& member(c.params, "maxWidth"@) == Some(Json::Number(JsonNumber::Whole(width as int)))
            &&& member(c.params, "maxHeight"@) == Some(Json::Number(JsonNumber::Whole(height as int)))
            &&& member(c.params, "everyNthFrame"@) == Some(Json::Number(JsonNumber::Whole(1 as int)))
            &&& has_only(c.params, set!["format"@, "quality"@, "maxWidth"@, "maxHeight"@, "everyNthFrame"@])
        }),
{
    reveal_strlit("format");
    reveal_strlit("quality");
    reveal_strlit("maxWidth");
    reveal_strlit("maxHeight");
    reveal_strlit("everyNthFrame");
    assert("format"@.len() == 6 && "quality"@.len() == 7 && "maxWidth"@.len() == 8 && "maxHeight"@.len() == 9 && "everyNthFrame"@.len() == 13);
    assert(start_screencast_view(session, quality, width, height).params->Object_0.dom() =~= set!["format"@, "quality"@, "maxWidth"@, "maxHeight"@, "everyNthFrame"@]);
}

/// The frames that are stopped are those of that page.
pub proof fn frames_of_one_page_are_stopped(session: Seq<char>)
    ensures
        ({
            let c = stop_screencast_view(session);
            &&& c.method == "Page.stopScreencast"@
            &&& c.session == Some(session)
            &&& has_only(c.params, Set::empty())
        }),
{
    assert(stop_screencast_view(session).params->Object_0.dom() =~= Set::<Seq<char>>::empty());
}

/// A picture comes as a frame does, as JPEG of the quality that is asked for.
pub proof fn a_picture_is_like_a_frame(session: Seq<char>, quality: u8)
    ensures
        ({
            let c = capture_view(session, quality);
            &&& c.method == "Page.captureScreenshot"@
            &&& c.session == Some(session)
            &&& member(c.params, "format"@) == Some(Json::Text("jpeg"@))
            &&& member(c.params, "quality"@) == Some(Json::Number(JsonNumber::Whole(quality as int)))
            &&& has_only(c.params, set!["format"@, "quality"@])
        }),
{
    reveal_strlit("format");
    reveal_strlit("quality");
    assert("format"@.len() == 6 && "quality"@.len() == 7);
    assert(capture_view(session, quality).params->Object_0.dom() =~= set!["format"@, "quality"@]);
}

/// The page that is loaded again is that page.
pub proof fn one_page_is_loaded_again(session: Seq<char>)
    ensures
        ({
            let c = reload_view(session);
            &&& c.method == "Page.reload"@
            &&& c.session == Some(session)
            &&& has_only(c.params, Set::empty())
        }),
{
    assert(reload_view(session).params->Object_0.dom() =~= Set::<Seq<char>>::empty());
}

/// A frame is acknowledged to the page that sent it, by its own number.
pub proof fn a_frame_is_acknowledged_to_its_page(session: Option<Seq<char>>, number: i64)
    ensures
        ({
            let c = acknowledge_view(session, number);
            &&& c.method == "Page.screencastFrameAck"@
            &&& c.session == session
            &&& member(c.params, "sessionId"@) == Some(Json::Number(JsonNumber::Whole(number as int)))
            &&& has_only(c.params, set!["sessionId"@])
        }),
{
    assert(acknowledge_view(session, number).params->Object_0.dom() =~= set!["sessionId"@]);
}

/// A whole number with a decimal point is that number.
pub proof fn a_pointed_number_is_itself(n: u32)
    ensures
        pointed(n) matches Json::Number(JsonNumber::Float(bits)) && is_finite(bits) && signed_steps(bits) == n * pow2(
            1074,
        ),
{
    lemma2_to64();
    lemma2_to64_rest();
    whole_numbers_have_their_value(n as nat);
}

} // verus!
