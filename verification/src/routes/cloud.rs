//! Cloud game streaming, as callers see it.

use vstd::prelude::*;
use vstd::string::*;

use crate::cloud::browser::profile_name_of;
use crate::cloud::service::{CloudService, Forgetting};
use crate::cloud::target::{all_targets, described, find_target, is_offered, targets, Target, TargetView};
use crate::config::CloudConfig;
use crate::error::{message_of, AppError, AppResult};
use crate::json;
use crate::json::{empty_object, has_only, held, json_text, member, with_member, Json, JsonNumber};

verus! {

/// A site on offer.
#[derive(Debug)]
pub struct TargetInfo {
    pub name: &'static str,
    pub title: &'static str,
    /// Whether a session of it is running.
    pub running: bool,
}

/// The sites on offer.
#[derive(Debug)]
pub struct CloudList {
    /// Whether there is streaming.
    pub available: bool,
    /// The size of the view.
    pub width: u32,
    pub height: u32,
    pub targets: Vec<TargetInfo>,
}

/// Whether a session of this site is known to run: while the sessions are being
/// changed by someone else, none is.
pub open spec fn seems_running<S>(service: Option<&CloudService<S>>, name: Seq<char>) -> bool {
    match service {
        Some(s) => s.running().dom().contains(name),
        None => false,
    }
}

/// Whether this is the entry of a site in the list.
pub open spec fn is_entry<S>(info: TargetInfo, t: TargetView, service: Option<&CloudService<S>>) -> bool {
    info.name@ == t.name && info.title@ == t.title && info.running == seems_running(service, t.name)
}

/// Lists the sites on offer. `service` is missing while someone else is changing it: a
/// list does not wait for that.
pub fn list<S>(config: &CloudConfig, service: Option<&CloudService<S>>) -> (r: CloudList)
    ensures
        r.available == (config.browser_exe is Some),
        r.width == config.max_width,
        r.height == config.max_height,
        r.targets@.len() == all_targets().len(),
        forall|i: int|
            0 <= i < r.targets@.len() ==> #[trigger] is_entry(r.targets@[i], all_targets()[i], service),
{
    let all = targets();
    let mut infos: Vec<TargetInfo> = Vec::new();
    let mut i: usize = 0;
    assert(described(all@).len() == all@.len());
    while i < all.len()
        invariant
            described(all@) == all_targets(),
            i <= all@.len(),
            infos@.len() == i,
            forall|j: int| 0 <= j < i ==> #[trigger] is_entry(infos@[j], all_targets()[j], service),
        decreases all@.len() - i,
    {
        let t = all[i];
        assert(described(all@)[i as int] == t@);
        let running = match service {
            Some(s) => s.is_running(t.name),
            None => false,
        };
        infos.push(TargetInfo { name: t.name, title: t.title, running });
        assert(is_entry(infos@[i as int], all_targets()[i as int], service));
        i += 1;
    }
    CloudList { available: config.enabled(), width: config.max_width, height: config.max_height, targets: infos }
}

/// Whether an error says that there is no such site.
pub open spec fn is_unknown_site(e: AppError, name: Seq<char>) -> bool {
    e matches AppError::NotFound(what) && what@ == "云游戏 "@ + name
}

fn offered(name: &str) -> (r: AppResult<Target>)
    ensures
        match r {
            Ok(t) => is_offered(name@) && t@.name == name@ && all_targets().contains(t@),
            Err(e) => !is_offered(name@) && is_unknown_site(e, name@),
        },
{
    match find_target(name) {
        Some(t) => Ok(t),
        None => Err(AppError::NotFound("云游戏 ".to_owned().concat(name))),
    }
}

/// Takes the session of a site out, for the caller to stop; its login stays.
pub fn stop<S>(service: &mut CloudService<S>, target: &str) -> (r: AppResult<Option<S>>)
    requires
        old(service).is_orderly(),
    ensures
        final(service).is_orderly(),
        final(service).set_up() == old(service).set_up(),
        final(service).starts() == old(service).starts(),
        match r {
            Ok(taken) => {
                &&& is_offered(target@)
                &&& final(service).running() == old(service).running().remove(target@)
                &&& taken is Some == old(service).running().dom().contains(target@)
                &&& taken matches Some(s) ==> s == old(service).running()[target@]
            },
            Err(e) => {
                &&& !is_offered(target@)
                &&& is_unknown_site(e, target@)
                &&& final(service).running() == old(service).running()
            },
        },
{
    let t = offered(target)?;
    Ok(service.close(t.name))
}

/// The answer to a request to stop a session.
pub fn stop_reply(closed: bool) -> (r: serde_json::Value)
    ensures
        held(r) == with_member(empty_object(), "closed"@, Json::Bool(closed)),
{
    json::with(json::object(), "closed", json::flag(closed))
}

/// Takes the session of a site out, and says what is left to do to forget its login.
pub fn forget<S>(service: &mut CloudService<S>, target: &str) -> (r: AppResult<Forgetting<S>>)
    requires
        old(service).is_orderly(),
    ensures
        final(service).is_orderly(),
        final(service).set_up() == old(service).set_up(),
        final(service).starts() == old(service).starts(),
        match r {
            Ok(left) => {
                &&& is_offered(target@)
                &&& final(service).running() == old(service).running().remove(target@)
                &&& match left {
                    Forgetting::Stop(s) => {
                        &&& old(service).running().dom().contains(target@)
                        &&& s == old(service).running()[target@]
                    },
                    Forgetting::Remove(dir) => {
                        &&& !old(service).running().dom().contains(target@)
                        &&& dir@ == profile_name_of(target@)
                    },
                }
            },
            Err(e) => {
                &&& !is_offered(target@)
                &&& is_unknown_site(e, target@)
                &&& final(service).running() == old(service).running()
            },
        },
{
    let t = offered(target)?;
    Ok(service.forget(t.name))
}

/// The answer to a request to forget a login.
pub fn forget_reply() -> (r: serde_json::Value)
    ensures
        held(r) == with_member(empty_object(), "forgotten"@, Json::Bool(true)),
{
    json::with(json::object(), "forgotten", json::flag(true))
}

/// The site to stream to someone who connects.
pub fn ws(config: &CloudConfig, target: &str) -> (r: AppResult<Target>)
    ensures
        match r {
            Ok(t) => {
                &&& is_offered(target@)
                &&& config.browser_exe is Some
                &&& t@.name == target@
                &&& all_targets().contains(t@)
            },
            Err(e) => {
                ||| !is_offered(target@) && is_unknown_site(e, target@)
                ||| is_offered(target@) && config.browser_exe is None && (e matches AppError::NotImplemented(what)
                    && what@ == "云游戏串流（没找到 Edge 或 Chrome，或用 SPEAKLAB_BROWSER 指定路径）"@)
            },
        },
{
    let t = offered(target)?;
    if !config.enabled() {
        return Err(
            AppError::NotImplemented(
                "云游戏串流（没找到 Edge 或 Chrome，或用 SPEAKLAB_BROWSER 指定路径）".to_owned(),
            ),
        );
    }
    Ok(t)
}

/// What someone is told whose session could not be started.
pub fn start_failed(e: &AppError) -> (r: String)
    ensures
        r@ == json_text(
            with_member(
                with_member(empty_object(), "type"@, Json::Text("error"@)),
                "message"@,
                Json::Text(message_of(*e)),
            ),
        ),
{
    let message = e.message();
    let reply = json::with(json::object(), "type", json::text("error"));
    let reply = json::with(reply, "message", json::text(message.as_str()));
    json::render(&reply)
}

/// What someone is told first whose session is up.
pub open spec fn greeting(t: TargetView, width: u32, height: u32) -> Json {
    let j = with_member(empty_object(), "type"@, Json::Text("ready"@));
    let j = with_member(j, "target"@, Json::Text(t.name));
    let j = with_member(j, "title"@, Json::Text(t.title));
    let j = with_member(j, "width"@, Json::Number(JsonNumber::Whole(width as int)));
    with_member(j, "height"@, Json::Number(JsonNumber::Whole(height as int)))
}

/// What someone is told first whose session is up, `size` being that of its view.
pub fn started(target: &Target, size: (u32, u32)) -> (r: String)
    ensures
        r@ == json_text(greeting(target@, size.0, size.1)),
{
    let reply = json::with(json::object(), "type", json::text("ready"));
    let reply = json::with(reply, "target", json::text(target.name));
    let reply = json::with(reply, "title", json::text(target.title));
    let reply = json::with(reply, "width", json::unsigned(size.0 as u64));
    let reply = json::with(reply, "height", json::unsigned(size.1 as u64));
    json::render(&reply)
}

/// Who is greeted is told which site it is, under which title, and how wide and how high
/// the view is.
pub proof fn a_greeting_tells_the_size(t: TargetView, width: u32, height: u32)
    ensures
        ({
            let j = greeting(t, width, height);
            &&& member(j, "type"@) == Some(Json::Text("ready"@))
            &&& member(j, "target"@) == Some(Json::Text(t.name))
            &&& member(j, "title"@) == Some(Json::Text(t.title))
            &&& member(j, "width"@) == Some(Json::Number(JsonNumber::Whole(width as int)))
            &&& member(j, "height"@) == Some(Json::Number(JsonNumber::Whole(height as int)))
            &&& has_only(j, set!["type"@, "target"@, "title"@, "width"@, "height"@])
        }),
{
    reveal_strlit("type");
    reveal_strlit("target");
    reveal_strlit("title");
    reveal_strlit("width");
    reveal_strlit("height");
    assert("type"@.len() == 4 && "target"@.len() == 6 && "title"@.len() == 5 && "width"@.len() == 5 && "height"@.len() == 6);
    assert("title"@[0] == 't' && "width"@[0] == 'w');
    assert("target"@[0] == 't' && "height"@[0] == 'h');
    assert(greeting(t, width, height)->Object_0.dom() =~= set!["type"@, "target"@, "title"@, "width"@, "height"@]);
}

} // verus!
