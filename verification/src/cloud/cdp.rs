//! The browser's debugging protocol: the messages that go out, what the ones
//! that come in mean, and which calls are still waiting for their reply.

use std::collections::HashMap;

use vstd::prelude::*;
use vstd::std_specs::hash::*;
use vstd::string::*;
use vstd::utf8::*;

use crate::error::{AppError, AppResult};
use crate::json;
use crate::json::{empty_object, has_only, held, integer_in, json_in, json_text, member, text_under, with_member, Json, JsonNumber};

verus! {

// ---------------------------------------------------------------- going out

/// A command for the browser: the method, its parameters, and the page session
/// that it is for.
pub struct Command {
    pub method: String,
    pub params: serde_json::Value,
    pub session: Option<String>,
}

/// What a command says.
#[verifier::ext_equal]
pub struct CommandView {
    pub method: Seq<char>,
    pub params: Json,
    pub session: Option<Seq<char>>,
}

/// The text in an optional string.
pub open spec fn opt_text(s: Option<String>) -> Option<Seq<char>> {
    match s {
        Some(t) => Some(t@),
        None => None,
    }
}

impl View for Command {
    type V = CommandView;

    open spec fn view(&self) -> CommandView {
        CommandView { method: self.method@, params: held(self.params), session: opt_text(self.session) }
    }
}

/// The message that carries a command under the number `id`.
pub open spec fn call_json(id: u64, c: CommandView) -> Json {
    let numbered = with_member(empty_object(), "id"@, Json::Number(JsonNumber::Whole(id as int)));
    let named = with_member(numbered, "method"@, Json::Text(c.method));
    let full = with_member(named, "params"@, c.params);
    match c.session {
        Some(s) => with_member(full, "sessionId"@, Json::Text(s)),
        None => full,
    }
}

/// Writes a command as the message to send under the number `id`.
pub fn call_message(id: u64, command: Command) -> (r: String)
    ensures
        r@ == json_text(call_json(id, command@)),
{
    let numbered = json::with(json::object(), "id", json::unsigned(id));
    let named = json::with(numbered, "method", json::text(command.method.as_str()));
    let full = json::with(named, "params", command.params);
    let message = match command.session {
        Some(s) => json::with(full, "sessionId", json::text(s.as_str())),
        None => full,
    };
    json::render(&message)
}

// ---------------------------------------------------------------- coming in

/// What arrives on the socket.
pub enum WireFrame {
    Text(String),
    Binary(Vec<u8>),
    Close,
    Other,
}

/// What to do with what arrived.
#[derive(Debug)]
pub enum WireStep {
    /// Read this message.
    Read(String),
    /// Nothing to read; wait for the next.
    Skip,
    /// The connection is over.
    Stop,
}

/// `String::from_utf8`: the text that the bytes encode, where they are valid UTF-8.
#[verifier::external_body]
fn utf8_text(bytes: Vec<u8>) -> (r: Option<String>)
    ensures
        r is Some == valid_utf8(bytes@),
        r matches Some(s) ==> s@ == decode_utf8(bytes@),
{
    String::from_utf8(bytes).ok()
}

/// Takes the message out of a frame: text as it is, bytes if they are UTF-8.
pub fn open_frame(frame: WireFrame) -> (r: WireStep)
    ensures
        match frame {
            WireFrame::Text(t) => r matches WireStep::Read(s) && s@ == t@,
            WireFrame::Binary(b) => if valid_utf8(b@) {
                r matches WireStep::Read(s) && s@ == decode_utf8(b@)
            } else {
                r is Skip
            },
            WireFrame::Close => r is Stop,
            WireFrame::Other => r is Skip,
        },
{
    match frame {
        WireFrame::Text(t) => WireStep::Read(t),
        WireFrame::Binary(b) => match utf8_text(b) {
            Some(s) => WireStep::Read(s),
            None => WireStep::Skip,
        },
        WireFrame::Close => WireStep::Stop,
        WireFrame::Other => WireStep::Skip,
    }
}

/// Something that happened in the browser.
pub struct Event {
    pub method: String,
    pub params: serde_json::Value,
    /// The page session that it comes from, if it names one.
    pub session_id: Option<String>,
}

/// What an event says.
#[verifier::ext_equal]
pub struct EventView {
    pub method: Seq<char>,
    pub params: Json,
    pub session_id: Option<Seq<char>>,
}

impl View for Event {
    type V = EventView;

    open spec fn view(&self) -> EventView {
        EventView { method: self.method@, params: held(self.params), session_id: opt_text(self.session_id) }
    }
}

/// What a message from the browser is.
pub enum Incoming {
    /// The reply to the call with this number.
    Reply { id: u64, body: serde_json::Value },
    Event(Event),
    /// Nothing that means anything here.
    Ignored,
}

/// The number of the call that a message replies to.
pub open spec fn reply_id(j: Json) -> Option<u64> {
    match member(j, "id"@) {
        Some(m) => match integer_in(m) {
            Some(n) if 0 <= n <= u64::MAX => Some(n as u64),
            _ => None,
        },
        None => None,
    }
}

/// The event that a message without a call number reports.
pub open spec fn event_in(j: Json) -> EventView {
    EventView {
        method: text_under(j, "method"@)->0,
        params: match member(j, "params"@) {
            Some(p) => p,
            None => Json::Null,
        },
        session_id: text_under(j, "sessionId"@),
    }
}

/// Reads a message: a number makes it a reply, else a method makes it an event.
/// What is not JSON, or is neither, is ignored.
pub fn read_message(text: &str) -> (r: Incoming)
    ensures
        match json_in(text@) {
            None => r is Ignored,
            Some(j) => if reply_id(j) is Some {
                r matches Incoming::Reply { id, body } && id == reply_id(j)->0 && held(body) == j
            } else if text_under(j, "method"@) is Some {
                r matches Incoming::Event(ev) && ev@ == event_in(j)
            } else {
                r is Ignored
            },
        },
{
    let v = match json::parse(text) {
        Some(v) => v,
        None => return Incoming::Ignored,
    };
    let id = match json::get(&v, "id") {
        Some(m) => json::as_u64(m),
        None => None,
    };
    if let Some(id) = id {
        return Incoming::Reply { id, body: v };
    }
    let method = match json::text_at(&v, "method") {
        Some(m) => m.to_owned(),
        None => return Incoming::Ignored,
    };
    let params = match json::get(&v, "params") {
        Some(p) => json::copy(p),
        None => json::null(),
    };
    let session_id = match json::text_at(&v, "sessionId") {
        Some(s) => Some(s.to_owned()),
        None => None,
    };
    Incoming::Event(Event { method, params, session_id })
}

/// What became of a call.
pub enum CallOutcome {
    /// It could not be handed to the socket any more.
    NotSent,
    /// No reply came in time.
    TimedOut,
    /// The connection went away before the reply.
    Dropped,
    /// This came back. A null stands for a connection that was lost.
    Reply(serde_json::Value),
}

/// The words in which the browser refuses a call, if a reply does so.
pub open spec fn refusal_in(reply: Json) -> Option<Seq<char>> {
    match member(reply, "error"@) {
        Some(err) => Some(
            match text_under(err, "message"@) {
                Some(m) => m,
                None => "未知错误"@,
            },
        ),
        None => None,
    }
}

/// What a reply that refuses nothing brings: its result, or null.
pub open spec fn result_in(reply: Json) -> Json {
    match member(reply, "result"@) {
        Some(v) => v,
        None => Json::Null,
    }
}

/// Whether `e` is an internal error with this detail.
pub open spec fn is_internal(e: AppError, detail: Seq<char>) -> bool {
    e matches AppError::Internal(d) && d@ == detail
}

/// What the caller of `method` gets for the outcome of the call. A refusal by the
/// browser is an upstream error with its words; the rest are internal errors.
pub fn call_result(method: &str, outcome: CallOutcome) -> (r: AppResult<serde_json::Value>)
    ensures
        match outcome {
            CallOutcome::NotSent => r matches Err(e) && is_internal(e, "CDP 连接已关闭"@),
            CallOutcome::TimedOut => r matches Err(e) && is_internal(e, "CDP 命令 "@ + method@ + " 超时"@),
            CallOutcome::Dropped => r matches Err(e) && is_internal(e, "CDP 连接在等待 "@ + method@ + " 时断开"@),
            CallOutcome::Reply(v) => if held(v) is Null {
                r matches Err(e) && is_internal(e, "CDP 连接在等待 "@ + method@ + " 时断开"@)
            } else {
                match refusal_in(held(v)) {
                    Some(why) => r matches Err(AppError::Upstream(s)) && s@ == "CDP "@ + method@ + " 被浏览器拒绝："@ + why,
                    None => r matches Ok(x) && held(x) == result_in(held(v)),
                }
            },
        },
{
    match outcome {
        CallOutcome::NotSent => Err(AppError::Internal("CDP 连接已关闭".to_owned())),
        CallOutcome::TimedOut => Err(
            AppError::Internal("CDP 命令 ".to_owned().concat(method).concat(" 超时")),
        ),
        CallOutcome::Dropped => Err(
            AppError::Internal("CDP 连接在等待 ".to_owned().concat(method).concat(" 时断开")),
        ),
        CallOutcome::Reply(v) => {
            if json::is_null(&v) {
                return Err(
                    AppError::Internal("CDP 连接在等待 ".to_owned().concat(method).concat(" 时断开")),
                );
            }
            if let Some(err) = json::get(&v, "error") {
                let why = match json::text_at(err, "message") {
                    Some(m) => m,
                    None => "未知错误",
                };
                return Err(
                    AppError::Upstream(
                        "CDP ".to_owned().concat(method).concat(" 被浏览器拒绝：").concat(why),
                    ),
                );
            }
            Ok(
                match json::get(&v, "result") {
                    Some(x) => json::copy(x),
                    None => json::null(),
                },
            )
        },
    }
}

// ---------------------------------------------------------------- calls under way

/// The calls that wait for their reply, each with whom to wake. Numbers are given
/// out in turn.
pub struct Calls<W> {
    waiting: HashMap<u64, W>,
    next_id: u64,
}

impl<W> Calls<W> {
    /// The calls that wait.
    pub closed spec fn waiting(self) -> Map<u64, W> {
        self.waiting@
    }

    /// The number that the next call gets.
    pub closed spec fn next_id(self) -> u64 {
        self.next_id
    }

    /// Whether no number that is still to be given out is waiting already. Holds
    /// until the numbers have gone round once.
    pub open spec fn is_orderly(self) -> bool {
        forall|id: u64| #[trigger] self.waiting().dom().contains(id) ==> id < self.next_id()
    }

    /// No call yet; the first gets the number 1.
    pub fn new() -> (r: Self)
        ensures
            r.waiting() == Map::<u64, W>::empty(),
            r.next_id() == 1,
            r.is_orderly(),
    {
        Calls { waiting: HashMap::new(), next_id: 1 }
    }

    /// Gives the next number to a call and keeps whom to wake for it.
    pub fn open(&mut self, waiter: W) -> (id: u64)
        ensures
            id == old(self).next_id(),
            final(self).waiting() == old(self).waiting().insert(id, waiter),
            final(self).next_id() == (if id == u64::MAX {
                0
            } else {
                (id + 1) as u64
            }),
            old(self).is_orderly() && id < u64::MAX ==> {
                &&& final(self).is_orderly()
                &&& !old(self).waiting().dom().contains(id)
            },
    {
        broadcast use vstd::std_specs::hash::group_hash_axioms;

        let id = self.next_id;
        self.next_id = id.wrapping_add(1);
        self.waiting.insert(id, waiter);
        assert forall|k: u64|
            old(self).is_orderly() && id < u64::MAX && #[trigger] self.waiting().dom().contains(k) implies k
            < self.next_id() by {
            assert(k != id ==> old(self).waiting().dom().contains(k));
        }
        id
    }

    /// Takes out whom to wake for the reply to `id`, if somebody waits for it.
    pub fn settle(&mut self, id: u64) -> (r: Option<W>)
        ensures
            final(self).waiting() == old(self).waiting().remove(id),
            final(self).next_id() == old(self).next_id(),
            r == (if old(self).waiting().dom().contains(id) {
                Some(old(self).waiting()[id])
            } else {
                None
            }),
            old(self).is_orderly() ==> final(self).is_orderly(),
    {
        broadcast use vstd::std_specs::hash::group_hash_axioms;

        let r = self.waiting.remove(&id);
        assert(!old(self).waiting@.dom().contains(id) ==> self.waiting@ =~= old(self).waiting@.remove(id));
        r
    }

    /// Takes out everybody who waits: the connection is gone.
    pub fn abandon(&mut self) -> (r: HashMap<u64, W>)
        ensures
            r@ == old(self).waiting(),
            final(self).waiting() == Map::<u64, W>::empty(),
            final(self).next_id() == old(self).next_id(),
            final(self).is_orderly(),
    {
        let mut taken: HashMap<u64, W> = HashMap::new();
        core::mem::swap(&mut taken, &mut self.waiting);
        taken
    }
}

/// A call that was opened while the numbers are in order and then settled by its
/// number wakes the one who made it, and leaves the other calls as they were.
pub proof fn reply_finds_its_caller<W>(before: Calls<W>, opened: Calls<W>, settled: Calls<W>, id: u64, waiter: W, woken: Option<W>)
    requires
        before.is_orderly(),
        id == before.next_id(),
        opened.waiting() == before.waiting().insert(id, waiter),
        settled.waiting() == opened.waiting().remove(id),
        woken == (if opened.waiting().dom().contains(id) {
            Some(opened.waiting()[id])
        } else {
            None
        }),
    ensures
        woken == Some(waiter),
        settled.waiting() == before.waiting(),
{
    assert(!before.waiting().dom().contains(id));
    assert(settled.waiting() =~= before.waiting());
}

/// A call says which number it has, what is asked, with which parameters, and of which
/// page if of one.
pub proof fn a_call_says_what_it_asks(id: u64, c: CommandView)
    ensures
        ({
            let j = call_json(id, c);
            &&& member(j, "id"@) == Some(Json::Number(JsonNumber::Whole(id as int)))
            &&& member(j, "method"@) == Some(Json::Text(c.method))
            &&& member(j, "params"@) == Some(c.params)
            &&& c.session matches Some(s) ==> member(j, "sessionId"@) == Some(Json::Text(s)) && has_only(
                j,
                set!["id"@, "method"@, "params"@, "sessionId"@],
            )
            &&& c.session is None ==> has_only(j, set!["id"@, "method"@, "params"@])
        }),
{
    reveal_strlit("id");
    reveal_strlit("method");
    reveal_strlit("params");
    reveal_strlit("sessionId");
    assert("id"@.len() == 2 && "method"@.len() == 6 && "params"@.len() == 6 && "sessionId"@.len() == 9);
    assert("method"@[0] == 'm' && "params"@[0] == 'p');
    let keys = call_json(id, c)->Object_0.dom();
    if c.session is Some {
        assert(keys =~= set!["id"@, "method"@, "params"@, "sessionId"@]);
    } else {
        assert(keys =~= set!["id"@, "method"@, "params"@]);
    }
}

/// A message is a reply exactly if it has a number that a call can have, which is then
/// the number of the call.
pub proof fn a_reply_is_known_by_its_number(j: Json, id: u64)
    ensures
        (reply_id(j) == Some(id)) == (member(j, "id"@) == Some(Json::Number(JsonNumber::Whole(id as int)))),
{
}

/// An event is what the message says: its method, its parameters, and the page it is of.
pub proof fn an_event_is_what_the_message_says(j: Json)
    ensures
        text_under(j, "method"@) matches Some(m) ==> event_in(j).method == m,
        member(j, "params"@) matches Some(p) ==> event_in(j).params == p,
        member(j, "params"@) is None ==> event_in(j).params is Null,
        event_in(j).session_id == text_under(j, "sessionId"@),
{
}

/// A reply with an error refuses the call, in the words of the error; one without brings
/// its result.
pub proof fn a_reply_refuses_or_brings_a_result(reply: Json)
    ensures
        refusal_in(reply) is Some == (member(reply, "error"@) is Some),
        member(reply, "error"@) matches Some(e) ==> (text_under(e, "message"@) matches Some(m) ==> refusal_in(reply)
            == Some(m)),
        member(reply, "error"@) matches Some(e) ==> (text_under(e, "message"@) is None ==> refusal_in(reply) == Some(
            "未知错误"@,
        )),
        member(reply, "result"@) matches Some(v) ==> result_in(reply) == v,
        member(reply, "result"@) is None ==> result_in(reply) is Null,
{
}

/// Commands and events are known by all that they hold.
pub proof fn commands_and_events_are_known_whole(c: Command, ev: Event)
    ensures
        c@.method == c.method@,
        c@.params == held(c.params),
        c.session is Some == c@.session is Some,
        c.session matches Some(s) ==> c@.session == Some(s@),
        ev@.method == ev.method@,
        ev@.params == held(ev.params),
        ev.session_id is Some == ev@.session_id is Some,
        ev.session_id matches Some(s) ==> ev@.session_id == Some(s@),
{
}

} // verus!
