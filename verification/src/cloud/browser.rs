//! The browser behind a session: where it is found, how it is started, and when
//! it counts as up.

use vstd::prelude::*;
use vstd::string::*;

use crate::error::{AppError, AppResult};
use crate::json;
use crate::json::{held, text_under, Json};
use crate::text::{all_text, all_words, decimal, decimal_text};

verus! {

// ---------------------------------------------------------------- where it is

/// Where a browser may be, the preferred places first.
pub open spec fn usual_places() -> Seq<Seq<char>> {
    seq![
        "C:\\Program Files (x86)\\Microsoft\\Edge\\Application\\msedge.exe"@,
        "C:\\Program Files\\Microsoft\\Edge\\Application\\msedge.exe"@,
        "C:\\Program Files\\Google\\Chrome\\Application\\chrome.exe"@,
        "C:\\Program Files (x86)\\Google\\Chrome\\Application\\chrome.exe"@,
        "/usr/bin/microsoft-edge"@,
        "/usr/bin/google-chrome"@,
        "/usr/bin/chromium"@,
        "/Applications/Google Chrome.app/Contents/MacOS/Google Chrome"@,
        "/Applications/Microsoft Edge.app/Contents/MacOS/Microsoft Edge"@,
    ]
}

fn places() -> (r: Vec<&'static str>)
    ensures
        all_words(r@) == usual_places(),
{
    let mut r: Vec<&'static str> = Vec::new();
    r.push("C:\\Program Files (x86)\\Microsoft\\Edge\\Application\\msedge.exe");
    r.push("C:\\Program Files\\Microsoft\\Edge\\Application\\msedge.exe");
    r.push("C:\\Program Files\\Google\\Chrome\\Application\\chrome.exe");
    r.push("C:\\Program Files (x86)\\Google\\Chrome\\Application\\chrome.exe");
    r.push("/usr/bin/microsoft-edge");
    r.push("/usr/bin/google-chrome");
    r.push("/usr/bin/chromium");
    r.push("/Applications/Google Chrome.app/Contents/MacOS/Google Chrome");
    r.push("/Applications/Microsoft Edge.app/Contents/MacOS/Microsoft Edge");
    assert(all_words(r@) =~= usual_places());
    r
}

/// Whether `is_there` may answer `there` when asked about `path`.
pub open spec fn answers<F: Fn(&'static str) -> bool>(is_there: F, path: Seq<char>, there: bool) -> bool {
    exists|s: &'static str| s@ == path && #[trigger] call_ensures(is_there, (s,), there)
}

/// Whether a browser is found at the `i`-th of the usual places and at none before it.
pub open spec fn is_first_found<F: Fn(&'static str) -> bool>(is_there: F, i: int) -> bool {
    &&& answers(is_there, usual_places()[i], true)
    &&& forall|j: int| 0 <= j < i ==> answers(is_there, #[trigger] usual_places()[j], false)
}

/// The first of the usual places at which a browser is found. `is_there` tells whether
/// there is a file at a path.
pub fn find_browser<F: Fn(&'static str) -> bool>(is_there: F) -> (r: Option<&'static str>)
    requires
        forall|s: &'static str| #[trigger] call_requires(is_there, (s,)),
    ensures
        r matches Some(p) ==> exists|i: int|
            0 <= i < usual_places().len() && p@ == usual_places()[i] && #[trigger] is_first_found(is_there, i),
        r is None ==> forall|j: int|
            0 <= j < usual_places().len() ==> answers(is_there, #[trigger] usual_places()[j], false),
{
    let all = places();
    let mut i: usize = 0;
    while i < all.len()
        invariant
            forall|s: &'static str| #[trigger] call_requires(is_there, (s,)),
            all_words(all@) == usual_places(),
            i <= all@.len(),
            forall|j: int| 0 <= j < i ==> answers(is_there, #[trigger] usual_places()[j], false),
        decreases all@.len() - i,
    {
        let p = all[i];
        assert(all_words(all@)[i as int] == p@);
        if is_there(p) {
            assert(is_first_found(is_there, i as int));
            return Some(p);
        }
        i += 1;
    }
    assert(usual_places().len() == all@.len());
    None
}

// ---------------------------------------------------------------- starting it

/// The name of the directory that keeps what the browser remembers of a site. It
/// goes by the site alone, so that a login outlives the session.
pub open spec fn profile_name_of(slot: Seq<char>) -> Seq<char> {
    "profile-"@ + slot
}

/// The name of the directory that keeps what the browser remembers of a site.
pub fn profile_name(slot: &str) -> (r: String)
    ensures
        r@ == profile_name_of(slot@),
{
    "profile-".to_owned().concat(slot)
}

/// Two sites never share a directory.
pub proof fn profiles_are_apart(a: Seq<char>, b: Seq<char>)
    requires
        profile_name_of(a) == profile_name_of(b),
    ensures
        a == b,
{
    let n = "profile-"@.len() as int;
    let whole = profile_name_of(a);
    assert(whole.len() == n + a.len() && whole.len() == n + b.len());
    assert(a =~= whole.skip(n));
    assert(b =~= whole.skip(n));
}

/// The arguments that a browser is started with.
pub open spec fn arguments(port: u16, profile_dir: Seq<char>, width: u32, height: u32) -> Seq<Seq<char>> {
    seq![
        "--remote-debugging-port="@ + decimal(port as nat),
        "--user-data-dir="@ + profile_dir,
        "--headless=new"@,
        "--window-size="@ + decimal(width as nat) + ","@ + decimal(height as nat),
        "--no-first-run"@,
        "--no-default-browser-check"@,
        "--disable-features=Translate,MediaRouter"@,
        "--autoplay-policy=no-user-gesture-required"@,
        "--enable-features=WebRTC-H264WithOpenH264FFmpeg"@,
        "--hide-crash-restore-bubble"@,
        "about:blank"@,
    ]
}

/// The arguments to start the browser with, if there is a browser. `found` says
/// whether there is a file at `exe`.
pub fn launch(exe: &str, found: bool, port: u16, profile_dir: &str, width: u32, height: u32) -> (r: AppResult<Vec<String>>)
    ensures
        found ==> (r matches Ok(a) && all_text(a@) == arguments(port, profile_dir@, width, height)),
        !found ==> (r matches Err(AppError::NotImplemented(what)) && what@ == "浏览器（找不到 "@ + exe@ + "）"@),
{
    if !found {
        return Err(AppError::NotImplemented("浏览器（找不到 ".to_owned().concat(exe).concat("）")));
    }
    let port_shown = decimal_text(port as u64);
    let width_shown = decimal_text(width as u64);
    let height_shown = decimal_text(height as u64);
    let mut a: Vec<String> = Vec::new();
    a.push("--remote-debugging-port=".to_owned().concat(port_shown.as_str()));
    a.push("--user-data-dir=".to_owned().concat(profile_dir));
    a.push("--headless=new".to_owned());
    a.push("--window-size=".to_owned().concat(width_shown.as_str()).concat(",").concat(height_shown.as_str()));
    a.push("--no-first-run".to_owned());
    a.push("--no-default-browser-check".to_owned());
    a.push("--disable-features=Translate,MediaRouter".to_owned());
    a.push("--autoplay-policy=no-user-gesture-required".to_owned());
    a.push("--enable-features=WebRTC-H264WithOpenH264FFmpeg".to_owned());
    a.push("--hide-crash-restore-bubble".to_owned());
    a.push("about:blank".to_owned());
    assert(all_text(a@) =~= arguments(port, profile_dir@, width, height));
    Ok(a)
}

/// What can go wrong around the browser, each with what the system said.
#[derive(Debug)]
pub enum BrowserFault {
    NoProfile(String),
    NotStarted(String),
    NoClient(String),
    NotReached { url: String, why: String },
    ProfileStays(String),
}

impl BrowserFault {
    /// The fault in words.
    pub open spec fn words(self) -> Seq<char> {
        match self {
            BrowserFault::NoProfile(e) => "建不了浏览器配置目录："@ + e@,
            BrowserFault::NotStarted(e) => "启动浏览器失败："@ + e@,
            BrowserFault::NoClient(e) => "建 HTTP 客户端失败："@ + e@,
            BrowserFault::NotReached { url, why } => "连不上浏览器调试端口 "@ + url@ + "："@ + why@,
            BrowserFault::ProfileStays(e) => "删配置目录失败："@ + e@,
        }
    }

    /// The error that the fault is reported as.
    pub fn error(self) -> (r: AppError)
        ensures
            r matches AppError::Internal(why) && why@ == self.words(),
    {
        let why = match self {
            BrowserFault::NoProfile(e) => "建不了浏览器配置目录：".to_owned().concat(e.as_str()),
            BrowserFault::NotStarted(e) => "启动浏览器失败：".to_owned().concat(e.as_str()),
            BrowserFault::NoClient(e) => "建 HTTP 客户端失败：".to_owned().concat(e.as_str()),
            BrowserFault::NotReached { url, why } => "连不上浏览器调试端口 ".to_owned().concat(url.as_str()).concat(
                "：",
            ).concat(why.as_str()),
            BrowserFault::ProfileStays(e) => "删配置目录失败：".to_owned().concat(e.as_str()),
        };
        AppError::Internal(why)
    }
}

// ---------------------------------------------------------------- waiting for it

/// How long a browser may take to open its debugging port, in milliseconds.
pub const DEVTOOLS_PATIENCE: u64 = 15_000;

/// The wait for a browser to open its debugging port.
pub struct DevtoolsWait {
    pub port: u16,
    /// Why it has not succeeded yet.
    pub last_error: String,
}

/// Where a browser tells how to reach it.
pub open spec fn version_address(port: u16) -> Seq<char> {
    "http://127.0.0.1:"@ + decimal(port as nat) + "/json/version"@
}

/// The address of the debugging socket in an answer of the browser.
pub open spec fn socket_in(answer: Json) -> Option<Seq<char>> {
    text_under(answer, "webSocketDebuggerUrl"@)
}

impl DevtoolsWait {
    /// Begins to wait.
    pub fn new(port: u16) -> (r: DevtoolsWait)
        ensures
            r.port == port,
            r.last_error@ == "未知"@,
    {
        DevtoolsWait { port, last_error: "未知".to_owned() }
    }

    /// The address to ask.
    pub fn url(&self) -> (r: String)
        ensures
            r@ == version_address(self.port),
    {
        let shown = decimal_text(self.port as u64);
        "http://127.0.0.1:".to_owned().concat(shown.as_str()).concat("/json/version")
    }

    /// Whether to ask (again), `waited` milliseconds after the start.
    pub fn goes_on(&self, waited: u64) -> (r: bool)
        ensures
            r == (waited < DEVTOOLS_PATIENCE),
    {
        waited < DEVTOOLS_PATIENCE
    }

    /// Takes in an answer: the address of the debugging socket if it holds one, and
    /// otherwise the reason to report should no better answer come.
    pub fn heard(&mut self, answer: Result<serde_json::Value, String>) -> (r: Option<String>)
        ensures
            final(self).port == old(self).port,
            match answer {
                Ok(v) => match socket_in(held(v)) {
                    Some(address) => {
                        &&& r matches Some(a)
                        &&& a@ == address
                        &&& final(self).last_error@ == old(self).last_error@
                    },
                    None => r is None && final(self).last_error@ == "响应里没有 webSocketDebuggerUrl"@,
                },
                Err(e) => r is None && final(self).last_error@ == e@,
            },
    {
        match answer {
            Ok(v) => match json::text_at(&v, "webSocketDebuggerUrl") {
                Some(address) => Some(address.to_owned()),
                None => {
                    self.last_error = "响应里没有 webSocketDebuggerUrl".to_owned();
                    None
                },
            },
            Err(e) => {
                self.last_error = e;
                None
            },
        }
    }

    /// The error once the patience is at its end.
    pub fn give_up(&self) -> (r: AppError)
        ensures
            r matches AppError::Internal(why) && why@ == "浏览器在 15 秒内没有开放调试端口 "@ + decimal(self.port as nat)
                + "："@ + self.last_error@,
    {
        let shown = decimal_text(self.port as u64);
        AppError::Internal(
            "浏览器在 15 秒内没有开放调试端口 ".to_owned().concat(shown.as_str()).concat("：").concat(
                self.last_error.as_str(),
            ),
        )
    }
}

/// A browser is looked for where Edge, Chrome and Chromium are put on each system, Edge
/// before Chrome but on a Mac: where none of these places has one, none is found.
pub proof fn every_known_place_is_looked_at<F: Fn(&'static str) -> bool>(is_there: F)
    requires
        forall|j: int| 0 <= j < usual_places().len() ==> answers(is_there, #[trigger] usual_places()[j], false),
    ensures
        answers(is_there, "C:\\Program Files (x86)\\Microsoft\\Edge\\Application\\msedge.exe"@, false),
        answers(is_there, "C:\\Program Files\\Microsoft\\Edge\\Application\\msedge.exe"@, false),
        answers(is_there, "C:\\Program Files\\Google\\Chrome\\Application\\chrome.exe"@, false),
        answers(is_there, "C:\\Program Files (x86)\\Google\\Chrome\\Application\\chrome.exe"@, false),
        answers(is_there, "/usr/bin/microsoft-edge"@, false),
        answers(is_there, "/usr/bin/google-chrome"@, false),
        answers(is_there, "/usr/bin/chromium"@, false),
        answers(is_there, "/Applications/Google Chrome.app/Contents/MacOS/Google Chrome"@, false),
        answers(is_there, "/Applications/Microsoft Edge.app/Contents/MacOS/Microsoft Edge"@, false),
{
    assert(answers(is_there, usual_places()[0], false));
    assert(answers(is_there, usual_places()[1], false));
    assert(answers(is_there, usual_places()[2], false));
    assert(answers(is_there, usual_places()[3], false));
    assert(answers(is_there, usual_places()[4], false));
    assert(answers(is_there, usual_places()[5], false));
    assert(answers(is_there, usual_places()[6], false));
    assert(answers(is_there, usual_places()[7], false));
    assert(answers(is_there, usual_places()[8], false));
}

/// A browser is started with its debugging port, its profile and its window as they are
/// asked for, unseen, and on an empty page.
pub proof fn a_browser_is_started_as_asked(port: u16, profile_dir: Seq<char>, width: u32, height: u32)
    ensures
        ({
            let a = arguments(port, profile_dir, width, height);
            &&& a.len() == 11
            &&& a.contains("--remote-debugging-port="@ + decimal(port as nat))
            &&& a.contains("--user-data-dir="@ + profile_dir)
            &&& a.contains("--window-size="@ + decimal(width as nat) + ","@ + decimal(height as nat))
            &&& a.contains("--headless=new"@)
            &&& a.contains("--no-first-run"@)
            &&& a.contains("--no-default-browser-check"@)
            &&& a.contains("--disable-features=Translate,MediaRouter"@)
            &&& a.contains("--autoplay-policy=no-user-gesture-required"@)
            &&& a.contains("--enable-features=WebRTC-H264WithOpenH264FFmpeg"@)
            &&& a.contains("--hide-crash-restore-bubble"@)
            &&& a.last() == "about:blank"@
        }),
{
    let a = arguments(port, profile_dir, width, height);
    assert(a.contains(a[0]));
    assert(a.contains(a[1]));
    assert(a.contains(a[2]));
    assert(a.contains(a[3]));
    assert(a.contains(a[4]));
    assert(a.contains(a[5]));
    assert(a.contains(a[6]));
    assert(a.contains(a[7]));
    assert(a.contains(a[8]));
    assert(a.contains(a[9]));
    assert(a.contains(a[10]));
}

/// Which browser is taken of several: on Windows and on Linux Edge before Chrome, and
/// Chrome before Chromium; on a Mac Chrome before Edge.
pub proof fn browsers_have_their_rank<F: Fn(&'static str) -> bool>(is_there: F, i: int)
    requires
        0 <= i < usual_places().len(),
        is_first_found(is_there, i),
    ensures
        answers(is_there, usual_places()[i], true),
        usual_places()[i] == "C:\\Program Files\\Google\\Chrome\\Application\\chrome.exe"@ ==> answers(is_there, "C:\\Program Files (x86)\\Microsoft\\Edge\\Application\\msedge.exe"@, false) && answers(is_there, "C:\\Program Files\\Microsoft\\Edge\\Application\\msedge.exe"@, false),
        usual_places()[i] == "/usr/bin/google-chrome"@ ==> answers(is_there, "/usr/bin/microsoft-edge"@, false),
        usual_places()[i] == "/usr/bin/chromium"@ ==> answers(is_there, "/usr/bin/google-chrome"@, false) && answers(
            is_there,
            "/usr/bin/microsoft-edge"@,
            false,
        ),
        usual_places()[i] == "/Applications/Microsoft Edge.app/Contents/MacOS/Microsoft Edge"@ ==> answers(is_there, "/Applications/Google Chrome.app/Contents/MacOS/Google Chrome"@, false),
{
    reveal_strlit("C:\\Program Files (x86)\\Microsoft\\Edge\\Application\\msedge.exe");
    reveal_strlit("C:\\Program Files\\Microsoft\\Edge\\Application\\msedge.exe");
    reveal_strlit("C:\\Program Files\\Google\\Chrome\\Application\\chrome.exe");
    reveal_strlit("C:\\Program Files (x86)\\Google\\Chrome\\Application\\chrome.exe");
    reveal_strlit("/usr/bin/microsoft-edge");
    reveal_strlit("/usr/bin/google-chrome");
    reveal_strlit("/usr/bin/chromium");
    reveal_strlit("/Applications/Google Chrome.app/Contents/MacOS/Google Chrome");
    reveal_strlit("/Applications/Microsoft Edge.app/Contents/MacOS/Microsoft Edge");
    assert("C:\\Program Files (x86)\\Microsoft\\Edge\\Application\\msedge.exe"@.len() == 60);
    assert("C:\\Program Files\\Microsoft\\Edge\\Application\\msedge.exe"@.len() == 54);
    assert("C:\\Program Files\\Google\\Chrome\\Application\\chrome.exe"@.len() == 53);
    assert("C:\\Program Files (x86)\\Google\\Chrome\\Application\\chrome.exe"@.len() == 59);
    assert("/usr/bin/microsoft-edge"@.len() == 23);
    assert("/usr/bin/google-chrome"@.len() == 22);
    assert("/usr/bin/chromium"@.len() == 17);
    assert("/Applications/Google Chrome.app/Contents/MacOS/Google Chrome"@.len() == 60);
    assert("/Applications/Microsoft Edge.app/Contents/MacOS/Microsoft Edge"@.len() == 62);
    assert forall|j: int| 0 <= j < i implies answers(is_there, #[trigger] usual_places()[j], false) by {}
    assert(0 < i ==> answers(is_there, usual_places()[0], false));
    assert(1 < i ==> answers(is_there, usual_places()[1], false));
    assert(2 < i ==> answers(is_there, usual_places()[2], false));
    assert(3 < i ==> answers(is_there, usual_places()[3], false));
    assert(4 < i ==> answers(is_there, usual_places()[4], false));
    assert(5 < i ==> answers(is_there, usual_places()[5], false));
    assert(6 < i ==> answers(is_there, usual_places()[6], false));
    assert(7 < i ==> answers(is_there, usual_places()[7], false));
    assert(8 < i ==> answers(is_there, usual_places()[8], false));
}

} // verus!
