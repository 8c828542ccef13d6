//! The settings of the server. All of them come from the environment, and each has
//! a default, so that the server starts with none of them set.

use vstd::prelude::*;
use vstd::string::*;
use vstd::utf8::*;

use crate::cloud::service::port_of;
use crate::headers;
use crate::headers::{header_bytes, is_header_text};
use crate::text::{ascii_lowered, blank, comma_items, decimal, decimal_text, is_blank, list_items, parse_usize, pieces, reads, trimmed, trimmed_is_empty_when_blank, written_number};

verus! {

/// How long a request to another service may take, in seconds.
pub const DEFAULT_UPSTREAM_TIMEOUT: u64 = 30;

/// The settings of cloud game streaming.
#[derive(Debug)]
pub struct CloudConfig {
    /// The browser's executable; without one there is no streaming.
    pub browser_exe: Option<String>,
    /// Where the browser's profiles are kept.
    pub profile_root: String,
    /// The first debugging port.
    pub port_base: u16,
    /// The quality of the frames, as JPEG counts it.
    pub quality: u8,
    pub max_width: u32,
    pub max_height: u32,
    /// How long a session may sleep before it is closed, in seconds; 0 for ever.
    pub dormant_timeout_secs: u64,
}

/// The settings of speech recognition.
#[derive(Debug)]
pub struct AsrConfig {
    /// Whether this build has the recogniser in it.
    pub whisper: bool,
    /// The file of the model.
    pub model_path: Option<String>,
    /// The language to recognise; `auto` to find it out.
    pub language: String,
    /// How many recordings are worked on at a time.
    pub max_concurrency: usize,
}

/// The settings of the language model service.
#[derive(Debug)]
pub struct LlmConfig {
    pub base_url: String,
    pub api_key: String,
    pub model: String,
}

/// The settings of the server.
#[derive(Debug)]
pub struct Config {
    /// The address to listen on.
    pub bind: String,
    /// Whether any origin may call.
    pub dev_mode: bool,
    /// The origins that may call where not any may.
    pub allowed_origins: Vec<axum::http::HeaderValue>,
    /// The largest request body that is taken, in bytes.
    pub max_body_bytes: usize,
    pub asr: AsrConfig,
    pub llm: Option<LlmConfig>,
    /// The token that callers have to show, if any.
    pub api_token: Option<String>,
    /// The file of the database.
    pub db_path: String,
    pub cloud: CloudConfig,
}

// ---------------------------------------------------------------- descriptions

/// Whether `name` may be the file name of `path`: a part of it, with no slash unless
/// backslashes separate the parts.
pub open spec fn is_file_name(path: Seq<char>, name: Seq<char>) -> bool {
    &&& exists|i: int, j: int| 0 <= i <= j <= path.len() && name == #[trigger] path.subrange(i, j)
    &&& path.contains('\\') || !name.contains('/')
}

/// What follows the last slash of a path; the whole path if it has none.
pub open spec fn last_part(path: Seq<char>) -> Seq<char>
    decreases path.len(),
{
    if path.len() == 0 || path.last() == '/' {
        Seq::empty()
    } else {
        last_part(path.drop_last()).push(path.last())
    }
}

/// Whether a path ends in a name in a way that every system reads alike: slashes alone
/// separate its parts, it names no drive and no share, and its last part stands for
/// no directory.
pub open spec fn ends_in_name(path: Seq<char>) -> bool {
    &&& !path.contains('\\')
    &&& !path.contains(':')
    &&& !(path.len() >= 2 && path[0] == '/' && path[1] == '/')
    &&& last_part(path).len() > 0
    &&& last_part(path) != "."@
    &&& last_part(path) != ".."@
}

/// `std::path::Path::file_name`: the last part of a path. What separates the parts
/// depends on the system: where the path ends in a name that every system reads alike,
/// that name is the result, and elsewhere it is only stated that the result is a part
/// of the path.
#[verifier::external_body]
fn file_name(path: &str) -> (r: Option<String>)
    ensures
        r matches Some(name) ==> is_file_name(path@, name@),
        ends_in_name(path@) ==> r is Some && r->0@ == last_part(path@),
{
    std::path::Path::new(path).file_name().map(|name| name.to_string_lossy().to_string())
}

/// How streaming is described that uses the browser of this file name.
pub open spec fn cloud_words(name: Seq<char>, width: u32, height: u32) -> Seq<char> {
    "已启用（"@ + name + "，"@ + decimal(width as nat) + "x"@ + decimal(height as nat) + "）"@
}

impl CloudConfig {
    /// The settings in one line, with `name` as the name of the browser.
    pub fn describe_as(&self, name: &str) -> (r: String)
        ensures
            r@ == cloud_words(name@, self.max_width, self.max_height),
    {
        let width = decimal_text(self.max_width as u64);
        let height = decimal_text(self.max_height as u64);
        "已启用（".to_owned().concat(name).concat("，").concat(width.as_str()).concat("x").concat(height.as_str()).concat(
            "）",
        )
    }

    /// The settings in one line, for the log. The browser goes by its file name,
    /// which is left blank where the path has none. Which part of a path is its file
    /// name is stated where all systems agree on it.
    pub fn describe(&self) -> (r: String)
        ensures
            self.browser_exe is None ==> r@ == "未启用（没找到 Edge 或 Chrome）"@,
            self.browser_exe matches Some(p) ==> exists|name: Seq<char>|
                (is_file_name(p@, name) || name.len() == 0) && r@ == #[trigger] cloud_words(
                    name,
                    self.max_width,
                    self.max_height,
                ),
            self.browser_exe matches Some(p) ==> (ends_in_name(p@) ==> r@ == cloud_words(
                last_part(p@),
                self.max_width,
                self.max_height,
            )),
    {
        match &self.browser_exe {
            Some(p) => match file_name(p.as_str()) {
                Some(name) => self.describe_as(name.as_str()),
                None => {
                    proof {
                        reveal_strlit("");
                    }
                    self.describe_as("")
                },
            },
            None => "未启用（没找到 Edge 或 Chrome）".to_owned(),
        }
    }

    /// Whether there is streaming.
    pub fn enabled(&self) -> (r: bool)
        ensures
            r == (self.browser_exe is Some),
    {
        self.browser_exe.is_some()
    }
}

impl AsrConfig {
    /// The settings in one line, for the log.
    pub fn describe(&self) -> (r: String)
        ensures
            r@ == (if !self.whisper {
                "未启用（编译时未打开 whisper feature）"@
            } else {
                match self.model_path {
                    Some(p) => "whisper 本地推理，模型 "@ + p@,
                    None => "未启用（未设置 SPEAKLAB_ASR_MODEL）"@,
                }
            }),
    {
        if !self.whisper {
            return "未启用（编译时未打开 whisper feature）".to_owned();
        }
        match &self.model_path {
            Some(p) => "whisper 本地推理，模型 ".to_owned().concat(p.as_str()),
            None => "未启用（未设置 SPEAKLAB_ASR_MODEL）".to_owned(),
        }
    }

    /// Whether speech can be recognised: the recogniser is built in, and it has a model.
    pub fn enabled(&self) -> (r: bool)
        ensures
            r == (self.whisper && self.model_path is Some),
    {
        self.whisper && self.model_path.is_some()
    }
}

// ---------------------------------------------------------------- reading

/// What a variable holds, if it is set.
pub open spec fn set_to(v: Option<String>) -> Option<Seq<char>> {
    match v {
        Some(s) => Some(s@),
        None => None,
    }
}

/// What a variable holds, or the default if it is not set.
pub open spec fn text_or(v: Option<String>, default: Seq<char>) -> Seq<char> {
    match v {
        Some(s) => s@,
        None => default,
    }
}

/// What a variable holds, if it is set and not blank.
pub open spec fn filled(v: Option<String>) -> Option<Seq<char>> {
    match v {
        Some(s) => if is_blank(s@) {
            None
        } else {
            Some(s@)
        },
        None => None,
    }
}

/// Whether a text says yes.
pub open spec fn says_yes(s: Seq<char>) -> bool {
    let word = ascii_lowered(trimmed(s));
    word == "1"@ || word == "true"@ || word == "yes"@ || word == "on"@
}

/// What a switch says, or the default if it is not set.
pub open spec fn switch_or(v: Option<String>, default: bool) -> bool {
    match v {
        Some(s) => says_yes(s@),
        None => default,
    }
}

/// The number that a variable holds, or the default if it holds none that fits.
pub open spec fn number_or(v: Option<String>, default: usize) -> usize {
    match v {
        Some(s) => match written_number(trimmed(s@)) {
            Some(n) => if n <= usize::MAX {
                n as usize
            } else {
                default
            },
            None => default,
        },
        None => default,
    }
}

/// `n`, or the bound that it lies beyond.
pub open spec fn within(n: usize, low: usize, high: usize) -> usize {
    if n < low {
        low
    } else if n > high {
        high
    } else {
        n
    }
}

/// What a switch says, or the default if it is not set: `1`, `true`, `yes` and `on`
/// mean yes, and all else means no.
pub fn env_bool(value: &Option<String>, default: bool) -> (r: bool)
    ensures
        r == switch_or(*value, default),
{
    match value {
        Some(s) => {
            let word = s.as_str().trim();
            reads(word, "1") || reads(word, "true") || reads(word, "yes") || reads(word, "on")
        },
        None => default,
    }
}

/// The number that a variable holds, or the default if it holds none that fits.
pub fn env_usize(value: &Option<String>, default: usize) -> (r: usize)
    ensures
        r == number_or(*value, default),
{
    match value {
        Some(s) => match parse_usize(s.as_str().trim()) {
            Some(n) => n,
            None => default,
        },
        None => default,
    }
}

fn limited(n: usize, low: usize, high: usize) -> (r: usize)
    ensures
        r == within(n, low, high),
{
    if n < low {
        low
    } else if n > high {
        high
    } else {
        n
    }
}

fn or_default(v: Option<String>, default: &str) -> (r: String)
    ensures
        r@ == text_or(v, default@),
{
    match v {
        Some(s) => s,
        None => default.to_owned(),
    }
}

fn unless_blank(v: Option<String>) -> (r: Option<String>)
    ensures
        set_to(r) == filled(v),
{
    match v {
        Some(s) => if blank(s.as_str()) {
            None
        } else {
            Some(s)
        },
        None => None,
    }
}

/// The variables of the environment that are set to text, by what they are for.
#[derive(Debug, Default)]
pub struct Environment {
    /// `SPEAKLAB_DEV`
    pub dev: Option<String>,
    /// `SPEAKLAB_ALLOWED_ORIGINS`
    pub allowed_origins: Option<String>,
    /// `SPEAKLAB_LLM_API_KEY`
    pub llm_api_key: Option<String>,
    /// `SPEAKLAB_LLM_BASE_URL`
    pub llm_base_url: Option<String>,
    /// `SPEAKLAB_LLM_MODEL`
    pub llm_model: Option<String>,
    /// `SPEAKLAB_TOKEN`
    pub token: Option<String>,
    /// `SPEAKLAB_BIND`
    pub bind: Option<String>,
    /// `SPEAKLAB_MAX_BODY_BYTES`
    pub max_body_bytes: Option<String>,
    /// `SPEAKLAB_ASR_MODEL`
    pub asr_model: Option<String>,
    /// `SPEAKLAB_ASR_LANG`
    pub asr_lang: Option<String>,
    /// `SPEAKLAB_ASR_CONCURRENCY`
    pub asr_concurrency: Option<String>,
    /// `SPEAKLAB_DB`
    pub db: Option<String>,
    /// `SPEAKLAB_BROWSER`
    pub browser: Option<String>,
    /// `SPEAKLAB_CLOUD_PROFILE`
    pub cloud_profile: Option<String>,
    /// `SPEAKLAB_CLOUD_PORT`
    pub cloud_port: Option<String>,
    /// `SPEAKLAB_CLOUD_QUALITY`
    pub cloud_quality: Option<String>,
    /// `SPEAKLAB_CLOUD_WIDTH`
    pub cloud_width: Option<String>,
    /// `SPEAKLAB_CLOUD_HEIGHT`
    pub cloud_height: Option<String>,
    /// `SPEAKLAB_CLOUD_SLEEP_TIMEOUT`
    pub cloud_sleep_timeout: Option<String>,
}

/// What the machine and the build give.
#[derive(Debug)]
pub struct Host {
    /// How many threads can run at a time, if that is known.
    pub parallelism: Option<usize>,
    /// The browser that was found in one of the usual places.
    pub found_browser: Option<String>,
    /// Where the browser's profiles are kept unless something else is asked for.
    pub profile_root: String,
    /// Whether this build has the recogniser in it.
    pub whisper: bool,
}

/// An item of the allowed origins that cannot stand in a header.
#[derive(Debug)]
pub struct BadOrigin {
    pub origin: String,
    /// What was said of it.
    pub why: String,
}

/// The items of the list of allowed origins.
pub open spec fn origins_in(v: Option<String>) -> Seq<Seq<char>> {
    match v {
        Some(s) => list_items(pieces(s@, ',')),
        None => Seq::empty(),
    }
}

/// Whether an origin can stand in a header.
pub open spec fn is_origin(s: Seq<char>) -> bool {
    is_header_text(encode_utf8(s))
}

/// Whether a header's value is this origin.
pub open spec fn is_header_of(v: axum::http::HeaderValue, origin: Seq<char>) -> bool {
    is_origin(origin) && header_bytes(v) == encode_utf8(origin)
}

/// Whether `bad` is the first of the origins that cannot stand in a header.
pub open spec fn is_first_bad(all: Seq<Seq<char>>, bad: Seq<char>) -> bool {
    exists|i: int|
        0 <= i < all.len() && #[trigger] all[i] == bad && !is_origin(bad) && forall|j: int|
            0 <= j < i ==> is_origin(#[trigger] all[j])
}

/// How many recordings are worked on at a time unless something else is asked for:
/// half as many as threads can run.
pub open spec fn default_concurrency(parallelism: Option<usize>) -> usize {
    match parallelism {
        Some(n) => if n / 2 < 1 {
            1
        } else {
            n / 2
        },
        None => 2,
    }
}

impl AsrConfig {
    /// Whether the settings are those that the environment gives.
    pub open spec fn is_from(self, env: Environment, host: Host) -> bool {
        &&& self.whisper == host.whisper
        &&& set_to(self.model_path) == filled(env.asr_model)
        &&& self.language@ == text_or(env.asr_lang, "en"@)
        &&& self.max_concurrency == number_or(env.asr_concurrency, default_concurrency(host.parallelism))
    }
}

impl CloudConfig {
    /// Whether the settings are those that the environment gives.
    pub open spec fn is_from(self, env: Environment, host: Host) -> bool {
        &&& set_to(self.browser_exe) == match filled(env.browser) {
            Some(p) => Some(p),
            None => set_to(host.found_browser),
        }
        &&& self.profile_root@ == match filled(env.cloud_profile) {
            Some(p) => p,
            None => host.profile_root@,
        }
        &&& self.port_base == within(number_or(env.cloud_port, 9222), 1024, 65000)
        &&& self.quality == within(number_or(env.cloud_quality, 60), 10, 100)
        &&& self.max_width == within(number_or(env.cloud_width, 480), 160, 1920)
        &&& self.max_height == within(number_or(env.cloud_height, 320), 120, 1080)
        &&& self.dormant_timeout_secs == within(number_or(env.cloud_sleep_timeout, 90), 0, 86_400)
    }

    fn from_env(
        browser: Option<String>,
        found_browser: Option<String>,
        profile: Option<String>,
        profile_root: String,
        port: &Option<String>,
        quality: &Option<String>,
        width: &Option<String>,
        height: &Option<String>,
        sleep_timeout: &Option<String>,
    ) -> (r: CloudConfig)
        ensures
            set_to(r.browser_exe) == (match filled(browser) {
                Some(p) => Some(p),
                None => set_to(found_browser),
            }),
            r.profile_root@ == (match filled(profile) {
                Some(p) => p,
                None => profile_root@,
            }),
            r.port_base == within(number_or(*port, 9222), 1024, 65000),
            r.quality == within(number_or(*quality, 60), 10, 100),
            r.max_width == within(number_or(*width, 480), 160, 1920),
            r.max_height == within(number_or(*height, 320), 120, 1080),
            r.dormant_timeout_secs == within(number_or(*sleep_timeout, 90), 0, 86_400),
    {
        let browser_exe = match unless_blank(browser) {
            Some(p) => Some(p),
            None => found_browser,
        };
        let profile_root = match unless_blank(profile) {
            Some(p) => p,
            None => profile_root,
        };
        CloudConfig {
            browser_exe,
            profile_root,
            port_base: limited(env_usize(port, 9222), 1024, 65000) as u16,
            quality: limited(env_usize(quality, 60), 10, 100) as u8,
            max_width: limited(env_usize(width, 480), 160, 1920) as u32,
            max_height: limited(env_usize(height, 320), 120, 1080) as u32,
            dormant_timeout_secs: limited(env_usize(sleep_timeout, 90), 0, 86_400) as u64,
        }
    }
}

fn read_origins(v: &Option<String>) -> (r: Result<Vec<axum::http::HeaderValue>, BadOrigin>)
    ensures
        match r {
            Ok(out) => {
                &&& out@.len() == origins_in(*v).len()
                &&& forall|i: int| 0 <= i < out@.len() ==> #[trigger] is_header_of(out@[i], origins_in(*v)[i])
            },
            Err(e) => is_first_bad(origins_in(*v), e.origin@),
        },
{
    let ghost all = origins_in(*v);
    let mut out: Vec<axum::http::HeaderValue> = Vec::new();
    if let Some(raw) = v {
        let items = comma_items(raw.as_str());
        let mut i: usize = 0;
        while i < items.len()
            invariant
                i <= items@.len(),
                items@.len() == all.len(),
                forall|j: int| 0 <= j < items@.len() ==> (#[trigger] items@[j])@ == all[j],
                out@.len() == i,
                all == origins_in(*v),
                forall|j: int| 0 <= j < i ==> #[trigger] is_header_of(out@[j], all[j]),
            decreases items@.len() - i,
        {
            assert(items@[i as int]@ == all[i as int]);
            match headers::header_value(items[i].as_str()) {
                Ok(value) => {
                    out.push(value);
                },
                Err(e) => {
                    assert forall|j: int| 0 <= j < i implies is_origin(#[trigger] all[j]) by {
                        assert(is_header_of(out@[j], all[j]));
                    }
                    return Err(BadOrigin { origin: items[i].clone(), why: headers::error_text(&e) });
                },
            }
            i += 1;
        }
    }
    Ok(out)
}

impl Config {
    /// Whether the settings are those that the environment gives.
    pub open spec fn is_from(self, env: Environment, host: Host) -> bool {
        &&& self.bind@ == text_or(env.bind, "127.0.0.1:8787"@)
        &&& self.dev_mode == switch_or(env.dev, true)
        &&& self.allowed_origins@.len() == origins_in(env.allowed_origins).len()
        &&& forall|i: int|
            0 <= i < self.allowed_origins@.len() ==> #[trigger] is_header_of(
                self.allowed_origins@[i],
                origins_in(env.allowed_origins)[i],
            )
        &&& self.max_body_bytes == number_or(env.max_body_bytes, 8_388_608)
        &&& self.asr.is_from(env, host)
        &&& match filled(env.llm_api_key) {
            Some(key) => {
                &&& self.llm matches Some(llm)
                &&& llm.api_key@ == key
                &&& llm.base_url@ == text_or(env.llm_base_url, "https://api.deepseek.com"@)
                &&& llm.model@ == text_or(env.llm_model, "deepseek-chat"@)
            },
            None => self.llm is None,
        }
        &&& set_to(self.api_token) == match filled(env.token) {
            Some(t) => Some(trimmed(t)),
            None => None,
        }
        &&& self.db_path@ == match filled(env.db) {
            Some(p) => p,
            None => "speaklab.db"@,
        }
        &&& self.cloud.is_from(env, host)
    }

    /// Reads the settings. The one thing that is refused is an allowed origin that
    /// cannot stand in a header; the first such is reported.
    pub fn from_env(env: Environment, host: Host) -> (r: Result<Config, BadOrigin>)
        ensures
            r is Ok == (forall|i: int|
                0 <= i < origins_in(env.allowed_origins).len() ==> is_origin(
                    #[trigger] origins_in(env.allowed_origins)[i],
                )),
            r matches Ok(c) ==> c.is_from(env, host),
            r matches Err(e) ==> is_first_bad(origins_in(env.allowed_origins), e.origin@),
    {
        let dev_mode = env_bool(&env.dev, true);
        let allowed_origins = match read_origins(&env.allowed_origins) {
            Ok(all) => {
                assert forall|i: int| 0 <= i < origins_in(env.allowed_origins).len() implies is_origin(
                    #[trigger] origins_in(env.allowed_origins)[i],
                ) by {
                    assert(is_header_of(all@[i], origins_in(env.allowed_origins)[i]));
                }
                all
            },
            Err(e) => return Err(e),
        };
        let llm = match unless_blank(env.llm_api_key) {
            Some(api_key) => Some(
                LlmConfig {
                    base_url: or_default(env.llm_base_url, "https://api.deepseek.com"),
                    api_key,
                    model: or_default(env.llm_model, "deepseek-chat"),
                },
            ),
            None => None,
        };
        let api_token = match &env.token {
            Some(s) => {
                proof {
                    trimmed_is_empty_when_blank(s@);
                }
                let t = s.as_str().trim();
                if t.is_empty() {
                    None
                } else {
                    Some(t.to_owned())
                }
            },
            None => None,
        };
        let db_path = match unless_blank(env.db) {
            Some(p) => p,
            None => "speaklab.db".to_owned(),
        };
        let usual: usize = match host.parallelism {
            Some(n) => if n / 2 < 1 {
                1
            } else {
                n / 2
            },
            None => 2,
        };
        let asr = AsrConfig {
            whisper: host.whisper,
            model_path: unless_blank(env.asr_model),
            language: or_default(env.asr_lang, "en"),
            max_concurrency: env_usize(&env.asr_concurrency, usual),
        };
        let cloud = CloudConfig::from_env(
            env.browser,
            host.found_browser,
            env.cloud_profile,
            host.profile_root,
            &env.cloud_port,
            &env.cloud_quality,
            &env.cloud_width,
            &env.cloud_height,
            &env.cloud_sleep_timeout,
        );
        Ok(
            Config {
                bind: or_default(env.bind, "127.0.0.1:8787"),
                dev_mode,
                allowed_origins,
                max_body_bytes: env_usize(&env.max_body_bytes, 8_388_608),
                asr,
                llm,
                api_token,
                db_path,
                cloud,
            },
        )
    }

    /// How long a request to another service may take, in seconds.
    pub fn upstream_timeout(&self) -> (r: u64)
        ensures
            r == DEFAULT_UPSTREAM_TIMEOUT,
    {
        DEFAULT_UPSTREAM_TIMEOUT
    }
}

/// Whatever the environment says, the settings of streaming stay within bounds, and
/// there is room for all debugging ports.
pub proof fn cloud_settings_stay_in_bounds(c: CloudConfig, env: Environment, host: Host)
    requires
        c.is_from(env, host),
    ensures
        1024 <= c.port_base <= 65000,
        10 <= c.quality <= 100,
        160 <= c.max_width <= 1920,
        120 <= c.max_height <= 1080,
        c.dormant_timeout_secs <= 86_400,
        forall|n: u16| #[trigger] port_of(c.port_base, n) <= u16::MAX,
{
}

/// The settings of the server are what their variables say, and their defaults where
/// they say nothing.
pub proof fn the_server_is_set_by_its_variables(c: Config, env: Environment, host: Host)
    requires
        c.is_from(env, host),
    ensures
        env.bind matches Some(v) ==> c.bind@ == v@,
        env.bind is None ==> c.bind@ == "127.0.0.1:8787"@,
        env.dev is None ==> c.dev_mode,
        env.dev matches Some(v) ==> c.dev_mode == (ascii_lowered(trimmed(v@)) == "1"@ || ascii_lowered(trimmed(v@))
            == "true"@ || ascii_lowered(trimmed(v@)) == "yes"@ || ascii_lowered(trimmed(v@)) == "on"@),
        env.max_body_bytes is None ==> c.max_body_bytes == 8 * 1024 * 1024,
        env.max_body_bytes matches Some(v) ==> (written_number(trimmed(v@)) matches Some(n) ==> (n <= usize::MAX ==> c.max_body_bytes == n)),
        env.max_body_bytes matches Some(v) ==> (!(written_number(trimmed(v@)) matches Some(n) && n <= usize::MAX) ==> c.max_body_bytes == 8 * 1024 * 1024),
        env.db matches Some(v) ==> (!is_blank(v@) ==> c.db_path@ == v@),
        env.db matches Some(v) ==> (is_blank(v@) ==> c.db_path@ == "speaklab.db"@),
        env.db is None ==> c.db_path@ == "speaklab.db"@,
        env.token is None ==> c.api_token is None,
        env.token matches Some(v) ==> (is_blank(v@) ==> c.api_token is None),
        env.token matches Some(v) ==> (!is_blank(v@) ==> c.api_token is Some && c.api_token->0@ == trimmed(v@)),
        env.llm_api_key is None ==> c.llm is None,
        env.llm_api_key matches Some(v) ==> (is_blank(v@) ==> c.llm is None),
        env.llm_api_key matches Some(v) ==> (!is_blank(v@) ==> c.llm is Some && c.llm->0.api_key@ == v@),
        c.llm matches Some(llm) ==> (env.llm_base_url matches Some(v) ==> llm.base_url@ == v@),
        c.llm matches Some(llm) ==> (env.llm_base_url is None ==> llm.base_url@ == "https://api.deepseek.com"@),
        c.llm matches Some(llm) ==> (env.llm_model matches Some(v) ==> llm.model@ == v@),
        c.llm matches Some(llm) ==> (env.llm_model is None ==> llm.model@ == "deepseek-chat"@),
{
}

/// The settings of speech recognition are what their variables say. Unless another number
/// is asked for, half as many recordings are worked on as threads can run, but one at
/// least, and two where that is not known.
pub proof fn the_recogniser_is_set_by_its_variables(c: AsrConfig, env: Environment, host: Host)
    requires
        c.is_from(env, host),
    ensures
        c.whisper == host.whisper,
        env.asr_model is None ==> c.model_path is None,
        env.asr_model matches Some(v) ==> (is_blank(v@) ==> c.model_path is None),
        env.asr_model matches Some(v) ==> (!is_blank(v@) ==> c.model_path is Some && c.model_path->0@ == v@),
        env.asr_lang matches Some(v) ==> c.language@ == v@,
        env.asr_lang is None ==> c.language@ == "en"@,
        env.asr_concurrency matches Some(v) ==> (written_number(trimmed(v@)) matches Some(n) ==> (n <= usize::MAX ==> c.max_concurrency == n)),
        env.asr_concurrency is None && host.parallelism is None ==> c.max_concurrency == 2,
        env.asr_concurrency is None ==> (host.parallelism matches Some(n) ==> c.max_concurrency >= 1 && (n >= 2 ==> 2
            * c.max_concurrency <= n < 2 * c.max_concurrency + 2)),
        env.asr_concurrency is None ==> (host.parallelism matches Some(n) ==> (n < 2 ==> c.max_concurrency == 1)),
{
}

/// The settings of streaming are what their variables say, within their bounds.
pub proof fn streaming_is_set_by_its_variables(c: CloudConfig, env: Environment, host: Host)
    requires
        c.is_from(env, host),
    ensures
        env.browser matches Some(v) ==> (!is_blank(v@) ==> c.browser_exe is Some && c.browser_exe->0@ == v@),
        env.browser is None ==> set_to(c.browser_exe) == set_to(host.found_browser),
        env.browser matches Some(v) ==> (is_blank(v@) ==> set_to(c.browser_exe) == set_to(host.found_browser)),
        env.cloud_profile matches Some(v) ==> (!is_blank(v@) ==> c.profile_root@ == v@),
        env.cloud_profile is None ==> c.profile_root@ == host.profile_root@,
        env.cloud_profile matches Some(v) ==> (is_blank(v@) ==> c.profile_root@ == host.profile_root@),
        env.cloud_port is None ==> c.port_base == 9222,
        env.cloud_port matches Some(v) ==> (written_number(trimmed(v@)) matches Some(n) ==> (1024 <= n <= 65000 ==> c.port_base == n)),
        env.cloud_port matches Some(v) ==> (written_number(trimmed(v@)) matches Some(n) ==> (n < 1024 ==> c.port_base == 1024)),
        env.cloud_port matches Some(v) ==> (written_number(trimmed(v@)) matches Some(n) ==> (65000 < n <= usize::MAX ==> c.port_base == 65000)),
        env.cloud_port matches Some(v) ==> (written_number(trimmed(v@)) is None ==> c.port_base == 9222),
        env.cloud_quality is None ==> c.quality == 60,
        env.cloud_quality matches Some(v) ==> (written_number(trimmed(v@)) matches Some(n) ==> (10 <= n <= 100 ==> c.quality == n)),
        env.cloud_quality matches Some(v) ==> (written_number(trimmed(v@)) matches Some(n) ==> (n < 10 ==> c.quality == 10)),
        env.cloud_quality matches Some(v) ==> (written_number(trimmed(v@)) matches Some(n) ==> (100 < n <= usize::MAX ==> c.quality == 100)),
        env.cloud_quality matches Some(v) ==> (written_number(trimmed(v@)) is None ==> c.quality == 60),
        env.cloud_width is None ==> c.max_width == 480,
        env.cloud_width matches Some(v) ==> (written_number(trimmed(v@)) matches Some(n) ==> (160 <= n <= 1920 ==> c.max_width == n)),
        env.cloud_width matches Some(v) ==> (written_number(trimmed(v@)) matches Some(n) ==> (n < 160 ==> c.max_width == 160)),
        env.cloud_width matches Some(v) ==> (written_number(trimmed(v@)) matches Some(n) ==> (1920 < n <= usize::MAX ==> c.max_width == 1920)),
        env.cloud_width matches Some(v) ==> (written_number(trimmed(v@)) is None ==> c.max_width == 480),
        env.cloud_height is None ==> c.max_height == 320,
        env.cloud_height matches Some(v) ==> (written_number(trimmed(v@)) matches Some(n) ==> (120 <= n <= 1080 ==> c.max_height == n)),
        env.cloud_height matches Some(v) ==> (written_number(trimmed(v@)) matches Some(n) ==> (n < 120 ==> c.max_height == 120)),
        env.cloud_height matches Some(v) ==> (written_number(trimmed(v@)) matches Some(n) ==> (1080 < n <= usize::MAX ==> c.max_height == 1080)),
        env.cloud_height matches Some(v) ==> (written_number(trimmed(v@)) is None ==> c.max_height == 320),
        env.cloud_sleep_timeout is None ==> c.dormant_timeout_secs == 90,
        env.cloud_sleep_timeout matches Some(v) ==> (written_number(trimmed(v@)) matches Some(n) ==> (0 <= n <= 86_400 ==> c.dormant_timeout_secs == n)),
        env.cloud_sleep_timeout matches Some(v) ==> (written_number(trimmed(v@)) matches Some(n) ==> (n < 0 ==> c.dormant_timeout_secs == 0)),
        env.cloud_sleep_timeout matches Some(v) ==> (written_number(trimmed(v@)) matches Some(n) ==> (86_400 < n <= usize::MAX ==> c.dormant_timeout_secs == 86_400)),
        env.cloud_sleep_timeout matches Some(v) ==> (written_number(trimmed(v@)) is None ==> c.dormant_timeout_secs == 90),
{
}

/// The name that a browser goes by is the end of its path, with no slash in it, and what
/// stands before it ends in one.
pub proof fn a_file_name_is_the_end_of_the_path(path: Seq<char>)
    ensures
        ({
            let n = last_part(path).len();
            &&& n <= path.len()
            &&& last_part(path) == path.skip(path.len() - n)
            &&& !last_part(path).contains('/')
            &&& n < path.len() ==> path[path.len() - n - 1] == '/'
        }),
    decreases path.len(),
{
    if path.len() == 0 || path.last() == '/' {
        assert(path.skip(path.len() as int) =~= Seq::empty());
    } else {
        let rest = path.drop_last();
        a_file_name_is_the_end_of_the_path(rest);
        let n = last_part(path).len();
        assert(last_part(path) =~= path.skip(path.len() - n));
        assert forall|i: int| 0 <= i < n implies last_part(path)[i] != '/' by {
            if i < n - 1 {
                assert(last_part(path)[i] == last_part(rest)[i]);
                assert(last_part(rest).contains(last_part(rest)[i]));
            }
        }
    }
}

} // verus!
