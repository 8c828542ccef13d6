//! Whether the server is there, and what it can do.

use vstd::prelude::*;
use vstd::string::*;

use crate::config::Config;
use crate::state::AppState;
use crate::text::{all_words, same};

verus! {

/// The version of this server.
pub const VERSION: &'static str = "0.1.0";

/// That the server is there.
#[derive(Debug)]
pub struct Health {
    pub ok: bool,
    pub version: &'static str,
    /// How long it has been running, in seconds.
    pub uptime_secs: u64,
}

/// Says that the server is there.
pub fn health(state: &AppState, now: u64) -> (r: Health)
    ensures
        r.ok,
        r.version@ == VERSION@,
        r.uptime_secs == (if now >= state.started_at {
            (now - state.started_at) / 1000
        } else {
            0
        }),
{
    Health { ok: true, version: VERSION, uptime_secs: state.uptime_secs(now) }
}

/// What the server is.
#[derive(Debug)]
pub struct Meta {
    pub name: &'static str,
    pub version: &'static str,
    pub api_version: u32,
    pub capabilities: Capabilities,
}

/// What the server can do.
#[derive(Debug)]
pub struct Capabilities {
    /// Whether it recognises speech.
    pub asr_local: bool,
    /// Whether it has the key of a language model service.
    pub llm_proxy: bool,
    /// Whether callers have to show a token.
    pub auth_required: bool,
    /// The languages that it recognises.
    pub asr_languages: Vec<&'static str>,
}

/// The languages on offer. To find the language out is on offer only where that is
/// what the server does.
pub open spec fn languages_with(configured: Seq<char>) -> Seq<Seq<char>> {
    if configured == "auto"@ {
        seq!["en"@, "zh"@, "ja"@, "ko"@, "auto"@]
    } else {
        seq!["en"@, "zh"@, "ja"@, "ko"@]
    }
}

/// Says what the server is and what it can do.
pub fn meta(config: &Config) -> (r: Meta)
    ensures
        r.name@ == "speaklab-server"@,
        r.version@ == VERSION@,
        r.api_version == 1,
        r.capabilities.asr_local == (config.asr.whisper && config.asr.model_path is Some),
        r.capabilities.llm_proxy == (config.llm is Some),
        r.capabilities.auth_required == (config.api_token is Some),
        all_words(r.capabilities.asr_languages@) == languages_with(config.asr.language@),
{
    let mut languages: Vec<&'static str> = Vec::new();
    languages.push("en");
    languages.push("zh");
    languages.push("ja");
    languages.push("ko");
    if same(config.asr.language.as_str(), "auto") {
        languages.push("auto");
    }
    assert(all_words(languages@) =~= languages_with(config.asr.language@));
    Meta {
        name: "speaklab-server",
        version: VERSION,
        api_version: 1,
        capabilities: Capabilities {
            asr_local: config.asr.enabled(),
            llm_proxy: config.llm.is_some(),
            auth_required: config.api_token.is_some(),
            asr_languages: languages,
        },
    }
}

/// The four languages are always on offer; to find the language out is on offer exactly
/// where it is what the server is set to do.
pub proof fn languages_are_on_offer(configured: Seq<char>)
    ensures
        ({
            let l = languages_with(configured);
            &&& l.contains("en"@) && l.contains("zh"@) && l.contains("ja"@) && l.contains("ko"@)
            &&& l.contains("auto"@) == (configured == "auto"@)
            &&& l.len() == if configured == "auto"@ {
                5nat
            } else {
                4
            }
        }),
{
    reveal_strlit("en");
    reveal_strlit("auto");
    assert("en"@.len() == 2 && "auto"@.len() == 4);
    reveal_strlit("zh");
    reveal_strlit("ja");
    reveal_strlit("ko");
    assert("zh"@.len() == 2 && "ja"@.len() == 2 && "ko"@.len() == 2);
    let l = languages_with(configured);
    assert(l[0] == "en"@ && l[1] == "zh"@ && l[2] == "ja"@ && l[3] == "ko"@);
    assert(configured == "auto"@ ==> l[4] == "auto"@);
}

} // verus!
