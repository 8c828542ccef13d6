//! What all requests share.

use vstd::prelude::*;
use vstd::string::*;
use vstd::utf8::*;

use crate::config::Config;
use crate::error::{AppError, AppResult};

verus! {

/// Whether two byte strings are the same. The time it takes tells only whether their
/// lengths are, not where they differ.
pub fn constant_time_eq(a: &[u8], b: &[u8]) -> (r: bool)
    ensures
        r == (a@ == b@),
{
    if a.len() != b.len() {
        return false;
    }
    let mut difference: u8 = 0;
    let mut i: usize = 0;
    while i < a.len()
        invariant
            a@.len() == b@.len(),
            i <= a@.len(),
            difference == 0 <==> (forall|j: int| 0 <= j < i ==> a@[j] == b@[j]),
        decreases a@.len() - i,
    {
        let x = a[i];
        let y = b[i];
        assert((difference | (x ^ y)) == 0 <==> difference == 0 && x == y) by (bit_vector);
        difference = difference | (x ^ y);
        i += 1;
    }
    assert(difference == 0 ==> a@ =~= b@);
    difference == 0
}

/// What all requests share: the settings, how many recordings may be worked on at a
/// time, and since when the server runs.
pub struct AppState {
    pub config: Config,
    pub asr_permits: usize,
    /// When the server was started, in milliseconds.
    pub started_at: u64,
}

/// Whether a caller with this token is let in: all are where no token is asked for.
pub open spec fn is_let_in(expected: Option<String>, provided: Option<Seq<char>>) -> bool {
    match expected {
        Some(token) => provided == Some(token@),
        None => true,
    }
}

impl AppState {
    /// The state at the start. At least one recording can be worked on.
    pub fn new(config: Config, now: u64) -> (r: AppState)
        ensures
            r.config == config,
            r.started_at == now,
            r.asr_permits == (if config.asr.max_concurrency < 1 {
                1
            } else {
                config.asr.max_concurrency
            }),
    {
        let asr_permits: usize = if config.asr.max_concurrency < 1 {
            1
        } else {
            config.asr.max_concurrency
        };
        AppState { config, asr_permits, started_at: now }
    }

    /// The settings.
    pub fn config(&self) -> (r: &Config)
        ensures
            *r == self.config,
    {
        &self.config
    }

    /// How long the server has been running, in whole seconds.
    pub fn uptime_secs(&self, now: u64) -> (r: u64)
        ensures
            r == (if now >= self.started_at {
                (now - self.started_at) / 1000
            } else {
                0
            }),
    {
        if now >= self.started_at {
            (now - self.started_at) / 1000
        } else {
            0
        }
    }

    /// Lets a caller in who shows the right token. Where none is set, everyone is let
    /// in: such a server listens to its own machine only.
    pub fn authorize(&self, provided: Option<&str>) -> (r: AppResult<()>)
        ensures
            r is Ok == is_let_in(
                self.config.api_token,
                match provided {
                    Some(s) => Some(s@),
                    None => None,
                },
            ),
            r matches Err(e) ==> e is Unauthorized,
    {
        let expected = match &self.config.api_token {
            Some(token) => token.as_str(),
            None => return Ok(()),
        };
        let right = match provided {
            Some(got) => {
                proof {
                    encode_utf8_decode_utf8(got@);
                    encode_utf8_decode_utf8(expected@);
                }
                constant_time_eq(got.as_bytes(), expected.as_bytes())
            },
            None => false,
        };
        if right {
            Ok(())
        } else {
            Err(AppError::Unauthorized)
        }
    }
}

/// Where a token is asked for, only that token lets in, and it does; where none is,
/// everyone is let in.
pub proof fn only_the_token_lets_in(expected: Option<String>, provided: Option<Seq<char>>)
    ensures
        expected is None ==> is_let_in(expected, provided),
        expected matches Some(t) ==> (is_let_in(expected, provided) == (provided is Some && provided->0 == t@)),
{
}

} // verus!
