//! The data carried between the core and the assistant surface: the
//! provider configuration, the per-query terminal context, and the
//! streaming event payloads. The provider calls themselves are HTTP
//! and live with the caller; only the pure helpers are here.
use vstd::prelude::*;

verus! {

use crate::strutil::ascii_lower;
use crate::strutil::spec_ascii_lower;
use crate::strutil::spec_contains_seq;
use crate::strutil::str_contains;
use crate::strutil::str_eq;

/// Assistant provider configuration, as stored under the `ai` key of
/// the settings file. `keys` maps provider names to API keys, one
/// entry per provider.
pub struct AiConfig {
    pub provider: String,
    pub keys: Option<Vec<(String, String)>>,
    pub model: Option<String>,
    pub ollama_url: Option<String>,
    pub enabled: bool,
}

/// The key stored for a provider: the first entry whose name
/// matches, and only when its key text is non-empty.
pub open spec fn spec_api_key(keys: Seq<(String, String)>, provider: Seq<char>) -> Option<
    Seq<char>,
>
    decreases keys.len(),
{
    if keys.len() == 0 {
        None
    } else if keys[0].0@ == provider {
        if keys[0].1@.len() > 0 {
            Some(keys[0].1@)
        } else {
            None
        }
    } else {
        spec_api_key(keys.drop_first(), provider)
    }
}

impl AiConfig {
    /// The API key for the configured provider: its entry's text,
    /// unless no entry exists or the text is empty.
    pub fn api_key(&self) -> (r: Option<&str>)
        ensures
            match r {
                Some(k) => {
                    &&& self.keys matches Some(ks) && spec_api_key(ks@, self.provider@) == Some(
                        k@,
                    )
                    &&& k@.len() > 0
                },
                None => match self.keys {
                    Some(ks) => spec_api_key(ks@, self.provider@) is None,
                    None => true,
                },
            },
{
        match &self.keys {
            None => None,
            Some(ks) => {
                let n = ks.len();
                let mut i: usize = 0;
                proof {
                    assert(ks@.skip(0) =~= ks@);
                }
                while i < n
                    invariant
                        n == ks@.len(),
                        0 <= i <= n,
                        (self.keys matches Some(kss) && kss@ == ks@),
                        spec_api_key(ks@, self.provider@) == spec_api_key(
                            ks@.skip(i as int),
                            self.provider@,
                        ),
                    decreases n - i,
                {
                    proof {
                        assert(ks@.skip(i as int)[0] == ks@[i as int]);
                        assert(ks@.skip(i as int).drop_first() =~= ks@.skip(i as int + 1));
                    }
                    if str_eq(ks[i].0.as_str(), self.provider.as_str()) {
                        let key = &ks[i].1;
                        if key.as_str().unicode_len() > 0 {
                            return Some(key.as_str());
                        } else {
                            return None;
                        }
                    }
                    i = i + 1;
                }
                proof {
                    assert(ks@.skip(n as int).len() == 0);
                }
                None
            },
        }
    }
}

/// The terminal context sent with every assistant query, so answers
/// match the environment the user is looking at.
pub struct TerminalContext {
    pub os: Option<String>,
    pub shell: Option<String>,
    pub cwd: Option<String>,
    pub recent_output: Option<String>,
    pub connection_type: String,
}

/// One token of a streamed assistant response.
pub struct AiStreamChunk {
    pub request_id: String,
    pub chunk: String,
    pub done: bool,
    pub error: Option<String>,
}

/// A parsed assistant response: either a shell command with its
/// explanation and safety class, or a plain answer.
pub struct AiTranslateResponse {
    pub command: String,
    pub explanation: String,
    pub safety: String,
    pub answer: Option<String>,
}

/// The end of a streamed assistant response: the parsed result, or an
/// error text.
pub struct AiStreamDone {
    pub request_id: String,
    pub result: Option<AiTranslateResponse>,
    pub error: Option<String>,
}

/// Whether an upstream error message points at billing or quota
/// rather than at this client: matched case-insensitively on the
/// phrases the providers use. (Folding is ASCII, which covers their
/// messages.)
pub fn is_billing_error(msg: &str) -> (r: bool)
    ensures
        r == {
            let m = spec_ascii_lower(msg@);
            ||| spec_contains_seq(m, "credit balance"@)
            ||| spec_contains_seq(m, "billing"@)
            ||| spec_contains_seq(m, "purchase credits"@)
            ||| spec_contains_seq(m, "payment"@)
            ||| spec_contains_seq(m, "insufficient_quota"@)
            ||| spec_contains_seq(m, "exceeded your current quota"@)
        },
{
    let m = ascii_lower(msg);
    str_contains(m.as_str(), "credit balance") || str_contains(m.as_str(), "billing")
        || str_contains(m.as_str(), "purchase credits") || str_contains(m.as_str(), "payment")
        || str_contains(m.as_str(), "insufficient_quota") || str_contains(
        m.as_str(),
        "exceeded your current quota",
    )
}

} // verus!
