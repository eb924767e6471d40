//! Picking the provider whose credentials serve a model: first by the
//! model's name, then the router-friendly fallback, then any provider
//! with a key at all. The HTTP client that uses the credentials is the
//! outer shell's.

use vstd::prelude::*;
use crate::config::{ProviderEntry, ProviderEntryWithProxy};
use crate::text::{lower_of, contains_seq, lowercase, str_contains, own_str};

verus! {

/// Every provider's credentials, by provider.
#[derive(Debug, Clone)]
pub struct Providers {
    pub openai: ProviderEntry,
    pub openrouter: ProviderEntry,
    pub groq: ProviderEntry,
    pub zhipu: ProviderEntry,
    pub gemini: ProviderEntry,
    pub vllm: ProviderEntry,
    pub nvidia: ProviderEntryWithProxy,
    pub moonshot: ProviderEntry,
}

/// One prefix rule: a model whose lowercased name holds the prefix and a
/// provider with a key win.
pub open spec fn rule_hit(model_lower: Seq<char>, prefix: Seq<char>, e: ProviderEntry) -> bool {
    contains_seq(model_lower, prefix) && e.api_key@.len() > 0
}

/// The outcome of the name-based pass, in rule order.
pub open spec fn resolve_by_name(p: Providers, ml: Seq<char>) -> Option<
    (Seq<char>, Seq<char>, Seq<char>),
> {
    if rule_hit(ml, "gpt"@, p.openai) {
        Some((p.openai.api_key@, p.openai.api_base@, "gpt"@))
    } else if rule_hit(ml, "o1"@, p.openai) {
        Some((p.openai.api_key@, p.openai.api_base@, "o1"@))
    } else if rule_hit(ml, "o3"@, p.openai) {
        Some((p.openai.api_key@, p.openai.api_base@, "o3"@))
    } else if rule_hit(ml, "o4"@, p.openai) {
        Some((p.openai.api_key@, p.openai.api_base@, "o4"@))
    } else if rule_hit(ml, "gemini"@, p.gemini) {
        Some((p.gemini.api_key@, p.gemini.api_base@, "gemini"@))
    } else if rule_hit(ml, "glm"@, p.zhipu) {
        Some((p.zhipu.api_key@, p.zhipu.api_base@, "glm"@))
    } else if rule_hit(ml, "llama"@, p.groq) {
        Some((p.groq.api_key@, p.groq.api_base@, "llama"@))
    } else if rule_hit(ml, "mixtral"@, p.groq) {
        Some((p.groq.api_key@, p.groq.api_base@, "mixtral"@))
    } else if rule_hit(ml, "moonshot"@, p.moonshot) {
        Some((p.moonshot.api_key@, p.moonshot.api_base@, "moonshot"@))
    } else {
        None
    }
}

/// The outcome of the fallback passes: the router-friendly provider when
/// it has a key, else the first provider with a key at all.
pub open spec fn resolve_fallback(p: Providers) -> Option<(Seq<char>, Seq<char>, Seq<char>)> {
    if p.openrouter.api_key@.len() > 0 {
        let base = if p.openrouter.api_base@.len() == 0 {
            "https://openrouter.ai/api/v1"@
        } else {
            p.openrouter.api_base@
        };
        Some((p.openrouter.api_key@, base, "openrouter"@))
    } else if p.openai.api_key@.len() > 0 {
        Some((p.openai.api_key@, p.openai.api_base@, "openai"@))
    } else if p.groq.api_key@.len() > 0 {
        Some((p.groq.api_key@, p.groq.api_base@, "groq"@))
    } else if p.zhipu.api_key@.len() > 0 {
        Some((p.zhipu.api_key@, p.zhipu.api_base@, "zhipu"@))
    } else if p.gemini.api_key@.len() > 0 {
        Some((p.gemini.api_key@, p.gemini.api_base@, "gemini"@))
    } else if p.vllm.api_key@.len() > 0 {
        Some((p.vllm.api_key@, p.vllm.api_base@, "vllm"@))
    } else if p.moonshot.api_key@.len() > 0 {
        Some((p.moonshot.api_key@, p.moonshot.api_base@, "moonshot"@))
    } else {
        None
    }
}

/// What resolving credentials for a model yields.
pub open spec fn resolve_provider_spec(p: Providers, model: Seq<char>) -> Option<
    (Seq<char>, Seq<char>, Seq<char>),
> {
    match resolve_by_name(p, lower_of(model)) {
        Some(hit) => Some(hit),
        None => resolve_fallback(p),
    }
}

pub open spec fn triple_view(t: (String, String, String)) -> (Seq<char>, Seq<char>, Seq<char>) {
    (t.0@, t.1@, t.2@)
}

impl Providers {
    /// Find the API key and base URL for the given model: the model's
    /// name picks a provider when that provider has a key; otherwise the
    /// fallbacks apply. Returns (api_key, api_base, provider_name).
    pub fn resolve_provider(&self, model: &str) -> (r: Option<(String, String, String)>)
        ensures
            (r matches Some(t) ==> resolve_provider_spec(*self, model@) == Some(triple_view(t))),
            (r is None ==> resolve_provider_spec(*self, model@) is None),
    {
        let lowered = lowercase(model);
        let ml = lowered.as_str();
        if str_contains(ml, "gpt") && self.openai.api_key.unicode_len() > 0 {
            return Some(
                (self.openai.api_key.clone(), self.openai.api_base.clone(), own_str("gpt")),
            );
        }
        if str_contains(ml, "o1") && self.openai.api_key.unicode_len() > 0 {
            return Some(
                (self.openai.api_key.clone(), self.openai.api_base.clone(), own_str("o1")),
            );
        }
        if str_contains(ml, "o3") && self.openai.api_key.unicode_len() > 0 {
            return Some(
                (self.openai.api_key.clone(), self.openai.api_base.clone(), own_str("o3")),
            );
        }
        if str_contains(ml, "o4") && self.openai.api_key.unicode_len() > 0 {
            return Some(
                (self.openai.api_key.clone(), self.openai.api_base.clone(), own_str("o4")),
            );
        }
        if str_contains(ml, "gemini") && self.gemini.api_key.unicode_len() > 0 {
            return Some(
                (self.gemini.api_key.clone(), self.gemini.api_base.clone(), own_str("gemini")),
            );
        }
        if str_contains(ml, "glm") && self.zhipu.api_key.unicode_len() > 0 {
            return Some(
                (self.zhipu.api_key.clone(), self.zhipu.api_base.clone(), own_str("glm")),
            );
        }
        if str_contains(ml, "llama") && self.groq.api_key.unicode_len() > 0 {
            return Some(
                (self.groq.api_key.clone(), self.groq.api_base.clone(), own_str("llama")),
            );
        }
        if str_contains(ml, "mixtral") && self.groq.api_key.unicode_len() > 0 {
            return Some(
                (self.groq.api_key.clone(), self.groq.api_base.clone(), own_str("mixtral")),
            );
        }
        if str_contains(ml, "moonshot") && self.moonshot.api_key.unicode_len() > 0 {
            return Some(
                (
                    self.moonshot.api_key.clone(),
                    self.moonshot.api_base.clone(),
                    own_str("moonshot"),
                ),
            );
        }
        if self.openrouter.api_key.unicode_len() > 0 {
            let base = if self.openrouter.api_base.unicode_len() == 0 {
                own_str("https://openrouter.ai/api/v1")
            } else {
                self.openrouter.api_base.clone()
            };
            return Some((self.openrouter.api_key.clone(), base, own_str("openrouter")));
        }
        if self.openai.api_key.unicode_len() > 0 {
            return Some(
                (self.openai.api_key.clone(), self.openai.api_base.clone(), own_str("openai")),
            );
        }
        if self.groq.api_key.unicode_len() > 0 {
            return Some(
                (self.groq.api_key.clone(), self.groq.api_base.clone(), own_str("groq")),
            );
        }
        if self.zhipu.api_key.unicode_len() > 0 {
            return Some(
                (self.zhipu.api_key.clone(), self.zhipu.api_base.clone(), own_str("zhipu")),
            );
        }
        if self.gemini.api_key.unicode_len() > 0 {
            return Some(
                (self.gemini.api_key.clone(), self.gemini.api_base.clone(), own_str("gemini")),
            );
        }
        if self.vllm.api_key.unicode_len() > 0 {
            return Some(
                (self.vllm.api_key.clone(), self.vllm.api_base.clone(), own_str("vllm")),
            );
        }
        if self.moonshot.api_key.unicode_len() > 0 {
            return Some(
                (
                    self.moonshot.api_key.clone(),
                    self.moonshot.api_base.clone(),
                    own_str("moonshot"),
                ),
            );
        }
        None
    }
}

/// The prefix of a string slice, by characters.
fn str_starts_with(s: &str, p: &str) -> (r: bool)
    ensures
        r == (p@.len() <= s@.len() && s@.subrange(0, p@.len() as int) == p@),
{
    let sv = crate::text::chars_of(s);
    let pv = crate::text::chars_of(p);
    crate::text::starts_with_chars(&sv, &pv)
}

/// The default API base for an api key: a handful of well-known key
/// prefixes pick their vendor's endpoint, anything else the standard one.
pub open spec fn key_prefix(s: Seq<char>, p: Seq<char>) -> bool {
    p.len() <= s.len() && s.subrange(0, p.len() as int) == p
}

pub open spec fn default_base_of(api_key: Seq<char>) -> Seq<char> {
    if key_prefix(api_key, "sk-or-"@) {
        "https://openrouter.ai/api/v1"@
    } else if key_prefix(api_key, "gsk_"@) {
        "https://api.groq.com/openai/v1"@
    } else if key_prefix(api_key, "nvapi-"@) {
        "https://integrate.api.nvidia.com/v1"@
    } else {
        "https://api.openai.com/v1"@
    }
}

/// Detect the API base an api key belongs to when none was configured.
pub fn default_api_base(api_key: &str) -> (r: String)
    ensures
        r@ == default_base_of(api_key@),
{
    if str_starts_with(api_key, "sk-or-") {
        own_str("https://openrouter.ai/api/v1")
    } else if str_starts_with(api_key, "gsk_") {
        own_str("https://api.groq.com/openai/v1")
    } else if str_starts_with(api_key, "nvapi-") {
        own_str("https://integrate.api.nvidia.com/v1")
    } else {
        own_str("https://api.openai.com/v1")
    }
}

} // verus!
