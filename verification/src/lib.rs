//! Verified core of an LLM-driven agent runtime: the iterative tool-calling
//! loop, the streaming transport protocol, session persistence, and the
//! admission control that guards the loop's entry point.

pub mod agent;
pub mod bus;
pub mod channel;
pub mod codec;
pub mod config;
pub mod exec;
pub mod filesystem;
pub mod json;
pub mod limiter;
pub mod market;
pub mod metrics;
pub mod msg;
pub mod plugin;
pub mod providers;
pub mod registry;
pub mod router;
pub mod session;
pub mod sse;
pub mod text;
pub mod transport;
pub mod tui;
pub mod vectordb;
pub mod web;
pub mod workflow;

use vstd::prelude::*;

verus! {

/// How a tool's output is reported back to the model and to the human user.
#[derive(Debug, Clone)]
pub struct ToolResult {
    /// Content shown to the LLM.
    pub for_llm: String,
    /// Content shown to the user (may differ from the LLM view).
    pub for_user: String,
    /// Whether this result represents an error.
    pub is_error: bool,
    /// Whether this tool runs asynchronously (result comes later).
    pub is_async: bool,
}

impl ToolResult {
    pub fn success(content: String) -> (r: ToolResult)
        ensures
            r.for_llm@ == content@,
            r.for_user@ == content@,
            !r.is_error,
            !r.is_async,
    {
        ToolResult { for_llm: content.clone(), for_user: content, is_error: false, is_async: false }
    }

    pub fn error(content: String) -> (r: ToolResult)
        ensures
            r.for_llm@ == content@,
            r.for_user@ == content@,
            r.is_error,
            !r.is_async,
    {
        ToolResult { for_llm: content.clone(), for_user: content, is_error: true, is_async: false }
    }

    /// Result shown to the LLM but silent to the user.
    pub fn silent(content: String) -> (r: ToolResult)
        ensures
            r.for_llm@ == content@,
            r.for_user@ == Seq::<char>::empty(),
            !r.is_error,
            !r.is_async,
    {
        ToolResult { for_llm: content, for_user: String::new(), is_error: false, is_async: false }
    }

    pub fn async_started(content: String) -> (r: ToolResult)
        ensures
            r.for_llm@ == content@,
            r.for_user@ == content@,
            !r.is_error,
            r.is_async,
    {
        ToolResult { for_llm: content.clone(), for_user: content, is_error: false, is_async: true }
    }
}

} // verus!
