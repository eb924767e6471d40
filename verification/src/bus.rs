//! The messages that cross the boundary to the channel adapters. The
//! queues and sinks that carry them are the outer shell's; the library
//! only holds and produces the values.

use vstd::prelude::*;

verus! {

/// A message arriving from a channel adapter.
#[derive(Debug, Clone)]
pub struct InboundMessage {
    pub channel: String,
    pub sender_id: String,
    pub chat_id: String,
    pub content: String,
    pub media: Vec<String>,
    pub session_key: String,
    pub metadata: Vec<(String, String)>,
}

/// A message leaving for a channel adapter.
#[derive(Debug, Clone)]
pub struct OutboundMessage {
    pub channel: String,
    pub chat_id: String,
    pub content: String,
    pub metadata: Vec<(String, String)>,
}

} // verus!
