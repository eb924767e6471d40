//! The dashboard's data model: the events that drive it, its log entries
//! and its counters. Rendering and the terminal live with the outer
//! shell; the state updates are computed here.

use vstd::prelude::*;
use crate::text::{own_str, dec_str, u64_to_string, concat_str};

verus! {

/// Events that drive the dashboard state.
#[derive(Debug, Clone)]
pub enum TuiEvent {
    /// A tool was called.
    ToolCall { tool: String, session: String, timestamp: String },
    /// A tool finished executing.
    ToolResult { tool: String, success: bool, duration_ms: u64 },
    /// A model request was made.
    LlmRequest { model: String, messages: usize },
    /// A model response was received.
    LlmResponse { tokens: usize, duration_ms: u64 },
    /// An inbound message arrived on a channel.
    ChannelMessage { channel: String, sender: String },
    /// A generic log line.
    Log(String),
    /// An iteration count update.
    Iteration(usize),
}

#[derive(Debug, Clone)]
pub enum LogLevel {
    Info,
    Warn,
    Error,
    Debug,
    Tool,
    Llm,
}

impl LogLevel {
    /// The one-character marker shown next to a log line.
    pub fn symbol<'a>(&'a self) -> (r: &'a str)
        ensures
            (self is Info ==> r@ == "i"@),
            (self is Warn ==> r@ == "!"@),
            (self is Error ==> r@ == "x"@),
            (self is Tool ==> r@ == "*"@),
            (self is Llm ==> r@ == "@"@),
            (self is Debug ==> r@ == "?"@),
    {
        match self {
            LogLevel::Info => "i",
            LogLevel::Warn => "!",
            LogLevel::Error => "x",
            LogLevel::Tool => "*",
            LogLevel::Llm => "@",
            LogLevel::Debug => "?",
        }
    }
}

#[derive(Debug, Clone)]
pub struct LogEntry {
    pub timestamp: String,
    pub level: LogLevel,
    pub message: String,
}

#[derive(Debug, Clone)]
pub struct SessionInfo {
    pub key: String,
    pub channel: String,
    pub messages: usize,
    pub last_activity: String,
}

#[derive(Debug, Clone)]
pub struct DashboardStats {
    pub total_requests: u64,
    pub total_tokens: u64,
    pub total_tool_calls: u64,
    pub tool_errors: u64,
    pub uptime_secs: u64,
    pub active_channels: usize,
}

impl DashboardStats {
    pub fn new() -> (r: DashboardStats)
        ensures
            r.total_requests == 0,
            r.total_tokens == 0,
            r.total_tool_calls == 0,
            r.tool_errors == 0,
            r.uptime_secs == 0,
            r.active_channels == 0,
    {
        DashboardStats {
            total_requests: 0,
            total_tokens: 0,
            total_tool_calls: 0,
            tool_errors: 0,
            uptime_secs: 0,
            active_channels: 0,
        }
    }
}

/// The dashboard's whole state: a bounded log, the live sessions and the
/// counters.
#[derive(Debug)]
pub struct TuiModel {
    pub logs: Vec<LogEntry>,
    pub active_sessions: Vec<SessionInfo>,
    pub stats: DashboardStats,
    pub is_running: bool,
}

/// The log is bounded to this many entries.
pub open spec fn max_log_entries() -> nat {
    200
}

impl TuiModel {
    pub fn new() -> (r: TuiModel)
        ensures
            r.logs@.len() == 0,
            r.active_sessions@.len() == 0,
            r.is_running,
    {
        TuiModel {
            logs: Vec::new(),
            active_sessions: Vec::new(),
            stats: DashboardStats::new(),
            is_running: true,
        }
    }

    /// Append a log line, dropping the oldest entry once the bound is
    /// reached.
    pub fn push_log(&mut self, entry: LogEntry)
        ensures
            final(self).logs@.len() <= max_log_entries(),
            old(self).logs@.len() < max_log_entries() ==> final(self).logs@.len() == old(self).logs@.len() + 1,
            final(self).logs@.len() > 0,
            final(self).logs@.last() == entry,
            final(self).stats == old(self).stats,
            final(self).active_sessions == old(self).active_sessions,
            final(self).is_running == old(self).is_running,
    {
        while self.logs.len() >= 200
            invariant
                self.stats == old(self).stats,
                self.active_sessions == old(self).active_sessions,
                self.is_running == old(self).is_running,
                self.logs@.len() <= old(self).logs@.len(),
                old(self).logs@.len() < 200 ==> self.logs@.len() == old(self).logs@.len(),
            decreases self.logs@.len(),
        {
            self.logs.remove(0);
        }
        self.logs.push(entry);
    }

    /// Apply one dashboard event: bump the counters it speaks of and
    /// record its log line.
    pub fn handle_event(&mut self, event: TuiEvent, now: String)
        ensures
            !(event is Iteration) ==> final(self).logs@.len() <= max_log_entries(),
            (event matches TuiEvent::ToolCall { .. } ==> final(self).stats.total_tool_calls
                == (if old(self).stats.total_tool_calls < u64::MAX {
                old(self).stats.total_tool_calls + 1
            } else {
                u64::MAX as int
            })),
            (event matches TuiEvent::LlmRequest { .. } ==> final(self).stats.total_requests == (
            if old(self).stats.total_requests < u64::MAX {
                old(self).stats.total_requests + 1
            } else {
                u64::MAX as int
            })),
            ((event matches TuiEvent::ToolResult { success, .. } && !success) ==> final(self).stats.tool_errors == (if old(self).stats.tool_errors < u64::MAX {
                old(self).stats.tool_errors + 1
            } else {
                u64::MAX as int
            })),
            final(self).is_running == old(self).is_running,
    {
        match event {
            TuiEvent::ToolCall { tool, session, timestamp } => {
                if self.stats.total_tool_calls < u64::MAX {
                    self.stats.total_tool_calls = self.stats.total_tool_calls + 1;
                }
                // update or add the session entry
                let mut n: usize = 0;
                let mut found = false;
                while n < self.active_sessions.len() && !found
                    invariant
                        n <= self.active_sessions@.len(),
                        self.stats == old(self).stats_after_tool_call(),
                        self.logs == old(self).logs,
                        self.is_running == old(self).is_running,
                    decreases self.active_sessions@.len() - n, (if found { 0int } else { 1int }),
                {
                    if crate::text::str_eq(
                        self.active_sessions[n].key.as_str(),
                        session.as_str(),
                    ) {
                        let slot = &mut self.active_sessions[n];
                        slot.last_activity = timestamp.clone();
                        if slot.messages < usize::MAX {
                            slot.messages = slot.messages + 1;
                        }
                        found = true;
                    } else {
                        n += 1;
                    }
                }
                if !found {
                    self.active_sessions.push(
                        SessionInfo {
                            key: session.clone(),
                            channel: own_str("cli"),
                            messages: 1,
                            last_activity: timestamp.clone(),
                        },
                    );
                }
                let a = concat_str("* ", tool.as_str());
                let b = concat_str(a.as_str(), " (");
                let c = concat_str(b.as_str(), session.as_str());
                let d = concat_str(c.as_str(), ")");
                self.push_log(LogEntry { timestamp, level: LogLevel::Tool, message: d });
            },
            TuiEvent::ToolResult { tool, success, duration_ms } => {
                if !success && self.stats.tool_errors < u64::MAX {
                    self.stats.tool_errors = self.stats.tool_errors + 1;
                }
                let mark = if success {
                    "+ "
                } else {
                    "x "
                };
                let a = concat_str(mark, tool.as_str());
                let b = concat_str(a.as_str(), " (");
                let ms = u64_to_string(duration_ms);
                let c = concat_str(b.as_str(), ms.as_str());
                let d = concat_str(c.as_str(), "ms)");
                let level = if success {
                    LogLevel::Info
                } else {
                    LogLevel::Error
                };
                self.push_log(LogEntry { timestamp: now, level, message: d });
            },
            TuiEvent::LlmRequest { model, messages } => {
                if self.stats.total_requests < u64::MAX {
                    self.stats.total_requests = self.stats.total_requests + 1;
                }
                let a = concat_str("> ", model.as_str());
                let b = concat_str(a.as_str(), " (");
                let ms = u64_to_string(messages as u64);
                let c = concat_str(b.as_str(), ms.as_str());
                let d = concat_str(c.as_str(), " msgs)");
                self.push_log(LogEntry { timestamp: now, level: LogLevel::Llm, message: d });
            },
            TuiEvent::LlmResponse { tokens, duration_ms } => {
                if self.stats.total_tokens <= u64::MAX - (tokens as u64) {
                    self.stats.total_tokens = self.stats.total_tokens + (tokens as u64);
                } else {
                    self.stats.total_tokens = u64::MAX;
                }
                let tk = u64_to_string(tokens as u64);
                let a = concat_str("< ", tk.as_str());
                let b = concat_str(a.as_str(), " tokens (");
                let ms = u64_to_string(duration_ms);
                let c = concat_str(b.as_str(), ms.as_str());
                let d = concat_str(c.as_str(), "ms)");
                self.push_log(LogEntry { timestamp: now, level: LogLevel::Llm, message: d });
            },
            TuiEvent::ChannelMessage { channel, sender } => {
                let a = concat_str("msg ", channel.as_str());
                let b = concat_str(a.as_str(), " from ");
                let c = concat_str(b.as_str(), sender.as_str());
                self.push_log(LogEntry { timestamp: now, level: LogLevel::Info, message: c });
            },
            TuiEvent::Log(msg) => {
                self.push_log(LogEntry { timestamp: now, level: LogLevel::Info, message: msg });
            },
            TuiEvent::Iteration(_) => {},
        }
    }
}

impl TuiModel {
    /// The stats after one tool-call bump (saturating).
    pub open spec fn stats_after_tool_call(self) -> DashboardStats {
        DashboardStats {
            total_tool_calls: if self.stats.total_tool_calls < u64::MAX {
                (self.stats.total_tool_calls + 1) as u64
            } else {
                u64::MAX
            },
            ..self.stats
        }
    }
}

/// The uptime clock as `hh:mm:ss`, each part padded to two digits.
pub open spec fn pad2(n: nat) -> Seq<char> {
    if n < 10 {
        seq!['0'] + dec_str(n)
    } else {
        dec_str(n)
    }
}

pub open spec fn uptime_text(secs: nat) -> Seq<char> {
    pad2(secs / 3600) + seq![':'] + pad2((secs % 3600) / 60) + seq![':'] + pad2(secs % 60)
}

/// Format an uptime in seconds as `hh:mm:ss`.
pub fn format_uptime(secs: u64) -> (r: String)
    ensures
        r@ == uptime_text(secs as nat),
{
    let hours = secs / 3600;
    let mins = (secs % 3600) / 60;
    let s = secs % 60;
    let hs = pad2_exec(hours);
    let ms = pad2_exec(mins);
    let ss = pad2_exec(s);
    let a = concat_str(hs.as_str(), ":");
    let b = concat_str(a.as_str(), ms.as_str());
    let c = concat_str(b.as_str(), ":");
    let d = concat_str(c.as_str(), ss.as_str());
    proof {
        reveal_strlit(":");
        assert(":"@ =~= seq![':']);
        assert(d@ =~= uptime_text(secs as nat));
    }
    d
}

fn pad2_exec(n: u64) -> (r: String)
    ensures
        r@ == pad2(n as nat),
{
    if n < 10 {
        let d = u64_to_string(n);
        let r = concat_str("0", d.as_str());
        proof {
            reveal_strlit("0");
            assert("0"@ =~= seq!['0']);
        }
        r
    } else {
        u64_to_string(n)
    }
}

} // verus!
