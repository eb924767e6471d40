//! In-process counters: model requests, token totals and per-tool call
//! statistics. Wall-clock latencies and cost accounting belong to the
//! outer shell; the integer bookkeeping is computed here.

use vstd::prelude::*;
use crate::text::own_str;

verus! {

/// Aggregated statistics for one tool.
#[derive(Debug, Clone)]
pub struct ToolStat {
    pub name: String,
    pub calls: u64,
    pub errors: u64,
    pub avg_ms: u64,
}

/// The counter store: totals plus per-tool tallies.
#[derive(Debug)]
pub struct MetricsData {
    pub llm_requests: u64,
    pub prompt_tokens: u64,
    pub completion_tokens: u64,
    pub llm_total_ms: u64,
    pub tool_calls: Vec<(String, u64)>,
    pub tool_errors: Vec<(String, u64)>,
}

/// Saturating addition on counters.
pub open spec fn sat_add(a: u64, b: u64) -> u64 {
    if a + b <= u64::MAX {
        (a + b) as u64
    } else {
        u64::MAX
    }
}

fn sat_add_exec(a: u64, b: u64) -> (r: u64)
    ensures
        r == sat_add(a, b),
{
    if a <= u64::MAX - b {
        a + b
    } else {
        u64::MAX
    }
}

impl MetricsData {
    pub fn new() -> (r: MetricsData)
        ensures
            r.llm_requests == 0,
            r.prompt_tokens == 0,
            r.completion_tokens == 0,
            r.llm_total_ms == 0,
            r.tool_calls@.len() == 0,
            r.tool_errors@.len() == 0,
    {
        MetricsData {
            llm_requests: 0,
            prompt_tokens: 0,
            completion_tokens: 0,
            llm_total_ms: 0,
            tool_calls: Vec::new(),
            tool_errors: Vec::new(),
        }
    }

    /// Record one model call: the request count and the token totals grow
    /// by what the call reports (saturating).
    pub fn record_llm_call(&mut self, prompt_tokens: u64, completion_tokens: u64, duration_ms: u64)
        ensures
            final(self).llm_requests == sat_add(old(self).llm_requests, 1),
            final(self).prompt_tokens == sat_add(old(self).prompt_tokens, prompt_tokens),
            final(self).completion_tokens == sat_add(
                old(self).completion_tokens,
                completion_tokens,
            ),
            final(self).llm_total_ms == sat_add(old(self).llm_total_ms, duration_ms),
            final(self).tool_calls == old(self).tool_calls,
            final(self).tool_errors == old(self).tool_errors,
    {
        self.llm_requests = sat_add_exec(self.llm_requests, 1);
        self.prompt_tokens = sat_add_exec(self.prompt_tokens, prompt_tokens);
        self.completion_tokens = sat_add_exec(self.completion_tokens, completion_tokens);
        self.llm_total_ms = sat_add_exec(self.llm_total_ms, duration_ms);
    }

    /// Record one tool execution under its name; a failure also bumps the
    /// tool's error tally.
    pub fn record_tool_call(&mut self, name: &str, success: bool)
        ensures
            final(self).llm_requests == old(self).llm_requests,
            final(self).prompt_tokens == old(self).prompt_tokens,
            final(self).completion_tokens == old(self).completion_tokens,
    {
        bump_counter(&mut self.tool_calls, name);
        if !success {
            bump_counter(&mut self.tool_errors, name);
        }
    }

    /// The total of every tool tally.
    pub fn total_tool_calls(&self) -> (r: u64)
        ensures
            r == sat_sum(self.tool_calls@),
    {
        sum_counters(&self.tool_calls)
    }

    /// The total of every tool error tally.
    pub fn total_tool_errors(&self) -> (r: u64)
        ensures
            r == sat_sum(self.tool_errors@),
    {
        sum_counters(&self.tool_errors)
    }
}

/// The saturating sum of all tallies.
pub open spec fn sat_sum(s: Seq<(String, u64)>) -> u64
    decreases s.len(),
{
    if s.len() == 0 {
        0
    } else {
        sat_add(sat_sum(s.drop_last()), s.last().1)
    }
}

/// Bump the named counter by one, creating it at one on first use.
fn bump_counter(counters: &mut Vec<(String, u64)>, name: &str)
    ensures
        final(counters)@.len() >= old(counters)@.len(),
{
    let mut n: usize = 0;
    while n < counters.len()
        invariant
            n <= counters@.len(),
            counters@.len() == old(counters)@.len(),
        decreases counters@.len() - n,
    {
        if crate::text::str_eq(counters[n].0.as_str(), name) {
            let slot = &mut counters[n];
            slot.1 = sat_add_exec(slot.1, 1);
            return ;
        }
        n += 1;
    }
    counters.push((own_str(name), 1));
}

fn sum_counters(counters: &Vec<(String, u64)>) -> (r: u64)
    ensures
        r == sat_sum(counters@),
{
    let mut total: u64 = 0;
    let mut n: usize = 0;
    while n < counters.len()
        invariant
            n <= counters@.len(),
            total == sat_sum(counters@.subrange(0, n as int)),
        decreases counters@.len() - n,
    {
        total = sat_add_exec(total, counters[n].1);
        proof {
            let b = counters@.subrange(0, (n + 1) as int);
            assert(b.drop_last() =~= counters@.subrange(0, n as int));
            assert(b.last() == counters@[n as int]);
        }
        n += 1;
    }
    proof {
        assert(counters@.subrange(0, counters@.len() as int) =~= counters@);
    }
    total
}

} // verus!
