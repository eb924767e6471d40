//! The agent loop: build the prompt, call the model, run the requested
//! tools, feed their results back, and repeat until the model answers
//! without tool calls or the iteration budget runs out. The model call
//! itself goes through a provider the caller supplies; everything the
//! loop decides is computed here.

use vstd::prelude::*;
use crate::json::Json;
use crate::msg::{
    Message, MessageV, LLMResponse, LLMResponseV, ToolCall, ToolDefinition, view_msgs,
    has_calls_of,
};
use crate::registry::{Tool, ToolRegistry, execute_batch_sequential, assemble_tool_messages};
use crate::router::ModelRouter;
use crate::session::{SessionStore, clone_message, clone_tool_calls};
use crate::limiter::RateLimiter;
use crate::bus::{InboundMessage, OutboundMessage};
use crate::text::{own_str, concat_str};

verus! {

/// What a model endpoint must offer the loop: one blocking chat call.
/// Several providers stand behind this seam and users may bring their
/// own; nothing is promised of what the model says.
pub trait LlmProvider {
    fn chat(
        &self,
        messages: &Vec<Message>,
        tools: &Vec<ToolDefinition>,
        model: &str,
        options: &Vec<(String, Json)>,
    ) -> Result<LLMResponse, String>;

    fn default_model(&self) -> &str;
}

/// What one model response means for the turn: either the final answer
/// or a batch of tool calls to run.
pub enum TurnDecision {
    Final(String),
    RunTools(String, Vec<ToolCall>),
}

/// Decide one iteration from the model's response: a response without
/// tool calls ends the turn with exactly its content; one with tool calls
/// hands them over, in order, with the assistant text that came along.
pub fn decide_turn(response: LLMResponse) -> (r: TurnDecision)
    ensures
        !has_calls_of(response.calls_view()) ==> (r matches TurnDecision::Final(c) && c@
            == response.content@),
        has_calls_of(response.calls_view()) ==> (r matches TurnDecision::RunTools(c, calls) && c@
            == response.content@ && (response.tool_calls matches Some(tc) && crate::msg::view_calls(
            calls@,
        ) == crate::msg::view_calls(tc@))),
{
    if !response.has_tool_calls() {
        TurnDecision::Final(response.content)
    } else {
        let calls = match response.tool_calls {
            Some(c) => c,
            None => Vec::new(),
        };
        TurnDecision::RunTools(response.content, calls)
    }
}

/// The fixed reply sent when a sender is rate-limited, mirrored back to
/// the inbound channel and chat; it bypasses the loop entirely.
pub fn rate_limited_reply(msg: &InboundMessage) -> (r: OutboundMessage)
    ensures
        r.channel@ == msg.channel@,
        r.chat_id@ == msg.chat_id@,
        r.content@ == "Rate limit exceeded. Please wait a moment."@,
        r.metadata@.len() == 0,
{
    OutboundMessage {
        channel: msg.channel.clone(),
        chat_id: msg.chat_id.clone(),
        content: own_str("Rate limit exceeded. Please wait a moment."),
        metadata: Vec::new(),
    }
}

/// The fixed text returned when the iteration budget runs out.
pub fn max_iterations_sentinel() -> (r: String)
    ensures
        r@ == "(Agent reached maximum tool iterations without a final response)"@,
{
    own_str("(Agent reached maximum tool iterations without a final response)")
}

/// Summarization fires when the history length is a positive multiple of
/// the threshold.
pub open spec fn summarize_due(count: nat, threshold: nat) -> bool {
    threshold > 0 && count > 0 && count % threshold == 0
}

pub fn should_summarize(count: usize) -> (r: bool)
    ensures
        r == summarize_due(count as nat, 20),
{
    count > 0 && count % 20 == 0
}

/// The prompt for one turn: the system identity, the rolling summary when
/// one exists, the persisted history when enabled, then the new user
/// message.
pub open spec fn prompt_msgs(
    system_prompt: Seq<char>,
    summary: Seq<char>,
    history: Seq<MessageV>,
    user_text: Seq<char>,
) -> Seq<MessageV> {
    let head = seq![
        MessageV {
            role: "system"@,
            content: system_prompt,
            tool_calls: None,
            tool_call_id: None,
        },
    ];
    let sum = if summary.len() > 0 {
        seq![
            MessageV {
                role: "system"@,
                content: "Summary of earlier conversation:\n"@ + summary,
                tool_calls: None,
                tool_call_id: None,
            },
        ]
    } else {
        Seq::<MessageV>::empty()
    };
    let tail = seq![
        MessageV { role: "user"@, content: user_text, tool_calls: None, tool_call_id: None },
    ];
    head + sum + history + tail
}

/// Assemble the prompt for one turn.
#[verifier::loop_isolation(false)]
pub fn build_messages(
    system_prompt: &str,
    summary: &str,
    history: Vec<Message>,
    user_text: &str,
) -> (r: Vec<Message>)
    ensures
        view_msgs(r@) == prompt_msgs(system_prompt@, summary@, view_msgs(history@), user_text@),
{
    let ghost hv = view_msgs(history@);
    let mut out: Vec<Message> = Vec::new();
    out.push(Message::system(own_str(system_prompt)));
    if summary.unicode_len() > 0 {
        let text = concat_str("Summary of earlier conversation:\n", summary);
        out.push(Message::system(text));
    }
    let ghost pre = out@;
    let n = history.len();
    let mut history = history;
    let mut k: usize = 0;
    while k < n
        invariant
            k <= n,
            history@.len() == n - k,
            out@.len() == pre.len() + k,
            out@.subrange(0, pre.len() as int) == pre,
            forall|i: int| 0 <= i < history@.len() ==> history@[i].mv() == hv[k + i],
            forall|i: int| 0 <= i < k ==> out@[pre.len() + i].mv() == hv[i],
        decreases n - k,
    {
        let m = history.remove(0);
        out.push(m);
        proof {
            assert(out@.subrange(0, pre.len() as int) =~= pre);
        }
        k += 1;
    }
    out.push(Message::user(own_str(user_text)));
    proof {
        assert(out@.subrange(0, pre.len() as int) =~= pre);
        let pm = prompt_msgs(system_prompt@, summary@, hv, user_text@);
        if summary@.len() > 0 {
            assert(pre.len() == 2);
        } else {
            assert(pre.len() == 1);
        }
        assert(out@.len() == pm.len());
        assert forall|i: int| 0 <= i < out@.len() implies view_msgs(out@)[i] =~= pm[i] by {
            let head_len = pre.len() as int;
            assert(view_msgs(out@)[i] == out@[i].mv());
            if i < head_len {
                assert(out@[i] == pre[i]);
                if i == 0 {
                    assert(pm[0] == MessageV {
                        role: "system"@,
                        content: system_prompt@,
                        tool_calls: None,
                        tool_call_id: None,
                    });
                } else {
                    assert(summary@.len() > 0 && i == 1);
                    assert(pm[1] == MessageV {
                        role: "system"@,
                        content: "Summary of earlier conversation:\n"@ + summary@,
                        tool_calls: None,
                        tool_call_id: None,
                    });
                }
            } else if i < head_len + n {
                assert(out@[i].mv() == hv[i - head_len]);
                assert(pm[i] == hv[i - head_len]);
            } else {
                assert(i == head_len + n);
                assert(pm[i] == MessageV {
                    role: "user"@,
                    content: user_text@,
                    tool_calls: None,
                    tool_call_id: None,
                });
            }
        }
        assert(view_msgs(out@) =~= pm);
    }
    out
}


// ---------------------------------------------------------------------------
// The turn's effect on the session store
// ---------------------------------------------------------------------------

/// The ghost view of a plain user message.
pub open spec fn user_msg_v(text: Seq<char>) -> MessageV {
    MessageV { role: "user"@, content: text, tool_calls: None, tool_call_id: None }
}

/// The ghost view of a plain assistant message.
pub open spec fn assistant_msg_v(text: Seq<char>) -> MessageV {
    MessageV { role: "assistant"@, content: text, tool_calls: None, tool_call_id: None }
}

/// A sequence of whole tool rounds: each round is one assistant message
/// carrying the round's calls, followed by exactly one `tool` message per
/// call, in call order, each answering its call's id.
pub open spec fn tool_rounds(s: Seq<MessageV>) -> bool
    decreases s.len(),
{
    if s.len() == 0 {
        true
    } else {
        match s[0].tool_calls {
            Some(tc) => {
                &&& s[0].role == "assistant"@
                &&& tc.len() > 0
                &&& s.len() >= tc.len() + 1
                &&& (forall|i: int|
                    0 <= i < tc.len() ==> (#[trigger] s[1 + i]).role == "tool"@ && s[1
                        + i].tool_call_id == Some(tc[i].id) && s[1 + i].tool_calls is None)
                &&& tool_rounds(s.skip(tc.len() as int + 1))
            },
            None => false,
        }
    }
}

/// One well-formed round.
pub open spec fn is_round(r: Seq<MessageV>) -> bool {
    &&& r.len() >= 1
    &&& r[0].role == "assistant"@
    &&& (r[0].tool_calls matches Some(tc) && tc.len() > 0 && r.len() == tc.len() + 1 && (
    forall|i: int|
        0 <= i < tc.len() ==> (#[trigger] r[1 + i]).role == "tool"@ && r[1 + i].tool_call_id
            == Some(tc[i].id) && r[1 + i].tool_calls is None))
}

/// Appending one whole round to a round sequence keeps it one.
proof fn lemma_rounds_append(s: Seq<MessageV>, r: Seq<MessageV>)
    requires
        tool_rounds(s),
        is_round(r),
    ensures
        tool_rounds(s + r),
    decreases s.len(),
{
    if s.len() == 0 {
        assert(s + r =~= r);
        let tc = r[0].tool_calls.unwrap();
        assert(r.skip(tc.len() as int + 1) =~= Seq::<MessageV>::empty());
        assert(tool_rounds(Seq::<MessageV>::empty()));
        assert(tool_rounds(r));
    } else {
        let tc = s[0].tool_calls.unwrap();
        assert((s + r)[0] == s[0]);
        assert forall|i: int| 0 <= i < tc.len() implies (#[trigger] (s + r)[1 + i]) == s[1
            + i] by {}
        lemma_rounds_append(s.skip(tc.len() as int + 1), r);
        assert((s + r).skip(tc.len() as int + 1) =~= s.skip(tc.len() as int + 1) + r);
    }
}

/// Everything one turn promises of the session store, whatever the
/// provider and the tools returned: the user message lands right after
/// the old history; the history then grows only by whole tool rounds
/// and, when the turn found its answer, by one final assistant message
/// whose content is exactly the returned text; an exhausted budget
/// returns the fixed sentinel; no other session is touched.
pub open spec fn turn_effect(
    pre: SessionStore,
    post: SessionStore,
    session_key: Seq<char>,
    user_text: Seq<char>,
    r: Result<String, String>,
) -> bool {
    let base = pre.msgs_of(session_key).push(user_msg_v(user_text));
    let h1 = post.msgs_of(session_key);
    &&& h1.len() >= base.len()
    &&& h1.subrange(0, base.len() as int) == base
    &&& (forall|k: Seq<char>| k != session_key ==> post.session_of(k) == pre.session_of(k))
    &&& (match r {
        Ok(c) => (c@ == "(Agent reached maximum tool iterations without a final response)"@
            && tool_rounds(h1.skip(base.len() as int))) || (h1.len() > base.len() && h1.last()
            == assistant_msg_v(c@) && tool_rounds(h1.skip(base.len() as int).drop_last())),
        Err(_) => tool_rounds(h1.skip(base.len() as int)),
    })
}

// ---------------------------------------------------------------------------
// The loop model
// ---------------------------------------------------------------------------

/// How the iteration state machine unwinds over the responses the model
/// gives, starting at iteration `i` with budget `max`: the first response
/// without tool calls ends the loop with its content; responses with tool
/// calls consume an iteration each; an exhausted budget (or provider) ends
/// the loop with no final answer.
pub open spec fn loop_model_at(rs: Seq<LLMResponseV>, i: nat, max: nat) -> (nat, Option<Seq<char>>)
    decreases max - i,
{
    if i >= max || i >= rs.len() {
        (i, None)
    } else if !has_calls_of(rs[i as int].tool_calls) {
        ((i + 1) as nat, Some(rs[i as int].content))
    } else {
        loop_model_at(rs, (i + 1) as nat, max)
    }
}

/// The termination law: a response without tool calls ends the loop in
/// exactly one iteration, and the returned text is that response's
/// content.
pub proof fn lemma_no_calls_terminates(rs: Seq<LLMResponseV>, max: nat)
    requires
        rs.len() >= 1,
        max >= 1,
        !has_calls_of(rs[0].tool_calls),
    ensures
        loop_model_at(rs, 0, max) == ((1 as nat), Some(rs[0].content)),
{
}

// ---------------------------------------------------------------------------
// Summarization request
// ---------------------------------------------------------------------------

/// The `[role]: content` transcript of a history.
pub open spec fn transcript(ms: Seq<MessageV>) -> Seq<char>
    decreases ms.len(),
{
    if ms.len() == 0 {
        Seq::<char>::empty()
    } else {
        transcript(ms.drop_last()) + "["@ + ms.last().role + "]: "@ + ms.last().content + "\n"@
    }
}

/// The two-message request that asks the model to condense a history.
pub open spec fn summary_request(existing: Seq<char>, ms: Seq<MessageV>) -> Seq<MessageV> {
    let content = "Summarize the following conversation concisely, preserving key information and decisions:\n\n"@
        + (if existing.len() > 0 {
        "Previous summary:\n"@ + existing + "\n\n"@
    } else {
        Seq::<char>::empty()
    }) + transcript(ms);
    seq![
        MessageV {
            role: "system"@,
            content: "You are a conversation summarizer. Create a concise summary."@,
            tool_calls: None,
            tool_call_id: None,
        },
        MessageV { role: "user"@, content, tool_calls: None, tool_call_id: None },
    ]
}

/// Build the summarization request for a history.
#[verifier::loop_isolation(false)]
pub fn build_summary_request(existing: &str, messages: &Vec<Message>) -> (r: Vec<Message>)
    ensures
        view_msgs(r@) == summary_request(existing@, view_msgs(messages@)),
{
    let ghost mv = view_msgs(messages@);
    let mut content = own_str(
        "Summarize the following conversation concisely, preserving key information and decisions:\n\n",
    );
    if existing.unicode_len() > 0 {
        let a = concat_str("Previous summary:\n", existing);
        let b = concat_str(a.as_str(), "\n\n");
        content = concat_str(content.as_str(), b.as_str());
    }
    let ghost base = content@;
    let mut k: usize = 0;
    proof {
        assert(mv.subrange(0, 0) =~= Seq::<MessageV>::empty());
        assert(base + transcript(mv.subrange(0, 0)) =~= base);
    }
    while k < messages.len()
        invariant
            k <= messages@.len(),
            mv == view_msgs(messages@),
            content@ == base + transcript(mv.subrange(0, k as int)),
        decreases messages@.len() - k,
    {
        let m = &messages[k];
        let a = concat_str("[", m.role.as_str());
        let b = concat_str(a.as_str(), "]: ");
        let c = concat_str(b.as_str(), m.content.as_str());
        let d = concat_str(c.as_str(), "\n");
        content = concat_str(content.as_str(), d.as_str());
        proof {
            let pm = mv.subrange(0, (k + 1) as int);
            assert(pm.drop_last() =~= mv.subrange(0, k as int));
            assert(pm.last() == mv[k as int]);
            assert(content@ =~= base + transcript(pm));
        }
        k += 1;
    }
    proof {
        assert(mv.subrange(0, mv.len() as int) =~= mv);
    }
    let mut out: Vec<Message> = Vec::new();
    out.push(
        Message::system(own_str("You are a conversation summarizer. Create a concise summary.")),
    );
    out.push(Message::user(content));
    proof {
        assert(view_msgs(out@) =~= summary_request(existing@, mv));
    }
    out
}

// ---------------------------------------------------------------------------
// The orchestrator
// ---------------------------------------------------------------------------

/// The agent loop: a provider, the tool registry, the session store, the
/// router and the limiter, plus the per-call knobs.
pub struct AgentLoop<P, T> {
    pub provider: P,
    pub tools: ToolRegistry<T>,
    pub sessions: SessionStore,
    pub router: ModelRouter,
    pub limiter: RateLimiter,
    pub max_tool_iterations: usize,
    pub default_model: String,
    pub system_prompt: String,
    pub options: Vec<(String, Json)>,
}

impl<P: LlmProvider, T: Tool> AgentLoop<P, T> {
    pub open spec fn wf(self) -> bool {
        self.sessions.wf() && self.limiter.wf()
    }

    pub fn new(
        provider: P,
        tools: ToolRegistry<T>,
        router: ModelRouter,
        limiter: RateLimiter,
        max_tool_iterations: usize,
        default_model: String,
        system_prompt: String,
        options: Vec<(String, Json)>,
    ) -> (r: AgentLoop<P, T>)
        requires
            limiter.wf(),
        ensures
            r.wf(),
            r.provider == provider,
            r.tools == tools,
            r.router == router,
            r.limiter == limiter,
            r.max_tool_iterations == max_tool_iterations,
            r.default_model == default_model,
            r.system_prompt == system_prompt,
            r.options == options,
            forall|k: Seq<char>| r.sessions.session_of(k) is None,
    {
        AgentLoop {
            provider,
            tools,
            sessions: SessionStore::new(),
            router,
            limiter,
            max_tool_iterations,
            default_model,
            system_prompt,
            options,
        }
    }

    /// Whether a sender may enter the loop now: exactly the rate
    /// limiter's admission check, with everything else untouched.
    pub fn allow_sender(&mut self, sender_id: &str) -> (r: bool)
        requires
            old(self).wf(),
        ensures
            final(self).wf(),
            final(self).sessions == old(self).sessions,
            final(self).provider == old(self).provider,
            final(self).tools == old(self).tools,
            final(self).router == old(self).router,
            final(self).max_tool_iterations == old(self).max_tool_iterations,
            final(self).default_model == old(self).default_model,
            final(self).system_prompt == old(self).system_prompt,
            final(self).options == old(self).options,
            old(self).limiter.max_requests == 0 ==> r && final(self).limiter == old(
                self,
            ).limiter,
            old(self).limiter.max_requests > 0 ==> exists|now: u64|
                crate::limiter::check_outcome(
                    old(self).limiter,
                    final(self).limiter,
                    sender_id@,
                    now,
                    r,
                ),
            forall|k: Seq<char>|
                k != sender_id@ ==> final(self).limiter.times_of(k) == old(
                    self,
                ).limiter.times_of(k),
    {
        let ghost pre_lim = self.limiter;
        let r = self.limiter.check_rate_limit(sender_id);
        proof {
            if pre_lim.max_requests > 0 {
                let now = choose|now: u64|
                    crate::limiter::check_outcome(pre_lim, self.limiter, sender_id@, now, r);
                assert(crate::limiter::check_outcome(pre_lim, self.limiter, sender_id@, now, r));
            }
        }
        r
    }

    /// One full turn: build the prompt, iterate model calls and tool
    /// batches until the model answers without tool calls or the budget
    /// runs out, then maybe condense the history. Whatever the provider
    /// and the tools decided, the turn's effect on the store is exactly
    /// `turn_effect`: the user message is persisted, the history grows
    /// only by whole tool rounds plus at most one final assistant
    /// message, the returned `Ok` text is that final message's content or
    /// the fixed sentinel, and no other session is touched.
    #[verifier::loop_isolation(false)]
    pub fn run_agent_loop(
        &mut self,
        user_message: &str,
        session_key: &str,
        use_history: bool,
    ) -> (r: Result<String, String>)
        requires
            old(self).wf(),
        ensures
            final(self).wf(),
            turn_effect(
                old(self).sessions,
                final(self).sessions,
                session_key@,
                user_message@,
                r,
            ),
            final(self).sessions.summary_of(session_key@) == old(self).sessions.summary_of(
                session_key@,
            ) || (r is Ok && summarize_due(final(self).sessions.msgs_of(session_key@).len(), 20)),
    {
        let model = own_str(self.router.resolve_model(user_message));
        let summary = self.sessions.get_summary(session_key);
        let history: Vec<Message> = if use_history {
            self.sessions.get_messages(session_key)
        } else {
            Vec::new()
        };
        let mut messages = build_messages(
            self.system_prompt.as_str(),
            summary.as_str(),
            history,
            user_message,
        );
        let user_msg = Message::user(own_str(user_message));
        proof {
            assert(user_msg.mv() == user_msg_v(user_message@));
        }
        self.sessions.add_message(session_key, user_msg);
        let ghost base = old(self).sessions.msgs_of(session_key@).push(
            user_msg_v(user_message@),
        );
        proof {
            assert(self.sessions.msgs_of(session_key@) == base);
            assert(self.sessions.msgs_of(session_key@).subrange(0, base.len() as int) =~= base);
            assert(self.sessions.msgs_of(session_key@).skip(base.len() as int)
                =~= Seq::<MessageV>::empty());
            assert(tool_rounds(Seq::<MessageV>::empty()));
        }
        let tool_defs = self.tools.get_definitions();
        let mut final_content: Option<String> = None;
        let max_iterations = self.max_tool_iterations;
        let mut it: usize = 0;
        while it < max_iterations && final_content.is_none()
            invariant
                self.sessions.wf(),
                self.limiter.wf(),
                it <= max_iterations,
                forall|k: Seq<char>|
                    k != session_key@ ==> self.sessions.session_of(k) == old(
                        self,
                    ).sessions.session_of(k),
                self.sessions.summary_of(session_key@) == old(self).sessions.summary_of(
                    session_key@,
                ),
                self.sessions.msgs_of(session_key@).len() >= base.len(),
                self.sessions.msgs_of(session_key@).subrange(0, base.len() as int) == base,
                (match final_content {
                    Some(c) => {
                        let h = self.sessions.msgs_of(session_key@);
                        h.len() > base.len() && h.last() == assistant_msg_v(c@) && tool_rounds(
                            h.skip(base.len() as int).drop_last(),
                        )
                    },
                    None => tool_rounds(
                        self.sessions.msgs_of(session_key@).skip(base.len() as int),
                    ),
                }),
            decreases max_iterations - it,
        {
            let response = match self.provider.chat(
                &messages,
                &tool_defs,
                model.as_str(),
                &self.options,
            ) {
                Ok(resp) => resp,
                Err(e) => {
                    return Err(e);
                },
            };
            match decide_turn(response) {
                TurnDecision::Final(content) => {
                    let ghost hprev = self.sessions.msgs_of(session_key@);
                    let amsg = Message::assistant(content.clone());
                    proof {
                        assert(amsg.mv() == assistant_msg_v(content@));
                    }
                    self.sessions.add_message(session_key, amsg);
                    proof {
                        let h = self.sessions.msgs_of(session_key@);
                        assert(h == hprev.push(assistant_msg_v(content@)));
                        assert(h.subrange(0, base.len() as int) =~= base);
                        assert(h.skip(base.len() as int).drop_last() =~= hprev.skip(
                            base.len() as int,
                        ));
                        assert(h.last() == assistant_msg_v(content@));
                    }
                    final_content = Some(content);
                },
                TurnDecision::RunTools(content, calls) => {
                    let ghost hprev = self.sessions.msgs_of(session_key@);
                    let ghost tcv = crate::msg::view_calls(calls@);
                    let amsg = Message::assistant_with_tool_calls(
                        content,
                        clone_tool_calls(&calls),
                    );
                    let ghost amv = amsg.mv();
                    proof {
                        assert(amv.role == "assistant"@);
                        assert(tcv.len() > 0);
                        assert(amv.tool_calls == Some(tcv));
                    }
                    messages.push(clone_message(&amsg));
                    self.sessions.add_message(session_key, amsg);
                    let outcomes = execute_batch_sequential(&self.tools, &calls);
                    let tmsgs = assemble_tool_messages(&calls, &outcomes);
                    let ghost tv_all = view_msgs(tmsgs@);
                    let ghost hmid = self.sessions.msgs_of(session_key@);
                    proof {
                        assert(hmid == hprev.push(amv));
                        assert(hmid + tv_all.subrange(0, 0) =~= hmid);
                    }
                    let mut k: usize = 0;
                    while k < tmsgs.len()
                        invariant
                            k <= tmsgs@.len(),
                            self.sessions.wf(),
                            self.limiter.wf(),
                            tv_all == view_msgs(tmsgs@),
                            forall|kk: Seq<char>|
                                kk != session_key@ ==> self.sessions.session_of(kk) == old(
                                    self,
                                ).sessions.session_of(kk),
                            self.sessions.summary_of(session_key@) == old(
                                self,
                            ).sessions.summary_of(session_key@),
                            self.sessions.msgs_of(session_key@) == hmid + tv_all.subrange(
                                0,
                                k as int,
                            ),
                        decreases tmsgs@.len() - k,
                    {
                        let m = &tmsgs[k];
                        messages.push(clone_message(m));
                        self.sessions.add_message(session_key, clone_message(m));
                        proof {
                            assert(hmid + tv_all.subrange(0, (k + 1) as int) =~= (hmid
                                + tv_all.subrange(0, k as int)).push(tv_all[k as int]));
                        }
                        k += 1;
                    }
                    proof {
                        let h = self.sessions.msgs_of(session_key@);
                        assert(tv_all.subrange(0, tv_all.len() as int) =~= tv_all);
                        assert(h == hmid + tv_all);
                        let round = seq![amv] + tv_all;
                        assert(is_round(round)) by {
                            assert(round[0] == amv);
                            assert(round.len() == tcv.len() + 1);
                            assert forall|i: int|
                                0 <= i < tcv.len() implies (#[trigger] round[1 + i]).role
                                == "tool"@ && round[1 + i].tool_call_id == Some(tcv[i].id)
                                && round[1 + i].tool_calls is None by {
                                assert(round[1 + i] == tv_all[i]);
                                assert(tv_all[i] == tmsgs@[i].mv());
                                assert(tcv[i].id == calls@[i].tv().id);
                            }
                        }
                        assert(h.subrange(0, base.len() as int) =~= base);
                        assert(h.skip(base.len() as int) =~= hprev.skip(base.len() as int)
                            + round);
                        lemma_rounds_append(hprev.skip(base.len() as int), round);
                    }
                },
            }
            it += 1;
        }
        self.maybe_summarize(session_key);
        let out = match final_content {
            Some(c) => c,
            None => max_iterations_sentinel(),
        };
        proof {
            let h = self.sessions.msgs_of(session_key@);
            assert(h.subrange(0, base.len() as int) == base);
        }
        Ok(out)
    }

    /// Condense the history when its length crosses a threshold multiple;
    /// a failed summarization never fails the turn.
    fn maybe_summarize(&mut self, session_key: &str)
        requires
            old(self).wf(),
        ensures
            final(self).wf(),
            forall|k: Seq<char>|
                final(self).sessions.msgs_of(k) == old(self).sessions.msgs_of(k),
            forall|k: Seq<char>|
                k != session_key@ ==> final(self).sessions.session_of(k) == old(
                    self,
                ).sessions.session_of(k),
            final(self).sessions.summary_of(session_key@) == old(self).sessions.summary_of(
                session_key@,
            ) || summarize_due(old(self).sessions.msgs_of(session_key@).len(), 20),
            final(self).limiter == old(self).limiter,
    {
        let count = self.sessions.message_count(session_key);
        if should_summarize(count) {
            let msgs = self.sessions.get_messages(session_key);
            if msgs.len() > 0 {
                let existing = self.sessions.get_summary(session_key);
                let req = build_summary_request(existing.as_str(), &msgs);
                let empty_defs: Vec<ToolDefinition> = Vec::new();
                let empty_opts: Vec<(String, Json)> = Vec::new();
                match self.provider.chat(
                    &req,
                    &empty_defs,
                    self.default_model.as_str(),
                    &empty_opts,
                ) {
                    Ok(resp) => {
                        self.sessions.set_summary(session_key, resp.content);
                    },
                    Err(_) => {},
                }
            }
        }
    }

    /// One-shot processing of a direct message: one turn of the loop,
    /// with history enabled.
    pub fn process_direct(&mut self, content: &str, session_key: &str) -> (r: Result<
        String,
        String,
    >)
        requires
            old(self).wf(),
        ensures
            final(self).wf(),
            turn_effect(old(self).sessions, final(self).sessions, session_key@, content@, r),
    {
        self.run_agent_loop(content, session_key, true)
    }

    /// Process an inbound channel message: one turn of the loop on the
    /// message's session, whose returned text is exactly the loop's; the
    /// reply to publish mirrors it back to the inbound channel and chat.
    pub fn process_message(&mut self, msg: InboundMessage) -> (r: Result<
        (String, OutboundMessage),
        String,
    >)
        requires
            old(self).wf(),
        ensures
            final(self).wf(),
            (r matches Ok(p) ==> turn_effect(
                old(self).sessions,
                final(self).sessions,
                msg.session_key@,
                msg.content@,
                Ok(p.0),
            )),
            (r matches Err(e) ==> turn_effect(
                old(self).sessions,
                final(self).sessions,
                msg.session_key@,
                msg.content@,
                Err(e),
            )),
            (r matches Ok(p) ==> p.1.content@ == p.0@ && p.1.channel@ == msg.channel@
                && p.1.chat_id@ == msg.chat_id@),
    {
        let response = match self.run_agent_loop(msg.content.as_str(), msg.session_key.as_str(), true) {
            Ok(t) => t,
            Err(e) => {
                return Err(e);
            },
        };
        let out = OutboundMessage {
            channel: msg.channel.clone(),
            chat_id: msg.chat_id.clone(),
            content: response.clone(),
            metadata: Vec::new(),
        };
        Ok((response, out))
    }
}

} // verus!
