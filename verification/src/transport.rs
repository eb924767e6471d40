//! The request/response side of the model transport: parsing an
//! OpenAI-compatible chat-completion body, the retry policy for transient
//! failures, and assembling the outgoing request body. The wire call itself
//! is the outer shell's; everything here computes on its inputs and
//! outcomes.

use vstd::prelude::*;
use crate::json::{Json, JsonV, jv_get, jv_u64, sp_json, dv_seq, dv_members, lemma_dv_arr,
    lemma_dv_obj};
use crate::msg::{
    Message, LLMResponse, LLMResponseV, ToolCall, ToolCallV, FunctionCall, FunctionCallV,
    UsageInfo, UsageInfoV, ToolDefinition, view_calls,
};
use crate::codec::{str_of, wire_msg_jv, wire_msgs_jv, wire_msg_to_json};
use crate::text::{own_str, concat_str, u64_to_string, dec_str};

verus! {

// ---------------------------------------------------------------------------
// Response parsing
// ---------------------------------------------------------------------------

/// A string field with a fallback.
pub open spec fn str_or(j: JsonV, key: Seq<char>, alt: Seq<char>) -> Seq<char> {
    match str_of(j, key) {
        Some(s) => s,
        None => alt,
    }
}

/// A numeric field read as an unsigned count, zero when absent or odd,
/// clamped to the machine's word.
pub open spec fn count_or_zero(j: JsonV, key: Seq<char>) -> nat {
    match jv_get(j, key) {
        Some(x) => match jv_u64(x) {
            Some(n) => if n <= usize::MAX as u64 {
                n as nat
            } else {
                usize::MAX as nat
            },
            None => 0,
        },
        None => 0,
    }
}

/// The usage block of a response body, if present.
pub open spec fn usage_from_jv(j: JsonV) -> Option<UsageInfoV> {
    match jv_get(j, "usage"@) {
        Some(u) => Some(
            UsageInfoV {
                prompt_tokens: count_or_zero(u, "prompt_tokens"@),
                completion_tokens: count_or_zero(u, "completion_tokens"@),
                total_tokens: count_or_zero(u, "total_tokens"@),
            },
        ),
        None => None,
    }
}

/// One tool call as it appears on the wire: a missing id or name becomes
/// empty, missing arguments become an empty object.
pub open spec fn wire_tc_from_jv(j: JsonV) -> ToolCallV {
    ToolCallV {
        id: str_or(j, "id"@, Seq::<char>::empty()),
        call_type: str_of(j, "type"@),
        function: match jv_get(j, "function"@) {
            Some(fj) => Some(
                FunctionCallV {
                    name: str_or(fj, "name"@, Seq::<char>::empty()),
                    arguments: str_or(fj, "arguments"@, "{}"@),
                },
            ),
            None => None,
        },
        name: None,
        arguments: None,
    }
}

pub open spec fn wire_calls_from_jv(es: Seq<JsonV>) -> Seq<ToolCallV> {
    Seq::new(es.len(), |i: int| wire_tc_from_jv(es[i]))
}

/// What parsing an OpenAI-compatible chat-completion body yields: the
/// assistant text, the tool calls, the finish reason and the usage; or the
/// error text for each malformed or error-carrying body.
pub open spec fn parse_response_spec(s: Seq<char>) -> Result<LLMResponseV, Seq<char>> {
    match sp_json(s) {
        None => Err("malformed LLM response body"@),
        Some(j) => match jv_get(j, "error"@) {
            Some(e) => Err(
                "LLM API error: "@ + (match str_of(e, "message"@) {
                    Some(m) => m,
                    None => "unknown error"@,
                }),
            ),
            None => match jv_get(j, "choices"@) {
                Some(JsonV::Arr(cs)) => if cs.len() == 0 {
                    Err("No choices in LLM response"@)
                } else {
                    let choice = cs[0];
                    match jv_get(choice, "message"@) {
                        None => Err("No message in choice"@),
                        Some(m) => Ok(
                            LLMResponseV {
                                content: str_or(m, "content"@, Seq::<char>::empty()),
                                tool_calls: match jv_get(m, "tool_calls"@) {
                                    Some(JsonV::Arr(ts)) => if ts.len() == 0 {
                                        None
                                    } else {
                                        Some(wire_calls_from_jv(ts))
                                    },
                                    _ => None,
                                },
                                finish_reason: str_or(choice, "finish_reason"@, "stop"@),
                                usage: usage_from_jv(j),
                            },
                        ),
                    }
                },
                _ => Err("No choices in LLM response"@),
            },
        },
    }
}

pub open spec fn parse_response_post(s: Seq<char>, r: Result<LLMResponse, String>) -> bool {
    match r {
        Ok(resp) => parse_response_spec(s) == Ok::<LLMResponseV, Seq<char>>(resp.rv()),
        Err(e) => parse_response_spec(s) == Err::<LLMResponseV, Seq<char>>(e@),
    }
}

/// A string field with a fallback, as a fresh owned string.
pub fn exec_str_or_pub(j: &Json, key: &str, alt: &str) -> (r: String)
    ensures
        r@ == str_or(j.dv(), key@, alt@),
{
    exec_str_or(j, key, alt)
}

fn exec_str_or(j: &Json, key: &str, alt: &str) -> (r: String)
    ensures
        r@ == str_or(j.dv(), key@, alt@),
{
    match j.get(key) {
        Some(x) => match x {
            Json::Str(t) => t.clone(),
            _ => own_str(alt),
        },
        None => own_str(alt),
    }
}

fn exec_count_or_zero(j: &Json, key: &str) -> (r: usize)
    ensures
        r as nat == count_or_zero(j.dv(), key@),
{
    match j.get(key) {
        Some(x) => match x.as_u64() {
            Some(n) => {
                if n <= usize::MAX as u64 {
                    n as usize
                } else {
                    usize::MAX
                }
            },
            None => 0,
        },
        None => 0,
    }
}

pub(crate) fn exec_usage(j: &Json) -> (r: Option<UsageInfo>)
    ensures
        (match r {
            Some(u) => usage_from_jv(j.dv()) == Some(u.uv()),
            None => usage_from_jv(j.dv()) is None,
        }),
{
    match j.get("usage") {
        Some(u) => Some(
            UsageInfo {
                prompt_tokens: exec_count_or_zero(u, "prompt_tokens"),
                completion_tokens: exec_count_or_zero(u, "completion_tokens"),
                total_tokens: exec_count_or_zero(u, "total_tokens"),
            },
        ),
        None => None,
    }
}

fn exec_wire_tc(j: &Json) -> (r: ToolCall)
    ensures
        r.tv() == wire_tc_from_jv(j.dv()),
{
    proof {
        reveal_strlit("");
        assert(""@ =~= Seq::<char>::empty());
    }
    let call_type = match j.get("type") {
        Some(x) => match x {
            Json::Str(t) => Some(t.clone()),
            _ => None,
        },
        None => None,
    };
    let function = match j.get("function") {
        Some(fj) => Some(
            FunctionCall {
                name: exec_str_or(fj, "name", ""),
                arguments: exec_str_or(fj, "arguments", "{}"),
            },
        ),
        None => None,
    };
    ToolCall { id: exec_str_or(j, "id", ""), call_type, function, name: None, arguments: None }
}

/// Parse an OpenAI-compatible chat-completion response body.
pub fn parse_response(body: &str) -> (r: Result<LLMResponse, String>)
    ensures
        parse_response_post(body@, r),
{
    proof {
        reveal_strlit("");
        assert(""@ =~= Seq::<char>::empty());
    }
    let j = match crate::json::parse_json(body) {
        Some(j) => j,
        None => {
            return Err(own_str("malformed LLM response body"));
        },
    };
    if let Some(e) = j.get("error") {
        let m = match e.get("message") {
            Some(x) => match x {
                Json::Str(t) => t.clone(),
                _ => own_str("unknown error"),
            },
            None => own_str("unknown error"),
        };
        return Err(concat_str("LLM API error: ", m.as_str()));
    }
    let choice = match j.get("choices") {
        Some(cj) => match cj {
            Json::Arr(cs) => {
                if cs.len() == 0 {
                    return Err(own_str("No choices in LLM response"));
                }
                proof {
                    lemma_dv_arr(*cs);
                }
                &cs[0]
            },
            _ => {
                return Err(own_str("No choices in LLM response"));
            },
        },
        None => {
            return Err(own_str("No choices in LLM response"));
        },
    };
    let message = match choice.get("message") {
        Some(m) => m,
        None => {
            return Err(own_str("No message in choice"));
        },
    };
    let content = exec_str_or(message, "content", "");
    let finish_reason = exec_str_or(choice, "finish_reason", "stop");
    let tool_calls: Option<Vec<ToolCall>> = match message.get("tool_calls") {
        Some(tj) => match tj {
            Json::Arr(ts) => {
                if ts.len() == 0 {
                    None
                } else {
                    proof {
                        lemma_dv_arr(*ts);
                    }
                    let mut out: Vec<ToolCall> = Vec::new();
                    let mut k: usize = 0;
                    while k < ts.len()
                        invariant
                            k <= ts@.len(),
                            out@.len() == k,
                            forall|i: int|
                                0 <= i < k ==> out@[i].tv() == wire_tc_from_jv(ts@[i].dv()),
                        decreases ts@.len() - k,
                    {
                        out.push(exec_wire_tc(&ts[k]));
                        k += 1;
                    }
                    proof {
                        assert(view_calls(out@) =~= wire_calls_from_jv(dv_seq(ts@)));
                    }
                    Some(out)
                }
            },
            _ => None,
        },
        None => None,
    };
    let usage = exec_usage(&j);
    Ok(LLMResponse { content, tool_calls, finish_reason, usage })
}

// ---------------------------------------------------------------------------
// Retry policy
// ---------------------------------------------------------------------------

/// The transport's retry knobs.
#[derive(Debug, Clone)]
pub struct RetryPolicy {
    pub max_retries: u64,
    pub retry_delay_ms: u64,
}

/// What one attempt at the wire produced.
#[derive(Debug, Clone)]
pub enum AttemptOutcome {
    /// The connection itself failed.
    NetworkError(String),
    /// The endpoint answered with a status and a body.
    Http { status: u16, body: String },
}

/// What the policy decides after one attempt.
#[derive(Debug, Clone)]
pub enum RetryDecision {
    /// Wait this many milliseconds, then resubmit the whole request.
    RetryAfter(u64),
    /// Give up with this error.
    Fatal(String),
    /// The attempt succeeded with this body.
    Success(String),
}

/// An outcome that ends the exchange successfully.
pub open spec fn outcome_success(o: AttemptOutcome) -> bool {
    match o {
        AttemptOutcome::Http { status, .. } => 200 <= status < 300,
        AttemptOutcome::NetworkError(_) => false,
    }
}

/// An outcome worth retrying: a connection failure, a server-side error or
/// an explicit rate-limit signal.
pub open spec fn outcome_transient(o: AttemptOutcome) -> bool {
    match o {
        AttemptOutcome::NetworkError(_) => true,
        AttemptOutcome::Http { status, .. } => 500 <= status <= 599 || status == 429,
    }
}

/// The error text an outcome surfaces when it is not retried further.
pub open spec fn outcome_error_text(o: AttemptOutcome) -> Seq<char> {
    match o {
        AttemptOutcome::NetworkError(e) => e@,
        AttemptOutcome::Http { status, body } => "LLM API error ("@ + dec_str(status as nat)
            + "): "@ + body@,
    }
}

pub open spec fn classify_post(
    p: RetryPolicy,
    attempt: u64,
    o: AttemptOutcome,
    r: RetryDecision,
) -> bool {
    &&& outcome_success(o) ==> (r matches RetryDecision::Success(b) && (match o {
        AttemptOutcome::Http { body, .. } => b@ == body@,
        _ => false,
    }))
    &&& !outcome_success(o) && outcome_transient(o) && attempt < p.max_retries ==> r
        == RetryDecision::RetryAfter(p.retry_delay_ms)
    &&& !outcome_success(o) && (!outcome_transient(o) || attempt >= p.max_retries) ==> (
    r matches RetryDecision::Fatal(e) && e@ == outcome_error_text(o))
}

/// Decide what to do after one attempt: success returns the body; a
/// transient failure within the budget waits and retries; anything else is
/// fatal with the outcome's error text.
pub fn classify(p: &RetryPolicy, attempt: u64, o: &AttemptOutcome) -> (r: RetryDecision)
    ensures
        classify_post(*p, attempt, *o, r),
{
    match o {
        AttemptOutcome::Http { status, body } => {
            if 200 <= *status && *status < 300 {
                RetryDecision::Success(body.clone())
            } else {
                let transient = (500 <= *status && *status <= 599) || *status == 429;
                if transient && attempt < p.max_retries {
                    RetryDecision::RetryAfter(p.retry_delay_ms)
                } else {
                    let st = u64_to_string(*status as u64);
                    let head = concat_str("LLM API error (", st.as_str());
                    let head2 = concat_str(head.as_str(), "): ");
                    RetryDecision::Fatal(concat_str(head2.as_str(), body.as_str()))
                }
            }
        },
        AttemptOutcome::NetworkError(e) => {
            if attempt < p.max_retries {
                RetryDecision::RetryAfter(p.retry_delay_ms)
            } else {
                RetryDecision::Fatal(e.clone())
            }
        },
    }
}

/// What a whole exchange yields given the attempt outcomes in order: the
/// first success within the budget wins; the first fatal outcome loses;
/// running out of observed outcomes surfaces the exhaustion error.
pub open spec fn retry_run_spec(
    p: RetryPolicy,
    outcomes: Seq<AttemptOutcome>,
    i: int,
) -> Result<Seq<char>, Seq<char>>
    decreases outcomes.len() - i,
{
    if !(0 <= i < outcomes.len()) {
        Err("LLM request failed: no further attempts were made"@)
    } else {
        let o = outcomes[i];
        if outcome_success(o) {
            Ok(
                match o {
                    AttemptOutcome::Http { body, .. } => body@,
                    _ => Seq::<char>::empty(),
                },
            )
        } else if outcome_transient(o) && i < p.max_retries {
            retry_run_spec(p, outcomes, i + 1)
        } else {
            Err(outcome_error_text(o))
        }
    }
}

pub open spec fn retry_run_post(
    p: RetryPolicy,
    outcomes: Seq<AttemptOutcome>,
    r: Result<String, String>,
) -> bool {
    match r {
        Ok(b) => retry_run_spec(p, outcomes, 0) == Ok::<Seq<char>, Seq<char>>(b@),
        Err(e) => retry_run_spec(p, outcomes, 0) == Err::<Seq<char>, Seq<char>>(e@),
    }
}

/// Drive the retry policy over a recorded sequence of attempt outcomes.
/// Attempt `i` consumes `outcomes[i]`; the policy's budget bounds how many
/// transient failures are tolerated.
pub fn run_attempts(p: &RetryPolicy, outcomes: Vec<AttemptOutcome>) -> (r: Result<String, String>)
    ensures
        retry_run_post(*p, outcomes@, r),
{
    let ghost ov = outcomes@;
    let n = outcomes.len();
    let mut i: usize = 0;
    while i < n
        invariant
            n == ov.len(),
            i <= n,
            outcomes@ == ov,
            retry_run_spec(*p, ov, 0) == retry_run_spec(*p, ov, i as int),
        decreases n - i,
    {
        match classify(p, i as u64, &outcomes[i]) {
            RetryDecision::Success(b) => {
                return Ok(b);
            },
            RetryDecision::Fatal(e) => {
                return Err(e);
            },
            RetryDecision::RetryAfter(_) => {
                i += 1;
            },
        }
    }
    Err(own_str("LLM request failed: no further attempts were made"))
}

// ---------------------------------------------------------------------------
// Request assembly
// ---------------------------------------------------------------------------

/// The retry knobs read from the caller's options, with their defaults.
pub open spec fn policy_of(ms: Seq<(Seq<char>, JsonV)>) -> RetryPolicy {
    RetryPolicy {
        max_retries: match crate::json::jv_lookup(ms, "max_retries"@) {
            Some(x) => match jv_u64(x) {
                Some(n) => n,
                None => 3,
            },
            None => 3,
        },
        retry_delay_ms: match crate::json::jv_lookup(ms, "retry_delay_ms"@) {
            Some(x) => match jv_u64(x) {
                Some(n) => n,
                None => 1000,
            },
            None => 1000,
        },
    }
}

/// The caller's options with the two retry-control keys removed; every
/// other key passes through verbatim, in order.
pub open spec fn strip_retry_keys(ms: Seq<(Seq<char>, JsonV)>) -> Seq<(Seq<char>, JsonV)>
    decreases ms.len(),
{
    if ms.len() == 0 {
        Seq::<(Seq<char>, JsonV)>::empty()
    } else {
        let rest = strip_retry_keys(ms.drop_last());
        if ms.last().0 == "max_retries"@ || ms.last().0 == "retry_delay_ms"@ {
            rest
        } else {
            rest.push(ms.last())
        }
    }
}

/// First-match lookup of an unsigned option value, with a default for a
/// missing or non-numeric entry.
fn lookup_u64_or(options: &Vec<(String, Json)>, key: &str, default_value: u64) -> (r: u64)
    ensures
        r == (match crate::json::jv_lookup(dv_members(options@), key@) {
            Some(x) => match jv_u64(x) {
                Some(n) => n,
                None => default_value,
            },
            None => default_value,
        }),
{
    let ghost ms = dv_members(options@);
    let mut n: usize = 0;
    while n < options.len()
        invariant
            n <= options@.len(),
            ms == dv_members(options@),
            forall|i: int| 0 <= i < n ==> ms[i].0 != key@,
        decreases options@.len() - n,
    {
        if crate::text::str_eq(options[n].0.as_str(), key) {
            proof {
                crate::json::lemma_jv_lookup_step(ms, key@, n as int);
                assert(ms.subrange(n as int, ms.len() as int)[0] == ms[n as int]);
            }
            return match options[n].1.as_u64() {
                Some(v) => v,
                None => default_value,
            };
        }
        n += 1;
    }
    proof {
        if ms.len() > 0 {
            crate::json::lemma_jv_lookup_step(ms, key@, ms.len() as int - 1);
            let tail = ms.subrange(ms.len() as int - 1, ms.len() as int);
            assert(tail[0] == ms[ms.len() - 1]);
            assert(tail.drop_first() =~= Seq::<(Seq<char>, JsonV)>::empty());
            assert(crate::json::jv_lookup(tail, key@) == crate::json::jv_lookup(
                tail.drop_first(),
                key@,
            ));
        }
    }
    default_value
}

/// Split the caller's options into the retry policy (consumed here) and
/// the pass-through options (forwarded verbatim to the wire call, in
/// their original order).
pub fn split_options(options: Vec<(String, Json)>) -> (r: (RetryPolicy, Vec<(String, Json)>))
    ensures
        r.0 == policy_of(dv_members(options@)),
        dv_members(r.1@) == strip_retry_keys(dv_members(options@)),
{
    let max_retries = lookup_u64_or(&options, "max_retries", 3);
    let retry_delay_ms = lookup_u64_or(&options, "retry_delay_ms", 1000);
    let ghost full = options@;
    let ghost ms = dv_members(options@);
    let n = options.len();
    let mut opts = options;
    let mut rest: Vec<(String, Json)> = Vec::new();
    let mut k: usize = 0;
    proof {
        assert(ms.subrange(0, 0) =~= Seq::<(Seq<char>, JsonV)>::empty());
        assert(dv_members(rest@) =~= strip_retry_keys(ms.subrange(0, 0)));
        assert(opts@ =~= full.subrange(0, n as int));
    }
    while k < n
        invariant
            n == full.len(),
            k <= n,
            ms == dv_members(full),
            opts@ == full.subrange(k as int, n as int),
            dv_members(rest@) == strip_retry_keys(ms.subrange(0, k as int)),
        decreases n - k,
    {
        let pair = opts.remove(0);
        proof {
            assert(full.subrange(k as int, n as int)[0] == full[k as int]);
            assert(opts@ =~= full.subrange(k as int + 1, n as int));
            lemma_strip_prefix(ms, k as int);
            assert(ms[k as int] == (full[k as int].0@, full[k as int].1.dv()));
        }
        let ghost prev = dv_members(rest@);
        let is_retry_key = crate::text::str_eq(pair.0.as_str(), "max_retries")
            || crate::text::str_eq(pair.0.as_str(), "retry_delay_ms");
        if !is_retry_key {
            rest.push(pair);
            proof {
                assert(dv_members(rest@) =~= prev.push(ms[k as int]));
            }
        }
        k += 1;
    }
    proof {
        assert(ms.subrange(0, ms.len() as int) =~= ms);
    }
    (RetryPolicy { max_retries, retry_delay_ms }, rest)
}

proof fn lemma_strip_prefix(ms: Seq<(Seq<char>, JsonV)>, k: int)
    requires
        0 <= k < ms.len(),
    ensures
        strip_retry_keys(ms.subrange(0, k + 1)) == (if ms[k].0 == "max_retries"@ || ms[k].0
            == "retry_delay_ms"@ {
            strip_retry_keys(ms.subrange(0, k))
        } else {
            strip_retry_keys(ms.subrange(0, k)).push(ms[k])
        }),
{
    let b = ms.subrange(0, k + 1);
    assert(b.drop_last() =~= ms.subrange(0, k));
    assert(b.last() == ms[k]);
}


// ---------------------------------------------------------------------------
// Request assembly
// ---------------------------------------------------------------------------

/// A capability description as the wire expects it.
pub open spec fn tooldef_to_jv(t: ToolDefinition) -> JsonV {
    JsonV::Obj(
        seq![
            ("type"@, JsonV::Str(t.def_type@)),
            (
                "function"@,
                JsonV::Obj(
                    seq![
                        ("name"@, JsonV::Str(t.function.name@)),
                        ("description"@, JsonV::Str(t.function.description@)),
                        ("parameters"@, t.function.parameters.dv()),
                    ],
                ),
            ),
        ],
    )
}

pub open spec fn tooldefs_to_jv(v: Seq<ToolDefinition>) -> Seq<JsonV> {
    Seq::new(v.len(), |i: int| tooldef_to_jv(v[i]))
}

/// One capability description as a JSON value.
pub fn tooldef_to_json(t: &ToolDefinition) -> (r: Json)
    ensures
        r.dv() == tooldef_to_jv(*t),
{
    let mut f: Vec<(String, Json)> = Vec::new();
    f.push((own_str("name"), Json::Str(t.function.name.clone())));
    f.push((own_str("description"), Json::Str(t.function.description.clone())));
    f.push((own_str("parameters"), Json::clone_json(&t.function.parameters)));
    proof {
        lemma_dv_obj(f);
        assert(dv_members(f@) =~= seq![
            ("name"@, JsonV::Str(t.function.name@)),
            ("description"@, JsonV::Str(t.function.description@)),
            ("parameters"@, t.function.parameters.dv()),
        ]);
    }
    let fj = Json::Obj(f);
    let mut v: Vec<(String, Json)> = Vec::new();
    v.push((own_str("type"), Json::Str(t.def_type.clone())));
    v.push((own_str("function"), fj));
    proof {
        lemma_dv_obj(v);
        assert(dv_members(v@) =~= tooldef_to_jv(*t)->Obj_0);
    }
    Json::Obj(v)
}

/// The wire form of the whole tool catalogue.
pub fn tooldefs_to_json(v: &Vec<ToolDefinition>) -> (r: Vec<Json>)
    ensures
        dv_seq(r@) == tooldefs_to_jv(v@),
{
    let mut out: Vec<Json> = Vec::new();
    let mut k: usize = 0;
    while k < v.len()
        invariant
            k <= v@.len(),
            out@.len() == k,
            forall|i: int| 0 <= i < k ==> out@[i].dv() == tooldef_to_jv(v@[i]),
        decreases v@.len() - k,
    {
        out.push(tooldef_to_json(&v[k]));
        k += 1;
    }
    proof {
        assert(dv_seq(out@) =~= tooldefs_to_jv(v@));
    }
    out
}

/// The outgoing request body: the model, the message list in the wire
/// shape, the tool catalogue when non-empty, the stream flag when
/// streaming, then the caller's pass-through options verbatim.
pub open spec fn request_body_jv(
    model: Seq<char>,
    ms: Seq<crate::msg::MessageV>,
    tools: Seq<JsonV>,
    extra: Seq<(Seq<char>, JsonV)>,
    stream: bool,
) -> JsonV {
    JsonV::Obj(
        seq![("model"@, JsonV::Str(model)), ("messages"@, JsonV::Arr(wire_msgs_jv(ms)))] + (
        if tools.len() > 0 {
            seq![("tools"@, JsonV::Arr(tools))]
        } else {
            Seq::<(Seq<char>, JsonV)>::empty()
        }) + (if stream {
            seq![("stream"@, JsonV::Bool(true))]
        } else {
            Seq::<(Seq<char>, JsonV)>::empty()
        }) + extra,
    )
}

/// Assemble the outgoing request body.
pub fn build_request_body(
    model: &str,
    messages: &Vec<Message>,
    tools: Vec<Json>,
    extra: Vec<(String, Json)>,
    stream: bool,
) -> (r: Json)
    ensures
        r.dv() == request_body_jv(
            model@,
            crate::msg::view_msgs(messages@),
            dv_seq(tools@),
            dv_members(extra@),
            stream,
        ),
{
    let ghost tv = dv_seq(tools@);
    let ghost ev = dv_members(extra@);
    let mut v: Vec<(String, Json)> = Vec::new();
    v.push((own_str("model"), Json::Str(own_str(model))));
    let mut arr: Vec<Json> = Vec::new();
    let mut k: usize = 0;
    while k < messages.len()
        invariant
            k <= messages@.len(),
            arr@.len() == k,
            forall|i: int| 0 <= i < k ==> arr@[i].dv() == wire_msg_jv(messages@[i].mv()),
        decreases messages@.len() - k,
    {
        arr.push(wire_msg_to_json(&messages[k]));
        k += 1;
    }
    proof {
        lemma_dv_arr(arr);
        assert(dv_seq(arr@) =~= wire_msgs_jv(crate::msg::view_msgs(messages@)));
    }
    v.push((own_str("messages"), Json::Arr(arr)));
    let ghost base = seq![
        ("model"@, JsonV::Str(model@)),
        ("messages"@, JsonV::Arr(wire_msgs_jv(crate::msg::view_msgs(messages@)))),
    ];
    proof {
        assert(dv_members(v@) =~= base);
    }
    let has_tools = tools.len() > 0;
    if has_tools {
        proof {
            lemma_dv_arr(tools);
        }
        v.push((own_str("tools"), Json::Arr(tools)));
    }
    let ghost base2 = base + (if tv.len() > 0 {
        seq![("tools"@, JsonV::Arr(tv))]
    } else {
        Seq::<(Seq<char>, JsonV)>::empty()
    });
    proof {
        if tv.len() > 0 {
            assert(dv_members(v@) =~= base2);
        } else {
            assert(base2 =~= base);
        }
    }
    if stream {
        v.push((own_str("stream"), Json::Bool(true)));
    }
    let ghost base3 = base2 + (if stream {
        seq![("stream"@, JsonV::Bool(true))]
    } else {
        Seq::<(Seq<char>, JsonV)>::empty()
    });
    proof {
        if stream {
            assert(dv_members(v@) =~= base3);
        } else {
            assert(base3 =~= base2);
        }
    }
    let n = extra.len();
    let mut extra = extra;
    let mut k2: usize = 0;
    while k2 < n
        invariant
            n - k2 == extra@.len(),
            k2 <= n,
            ev.len() == n,
            forall|i: int| 0 <= i < extra@.len() ==> (extra@[i].0@, extra@[i].1.dv()) == ev[k2 + i],
            dv_members(v@) == base3 + ev.subrange(0, k2 as int),
        decreases n - k2,
    {
        let ghost prev = dv_members(v@);
        let pair = extra.remove(0);
        v.push(pair);
        proof {
            assert(dv_members(v@) =~= prev.push(ev[k2 as int]));
            assert(base3 + ev.subrange(0, (k2 + 1) as int) =~= (base3 + ev.subrange(
                0,
                k2 as int,
            )).push(ev[k2 as int]));
        }
        k2 += 1;
    }
    proof {
        assert(ev.subrange(0, ev.len() as int) =~= ev);
        lemma_dv_obj(v);
    }
    Json::Obj(v)
}

} // verus!
