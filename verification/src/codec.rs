//! The persisted session file format: one JSON object per session,
//! `{messages, summary, created_at, updated_at}`. Absent optional fields
//! are written as `null`; the decoder also accepts files that omit them.
//! Encoding and decoding go through the JSON module; round-trip theorems
//! show that decoding an encoded session gives the session back.

use vstd::prelude::*;
use crate::json::{Json, JsonV, dv_seq, dv_members, lemma_dv_arr, lemma_dv_obj, jv_lookup, jv_get};
use crate::msg::{
    Message, MessageV, ToolCall, ToolCallV, FunctionCall, FunctionCallV, view_msgs, view_calls,
    view_opt_str,
};
use crate::session::{SessionData, SessionDataV};
use crate::text::own_str;

verus! {

// ---------------------------------------------------------------------------
// Ghost encoding
// ---------------------------------------------------------------------------

/// An optional string becomes a string or `null`.
pub open spec fn opt_str_jv(o: Option<Seq<char>>) -> JsonV {
    match o {
        Some(s) => JsonV::Str(s),
        None => JsonV::Null,
    }
}

pub open spec fn fc_to_jv(f: FunctionCallV) -> JsonV {
    JsonV::Obj(seq![("name"@, JsonV::Str(f.name)), ("arguments"@, JsonV::Str(f.arguments))])
}

pub open spec fn tc_to_jv(t: ToolCallV) -> JsonV {
    JsonV::Obj(
        seq![
            ("id"@, JsonV::Str(t.id)),
            ("type"@, opt_str_jv(t.call_type)),
            (
                "function"@,
                match t.function {
                    Some(f) => fc_to_jv(f),
                    None => JsonV::Null,
                },
            ),
            ("name"@, opt_str_jv(t.name)),
            ("arguments"@, opt_str_jv(t.arguments)),
        ],
    )
}

pub open spec fn calls_to_jv(ts: Seq<ToolCallV>) -> Seq<JsonV> {
    Seq::new(ts.len(), |i: int| tc_to_jv(ts[i]))
}

pub open spec fn msg_to_jv(m: MessageV) -> JsonV {
    JsonV::Obj(
        seq![
            ("role"@, JsonV::Str(m.role)),
            ("content"@, JsonV::Str(m.content)),
            (
                "tool_calls"@,
                match m.tool_calls {
                    Some(ts) => JsonV::Arr(calls_to_jv(ts)),
                    None => JsonV::Null,
                },
            ),
            ("tool_call_id"@, opt_str_jv(m.tool_call_id)),
        ],
    )
}

pub open spec fn msgs_to_jv(ms: Seq<MessageV>) -> Seq<JsonV> {
    Seq::new(ms.len(), |i: int| msg_to_jv(ms[i]))
}

pub open spec fn sd_to_jv(d: SessionDataV) -> JsonV {
    JsonV::Obj(
        seq![
            ("messages"@, JsonV::Arr(msgs_to_jv(d.messages))),
            ("summary"@, JsonV::Str(d.summary)),
            ("created_at"@, JsonV::Str(d.created_at)),
            ("updated_at"@, JsonV::Str(d.updated_at)),
        ],
    )
}

// ---------------------------------------------------------------------------
// Ghost decoding
// ---------------------------------------------------------------------------

/// A field that, when present and non-null, must be a string.
pub open spec fn opt_str_of(j: JsonV, key: Seq<char>) -> Option<Option<Seq<char>>> {
    match jv_get(j, key) {
        None => Some(None),
        Some(JsonV::Null) => Some(None),
        Some(JsonV::Str(s)) => Some(Some(s)),
        Some(_) => None,
    }
}

pub open spec fn str_of(j: JsonV, key: Seq<char>) -> Option<Seq<char>> {
    match jv_get(j, key) {
        Some(JsonV::Str(s)) => Some(s),
        _ => None,
    }
}

/// A string field that defaults to empty when absent (older session
/// files omit it); a present non-string still fails.
pub open spec fn str_dflt_of(j: JsonV, key: Seq<char>) -> Option<Seq<char>> {
    match jv_get(j, key) {
        None => Some(Seq::<char>::empty()),
        Some(JsonV::Str(s)) => Some(s),
        Some(_) => None,
    }
}

pub open spec fn fc_from_jv(j: JsonV) -> Option<FunctionCallV> {
    match (str_of(j, "name"@), str_of(j, "arguments"@)) {
        (Some(n), Some(a)) => Some(FunctionCallV { name: n, arguments: a }),
        _ => None,
    }
}

pub open spec fn tc_from_jv(j: JsonV) -> Option<ToolCallV> {
    match str_of(j, "id"@) {
        None => None,
        Some(id) => match (opt_str_of(j, "type"@), opt_str_of(j, "name"@), opt_str_of(
            j,
            "arguments"@,
        )) {
            (Some(ty), Some(nm), Some(ar)) => match jv_get(j, "function"@) {
                None => Some(
                    ToolCallV { id, call_type: ty, function: None, name: nm, arguments: ar },
                ),
                Some(JsonV::Null) => Some(
                    ToolCallV { id, call_type: ty, function: None, name: nm, arguments: ar },
                ),
                Some(fj) => match fc_from_jv(fj) {
                    Some(f) => Some(
                        ToolCallV { id, call_type: ty, function: Some(f), name: nm, arguments: ar },
                    ),
                    None => None,
                },
            },
            _ => None,
        },
    }
}

pub open spec fn calls_from_jv(es: Seq<JsonV>) -> Option<Seq<ToolCallV>>
    decreases es.len(),
{
    if es.len() == 0 {
        Some(Seq::<ToolCallV>::empty())
    } else {
        match tc_from_jv(es[0]) {
            None => None,
            Some(t) => match calls_from_jv(es.drop_first()) {
                None => None,
                Some(rest) => Some(seq![t] + rest),
            },
        }
    }
}

pub open spec fn msg_from_jv(j: JsonV) -> Option<MessageV> {
    match (str_of(j, "role"@), str_of(j, "content"@), opt_str_of(j, "tool_call_id"@)) {
        (Some(role), Some(content), Some(id)) => match jv_get(j, "tool_calls"@) {
            None => Some(MessageV { role, content, tool_calls: None, tool_call_id: id }),
            Some(JsonV::Null) => Some(
                MessageV { role, content, tool_calls: None, tool_call_id: id },
            ),
            Some(JsonV::Arr(es)) => match calls_from_jv(es) {
                Some(ts) => Some(
                    MessageV { role, content, tool_calls: Some(ts), tool_call_id: id },
                ),
                None => None,
            },
            Some(_) => None,
        },
        _ => None,
    }
}

pub open spec fn msgs_from_jv(es: Seq<JsonV>) -> Option<Seq<MessageV>>
    decreases es.len(),
{
    if es.len() == 0 {
        Some(Seq::<MessageV>::empty())
    } else {
        match msg_from_jv(es[0]) {
            None => None,
            Some(m) => match msgs_from_jv(es.drop_first()) {
                None => None,
                Some(rest) => Some(seq![m] + rest),
            },
        }
    }
}

pub open spec fn sd_from_jv(j: JsonV) -> Option<SessionDataV> {
    match jv_get(j, "messages"@) {
        Some(JsonV::Arr(es)) => match msgs_from_jv(es) {
            None => None,
            Some(ms) => match (str_dflt_of(j, "summary"@), str_dflt_of(j, "created_at"@),
            str_dflt_of(j, "updated_at"@)) {
                (Some(su), Some(cr), Some(up)) => Some(
                    SessionDataV { messages: ms, summary: su, created_at: cr, updated_at: up },
                ),
                _ => None,
            },
        },
        _ => None,
    }
}

/// What decoding a whole session text yields.
pub open spec fn parse_session_spec(s: Seq<char>) -> Option<SessionDataV> {
    match crate::json::sp_json(s) {
        Some(j) => sd_from_jv(j),
        None => None,
    }
}


// ---------------------------------------------------------------------------
// Executable encoding
// ---------------------------------------------------------------------------

fn opt_str_json(o: &Option<String>) -> (r: Json)
    ensures
        r.dv() == opt_str_jv(view_opt_str(*o)),
{
    match o {
        Some(t) => Json::Str(t.clone()),
        None => Json::Null,
    }
}

fn fc_to_json(f: &FunctionCall) -> (r: Json)
    ensures
        r.dv() == fc_to_jv(f.fv()),
{
    let mut v: Vec<(String, Json)> = Vec::new();
    v.push((own_str("name"), Json::Str(f.name.clone())));
    v.push((own_str("arguments"), Json::Str(f.arguments.clone())));
    proof {
        lemma_dv_obj(v);
        assert(dv_members(v@) =~= fc_to_jv(f.fv())->Obj_0);
    }
    Json::Obj(v)
}

fn tc_to_json(t: &ToolCall) -> (r: Json)
    ensures
        r.dv() == tc_to_jv(t.tv()),
{
    let mut v: Vec<(String, Json)> = Vec::new();
    v.push((own_str("id"), Json::Str(t.id.clone())));
    v.push((own_str("type"), opt_str_json(&t.call_type)));
    let fj = match &t.function {
        Some(f) => fc_to_json(f),
        None => Json::Null,
    };
    v.push((own_str("function"), fj));
    v.push((own_str("name"), opt_str_json(&t.name)));
    v.push((own_str("arguments"), opt_str_json(&t.arguments)));
    proof {
        lemma_dv_obj(v);
        assert(dv_members(v@) =~= tc_to_jv(t.tv())->Obj_0);
    }
    Json::Obj(v)
}

fn msg_to_json(m: &Message) -> (r: Json)
    ensures
        r.dv() == msg_to_jv(m.mv()),
{
    let mut v: Vec<(String, Json)> = Vec::new();
    v.push((own_str("role"), Json::Str(m.role.clone())));
    v.push((own_str("content"), Json::Str(m.content.clone())));
    let cj = match &m.tool_calls {
        Some(ts) => {
            let mut arr: Vec<Json> = Vec::new();
            let mut k: usize = 0;
            while k < ts.len()
                invariant
                    k <= ts@.len(),
                    arr@.len() == k,
                    forall|i: int| 0 <= i < k ==> arr@[i].dv() == tc_to_jv(ts@[i].tv()),
                decreases ts@.len() - k,
            {
                arr.push(tc_to_json(&ts[k]));
                k += 1;
            }
            proof {
                lemma_dv_arr(arr);
                assert(dv_seq(arr@) =~= calls_to_jv(view_calls(ts@)));
            }
            Json::Arr(arr)
        },
        None => Json::Null,
    };
    v.push((own_str("tool_calls"), cj));
    v.push((own_str("tool_call_id"), opt_str_json(&m.tool_call_id)));
    proof {
        lemma_dv_obj(v);
        assert(dv_members(v@) =~= msg_to_jv(m.mv())->Obj_0);
    }
    Json::Obj(v)
}

/// One message as a JSON value.
pub fn msg_to_json_pub(m: &Message) -> (r: Json)
    ensures
        r.dv() == msg_to_jv(m.mv()),
{
    msg_to_json(m)
}

/// The session as a JSON value.
pub fn session_to_json(d: &SessionData) -> (r: Json)
    ensures
        r.dv() == sd_to_jv(d.sv()),
{
    let mut v: Vec<(String, Json)> = Vec::new();
    let mut arr: Vec<Json> = Vec::new();
    let mut k: usize = 0;
    while k < d.messages.len()
        invariant
            k <= d.messages@.len(),
            arr@.len() == k,
            forall|i: int| 0 <= i < k ==> arr@[i].dv() == msg_to_jv(d.messages@[i].mv()),
        decreases d.messages@.len() - k,
    {
        arr.push(msg_to_json(&d.messages[k]));
        k += 1;
    }
    proof {
        lemma_dv_arr(arr);
        assert(dv_seq(arr@) =~= msgs_to_jv(view_msgs(d.messages@)));
    }
    v.push((own_str("messages"), Json::Arr(arr)));
    v.push((own_str("summary"), Json::Str(d.summary.clone())));
    v.push((own_str("created_at"), Json::Str(d.created_at.clone())));
    v.push((own_str("updated_at"), Json::Str(d.updated_at.clone())));
    proof {
        lemma_dv_obj(v);
        assert(dv_members(v@) =~= sd_to_jv(d.sv())->Obj_0);
    }
    Json::Obj(v)
}

/// The session file's text.
pub fn encode_session(d: &SessionData) -> (r: String)
    ensures
        r@ == crate::json::wr_value(sd_to_jv(d.sv())),
{
    let j = session_to_json(d);
    crate::json::to_text(&j)
}

// ---------------------------------------------------------------------------
// Executable decoding
// ---------------------------------------------------------------------------

fn json_opt_str(j: &Json, key: &str) -> (r: Option<Option<String>>)
    ensures
        (match r {
            Some(o) => opt_str_of(j.dv(), key@) == Some(view_opt_str(o)),
            None => opt_str_of(j.dv(), key@) is None,
        }),
{
    match j.get(key) {
        None => Some(None),
        Some(x) => match x {
            Json::Null => Some(None),
            Json::Str(t) => Some(Some(t.clone())),
            _ => None,
        },
    }
}

fn json_str(j: &Json, key: &str) -> (r: Option<String>)
    ensures
        (match r {
            Some(t) => str_of(j.dv(), key@) == Some(t@),
            None => str_of(j.dv(), key@) is None,
        }),
{
    match j.get(key) {
        Some(x) => match x {
            Json::Str(t) => Some(t.clone()),
            _ => None,
        },
        None => None,
    }
}

fn json_str_dflt(j: &Json, key: &str) -> (r: Option<String>)
    ensures
        (match r {
            Some(t) => str_dflt_of(j.dv(), key@) == Some(t@),
            None => str_dflt_of(j.dv(), key@) is None,
        }),
{
    match j.get(key) {
        Some(x) => match x {
            Json::Str(t) => Some(t.clone()),
            _ => None,
        },
        None => Some(String::new()),
    }
}

fn fc_from_json(j: &Json) -> (r: Option<FunctionCall>)
    ensures
        (match r {
            Some(f) => fc_from_jv(j.dv()) == Some(f.fv()),
            None => fc_from_jv(j.dv()) is None,
        }),
{
    let name = match json_str(j, "name") {
        Some(n) => n,
        None => {
            return None;
        },
    };
    let arguments = match json_str(j, "arguments") {
        Some(a) => a,
        None => {
            return None;
        },
    };
    Some(FunctionCall { name, arguments })
}

fn tc_from_json(j: &Json) -> (r: Option<ToolCall>)
    ensures
        (match r {
            Some(t) => tc_from_jv(j.dv()) == Some(t.tv()),
            None => tc_from_jv(j.dv()) is None,
        }),
{
    let id = match json_str(j, "id") {
        Some(i) => i,
        None => {
            return None;
        },
    };
    let call_type = match json_opt_str(j, "type") {
        Some(o) => o,
        None => {
            return None;
        },
    };
    let name = match json_opt_str(j, "name") {
        Some(o) => o,
        None => {
            return None;
        },
    };
    let arguments = match json_opt_str(j, "arguments") {
        Some(o) => o,
        None => {
            return None;
        },
    };
    let function = match j.get("function") {
        None => None,
        Some(fj) => match fj {
            Json::Null => None,
            _ => match fc_from_json(fj) {
                Some(f) => Some(f),
                None => {
                    return None;
                },
            },
        },
    };
    Some(ToolCall { id, call_type, function, name, arguments })
}

proof fn lemma_calls_from_step(es: Seq<JsonV>, k: int)
    requires
        0 <= k < es.len(),
    ensures
        calls_from_jv(es.subrange(k, es.len() as int)) == (match tc_from_jv(es[k]) {
            None => None,
            Some(t) => match calls_from_jv(es.subrange(k + 1, es.len() as int)) {
                None => None,
                Some(rest) => Some(seq![t] + rest),
            },
        }),
{
    let tail = es.subrange(k, es.len() as int);
    assert(tail[0] == es[k]);
    assert(tail.drop_first() =~= es.subrange(k + 1, es.len() as int));
}

fn calls_from_json(es: &Vec<Json>) -> (r: Option<Vec<ToolCall>>)
    ensures
        (match r {
            Some(ts) => calls_from_jv(dv_seq(es@)) == Some(view_calls(ts@)),
            None => calls_from_jv(dv_seq(es@)) is None,
        }),
{
    let ghost esv = dv_seq(es@);
    let mut out: Vec<ToolCall> = Vec::new();
    proof {
        assert(esv.subrange(0, esv.len() as int) =~= esv);
        assert(view_calls(out@) =~= Seq::<ToolCallV>::empty());
        match calls_from_jv(esv) {
            Some(rest) => {
                assert(Seq::<ToolCallV>::empty() + rest =~= rest);
            },
            None => {},
        }
    }
    let mut k: usize = 0;
    while k < es.len()
        invariant
            k <= es@.len(),
            esv == dv_seq(es@),
            out@.len() == k,
            (match calls_from_jv(esv.subrange(k as int, esv.len() as int)) {
                Some(rest) => calls_from_jv(esv) == Some(view_calls(out@) + rest),
                None => calls_from_jv(esv) is None,
            }),
        decreases es@.len() - k,
    {
        let ghost prev = view_calls(out@);
        proof {
            lemma_calls_from_step(esv, k as int);
        }
        match tc_from_json(&es[k]) {
            Some(t) => {
                out.push(t);
                proof {
                    assert(view_calls(out@) =~= prev.push(out@[k as int].tv()));
                    match calls_from_jv(esv.subrange(k as int + 1, esv.len() as int)) {
                        Some(rest) => {
                            assert(prev + (seq![out@[k as int].tv()] + rest) =~= (prev.push(
                                out@[k as int].tv(),
                            )) + rest);
                        },
                        None => {},
                    }
                }
            },
            None => {
                return None;
            },
        }
        k += 1;
    }
    proof {
        assert(esv.subrange(esv.len() as int, esv.len() as int) =~= Seq::<JsonV>::empty());
        assert(view_calls(out@) + Seq::<ToolCallV>::empty() =~= view_calls(out@));
    }
    Some(out)
}

fn msg_from_json(j: &Json) -> (r: Option<Message>)
    ensures
        (match r {
            Some(m) => msg_from_jv(j.dv()) == Some(m.mv()),
            None => msg_from_jv(j.dv()) is None,
        }),
{
    let role = match json_str(j, "role") {
        Some(x) => x,
        None => {
            return None;
        },
    };
    let content = match json_str(j, "content") {
        Some(x) => x,
        None => {
            return None;
        },
    };
    let tool_call_id = match json_opt_str(j, "tool_call_id") {
        Some(o) => o,
        None => {
            return None;
        },
    };
    let tool_calls = match j.get("tool_calls") {
        None => None,
        Some(cj) => match cj {
            Json::Null => None,
            Json::Arr(es) => match ({
                proof {
                    lemma_dv_arr(*es);
                }
                calls_from_json(es)
            }) {
                Some(ts) => Some(ts),
                None => {
                    return None;
                },
            },
            _ => {
                return None;
            },
        },
    };
    Some(Message { role, content, tool_calls, tool_call_id })
}

proof fn lemma_msgs_from_step(es: Seq<JsonV>, k: int)
    requires
        0 <= k < es.len(),
    ensures
        msgs_from_jv(es.subrange(k, es.len() as int)) == (match msg_from_jv(es[k]) {
            None => None,
            Some(m) => match msgs_from_jv(es.subrange(k + 1, es.len() as int)) {
                None => None,
                Some(rest) => Some(seq![m] + rest),
            },
        }),
{
    let tail = es.subrange(k, es.len() as int);
    assert(tail[0] == es[k]);
    assert(tail.drop_first() =~= es.subrange(k + 1, es.len() as int));
}

fn msgs_from_json(es: &Vec<Json>) -> (r: Option<Vec<Message>>)
    ensures
        (match r {
            Some(ms) => msgs_from_jv(dv_seq(es@)) == Some(view_msgs(ms@)),
            None => msgs_from_jv(dv_seq(es@)) is None,
        }),
{
    let ghost esv = dv_seq(es@);
    let mut out: Vec<Message> = Vec::new();
    proof {
        assert(esv.subrange(0, esv.len() as int) =~= esv);
        assert(view_msgs(out@) =~= Seq::<MessageV>::empty());
        match msgs_from_jv(esv) {
            Some(rest) => {
                assert(Seq::<MessageV>::empty() + rest =~= rest);
            },
            None => {},
        }
    }
    let mut k: usize = 0;
    while k < es.len()
        invariant
            k <= es@.len(),
            esv == dv_seq(es@),
            out@.len() == k,
            (match msgs_from_jv(esv.subrange(k as int, esv.len() as int)) {
                Some(rest) => msgs_from_jv(esv) == Some(view_msgs(out@) + rest),
                None => msgs_from_jv(esv) is None,
            }),
        decreases es@.len() - k,
    {
        let ghost prev = view_msgs(out@);
        proof {
            lemma_msgs_from_step(esv, k as int);
        }
        match msg_from_json(&es[k]) {
            Some(m) => {
                out.push(m);
                proof {
                    assert(view_msgs(out@) =~= prev.push(out@[k as int].mv()));
                    match msgs_from_jv(esv.subrange(k as int + 1, esv.len() as int)) {
                        Some(rest) => {
                            assert(prev + (seq![out@[k as int].mv()] + rest) =~= (prev.push(
                                out@[k as int].mv(),
                            )) + rest);
                        },
                        None => {},
                    }
                }
            },
            None => {
                return None;
            },
        }
        k += 1;
    }
    proof {
        assert(esv.subrange(esv.len() as int, esv.len() as int) =~= Seq::<JsonV>::empty());
        assert(view_msgs(out@) + Seq::<MessageV>::empty() =~= view_msgs(out@));
    }
    Some(out)
}

/// A session from its JSON value.
pub fn session_from_json(j: &Json) -> (r: Option<SessionData>)
    ensures
        (match r {
            Some(d) => sd_from_jv(j.dv()) == Some(d.sv()),
            None => sd_from_jv(j.dv()) is None,
        }),
{
    let messages = match j.get("messages") {
        Some(mj) => match mj {
            Json::Arr(es) => match ({
                proof {
                    lemma_dv_arr(*es);
                }
                msgs_from_json(es)
            }) {
                Some(ms) => ms,
                None => {
                    return None;
                },
            },
            _ => {
                return None;
            },
        },
        None => {
            return None;
        },
    };
    let summary = match json_str_dflt(j, "summary") {
        Some(x) => x,
        None => {
            return None;
        },
    };
    let created_at = match json_str_dflt(j, "created_at") {
        Some(x) => x,
        None => {
            return None;
        },
    };
    let updated_at = match json_str_dflt(j, "updated_at") {
        Some(x) => x,
        None => {
            return None;
        },
    };
    Some(SessionData { messages, summary, created_at, updated_at })
}

/// A session from the text of its file.
pub fn parse_session(s: &str) -> (r: Option<SessionData>)
    ensures
        (match r {
            Some(d) => parse_session_spec(s@) == Some(d.sv()),
            None => parse_session_spec(s@) is None,
        }),
{
    match crate::json::parse_json(s) {
        Some(j) => session_from_json(&j),
        None => None,
    }
}



// ---------------------------------------------------------------------------
// Wire encoding (absent optional fields are omitted, as the endpoints
// expect; only the session files carry explicit nulls)
// ---------------------------------------------------------------------------

/// An optional string member: present members only.
pub open spec fn opt_member(key: Seq<char>, o: Option<Seq<char>>) -> Seq<(Seq<char>, JsonV)> {
    match o {
        Some(t) => seq![(key, JsonV::Str(t))],
        None => Seq::<(Seq<char>, JsonV)>::empty(),
    }
}

pub open spec fn wire_tc_jv(t: ToolCallV) -> JsonV {
    JsonV::Obj(
        seq![("id"@, JsonV::Str(t.id))] + opt_member("type"@, t.call_type) + (match t.function {
            Some(f) => seq![("function"@, fc_to_jv(f))],
            None => Seq::<(Seq<char>, JsonV)>::empty(),
        }) + opt_member("name"@, t.name) + opt_member("arguments"@, t.arguments),
    )
}

pub open spec fn wire_calls_jv(ts: Seq<ToolCallV>) -> Seq<JsonV> {
    Seq::new(ts.len(), |i: int| wire_tc_jv(ts[i]))
}

pub open spec fn wire_msg_jv(m: MessageV) -> JsonV {
    JsonV::Obj(
        seq![("role"@, JsonV::Str(m.role)), ("content"@, JsonV::Str(m.content))] + (
        match m.tool_calls {
            Some(ts) => seq![("tool_calls"@, JsonV::Arr(wire_calls_jv(ts)))],
            None => Seq::<(Seq<char>, JsonV)>::empty(),
        }) + opt_member("tool_call_id"@, m.tool_call_id),
    )
}

pub open spec fn wire_msgs_jv(ms: Seq<MessageV>) -> Seq<JsonV> {
    Seq::new(ms.len(), |i: int| wire_msg_jv(ms[i]))
}

fn wire_tc_to_json(t: &ToolCall) -> (r: Json)
    ensures
        r.dv() == wire_tc_jv(t.tv()),
{
    let mut v: Vec<(String, Json)> = Vec::new();
    v.push((own_str("id"), Json::Str(t.id.clone())));
    let ghost e1 = seq![("id"@, JsonV::Str(t.id@))];
    proof {
        assert(dv_members(v@) =~= e1);
    }
    match &t.call_type {
        Some(x) => {
            v.push((own_str("type"), Json::Str(x.clone())));
        },
        None => {},
    }
    let ghost e2 = e1 + opt_member("type"@, view_opt_str(t.call_type));
    proof {
        assert(dv_members(v@) =~= e2);
    }
    match &t.function {
        Some(f) => {
            v.push((own_str("function"), fc_to_json(f)));
        },
        None => {},
    }
    let ghost e3 = e2 + (match t.tv().function {
        Some(f) => seq![("function"@, fc_to_jv(f))],
        None => Seq::<(Seq<char>, JsonV)>::empty(),
    });
    proof {
        assert(dv_members(v@) =~= e3);
    }
    match &t.name {
        Some(x) => {
            v.push((own_str("name"), Json::Str(x.clone())));
        },
        None => {},
    }
    let ghost e4 = e3 + opt_member("name"@, view_opt_str(t.name));
    proof {
        assert(dv_members(v@) =~= e4);
    }
    match &t.arguments {
        Some(x) => {
            v.push((own_str("arguments"), Json::Str(x.clone())));
        },
        None => {},
    }
    proof {
        lemma_dv_obj(v);
        assert(dv_members(v@) =~= wire_tc_jv(t.tv())->Obj_0);
    }
    Json::Obj(v)
}

/// One message in the wire shape: absent fields are left out.
pub fn wire_msg_to_json(m: &Message) -> (r: Json)
    ensures
        r.dv() == wire_msg_jv(m.mv()),
{
    let mut v: Vec<(String, Json)> = Vec::new();
    v.push((own_str("role"), Json::Str(m.role.clone())));
    v.push((own_str("content"), Json::Str(m.content.clone())));
    let ghost e1 = seq![("role"@, JsonV::Str(m.role@)), ("content"@, JsonV::Str(m.content@))];
    proof {
        assert(dv_members(v@) =~= e1);
    }
    match &m.tool_calls {
        Some(ts) => {
            let mut arr: Vec<Json> = Vec::new();
            let mut k: usize = 0;
            while k < ts.len()
                invariant
                    k <= ts@.len(),
                    arr@.len() == k,
                    forall|i: int| 0 <= i < k ==> arr@[i].dv() == wire_tc_jv(ts@[i].tv()),
                decreases ts@.len() - k,
            {
                arr.push(wire_tc_to_json(&ts[k]));
                k += 1;
            }
            proof {
                lemma_dv_arr(arr);
                assert(dv_seq(arr@) =~= wire_calls_jv(view_calls(ts@)));
            }
            v.push((own_str("tool_calls"), Json::Arr(arr)));
        },
        None => {},
    }
    let ghost e2 = e1 + (match m.mv().tool_calls {
        Some(ts) => seq![("tool_calls"@, JsonV::Arr(wire_calls_jv(ts)))],
        None => Seq::<(Seq<char>, JsonV)>::empty(),
    });
    proof {
        assert(dv_members(v@) =~= e2);
    }
    match &m.tool_call_id {
        Some(x) => {
            v.push((own_str("tool_call_id"), Json::Str(x.clone())));
        },
        None => {},
    }
    proof {
        lemma_dv_obj(v);
        assert(dv_members(v@) =~= wire_msg_jv(m.mv())->Obj_0);
    }
    Json::Obj(v)
}

// ---------------------------------------------------------------------------
// Round-trip theorems (value level)
// ---------------------------------------------------------------------------

/// The field names used by the session format are pairwise distinct.
proof fn lemma_distinct_keys()
    ensures
        "id"@ != "type"@,
        "id"@ != "function"@,
        "id"@ != "name"@,
        "id"@ != "arguments"@,
        "type"@ != "function"@,
        "type"@ != "name"@,
        "type"@ != "arguments"@,
        "function"@ != "name"@,
        "function"@ != "arguments"@,
        "name"@ != "arguments"@,
        "role"@ != "content"@,
        "role"@ != "tool_calls"@,
        "role"@ != "tool_call_id"@,
        "content"@ != "tool_calls"@,
        "content"@ != "tool_call_id"@,
        "tool_calls"@ != "tool_call_id"@,
        "messages"@ != "summary"@,
        "messages"@ != "created_at"@,
        "messages"@ != "updated_at"@,
        "summary"@ != "created_at"@,
        "summary"@ != "updated_at"@,
        "created_at"@ != "updated_at"@,
{
    reveal_strlit("id");
    reveal_strlit("type");
    reveal_strlit("function");
    reveal_strlit("name");
    reveal_strlit("arguments");
    reveal_strlit("role");
    reveal_strlit("content");
    reveal_strlit("tool_calls");
    reveal_strlit("tool_call_id");
    reveal_strlit("messages");
    reveal_strlit("summary");
    reveal_strlit("created_at");
    reveal_strlit("updated_at");
    assert("id"@.len() == 2);
    assert("type"@.len() == 4);
    assert("function"@.len() == 8);
    assert("name"@.len() == 4);
    assert("arguments"@.len() == 9);
    assert("role"@.len() == 4);
    assert("content"@.len() == 7);
    assert("tool_calls"@.len() == 10);
    assert("tool_call_id"@.len() == 12);
    assert("messages"@.len() == 8);
    assert("summary"@.len() == 7);
    assert("created_at"@.len() == 10);
    assert("updated_at"@.len() == 10);
    assert("type"@.index(0) == 't');
    assert("name"@.index(0) == 'n');
    assert("created_at"@.index(0) == 'c');
    assert("updated_at"@.index(0) == 'u');
}

proof fn lemma_fc_rt(f: FunctionCallV)
    ensures
        fc_from_jv(fc_to_jv(f)) == Some(f),
{
    lemma_distinct_keys();
    let ms = fc_to_jv(f)->Obj_0;
    assert(jv_lookup(ms, "name"@) == Some(JsonV::Str(f.name)));
    assert(ms[0].0 != "arguments"@);
    crate::json::lemma_jv_lookup_step(ms, "arguments"@, 1);
    let tail = ms.subrange(1, 2);
    assert(tail[0] == ms[1]);
    assert(jv_lookup(tail, "arguments"@) == Some(JsonV::Str(f.arguments)));
}

proof fn lemma_tc_rt(t: ToolCallV)
    ensures
        tc_from_jv(tc_to_jv(t)) == Some(t),
{
    lemma_distinct_keys();
    let j = tc_to_jv(t);
    let ms = j->Obj_0;
    assert(jv_lookup(ms, "id"@) == Some(JsonV::Str(t.id)));
    assert forall|n: int, k: Seq<char>|
        0 <= n < 5 && (forall|i: int| 0 <= i < n ==> ms[i].0 != k) implies jv_lookup(ms, k)
        == jv_lookup(ms.subrange(n, 5), k) by {
        crate::json::lemma_jv_lookup_step(ms, k, n);
    }
    crate::json::lemma_jv_lookup_step(ms, "type"@, 1);
    assert(ms.subrange(1, 5)[0] == ms[1]);
    assert(jv_lookup(ms.subrange(1, 5), "type"@) == Some(opt_str_jv(t.call_type)));
    crate::json::lemma_jv_lookup_step(ms, "function"@, 2);
    assert(ms.subrange(2, 5)[0] == ms[2]);
    assert(jv_lookup(ms.subrange(2, 5), "function"@) == Some(ms[2].1));
    crate::json::lemma_jv_lookup_step(ms, "name"@, 3);
    assert(ms.subrange(3, 5)[0] == ms[3]);
    assert(jv_lookup(ms.subrange(3, 5), "name"@) == Some(opt_str_jv(t.name)));
    crate::json::lemma_jv_lookup_step(ms, "arguments"@, 4);
    assert(ms.subrange(4, 5)[0] == ms[4]);
    assert(jv_lookup(ms.subrange(4, 5), "arguments"@) == Some(opt_str_jv(t.arguments)));
    match t.function {
        Some(f) => {
            lemma_fc_rt(f);
        },
        None => {},
    }
}

proof fn lemma_calls_rt(ts: Seq<ToolCallV>)
    ensures
        calls_from_jv(calls_to_jv(ts)) == Some(ts),
    decreases ts.len(),
{
    if ts.len() == 0 {
        assert(calls_to_jv(ts).len() == 0);
        assert(ts =~= Seq::<ToolCallV>::empty());
    } else {
        lemma_tc_rt(ts[0]);
        lemma_calls_rt(ts.drop_first());
        assert(calls_to_jv(ts)[0] == tc_to_jv(ts[0]));
        assert(calls_to_jv(ts).drop_first() =~= calls_to_jv(ts.drop_first()));
        assert(seq![ts[0]] + ts.drop_first() =~= ts);
    }
}

proof fn lemma_msg_rt(m: MessageV)
    ensures
        msg_from_jv(msg_to_jv(m)) == Some(m),
{
    lemma_distinct_keys();
    let j = msg_to_jv(m);
    let ms = j->Obj_0;
    assert(jv_lookup(ms, "role"@) == Some(JsonV::Str(m.role)));
    crate::json::lemma_jv_lookup_step(ms, "content"@, 1);
    assert(ms.subrange(1, 4)[0] == ms[1]);
    assert(jv_lookup(ms.subrange(1, 4), "content"@) == Some(JsonV::Str(m.content)));
    crate::json::lemma_jv_lookup_step(ms, "tool_calls"@, 2);
    assert(ms.subrange(2, 4)[0] == ms[2]);
    assert(jv_lookup(ms.subrange(2, 4), "tool_calls"@) == Some(ms[2].1));
    crate::json::lemma_jv_lookup_step(ms, "tool_call_id"@, 3);
    assert(ms.subrange(3, 4)[0] == ms[3]);
    assert(jv_lookup(ms.subrange(3, 4), "tool_call_id"@) == Some(opt_str_jv(m.tool_call_id)));
    match m.tool_calls {
        Some(ts) => {
            lemma_calls_rt(ts);
        },
        None => {},
    }
}

proof fn lemma_msgs_rt(msl: Seq<MessageV>)
    ensures
        msgs_from_jv(msgs_to_jv(msl)) == Some(msl),
    decreases msl.len(),
{
    if msl.len() == 0 {
        assert(msgs_to_jv(msl).len() == 0);
        assert(msl =~= Seq::<MessageV>::empty());
    } else {
        lemma_msg_rt(msl[0]);
        lemma_msgs_rt(msl.drop_first());
        assert(msgs_to_jv(msl)[0] == msg_to_jv(msl[0]));
        assert(msgs_to_jv(msl).drop_first() =~= msgs_to_jv(msl.drop_first()));
        assert(seq![msl[0]] + msl.drop_first() =~= msl);
    }
}

/// Decoding an encoded session value gives the session back: the messages,
/// the summary, and the timestamps all survive the trip through the file
/// format's JSON value.
pub proof fn lemma_session_value_round_trip(d: SessionDataV)
    ensures
        sd_from_jv(sd_to_jv(d)) == Some(d),
{
    lemma_distinct_keys();
    let j = sd_to_jv(d);
    let ms = j->Obj_0;
    assert(jv_lookup(ms, "messages"@) == Some(JsonV::Arr(msgs_to_jv(d.messages))));
    crate::json::lemma_jv_lookup_step(ms, "summary"@, 1);
    assert(ms.subrange(1, 4)[0] == ms[1]);
    assert(jv_lookup(ms.subrange(1, 4), "summary"@) == Some(JsonV::Str(d.summary)));
    crate::json::lemma_jv_lookup_step(ms, "created_at"@, 2);
    assert(ms.subrange(2, 4)[0] == ms[2]);
    assert(jv_lookup(ms.subrange(2, 4), "created_at"@) == Some(JsonV::Str(d.created_at)));
    crate::json::lemma_jv_lookup_step(ms, "updated_at"@, 3);
    assert(ms.subrange(3, 4)[0] == ms[3]);
    assert(jv_lookup(ms.subrange(3, 4), "updated_at"@) == Some(JsonV::Str(d.updated_at)));
    lemma_msgs_rt(d.messages);
}


// ---------------------------------------------------------------------------
// Round-trip theorem (text level)
// ---------------------------------------------------------------------------

proof fn lemma_tc_rt_ok(t: ToolCallV)
    ensures
        crate::json::rt_ok(tc_to_jv(t)),
{
    let ms = tc_to_jv(t)->Obj_0;
    assert forall|i: int| 0 <= i < ms.len() implies crate::json::rt_ok(#[trigger] ms[i].1) by {
        match t.function {
            Some(f) => {
                assert(crate::json::rt_ok(fc_to_jv(f))) by {
                    let fs = fc_to_jv(f)->Obj_0;
                    assert(forall|k: int|
                        0 <= k < fs.len() ==> crate::json::rt_ok(#[trigger] fs[k].1));
                }
            },
            None => {},
        }
    }
}

proof fn lemma_msg_rt_ok(m: MessageV)
    ensures
        crate::json::rt_ok(msg_to_jv(m)),
{
    let ms = msg_to_jv(m)->Obj_0;
    assert forall|i: int| 0 <= i < ms.len() implies crate::json::rt_ok(#[trigger] ms[i].1) by {
        match m.tool_calls {
            Some(ts) => {
                assert(crate::json::rt_ok(JsonV::Arr(calls_to_jv(ts)))) by {
                    assert forall|k: int|
                        0 <= k < calls_to_jv(ts).len() implies crate::json::rt_ok(
                        #[trigger] calls_to_jv(ts)[k],
                    ) by {
                        lemma_tc_rt_ok(ts[k]);
                    }
                }
            },
            None => {},
        }
    }
}

proof fn lemma_sd_rt_ok(d: SessionDataV)
    ensures
        crate::json::rt_ok(sd_to_jv(d)),
{
    let ms = sd_to_jv(d)->Obj_0;
    assert forall|i: int| 0 <= i < ms.len() implies crate::json::rt_ok(#[trigger] ms[i].1) by {
        assert(crate::json::rt_ok(JsonV::Arr(msgs_to_jv(d.messages)))) by {
            assert forall|k: int|
                0 <= k < msgs_to_jv(d.messages).len() implies crate::json::rt_ok(
                #[trigger] msgs_to_jv(d.messages)[k],
            ) by {
                lemma_msg_rt_ok(d.messages[k]);
            }
        }
    }
}

/// The persistence round trip: decoding the encoded text of a session
/// gives the session back — the messages, the summary and the timestamps
/// all survive the trip through the file format.
pub proof fn lemma_session_text_round_trip(d: SessionDataV)
    ensures
        parse_session_spec(crate::json::wr_value(sd_to_jv(d))) == Some(d),
{
    lemma_sd_rt_ok(d);
    crate::json::lemma_parse_write(sd_to_jv(d));
    lemma_session_value_round_trip(d);
}

} // verus!
