//! The streaming side of the model transport: a server-sent-event parser
//! that turns raw text chunks into an ordered stream of events. Token
//! frames are forwarded immediately; tool-call frames arrive as
//! index-addressed fragments and are accumulated (id and name overwrite
//! when present, argument text concatenates) until the terminal marker,
//! which emits one synthesized final response. A stream that ends without
//! the marker still flushes what was accumulated.

use vstd::prelude::*;
use vstd::string::StringExecFns;
use crate::json::{Json, JsonV, jv_get, jv_u64, sp_json, is_ws};
use crate::msg::{
    StreamEvent, LLMResponse, LLMResponseV, ToolCall, ToolCallV, FunctionCall, FunctionCallV,
    UsageInfo, UsageInfoV,
};
use crate::transport::{str_or, usage_from_jv};
use crate::codec::str_of;

verus! {

// ---------------------------------------------------------------------------
// Ghost state
// ---------------------------------------------------------------------------

/// One accumulated tool-call fragment slot.
pub struct FragV {
    pub index: nat,
    pub id: Seq<char>,
    pub name: Seq<char>,
    pub arguments: Seq<char>,
}

/// The ghost state of the stream parser (without the raw buffer).
pub struct SseV {
    pub content: Seq<char>,
    pub finish_reason: Seq<char>,
    pub frags: Seq<FragV>,
    pub usage: Option<UsageInfoV>,
    pub done: bool,
}

/// The ghost form of a stream event.
pub enum EventV {
    Token(Seq<char>),
    Delta { index: nat, id: Option<Seq<char>>, name: Option<Seq<char>>, arguments: Seq<char> },
    Done(LLMResponseV),
    Error(Seq<char>),
}

pub open spec fn ev(e: StreamEvent) -> EventV {
    match e {
        StreamEvent::Token(t) => EventV::Token(t@),
        StreamEvent::ToolCallDelta { index, id, name, arguments } => EventV::Delta {
            index: index as nat,
            id: crate::msg::view_opt_str(id),
            name: crate::msg::view_opt_str(name),
            arguments: arguments@,
        },
        StreamEvent::Done(r) => EventV::Done(r.rv()),
        StreamEvent::Error(e) => EventV::Error(e@),
    }
}

pub open spec fn evs(v: Seq<StreamEvent>) -> Seq<EventV> {
    Seq::new(v.len(), |i: int| ev(v[i]))
}

/// Fragment slots stand in strictly increasing index order.
pub open spec fn frags_sorted(fs: Seq<FragV>) -> bool {
    forall|i: int, j: int| 0 <= i < j < fs.len() ==> fs[i].index < fs[j].index
}

// ---------------------------------------------------------------------------
// Ghost transitions
// ---------------------------------------------------------------------------

pub open spec fn trim_start(s: Seq<char>) -> Seq<char>
    decreases s.len(),
{
    if s.len() > 0 && is_ws(s[0]) {
        trim_start(s.drop_first())
    } else {
        s
    }
}

pub open spec fn trim_end(s: Seq<char>) -> Seq<char>
    decreases s.len(),
{
    if s.len() > 0 && is_ws(s.last()) {
        trim_end(s.drop_last())
    } else {
        s
    }
}

pub open spec fn trim(s: Seq<char>) -> Seq<char> {
    trim_end(trim_start(s))
}

/// Update or create the slot for one fragment: id and name overwrite when
/// present, argument text concatenates; slots stay sorted by index.
pub open spec fn upsert(
    fs: Seq<FragV>,
    index: nat,
    id: Option<Seq<char>>,
    name: Option<Seq<char>>,
    arg: Seq<char>,
) -> Seq<FragV>
    decreases fs.len(),
{
    let fresh = FragV {
        index,
        id: match id {
            Some(x) => x,
            None => Seq::<char>::empty(),
        },
        name: match name {
            Some(x) => x,
            None => Seq::<char>::empty(),
        },
        arguments: arg,
    };
    if fs.len() == 0 {
        seq![fresh]
    } else if fs[0].index < index {
        seq![fs[0]] + upsert(fs.drop_first(), index, id, name, arg)
    } else if fs[0].index == index {
        let updated = FragV {
            index,
            id: match id {
                Some(x) => x,
                None => fs[0].id,
            },
            name: match name {
                Some(x) => x,
                None => fs[0].name,
            },
            arguments: fs[0].arguments + arg,
        };
        seq![updated] + fs.drop_first()
    } else {
        seq![fresh] + fs
    }
}

/// The fields one wire fragment carries.
pub open spec fn frag_index_of(tc: JsonV) -> nat {
    match jv_get(tc, "index"@) {
        Some(x) => match jv_u64(x) {
            Some(n) => if n <= usize::MAX as u64 {
                n as nat
            } else {
                usize::MAX as nat
            },
            None => 0,
        },
        None => 0,
    }
}

pub open spec fn frag_arg_of(tc: JsonV) -> Seq<char> {
    match jv_get(tc, "function"@) {
        Some(f) => str_or(f, "arguments"@, Seq::<char>::empty()),
        None => Seq::<char>::empty(),
    }
}

pub open spec fn frag_name_of(tc: JsonV) -> Option<Seq<char>> {
    match jv_get(tc, "function"@) {
        Some(f) => str_of(f, "name"@),
        None => None,
    }
}

/// Apply one wire fragment to the slots, producing its delta event.
pub open spec fn apply_tc(fs: Seq<FragV>, tc: JsonV) -> (Seq<FragV>, EventV) {
    let index = frag_index_of(tc);
    let id = str_of(tc, "id"@);
    let name = frag_name_of(tc);
    let arg = frag_arg_of(tc);
    (
        upsert(fs, index, id, name, arg),
        EventV::Delta { index, id, name, arguments: arg },
    )
}

/// Apply a frame's list of wire fragments in order.
pub open spec fn apply_tcs(fs: Seq<FragV>, tcs: Seq<JsonV>) -> (Seq<FragV>, Seq<EventV>)
    decreases tcs.len(),
{
    if tcs.len() == 0 {
        (fs, Seq::<EventV>::empty())
    } else {
        let (fs1, e) = apply_tc(fs, tcs[0]);
        let (fs2, es) = apply_tcs(fs1, tcs.drop_first());
        (fs2, seq![e] + es)
    }
}

/// The tool calls synthesized from the accumulated slots, in index order.
pub open spec fn calls_of_frags(fs: Seq<FragV>) -> Seq<ToolCallV> {
    Seq::new(
        fs.len(),
        |i: int|
            ToolCallV {
                id: fs[i].id,
                call_type: Some("function"@),
                function: Some(FunctionCallV { name: fs[i].name, arguments: fs[i].arguments }),
                name: None,
                arguments: None,
            },
    )
}

/// The final response synthesized from the parser's state.
pub open spec fn done_response(sv: SseV) -> LLMResponseV {
    LLMResponseV {
        content: sv.content,
        tool_calls: if sv.frags.len() == 0 {
            None
        } else {
            Some(calls_of_frags(sv.frags))
        },
        finish_reason: sv.finish_reason,
        usage: sv.usage,
    }
}

/// The new finish reason a frame carries, if any.
pub open spec fn frame_finish(v: JsonV) -> Option<Seq<char>> {
    match jv_get(v, "choices"@) {
        Some(JsonV::Arr(cs)) => if cs.len() > 0 {
            str_of(cs[0], "finish_reason"@)
        } else {
            None
        },
        _ => None,
    }
}

/// The delta object of a frame, if any.
pub open spec fn frame_delta(v: JsonV) -> Option<JsonV> {
    match jv_get(v, "choices"@) {
        Some(JsonV::Arr(cs)) => if cs.len() > 0 {
            jv_get(cs[0], "delta"@)
        } else {
            None
        },
        _ => None,
    }
}

/// Process the payload of one `data:` frame (already known not to be the
/// terminal marker).
pub open spec fn apply_frame(sv: SseV, data: Seq<char>) -> (SseV, Seq<EventV>) {
    match sp_json(data) {
        None => (sv, Seq::<EventV>::empty()),
        Some(v) => {
            let finish = match frame_finish(v) {
                Some(fr) => fr,
                None => sv.finish_reason,
            };
            let usage = match jv_get(v, "usage"@) {
                Some(_) => usage_from_jv(v),
                None => sv.usage,
            };
            match frame_delta(v) {
                None => (
                    SseV {
                        content: sv.content,
                        finish_reason: finish,
                        frags: sv.frags,
                        usage,
                        done: sv.done,
                    },
                    Seq::<EventV>::empty(),
                ),
                Some(delta) => {
                    let (content, tok_events) = (match str_of(delta, "content"@) {
                        Some(c) => if c.len() > 0 {
                            (sv.content + c, seq![EventV::Token(c)])
                        } else {
                            (sv.content, Seq::<EventV>::empty())
                        },
                        None => (sv.content, Seq::<EventV>::empty()),
                    });
                    let (frags, tc_events) = (match jv_get(delta, "tool_calls"@) {
                        Some(JsonV::Arr(tcs)) => apply_tcs(sv.frags, tcs),
                        _ => (sv.frags, Seq::<EventV>::empty()),
                    });
                    (
                        SseV { content, finish_reason: finish, frags, usage, done: sv.done },
                        tok_events + tc_events,
                    )
                },
            }
        },
    }
}

/// Process one complete line of the stream.
pub open spec fn line_step(sv: SseV, line: Seq<char>) -> (SseV, Seq<EventV>) {
    let l = trim(line);
    if sv.done {
        (sv, Seq::<EventV>::empty())
    } else if l.len() == 0 || l[0] == ':' {
        (sv, Seq::<EventV>::empty())
    } else if l.len() >= 6 && l.subrange(0, 6) == "data: "@ {
        let data = trim(l.subrange(6, l.len() as int));
        if data == "[DONE]"@ {
            (
                SseV {
                    content: sv.content,
                    finish_reason: sv.finish_reason,
                    frags: sv.frags,
                    usage: sv.usage,
                    done: true,
                },
                seq![EventV::Done(done_response(sv))],
            )
        } else {
            apply_frame(sv, data)
        }
    } else {
        (sv, Seq::<EventV>::empty())
    }
}

/// The first newline at or after `i`.
pub open spec fn nl_index(s: Seq<char>, i: int) -> Option<int>
    decreases s.len() - i when 0 <= i <= s.len()
{
    if i >= s.len() {
        None
    } else if s[i] == '\n' {
        Some(i)
    } else {
        nl_index(s, i + 1)
    }
}

/// Consume every complete line of `s`, threading the state; what follows
/// the last newline stays as the new buffer.
pub open spec fn run_buffer(sv: SseV, s: Seq<char>) -> (SseV, Seq<char>, Seq<EventV>)
    decreases s.len(),
{
    match nl_index(s, 0) {
        None => (sv, s, Seq::<EventV>::empty()),
        Some(p) => {
            if !(0 <= p < s.len()) {
                (sv, s, Seq::<EventV>::empty())
            } else {
                let (sv1, es1) = line_step(sv, s.subrange(0, p));
                let (sv2, rest, es2) = run_buffer(sv1, s.subrange(p + 1, s.len() as int));
                (sv2, rest, es1 + es2)
            }
        },
    }
}


// ---------------------------------------------------------------------------
// The executable parser
// ---------------------------------------------------------------------------

/// One accumulated tool-call fragment slot.
#[derive(Debug, Clone)]
pub struct ToolFrag {
    pub index: usize,
    pub id: String,
    pub name: String,
    pub arguments: String,
}

impl ToolFrag {
    pub open spec fn fv(self) -> FragV {
        FragV { index: self.index as nat, id: self.id@, name: self.name@, arguments: self.arguments@ }
    }
}

pub open spec fn view_frags(v: Seq<ToolFrag>) -> Seq<FragV> {
    Seq::new(v.len(), |i: int| v[i].fv())
}

/// The streaming parser: feed it raw chunks, take events out.
#[derive(Debug)]
pub struct SseParser {
    pub buffer: Vec<char>,
    pub content: String,
    pub finish_reason: String,
    pub frags: Vec<ToolFrag>,
    pub usage: Option<UsageInfo>,
    pub done: bool,
}

impl SseParser {
    pub open spec fn sv(self) -> SseV {
        SseV {
            content: self.content@,
            finish_reason: self.finish_reason@,
            frags: view_frags(self.frags@),
            usage: match self.usage {
                Some(u) => Some(u.uv()),
                None => None,
            },
            done: self.done,
        }
    }

    pub open spec fn wf(self) -> bool {
        frags_sorted(view_frags(self.frags@))
    }

    /// A fresh parser: empty accumulation, default finish reason.
    pub fn new() -> (r: SseParser)
        ensures
            r.wf(),
            r.buffer@ == Seq::<char>::empty(),
            r.sv() == (SseV {
                content: Seq::<char>::empty(),
                finish_reason: "stop"@,
                frags: Seq::<FragV>::empty(),
                usage: None::<UsageInfoV>,
                done: false,
            }),
    {
        let r = SseParser {
            buffer: Vec::new(),
            content: String::new(),
            finish_reason: crate::text::own_str("stop"),
            frags: Vec::new(),
            usage: None,
            done: false,
        };
        proof {
            assert(view_frags(r.frags@) =~= Seq::<FragV>::empty());
        }
        r
    }
}

/// Trim the whitespace off both ends.
fn trim_chars(v: &Vec<char>) -> (r: Vec<char>)
    ensures
        r@ == trim(v@),
{
    let n = v.len();
    proof {
        assert(v@.subrange(0, n as int) =~= v@);
    }
    let mut a: usize = 0;
    while a < n && ws_char(v[a])
        invariant
            a <= n,
            n == v@.len(),
            trim_start(v@) == trim_start(v@.subrange(a as int, n as int)),
        decreases n - a,
    {
        proof {
            let s = v@.subrange(a as int, n as int);
            assert(s[0] == v@[a as int]);
            assert(s.drop_first() =~= v@.subrange(a as int + 1, n as int));
        }
        a += 1;
    }
    proof {
        let s = v@.subrange(a as int, n as int);
        if s.len() > 0 {
            assert(s[0] == v@[a as int]);
        }
        assert(trim_start(v@) == v@.subrange(a as int, n as int));
    }
    let mut b: usize = n;
    while b > a && ws_char(v[b - 1])
        invariant
            a <= b <= n,
            n == v@.len(),
            trim_end(v@.subrange(a as int, n as int)) == trim_end(v@.subrange(a as int, b as int)),
        decreases b,
    {
        proof {
            let s = v@.subrange(a as int, b as int);
            assert(s.last() == v@[b as int - 1]);
            assert(s.drop_last() =~= v@.subrange(a as int, b as int - 1));
        }
        b -= 1;
    }
    proof {
        let s = v@.subrange(a as int, b as int);
        if s.len() > 0 {
            assert(s.last() == v@[b as int - 1]);
        }
        assert(trim_end(v@.subrange(a as int, n as int)) == v@.subrange(a as int, b as int));
    }
    crate::json::copy_range(v, a, b)
}

fn ws_char(c: char) -> (r: bool)
    ensures
        r == is_ws(c),
{
    c == ' ' || c == '\n' || c == '\t' || c == '\r'
}

/// The first newline in the vector.
fn find_nl(v: &Vec<char>) -> (r: Option<usize>)
    ensures
        (r matches Some(p) ==> nl_index(v@, 0) == Some(p as int) && p < v@.len()),
        (r is None ==> nl_index(v@, 0) is None),
{
    let mut k: usize = 0;
    while k < v.len()
        invariant
            k <= v@.len(),
            nl_index(v@, 0) == nl_index(v@, k as int),
        decreases v@.len() - k,
    {
        if v[k] == '\n' {
            return Some(k);
        }
        k += 1;
    }
    None
}

proof fn lemma_upsert_sorted(
    fs: Seq<FragV>,
    index: nat,
    id: Option<Seq<char>>,
    name: Option<Seq<char>>,
    arg: Seq<char>,
)
    requires
        frags_sorted(fs),
    ensures
        frags_sorted(upsert(fs, index, id, name, arg)),
        upsert(fs, index, id, name, arg).len() >= fs.len(),
        forall|i: int|
            0 <= i < upsert(fs, index, id, name, arg).len() ==> (#[trigger] upsert(
                fs,
                index,
                id,
                name,
                arg,
            )[i]).index == index || (exists|j: int|
                0 <= j < fs.len() && upsert(fs, index, id, name, arg)[i].index == fs[j].index),
    decreases fs.len(),
{
    if fs.len() > 0 && fs[0].index < index {
        lemma_upsert_sorted(fs.drop_first(), index, id, name, arg);
    }
}

proof fn lemma_upsert_at(
    fs: Seq<FragV>,
    index: nat,
    id: Option<Seq<char>>,
    name: Option<Seq<char>>,
    arg: Seq<char>,
    p: int,
)
    requires
        frags_sorted(fs),
        0 <= p <= fs.len(),
        forall|i: int| 0 <= i < p ==> fs[i].index < index,
        p < fs.len() ==> fs[p].index >= index,
    ensures
        upsert(fs, index, id, name, arg) == (if p < fs.len() && fs[p].index == index {
            fs.subrange(0, p) + seq![
                FragV {
                    index,
                    id: match id {
                        Some(x) => x,
                        None => fs[p].id,
                    },
                    name: match name {
                        Some(x) => x,
                        None => fs[p].name,
                    },
                    arguments: fs[p].arguments + arg,
                },
            ] + fs.subrange(p + 1, fs.len() as int)
        } else {
            fs.subrange(0, p) + seq![
                FragV {
                    index,
                    id: match id {
                        Some(x) => x,
                        None => Seq::<char>::empty(),
                    },
                    name: match name {
                        Some(x) => x,
                        None => Seq::<char>::empty(),
                    },
                    arguments: arg,
                },
            ] + fs.subrange(p, fs.len() as int)
        }),
    decreases p,
{
    if p == 0 {
        if fs.len() == 0 {
            assert(fs.subrange(0, 0) =~= Seq::<FragV>::empty());
            assert(upsert(fs, index, id, name, arg) =~= fs.subrange(0, 0) + seq![
                FragV {
                    index,
                    id: match id {
                        Some(x) => x,
                        None => Seq::<char>::empty(),
                    },
                    name: match name {
                        Some(x) => x,
                        None => Seq::<char>::empty(),
                    },
                    arguments: arg,
                },
            ] + fs.subrange(0, 0));
        } else if fs[0].index == index {
            assert(fs.subrange(0, 0) =~= Seq::<FragV>::empty());
            assert(fs.drop_first() =~= fs.subrange(1, fs.len() as int));
            assert(upsert(fs, index, id, name, arg) =~= fs.subrange(0, 0) + seq![
                FragV {
                    index,
                    id: match id {
                        Some(x) => x,
                        None => fs[0].id,
                    },
                    name: match name {
                        Some(x) => x,
                        None => fs[0].name,
                    },
                    arguments: fs[0].arguments + arg,
                },
            ] + fs.subrange(1, fs.len() as int));
        } else {
            assert(fs[0].index > index);
            assert(fs.subrange(0, 0) =~= Seq::<FragV>::empty());
            assert(fs.subrange(0, fs.len() as int) =~= fs);
            assert(upsert(fs, index, id, name, arg) =~= fs.subrange(0, 0) + seq![
                FragV {
                    index,
                    id: match id {
                        Some(x) => x,
                        None => Seq::<char>::empty(),
                    },
                    name: match name {
                        Some(x) => x,
                        None => Seq::<char>::empty(),
                    },
                    arguments: arg,
                },
            ] + fs.subrange(0, fs.len() as int));
        }
    } else {
        assert(fs[0].index < index);
        lemma_upsert_at(fs.drop_first(), index, id, name, arg, p - 1);
        assert(fs.drop_first().subrange(0, p - 1) =~= fs.subrange(1, p));
        assert(fs.drop_first().subrange(p - 1, fs.drop_first().len() as int) =~= fs.subrange(
            p,
            fs.len() as int,
        ));
        if p < fs.len() && fs[p].index == index {
            assert(fs.drop_first().subrange(p, fs.drop_first().len() as int) =~= fs.subrange(
                p + 1,
                fs.len() as int,
            ));
            assert(fs.drop_first()[p - 1] == fs[p]);
            assert(seq![fs[0]] + (fs.subrange(1, p) + seq![
                FragV {
                    index,
                    id: match id {
                        Some(x) => x,
                        None => fs[p].id,
                    },
                    name: match name {
                        Some(x) => x,
                        None => fs[p].name,
                    },
                    arguments: fs[p].arguments + arg,
                },
            ] + fs.subrange(p + 1, fs.len() as int)) =~= fs.subrange(0, p) + seq![
                FragV {
                    index,
                    id: match id {
                        Some(x) => x,
                        None => fs[p].id,
                    },
                    name: match name {
                        Some(x) => x,
                        None => fs[p].name,
                    },
                    arguments: fs[p].arguments + arg,
                },
            ] + fs.subrange(p + 1, fs.len() as int));
        } else {
            assert(seq![fs[0]] + (fs.subrange(1, p) + seq![
                FragV {
                    index,
                    id: match id {
                        Some(x) => x,
                        None => Seq::<char>::empty(),
                    },
                    name: match name {
                        Some(x) => x,
                        None => Seq::<char>::empty(),
                    },
                    arguments: arg,
                },
            ] + fs.subrange(p, fs.len() as int)) =~= fs.subrange(0, p) + seq![
                FragV {
                    index,
                    id: match id {
                        Some(x) => x,
                        None => Seq::<char>::empty(),
                    },
                    name: match name {
                        Some(x) => x,
                        None => Seq::<char>::empty(),
                    },
                    arguments: arg,
                },
            ] + fs.subrange(p, fs.len() as int));
        }
    }
}


/// Update or create the slot for one fragment, keeping the slots sorted.
#[verifier::loop_isolation(false)]
fn upsert_frag(
    frags: &mut Vec<ToolFrag>,
    index: usize,
    id: Option<String>,
    name: Option<String>,
    arg: &str,
)
    requires
        frags_sorted(view_frags(old(frags)@)),
    ensures
        view_frags(final(frags)@) == upsert(
            view_frags(old(frags)@),
            index as nat,
            crate::msg::view_opt_str(id),
            crate::msg::view_opt_str(name),
            arg@,
        ),
        frags_sorted(view_frags(final(frags)@)),
{
    let ghost fv = view_frags(frags@);
    let ghost idv = crate::msg::view_opt_str(id);
    let ghost nmv = crate::msg::view_opt_str(name);
    proof {
        lemma_upsert_sorted(fv, index as nat, idv, nmv, arg@);
    }
    let n = frags.len();
    let mut p: usize = 0;
    while p < n && frags[p].index < index
        invariant
            p <= n,
            n == frags@.len(),
            forall|i: int| 0 <= i < p ==> fv[i].index < index as nat,
        decreases n - p,
    {
        p += 1;
    }
    proof {
        lemma_upsert_at(fv, index as nat, idv, nmv, arg@, p as int);
    }
    if p < n && frags[p].index == index {
        let slot = &mut frags[p];
        match id {
            Some(x) => {
                slot.id = x;
            },
            None => {},
        }
        match name {
            Some(x) => {
                slot.name = x;
            },
            None => {},
        }
        slot.arguments.append(arg);
        proof {
            assert(view_frags(frags@) =~= upsert(fv, index as nat, idv, nmv, arg@));
        }
    } else {
        let fresh = ToolFrag {
            index,
            id: match id {
                Some(x) => x,
                None => String::new(),
            },
            name: match name {
                Some(x) => x,
                None => String::new(),
            },
            arguments: crate::text::own_str(arg),
        };
        frags.insert(p, fresh);
        proof {
            assert(view_frags(frags@) =~= upsert(fv, index as nat, idv, nmv, arg@));
        }
    }
}

impl SseParser {
    /// Apply one wire fragment, returning its delta event.
    fn do_apply_tc(&mut self, tc: &Json) -> (e: StreamEvent)
        requires
            old(self).wf(),
        ensures
            final(self).wf(),
            final(self).buffer@ == old(self).buffer@,
            (final(self).sv(), seq![ev(e)]) == {
                let (fs2, e2) = apply_tc(old(self).sv().frags, tc.dv());
                (
                    SseV {
                        content: old(self).sv().content,
                        finish_reason: old(self).sv().finish_reason,
                        frags: fs2,
                        usage: old(self).sv().usage,
                        done: old(self).sv().done,
                    },
                    seq![e2],
                )
            },
    {
        let index: usize = match tc.get("index") {
            Some(x) => match x.as_u64() {
                Some(n) => {
                    if n <= usize::MAX as u64 {
                        n as usize
                    } else {
                        usize::MAX
                    }
                },
                None => 0,
            },
            None => 0,
        };
        let id: Option<String> = match tc.get("id") {
            Some(x) => match x {
                Json::Str(t) => Some(t.clone()),
                _ => None,
            },
            None => None,
        };
        let fj: Option<&Json> = tc.get("function");
        let name: Option<String> = match fj {
            Some(f) => match f.get("name") {
                Some(x) => match x {
                    Json::Str(t) => Some(t.clone()),
                    _ => None,
                },
                None => None,
            },
            None => None,
        };
        let arg: String = match fj {
            Some(f) => crate::transport::exec_str_or_pub(f, "arguments", ""),
            None => String::new(),
        };
        proof {
            reveal_strlit("");
            assert(""@ =~= Seq::<char>::empty());
        }
        let id2: Option<String> = match &id {
            Some(x) => Some(x.clone()),
            None => None,
        };
        let name2: Option<String> = match &name {
            Some(x) => Some(x.clone()),
            None => None,
        };
        upsert_frag(&mut self.frags, index, id2, name2, arg.as_str());
        StreamEvent::ToolCallDelta { index, id, name, arguments: arg }
    }

    /// Apply a frame's fragment list in order, appending the delta events.
    fn do_apply_tcs(&mut self, tcs: &Vec<Json>, out: &mut Vec<StreamEvent>)
        requires
            old(self).wf(),
        ensures
            final(self).wf(),
            final(self).buffer@ == old(self).buffer@,
            (final(self).sv(), evs(final(out)@)) == {
                let (fs2, es) = apply_tcs(old(self).sv().frags, crate::json::dv_seq(tcs@));
                (
                    SseV {
                        content: old(self).sv().content,
                        finish_reason: old(self).sv().finish_reason,
                        frags: fs2,
                        usage: old(self).sv().usage,
                        done: old(self).sv().done,
                    },
                    evs(old(out)@) + es,
                )
            },
    {
        let ghost tv = crate::json::dv_seq(tcs@);
        let ghost sv0 = self.sv();
        let mut k: usize = 0;
        proof {
            assert(tv.subrange(0, tv.len() as int) =~= tv);
        }
        while k < tcs.len()
            invariant
                k <= tcs@.len(),
                tv == crate::json::dv_seq(tcs@),
                self.wf(),
                self.buffer@ == old(self).buffer@,
                self.sv().content == sv0.content,
                self.sv().finish_reason == sv0.finish_reason,
                self.sv().usage == sv0.usage,
                self.sv().done == sv0.done,
                sv0 == old(self).sv(),
                ({
                    let (fs2, es) = apply_tcs(self.sv().frags, tv.subrange(k as int, tv.len() as int));
                    apply_tcs(sv0.frags, tv) == (fs2, (evs(out@).skip(evs(old(out)@).len() as int)) + es)
                }),
                evs(out@).subrange(0, evs(old(out)@).len() as int) == evs(old(out)@),
                out@.len() >= old(out)@.len(),
            decreases tcs@.len() - k,
        {
            proof {
                let tail = tv.subrange(k as int, tv.len() as int);
                assert(tail[0] == tv[k as int]);
                assert(tail.drop_first() =~= tv.subrange(k as int + 1, tv.len() as int));
            }
            let ghost evprev = evs(out@);
            let e = self.do_apply_tc(&tcs[k]);
            out.push(e);
            proof {
                assert(evs(out@) =~= evprev.push(ev(e)));
                assert(evs(out@).subrange(0, evs(old(out)@).len() as int) =~= evs(old(out)@));
                let pre = evs(out@).skip(evs(old(out)@).len() as int);
                assert(pre =~= (evprev.skip(evs(old(out)@).len() as int)).push(ev(e)));
                assert((evprev.skip(evs(old(out)@).len() as int)) + seq![ev(e)] =~= pre);
            }
            k += 1;
        }
        proof {
            assert(tv.subrange(tv.len() as int, tv.len() as int) =~= Seq::<JsonV>::empty());
            let done_es = evs(out@).skip(evs(old(out)@).len() as int);
            assert(done_es + Seq::<EventV>::empty() =~= done_es);
            assert(evs(old(out)@) + done_es =~= evs(out@));
        }
    }
}


impl SseParser {
    /// The final response synthesized from everything accumulated so far.
    fn build_done(&self) -> (r: LLMResponse)
        ensures
            r.rv() == done_response(self.sv()),
    {
        let tool_calls: Option<Vec<ToolCall>> = if self.frags.len() == 0 {
            None
        } else {
            let mut out: Vec<ToolCall> = Vec::new();
            let mut k: usize = 0;
            while k < self.frags.len()
                invariant
                    k <= self.frags@.len(),
                    out@.len() == k,
                    forall|i: int|
                        0 <= i < k ==> out@[i].tv() == calls_of_frags(
                            view_frags(self.frags@),
                        )[i],
                decreases self.frags@.len() - k,
            {
                let f = &self.frags[k];
                out.push(
                    ToolCall {
                        id: f.id.clone(),
                        call_type: Some(crate::text::own_str("function")),
                        function: Some(
                            FunctionCall { name: f.name.clone(), arguments: f.arguments.clone() },
                        ),
                        name: None,
                        arguments: None,
                    },
                );
                k += 1;
            }
            proof {
                assert(crate::msg::view_calls(out@) =~= calls_of_frags(view_frags(self.frags@)));
            }
            Some(out)
        };
        let usage = match &self.usage {
            Some(u) => Some(
                UsageInfo {
                    prompt_tokens: u.prompt_tokens,
                    completion_tokens: u.completion_tokens,
                    total_tokens: u.total_tokens,
                },
            ),
            None => None,
        };
        LLMResponse {
            content: self.content.clone(),
            tool_calls,
            finish_reason: self.finish_reason.clone(),
            usage,
        }
    }

    /// Process the payload of one non-terminal `data:` frame.
    fn do_apply_frame(&mut self, data: &Vec<char>, out: &mut Vec<StreamEvent>)
        requires
            old(self).wf(),
        ensures
            final(self).wf(),
            final(self).buffer@ == old(self).buffer@,
            (final(self).sv(), evs(final(out)@)) == {
                let (sv2, es) = apply_frame(old(self).sv(), data@);
                (sv2, evs(old(out)@) + es)
            },
    {
        let text = crate::text::string_from_chars(data);
        let j = match crate::json::parse_json(text.as_str()) {
            Some(j) => j,
            None => {
                proof {
                    assert(evs(out@) + Seq::<EventV>::empty() =~= evs(out@));
                }
                return ;
            },
        };
        // finish reason and delta both live under the first choice
        let choice: Option<&Json> = match j.get("choices") {
            Some(cj) => match cj {
                Json::Arr(cs) => {
                    if cs.len() > 0 {
                        proof {
                            crate::json::lemma_dv_arr(*cs);
                        }
                        Some(&cs[0])
                    } else {
                        None
                    }
                },
                _ => None,
            },
            None => None,
        };
        match choice {
            Some(c) => match c.get("finish_reason") {
                Some(x) => match x {
                    Json::Str(t) => {
                        self.finish_reason = t.clone();
                    },
                    _ => {},
                },
                None => {},
            },
            None => {},
        }
        match j.get("usage") {
            Some(_) => {
                self.usage = crate::transport::exec_usage(&j);
            },
            None => {},
        }
        let delta: Option<&Json> = match choice {
            Some(c) => c.get("delta"),
            None => None,
        };
        match delta {
            None => {
                proof {
                    assert(evs(out@) + Seq::<EventV>::empty() =~= evs(out@));
                }
            },
            Some(d) => {
                let ghost evbase = evs(out@);
                let ghost dv = d.dv();
                let ghost tok: Seq<EventV> = (match str_of(dv, "content"@) {
                    Some(c) => if c.len() > 0 {
                        seq![EventV::Token(c)]
                    } else {
                        Seq::<EventV>::empty()
                    },
                    None => Seq::<EventV>::empty(),
                });
                match d.get("content") {
                    Some(x) => match x {
                        Json::Str(t) => {
                            if !str_is_empty(t) {
                                self.content.append(t.as_str());
                                out.push(StreamEvent::Token(t.clone()));
                                proof {
                                    assert(evs(out@) =~= evbase.push(EventV::Token(t@)));
                                }
                            }
                        },
                        _ => {},
                    },
                    None => {},
                }
                proof {
                    assert(evs(out@) =~= evbase + tok);
                }
                let ghost evmid = evs(out@);
                match d.get("tool_calls") {
                    Some(tj) => match tj {
                        Json::Arr(tcs) => {
                            proof {
                                crate::json::lemma_dv_arr(*tcs);
                            }
                            self.do_apply_tcs(tcs, out);
                        },
                        _ => {},
                    },
                    None => {},
                }
                proof {
                    let tc_es = evs(out@).skip(evmid.len() as int);
                    assert(evmid + tc_es =~= evs(out@));
                    assert(evbase + (tok + tc_es) =~= (evbase + tok) + tc_es);
                }
            },
        }
    }
}

fn str_is_empty(t: &String) -> (r: bool)
    ensures
        r == (t@.len() == 0),
{
    t.as_str().unicode_len() == 0
}


impl SseParser {
    /// Process one complete (newline-terminated) line.
    fn do_line(&mut self, line: &Vec<char>, out: &mut Vec<StreamEvent>)
        requires
            old(self).wf(),
        ensures
            final(self).wf(),
            final(self).buffer@ == old(self).buffer@,
            (final(self).sv(), evs(final(out)@)) == {
                let (sv2, es) = line_step(old(self).sv(), line@);
                (sv2, evs(old(out)@) + es)
            },
    {
        proof {
            reveal_strlit("data: ");
            assert("data: "@.len() == 6);
        }
        let t = trim_chars(line);
        if self.done {
            proof {
                assert(evs(out@) + Seq::<EventV>::empty() =~= evs(out@));
            }
            return ;
        }
        if t.len() == 0 {
            proof {
                assert(evs(out@) + Seq::<EventV>::empty() =~= evs(out@));
            }
            return ;
        }
        if t[0] == ':' {
            proof {
                assert(evs(out@) + Seq::<EventV>::empty() =~= evs(out@));
            }
            return ;
        }
        let prefix = crate::text::chars_of("data: ");
        if crate::text::starts_with_chars(&t, &prefix) {
            let data_raw = crate::json::copy_range(&t, 6, t.len());
            let data = trim_chars(&data_raw);
            let marker = crate::text::chars_of("[DONE]");
            if crate::text::chars_eq(&data, &marker) {
                let resp = self.build_done();
                self.done = true;
                let ghost evbase = evs(out@);
                out.push(StreamEvent::Done(resp));
                proof {
                    assert(evs(out@) =~= evbase.push(ev(StreamEvent::Done(resp))));
                    assert(evbase + seq![EventV::Done(resp.rv())] =~= evs(out@));
                }
            } else {
                self.do_apply_frame(&data, out);
            }
        } else {
            proof {
                assert(evs(out@) + Seq::<EventV>::empty() =~= evs(out@));
            }
        }
    }

    /// Feed one raw chunk: every complete line in the buffer is processed
    /// and its events are returned in order; the trailing partial line
    /// stays buffered.
    #[verifier::loop_isolation(false)]
    pub fn feed(&mut self, chunk: &str) -> (out: Vec<StreamEvent>)
        requires
            old(self).wf(),
        ensures
            final(self).wf(),
            ({
                let (sv2, rest, es) = run_buffer(old(self).sv(), old(self).buffer@ + chunk@);
                final(self).sv() == sv2 && final(self).buffer@ == rest && evs(out@) == es
            }),
    {
        crate::text::extend_chars(&mut self.buffer, chunk);
        let ghost sv0 = self.sv();
        let ghost buf0 = self.buffer@;
        let mut out: Vec<StreamEvent> = Vec::new();
        proof {
            assert(evs(out@) =~= Seq::<EventV>::empty());
        }
        loop
            invariant
                self.wf(),
                sv0 == old(self).sv(),
                buf0 == old(self).buffer@ + chunk@,
                ({
                    let (a2, r2, e2) = run_buffer(self.sv(), self.buffer@);
                    run_buffer(sv0, buf0) == (a2, r2, evs(out@) + e2)
                }),
            decreases self.buffer@.len(),
        {
            let p = match find_nl(&self.buffer) {
                None => {
                    break ;
                },
                Some(p) => p,
            };
            let ghost bufprev = self.buffer@;
            let ghost svprev = self.sv();
            let ghost evprev = evs(out@);
            let blen = self.buffer.len();
            let line = crate::json::copy_range(&self.buffer, 0, p);
            let rest = crate::json::copy_range(&self.buffer, p + 1, blen);
            self.buffer = rest;
            self.do_line(&line, &mut out);
            proof {
                let (s1, es1) = line_step(svprev, bufprev.subrange(0, p as int));
                let (a2, r2, e2) = run_buffer(s1, bufprev.subrange(p + 1, bufprev.len() as int));
                assert(run_buffer(svprev, bufprev) == (a2, r2, es1 + e2));
                assert(evs(out@) =~= evprev + es1);
                assert((evprev + es1) + e2 =~= evprev + (es1 + e2));
            }
        }
        proof {
            let (a2, r2, e2) = run_buffer(self.sv(), self.buffer@);
            assert(e2 =~= Seq::<EventV>::empty());
            assert(evs(out@) + e2 =~= evs(out@));
        }
        out
    }

    /// Flush a stream that ended without the terminal marker: whatever was
    /// accumulated is still delivered as a best-effort final response.
    pub fn finish(&mut self) -> (r: Option<StreamEvent>)
        requires
            old(self).wf(),
        ensures
            final(self).wf(),
            final(self).buffer@ == old(self).buffer@,
            old(self).sv().done || (old(self).sv().content.len() == 0 && old(
                self,
            ).sv().frags.len() == 0) ==> r is None && *final(self) == *old(self),
            !old(self).sv().done && (old(self).sv().content.len() > 0 || old(
                self,
            ).sv().frags.len() > 0) ==> {
                &&& (r matches Some(e) && ev(e) == EventV::Done(done_response(old(self).sv())))
                &&& final(self).sv() == SseV {
                    content: old(self).sv().content,
                    finish_reason: old(self).sv().finish_reason,
                    frags: old(self).sv().frags,
                    usage: old(self).sv().usage,
                    done: true,
                }
            },
    {
        if self.done {
            return None;
        }
        if self.content.as_str().unicode_len() == 0 && self.frags.len() == 0 {
            return None;
        }
        let resp = self.build_done();
        self.done = true;
        Some(StreamEvent::Done(resp))
    }
}

// ---------------------------------------------------------------------------
// Laws of the stream
// ---------------------------------------------------------------------------

/// Process a list of complete lines in order.
pub open spec fn run_lines(sv: SseV, ls: Seq<Seq<char>>) -> (SseV, Seq<EventV>)
    decreases ls.len(),
{
    if ls.len() == 0 {
        (sv, Seq::<EventV>::empty())
    } else {
        let (sv1, es1) = line_step(sv, ls[0]);
        let (sv2, es2) = run_lines(sv1, ls.drop_first());
        (sv2, es1 + es2)
    }
}

/// A line that carries exactly one non-empty token `t` and nothing else.
pub open spec fn is_token_line(l: Seq<char>, t: Seq<char>) -> bool {
    let tr = trim(l);
    &&& tr.len() >= 6
    &&& tr[0] != ':'
    &&& tr.subrange(0, 6) == "data: "@
    &&& {
        let data = trim(tr.subrange(6, tr.len() as int));
        &&& data != "[DONE]"@
        &&& (match sp_json(data) {
            Some(v) => {
                &&& frame_finish(v) is None
                &&& jv_get(v, "usage"@) is None
                &&& (match frame_delta(v) {
                    Some(d) => str_of(d, "content"@) == Some(t) && t.len() > 0 && jv_get(
                        d,
                        "tool_calls"@,
                    ) is None,
                    None => false,
                })
            },
            None => false,
        })
    }
}

/// A line that carries the terminal marker.
pub open spec fn is_done_line(l: Seq<char>) -> bool {
    let tr = trim(l);
    &&& tr.len() >= 6
    &&& tr[0] != ':'
    &&& tr.subrange(0, 6) == "data: "@
    &&& trim(tr.subrange(6, tr.len() as int)) == "[DONE]"@
}

/// The concatenation of a list of texts.
pub open spec fn concat_texts(ts: Seq<Seq<char>>) -> Seq<char>
    decreases ts.len(),
{
    if ts.len() == 0 {
        Seq::<char>::empty()
    } else {
        ts[0] + concat_texts(ts.drop_first())
    }
}

proof fn lemma_token_line_step(sv: SseV, l: Seq<char>, t: Seq<char>)
    requires
        !sv.done,
        is_token_line(l, t),
    ensures
        line_step(sv, l) == (
            SseV {
                content: sv.content + t,
                finish_reason: sv.finish_reason,
                frags: sv.frags,
                usage: sv.usage,
                done: sv.done,
            },
            seq![EventV::Token(t)],
        ),
{
    let tr = trim(l);
    let data = trim(tr.subrange(6, tr.len() as int));
    let (sv2, es) = apply_frame(sv, data);
    assert(seq![EventV::Token(t)] + Seq::<EventV>::empty() =~= seq![EventV::Token(t)]);
}

proof fn lemma_token_lines_run(sv: SseV, ls: Seq<Seq<char>>, ts: Seq<Seq<char>>)
    requires
        !sv.done,
        ls.len() == ts.len(),
        forall|i: int| 0 <= i < ls.len() ==> is_token_line(#[trigger] ls[i], ts[i]),
    ensures
        run_lines(sv, ls) == (
            SseV {
                content: sv.content + concat_texts(ts),
                finish_reason: sv.finish_reason,
                frags: sv.frags,
                usage: sv.usage,
                done: sv.done,
            },
            Seq::new(ts.len(), |i: int| EventV::Token(ts[i])),
        ),
    decreases ls.len(),
{
    if ls.len() == 0 {
        assert(sv.content + concat_texts(ts) =~= sv.content);
        assert(Seq::new(ts.len(), |i: int| EventV::Token(ts[i])) =~= Seq::<EventV>::empty());
        assert(run_lines(sv, ls) == (sv, Seq::<EventV>::empty()));
        assert(sv == SseV {
            content: sv.content + concat_texts(ts),
            finish_reason: sv.finish_reason,
            frags: sv.frags,
            usage: sv.usage,
            done: sv.done,
        });
    } else {
        lemma_token_line_step(sv, ls[0], ts[0]);
        let (sv1, es1) = line_step(sv, ls[0]);
        lemma_token_lines_run(sv1, ls.drop_first(), ts.drop_first());
        assert(forall|i: int|
            0 <= i < ls.drop_first().len() ==> is_token_line(
                #[trigger] ls.drop_first()[i],
                ts.drop_first()[i],
            ));
        assert((sv.content + ts[0]) + concat_texts(ts.drop_first()) =~= sv.content + (ts[0]
            + concat_texts(ts.drop_first())));
        assert(seq![EventV::Token(ts[0])] + Seq::new(
            ts.drop_first().len(),
            |i: int| EventV::Token(ts.drop_first()[i]),
        ) =~= Seq::new(ts.len(), |i: int| EventV::Token(ts[i])));
    }
}

/// The streaming law: a synthetic stream of `N` token frames followed by
/// the terminal marker yields exactly `N` token events, in order, and
/// then exactly one final event whose content is the concatenation of all
/// the token fragments.
pub proof fn lemma_stream_of_tokens(
    sv: SseV,
    ls: Seq<Seq<char>>,
    ts: Seq<Seq<char>>,
    done_l: Seq<char>,
)
    requires
        !sv.done,
        sv.frags.len() == 0,
        ls.len() == ts.len(),
        forall|i: int| 0 <= i < ls.len() ==> is_token_line(#[trigger] ls[i], ts[i]),
        is_done_line(done_l),
    ensures
        ({
            let (sv1, es) = run_lines(sv, ls.push(done_l));
            &&& es.len() == ls.len() + 1
            &&& (forall|i: int| 0 <= i < ls.len() ==> es[i] == EventV::Token(ts[i]))
            &&& es.last() matches EventV::Done(r) && r.content == sv.content + concat_texts(ts)
                && r.tool_calls is None
            &&& sv1.done
        }),
    decreases ls.len(),
{
    lemma_token_lines_run(sv, ls, ts);
    let (svm, esm) = run_lines(sv, ls);
    lemma_run_lines_push(sv, ls, done_l);
    let (sv1, es1) = line_step(svm, done_l);
    assert(es1 =~= seq![EventV::Done(done_response(svm))]);
}

proof fn lemma_run_lines_push(sv: SseV, ls: Seq<Seq<char>>, l: Seq<char>)
    ensures
        run_lines(sv, ls.push(l)) == {
            let (sv1, es1) = run_lines(sv, ls);
            let (sv2, es2) = line_step(sv1, l);
            (sv2, es1 + es2)
        },
    decreases ls.len(),
{
    if ls.len() == 0 {
        assert(ls.push(l)[0] == l);
        assert(ls.push(l).drop_first() =~= Seq::<Seq<char>>::empty());
        let (sv2, es2) = line_step(sv, l);
        assert(run_lines(sv2, Seq::<Seq<char>>::empty()) == (sv2, Seq::<EventV>::empty()));
        assert(run_lines(sv, ls.push(l)) == (sv2, es2 + Seq::<EventV>::empty()));
        assert(run_lines(sv, ls) == (sv, Seq::<EventV>::empty()));
        assert(es2 + Seq::<EventV>::empty() =~= es2);
        assert(Seq::<EventV>::empty() + es2 =~= es2);
    } else {
        assert(ls.push(l)[0] == ls[0]);
        assert(ls.push(l).drop_first() =~= ls.drop_first().push(l));
        let (sv1, es1) = line_step(sv, ls[0]);
        lemma_run_lines_push(sv1, ls.drop_first(), l);
        let (svm, esm) = run_lines(sv1, ls.drop_first());
        let (sv2, es2) = line_step(svm, l);
        assert(es1 + (esm + es2) =~= (es1 + esm) + es2);
    }
}

} // verus!
