//! The in-memory session store: durable, keyed conversation history plus a
//! rolling summary. The cache here is authoritative; writing the encoded
//! session to disk and loading it back is the caller's side and goes through
//! the codec.

use vstd::prelude::*;
use crate::msg::{Message, MessageV, ToolCall, FunctionCall, view_msgs};

verus! {

/// One session's state: ordered messages, a rolling summary, timestamps.
#[derive(Debug, Clone)]
pub struct SessionData {
    pub messages: Vec<Message>,
    pub summary: String,
    pub created_at: String,
    pub updated_at: String,
}

/// The ghost model of one session.
pub struct SessionDataV {
    pub messages: Seq<MessageV>,
    pub summary: Seq<char>,
    pub created_at: Seq<char>,
    pub updated_at: Seq<char>,
}

impl SessionData {
    pub open spec fn sv(self) -> SessionDataV {
        SessionDataV {
            messages: view_msgs(self.messages@),
            summary: self.summary@,
            created_at: self.created_at@,
            updated_at: self.updated_at@,
        }
    }

    /// A fresh session created at the given instant.
    pub fn new_at(now: String) -> (r: SessionData)
        ensures
            r.sv().messages == Seq::<MessageV>::empty(),
            r.sv().summary == Seq::<char>::empty(),
            r.sv().created_at == now@,
            r.sv().updated_at == now@,
    {
        let r = SessionData {
            messages: Vec::new(),
            summary: String::new(),
            created_at: now.clone(),
            updated_at: now,
        };
        proof {
            assert(view_msgs(r.messages@) =~= Seq::<MessageV>::empty());
        }
        r
    }
}

// ---------------------------------------------------------------------------
// Deep clones with exact contracts
// ---------------------------------------------------------------------------

fn clone_opt_string(o: &Option<String>) -> (r: Option<String>)
    ensures
        crate::msg::view_opt_str(r) == crate::msg::view_opt_str(*o),
{
    match o {
        Some(s) => Some(s.clone()),
        None => None,
    }
}

pub fn clone_tool_call(t: &ToolCall) -> (r: ToolCall)
    ensures
        r.tv() == t.tv(),
{
    ToolCall {
        id: t.id.clone(),
        call_type: clone_opt_string(&t.call_type),
        function: match &t.function {
            Some(f) => Some(FunctionCall { name: f.name.clone(), arguments: f.arguments.clone() }),
            None => None,
        },
        name: clone_opt_string(&t.name),
        arguments: clone_opt_string(&t.arguments),
    }
}

/// Clone a tool-call list, preserving the view of every element.
pub fn clone_tool_calls(v: &Vec<ToolCall>) -> (r: Vec<ToolCall>)
    ensures
        crate::msg::view_calls(r@) == crate::msg::view_calls(v@),
{
    let mut out: Vec<ToolCall> = Vec::new();
    let mut k: usize = 0;
    while k < v.len()
        invariant
            k <= v@.len(),
            out@.len() == k,
            forall|i: int| 0 <= i < k ==> out@[i].tv() == v@[i].tv(),
        decreases v@.len() - k,
    {
        out.push(clone_tool_call(&v[k]));
        k += 1;
    }
    proof {
        assert(crate::msg::view_calls(out@) =~= crate::msg::view_calls(v@));
    }
    out
}

/// Clone one message, preserving its ghost view exactly.
pub fn clone_message(m: &Message) -> (r: Message)
    ensures
        r.mv() == m.mv(),
{
    let tool_calls: Option<Vec<ToolCall>> = match &m.tool_calls {
        Some(v) => {
            let mut out: Vec<ToolCall> = Vec::new();
            let mut k: usize = 0;
            while k < v.len()
                invariant
                    k <= v@.len(),
                    out@.len() == k,
                    forall|i: int| 0 <= i < k ==> out@[i].tv() == v@[i].tv(),
                decreases v@.len() - k,
            {
                out.push(clone_tool_call(&v[k]));
                k += 1;
            }
            proof {
                assert(crate::msg::view_calls(out@) =~= crate::msg::view_calls(v@));
            }
            Some(out)
        },
        None => None,
    };
    Message {
        role: m.role.clone(),
        content: m.content.clone(),
        tool_calls,
        tool_call_id: clone_opt_string(&m.tool_call_id),
    }
}

/// Clone a message list, preserving the view of every element.
pub fn clone_messages(v: &Vec<Message>) -> (r: Vec<Message>)
    ensures
        view_msgs(r@) == view_msgs(v@),
{
    let mut out: Vec<Message> = Vec::new();
    let mut k: usize = 0;
    while k < v.len()
        invariant
            k <= v@.len(),
            out@.len() == k,
            forall|i: int| 0 <= i < k ==> out@[i].mv() == v@[i].mv(),
        decreases v@.len() - k,
    {
        out.push(clone_message(&v[k]));
        k += 1;
    }
    proof {
        assert(view_msgs(out@) =~= view_msgs(v@));
    }
    out
}

// ---------------------------------------------------------------------------
// The store
// ---------------------------------------------------------------------------

/// The in-memory cache of sessions, keyed by session key. Keys are unique.
pub struct SessionStore {
    pub sessions: Vec<(String, SessionData)>,
}

/// The first index holding the key, if any.
pub open spec fn key_index_at(s: Seq<(String, SessionData)>, k: Seq<char>, from: int) -> Option<
    int,
>
    decreases s.len() - from when 0 <= from <= s.len()
{
    if from >= s.len() {
        None
    } else if s[from].0@ == k {
        Some(from)
    } else {
        key_index_at(s, k, from + 1)
    }
}

pub open spec fn key_index(s: Seq<(String, SessionData)>, k: Seq<char>) -> Option<int> {
    key_index_at(s, k, 0)
}

impl SessionStore {
    /// Keys occur at most once.
    pub open spec fn wf(self) -> bool {
        forall|i: int, j: int|
            0 <= i < j < self.sessions@.len() ==> self.sessions@[i].0@ != self.sessions@[j].0@
    }

    /// The stored session for a key, if any.
    pub open spec fn session_of(self, k: Seq<char>) -> Option<SessionDataV> {
        match key_index(self.sessions@, k) {
            Some(i) => Some(self.sessions@[i].1.sv()),
            None => None,
        }
    }

    /// The messages of a key: empty where no session exists yet.
    pub open spec fn msgs_of(self, k: Seq<char>) -> Seq<MessageV> {
        match self.session_of(k) {
            Some(d) => d.messages,
            None => Seq::<MessageV>::empty(),
        }
    }

    /// The summary of a key: empty where no session exists yet.
    pub open spec fn summary_of(self, k: Seq<char>) -> Seq<char> {
        match self.session_of(k) {
            Some(d) => d.summary,
            None => Seq::<char>::empty(),
        }
    }

    pub fn new() -> (r: SessionStore)
        ensures
            r.wf(),
            forall|k: Seq<char>| r.session_of(k) is None,
    {
        SessionStore { sessions: Vec::new() }
    }

    /// Find the index of a key.
    fn find(&self, key: &str) -> (r: Option<usize>)
        ensures
            (r matches Some(i) ==> key_index(self.sessions@, key@) == Some(i as int) && i
                < self.sessions@.len()),
            (r is None ==> key_index(self.sessions@, key@) is None),
    {
        let mut n: usize = 0;
        while n < self.sessions.len()
            invariant
                n <= self.sessions@.len(),
                key_index(self.sessions@, key@) == key_index_at(self.sessions@, key@, n as int),
            decreases self.sessions@.len() - n,
        {
            if crate::text::str_eq(self.sessions[n].0.as_str(), key) {
                return Some(n);
            }
            n += 1;
        }
        None
    }
}


/// Relies on chrono's Utc clock for the current instant in RFC 3339 form.
#[verifier::external_body]
fn now_rfc3339() -> (r: String) {
    chrono::Utc::now().to_rfc3339()
}

proof fn lemma_key_index_props(s: Seq<(String, SessionData)>, k: Seq<char>, from: int)
    requires
        0 <= from <= s.len(),
    ensures
        (match key_index_at(s, k, from) {
            Some(i) => from <= i < s.len() && s[i].0@ == k && (forall|j: int|
                from <= j < i ==> s[j].0@ != k),
            None => forall|j: int| from <= j < s.len() ==> s[j].0@ != k,
        }),
    decreases s.len() - from,
{
    if from < s.len() && s[from].0@ != k {
        lemma_key_index_props(s, k, from + 1);
    }
}

proof fn lemma_key_index_same_keys(
    s1: Seq<(String, SessionData)>,
    s2: Seq<(String, SessionData)>,
    k: Seq<char>,
    from: int,
)
    requires
        0 <= from <= s1.len(),
        s1.len() == s2.len(),
        forall|j: int| 0 <= j < s1.len() ==> s1[j].0@ == s2[j].0@,
    ensures
        key_index_at(s1, k, from) == key_index_at(s2, k, from),
    decreases s1.len() - from,
{
    if from < s1.len() && s1[from].0@ != k {
        lemma_key_index_same_keys(s1, s2, k, from + 1);
    }
}

proof fn lemma_key_index_push(s: Seq<(String, SessionData)>, p: (String, SessionData), k: Seq<char>, from: int)
    requires
        0 <= from <= s.len(),
    ensures
        key_index_at(s.push(p), k, from) == (match key_index_at(s, k, from) {
            Some(i) => Some(i),
            None => if p.0@ == k {
                Some(s.len() as int)
            } else {
                None
            },
        }),
    decreases s.len() - from,
{
    assert(s.push(p).len() == s.len() + 1);
    if from < s.len() {
        assert(s.push(p)[from] == s[from]);
        if s[from].0@ != k {
            lemma_key_index_push(s, p, k, from + 1);
        }
    } else {
        assert(s.push(p)[s.len() as int] == p);
    }
}

impl SessionStore {
    /// Append a message to a session, creating the session on first use.
    /// The message lands at the end; every other session is untouched.
    pub fn add_message(&mut self, session_key: &str, message: Message)
        requires
            old(self).wf(),
        ensures
            final(self).wf(),
            final(self).msgs_of(session_key@) == old(self).msgs_of(session_key@).push(
                message.mv(),
            ),
            final(self).summary_of(session_key@) == old(self).summary_of(session_key@),
            forall|k: Seq<char>|
                k != session_key@ ==> final(self).session_of(k) == old(self).session_of(k),
    {
        proof {
            lemma_key_index_props(self.sessions@, session_key@, 0);
        }
        let ghost olds = self.sessions@;
        match self.find(session_key) {
            Some(i) => {
                let slot = &mut self.sessions[i];
                slot.1.messages.push(message);
                slot.1.updated_at = now_rfc3339();
                proof {
                    assert(self.sessions@.len() == olds.len());
                    assert(forall|j: int|
                        0 <= j < olds.len() ==> self.sessions@[j].0@ == olds[j].0@);
                    lemma_key_index_same_keys(olds, self.sessions@, session_key@, 0);
                    assert(view_msgs(self.sessions@[i as int].1.messages@) =~= view_msgs(
                        olds[i as int].1.messages@,
                    ).push(message.mv()));
                    assert forall|k: Seq<char>| k != session_key@ implies self.session_of(k) == old(
                        self,
                    ).session_of(k) by {
                        lemma_key_index_same_keys(olds, self.sessions@, k, 0);
                        lemma_key_index_props(olds, k, 0);
                    }
                }
            },
            None => {
                let mut d = SessionData::new_at(now_rfc3339());
                d.messages.push(message);
                let key = crate::text::string_from_chars(&crate::text::chars_of(session_key));
                let ghost pair_msgs = d.messages@;
                self.sessions.push((key, d));
                proof {
                    let p = self.sessions@[olds.len() as int];
                    assert(self.sessions@ =~= olds.push(p));
                    lemma_key_index_push(olds, p, session_key@, 0);
                    assert(view_msgs(pair_msgs) =~= Seq::<MessageV>::empty().push(message.mv()));
                    assert forall|k: Seq<char>| k != session_key@ implies self.session_of(k) == old(
                        self,
                    ).session_of(k) by {
                        lemma_key_index_push(olds, p, k, 0);
                        lemma_key_index_props(olds, k, 0);
                    }
                    assert forall|a: int, b: int|
                        0 <= a < b < self.sessions@.len() implies self.sessions@[a].0@
                        != self.sessions@[b].0@ by {
                        lemma_key_index_props(olds, session_key@, 0);
                    }
                }
            },
        }
    }

    /// Replace a session's summary wholesale, creating the session on
    /// first use. Messages and other sessions are untouched.
    pub fn set_summary(&mut self, session_key: &str, summary: String)
        requires
            old(self).wf(),
        ensures
            final(self).wf(),
            final(self).summary_of(session_key@) == summary@,
            final(self).msgs_of(session_key@) == old(self).msgs_of(session_key@),
            forall|k: Seq<char>|
                k != session_key@ ==> final(self).session_of(k) == old(self).session_of(k),
    {
        proof {
            lemma_key_index_props(self.sessions@, session_key@, 0);
        }
        let ghost olds = self.sessions@;
        match self.find(session_key) {
            Some(i) => {
                let slot = &mut self.sessions[i];
                slot.1.summary = summary;
                proof {
                    lemma_key_index_same_keys(olds, self.sessions@, session_key@, 0);
                    assert(view_msgs(self.sessions@[i as int].1.messages@) =~= view_msgs(
                        olds[i as int].1.messages@,
                    ));
                    assert forall|k: Seq<char>| k != session_key@ implies self.session_of(k) == old(
                        self,
                    ).session_of(k) by {
                        lemma_key_index_same_keys(olds, self.sessions@, k, 0);
                        lemma_key_index_props(olds, k, 0);
                    }
                }
            },
            None => {
                let mut d = SessionData::new_at(now_rfc3339());
                d.summary = summary;
                let key = crate::text::string_from_chars(&crate::text::chars_of(session_key));
                let ghost dmsgs = d.messages@;
                self.sessions.push((key, d));
                proof {
                    let p = self.sessions@[olds.len() as int];
                    assert(self.sessions@ =~= olds.push(p));
                    lemma_key_index_push(olds, p, session_key@, 0);
                    assert(view_msgs(dmsgs) =~= Seq::<MessageV>::empty());
                    assert forall|k: Seq<char>| k != session_key@ implies self.session_of(k) == old(
                        self,
                    ).session_of(k) by {
                        lemma_key_index_push(olds, p, k, 0);
                        lemma_key_index_props(olds, k, 0);
                    }
                    assert forall|a: int, b: int|
                        0 <= a < b < self.sessions@.len() implies self.sessions@[a].0@
                        != self.sessions@[b].0@ by {
                        lemma_key_index_props(olds, session_key@, 0);
                    }
                }
            },
        }
    }

    /// All messages of a session, in insertion order; empty if unknown.
    pub fn get_messages(&self, session_key: &str) -> (r: Vec<Message>)
        ensures
            view_msgs(r@) == self.msgs_of(session_key@),
    {
        match self.find(session_key) {
            Some(i) => clone_messages(&self.sessions[i].1.messages),
            None => {
                let r: Vec<Message> = Vec::new();
                proof {
                    assert(view_msgs(r@) =~= Seq::<MessageV>::empty());
                }
                r
            },
        }
    }

    /// The rolling summary of a session; empty if unknown.
    pub fn get_summary(&self, session_key: &str) -> (r: String)
        ensures
            r@ == self.summary_of(session_key@),
    {
        match self.find(session_key) {
            Some(i) => self.sessions[i].1.summary.clone(),
            None => String::new(),
        }
    }

    /// How many messages a session holds.
    pub fn message_count(&self, session_key: &str) -> (r: usize)
        ensures
            r == self.msgs_of(session_key@).len(),
    {
        match self.find(session_key) {
            Some(i) => self.sessions[i].1.messages.len(),
            None => 0,
        }
    }

    /// Drop a session's content: its history and summary become empty.
    pub fn clear(&mut self, session_key: &str)
        requires
            old(self).wf(),
        ensures
            final(self).wf(),
            final(self).msgs_of(session_key@) == Seq::<MessageV>::empty(),
            final(self).summary_of(session_key@) == Seq::<char>::empty(),
            forall|k: Seq<char>|
                k != session_key@ ==> final(self).session_of(k) == old(self).session_of(k),
    {
        proof {
            lemma_key_index_props(self.sessions@, session_key@, 0);
        }
        let ghost olds = self.sessions@;
        match self.find(session_key) {
            Some(i) => {
                let fresh = SessionData::new_at(now_rfc3339());
                let slot = &mut self.sessions[i];
                slot.1 = fresh;
                proof {
                    lemma_key_index_same_keys(olds, self.sessions@, session_key@, 0);
                    assert forall|k: Seq<char>| k != session_key@ implies self.session_of(k) == old(
                        self,
                    ).session_of(k) by {
                        lemma_key_index_same_keys(olds, self.sessions@, k, 0);
                        lemma_key_index_props(olds, k, 0);
                    }
                }
            },
            None => {},
        }
    }

    /// Snapshot one whole session, if present.
    pub fn get_session(&self, session_key: &str) -> (r: Option<SessionData>)
        ensures
            (r matches Some(d) ==> self.session_of(session_key@) == Some(d.sv())),
            (r is None ==> self.session_of(session_key@) is None),
    {
        match self.find(session_key) {
            Some(i) => {
                let d = &self.sessions[i].1;
                Some(
                    SessionData {
                        messages: clone_messages(&d.messages),
                        summary: d.summary.clone(),
                        created_at: d.created_at.clone(),
                        updated_at: d.updated_at.clone(),
                    },
                )
            },
            None => None,
        }
    }

    /// Install a session loaded from elsewhere, replacing any cached one.
    pub fn put_session(&mut self, session_key: &str, data: SessionData)
        requires
            old(self).wf(),
        ensures
            final(self).wf(),
            final(self).session_of(session_key@) == Some(data.sv()),
            forall|k: Seq<char>|
                k != session_key@ ==> final(self).session_of(k) == old(self).session_of(k),
    {
        proof {
            lemma_key_index_props(self.sessions@, session_key@, 0);
        }
        let ghost olds = self.sessions@;
        match self.find(session_key) {
            Some(i) => {
                let slot = &mut self.sessions[i];
                slot.1 = data;
                proof {
                    lemma_key_index_same_keys(olds, self.sessions@, session_key@, 0);
                    assert forall|k: Seq<char>| k != session_key@ implies self.session_of(k) == old(
                        self,
                    ).session_of(k) by {
                        lemma_key_index_same_keys(olds, self.sessions@, k, 0);
                        lemma_key_index_props(olds, k, 0);
                    }
                }
            },
            None => {
                let key = crate::text::string_from_chars(&crate::text::chars_of(session_key));
                self.sessions.push((key, data));
                proof {
                    let p = self.sessions@[olds.len() as int];
                    assert(self.sessions@ =~= olds.push(p));
                    lemma_key_index_push(olds, p, session_key@, 0);
                    assert forall|k: Seq<char>| k != session_key@ implies self.session_of(k) == old(
                        self,
                    ).session_of(k) by {
                        lemma_key_index_push(olds, p, k, 0);
                        lemma_key_index_props(olds, k, 0);
                    }
                    assert forall|a: int, b: int|
                        0 <= a < b < self.sessions@.len() implies self.sessions@[a].0@
                        != self.sessions@[b].0@ by {
                        lemma_key_index_props(olds, session_key@, 0);
                    }
                }
            },
        }
    }
}

/// How a session key is turned into a safe file name: path-separator-like
/// characters become underscores.
pub open spec fn sanitize_char(c: char) -> char {
    if c == '/' || c == '\\' || c == ':' || c == '|' {
        '_'
    } else {
        c
    }
}

pub open spec fn sanitized(s: Seq<char>) -> Seq<char> {
    Seq::new(s.len(), |i: int| sanitize_char(s[i]))
}

/// The safe file-name stem for a session key.
pub fn sanitize_key(key: &str) -> (r: String)
    ensures
        r@ == sanitized(key@),
{
    let kv = crate::text::chars_of(key);
    let mut out: Vec<char> = Vec::new();
    let mut n: usize = 0;
    while n < kv.len()
        invariant
            n <= kv@.len(),
            kv@ == key@,
            out@.len() == n,
            forall|i: int| 0 <= i < n ==> out@[i] == sanitize_char(key@[i]),
        decreases kv@.len() - n,
    {
        let c = kv[n];
        if c == '/' || c == '\\' || c == ':' || c == '|' {
            out.push('_');
        } else {
            out.push(c);
        }
        n += 1;
    }
    proof {
        assert(out@ =~= sanitized(key@));
    }
    crate::text::string_from_chars(&out)
}

} // verus!
