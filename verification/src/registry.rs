//! The tool registry and the batch dispatcher. The registry holds named,
//! callable capabilities and dispatches invocations by name; an unknown
//! name becomes an error result, never a failure of the turn. The batch
//! dispatcher turns one turn's outcomes — however they were produced and
//! in whatever order they completed — back into tool-result messages in
//! the original call order, converting a crashed task into an error
//! result.

use vstd::prelude::*;
use crate::json::Json;
use crate::msg::{Message, ToolCall, ToolDefinition, ToolFunctionDefinition};
use crate::ToolResult;
use crate::text::{own_str, concat_str};

verus! {

/// A named capability: what the registry stores and the model may invoke.
/// Implementations decide what `execute` returns; nothing is promised of
/// it here.
pub trait Tool {
    fn name(&self) -> &str;

    fn description(&self) -> &str;

    fn parameters(&self) -> Json;

    fn execute(&self, args: Vec<(String, Json)>) -> ToolResult;
}

/// The name → capability map. The name under which a tool answers is
/// captured at registration; later renamings of the tool do not move it.
pub struct ToolRegistry<T> {
    pub tools: Vec<(String, T)>,
}

/// The first index holding the key, if any.
pub open spec fn tool_index_at<T>(s: Seq<(String, T)>, k: Seq<char>, from: int) -> Option<int>
    decreases s.len() - from when 0 <= from <= s.len()
{
    if from >= s.len() {
        None
    } else if s[from].0@ == k {
        Some(from)
    } else {
        tool_index_at(s, k, from + 1)
    }
}

/// What registering one tool under a captured name `nm` did: either the
/// pair was appended (the name was new) or the first entry of that name
/// had its tool replaced, key and every other entry untouched.
pub open spec fn register_effect<T>(
    pre: Seq<(String, T)>,
    post: Seq<(String, T)>,
    nm: String,
    tool: T,
) -> bool {
    ||| (post == pre.push((nm, tool)) && tool_index_at(pre, nm@, 0) is None)
    ||| (exists|i: int|
        0 <= i < pre.len() && tool_index_at(pre, nm@, 0) == Some(i) && post == pre.update(
            i,
            (pre[i].0, tool),
        ))
}

proof fn lemma_tool_index_props<T>(s: Seq<(String, T)>, k: Seq<char>, from: int)
    requires
        0 <= from <= s.len(),
    ensures
        (match tool_index_at(s, k, from) {
            Some(i) => from <= i < s.len() && s[i].0@ == k && (forall|j: int|
                from <= j < i ==> s[j].0@ != k),
            None => forall|j: int| from <= j < s.len() ==> s[j].0@ != k,
        }),
    decreases s.len() - from,
{
    if from < s.len() && s[from].0@ != k {
        lemma_tool_index_props(s, k, from + 1);
    }
}

impl<T: Tool> ToolRegistry<T> {
    /// The registered names, in registration order.
    pub open spec fn names(self) -> Seq<Seq<char>> {
        Seq::new(self.tools@.len(), |i: int| self.tools@[i].0@)
    }

    pub open spec fn has_tool(self, name: Seq<char>) -> bool {
        tool_index_at(self.tools@, name, 0) is Some
    }

    pub fn new() -> (r: ToolRegistry<T>)
        ensures
            r.tools@.len() == 0,
    {
        ToolRegistry { tools: Vec::new() }
    }

    /// Register a capability under the name it answers to (the name is
    /// captured once, at registration): an unknown name is appended; a
    /// known name has its first entry replaced by the new tool, every
    /// other entry untouched.
    #[verifier::loop_isolation(false)]
    pub fn register(&mut self, tool: T)
        ensures
            exists|nm: String|
                register_effect(old(self).tools@, final(self).tools@, nm, tool),
    {
        let name = own_str(tool.name());
        let ghost gname = name;
        let mut n: usize = 0;
        while n < self.tools.len()
            invariant
                n <= self.tools@.len(),
                self.tools@ == old(self).tools@,
                forall|i: int| 0 <= i < n ==> old(self).tools@[i].0@ != gname@,
            decreases self.tools@.len() - n,
        {
            if crate::text::str_eq(self.tools[n].0.as_str(), name.as_str()) {
                proof {
                    lemma_tool_index_props(self.tools@, gname@, 0);
                }
                let slot = &mut self.tools[n];
                slot.1 = tool;
                proof {
                    assert(tool_index_at(old(self).tools@, gname@, 0) == Some(n as int));
                    assert(register_effect(old(self).tools@, self.tools@, gname, tool));
                }
                return ;
            }
            n += 1;
        }
        proof {
            lemma_tool_index_props(self.tools@, gname@, 0);
        }
        self.tools.push((name, tool));
        proof {
            assert(register_effect(old(self).tools@, self.tools@, gname, tool));
        }
    }

    fn find(&self, name: &str) -> (r: Option<usize>)
        ensures
            (r matches Some(i) ==> tool_index_at(self.tools@, name@, 0) == Some(i as int) && i
                < self.tools@.len()),
            (r is None ==> tool_index_at(self.tools@, name@, 0) is None),
    {
        let mut n: usize = 0;
        while n < self.tools.len()
            invariant
                n <= self.tools@.len(),
                tool_index_at(self.tools@, name@, 0) == tool_index_at(
                    self.tools@,
                    name@,
                    n as int,
                ),
            decreases self.tools@.len() - n,
        {
            if crate::text::str_eq(self.tools[n].0.as_str(), name) {
                return Some(n);
            }
            n += 1;
        }
        None
    }

    /// Dispatch one invocation by name. An unknown name yields the
    /// distinctive error result rather than failing the caller; a known
    /// name yields whatever that tool returned.
    pub fn execute(&self, name: &str, args: Vec<(String, Json)>) -> (r: ToolResult)
        ensures
            !self.has_tool(name@) ==> r.is_error && r.for_llm@ == "tool '"@ + name@
                + "' not found"@,
    {
        match self.find(name) {
            Some(i) => self.tools[i].1.execute(args),
            None => {
                let head = concat_str("tool '", name);
                ToolResult::error(concat_str(head.as_str(), "' not found"))
            },
        }
    }

    /// The capability catalogue in the provider-compatible shape, one
    /// entry per registered tool, in registration order, each carrying
    /// the wire's fixed definition type.
    pub fn get_definitions(&self) -> (r: Vec<ToolDefinition>)
        ensures
            r@.len() == self.tools@.len(),
            forall|i: int| 0 <= i < r@.len() ==> (#[trigger] r@[i]).def_type@ == "function"@,
    {
        let mut out: Vec<ToolDefinition> = Vec::new();
        let mut n: usize = 0;
        while n < self.tools.len()
            invariant
                n <= self.tools@.len(),
                out@.len() == n,
                forall|i: int| 0 <= i < n ==> (#[trigger] out@[i]).def_type@ == "function"@,
            decreases self.tools@.len() - n,
        {
            let t = &self.tools[n].1;
            out.push(
                ToolDefinition {
                    def_type: own_str("function"),
                    function: ToolFunctionDefinition {
                        name: own_str(t.name()),
                        description: own_str(t.description()),
                        parameters: t.parameters(),
                    },
                },
            );
            n += 1;
        }
        out
    }

    /// The registered names, in registration order.
    pub fn list(&self) -> (r: Vec<String>)
        ensures
            r@.len() == self.tools@.len(),
            forall|i: int| 0 <= i < r@.len() ==> r@[i]@ == self.names()[i],
    {
        let mut out: Vec<String> = Vec::new();
        let mut n: usize = 0;
        while n < self.tools.len()
            invariant
                n <= self.tools@.len(),
                out@.len() == n,
                forall|i: int| 0 <= i < n ==> out@[i]@ == self.tools@[i].0@,
            decreases self.tools@.len() - n,
        {
            out.push(self.tools[n].0.clone());
            n += 1;
        }
        out
    }

    pub fn count(&self) -> (r: usize)
        ensures
            r == self.tools@.len(),
    {
        self.tools.len()
    }

    /// One `- name - description` line per tool, for the system prompt.
    pub fn get_summaries(&self) -> (r: Vec<String>)
        ensures
            r@.len() == self.tools@.len(),
    {
        let mut out: Vec<String> = Vec::new();
        let mut n: usize = 0;
        while n < self.tools.len()
            invariant
                n <= self.tools@.len(),
                out@.len() == n,
            decreases self.tools@.len() - n,
        {
            let t = &self.tools[n].1;
            let a = concat_str("- `", t.name());
            let b = concat_str(a.as_str(), "` - ");
            out.push(concat_str(b.as_str(), t.description()));
            n += 1;
        }
        out
    }
}

// ---------------------------------------------------------------------------
// Batch outcomes
// ---------------------------------------------------------------------------

/// What one dispatched tool task came back with.
#[derive(Debug, Clone)]
pub enum ToolOutcome {
    /// The tool ran and returned this text (possibly an error result).
    Completed { output: String, success: bool },
    /// The task crashed; the crash is isolated and reported as text.
    Panicked { message: String },
}

/// The text a tool-result message carries for one outcome.
pub open spec fn outcome_text(o: ToolOutcome) -> Seq<char> {
    match o {
        ToolOutcome::Completed { output, .. } => output@,
        ToolOutcome::Panicked { message } => "Tool execution panicked: "@ + message@,
    }
}

/// The first outcome recorded for a call index, if any.
pub open spec fn outcome_for(os: Seq<(usize, ToolOutcome)>, i: int) -> Option<ToolOutcome>
    decreases os.len(),
{
    if os.len() == 0 {
        None
    } else if os[0].0 == i {
        Some(os[0].1)
    } else {
        outcome_for(os.drop_first(), i)
    }
}

/// The text the i-th call's result message must carry: its outcome's
/// text, or the missing-result error where the batch lost the task.
pub open spec fn text_for_call(os: Seq<(usize, ToolOutcome)>, i: int) -> Seq<char> {
    match outcome_for(os, i) {
        Some(o) => outcome_text(o),
        None => "Tool execution panicked: no result was returned"@,
    }
}

fn find_outcome<'a>(os: &'a Vec<(usize, ToolOutcome)>, i: usize) -> (r: Option<&'a ToolOutcome>)
    ensures
        (r matches Some(o) ==> outcome_for(os@, i as int) == Some(*o)),
        (r is None ==> outcome_for(os@, i as int) is None),
{
    let mut n: usize = 0;
    proof {
        assert(os@.subrange(0, os@.len() as int) =~= os@);
    }
    while n < os.len()
        invariant
            n <= os@.len(),
            outcome_for(os@, i as int) == outcome_for(
                os@.subrange(n as int, os@.len() as int),
                i as int,
            ),
        decreases os@.len() - n,
    {
        proof {
            let tail = os@.subrange(n as int, os@.len() as int);
            assert(tail[0] == os@[n as int]);
            assert(tail.drop_first() =~= os@.subrange(n as int + 1, os@.len() as int));
        }
        if os[n].0 == i {
            return Some(&os[n].1);
        }
        n += 1;
    }
    proof {
        assert(os@.subrange(os@.len() as int, os@.len() as int) =~= Seq::<(usize,
            ToolOutcome)>::empty());
    }
    None
}

/// Turn a batch of outcomes — in whatever order they completed — into one
/// tool-result message per call, in the original call order. Exactly one
/// message is produced per call; the i-th message answers the i-th call's
/// id and carries that call's outcome text; a crashed or lost task
/// becomes an error text, never a failure of the batch.
#[verifier::loop_isolation(false)]
pub fn assemble_tool_messages(
    calls: &Vec<ToolCall>,
    outcomes: &Vec<(usize, ToolOutcome)>,
) -> (r: Vec<Message>)
    ensures
        r@.len() == calls@.len(),
        forall|i: int|
            0 <= i < r@.len() ==> {
                let m = #[trigger] r@[i].mv();
                &&& m.role == "tool"@
                &&& m.tool_call_id == Some(calls@[i].tv().id)
                &&& m.content == text_for_call(outcomes@, i)
                &&& m.tool_calls is None
            },
{
    let mut out: Vec<Message> = Vec::new();
    let mut k: usize = 0;
    while k < calls.len()
        invariant
            k <= calls@.len(),
            out@.len() == k,
            forall|i: int|
                0 <= i < k ==> {
                    let m = #[trigger] out@[i].mv();
                    &&& m.role == "tool"@
                    &&& m.tool_call_id == Some(calls@[i].tv().id)
                    &&& m.content == text_for_call(outcomes@, i)
                    &&& m.tool_calls is None
                },
        decreases calls@.len() - k,
    {
        let text: String = match find_outcome(outcomes, k) {
            Some(o) => match o {
                ToolOutcome::Completed { output, .. } => output.clone(),
                ToolOutcome::Panicked { message } => concat_str(
                    "Tool execution panicked: ",
                    message.as_str(),
                ),
            },
            None => own_str("Tool execution panicked: no result was returned"),
        };
        out.push(Message::tool_result(calls[k].id.clone(), text));
        k += 1;
    }
    out
}

/// Run a batch of calls one after the other against the registry,
/// recording each call's index with its outcome. This sequential
/// dispatcher never reorders — outcome `i` belongs to call `i` — and it
/// never loses a task: every outcome is a completed tool run.
pub fn execute_batch_sequential<T: Tool>(
    reg: &ToolRegistry<T>,
    calls: &Vec<ToolCall>,
) -> (r: Vec<(usize, ToolOutcome)>)
    ensures
        r@.len() == calls@.len(),
        forall|i: int|
            0 <= i < r@.len() ==> (#[trigger] r@[i]).0 == i && r@[i].1 is Completed,
{
    let mut out: Vec<(usize, ToolOutcome)> = Vec::new();
    let mut k: usize = 0;
    while k < calls.len()
        invariant
            k <= calls@.len(),
            out@.len() == k,
            forall|i: int|
                0 <= i < k ==> (#[trigger] out@[i]).0 == i && out@[i].1 is Completed,
        decreases calls@.len() - k,
    {
        let tc = &calls[k];
        let args = tc.parsed_arguments();
        let result = reg.execute(tc.function_name(), args);
        out.push(
            (
                k,
                ToolOutcome::Completed { output: result.for_llm, success: !result.is_error },
            ),
        );
        k += 1;
    }
    out
}

} // verus!
