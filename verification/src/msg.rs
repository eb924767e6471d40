//! The conversation data model: messages, tool calls, model responses and
//! streaming events. A message sequence forms a conversation; a `tool`
//! message always carries the id of the tool call it answers.

use vstd::prelude::*;
use crate::json::{Json, JsonV, sp_json, dv_members, lemma_dv_obj};

verus! {

/// A function invocation requested by the model.
#[derive(Debug, Clone)]
pub struct FunctionCall {
    pub name: String,
    /// The arguments as a JSON object in source text.
    pub arguments: String,
}

/// A model-requested invocation of a named capability.
#[derive(Debug, Clone)]
pub struct ToolCall {
    pub id: String,
    pub call_type: Option<String>,
    pub function: Option<FunctionCall>,
    /// Flattened name (used by some providers).
    pub name: Option<String>,
    /// Flattened arguments in source text (used by some providers).
    pub arguments: Option<String>,
}

/// One turn of the conversation.
#[derive(Debug, Clone)]
pub struct Message {
    pub role: String,
    pub content: String,
    pub tool_calls: Option<Vec<ToolCall>>,
    pub tool_call_id: Option<String>,
}

/// Token usage reported by the model endpoint.
#[derive(Debug, Clone)]
pub struct UsageInfo {
    pub prompt_tokens: usize,
    pub completion_tokens: usize,
    pub total_tokens: usize,
}

/// One complete model response.
#[derive(Debug, Clone)]
pub struct LLMResponse {
    pub content: String,
    pub tool_calls: Option<Vec<ToolCall>>,
    pub finish_reason: String,
    pub usage: Option<UsageInfo>,
}

/// A named capability as described to the model.
#[derive(Debug)]
pub struct ToolFunctionDefinition {
    pub name: String,
    pub description: String,
    pub parameters: Json,
}

/// The provider-compatible wrapper around a capability description.
#[derive(Debug)]
pub struct ToolDefinition {
    pub def_type: String,
    pub function: ToolFunctionDefinition,
}

/// Events emitted while a streaming response arrives.
#[derive(Debug, Clone)]
pub enum StreamEvent {
    /// A text token delta.
    Token(String),
    /// A tool-call delta fragment.
    ToolCallDelta { index: usize, id: Option<String>, name: Option<String>, arguments: String },
    /// The stream is complete; the final accumulated response.
    Done(LLMResponse),
    /// The stream failed.
    Error(String),
}

// ---------------------------------------------------------------------------
// Ghost views
// ---------------------------------------------------------------------------

#[verifier::ext_equal]
pub struct FunctionCallV {
    pub name: Seq<char>,
    pub arguments: Seq<char>,
}

#[verifier::ext_equal]
pub struct ToolCallV {
    pub id: Seq<char>,
    pub call_type: Option<Seq<char>>,
    pub function: Option<FunctionCallV>,
    pub name: Option<Seq<char>>,
    pub arguments: Option<Seq<char>>,
}

#[verifier::ext_equal]
pub struct MessageV {
    pub role: Seq<char>,
    pub content: Seq<char>,
    pub tool_calls: Option<Seq<ToolCallV>>,
    pub tool_call_id: Option<Seq<char>>,
}

pub open spec fn view_opt_str(o: Option<String>) -> Option<Seq<char>> {
    match o {
        Some(s) => Some(s@),
        None => None,
    }
}

impl FunctionCall {
    pub open spec fn fv(self) -> FunctionCallV {
        FunctionCallV { name: self.name@, arguments: self.arguments@ }
    }
}

impl ToolCall {
    pub open spec fn tv(self) -> ToolCallV {
        ToolCallV {
            id: self.id@,
            call_type: view_opt_str(self.call_type),
            function: match self.function {
                Some(f) => Some(f.fv()),
                None => None,
            },
            name: view_opt_str(self.name),
            arguments: view_opt_str(self.arguments),
        }
    }
}

pub open spec fn view_calls(v: Seq<ToolCall>) -> Seq<ToolCallV> {
    Seq::new(v.len(), |i: int| v[i].tv())
}

impl Message {
    pub open spec fn mv(self) -> MessageV {
        MessageV {
            role: self.role@,
            content: self.content@,
            tool_calls: match self.tool_calls {
                Some(v) => Some(view_calls(v@)),
                None => None,
            },
            tool_call_id: view_opt_str(self.tool_call_id),
        }
    }

    /// A `tool` message always answers a tool call.
    pub open spec fn wf(self) -> bool {
        self.role@ == "tool"@ ==> self.tool_call_id is Some
    }
}

pub open spec fn view_msgs(v: Seq<Message>) -> Seq<MessageV> {
    Seq::new(v.len(), |i: int| v[i].mv())
}

// ---------------------------------------------------------------------------
// Constructors
// ---------------------------------------------------------------------------

impl Message {
    pub fn system(content: String) -> (r: Message)
        ensures
            r.role@ == "system"@,
            r.content@ == content@,
            r.tool_calls is None,
            r.tool_call_id is None,
            r.wf(),
    {
        proof {
            reveal_strlit("system");
            reveal_strlit("tool");
            assert("system"@.len() == 6);
            assert("tool"@.len() == 4);
        }
        Message {
            role: crate::text::string_from_chars(&crate::text::chars_of("system")),
            content,
            tool_calls: None,
            tool_call_id: None,
        }
    }

    pub fn user(content: String) -> (r: Message)
        ensures
            r.role@ == "user"@,
            r.content@ == content@,
            r.tool_calls is None,
            r.tool_call_id is None,
            r.wf(),
    {
        proof {
            reveal_strlit("user");
            reveal_strlit("tool");
            assert("user"@.index(0) == 'u');
            assert("tool"@.index(0) == 't');
        }
        Message {
            role: crate::text::string_from_chars(&crate::text::chars_of("user")),
            content,
            tool_calls: None,
            tool_call_id: None,
        }
    }

    pub fn assistant(content: String) -> (r: Message)
        ensures
            r.role@ == "assistant"@,
            r.content@ == content@,
            r.tool_calls is None,
            r.tool_call_id is None,
            r.wf(),
    {
        proof {
            reveal_strlit("assistant");
            reveal_strlit("tool");
            assert("assistant"@.len() == 9);
            assert("tool"@.len() == 4);
        }
        Message {
            role: crate::text::string_from_chars(&crate::text::chars_of("assistant")),
            content,
            tool_calls: None,
            tool_call_id: None,
        }
    }

    /// An assistant message carrying the turn's tool calls; an empty list
    /// is recorded as no list at all.
    pub fn assistant_with_tool_calls(content: String, tool_calls: Vec<ToolCall>) -> (r: Message)
        ensures
            r.role@ == "assistant"@,
            r.content@ == content@,
            tool_calls@.len() == 0 ==> r.tool_calls is None,
            tool_calls@.len() > 0 ==> (r.tool_calls matches Some(tc) && tc@ == tool_calls@),
            r.tool_call_id is None,
            r.wf(),
    {
        proof {
            reveal_strlit("assistant");
            reveal_strlit("tool");
            assert("assistant"@.len() == 9);
            assert("tool"@.len() == 4);
        }
        Message {
            role: crate::text::string_from_chars(&crate::text::chars_of("assistant")),
            content,
            tool_calls: if tool_calls.len() == 0 {
                None
            } else {
                Some(tool_calls)
            },
            tool_call_id: None,
        }
    }

    /// The message that carries one tool's output back to the model.
    pub fn tool_result(tool_call_id: String, content: String) -> (r: Message)
        ensures
            r.role@ == "tool"@,
            r.content@ == content@,
            r.tool_calls is None,
            (r.tool_call_id matches Some(id) && id@ == tool_call_id@),
            r.wf(),
    {
        Message {
            role: crate::text::string_from_chars(&crate::text::chars_of("tool")),
            content,
            tool_calls: None,
            tool_call_id: Some(tool_call_id),
        }
    }
}

/// The name a tool call asks for: the nested function name, else the
/// flattened name, else empty.
pub open spec fn call_name_of(t: ToolCallV) -> Seq<char> {
    match t.function {
        Some(f) => f.name,
        None => match t.name {
            Some(n) => n,
            None => Seq::<char>::empty(),
        },
    }
}

/// The arguments a tool call carries, as JSON object members: the nested
/// function arguments text, else the flattened arguments text, parsed;
/// anything but an object gives no arguments.
pub open spec fn call_args_of(t: ToolCallV) -> Seq<(Seq<char>, JsonV)> {
    let raw = match t.function {
        Some(f) => Some(f.arguments),
        None => t.arguments,
    };
    match raw {
        Some(a) => match sp_json(a) {
            Some(JsonV::Obj(ms)) => ms,
            _ => Seq::<(Seq<char>, JsonV)>::empty(),
        },
        None => Seq::<(Seq<char>, JsonV)>::empty(),
    }
}

impl ToolCall {
    /// The function name from either the nested field or the flat one.
    pub fn function_name<'a>(&'a self) -> (r: &'a str)
        ensures
            r@ == call_name_of(self.tv()),
    {
        proof {
            reveal_strlit("");
        }
        match &self.function {
            Some(f) => f.name.as_str(),
            None => match &self.name {
                Some(n) => n.as_str(),
                None => "",
            },
        }
    }

    /// Parse the call's arguments into JSON object members; malformed or
    /// non-object arguments give an empty list.
    pub fn parsed_arguments(&self) -> (r: Vec<(String, Json)>)
        ensures
            dv_members(r@) == call_args_of(self.tv()),
    {
        let raw: Option<&String> = match &self.function {
            Some(f) => Some(&f.arguments),
            None => match &self.arguments {
                Some(a) => Some(a),
                None => None,
            },
        };
        match raw {
            Some(a) => match crate::json::parse_json(a.as_str()) {
                Some(j) => match j {
                    Json::Obj(v) => {
                        proof {
                            lemma_dv_obj(v);
                        }
                        v
                    },
                    _ => {
                        let r: Vec<(String, Json)> = Vec::new();
                        proof {
                            assert(dv_members(r@) =~= Seq::<(Seq<char>, JsonV)>::empty());
                        }
                        r
                    },
                },
                None => {
                    let r: Vec<(String, Json)> = Vec::new();
                    proof {
                        assert(dv_members(r@) =~= Seq::<(Seq<char>, JsonV)>::empty());
                    }
                    r
                },
            },
            None => {
                let r: Vec<(String, Json)> = Vec::new();
                proof {
                    assert(dv_members(r@) =~= Seq::<(Seq<char>, JsonV)>::empty());
                }
                r
            },
        }
    }
}

/// Whether a response asks for tools: a present, non-empty call list.
pub open spec fn has_calls_of(tool_calls: Option<Seq<ToolCallV>>) -> bool {
    match tool_calls {
        Some(tc) => tc.len() > 0,
        None => false,
    }
}

impl LLMResponse {
    pub open spec fn calls_view(self) -> Option<Seq<ToolCallV>> {
        match self.tool_calls {
            Some(v) => Some(view_calls(v@)),
            None => None,
        }
    }

    pub fn has_tool_calls(&self) -> (r: bool)
        ensures
            r == has_calls_of(self.calls_view()),
    {
        match &self.tool_calls {
            Some(tc) => tc.len() > 0,
            None => false,
        }
    }
}


#[verifier::ext_equal]
pub struct UsageInfoV {
    pub prompt_tokens: nat,
    pub completion_tokens: nat,
    pub total_tokens: nat,
}

impl UsageInfo {
    pub open spec fn uv(self) -> UsageInfoV {
        UsageInfoV {
            prompt_tokens: self.prompt_tokens as nat,
            completion_tokens: self.completion_tokens as nat,
            total_tokens: self.total_tokens as nat,
        }
    }
}

#[verifier::ext_equal]
pub struct LLMResponseV {
    pub content: Seq<char>,
    pub tool_calls: Option<Seq<ToolCallV>>,
    pub finish_reason: Seq<char>,
    pub usage: Option<UsageInfoV>,
}

impl LLMResponse {
    pub open spec fn rv(self) -> LLMResponseV {
        LLMResponseV {
            content: self.content@,
            tool_calls: match self.tool_calls {
                Some(v) => Some(view_calls(v@)),
                None => None,
            },
            finish_reason: self.finish_reason@,
            usage: match self.usage {
                Some(u) => Some(u.uv()),
                None => None,
            },
        }
    }
}

} // verus!
