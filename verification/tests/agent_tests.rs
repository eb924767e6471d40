use std::cell::RefCell;
use quectoclaw::agent::{AgentLoop, LlmProvider, build_messages, should_summarize,
    max_iterations_sentinel, rate_limited_reply};
use quectoclaw::bus::InboundMessage;
use quectoclaw::json::Json;
use quectoclaw::limiter::RateLimiter;
use quectoclaw::msg::{Message, LLMResponse, ToolCall, ToolDefinition, FunctionCall};
use quectoclaw::registry::{Tool, ToolRegistry, ToolOutcome, assemble_tool_messages};
use quectoclaw::router::ModelRouter;
use quectoclaw::ToolResult;

/// A scripted model: each chat call pops the next canned response.
struct MockProvider {
    script: RefCell<Vec<LLMResponse>>,
}

impl LlmProvider for MockProvider {
    fn chat(
        &self,
        _messages: &Vec<Message>,
        _tools: &Vec<ToolDefinition>,
        _model: &str,
        _options: &Vec<(String, Json)>,
    ) -> Result<LLMResponse, String> {
        let mut script = self.script.borrow_mut();
        if script.is_empty() {
            Err(String::from("script exhausted"))
        } else {
            Ok(script.remove(0))
        }
    }

    fn default_model(&self) -> &str {
        "mock-model"
    }
}

/// A command tool that pretends to run shell commands.
struct EchoTool;

impl Tool for EchoTool {
    fn name(&self) -> &str {
        "exec"
    }

    fn description(&self) -> &str {
        "Run a command"
    }

    fn parameters(&self) -> Json {
        Json::Obj(vec![(String::from("type"), Json::Str(String::from("object")))])
    }

    fn execute(&self, args: Vec<(String, Json)>) -> ToolResult {
        for (k, v) in args {
            if k == "command" {
                if let Json::Str(cmd) = v {
                    if cmd.starts_with("echo ") {
                        return ToolResult::success(format!("The command returned {}", &cmd[5..]));
                    }
                }
            }
        }
        ToolResult::error(String::from("command is required"))
    }
}

fn text_response(content: &str) -> LLMResponse {
    LLMResponse {
        content: content.to_string(),
        tool_calls: None,
        finish_reason: String::from("stop"),
        usage: None,
    }
}

fn tool_response(id: &str, name: &str, arguments: &str) -> LLMResponse {
    LLMResponse {
        content: String::new(),
        tool_calls: Some(vec![ToolCall {
            id: id.to_string(),
            call_type: Some(String::from("function")),
            function: Some(FunctionCall {
                name: name.to_string(),
                arguments: arguments.to_string(),
            }),
            name: None,
            arguments: None,
        }]),
        finish_reason: String::from("tool_calls"),
        usage: None,
    }
}

fn make_loop(script: Vec<LLMResponse>) -> AgentLoop<MockProvider, EchoTool> {
    let provider = MockProvider { script: RefCell::new(script) };
    let mut tools: ToolRegistry<EchoTool> = ToolRegistry::new();
    tools.register(EchoTool);
    AgentLoop::new(
        provider,
        tools,
        ModelRouter::new(vec![], String::from("mock-model")),
        RateLimiter::new(0, 60),
        20,
        String::from("mock-model"),
        String::from("You are a test agent."),
        vec![],
    )
}

#[test]
fn test_plain_answer_terminates_in_one_iteration() {
    let mut agent = make_loop(vec![text_response("just an answer")]);
    let out = agent.run_agent_loop("say something", "s0", true).unwrap();
    assert_eq!(out, "just an answer");
    // one user message and one assistant message were persisted
    let history = agent.sessions.get_messages("s0");
    assert_eq!(history.len(), 2);
    assert_eq!(history[0].role, "user");
    assert_eq!(history[1].role, "assistant");
}

#[test]
fn test_tool_turn_scenario() {
    // session "s1" starts empty; the model first asks for an exec tool
    // call, then answers with text containing the command's output
    let mut agent = make_loop(vec![
        tool_response("call_abc123", "exec", "{\"command\":\"echo hello-test\"}"),
        text_response("The command printed hello-test for us."),
    ]);
    assert_eq!(agent.sessions.message_count("s1"), 0);
    let out = agent.run_agent_loop("say hello", "s1", true).unwrap();
    assert!(out.contains("hello-test"));

    let history = agent.sessions.get_messages("s1");
    assert_eq!(history.len(), 4);
    assert_eq!(history[0].role, "user");
    assert_eq!(history[1].role, "assistant");
    assert!(history[1].tool_calls.is_some());
    assert_eq!(history[2].role, "tool");
    assert_eq!(history[2].tool_call_id.as_deref(), Some("call_abc123"));
    assert!(history[2].content.contains("hello-test"));
    assert_eq!(history[3].role, "assistant");
}

#[test]
fn test_unknown_tool_becomes_error_result() {
    let mut agent = make_loop(vec![
        tool_response("call_1", "no_such_tool", "{}"),
        text_response("recovered"),
    ]);
    let out = agent.run_agent_loop("try it", "s2", true).unwrap();
    assert_eq!(out, "recovered");
    let history = agent.sessions.get_messages("s2");
    assert_eq!(history[2].role, "tool");
    assert_eq!(history[2].content, "tool 'no_such_tool' not found");
}

#[test]
fn test_iteration_cap_returns_sentinel() {
    let mut script = Vec::new();
    for i in 0..25 {
        script.push(tool_response(&format!("c{}", i), "exec", "{\"command\":\"echo x\"}"));
    }
    let mut agent = make_loop(script);
    let out = agent.run_agent_loop("loop forever", "s3", true).unwrap();
    assert_eq!(out, max_iterations_sentinel());
}

#[test]
fn test_transport_error_propagates() {
    let mut agent = make_loop(vec![]);
    let err = agent.run_agent_loop("anything", "s4", true).unwrap_err();
    assert_eq!(err, "script exhausted");
}

#[test]
fn test_results_ordered_by_call_index() {
    // outcomes arrive in completion order; the messages come out in call
    // order, one per call
    let calls = vec![
        ToolCall {
            id: String::from("id0"),
            call_type: None,
            function: Some(FunctionCall { name: String::from("a"), arguments: String::from("{}") }),
            name: None,
            arguments: None,
        },
        ToolCall {
            id: String::from("id1"),
            call_type: None,
            function: Some(FunctionCall { name: String::from("b"), arguments: String::from("{}") }),
            name: None,
            arguments: None,
        },
        ToolCall {
            id: String::from("id2"),
            call_type: None,
            function: Some(FunctionCall { name: String::from("c"), arguments: String::from("{}") }),
            name: None,
            arguments: None,
        },
    ];
    let outcomes = vec![
        (2usize, ToolOutcome::Completed { output: String::from("third"), success: true }),
        (0usize, ToolOutcome::Completed { output: String::from("first"), success: true }),
        (1usize, ToolOutcome::Panicked { message: String::from("worker crashed") }),
    ];
    let msgs = assemble_tool_messages(&calls, &outcomes);
    assert_eq!(msgs.len(), 3);
    assert_eq!(msgs[0].tool_call_id.as_deref(), Some("id0"));
    assert_eq!(msgs[0].content, "first");
    assert_eq!(msgs[1].tool_call_id.as_deref(), Some("id1"));
    assert_eq!(msgs[1].content, "Tool execution panicked: worker crashed");
    assert_eq!(msgs[2].tool_call_id.as_deref(), Some("id2"));
    assert_eq!(msgs[2].content, "third");
    for m in &msgs {
        assert_eq!(m.role, "tool");
    }
}

#[test]
fn test_build_messages_layout() {
    let history = vec![Message::user(String::from("earlier"))];
    let msgs = build_messages("sys prompt", "old summary", history, "new question");
    assert_eq!(msgs.len(), 4);
    assert_eq!(msgs[0].role, "system");
    assert_eq!(msgs[0].content, "sys prompt");
    assert_eq!(msgs[1].role, "system");
    assert!(msgs[1].content.contains("old summary"));
    assert_eq!(msgs[2].content, "earlier");
    assert_eq!(msgs[3].role, "user");
    assert_eq!(msgs[3].content, "new question");

    let no_summary = build_messages("sys", "", vec![], "q");
    assert_eq!(no_summary.len(), 2);
}

#[test]
fn test_summarize_threshold() {
    assert!(!should_summarize(0));
    assert!(!should_summarize(19));
    assert!(should_summarize(20));
    assert!(!should_summarize(21));
    assert!(should_summarize(40));
}

/// A tool that answers with a fixed tag, for registry semantics.
struct TagTool {
    name: &'static str,
    tag: &'static str,
}

impl Tool for TagTool {
    fn name(&self) -> &str {
        self.name
    }

    fn description(&self) -> &str {
        "answers with its tag"
    }

    fn parameters(&self) -> Json {
        Json::Obj(vec![])
    }

    fn execute(&self, _args: Vec<(String, Json)>) -> ToolResult {
        ToolResult::success(self.tag.to_string())
    }
}

#[test]
fn test_register_replaces_same_name() {
    let mut reg: ToolRegistry<TagTool> = ToolRegistry::new();
    reg.register(TagTool { name: "t", tag: "first" });
    reg.register(TagTool { name: "t", tag: "second" });
    reg.register(TagTool { name: "u", tag: "other" });
    assert_eq!(reg.count(), 2);
    assert_eq!(reg.execute("t", vec![]).for_llm, "second");
    assert_eq!(reg.execute("u", vec![]).for_llm, "other");
    let defs = reg.get_definitions();
    assert_eq!(defs.len(), 2);
    for d in &defs {
        assert_eq!(d.def_type, "function");
    }
}

#[test]
fn test_rate_limited_reply_mirrors_message() {
    let msg = InboundMessage {
        channel: String::from("telegram"),
        sender_id: String::from("u1"),
        chat_id: String::from("c9"),
        content: String::from("hi"),
        media: vec![],
        session_key: String::from("telegram:c9"),
        metadata: vec![],
    };
    let reply = rate_limited_reply(&msg);
    assert_eq!(reply.channel, "telegram");
    assert_eq!(reply.chat_id, "c9");
    assert_eq!(reply.content, "Rate limit exceeded. Please wait a moment.");
}
