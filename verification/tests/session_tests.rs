use quectoclaw::session::{SessionStore, SessionData};
use quectoclaw::msg::Message;
use quectoclaw::msg::{ToolCall, FunctionCall};
use quectoclaw::codec::{encode_session, parse_session, wire_msg_to_json};
use quectoclaw::json::to_text;

#[test]
fn test_add_and_get_messages() {
    let mut store = SessionStore::new();
    store.add_message("test", Message::user(String::from("Hello")));
    store.add_message("test", Message::assistant(String::from("Hi there")));

    let messages = store.get_messages("test");
    assert_eq!(messages.len(), 2);
    assert_eq!(messages[0].role, "user");
    assert_eq!(messages[1].role, "assistant");
    assert_eq!(messages[0].content, "Hello");
    assert_eq!(messages[1].content, "Hi there");
}

#[test]
fn test_clear_session() {
    let mut store = SessionStore::new();
    store.add_message("test", Message::user(String::from("Hello")));
    store.clear("test");
    let messages = store.get_messages("test");
    assert!(messages.is_empty());
}

#[test]
fn test_message_count_matches_adds() {
    let mut store = SessionStore::new();
    for i in 0..7usize {
        store.add_message("s", Message::user(format!("message {}", i)));
    }
    assert_eq!(store.message_count("s"), 7);
    let messages = store.get_messages("s");
    for i in 0..7usize {
        assert_eq!(messages[i].content, format!("message {}", i));
    }
}

#[test]
fn test_sessions_are_isolated() {
    let mut store = SessionStore::new();
    store.add_message("a", Message::user(String::from("for a")));
    store.add_message("b", Message::user(String::from("for b")));
    store.set_summary("a", String::from("summary of a"));
    assert_eq!(store.message_count("a"), 1);
    assert_eq!(store.message_count("b"), 1);
    assert_eq!(store.get_summary("a"), "summary of a");
    assert_eq!(store.get_summary("b"), "");
}

#[test]
fn test_session_file_round_trip() {
    let mut store = SessionStore::new();
    store.add_message("s1", Message::user(String::from("hello \"world\"\nline two")));
    store.add_message("s1", Message::tool_result(String::from("call_9"), String::from("{\"ok\":true}")));
    store.set_summary("s1", String::from("a summary with unicode: \u{00e9}\u{4e16}"));
    let data = store.get_session("s1").unwrap();

    let text = encode_session(&data);
    let loaded = parse_session(&text).unwrap();

    assert_eq!(loaded.summary, data.summary);
    assert_eq!(loaded.messages.len(), data.messages.len());
    for i in 0..data.messages.len() {
        assert_eq!(loaded.messages[i].role, data.messages[i].role);
        assert_eq!(loaded.messages[i].content, data.messages[i].content);
        assert_eq!(loaded.messages[i].tool_call_id, data.messages[i].tool_call_id);
    }
}

#[test]
fn test_round_trip_keeps_tool_calls() {
    let call = ToolCall {
        id: String::from("call_abc"),
        call_type: Some(String::from("function")),
        function: Some(FunctionCall {
            name: String::from("exec"),
            arguments: String::from("{\"command\":\"echo hi\"}"),
        }),
        name: None,
        arguments: None,
    };
    let msg = Message::assistant_with_tool_calls(String::new(), vec![call]);
    let data = SessionData {
        messages: vec![msg],
        summary: String::new(),
        created_at: String::from("2024-01-01T00:00:00Z"),
        updated_at: String::from("2024-01-01T00:00:00Z"),
    };
    let text = encode_session(&data);
    let loaded = parse_session(&text).unwrap();
    let calls = loaded.messages[0].tool_calls.as_ref().unwrap();
    assert_eq!(calls.len(), 1);
    assert_eq!(calls[0].id, "call_abc");
    assert_eq!(calls[0].function.as_ref().unwrap().name, "exec");
    assert_eq!(calls[0].function.as_ref().unwrap().arguments, "{\"command\":\"echo hi\"}");
    assert_eq!(loaded.created_at, "2024-01-01T00:00:00Z");
}

#[test]
fn test_parse_session_rejects_malformed() {
    assert!(parse_session("{not json").is_none());
    assert!(parse_session("{\"messages\": 5}").is_none());
}

#[test]
fn test_sanitize_key() {
    assert_eq!(quectoclaw::session::sanitize_key("telegram:12|x/y\\z"), "telegram_12_x_y_z");
}

#[test]
fn test_parse_session_with_missing_optional_fields() {
    let loaded = parse_session(r#"{"messages": [{"role": "user", "content": "hi"}]}"#).unwrap();
    assert_eq!(loaded.messages.len(), 1);
    assert_eq!(loaded.messages[0].content, "hi");
    assert_eq!(loaded.summary, "");
    assert_eq!(loaded.created_at, "");
}

#[test]
fn test_wire_message_omits_absent_fields() {
    let plain = to_text(&wire_msg_to_json(&Message::user(String::from("hi"))));
    assert!(!plain.contains("tool_calls"));
    assert!(!plain.contains("tool_call_id"));
    assert!(!plain.contains("null"));
    let tool = to_text(&wire_msg_to_json(&Message::tool_result(
        String::from("id1"),
        String::from("out"),
    )));
    assert!(tool.contains("tool_call_id"));
    assert!(!tool.contains("null"));
}
