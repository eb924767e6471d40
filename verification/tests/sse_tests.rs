use quectoclaw::sse::SseParser;
use quectoclaw::msg::StreamEvent;

fn frame(json: &str) -> String {
    format!("data: {}\n", json)
}

#[test]
fn test_token_stream_in_order() {
    let mut p = SseParser::new();
    let mut events = Vec::new();
    events.extend(p.feed(&frame(r#"{"choices":[{"delta":{"content":"Hel"}}]}"#)));
    events.extend(p.feed(&frame(r#"{"choices":[{"delta":{"content":"lo "}}]}"#)));
    events.extend(p.feed(&frame(r#"{"choices":[{"delta":{"content":"there"}}]}"#)));
    events.extend(p.feed("data: [DONE]\n"));

    assert_eq!(events.len(), 4);
    assert!(matches!(&events[0], StreamEvent::Token(t) if t == "Hel"));
    assert!(matches!(&events[1], StreamEvent::Token(t) if t == "lo "));
    assert!(matches!(&events[2], StreamEvent::Token(t) if t == "there"));
    match &events[3] {
        StreamEvent::Done(resp) => {
            assert_eq!(resp.content, "Hello there");
            assert!(resp.tool_calls.is_none());
        }
        other => panic!("expected a final event, got {:?}", other),
    }
}

#[test]
fn test_split_chunks_reassemble_lines() {
    let mut p = SseParser::new();
    let mut events = Vec::new();
    events.extend(p.feed("data: {\"choices\":[{\"delta\":{\"con"));
    events.extend(p.feed("tent\":\"abc\"}}]}\ndata: [DO"));
    events.extend(p.feed("NE]\n"));
    assert_eq!(events.len(), 2);
    assert!(matches!(&events[0], StreamEvent::Token(t) if t == "abc"));
    assert!(matches!(&events[1], StreamEvent::Done(_)));
}

#[test]
fn test_tool_call_delta_reconstruction() {
    let mut p = SseParser::new();
    let mut events = Vec::new();
    events.extend(p.feed(&frame(
        r#"{"choices":[{"delta":{"tool_calls":[{"index":0,"function":{"name":"x"}}]}}]}"#,
    )));
    events.extend(p.feed(&frame(
        r#"{"choices":[{"delta":{"tool_calls":[{"index":0,"function":{"arguments":"{\"a\":"}}]}}]}"#,
    )));
    events.extend(p.feed(&frame(
        r#"{"choices":[{"delta":{"tool_calls":[{"index":0,"function":{"arguments":"1}"}}]}}]}"#,
    )));
    events.extend(p.feed("data: [DONE]\n"));

    let done = events.last().unwrap();
    match done {
        StreamEvent::Done(resp) => {
            let calls = resp.tool_calls.as_ref().unwrap();
            assert_eq!(calls.len(), 1);
            let f = calls[0].function.as_ref().unwrap();
            assert_eq!(f.name, "x");
            assert_eq!(f.arguments, "{\"a\":1}");
        }
        other => panic!("expected a final event, got {:?}", other),
    }
}

#[test]
fn test_fragments_sorted_by_index() {
    let mut p = SseParser::new();
    p.feed(&frame(
        r#"{"choices":[{"delta":{"tool_calls":[{"index":1,"id":"b","function":{"name":"second"}}]}}]}"#,
    ));
    p.feed(&frame(
        r#"{"choices":[{"delta":{"tool_calls":[{"index":0,"id":"a","function":{"name":"first"}}]}}]}"#,
    ));
    let events = p.feed("data: [DONE]\n");
    match &events[0] {
        StreamEvent::Done(resp) => {
            let calls = resp.tool_calls.as_ref().unwrap();
            assert_eq!(calls.len(), 2);
            assert_eq!(calls[0].id, "a");
            assert_eq!(calls[1].id, "b");
        }
        other => panic!("expected a final event, got {:?}", other),
    }
}

#[test]
fn test_finish_flushes_without_marker() {
    let mut p = SseParser::new();
    let events = p.feed(&frame(r#"{"choices":[{"delta":{"content":"partial"}}]}"#));
    assert_eq!(events.len(), 1);
    match p.finish() {
        Some(StreamEvent::Done(resp)) => assert_eq!(resp.content, "partial"),
        other => panic!("expected a flushed final event, got {:?}", other),
    }
    assert!(p.finish().is_none());
}

#[test]
fn test_finish_reason_and_usage_accumulate() {
    let mut p = SseParser::new();
    p.feed(&frame(r#"{"choices":[{"delta":{"content":"hi"}}]}"#));
    p.feed(&frame(
        r#"{"choices":[{"delta":{},"finish_reason":"length"}],"usage":{"prompt_tokens":3,"completion_tokens":4,"total_tokens":7}}"#,
    ));
    let events = p.feed("data: [DONE]\n");
    match &events[0] {
        StreamEvent::Done(resp) => {
            assert_eq!(resp.finish_reason, "length");
            assert_eq!(resp.usage.as_ref().unwrap().total_tokens, 7);
        }
        other => panic!("expected a final event, got {:?}", other),
    }
}

#[test]
fn test_comment_and_blank_lines_ignored() {
    let mut p = SseParser::new();
    let events = p.feed(": keep-alive\n\ndata: [DONE]\n");
    assert_eq!(events.len(), 1);
    assert!(matches!(&events[0], StreamEvent::Done(_)));
}
