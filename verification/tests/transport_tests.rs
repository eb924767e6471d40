use quectoclaw::transport::{
    parse_response, classify, run_attempts, split_options, AttemptOutcome, RetryDecision,
    RetryPolicy,
};
use quectoclaw::json::Json;

#[test]
fn test_parse_simple_response() {
    let json = r#"{
        "choices": [{
            "message": {"role": "assistant", "content": "Hello!"},
            "finish_reason": "stop"
        }],
        "usage": {"prompt_tokens": 10, "completion_tokens": 5, "total_tokens": 15}
    }"#;

    let resp = parse_response(json).unwrap();
    assert_eq!(resp.content, "Hello!");
    assert_eq!(resp.finish_reason, "stop");
    assert!(!resp.has_tool_calls());
    assert_eq!(resp.usage.unwrap().total_tokens, 15);
}

#[test]
fn test_parse_tool_call_response() {
    let json = r#"{
        "choices": [{
            "message": {
                "role": "assistant",
                "content": "",
                "tool_calls": [{
                    "id": "call_1",
                    "type": "function",
                    "function": {
                        "name": "read_file",
                        "arguments": "{\"path\": \"test.txt\"}"
                    }
                }]
            },
            "finish_reason": "tool_calls"
        }]
    }"#;

    let resp = parse_response(json).unwrap();
    assert!(resp.has_tool_calls());
    let tc = &resp.tool_calls.unwrap()[0];
    assert_eq!(tc.function_name(), "read_file");
    let args = tc.parsed_arguments();
    assert_eq!(args.len(), 1);
    assert_eq!(args[0].0, "path");
    assert_eq!(args[0].1, Json::Str(String::from("test.txt")));
}

#[test]
fn test_parse_error_response() {
    let json = r#"{"error": {"message": "Invalid API key", "type": "auth_error"}}"#;
    let result = parse_response(json);
    assert!(result.is_err());
    assert!(result.unwrap_err().contains("Invalid API key"));
}

#[test]
fn test_parse_missing_choices() {
    let result = parse_response(r#"{"object": "chat.completion"}"#);
    assert_eq!(result.unwrap_err(), "No choices in LLM response");
}

#[test]
fn test_parse_malformed_body() {
    let result = parse_response("not json at all");
    assert_eq!(result.unwrap_err(), "malformed LLM response body");
}

fn http(status: u16, body: &str) -> AttemptOutcome {
    AttemptOutcome::Http { status, body: body.to_string() }
}

#[test]
fn test_retry_three_500s_then_200_succeeds() {
    let policy = RetryPolicy { max_retries: 3, retry_delay_ms: 1 };
    let outcomes = vec![http(500, "a"), http(500, "b"), http(500, "c"), http(200, "done")];
    assert_eq!(run_attempts(&policy, outcomes).unwrap(), "done");
}

#[test]
fn test_retry_budget_two_fails() {
    let policy = RetryPolicy { max_retries: 2, retry_delay_ms: 1 };
    let outcomes = vec![http(500, "a"), http(500, "b"), http(500, "c"), http(200, "done")];
    let err = run_attempts(&policy, outcomes).unwrap_err();
    assert_eq!(err, "LLM API error (500): c");
}

#[test]
fn test_classify_non_transient_is_fatal() {
    let policy = RetryPolicy { max_retries: 5, retry_delay_ms: 10 };
    match classify(&policy, 0, &http(401, "no")) {
        RetryDecision::Fatal(e) => assert_eq!(e, "LLM API error (401): no"),
        _ => panic!("a client error must be fatal immediately"),
    }
}

#[test]
fn test_classify_rate_limit_is_transient() {
    let policy = RetryPolicy { max_retries: 1, retry_delay_ms: 10 };
    assert!(matches!(classify(&policy, 0, &http(429, "slow down")), RetryDecision::RetryAfter(10)));
}

#[test]
fn test_classify_network_error_retries() {
    let policy = RetryPolicy { max_retries: 1, retry_delay_ms: 7 };
    let net = AttemptOutcome::NetworkError(String::from("connection reset"));
    assert!(matches!(classify(&policy, 0, &net), RetryDecision::RetryAfter(7)));
    match classify(&policy, 1, &AttemptOutcome::NetworkError(String::from("connection reset"))) {
        RetryDecision::Fatal(e) => assert_eq!(e, "connection reset"),
        _ => panic!("an exhausted budget must surface the last error"),
    }
}

#[test]
fn test_split_options_consumes_retry_keys() {
    let options = vec![
        (String::from("temperature"), Json::Num(String::from("0.7"))),
        (String::from("max_retries"), Json::Num(String::from("5"))),
        (String::from("retry_delay_ms"), Json::Num(String::from("250"))),
        (String::from("max_tokens"), Json::Num(String::from("128"))),
    ];
    let (policy, rest) = split_options(options);
    assert_eq!(policy.max_retries, 5);
    assert_eq!(policy.retry_delay_ms, 250);
    assert_eq!(rest.len(), 2);
    assert_eq!(rest[0].0, "temperature");
    assert_eq!(rest[1].0, "max_tokens");
}

#[test]
fn test_split_options_defaults() {
    let (policy, rest) = split_options(vec![]);
    assert_eq!(policy.max_retries, 3);
    assert_eq!(policy.retry_delay_ms, 1000);
    assert!(rest.is_empty());
}
