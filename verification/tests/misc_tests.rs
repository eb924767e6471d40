use quectoclaw::filesystem::validate_path;
use quectoclaw::vectordb::{chunk_text, tokenize};
use quectoclaw::web::html_escape;
use quectoclaw::web::validate_url_ssrf;
use quectoclaw::tui::{format_uptime, LogLevel, TuiModel, TuiEvent};
use quectoclaw::json::{parse_json, to_text, Json};
use quectoclaw::workflow::{replace_all, apply_workflow_args, Workflow, Step};
use quectoclaw::providers::{Providers, default_api_base};
use quectoclaw::config::ProviderEntry;
use quectoclaw::config::ProviderEntryWithProxy;
use quectoclaw::market::{PluginMarket, PluginType};
use quectoclaw::plugin::{default_timeout, default_type, default_fuel};

#[test]
fn test_validate_path_absolute() {
    let result = validate_path("/tmp/test.txt", "/tmp", true);
    assert!(result.is_ok());
}

#[test]
fn test_validate_path_outside_workspace() {
    let result = validate_path("/etc/passwd", "/tmp", true);
    assert!(result.is_err());
}

#[test]
fn test_validate_path_unrestricted() {
    let result = validate_path("/etc/passwd", "/tmp", false);
    assert!(result.is_ok());
}

#[test]
fn test_validate_path_relative_joins_workspace() {
    let result = validate_path("notes/a.txt", "/ws", true).unwrap();
    assert_eq!(result, "/ws/notes/a.txt");
}

#[test]
fn test_chunk_text() {
    let text = "line 1\nline 2\nline 3\nline 4\nline 5";
    let chunks = chunk_text(text, 15);
    assert!(chunks.len() >= 2);
    for chunk in &chunks {
        assert!(chunk.len() <= 15 || !chunk.contains('\n'));
    }
}

#[test]
fn test_tokenize_filters_short_words() {
    let tokens = tokenize("The Quick-Brown FOX, a_1 x!");
    assert_eq!(tokens, vec!["the", "quick", "brown", "fox", "a_1"]);
}

#[test]
fn test_html_escape() {
    assert_eq!(html_escape("a<b>&\"c'"), "a&lt;b&gt;&amp;&quot;c&#39;");
    assert_eq!(html_escape("plain"), "plain");
}

#[test]
fn test_format_uptime() {
    assert_eq!(format_uptime(0), "00:00:00");
    assert_eq!(format_uptime(3_725), "01:02:05");
    assert_eq!(format_uptime(360_000), "100:00:00");
}

#[test]
fn test_log_level_symbols_distinct() {
    let symbols = vec![
        LogLevel::Info.symbol(),
        LogLevel::Warn.symbol(),
        LogLevel::Error.symbol(),
        LogLevel::Debug.symbol(),
        LogLevel::Tool.symbol(),
        LogLevel::Llm.symbol(),
    ];
    for i in 0..symbols.len() {
        for j in 0..symbols.len() {
            if i != j {
                assert_ne!(symbols[i], symbols[j]);
            }
        }
    }
}

#[test]
fn test_tui_counters() {
    let mut model = TuiModel::new();
    model.handle_event(
        TuiEvent::ToolCall {
            tool: String::from("exec"),
            session: String::from("s"),
            timestamp: String::from("12:00:00"),
        },
        String::from("12:00:00"),
    );
    model.handle_event(
        TuiEvent::ToolResult { tool: String::from("exec"), success: false, duration_ms: 4 },
        String::from("12:00:01"),
    );
    assert_eq!(model.stats.total_tool_calls, 1);
    assert_eq!(model.stats.tool_errors, 1);
    assert_eq!(model.active_sessions.len(), 1);
    assert_eq!(model.logs.len(), 2);
}

#[test]
fn test_json_value_round_trip() {
    let text = r#"{"a": [1, true, null, "x\ny"], "b": {"c": "d"}}"#;
    let v = parse_json(text).unwrap();
    let emitted = to_text(&v);
    let v2 = parse_json(&emitted).unwrap();
    assert_eq!(v, v2);
}

#[test]
fn test_json_parse_escapes() {
    let v = parse_json(r#""Aé😀\t""#).unwrap();
    assert_eq!(v, Json::Str(String::from("A\u{e9}\u{1F600}\t")));
}

#[test]
fn test_json_rejects_trailing_garbage() {
    assert!(parse_json("{} extra").is_none());
    assert!(parse_json("[1,]").is_none());
    assert!(parse_json("").is_none());
}

#[test]
fn test_replace_all() {
    assert_eq!(replace_all("aaa", "aa", "b"), "ba");
    assert_eq!(replace_all("say {{ x }} twice {{ x }}", "{{ x }}", "hi"), "say hi twice hi");
}

#[test]
fn test_workflow_substitution() {
    let mut wf = Workflow {
        name: String::from("deploy"),
        description: None,
        steps: vec![Step {
            name: String::from("s1"),
            prompt: String::from("Build {{ project }} for {{ env }}"),
            variables: vec![],
        }],
    };
    let args = vec![
        (String::from("project"), String::from("demo")),
        (String::from("env"), String::from("production")),
    ];
    apply_workflow_args(&mut wf, &args);
    assert_eq!(wf.steps[0].prompt, "Build demo for production");
}

#[test]
fn test_resolve_provider_by_model_name() {
    let entry = |key: &str| ProviderEntry { api_key: key.to_string(), api_base: String::new() };
    let providers = Providers {
        openai: entry("sk-test"),
        openrouter: entry(""),
        groq: entry(""),
        zhipu: entry(""),
        gemini: entry(""),
        vllm: entry(""),
        nvidia: ProviderEntryWithProxy {
            api_key: String::new(),
            api_base: String::new(),
            proxy: String::new(),
        },
        moonshot: entry(""),
    };
    let (key, _base, name) = providers.resolve_provider("gpt-4o").unwrap();
    assert_eq!(key, "sk-test");
    assert_eq!(name, "gpt");
    let none = providers.resolve_provider("unknown-model");
    assert_eq!(none.unwrap().2, "openai");
}

#[test]
fn test_default_api_base_detection() {
    assert_eq!(default_api_base("sk-or-abc"), "https://openrouter.ai/api/v1");
    assert_eq!(default_api_base("gsk_abc"), "https://api.groq.com/openai/v1");
    assert_eq!(default_api_base("nvapi-abc"), "https://integrate.api.nvidia.com/v1");
    assert_eq!(default_api_base("sk-plain"), "https://api.openai.com/v1");
}

#[test]
fn test_market_and_plugin_defaults() {
    let market = PluginMarket::new(String::from("https://example.com/registry.json"));
    assert_eq!(market.registry_url, "https://example.com/registry.json");
    assert_eq!(PluginType::Shell, PluginType::Shell);
    assert!(PluginType::Shell != PluginType::Wasm);
    assert_eq!(default_timeout(), 30);
    assert_eq!(default_type(), "string");
    assert_eq!(default_fuel(), 1_000_000);
}

#[test]
fn test_ssrf_blocks_localhost() {
    assert!(validate_url_ssrf("http://localhost/secret").is_err());
    assert!(validate_url_ssrf("http://127.0.0.1/secret").is_err());
    assert!(validate_url_ssrf("http://[::1]/secret").is_err());
}

#[test]
fn test_ssrf_blocks_private_ips() {
    assert!(validate_url_ssrf("http://10.0.0.1/admin").is_err());
    assert!(validate_url_ssrf("http://172.16.0.1/admin").is_err());
    assert!(validate_url_ssrf("http://192.168.1.1/admin").is_err());
}

#[test]
fn test_ssrf_blocks_metadata() {
    assert!(validate_url_ssrf("http://169.254.169.254/latest/meta-data/").is_err());
    assert!(validate_url_ssrf("http://metadata.google.internal/").is_err());
}

#[test]
fn test_ssrf_allows_public() {
    assert!(validate_url_ssrf("https://example.com").is_ok());
    assert!(validate_url_ssrf("https://api.github.com").is_ok());
}

#[test]
fn test_ssrf_blocks_non_http() {
    assert!(validate_url_ssrf("ftp://example.com/file").is_err());
    assert!(validate_url_ssrf("file:///etc/passwd").is_err());
}

#[test]
fn test_json_unicode_escape_decoding() {
    let v = parse_json(r#""\u0041\uD83D\uDE00\u00E9""#).unwrap();
    assert_eq!(v, Json::Str(String::from("A\u{1F600}\u{e9}")));
    assert!(parse_json(r#""\uD83D""#).is_none());
}

#[test]
fn test_json_writer_escapes() {
    let j = Json::Str(String::from("a\"b\\c\nd\u{1}"));
    assert_eq!(to_text(&j), "\"a\\\"b\\\\c\\nd\\u0001\"");
}
