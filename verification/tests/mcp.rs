use akasha::json::Json;
use akasha::mcp::{
    call_arguments, check_headers, conclude, definition_of, format_content, register, settle,
    text_from_content, to_result_content, Invocation, McpConfig, McpConfigError, McpToolError,
    RemoteContent, RemoteTool, ServerEntry, StreamableHttpConfig,
};
use akasha::tools::{ToolError, ToolRegistry};
use akasha::types::{TextContent, ToolResult, ToolResultContent};

fn entry(cfg: McpConfig, name: &str) -> ServerEntry {
    cfg.mcp_servers.into_iter().find(|(n, _)| n == name).unwrap().1
}

/// The configuration that a JSON text describes.
fn config(text: &str) -> Result<McpConfig, McpConfigError> {
    McpConfig::of(&Json::parse(text).unwrap())
}

#[test]
fn minimal_streamable_http() {
    let cfg = config(r#"{"mcpServers":{"s":{"url":"http://localhost/mcp"}}}"#).unwrap();
    let http = entry(cfg, "s").into_config().unwrap();
    assert_eq!(http.url, "http://localhost/mcp");
    assert!(http.headers.is_empty());
}

#[test]
fn with_headers() {
    let cfg = config(
        r#"{"mcpServers":{"s":{"url":"http://localhost/mcp","headers":{"Authorization":"Bearer tok"}}}}"#,
    )
    .unwrap();
    let http = entry(cfg, "s").into_config().unwrap();
    assert_eq!(http.headers, [("Authorization".to_string(), "Bearer tok".to_string())]);
}

#[test]
fn servers_alias() {
    let cfg = config(r#"{"servers":{"s":{"url":"http://localhost/mcp"}}}"#).unwrap();
    assert!(cfg.mcp_servers.iter().any(|(n, _)| n == "s"));
}

#[test]
fn unknown_rejected() {
    let cfg = config(r#"{"mcpServers":{"s":{"foo":"bar"}}}"#).unwrap();
    let err = entry(cfg, "s").into_config().unwrap_err();
    assert!(matches!(err, McpConfigError::InvalidConfig { .. }));
}

#[test]
fn empty_config() {
    let cfg = config(r#"{"mcpServers":{}}"#).unwrap();
    assert!(cfg.mcp_servers.is_empty());
}

fn http(allow: &[&str], deny: &[&str]) -> StreamableHttpConfig {
    StreamableHttpConfig {
        url: "http://localhost/mcp".into(),
        headers: Vec::new(),
        allow: allow.iter().map(|s| (*s).into()).collect(),
        deny: deny.iter().map(|s| (*s).into()).collect(),
    }
}

#[test]
fn empty_lists_allow_everything() {
    let cfg = http(&[], &[]);
    assert!(cfg.is_tool_allowed("anything"));
    assert!(cfg.is_tool_allowed(""));
}

#[test]
fn allow_exact_name() {
    let cfg = http(&["filesystem_read", "git_status"], &[]);
    assert!(cfg.is_tool_allowed("filesystem_read"));
    assert!(cfg.is_tool_allowed("git_status"));
    assert!(!cfg.is_tool_allowed("filesystem_write"));
    assert!(!cfg.is_tool_allowed("git"));
}

#[test]
fn deny_overrides_allow() {
    let cfg = http(&["git_status"], &["git_status"]);
    assert!(!cfg.is_tool_allowed("git_status"));
}

#[test]
fn deny_without_allow() {
    let cfg = http(&[], &["dangerous", "exact"]);
    assert!(!cfg.is_tool_allowed("dangerous"));
    assert!(!cfg.is_tool_allowed("exact"));
    assert!(cfg.is_tool_allowed("safe"));
}

#[test]
fn parses_allow_and_deny() {
    let cfg = config(
        r#"{"mcpServers":{"s":{"url":"http://localhost/mcp","allow":["git_status"],"deny":["git_push"]}}}"#,
    )
    .unwrap();
    let http = entry(cfg, "s").into_config().unwrap();
    assert_eq!(http.allow, vec!["git_status"]);
    assert_eq!(http.deny, vec!["git_push"]);
    assert!(!http.is_tool_allowed("git_push"));
    assert!(http.is_tool_allowed("git_status"));
}

fn with_header(name: &str, value: &str) -> StreamableHttpConfig {
    let mut cfg = http(&[], &[]);
    cfg.headers.push((name.to_string(), value.to_string()));
    cfg
}

#[test]
fn headers_are_checked_before_connecting() {
    assert_eq!(check_headers(&with_header("X-Key_1", "a b\tc é")), Ok(()));
    assert_eq!(check_headers(&http(&[], &[])), Ok(()));
    for name in ["", "bad name", "naïve", "a:b", "x\n"] {
        let err = check_headers(&with_header(name, "v")).unwrap_err();
        let McpToolError::Connection(why) = err else { panic!("unexpected kind") };
        assert_eq!(why, format!("invalid header name '{name}': invalid HTTP header name"));
    }
    for value in ["a\nb", "\u{7f}", "\0"] {
        let err = check_headers(&with_header("k", value)).unwrap_err();
        assert_eq!(
            err.words(),
            "connection error: invalid header value for 'k': failed to parse header value"
        );
    }
}

#[test]
fn configs_that_cannot_be_read() {
    assert_eq!(
        refusal("[]"),
        "invalid length 0, expected struct McpConfig with 1 element"
    );
    assert_eq!(
        refusal("[{}, 1]"),
        "invalid length 2, expected fewer elements in array"
    );
    assert_eq!(refusal("{}"), "missing field `mcpServers`");
    assert_eq!(
        refusal(r#"{"mcpServers":{},"servers":{}}"#),
        "duplicate field `mcpServers`"
    );
    assert_eq!(
        refusal(r#"{"mcpServers":null,"servers":{}}"#),
        "invalid type: null, expected a map"
    );
    assert_eq!(refusal(r#"{"servers":"x"}"#), r#"invalid type: string "x", expected a map"#);
    assert_eq!(refusal("3"), "invalid type: integer `3`, expected struct McpConfig");
    assert_eq!(
        McpConfigError::UnsupportedTransport { transport: "stdio".to_string() }.words(),
        "unsupported transport 'stdio'; only StreamableHttp (url-based) is supported"
    );
    assert_eq!(McpToolError::Discovery("d".to_string()).words(), "tool discovery error: d");
}

#[test]
fn denied_tools_are_not_registered() {
    let mut registry = ToolRegistry::new();
    let found = ["read", "write"]
        .iter()
        .map(|n| RemoteTool { name: n.to_string(), description: None, input_schema: None })
        .collect();
    register(&mut registry, &http(&[], &["write"]), &found);
    assert!(registry.contains("read"));
    assert!(!registry.contains("write"));
    let bare = definition_of(&found[0]);
    assert_eq!(bare.description, "");
    assert_eq!(bare.parameters.get("type").and_then(|t| t.as_str()), Some("object"));
}

fn text(t: &str) -> ToolResultContent {
    ToolResultContent::Text(TextContent { content: t.to_string() })
}

#[test]
fn answers_of_remote_tools() {
    let content = vec![
        RemoteContent::Text("a".to_string()),
        RemoteContent::TextResource("b".to_string()),
        RemoteContent::Other("{}".to_string()),
    ];
    assert_eq!(to_result_content(&content), vec![text("a"), text("b"), text("{}")]);
    assert_eq!(format_content(&content, "none".to_string()), "a\nb");
    assert_eq!(format_content(&Vec::new(), "none".to_string()), "none");
    assert_eq!(text_from_content(&vec![text("x"), text("y")], String::new()), "x\ny");
    let failed = conclude(Ok((vec![RemoteContent::Text("no".to_string())], Some(true))));
    assert_eq!(failed, Err(ToolError::Execution("no".to_string())));
    assert_eq!(conclude(Err("gone".to_string())), Err(ToolError::Execution("gone".to_string())));
    let ok = conclude(Ok((vec![RemoteContent::Text("yes".to_string())], None))).unwrap();
    assert_eq!(ok.content, vec![text("yes")]);
    assert_eq!(call_arguments(Json::Null), None);
    assert!(call_arguments(Json::parse("{}").unwrap()).is_some());
}

/// A tool that doubles its input.
fn double() -> RemoteTool {
    RemoteTool {
        name: "double".to_string(),
        description: Some("Doubles the input".to_string()),
        input_schema: Some(Json::parse(r#"{"type":"object"}"#).unwrap()),
    }
}

fn invoke_double(params: &str) -> Result<ToolResult, ToolError> {
    let params = Json::parse(params).unwrap();
    settle(match params.get("input").and_then(|v| v.as_u64()) {
        Some(n) => Invocation::Returned(Some(format!("{{\"result\":{}}}", n * 2))),
        None => Invocation::Refused("invalid type: string, expected i64".to_string()),
    })
}

fn result_of(result: &ToolResult) -> Option<u64> {
    match &result.content[0] {
        ToolResultContent::Text(tc) => {
            Json::parse(&tc.content).unwrap().get("result").and_then(|v| v.as_u64())
        }
        _ => panic!("expected Text content"),
    }
}

#[test]
fn new_stores_definition() {
    let def = definition_of(&double());
    assert_eq!(def.name, "double");
    assert_eq!(def.description, "Doubles the input");
}

#[test]
fn definition_returns_clone() {
    let tool = double();
    let def1 = definition_of(&tool);
    let def2 = definition_of(&tool);
    assert_eq!(def1.name, def2.name);
}

#[test]
fn execute_happy_path() {
    let result = invoke_double(r#"{"input": 21}"#).unwrap();
    assert!(!result.is_error);
    assert!(result.tool_call_id.is_none());
    assert_eq!(result.content.len(), 1);
    assert_eq!(result_of(&result), Some(42));
}

#[test]
fn execute_returns_validation_error_on_bad_params() {
    match invoke_double(r#"{"input": "not_a_number"}"#).unwrap_err() {
        ToolError::Validation(msg) => assert!(!msg.is_empty()),
        other => panic!("expected Validation error, got {:?}", other),
    }
}

#[test]
fn execute_returns_execution_error_on_tool_failure() {
    match settle(Invocation::Failed("something went wrong".to_string())).unwrap_err() {
        ToolError::Execution(msg) => assert!(msg.contains("something went wrong")),
        other => panic!("expected Execution error, got {:?}", other),
    }
}

#[test]
fn execute_unit_tool_with_null_params() {
    let result = settle(Invocation::Returned(Some("null".to_string()))).unwrap();
    assert!(!result.is_error);
}

#[test]
fn from_conversion_produces_correct_definition() {
    assert_eq!(definition_of(&double()).name, "double");
}

#[test]
fn from_boxed_tool_can_execute() {
    assert_eq!(result_of(&invoke_double(r#"{"input": 5}"#).unwrap()), Some(10));
}

#[test]
fn a_value_that_cannot_be_written_is_said_to_be_so() {
    let result = settle(Invocation::Returned(None)).unwrap();
    assert_eq!(result.content, vec![text("tool returned non-serializable result")]);
}

fn refusal(text: &str) -> String {
    match config(text) {
        Err(McpConfigError::Parse(why)) => why,
        _ => panic!("expected a parse error"),
    }
}

#[test]
fn configs_and_entries_may_be_lists() {
    let cfg = config(r#"[{"s":["http://localhost/mcp",{"a":"b"},["x"]]}]"#).unwrap();
    let http = entry(cfg, "s").into_config().unwrap();
    assert_eq!(http.url, "http://localhost/mcp");
    assert_eq!(http.headers, [("a".to_string(), "b".to_string())]);
    assert_eq!(http.allow, ["x"]);
    assert!(http.deny.is_empty());
    let cfg = config(r#"{"servers":{"s":["u",{},[],[],1]}}"#).unwrap();
    assert!(entry(cfg, "s").into_config().is_err(), "a server has four parts at most");
    let cfg = config(r#"{"servers":{"s":[]}}"#).unwrap();
    assert!(entry(cfg, "s").into_config().is_err());
}
