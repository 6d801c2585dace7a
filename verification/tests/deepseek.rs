use akasha::deepseek::{
    build_messages, build_request, build_tools, chat_url, check_status, request_text, ApiMessage,
    DeepSeekProvider,
};
use akasha::json::Json;
use akasha::providers::ProviderError;
use akasha::types::{
    extract_text, ContentBlock, Message, Request, TextContent, ToolCall, ToolDefinition,
    ToolResult, ToolResultContent,
};

fn text(t: &str) -> ContentBlock {
    ContentBlock::Text(TextContent { content: t.to_string() })
}

fn message(role: &str, content: Vec<ContentBlock>) -> Message {
    Message { role: role.to_string(), content }
}

fn weather() -> Request {
    Request {
        messages: vec![
            message("user", vec![text("What's the weather?")]),
            message(
                "assistant",
                vec![ContentBlock::ToolCall(ToolCall {
                    id: "call_1".to_string(),
                    name: "get_weather".to_string(),
                    arguments: Json::parse(r#"{"city": "Tokyo"}"#).unwrap(),
                })],
            ),
            message(
                "tool",
                vec![ContentBlock::ToolResult(ToolResult {
                    tool_call_id: Some("call_1".to_string()),
                    content: vec![ToolResultContent::Text(TextContent {
                        content: "Sunny, 22C".to_string(),
                    })],
                    is_error: false,
                })],
            ),
        ],
        tools: vec![],
    }
}

fn weather_tool() -> ToolDefinition {
    ToolDefinition {
        name: "get_weather".to_string(),
        description: "Get weather".to_string(),
        parameters: Json::parse(r#"{"type": "object", "properties": {"city": {"type": "string"}}}"#)
            .unwrap(),
    }
}

#[test]
fn test_build_messages_user_and_system() {
    let req = Request {
        messages: vec![
            message("system", vec![text("You are helpful.")]),
            message("user", vec![text("Hello")]),
        ],
        tools: vec![],
    };
    let messages = build_messages(&req.messages);
    assert_eq!(messages.len(), 2);
}

#[test]
fn test_build_messages_with_tool_result() {
    let messages = build_messages(&weather().messages);
    assert_eq!(messages.len(), 3);
}

#[test]
fn test_build_tools_empty() {
    let req = Request { messages: vec![], tools: vec![] };
    assert!(build_tools(&req.tools).is_none());
}

#[test]
fn test_build_tools_some() {
    let req = Request { messages: vec![], tools: vec![weather_tool()] };
    let tools = build_tools(&req.tools).unwrap();
    assert_eq!(tools.len(), 1);
    let function = tools[0].get("function").unwrap();
    assert_eq!(function.get("name").and_then(|n| n.as_str()), Some("get_weather"));
}

#[test]
fn test_extract_text() {
    let blocks = vec![
        text("Hello "),
        text("world"),
        ContentBlock::ToolCall(ToolCall {
            id: "1".to_string(),
            name: "foo".to_string(),
            arguments: Json::Null,
        }),
    ];
    assert_eq!(extract_text(&blocks), "Hello world");
}

#[test]
fn test_provider_name() {
    let p = DeepSeekProvider::new("test-key");
    assert_eq!(p.name(), "deepseek");
    assert_eq!(p.api_key(), "test-key");
}

#[test]
fn messages_as_the_api_takes_them() {
    let messages = build_messages(&weather().messages);
    assert_eq!(messages[0], ApiMessage::User { content: "What's the weather?".to_string() });
    match &messages[1] {
        ApiMessage::Assistant { tool_calls: Some(calls), .. } => {
            assert_eq!(calls[0].arguments, r#"{"city":"Tokyo"}"#);
        }
        other => panic!("unexpected {other:?}"),
    }
    assert_eq!(
        messages[2],
        ApiMessage::Tool {
            content: "Sunny, 22C".to_string(),
            tool_call_id: "call_1".to_string()
        }
    );
}

#[test]
fn a_request_as_it_is_sent() {
    let sent = request_text("m", &vec![message("user", vec![text("hi")])], &vec![weather_tool()]);
    let read = Json::parse(&sent).unwrap();
    assert_eq!(read.get("model").and_then(|v| v.as_str()), Some("m"));
    assert_eq!(read.get("stream"), Some(&Json::Bool(true)));
    assert_eq!(read.get("messages").unwrap().items().unwrap().len(), 1);
    assert!(read.get("tools").is_some());
    let bare = build_request("m", &vec![], &vec![]);
    assert!(bare.get("tools").is_none(), "no tools are declared where there are none");
}

#[test]
fn where_requests_go() {
    assert_eq!(chat_url(""), "https://api.deepseek.com/chat/completions");
    assert_eq!(chat_url("http://local"), "http://local/chat/completions");
}

#[test]
fn refusals_by_status() {
    assert_eq!(check_status(200, "200 OK", "", "m"), None);
    assert_eq!(check_status(429, "429", "", "m"), Some(ProviderError::RateLimited));
    assert_eq!(
        check_status(404, "404", "", "m"),
        Some(ProviderError::ModelNotFound("m".to_string()))
    );
    assert_eq!(
        check_status(500, "500 Internal Server Error", "boom", "m"),
        Some(ProviderError::RequestFailed("500 Internal Server Error: boom".to_string()))
    );
}
