use akasha::circuit_breaker::{clip, CircuitBreaker, MAX_OUTPUT_LENGTH};
use akasha::extensions::{Extension, HookCall, HookReturn};
use akasha::tools::ToolError;
use akasha::types::{ImageContetnt, TextContent, ToolResult, ToolResultContent};

fn ok_result(text: &str) -> Result<ToolResult, ToolError> {
    Ok(ToolResult {
        tool_call_id: Some("call_1".to_string()),
        content: vec![ToolResultContent::Text(TextContent { content: text.to_string() })],
        is_error: false,
    })
}

fn result_text(out: &ToolResult) -> String {
    out.content
        .iter()
        .filter_map(|c| match c {
            ToolResultContent::Text(t) => Some(t.content.as_str()),
            _ => None,
        })
        .collect::<Vec<_>>()
        .join("")
}

#[test]
fn passes_short_result_through() {
    let mut ext = CircuitBreaker::new();
    let out = ext.tool_execution_end("c1", ok_result("small output")).unwrap().unwrap();
    assert!(!out.is_error);
    assert_eq!(result_text(&out), "small output");
    assert_eq!(out.tool_call_id.as_deref(), Some("call_1"));
}

#[test]
fn boundary_at_limit_passes() {
    let mut ext = CircuitBreaker::new();
    let exactly = "a".repeat(MAX_OUTPUT_LENGTH);
    let out = ext.tool_execution_end("c1", ok_result(&exactly)).unwrap().unwrap();
    assert!(!out.is_error, "exactly at the limit is not over it");
    assert_eq!(result_text(&out).chars().count(), MAX_OUTPUT_LENGTH);
}

#[test]
fn clips_over_limit_to_first_slice_and_flags_error() {
    let mut ext = CircuitBreaker::new();
    let original = "x".repeat(MAX_OUTPUT_LENGTH + 5);
    let out = ext.tool_execution_end("c1", ok_result(&original)).unwrap().unwrap();

    assert!(out.is_error, "over-limit result must be flagged as an error");
    let text = result_text(&out);
    assert!(text.contains("MAX_OUTPUT_LENGTH"), "error marker must reach the model: {text}");
    assert!(text.starts_with(&"x".repeat(MAX_OUTPUT_LENGTH)));
    assert_eq!(out.tool_call_id.as_deref(), Some("call_1"), "tool_call_id is preserved");
}

#[test]
fn clips_on_char_boundary_for_multibyte() {
    let mut ext = CircuitBreaker::new();
    let original = "é".repeat(MAX_OUTPUT_LENGTH + 10);
    let out = ext.tool_execution_end("c1", ok_result(&original)).unwrap().unwrap();
    assert!(out.is_error);
    let text = result_text(&out);
    let body = text.split("\n[").next().unwrap();
    assert_eq!(body.chars().count(), MAX_OUTPUT_LENGTH);
}

#[test]
fn passes_tool_error_through() {
    let mut ext = CircuitBreaker::new();
    let err = Err(ToolError::Execution("boom".to_string()));
    let out = ext.tool_execution_end("c1", err).unwrap();
    assert!(out.is_err(), "a ToolError must pass through unchanged");
}

#[test]
fn breaker_goes_by_its_name_and_watches_nothing_else() {
    let mut ext = CircuitBreaker::new();
    assert_eq!(ext.name(), "circuit_breaker");
    match ext.handle(HookCall::MessageStart(Vec::new())) {
        HookReturn::Messages(Ok(m)) => assert!(m.is_empty()),
        other => panic!("unexpected {other:?}"),
    }
}

#[test]
fn the_texts_of_a_result_count_together() {
    let half = "y".repeat(MAX_OUTPUT_LENGTH / 2);
    let over = ToolResult {
        tool_call_id: None,
        content: vec![
            ToolResultContent::Text(TextContent { content: half.clone() }),
            ToolResultContent::Image(ImageContetnt { data: vec![1, 2], mime: "image/png".to_string() }),
            ToolResultContent::Text(TextContent { content: half + "z" }),
        ],
        is_error: false,
    };
    let out = clip(over);
    assert!(out.is_error);
    let text = result_text(&out);
    assert!(!text[..MAX_OUTPUT_LENGTH].contains('z'));
}
