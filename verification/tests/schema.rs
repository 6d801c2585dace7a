use std::collections::VecDeque;

use akasha::agent::{Action, AgentError, AgentRun, Event};
use akasha::extensions::{AgentState, Extension, ToolCallDecision};
use akasha::json::Json;
use akasha::providers::{Model, StreamResponse};
use akasha::schema::{check_output, summarise, SchemaVerification};
use akasha::tools::{ToolError, ToolRegistry, ToolSpec};
use akasha::types::{
    ContentBlock, Message, TextContent, TokenUsage, ToolCall, ToolDefinition, ToolResult,
    ToolResultContent,
};

fn json(text: &str) -> Json {
    Json::parse(text).unwrap()
}

/// A tool with its schemas; the agent driver below hands out the scripted result.
fn tool(name: &str, parameters: Json, output: Option<Json>) -> ToolSpec {
    ToolSpec {
        definition: ToolDefinition { name: name.into(), description: "d".into(), parameters },
        output,
    }
}

fn input_schema() -> Json {
    json(r#"{ "type": "object", "required": ["path"], "properties": { "path": { "type": "string" } } }"#)
}

fn output_schema() -> Json {
    json(r#"{ "type": "object", "required": ["x"], "properties": { "x": { "type": "integer" } } }"#)
}

fn any_object() -> Json {
    json(r#"{"type":"object"}"#)
}

fn registry_with(tool: ToolSpec) -> ToolRegistry {
    let mut tools = ToolRegistry::new();
    tools.register(tool);
    tools
}

fn state(tools: ToolRegistry) -> AgentState {
    AgentState {
        model: Model {
            id: "m".into(),
            provider: "p".into(),
            context_window: 0,
            base_url: String::new(),
            headers: Vec::new(),
        },
        tools,
        session: Vec::new(),
    }
}

fn ok_result(text: &str) -> Result<ToolResult, ToolError> {
    Ok(ToolResult {
        tool_call_id: None,
        content: vec![ToolResultContent::Text(TextContent { content: text.into() })],
        is_error: false,
    })
}

#[test]
fn records_schemas_at_turn_start() {
    let tools = registry_with(tool("t", input_schema(), Some(output_schema())));
    let mut ext = SchemaVerification::new();
    ext.on_turn_start(state(tools)).unwrap();
    let v = ext.schemas.get("t").expect("schema recorded");
    assert!(v.input.is_some(), "input validator compiled");
    assert!(v.output.is_some(), "output validator compiled");
}

#[test]
fn denies_invalid_input() {
    let tools = registry_with(tool("t", input_schema(), None));
    let mut ext = SchemaVerification::new();
    ext.on_turn_start(state(tools)).unwrap();

    let decision = ext.on_tool_execution_start("c1", "t", &json("{}")).unwrap();
    match decision {
        ToolCallDecision::Deny(r) => assert!(r.contains("invalid input"), "got: {r}"),
        ToolCallDecision::Allow => panic!("invalid input must be denied"),
    }
}

#[test]
fn allows_valid_input() {
    let tools = registry_with(tool("t", input_schema(), None));
    let mut ext = SchemaVerification::new();
    ext.on_turn_start(state(tools)).unwrap();

    let decision = ext.on_tool_execution_start("c1", "t", &json(r#"{"path":"/tmp"}"#)).unwrap();
    assert!(matches!(decision, ToolCallDecision::Allow));
}

#[test]
fn flags_invalid_output() {
    let tools = registry_with(tool("t", any_object(), Some(output_schema())));
    let mut ext = SchemaVerification::new();
    ext.on_turn_start(state(tools)).unwrap();
    ext.on_tool_execution_start("c1", "t", &json("{}")).unwrap();

    let out = ext.tool_execution_end("c1", ok_result(r#"{"x":"not-an-int"}"#)).unwrap().unwrap();
    assert!(out.is_error, "invalid output must become an error result");
}

#[test]
fn flags_non_json_output() {
    let tools = registry_with(tool("t", any_object(), Some(output_schema())));
    let mut ext = SchemaVerification::new();
    ext.on_turn_start(state(tools)).unwrap();
    ext.on_tool_execution_start("c1", "t", &json("{}")).unwrap();

    let out = ext.tool_execution_end("c1", ok_result("just text")).unwrap().unwrap();
    assert!(out.is_error, "non-JSON output must become an error result");
}

#[test]
fn passes_valid_output() {
    let tools = registry_with(tool("t", any_object(), Some(output_schema())));
    let mut ext = SchemaVerification::new();
    ext.on_turn_start(state(tools)).unwrap();
    ext.on_tool_execution_start("c1", "t", &json("{}")).unwrap();

    let out = ext.tool_execution_end("c1", ok_result(r#"{"x":7}"#)).unwrap().unwrap();
    assert!(!out.is_error, "valid output passes through");
}

#[test]
fn passthrough_when_no_output_schema() {
    let tools = registry_with(tool("t", any_object(), None));
    let mut ext = SchemaVerification::new();
    ext.on_turn_start(state(tools)).unwrap();
    ext.on_tool_execution_start("c1", "t", &json("{}")).unwrap();

    let out = ext.tool_execution_end("c1", ok_result("free text")).unwrap().unwrap();
    assert!(!out.is_error, "no output schema → unchecked passthrough");
}

#[test]
fn resnapshots_each_turn() {
    let one = registry_with(tool("a", any_object(), None));
    let mut ext = SchemaVerification::new();
    ext.on_turn_start(state(one)).unwrap();
    assert!(ext.schemas.contains("a"));
    assert!(!ext.schemas.contains("b"));

    let mut two = ToolRegistry::new();
    two.register(tool("a", any_object(), None));
    two.register(tool("b", any_object(), None));
    ext.on_turn_start(state(two)).unwrap();
    assert!(ext.schemas.contains("a"));
    assert!(ext.schemas.contains("b"), "turn_start resnapshots the registry");
}

/// Runs an agent to its end against scripted assistant messages, one to a request, and a tool
/// that always says the same.
fn drive(
    state: AgentState,
    ext: &mut SchemaVerification,
    turns: Vec<Message>,
    result_text: &str,
) -> (AgentState, Result<(), AgentError>, usize) {
    let mut turns: VecDeque<Message> = turns.into();
    let mut chunk: Option<StreamResponse> = None;
    let mut executed = 0;
    let (mut run, mut action) = AgentRun::prompt(state, vec!["p".to_string()], user_text("go"));
    loop {
        let event = match action {
            Action::Hook(call) => Event::Hooked(ext.handle(call)),
            Action::Append(_) => Event::Appended(Ok(())),
            Action::Stream { .. } => {
                let message = turns.pop_front().unwrap_or_else(|| assistant(""));
                chunk = Some(StreamResponse {
                    message,
                    usage: TokenUsage::zero(),
                    stop_reason: Some("stop".to_string()),
                });
                Event::Opened(Ok(()))
            }
            Action::NextChunk => Event::Chunk(chunk.take()),
            Action::Execute { .. } => {
                executed += 1;
                Event::Executed(ok_result(result_text))
            }
            Action::Finish(outcome) => return (run.state, outcome, executed),
        };
        assert!(run.accepts(&event));
        action = run.step(event);
    }
}

fn tool_call_msg(id: &str, name: &str, arguments: Json) -> Message {
    Message {
        role: "assistant".to_string(),
        content: vec![ContentBlock::ToolCall(ToolCall { id: id.into(), name: name.into(), arguments })],
    }
}

fn user_text(text: &str) -> Message {
    Message::text("user", text.to_string())
}

fn assistant(text: &str) -> Message {
    Message::text("assistant", text.to_string())
}

fn last_tool_result_text(session: &[Message]) -> Option<(bool, String)> {
    for m in session.iter().rev() {
        for block in &m.content {
            if let ContentBlock::ToolResult(r) = block {
                let text = r
                    .content
                    .iter()
                    .filter_map(|c| match c {
                        ToolResultContent::Text(t) => Some(t.content.as_str()),
                        _ => None,
                    })
                    .collect::<Vec<_>>()
                    .join("");
                return Some((r.is_error, text));
            }
        }
    }
    None
}

#[test]
fn e2e_invalid_input_is_denied_via_extension() {
    let tools = registry_with(tool("t", input_schema(), None));
    let mut ext = SchemaVerification::new();
    let (after, outcome, executed) = drive(
        state(tools),
        &mut ext,
        vec![tool_call_msg("c1", "t", json("{}")), assistant("done")],
        "should-not-run",
    );
    outcome.unwrap();
    assert_eq!(executed, 0, "the handler must not run");

    let (is_error, text) = last_tool_result_text(&after.session).expect("a tool result was recorded");
    assert!(is_error, "denied call must surface as an error tool result");
    assert!(text.contains("invalid input"), "deny reason must reach the model: {text}");
}

#[test]
fn e2e_invalid_output_is_flagged_via_extension() {
    let tools = registry_with(tool("t", any_object(), Some(output_schema())));
    let mut ext = SchemaVerification::new();
    let (after, outcome, _) = drive(
        state(tools),
        &mut ext,
        vec![tool_call_msg("c1", "t", json("{}")), assistant("done")],
        r#"{"x":"bad"}"#,
    );
    outcome.unwrap();

    let (is_error, text) = last_tool_result_text(&after.session).expect("a tool result was recorded");
    assert!(is_error, "invalid output must be flagged");
    assert!(text.contains("invalid output"), "output reason must reach the model: {text}");
}

#[test]
fn e2e_valid_io_runs_cleanly() {
    let tools = registry_with(tool("t", input_schema(), Some(output_schema())));
    let mut ext = SchemaVerification::new();
    let (after, outcome, _) = drive(
        state(tools),
        &mut ext,
        vec![tool_call_msg("c1", "t", json(r#"{"path":"/tmp"}"#)), assistant("done")],
        r#"{"x":5}"#,
    );
    outcome.unwrap();

    let (is_error, _text) = last_tool_result_text(&after.session).expect("a tool result was recorded");
    assert!(!is_error, "valid I/O must pass through");
}

#[test]
fn schemas_that_do_not_compile_are_not_held_against_calls() {
    let mut tools = ToolRegistry::new();
    tools.register(tool("null", Json::Null, None));
    tools.register(tool("broken", json(r#"{"type": 5}"#), None));
    let mut ext = SchemaVerification::new();
    ext.on_turn_start(state(tools)).unwrap();
    assert!(ext.schemas.get("null").map_or(true, |v| v.input.is_none()));
    assert!(ext.schemas.get("broken").map_or(true, |v| v.input.is_none()));
    let decision = ext.on_tool_execution_start("c", "broken", &json("[]")).unwrap();
    assert!(matches!(decision, ToolCallDecision::Allow));
}

#[test]
fn unknown_tools_and_failures_pass() {
    let mut ext = SchemaVerification::new();
    let decision = ext.on_tool_execution_start("c", "nobody", &Json::Null).unwrap();
    assert!(matches!(decision, ToolCallDecision::Allow));
    let failed = ext.tool_execution_end("c", Err(ToolError::Aborted)).unwrap();
    assert_eq!(failed, Err(ToolError::Aborted));
}

#[test]
fn violations_are_listed_together() {
    assert_eq!(summarise(&Vec::new()), None);
    assert_eq!(summarise(&vec!["a".to_string()]), Some("a".to_string()));
    assert_eq!(summarise(&vec!["a".to_string(), "b".to_string()]), Some("a; b".to_string()));
}

#[test]
fn an_output_that_is_no_json_is_an_error_in_words() {
    let result = ok_result("text").unwrap();
    let out = check_output("t", &output_schema(), result, Err("bad".to_string()));
    assert!(out.is_error);
}
