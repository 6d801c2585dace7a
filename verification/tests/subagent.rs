use std::cell::RefCell;
use std::collections::VecDeque;

use akasha::agent::{Action, AgentRun, Event};
use akasha::extensions::{AgentState, Extension};
use akasha::forks::SessionAdapter;
use akasha::json::{Json, JsonV};
use akasha::providers::{Model, StreamResponse};
use akasha::session::{InMemorySession, SessionError};
use akasha::subagent::{
    chain, default_yield_schema, register, with_session_id, PoolV, SeedV, Subagent, SubagentTool,
    YieldTool, YIELD_TOOL,
};
use akasha::tools::{ToolError, ToolRegistry};
use akasha::types::{
    ContentBlock, Message, TextContent, TokenUsage, ToolCall, ToolDefinition, ToolDefinitionV,
    ToolResult, ToolResultContent,
};

fn json(text: &str) -> Json {
    Json::parse(text).unwrap()
}

/// A fixed definition and a seed that records whether it was asked to resume.
struct EchoSubagent {
    definition: ToolDefinition,
    output: Option<Json>,
    seeded_resume: RefCell<Vec<bool>>,
}

impl Subagent for EchoSubagent {
    fn declared(&self) -> ToolDefinitionV {
        unreachable!()
    }

    fn shapes(&self) -> (JsonV, Option<JsonV>) {
        unreachable!()
    }

    fn pool(&self) -> PoolV {
        unreachable!()
    }

    fn seeded(&self, _: JsonV, _: bool) -> SeedV {
        unreachable!()
    }

    fn definition(&self) -> ToolDefinition {
        self.definition.clone()
    }

    fn schema(&self) -> (Json, Option<Json>) {
        (self.definition.parameters.clone(), self.output.clone())
    }

    fn tools(&self) -> ToolRegistry {
        ToolRegistry::new()
    }

    fn seed(&self, params: &Json, resume: bool) -> Result<Vec<ContentBlock>, ToolError> {
        if params.get("refuse").is_some() {
            return Err(ToolError::Validation("refused".to_string()));
        }
        self.seeded_resume.borrow_mut().push(resume);
        Ok(vec![ContentBlock::Text(TextContent { content: "go".to_string() })])
    }
}

fn echo(output: Option<Json>) -> SubagentTool<EchoSubagent> {
    SubagentTool::new(EchoSubagent { definition: def(), output, seeded_resume: RefCell::new(vec![]) })
}

fn def() -> ToolDefinition {
    ToolDefinition {
        name: "echo".to_string(),
        description: "stub".to_string(),
        parameters: json(r#"{ "type": "object", "properties": { "input": { "type": "string" } } }"#),
    }
}

fn model() -> Model {
    Model {
        id: "m".to_string(),
        provider: "p".to_string(),
        context_window: 0,
        base_url: String::new(),
        headers: Vec::new(),
    }
}

fn manager() -> SessionAdapter {
    SessionAdapter::new(InMemorySession::new())
}

/// Replays scripted assistant messages, one to a request, and writes down what it was shown.
struct Scripted {
    turns: VecDeque<Message>,
    seen_counts: Vec<usize>,
    seen_texts: Vec<String>,
}

fn scripted(turns: Vec<Message>) -> Scripted {
    Scripted { turns: turns.into(), seen_counts: Vec::new(), seen_texts: Vec::new() }
}

/// Calls the subagent: prepares the run, drives its agent and reports.
fn execute(
    tool: &SubagentTool<EchoSubagent>,
    provider: &mut Scripted,
    manager: &mut SessionAdapter,
    params: Json,
) -> Result<ToolResult, ToolError> {
    let planned = tool.prepare(manager, params)?;
    let mut ext = chain();
    let state = AgentState {
        model: model(),
        tools: planned.tools,
        session: manager.get(&planned.id).unwrap().messages().clone(),
    };
    let (mut run, mut action) = AgentRun::prompt(state, vec!["p".to_string()], planned.prompt);
    let mut chunk = None;
    let outcome = loop {
        let event = match action {
            Action::Hook(call) => Event::Hooked(ext.handle(call)),
            Action::Append(message) => Event::Appended(manager.append_to(&planned.id, message)),
            Action::Stream { messages, .. } => {
                provider.seen_counts.push(messages.len());
                let texts: Vec<&str> = messages
                    .iter()
                    .flat_map(|m| {
                        m.content.iter().filter_map(|b| match b {
                            ContentBlock::Text(t) => Some(t.content.as_str()),
                            _ => None,
                        })
                    })
                    .collect();
                provider.seen_texts.push(texts.join("|"));
                let message = provider
                    .turns
                    .pop_front()
                    .unwrap_or_else(|| Message::text("assistant", String::new()));
                chunk = Some(StreamResponse {
                    message,
                    usage: TokenUsage::zero(),
                    stop_reason: Some("stop".to_string()),
                });
                Event::Opened(Ok(()))
            }
            Action::NextChunk => Event::Chunk(chunk.take()),
            Action::Execute { name, arguments } => {
                assert_eq!(name, YIELD_TOOL);
                Event::Executed(Ok(YieldTool::execute(&mut ext.b.b.yielded, arguments)))
            }
            Action::Finish(outcome) => break outcome,
        };
        assert!(run.accepts(&event));
        action = run.step(event);
    };
    Ok(SubagentTool::<EchoSubagent>::report(&planned.id, ext.b.b.yielded.take(), outcome))
}

fn tool_call(name: &str, arguments: Json) -> Message {
    Message {
        role: "assistant".to_string(),
        content: vec![ContentBlock::ToolCall(ToolCall {
            id: "call".to_string(),
            name: name.to_string(),
            arguments,
        })],
    }
}

fn text_result(result: &ToolResult) -> String {
    result
        .content
        .iter()
        .filter_map(|c| match c {
            ToolResultContent::Text(t) => Some(t.content.clone()),
            _ => None,
        })
        .collect::<Vec<_>>()
        .join("")
}

fn parse(result: &ToolResult) -> Json {
    Json::parse(&text_result(result)).expect("result is JSON")
}

fn session_id(result: &ToolResult) -> String {
    parse(result).get("session_id").and_then(|v| v.as_str()).unwrap().to_string()
}

#[test]
fn spawn_forks_fresh_branch_each_call() {
    let mut provider = scripted(vec![
        tool_call(YIELD_TOOL, json(r#"{"result": "a"}"#)),
        tool_call(YIELD_TOOL, json(r#"{"result": "b"}"#)),
    ]);
    let tool = echo(None);
    let mut mgr = manager();
    let r1 = execute(&tool, &mut provider, &mut mgr, json(r#"{"input": "q1"}"#)).unwrap();
    let r2 = execute(&tool, &mut provider, &mut mgr, json(r#"{"input": "q2"}"#)).unwrap();
    assert_ne!(session_id(&r1), session_id(&r2), "two spawns get distinct session ids");
}

#[test]
fn stop_drops_inherited_prefix_from_provider_view() {
    let mut mgr = manager();
    mgr.append(Message::text("user", "main secret".to_string())).unwrap();

    let mut provider = scripted(vec![tool_call(YIELD_TOOL, json(r#"{"result": "x"}"#))]);
    let tool = echo(None);
    execute(&tool, &mut provider, &mut mgr, json(r#"{"input": "q"}"#)).unwrap();

    let views = &provider.seen_texts;
    assert!(!views.is_empty(), "the subagent made at least one provider call");
    assert!(
        !views.iter().any(|v| v.contains("main secret")),
        "inherited main prefix must be dropped from the provider view: {views:?}"
    );
}

#[test]
fn yield_captures_result_and_stamps_session_id() {
    let mut provider = scripted(vec![tool_call(YIELD_TOOL, json(r#"{"result": "the answer"}"#))]);
    let tool = echo(None);
    let result = execute(&tool, &mut provider, &mut manager(), json(r#"{"input": "q"}"#)).unwrap();
    assert!(!result.is_error);
    let parsed = parse(&result);
    assert_eq!(parsed.get("result").and_then(|v| v.as_str()), Some("the answer"));
    assert!(
        parsed.get("session_id").and_then(|v| v.as_str()).is_some(),
        "session_id is stamped for resume"
    );
}

#[test]
fn output_schema_denial_is_retried() {
    let mut provider = scripted(vec![
        tool_call(YIELD_TOOL, json(r#"{"x": "not-an-int"}"#)),
        tool_call(YIELD_TOOL, json(r#"{"x": 7}"#)),
    ]);
    let tool = echo(Some(json(
        r#"{"type": "object", "properties": {"x": {"type": "integer"}}, "required": ["x"]}"#,
    )));
    let result = execute(&tool, &mut provider, &mut manager(), json(r#"{"input": "q"}"#)).unwrap();
    assert!(!result.is_error);
    assert_eq!(parse(&result).get("x").and_then(|v| v.as_u64()), Some(7));
}

#[test]
fn ending_without_yielding_is_an_error() {
    let mut provider = scripted(vec![Message::text("assistant", "I give up".to_string())]);
    let tool = echo(None);
    let result = execute(&tool, &mut provider, &mut manager(), json(r#"{"input": "q"}"#)).unwrap();
    assert!(result.is_error, "a run with no yield must surface as an error");
    assert!(text_result(&result).contains("without yielding"));
}

#[test]
fn resume_reopens_same_branch_and_keeps_context() {
    let mut provider = scripted(vec![
        tool_call(YIELD_TOOL, json(r#"{"result": "r1"}"#)),
        tool_call(YIELD_TOOL, json(r#"{"result": "r2"}"#)),
    ]);
    let tool = echo(None);
    let mut mgr = manager();

    let r1 = execute(&tool, &mut provider, &mut mgr, json(r#"{"input": "q1"}"#)).unwrap();
    let sid = session_id(&r1);

    let again = json(r#"{"input": "q2"}"#).with("session_id", Json::Str(sid.clone()));
    let r2 = execute(&tool, &mut provider, &mut mgr, again).unwrap();
    assert!(!r2.is_error);
    assert_eq!(session_id(&r2), sid, "resume echoes the same session id");
    assert_eq!(parse(&r2).get("result").and_then(|v| v.as_str()), Some("r2"));

    let counts = &provider.seen_counts;
    assert!(counts.len() >= 2, "provider streamed at least twice: {counts:?}");
    assert!(counts[1] > counts[0], "resume saw prior context: {counts:?}");

    let seeded = tool.subagent.seeded_resume.borrow();
    assert_eq!(*seeded, vec![false, true], "first call spawns, second resumes");
}

#[test]
fn unknown_session_id_spawns_fresh() {
    let mut provider = scripted(vec![
        tool_call(YIELD_TOOL, json(r#"{"result": "r1"}"#)),
        tool_call(YIELD_TOOL, json(r#"{"result": "r2"}"#)),
    ]);
    let tool = echo(None);
    let mut mgr = manager();
    let r1 = execute(&tool, &mut provider, &mut mgr, json(r#"{"input": "q1"}"#)).unwrap();
    let sid1 = session_id(&r1);

    let r2 = execute(
        &tool,
        &mut provider,
        &mut mgr,
        json(r#"{"input": "q2", "session_id": "never-seen"}"#),
    )
    .unwrap();
    let sid2 = session_id(&r2);
    assert_ne!(sid2, sid1);
    assert_ne!(sid2, "never-seen");
}

#[test]
fn definition_merges_session_id() {
    let tool = echo(None);
    let params = tool.definition().parameters;
    let declared = params.get("properties").and_then(|p| p.get("session_id")).and_then(|p| p.get("type"));
    assert!(declared.and_then(|t| t.as_str()).is_some(), "session_id is a declared parameter");
    assert_eq!(tool.definition().name, "echo");
}

#[test]
fn registers_as_a_named_handler() {
    let mut registry = ToolRegistry::new();
    register(&mut registry, echo(None).subagent);
    assert!(registry.get("echo").is_some());
    assert_eq!(registry.definitions().len(), 1);
}

#[test]
fn a_seed_that_refuses_is_the_error_of_the_call() {
    let mut mgr = manager();
    let refused =
        execute(&echo(None), &mut scripted(vec![]), &mut mgr, json(r#"{"refuse": true}"#));
    assert_eq!(refused, Err(ToolError::Validation("refused".to_string())));
}

#[test]
fn the_first_yield_counts() {
    let mut slot = None;
    let said = YieldTool::execute(&mut slot, Json::UInt(1));
    YieldTool::execute(&mut slot, Json::UInt(2));
    assert_eq!(slot, Some(Json::UInt(1)));
    assert_eq!(text_result(&said), "yielded");
    let spec = YieldTool::new(default_yield_schema());
    assert_eq!(spec.definition.name, YIELD_TOOL);
    assert!(spec.definition.parameters.get("properties").unwrap().get("result").is_some());
}

#[test]
fn a_failed_fork_is_reported_in_words() {
    let e = SubagentTool::<EchoSubagent>::fork_failed(&SessionError::Failed {
        message: "gone".to_string(),
    });
    assert_eq!(
        e,
        ToolError::Execution("failed to fork subagent session: session error: gone".to_string())
    );
}

#[test]
fn only_object_schemas_take_a_session_id() {
    assert_eq!(with_session_id(Json::Bool(true)), Json::Bool(true));
    let bare = with_session_id(json("{}"));
    assert!(bare.get("properties").unwrap().get("session_id").is_some());
}
