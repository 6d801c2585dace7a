use akasha::agent::{Action, AgentError, AgentRun, Event};
use akasha::extensions::{AgentState, Extension, ExtensionError};
use akasha::io::{show_outcome, IoExtension, OutputEvent};
use akasha::providers::{Model, StreamResponse};
use akasha::tools::{ToolError, ToolRegistry};
use akasha::types::{ContentBlock, Message, TextContent, TokenUsage, ToolResult, ToolResultContent};

fn assistant(text: &str) -> Message {
    Message::text("assistant", text.to_string())
}

fn user(text: &str) -> Message {
    Message::text("user", text.to_string())
}

fn model() -> Model {
    Model {
        id: "m".to_string(),
        provider: "p".to_string(),
        context_window: 0,
        base_url: String::new(),
        headers: Vec::new(),
    }
}

fn reply() -> StreamResponse {
    StreamResponse {
        message: assistant("reply"),
        usage: TokenUsage::zero(),
        stop_reason: Some("stop".to_string()),
    }
}

fn expect_append_text(ev: &OutputEvent, expect: &str) {
    match ev {
        OutputEvent::Append(ContentBlock::Text(t)) => assert_eq!(t.content, expect),
        _ => panic!("expected Append(Text)"),
    }
}

/// Goes on until the run has finished a turn, and hands back what the next action is.
fn one_turn(run: &mut AgentRun, io: &mut IoExtension, first: Action) -> Action {
    let mut action = first;
    let mut chunk = None;
    let turns = io.outbox.iter().filter(|e| matches!(e, OutputEvent::Finish)).count();
    loop {
        if io.outbox.iter().filter(|e| matches!(e, OutputEvent::Finish)).count() > turns {
            return action;
        }
        let event = match action {
            Action::Hook(call) => Event::Hooked(io.handle(call)),
            Action::Append(_) => Event::Appended(Ok(())),
            Action::Stream { .. } => {
                chunk = Some(reply());
                Event::Opened(Ok(()))
            }
            Action::NextChunk => Event::Chunk(chunk.take()),
            Action::Execute { .. } => unreachable!(),
            Action::Finish(_) => return action,
        };
        assert!(run.accepts(&event));
        action = run.step(event);
    }
}

#[test]
fn streams_output_gates_on_finish_and_feeds_next_turn() {
    let mut io = IoExtension::new();
    let state = AgentState { model: model(), tools: ToolRegistry::new(), session: Vec::new() };
    let (mut run, action) = AgentRun::prompt(state, vec!["p".to_string()], user("hello"));
    io.inbox.push(user("again"));

    let action = one_turn(&mut run, &mut io, action);
    expect_append_text(&io.outbox[0], "reply");
    assert!(matches!(io.outbox[1], OutputEvent::Finish), "expected Finish after the turn");

    let end = one_turn(&mut run, &mut io, action);
    expect_append_text(&io.outbox[2], "reply");
    assert!(matches!(io.outbox[3], OutputEvent::Finish), "turn 2 also finishes");
    assert_eq!(io.outbox.len(), 4);
    let texts: Vec<&str> = run.state.session.iter().map(|m| m.role.as_str()).collect();
    assert_eq!(texts, ["user", "assistant", "user", "assistant"]);
    assert!(matches!(end, Action::Finish(Err(AgentError::Extension(_)))), "nothing more to say");
}

#[test]
fn tool_execution_end_emits_tool_end_and_passes_through() {
    let mut ext = IoExtension::new();

    let ok = ToolResult {
        tool_call_id: None,
        content: vec![ToolResultContent::Text(TextContent { content: "ok".to_string() })],
        is_error: false,
    };
    let out = ext.tool_execution_end("c1", Ok(ok.clone())).unwrap().unwrap();
    assert_eq!(out.content, ok.content);
    match &ext.outbox[0] {
        OutputEvent::ToolEnd { id, result } => {
            assert_eq!(id, "c1");
            assert!(!result.is_error);
        }
        _ => panic!("expected ToolEnd for the ok result"),
    }

    let err = ext.tool_execution_end("c2", Err(ToolError::Execution("boom".to_string())));
    assert!(err.is_ok(), "passthrough wraps the inner Err in Ok");
    assert!(matches!(err.unwrap(), Err(ToolError::Execution(_))));
    match &ext.outbox[1] {
        OutputEvent::ToolEnd { id, result } => {
            assert_eq!(id, "c2");
            assert!(result.is_error, "failure surfaces as an error result");
        }
        _ => panic!("expected ToolEnd for the err result"),
    }

    assert_eq!(ext.outbox.len(), 2, "no further events emitted");
}

#[test]
fn a_transport_that_is_gone_ends_the_agent() {
    let mut io = IoExtension::new();
    io.open = false;
    match io.on_message_update(&reply()) {
        Err(ExtensionError::ExtensionFailed { name, .. }) => assert_eq!(name, "io"),
        other => panic!("unexpected {other:?}"),
    }
    assert!(io.tool_execution_end("c", Err(ToolError::Aborted)).is_err());
    assert!(io.outbox.is_empty());
    assert_eq!(io.name(), "io");
}

#[test]
fn a_failed_tool_is_shown_in_words() {
    let shown = show_outcome("c9", &Err(ToolError::Execution("boom".to_string())));
    assert!(shown.is_error);
    assert_eq!(shown.tool_call_id.as_deref(), Some("c9"));
    match &shown.content[0] {
        ToolResultContent::Text(t) => assert!(t.content.contains("boom")),
        _ => panic!("expected text"),
    }
}
