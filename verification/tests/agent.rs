use std::collections::VecDeque;

use akasha::agent::{Action, AgentError, AgentRun, Event};
use akasha::combinator::LabelExt;
use akasha::extensions::{AgentState, Extension, ExtensionError, NoopExtension};
use akasha::json::Json;
use akasha::providers::{Model, ProviderError, Registry, StreamResponse};
use akasha::session::{InMemorySession, SessionError};
use akasha::tools::{ToolError, ToolRegistry, ToolSpec};
use akasha::types::{
    extract_text, tool_calls, ContentBlock, Message, TextContent, TokenUsage, ToolCall,
    ToolDefinition, ToolResult,
};

fn model(provider: &str) -> Model {
    Model {
        id: "m".to_string(),
        provider: provider.to_string(),
        context_window: 0,
        base_url: String::new(),
        headers: Vec::new(),
    }
}

fn user(text: &str) -> Message {
    Message::text("user", text.to_string())
}

fn assistant(text: &str) -> Message {
    Message::text("assistant", text.to_string())
}

fn call(id: &str, name: &str) -> Message {
    Message {
        role: "assistant".to_string(),
        content: vec![ContentBlock::ToolCall(ToolCall {
            id: id.to_string(),
            name: name.to_string(),
            arguments: Json::Null,
        })],
    }
}

fn echo_registry() -> ToolRegistry {
    let mut tools = ToolRegistry::new();
    tools.register(ToolSpec {
        definition: ToolDefinition {
            name: "echo".to_string(),
            description: String::new(),
            parameters: Json::Null,
        },
        output: None,
    });
    tools
}

fn chunk(message: Message) -> StreamResponse {
    StreamResponse { message, usage: TokenUsage::zero(), stop_reason: None }
}

/// What a scripted world answers.
struct World {
    turns: VecDeque<Vec<StreamResponse>>,
    results: VecDeque<Result<ToolResult, ToolError>>,
    refuse_append: bool,
    refuse_stream: bool,
    shown: Vec<Vec<Message>>,
}

fn world(turns: Vec<Vec<StreamResponse>>) -> World {
    World {
        turns: turns.into(),
        results: VecDeque::new(),
        refuse_append: false,
        refuse_stream: false,
        shown: Vec::new(),
    }
}

fn run<E: Extension>(
    state: AgentState,
    ext: &mut E,
    world: &mut World,
) -> (AgentState, Result<(), AgentError>) {
    let mut chunks: VecDeque<StreamResponse> = VecDeque::new();
    let (mut run, mut action) = AgentRun::prompt(state, vec!["p".to_string()], user("go"));
    loop {
        let event = match action {
            Action::Hook(call) => Event::Hooked(ext.handle(call)),
            Action::Append(_) => Event::Appended(if world.refuse_append {
                Err(SessionError::Failed { message: "full".to_string() })
            } else {
                Ok(())
            }),
            Action::Stream { messages, .. } => {
                world.shown.push(messages);
                if world.refuse_stream {
                    Event::Opened(Err(ProviderError::RateLimited))
                } else {
                    chunks = world.turns.pop_front().unwrap_or_default().into();
                    Event::Opened(Ok(()))
                }
            }
            Action::NextChunk => Event::Chunk(chunks.pop_front()),
            Action::Execute { .. } => {
                Event::Executed(world.results.pop_front().unwrap_or(Err(ToolError::Aborted)))
            }
            Action::Finish(outcome) => return (run.state, outcome),
        };
        assert!(run.accepts(&event));
        action = run.step(event);
    }
}

fn start(provider: &str) -> AgentState {
    AgentState { model: model(provider), tools: echo_registry(), session: Vec::new() }
}

#[test]
fn chunks_merge_into_one_reply() {
    let mut w = world(vec![vec![chunk(assistant("Hel")), chunk(assistant("lo"))]]);
    let (after, outcome) = run(start("p"), &mut NoopExtension, &mut w);
    assert_eq!(outcome, Ok(()));
    assert_eq!(after.session.len(), 2);
    assert_eq!(after.session[0], user("go"));
    assert_eq!(extract_text(&after.session[1].content), "Hello");
}

#[test]
fn tool_results_are_appended_in_the_order_of_the_calls() {
    let two = Message {
        role: "assistant".to_string(),
        content: vec![call("c1", "echo").content[0].clone(), call("c2", "echo").content[0].clone()],
    };
    let mut w = world(vec![vec![chunk(two)], vec![chunk(assistant("done"))]]);
    w.results.push_back(Ok(ToolResult::text("one".to_string(), false)));
    w.results.push_back(Ok(ToolResult::text("two".to_string(), true)));
    let (after, outcome) = run(start("p"), &mut NoopExtension, &mut w);
    assert_eq!(outcome, Ok(()));
    let roles: Vec<&str> = after.session.iter().map(|m| m.role.as_str()).collect();
    assert_eq!(roles, ["user", "assistant", "tool", "tool", "assistant"]);
    match (&after.session[2].content[0], &after.session[3].content[0]) {
        (ContentBlock::ToolResult(a), ContentBlock::ToolResult(b)) => {
            assert_eq!(a.tool_call_id.as_deref(), Some("c1"));
            assert_eq!(b.tool_call_id.as_deref(), Some("c2"));
            assert!(b.is_error);
        }
        _ => panic!("expected results"),
    }
    assert_eq!(w.shown.len(), 2);
    assert_eq!(w.shown[1].len(), 4);
}

#[test]
fn a_model_without_a_provider_ends_the_run() {
    let (after, outcome) = run(start("nobody"), &mut NoopExtension, &mut world(vec![]));
    match outcome {
        Err(e) => assert_eq!(e.words(), "no provider registered for 'nobody'"),
        Ok(()) => panic!("expected an error"),
    }
    assert_eq!(after.session, vec![user("go")]);
}

#[test]
fn an_unknown_tool_ends_the_run() {
    let mut w = world(vec![vec![chunk(call("c", "missing"))]]);
    let (_, outcome) = run(start("p"), &mut NoopExtension, &mut w);
    match outcome {
        Err(e) => assert_eq!(e.words(), "tool error: no handler registered for tool 'missing'"),
        Ok(()) => panic!("expected an error"),
    }
}

#[test]
fn a_failed_tool_ends_the_run() {
    let mut w = world(vec![vec![chunk(call("c", "echo"))]]);
    w.results.push_back(Err(ToolError::Execution("boom".to_string())));
    let (_, outcome) = run(start("p"), &mut NoopExtension, &mut w);
    let words = outcome.unwrap_err().words();
    assert!(words.starts_with("tool error: tool 'echo' execution failed: "), "{words}");
    assert!(words.contains("boom"));
}

#[test]
fn refusals_of_provider_session_and_extension_are_told_apart() {
    let mut w = world(vec![]);
    w.refuse_stream = true;
    let (_, outcome) = run(start("p"), &mut NoopExtension, &mut w);
    assert_eq!(outcome, Err(AgentError::Provider(ProviderError::RateLimited)));

    let mut w = world(vec![]);
    w.refuse_append = true;
    let (_, outcome) = run(start("p"), &mut NoopExtension, &mut w);
    assert!(matches!(outcome, Err(AgentError::Session(_))));

    let (_, outcome) = run(start("p"), &mut LabelExt::fail("l"), &mut world(vec![]));
    match outcome {
        Err(AgentError::Extension(ExtensionError::ExtensionFailed { name, .. })) => {
            assert_eq!(name, "l")
        }
        other => panic!("unexpected {other:?}"),
    }
}

#[test]
fn a_denied_call_is_answered_with_the_reason() {
    let mut w = world(vec![vec![chunk(call("c7", "echo"))], vec![chunk(assistant("ok"))]]);
    let (after, outcome) = run(start("p"), &mut LabelExt::deny("l", "not now"), &mut w);
    assert_eq!(outcome, Ok(()));
    match &after.session[2].content[0] {
        ContentBlock::ToolResult(r) => {
            assert!(r.is_error);
            assert_eq!(r.tool_call_id.as_deref(), Some("c7"));
            assert_eq!(
                *r,
                ToolResult::for_call(Some("c7".to_string()), "not now".to_string(), true)
            );
        }
        _ => panic!("expected a result"),
    }
}

#[test]
fn usage_and_blocks_are_merged() {
    let mut all = StreamResponse::new();
    let mut first = chunk(Message {
        role: "assistant".to_string(),
        content: vec![ContentBlock::Reasoning(TextContent { content: "hm".to_string() })],
    });
    first.usage.input_tokens = 3;
    all.merge(first);
    let mut second = chunk(assistant("a"));
    second.stop_reason = Some("stop".to_string());
    second.usage.output_tokens = 5;
    all.merge(second);
    all.merge(chunk(assistant("b")));
    assert_eq!(all.message.content.len(), 2);
    assert_eq!(extract_text(&all.message.content), "ab");
    assert_eq!(all.stop_reason.as_deref(), Some("stop"));
}

#[test]
fn words_of_errors() {
    assert_eq!(ProviderError::RateLimited.words(), "rate limited");
    assert_eq!(ProviderError::ContextExceeded(7).words(), "context window exceeded: 7 tokens");
    assert_eq!(
        AgentError::Session(SessionError::Failed { message: "full".to_string() }).words(),
        "session error: session error: full"
    );
    assert_eq!(AgentError::Aborted.words(), "agent aborted");
}

#[test]
fn a_session_keeps_what_was_appended() {
    let mut s = InMemorySession::new();
    s.append(user("a")).unwrap();
    s.append(assistant("b")).unwrap();
    assert_eq!(*s.messages(), vec![user("a"), assistant("b")]);
    assert_eq!(InMemorySession::of(vec![user("z")]).messages().len(), 1);
}

#[test]
fn a_registry_replaces_by_name() {
    let mut r: Registry<u8> = Registry::new();
    r.register("a", 1);
    r.register("a", 2);
    assert_eq!(r.get("a"), Some(&2));
    assert_eq!(r.get("b"), None);

    let tools = echo_registry();
    assert!(tools.contains("echo"));
    assert_eq!(tools.subset(&vec!["nope".to_string()]).len(), 0);
    assert_eq!(tool_calls(&call("c", "echo").content).len(), 1);
}
