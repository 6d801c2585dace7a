use akasha::agent::{Action, AgentRun, Event};
use akasha::extensions::{AgentState, Extension};
use akasha::io::{IoExtension, OutputEvent};
use akasha::json::Json;
use akasha::providers::{Model, ProviderError, StreamResponse};
use akasha::tools::{ToolRegistry, ToolSpec};
use akasha::transcript::{Block, ToolCallView, ToolStatus, Transcript, TurnId, TurnStatus};
use akasha::types::{
    ContentBlock, Message, TextContent, TokenUsage, ToolCall, ToolDefinition, ToolResult,
};
use akasha::viewmodel::{AgentId, FanEvent, RouteError, Step, ViewModel};

fn text(t: &str) -> ContentBlock {
    ContentBlock::Text(TextContent { content: t.into() })
}

fn tool_call(id: &str) -> ContentBlock {
    ContentBlock::ToolCall(ToolCall {
        id: id.into(),
        name: "n".into(),
        arguments: Json::parse("{}").unwrap(),
    })
}

#[test]
fn append_accumulates_text_and_reasoning_separately() {
    let mut t = Transcript::new();
    t.append(text("Hello"));
    t.append(text(", world"));
    t.append(ContentBlock::Reasoning(TextContent { content: "thinking".into() }));
    t.append(text("after"));

    let turn = &t.turns[0];
    assert_eq!(turn.blocks.len(), 3);
    assert!(matches!(&turn.blocks[0], Block::Text(t) if t.content == "Hello, world"));
    assert!(matches!(&turn.blocks[1], Block::Reasoning(r) if r.content == "thinking"));
    assert!(matches!(&turn.blocks[2], Block::Text(t) if t.content == "after"));
}

#[test]
fn finish_then_append_opens_a_new_turn() {
    let mut t = Transcript::new();
    t.append(text("first"));
    t.finish_turn();
    t.append(text("second"));

    assert_eq!(t.turns.len(), 2);
    assert_eq!(t.turns[0].id, TurnId(0));
    assert_eq!(t.turns[0].status, TurnStatus::Finished);
    assert_eq!(t.turns[1].id, TurnId(1));
    assert_eq!(t.turns[1].status, TurnStatus::Streaming);
}

#[test]
fn tool_end_marks_error_and_success_results() {
    let mut t = Transcript::new();
    t.append(tool_call("x"));
    assert!(matches!(
        &t.turns[0].blocks[0],
        Block::ToolCall(ToolCallView { status: ToolStatus::Running, result: None, .. })
    ));

    t.tool_end("x", ToolResult { tool_call_id: None, content: vec![], is_error: true });
    assert!(matches!(
        &t.turns[0].blocks[0],
        Block::ToolCall(ToolCallView { status: ToolStatus::Error, result: Some(r), .. }) if r.is_error
    ));
}

#[test]
fn finish_turn_closes_running_tools() {
    let mut t = Transcript::new();
    t.append(tool_call("y"));
    t.finish_turn();
    assert!(matches!(
        &t.turns[0].blocks[0],
        Block::ToolCall(ToolCallView { status: ToolStatus::Done, .. })
    ));
}

/// What a run sends, up to where it waits for the next prompt or ends.
fn events_of(messages: Vec<Message>, fails: bool) -> Vec<FanEvent> {
    let mut tools = ToolRegistry::new();
    tools.register(ToolSpec {
        definition: ToolDefinition {
            name: "search".into(),
            description: "stub".into(),
            parameters: Json::parse(r#"{"type":"object"}"#).unwrap(),
        },
        output: None,
    });
    let state = AgentState {
        model: Model {
            id: "m".into(),
            provider: "p".into(),
            context_window: 0,
            base_url: String::new(),
            headers: Vec::new(),
        },
        tools,
        session: Vec::new(),
    };
    let mut io = IoExtension::new();
    let mut turns = messages.into_iter();
    let mut chunk = None;
    let (mut run, mut action) =
        AgentRun::prompt(state, vec!["p".to_string()], Message::text("user", "go".to_string()));
    loop {
        let event = match action {
            Action::Hook(call) => Event::Hooked(io.handle(call)),
            Action::Append(_) => Event::Appended(Ok(())),
            Action::Stream { .. } => {
                if fails {
                    Event::Opened(Err(ProviderError::RequestFailed("boom".into())))
                } else {
                    chunk = Some(StreamResponse {
                        message: turns.next().unwrap(),
                        usage: TokenUsage::zero(),
                        stop_reason: None,
                    });
                    Event::Opened(Ok(()))
                }
            }
            Action::NextChunk => Event::Chunk(chunk.take()),
            Action::Execute { .. } => {
                Event::Executed(Ok(ToolResult::text("result".to_string(), false)))
            }
            Action::Finish(_) => break,
        };
        assert!(run.accepts(&event));
        action = run.step(event);
    }
    let mut out: Vec<FanEvent> = io.outbox.into_iter().map(FanEvent::Output).collect();
    if fails {
        out.push(FanEvent::Ended);
    }
    out
}

fn toolcall_msg(id: &str, name: &str) -> Message {
    Message {
        role: "assistant".into(),
        content: vec![ContentBlock::ToolCall(ToolCall {
            id: id.into(),
            name: name.into(),
            arguments: Json::parse(r#"{"q":"x"}"#).unwrap(),
        })],
    }
}

fn text_msg(text: &str) -> Message {
    Message::text("assistant", text.to_string())
}

fn last_tool(vm: &ViewModel, id: AgentId) -> &ToolCallView {
    vm.transcript(id)
        .and_then(|t| t.turns.last())
        .and_then(|t| {
            t.blocks.iter().find_map(|b| match b {
                Block::ToolCall(tc) => Some(tc),
                _ => None,
            })
        })
        .expect("a tool block")
}

fn turn_text(vm: &ViewModel, id: AgentId, turn: usize) -> String {
    vm.transcript(id).unwrap().turns[turn]
        .blocks
        .iter()
        .find_map(|b| match b {
            Block::Text(t) => Some(t.content.clone()),
            _ => None,
        })
        .unwrap()
}

/// Reduces a whole turn of one text, and acknowledges it where it waits.
fn finish_turn(vm: &mut ViewModel, id: AgentId, said: &str) {
    for event in events_of(vec![text_msg(said)], false) {
        if let Some(Step::TurnFinished { id }) = vm.step(id, event).step {
            vm.ack(id);
        }
    }
}

#[test]
fn reduces_a_turn_with_a_tool_call() {
    let mut vm = ViewModel::new();
    let id = vm.start();
    let mut events = events_of(vec![toolcall_msg("t1", "search"), text_msg("all done")], false).into_iter();

    assert_eq!(vm.step(id, events.next().unwrap()).step, Some(Step::Updated { id }));
    assert_eq!(last_tool(&vm, id).call.name, "search");
    assert_eq!(last_tool(&vm, id).status, ToolStatus::Running);
    assert_eq!(vm.transcript(id).unwrap().turns.len(), 1);

    assert_eq!(vm.step(id, events.next().unwrap()).step, Some(Step::Updated { id }));
    assert_eq!(last_tool(&vm, id).status, ToolStatus::Done);
    assert!(last_tool(&vm, id).result.as_ref().is_some_and(|r| !r.is_error));

    assert_eq!(vm.step(id, events.next().unwrap()).step, Some(Step::Updated { id }));
    assert_eq!(turn_text(&vm, id, 0), "all done");

    assert_eq!(vm.step(id, events.next().unwrap()).step, Some(Step::TurnFinished { id }));
    assert_eq!(vm.transcript(id).unwrap().turns[0].status, TurnStatus::Finished);
    assert!(vm.ack(id));
    assert!(!vm.ack(id), "one acknowledgement per turn");
    assert!(events.next().is_none());
}

#[test]
fn two_agents_reduce_independently() {
    let mut vm = ViewModel::new();
    let a = vm.start();
    let b = vm.start();
    assert_ne!(a, b);
    vm.attach(a, false);

    let from_a = events_of(vec![text_msg("hello from A")], false);
    let from_b = events_of(vec![text_msg("hello from B")], false);
    let mut finished = Vec::new();
    for (ea, eb) in from_a.into_iter().zip(from_b) {
        for (id, event) in [(a, ea), (b, eb)] {
            if let Some(Step::TurnFinished { id }) = vm.step(id, event).step {
                finished.push(id);
                vm.ack(id);
            }
        }
    }
    assert!(finished.contains(&a) && finished.contains(&b), "both runs should finish a turn");

    assert_eq!(turn_text(&vm, a, 0), "hello from A");
    assert_eq!(turn_text(&vm, b, 0), "hello from B");
}

#[test]
fn single_focus_input_displacement() {
    let mut vm = ViewModel::new();
    let a = vm.start();
    assert_eq!(vm.focus(), Some(a));
    finish_turn(&mut vm, a, "A reply");

    let b = vm.start();
    assert_eq!(vm.focus(), Some(b), "starting B should displace focus from A");
    finish_turn(&mut vm, b, "B reply");

    assert_eq!(vm.route(), Ok(b), "a message goes to the focus");
    finish_turn(&mut vm, b, "B reply");

    assert_eq!(vm.transcript(a).unwrap().turns.len(), 1, "A never received the second message");
    assert_eq!(vm.transcript(b).unwrap().turns.len(), 2, "B received both turns");
}

#[test]
fn output_detach_keeps_reducing_and_auto_acks() {
    let mut vm = ViewModel::new();
    let id = vm.start();
    vm.detach(id, true);
    assert!(!vm.is_output_attached(id));
    assert_eq!(vm.focus(), None);

    let mut events = events_of(vec![text_msg("turn one")], false).into_iter();
    assert_eq!(vm.step(id, events.next().unwrap()).step, Some(Step::Updated { id }));
    let reduced = vm.step(id, events.next().unwrap());
    assert_eq!(reduced.step, Some(Step::Updated { id }));
    assert!(reduced.ack_now, "nothing renders the turn");
    assert_eq!(
        vm.transcript(id).unwrap().turns.len(),
        1,
        "transcript still accumulates while detached"
    );
    assert_eq!(vm.transcript(id).unwrap().turns[0].status, TurnStatus::Finished);
}

#[test]
fn detach_output_keeps_transcript_intact_for_reattach() {
    let mut vm = ViewModel::new();
    let id = vm.start();
    finish_turn(&mut vm, id, "turn one");
    assert_eq!(vm.transcript(id).unwrap().turns.len(), 1);

    vm.detach(id, true);
    assert!(!vm.is_output_attached(id));
    assert_eq!(vm.transcript(id).unwrap().turns.len(), 1, "transcript preserved while detached");

    vm.attach(id, false);
    assert!(vm.is_output_attached(id));
    assert_eq!(vm.transcript(id).unwrap().turns.len(), 1, "full history visible on re-attach");
    assert_eq!(vm.transcript(id).unwrap().turns[0].status, TurnStatus::Finished);
}

#[test]
fn agent_ended_retains_transcript_then_stop_cleans_up() {
    let mut vm = ViewModel::new();
    let id = vm.start();
    assert!(vm.is_running(id));

    let mut events = events_of(vec![], true).into_iter();
    assert_eq!(vm.step(id, events.next().unwrap()).step, Some(Step::AgentEnded { id }));
    assert!(!vm.is_running(id), "marked ended");
    assert_eq!(vm.focus(), None, "focus cleared on exit");
    assert!(vm.transcript(id).is_some(), "transcript retained for scrollback");

    vm.stop(id);
    assert!(vm.transcript(id).is_none(), "stop drops the transcript");
    assert!(vm.ids().is_empty(), "stop removes the run");
}

#[test]
fn without_a_focus_nothing_can_be_said() {
    let mut vm = ViewModel::new();
    assert_eq!(vm.route(), Err(RouteError::NoFocus));
    assert_eq!(RouteError::NoFocus.words(), "no agent is input-focused");
    assert_eq!(RouteError::Closed.words(), "agent channel closed");
    let unknown = AgentId(77);
    assert_eq!(vm.step(unknown, FanEvent::Ended).step, None);
    assert!(!vm.stop(unknown));
}

#[test]
fn a_finished_turn_waits_for_one_acknowledgement() {
    let mut vm = ViewModel::new();
    let id = vm.start();
    vm.step(id, FanEvent::Output(OutputEvent::Append(text("x"))));
    let reduced = vm.step(id, FanEvent::Output(OutputEvent::Finish));
    assert_eq!(reduced.step, Some(Step::TurnFinished { id }));
    assert!(!reduced.ack_now);
    assert!(vm.ack(id));
    assert!(!vm.ack(id));
}

/// Every run that is held is listed once, whether or not it is over.
#[test]
fn every_held_run_is_listed_once() {
    let mut vm = ViewModel::new();
    let mut started = vec![vm.start(), vm.start(), vm.start()];
    vm.step(started[1], FanEvent::Ended);
    vm.stop(started[0]);
    let mut listed: Vec<u64> = vm.ids().iter().map(|id| id.0).collect();
    listed.sort();
    started.remove(0);
    assert_eq!(listed, vec![started[0].0, started[1].0]);
}

#[test]
fn a_number_is_not_given_twice_where_turns_are_dropped() {
    let mut t = Transcript::new();
    t.append(text("first"));
    t.finish_turn();
    t.turns.clear();
    t.append(text("second"));
    assert_eq!(t.turns[0].id, TurnId(1));
}

#[test]
fn a_turn_shows_the_text_that_merging_keeps() {
    let mut shown = Transcript::new();
    let mut kept = StreamResponse::new();
    for piece in ["Hel", "lo", ", ", "world"] {
        shown.append(text(piece));
        kept.merge(StreamResponse {
            message: Message { role: "assistant".into(), content: vec![text(piece)] },
            usage: TokenUsage::zero(),
            stop_reason: None,
        });
    }
    assert_eq!(kept.message.content, vec![text("Hello, world")]);
    assert!(matches!(&shown.turns[0].blocks[0], Block::Text(t) if t.content == "Hello, world"));
}
