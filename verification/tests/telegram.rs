use akasha::extensions::{AgentState, Extension, ExtensionError, ToolCallDecision};
use akasha::json::Json;
use akasha::providers::{Model, StreamResponse};
use akasha::telegram::{
    clip_note, is_allowed, message_after, render_turn, switch_prompt, text_prompt, tool_notice,
    ChatBuffer, ChatView, Plan, Reaction, StreamEvent, BUFFER_CHARS, MESSAGE_CHARS, NOTE_BYTES,
    THROTTLE_MILLIS,
};
use akasha::telegram_bridge::TelegramExtension;
use akasha::tools::ToolRegistry;
use akasha::transcript::Transcript;
use akasha::types::{ContentBlock, Message, TextContent, TokenUsage, ToolCall};
use akasha::viewmodel::{AgentId, Step};

fn text(t: &str) -> ContentBlock {
    ContentBlock::Text(TextContent { content: t.to_string() })
}

#[test]
fn notes_are_clipped_to_whole_characters() {
    assert_eq!(clip_note("short"), "short");
    assert_eq!(clip_note(&"a".repeat(NOTE_BYTES + 3)).len(), NOTE_BYTES);
    let wide = clip_note(&"é".repeat(NOTE_BYTES));
    assert_eq!(wide.len(), NOTE_BYTES);
    assert!(wide.chars().all(|c| c == 'é'));
}

#[test]
fn a_turn_shows_its_blocks_one_after_the_other() {
    let mut t = Transcript::new();
    t.append(text("hello"));
    assert_eq!(render_turn(&t.turns[0]), "hello");
    t.append(ContentBlock::ToolCall(ToolCall {
        id: "1".to_string(),
        name: "search".to_string(),
        arguments: Json::parse(r#"{"q": 1}"#).unwrap(),
    }));
    assert_eq!(render_turn(&t.turns[0]), r#"hellosearch: {"q":1}"#);
    t.append(ContentBlock::Reasoning(TextContent { content: "hm".to_string() }));
    assert_eq!(render_turn(&t.turns[0]), r#"hellosearch: {"q":1}"#);
    t.append(text("done"));
    assert_eq!(render_turn(&t.turns[0]), r#"hellosearch: {"q":1}done"#);
}

#[test]
fn growing_text_is_shown_up_to_its_last_line() {
    let view = ChatView::new();
    let d = view.next_delivery("one\ntwo", false).unwrap();
    assert_eq!((d.text.as_str(), d.boundary, d.full), ("one", 4, false));
    let d = view.next_delivery("one\ntwo", true).unwrap();
    assert_eq!((d.text.as_str(), d.full), ("one\ntwo", false));
    assert_eq!(view.next_delivery(" \n ", true), None);
}

#[test]
fn long_text_is_sealed_piece_by_piece() {
    let long = "x".repeat(MESSAGE_CHARS + 10);
    let mut view = ChatView::new();
    let d = view.next_delivery(&long, true).unwrap();
    assert!(d.full);
    assert_eq!(d.boundary, MESSAGE_CHARS);
    assert!(view.delivered(&d, Some(7), 100, true), "there is more to put out");
    assert_eq!((view.sealed, view.message_id), (MESSAGE_CHARS, None));
    let d = view.next_delivery(&long, true).unwrap();
    assert_eq!(d.text.len(), 10);
    assert!(!view.delivered(&d, Some(8), 200, true));
    assert_eq!(view.message_id, Some(8));
    view.settle(200, true);
    assert_eq!((view.sealed, view.message_id), (0, None));
}

#[test]
fn lines_are_kept_together_where_a_text_is_cut() {
    let long = "a".repeat(100) + "\n" + &"b".repeat(MESSAGE_CHARS);
    let d = ChatView::new().next_delivery(&long, true).unwrap();
    assert_eq!(d.boundary, 101);
    assert_eq!(d.text, "a".repeat(100));
}

#[test]
fn updates_are_throttled_but_ends_are_not() {
    let id = AgentId(1);
    let mut view = ChatView::new();
    let d = view.next_delivery("x\n", false).unwrap();
    view.delivered(&d, Some(1), 1000, false);
    let soon = 1000 + THROTTLE_MILLIS - 1;
    assert_eq!(view.plan(Some(Step::Updated { id }), soon), Plan::Skip);
    assert_eq!(
        view.plan(Some(Step::Updated { id }), soon + 1),
        Plan::Render { id, finish: false }
    );
    assert_eq!(
        view.plan(Some(Step::TurnFinished { id }), soon),
        Plan::Render { id, finish: true }
    );
    assert_eq!(view.plan(None, soon), Plan::Stop);
    assert!(!view.settle(soon, false), "something was put out");
    assert!(view.settle(soon + 1, false), "the agent is typing");
}

#[test]
fn an_edit_keeps_its_message() {
    assert_eq!(message_after(Some(1), "t", None), Some(1));
    assert_eq!(message_after(None, "t", Some(2)), Some(2));
    assert_eq!(message_after(None, "", Some(2)), None);
}

#[test]
fn streamed_text_is_buffered() {
    let mut b = ChatBuffer::new();
    assert_eq!(b.on_event(Some(StreamEvent::Append(text("hello")))), Reaction::Flush);
    assert_eq!(
        b.on_event(Some(StreamEvent::Append(ContentBlock::ToolCall(ToolCall {
            id: String::new(),
            name: String::new(),
            arguments: Json::Null
        })))),
        Reaction::Skip
    );
    let d = b.next_delivery().unwrap();
    assert_eq!(d.text, "hello");
    assert!(!b.delivered(&d, Some(3), 10));
    assert_eq!(b.wait_until, 10 + THROTTLE_MILLIS);
    assert!(!b.due(10) && b.due(10 + THROTTLE_MILLIS));
    assert_eq!(b.on_event(Some(StreamEvent::Finish)), Reaction::Flush);
    assert_eq!(b.wait_until, 0, "the end of a turn does not wait");
    let d = b.next_delivery().unwrap();
    assert_eq!(d.edit, Some(3));
    b.delivered(&d, Some(3), 20);
    b.settle(20);
    assert_eq!((b.pending.as_str(), b.message_id), ("", None));
    assert_eq!(b.on_event(None), Reaction::Stop);
}

#[test]
fn notes_go_out_between_texts() {
    let mut b = ChatBuffer::new();
    assert_eq!(
        b.on_event(Some(StreamEvent::Notification("n".to_string()))),
        Reaction::Note("n".to_string())
    );
    b.on_event(Some(StreamEvent::Append(text("x"))));
    assert_eq!(b.on_event(Some(StreamEvent::Notification("n".to_string()))), Reaction::Flush);
    assert_eq!(b.on_event(None), Reaction::Flush, "what is pending goes out first");
}

#[test]
fn prompts_and_notices() {
    assert_eq!(tool_notice("f", &Json::Null), "Tool: f: null");
    assert_eq!(text_prompt("hi"), Message::text("user", "hi".to_string()));
    assert_eq!(switch_prompt("x"), Message::text("user", "switch session: x".to_string()));
    assert!(is_allowed(&vec![1, 2], Some(2)));
    assert!(!is_allowed(&vec![1, 2], Some(3)));
    assert!(!is_allowed(&vec![1, 2], None));
}

fn state() -> AgentState {
    AgentState {
        model: Model {
            id: "m".to_string(),
            provider: "p".to_string(),
            context_window: 0,
            base_url: String::new(),
            headers: Vec::new(),
        },
        tools: ToolRegistry::new(),
        session: Vec::new(),
    }
}

#[test]
fn the_bridge_announces_tools_and_takes_prompts() {
    let mut ext = TelegramExtension::new();
    let decision = ext.on_tool_execution_start("c", "f", &Json::UInt(1)).unwrap();
    assert_eq!(decision, ToolCallDecision::Allow);
    ext.on_message_update(&StreamResponse {
        message: Message { role: "assistant".to_string(), content: vec![text("a"), text("b")] },
        usage: TokenUsage::zero(),
        stop_reason: None,
    })
    .unwrap();
    assert_eq!(
        ext.outbox,
        vec![
            StreamEvent::Notification("Tool: f: 1".to_string()),
            StreamEvent::Append(text("a")),
            StreamEvent::Append(text("b")),
        ]
    );
    ext.inbox.push(text_prompt("next"));
    let after = ext.on_turn_end(state()).unwrap();
    assert_eq!(after.session, vec![text_prompt("next")]);
    match ext.on_turn_end(state()) {
        Err(ExtensionError::ExtensionFailed { message, .. }) => {
            assert_eq!(message, "input channel dropped")
        }
        other => panic!("unexpected {other:?}"),
    }
    ext.open = false;
    assert!(ext.on_tool_execution_start("c", "f", &Json::Null).is_err());
}

#[test]
fn a_message_holds_at_most_4095_characters() {
    assert_eq!(MESSAGE_CHARS, 4095);
    let view = ChatView::new();
    let d = view.next_delivery(&"x".repeat(4095), true).unwrap();
    assert_eq!((d.text.len(), d.full), (4095, false));
    let d = view.next_delivery(&"x".repeat(4096), true).unwrap();
    assert_eq!((d.text.len(), d.full), (4095, true));
}

#[test]
fn a_buffer_seals_a_message_of_4096_characters() {
    assert_eq!(BUFFER_CHARS, 4096);
    let mut b = ChatBuffer::new();
    b.on_event(Some(StreamEvent::Append(text(&"x".repeat(4095)))));
    let d = b.next_delivery().unwrap();
    assert_eq!((d.boundary, d.full), (4095, false));
    b.on_event(Some(StreamEvent::Append(text("y"))));
    let d = b.next_delivery().unwrap();
    assert_eq!((d.boundary, d.full), (4096, true));
    assert!(!b.delivered(&d, Some(1), 10));
    assert_eq!((b.pending.as_str(), b.message_id), ("", None));
    b.on_event(Some(StreamEvent::Append(text("one\ntwo"))));
    assert_eq!(b.next_delivery().unwrap().text, "one");
}
