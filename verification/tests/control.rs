use akasha::control::{
    fold_message, fold_message_with_id, render, stop_message, ControlExtension, ControlUnfoldTool,
};
use akasha::extensions::Extension;
use akasha::json::Json;
use akasha::session::InMemorySession;
use akasha::types::{ContentBlock, Message, TextContent, ToolResult, ToolResultContent};

const STOP_TYPE: &str = "session-control-stop";
const FOLD_TYPE: &str = "session-control-fold";

fn text_msg(role: &str, content: &str) -> Message {
    Message {
        role: role.to_string(),
        content: vec![ContentBlock::Text(TextContent { content: content.to_string() })],
    }
}

fn msg_text(msg: &Message) -> String {
    msg.content
        .iter()
        .filter_map(|b| match b {
            ContentBlock::Text(t) => Some(t.content.as_str()),
            _ => None,
        })
        .collect::<Vec<_>>()
        .join("")
}

fn roles(rendered: &[Message]) -> Vec<&str> {
    rendered.iter().map(|m| m.role.as_str()).collect()
}

fn is_control(msg: &Message) -> bool {
    msg.custom(STOP_TYPE).is_some() || msg.custom(FOLD_TYPE).is_some()
}

fn asking(id: &str) -> Json {
    Json::Object(vec![("id".to_string(), Json::Str(id.to_string()))])
}

/// Runs the unfold tool over a session; the folded messages are written out as their texts.
fn unfold(session: &InMemorySession, params: &Json) -> ToolResult {
    ControlUnfoldTool::execute(session.messages(), params, |messages: &Vec<Message>| {
        messages.iter().map(msg_text).collect::<Vec<_>>().join("\n")
    })
}

fn body(result: &ToolResult) -> &str {
    match &result.content[0] {
        ToolResultContent::Text(t) => &t.content,
        _ => panic!("expected text content"),
    }
}

#[test]
fn render_passes_regular_messages_through_unchanged() {
    let raw = vec![text_msg("user", "hello"), text_msg("assistant", "hi"), text_msg("user", "again")];
    let rendered = render(raw);
    assert_eq!(rendered.len(), 3);
    assert_eq!(roles(&rendered), ["user", "assistant", "user"]);
    assert!(rendered.iter().all(|m| !is_control(m)));
}

#[test]
fn unrelated_custom_blocks_pass_through() {
    let raw = vec![Message {
        role: "custom".to_string(),
        content: vec![ContentBlock::Custom {
            kind: "session-mux-switch".to_string(),
            content: asking("x"),
        }],
    }];
    let rendered = render(raw);
    assert_eq!(rendered.len(), 1, "non-control custom messages are not consumed");
}

#[test]
fn stop_drops_everything_before_it() {
    let raw =
        vec![text_msg("user", "old1"), text_msg("assistant", "old2"), stop_message(), text_msg("user", "fresh")];
    let rendered = render(raw);
    assert_eq!(rendered.len(), 1, "stop must drop itself and everything before it");
    assert_eq!(msg_text(&rendered[0]), "fresh");
}

#[test]
fn most_recent_stop_wins() {
    let raw =
        vec![text_msg("user", "a"), stop_message(), text_msg("user", "b"), stop_message(), text_msg("user", "c")];
    let rendered = render(raw);
    assert_eq!(rendered.len(), 1);
    assert_eq!(msg_text(&rendered[0]), "c");
}

#[test]
fn fold_replaces_preceding_messages_with_placeholder() {
    let raw = vec![
        text_msg("user", "keep"),
        text_msg("user", "fold1"),
        text_msg("assistant", "fold2"),
        fold_message_with_id(1, 3, "fold-id", "summary of fold1/fold2"),
    ];
    let rendered = render(raw);
    assert_eq!(rendered.len(), 2, "the two folded messages collapse into one placeholder");
    assert_eq!(msg_text(&rendered[0]), "keep");
    let placeholder = msg_text(&rendered[1]);
    assert!(placeholder.contains("fold-id"), "placeholder must expose the fold id, got: {placeholder}");
    assert!(placeholder.contains("summary of fold1/fold2"), "placeholder must carry the summary text");
}

#[test]
fn fold_clamps_end_to_preceding_messages() {
    let raw = vec![text_msg("user", "only"), fold_message_with_id(0, 5, "id", "everything")];
    let rendered = render(raw);
    assert_eq!(rendered.len(), 1, "end past the available range folds only what exists");
    assert!(msg_text(&rendered[0]).contains("everything"));
}

#[test]
fn fold_preserves_placeholders_across_subsequent_folds() {
    let raw = vec![
        text_msg("user", "m1"),
        text_msg("user", "m2"),
        text_msg("user", "m3"),
        fold_message_with_id(1, 3, "f1", "first"),
        text_msg("user", "m4"),
        fold_message_with_id(4, 5, "f2", "second"),
    ];
    let rendered = render(raw);
    assert_eq!(rendered.len(), 3);
    assert_eq!(msg_text(&rendered[0]), "m1");
    assert!(msg_text(&rendered[1]).contains("first"));
    assert!(msg_text(&rendered[2]).contains("second"));
}

#[test]
fn fold_can_collapse_an_interior_range() {
    let raw = vec![
        text_msg("user", "a"),
        text_msg("user", "b"),
        text_msg("user", "c"),
        text_msg("user", "d"),
        fold_message_with_id(1, 3, "mid", "b+c"),
    ];
    let rendered = render(raw);
    assert_eq!(rendered.len(), 3, "b and c collapse into one placeholder; a and d remain");
    assert_eq!(msg_text(&rendered[0]), "a");
    assert!(msg_text(&rendered[1]).contains("b+c"));
    assert_eq!(msg_text(&rendered[2]), "d", "message after the folded range stays visible");
}

#[test]
fn fold_with_empty_range_is_a_noop() {
    let raw = vec![text_msg("user", "a"), fold_message_with_id(0, 0, "empty", "nothing")];
    let rendered = render(raw);
    assert_eq!(rendered.len(), 1, "an empty range folds nothing and leaves no placeholder");
    assert_eq!(msg_text(&rendered[0]), "a");
}

#[test]
fn outer_fold_absorbs_an_inner_placeholder() {
    let raw = vec![
        text_msg("user", "a"),
        text_msg("user", "b"),
        text_msg("user", "c"),
        fold_message_with_id(1, 3, "f1", "bc"),
        text_msg("user", "d"),
        fold_message_with_id(0, 5, "f2", "abcd"),
    ];
    let rendered = render(raw);
    assert_eq!(rendered.len(), 1);
    assert!(msg_text(&rendered[0]).contains("abcd"));
}

#[test]
fn stop_after_fold_empties_the_render() {
    let raw = vec![
        text_msg("user", "m1"),
        text_msg("user", "m2"),
        fold_message_with_id(0, 2, "fid", "sum"),
        stop_message(),
    ];
    assert!(render(raw).is_empty());
}

#[test]
fn unfold_tool_returns_folded_content() {
    let mut session = InMemorySession::new();
    let (id, fold) = fold_message(0, 2, "qa pair");
    session.append(text_msg("user", "question")).unwrap();
    session.append(text_msg("assistant", "answer")).unwrap();
    session.append(fold).unwrap();

    let result = unfold(&session, &asking(&id));
    assert!(!result.is_error);
    let body = body(&result);
    assert!(body.contains("question"), "folded content must include originals: {body}");
    assert!(body.contains("answer"), "folded content must include originals: {body}");
}

#[test]
fn unfold_tool_still_works_when_messages_follow_the_fold() {
    let mut session = InMemorySession::new();
    let (id, fold) = fold_message(1, 2, "sum");
    session.append(text_msg("user", "m1")).unwrap();
    session.append(text_msg("user", "m2")).unwrap();
    session.append(fold).unwrap();
    session.append(text_msg("user", "m3")).unwrap();
    session.append(text_msg("assistant", "m4")).unwrap();

    let result = unfold(&session, &asking(&id));
    assert!(!result.is_error);
    let body = body(&result);
    assert!(body.contains("m2"), "folded content must include the original even with later messages: {body}");
}

#[test]
fn unfold_tool_errors_on_unknown_id() {
    let session = InMemorySession::new();
    let result = unfold(&session, &asking("nope"));
    assert!(result.is_error);
    let body = body(&result);
    assert!(body.contains("no folded content"), "error should explain the missing id: {body}");
}

#[test]
fn unfold_tool_ignores_stop() {
    let mut session = InMemorySession::new();
    let (id, fold) = fold_message(0, 2, "sum");
    session.append(text_msg("user", "m1")).unwrap();
    session.append(text_msg("user", "m2")).unwrap();
    session.append(fold).unwrap();
    session.append(stop_message()).unwrap();

    let result = unfold(&session, &asking(&id));
    assert!(!result.is_error, "unfold returns the folded content even when a stop follows");
    let body = body(&result);
    assert!(body.contains("m1"), "folded content must still be returned despite the stop: {body}");
    assert!(body.contains("m2"), "folded content must still be returned despite the stop: {body}");
}

#[test]
fn fold_with_empty_text_leaves_no_placeholder() {
    let raw = vec![
        text_msg("user", "a"),
        text_msg("user", "b"),
        fold_message_with_id(1, 2, "gone", ""),
        text_msg("user", "c"),
    ];
    let rendered = render(raw);
    let texts: Vec<String> = rendered.iter().map(msg_text).collect();
    assert_eq!(texts, ["a", "c"]);
}

#[test]
fn fold_reaching_behind_a_stop_is_bounded_by_it() {
    let raw = vec![
        text_msg("user", "old"),
        stop_message(),
        text_msg("user", "new"),
        fold_message_with_id(0, 3, "f", "sum"),
    ];
    let rendered = render(raw);
    assert_eq!(rendered.len(), 1);
    assert!(msg_text(&rendered[0]).contains("sum"));
}

#[test]
fn fold_ids_are_fresh() {
    let (a, marker) = fold_message(2, 4, "t");
    let (b, _) = fold_message(2, 4, "t");
    assert_eq!(a.len(), 36);
    assert_ne!(a, b);
    let content = marker.custom(FOLD_TYPE).unwrap();
    assert_eq!(content.get("id").and_then(|v| v.as_str()), Some(a.as_str()));
    assert_eq!(content.number_at("start"), 2);
    assert_eq!(content.number_at("end"), 4);
}

#[test]
fn the_extension_renders_what_the_model_sees() {
    let mut ext = ControlExtension::new();
    let seen =
        ext.on_message_start(vec![text_msg("user", "a"), stop_message(), text_msg("user", "b")]).unwrap();
    assert_eq!(seen, vec![text_msg("user", "b")]);
}

#[test]
fn unfold_without_an_id_asks_for_the_empty_one() {
    assert_eq!(ControlUnfoldTool::asked_id(&Json::Null), "");
    let definition = ControlUnfoldTool::definition();
    assert_eq!(definition.name, "session-control-unfold");
    assert_eq!(
        definition.parameters.get("required"),
        Some(&Json::Array(vec![Json::Str("id".to_string())]))
    );
}

#[test]
fn a_stop_hides_what_precedes_it() {
    let raw = vec![
        Message::text("user", "before".to_string()),
        stop_message(),
        Message::text("user", "after".to_string()),
    ];
    let texts: Vec<String> = render(raw).iter().map(msg_text).collect();
    assert_eq!(texts, ["after"]);
}
