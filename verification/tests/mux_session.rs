use akasha::control::copy_range;
use akasha::extensions::ExtensionError;
use akasha::json::Json;
use akasha::mux_session::{MuxSession, MuxSwitchTool, SwitchPlan};
use akasha::session::{InMemorySession, Said, Session, SessionError};
use akasha::tools::ToolError;
use akasha::types::{
    ContentBlock, Message, TextContent, ToolCall, ToolResult, ToolResultContent,
};

fn text_msg(role: &str, content: &str) -> Message {
    Message {
        role: role.to_string(),
        content: vec![ContentBlock::Text(TextContent { content: content.to_string() })],
    }
}

fn make_mux() -> MuxSession {
    MuxSession::new(InMemorySession::new(), &MuxSession::fresh_id(), empty()).unwrap()
}

fn empty() -> Result<InMemorySession, String> {
    Ok(InMemorySession::new())
}

fn tool_result(call_id: &str, content: &str) -> Message {
    Message {
        role: "tool".to_string(),
        content: vec![ContentBlock::ToolResult(ToolResult {
            tool_call_id: Some(call_id.to_string()),
            content: vec![ToolResultContent::Text(TextContent { content: content.to_string() })],
            is_error: false,
        })],
    }
}

/// Calls the switch tool; every session that it loads starts empty.
fn execute(mux: &mut MuxSession, params: &str) -> Result<ToolResult, ToolError> {
    match mux.plan(&Json::parse(params).unwrap()) {
        SwitchPlan::Refuse => Ok(MuxSession::refuse()),
        SwitchPlan::Leave { summary } => mux.leave(&summary),
        SwitchPlan::Enter { id } => mux.enter(&id, empty()),
    }
}

fn active(mux: &MuxSession) -> &(String, InMemorySession) {
    mux.active.as_ref().unwrap()
}

#[test]
fn new_starts_with_active_session() {
    let m = make_mux();
    assert!(m.active.is_some(), "new() should create an initial active session via switch");
    assert_eq!(m.messages().len(), 0, "active session should be empty initially");
}

#[test]
fn append_adds_to_pending() {
    let mut m = make_mux();
    m.append(text_msg("user", "hello")).unwrap();

    assert_eq!(m.pending.len(), 1, "message should be in pending");
    assert_eq!(m.pending[0].role, "user");
    assert_eq!(m.messages().len(), 1);
}

#[test]
fn messages_chains_active_and_pending() {
    let mut m = make_mux();
    m.switch("s1", empty()).unwrap();
    m.active.as_mut().unwrap().1.append(text_msg("user", "existing")).unwrap();
    m.append(text_msg("user", "pending")).unwrap();

    let msgs = m.messages();
    assert_eq!(msgs.len(), 2);
    assert_eq!(msgs[0].role, "user");
    assert_eq!(msgs[1].role, "user");
}

#[test]
fn flush_moves_pending_to_active() {
    let mut m = make_mux();
    m.switch("s1", empty()).unwrap();
    m.append(text_msg("user", "hello")).unwrap();
    m.append(text_msg("assistant", "hi")).unwrap();
    assert_eq!(m.pending.len(), 2);

    m.flush().unwrap();

    assert_eq!(m.pending.len(), 0, "pending should be empty after flush");
    assert_eq!(active(&m).1.messages().len(), 2, "active session should have the flushed messages");
}

#[test]
fn switch_creates_active_session() {
    let mut m = make_mux();
    m.switch("conv-1", empty()).unwrap();
    assert!(m.active.is_some());
    assert_eq!(active(&m).0, "conv-1");
}

#[test]
fn switch_binds_and_arms_without_routing_or_truncating() {
    let mut m = make_mux();
    m.switch("s1", empty()).unwrap();
    let router_before = m.router.messages().len();

    m.pending.push(text_msg("user", "switch topic"));
    m.pending.push(tool_result("c1", "session-mux-switch result"));

    m.switch("s2", empty()).unwrap();

    assert_eq!(m.router.messages().len(), router_before, "switch must not append anything to the router");
    assert_eq!(active(&m).0, "s2");
    assert!(m.switching, "switch arms the switching flag");
    assert_eq!(m.pending.len(), 2, "switch leaves pending for on_message_start / on_turn_end to truncate");
}

#[test]
fn retain_pending_users_drops_assistant_with_tool_calls() {
    let mut m = make_mux();
    m.switch("s1", empty()).unwrap();

    let call = |id: &str, name: &str| {
        ContentBlock::ToolCall(ToolCall {
            id: id.to_string(),
            name: name.to_string(),
            arguments: Json::parse("{}").unwrap(),
        })
    };
    m.pending.push(text_msg("user", "question"));
    m.pending.push(Message {
        role: "assistant".to_string(),
        content: vec![
            ContentBlock::Text(TextContent { content: "reasoning".to_string() }),
            call("call_1", "session-mux-switch"),
            call("call_2", "tavily_extract"),
        ],
    });

    m.truncate_pending();

    assert_eq!(m.pending.len(), 1, "only the leading user message is kept");
    assert_eq!(m.pending[0].role, "user");
}

#[test]
fn on_turn_end_fallback_flushes_only_users() {
    let mut m = make_mux();
    m.active = None;
    m.pending.push(text_msg("user", "question"));
    m.pending.push(text_msg("assistant", "router reasoning"));
    m.pending.push(tool_result("c1", "switch result"));

    m.on_turn_end(Some(("fresh".to_string(), empty()))).unwrap();

    assert!(m.active.is_some(), "fallback should bind a new active session");
    let active = active(&m).1.messages();
    assert_eq!(active.len(), 1, "new session should contain only the user message");
    assert!(
        active.iter().all(|x| x.role == "user"),
        "router reasoning must not leak into the new session"
    );
}

#[test]
fn on_message_start_drops_switch_result() {
    let mut m = make_mux();
    m.active = None;
    execute(&mut m, r#"{"next_id": "s2"}"#).unwrap();

    m.pending.push(text_msg("user", "question"));
    m.pending.push(tool_result("c_switch", "switched to session 's2'."));

    let dirty = m.messages();
    assert_eq!(dirty.iter().filter(|m| m.role == "tool").count(), 1);

    let clean = m.on_message_start(dirty);
    assert_eq!(clean.iter().filter(|m| m.role == "tool").count(), 0, "switch result must be dropped");

    assert!(
        m.pending.iter().all(|m| m.role == "user"),
        "pending holds only user messages after finalize"
    );
    assert!(!m.switching, "switching flag is cleared");
}

#[test]
fn retain_pending_users_keeps_only_leading_users() {
    let mut m = make_mux();
    m.switch("s1", empty()).unwrap();
    m.pending.push(text_msg("user", "q1"));
    m.pending.push(text_msg("assistant", "a1"));
    m.pending.push(text_msg("user", "q2"));

    m.truncate_pending();

    assert_eq!(m.pending.len(), 1, "pending is truncated at the first non-user message");
    assert_eq!(m.pending[0].content[0], ContentBlock::Text(TextContent { content: "q1".to_string() }));
}

#[test]
fn active_without_summary_returns_error() {
    let mut m = make_mux();
    m.switch("s1", empty()).unwrap();
    let result = execute(&mut m, "{}").unwrap();

    assert!(result.is_error, "should return error when no summary provided with active session");
    let text = match &result.content[0] {
        ToolResultContent::Text(t) => &t.content,
        _ => panic!("expected text content"),
    };
    assert!(text.contains("summary is required"), "error message should mention summary, got: {text}");
}

#[test]
fn execute_to_router_appends_routing_message() {
    let mut m = make_mux();
    m.switch("s1", empty()).unwrap();
    let result = execute(&mut m, r#"{"summary": "talked about rust"}"#).unwrap();

    assert!(!result.is_error, "switching to router with a summary should succeed");
    assert!(m.active.is_none(), "active should be cleared after switching to router session");
    let router_msgs = m.router.messages();
    assert_eq!(router_msgs.len(), 1, "router should receive one routing message");
    assert_eq!(router_msgs[0].role, "user");
    let text: String = router_msgs[0]
        .content
        .iter()
        .filter_map(|b| match b {
            ContentBlock::Text(t) => Some(t.content.as_str()),
            _ => None,
        })
        .collect::<Vec<_>>()
        .join(" ");
    assert!(text.contains("id: s1"), "routing message should carry the source session id, got: {text}");
    assert!(
        text.contains("summary: talked about rust"),
        "routing message should carry the summary, got: {text}"
    );
}

#[test]
fn execute_to_active_switches_session() {
    let mut m = make_mux();
    m.active = None;
    let result = execute(&mut m, r#"{"next_id": "s2"}"#).unwrap();

    assert!(!result.is_error);
    assert!(m.active.is_some(), "should switch into an active session");
    assert_eq!(active(&m).0, "s2");
    assert!(m.switching, "router→active switch should arm the switching flag for on_message_start");
}

#[test]
fn an_empty_id_asks_for_a_new_session() {
    let mut m = make_mux();
    m.active = None;
    execute(&mut m, r#"{"next_id": ""}"#).unwrap();
    assert_eq!(active(&m).0.len(), 36);
}

#[test]
fn a_session_that_cannot_be_loaded_is_not_entered() {
    let mut m = make_mux();
    m.active = None;
    let failed = m.enter("s", Err("gone".to_string()));
    assert_eq!(failed, Err(ToolError::Execution("session error: gone".to_string())));
    assert!(m.active.is_none());
    assert!(MuxSession::new(InMemorySession::new(), "s", Err("gone".to_string())).is_err());
    match m.on_turn_end(Some(("s".to_string(), Err("gone".to_string())))) {
        Err(ExtensionError::ExtensionFailed { name, .. }) => assert_eq!(name, "session/mux"),
        other => panic!("unexpected {other:?}"),
    }
}

#[test]
fn the_router_session_sees_the_question_and_its_instructions() {
    let mut m = make_mux();
    execute(&mut m, r#"{"summary": "s"}"#).unwrap();
    m.pending.push(text_msg("user", "q"));
    m.pending.push(text_msg("assistant", "thinking"));
    let seen = m.messages();
    assert_eq!(seen.len(), 3);
    assert_eq!(seen[1], text_msg("user", "q"));
    assert_eq!(copy_range(&seen, 1, 2), vec![text_msg("user", "q")]);
    assert_eq!(MuxSwitchTool::definition().name, "session-mux-switch");
}

/// A session that takes in so many messages and no more.
struct Bounded {
    said: Vec<Message>,
    room: usize,
}

impl Session for Bounded {
    fn said(&self) -> Said {
        unreachable!()
    }

    fn willing(&self) -> bool {
        unreachable!()
    }

    fn append(&mut self, message: Message) -> Result<(), SessionError> {
        if self.said.len() == self.room {
            return Err(SessionError::Failed { message: "full".to_string() });
        }
        self.said.push(message);
        Ok(())
    }

    fn messages(&self) -> &Vec<Message> {
        &self.said
    }
}

fn bounded(room: usize) -> Bounded {
    Bounded { said: Vec::new(), room }
}

#[test]
fn a_topic_is_not_left_where_the_router_session_refuses() {
    let mut m = MuxSession::new(bounded(0), "t", Ok(bounded(1))).unwrap();
    assert_eq!(
        m.leave("s").unwrap_err(),
        ToolError::Execution("session error: full".to_string())
    );
    assert_eq!(m.active.as_ref().unwrap().0, "t");
    assert!(m.router.messages().is_empty());
}

#[test]
fn what_a_topic_refuses_is_dropped() {
    let mut m = MuxSession::new(bounded(0), "t", Ok(bounded(2))).unwrap();
    for text in ["a", "b", "c", "d"] {
        m.append(Message::text("user", text.to_string())).unwrap();
    }
    assert_eq!(
        m.on_turn_end(None).unwrap_err().words(),
        "extension 'session/mux': session error: full"
    );
    assert_eq!(m.active.as_ref().unwrap().1.said.len(), 2);
    assert!(m.pending.is_empty());
}
