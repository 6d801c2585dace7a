use akasha::combinator::{compose, make_request, make_response, And, LabelExt, Or, Pipeline};
use akasha::extensions::{
    Extension, ExtensionError, HookCall, HookCallV, HookReturn, HookReturnV, NoopExtension,
    ToolCallDecision,
};
use akasha::json::Json;
use akasha::text::Chars;
use akasha::types::{ContentBlock, Message, TextContent};

fn make_session(text: &str) -> Vec<Message> {
    if text.is_empty() {
        Vec::new()
    } else {
        make_request(text).messages
    }
}

fn text_block(text: &str) -> ContentBlock {
    ContentBlock::Text(TextContent { content: text.to_string() })
}

/// Adds its label to the last text, so that the order of calls can be seen.
struct MockExtension {
    label: &'static str,
    tool_decision: Result<(), String>,
    should_fail: bool,
    seen: Vec<&'static str>,
}

impl MockExtension {
    fn allow(label: &'static str) -> Self {
        MockExtension { label, tool_decision: Ok(()), should_fail: false, seen: Vec::new() }
    }

    fn deny(label: &'static str, reason: &str) -> Self {
        MockExtension { label, tool_decision: Err(reason.to_string()), should_fail: false, seen: Vec::new() }
    }

    fn failing(label: &'static str) -> Self {
        MockExtension { label, tool_decision: Ok(()), should_fail: true, seen: Vec::new() }
    }
}

impl Extension for MockExtension {
    fn steps(_: Self, _: HookCallV, _: Self, _: HookReturnV) -> bool {
        unreachable!()
    }

    fn called(&self) -> Chars {
        unreachable!()
    }

    fn name(&self) -> String {
        self.label.to_string()
    }

    fn handle(&mut self, call: HookCall) -> HookReturn {
        match call {
            HookCall::MessageStart(mut messages) => {
                if self.should_fail {
                    return HookReturn::Messages(Err(ExtensionError::failed(
                        self.label,
                        "intentional failure",
                    )));
                }
                if let Some(ContentBlock::Text(t)) =
                    messages.last_mut().and_then(|m| m.content.last_mut())
                {
                    if !t.content.is_empty() {
                        t.content.push(',');
                    }
                    t.content.push_str(self.label);
                }
                HookReturn::Messages(Ok(messages))
            }
            HookCall::ToolStart { .. } => {
                self.seen.push("on_tool_execution_start");
                HookReturn::Decision(Ok(match &self.tool_decision {
                    Ok(()) => ToolCallDecision::Allow,
                    Err(reason) => ToolCallDecision::Deny(reason.clone()),
                }))
            }
            other => other.unchanged(),
        }
    }
}

#[test]
fn test_and_name() {
    let ext = And::new(NoopExtension, NoopExtension);
    assert_eq!(ext.name(), "and");
}

#[test]
fn test_and_on_message_start_chains() {
    let mut ext = And::new(LabelExt::ok("a"), LabelExt::ok("b"));
    let messages = make_session("");
    let result = ext.on_message_start(messages).unwrap();
    assert_eq!(result.len(), 2);
    match &result[0].content[0] {
        ContentBlock::Text(t) => assert_eq!(t.content, "a"),
        _ => panic!("expected text"),
    }
    match &result[1].content[0] {
        ContentBlock::Text(t) => assert_eq!(t.content, "b"),
        _ => panic!("expected text"),
    }
}

#[test]
fn test_and_on_message_start_fails_on_first() {
    let mut ext = And::new(LabelExt::fail("a"), LabelExt::ok("b"));
    let messages = make_session("hello");
    match ext.on_message_start(messages) {
        Err(ExtensionError::ExtensionFailed { name, .. }) => assert_eq!(name, "a"),
        _ => panic!("expected error"),
    }
}

#[test]
fn test_and_on_message_start_fails_on_second() {
    let mut ext = And::new(LabelExt::ok("a"), LabelExt::fail("b"));
    let messages = make_session("");
    match ext.on_message_start(messages) {
        Err(ExtensionError::ExtensionFailed { name, .. }) => assert_eq!(name, "b"),
        _ => panic!("expected error"),
    }
}

#[test]
fn test_and_tool_execution_both_allow() {
    let mut ext = And::new(LabelExt::ok("a"), LabelExt::ok("b"));
    let decision = ext.on_tool_execution_start("", "tool", &Json::Null).unwrap();
    assert!(matches!(decision, ToolCallDecision::Allow));
}

#[test]
fn test_and_tool_execution_first_denies() {
    let mut ext = And::new(LabelExt::deny("a", "nope"), LabelExt::ok("b"));
    let decision = ext.on_tool_execution_start("", "tool", &Json::Null).unwrap();
    match decision {
        ToolCallDecision::Deny(r) => assert_eq!(r, "nope"),
        ToolCallDecision::Allow => panic!("expected Deny"),
    }
}

#[test]
fn test_and_with_noop() {
    let mut ext = And::new(NoopExtension, NoopExtension);
    let messages = make_session("hello");
    let result = ext.on_message_start(messages).unwrap();
    assert_eq!(result[0].content, vec![text_block("hello")]);
}

#[test]
fn test_or_name() {
    let ext = Or::new(NoopExtension, NoopExtension);
    assert_eq!(ext.name(), "or");
}

#[test]
fn test_or_first_succeeds() {
    let mut ext = Or::new(LabelExt::ok("a"), LabelExt::ok("b"));
    let messages = make_session("");
    let result = ext.on_message_start(messages).unwrap();
    assert_eq!(result.len(), 1);
    match &result[0].content[0] {
        ContentBlock::Text(t) => assert_eq!(t.content, "a"),
        _ => panic!("expected text"),
    }
}

#[test]
fn test_or_fallback_on_failure() {
    let mut ext = Or::new(LabelExt::fail("a"), LabelExt::ok("b"));
    let messages = make_session("");
    let result = ext.on_message_start(messages).unwrap();
    assert_eq!(result.len(), 1);
    match &result[0].content[0] {
        ContentBlock::Text(t) => assert_eq!(t.content, "b"),
        _ => panic!("expected text"),
    }
}

#[test]
fn test_or_both_fail() {
    let mut ext = Or::new(LabelExt::fail("a"), LabelExt::fail("b"));
    let messages = make_session("hello");
    match ext.on_message_start(messages) {
        Err(ExtensionError::ExtensionFailed { name, .. }) => assert_eq!(name, "b"),
        Ok(_) => panic!("expected error"),
        Err(other) => panic!("expected ExtensionFailed, got {other:?}"),
    }
}

#[test]
fn test_or_tool_execution_first_allows() {
    let mut ext = Or::new(LabelExt::ok("a"), LabelExt::ok("b"));
    let decision = ext.on_tool_execution_start("", "tool", &Json::Null).unwrap();
    assert!(matches!(decision, ToolCallDecision::Allow));
}

#[test]
fn test_or_tool_execution_first_denies_second_overrides() {
    let mut ext = Or::new(LabelExt::deny("a", "nope"), LabelExt::ok("b"));
    let decision = ext.on_tool_execution_start("", "tool", &Json::Null).unwrap();
    assert!(matches!(decision, ToolCallDecision::Allow));
}

#[test]
fn test_or_tool_execution_both_deny() {
    let mut ext = Or::new(LabelExt::deny("a", "nope"), LabelExt::deny("b", "also nope"));
    let decision = ext.on_tool_execution_start("", "tool", &Json::Null).unwrap();
    match decision {
        ToolCallDecision::Deny(r) => assert_eq!(r, "also nope"),
        ToolCallDecision::Allow => panic!("expected Deny"),
    }
}

#[test]
fn test_or_on_message_update_fallback() {
    let mut ext = Or::new(LabelExt::fail("a"), LabelExt::ok("b"));
    let resp = make_response();
    ext.on_message_update(&resp).unwrap();
}

#[test]
fn test_name() {
    let pipeline: Pipeline<NoopExtension> = Pipeline::new(vec![]);
    assert_eq!(pipeline.name(), "pipeline");
}

#[test]
fn test_empty_pipeline_on_message_start() {
    let mut pipeline: Pipeline<NoopExtension> = Pipeline::new(vec![]);
    let req = make_request("hello");
    let result = pipeline.on_message_start(req.messages).unwrap();
    assert_eq!(result[0].content, vec![text_block("hello")]);
}

#[test]
fn test_on_message_start_chains_in_order() {
    let mut pipeline = Pipeline::new(vec![MockExtension::allow("a"), MockExtension::allow("b")]);
    let req = make_request("");
    let result = pipeline.on_message_start(req.messages).unwrap();
    let text = match result[0].content.last() {
        Some(ContentBlock::Text(t)) => t.content.clone(),
        _ => panic!("expected text block"),
    };
    assert_eq!(text, "a,b");
}

#[test]
fn test_on_message_start_stops_on_error() {
    let mut pipeline = Pipeline::new(vec![
        MockExtension::allow("a"),
        MockExtension::failing("b"),
        MockExtension::allow("c"),
    ]);
    let req = make_request("");
    let err = pipeline.on_message_start(req.messages).unwrap_err();
    match err {
        ExtensionError::ExtensionFailed { name, .. } => assert_eq!(name, "b"),
        other => panic!("expected ExtensionFailed, got {other:?}"),
    }
}

#[test]
fn test_on_message_update_calls_all() {
    let mut pipeline = Pipeline::new(vec![MockExtension::allow("e1"), MockExtension::allow("e2")]);
    let resp = make_response();
    pipeline.on_message_update(&resp).unwrap();
}

#[test]
fn test_on_message_end_calls_all() {
    let mut pipeline = Pipeline::new(vec![MockExtension::allow("e1"), MockExtension::allow("e2")]);
    let resp = make_response();
    pipeline.on_message_end(&resp).unwrap();
}

#[test]
fn test_tool_execution_start_all_allow() {
    let mut pipeline = Pipeline::new(vec![MockExtension::allow("a"), MockExtension::allow("b")]);
    let decision = pipeline.on_tool_execution_start("", "tool", &Json::Null).unwrap();
    assert!(matches!(decision, ToolCallDecision::Allow));
}

#[test]
fn test_tool_execution_start_deny_short_circuits() {
    let mut pipeline = Pipeline::new(vec![
        MockExtension::allow("a"),
        MockExtension::deny("b", "not allowed"),
        MockExtension::allow("c"),
    ]);
    let decision = pipeline.on_tool_execution_start("", "tool", &Json::Null).unwrap();
    match decision {
        ToolCallDecision::Deny(reason) => assert_eq!(reason, "not allowed"),
        ToolCallDecision::Allow => panic!("expected Deny"),
    }
}

#[test]
fn test_tool_execution_start_first_denies() {
    let mut pipeline = Pipeline::new(vec![MockExtension::deny("a", "blocked"), MockExtension::allow("b")]);
    let decision = pipeline.on_tool_execution_start("", "tool", &Json::Null).unwrap();
    assert!(matches!(decision, ToolCallDecision::Deny(_)));
}

#[test]
fn test_empty_pipeline_tool_execution_start() {
    let mut pipeline: Pipeline<MockExtension> = Pipeline::new(vec![]);
    let decision = pipeline.on_tool_execution_start("", "tool", &Json::Null).unwrap();
    assert!(matches!(decision, ToolCallDecision::Allow));
}

#[test]
fn test_noop_extension_in_pipeline() {
    let mut pipeline = Pipeline::new(vec![NoopExtension]);
    let req = make_request("hello");
    let result = pipeline.on_message_start(req.messages).unwrap();
    assert_eq!(result[0].content, vec![text_block("hello")]);
}

#[test]
fn a_denied_call_does_not_reach_the_second_extension() {
    let mut ext = And::new(MockExtension::deny("a", "no"), MockExtension::allow("b"));
    ext.on_tool_execution_start("", "tool", &Json::Null).unwrap();
    assert_eq!(ext.a.seen, ["on_tool_execution_start"]);
    assert!(ext.b.seen.is_empty());
}

#[test]
fn the_fallback_gets_what_the_first_was_asked() {
    let mut ext = Or::new(MockExtension::failing("a"), MockExtension::allow("b"));
    let out = ext.on_message_start(make_request("t").messages).unwrap();
    assert_eq!(out[0].content, vec![text_block("t,b")]);
}

#[test]
fn chaining_does_not_depend_on_the_brackets() {
    let run = |ext: &mut dyn FnMut(Vec<Message>) -> Vec<Message>| ext(make_request("x").messages);
    let mut left = And::new(
        And::new(MockExtension::allow("a"), MockExtension::allow("b")),
        MockExtension::allow("c"),
    );
    let mut right = And::new(
        MockExtension::allow("a"),
        And::new(MockExtension::allow("b"), MockExtension::allow("c")),
    );
    let l = run(&mut |m| left.on_message_start(m).unwrap());
    let r = run(&mut |m| right.on_message_start(m).unwrap());
    assert_eq!(l, r);
    assert_eq!(l[0].content, vec![text_block("x,a,b,c")]);
}

#[test]
fn composing_gives_the_chain_of_the_extensions() {
    let mut none = compose(Vec::<MockExtension>::new());
    assert_eq!(none.name(), "noop");
    assert_eq!(none.on_message_start(make_session("x")).unwrap(), make_session("x"));
    assert_eq!(compose(vec![MockExtension::allow("only")]).name(), "only");
    let mut three = compose(vec![
        MockExtension::allow("a"),
        MockExtension::allow("b"),
        MockExtension::allow("c"),
    ]);
    assert_eq!(three.name(), "and");
    let out = three.on_message_start(make_request("x").messages).unwrap();
    assert_eq!(out[0].content, vec![text_block("x,a,b,c")]);
}

#[test]
fn a_label_writes_down_where_it_was_called() {
    let mut ext = LabelExt::fail("l");
    assert!(ext.on_message_update(&make_response()).is_err());
    ext.on_message_end(&make_response()).unwrap();
    assert_eq!(ext.calls, ["on_message_update", "on_message_end"]);
    assert!(make_request("q").tools.is_empty());
}

/// An extension that cannot decide about a tool call.
struct Undecided;

impl Extension for Undecided {
    fn steps(_: Self, _: HookCallV, _: Self, _: HookReturnV) -> bool {
        unreachable!()
    }

    fn called(&self) -> Chars {
        unreachable!()
    }

    fn name(&self) -> String {
        "undecided".to_string()
    }

    fn handle(&mut self, call: HookCall) -> HookReturn {
        match call {
            HookCall::ToolStart { .. } => {
                HookReturn::Decision(Err(ExtensionError::failed("undecided", "no idea")))
            }
            other => other.unchanged(),
        }
    }
}

#[test]
fn a_failed_decision_is_left_to_the_fallback() {
    let mut ext = Or::new(Undecided, MockExtension::allow("b"));
    let decision = ext.on_tool_execution_start("", "tool", &Json::Null).unwrap();
    assert!(matches!(decision, ToolCallDecision::Allow));
    assert_eq!(ext.b.seen, ["on_tool_execution_start"]);
    let mut ext = Or::new(Undecided, Undecided);
    assert!(ext.on_tool_execution_start("", "tool", &Json::Null).is_err());
}
