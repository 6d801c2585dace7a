use std::collections::VecDeque;

use akasha::agent::{Action, AgentRun, Event};
use akasha::combinator::And;
use akasha::control::ControlExtension;
use akasha::extensions::{AgentState, Extension, HookCall, HookReturn, NoopExtension};
use akasha::forks::SessionAdapter;
use akasha::io::{show_outcome, OutputEvent};
use akasha::json::Json;
use akasha::mux::{
    extract_route, hide_handoff_exchange, registry_record, router_session, Binding, HandoffTool,
    Mux, MuxAction, MuxEvent, RouteTool, StopAfterHandoff, MAX_REGISTRY_RECORDS,
};
use akasha::providers::{Model, StreamResponse};
use akasha::session::InMemorySession;
use akasha::tools::{ToolRegistry, ToolSpec};
use akasha::types::{ContentBlock, Message, TextContent, TokenUsage, ToolCall, ToolDefinition};
use akasha::viewmodel::{AgentId, FanEvent, Step};

fn json(text: &str) -> Json {
    Json::parse(text).unwrap()
}

fn model() -> Model {
    Model {
        id: "m".into(),
        provider: "p".into(),
        context_window: 0,
        base_url: String::new(),
        headers: Vec::new(),
    }
}

fn only(definition: ToolDefinition) -> ToolRegistry {
    let mut tools = ToolRegistry::new();
    tools.register(ToolSpec { definition, output: None });
    tools
}

fn sysprompt() -> Message {
    Message::text("user", "SYSTEM".to_string())
}

fn user(t: &str) -> Message {
    Message::text("user", t.to_string())
}

fn text_reply(t: &str) -> Message {
    Message::text("assistant", t.to_string())
}

fn call(id: &str, name: &str, arguments: Json) -> Message {
    Message {
        role: "assistant".into(),
        content: vec![ContentBlock::ToolCall(ToolCall { id: id.into(), name: name.into(), arguments })],
    }
}

fn route_call(topic_id: Option<&str>) -> Message {
    let args = match topic_id {
        Some(id) => json(&format!(r#"{{ "topic_id": "{id}", "summary": "s" }}"#)),
        None => json(r#"{ "summary": "s" }"#),
    };
    call("r", "route", args)
}

fn handoff_call() -> Message {
    call("h", "handoff", json(r#"{ "summary": "leaving" }"#))
}

fn chunk(message: Message) -> StreamResponse {
    StreamResponse { message, usage: TokenUsage::zero(), stop_reason: Some("stop".to_string()) }
}

/// One topic's run, with what it has to say and to hear.
struct Topic {
    id: AgentId,
    fork: String,
    run: AgentRun,
    action: Option<Action>,
    ext: And<ControlExtension, StopAfterHandoff>,
    chunk: Option<StreamResponse>,
    events: VecDeque<FanEvent>,
    prompts: VecDeque<Message>,
    waiting: bool,
}

/// A multiplexer with its sessions, its runs and a scripted model.
struct World {
    mux: Mux,
    mgr: SessionAdapter,
    topics: Vec<Topic>,
    inbox: VecDeque<Message>,
    /// What the router says, and what everyone says where the topics have no script.
    router_turns: VecDeque<Message>,
    topic_turns: Option<VecDeque<Message>>,
    calls: usize,
    seen: Vec<Vec<ContentBlock>>,
}

/// A model that replays its turns, whoever asks.
fn scripted(turns: Vec<Message>) -> World {
    let mut w = world(turns, Vec::new());
    w.topic_turns = None;
    w
}

/// A model that replays one script to the router and one to the topics.
fn world(router: Vec<Message>, topic: Vec<Message>) -> World {
    World {
        mux: Mux::new(sysprompt()),
        mgr: SessionAdapter::new(InMemorySession::new()),
        topics: Vec::new(),
        inbox: VecDeque::new(),
        router_turns: router.into(),
        topic_turns: Some(topic.into()),
        calls: 0,
        seen: Vec::new(),
    }
}

impl World {
    fn reply(&mut self, messages: &[Message], router: bool) -> StreamResponse {
        self.calls += 1;
        self.seen.push(messages.iter().flat_map(|m| m.content.iter().cloned()).collect());
        let queue = match &mut self.topic_turns {
            Some(turns) if !router => turns,
            _ => &mut self.router_turns,
        };
        chunk(queue.pop_front().unwrap_or_else(|| text_reply("")))
    }

    /// Runs the router over the message and takes up the topic that it names.
    fn route(&mut self, message: Message) {
        let mut temp = router_session(self.mgr.messages());
        let state = AgentState {
            model: model(),
            tools: only(RouteTool::definition()),
            session: temp.messages().clone(),
        };
        let mut ext = NoopExtension;
        let (mut run, mut action) =
            AgentRun::prompt(state, vec!["p".to_string()], message.clone());
        let mut pending = None;
        loop {
            let event = match action {
                Action::Hook(call) => Event::Hooked(ext.handle(call)),
                Action::Append(said) => Event::Appended(temp.append(said)),
                Action::Stream { messages, .. } => {
                    pending = Some(self.reply(&messages, true));
                    Event::Opened(Ok(()))
                }
                Action::NextChunk => Event::Chunk(pending.take()),
                Action::Execute { .. } => Event::Executed(Ok(RouteTool::execute())),
                Action::Finish(_) => break,
            };
            assert!(run.accepts(&event));
            action = run.step(event);
        }
        let (topic_id, _) = extract_route(&temp);
        let kept = topic_id.as_deref().is_some_and(|t| self.mgr.get(t).is_ok());
        match self.mux.bind(topic_id, kept) {
            Binding::Resume(id) => {
                let topic = self.topics.iter_mut().find(|t| t.id == id).unwrap();
                topic.prompts.push_back(message);
            }
            Binding::Restart { topic_id } => self.start(topic_id, message),
            Binding::New => {
                let fork = self.mgr.fork().unwrap();
                for told in self.mux.topic_messages() {
                    self.mgr.append_to(&fork, told).unwrap();
                }
                self.start(fork, message);
            }
        }
    }

    fn start(&mut self, fork: String, message: Message) {
        self.mux.park();
        let id = self.mux.start_topic(&fork);
        let state = AgentState {
            model: model(),
            tools: only(HandoffTool::definition()),
            session: self.mgr.get(&fork).unwrap().messages().clone(),
        };
        let (run, action) = AgentRun::prompt(state, vec!["p".to_string()], message);
        self.topics.push(Topic {
            id,
            fork,
            run,
            action: Some(action),
            ext: And::new(ControlExtension::new(), StopAfterHandoff { slot: None }),
            chunk: None,
            events: VecDeque::new(),
            prompts: VecDeque::new(),
            waiting: false,
        });
    }

    /// Takes one action of a run; false where it cannot go on.
    fn advance(&mut self, at: usize) -> bool {
        let topic = &mut self.topics[at];
        let Some(action) = topic.action.take() else { return false };
        let event = match action {
            Action::Hook(HookCall::TurnEnd(mut state)) => {
                if !topic.waiting {
                    topic.waiting = true;
                    topic.events.push_back(FanEvent::Output(OutputEvent::Finish));
                }
                match topic.prompts.pop_front() {
                    Some(prompt) => {
                        topic.waiting = false;
                        self.mgr.append_to(&topic.fork, prompt.clone()).unwrap();
                        state.session.push(prompt);
                        Event::Hooked(HookReturn::State(Ok(state)))
                    }
                    None => {
                        topic.action = Some(Action::Hook(HookCall::TurnEnd(state)));
                        return false;
                    }
                }
            }
            Action::Hook(call) => {
                match &call {
                    HookCall::MessageUpdate(r) => {
                        for block in &r.message.content {
                            topic
                                .events
                                .push_back(FanEvent::Output(OutputEvent::Append(block.clone())));
                        }
                    }
                    HookCall::ToolEnd { id, result } => {
                        topic.events.push_back(FanEvent::Output(OutputEvent::ToolEnd {
                            id: id.clone(),
                            result: show_outcome(id, result),
                        }));
                    }
                    _ => {}
                }
                Event::Hooked(topic.ext.handle(call))
            }
            Action::Append(said) => Event::Appended(self.mgr.append_to(&topic.fork, said)),
            Action::Stream { messages, .. } => {
                let reply = self.reply(&messages, false);
                self.topics[at].chunk = Some(reply);
                Event::Opened(Ok(()))
            }
            Action::NextChunk => Event::Chunk(topic.chunk.take()),
            Action::Execute { arguments, .. } => {
                Event::Executed(Ok(HandoffTool::execute(&mut topic.ext.b.slot, &arguments)))
            }
            Action::Finish(_) => {
                topic.events.push_back(FanEvent::Ended);
                return false;
            }
        };
        let topic = &mut self.topics[at];
        assert!(topic.run.accepts(&event));
        topic.action = Some(topic.run.step(event));
        true
    }

    /// The next event, of whichever run has one.
    fn next_event(&mut self) -> Option<(AgentId, FanEvent)> {
        loop {
            for topic in self.topics.iter_mut() {
                if let Some(event) = topic.events.pop_front() {
                    return Some((topic.id, event));
                }
            }
            let mut moved = false;
            for at in 0..self.topics.len() {
                moved |= self.advance(at);
            }
            if !moved && self.topics.iter().all(|t| t.events.is_empty()) {
                return None;
            }
        }
    }

    fn step(&mut self) -> Option<Step> {
        loop {
            let action = match self.inbox.pop_front() {
                Some(message) => self.mux.step(MuxEvent::Inbox(Some(message))),
                None => {
                    let (id, event) = self.next_event()?;
                    let reduced = self.mux.vm.step(id, event);
                    let Some(step) = reduced.step else { continue };
                    let handoff = match step {
                        Step::AgentEnded { id } => {
                            let topic = self.topics.iter_mut().find(|t| t.id == id);
                            topic.and_then(|t| t.ext.b.slot.take())
                        }
                        _ => None,
                    };
                    self.mux.step(MuxEvent::Vm { step: Some(step), handoff })
                }
            };
            match action {
                MuxAction::Stop => return None,
                MuxAction::Forward(message) => {
                    let id = self.mux.vm.route().unwrap();
                    self.topics.iter_mut().find(|t| t.id == id).unwrap().prompts.push_back(message);
                }
                MuxAction::Route(message) => self.route(message),
                MuxAction::HandOff { id, summary } => {
                    let fork = self.mux.topic_id_of(id);
                    let said = fork
                        .as_deref()
                        .and_then(|f| self.mgr.get(f).ok())
                        .map(|s| s.messages().clone());
                    let told = self.mux.on_handoff(id, &summary, said.as_ref());
                    if let Some(record) = told.record {
                        self.mgr.append(record).unwrap();
                    }
                    if let (Some(fork), Some((_, fold))) = (fork, told.fold) {
                        self.mgr.append_to(&fork, fold).unwrap();
                    }
                    if let Some(message) = told.reroute {
                        self.route(message);
                    }
                    return Some(told.shown);
                }
                MuxAction::Show(step) => return Some(step),
                MuxAction::Wait => {}
            }
        }
    }

    fn finish_turn(&mut self) -> AgentId {
        loop {
            match self.step() {
                Some(Step::TurnFinished { id }) => {
                    self.mux.vm.ack(id);
                    return id;
                }
                Some(Step::AgentEnded { id }) => return id,
                Some(_) => {}
                None => panic!("mux stepped to None"),
            }
        }
    }

    fn finish_other_turn(&mut self, exclude: AgentId) -> AgentId {
        loop {
            let id = self.finish_turn();
            if id != exclude {
                return id;
            }
        }
    }
}

fn texts(blocks: &[ContentBlock]) -> String {
    blocks
        .iter()
        .filter_map(|b| match b {
            ContentBlock::Text(t) => Some(t.content.as_str()),
            _ => None,
        })
        .collect::<Vec<_>>()
        .join("|")
}

#[test]
fn first_message_routes_to_a_new_topic() {
    let mut w = scripted(vec![route_call(None), text_reply("about rust")]);
    w.inbox.push_back(user("tell me about rust"));

    let id = w.finish_turn();
    assert_eq!(w.mux.vm.transcript(id).unwrap().turns.len(), 1, "one topic turn");
    assert!(w.mux.vm.focus() == Some(id), "topic is focused");

    let texts = texts(w.seen.last().unwrap());
    assert!(texts.contains("SYSTEM"), "topic sees its sysprompt: {texts}");
    assert!(texts.contains("tell me about rust"), "topic sees the user message: {texts}");
    assert!(
        !texts.contains("route") && !texts.contains("topic_id"),
        "router/registry noise is dropped: {texts}"
    );
}

#[test]
fn handoff_ends_run_and_routes_to_next_topic() {
    let mut w = world(
        vec![route_call(None), route_call(None)],
        vec![text_reply("a"), handoff_call(), text_reply("b")],
    );
    w.inbox.push_back(user("rust"));
    let a = w.finish_turn();
    let calls_after_a = w.calls;

    w.inbox.push_back(user("now food"));
    let b = w.finish_other_turn(a);

    assert_ne!(b, a, "a different topic run handled the handoff");
    assert_eq!(w.mux.vm.focus(), Some(b), "focus moved to the new topic");
    assert_eq!(w.calls - calls_after_a, 3, "no extra provider call after the handoff");
}

#[test]
fn handoff_appends_registry_record_visible_to_router() {
    let mut w = world(vec![route_call(None), route_call(None)], vec![handoff_call()]);
    w.inbox.push_back(user("a"));
    let _ = w.finish_turn();

    let records = w.mgr.messages();
    let has_summary = records.iter().any(|m| {
        m.content
            .iter()
            .any(|b| matches!(b, ContentBlock::Text(t) if t.content.contains("summary: leaving")))
    });
    assert!(has_summary, "registry should hold A's handoff summary: {records:?}");
}

#[test]
fn handoff_hides_exchange_from_future_topic_view() {
    let mut w = world(vec![route_call(None), route_call(None)], vec![handoff_call()]);
    w.inbox.push_back(user("trigger msg"));
    let a = w.finish_turn();
    let tid = w.mux.topic_id_of(a).expect("topic has a fork id");

    let raw = w.mgr.get(&tid).unwrap().messages().clone();
    let mut ctrl = ControlExtension::new();
    let rendered = ctrl.on_message_start(raw).unwrap();
    let view: String = rendered
        .iter()
        .flat_map(|m| {
            m.content.iter().filter_map(|b| match b {
                ContentBlock::Text(t) => Some(t.content.as_str()),
                _ => None,
            })
        })
        .collect::<Vec<_>>()
        .join("|");
    assert!(view.contains("SYSTEM"), "sysprompt retained on resume: {view}");
    assert!(!view.contains("handoff"), "handoff tool call hidden: {view}");
    assert!(!view.contains("trigger msg"), "triggering user message hidden: {view}");
}

#[test]
fn extract_route_parses_decision() {
    let mut temp = InMemorySession::new();
    temp.append(call("r", "route", json(r#"{ "topic_id": "abc", "summary": "x" }"#))).unwrap();
    let (id, _) = extract_route(&temp);
    assert_eq!(id.as_deref(), Some("abc"));

    let mut temp = InMemorySession::new();
    temp.append(call("r", "route", json(r#"{ "summary": "x" }"#))).unwrap();
    let (id, _) = extract_route(&temp);
    assert!(id.is_none(), "omitted topic_id ⇒ new topic");
}

#[test]
fn a_parked_topic_is_resumed_by_its_id() {
    let mut w = world(
        vec![route_call(None), route_call(None)],
        vec![text_reply("a"), handoff_call(), text_reply("b")],
    );
    w.inbox.push_back(user("rust"));
    let a = w.finish_turn();
    let topic = w.mux.topic_id_of(a).unwrap();
    w.inbox.push_back(user("food"));
    let b = w.finish_other_turn(a);

    w.router_turns.push_back(route_call(Some(&topic)));
    w.topic_turns.as_mut().unwrap().push_back(handoff_call());
    w.topic_turns.as_mut().unwrap().push_back(text_reply("a again"));
    w.inbox.push_back(user("rust again"));
    let c = w.finish_other_turn(b);
    assert_eq!(w.mux.topic_id_of(c), Some(topic), "the same fork goes on");
    assert_ne!(c, a, "the run that ended is replaced");
    let seen = texts(w.seen.last().unwrap());
    assert!(seen.contains("rust again") && seen.contains("SYSTEM"), "{seen}");
    assert!(!seen.contains("food"), "{seen}");
}

#[test]
fn the_router_sees_the_latest_records() {
    let records: Vec<Message> =
        (0..MAX_REGISTRY_RECORDS + 3).map(|i| registry_record(&format!("t{i}"), "s")).collect();
    let session = router_session(&records);
    assert_eq!(session.messages().len(), MAX_REGISTRY_RECORDS + 1);
    assert_eq!(session.messages()[1], records[3]);
    assert_eq!(*session.messages().last().unwrap(), *records.last().unwrap());
}

#[test]
fn routes_and_summaries_have_defaults() {
    let (id, summary) = extract_route(&InMemorySession::new());
    assert_eq!((id, summary.as_str()), (None, "topic"));
    let mut slot = None;
    HandoffTool::execute(&mut slot, &Json::Null);
    HandoffTool::execute(&mut slot, &json(r#"{"summary": "later"}"#));
    assert_eq!(slot.as_deref(), Some("topic"));
    assert_eq!(hide_handoff_exchange(&vec![text_reply("x")]), None);
    let (_, fold) = hide_handoff_exchange(&vec![user("q"), text_reply("x")]).unwrap();
    assert!(fold.custom("session-control-fold").is_some());
}

#[test]
fn a_crash_forgets_the_topic() {
    let mut mux = Mux::new(sysprompt());
    let run = mux.start_topic("t");
    assert_eq!(mux.topic_id_of(run).as_deref(), Some("t"));
    let reduced = mux.vm.step(run, FanEvent::Ended);
    let action = mux.step(MuxEvent::Vm { step: reduced.step, handoff: None });
    assert_eq!(action, MuxAction::Wait);
    assert_eq!(mux.topic_id_of(run), None);
    assert_eq!(mux.step(MuxEvent::Inbox(None)), MuxAction::Stop);
    assert_eq!(mux.step(MuxEvent::Inbox(Some(user("x")))), MuxAction::Route(user("x")));
}

#[test]
fn text_blocks_hold_the_registry_record() {
    let record = registry_record("id-1", "sum");
    assert_eq!(record.role, "user");
    assert!(record.content.contains(&ContentBlock::Text(TextContent {
        content: "summary: sum".to_string()
    })));
}

/// A run that crashes drives its topic no more; the topics of other runs stay.
#[test]
fn a_crash_takes_the_topic_from_its_run() {
    let mut mux = Mux::new(sysprompt());
    let first = mux.start_topic("one");
    let second = mux.start_topic("two");
    assert_eq!(mux.topic_id_of(first).as_deref(), Some("one"));
    let action =
        mux.step(MuxEvent::Vm { step: Some(Step::AgentEnded { id: first }), handoff: None });
    assert_eq!(action, MuxAction::Wait, "another run is typed to");
    assert_eq!(mux.topic_id_of(first), None);
    assert_eq!(mux.topic_id_of(second).as_deref(), Some("two"));
    let kept = mux.step(MuxEvent::Vm {
        step: Some(Step::AgentEnded { id: second }),
        handoff: Some("left".to_string()),
    });
    assert_eq!(kept, MuxAction::HandOff { id: second, summary: "left".to_string() });
    assert_eq!(mux.topic_id_of(second).as_deref(), Some("two"), "a handoff parks, it does not drop");
}

#[test]
fn a_handoff_shows_that_the_turn_is_finished() {
    let mut mux = Mux::new(Message::text("system", "s".to_string()));
    let id = mux.start_topic("t");
    let told = mux.on_handoff(id, "later", None);
    assert_eq!(told.shown, Step::TurnFinished { id });
}

#[test]
fn a_topic_that_does_not_start_uses_up_a_number() {
    let mut mux = Mux::new(Message::text("system", "s".to_string()));
    let first = mux.start_topic("a");
    mux.park();
    mux.topic_not_started();
    let second = mux.start_topic("b");
    assert_eq!(second.0, first.0 + 2);
}

#[test]
fn the_last_route_of_the_router_decides() {
    let mut w = world(vec![route_call(Some("a")), route_call(Some("b"))], vec![]);
    for id in ["first", "second"] {
        w.mgr.append(user(id)).unwrap();
    }
    w.route(user("where to?"));
    assert_eq!(w.calls, 3, "the router is asked until it calls no tool");
    let mut temp = router_session(w.mgr.messages());
    for said in [route_call(Some("a")), route_call(Some("b")), text_reply("done")] {
        temp.append(said).unwrap();
    }
    assert_eq!(extract_route(&temp).0.as_deref(), Some("b"));
}
