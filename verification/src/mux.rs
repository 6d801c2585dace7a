//! One conversation over many topics: every topic is a fork of the main session with a run of
//! its own, and a router decides to which topic a message belongs.
//!
//! The main session is the registry: it holds one record per topic that was left. What runs
//! the agents and keeps the sessions asks here what to do next.
use vstd::prelude::*;

use crate::control::{
    fold_marker, fold_message, is_control, law_fold_behind_a_stop, law_stop_drops_history,
    lemma_markers, rendered, stop_marker, stop_message,
};
use crate::extensions::{
    Extension, ExtensionError, ExtensionErrorV, HookCall, HookCallV, HookReturn, HookReturnV,
};
use crate::json::{law_first_member_is_found, member_views, Json, JsonV};
use crate::mux_session::{nonempty_at, text_member};
use crate::names::{distinct, lemma_place, lemma_place_is, lookup, place, put, NameMap};
use crate::params::{
    law_parameters_declare_an_object, parameters, parameters_schema, text_parameter,
    text_parameter_schema,
};
use crate::session::InMemorySession;
use crate::text::{concat2, concat3, opt_view, same, views};
use crate::types::{
    blocks_text, first_custom, law_text_is_read_in_order, text_message, text_result, BlockV, ContentBlock, Message, MessageV, TextContent, ToolCallV,
    ToolDefinition, ToolDefinitionV, ToolResult,
};
use crate::viewmodel::{step_id, step_run, AgentId, Step, ViewModel, ViewModelV};

verus! {

/// The router sees no more than this many records, the latest.
pub const MAX_REGISTRY_RECORDS: usize = 64;

/// What the router is told first.
pub open spec fn router_instructions() -> Seq<char> {
    "You are a routing agent for a multi-topic conversation. Each topic lives in its own session so unrelated messages do not pollute the context. You are given the latest user message and a list of existing topics (each with a `topic_id` and `summary`).\n\nDecide which topic should handle the latest message, then call the `route` tool exactly once:\n\n- Pass the `topic_id` of an existing topic whose summary matches the latest message, to resume it.\n- Omit `topic_id` (or pass an empty value) to start a new topic.\n- Always include a short `summary` describing the topic you route to.\n\nDecide immediately and call `route` \u{2014} do not answer the user yourself.\n"@
}

/// The session in which the router decides: its instructions and the latest records.
pub open spec fn router_view(records: Seq<MessageV>) -> Seq<MessageV> {
    let from = if records.len() > MAX_REGISTRY_RECORDS {
        records.len() - MAX_REGISTRY_RECORDS
    } else {
        0
    };
    seq![text_message("user"@, router_instructions())] + records.skip(from)
}

/// Builds the session in which the router decides.
pub fn router_session(records: &Vec<Message>) -> (r: InMemorySession)
    ensures
        r@ == router_view(views(records@)),
{
    let total: usize = records.len();
    let from: usize = if total > MAX_REGISTRY_RECORDS {
        total - MAX_REGISTRY_RECORDS
    } else {
        0
    };
    let mut out: Vec<Message> = Vec::new();
    let prompt = Message::text("user", "You are a routing agent for a multi-topic conversation. Each topic lives in its own session so unrelated messages do not pollute the context. You are given the latest user message and a list of existing topics (each with a `topic_id` and `summary`).\n\nDecide which topic should handle the latest message, then call the `route` tool exactly once:\n\n- Pass the `topic_id` of an existing topic whose summary matches the latest message, to resume it.\n- Omit `topic_id` (or pass an empty value) to start a new topic.\n- Always include a short `summary` describing the topic you route to.\n\nDecide immediately and call `route` \u{2014} do not answer the user yourself.\n".to_owned());
    let ghost asked = prompt@;
    out.push(prompt);
    let mut latest = crate::control::copy_range(records, from, total);
    let ghost more = views(latest@);
    out.append(&mut latest);
    proof {
        assert(more =~= views(records@).skip(from as int));
        assert(views(out@) =~= seq![asked] + more);
    }
    InMemorySession::of(out)
}

/// What routing costs does not grow with the number of topics.
pub proof fn law_router_context_is_bounded(records: Seq<MessageV>)
    ensures
        router_view(records).len() <= MAX_REGISTRY_RECORDS + 1,
        records.len() > 0 ==> router_view(records).last() == records.last(),
{
}

/// What the registry is told of a topic that is left.
pub open spec fn registry_entry(topic_id: Seq<char>, summary: Seq<char>) -> MessageV {
    MessageV {
        role: "user"@,
        content: seq![
            BlockV::Text("topic_id: "@ + topic_id + "\n"@),
            BlockV::Text("summary: "@ + summary),
        ],
    }
}

/// Builds what the registry is told of a topic that is left.
pub fn registry_record(topic_id: &str, summary: &str) -> (r: Message)
    ensures
        r@ == registry_entry(topic_id@, summary@),
{
    let mut content: Vec<ContentBlock> = Vec::new();
    content.push(
        ContentBlock::Text(TextContent { content: concat3("topic_id: ", topic_id, "\n") }),
    );
    content.push(ContentBlock::Text(TextContent { content: concat2("summary: ", summary) }));
    assert(views(content@) =~= registry_entry(topic_id@, summary@).content);
    Message { role: "user".to_owned(), content }
}

/// The place of the user's last message.
pub open spec fn last_user(messages: Seq<MessageV>) -> Option<int>
    decreases messages.len(),
{
    if messages.len() == 0 {
        None
    } else if messages.last().role == "user"@ {
        Some(messages.len() - 1)
    } else {
        last_user(messages.drop_last())
    }
}

/// The place found is the user's, and no later one is.
pub proof fn law_last_user(messages: Seq<MessageV>)
    ensures
        match last_user(messages) {
            Some(k) => {
                &&& 0 <= k < messages.len()
                &&& messages[k].role == "user"@
                &&& forall|i: int| k < i < messages.len() ==> (#[trigger] messages[i]).role
                    != "user"@
            },
            None => forall|i: int|
                0 <= i < messages.len() ==> (#[trigger] messages[i]).role != "user"@,
        },
    decreases messages.len(),
{
    if messages.len() > 0 && messages.last().role != "user"@ {
        law_last_user(messages.drop_last());
        let head = messages.drop_last();
        assert forall|i: int| 0 <= i < head.len() implies (#[trigger] messages[i]) == head[i] by {}
    }
}

/// The place of the user's last message.
fn last_user_place(messages: &Vec<Message>) -> (r: Option<usize>)
    ensures
        match r {
            Some(k) => last_user(views(messages@)) == Some(k as int) && k < messages@.len(),
            None => last_user(views(messages@)) is None,
        },
{
    let ghost all = views(messages@);
    let mut i: usize = messages.len();
    assert(all.take(i as int) =~= all);
    while i > 0
        invariant
            i <= messages@.len(),
            all == views(messages@),
            last_user(all) == last_user(all.take(i as int)),
        decreases i,
    {
        proof {
            assert(all.take(i as int).last() == messages@[i - 1]@);
            assert(all.take(i as int).drop_last() =~= all.take(i - 1));
        }
        i -= 1;
        if messages[i].plays("user") {
            return Some(i);
        }
    }
    None
}

/// What there is to do once a topic was handed off.
#[derive(Debug, PartialEq)]
pub struct Handoff {
    /// Goes to the registry.
    pub record: Option<Message>,
    /// Goes to the topic's fork, with its id: hides the exchange in which it was handed off.
    pub fold: Option<(String, Message)>,
    /// Is to be routed: the message that made the topic hand off.
    pub reroute: Option<Message>,
    /// What a frontend is to render behind all this: the last turn of the run is over, so that
    /// it starts afresh with the next topic.
    pub shown: Step,
}

/// The exchange of a handoff, hidden in the topic's fork: everything from the user's last
/// message on, with nothing in its place. Returns the fold with its id.
pub fn hide_handoff_exchange(fork: &Vec<Message>) -> (r: Option<(String, Message)>)
    ensures
        match (last_user(views(fork@)), r) {
            (Some(start), Some((id, fold))) => fold@ == fold_marker(
                start as u64,
                fork@.len() as u64,
                id@,
                ""@,
            ),
            (None, None) => true,
            _ => false,
        },
{
    match last_user_place(fork) {
        Some(start) => Some(fold_message(start, fork.len(), "")),
        None => None,
    }
}

/// Entering a topic again does not show its own handoff: behind the hiding fold the model sees
/// what was said in the topic before the user's last message, and nothing of the registry.
pub proof fn law_handoff_is_hidden(
    registry: Seq<MessageV>,
    topic: Seq<MessageV>,
    id: Seq<char>,
    start: int,
)
    requires
        forall|i: int| 0 <= i < topic.len() ==> !is_control(#[trigger] topic[i]),
        last_user(registry.push(stop_marker()) + topic) == Some(start),
        registry.len() < start,
        registry.len() + 1 + topic.len() <= u64::MAX,
    ensures
        ({
            let fork = registry.push(stop_marker()) + topic;
            rendered(fork.push(fold_marker(start as u64, fork.len() as u64, id, ""@)))
                == topic.take(start - registry.len() - 1)
        }),
{
    let fork = registry.push(stop_marker()) + topic;
    law_last_user(fork);
    lemma_markers(0, 0, id, id);
    reveal_strlit("");
    law_fold_behind_a_stop(
        registry,
        stop_marker(),
        topic,
        start as u64,
        fork.len() as u64,
        id,
        ""@,
    );
    let lo = start - registry.len() - 1;
    assert(topic.skip(topic.len() as int) =~= Seq::empty());
    assert(topic.take(lo) + Seq::empty() + topic.skip(topic.len() as int) =~= topic.take(lo));
}

/// What a fresh topic is told: a stop, so that nothing of the registry shows, and its
/// instructions.
pub open spec fn topic_start(sysprompt: MessageV) -> Seq<MessageV> {
    seq![stop_marker(), sysprompt]
}

/// A fresh topic sees its instructions and what is said in it, and nothing of the registry.
pub proof fn law_new_topic_sees_no_registry(
    registry: Seq<MessageV>,
    sysprompt: MessageV,
    said: Seq<MessageV>,
)
    requires
        !is_control(sysprompt),
        forall|i: int| 0 <= i < said.len() ==> !is_control(#[trigger] said[i]),
    ensures
        rendered(registry + topic_start(sysprompt) + said) == seq![sysprompt] + said,
{
    let fresh = seq![sysprompt] + said;
    lemma_markers(0, 0, ""@, ""@);
    assert forall|i: int| 0 <= i < fresh.len() implies !is_control(#[trigger] fresh[i]) by {
        if i > 0 {
            assert(fresh[i] == said[i - 1]);
        }
    }
    law_stop_drops_history(registry, stop_marker(), fresh);
    assert(registry + topic_start(sysprompt) + said =~= registry.push(stop_marker()) + fresh);
}

/// The first call of the `route` tool among the blocks.
pub open spec fn route_call(blocks: Seq<BlockV>) -> Option<ToolCallV>
    decreases blocks.len(),
{
    if blocks.len() == 0 {
        None
    } else {
        match blocks[0] {
            BlockV::ToolCall(call) if call.name == "route"@ => Some(call),
            _ => route_call(blocks.skip(1)),
        }
    }
}

/// The call of the `route` tool in the last message of the assistant that makes one.
pub open spec fn last_route(messages: Seq<MessageV>) -> Option<ToolCallV>
    decreases messages.len(),
{
    if messages.len() == 0 {
        None
    } else if messages.last().role == "assistant"@ && route_call(
        messages.last().content,
    ) is Some {
        route_call(messages.last().content)
    } else {
        last_route(messages.drop_last())
    }
}

/// A message of the assistant that makes a route.
pub open spec fn routes(message: MessageV) -> bool {
    message.role == "assistant"@ && route_call(message.content) is Some
}

/// The last route decides, whatever was said before it, and whatever is said behind it without
/// another route.
pub proof fn law_last_route_decides(
    before: Seq<MessageV>,
    decision: MessageV,
    after: Seq<MessageV>,
)
    requires
        routes(decision),
        forall|i: int| 0 <= i < after.len() ==> !routes(#[trigger] after[i]),
    ensures
        last_route(before.push(decision) + after) == route_call(decision.content),
    decreases after.len(),
{
    let all = before.push(decision) + after;
    if after.len() == 0 {
        assert(all =~= before.push(decision));
    } else {
        assert(all.last() == after[after.len() - 1]);
        assert forall|i: int| 0 <= i < after.drop_last().len() implies !routes(
            #[trigger] after.drop_last()[i],
        ) by {
            assert(!routes(after[i]));
        }
        law_last_route_decides(before, decision, after.drop_last());
        assert(all.drop_last() =~= before.push(decision) + after.drop_last());
    }
}

/// The summary among parameters, or a word for any topic.
pub open spec fn summary_of(params: JsonV) -> Seq<char> {
    match params.text_at("summary"@) {
        Some(t) => t,
        None => "topic"@,
    }
}

/// The summary among parameters, or a word for any topic.
fn read_summary(params: &Json) -> (r: String)
    ensures
        r@ == summary_of(params@),
{
    match params.text_at("summary") {
        Some(t) => t,
        None => "topic".to_owned(),
    }
}

/// The arguments of the first call of the `route` tool among the blocks.
fn find_route(blocks: &Vec<ContentBlock>) -> (r: Option<&Json>)
    ensures
        match r {
            Some(arguments) => route_call(views(blocks@)) matches Some(call) && call.arguments
                == arguments@,
            None => route_call(views(blocks@)) is None,
        },
{
    let ghost all = views(blocks@);
    let mut i: usize = 0;
    assert(all.skip(0) =~= all);
    while i < blocks.len()
        invariant
            i <= blocks@.len(),
            all == views(blocks@),
            route_call(all) == route_call(all.skip(i as int)),
        decreases blocks@.len() - i,
    {
        proof {
            assert(all.skip(i as int)[0] == blocks@[i as int]@);
            assert(all.skip(i as int).skip(1) =~= all.skip(i + 1));
        }
        match &blocks[i] {
            ContentBlock::ToolCall(call) => {
                if same(call.name.as_str(), "route") {
                    return Some(&call.arguments);
                }
            },
            _ => {},
        }
        i += 1;
    }
    None
}

/// Reads the router's decision out of its session: the topic to go on with, where it names
/// one, and the topic's summary.
pub fn extract_route(temp: &InMemorySession) -> (r: (Option<String>, String))
    ensures
        match last_route(temp@) {
            Some(call) => opt_view(r.0) == nonempty_at(call.arguments, "topic_id"@) && r.1@
                == summary_of(call.arguments),
            None => r.0 is None && r.1@ == "topic"@,
        },
{
    let messages = temp.messages();
    let ghost all = temp@;
    let mut i: usize = messages.len();
    assert(all.take(i as int) =~= all);
    while i > 0
        invariant
            i <= messages@.len(),
            all == views(messages@),
            all == temp@,
            last_route(all) == last_route(all.take(i as int)),
        decreases i,
    {
        proof {
            assert(all.take(i as int).last() == messages@[i - 1]@);
            assert(all.take(i as int).drop_last() =~= all.take(i - 1));
        }
        i -= 1;
        if messages[i].plays("assistant") {
            match find_route(&messages[i].content) {
                Some(arguments) => {
                    return (text_member(arguments, "topic_id"), read_summary(arguments));
                },
                None => {},
            }
        }
    }
    (None, "topic".to_owned())
}

/// What comes to the multiplexer.
#[derive(Debug, PartialEq)]
pub enum MuxEvent {
    /// What the user says; nothing once nobody can say anything any more.
    Inbox(Option<Message>),
    /// What the runs did, and what the run handed off with, where it did; nothing once there
    /// are no runs to come.
    Vm { step: Option<Step>, handoff: Option<String> },
}

/// What a [`MuxEvent`] is.
#[verifier::ext_equal]
pub enum MuxEventV {
    Inbox(Option<MessageV>),
    Vm { step: Option<Step>, handoff: Option<Seq<char>> },
}

impl View for MuxEvent {
    type V = MuxEventV;

    open spec fn view(&self) -> MuxEventV {
        match self {
            MuxEvent::Inbox(message) => MuxEventV::Inbox(opt_view(*message)),
            MuxEvent::Vm { step, handoff } => MuxEventV::Vm {
                step: *step,
                handoff: opt_view(*handoff),
            },
        }
    }
}

/// What there is to do.
#[derive(Debug, PartialEq)]
pub enum MuxAction {
    /// It is over.
    Stop,
    /// The message goes to the run that is typed to.
    Forward(Message),
    /// The router decides about the message.
    Route(Message),
    /// The run has handed off its topic.
    HandOff { id: AgentId, summary: String },
    /// A frontend is to render the step.
    Show(Step),
    /// There is nothing to do.
    Wait,
}

/// What a [`MuxAction`] is.
#[verifier::ext_equal]
pub enum MuxActionV {
    Stop,
    Forward(MessageV),
    Route(MessageV),
    HandOff { id: AgentId, summary: Seq<char> },
    Show(Step),
    Wait,
}

impl View for MuxAction {
    type V = MuxActionV;

    open spec fn view(&self) -> MuxActionV {
        match self {
            MuxAction::Stop => MuxActionV::Stop,
            MuxAction::Forward(m) => MuxActionV::Forward(m@),
            MuxAction::Route(m) => MuxActionV::Route(m@),
            MuxAction::HandOff { id, summary } => MuxActionV::HandOff {
                id: *id,
                summary: summary@,
            },
            MuxAction::Show(step) => MuxActionV::Show(*step),
            MuxAction::Wait => MuxActionV::Wait,
        }
    }
}

/// How a topic is taken up.
#[derive(Debug, PartialEq)]
pub enum Binding {
    /// Its run goes on: it is typed to again, and the message goes to it.
    Resume(AgentId),
    /// A run starts from its fork. Its former run, where it had one, was dropped.
    Restart { topic_id: String },
    /// A fresh topic is forked.
    New,
}

/// The topic that a run drives.
pub open spec fn topic_of(topics: Seq<(Seq<char>, AgentId)>, run: AgentId) -> Option<Seq<char>>
    decreases topics.len(),
{
    if topics.len() == 0 {
        None
    } else if topics[0].1 == run {
        Some(topics[0].0)
    } else {
        topic_of(topics.skip(1), run)
    }
}

/// The topics that a run does not drive.
pub open spec fn others(topics: Seq<(Seq<char>, AgentId)>, run: AgentId) -> Seq<
    (Seq<char>, AgentId),
>
    decreases topics.len(),
{
    if topics.len() == 0 {
        Seq::empty()
    } else if topics[0].1 == run {
        others(topics.skip(1), run)
    } else {
        seq![topics[0]] + others(topics.skip(1), run)
    }
}

/// Of the topics that a run does not drive, each is one of the topics, and none has that run.
/// Where no two topics share a run, no two of them do.
proof fn lemma_others(topics: Seq<(Seq<char>, AgentId)>, run: AgentId)
    ensures
        forall|i: int|
            0 <= i < others(topics, run).len() ==> topics.contains(
                #[trigger] others(topics, run)[i],
            ) && others(topics, run)[i].1 != run,
        (forall|i: int, j: int|
            0 <= i < j < topics.len() ==> (#[trigger] topics[i]).1 != (#[trigger] topics[j]).1)
            ==> (forall|i: int, j: int|
            0 <= i < j < others(topics, run).len() ==> (#[trigger] others(topics, run)[i]).1 != (
            #[trigger] others(topics, run)[j]).1),
    decreases topics.len(),
{
    if topics.len() > 0 {
        let rest = topics.skip(1);
        let kept = others(rest, run);
        let all = others(topics, run);
        lemma_others(rest, run);
        let head: int = if topics[0].1 == run {
            0
        } else {
            1
        };
        assert forall|i: int| 0 <= i < all.len() implies topics.contains(#[trigger] all[i])
            && all[i].1 != run by {
            if i >= head {
                assert(all[i] == kept[i - head]);
                let k = rest.index_of(kept[i - head]);
                assert(rest[k] == topics[k + 1]);
            } else {
                assert(all[i] == topics[0]);
            }
        }
        if forall|i: int, j: int|
            0 <= i < j < topics.len() ==> (#[trigger] topics[i]).1 != (#[trigger] topics[j]).1 {
            assert forall|i: int, j: int| 0 <= i < j < rest.len() implies (#[trigger] rest[i]).1
                != (#[trigger] rest[j]).1 by {
                assert(rest[i] == topics[i + 1] && rest[j] == topics[j + 1]);
            }
            assert forall|i: int, j: int| 0 <= i < j < all.len() implies (#[trigger] all[i]).1 != (
            #[trigger] all[j]).1 by {
                assert(all[j] == kept[j - head]);
                if i >= head {
                    assert(all[i] == kept[i - head]);
                } else {
                    let k = rest.index_of(kept[j - head]);
                    assert(rest[k] == topics[k + 1]);
                    assert(all[i] == topics[0]);
                }
            }
        }
    }
}

/// What a [`Mux`] is.
#[verifier::ext_equal]
pub struct TopicsV {
    pub vm: ViewModelV,
    pub sysprompt: MessageV,
    /// The run of each topic, by the topic's id.
    pub topics: Seq<(Seq<char>, AgentId)>,
}

impl TopicsV {
    /// The same topics over another view model.
    pub open spec fn over(self, vm: ViewModelV) -> TopicsV {
        TopicsV { vm, sysprompt: self.sysprompt, topics: self.topics }
    }

    /// A run drives no topic any more.
    pub open spec fn forgot(self, run: AgentId) -> TopicsV {
        TopicsV {
            vm: self.vm,
            sysprompt: self.sysprompt,
            topics: others(self.topics, run),
        }
    }

    /// What there is to do about an event, and what is known afterwards.
    pub open spec fn decided(self, event: MuxEventV) -> (TopicsV, MuxActionV) {
        match event {
            MuxEventV::Inbox(None) => (self, MuxActionV::Stop),
            MuxEventV::Inbox(Some(message)) => if self.vm.focus is Some {
                (self, MuxActionV::Forward(message))
            } else {
                (self, MuxActionV::Route(message))
            },
            MuxEventV::Vm { step: None, .. } => (self, MuxActionV::Stop),
            MuxEventV::Vm { step: Some(step), handoff } => {
                let id = step_run(step);
                let seen = if self.vm.focus == Some(id) {
                    MuxActionV::Show(step)
                } else {
                    MuxActionV::Wait
                };
                match (step, handoff) {
                    (Step::AgentEnded { .. }, Some(summary)) => (
                        self,
                        MuxActionV::HandOff { id, summary },
                    ),
                    (Step::AgentEnded { .. }, None) => (self.forgot(id), seen),
                    _ => (self, seen),
                }
            },
        }
    }

    /// A topic is taken up, where the router names one that is kept.
    pub open spec fn bound(self, topic_id: Option<Seq<char>>) -> TopicsV {
        match topic_id {
            Some(topic_id) => match lookup(self.topics, topic_id) {
                Some(run) => if self.vm.runs.contains_key(run.0) && !self.vm.runs[run.0].ended {
                    self.over(self.vm.attached(run, true))
                } else {
                    self.over(self.vm.stopped(run))
                },
                None => self,
            },
            None => self,
        }
    }

    /// Nothing is typed to, and what was is not shown.
    pub open spec fn parked(self) -> TopicsV {
        match self.vm.focus {
            Some(run) => self.over(self.vm.detached(run, true)),
            None => self,
        }
    }

    /// A run was started for a topic.
    pub open spec fn started(self, topic_id: Seq<char>) -> TopicsV {
        TopicsV {
            vm: self.vm.started(),
            sysprompt: self.sysprompt,
            topics: put(self.topics, topic_id, AgentId(self.vm.next_id)),
        }
    }

    /// Every run that drives a topic was numbered before the next one, and none drives two.
    pub open spec fn wf(self) -> bool {
        &&& forall|i: int|
            0 <= i < self.topics.len() ==> (#[trigger] self.topics[i]).1.0 < self.vm.next_id
        &&& forall|i: int, j: int|
            0 <= i < j < self.topics.len() ==> (#[trigger] self.topics[i]).1 != (
            #[trigger] self.topics[j]).1
    }
}

/// Runs the topics of one user.
pub struct Mux {
    pub vm: ViewModel,
    pub sysprompt: Message,
    pub topics: NameMap<AgentId>,
}

impl View for Mux {
    type V = TopicsV;

    open spec fn view(&self) -> TopicsV {
        TopicsV { vm: self.vm@, sysprompt: self.sysprompt@, topics: self.topics@ }
    }
}

impl Mux {
    /// A multiplexer without topics. Every fresh topic is told the instructions.
    pub fn new(sysprompt: Message) -> (r: Mux)
        ensures
            r@ == (TopicsV {
                vm: ViewModelV::empty(),
                sysprompt: sysprompt@,
                topics: Seq::empty(),
            }),
            r@.wf(),
    {
        Mux { vm: ViewModel::new(), sysprompt, topics: NameMap::new() }
    }

    /// The topic that a run drives.
    pub fn topic_id_of(&self, run: AgentId) -> (r: Option<String>)
        ensures
            opt_view(r) == topic_of(self@.topics, run),
    {
        let ghost all = self.topics@;
        let mut i: usize = 0;
        assert(all.skip(0) =~= all);
        while i < self.topics.len()
            invariant
                i <= all.len(),
                all == self.topics@,
                topic_of(all, run) == topic_of(all.skip(i as int), run),
            decreases all.len() - i,
        {
            proof {
                assert(all.skip(i as int)[0] == all[i as int]);
                assert(all.skip(i as int).skip(1) =~= all.skip(i + 1));
            }
            let entry = self.topics.at(i);
            if entry.1.0 == run.0 {
                return Some(entry.0.clone());
            }
            i += 1;
        }
        None
    }

    /// Forgets the topics that a run drives.
    fn forget(&mut self, run: AgentId)
        ensures
            final(self)@ == old(self)@.forgot(run),
    {
        let ghost all = self.topics@;
        let ghost before = *self;
        let mut i: usize = 0;
        assert(all.take(0) + others(all.skip(0), run) =~= others(all, run)) by {
            assert(all.skip(0) =~= all);
        }
        while i < self.topics.len()
            invariant
                i <= self.topics@.len(),
                self.vm == before.vm,
                self.sysprompt == before.sysprompt,
                others(all, run) == self.topics@.take(i as int) + others(
                    self.topics@.skip(i as int),
                    run,
                ),
            decreases self.topics@.len() - i,
        {
            let ghost now = self.topics@;
            let ghost rest = now.skip(i as int);
            assert(rest[0] == now[i as int]);
            assert(rest.skip(1) =~= now.skip(i + 1));
            let entry = self.topics.at(i);
            if entry.1.0 == run.0 {
                self.topics.remove_at(i);
                proof {
                    assert(self.topics@.take(i as int) =~= now.take(i as int));
                    assert(self.topics@.skip(i as int) =~= now.skip(i + 1));
                }
            } else {
                proof {
                    assert(now.take(i as int) + (seq![rest[0]] + others(now.skip(i + 1), run))
                        =~= now.take(i + 1) + others(now.skip(i + 1), run));
                }
                i += 1;
            }
        }
        proof {
            let now = self.topics@;
            assert(now.skip(now.len() as int) =~= Seq::empty());
            assert(now.take(now.len() as int) + Seq::empty() =~= now);
        }
    }

    /// Decides what to do about an event.
    pub fn step(&mut self, event: MuxEvent) -> (r: MuxAction)
        ensures
            (final(self)@, r@) == old(self)@.decided(event@),
            old(self)@.wf() ==> final(self)@.wf(),
    {
        proof {
            if self@.wf() {
                law_events_keep_topics_apart(self@, event@);
            }
        }
        match event {
            MuxEvent::Inbox(None) => MuxAction::Stop,
            MuxEvent::Inbox(Some(message)) => if self.vm.focus().is_some() {
                MuxAction::Forward(message)
            } else {
                MuxAction::Route(message)
            },
            MuxEvent::Vm { step: None, handoff: _ } => MuxAction::Stop,
            MuxEvent::Vm { step: Some(step), handoff } => {
                let id = step_id(&step);
                match step {
                    Step::AgentEnded { .. } => match handoff {
                        Some(summary) => {
                            return MuxAction::HandOff { id, summary };
                        },
                        None => {
                            self.forget(id);
                        },
                    },
                    _ => {},
                }
                match self.vm.focus() {
                    Some(focus) => if focus.0 == id.0 {
                        MuxAction::Show(step)
                    } else {
                        MuxAction::Wait
                    },
                    None => MuxAction::Wait,
                }
            },
        }
    }

    /// Parks a topic that was handed off, given its fork where it is kept. Returns what to
    /// write down and what to route next.
    pub fn on_handoff(&mut self, id: AgentId, summary: &str, fork: Option<&Vec<Message>>) -> (r:
        Handoff)
        ensures
            final(self)@ == old(self)@.over(old(self)@.vm.detached(id, true)),
            old(self)@.wf() ==> final(self)@.wf(),
            r.shown == (Step::TurnFinished { id }),
            match topic_of(old(self)@.topics, id) {
                None => r.record is None && r.fold is None && r.reroute is None,
                Some(topic_id) => {
                    &&& opt_view(r.record) == Some(registry_entry(topic_id, summary@))
                    &&& recorded_topic(r.record->0@) == Some(topic_id)
                    &&& match fork {
                        Some(fork) => match last_user(views(fork@)) {
                            Some(start) => {
                                &&& opt_view(r.reroute) == Some(views(fork@)[start])
                                &&& r.fold matches Some((fold_id, fold))
                                &&& fold@ == fold_marker(
                                    start as u64,
                                    fork@.len() as u64,
                                    fold_id@,
                                    ""@,
                                )
                            },
                            None => r.fold is None && r.reroute is None,
                        },
                        None => r.fold is None && r.reroute is None,
                    }
                },
            },
    {
        let mut record: Option<Message> = None;
        let mut fold: Option<(String, Message)> = None;
        let mut reroute: Option<Message> = None;
        match self.topic_id_of(id) {
            Some(topic_id) => {
                record = Some(registry_record(topic_id.as_str(), summary));
                proof {
                    law_records_name_their_topic(topic_id@, summary@);
                }
                match fork {
                    Some(fork) => {
                        fold = hide_handoff_exchange(fork);
                        match last_user_place(fork) {
                            Some(start) => {
                                reroute = Some(fork[start].clone());
                            },
                            None => {},
                        }
                    },
                    None => {},
                }
            },
            None => {},
        }
        self.vm.detach(id, true);
        Handoff { record, fold, reroute, shown: Step::TurnFinished { id } }
    }

    /// Takes up the topic that the router names, where it is kept, or a fresh one.
    pub fn bind(&mut self, topic_id: Option<String>, kept: bool) -> (r: Binding)
        ensures
            final(self)@ == old(self)@.bound(
                if kept {
                    opt_view(topic_id)
                } else {
                    None
                },
            ),
            old(self)@.wf() ==> final(self)@.wf(),
            match r {
                Binding::Resume(run) => kept && (topic_id matches Some(t) && lookup(
                    old(self)@.topics,
                    t@,
                ) == Some(run) && old(self)@.vm.runs.contains_key(run.0) && !old(
                    self)@.vm.runs[run.0].ended),
                Binding::Restart { topic_id: t } => kept && opt_view(topic_id) == Some(t@) && (
                lookup(old(self)@.topics, t@) matches Some(run) ==> !(old(
                    self)@.vm.runs.contains_key(run.0) && !old(self)@.vm.runs[run.0].ended)),
                Binding::New => !kept || topic_id is None,
            },
            r matches Binding::Resume(run) ==> final(self)@.vm.focus == Some(run) && final(
                self)@.vm.output.contains(run.0),
    {
        match topic_id {
            Some(t) => if kept {
                let run = match self.topics.get(t.as_str()) {
                    Some(run) => Some(*run),
                    None => None,
                };
                match run {
                    Some(run) => {
                        if self.vm.is_running(run) {
                            self.vm.attach(run, true);
                            return Binding::Resume(run);
                        }
                        let _ = self.vm.stop(run);
                    },
                    None => {},
                }
                Binding::Restart { topic_id: t }
            } else {
                Binding::New
            },
            None => Binding::New,
        }
    }

    /// What a fresh topic is told.
    pub fn topic_messages(&self) -> (r: Vec<Message>)
        ensures
            views(r@) == topic_start(self@.sysprompt),
    {
        let mut out: Vec<Message> = Vec::new();
        out.push(stop_message());
        out.push(self.sysprompt.clone());
        assert(views(out@) =~= topic_start(self@.sysprompt));
        out
    }

    /// Makes way for a topic: only the topic that is typed to is shown.
    pub fn park(&mut self)
        ensures
            final(self)@ == old(self)@.parked(),
            old(self)@.wf() ==> final(self)@.wf(),
    {
        match self.vm.focus() {
            Some(run) => {
                self.vm.detach(run, true);
            },
            None => {},
        }
    }

    /// Notes that no run could be started for a topic: its number is spent all the same.
    pub fn topic_not_started(&mut self)
        requires
            old(self)@.vm.next_id < u64::MAX,
        ensures
            final(self)@ == old(self)@.over(old(self)@.vm.numbered()),
            old(self)@.wf() ==> final(self)@.wf(),
    {
        self.vm.not_started();
    }

    /// Notes that a run was started for a topic.
    pub fn start_topic(&mut self, topic_id: &str) -> (run: AgentId)
        requires
            old(self)@.vm.next_id < u64::MAX,
        ensures
            run == AgentId(old(self)@.vm.next_id),
            final(self)@ == old(self)@.started(topic_id@),
            old(self)@.wf() ==> final(self)@.wf(),
    {
        proof {
            if self@.wf() {
                law_no_run_drives_two_topics(self@, topic_id@);
            }
        }
        let run = self.vm.start();
        self.topics.insert(topic_id.to_owned(), run);
        run
    }
}

/// A run drives one topic at most: starting another never takes a run that drives one.
pub proof fn law_no_run_drives_two_topics(mux: TopicsV, topic_id: Seq<char>)
    requires
        mux.wf(),
        mux.vm.next_id < u64::MAX,
    ensures
        mux.started(topic_id).wf(),
        lookup(mux.started(topic_id).topics, topic_id) == Some(AgentId(mux.vm.next_id)),
{
    let run = AgentId(mux.vm.next_id);
    let after = mux.started(topic_id);
    crate::names::law_put(mux.topics, topic_id, run, topic_id);
    crate::names::lemma_place(mux.topics, topic_id, 0);
    let at = place(mux.topics, topic_id, 0);
    assert forall|i: int| 0 <= i < after.topics.len() implies (#[trigger] after.topics[i]).1.0
        < after.vm.next_id by {
        if i != at {
            assert(after.topics[i] == mux.topics[i]);
        }
    }
    assert forall|i: int, j: int| 0 <= i < j < after.topics.len() implies (
    #[trigger] after.topics[i]).1 != (#[trigger] after.topics[j]).1 by {
        if i != at {
            assert(after.topics[i] == mux.topics[i]);
        }
        if j != at {
            assert(after.topics[j] == mux.topics[j]);
        }
    }
}

/// An event takes topics from runs and gives none: a run still drives one topic at most, and
/// one that is over without a handoff drives none.
pub proof fn law_events_keep_topics_apart(mux: TopicsV, event: MuxEventV)
    requires
        mux.wf(),
    ensures
        mux.decided(event).0.wf(),
        event matches MuxEventV::Vm { step: Some(Step::AgentEnded { id }), handoff: None }
            ==> topic_of(mux.decided(event).0.topics, id) is None,
{
    match event {
        MuxEventV::Vm { step: Some(Step::AgentEnded { id }), handoff: None } => {
            lemma_others(mux.topics, id);
            let left = others(mux.topics, id);
            assert forall|i: int| 0 <= i < left.len() implies (#[trigger] left[i]).1.0
                < mux.vm.next_id by {
                let k = mux.topics.index_of(left[i]);
                assert(mux.topics[k] == left[i]);
            }
            lemma_drives_none(left, id);
        },
        _ => {},
    }
}

/// A run that stands behind no topic drives none.
proof fn lemma_drives_none(topics: Seq<(Seq<char>, AgentId)>, run: AgentId)
    requires
        forall|i: int| 0 <= i < topics.len() ==> (#[trigger] topics[i]).1 != run,
    ensures
        topic_of(topics, run) is None,
    decreases topics.len(),
{
    if topics.len() > 0 {
        let rest = topics.skip(1);
        assert forall|i: int| 0 <= i < rest.len() implies (#[trigger] rest[i]).1 != run by {
            assert(rest[i] == topics[i + 1]);
        }
        lemma_drives_none(rest, run);
    }
}

/// Only the topic that is typed to is shown, and what the user says goes to it as long as
/// there is one.
pub proof fn law_only_the_focus_is_shown(mux: TopicsV, event: MuxEventV)
    ensures
        mux.decided(event).1 matches MuxActionV::Show(step) ==> mux.vm.focus == Some(
            step_run(step),
        ),
        mux.decided(event).1 is Forward ==> mux.vm.focus is Some,
        mux.decided(event).1 is Route ==> mux.vm.focus is None,
        mux.decided(event).0.vm == mux.vm,
{
}

/// What a slot holds once the handoff tool was called: the first summary stays.
pub open spec fn slot_after(slot: Option<Seq<char>>, params: JsonV) -> Option<Seq<char>> {
    if slot is Some {
        slot
    } else {
        Some(summary_of(params))
    }
}

/// The router's only tool: what it is called with says where the message goes.
pub struct RouteTool;

impl RouteTool {
    /// What a model is told of the tool.
    pub open spec fn declared() -> ToolDefinitionV {
        ToolDefinitionV {
            name: "route"@,
            description:
                "Select the topic to handle the latest user message. Pass `topic_id` to resume an existing topic (matched against the listed summaries); omit it to start a new topic. Always include a short `summary` of the topic."@,
            parameters: parameters_schema(
                seq![
                    (
                        "summary"@,
                        text_parameter_schema(
                            "Short summary of the topic, used for future routing."@,
                        ),
                    ),
                    (
                        "topic_id"@,
                        text_parameter_schema(
                            "topic_id of an existing topic to resume; omit or empty for a new topic."@,
                        ),
                    ),
                ],
                seq!["summary"@],
            ),
        }
    }

    /// What a model is told of the tool.
    pub fn definition() -> (r: ToolDefinition)
        ensures
            r@ == RouteTool::declared(),
    {
        let mut properties: Vec<(String, Json)> = Vec::new();
        properties.push(
            (
                "summary".to_owned(),
                text_parameter("Short summary of the topic, used for future routing."),
            ),
        );
        properties.push(
            (
                "topic_id".to_owned(),
                text_parameter(
                    "topic_id of an existing topic to resume; omit or empty for a new topic.",
                ),
            ),
        );
        let mut required: Vec<String> = Vec::new();
        required.push("summary".to_owned());
        proof {
            assert(views(required@) =~= seq!["summary"@]);
            assert(member_views(properties@) =~= seq![
                (
                    "summary"@,
                    text_parameter_schema("Short summary of the topic, used for future routing."@),
                ),
                (
                    "topic_id"@,
                    text_parameter_schema(
                        "topic_id of an existing topic to resume; omit or empty for a new topic."@,
                    ),
                ),
            ]);
        }
        ToolDefinition {
            name: "route".to_owned(),
            description: "Select the topic to handle the latest user message. Pass `topic_id` to resume an existing topic (matched against the listed summaries); omit it to start a new topic. Always include a short `summary` of the topic.".to_owned(),
            parameters: parameters(properties, &required),
        }
    }

    /// Confirms, so that the router's turn ends.
    pub fn execute() -> (r: ToolResult)
        ensures
            r@ == text_result("routed"@, false),
    {
        ToolResult::text("routed".to_owned(), false)
    }
}

/// The tool with which a topic says that the user has changed the subject.
pub struct HandoffTool;

impl HandoffTool {
    /// What a model is told of the tool.
    pub open spec fn declared() -> ToolDefinitionV {
        ToolDefinitionV {
            name: "handoff"@,
            description:
                "Signal that the latest user message belongs to a different topic, with a short `summary` of the current one. Call this instead of answering when the subject has changed."@,
            parameters: parameters_schema(
                seq![
                    (
                        "summary"@,
                        text_parameter_schema(
                            "Short summary of the current topic, used for future routing."@,
                        ),
                    ),
                ],
                seq!["summary"@],
            ),
        }
    }

    /// What a model is told of the tool.
    pub fn definition() -> (r: ToolDefinition)
        ensures
            r@ == HandoffTool::declared(),
    {
        let mut properties: Vec<(String, Json)> = Vec::new();
        properties.push(
            (
                "summary".to_owned(),
                text_parameter("Short summary of the current topic, used for future routing."),
            ),
        );
        let mut required: Vec<String> = Vec::new();
        required.push("summary".to_owned());
        proof {
            assert(views(required@) =~= seq!["summary"@]);
            assert(member_views(properties@) =~= seq![
                (
                    "summary"@,
                    text_parameter_schema(
                        "Short summary of the current topic, used for future routing."@,
                    ),
                ),
            ]);
        }
        ToolDefinition {
            name: "handoff".to_owned(),
            description: "Signal that the latest user message belongs to a different topic, with a short `summary` of the current one. Call this instead of answering when the subject has changed.".to_owned(),
            parameters: parameters(properties, &required),
        }
    }

    /// Notes the summary in the run's slot, unless one stands there, and confirms.
    pub fn execute(slot: &mut Option<String>, params: &Json) -> (r: ToolResult)
        ensures
            opt_view(*final(slot)) == slot_after(opt_view(*old(slot)), params@),
            r@ == text_result("handed off"@, false),
    {
        if slot.is_none() {
            *slot = Some(read_summary(params));
        }
        ToolResult::text("handed off".to_owned(), false)
    }
}

/// Ends a run before its next call of the model, once its slot is filled.
#[derive(Debug, PartialEq)]
pub struct StopAfterHandoff {
    pub slot: Option<String>,
}

/// What the extension answers.
pub open spec fn stop_answer(slot: Option<Seq<char>>, call: HookCallV) -> HookReturnV {
    match call {
        HookCallV::MessageStart(_) if slot is Some => HookReturnV::Messages(
            Err(
                ExtensionErrorV::Stopped {
                    name: "mux/stop-after-handoff"@,
                    message: "topic handed off; ending run"@,
                },
            ),
        ),
        other => other.unchanged(),
    }
}

impl Extension for StopAfterHandoff {
    open spec fn steps(pre: Self, call: HookCallV, post: Self, ret: HookReturnV) -> bool {
        post == pre && ret == stop_answer(opt_view(pre.slot), call)
    }

    open spec fn called(&self) -> Seq<char> {
        "mux/stop-after-handoff"@
    }

    fn name(&self) -> String {
        "mux/stop-after-handoff".to_owned()
    }

    fn handle(&mut self, call: HookCall) -> (ret: HookReturn) {
        match call {
            HookCall::MessageStart(messages) => if self.slot.is_some() {
                HookReturn::Messages(
                    Err(
                        ExtensionError::stopped(
                            "mux/stop-after-handoff",
                            "topic handed off; ending run",
                        ),
                    ),
                )
            } else {
                HookReturn::Messages(Ok(messages))
            },
            other => other.unchanged(),
        }
    }
}

/// The first handoff counts: later calls change nothing, and the model is not called again.
pub proof fn law_first_handoff_counts(
    slot: Option<Seq<char>>,
    params: JsonV,
    later: JsonV,
    messages: Seq<MessageV>,
)
    ensures
        slot_after(slot, params) is Some,
        slot_after(slot_after(slot, params), later) == slot_after(slot, params),
        stop_answer(slot_after(slot, params), HookCallV::MessageStart(messages)).is_error(),
        slot is None ==> slot_after(slot, params) == Some(summary_of(params)),
{
}

/// The topic that a record names: what stands between the words that lead to it and the end of
/// the record's first line.
pub open spec fn recorded_topic(record: MessageV) -> Option<Seq<char>> {
    if record.content.len() == 0 {
        None
    } else {
        match record.content[0] {
            BlockV::Text(line) => if line.len() > 10 && line.take(10) == "topic_id: "@
                && line.last() == '\n' {
                Some(line.subrange(10, line.len() - 1))
            } else {
                None
            },
            _ => None,
        }
    }
}

/// A record says which topic it is about and what the topic is about, the one after the other,
/// as words of the user: the topic that is read from it is the one that it was written for.
pub proof fn law_records_name_their_topic(topic_id: Seq<char>, summary: Seq<char>)
    ensures
        recorded_topic(registry_entry(topic_id, summary)) == Some(topic_id),
        blocks_text(registry_entry(topic_id, summary).content) == "topic_id: "@ + topic_id + "\n"@
            + "summary: "@ + summary,
        registry_entry(topic_id, summary).role == "user"@,
        !is_control(registry_entry(topic_id, summary)),
{
    reveal_strlit("topic_id: ");
    reveal_strlit("\n");
    reveal_strlit("user");
    assert("topic_id: "@.len() == 10);
    assert("\n"@.len() == 1);
    assert("user"@.len() == 4);
    reveal_with_fuel(first_custom, 3);
    let record = registry_entry(topic_id, summary);
    let first = "topic_id: "@ + topic_id + "\n"@;
    let second = "summary: "@ + summary;
    let one = BlockV::Text(first);
    let two = BlockV::Text(second);
    assert(first.take(10) =~= "topic_id: "@);
    assert(first.subrange(10, first.len() - 1) =~= topic_id);
    law_text_is_read_in_order(Seq::empty(), one);
    law_text_is_read_in_order(Seq::empty().push(one), two);
    assert(record.content =~= Seq::<BlockV>::empty().push(one).push(two));
    assert(blocks_text(record.content) =~= first + second);
    assert(first + second =~= "topic_id: "@ + topic_id + "\n"@ + "summary: "@ + summary);
}

/// The records of two topics differ, whatever the topics are about, and so do two records of
/// one topic with two summaries.
pub proof fn law_records_of_topics_differ(
    one: Seq<char>,
    other: Seq<char>,
    summary: Seq<char>,
    other_summary: Seq<char>,
)
    ensures
        registry_entry(one, summary) == registry_entry(other, other_summary) <==> one == other
            && summary == other_summary,
        one != other ==> registry_entry(one, summary).content[0] != registry_entry(
            other,
            other_summary,
        ).content[0],
{
    law_records_name_their_topic(one, summary);
    law_records_name_their_topic(other, other_summary);
    if one == other && registry_entry(one, summary) == registry_entry(other, other_summary) {
        let lead = "topic_id: "@ + one + "\n"@ + "summary: "@;
        assert((lead + summary).skip(lead.len() as int) =~= summary);
        assert((lead + other_summary).skip(lead.len() as int) =~= other_summary);
    }
}

/// The topic that a run drives is the one under whose id the run is kept.
pub proof fn law_a_run_drives_the_topic_it_is_kept_for(
    mux: TopicsV,
    topic_id: Seq<char>,
    run: AgentId,
)
    requires
        mux.wf(),
        distinct(mux.topics),
    ensures
        topic_of(mux.topics, run) == Some(topic_id) <==> lookup(mux.topics, topic_id) == Some(run),
{
    lemma_place(mux.topics, topic_id, 0);
    let at = place(mux.topics, topic_id, 0);
    if lookup(mux.topics, topic_id) == Some(run) {
        lemma_drives(mux.topics, at);
    }
    if topic_of(mux.topics, run) == Some(topic_id) {
        let k = lemma_driven(mux.topics, run);
        lemma_place_is(mux.topics, topic_id, k);
    }
}

/// Where no two topics share a run, the topic at a place is the one that its run drives.
proof fn lemma_drives(topics: Seq<(Seq<char>, AgentId)>, at: int)
    requires
        0 <= at < topics.len(),
        forall|i: int, j: int|
            0 <= i < j < topics.len() ==> (#[trigger] topics[i]).1 != (#[trigger] topics[j]).1,
    ensures
        topic_of(topics, topics[at].1) == Some(topics[at].0),
    decreases topics.len(),
{
    if at > 0 {
        let rest = topics.skip(1);
        assert forall|i: int, j: int| 0 <= i < j < rest.len() implies (#[trigger] rest[i]).1 != (
        #[trigger] rest[j]).1 by {
            assert(rest[i] == topics[i + 1] && rest[j] == topics[j + 1]);
        }
        lemma_drives(rest, at - 1);
        assert(rest[at - 1] == topics[at]);
        assert(topics[0].1 != topics[at].1);
    }
}

/// A run that drives a topic stands behind it.
proof fn lemma_driven(topics: Seq<(Seq<char>, AgentId)>, run: AgentId) -> (at: int)
    requires
        topic_of(topics, run) is Some,
    ensures
        0 <= at < topics.len(),
        topics[at] == (topic_of(topics, run)->0, run),
    decreases topics.len(),
{
    if topics[0].1 == run {
        0
    } else {
        let k = lemma_driven(topics.skip(1), run);
        assert(topics.skip(1)[k] == topics[k + 1]);
        k + 1
    }
}

/// The record that a handoff leaves leads back to the topic: routing to the id that is read from
/// it takes up the run that was handed off, as long as it is running.
pub proof fn law_records_lead_back(
    mux: TopicsV,
    topic_id: Seq<char>,
    run: AgentId,
    summary: Seq<char>,
)
    requires
        mux.wf(),
        distinct(mux.topics),
        topic_of(mux.topics, run) == Some(topic_id),
        mux.vm.runs.contains_key(run.0),
        !mux.vm.runs[run.0].ended,
    ensures
        ({
            let read = recorded_topic(registry_entry(topic_id, summary));
            let after = mux.bound(read);
            &&& read == Some(topic_id)
            &&& after.vm.focus == Some(run)
            &&& after.vm.output.contains(run.0)
            &&& after.vm.runs == mux.vm.runs
            &&& after.topics == mux.topics
        }),
{
    law_records_name_their_topic(topic_id, summary);
    law_a_run_drives_the_topic_it_is_kept_for(mux, topic_id, run);
}

/// The router sees its instructions and behind them the latest records, all of them where there
/// are no more than it takes in, the latest last.
pub proof fn law_the_router_sees_the_latest_records(records: Seq<MessageV>)
    ensures
        blocks_text(router_view(records)[0].content) == router_instructions(),
        router_view(records)[0].role == "user"@,
        records.len() <= 64 ==> router_view(records).skip(1) == records,
        records.len() > 64 ==> router_view(records).len() == 65,
        forall|back: int|
            1 <= back < router_view(records).len() ==> #[trigger] router_view(
                records,
            )[router_view(records).len() - back] == records[records.len() - back],
{
    crate::types::law_texts_are_read_back("user"@, router_instructions(), false);
    if records.len() <= 64 {
        assert(router_view(records).skip(1) =~= records);
    }
}

/// What the user says goes, as it was said, to the topic that is typed to, or else to the router;
/// once nothing more is said, there is nothing more to do.
pub proof fn law_words_of_the_user_go_on(mux: TopicsV, message: MessageV)
    ensures
        mux.vm.focus is Some ==> mux.decided(MuxEventV::Inbox(Some(message))).1
            == MuxActionV::Forward(message),
        mux.vm.focus is None ==> mux.decided(MuxEventV::Inbox(Some(message))).1
            == MuxActionV::Route(message),
        mux.decided(MuxEventV::Inbox(Some(message))).0 == mux,
        mux.decided(MuxEventV::Inbox(None)).1 is Stop,
        mux.decided(MuxEventV::Inbox(None)).0 == mux,
{
}

/// A step of the run that is typed to is shown as it is, and one of another run is not; neither
/// touches the topics. A run that ends with a handoff is handed off under its own number and with
/// its own summary.
pub proof fn law_steps_are_shown_or_handed_off(
    mux: TopicsV,
    id: AgentId,
    handoff: Option<Seq<char>>,
    summary: Seq<char>,
)
    ensures
        ({
            let step = Step::Updated { id };
            let seen = mux.decided(MuxEventV::Vm { step: Some(step), handoff });
            &&& seen.0 == mux
            &&& mux.vm.focus == Some(id) ==> seen.1 == MuxActionV::Show(step)
            &&& mux.vm.focus != Some(id) ==> seen.1 is Wait
        }),
        ({
            let step = Step::TurnFinished { id };
            let seen = mux.decided(MuxEventV::Vm { step: Some(step), handoff });
            &&& seen.0 == mux
            &&& mux.vm.focus == Some(id) ==> seen.1 == MuxActionV::Show(step)
            &&& mux.vm.focus != Some(id) ==> seen.1 is Wait
        }),
        ({
            let step = Step::AgentEnded { id };
            let crash = mux.decided(MuxEventV::Vm { step: Some(step), handoff: None });
            let left = mux.decided(MuxEventV::Vm { step: Some(step), handoff: Some(summary) });
            &&& mux.vm.focus == Some(id) ==> crash.1 == MuxActionV::Show(step)
            &&& mux.vm.focus != Some(id) ==> crash.1 is Wait
            &&& crash.0.sysprompt == mux.sysprompt
            &&& left == (mux, MuxActionV::HandOff { id, summary })
        }),
        mux.decided(MuxEventV::Vm { step: None, handoff }) == (mux, MuxActionV::Stop),
{
}

/// A run that is over without a handoff takes its own topics with it, and no others.
pub proof fn law_a_run_that_is_over_loses_its_topics_only(
    mux: TopicsV,
    id: AgentId,
    topic_id: Seq<char>,
    run: AgentId,
)
    ensures
        mux.decided(
            MuxEventV::Vm { step: Some(Step::AgentEnded { id }), handoff: None },
        ).0.topics.contains((topic_id, run)) <==> mux.topics.contains((topic_id, run)) && run != id,
{
    lemma_others_keep(mux.topics, id, (topic_id, run));
}

/// A topic that a run does not drive stays.
proof fn lemma_others_keep(
    topics: Seq<(Seq<char>, AgentId)>,
    run: AgentId,
    topic: (Seq<char>, AgentId),
)
    ensures
        others(topics, run).contains(topic) <==> topics.contains(topic) && topic.1 != run,
    decreases topics.len(),
{
    if topics.len() > 0 {
        let rest = topics.skip(1);
        lemma_others_keep(rest, run, topic);
        let all = others(topics, run);
        let kept = others(rest, run);
        let head: int = if topics[0].1 == run { 0 } else { 1 };
        if all.contains(topic) {
            let k = all.index_of(topic);
            if k < head {
                assert(topics[0] == topic);
            } else {
                assert(kept[k - head] == topic);
                let at = rest.index_of(topic);
                assert(topics[at + 1] == topic);
            }
        }
        if topics.contains(topic) && topic.1 != run {
            let k = topics.index_of(topic);
            if k == 0 {
                assert(all[0] == topic);
            } else {
                assert(rest[k - 1] == topic);
                let at = kept.index_of(topic);
                assert(all[at + head] == topic);
            }
        }
    }
}

/// Taking up a topic does not touch the others. Where its run is over, the run is dropped; where
/// the topic has no run, or none is named, nothing changes.
pub proof fn law_taking_up_a_topic(mux: TopicsV, topic_id: Seq<char>)
    ensures
        mux.bound(None) == mux,
        lookup(mux.topics, topic_id) is None ==> mux.bound(Some(topic_id)) == mux,
        mux.bound(Some(topic_id)).topics == mux.topics,
        mux.bound(Some(topic_id)).sysprompt == mux.sysprompt,
        lookup(mux.topics, topic_id) matches Some(run) ==> {
            let after = mux.bound(Some(topic_id)).vm;
            if mux.vm.runs.contains_key(run.0) && !mux.vm.runs[run.0].ended {
                after.focus == Some(run) && after.output.contains(run.0) && after.runs
                    == mux.vm.runs
            } else {
                &&& !after.runs.contains_key(run.0)
                &&& !after.output.contains(run.0)
                &&& after.focus != Some(run)
                &&& forall|n: u64|
                    n != run.0 && mux.vm.runs.contains_key(n) ==> #[trigger] after.runs[n]
                        == mux.vm.runs[n]
            }
        },
{
}

/// Making way leaves nothing typed to and what was typed to not shown, and every run and every
/// topic as it was: the topic can be taken up again.
pub proof fn law_parked_topics_can_be_taken_up(mux: TopicsV, topic_id: Seq<char>, run: AgentId)
    requires
        mux.vm.focus == Some(run),
        lookup(mux.topics, topic_id) == Some(run),
        mux.vm.runs.contains_key(run.0),
        !mux.vm.runs[run.0].ended,
    ensures
        mux.parked().vm.focus is None,
        !mux.parked().vm.output.contains(run.0),
        mux.parked().vm.runs == mux.vm.runs,
        mux.parked().topics == mux.topics,
        mux.parked().sysprompt == mux.sysprompt,
        mux.parked().bound(Some(topic_id)).vm.focus == Some(run),
        mux.parked().bound(Some(topic_id)).vm.output.contains(run.0),
        mux.parked().parked() == mux.parked(),
{
}

/// A run that is started for a topic is typed to and shown, and the other topics keep theirs.
pub proof fn law_starting_a_topic(mux: TopicsV, topic_id: Seq<char>, other: Seq<char>)
    requires
        mux.wf(),
        mux.vm.next_id < u64::MAX,
    ensures
        lookup(mux.started(topic_id).topics, topic_id) == mux.started(topic_id).vm.focus,
        mux.started(topic_id).vm.focus == Some(AgentId(mux.vm.next_id)),
        mux.started(topic_id).vm.output.contains(mux.vm.next_id),
        mux.started(topic_id).sysprompt == mux.sysprompt,
        other != topic_id ==> lookup(mux.started(topic_id).topics, other) == lookup(
            mux.topics,
            other,
        ),
{
    crate::names::law_put(mux.topics, topic_id, AgentId(mux.vm.next_id), other);
}

/// The first call of the route tool in a message is the one that counts; a message without one
/// routes nothing.
pub proof fn law_first_route_call_counts(
    before: Seq<BlockV>,
    call: ToolCallV,
    after: Seq<BlockV>,
)
    requires
        forall|i: int|
            0 <= i < before.len() ==> !((#[trigger] before[i]) matches BlockV::ToolCall(c) && c.name
                == "route"@),
    ensures
        route_call(before) is None,
        call.name == "route"@ ==> route_call(before.push(BlockV::ToolCall(call)) + after) == Some(
            call,
        ),
    decreases before.len(),
{
    let all = before.push(BlockV::ToolCall(call)) + after;
    if before.len() > 0 {
        let rest = before.skip(1);
        assert forall|i: int| 0 <= i < rest.len() implies !((#[trigger] rest[i]) matches
            BlockV::ToolCall(c) && c.name == "route"@) by {
            assert(rest[i] == before[i + 1]);
        }
        law_first_route_call_counts(rest, call, after);
        assert(all.skip(1) =~= rest.push(BlockV::ToolCall(call)) + after);
        assert(all[0] == before[0]);
    } else {
        assert(all[0] == BlockV::ToolCall(call));
    }
}

/// A topic is described by the text that is given as its summary, and by a word where none is.
pub proof fn law_summaries_are_read(params: JsonV, summary: Seq<char>)
    ensures
        params.get("summary"@) == Some(JsonV::Str(summary)) ==> summary_of(params) == summary,
        !(params.get("summary"@) matches Some(JsonV::Str(_))) ==> summary_of(params) == "topic"@,
        params.get("summary"@) == Some(JsonV::Str(summary)) ==> slot_after(None, params) == Some(
            summary,
        ),
{
}

/// The router's tool goes by the name under which its calls are found, takes the topic and its
/// summary as texts, and asks for the summary only.
pub proof fn law_the_route_tool_is_declared()
    ensures
        RouteTool::declared().name == "route"@,
        RouteTool::declared().parameters.get("type"@) == Some(JsonV::Str("object"@)),
        ({
            let properties = RouteTool::declared().parameters.get("properties"@);
            &&& properties matches Some(p)
            &&& p.get("summary"@) == Some(
                text_parameter_schema("Short summary of the topic, used for future routing."@),
            )
            &&& p.get("topic_id"@) == Some(
                text_parameter_schema(
                    "topic_id of an existing topic to resume; omit or empty for a new topic."@,
                ),
            )
        }),
        ({
            let required = RouteTool::declared().parameters.get("required"@);
            &&& required matches Some(JsonV::Array(names))
            &&& names == seq![JsonV::Str("summary"@)]
        }),
{
    let d = RouteTool::declared();
    let properties = seq![
        (
            "summary"@,
            text_parameter_schema("Short summary of the topic, used for future routing."@),
        ),
        (
            "topic_id"@,
            text_parameter_schema(
                "topic_id of an existing topic to resume; omit or empty for a new topic."@,
            ),
        ),
    ];
    law_parameters_declare_an_object(properties, seq!["summary"@]);
    reveal_strlit("summary");
    reveal_strlit("topic_id");
    assert("summary"@.len() == 7);
    assert("topic_id"@.len() == 8);
    law_first_member_is_found(properties, "summary"@, 0);
    law_first_member_is_found(properties, "topic_id"@, 1);
}

/// The handoff tool takes a summary, which it asks for.
pub proof fn law_the_handoff_tool_is_declared()
    ensures
        HandoffTool::declared().name == "handoff"@,
        HandoffTool::declared().parameters.get("type"@) == Some(JsonV::Str("object"@)),
        ({
            let properties = HandoffTool::declared().parameters.get("properties"@);
            &&& properties matches Some(p)
            &&& p.get("summary"@) == Some(
                text_parameter_schema(
                    "Short summary of the current topic, used for future routing."@,
                ),
            )
        }),
        ({
            let required = HandoffTool::declared().parameters.get("required"@);
            &&& required matches Some(JsonV::Array(names))
            &&& names == seq![JsonV::Str("summary"@)]
        }),
{
    let properties = seq![
        (
            "summary"@,
            text_parameter_schema("Short summary of the current topic, used for future routing."@),
        ),
    ];
    law_parameters_declare_an_object(properties, seq!["summary"@]);
    law_first_member_is_found(properties, "summary"@, 0);
}

/// As long as no topic was handed off, the model is called with what it was to be called with;
/// and whatever else is asked is answered as if nothing stood in the way.
pub proof fn law_runs_go_on_without_a_handoff(slot: Option<Seq<char>>, call: HookCallV)
    ensures
        slot is None || !(call is MessageStart) ==> stop_answer(slot, call) == call.unchanged(),
        slot is Some && call is MessageStart ==> stop_answer(slot, call) == HookReturnV::Messages(
            Err(
                ExtensionErrorV::Stopped {
                    name: "mux/stop-after-handoff"@,
                    message: "topic handed off; ending run"@,
                },
            ),
        ),
{
}

} // verus!
