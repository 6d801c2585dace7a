//! The agent: from a prompt to the model's last word on it.
//!
//! An agent run alternates between decisions and work that others do: its extension, the
//! session that keeps its messages, the provider that streams a response, the tools. A
//! [`AgentRun`] makes the decisions. It hands out one [`Action`] at a time; whoever runs the
//! agent performs it and hands back the [`Event`] that came of it.
use vstd::prelude::*;

use crate::extensions::{
    AgentState, AgentStateV, DecisionV, ExtensionError, ExtensionErrorV, HookCall, HookCallV,
    HookReturn, HookReturnV, ToolCallDecision,
};
use crate::json::{Json, JsonV};
use crate::providers::{
    law_merge_keeps_text_and_calls, Model, ModelV, ProviderError, ProviderErrorV, StreamResponse, StreamResponseV,
};
use crate::session::SessionError;
use crate::text::{concat2, concat3, ends_with, lemma_ends_with, views};
use crate::tools::{
    contains_text, definitions_of, find_tool, lemma_tool_position, ToolError, ToolErrorV,
};
use crate::types::{
    blocks_calls, blocks_text, copy_messages, law_texts_are_read_back, parts_text, tool_calls, BlockV, ContentBlock, Message, MessageV, ResultPartV,
    ToolCall, ToolCallV, ToolDefinition, ToolDefinitionV, ToolResult, ToolResultV,
};

verus! {

/// Why an agent run ended before its prompt was answered.
#[derive(Debug, PartialEq)]
pub enum AgentError {
    Provider(ProviderError),
    Tool(String),
    Extension(ExtensionError),
    Session(SessionError),
    Aborted,
    Other(String),
}

/// What an [`AgentError`] is.
#[verifier::ext_equal]
pub enum AgentErrorV {
    Provider(ProviderErrorV),
    Tool(Seq<char>),
    Extension(ExtensionErrorV),
    Session(Seq<char>),
    Aborted,
    Other(Seq<char>),
}

impl View for AgentError {
    type V = AgentErrorV;

    open spec fn view(&self) -> AgentErrorV {
        match self {
            AgentError::Provider(e) => AgentErrorV::Provider(e@),
            AgentError::Tool(m) => AgentErrorV::Tool(m@),
            AgentError::Extension(e) => AgentErrorV::Extension(e@),
            AgentError::Session(e) => AgentErrorV::Session(e@),
            AgentError::Aborted => AgentErrorV::Aborted,
            AgentError::Other(m) => AgentErrorV::Other(m@),
        }
    }
}

impl AgentErrorV {
    /// The error in words.
    pub open spec fn words(self) -> Seq<char> {
        match self {
            AgentErrorV::Provider(e) => "provider error: "@ + e.words(),
            AgentErrorV::Tool(m) => "tool error: "@ + m,
            AgentErrorV::Extension(e) => "extension error: "@ + e.words(),
            AgentErrorV::Session(m) => "session error: "@ + ("session error: "@ + m),
            AgentErrorV::Aborted => "agent aborted"@,
            AgentErrorV::Other(m) => m,
        }
    }
}

impl AgentError {
    /// The error in words.
    pub fn words(&self) -> (r: String)
        ensures
            r@ == self@.words(),
    {
        match self {
            AgentError::Provider(e) => concat2("provider error: ", e.words().as_str()),
            AgentError::Tool(m) => concat2("tool error: ", m.as_str()),
            AgentError::Extension(e) => concat2("extension error: ", e.words().as_str()),
            AgentError::Session(e) => concat2("session error: ", e.words().as_str()),
            AgentError::Aborted => "agent aborted".to_owned(),
            AgentError::Other(m) => m.clone(),
        }
    }
}

/// Work that an agent run asks for.
#[derive(Debug, PartialEq)]
pub enum Action {
    /// Call the extension.
    Hook(HookCall),
    /// Append a message to the session.
    Append(Message),
    /// Open the provider's stream.
    Stream { model: Model, messages: Vec<Message>, tools: Vec<ToolDefinition> },
    /// Wait for the stream's next chunk.
    NextChunk,
    /// Run a tool.
    Execute { name: String, arguments: Json },
    /// Nothing more: the run is over.
    Finish(Result<(), AgentError>),
}

/// What an [`Action`] is.
#[verifier::ext_equal]
pub enum ActionV {
    Hook(HookCallV),
    Append(MessageV),
    Stream { model: ModelV, messages: Seq<MessageV>, tools: Seq<ToolDefinitionV> },
    NextChunk,
    Execute { name: Seq<char>, arguments: JsonV },
    Finish(Result<(), AgentErrorV>),
}

impl View for Action {
    type V = ActionV;

    open spec fn view(&self) -> ActionV {
        match self {
            Action::Hook(call) => ActionV::Hook(call@),
            Action::Append(m) => ActionV::Append(m@),
            Action::Stream { model, messages, tools } => ActionV::Stream {
                model: model@,
                messages: views(messages@),
                tools: views(tools@),
            },
            Action::NextChunk => ActionV::NextChunk,
            Action::Execute { name, arguments } => ActionV::Execute {
                name: name@,
                arguments: arguments@,
            },
            Action::Finish(Ok(_)) => ActionV::Finish(Ok(())),
            Action::Finish(Err(e)) => ActionV::Finish(Err(e@)),
        }
    }
}

/// What came of an action.
#[derive(Debug, PartialEq)]
pub enum Event {
    /// The extension answered.
    Hooked(HookReturn),
    /// The session took the message, or refused it.
    Appended(Result<(), SessionError>),
    /// The stream is open, or could not be opened.
    Opened(Result<(), ProviderError>),
    /// The stream's next chunk, or its end.
    Chunk(Option<StreamResponse>),
    /// The tool is done.
    Executed(Result<ToolResult, ToolError>),
}

/// What an [`Event`] is.
#[verifier::ext_equal]
pub enum EventV {
    Hooked(HookReturnV),
    Appended(Result<(), Seq<char>>),
    Opened(Result<(), ProviderErrorV>),
    Chunk(Option<StreamResponseV>),
    Executed(Result<ToolResultV, ToolErrorV>),
}

impl View for Event {
    type V = EventV;

    open spec fn view(&self) -> EventV {
        match self {
            Event::Hooked(r) => EventV::Hooked(r@),
            Event::Appended(Ok(_)) => EventV::Appended(Ok(())),
            Event::Appended(Err(e)) => EventV::Appended(Err(e@)),
            Event::Opened(Ok(_)) => EventV::Opened(Ok(())),
            Event::Opened(Err(e)) => EventV::Opened(Err(e@)),
            Event::Chunk(c) => EventV::Chunk(crate::text::opt_view(*c)),
            Event::Executed(r) => EventV::Executed(crate::extensions::res_view(*r)),
        }
    }
}

/// Where an agent run stands: what it is waiting for.
#[derive(Debug, PartialEq)]
pub enum Phase {
    /// The extension, about the start of the run.
    AgentStarting { prompt: Message },
    /// The session, about the prompt.
    Prompting { prompt: Message },
    /// The extension, about the start of a turn.
    TurnStarting,
    /// The extension, about what the provider is to see.
    MessageStarting,
    /// The provider.
    Opening,
    /// The stream's next chunk, behind the response so far.
    Streaming { response: StreamResponse },
    /// The extension, about a chunk.
    Updating { response: StreamResponse, chunk: StreamResponse },
    /// The extension, about the whole response.
    MessageEnding { response: StreamResponse },
    /// The session, about the model's reply.
    Recording { reply: Message },
    /// The extension, about the tool call `at`.
    ToolStarting { calls: Vec<ToolCall>, at: usize },
    /// The tool.
    Executing { calls: Vec<ToolCall>, at: usize },
    /// The extension, about what came of the tool.
    ToolEnding { calls: Vec<ToolCall>, at: usize },
    /// The session, about the answer to the tool call `at`.
    Answering { calls: Vec<ToolCall>, at: usize, answer: Message },
    /// The extension, about the end of a turn.
    TurnEnding,
    /// The extension, about the end of the run.
    AgentEnding,
    /// Nothing.
    Finished,
}

/// What a [`Phase`] is.
#[verifier::ext_equal]
pub enum PhaseV {
    AgentStarting { prompt: MessageV },
    Prompting { prompt: MessageV },
    TurnStarting,
    MessageStarting,
    Opening,
    Streaming { response: StreamResponseV },
    Updating { response: StreamResponseV, chunk: StreamResponseV },
    MessageEnding { response: StreamResponseV },
    Recording { reply: MessageV },
    ToolStarting { calls: Seq<ToolCallV>, at: int },
    Executing { calls: Seq<ToolCallV>, at: int },
    ToolEnding { calls: Seq<ToolCallV>, at: int },
    Answering { calls: Seq<ToolCallV>, at: int, answer: MessageV },
    TurnEnding,
    AgentEnding,
    Finished,
}

impl View for Phase {
    type V = PhaseV;

    open spec fn view(&self) -> PhaseV {
        match self {
            Phase::AgentStarting { prompt } => PhaseV::AgentStarting { prompt: prompt@ },
            Phase::Prompting { prompt } => PhaseV::Prompting { prompt: prompt@ },
            Phase::TurnStarting => PhaseV::TurnStarting,
            Phase::MessageStarting => PhaseV::MessageStarting,
            Phase::Opening => PhaseV::Opening,
            Phase::Streaming { response } => PhaseV::Streaming { response: response@ },
            Phase::Updating { response, chunk } => PhaseV::Updating {
                response: response@,
                chunk: chunk@,
            },
            Phase::MessageEnding { response } => PhaseV::MessageEnding { response: response@ },
            Phase::Recording { reply } => PhaseV::Recording { reply: reply@ },
            Phase::ToolStarting { calls, at } => PhaseV::ToolStarting {
                calls: views(calls@),
                at: *at as int,
            },
            Phase::Executing { calls, at } => PhaseV::Executing {
                calls: views(calls@),
                at: *at as int,
            },
            Phase::ToolEnding { calls, at } => PhaseV::ToolEnding {
                calls: views(calls@),
                at: *at as int,
            },
            Phase::Answering { calls, at, answer } => PhaseV::Answering {
                calls: views(calls@),
                at: *at as int,
                answer: answer@,
            },
            Phase::TurnEnding => PhaseV::TurnEnding,
            Phase::AgentEnding => PhaseV::AgentEnding,
            Phase::Finished => PhaseV::Finished,
        }
    }
}

/// What an [`AgentRun`] is.
#[verifier::ext_equal]
pub struct RunV {
    pub state: AgentStateV,
    pub providers: Seq<Seq<char>>,
    pub phase: PhaseV,
}

/// The answer of the conversation to a tool call.
pub open spec fn tool_answer(id: Seq<char>, result: ToolResultV) -> MessageV {
    MessageV {
        role: "tool"@,
        content: seq![
            BlockV::ToolResult(
                ToolResultV {
                    tool_call_id: Some(id),
                    content: result.content,
                    is_error: result.is_error,
                },
            ),
        ],
    }
}

/// The answer of the conversation to a tool call that was denied.
pub open spec fn denial(id: Seq<char>, reason: Seq<char>) -> MessageV {
    tool_answer(
        id,
        ToolResultV {
            tool_call_id: None,
            content: seq![ResultPartV::Text(reason)],
            is_error: true,
        },
    )
}

impl RunV {
    /// The run in another phase.
    pub open spec fn in_phase(self, phase: PhaseV) -> RunV {
        RunV { state: self.state, providers: self.providers, phase }
    }

    /// The run with another state.
    pub open spec fn with_state(self, state: AgentStateV) -> RunV {
        RunV { state, providers: self.providers, phase: self.phase }
    }

    /// The run once the session has taken a message.
    pub open spec fn said(self, message: MessageV) -> RunV {
        self.with_state(
            AgentStateV {
                model: self.state.model,
                tools: self.state.tools,
                session: self.state.session.push(message),
            },
        )
    }

    /// The run that ended with an error.
    pub open spec fn failed(self, error: AgentErrorV) -> (RunV, ActionV) {
        (self.in_phase(PhaseV::Finished), ActionV::Finish(Err(error)))
    }

    /// A turn begins.
    pub open spec fn begin_turn(self) -> (RunV, ActionV) {
        (
            self.in_phase(PhaseV::TurnStarting),
            ActionV::Hook(HookCallV::TurnStart(self.state)),
        )
    }

    /// The model is about to be asked.
    pub open spec fn begin_message(self) -> (RunV, ActionV) {
        (
            self.in_phase(PhaseV::MessageStarting),
            ActionV::Hook(HookCallV::MessageStart(self.state.session)),
        )
    }

    /// The tool call `at` is up; behind the last one the model is asked again.
    pub open spec fn begin_tool(self, calls: Seq<ToolCallV>, at: int) -> (RunV, ActionV) {
        if at < calls.len() {
            (
                self.in_phase(PhaseV::ToolStarting { calls, at }),
                ActionV::Hook(
                    HookCallV::ToolStart {
                        id: calls[at].id,
                        name: calls[at].name,
                        arguments: calls[at].arguments,
                    },
                ),
            )
        } else {
            self.begin_message()
        }
    }

    /// The answer to the tool call `at` goes to the session.
    pub open spec fn answer_tool(self, calls: Seq<ToolCallV>, at: int, answer: MessageV) -> (
        RunV,
        ActionV,
    ) {
        (self.in_phase(PhaseV::Answering { calls, at, answer }), ActionV::Append(answer))
    }

    /// Whether the event is one that the run is waiting for.
    pub open spec fn accepts(self, event: EventV) -> bool {
        match self.phase {
            PhaseV::AgentStarting { .. } => event matches EventV::Hooked(HookReturnV::State(_)),
            PhaseV::Prompting { .. } => event is Appended,
            PhaseV::TurnStarting => event matches EventV::Hooked(HookReturnV::State(_)),
            PhaseV::MessageStarting => event matches EventV::Hooked(HookReturnV::Messages(_)),
            PhaseV::Opening => event is Opened,
            PhaseV::Streaming { .. } => event is Chunk,
            PhaseV::Updating { .. } => event matches EventV::Hooked(HookReturnV::Seen(_)),
            PhaseV::MessageEnding { .. } => event matches EventV::Hooked(HookReturnV::Seen(_)),
            PhaseV::Recording { .. } => event is Appended,
            PhaseV::ToolStarting { calls, at } => 0 <= at < calls.len() && (
            event matches EventV::Hooked(HookReturnV::Decision(_))),
            PhaseV::Executing { calls, at } => 0 <= at < calls.len() && event is Executed,
            PhaseV::ToolEnding { calls, at } => 0 <= at < calls.len() && (
            event matches EventV::Hooked(HookReturnV::Tool(_))),
            PhaseV::Answering { calls, at, .. } => 0 <= at < calls.len() && event is Appended,
            PhaseV::TurnEnding => event matches EventV::Hooked(HookReturnV::State(_)),
            PhaseV::AgentEnding => event matches EventV::Hooked(HookReturnV::State(_)),
            PhaseV::Finished => false,
        }
    }

    /// Whether the last word is the assistant's.
    pub open spec fn answered(self) -> bool {
        self.state.session.len() > 0 && self.state.session.last().role == "assistant"@
    }

    /// What the run does about an event.
    pub open spec fn next(self, event: EventV) -> (RunV, ActionV) {
        match (self.phase, event) {
            (_, EventV::Hooked(HookReturnV::State(Err(e)))) => self.failed(
                AgentErrorV::Extension(e),
            ),
            (_, EventV::Hooked(HookReturnV::Messages(Err(e)))) => self.failed(
                AgentErrorV::Extension(e),
            ),
            (_, EventV::Hooked(HookReturnV::Seen(Err(e)))) => self.failed(
                AgentErrorV::Extension(e),
            ),
            (_, EventV::Hooked(HookReturnV::Decision(Err(e)))) => self.failed(
                AgentErrorV::Extension(e),
            ),
            (_, EventV::Hooked(HookReturnV::Tool(Err(e)))) => self.failed(
                AgentErrorV::Extension(e),
            ),
            (_, EventV::Appended(Err(e))) => self.failed(AgentErrorV::Session(e)),
            (_, EventV::Opened(Err(e))) => self.failed(AgentErrorV::Provider(e)),
            (
                PhaseV::AgentStarting { prompt },
                EventV::Hooked(HookReturnV::State(Ok(state))),
            ) => (
                self.with_state(state).in_phase(PhaseV::Prompting { prompt }),
                ActionV::Append(prompt),
            ),
            (PhaseV::Prompting { prompt }, _) => self.said(prompt).begin_turn(),
            (PhaseV::TurnStarting, EventV::Hooked(HookReturnV::State(Ok(state)))) => {
                if self.providers.contains(state.model.provider) {
                    self.with_state(state).begin_message()
                } else {
                    self.with_state(state).failed(
                        AgentErrorV::Other(
                            "no provider registered for '"@ + state.model.provider + "'"@,
                        ),
                    )
                }
            },
            (PhaseV::MessageStarting, EventV::Hooked(HookReturnV::Messages(Ok(messages)))) => (
                self.in_phase(PhaseV::Opening),
                ActionV::Stream {
                    model: self.state.model,
                    messages,
                    tools: definitions_of(self.state.tools),
                },
            ),
            (PhaseV::Opening, _) => (
                self.in_phase(PhaseV::Streaming { response: StreamResponseV::empty() }),
                ActionV::NextChunk,
            ),
            (PhaseV::Streaming { response }, EventV::Chunk(Some(chunk))) => (
                self.in_phase(PhaseV::Updating { response, chunk }),
                ActionV::Hook(HookCallV::MessageUpdate(chunk)),
            ),
            (PhaseV::Streaming { response }, EventV::Chunk(None)) => (
                self.in_phase(PhaseV::MessageEnding { response }),
                ActionV::Hook(HookCallV::MessageEnd(response)),
            ),
            (PhaseV::Updating { response, chunk }, _) => (
                self.in_phase(PhaseV::Streaming { response: response.merged(chunk) }),
                ActionV::NextChunk,
            ),
            (PhaseV::MessageEnding { response }, _) => (
                self.in_phase(PhaseV::Recording { reply: response.message }),
                ActionV::Append(response.message),
            ),
            (PhaseV::Recording { reply }, _) => {
                let calls = blocks_calls(reply.content);
                if calls.len() == 0 {
                    (
                        self.said(reply).in_phase(PhaseV::TurnEnding),
                        ActionV::Hook(HookCallV::TurnEnd(self.said(reply).state)),
                    )
                } else {
                    self.said(reply).begin_tool(calls, 0)
                }
            },
            (
                PhaseV::ToolStarting { calls, at },
                EventV::Hooked(HookReturnV::Decision(Ok(DecisionV::Deny(reason)))),
            ) => self.answer_tool(calls, at, denial(calls[at].id, reason)),
            (PhaseV::ToolStarting { calls, at }, _) => {
                if find_tool(self.state.tools, calls[at].name) is Some {
                    (
                        self.in_phase(PhaseV::Executing { calls, at }),
                        ActionV::Execute {
                            name: calls[at].name,
                            arguments: calls[at].arguments,
                        },
                    )
                } else {
                    self.failed(
                        AgentErrorV::Tool(
                            "no handler registered for tool '"@ + calls[at].name + "'"@,
                        ),
                    )
                }
            },
            (PhaseV::Executing { calls, at }, EventV::Executed(result)) => (
                self.in_phase(PhaseV::ToolEnding { calls, at }),
                ActionV::Hook(HookCallV::ToolEnd { id: calls[at].id, result }),
            ),
            (
                PhaseV::ToolEnding { calls, at },
                EventV::Hooked(HookReturnV::Tool(Ok(Ok(result)))),
            ) => self.answer_tool(calls, at, tool_answer(calls[at].id, result)),
            (
                PhaseV::ToolEnding { calls, at },
                EventV::Hooked(HookReturnV::Tool(Ok(Err(e)))),
            ) => self.failed(
                AgentErrorV::Tool(
                    "tool '"@ + calls[at].name + "' execution failed: "@ + e.words(),
                ),
            ),
            (PhaseV::Answering { calls, at, answer }, _) => self.said(answer).begin_tool(
                calls,
                at + 1,
            ),
            (PhaseV::TurnEnding, EventV::Hooked(HookReturnV::State(Ok(state)))) => {
                let run = self.with_state(state);
                if run.answered() {
                    (
                        run.in_phase(PhaseV::AgentEnding),
                        ActionV::Hook(HookCallV::AgentEnd(state)),
                    )
                } else {
                    run.begin_turn()
                }
            },
            (PhaseV::AgentEnding, EventV::Hooked(HookReturnV::State(Ok(state)))) => (
                self.with_state(state).in_phase(PhaseV::Finished),
                ActionV::Finish(Ok(())),
            ),
            _ => (self, ActionV::NextChunk),
        }
    }
}

/// One run of an agent, from a prompt to the assistant's last word on it.
#[derive(Debug, PartialEq)]
pub struct AgentRun {
    pub state: AgentState,
    /// The names of the providers that can be streamed from.
    pub providers: Vec<String>,
    pub phase: Phase,
}

impl View for AgentRun {
    type V = RunV;

    open spec fn view(&self) -> RunV {
        RunV { state: self.state@, providers: views(self.providers@), phase: self.phase@ }
    }
}

impl AgentRun {
    /// A run over a prompt, with the first thing it asks for.
    pub fn prompt(state: AgentState, providers: Vec<String>, message: Message) -> (r: (
        AgentRun,
        Action,
    ))
        ensures
            r.0@ == (RunV {
                state: state@,
                providers: views(providers@),
                phase: PhaseV::AgentStarting { prompt: message@ },
            }),
            r.1@ == ActionV::Hook(HookCallV::AgentStart(state@)),
            r.0@.sound(),
    {
        let action = Action::Hook(HookCall::AgentStart(state.clone()));
        (AgentRun { state, providers, phase: Phase::AgentStarting { prompt: message } }, action)
    }

    /// Whether the event is one that the run is waiting for.
    pub fn accepts(&self, event: &Event) -> (r: bool)
        ensures
            r == self@.accepts(event@),
    {
        match (&self.phase, event) {
            (Phase::AgentStarting { .. }, Event::Hooked(HookReturn::State(_))) => true,
            (Phase::Prompting { .. }, Event::Appended(_)) => true,
            (Phase::TurnStarting, Event::Hooked(HookReturn::State(_))) => true,
            (Phase::MessageStarting, Event::Hooked(HookReturn::Messages(_))) => true,
            (Phase::Opening, Event::Opened(_)) => true,
            (Phase::Streaming { .. }, Event::Chunk(_)) => true,
            (Phase::Updating { .. }, Event::Hooked(HookReturn::Seen(_))) => true,
            (Phase::MessageEnding { .. }, Event::Hooked(HookReturn::Seen(_))) => true,
            (Phase::Recording { .. }, Event::Appended(_)) => true,
            (
                Phase::ToolStarting { calls, at },
                Event::Hooked(HookReturn::Decision(_)),
            ) => *at < calls.len(),
            (Phase::Executing { calls, at }, Event::Executed(_)) => *at < calls.len(),
            (Phase::ToolEnding { calls, at }, Event::Hooked(HookReturn::Tool(_))) => *at
                < calls.len(),
            (Phase::Answering { calls, at, answer: _ }, Event::Appended(_)) => *at < calls.len(),
            (Phase::TurnEnding, Event::Hooked(HookReturn::State(_))) => true,
            (Phase::AgentEnding, Event::Hooked(HookReturn::State(_))) => true,
            _ => false,
        }
    }

    /// Ends the run with an error.
    fn fail(&mut self, error: AgentError) -> (r: Action)
        ensures
            (final(self)@, r@) == old(self)@.failed(error@),
    {
        self.phase = Phase::Finished;
        Action::Finish(Err(error))
    }

    /// Shows the state to the extensions, before a turn.
    fn begin_turn(&mut self) -> (r: Action)
        ensures
            (final(self)@, r@) == old(self)@.begin_turn(),
    {
        self.phase = Phase::TurnStarting;
        Action::Hook(HookCall::TurnStart(self.state.clone()))
    }

    /// Shows the conversation to the extensions, before the provider is asked.
    fn begin_message(&mut self) -> (r: Action)
        ensures
            (final(self)@, r@) == old(self)@.begin_message(),
    {
        self.phase = Phase::MessageStarting;
        Action::Hook(HookCall::MessageStart(copy_messages(&self.state.session)))
    }

    /// Turns to the call at the place given, or, behind the last, to the provider.
    fn begin_tool(&mut self, calls: Vec<ToolCall>, at: usize) -> (r: Action)
        ensures
            (final(self)@, r@) == old(self)@.begin_tool(views(calls@), at as int),
    {
        if at < calls.len() {
            let call = calls[at].clone();
            assert(views(calls@)[at as int] == call@);
            self.phase = Phase::ToolStarting { calls, at };
            Action::Hook(
                HookCall::ToolStart { id: call.id, name: call.name, arguments: call.arguments },
            )
        } else {
            self.begin_message()
        }
    }

    /// Hands the answer to a call to the session.
    fn answer_tool(&mut self, calls: Vec<ToolCall>, at: usize, answer: Message) -> (r: Action)
        ensures
            (final(self)@, r@) == old(self)@.answer_tool(views(calls@), at as int, answer@),
    {
        let copy = answer.clone();
        self.phase = Phase::Answering { calls, at, answer };
        Action::Append(copy)
    }

    /// Adds a message to the conversation.
    fn say(&mut self, message: Message)
        ensures
            final(self)@ == old(self)@.said(message@),
    {
        let ghost before = self@;
        let ghost shown = message@;
        self.state.session.push(message);
        assert(self@.state.session =~= before.state.session.push(shown));
    }
}

/// The answer of the conversation to a tool call.
fn answer_message(id: &str, result: ToolResult) -> (r: Message)
    ensures
        r@ == tool_answer(id@, result@),
{
    let result = ToolResult {
        tool_call_id: Some(id.to_owned()),
        content: result.content,
        is_error: result.is_error,
    };
    Message::of_block("tool", ContentBlock::ToolResult(result))
}

/// Whether a message answers a tool call.
pub open spec fn answers_call(message: MessageV, call: ToolCallV) -> bool {
    &&& message.role == "tool"@
    &&& message.content.len() == 1
    &&& message.content[0] matches BlockV::ToolResult(r)
    &&& r.tool_call_id == Some(call.id)
}

/// Whether a session ends with a reply of those calls and the answers to the first `done` of
/// them, in order.
pub open spec fn answered_calls(
    session: Seq<MessageV>,
    calls: Seq<ToolCallV>,
    done: int,
) -> bool {
    &&& 0 <= done <= calls.len()
    &&& done + 1 <= session.len()
    &&& session[session.len() - 1 - done].role == "assistant"@
    &&& blocks_calls(session[session.len() - 1 - done].content) == calls
    &&& forall|j: int|
        0 <= j < done ==> answers_call(session[session.len() - done + j], #[trigger] calls[j])
}

impl RunV {
    /// What holds of a run at any time: what is streamed is the assistant's, the calls at hand
    /// are those of the last reply and each one before the current one has its answer, and a
    /// run is about to end only once the assistant has the last word.
    pub open spec fn sound(self) -> bool {
        match self.phase {
            PhaseV::Streaming { response } => response.message.role == "assistant"@,
            PhaseV::Updating { response, .. } => response.message.role == "assistant"@,
            PhaseV::MessageEnding { response } => response.message.role == "assistant"@,
            PhaseV::Recording { reply } => reply.role == "assistant"@,
            PhaseV::ToolStarting { calls, at } => at < calls.len() && answered_calls(
                self.state.session,
                calls,
                at,
            ),
            PhaseV::Executing { calls, at } => at < calls.len() && answered_calls(
                self.state.session,
                calls,
                at,
            ),
            PhaseV::ToolEnding { calls, at } => at < calls.len() && answered_calls(
                self.state.session,
                calls,
                at,
            ),
            PhaseV::Answering { calls, at, answer } => at < calls.len() && answered_calls(
                self.state.session,
                calls,
                at,
            ) && answers_call(answer, calls[at]),
            PhaseV::AgentEnding => self.answered(),
            _ => true,
        }
    }
}

/// A run stays sound, whatever comes of what it asks for.
pub proof fn law_run_stays_sound(run: RunV, event: EventV)
    requires
        run.sound(),
        run.accepts(event),
    ensures
        run.next(event).0.sound(),
{
    let after = run.next(event).0;
    match (run.phase, event) {
        (PhaseV::Recording { reply }, EventV::Appended(Ok(_))) => {
            let calls = blocks_calls(reply.content);
            let session = run.said(reply).state.session;
            assert(session[session.len() - 1] == reply);
            assert(answered_calls(session, calls, 0));
        },
        (PhaseV::Answering { calls, at, answer }, EventV::Appended(Ok(_))) => {
            let before = run.state.session;
            let session = run.said(answer).state.session;
            assert(session[session.len() - 1 - (at + 1)] == before[before.len() - 1 - at]);
            assert forall|j: int| 0 <= j < at + 1 implies answers_call(
                session[session.len() - (at + 1) + j],
                #[trigger] calls[j],
            ) by {
                if j < at {
                    assert(session[session.len() - (at + 1) + j] == before[before.len() - at + j]);
                } else {
                    assert(session[session.len() - 1] == answer);
                }
            }
            assert(answered_calls(session, calls, at + 1));
        },
        _ => {},
    }
}

/// The model is asked again only once every call of its last reply has been answered, in
/// order and by its id.
pub proof fn law_every_call_is_answered(run: RunV, event: EventV)
    requires
        run.sound(),
        run.accepts(event),
        run.phase is Answering,
        run.next(event).0.phase is MessageStarting,
    ensures
        answered_calls(
            run.next(event).0.state.session,
            run.phase->Answering_calls,
            run.phase->Answering_calls.len() as int,
        ),
{
    let calls = run.phase->Answering_calls;
    let at = run.phase->Answering_at;
    let answer = run.phase->Answering_answer;
    let before = run.state.session;
    let session = run.said(answer).state.session;
    assert(session[session.len() - 1 - (at + 1)] == before[before.len() - 1 - at]);
    assert forall|j: int| 0 <= j < at + 1 implies answers_call(
        session[session.len() - (at + 1) + j],
        #[trigger] calls[j],
    ) by {
        if j < at {
            assert(session[session.len() - (at + 1) + j] == before[before.len() - at + j]);
        } else {
            assert(session[session.len() - 1] == answer);
        }
    }
}

/// A tool runs only where the extension allowed the call and the tool is on offer, and it runs
/// with the arguments of the call.
pub proof fn law_tools_run_only_when_allowed(run: RunV, event: EventV)
    requires
        run.accepts(event),
        run.next(event).1 is Execute,
    ensures
        run.phase is ToolStarting,
        event == EventV::Hooked(HookReturnV::Decision(Ok(DecisionV::Allow))),
        ({
            let call = run.phase->ToolStarting_calls[run.phase->ToolStarting_at];
            &&& run.next(event).1 == (ActionV::Execute {
                name: call.name,
                arguments: call.arguments,
            })
            &&& find_tool(run.state.tools, call.name) is Some
        }),
{
}

/// A denied call does not run: the model is told why, as the error of that very call.
pub proof fn law_denied_calls_are_answered_with_the_reason(run: RunV, reason: Seq<char>)
    requires
        run.phase is ToolStarting,
        run.accepts(EventV::Hooked(HookReturnV::Decision(Ok(DecisionV::Deny(reason))))),
    ensures
        ({
            let event = EventV::Hooked(HookReturnV::Decision(Ok(DecisionV::Deny(reason))));
            let call = run.phase->ToolStarting_calls[run.phase->ToolStarting_at];
            &&& run.next(event).1 == ActionV::Append(denial(call.id, reason))
            &&& run.next(event).0.state == run.state
        }),
{
}

/// A run ends well only where the assistant had the last word of the last turn.
pub proof fn law_success_means_answered(run: RunV, event: EventV)
    requires
        run.sound(),
        run.accepts(event),
        run.next(event).1 == ActionV::Finish(Ok(())),
    ensures
        run.phase is AgentEnding,
        run.answered(),
{
}

/// A failure ends the run at once: nothing more is asked for.
pub proof fn law_failure_ends_the_run(run: RunV, event: EventV)
    requires
        run.accepts(event),
        run.next(event).1 is Finish,
    ensures
        run.next(event).0.phase is Finished,
        forall|later: EventV| !#[trigger] run.next(event).0.accepts(later),
{
}

impl AgentRun {
    /// Goes on with what came of the last action.
    pub fn step(&mut self, event: Event) -> (r: Action)
        requires
            old(self)@.accepts(event@),
        ensures
            (final(self)@, r@) == old(self)@.next(event@),
            old(self)@.sound() ==> final(self)@.sound(),
    {
        let ghost before = self@;
        proof {
            if before.sound() {
                law_run_stays_sound(before, event@);
            }
        }
        let mut phase = Phase::Finished;
        core::mem::swap(&mut self.phase, &mut phase);
        match (phase, event) {
            (_, Event::Hooked(HookReturn::State(Err(e)))) => self.fail(AgentError::Extension(e)),
            (_, Event::Hooked(HookReturn::Messages(Err(e)))) => self.fail(
                AgentError::Extension(e),
            ),
            (_, Event::Hooked(HookReturn::Seen(Err(e)))) => self.fail(AgentError::Extension(e)),
            (_, Event::Hooked(HookReturn::Decision(Err(e)))) => self.fail(
                AgentError::Extension(e),
            ),
            (_, Event::Hooked(HookReturn::Tool(Err(e)))) => self.fail(AgentError::Extension(e)),
            (_, Event::Appended(Err(e))) => self.fail(AgentError::Session(e)),
            (_, Event::Opened(Err(e))) => self.fail(AgentError::Provider(e)),
            (Phase::AgentStarting { prompt }, Event::Hooked(HookReturn::State(Ok(state)))) => {
                self.state = state;
                let copy = prompt.clone();
                self.phase = Phase::Prompting { prompt };
                Action::Append(copy)
            },
            (Phase::Prompting { prompt }, _) => {
                self.say(prompt);
                self.begin_turn()
            },
            (Phase::TurnStarting, Event::Hooked(HookReturn::State(Ok(state)))) => {
                self.state = state;
                if contains_text(&self.providers, self.state.model.provider.as_str()) {
                    self.begin_message()
                } else {
                    let text = concat3(
                        "no provider registered for '",
                        self.state.model.provider.as_str(),
                        "'",
                    );
                    self.fail(AgentError::Other(text))
                }
            },
            (Phase::MessageStarting, Event::Hooked(HookReturn::Messages(Ok(messages)))) => {
                self.phase = Phase::Opening;
                Action::Stream {
                    model: self.state.model.clone(),
                    messages,
                    tools: self.state.tools.definitions(),
                }
            },
            (Phase::Opening, _) => {
                self.phase = Phase::Streaming { response: StreamResponse::new() };
                Action::NextChunk
            },
            (Phase::Streaming { response }, Event::Chunk(Some(chunk))) => {
                let copy = chunk.clone();
                self.phase = Phase::Updating { response, chunk };
                Action::Hook(HookCall::MessageUpdate(copy))
            },
            (Phase::Streaming { response }, _) => {
                let copy = response.clone();
                self.phase = Phase::MessageEnding { response };
                Action::Hook(HookCall::MessageEnd(copy))
            },
            (Phase::Updating { response, chunk }, _) => {
                let mut response = response;
                response.merge(chunk);
                self.phase = Phase::Streaming { response };
                Action::NextChunk
            },
            (Phase::MessageEnding { response }, _) => {
                let copy = response.message.clone();
                self.phase = Phase::Recording { reply: response.message };
                Action::Append(copy)
            },
            (Phase::Recording { reply }, _) => {
                let calls = tool_calls(&reply.content);
                assert(views(calls@).len() == calls@.len());
                self.say(reply);
                if calls.len() == 0 {
                    self.phase = Phase::TurnEnding;
                    Action::Hook(HookCall::TurnEnd(self.state.clone()))
                } else {
                    self.begin_tool(calls, 0)
                }
            },
            (
                Phase::ToolStarting { calls, at },
                Event::Hooked(HookReturn::Decision(Ok(ToolCallDecision::Deny(reason)))),
            ) => {
                let answer = answer_message(
                    calls[at].id.as_str(),
                    ToolResult::text(reason, true),
                );
                self.answer_tool(calls, at, answer)
            },
            (Phase::ToolStarting { calls, at }, _) => {
                let call = calls[at].clone();
                assert(views(calls@)[at as int] == call@);
                if self.state.tools.contains(call.name.as_str()) {
                    self.phase = Phase::Executing { calls, at };
                    Action::Execute { name: call.name, arguments: call.arguments }
                } else {
                    let text = concat3(
                        "no handler registered for tool '",
                        call.name.as_str(),
                        "'",
                    );
                    self.fail(AgentError::Tool(text))
                }
            },
            (Phase::Executing { calls, at }, Event::Executed(result)) => {
                let id = calls[at].id.clone();
                assert(views(calls@)[at as int].id == id@);
                self.phase = Phase::ToolEnding { calls, at };
                Action::Hook(HookCall::ToolEnd { id, result })
            },
            (
                Phase::ToolEnding { calls, at },
                Event::Hooked(HookReturn::Tool(Ok(Ok(result)))),
            ) => {
                assert(views(calls@)[at as int].id == calls@[at as int].id@);
                let answer = answer_message(calls[at].id.as_str(), result);
                self.answer_tool(calls, at, answer)
            },
            (Phase::ToolEnding { calls, at }, Event::Hooked(HookReturn::Tool(Ok(Err(e))))) => {
                assert(views(calls@)[at as int].name == calls@[at as int].name@);
                let head = concat3("tool '", calls[at].name.as_str(), "' execution failed: ");
                let text = concat2(head.as_str(), e.words().as_str());
                self.fail(AgentError::Tool(text))
            },
            (Phase::Answering { calls, at, answer }, _) => {
                self.say(answer);
                let total: usize = calls.len();
                assert(at < total);
                self.begin_tool(calls, at + 1)
            },
            (Phase::TurnEnding, Event::Hooked(HookReturn::State(Ok(state)))) => {
                self.state = state;
                let n: usize = self.state.session.len();
                let answered = n > 0 && self.state.session[n - 1].plays("assistant");
                if answered {
                    self.phase = Phase::AgentEnding;
                    Action::Hook(HookCall::AgentEnd(self.state.clone()))
                } else {
                    self.begin_turn()
                }
            },
            (Phase::AgentEnding, Event::Hooked(HookReturn::State(Ok(state)))) => {
                self.state = state;
                self.phase = Phase::Finished;
                Action::Finish(Ok(()))
            },
            _ => vstd::pervasive::unreached(),
        }
    }
}

/// What the session gets is what the run asked to append, and no other part of the state
/// changes. Where the session refuses it, the run ends with what the session said.
pub proof fn law_the_session_gets_what_is_appended(run: RunV, event: EventV, why: Seq<char>)
    requires
        run.accepts(event),
        run.next(event).1 is Append,
    ensures
        ({
            let asked = run.next(event).1->Append_0;
            let waiting = run.next(event).0;
            let taken = waiting.next(EventV::Appended(Ok(()))).0.state;
            let refused = waiting.next(EventV::Appended(Err(why)));
            &&& waiting.accepts(EventV::Appended(Ok(())))
            &&& waiting.accepts(EventV::Appended(Err(why)))
            &&& taken.session == waiting.state.session.push(asked)
            &&& taken.model == waiting.state.model
            &&& taken.tools == waiting.state.tools
            &&& refused.0.state == waiting.state
            &&& refused.1 matches ActionV::Finish(Err(AgentErrorV::Session(e)))
            &&& e == why
        }),
{
}

/// The prompt is the first thing that a run says, in the state that the extension handed back,
/// and the extension is shown it before the turn.
pub proof fn law_the_prompt_is_said_first(run: RunV, state: AgentStateV)
    requires
        run.phase is AgentStarting,
    ensures
        ({
            let prompt = run.phase->AgentStarting_prompt;
            let (prompting, asked) = run.next(EventV::Hooked(HookReturnV::State(Ok(state))));
            let (started, shown) = prompting.next(EventV::Appended(Ok(())));
            &&& asked == ActionV::Append(prompt)
            &&& prompting.state == state
            &&& shown matches ActionV::Hook(HookCallV::TurnStart(seen))
            &&& seen == started.state
            &&& seen.session.len() == state.session.len() + 1
            &&& seen.session.last() == prompt
            &&& started.accepts(EventV::Hooked(HookReturnV::State(Ok(state))))
        }),
{
}

/// What came of a tool reaches the model: the message that the session gets answers that very
/// call, and holds the content that the extension handed back and whether it is an error.
pub proof fn law_results_reach_the_session(run: RunV, result: ToolResultV)
    requires
        run.accepts(EventV::Hooked(HookReturnV::Tool(Ok(Ok(result))))),
    ensures
        ({
            let call = run.phase->ToolEnding_calls[run.phase->ToolEnding_at];
            let (after, action) = run.next(EventV::Hooked(HookReturnV::Tool(Ok(Ok(result)))));
            &&& after.state == run.state
            &&& action matches ActionV::Append(m)
            &&& m.role == "tool"@
            &&& m.content.len() == 1
            &&& m.content[0] matches BlockV::ToolResult(told)
            &&& told.content == result.content
            &&& told.is_error == result.is_error
            &&& told.tool_call_id == Some(call.id)
        }),
{
}

/// A denied call is answered with the reason, as text that is marked as an error.
pub proof fn law_reasons_reach_the_session(run: RunV, reason: Seq<char>)
    requires
        run.accepts(EventV::Hooked(HookReturnV::Decision(Ok(DecisionV::Deny(reason))))),
    ensures
        ({
            let call = run.phase->ToolStarting_calls[run.phase->ToolStarting_at];
            let (after, action) = run.next(
                EventV::Hooked(HookReturnV::Decision(Ok(DecisionV::Deny(reason)))),
            );
            &&& after.state == run.state
            &&& action matches ActionV::Append(m)
            &&& m.role == "tool"@
            &&& m.content.len() == 1
            &&& m.content[0] matches BlockV::ToolResult(told)
            &&& parts_text(told.content) == reason
            &&& told.content.len() == 1
            &&& told.is_error
            &&& told.tool_call_id == Some(call.id)
        }),
{
    law_texts_are_read_back(Seq::empty(), reason, true);
}

/// A tool's outcome is shown to the extension as it came, under the id of the call. An error
/// that the extension lets stand ends the run, and names the tool and what went wrong.
pub proof fn law_outcomes_are_shown(
    run: RunV,
    outcome: Result<ToolResultV, ToolErrorV>,
    error: ToolErrorV,
)
    requires
        run.accepts(EventV::Executed(outcome)),
    ensures
        ({
            let call = run.phase->Executing_calls[run.phase->Executing_at];
            let (ending, action) = run.next(EventV::Executed(outcome));
            let failed = ending.next(EventV::Hooked(HookReturnV::Tool(Ok(Err(error)))));
            &&& action matches ActionV::Hook(HookCallV::ToolEnd { id, result })
            &&& id == call.id
            &&& result == outcome
            &&& ending.state == run.state
            &&& ending.accepts(EventV::Hooked(HookReturnV::Tool(Ok(outcome))))
            &&& failed.1 matches ActionV::Finish(Err(AgentErrorV::Tool(words)))
            &&& words == "tool '"@ + call.name + "' execution failed: "@ + error.words()
        }),
{
}

/// The calls of a reply are taken up in order: first the first one, behind the answer to one
/// the next one, and behind the last one the model is asked again.
pub proof fn law_calls_are_taken_up_in_order(run: RunV)
    requires
        run.accepts(EventV::Appended(Ok(()))),
        run.phase is Recording || run.phase is Answering,
    ensures
        ({
            let (calls, at) = match run.phase {
                PhaseV::Recording { reply } => (blocks_calls(reply.content), 0),
                PhaseV::Answering { calls, at, .. } => (calls, at + 1),
                _ => (Seq::empty(), 0),
            };
            let (after, action) = run.next(EventV::Appended(Ok(())));
            if at < calls.len() {
                &&& action matches ActionV::Hook(HookCallV::ToolStart { id, name, arguments })
                &&& id == calls[at].id
                &&& name == calls[at].name
                &&& arguments == calls[at].arguments
                &&& after.phase == (PhaseV::ToolStarting { calls, at })
            } else if run.phase is Answering {
                &&& action matches ActionV::Hook(HookCallV::MessageStart(seen))
                &&& seen == after.state.session
                &&& after.phase is MessageStarting
            } else {
                &&& action matches ActionV::Hook(HookCallV::TurnEnd(seen))
                &&& seen == after.state
                &&& after.phase is TurnEnding
            }
        }),
{
}

/// A call that is allowed runs under its name and with its arguments where there is such a
/// tool, and the run waits for its outcome. Where there is none the run ends and names it.
pub proof fn law_allowed_calls_run(run: RunV)
    requires
        run.accepts(EventV::Hooked(HookReturnV::Decision(Ok(DecisionV::Allow)))),
    ensures
        ({
            let call = run.phase->ToolStarting_calls[run.phase->ToolStarting_at];
            let (after, action) = run.next(
                EventV::Hooked(HookReturnV::Decision(Ok(DecisionV::Allow))),
            );
            let known = exists|i: int|
                0 <= i < run.state.tools.len() && (#[trigger] run.state.tools[i]).definition.name
                    == call.name;
            if known {
                &&& action == (ActionV::Execute { name: call.name, arguments: call.arguments })
                &&& after.state == run.state
                &&& after.phase == (PhaseV::Executing {
                    calls: run.phase->ToolStarting_calls,
                    at: run.phase->ToolStarting_at,
                })
            } else {
                &&& action matches ActionV::Finish(Err(AgentErrorV::Tool(words)))
                &&& words == "no handler registered for tool '"@ + call.name + "'"@
            }
        }),
{
    let call = run.phase->ToolStarting_calls[run.phase->ToolStarting_at];
    lemma_tool_position(run.state.tools, call.name);
}

/// The model is asked with what the extension made of the conversation, and is offered the
/// definition of every tool that the run has.
pub proof fn law_the_model_sees_the_conversation(run: RunV, messages: Seq<MessageV>)
    requires
        run.accepts(EventV::Hooked(HookReturnV::Messages(Ok(messages)))),
    ensures
        ({
            let (after, action) = run.next(EventV::Hooked(HookReturnV::Messages(Ok(messages))));
            &&& action matches ActionV::Stream { model, messages: told, tools }
            &&& told == messages
            &&& model == run.state.model
            &&& tools.len() == run.state.tools.len()
            &&& forall|i: int|
                0 <= i < tools.len() ==> #[trigger] tools[i] == run.state.tools[i].definition
            &&& after.state == run.state
            &&& after.accepts(EventV::Opened(Ok(())))
        }),
{
}

/// What was streamed so far, where something is being streamed.
pub open spec fn streamed_so_far(run: RunV) -> Option<StreamResponseV> {
    match run.phase {
        PhaseV::Streaming { response } => Some(response),
        PhaseV::Updating { response, .. } => Some(response),
        PhaseV::MessageEnding { response } => Some(response),
        _ => None,
    }
}

/// A stream starts with nothing. Each chunk is shown to the extension as it came, and what it
/// says comes behind what was said before; at the end the extension is shown all of it.
pub proof fn law_chunks_add_up(run: RunV, chunk: StreamResponseV)
    requires
        run.phase is Streaming,
    ensures
        ({
            let before = run.phase->Streaming_response;
            let (updating, action) = run.next(EventV::Chunk(Some(chunk)));
            let (streaming, more) = updating.next(EventV::Hooked(HookReturnV::Seen(Ok(()))));
            let (ending, last) = run.next(EventV::Chunk(None));
            &&& action == ActionV::Hook(HookCallV::MessageUpdate(chunk))
            &&& updating.accepts(EventV::Hooked(HookReturnV::Seen(Ok(()))))
            &&& more is NextChunk
            &&& streaming.state == run.state
            &&& streaming.phase is Streaming
            &&& streamed_so_far(streaming) matches Some(after)
            &&& blocks_text(after.message.content) == blocks_text(before.message.content)
                + blocks_text(chunk.message.content)
            &&& blocks_calls(after.message.content) == blocks_calls(before.message.content)
                + blocks_calls(chunk.message.content)
            &&& after.message.role == before.message.role
            &&& last == ActionV::Hook(HookCallV::MessageEnd(before))
            &&& streamed_so_far(ending) == Some(before)
            &&& ending.accepts(EventV::Hooked(HookReturnV::Seen(Ok(()))))
            &&& ending.next(EventV::Hooked(HookReturnV::Seen(Ok(())))).1 == ActionV::Append(
                before.message,
            )
        }),
{
    law_merge_keeps_text_and_calls(
        run.phase->Streaming_response.message.content,
        chunk.message.content,
    );
}

/// An open stream is read from its start: nothing was said yet, and it is the assistant who
/// will say it.
pub proof fn law_a_stream_starts_with_nothing(run: RunV)
    requires
        run.phase is Opening,
    ensures
        ({
            let (after, action) = run.next(EventV::Opened(Ok(())));
            &&& action is NextChunk
            &&& after.state == run.state
            &&& streamed_so_far(after) matches Some(response)
            &&& response.message.content.len() == 0
            &&& response.message.role == "assistant"@
            &&& response.stop_reason is None
            &&& response.usage.input_tokens == 0
            &&& response.usage.output_tokens == 0
        }),
{
}

/// A turn asks the model, with the whole conversation, where its provider is registered; and
/// ends the run with the provider's name where it is not.
pub proof fn law_a_turn_asks_a_registered_provider(run: RunV, state: AgentStateV)
    requires
        run.phase is TurnStarting,
    ensures
        ({
            let (after, action) = run.next(EventV::Hooked(HookReturnV::State(Ok(state))));
            let known = exists|i: int|
                0 <= i < run.providers.len() && #[trigger] run.providers[i]
                    == state.model.provider;
            &&& after.state == state
            &&& after.providers == run.providers
            &&& known ==> action == ActionV::Hook(HookCallV::MessageStart(state.session))
                && after.accepts(EventV::Hooked(HookReturnV::Messages(Ok(state.session))))
            &&& !known ==> action == ActionV::Finish(
                Err(
                    AgentErrorV::Other(
                        "no provider registered for '"@ + state.model.provider + "'"@,
                    ),
                ),
            )
        }),
{
    let known = exists|i: int|
        0 <= i < run.providers.len() && #[trigger] run.providers[i] == state.model.provider;
    if run.providers.contains(state.model.provider) {
        let i = run.providers.index_of(state.model.provider);
        assert(run.providers[i] == state.model.provider);
    }
}

/// A turn is the last one where the last word is the assistant's, and is followed by another
/// one where it is not. The run is then over once the extension has seen its end.
pub proof fn law_the_last_word_ends_the_run(run: RunV, state: AgentStateV)
    requires
        run.phase is TurnEnding,
    ensures
        ({
            let (after, action) = run.next(EventV::Hooked(HookReturnV::State(Ok(state))));
            let done = after.next(EventV::Hooked(HookReturnV::State(Ok(state))));
            let last = state.session.len() - 1;
            &&& after.state == state
            &&& last >= 0 && state.session[last].role == "assistant"@ ==> {
                &&& action == ActionV::Hook(HookCallV::AgentEnd(state))
                &&& done.0.phase is Finished
                &&& done.0.state == state
                &&& done.1 == ActionV::Finish(Ok(()))
            }
            &&& !(last >= 0 && state.session[last].role == "assistant"@) ==> action
                == ActionV::Hook(HookCallV::TurnStart(state))
        }),
{
}

/// What goes wrong outside ends the run with that very error: what an extension, the session or
/// the provider said.
pub proof fn law_failures_are_handed_on(
    run: RunV,
    event: EventV,
    error: ExtensionErrorV,
    provider: ProviderErrorV,
)
    requires
        run.accepts(event),
    ensures
        event == EventV::Hooked(HookReturnV::State(Err(error))) || event == EventV::Hooked(
            HookReturnV::Messages(Err(error)),
        ) || event == EventV::Hooked(HookReturnV::Seen(Err(error))) || event == EventV::Hooked(
            HookReturnV::Decision(Err(error)),
        ) || event == EventV::Hooked(HookReturnV::Tool(Err(error))) ==> run.next(event).1
            == ActionV::Finish(Err(AgentErrorV::Extension(error))),
        event == EventV::Opened(Err(provider)) ==> run.next(event).1 == ActionV::Finish(
            Err(AgentErrorV::Provider(provider)),
        ),
        run.next(event).1 matches ActionV::Finish(Err(_)) ==> run.next(event).0.phase is Finished,
{
}

/// The words of an error end with what went wrong.
pub proof fn law_error_words_tell_the_cause(
    error: ProviderErrorV,
    extension: ExtensionErrorV,
    text: Seq<char>,
)
    ensures
        ends_with(AgentErrorV::Provider(error).words(), error.words()),
        ends_with(AgentErrorV::Extension(extension).words(), extension.words()),
        ends_with(AgentErrorV::Tool(text).words(), text),
        ends_with(AgentErrorV::Session(text).words(), text),
        AgentErrorV::Other(text).words() == text,
{
    lemma_ends_with("provider error: "@, error.words());
    lemma_ends_with("extension error: "@, extension.words());
    lemma_ends_with("tool error: "@, text);
    lemma_ends_with("session error: "@, text);
    assert("session error: "@ + ("session error: "@ + text) =~= ("session error: "@
        + "session error: "@) + text);
    lemma_ends_with("session error: "@ + "session error: "@, text);
}

/// Whether an event is what came of an action: of a call of the extension an answer of the kind
/// that the call asks for, and nothing of an action that ends the run.
pub open spec fn replies(action: ActionV, event: EventV) -> bool {
    match (action, event) {
        (ActionV::Hook(call), EventV::Hooked(ret)) => ret.answers(call),
        (ActionV::Append(_), EventV::Appended(_)) => true,
        (ActionV::Stream { .. }, EventV::Opened(_)) => true,
        (ActionV::NextChunk, EventV::Chunk(_)) => true,
        (ActionV::Execute { .. }, EventV::Executed(_)) => true,
        _ => false,
    }
}

/// A run waits for what comes of the action that it asked for, and for nothing else; a run that
/// is over waits for nothing.
pub proof fn law_runs_wait_for_what_they_asked_for(run: RunV, event: EventV, reply: EventV)
    requires
        run.accepts(event),
    ensures
        run.next(event).0.accepts(reply) <==> replies(run.next(event).1, reply),
        run.next(event).1 is Finish <==> run.next(event).0.phase is Finished,
{
}

} // verus!
