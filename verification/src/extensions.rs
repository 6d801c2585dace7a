//! Extensions: what may watch and change a conversation while an agent runs it.
//!
//! An agent calls its extension at fixed points, each a [`HookCall`], and goes on with what
//! the extension returns. An [`Extension`] answers them all through [`Extension::handle`];
//! the methods named after the points ask for one of them.
use vstd::prelude::*;

use crate::json::{Json, JsonV};
use crate::providers::{Model, ModelV, StreamResponse, StreamResponseV};
use crate::text::{concat2, concat3, ends_with, lemma_ends_with, views, Chars};
use crate::tools::{ToolError, ToolErrorV, ToolRegistry, ToolSpecV};
use crate::types::{copy_messages, Message, MessageV, ToolResult, ToolResultV};

verus! {

/// What an agent works with: its model, its tools, and what was said so far.
#[derive(Debug, PartialEq)]
pub struct AgentState {
    pub model: Model,
    pub tools: ToolRegistry,
    pub session: Vec<Message>,
}

/// What an [`AgentState`] is.
#[verifier::ext_equal]
pub struct AgentStateV {
    pub model: ModelV,
    pub tools: Seq<ToolSpecV>,
    pub session: Seq<MessageV>,
}

impl View for AgentState {
    type V = AgentStateV;

    open spec fn view(&self) -> AgentStateV {
        AgentStateV { model: self.model@, tools: self.tools@, session: views(self.session@) }
    }
}

impl Clone for AgentState {
    fn clone(&self) -> (r: Self)
        ensures
            r@ == self@,
    {
        AgentState {
            model: self.model.clone(),
            tools: self.tools.clone(),
            session: copy_messages(&self.session),
        }
    }
}

/// Whether a tool call may run.
#[derive(Debug, PartialEq)]
pub enum ToolCallDecision {
    Allow,
    Deny(String),
}

/// What a [`ToolCallDecision`] is.
#[verifier::ext_equal]
pub enum DecisionV {
    Allow,
    Deny(Seq<char>),
}

impl View for ToolCallDecision {
    type V = DecisionV;

    open spec fn view(&self) -> DecisionV {
        match self {
            ToolCallDecision::Allow => DecisionV::Allow,
            ToolCallDecision::Deny(reason) => DecisionV::Deny(reason@),
        }
    }
}

/// Why an extension stopped the agent.
#[derive(Debug, PartialEq)]
pub enum ExtensionError {
    /// The extension failed.
    ExtensionFailed { name: String, message: String },
    /// The extension ended the run on purpose.
    Stopped { name: String, message: String },
}

/// What an [`ExtensionError`] is.
#[verifier::ext_equal]
pub enum ExtensionErrorV {
    ExtensionFailed { name: Seq<char>, message: Seq<char> },
    Stopped { name: Seq<char>, message: Seq<char> },
}

impl View for ExtensionError {
    type V = ExtensionErrorV;

    open spec fn view(&self) -> ExtensionErrorV {
        match self {
            ExtensionError::ExtensionFailed { name, message } => ExtensionErrorV::ExtensionFailed {
                name: name@,
                message: message@,
            },
            ExtensionError::Stopped { name, message } => ExtensionErrorV::Stopped {
                name: name@,
                message: message@,
            },
        }
    }
}

impl ExtensionErrorV {
    /// The error in words.
    pub open spec fn words(self) -> Seq<char> {
        match self {
            ExtensionErrorV::ExtensionFailed { name, message } => "extension '"@ + name + "': "@
                + message,
            ExtensionErrorV::Stopped { name, message } => "extension '"@ + name + "': "@ + message,
        }
    }
}

impl ExtensionError {
    /// The error in words.
    pub fn words(&self) -> (r: String)
        ensures
            r@ == self@.words(),
    {
        let (name, message) = match self {
            ExtensionError::ExtensionFailed { name, message } => (name, message),
            ExtensionError::Stopped { name, message } => (name, message),
        };
        let head = concat3("extension '", name.as_str(), "': ");
        concat2(head.as_str(), message.as_str())
    }

    /// A failure.
    pub fn failed(name: &str, message: &str) -> (r: ExtensionError)
        ensures
            r@ == (ExtensionErrorV::ExtensionFailed { name: name@, message: message@ }),
    {
        ExtensionError::ExtensionFailed { name: name.to_owned(), message: message.to_owned() }
    }

    /// An end of the run on purpose.
    pub fn stopped(name: &str, message: &str) -> (r: ExtensionError)
        ensures
            r@ == (ExtensionErrorV::Stopped { name: name@, message: message@ }),
    {
        ExtensionError::Stopped { name: name.to_owned(), message: message.to_owned() }
    }
}

/// The view of a result.
pub open spec fn res_view<T: View, E: View>(r: Result<T, E>) -> Result<T::V, E::V> {
    match r {
        Ok(v) => Ok(v@),
        Err(e) => Err(e@),
    }
}

/// The view of a result that holds messages.
pub open spec fn res_messages(r: Result<Vec<Message>, ExtensionError>) -> Result<
    Seq<MessageV>,
    ExtensionErrorV,
> {
    match r {
        Ok(v) => Ok(views(v@)),
        Err(e) => Err(e@),
    }
}

/// The view of a result that holds nothing.
pub open spec fn res_unit(r: Result<(), ExtensionError>) -> Result<(), ExtensionErrorV> {
    match r {
        Ok(_) => Ok(()),
        Err(e) => Err(e@),
    }
}

/// The view of a tool's outcome as an extension hands it on.
pub open spec fn res_tool(r: Result<Result<ToolResult, ToolError>, ExtensionError>) -> Result<
    Result<ToolResultV, ToolErrorV>,
    ExtensionErrorV,
> {
    match r {
        Ok(v) => Ok(res_view(v)),
        Err(e) => Err(e@),
    }
}

/// A point at which an agent calls its extension.
#[derive(Debug, PartialEq)]
pub enum HookCall {
    AgentStart(AgentState),
    AgentEnd(AgentState),
    TurnStart(AgentState),
    TurnEnd(AgentState),
    /// The messages that the provider is about to see.
    MessageStart(Vec<Message>),
    /// A chunk that was streamed.
    MessageUpdate(StreamResponse),
    /// The whole response.
    MessageEnd(StreamResponse),
    /// A tool call that is about to run.
    ToolStart { id: String, name: String, arguments: Json },
    /// What came of a tool call.
    ToolEnd { id: String, result: Result<ToolResult, ToolError> },
}

/// What a [`HookCall`] is.
#[verifier::ext_equal]
pub enum HookCallV {
    AgentStart(AgentStateV),
    AgentEnd(AgentStateV),
    TurnStart(AgentStateV),
    TurnEnd(AgentStateV),
    MessageStart(Seq<MessageV>),
    MessageUpdate(StreamResponseV),
    MessageEnd(StreamResponseV),
    ToolStart { id: Seq<char>, name: Seq<char>, arguments: JsonV },
    ToolEnd { id: Seq<char>, result: Result<ToolResultV, ToolErrorV> },
}

impl View for HookCall {
    type V = HookCallV;

    open spec fn view(&self) -> HookCallV {
        match self {
            HookCall::AgentStart(s) => HookCallV::AgentStart(s@),
            HookCall::AgentEnd(s) => HookCallV::AgentEnd(s@),
            HookCall::TurnStart(s) => HookCallV::TurnStart(s@),
            HookCall::TurnEnd(s) => HookCallV::TurnEnd(s@),
            HookCall::MessageStart(m) => HookCallV::MessageStart(views(m@)),
            HookCall::MessageUpdate(r) => HookCallV::MessageUpdate(r@),
            HookCall::MessageEnd(r) => HookCallV::MessageEnd(r@),
            HookCall::ToolStart { id, name, arguments } => HookCallV::ToolStart {
                id: id@,
                name: name@,
                arguments: arguments@,
            },
            HookCall::ToolEnd { id, result } => HookCallV::ToolEnd {
                id: id@,
                result: res_view(*result),
            },
        }
    }
}

/// A copy of a tool's outcome.
pub fn copy_outcome(result: &Result<ToolResult, ToolError>) -> (r: Result<ToolResult, ToolError>)
    ensures
        res_view(r) == res_view(*result),
{
    match result {
        Ok(v) => Ok(v.clone()),
        Err(e) => Err(e.clone()),
    }
}

impl Clone for HookCall {
    fn clone(&self) -> (r: Self)
        ensures
            r@ == self@,
    {
        match self {
            HookCall::AgentStart(s) => HookCall::AgentStart(s.clone()),
            HookCall::AgentEnd(s) => HookCall::AgentEnd(s.clone()),
            HookCall::TurnStart(s) => HookCall::TurnStart(s.clone()),
            HookCall::TurnEnd(s) => HookCall::TurnEnd(s.clone()),
            HookCall::MessageStart(m) => HookCall::MessageStart(copy_messages(m)),
            HookCall::MessageUpdate(r) => HookCall::MessageUpdate(r.clone()),
            HookCall::MessageEnd(r) => HookCall::MessageEnd(r.clone()),
            HookCall::ToolStart { id, name, arguments } => HookCall::ToolStart {
                id: id.clone(),
                name: name.clone(),
                arguments: arguments.clone(),
            },
            HookCall::ToolEnd { id, result } => HookCall::ToolEnd {
                id: id.clone(),
                result: copy_outcome(result),
            },
        }
    }
}

/// What an extension returns to an agent.
#[derive(Debug, PartialEq)]
pub enum HookReturn {
    State(Result<AgentState, ExtensionError>),
    Messages(Result<Vec<Message>, ExtensionError>),
    Seen(Result<(), ExtensionError>),
    Decision(Result<ToolCallDecision, ExtensionError>),
    Tool(Result<Result<ToolResult, ToolError>, ExtensionError>),
}

/// What a [`HookReturn`] is.
#[verifier::ext_equal]
pub enum HookReturnV {
    State(Result<AgentStateV, ExtensionErrorV>),
    Messages(Result<Seq<MessageV>, ExtensionErrorV>),
    Seen(Result<(), ExtensionErrorV>),
    Decision(Result<DecisionV, ExtensionErrorV>),
    Tool(Result<Result<ToolResultV, ToolErrorV>, ExtensionErrorV>),
}

impl View for HookReturn {
    type V = HookReturnV;

    open spec fn view(&self) -> HookReturnV {
        match self {
            HookReturn::State(r) => HookReturnV::State(res_view(*r)),
            HookReturn::Messages(r) => HookReturnV::Messages(res_messages(*r)),
            HookReturn::Seen(r) => HookReturnV::Seen(res_unit(*r)),
            HookReturn::Decision(r) => HookReturnV::Decision(res_view(*r)),
            HookReturn::Tool(r) => HookReturnV::Tool(res_tool(*r)),
        }
    }
}

impl HookReturnV {
    /// Whether this is the kind of answer that the call asks for.
    pub open spec fn answers(self, call: HookCallV) -> bool {
        match call {
            HookCallV::AgentStart(_) => self is State,
            HookCallV::AgentEnd(_) => self is State,
            HookCallV::TurnStart(_) => self is State,
            HookCallV::TurnEnd(_) => self is State,
            HookCallV::MessageStart(_) => self is Messages,
            HookCallV::MessageUpdate(_) => self is Seen,
            HookCallV::MessageEnd(_) => self is Seen,
            HookCallV::ToolStart { .. } => self is Decision,
            HookCallV::ToolEnd { .. } => self is Tool,
        }
    }

    /// Whether the extension refused to answer.
    pub open spec fn is_error(self) -> bool {
        match self {
            HookReturnV::State(r) => r is Err,
            HookReturnV::Messages(r) => r is Err,
            HookReturnV::Seen(r) => r is Err,
            HookReturnV::Decision(r) => r is Err,
            HookReturnV::Tool(r) => r is Err,
        }
    }
}

impl HookCallV {
    /// The answer that changes nothing: what was asked about is handed back, and a tool call
    /// may run.
    pub open spec fn unchanged(self) -> HookReturnV {
        match self {
            HookCallV::AgentStart(s) => HookReturnV::State(Ok(s)),
            HookCallV::AgentEnd(s) => HookReturnV::State(Ok(s)),
            HookCallV::TurnStart(s) => HookReturnV::State(Ok(s)),
            HookCallV::TurnEnd(s) => HookReturnV::State(Ok(s)),
            HookCallV::MessageStart(m) => HookReturnV::Messages(Ok(m)),
            HookCallV::MessageUpdate(_) => HookReturnV::Seen(Ok(())),
            HookCallV::MessageEnd(_) => HookReturnV::Seen(Ok(())),
            HookCallV::ToolStart { .. } => HookReturnV::Decision(Ok(DecisionV::Allow)),
            HookCallV::ToolEnd { result, .. } => HookReturnV::Tool(Ok(result)),
        }
    }
}

impl HookCall {
    /// The answer that changes nothing.
    pub fn unchanged(self) -> (r: HookReturn)
        ensures
            r@ == self@.unchanged(),
    {
        match self {
            HookCall::AgentStart(s) => HookReturn::State(Ok(s)),
            HookCall::AgentEnd(s) => HookReturn::State(Ok(s)),
            HookCall::TurnStart(s) => HookReturn::State(Ok(s)),
            HookCall::TurnEnd(s) => HookReturn::State(Ok(s)),
            HookCall::MessageStart(m) => HookReturn::Messages(Ok(m)),
            HookCall::MessageUpdate(_) => HookReturn::Seen(Ok(())),
            HookCall::MessageEnd(_) => HookReturn::Seen(Ok(())),
            HookCall::ToolStart { .. } => HookReturn::Decision(Ok(ToolCallDecision::Allow)),
            HookCall::ToolEnd { id: _, result } => HookReturn::Tool(Ok(result)),
        }
    }
}

/// What may watch and change a conversation while an agent runs it.
///
/// `steps` and `called` say what an extension does and is; nothing runs them, so that an
/// extension written outside Verus may leave them unreachable.
pub trait Extension: Sized {
    /// Whether an extension in the state `pre`, called at `call`, may be in the state `post`
    /// afterwards and return `ret`.
    spec fn steps(pre: Self, call: HookCallV, post: Self, ret: HookReturnV) -> bool;

    /// The name of the extension.
    spec fn called(&self) -> Chars;

    /// The name of the extension.
    fn name(&self) -> (r: String)
        ensures
            r@ == self.called(),
    ;

    /// Answers a call of the agent.
    fn handle(&mut self, call: HookCall) -> (ret: HookReturn)
        ensures
            Self::steps(*old(self), call@, *final(self), ret@),
            ret@.answers(call@),
    ;

    /// Answers at the start of a run.
    fn on_agent_start(&mut self, state: AgentState) -> (r: Result<AgentState, ExtensionError>)
        ensures
            Self::steps(
                *old(self),
                HookCallV::AgentStart(state@),
                *final(self),
                HookReturnV::State(res_view(r)),
            ),
    {
        match self.handle(HookCall::AgentStart(state)) {
            HookReturn::State(r) => r,
            _ => vstd::pervasive::unreached(),
        }
    }

    /// Answers at the end of a run.
    fn on_agent_end(&mut self, state: AgentState) -> (r: Result<AgentState, ExtensionError>)
        ensures
            Self::steps(
                *old(self),
                HookCallV::AgentEnd(state@),
                *final(self),
                HookReturnV::State(res_view(r)),
            ),
    {
        match self.handle(HookCall::AgentEnd(state)) {
            HookReturn::State(r) => r,
            _ => vstd::pervasive::unreached(),
        }
    }

    /// Answers at the start of a turn.
    fn on_turn_start(&mut self, state: AgentState) -> (r: Result<AgentState, ExtensionError>)
        ensures
            Self::steps(
                *old(self),
                HookCallV::TurnStart(state@),
                *final(self),
                HookReturnV::State(res_view(r)),
            ),
    {
        match self.handle(HookCall::TurnStart(state)) {
            HookReturn::State(r) => r,
            _ => vstd::pervasive::unreached(),
        }
    }

    /// Answers at the end of a turn.
    fn on_turn_end(&mut self, state: AgentState) -> (r: Result<AgentState, ExtensionError>)
        ensures
            Self::steps(
                *old(self),
                HookCallV::TurnEnd(state@),
                *final(self),
                HookReturnV::State(res_view(r)),
            ),
    {
        match self.handle(HookCall::TurnEnd(state)) {
            HookReturn::State(r) => r,
            _ => vstd::pervasive::unreached(),
        }
    }

    /// Answers before the provider is asked.
    fn on_message_start(&mut self, messages: Vec<Message>) -> (r: Result<
        Vec<Message>,
        ExtensionError,
    >)
        ensures
            Self::steps(
                *old(self),
                HookCallV::MessageStart(views(messages@)),
                *final(self),
                HookReturnV::Messages(res_messages(r)),
            ),
    {
        match self.handle(HookCall::MessageStart(messages)) {
            HookReturn::Messages(r) => r,
            _ => vstd::pervasive::unreached(),
        }
    }

    /// Takes note of a piece of a response.
    fn on_message_update(&mut self, response: &StreamResponse) -> (r: Result<(), ExtensionError>)
        ensures
            Self::steps(
                *old(self),
                HookCallV::MessageUpdate(response@),
                *final(self),
                HookReturnV::Seen(res_unit(r)),
            ),
    {
        match self.handle(HookCall::MessageUpdate(response.clone())) {
            HookReturn::Seen(r) => r,
            _ => vstd::pervasive::unreached(),
        }
    }

    /// Takes note of a whole response.
    fn on_message_end(&mut self, response: &StreamResponse) -> (r: Result<(), ExtensionError>)
        ensures
            Self::steps(
                *old(self),
                HookCallV::MessageEnd(response@),
                *final(self),
                HookReturnV::Seen(res_unit(r)),
            ),
    {
        match self.handle(HookCall::MessageEnd(response.clone())) {
            HookReturn::Seen(r) => r,
            _ => vstd::pervasive::unreached(),
        }
    }

    /// Decides on a tool call.
    fn on_tool_execution_start(&mut self, id: &str, name: &str, arguments: &Json) -> (r: Result<
        ToolCallDecision,
        ExtensionError,
    >)
        ensures
            Self::steps(
                *old(self),
                (HookCallV::ToolStart { id: id@, name: name@, arguments: arguments@ }),
                *final(self),
                HookReturnV::Decision(res_view(r)),
            ),
    {
        let call = HookCall::ToolStart {
            id: id.to_owned(),
            name: name.to_owned(),
            arguments: arguments.clone(),
        };
        match self.handle(call) {
            HookReturn::Decision(r) => r,
            _ => vstd::pervasive::unreached(),
        }
    }

    /// Answers once a tool has run.
    fn tool_execution_end(&mut self, id: &str, result: Result<ToolResult, ToolError>) -> (r: Result<
        Result<ToolResult, ToolError>,
        ExtensionError,
    >)
        ensures
            Self::steps(
                *old(self),
                (HookCallV::ToolEnd { id: id@, result: res_view(result) }),
                *final(self),
                HookReturnV::Tool(res_tool(r)),
            ),
    {
        match self.handle(HookCall::ToolEnd { id: id.to_owned(), result }) {
            HookReturn::Tool(r) => r,
            _ => vstd::pervasive::unreached(),
        }
    }
}

/// The extension that changes nothing.
#[derive(Debug, PartialEq)]
pub struct NoopExtension;

impl Extension for NoopExtension {
    open spec fn steps(pre: Self, call: HookCallV, post: Self, ret: HookReturnV) -> bool {
        ret == call.unchanged()
    }

    open spec fn called(&self) -> Seq<char> {
        "noop"@
    }

    fn name(&self) -> String {
        "noop".to_owned()
    }

    fn handle(&mut self, call: HookCall) -> (ret: HookReturn) {
        call.unchanged()
    }
}

/// The answer that changes nothing is of the kind that the call asks for, is no error, and hands
/// back exactly what was asked about; a tool call may run.
pub proof fn law_unchanged_hands_back(
    call: HookCallV,
    state: AgentStateV,
    messages: Seq<MessageV>,
    id: Seq<char>,
    name: Seq<char>,
    arguments: JsonV,
    result: Result<ToolResultV, ToolErrorV>,
)
    ensures
        call.unchanged().answers(call),
        !call.unchanged().is_error(),
        HookCallV::AgentStart(state).unchanged() == HookReturnV::State(Ok(state)),
        HookCallV::AgentEnd(state).unchanged() == HookReturnV::State(Ok(state)),
        HookCallV::TurnStart(state).unchanged() == HookReturnV::State(Ok(state)),
        HookCallV::TurnEnd(state).unchanged() == HookReturnV::State(Ok(state)),
        HookCallV::MessageStart(messages).unchanged() == HookReturnV::Messages(Ok(messages)),
        (HookCallV::ToolStart { id, name, arguments }).unchanged() == HookReturnV::Decision(
            Ok(DecisionV::Allow),
        ),
        (HookCallV::ToolEnd { id, result }).unchanged() == HookReturnV::Tool(Ok(result)),
{
}

/// A call is answered in one kind only, and an answer is an error if and only if it holds one.
pub proof fn law_answers_are_of_one_kind(
    call: HookCallV,
    one: HookReturnV,
    other: HookReturnV,
    error: ExtensionErrorV,
)
    requires
        one.answers(call),
        other.answers(call),
    ensures
        one is State <==> other is State,
        one is Messages <==> other is Messages,
        one is Seen <==> other is Seen,
        one is Decision <==> other is Decision,
        one is Tool <==> other is Tool,
        one is Messages <==> call is MessageStart,
        one is Decision <==> call is ToolStart,
        one is Tool <==> call is ToolEnd,
        one is Seen <==> call is MessageUpdate || call is MessageEnd,
        HookReturnV::State(Err(error)).is_error(),
        HookReturnV::Messages(Err(error)).is_error(),
        HookReturnV::Seen(Err(error)).is_error(),
        HookReturnV::Decision(Err(error)).is_error(),
        HookReturnV::Tool(Err(error)).is_error(),
        one matches HookReturnV::Decision(Ok(_)) ==> !one.is_error(),
        one matches HookReturnV::Tool(Ok(_)) ==> !one.is_error(),
{
}

/// What an extension fails with, or stops with, names the extension and ends with the message.
pub proof fn law_extension_errors_name_the_extension(name: Seq<char>, message: Seq<char>)
    ensures
        ("extension '"@ + name + "'"@).is_prefix_of(
            (ExtensionErrorV::ExtensionFailed { name, message }).words(),
        ),
        ends_with((ExtensionErrorV::ExtensionFailed { name, message }).words(), message),
        ("extension '"@ + name + "'"@).is_prefix_of(
            (ExtensionErrorV::Stopped { name, message }).words(),
        ),
        ends_with((ExtensionErrorV::Stopped { name, message }).words(), message),
{
    reveal_strlit("'");
    reveal_strlit("': ");
    assert("'"@.len() == 1);
    assert("': "@.len() == 3);
    let lead = "extension '"@ + name + "'"@;
    let words = "extension '"@ + name + "': "@ + message;
    assert(words.take(lead.len() as int) =~= lead);
    lemma_ends_with("extension '"@ + name + "': "@, message);
}

} // verus!
