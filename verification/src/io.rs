//! The bridge between an agent and a transport: output goes out as events, the next prompt
//! comes in at the end of each turn.
use vstd::prelude::*;

use crate::extensions::{
    AgentStateV, Extension, ExtensionError, ExtensionErrorV, HookCall, HookCallV, HookReturn,
    HookReturnV,
};
use crate::providers::{StreamResponse, StreamResponseV};
use crate::session::SessionError;
use crate::text::views;
use crate::tools::{ToolError, ToolErrorV};
use crate::types::{BlockV, ContentBlock, Message, MessageV, ResultPartV, ToolResult, ToolResultV};

verus! {

/// One unit of output that a transport renders.
#[derive(Debug, PartialEq)]
pub enum OutputEvent {
    /// A streamed block. A tool call here is resolved by the `ToolEnd` of the same id.
    Append(ContentBlock),
    /// What came of a tool call, failed ones too.
    ToolEnd { id: String, result: ToolResult },
    /// The turn is over, and waits until the transport has flushed it.
    Finish,
}

/// What an [`OutputEvent`] is.
#[verifier::ext_equal]
pub enum OutputV {
    Append(BlockV),
    ToolEnd { id: Seq<char>, result: ToolResultV },
    Finish,
}

impl View for OutputEvent {
    type V = OutputV;

    open spec fn view(&self) -> OutputV {
        match self {
            OutputEvent::Append(block) => OutputV::Append(block@),
            OutputEvent::ToolEnd { id, result } => OutputV::ToolEnd { id: id@, result: result@ },
            OutputEvent::Finish => OutputV::Finish,
        }
    }
}

/// The error of an agent whose transport is gone.
pub open spec fn transport_dropped() -> ExtensionErrorV {
    ExtensionErrorV::ExtensionFailed { name: "io"@, message: "transport channel dropped"@ }
}

/// The error of an agent whose transport is gone.
pub fn dropped() -> (r: ExtensionError)
    ensures
        r@ == transport_dropped(),
{
    ExtensionError::failed("io", "transport channel dropped")
}

/// The error of an agent whose session refuses the next prompt.
pub fn session_refused(error: &SessionError) -> (r: ExtensionError)
    ensures
        r@ == (ExtensionErrorV::ExtensionFailed {
            name: "io"@,
            message: "session error: "@ + error@,
        }),
{
    let message = error.words();
    ExtensionError::failed("io", message.as_str())
}

/// A tool's outcome as a transport renders it: a failure is an error result of the call.
pub open spec fn shown_outcome(id: Seq<char>, result: Result<ToolResultV, ToolErrorV>)
    -> ToolResultV {
    match result {
        Ok(r) => r,
        Err(e) => ToolResultV {
            tool_call_id: Some(id),
            content: seq![ResultPartV::Text(e.words())],
            is_error: true,
        },
    }
}

/// A tool's outcome as a transport renders it.
pub fn show_outcome(id: &str, result: &Result<ToolResult, ToolError>) -> (r: ToolResult)
    ensures
        r@ == shown_outcome(id@, crate::extensions::res_view(*result)),
{
    match result {
        Ok(r) => r.clone(),
        Err(e) => ToolResult::for_call(Some(id.to_owned()), e.words(), true),
    }
}

/// What an [`IoExtension`] is.
#[verifier::ext_equal]
pub struct IoV {
    pub outbox: Seq<OutputV>,
    pub inbox: Seq<MessageV>,
    pub open: bool,
}

/// The extension that bridges an agent to a transport. It comes last in a chain, so that the
/// wait for the next prompt comes behind what the others do at the end of a turn.
#[derive(Debug, PartialEq)]
pub struct IoExtension {
    /// Output that the transport has not taken yet.
    pub outbox: Vec<OutputEvent>,
    /// Prompts that the agent has not taken yet.
    pub inbox: Vec<Message>,
    /// Whether the transport is there.
    pub open: bool,
}

impl View for IoExtension {
    type V = IoV;

    open spec fn view(&self) -> IoV {
        IoV { outbox: views(self.outbox@), inbox: views(self.inbox@), open: self.open }
    }
}

impl IoExtension {
    /// A bridge on which nothing has passed yet.
    pub fn new() -> (r: Self)
        ensures
            r@ == (IoV { outbox: Seq::empty(), inbox: Seq::empty(), open: true }),
    {
        let r = IoExtension { outbox: Vec::new(), inbox: Vec::new(), open: true };
        assert(r@.outbox =~= Seq::empty());
        assert(r@.inbox =~= Seq::empty());
        r
    }
}

/// The blocks as events.
pub open spec fn block_events(blocks: Seq<BlockV>) -> Seq<OutputV> {
    Seq::new(blocks.len(), |i: int| OutputV::Append(blocks[i]))
}

impl IoV {
    /// The bridge with more output.
    pub open spec fn sending(self, events: Seq<OutputV>) -> IoV {
        IoV { outbox: self.outbox + events, inbox: self.inbox, open: self.open }
    }

    /// The bridge after a call.
    pub open spec fn after(self, call: HookCallV) -> IoV {
        if !self.open {
            self
        } else {
            match call {
                HookCallV::MessageUpdate(r) => self.sending(block_events(r.message.content)),
                HookCallV::ToolEnd { id, result } => self.sending(
                    seq![OutputV::ToolEnd { id, result: shown_outcome(id, result) }],
                ),
                HookCallV::TurnEnd(_) => IoV {
                    outbox: self.outbox.push(OutputV::Finish),
                    inbox: if self.inbox.len() == 0 {
                        self.inbox
                    } else {
                        self.inbox.skip(1)
                    },
                    open: self.open,
                },
                _ => self,
            }
        }
    }

    /// What the bridge answers: output that cannot be sent is an error, the end of a turn takes
    /// the next prompt into the session, nothing else changes.
    pub open spec fn answer(self, call: HookCallV) -> HookReturnV {
        match call {
            HookCallV::MessageUpdate(r) => if !self.open && r.message.content.len() > 0 {
                HookReturnV::Seen(Err(transport_dropped()))
            } else {
                HookReturnV::Seen(Ok(()))
            },
            HookCallV::ToolEnd { id: _, result } => if !self.open {
                HookReturnV::Tool(Err(transport_dropped()))
            } else {
                HookReturnV::Tool(Ok(result))
            },
            HookCallV::TurnEnd(state) => if !self.open || self.inbox.len() == 0 {
                HookReturnV::State(Err(transport_dropped()))
            } else {
                HookReturnV::State(
                    Ok(
                        AgentStateV {
                            model: state.model,
                            tools: state.tools,
                            session: state.session.push(self.inbox[0]),
                        },
                    ),
                )
            },
            other => other.unchanged(),
        }
    }
}

/// Appends the blocks of a chunk to the output.
fn send_blocks(outbox: &mut Vec<OutputEvent>, response: &StreamResponse)
    ensures
        views(final(outbox)@) == views(old(outbox)@) + block_events(response@.message.content),
{
    let ghost before = views(outbox@);
    let ghost events = block_events(response@.message.content);
    let mut i: usize = 0;
    assert(before + events.take(0) =~= before);
    while i < response.message.content.len()
        invariant
            i <= response.message.content@.len(),
            events == block_events(views(response.message.content@)),
            views(outbox@) == before + events.take(i as int),
        decreases response.message.content@.len() - i,
    {
        let ghost so_far = views(outbox@);
        outbox.push(OutputEvent::Append(response.message.content[i].clone()));
        proof {
            assert(views(outbox@) =~= so_far.push(events[i as int]));
            assert(so_far.push(events[i as int]) =~= before + events.take(i + 1));
        }
        i += 1;
    }
    assert(events.take(events.len() as int) =~= events);
}

impl Extension for IoExtension {
    open spec fn steps(pre: Self, call: HookCallV, post: Self, ret: HookReturnV) -> bool {
        &&& post@ == pre@.after(call)
        &&& ret == pre@.answer(call)
    }

    open spec fn called(&self) -> Seq<char> {
        "io"@
    }

    fn name(&self) -> String {
        "io".to_owned()
    }

    fn handle(&mut self, call: HookCall) -> (ret: HookReturn) {
        let ghost before = self@;
        match call {
            HookCall::MessageUpdate(response) => {
                if !self.open {
                    if response.message.content.len() > 0 {
                        return HookReturn::Seen(Err(dropped()));
                    }
                    return HookReturn::Seen(Ok(()));
                }
                send_blocks(&mut self.outbox, &response);
                HookReturn::Seen(Ok(()))
            },
            HookCall::ToolEnd { id, result } => {
                if !self.open {
                    return HookReturn::Tool(Err(dropped()));
                }
                let shown = show_outcome(id.as_str(), &result);
                let ghost event = OutputV::ToolEnd { id: id@, result: shown@ };
                self.outbox.push(OutputEvent::ToolEnd { id, result: shown });
                assert(self@.outbox =~= before.outbox + seq![event]);
                HookReturn::Tool(Ok(result))
            },
            HookCall::TurnEnd(state) => {
                if !self.open {
                    return HookReturn::State(Err(dropped()));
                }
                self.outbox.push(OutputEvent::Finish);
                assert(self@.outbox =~= before.outbox.push(OutputV::Finish));
                if self.inbox.len() == 0 {
                    return HookReturn::State(Err(dropped()));
                }
                let message = self.inbox.remove(0);
                let ghost shown = message@;
                let ghost said = state@.session;
                assert(shown == before.inbox[0]);
                assert(self@.inbox =~= before.inbox.skip(1));
                let mut state = state;
                state.session.push(message);
                assert(views(state.session@) =~= said.push(shown));
                HookReturn::State(Ok(state))
            },
            other => other.unchanged(),
        }
    }
}

/// A tool's outcome passes the bridge unchanged: rendering it is all the bridge does.
pub proof fn law_outcomes_pass_unchanged(
    io: IoV,
    id: Seq<char>,
    result: Result<ToolResultV, ToolErrorV>,
)
    requires
        io.open,
    ensures
        io.answer(HookCallV::ToolEnd { id, result }) == HookReturnV::Tool(Ok(result)),
        io.after(HookCallV::ToolEnd { id, result }).outbox == io.outbox.push(
            OutputV::ToolEnd { id, result: shown_outcome(id, result) },
        ),
        result is Err ==> shown_outcome(id, result).is_error,
{
    let event = OutputV::ToolEnd { id, result: shown_outcome(id, result) };
    assert(io.outbox + seq![event] =~= io.outbox.push(event));
}

/// Prompts are taken one to a turn, in the order in which they came.
pub proof fn law_one_prompt_per_turn(io: IoV, state: AgentStateV)
    requires
        io.open,
        io.inbox.len() > 0,
    ensures
        io.after(HookCallV::TurnEnd(state)).inbox == io.inbox.skip(1),
        io.answer(HookCallV::TurnEnd(state)) matches HookReturnV::State(Ok(after))
            && after.session == state.session.push(io.inbox[0]),
{
}

/// A tool's outcome is rendered as it is; a failure is rendered as an error result of that call
/// which says what went wrong.
pub proof fn law_failures_are_rendered(id: Seq<char>, result: ToolResultV, error: ToolErrorV)
    ensures
        shown_outcome(id, Ok(result)) == result,
        shown_outcome(id, Err(error)).tool_call_id == Some(id),
        shown_outcome(id, Err(error)).is_error,
        crate::types::parts_text(shown_outcome(id, Err(error)).content) == error.words(),
{
    let part = ResultPartV::Text(error.words());
    crate::types::law_result_text_is_read_in_order(Seq::empty(), part);
    assert(Seq::<ResultPartV>::empty().push(part) =~= seq![part]);
    assert(crate::types::parts_text(seq![part]) =~= error.words());
}

/// What is streamed goes out block by block, in order and behind what went out before; the end of
/// a turn goes out behind it. Nothing else is put out.
pub proof fn law_what_is_streamed_goes_out(
    io: IoV,
    response: StreamResponseV,
    state: AgentStateV,
    call: HookCallV,
)
    requires
        io.open,
    ensures
        ({
            let after = io.after(HookCallV::MessageUpdate(response));
            let blocks = response.message.content;
            &&& after.outbox.len() == io.outbox.len() + blocks.len()
            &&& forall|i: int|
                0 <= i < io.outbox.len() ==> #[trigger] after.outbox[i] == io.outbox[i]
            &&& forall|i: int|
                0 <= i < blocks.len() ==> after.outbox[io.outbox.len() + i] == OutputV::Append(
                    #[trigger] blocks[i],
                )
            &&& after.inbox == io.inbox
            &&& after.open
        }),
        io.answer(HookCallV::MessageUpdate(response)) == HookReturnV::Seen(Ok(())),
        io.after(HookCallV::TurnEnd(state)).outbox == io.outbox.push(OutputV::Finish),
        io.after(HookCallV::TurnEnd(state)).open,
        !(call is MessageUpdate || call is ToolEnd || call is TurnEnd) ==> io.after(call) == io
            && io.answer(call) == call.unchanged(),
{
}

/// Where the transport is gone, or has no prompt left, what needs it fails in the same words, and
/// what does not goes on; nothing is put out or taken in.
pub proof fn law_a_missing_transport_is_an_error(
    io: IoV,
    call: HookCallV,
    state: AgentStateV,
    id: Seq<char>,
    result: Result<ToolResultV, ToolErrorV>,
)
    ensures
        !io.open ==> {
            &&& io.after(call) == io
            &&& io.answer(HookCallV::TurnEnd(state)) == HookReturnV::State(
                Err(transport_dropped()),
            )
            &&& io.answer(HookCallV::ToolEnd { id, result }) == HookReturnV::Tool(
                Err(transport_dropped()),
            )
            &&& call matches HookCallV::MessageUpdate(r) ==> (io.answer(call)
                == HookReturnV::Seen(Err(transport_dropped())) <==> r.message.content.len() > 0)
            &&& call matches HookCallV::MessageUpdate(r) ==> (r.message.content.len() == 0
                ==> io.answer(call) == HookReturnV::Seen(Ok(())))
            &&& !(call is MessageUpdate || call is ToolEnd || call is TurnEnd) ==> io.answer(call)
                == call.unchanged()
        },
        io.open && io.inbox.len() == 0 ==> io.answer(HookCallV::TurnEnd(state))
            == HookReturnV::State(Err(transport_dropped())),
{
}

/// A prompt that is taken in changes nothing of an agent but its session.
pub proof fn law_a_prompt_changes_the_session_only(io: IoV, state: AgentStateV)
    requires
        io.open,
        io.inbox.len() > 0,
    ensures
        io.answer(HookCallV::TurnEnd(state)) matches HookReturnV::State(Ok(after))
            && after.model == state.model && after.tools == state.tools,
{
}

} // verus!
