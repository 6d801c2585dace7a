//! The extension that bridges an agent to a chat which renders streamed output itself.
use vstd::prelude::*;

use crate::extensions::{
    AgentStateV, DecisionV, Extension, ExtensionError, ExtensionErrorV, HookCall, HookCallV,
    HookReturn, HookReturnV, ToolCallDecision,
};
use crate::providers::{StreamResponse, StreamResponseV};
use crate::telegram::{notice, tool_notice, StreamEvent, StreamV};
use crate::text::views;
use crate::types::{BlockV, Message, MessageV};

verus! {

/// The error of an agent whose chat is gone.
pub open spec fn updater_dropped() -> ExtensionErrorV {
    ExtensionErrorV::ExtensionFailed { name: "telegram"@, message: "updater task dropped"@ }
}

/// The error of an agent to which nobody can talk any more.
pub open spec fn input_dropped() -> ExtensionErrorV {
    ExtensionErrorV::ExtensionFailed { name: "telegram"@, message: "input channel dropped"@ }
}

/// The error of an agent whose updates nobody takes.
fn no_updater() -> (r: ExtensionError)
    ensures
        r@ == updater_dropped(),
{
    ExtensionError::failed("telegram", "updater task dropped")
}

/// What a [`TelegramExtension`] is.
#[verifier::ext_equal]
pub struct BridgeV {
    pub outbox: Seq<StreamV>,
    pub inbox: Seq<MessageV>,
    pub open: bool,
}

/// The blocks as events.
pub open spec fn streamed(blocks: Seq<BlockV>) -> Seq<StreamV> {
    Seq::new(blocks.len(), |i: int| StreamV::Append(blocks[i]))
}

impl BridgeV {
    /// The bridge after a call.
    pub open spec fn after(self, call: HookCallV) -> BridgeV {
        if !self.open {
            self
        } else {
            match call {
                HookCallV::MessageUpdate(r) => BridgeV {
                    outbox: self.outbox + streamed(r.message.content),
                    inbox: self.inbox,
                    open: self.open,
                },
                HookCallV::ToolStart { id: _, name, arguments } => BridgeV {
                    outbox: self.outbox.push(StreamV::Notification(notice(name, arguments))),
                    inbox: self.inbox,
                    open: self.open,
                },
                HookCallV::TurnEnd(_) => BridgeV {
                    outbox: self.outbox.push(StreamV::Finish),
                    inbox: if self.inbox.len() == 0 {
                        self.inbox
                    } else {
                        self.inbox.skip(1)
                    },
                    open: self.open,
                },
                _ => self,
            }
        }
    }

    /// What the bridge answers: output that cannot be sent is an error, the end of a turn takes
    /// the next prompt into the session, nothing else changes.
    pub open spec fn answer(self, call: HookCallV) -> HookReturnV {
        match call {
            HookCallV::MessageUpdate(r) => if !self.open && r.message.content.len() > 0 {
                HookReturnV::Seen(Err(updater_dropped()))
            } else {
                HookReturnV::Seen(Ok(()))
            },
            HookCallV::ToolStart { .. } => if !self.open {
                HookReturnV::Decision(Err(updater_dropped()))
            } else {
                HookReturnV::Decision(Ok(DecisionV::Allow))
            },
            HookCallV::TurnEnd(state) => if !self.open {
                HookReturnV::State(Err(updater_dropped()))
            } else if self.inbox.len() == 0 {
                HookReturnV::State(Err(input_dropped()))
            } else {
                HookReturnV::State(
                    Ok(
                        AgentStateV {
                            model: state.model,
                            tools: state.tools,
                            session: state.session.push(self.inbox[0]),
                        },
                    ),
                )
            },
            other => other.unchanged(),
        }
    }
}

/// The extension that bridges an agent to a chat.
#[derive(Debug, PartialEq)]
pub struct TelegramExtension {
    /// Output that the chat has not taken yet.
    pub outbox: Vec<StreamEvent>,
    /// Prompts that the agent has not taken yet.
    pub inbox: Vec<Message>,
    /// Whether the chat is there.
    pub open: bool,
}

impl View for TelegramExtension {
    type V = BridgeV;

    open spec fn view(&self) -> BridgeV {
        BridgeV { outbox: views(self.outbox@), inbox: views(self.inbox@), open: self.open }
    }
}

impl TelegramExtension {
    /// A bridge on which nothing has passed yet.
    pub fn new() -> (r: Self)
        ensures
            r@ == (BridgeV { outbox: Seq::empty(), inbox: Seq::empty(), open: true }),
    {
        let r = TelegramExtension { outbox: Vec::new(), inbox: Vec::new(), open: true };
        assert(r@.outbox =~= Seq::empty());
        assert(r@.inbox =~= Seq::empty());
        r
    }
}

/// Appends the blocks of a chunk to the output.
fn stream_blocks(outbox: &mut Vec<StreamEvent>, response: &StreamResponse)
    ensures
        views(final(outbox)@) == views(old(outbox)@) + streamed(response@.message.content),
{
    let ghost before = views(outbox@);
    let ghost events = streamed(response@.message.content);
    let mut i: usize = 0;
    assert(before + events.take(0) =~= before);
    while i < response.message.content.len()
        invariant
            i <= response.message.content@.len(),
            events == streamed(views(response.message.content@)),
            views(outbox@) == before + events.take(i as int),
        decreases response.message.content@.len() - i,
    {
        let ghost so_far = views(outbox@);
        outbox.push(StreamEvent::Append(response.message.content[i].clone()));
        proof {
            assert(views(outbox@) =~= so_far.push(events[i as int]));
            assert(so_far.push(events[i as int]) =~= before + events.take(i + 1));
        }
        i += 1;
    }
    assert(events.take(events.len() as int) =~= events);
}

impl Extension for TelegramExtension {
    open spec fn steps(pre: Self, call: HookCallV, post: Self, ret: HookReturnV) -> bool {
        &&& post@ == pre@.after(call)
        &&& ret == pre@.answer(call)
    }

    open spec fn called(&self) -> Seq<char> {
        "telegram"@
    }

    fn name(&self) -> String {
        "telegram".to_owned()
    }

    fn handle(&mut self, call: HookCall) -> (ret: HookReturn) {
        let ghost before = self@;
        match call {
            HookCall::MessageUpdate(response) => {
                if !self.open {
                    if response.message.content.len() > 0 {
                        return HookReturn::Seen(Err(no_updater()));
                    }
                    return HookReturn::Seen(Ok(()));
                }
                stream_blocks(&mut self.outbox, &response);
                HookReturn::Seen(Ok(()))
            },
            HookCall::ToolStart { id: _, name, arguments } => {
                if !self.open {
                    return HookReturn::Decision(Err(no_updater()));
                }
                let note = tool_notice(name.as_str(), &arguments);
                let ghost shown = note@;
                self.outbox.push(StreamEvent::Notification(note));
                assert(self@.outbox =~= before.outbox.push(StreamV::Notification(shown)));
                HookReturn::Decision(Ok(ToolCallDecision::Allow))
            },
            HookCall::TurnEnd(state) => {
                if !self.open {
                    return HookReturn::State(Err(no_updater()));
                }
                self.outbox.push(StreamEvent::Finish);
                assert(self@.outbox =~= before.outbox.push(StreamV::Finish));
                if self.inbox.len() == 0 {
                    return HookReturn::State(
                        Err(ExtensionError::failed("telegram", "input channel dropped")),
                    );
                }
                let message = self.inbox.remove(0);
                let ghost shown = message@;
                let ghost said = state@.session;
                assert(shown == before.inbox[0]);
                assert(self@.inbox =~= before.inbox.skip(1));
                let mut state = state;
                state.session.push(message);
                assert(views(state.session@) =~= said.push(shown));
                HookReturn::State(Ok(state))
            },
            other => other.unchanged(),
        }
    }
}

/// The chat is told of every tool before it runs, and no tool is kept from running.
pub proof fn law_tools_are_announced(
    bridge: BridgeV,
    id: Seq<char>,
    name: Seq<char>,
    arguments: crate::json::JsonV,
)
    requires
        bridge.open,
    ensures
        bridge.after(HookCallV::ToolStart { id, name, arguments }).outbox == bridge.outbox.push(
            StreamV::Notification(notice(name, arguments)),
        ),
        bridge.answer(HookCallV::ToolStart { id, name, arguments }) == HookReturnV::Decision(
            Ok(DecisionV::Allow),
        ),
{
}

/// What is streamed goes out block by block, in order and behind what went out before; the end of
/// a turn goes out behind it. Nothing but tools, text and ends of turns is put out.
pub proof fn law_what_is_streamed_reaches_the_chat(
    bridge: BridgeV,
    response: StreamResponseV,
    state: AgentStateV,
    call: HookCallV,
)
    requires
        bridge.open,
    ensures
        ({
            let after = bridge.after(HookCallV::MessageUpdate(response));
            let blocks = response.message.content;
            &&& after.outbox.len() == bridge.outbox.len() + blocks.len()
            &&& forall|i: int|
                0 <= i < bridge.outbox.len() ==> #[trigger] after.outbox[i] == bridge.outbox[i]
            &&& forall|i: int|
                0 <= i < blocks.len() ==> after.outbox[bridge.outbox.len() + i] == StreamV::Append(
                    #[trigger] blocks[i],
                )
            &&& after.inbox == bridge.inbox
            &&& after.open
        }),
        bridge.answer(HookCallV::MessageUpdate(response)) == HookReturnV::Seen(Ok(())),
        bridge.after(HookCallV::TurnEnd(state)).outbox == bridge.outbox.push(StreamV::Finish),
        bridge.after(HookCallV::TurnEnd(state)).open,
        !(call is MessageUpdate || call is ToolStart || call is TurnEnd) ==> bridge.after(call)
            == bridge && bridge.answer(call) == call.unchanged(),
{
}

/// Prompts are taken one to a turn, in the order in which they came, and change nothing of an
/// agent but its session. Without a prompt the run cannot go on.
pub proof fn law_prompts_are_taken_in_order(bridge: BridgeV, state: AgentStateV)
    requires
        bridge.open,
    ensures
        bridge.inbox.len() > 0 ==> {
            &&& bridge.after(HookCallV::TurnEnd(state)).inbox == bridge.inbox.skip(1)
            &&& bridge.answer(HookCallV::TurnEnd(state)) matches HookReturnV::State(Ok(after))
            &&& after.session == state.session.push(bridge.inbox[0])
            &&& after.model == state.model
            &&& after.tools == state.tools
        },
        bridge.inbox.len() == 0 ==> bridge.answer(HookCallV::TurnEnd(state))
            == HookReturnV::State(Err(input_dropped())),
{
}

/// Where the chat is gone, what needs it fails in the same words, and what does not goes on;
/// nothing is put out or taken in.
pub proof fn law_a_missing_chat_is_an_error(bridge: BridgeV, call: HookCallV)
    requires
        !bridge.open,
    ensures
        bridge.after(call) == bridge,
        call is TurnEnd ==> bridge.answer(call) == HookReturnV::State(Err(updater_dropped())),
        call is ToolStart ==> bridge.answer(call) == HookReturnV::Decision(Err(updater_dropped())),
        call matches HookCallV::MessageUpdate(r) ==> bridge.answer(call) == HookReturnV::Seen(
            if r.message.content.len() > 0 {
                Err(updater_dropped())
            } else {
                Ok(())
            },
        ),
        !(call is MessageUpdate || call is ToolStart || call is TurnEnd) ==> bridge.answer(call)
            == call.unchanged(),
{
}

} // verus!
