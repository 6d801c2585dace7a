//! The view model: the transcripts of many agent runs, which of them is typed to and which
//! are shown.
use std::collections::{HashMap, HashSet};
use vstd::prelude::*;
use vstd::std_specs::iter::IteratorSpec;

use crate::io::{OutputEvent, OutputV};
use crate::transcript::{Transcript, TranscriptV};
use crate::types::{BlockV, ToolResultV};

verus! {

broadcast use vstd::std_specs::hash::group_hash_axioms;

/// Why a typed message reached no run.
#[derive(Debug, Clone, Copy, PartialEq, Eq, Structural)]
pub enum RouteError {
    /// No run is typed to.
    NoFocus,
    /// The run that is typed to takes no more messages.
    Closed,
}

impl RouteError {
    /// The error in words.
    pub fn words(&self) -> (r: String)
        ensures
            r@ == (match self {
                RouteError::NoFocus => "no agent is input-focused"@,
                RouteError::Closed => "agent channel closed"@,
            }),
    {
        match self {
            RouteError::NoFocus => "no agent is input-focused".to_owned(),
            RouteError::Closed => "agent channel closed".to_owned(),
        }
    }
}

/// Identifies one run.
#[derive(Debug, Clone, Copy, PartialEq, Eq, Hash, Structural)]
pub struct AgentId(pub u64);

/// What there is to do for a frontend.
#[derive(Debug, Clone, Copy, PartialEq, Eq, Structural)]
pub enum Step {
    /// The run's transcript changed: render it.
    Updated { id: AgentId },
    /// The run's turn is over and waits: render it, then acknowledge.
    TurnFinished { id: AgentId },
    /// The run is over. Its transcript is kept until it is stopped.
    AgentEnded { id: AgentId },
}

/// The run that a step is about.
pub open spec fn step_run(step: Step) -> AgentId {
    match step {
        Step::Updated { id } => id,
        Step::TurnFinished { id } => id,
        Step::AgentEnded { id } => id,
    }
}

/// The run that a step is about.
pub fn step_id(step: &Step) -> (r: AgentId)
    ensures
        r == step_run(*step),
{
    match step {
        Step::Updated { id } => *id,
        Step::TurnFinished { id } => *id,
        Step::AgentEnded { id } => *id,
    }
}

/// What came from a run.
#[derive(Debug, PartialEq)]
pub enum FanEvent {
    Output(OutputEvent),
    Ended,
}

/// What a [`FanEvent`] is.
#[verifier::ext_equal]
pub enum FanV {
    Output(OutputV),
    Ended,
}

impl View for FanEvent {
    type V = FanV;

    open spec fn view(&self) -> FanV {
        match self {
            FanEvent::Output(event) => FanV::Output(event@),
            FanEvent::Ended => FanV::Ended,
        }
    }
}

/// One run.
#[derive(Debug, PartialEq)]
pub struct Run {
    pub transcript: Transcript,
    /// A finished turn waits for its acknowledgement.
    pub pending_ack: bool,
    pub ended: bool,
}

/// What a [`Run`] is.
#[verifier::ext_equal]
pub struct RunShownV {
    pub transcript: TranscriptV,
    pub pending_ack: bool,
    pub ended: bool,
}

impl View for Run {
    type V = RunShownV;

    open spec fn view(&self) -> RunShownV {
        RunShownV {
            transcript: self.transcript@,
            pending_ack: self.pending_ack,
            ended: self.ended,
        }
    }
}

impl RunShownV {
    /// A run that has put out nothing yet.
    pub open spec fn fresh() -> RunShownV {
        RunShownV { transcript: TranscriptV::empty(), pending_ack: false, ended: false }
    }
}

/// What a [`ViewModel`] is.
#[verifier::ext_equal]
pub struct ViewModelV {
    pub runs: Map<u64, RunShownV>,
    /// The run that is typed to.
    pub focus: Option<AgentId>,
    /// The runs that take typed messages.
    pub inputs: Set<u64>,
    /// The runs that are shown.
    pub output: Set<u64>,
    pub next_id: u64,
}

/// What reducing an event did.
#[derive(Debug, Clone, Copy, PartialEq, Eq, Structural)]
pub struct Reduced {
    /// What there is to do for a frontend; nothing where the run is not known.
    pub step: Option<Step>,
    /// The finished turn is to be acknowledged at once, since nobody renders it.
    pub ack_now: bool,
}

impl ViewModelV {
    /// A view model without runs.
    pub open spec fn empty() -> ViewModelV {
        ViewModelV {
            runs: Map::empty(),
            focus: None,
            inputs: Set::empty(),
            output: Set::empty(),
            next_id: 0,
        }
    }

    /// Every run that is held was numbered before the next one, and a run that takes typed
    /// messages is held and not over.
    pub open spec fn wf(self) -> bool {
        &&& forall|id: u64| #[trigger] self.runs.contains_key(id) ==> id < self.next_id
        &&& forall|id: u64| #[trigger]
            self.inputs.contains(id) ==> self.runs.contains_key(id) && !self.runs[id].ended
    }

    /// A run is attached: it is shown, and typed to where asked for.
    pub open spec fn attached(self, id: AgentId, input: bool) -> ViewModelV {
        ViewModelV {
            runs: self.runs,
            focus: if input {
                Some(id)
            } else {
                self.focus
            },
            inputs: self.inputs,
            output: self.output.insert(id.0),
            next_id: self.next_id,
        }
    }

    /// A run is detached: it is not typed to, and not shown where asked for.
    pub open spec fn detached(self, id: AgentId, output: bool) -> ViewModelV {
        ViewModelV {
            runs: self.runs,
            focus: if self.focus == Some(id) {
                None
            } else {
                self.focus
            },
            inputs: self.inputs,
            output: if output {
                self.output.remove(id.0)
            } else {
                self.output
            },
            next_id: self.next_id,
        }
    }

    /// A run begins: it is typed to and shown.
    pub open spec fn started(self) -> ViewModelV {
        ViewModelV {
            runs: self.runs.insert(self.next_id, RunShownV::fresh()),
            focus: Some(AgentId(self.next_id)),
            inputs: self.inputs.insert(self.next_id),
            output: self.output.insert(self.next_id),
            next_id: (self.next_id + 1) as u64,
        }
    }

    /// A number is spent.
    pub open spec fn numbered(self) -> ViewModelV {
        ViewModelV {
            runs: self.runs,
            focus: self.focus,
            inputs: self.inputs,
            output: self.output,
            next_id: (self.next_id + 1) as u64,
        }
    }

    /// A run takes no more typed messages.
    pub open spec fn without_input(self, id: AgentId) -> ViewModelV {
        ViewModelV {
            runs: self.runs,
            focus: if self.focus == Some(id) {
                None
            } else {
                self.focus
            },
            inputs: self.inputs.remove(id.0),
            output: self.output,
            next_id: self.next_id,
        }
    }

    /// A run is dropped.
    pub open spec fn stopped(self, id: AgentId) -> ViewModelV {
        ViewModelV {
            runs: self.runs.remove(id.0),
            focus: self.without_input(id).focus,
            inputs: self.inputs.remove(id.0),
            output: self.output.remove(id.0),
            next_id: self.next_id,
        }
    }

    /// A run stands otherwise.
    pub open spec fn with_run(self, id: AgentId, run: RunShownV) -> ViewModelV {
        ViewModelV {
            runs: self.runs.insert(id.0, run),
            focus: self.focus,
            inputs: self.inputs,
            output: self.output,
            next_id: self.next_id,
        }
    }

    /// What is known once an event has come from a run. Events of unknown runs are dropped.
    pub open spec fn after(self, id: AgentId, event: FanV) -> ViewModelV {
        if !self.runs.contains_key(id.0) {
            self
        } else {
            let run = self.runs[id.0];
            match event {
                FanV::Ended => self.without_input(id).with_run(
                    id,
                    RunShownV {
                        transcript: run.transcript,
                        pending_ack: run.pending_ack,
                        ended: true,
                    },
                ),
                FanV::Output(OutputV::Append(block)) => self.with_run(
                    id,
                    RunShownV {
                        transcript: run.transcript.appended(block),
                        pending_ack: run.pending_ack,
                        ended: run.ended,
                    },
                ),
                FanV::Output(OutputV::ToolEnd { id: call, result }) => self.with_run(
                    id,
                    RunShownV {
                        transcript: run.transcript.tool_ended(call, result),
                        pending_ack: run.pending_ack,
                        ended: run.ended,
                    },
                ),
                FanV::Output(OutputV::Finish) => self.with_run(
                    id,
                    RunShownV {
                        transcript: run.transcript.turn_finished(),
                        pending_ack: if self.output.contains(id.0) {
                            true
                        } else {
                            run.pending_ack
                        },
                        ended: run.ended,
                    },
                ),
            }
        }
    }

    /// What there is to do once an event has come from a run: a finished turn waits where it is
    /// shown, and goes on at once where it is not.
    pub open spec fn reduced(self, id: AgentId, event: FanV) -> Reduced {
        if !self.runs.contains_key(id.0) {
            Reduced { step: None, ack_now: false }
        } else {
            match event {
                FanV::Ended => Reduced { step: Some(Step::AgentEnded { id }), ack_now: false },
                FanV::Output(OutputV::Finish) => if self.output.contains(id.0) {
                    Reduced { step: Some(Step::TurnFinished { id }), ack_now: false }
                } else {
                    Reduced { step: Some(Step::Updated { id }), ack_now: true }
                },
                _ => Reduced { step: Some(Step::Updated { id }), ack_now: false },
            }
        }
    }
}

/// Holds the transcripts of agent runs and says which run is typed to and which are shown.
pub struct ViewModel {
    runs: HashMap<u64, Run>,
    focus: Option<AgentId>,
    inputs: HashSet<u64>,
    output: HashSet<u64>,
    next_id: u64,
}

impl View for ViewModel {
    type V = ViewModelV;

    closed spec fn view(&self) -> ViewModelV {
        ViewModelV {
            runs: self.runs@.map_values(|run: Run| run@),
            focus: self.focus,
            inputs: self.inputs@,
            output: self.output@,
            next_id: self.next_id,
        }
    }
}

impl ViewModel {
    /// A view model without runs.
    pub fn new() -> (r: Self)
        ensures
            r@ == ViewModelV::empty(),
            r@.wf(),
    {
        let r = ViewModel {
            runs: HashMap::new(),
            focus: None,
            inputs: HashSet::new(),
            output: HashSet::new(),
            next_id: 0,
        };
        assert(r@.runs =~= Map::empty());
        r
    }

    /// Begins a run. It is typed to and shown.
    pub fn start(&mut self) -> (id: AgentId)
        requires
            old(self)@.next_id < u64::MAX,
        ensures
            id == AgentId(old(self)@.next_id),
            final(self)@ == old(self)@.started(),
            old(self)@.wf() ==> final(self)@.wf(),
    {
        let ghost before = self@;
        let n: u64 = self.next_id;
        self.next_id = n + 1;
        let run = Run { transcript: Transcript::new(), pending_ack: false, ended: false };
        let ghost shown = run@;
        self.runs.insert(n, run);
        self.inputs.insert(n);
        self.output.insert(n);
        self.focus = Some(AgentId(n));
        proof {
            assert(shown == RunShownV::fresh());
            assert(self@.runs =~= before.runs.insert(n, shown));
            assert(self@ =~= before.started());
            if before.wf() {
                assert forall|id: u64| #[trigger] self@.inputs.contains(id) implies self@.runs.contains_key(
                    id,
                ) && !self@.runs[id].ended by {
                    if id != n {
                        assert(before.inputs.contains(id));
                    }
                }
            }
        }
        AgentId(n)
    }

    /// Notes that a run could not be put together: its number is spent all the same.
    pub fn not_started(&mut self)
        requires
            old(self)@.next_id < u64::MAX,
        ensures
            final(self)@ == old(self)@.numbered(),
            old(self)@.wf() ==> final(self)@.wf(),
    {
        self.next_id = self.next_id + 1;
    }

    /// Attaches a run: it is shown, and typed to in the place of another where asked for.
    pub fn attach(&mut self, id: AgentId, input: bool)
        ensures
            final(self)@ == old(self)@.attached(id, input),
    {
        self.output.insert(id.0);
        if input {
            self.focus = Some(id);
        }
        assert(self@ =~= old(self)@.attached(id, input));
    }

    /// Detaches a run: it is not typed to, and not shown where asked for.
    pub fn detach(&mut self, id: AgentId, output: bool)
        ensures
            final(self)@ == old(self)@.detached(id, output),
    {
        self.unfocus(id);
        if output {
            self.output.remove(&id.0);
        }
        assert(self@ =~= old(self)@.detached(id, output));
    }

    /// Takes the focus from an agent that has it.
    fn unfocus(&mut self, id: AgentId)
        ensures
            final(self)@ == old(self)@.detached(id, false),
            final(self).runs == old(self).runs,
    {
        match self.focus {
            Some(focus) => {
                if focus.0 == id.0 {
                    self.focus = None;
                }
            },
            None => {},
        }
        assert(self@ =~= old(self)@.detached(id, false));
    }

    /// Drops a run. Returns whether it was held.
    pub fn stop(&mut self, id: AgentId) -> (held: bool)
        ensures
            held == old(self)@.runs.contains_key(id.0),
            final(self)@ == old(self)@.stopped(id),
            old(self)@.wf() ==> final(self)@.wf(),
    {
        let ghost before = self@;
        let held = self.runs.remove(&id.0).is_some();
        self.inputs.remove(&id.0);
        self.output.remove(&id.0);
        self.unfocus(id);
        assert(self@.runs =~= before.runs.remove(id.0));
        assert(self@ =~= before.stopped(id));
        held
    }

    /// The transcript of a run, as long as it is held.
    pub fn transcript(&self, id: AgentId) -> (r: Option<&Transcript>)
        ensures
            match r {
                Some(t) => self@.runs.contains_key(id.0) && self@.runs[id.0].transcript == t@,
                None => !self@.runs.contains_key(id.0),
            },
    {
        match self.runs.get(&id.0) {
            Some(run) => Some(&run.transcript),
            None => None,
        }
    }

    /// The runs that are held, each of them once.
    pub fn ids(&self) -> (r: Vec<AgentId>)
        ensures
            forall|id: AgentId| r@.contains(id) <==> self@.runs.contains_key(id.0),
            r@.no_duplicates(),
    {
        let mut out: Vec<AgentId> = Vec::new();
        for key in it: self.runs.keys()
            invariant
                it.seq().unref().to_set() == self.runs@.dom(),
                it.seq().no_duplicates(),
                out@.len() == it.index(),
                forall|j: int|
                    0 <= j < it.index() ==> (#[trigger] out@[j]).0 == *it.seq()[j],
        {
            out.push(AgentId(*key));
        }
        proof {
            let keys = self.runs.keys().remaining().unref();
            assert forall|i: int, j: int| 0 <= i < j < out@.len() implies out@[i] != out@[j] by {
                assert(self.runs.keys().remaining()[i] != self.runs.keys().remaining()[j]);
            }
            assert forall|id: AgentId| out@.contains(id) <==> self@.runs.contains_key(id.0) by {
                if out@.contains(id) {
                    let i = out@.index_of(id);
                    assert(out@[i].0 == keys[i]);
                    assert(keys.contains(id.0));
                    assert(keys.to_set().contains(id.0));
                }
                if self.runs@.contains_key(id.0) {
                    assert(keys.to_set().contains(id.0));
                    let i = keys.index_of(id.0);
                    assert(out@[i].0 == keys[i]);
                    assert(out@[i] == id);
                }
            }
        }
        out
    }

    /// The run that is typed to.
    pub fn focus(&self) -> (r: Option<AgentId>)
        ensures
            r == self@.focus,
    {
        self.focus
    }

    /// Whether a run is shown.
    pub fn is_output_attached(&self, id: AgentId) -> (r: bool)
        ensures
            r == self@.output.contains(id.0),
    {
        self.output.contains(&id.0)
    }

    /// Whether a run is going on.
    pub fn is_running(&self, id: AgentId) -> (r: bool)
        ensures
            r == (self@.runs.contains_key(id.0) && !self@.runs[id.0].ended),
    {
        match self.runs.get(&id.0) {
            Some(run) => !run.ended,
            None => false,
        }
    }

    /// The run that takes a typed message.
    pub fn route(&self) -> (r: Result<AgentId, RouteError>)
        ensures
            r == (match self@.focus {
                Some(id) if self@.inputs.contains(id.0) => Ok::<AgentId, RouteError>(id),
                _ => Err(RouteError::NoFocus),
            }),
            r == self@.routed(),
    {
        match self.focus {
            Some(id) => if self.inputs.contains(&id.0) {
                Ok(id)
            } else {
                Err(RouteError::NoFocus)
            },
            None => Err(RouteError::NoFocus),
        }
    }

    /// Reduces what came from a run.
    pub fn step(&mut self, id: AgentId, event: FanEvent) -> (r: Reduced)
        ensures
            final(self)@ == old(self)@.after(id, event@),
            r == old(self)@.reduced(id, event@),
            old(self)@.wf() ==> final(self)@.wf(),
    {
        let ghost before = self@;
        let ghost came = event@;
        match self.runs.remove(&id.0) {
            None => {
                assert(self@.runs =~= before.runs);
                Reduced { step: None, ack_now: false }
            },
            Some(held) => {
                let ghost old_run = held@;
                assert(old_run == before.runs[id.0]);
                let mut run = held;
                let shown = self.output.contains(&id.0);
                let r = match event {
                    FanEvent::Ended => {
                        run.ended = true;
                        self.inputs.remove(&id.0);
                        self.unfocus(id);
                        Reduced { step: Some(Step::AgentEnded { id }), ack_now: false }
                    },
                    FanEvent::Output(OutputEvent::Append(block)) => {
                        run.transcript.append(block);
                        Reduced { step: Some(Step::Updated { id }), ack_now: false }
                    },
                    FanEvent::Output(OutputEvent::ToolEnd { id: call, result }) => {
                        run.transcript.tool_end(call.as_str(), result);
                        Reduced { step: Some(Step::Updated { id }), ack_now: false }
                    },
                    FanEvent::Output(OutputEvent::Finish) => {
                        run.transcript.finish_turn();
                        if shown {
                            run.pending_ack = true;
                            Reduced { step: Some(Step::TurnFinished { id }), ack_now: false }
                        } else {
                            Reduced { step: Some(Step::Updated { id }), ack_now: true }
                        }
                    },
                };
                let ghost new_run = run@;
                self.runs.insert(id.0, run);
                proof {
                    assert(self@.runs =~= before.runs.insert(id.0, new_run));
                    assert(self@ =~= before.after(id, came));
                    if before.wf() {
                        assert forall|k: u64| #[trigger] self@.inputs.contains(k) implies self@.runs.contains_key(
                            k,
                        ) && !self@.runs[k].ended by {
                            assert(before.inputs.contains(k));
                        }
                    }
                }
                r
            },
        }
    }

    /// Acknowledges a finished turn. Returns whether one was waiting.
    pub fn ack(&mut self, id: AgentId) -> (waiting: bool)
        ensures
            waiting == (old(self)@.runs.contains_key(id.0) && old(self)@.runs[id.0].pending_ack),
            final(self)@ == (if old(self)@.runs.contains_key(id.0) {
                old(self)@.with_run(
                    id,
                    RunShownV {
                        transcript: old(self)@.runs[id.0].transcript,
                        pending_ack: false,
                        ended: old(self)@.runs[id.0].ended,
                    },
                )
            } else {
                old(self)@
            }),
            final(self)@ == old(self)@.acked(id),
            old(self)@.wf() ==> final(self)@.wf(),
    {
        let ghost before = self@;
        match self.runs.remove(&id.0) {
            None => {
                assert(self@.runs =~= before.runs);
                false
            },
            Some(held) => {
                let ghost old_run = held@;
                let mut run = held;
                let waiting = run.pending_ack;
                run.pending_ack = false;
                let ghost new_run = run@;
                self.runs.insert(id.0, run);
                assert(self@.runs =~= before.runs.insert(id.0, new_run));
                waiting
            },
        }
    }
}

/// At most one run is typed to: starting or attaching another one displaces it.
pub proof fn law_single_focus(vm: ViewModelV, id: AgentId)
    ensures
        vm.started().focus == Some(AgentId(vm.next_id)),
        vm.attached(id, true).focus == Some(id),
        vm.attached(id, false).focus == vm.focus,
{
}

/// Detaching never touches a transcript: what was reduced is there when the run is shown
/// again.
pub proof fn law_detach_keeps_transcripts(vm: ViewModelV, id: AgentId, output: bool)
    ensures
        vm.detached(id, output).runs == vm.runs,
        vm.detached(id, output).attached(id, false).runs == vm.runs,
        vm.detached(id, output).attached(id, false).output.contains(id.0),
        vm.detached(id, output).focus != Some(id),
{
}

/// Runs are reduced apart: an event of one changes no other.
pub proof fn law_runs_are_independent(vm: ViewModelV, id: AgentId, event: FanV, other: u64)
    requires
        other != id.0,
    ensures
        vm.after(id, event).runs.contains_key(other) == vm.runs.contains_key(other),
        vm.runs.contains_key(other) ==> vm.after(id, event).runs[other] == vm.runs[other],
        vm.after(id, event).inputs.contains(other) == vm.inputs.contains(other),
        vm.after(id, event).output == vm.output,
{
}

/// A run that is over, or that was dropped, is not typed to. Its transcript is kept until it
/// is dropped.
pub proof fn law_ended_runs_are_not_typed_to(vm: ViewModelV, id: AgentId)
    requires
        vm.runs.contains_key(id.0),
    ensures
        vm.after(id, FanV::Ended).focus != Some(id),
        !vm.after(id, FanV::Ended).inputs.contains(id.0),
        vm.after(id, FanV::Ended).runs[id.0].transcript == vm.runs[id.0].transcript,
        vm.stopped(id).focus != Some(id),
        !vm.stopped(id).runs.contains_key(id.0),
        !vm.stopped(id).output.contains(id.0),
{
}

/// What a run puts out goes into its own transcript: a block is appended, a result ends its call,
/// and the end of a turn finishes it. The run goes on.
pub proof fn law_output_reaches_its_transcript(
    vm: ViewModelV,
    id: AgentId,
    block: BlockV,
    call: Seq<char>,
    result: ToolResultV,
)
    requires
        vm.runs.contains_key(id.0),
    ensures
        ({
            let before = vm.runs[id.0];
            let after = vm.after(id, FanV::Output(OutputV::Append(block))).runs[id.0];
            &&& after.transcript == before.transcript.appended(block)
            &&& after.pending_ack == before.pending_ack
            &&& after.ended == before.ended
        }),
        ({
            let before = vm.runs[id.0];
            let event = FanV::Output(OutputV::ToolEnd { id: call, result });
            let after = vm.after(id, event).runs[id.0];
            &&& after.transcript == before.transcript.tool_ended(call, result)
            &&& after.pending_ack == before.pending_ack
            &&& after.ended == before.ended
        }),
        ({
            let before = vm.runs[id.0];
            let after = vm.after(id, FanV::Output(OutputV::Finish)).runs[id.0];
            &&& after.transcript == before.transcript.turn_finished()
            &&& after.ended == before.ended
        }),
        vm.after(id, FanV::Ended).runs[id.0].ended,
        vm.after(id, FanV::Ended).runs[id.0].pending_ack == vm.runs[id.0].pending_ack,
{
}

/// Output touches neither what is typed to nor what is shown, and numbers nothing; the end of a
/// run takes the focus from that run only.
pub proof fn law_output_moves_no_focus(vm: ViewModelV, id: AgentId, event: FanV)
    ensures
        vm.after(id, event).next_id == vm.next_id,
        vm.after(id, event).output == vm.output,
        event is Output ==> vm.after(id, event).focus == vm.focus && vm.after(id, event).inputs
            == vm.inputs,
        vm.focus != Some(id) ==> vm.after(id, event).focus == vm.focus,
        !vm.runs.contains_key(id.0) ==> vm.after(id, event) == vm,
{
}

/// Every event of a run gives a step that names the run. The end of a turn waits for whoever is
/// shown the run, and is confirmed at once where nobody is; the end of the run is told.
pub proof fn law_steps_name_their_run(vm: ViewModelV, id: AgentId, event: FanV)
    requires
        vm.runs.contains_key(id.0),
    ensures
        vm.reduced(id, event).step matches Some(step) && step_run(step) == id,
        vm.reduced(id, event).step == Some(Step::AgentEnded { id }) <==> event is Ended,
        vm.reduced(id, event).step == Some(Step::TurnFinished { id }) <==> event == FanV::Output(
            OutputV::Finish,
        ) && vm.output.contains(id.0),
        vm.reduced(id, event).ack_now <==> event == FanV::Output(OutputV::Finish)
            && !vm.output.contains(id.0),
        vm.output.contains(id.0) ==> vm.after(id, FanV::Output(OutputV::Finish)).runs[id.0].pending_ack,
        !vm.output.contains(id.0) ==> vm.after(
            id,
            FanV::Output(OutputV::Finish),
        ).runs[id.0].pending_ack == vm.runs[id.0].pending_ack,
{
}

/// An event of a run that is not there is passed over.
pub proof fn law_unknown_runs_take_no_step(vm: ViewModelV, id: AgentId, event: FanV)
    requires
        !vm.runs.contains_key(id.0),
    ensures
        vm.reduced(id, event).step is None,
        !vm.reduced(id, event).ack_now,
{
}

/// A run that starts has said nothing and waits for nothing; it takes input and is shown. Every
/// other run stays as it was, and the number is given once.
pub proof fn law_runs_start_empty(vm: ViewModelV, other: u64)
    requires
        vm.next_id < u64::MAX,
    ensures
        ({
            let run = vm.started().runs[vm.next_id];
            run.transcript.turns.len() == 0 && !run.pending_ack && !run.ended
        }),
        vm.started().runs.contains_key(vm.next_id),
        vm.started().inputs.contains(vm.next_id),
        vm.started().output.contains(vm.next_id),
        vm.started().next_id == vm.next_id + 1,
        vm.numbered().next_id == vm.next_id + 1,
        vm.numbered().runs == vm.runs,
        vm.numbered().focus == vm.focus,
        vm.numbered().inputs == vm.inputs,
        vm.numbered().output == vm.output,
        other != vm.next_id ==> {
            &&& vm.started().runs.contains_key(other) == vm.runs.contains_key(other)
            &&& vm.runs.contains_key(other) ==> vm.started().runs[other] == vm.runs[other]
            &&& vm.started().inputs.contains(other) == vm.inputs.contains(other)
            &&& vm.started().output.contains(other) == vm.output.contains(other)
        },
{
}

/// To attach, to detach and to drop a run touch that run only.
pub proof fn law_other_runs_stay(vm: ViewModelV, id: AgentId, flag: bool, other: u64)
    requires
        other != id.0,
    ensures
        vm.attached(id, flag).runs == vm.runs,
        vm.attached(id, flag).inputs == vm.inputs,
        vm.attached(id, flag).output.contains(id.0),
        vm.attached(id, flag).output.contains(other) == vm.output.contains(other),
        vm.attached(id, flag).next_id == vm.next_id,
        vm.detached(id, flag).inputs == vm.inputs,
        vm.detached(id, flag).output.contains(other) == vm.output.contains(other),
        vm.detached(id, flag).output.contains(id.0) <==> vm.output.contains(id.0) && !flag,
        vm.detached(id, flag).next_id == vm.next_id,
        vm.focus != Some(id) ==> vm.detached(id, flag).focus == vm.focus,
        vm.focus != Some(id) ==> vm.stopped(id).focus == vm.focus,
        vm.stopped(id).runs.contains_key(other) == vm.runs.contains_key(other),
        vm.runs.contains_key(other) ==> vm.stopped(id).runs[other] == vm.runs[other],
        vm.stopped(id).inputs.contains(other) == vm.inputs.contains(other),
        vm.stopped(id).output.contains(other) == vm.output.contains(other),
        !vm.stopped(id).inputs.contains(id.0),
        vm.stopped(id).next_id == vm.next_id,
        vm.without_input(id).runs == vm.runs,
        vm.without_input(id).output == vm.output,
        vm.without_input(id).inputs.contains(other) == vm.inputs.contains(other),
        !vm.without_input(id).inputs.contains(id.0),
        vm.without_input(id).focus != Some(id),
{
}

impl ViewModelV {
    /// The run that takes a typed message.
    pub open spec fn routed(self) -> Result<AgentId, RouteError> {
        match self.focus {
            Some(id) if self.inputs.contains(id.0) => Ok(id),
            _ => Err(RouteError::NoFocus),
        }
    }

    /// A finished turn is acknowledged.
    pub open spec fn acked(self, id: AgentId) -> ViewModelV {
        if self.runs.contains_key(id.0) {
            let run = self.runs[id.0];
            self.with_run(
                id,
                RunShownV { transcript: run.transcript, pending_ack: false, ended: run.ended },
            )
        } else {
            self
        }
    }
}

/// What is typed reaches the run that is typed to, as long as that takes input: one that was just
/// started does, one that is over or was dropped does not, and without a focus nothing does.
pub proof fn law_typed_words_reach_the_focus(vm: ViewModelV, id: AgentId)
    requires
        vm.wf(),
    ensures
        vm.routed() matches Ok(run) ==> vm.focus == Some(run) && vm.runs.contains_key(run.0)
            && !vm.runs[run.0].ended,
        vm.started().routed() == Ok::<AgentId, RouteError>(AgentId(vm.next_id)),
        vm.inputs.contains(id.0) ==> vm.attached(id, true).routed() == Ok::<AgentId, RouteError>(
            id,
        ),
        vm.focus is None ==> vm.routed() == Err::<AgentId, RouteError>(RouteError::NoFocus),
        vm.focus == Some(id) ==> vm.stopped(id).routed() is Err && vm.detached(id, true).routed()
            is Err,
        vm.focus == Some(id) && vm.runs.contains_key(id.0) ==> vm.after(id, FanV::Ended).routed()
            is Err,
{
}

/// A turn is acknowledged once: nothing waits behind it, and nothing else of any run is touched.
pub proof fn law_turns_are_acknowledged_once(vm: ViewModelV, id: AgentId, other: u64)
    ensures
        vm.acked(id).acked(id) == vm.acked(id),
        vm.runs.contains_key(id.0) ==> {
            &&& vm.acked(id).runs.contains_key(id.0)
            &&& !vm.acked(id).runs[id.0].pending_ack
            &&& vm.acked(id).runs[id.0].transcript == vm.runs[id.0].transcript
            &&& vm.acked(id).runs[id.0].ended == vm.runs[id.0].ended
        },
        !vm.runs.contains_key(id.0) ==> vm.acked(id) == vm,
        other != id.0 ==> vm.acked(id).runs.contains_key(other) == vm.runs.contains_key(other),
        other != id.0 && vm.runs.contains_key(other) ==> vm.acked(id).runs[other] == vm.runs[other],
        vm.acked(id).focus == vm.focus,
        vm.acked(id).inputs == vm.inputs,
        vm.acked(id).output == vm.output,
        vm.acked(id).next_id == vm.next_id,
{
    assert(vm.acked(id).acked(id).runs =~= vm.acked(id).runs);
}

} // verus!
