//! The transcript of an agent: its output, grouped by turn, as a frontend shows it.
use vstd::prelude::*;

use crate::providers::{law_merge_keeps_text_and_calls, merge_blocks};
use crate::text::{concat2, opt_view, same, views};
use crate::types::{
    blocks_calls, blocks_text, BlockV, ContentBlock, TextContent, ToolCall, ToolCallV,
    ToolResult, ToolResultV,
};

verus! {

/// Identifies a turn within a transcript.
#[derive(Debug, Clone, Copy, PartialEq, Eq, Hash)]
pub struct TurnId(pub u64);

/// Whether a turn is still going on.
#[derive(Debug, Clone, Copy, PartialEq, Eq, Structural)]
pub enum TurnStatus {
    /// Output is streaming, or tools are running.
    Streaming,
    /// The turn is over.
    Finished,
}

/// How a tool call is doing.
#[derive(Debug, Clone, Copy, PartialEq, Eq, Structural)]
pub enum ToolStatus {
    /// No result yet.
    Running,
    /// It succeeded.
    Done,
    /// It failed.
    Error,
}

/// A tool call as shown.
#[derive(Debug, PartialEq)]
pub struct ToolCallView {
    pub call: ToolCall,
    pub status: ToolStatus,
    pub result: Option<ToolResult>,
}

/// What a [`ToolCallView`] is.
#[verifier::ext_equal]
pub struct ToolShownV {
    pub call: ToolCallV,
    pub status: ToolStatus,
    pub result: Option<ToolResultV>,
}

impl View for ToolCallView {
    type V = ToolShownV;

    open spec fn view(&self) -> ToolShownV {
        ToolShownV { call: self.call@, status: self.status, result: opt_view(self.result) }
    }
}

/// One block of a turn as shown.
#[derive(Debug, PartialEq)]
pub enum Block {
    Text(TextContent),
    Reasoning(TextContent),
    ToolCall(ToolCallView),
}

/// What a [`Block`] is.
#[verifier::ext_equal]
pub enum ShownV {
    Text(Seq<char>),
    Reasoning(Seq<char>),
    ToolCall(ToolShownV),
}

impl View for Block {
    type V = ShownV;

    open spec fn view(&self) -> ShownV {
        match self {
            Block::Text(t) => ShownV::Text(t@),
            Block::Reasoning(t) => ShownV::Reasoning(t@),
            Block::ToolCall(c) => ShownV::ToolCall(c@),
        }
    }
}

/// One turn: what the agent put out between two prompts.
#[derive(Debug, PartialEq)]
pub struct Turn {
    pub id: TurnId,
    pub status: TurnStatus,
    pub blocks: Vec<Block>,
}

/// What a [`Turn`] is.
#[verifier::ext_equal]
pub struct TurnV {
    pub id: u64,
    pub status: TurnStatus,
    pub blocks: Seq<ShownV>,
}

impl View for Turn {
    type V = TurnV;

    open spec fn view(&self) -> TurnV {
        TurnV { id: self.id.0, status: self.status, blocks: views(self.blocks@) }
    }
}

impl Turn {
    /// A turn to which nothing has come yet.
    fn new(id: TurnId) -> (r: Self)
        ensures
            r@ == TurnV::fresh(id.0),
    {
        let blocks: Vec<Block> = Vec::new();
        assert(views(blocks@) =~= Seq::empty());
        Turn { id, status: TurnStatus::Streaming, blocks }
    }
}

impl TurnV {
    /// A turn that has just begun.
    pub open spec fn fresh(id: u64) -> TurnV {
        TurnV { id, status: TurnStatus::Streaming, blocks: Seq::empty() }
    }

    /// The turn with other blocks.
    pub open spec fn with_blocks(self, blocks: Seq<ShownV>) -> TurnV {
        TurnV { id: self.id, status: self.status, blocks }
    }
}

/// The blocks once a streamed block has come: text and reasoning go on where they stopped, a
/// tool call begins to run, and nothing else is shown.
pub open spec fn show(blocks: Seq<ShownV>, block: BlockV) -> Seq<ShownV> {
    match block {
        BlockV::Text(t) => if blocks.len() > 0 && blocks.last() is Text {
            blocks.drop_last().push(ShownV::Text(blocks.last()->Text_0 + t))
        } else {
            blocks.push(ShownV::Text(t))
        },
        BlockV::Reasoning(t) => if blocks.len() > 0 && blocks.last() is Reasoning {
            blocks.drop_last().push(ShownV::Reasoning(blocks.last()->Reasoning_0 + t))
        } else {
            blocks.push(ShownV::Reasoning(t))
        },
        BlockV::ToolCall(call) => blocks.push(
            ShownV::ToolCall(ToolShownV { call, status: ToolStatus::Running, result: None }),
        ),
        _ => blocks,
    }
}

/// The first tool call of that id at or behind `from`, or the number of blocks.
pub open spec fn call_place(blocks: Seq<ShownV>, id: Seq<char>, from: int) -> int
    decreases blocks.len() - from,
{
    if from < 0 || from >= blocks.len() {
        blocks.len() as int
    } else if blocks[from] is ToolCall && blocks[from]->ToolCall_0.call.id == id {
        from
    } else {
        call_place(blocks, id, from + 1)
    }
}

/// The blocks once the tool call of that id has its result. An id that is not there changes
/// nothing.
pub open spec fn resolve(blocks: Seq<ShownV>, id: Seq<char>, result: ToolResultV) -> Seq<ShownV> {
    let at = call_place(blocks, id, 0);
    if 0 <= at < blocks.len() {
        blocks.update(
            at,
            ShownV::ToolCall(
                ToolShownV {
                    call: blocks[at]->ToolCall_0.call,
                    status: if result.is_error {
                        ToolStatus::Error
                    } else {
                        ToolStatus::Done
                    },
                    result: Some(result),
                },
            ),
        )
    } else {
        blocks
    }
}

/// A block of a turn that is over: a tool that was still running is done.
pub open spec fn closed_block(block: ShownV) -> ShownV {
    match block {
        ShownV::ToolCall(c) if c.status == ToolStatus::Running => ShownV::ToolCall(
            ToolShownV { call: c.call, status: ToolStatus::Done, result: c.result },
        ),
        other => other,
    }
}

/// The blocks of a turn that is over.
pub open spec fn closed_blocks(blocks: Seq<ShownV>) -> Seq<ShownV> {
    Seq::new(blocks.len(), |i: int| closed_block(blocks[i]))
}

/// What a [`Transcript`] is.
#[verifier::ext_equal]
pub struct TranscriptV {
    pub turns: Seq<TurnV>,
    /// The number of the next turn.
    pub next_id: u64,
}

/// The number behind a number. Behind the last one the count starts again.
pub open spec fn next_number(n: u64) -> u64 {
    if n == u64::MAX {
        0
    } else {
        (n + 1) as u64
    }
}

impl TranscriptV {
    /// No turns yet.
    pub open spec fn empty() -> TranscriptV {
        TranscriptV { turns: Seq::empty(), next_id: 0 }
    }

    /// The transcript once a turn is going on: a new one begins where the last one is over.
    pub open spec fn opened(self) -> TranscriptV {
        if self.turns.len() > 0 && self.turns.last().status == TurnStatus::Streaming {
            self
        } else {
            TranscriptV {
                turns: self.turns.push(TurnV::fresh(self.next_id)),
                next_id: next_number(self.next_id),
            }
        }
    }

    /// The transcript with other blocks in its last turn.
    pub open spec fn with_last_blocks(self, blocks: Seq<ShownV>) -> TranscriptV {
        TranscriptV {
            turns: self.turns.update(self.turns.len() - 1, self.turns.last().with_blocks(blocks)),
            next_id: self.next_id,
        }
    }

    /// The transcript once a streamed block has come.
    pub open spec fn appended(self, block: BlockV) -> TranscriptV {
        self.opened().with_last_blocks(show(self.opened().turns.last().blocks, block))
    }

    /// The transcript once a tool call has its result.
    pub open spec fn tool_ended(self, id: Seq<char>, result: ToolResultV) -> TranscriptV {
        self.opened().with_last_blocks(resolve(self.opened().turns.last().blocks, id, result))
    }

    /// The transcript once its last turn is over.
    pub open spec fn turn_finished(self) -> TranscriptV {
        if self.turns.len() == 0 {
            self
        } else {
            let last = self.turns.last();
            TranscriptV {
                turns: self.turns.update(
                    self.turns.len() - 1,
                    TurnV {
                        id: last.id,
                        status: TurnStatus::Finished,
                        blocks: closed_blocks(last.blocks),
                    },
                ),
                next_id: self.next_id,
            }
        }
    }

    /// Turns are numbered in order and before the next one, and only the last one may be going
    /// on. To drop turns breaks nothing of it.
    pub open spec fn wf(self) -> bool {
        &&& forall|i: int| 0 <= i < self.turns.len() ==> (#[trigger] self.turns[i]).id < self.next_id
        &&& forall|i: int, j: int|
            0 <= i < j < self.turns.len() ==> (#[trigger] self.turns[i]).id < (
            #[trigger] self.turns[j]).id
        &&& forall|i: int|
            0 <= i < self.turns.len() - 1 ==> (#[trigger] self.turns[i]).status
                == TurnStatus::Finished
    }

    /// No turn was dropped: the number of a turn is its place.
    pub open spec fn counted(self) -> bool {
        &&& self.next_id == self.turns.len()
        &&& forall|i: int| 0 <= i < self.turns.len() ==> (#[trigger] self.turns[i]).id == i
    }
}

/// What events leave alone: turns that differ in nothing but the blocks and the status of the
/// last one are numbered as before.
proof fn lemma_last_only(before: TranscriptV, after: TranscriptV)
    requires
        before.wf(),
        after.next_id == before.next_id,
        after.turns.len() == before.turns.len(),
        forall|i: int| 0 <= i < before.turns.len() - 1 ==> after.turns[i] == #[trigger] before.turns[i],
        before.turns.len() > 0 ==> after.turns.last().id == before.turns.last().id,
    ensures
        after.wf(),
{
    assert forall|i: int| 0 <= i < after.turns.len() implies (#[trigger] after.turns[i]).id
        == before.turns[i].id by {
        if i < before.turns.len() - 1 {
            assert(after.turns[i] == before.turns[i]);
        }
    }
    assert forall|i: int, j: int| 0 <= i < j < after.turns.len() implies (
    #[trigger] after.turns[i]).id < (#[trigger] after.turns[j]).id by {
        assert(before.turns[i].id < before.turns[j].id);
    }
    assert forall|i: int| 0 <= i < after.turns.len() - 1 implies (#[trigger] after.turns[i]).status
        == TurnStatus::Finished by {
        assert(after.turns[i] == before.turns[i]);
    }
}

/// Every event keeps the turns numbered, so that no number comes twice, and keeps all but the
/// last one over.
pub proof fn law_transcript_stays_wf(
    t: TranscriptV,
    block: BlockV,
    id: Seq<char>,
    result: ToolResultV,
)
    requires
        t.wf(),
        t.next_id < u64::MAX,
    ensures
        t.appended(block).wf(),
        t.tool_ended(id, result).wf(),
        t.turn_finished().wf(),
{
    let open = t.opened();
    if open != t {
        assert forall|i: int| 0 <= i < open.turns.len() - 1 implies (#[trigger] open.turns[i])
            == t.turns[i] by {}
        assert forall|i: int| 0 <= i < open.turns.len() - 1 implies (#[trigger] open.turns[i]).status
            == TurnStatus::Finished by {
            if i == t.turns.len() - 1 {
                assert(t.turns[i] == t.turns.last());
            }
        }
        assert(open.wf());
    }
    lemma_last_only(open, t.appended(block));
    lemma_last_only(open, t.tool_ended(id, result));
    lemma_last_only(t, t.turn_finished());
}

/// As long as no turn is dropped, the number of a turn is its place: it is so at the start, and
/// every event keeps it so.
pub proof fn law_numbers_are_places(
    t: TranscriptV,
    block: BlockV,
    id: Seq<char>,
    result: ToolResultV,
)
    requires
        t.counted(),
        t.next_id < u64::MAX,
    ensures
        TranscriptV::empty().counted(),
        t.appended(block).counted(),
        t.tool_ended(id, result).counted(),
        t.turn_finished().counted(),
{
    let open = t.opened();
    if open != t {
        assert forall|i: int| 0 <= i < open.turns.len() implies (#[trigger] open.turns[i]).id
            == i by {
            if i < t.turns.len() {
                assert(open.turns[i] == t.turns[i]);
            }
        }
    }
    assert(open.counted());
    let last = open.turns.len() - 1;
    assert(open.turns[last].id == last);
    assert forall|i: int, after: TranscriptV|
        #![trigger after.turns[i]]
        0 <= i < open.turns.len() && (after == t.appended(block) || after == t.tool_ended(
            id,
            result,
        )) implies after.turns[i].id == i by {
        if i < last {
            assert(after.turns[i] == open.turns[i]);
        }
    }
    let over = t.turn_finished();
    assert forall|i: int| 0 <= i < over.turns.len() implies (#[trigger] over.turns[i]).id == i by {
        assert(t.turns[i].id == i);
    }
}

/// A number is never given twice, even where turns have been dropped: a turn that begins is
/// numbered behind all that are there.
pub proof fn law_numbers_are_fresh(t: TranscriptV, i: int)
    requires
        t.wf(),
        t.opened() != t,
        0 <= i < t.turns.len(),
    ensures
        t.opened().turns.last().id == t.next_id,
        t.turns[i].id < t.opened().turns.last().id,
{
}

/// An event touches the last turn only, or begins a new one: what is over stays as it is.
pub proof fn law_finished_turns_stay(
    t: TranscriptV,
    block: BlockV,
    id: Seq<char>,
    result: ToolResultV,
    i: int,
)
    requires
        t.wf(),
        0 <= i < t.turns.len(),
        t.turns[i].status == TurnStatus::Finished,
    ensures
        t.appended(block).turns[i] == t.turns[i],
        t.tool_ended(id, result).turns[i] == t.turns[i],
{
}

/// A turn that is over shows no running tool.
pub proof fn law_no_tool_hangs(t: TranscriptV, i: int)
    requires
        t.turns.len() > 0,
        0 <= i < t.turn_finished().turns.last().blocks.len(),
    ensures
        t.turn_finished().turns.last().status == TurnStatus::Finished,
        t.turn_finished().turns.last().blocks[i] matches ShownV::ToolCall(c) ==> c.status
            != ToolStatus::Running,
{
}

/// The text that is shown, one block after the other.
pub open spec fn shown_text(blocks: Seq<ShownV>) -> Seq<char>
    decreases blocks.len(),
{
    if blocks.len() == 0 {
        Seq::empty()
    } else {
        shown_text(blocks.drop_last()) + match blocks.last() {
            ShownV::Text(t) => t,
            _ => Seq::empty(),
        }
    }
}

/// What is streamed as text is shown, behind the text that is shown already; nothing else
/// changes it.
pub proof fn law_streamed_text_is_shown(blocks: Seq<ShownV>, block: BlockV)
    ensures
        shown_text(show(blocks, block)) == shown_text(blocks) + (match block {
            BlockV::Text(t) => t,
            _ => Seq::empty(),
        }),
{
    let after = show(blocks, block);
    let more = match block {
        BlockV::Text(t) => t,
        _ => Seq::empty(),
    };
    if after.len() == blocks.len() {
        if blocks.len() > 0 {
            assert(after.drop_last() =~= blocks.drop_last());
        }
    } else {
        assert(after.drop_last() =~= blocks);
    }
    assert(shown_text(after) =~= shown_text(blocks) + more);
}

/// The tool calls that are shown, in their order.
pub open spec fn shown_calls(blocks: Seq<ShownV>) -> Seq<ToolCallV>
    decreases blocks.len(),
{
    if blocks.len() == 0 {
        Seq::empty()
    } else {
        match blocks.last() {
            ShownV::ToolCall(c) => shown_calls(blocks.drop_last()).push(c.call),
            _ => shown_calls(blocks.drop_last()),
        }
    }
}

/// The blocks once streamed blocks have come, one after the other.
pub open spec fn show_all(blocks: Seq<ShownV>, more: Seq<BlockV>) -> Seq<ShownV>
    decreases more.len(),
{
    if more.len() == 0 {
        blocks
    } else {
        show(show_all(blocks, more.drop_last()), more.last())
    }
}

/// What is shown of streamed blocks is what they say.
proof fn lemma_show_all(more: Seq<BlockV>)
    ensures
        shown_text(show_all(Seq::empty(), more)) == blocks_text(more),
        shown_calls(show_all(Seq::empty(), more)) == blocks_calls(more),
    decreases more.len(),
{
    if more.len() > 0 {
        let before = show_all(Seq::empty(), more.drop_last());
        let after = show(before, more.last());
        lemma_show_all(more.drop_last());
        law_streamed_text_is_shown(before, more.last());
        if after.len() == before.len() {
            if before.len() > 0 {
                assert(after.drop_last() =~= before.drop_last());
            }
        } else {
            assert(after.drop_last() =~= before);
        }
        assert(blocks_text(more) =~= shown_text(after));
        assert(blocks_calls(more) =~= shown_calls(after));
    }
}

/// A turn shows what is kept of it: the text and the calls of its streamed blocks are those of
/// the response that they merge into.
pub proof fn law_shown_is_what_merging_keeps(more: Seq<BlockV>)
    ensures
        shown_text(show_all(Seq::empty(), more)) == blocks_text(merge_blocks(Seq::empty(), more)),
        shown_calls(show_all(Seq::empty(), more)) == blocks_calls(
            merge_blocks(Seq::empty(), more),
        ),
{
    lemma_show_all(more);
    law_merge_keeps_text_and_calls(Seq::empty(), more);
    assert(blocks_text(Seq::<BlockV>::empty()) + blocks_text(more) =~= blocks_text(more));
    assert(blocks_calls(Seq::<BlockV>::empty()) + blocks_calls(more) =~= blocks_calls(more));
}

/// The first tool call of that id, or the number of blocks.
fn find_call(blocks: &Vec<Block>, id: &str) -> (at: usize)
    ensures
        at == call_place(views(blocks@), id@, 0),
        at <= blocks@.len(),
        at < blocks@.len() ==> views(blocks@)[at as int] is ToolCall,
{
    let ghost all = views(blocks@);
    let mut at: usize = 0;
    while at < blocks.len()
        invariant
            at <= blocks@.len(),
            all == views(blocks@),
            call_place(all, id@, 0) == call_place(all, id@, at as int),
        decreases blocks@.len() - at,
    {
        assert(all[at as int] == blocks@[at as int]@);
        let hit = match &blocks[at] {
            Block::ToolCall(view) => same(view.call.id.as_str(), id),
            _ => false,
        };
        if hit {
            return at;
        }
        at += 1;
    }
    at
}

/// The output of an agent, grouped by turn. A turn begins with the first event that follows
/// the end of the one before it.
#[derive(Debug, PartialEq)]
pub struct Transcript {
    pub turns: Vec<Turn>,
    /// The number of the next turn.
    pub next_id: u64,
}

impl View for Transcript {
    type V = TranscriptV;

    open spec fn view(&self) -> TranscriptV {
        TranscriptV { turns: views(self.turns@), next_id: self.next_id }
    }
}

impl Default for Transcript {
    fn default() -> (r: Self)
        ensures
            r@ == TranscriptV::empty(),
    {
        Transcript::new()
    }
}

impl Transcript {
    /// A transcript without turns.
    pub fn new() -> (r: Self)
        ensures
            r@ == TranscriptV::empty(),
            r@.wf(),
    {
        let r = Transcript { turns: Vec::new(), next_id: 0 };
        assert(r@ =~= TranscriptV::empty());
        r
    }

    /// The turn that is going on.
    pub fn live(&self) -> (r: Option<&Turn>)
        ensures
            match r {
                Some(turn) => self@.turns.len() > 0 && turn@ == self@.turns.last() && turn@.status
                    == TurnStatus::Streaming,
                None => self@.turns.len() == 0 || self@.turns.last().status
                    == TurnStatus::Finished,
            },
    {
        let n: usize = self.turns.len();
        if n > 0 {
            let turn = &self.turns[n - 1];
            match turn.status {
                TurnStatus::Streaming => Some(turn),
                TurnStatus::Finished => None,
            }
        } else {
            None
        }
    }

    /// Makes sure that a turn is going on.
    fn ensure_live(&mut self)
        ensures
            final(self)@ == old(self)@.opened(),
            final(self)@.turns.len() > 0,
    {
        if self.live().is_none() {
            let ghost before = self@;
            let id: u64 = self.next_id;
            self.next_id = id.wrapping_add(1);
            self.turns.push(Turn::new(TurnId(id)));
            assert(self@.turns =~= before.turns.push(TurnV::fresh(before.next_id)));
        }
    }

    /// Takes the last turn's blocks out, to be put back.
    fn take_blocks(&mut self) -> (blocks: Vec<Block>)
        requires
            old(self)@.turns.len() > 0,
        ensures
            views(blocks@) == old(self)@.turns.last().blocks,
            final(self)@ == old(self)@.with_last_blocks(Seq::empty()),
    {
        let ghost before = self@;
        let mut blocks: Vec<Block> = Vec::new();
        assert(views(blocks@) =~= Seq::<ShownV>::empty());
        let n: usize = self.turns.len() - 1;
        assert(before.turns[n as int] == self.turns@[n as int]@);
        core::mem::swap(&mut self.turns[n].blocks, &mut blocks);
        assert(self@ =~= before.with_last_blocks(Seq::empty()));
        blocks
    }

    /// Puts the last turn's blocks back.
    fn put_blocks(&mut self, blocks: Vec<Block>)
        requires
            old(self)@.turns.len() > 0,
        ensures
            final(self)@ == old(self)@.with_last_blocks(views(blocks@)),
    {
        let ghost before = self@;
        let ghost shown = views(blocks@);
        let n: usize = self.turns.len() - 1;
        self.turns[n].blocks = blocks;
        assert(self@ =~= before.with_last_blocks(shown));
    }

    /// Takes in a streamed block: text and reasoning go on where they stopped, a tool call
    /// begins to run, other blocks are not shown.
    pub fn append(&mut self, block: ContentBlock)
        ensures
            final(self)@ == old(self)@.appended(block@),
    {
        self.ensure_live();
        let ghost ready = self@;
        let ghost shown = block@;
        let mut blocks = self.take_blocks();
        let ghost before = views(blocks@);
        match block {
            ContentBlock::Text(t) => {
                match blocks.pop() {
                    Some(Block::Text(existing)) => {
                        assert(views(blocks@) =~= before.drop_last());
                        let content = concat2(existing.content.as_str(), t.content.as_str());
                        blocks.push(Block::Text(TextContent { content }));
                    },
                    Some(other) => {
                        blocks.push(other);
                        blocks.push(Block::Text(t));
                    },
                    None => {
                        blocks.push(Block::Text(t));
                    },
                }
            },
            ContentBlock::Reasoning(t) => {
                match blocks.pop() {
                    Some(Block::Reasoning(existing)) => {
                        assert(views(blocks@) =~= before.drop_last());
                        let content = concat2(existing.content.as_str(), t.content.as_str());
                        blocks.push(Block::Reasoning(TextContent { content }));
                    },
                    Some(other) => {
                        blocks.push(other);
                        blocks.push(Block::Reasoning(t));
                    },
                    None => {
                        blocks.push(Block::Reasoning(t));
                    },
                }
            },
            ContentBlock::ToolCall(call) => {
                blocks.push(
                    Block::ToolCall(
                        ToolCallView { call, status: ToolStatus::Running, result: None },
                    ),
                );
            },
            _ => {},
        }
        assert(views(blocks@) =~= show(before, shown));
        self.put_blocks(blocks);
        assert(self@ =~= ready.with_last_blocks(show(before, shown)));
    }

    /// Takes in the result of a tool call of the turn that is going on.
    pub fn tool_end(&mut self, id: &str, result: ToolResult)
        ensures
            final(self)@ == old(self)@.tool_ended(id@, result@),
    {
        self.ensure_live();
        let ghost ready = self@;
        let ghost outcome = result@;
        let mut blocks = self.take_blocks();
        let ghost before = views(blocks@);
        let at: usize = find_call(&blocks, id);
        if at < blocks.len() {
            assert(before[at as int] == blocks@[at as int]@);
            let status = if result.is_error {
                ToolStatus::Error
            } else {
                ToolStatus::Done
            };
            match &blocks[at] {
                Block::ToolCall(view) => {
                    let call = view.call.clone();
                    blocks[at] = Block::ToolCall(
                        ToolCallView { call, status, result: Some(result) },
                    );
                },
                _ => {},
            }
        }
        assert(views(blocks@) =~= resolve(before, id@, outcome));
        self.put_blocks(blocks);
        assert(self@ =~= ready.with_last_blocks(resolve(before, id@, outcome)));
    }

    /// Ends the last turn. A tool that is still running, such as one that was denied, is done.
    pub fn finish_turn(&mut self)
        ensures
            final(self)@ == old(self)@.turn_finished(),
    {
        let ghost start = self@.turns;
        let n: usize = self.turns.len();
        if n == 0 {
            return;
        }
        let mut blocks = self.take_blocks();
        let ghost before = views(blocks@);
        let ghost emptied = self@.turns;
        let mut i: usize = 0;
        while i < blocks.len()
            invariant
                i <= blocks@.len(),
                blocks@.len() == before.len(),
                forall|j: int| 0 <= j < i ==> (#[trigger] views(blocks@)[j]) == closed_block(
                    before[j],
                ),
                forall|j: int| i <= j < before.len() ==> (#[trigger] views(blocks@)[j])
                    == before[j],
            decreases blocks@.len() - i,
        {
            let ghost now = views(blocks@);
            assert(now[i as int] == blocks@[i as int]@);
            let closed = match &blocks[i] {
                Block::ToolCall(view) => match view.status {
                    ToolStatus::Running => Some(
                        ToolCallView {
                            call: view.call.clone(),
                            status: ToolStatus::Done,
                            result: match &view.result {
                                Some(r) => Some(r.clone()),
                                None => None,
                            },
                        },
                    ),
                    _ => None,
                },
                _ => None,
            };
            match closed {
                Some(view) => {
                    blocks[i] = Block::ToolCall(view);
                },
                None => {},
            }
            proof {
                assert(views(blocks@)[i as int] == closed_block(before[i as int]));
                assert forall|j: int| 0 <= j < before.len() && j != i implies (
                #[trigger] views(blocks@)[j]) == now[j] by {}
            }
            i += 1;
        }
        assert(views(blocks@) =~= closed_blocks(before));
        self.put_blocks(blocks);
        let ghost mid = self@.turns;
        assert(start.len() == n && emptied.len() == n && mid.len() == n);
        assert(self.turns@.len() == n);
        assert(mid[n - 1] == self.turns@[n - 1]@);
        self.turns[n - 1].status = TurnStatus::Finished;
        proof {
            let done = old(self)@.turn_finished().turns;
            assert(before == start.last().blocks);
            assert(self@.turns[n - 1] == self.turns@[n - 1]@);
            assert(self@.turns[n - 1] == done[n - 1]);
            assert forall|i: int| 0 <= i < n - 1 implies self@.turns[i] == done[i] by {
                assert(self@.turns[i] == mid[i]);
                assert(mid[i] == emptied[i]);
                assert(emptied[i] == start[i]);
            }
            assert(self@.turns =~= done);
        }
    }
}

/// The reasoning that is shown, one block after the other.
pub open spec fn shown_reasoning(blocks: Seq<ShownV>) -> Seq<char>
    decreases blocks.len(),
{
    if blocks.len() == 0 {
        Seq::empty()
    } else {
        shown_reasoning(blocks.drop_last()) + match blocks.last() {
            ShownV::Reasoning(t) => t,
            _ => Seq::empty(),
        }
    }
}

/// What is streamed as reasoning is shown, behind the reasoning that is shown already; nothing
/// else changes it.
pub proof fn law_streamed_reasoning_is_shown(blocks: Seq<ShownV>, block: BlockV)
    ensures
        shown_reasoning(show(blocks, block)) == shown_reasoning(blocks) + (match block {
            BlockV::Reasoning(t) => t,
            _ => Seq::empty(),
        }),
{
    let after = show(blocks, block);
    let more = match block {
        BlockV::Reasoning(t) => t,
        _ => Seq::empty(),
    };
    if after.len() == blocks.len() {
        if blocks.len() > 0 {
            assert(after.drop_last() =~= blocks.drop_last());
        }
    } else {
        assert(after.drop_last() =~= blocks);
    }
    assert(shown_reasoning(after) =~= shown_reasoning(blocks) + more);
}

/// A call that is streamed is shown behind everything else, running and without a result. What
/// is neither said nor called is not shown, and what was shown before stays: only a text or a
/// reasoning that goes on is lengthened.
pub proof fn law_streamed_calls_begin_to_run(blocks: Seq<ShownV>, block: BlockV)
    ensures
        block matches BlockV::ToolCall(call) ==> {
            let after = show(blocks, block);
            &&& after.drop_last() == blocks
            &&& after.last() matches ShownV::ToolCall(shown)
            &&& shown.call == call
            &&& shown.status == ToolStatus::Running
            &&& shown.result is None
        },
        !(block is Text || block is Reasoning || block is ToolCall) ==> show(blocks, block)
            == blocks,
        forall|i: int|
            0 <= i < blocks.len() - 1 ==> #[trigger] show(blocks, block)[i] == blocks[i],
        show(blocks, block).len() <= blocks.len() + 1,
        block is Text && blocks.len() > 0 && blocks.last() is Text ==> show(blocks, block).len()
            == blocks.len(),
        block is Reasoning && blocks.len() > 0 && blocks.last() is Reasoning ==> show(
            blocks,
            block,
        ).len() == blocks.len(),
{
    if block is ToolCall {
        assert(show(blocks, block).drop_last() =~= blocks);
    }
}

/// A result goes to the first call of its id: the call shows it, as a failure if and only if it
/// is one, and every other block stays. A result of an unknown call changes nothing.
pub proof fn law_results_find_their_call(
    before: Seq<ShownV>,
    shown: ToolShownV,
    after: Seq<ShownV>,
    id: Seq<char>,
    result: ToolResultV,
)
    requires
        forall|i: int|
            0 <= i < before.len() ==> !((#[trigger] before[i]) matches ShownV::ToolCall(c)
                && c.call.id == id),
    ensures
        resolve(before, id, result) == before,
        shown.call.id == id ==> {
            let all = before.push(ShownV::ToolCall(shown)) + after;
            let at = before.len() as int;
            let resolved = resolve(all, id, result);
            &&& resolved.len() == all.len()
            &&& resolved[at] matches ShownV::ToolCall(now)
            &&& now.call == shown.call
            &&& now.result == Some(result)
            &&& now.status == ToolStatus::Error <==> result.is_error
            &&& now.status == ToolStatus::Done <==> !result.is_error
            &&& forall|i: int|
                0 <= i < all.len() && i != at ==> #[trigger] resolved[i] == all[i]
        },
{
    let all = before.push(ShownV::ToolCall(shown)) + after;
    let at = before.len() as int;
    lemma_no_call_before(before, id, at, 0);
    if shown.call.id == id {
        assert forall|i: int| 0 <= i < at implies !((#[trigger] all[i]) matches ShownV::ToolCall(c)
            && c.call.id == id) by {
            assert(all[i] == before[i]);
        }
        lemma_no_call_before(all, id, at, 0);
        assert(all[at] == ShownV::ToolCall(shown));
    }
}

/// Blocks that are no call of the id are passed over.
proof fn lemma_no_call_before(blocks: Seq<ShownV>, id: Seq<char>, at: int, from: int)
    requires
        0 <= from <= at <= blocks.len(),
        forall|i: int|
            from <= i < at ==> !((#[trigger] blocks[i]) matches ShownV::ToolCall(c) && c.call.id
                == id),
    ensures
        call_place(blocks, id, from) == call_place(blocks, id, at),
    decreases at - from,
{
    if from < at {
        assert(!(blocks[from] matches ShownV::ToolCall(c) && c.call.id == id));
        lemma_no_call_before(blocks, id, at, from + 1);
    }
}

/// What comes goes to the turn that is going on, or begins one under the next number.
pub proof fn law_events_go_to_the_open_turn(
    t: TranscriptV,
    block: BlockV,
    id: Seq<char>,
    result: ToolResultV,
)
    ensures
        t.turns.len() > 0 && t.turns.last().status == TurnStatus::Streaming ==> {
            &&& t.appended(block).turns.len() == t.turns.len()
            &&& t.appended(block).turns.last().blocks == show(t.turns.last().blocks, block)
            &&& t.appended(block).turns.last().id == t.turns.last().id
            &&& t.appended(block).next_id == t.next_id
            &&& t.tool_ended(id, result).turns.len() == t.turns.len()
            &&& t.tool_ended(id, result).turns.last().blocks == resolve(
                t.turns.last().blocks,
                id,
                result,
            )
            &&& t.tool_ended(id, result).turns.last().id == t.turns.last().id
        },
        t.turns.len() == 0 || t.turns.last().status == TurnStatus::Finished ==> {
            &&& t.appended(block).turns.len() == t.turns.len() + 1
            &&& t.appended(block).turns.last().blocks == show(Seq::empty(), block)
            &&& t.appended(block).turns.last().id == t.next_id
            &&& t.tool_ended(id, result).turns.len() == t.turns.len() + 1
            &&& t.tool_ended(id, result).turns.last().blocks.len() == 0
        },
        t.appended(block).turns.last().status == TurnStatus::Streaming,
        t.tool_ended(id, result).turns.last().status == TurnStatus::Streaming,
        forall|i: int|
            0 <= i < t.turns.len() - 1 ==> #[trigger] t.appended(block).turns[i] == t.turns[i]
                && t.tool_ended(id, result).turns[i] == t.turns[i],
        TranscriptV::empty().turns.len() == 0,
        TranscriptV::empty().next_id == 0,
{
}

/// A turn that is finished shows what it showed: texts, calls and results stay, and only a call
/// that was still running is done now. Earlier turns stay as they are.
pub proof fn law_finishing_keeps_what_is_shown(t: TranscriptV)
    requires
        t.turns.len() > 0,
    ensures
        ({
            let before = t.turns.last();
            let after = t.turn_finished().turns.last();
            &&& after.id == before.id
            &&& after.blocks.len() == before.blocks.len()
            &&& forall|i: int|
                0 <= i < before.blocks.len() ==> match #[trigger] before.blocks[i] {
                    ShownV::ToolCall(c) => {
                        &&& after.blocks[i] matches ShownV::ToolCall(now)
                        &&& now.call == c.call
                        &&& now.result == c.result
                        &&& now.status == (if c.status == ToolStatus::Running {
                            ToolStatus::Done
                        } else {
                            c.status
                        })
                    },
                    other => after.blocks[i] == other,
                }
        }),
        t.turn_finished().turns.len() == t.turns.len(),
        t.turn_finished().next_id == t.next_id,
        forall|i: int|
            0 <= i < t.turns.len() - 1 ==> #[trigger] t.turn_finished().turns[i] == t.turns[i],
{
}

} // verus!
