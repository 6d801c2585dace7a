//! The Telegram frontend: how a turn is cut into messages, and when they are sent.
//!
//! Telegram caps a message, so a long text is sealed piece by piece: a sealed piece is never
//! touched again, and what follows goes into the next message, which is edited while the text
//! grows. Edits are throttled.
use vstd::prelude::*;

use crate::json::{json_text, write_json, Json, JsonV};
use crate::text::{
    chars_of, concat2, concat3, text_of, trim, trimmed, trimmed_end, trimmed_start, views,
};
use crate::transcript::{call_place, closed_blocks, resolve, show, Block, ShownV, Turn};
use crate::types::{text_message, BlockV, ContentBlock, Message, ToolResultV};
use crate::viewmodel::{AgentId, Step};

verus! {

/// The number of characters that a message of a [`ChatView`] may hold.
pub const MESSAGE_CHARS: usize = 4095;

/// The number of pending characters at which a [`ChatBuffer`] seals a message.
pub const BUFFER_CHARS: usize = 4096;

/// The pause between two edits, in milliseconds.
pub const THROTTLE_MILLIS: u64 = 4000;

/// The number of bytes behind which a note is clipped.
pub const NOTE_BYTES: usize = 512;

/// The bytes that UTF-8 needs for a character.
pub open spec fn utf8_width(c: char) -> nat {
    if (c as u32) < 0x80 {
        1
    } else if (c as u32) < 0x800 {
        2
    } else if (c as u32) < 0x10000 {
        3
    } else {
        4
    }
}

/// The bytes that UTF-8 needs for a text.
pub open spec fn utf8_size(s: Seq<char>) -> nat
    decreases s.len(),
{
    if s.len() == 0 {
        0
    } else {
        utf8_size(s.drop_last()) + utf8_width(s.last())
    }
}

/// The length, at or behind `from`, of the shortest head of `s` that needs at least
/// `NOTE_BYTES` bytes; the whole length where there is none.
pub open spec fn note_length(s: Seq<char>, from: int) -> int
    decreases s.len() - from,
{
    if from < 0 || from >= s.len() || utf8_size(s.take(from)) >= NOTE_BYTES {
        from
    } else {
        note_length(s, from + 1)
    }
}

/// A note, clipped to whole characters.
pub open spec fn clipped_note(s: Seq<char>) -> Seq<char> {
    s.take(note_length(s, 0))
}

/// A note, clipped to whole characters.
pub fn clip_note(s: &str) -> (r: String)
    ensures
        r@ == clipped_note(s@),
{
    let chars = chars_of(s);
    let mut n: usize = 0;
    let mut size: usize = 0;
    assert(chars@.take(0) =~= Seq::empty());
    while n < chars.len() && size < NOTE_BYTES
        invariant
            n <= chars@.len(),
            chars@ == s@,
            size == utf8_size(s@.take(n as int)),
            size <= NOTE_BYTES + 4,
            note_length(s@, 0) == note_length(s@, n as int),
        decreases chars@.len() - n,
    {
        let code: u32 = chars[n] as u32;
        proof {
            assert(s@.take(n + 1).drop_last() =~= s@.take(n as int));
            assert(s@.take(n + 1).last() == chars@[n as int]);
        }
        let width: usize = if code < 0x80 {
            1
        } else if code < 0x800 {
            2
        } else if code < 0x10000 {
            3
        } else {
            4
        };
        size = size + width;
        n += 1;
    }
    assert(chars@.subrange(0, n as int) =~= s@.take(n as int));
    text_of(&chars, 0, n)
}

/// What Telegram shows of a block: text as it is, a tool call as a note, and nothing of
/// reasoning.
pub open spec fn block_text(block: ShownV) -> Seq<char> {
    match block {
        ShownV::Text(t) => t,
        ShownV::Reasoning(_) => Seq::empty(),
        ShownV::ToolCall(c) => clipped_note(c.call.name + ": "@ + json_text(c.call.arguments)),
    }
}

/// What Telegram shows of a turn: its blocks, one after the other.
pub open spec fn turn_text(blocks: Seq<ShownV>) -> Seq<char>
    decreases blocks.len(),
{
    if blocks.len() == 0 {
        Seq::empty()
    } else {
        turn_text(blocks.drop_last()) + block_text(blocks.last())
    }
}

/// What Telegram shows of a block.
fn render_block(block: &Block) -> (r: String)
    ensures
        r@ == block_text(block@),
{
    match block {
        Block::Text(t) => t.content.clone(),
        Block::Reasoning(_) => String::new(),
        Block::ToolCall(c) => {
            let arguments = write_json(&c.call.arguments);
            let note = concat3(c.call.name.as_str(), ": ", arguments.as_str());
            clip_note(note.as_str())
        },
    }
}

/// What Telegram shows of a turn.
pub fn render_turn(turn: &Turn) -> (r: String)
    ensures
        r@ == turn_text(turn@.blocks),
{
    let ghost all = turn@.blocks;
    let mut out = String::new();
    let mut i: usize = 0;
    assert(all.take(0) =~= Seq::empty());
    while i < turn.blocks.len()
        invariant
            i <= turn.blocks@.len(),
            all == views(turn.blocks@),
            out@ == turn_text(all.take(i as int)),
        decreases turn.blocks@.len() - i,
    {
        proof {
            assert(all.take(i + 1).drop_last() =~= all.take(i as int));
            assert(all.take(i + 1).last() == turn.blocks@[i as int]@);
        }
        let piece = render_block(&turn.blocks[i]);
        out.append(piece.as_str());
        i += 1;
    }
    assert(all.take(all.len() as int) =~= all);
    out
}

/// Where blocks change in nothing that Telegram shows, it shows the same.
proof fn lemma_same_text(blocks: Seq<ShownV>, other: Seq<ShownV>)
    requires
        blocks.len() == other.len(),
        forall|i: int|
            0 <= i < blocks.len() ==> block_text(#[trigger] blocks[i]) == block_text(other[i]),
    ensures
        turn_text(blocks) == turn_text(other),
    decreases blocks.len(),
{
    if blocks.len() > 0 {
        assert forall|i: int| 0 <= i < blocks.drop_last().len() implies block_text(
            #[trigger] blocks.drop_last()[i],
        ) == block_text(other.drop_last()[i]) by {
            assert(block_text(blocks[i]) == block_text(other[i]));
        }
        lemma_same_text(blocks.drop_last(), other.drop_last());
        assert(block_text(blocks[blocks.len() - 1]) == block_text(other[other.len() - 1]));
    }
}

/// The text of a turn only ever grows: what is streamed goes behind what is shown already, and
/// neither the result of a tool nor the end of the turn changes it. What was sealed of a turn
/// therefore stays the head of its text.
pub proof fn law_turn_text_grows(
    blocks: Seq<ShownV>,
    block: BlockV,
    id: Seq<char>,
    result: ToolResultV,
)
    ensures
        turn_text(blocks).is_prefix_of(turn_text(show(blocks, block))),
        turn_text(resolve(blocks, id, result)) == turn_text(blocks),
        turn_text(closed_blocks(blocks)) == turn_text(blocks),
{
    let after = show(blocks, block);
    if after.len() == blocks.len() {
        if blocks.len() > 0 {
            assert(after.drop_last() =~= blocks.drop_last());
        } else {
            assert(after =~= blocks);
        }
    } else {
        assert(after.drop_last() =~= blocks);
    }
    assert(turn_text(blocks) =~= turn_text(after).take(turn_text(blocks).len() as int));
    lemma_resolved(blocks, id, 0);
    let resolved = resolve(blocks, id, result);
    assert forall|i: int| 0 <= i < blocks.len() implies block_text(#[trigger] resolved[i])
        == block_text(blocks[i]) by {}
    lemma_same_text(resolved, blocks);
    lemma_same_text(closed_blocks(blocks), blocks);
}

/// The place of a call holds a call.
proof fn lemma_resolved(blocks: Seq<ShownV>, id: Seq<char>, from: int)
    ensures
        0 <= from && call_place(blocks, id, from) < blocks.len() ==> from <= call_place(
            blocks,
            id,
            from,
        ) && blocks[call_place(blocks, id, from)] is ToolCall,
    decreases blocks.len() - from,
{
    if 0 <= from < blocks.len() {
        lemma_resolved(blocks, id, from + 1);
    }
}

/// The end of the last line that ends within the first `n` characters, or zero.
pub open spec fn line_end(s: Seq<char>, n: int) -> int
    decreases n,
{
    if n <= 0 || n > s.len() {
        0
    } else if s[n - 1] == '\n' {
        n
    } else {
        line_end(s, n - 1)
    }
}

/// The end of the last line within the first `limit` characters, or the limit.
pub open spec fn line_cut(s: Seq<char>, limit: int) -> int {
    if line_end(s, limit) > 0 {
        line_end(s, limit)
    } else {
        limit
    }
}

/// Whether a text is too long for one message.
pub open spec fn is_full(rest: Seq<char>) -> bool {
    rest.len() > MESSAGE_CHARS
}

/// How much of a text goes into the next message. A full text is cut behind its last line that
/// fits, or where it is full. A short one is sent up to its last line end while it grows, and
/// whole once it is finished.
pub open spec fn cut(rest: Seq<char>, finish: bool) -> int {
    let limit = if is_full(rest) {
        MESSAGE_CHARS as int
    } else {
        rest.len() as int
    };
    if finish && !is_full(rest) {
        limit
    } else {
        line_cut(rest, limit)
    }
}

/// Whether so much is pending that a message is sealed.
pub open spec fn buffer_full(pending: Seq<char>) -> bool {
    pending.len() >= BUFFER_CHARS
}

/// How much of the pending text goes into the next message: up to its last line end, or as much
/// as a message holds.
pub open spec fn buffer_cut(pending: Seq<char>) -> int {
    line_cut(
        pending,
        if buffer_full(pending) {
            BUFFER_CHARS as int
        } else {
            pending.len() as int
        },
    )
}

/// What is put out of the pending text fits a message, and is something as long as there is
/// text. Behind a line end nothing is held back.
pub proof fn law_buffered_messages_fit(pending: Seq<char>)
    requires
        pending.len() > 0,
    ensures
        0 < buffer_cut(pending) <= pending.len(),
        buffer_cut(pending) <= BUFFER_CHARS,
        !buffer_full(pending) && pending.last() == '\n' ==> buffer_cut(pending) == pending.len(),
{
    lemma_line_end(
        pending,
        if buffer_full(pending) {
            BUFFER_CHARS as int
        } else {
            pending.len() as int
        },
    );
}

/// The last line break before a place, and none behind it.
proof fn lemma_line_end(s: Seq<char>, n: int)
    requires
        0 <= n <= s.len(),
    ensures
        0 <= line_end(s, n) <= n,
        line_end(s, n) > 0 ==> s[line_end(s, n) - 1] == '\n',
        forall|i: int| line_end(s, n) <= i < n ==> s[i] != '\n',
    decreases n,
{
    if n > 0 && s[n - 1] != '\n' {
        lemma_line_end(s, n - 1);
    }
}

/// A message never exceeds the cap, and something is sealed or shown as long as there is text.
pub proof fn law_messages_fit(rest: Seq<char>, finish: bool)
    requires
        rest.len() > 0,
    ensures
        0 < cut(rest, finish) <= rest.len(),
        cut(rest, finish) <= MESSAGE_CHARS,
{
    lemma_line_end(
        rest,
        if is_full(rest) {
            MESSAGE_CHARS as int
        } else {
            rest.len() as int
        },
    );
}

/// The pieces in which a finished text goes out.
pub open spec fn pieces(rest: Seq<char>) -> Seq<Seq<char>>
    decreases rest.len(),
    via pieces_decreases
{
    if trimmed(rest).len() == 0 {
        Seq::empty()
    } else if is_full(rest) {
        seq![rest.take(cut(rest, true))] + pieces(rest.skip(cut(rest, true)))
    } else {
        seq![rest]
    }
}

/// A piece is never empty.
#[via_fn]
proof fn pieces_decreases(rest: Seq<char>) {
    if is_full(rest) {
        law_messages_fit(rest, true);
    }
}

/// What is left over once a finished text has gone out.
pub open spec fn leftover(rest: Seq<char>) -> Seq<char>
    decreases rest.len(),
    via leftover_decreases
{
    if trimmed(rest).len() == 0 {
        rest
    } else if is_full(rest) {
        leftover(rest.skip(cut(rest, true)))
    } else {
        Seq::empty()
    }
}

/// A piece is never empty.
#[via_fn]
proof fn leftover_decreases(rest: Seq<char>) {
    if is_full(rest) {
        law_messages_fit(rest, true);
    }
}

/// Pieces one after the other.
pub open spec fn all_pieces(parts: Seq<Seq<char>>) -> Seq<char>
    decreases parts.len(),
{
    if parts.len() == 0 {
        Seq::empty()
    } else {
        parts[0] + all_pieces(parts.skip(1))
    }
}

/// A finished text goes out whole: its pieces one after the other are the text, up to white
/// space at the end, and each of them fits a message.
pub proof fn law_finished_text_goes_out_whole(rest: Seq<char>)
    ensures
        all_pieces(pieces(rest)) + leftover(rest) == rest,
        trimmed(leftover(rest)).len() == 0,
        forall|i: int|
            0 <= i < pieces(rest).len() ==> 0 < (#[trigger] pieces(rest)[i]).len()
                <= MESSAGE_CHARS,
    decreases rest.len(),
{
    reveal_with_fuel(all_pieces, 2);
    if trimmed(rest).len() == 0 {
        assert(Seq::<char>::empty() + rest =~= rest);
    } else {
        assert(rest.len() > 0) by {
            if rest.len() == 0 {
                assert(trimmed(rest).len() == 0);
            }
        }
        if is_full(rest) {
            law_messages_fit(rest, true);
            let n = cut(rest, true);
            let head = rest.take(n);
            let tail = rest.skip(n);
            law_finished_text_goes_out_whole(tail);
            let all = seq![head] + pieces(tail);
            assert(all.skip(1) =~= pieces(tail));
            assert(all[0] == head);
            assert(all_pieces(all) + leftover(tail) =~= head + (all_pieces(pieces(tail))
                + leftover(tail)));
            assert(head + tail =~= rest);
            assert forall|i: int| 0 <= i < pieces(rest).len() implies 0 < (
            #[trigger] pieces(rest)[i]).len() <= MESSAGE_CHARS by {
                if i > 0 {
                    assert(pieces(rest)[i] == pieces(tail)[i - 1]);
                }
            }
        } else {
            let all = seq![rest];
            assert(all.skip(1) =~= Seq::<Seq<char>>::empty());
            assert(all_pieces(all) + Seq::<char>::empty() =~= rest);
            assert(trimmed(Seq::<char>::empty()).len() == 0) by {
                reveal_with_fuel(trimmed_end, 1);
                reveal_with_fuel(trimmed_start, 1);
            }
        }
    }
}

/// What to put out next.
#[derive(Debug, PartialEq)]
pub struct Delivery {
    /// The message to edit; a new one is sent where there is none.
    pub edit: Option<i32>,
    /// The text; nothing is put out where it is empty.
    pub text: String,
    /// How much of the rest the text stands for.
    pub boundary: usize,
    /// Whether it is sealed.
    pub full: bool,
}

/// How far a chat has been brought up to date.
#[derive(Debug, Clone, Copy, PartialEq, Eq)]
pub struct ChatView {
    /// The message that is being edited.
    pub message_id: Option<i32>,
    /// The number of characters of the turn's text that are sealed.
    pub sealed: usize,
    /// No edit before this time, in milliseconds.
    pub wait_until: u64,
}

/// What to do about a step of the view model.
#[derive(Debug, Clone, Copy, PartialEq, Eq, Structural)]
pub enum Plan {
    /// There is nothing more to show.
    Stop,
    /// Not now.
    Skip,
    /// Show the run's last turn.
    Render { id: AgentId, finish: bool },
}

/// What to do about a step: an update within the pause is passed over, the end of a turn never
/// is.
pub open spec fn planned(step: Option<Step>, now: u64, wait_until: u64) -> Plan {
    match step {
        None => Plan::Stop,
        Some(Step::TurnFinished { id }) => Plan::Render { id, finish: true },
        Some(Step::Updated { id }) => if now >= wait_until {
            Plan::Render { id, finish: false }
        } else {
            Plan::Skip
        },
        Some(Step::AgentEnded { id: _ }) => Plan::Stop,
    }
}

/// The message to go on editing, once something was put out: an edit keeps its message even
/// where it failed, a failed send leaves none.
pub fn message_after(edit: Option<i32>, text: &str, sent: Option<i32>) -> (r: Option<i32>)
    ensures
        r == (if text@.len() == 0 || edit is Some {
            edit
        } else {
            sent
        }),
{
    if text.is_empty() {
        return edit;
    }
    match edit {
        Some(id) => Some(id),
        None => sent,
    }
}

impl ChatView {
    /// A chat in which nothing was put out yet.
    pub fn new() -> (r: Self)
        ensures
            r == (ChatView { message_id: None, sealed: 0, wait_until: 0 }),
    {
        ChatView { message_id: None, sealed: 0, wait_until: 0 }
    }

    /// What to do about a step of the view model.
    pub fn plan(&self, step: Option<Step>, now: u64) -> (r: Plan)
        ensures
            r == planned(step, now, self.wait_until),
    {
        match step {
            None => Plan::Stop,
            Some(Step::TurnFinished { id }) => Plan::Render { id, finish: true },
            Some(Step::Updated { id }) => if now >= self.wait_until {
                Plan::Render { id, finish: false }
            } else {
                Plan::Skip
            },
            Some(Step::AgentEnded { id: _ }) => Plan::Stop,
        }
    }

    /// What to put out of a turn's text; nothing where what is not sealed is white space.
    pub fn next_delivery(&self, text: &str, finish: bool) -> (r: Option<Delivery>)
        requires
            self.sealed <= text@.len(),
        ensures
            match r {
                None => trimmed(text@.skip(self.sealed as int)).len() == 0,
                Some(d) => {
                    let rest = text@.skip(self.sealed as int);
                    &&& trimmed(rest).len() > 0
                    &&& d.edit == self.message_id
                    &&& d.boundary == cut(rest, finish)
                    &&& d.full == is_full(rest)
                    &&& d.text@ == trimmed(rest.take(cut(rest, finish)))
                    &&& self.sealed + d.boundary <= text@.len()
                },
            },
    {
        let chars = chars_of(text);
        let rest = text_of(&chars, self.sealed, chars.len());
        assert(rest@ =~= text@.skip(self.sealed as int));
        let shown = trim(rest.as_str());
        if shown.as_str().is_empty() {
            return None;
        }
        let chars = chars_of(rest.as_str());
        let full = chars.len() > MESSAGE_CHARS;
        let limit: usize = if full {
            MESSAGE_CHARS
        } else {
            chars.len()
        };
        let boundary = if finish && !full {
            limit
        } else {
            find_cut(&chars, limit)
        };
        let piece = text_of(&chars, 0, boundary);
        assert(piece@ =~= rest@.take(boundary as int));
        Some(Delivery { edit: self.message_id, text: trim(piece.as_str()), boundary, full })
    }

    /// Takes in what came of a delivery: the message that was sent or edited. Returns whether
    /// there may be more to put out at once.
    pub fn delivered(&mut self, delivery: &Delivery, message: Option<i32>, now: u64, finish: bool)
        -> (more: bool)
        requires
            now + THROTTLE_MILLIS <= u64::MAX,
            old(self).sealed + delivery.boundary <= usize::MAX,
        ensures
            final(self).wait_until == now + THROTTLE_MILLIS,
            delivery.full ==> final(self).message_id is None && final(self).sealed == old(self).sealed + delivery.boundary,
            !delivery.full ==> final(self).message_id == message && final(self).sealed == old(self).sealed,
            more == (finish && delivery.full),
    {
        self.wait_until = now + THROTTLE_MILLIS;
        if delivery.full {
            self.message_id = None;
            self.sealed = self.sealed + delivery.boundary;
        } else {
            self.message_id = message;
        }
        finish && delivery.full
    }

    /// Takes in that there is nothing more to put out for now. Returns whether the chat is to
    /// be told that the agent is typing: only where nothing was put out.
    pub fn settle(&mut self, now: u64, finish: bool) -> (typing: bool)
        requires
            now + THROTTLE_MILLIS <= u64::MAX,
        ensures
            typing == (now >= old(self).wait_until),
            final(self).wait_until == (if typing {
                (now + THROTTLE_MILLIS) as u64
            } else {
                old(self).wait_until
            }),
            finish ==> final(self).message_id is None && final(self).sealed == 0,
            !finish ==> final(self).message_id == old(self).message_id && final(self).sealed
                == old(self).sealed,
    {
        let typing = now >= self.wait_until;
        if typing {
            self.wait_until = now + THROTTLE_MILLIS;
        }
        if finish {
            self.message_id = None;
            self.sealed = 0;
        }
        typing
    }
}

/// The end of the last line within the first `limit` characters, or the limit.
fn find_cut(chars: &Vec<char>, limit: usize) -> (r: usize)
    requires
        limit <= chars@.len(),
    ensures
        r == line_cut(chars@, limit as int),
        r <= limit,
{
    let mut n: usize = limit;
    while n > 0 && chars[n - 1] != '\n'
        invariant
            n <= limit <= chars@.len(),
            line_end(chars@, limit as int) == line_end(chars@, n as int),
        decreases n,
    {
        n -= 1;
    }
    if n > 0 {
        n
    } else {
        limit
    }
}

/// What reaches a chat that renders streamed output itself.
#[derive(Debug, PartialEq)]
pub enum StreamEvent {
    Append(ContentBlock),
    /// A tool is about to run.
    Notification(String),
    /// The turn is over.
    Finish,
}

/// What a [`StreamEvent`] is.
#[verifier::ext_equal]
pub enum StreamV {
    Append(BlockV),
    Notification(Seq<char>),
    Finish,
}

impl View for StreamEvent {
    type V = StreamV;

    open spec fn view(&self) -> StreamV {
        match self {
            StreamEvent::Append(block) => StreamV::Append(block@),
            StreamEvent::Notification(t) => StreamV::Notification(t@),
            StreamEvent::Finish => StreamV::Finish,
        }
    }
}

/// What to do about what reached a chat.
#[derive(Debug, PartialEq)]
pub enum Reaction {
    /// There is nothing more to show.
    Stop,
    /// Wait for what comes next.
    Skip,
    /// Put out the note first, then go on as with `Flush`.
    Note(String),
    /// Put out what is pending, unless it is too early.
    Flush,
}

/// A chat that renders streamed output itself: text that was not put out yet is pending.
#[derive(Debug, PartialEq)]
pub struct ChatBuffer {
    pub pending: String,
    /// The message that is being edited.
    pub message_id: Option<i32>,
    /// No edit before this time, in milliseconds.
    pub wait_until: u64,
    /// The turn is over, and waits for what is pending to go out.
    pub finishing: bool,
}

impl ChatBuffer {
    /// A chat to which nothing came yet.
    pub fn new() -> (r: Self)
        ensures
            r.pending@.len() == 0,
            r.message_id is None,
            r.wait_until == 0,
            !r.finishing,
    {
        ChatBuffer { pending: String::new(), message_id: None, wait_until: 0, finishing: false }
    }

    /// What an event adds to the pending text.
    pub open spec fn text_of_event(event: Option<StreamEvent>) -> Seq<char> {
        match event {
            Some(StreamEvent::Append(ContentBlock::Text(t))) => t@,
            Some(StreamEvent::Finish) => seq!['\n'],
            _ => Seq::empty(),
        }
    }

    /// Takes in what came, or that nothing more will.
    pub fn on_event(&mut self, event: Option<StreamEvent>) -> (r: Reaction)
        ensures
            final(self).pending@ == old(self).pending@ + ChatBuffer::text_of_event(event),
            final(self).message_id == old(self).message_id,
            final(self).finishing == (event matches Some(StreamEvent::Finish)),
            match event {
                Some(StreamEvent::Append(ContentBlock::Text(_))) => r is Flush
                    && final(self).wait_until == old(self).wait_until,
                Some(StreamEvent::Append(ContentBlock::Reasoning(_))) => r is Flush
                    && final(self).wait_until == old(self).wait_until,
                Some(StreamEvent::Append(_)) => r is Skip && final(self).wait_until == old(self).wait_until,
                Some(StreamEvent::Notification(t)) => if old(self).pending@.len() == 0 {
                    r matches Reaction::Note(note) && note@ == clipped_note(t@)
                        && final(self).wait_until == old(self).wait_until
                } else {
                    r is Flush && final(self).wait_until == 0
                },
                Some(StreamEvent::Finish) => r is Flush && final(self).wait_until == 0,
                None => if trimmed(old(self).pending@).len() == 0 {
                    r is Stop
                } else {
                    r is Flush && final(self).wait_until == 0
                },
            },
    {
        self.finishing = false;
        let ghost before = self.pending@;
        assert(before + Seq::<char>::empty() =~= before);
        match event {
            Some(StreamEvent::Append(ContentBlock::Text(t))) => {
                self.pending.append(t.content.as_str());
                Reaction::Flush
            },
            Some(StreamEvent::Append(ContentBlock::Reasoning(_))) => Reaction::Flush,
            Some(StreamEvent::Append(_)) => Reaction::Skip,
            Some(StreamEvent::Notification(t)) => {
                if self.pending.as_str().is_empty() {
                    Reaction::Note(clip_note(t.as_str()))
                } else {
                    self.wait_until = 0;
                    Reaction::Flush
                }
            },
            Some(StreamEvent::Finish) => {
                self.finishing = true;
                self.pending.push('\n');
                assert(self.pending@ =~= before + seq!['\n']);
                self.wait_until = 0;
                Reaction::Flush
            },
            None => {
                let shown = trim(self.pending.as_str());
                if shown.as_str().is_empty() {
                    Reaction::Stop
                } else {
                    self.wait_until = 0;
                    Reaction::Flush
                }
            },
        }
    }

    /// Whether it is time to put something out.
    pub fn due(&self, now: u64) -> (r: bool)
        ensures
            r == (now >= self.wait_until),
    {
        now >= self.wait_until
    }

    /// What to put out of the pending text; nothing where it is white space.
    pub fn next_delivery(&self) -> (r: Option<Delivery>)
        ensures
            match r {
                None => trimmed(self.pending@).len() == 0,
                Some(d) => {
                    &&& trimmed(self.pending@).len() > 0
                    &&& d.edit == self.message_id
                    &&& d.boundary == buffer_cut(self.pending@)
                    &&& d.boundary <= self.pending@.len()
                    &&& d.full == buffer_full(self.pending@)
                    &&& d.text@ == trimmed(self.pending@.take(buffer_cut(self.pending@)))
                },
            },
    {
        let shown = trim(self.pending.as_str());
        if shown.as_str().is_empty() {
            return None;
        }
        let chars = chars_of(self.pending.as_str());
        let full = chars.len() >= BUFFER_CHARS;
        let limit: usize = if full {
            BUFFER_CHARS
        } else {
            chars.len()
        };
        let boundary = find_cut(&chars, limit);
        let piece = text_of(&chars, 0, boundary);
        assert(piece@ =~= self.pending@.take(boundary as int));
        Some(Delivery { edit: self.message_id, text: trim(piece.as_str()), boundary, full })
    }

    /// Takes in what came of a delivery. Returns whether there may be more to put out at once.
    pub fn delivered(&mut self, delivery: &Delivery, message: Option<i32>, now: u64) -> (more: bool)
        requires
            now + THROTTLE_MILLIS <= u64::MAX,
            delivery.boundary <= old(self).pending@.len(),
        ensures
            final(self).wait_until == now + THROTTLE_MILLIS,
            final(self).finishing == old(self).finishing,
            delivery.full ==> final(self).message_id is None && final(self).pending@ == old(self).pending@.skip(delivery.boundary as int),
            !delivery.full ==> final(self).message_id == message && final(self).pending@ == old(self).pending@,
            more == (old(self).finishing && delivery.full),
    {
        self.wait_until = now + THROTTLE_MILLIS;
        if delivery.full {
            self.message_id = None;
            let chars = chars_of(self.pending.as_str());
            self.pending = text_of(&chars, delivery.boundary, chars.len());
            assert(self.pending@ =~= old(self).pending@.skip(delivery.boundary as int));
        } else {
            self.message_id = message;
        }
        self.finishing && delivery.full
    }

    /// Takes in that there is nothing more to put out for now. Returns whether the chat is to
    /// be told that the agent is typing.
    pub fn settle(&mut self, now: u64) -> (typing: bool)
        requires
            now + THROTTLE_MILLIS <= u64::MAX,
        ensures
            typing == (now >= old(self).wait_until),
            final(self).wait_until == (if typing {
                (now + THROTTLE_MILLIS) as u64
            } else {
                old(self).wait_until
            }),
            !final(self).finishing,
            old(self).finishing ==> final(self).message_id is None && final(self).pending@.len()
                == 0,
            !old(self).finishing ==> final(self).message_id == old(self).message_id && final(self).pending@ == old(self).pending@,
    {
        let typing = now >= self.wait_until;
        if typing {
            self.wait_until = now + THROTTLE_MILLIS;
        }
        if self.finishing {
            self.message_id = None;
            self.pending = String::new();
            self.finishing = false;
        }
        typing
    }
}

/// The notice that a tool is about to run.
pub open spec fn notice(name: Seq<char>, arguments: JsonV) -> Seq<char> {
    "Tool: "@ + name + ": "@ + json_text(arguments)
}

/// The notice that a tool is about to run.
pub fn tool_notice(name: &str, arguments: &Json) -> (r: String)
    ensures
        r@ == notice(name@, arguments@),
{
    let text = write_json(arguments);
    let head = concat3("Tool: ", name, ": ");
    concat2(head.as_str(), text.as_str())
}

/// The prompt of a typed text.
pub fn text_prompt(text: &str) -> (r: Message)
    ensures
        r@ == text_message("user"@, text@),
{
    Message::text("user", text.to_owned())
}

/// The prompt of the command that switches sessions.
pub fn switch_prompt(text: &str) -> (r: Message)
    ensures
        r@ == text_message("user"@, "switch session: "@ + text@),
{
    Message::text("user", concat2("switch session: ", text))
}

/// Whether a user may talk to the agent. Messages without a user are never let through.
pub fn is_allowed(ids: &Vec<u64>, user: Option<u64>) -> (r: bool)
    ensures
        r == (user matches Some(id) && ids@.contains(id)),
{
    match user {
        Some(id) => {
            let mut i: usize = 0;
            while i < ids.len()
                invariant
                    i <= ids@.len(),
                    user == Some(id),
                    forall|j: int| 0 <= j < i ==> ids@[j] != id,
                decreases ids@.len() - i,
            {
                if ids[i] == id {
                    return true;
                }
                i += 1;
            }
            false
        },
        None => false,
    }
}

/// A note is the head of a text: all of it where it is small, or else as many characters as it
/// takes to fill 512 bytes.
pub proof fn law_notes_are_heads(s: Seq<char>)
    ensures
        clipped_note(s).is_prefix_of(s),
        utf8_size(s) < 512 ==> clipped_note(s) == s,
        clipped_note(s) != s ==> 512 <= utf8_size(clipped_note(s)) <= 515,
        clipped_note(s).len() > 0 ==> utf8_size(clipped_note(s).drop_last()) < 512,
{
    assert(s.take(0) =~= Seq::<char>::empty());
    lemma_note_length(s, 0);
    let n = note_length(s, 0);
    assert(clipped_note(s) =~= s.take(clipped_note(s).len() as int));
    if n < s.len() {
        lemma_sizes_grow(s, n);
    } else {
        assert(s.take(n) =~= s);
    }
    if n > 0 {
        assert(s.take(n).drop_last() =~= s.take(n - 1));
    }
}

/// A note stops at the first place at which it is full.
proof fn lemma_note_length(s: Seq<char>, from: int)
    requires
        0 <= from <= s.len(),
        from > 0 ==> utf8_size(s.take(from - 1)) < NOTE_BYTES,
    ensures
        from <= note_length(s, from) <= s.len(),
        note_length(s, from) < s.len() ==> utf8_size(s.take(note_length(s, from))) >= NOTE_BYTES,
        note_length(s, from) > 0 ==> utf8_size(s.take(note_length(s, from) - 1)) < NOTE_BYTES,
    decreases s.len() - from,
{
    if from < s.len() && utf8_size(s.take(from)) < NOTE_BYTES {
        lemma_note_length(s, from + 1);
    }
}

/// A head of a text is no larger than the text.
proof fn lemma_sizes_grow(s: Seq<char>, n: int)
    requires
        0 <= n <= s.len(),
    ensures
        utf8_size(s.take(n)) <= utf8_size(s),
    decreases s.len() - n,
{
    if n < s.len() {
        lemma_sizes_grow(s, n + 1);
        assert(s.take(n + 1).drop_last() =~= s.take(n));
    } else {
        assert(s.take(n) =~= s);
    }
}

/// The size of a text is the number of its bytes: one for each of the first 128 characters, and
/// two, three or four for those behind them.
pub proof fn law_sizes_add_up(s: Seq<char>, c: char)
    ensures
        utf8_size(Seq::<char>::empty()) == 0,
        utf8_size(s.push(c)) == utf8_size(s) + utf8_width(c),
        utf8_width(c) == 1 <==> (c as u32) <= 0x7f,
        utf8_width(c) == 2 <==> 0x80 <= (c as u32) <= 0x7ff,
        utf8_width(c) == 3 <==> 0x800 <= (c as u32) <= 0xffff,
        1 <= utf8_width(c) <= 4,
{
    assert(s.push(c).drop_last() =~= s);
}

/// A turn is put out block by block: texts as they are, of a call a note of its name and its
/// arguments, and nothing of reasoning.
pub proof fn law_turns_are_put_out_block_by_block(
    blocks: Seq<ShownV>,
    text: Seq<char>,
    call: crate::transcript::ToolShownV,
)
    ensures
        turn_text(Seq::<ShownV>::empty()).len() == 0,
        turn_text(blocks.push(ShownV::Text(text))) == turn_text(blocks) + text,
        turn_text(blocks.push(ShownV::Reasoning(text))) == turn_text(blocks),
        turn_text(blocks.push(ShownV::ToolCall(call))) == turn_text(blocks) + clipped_note(
            call.call.name + ": "@ + json_text(call.call.arguments),
        ),
{
    assert(blocks.push(ShownV::Text(text)).drop_last() =~= blocks);
    assert(blocks.push(ShownV::Reasoning(text)).drop_last() =~= blocks);
    assert(blocks.push(ShownV::ToolCall(call)).drop_last() =~= blocks);
    assert(turn_text(blocks) + Seq::<char>::empty() =~= turn_text(blocks));
}

/// A text that is finished and fits goes out whole. Otherwise it is cut behind the last line end
/// that fits, and where there is none, where the message is full or the text ends.
pub proof fn law_texts_are_cut_behind_lines(rest: Seq<char>, finish: bool)
    ensures
        is_full(rest) <==> rest.len() > 4095,
        finish && rest.len() <= 4095 ==> cut(rest, finish) == rest.len(),
        ({
            let limit = if rest.len() > 4095 { 4095int } else { rest.len() as int };
            let at = cut(rest, finish);
            !(finish && rest.len() <= 4095) ==> {
                &&& 0 <= at <= limit
                &&& at == limit || rest[at - 1] == '\n'
                &&& at < limit ==> forall|i: int| at <= i < limit ==> #[trigger] rest[i] != '\n'
                &&& (exists|i: int| 0 <= i < limit && #[trigger] rest[i] == '\n') ==> at > 0
                    && rest[at - 1] == '\n'
            }
        }),
{
    let limit = if rest.len() > 4095 { 4095int } else { rest.len() as int };
    lemma_line_end(rest, limit);
}

/// Pending text is cut behind the last line end that fits, and where there is none, where the
/// message is full or the text ends.
pub proof fn law_pending_texts_are_cut_behind_lines(pending: Seq<char>)
    ensures
        buffer_full(pending) <==> pending.len() >= 4096,
        ({
            let limit = if pending.len() >= 4096 { 4096int } else { pending.len() as int };
            let at = buffer_cut(pending);
            &&& 0 <= at <= limit
            &&& at == limit || pending[at - 1] == '\n'
            &&& at < limit ==> forall|i: int| at <= i < limit ==> #[trigger] pending[i] != '\n'
            &&& (exists|i: int| 0 <= i < limit && #[trigger] pending[i] == '\n') ==> at > 0
                && pending[at - 1] == '\n'
        }),
{
    let limit = if pending.len() >= 4096 { 4096int } else { pending.len() as int };
    lemma_line_end(pending, limit);
}

/// The end of a turn is always put out, and an update unless it comes too early; each for the run
/// that it is about. Once the run is over, or nothing more comes, there is nothing to put out.
pub proof fn law_updates_are_throttled(id: AgentId, now: u64, wait_until: u64)
    ensures
        planned(Some(Step::TurnFinished { id }), now, wait_until) == (Plan::Render {
            id,
            finish: true,
        }),
        now >= wait_until ==> planned(Some(Step::Updated { id }), now, wait_until) == (
        Plan::Render { id, finish: false }),
        now < wait_until ==> planned(Some(Step::Updated { id }), now, wait_until) is Skip,
        planned(Some(Step::AgentEnded { id }), now, wait_until) is Stop,
        planned(None, now, wait_until) is Stop,
{
}

/// Only text that is streamed, and a line end where the turn is over, become pending.
pub proof fn law_streamed_text_becomes_pending(event: StreamEvent)
    ensures
        event matches StreamEvent::Append(ContentBlock::Text(t)) ==> ChatBuffer::text_of_event(
            Some(event),
        ) == t.content@,
        event is Finish ==> ChatBuffer::text_of_event(Some(event)) == seq!['\n'],
        event is Notification ==> ChatBuffer::text_of_event(Some(event)).len() == 0,
        event matches StreamEvent::Append(ContentBlock::Reasoning(_))
            ==> ChatBuffer::text_of_event(Some(event)).len() == 0,
        event matches StreamEvent::Append(ContentBlock::ToolCall(_))
            ==> ChatBuffer::text_of_event(Some(event)).len() == 0,
        ChatBuffer::text_of_event(None).len() == 0,
{
}

/// The notice of a tool names the tool and ends with what it is called with.
pub proof fn law_notices_name_the_tool(name: Seq<char>, arguments: JsonV)
    ensures
        ("Tool: "@ + name + ": "@).is_prefix_of(notice(name, arguments)),
        crate::text::ends_with(notice(name, arguments), json_text(arguments)),
{
    let lead = "Tool: "@ + name + ": "@;
    assert(notice(name, arguments).take(lead.len() as int) =~= lead);
    crate::text::lemma_ends_with(lead, json_text(arguments));
}

} // verus!
