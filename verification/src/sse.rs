//! Reading a streamed answer: server-sent events into streamed responses.
//!
//! The bytes come in pieces that respect neither lines nor characters. A [`SseReader`] cuts
//! them into lines and hands out the data they carry; what the data says goes back to it as a
//! [`ChatChunk`], and it says what is to be streamed on.
use vstd::prelude::*;
use vstd::utf8::*;

use crate::json::{json_read, read_json, Json, JsonV};
use crate::providers::{StreamResponse, StreamResponseV};
use crate::text::{
    chars_of, is_space, law_trimming_the_end, opt_view, same, strip_prefix, text_of, trim,
    trim_end, trimmed, trimmed_end, trimmed_start, views,
};
use crate::types::{
    blocks_calls, blocks_text, BlockV, ContentBlock, Message, MessageV, TextContent, TokenUsage,
    ToolCall, ToolCallV,
};

verus! {

/// What `String::from_utf8_lossy` makes of bytes.
pub uninterp spec fn utf8_lossy(bytes: Seq<u8>) -> Seq<char>;

/// `String::from_utf8_lossy`: the text that the bytes encode, with replacement characters
/// where they encode none. The result is a function of the bytes; the contract gives it a
/// name, and says what it is where the bytes are UTF-8.
#[verifier::external_body]
fn lossy_text(bytes: &[u8]) -> (r: String)
    ensures
        r@ == utf8_lossy(bytes@),
        valid_utf8(bytes@) ==> r@ == decode_utf8(bytes@),
{
    String::from_utf8_lossy(bytes).into_owned()
}

/// The lines that end in `text` where `open` is the line it goes on with, and the line that is
/// open behind it.
pub open spec fn framed(open: Seq<char>, text: Seq<char>) -> (Seq<Seq<char>>, Seq<char>)
    decreases text.len(),
{
    if text.len() == 0 {
        (Seq::empty(), open)
    } else {
        let (lines, rest) = framed(open, text.drop_last());
        if text.last() == '\n' {
            (lines.push(rest), Seq::empty())
        } else {
            (lines, rest.push(text.last()))
        }
    }
}

/// Lines with their ends, one after the other.
pub open spec fn unframed(lines: Seq<Seq<char>>) -> Seq<char>
    decreases lines.len(),
{
    if lines.len() == 0 {
        Seq::empty()
    } else {
        unframed(lines.drop_last()) + lines.last().push('\n')
    }
}

/// The data that a line carries.
pub open spec fn line_data(line: Seq<char>) -> Option<Seq<char>> {
    let line = trimmed_end(line);
    if "data: "@.is_prefix_of(line) {
        Some(trimmed(line.skip("data: "@.len() as int)))
    } else {
        None
    }
}

/// The data that lines carry, in order.
pub open spec fn lines_data(lines: Seq<Seq<char>>) -> Seq<Seq<char>>
    decreases lines.len(),
{
    if lines.len() == 0 {
        Seq::empty()
    } else {
        match line_data(lines.last()) {
            Some(data) => lines_data(lines.drop_last()).push(data),
            None => lines_data(lines.drop_last()),
        }
    }
}

/// Cutting loses nothing: the lines with their ends and the open line are the text.
pub proof fn law_framing_loses_nothing(open: Seq<char>, text: Seq<char>)
    ensures
        unframed(framed(open, text).0) + framed(open, text).1 == open + text,
    decreases text.len(),
{
    if text.len() == 0 {
        assert(Seq::<char>::empty() + open =~= open + text);
    } else {
        law_framing_loses_nothing(open, text.drop_last());
        let (lines, rest) = framed(open, text.drop_last());
        assert(open + text =~= (open + text.drop_last()).push(text.last()));
        if text.last() == '\n' {
            assert(lines.push(rest).drop_last() =~= lines);
            assert(unframed(lines.push(rest)) + Seq::<char>::empty() =~= (unframed(lines)
                + rest).push('\n'));
        } else {
            assert(unframed(lines) + rest.push(text.last()) =~= (unframed(lines) + rest).push(
                text.last(),
            ));
        }
    }
}

/// No line holds the end of a line.
pub proof fn law_lines_are_lines(open: Seq<char>, text: Seq<char>)
    requires
        !open.contains('\n'),
    ensures
        forall|i: int|
            0 <= i < framed(open, text).0.len() ==> !(#[trigger] framed(open, text).0[i]).contains(
                '\n',
            ),
        !framed(open, text).1.contains('\n'),
    decreases text.len(),
{
    if text.len() > 0 {
        law_lines_are_lines(open, text.drop_last());
        let (lines, rest) = framed(open, text.drop_last());
        if text.last() == '\n' {
            assert(!Seq::<char>::empty().contains('\n'));
        } else {
            let longer = rest.push(text.last());
            if longer.contains('\n') {
                let i = longer.index_of('\n');
                assert(rest[i] == '\n');
            }
        }
    }
}

/// It does not matter how the text is cut into pieces: reading two in turn finds the lines
/// that reading them as one finds.
pub proof fn law_framing_in_pieces(open: Seq<char>, first: Seq<char>, second: Seq<char>)
    ensures
        framed(open, first + second) == (
            framed(open, first).0 + framed(framed(open, first).1, second).0,
            framed(framed(open, first).1, second).1,
        ),
    decreases second.len(),
{
    let (lines, rest) = framed(open, first);
    if second.len() == 0 {
        assert(first + second =~= first);
        assert(lines + Seq::<Seq<char>>::empty() =~= lines);
    } else {
        law_framing_in_pieces(open, first, second.drop_last());
        assert((first + second).drop_last() =~= first + second.drop_last());
        assert((first + second).last() == second.last());
        let (more, open_now) = framed(rest, second.drop_last());
        assert((lines + more).push(open_now) =~= lines + more.push(open_now));
    }
}

/// A piece of a streamed tool call. Pieces of one call share an index.
#[derive(Debug, PartialEq)]
pub struct ChunkToolCall {
    pub index: usize,
    pub id: Option<String>,
    pub name: Option<String>,
    pub arguments: Option<String>,
}

/// What a [`ChunkToolCall`] is.
#[verifier::ext_equal]
pub struct ChunkToolCallV {
    pub index: int,
    pub id: Option<Seq<char>>,
    pub name: Option<Seq<char>>,
    pub arguments: Option<Seq<char>>,
}

impl View for ChunkToolCall {
    type V = ChunkToolCallV;

    open spec fn view(&self) -> ChunkToolCallV {
        ChunkToolCallV {
            index: self.index as int,
            id: opt_view(self.id),
            name: opt_view(self.name),
            arguments: opt_view(self.arguments),
        }
    }
}

/// What one choice adds to the answer.
#[derive(Debug, PartialEq)]
pub struct ChunkChoice {
    pub content: Option<String>,
    pub reasoning_content: Option<String>,
    pub tool_calls: Option<Vec<ChunkToolCall>>,
    pub finish_reason: Option<String>,
}

/// What a [`ChunkChoice`] is.
#[verifier::ext_equal]
pub struct ChunkChoiceV {
    pub content: Option<Seq<char>>,
    pub reasoning_content: Option<Seq<char>>,
    pub tool_calls: Option<Seq<ChunkToolCallV>>,
    pub finish_reason: Option<Seq<char>>,
}

impl View for ChunkChoice {
    type V = ChunkChoiceV;

    open spec fn view(&self) -> ChunkChoiceV {
        ChunkChoiceV {
            content: opt_view(self.content),
            reasoning_content: opt_view(self.reasoning_content),
            tool_calls: match self.tool_calls {
                Some(calls) => Some(views(calls@)),
                None => None,
            },
            finish_reason: opt_view(self.finish_reason),
        }
    }
}

/// The tokens that the API counted.
#[derive(Debug, Clone, Copy, PartialEq, Eq)]
pub struct ChunkUsage {
    pub prompt_tokens: u64,
    pub completion_tokens: u64,
    pub prompt_cache_hit_tokens: Option<u64>,
}

/// What one event says.
#[derive(Debug, PartialEq)]
pub struct ChatChunk {
    pub choices: Vec<ChunkChoice>,
    pub usage: Option<ChunkUsage>,
}

/// What a [`ChatChunk`] is.
#[verifier::ext_equal]
pub struct ChatChunkV {
    pub choices: Seq<ChunkChoiceV>,
    pub usage: Option<ChunkUsage>,
}

impl View for ChatChunk {
    type V = ChatChunkV;

    open spec fn view(&self) -> ChatChunkV {
        ChatChunkV { choices: views(self.choices@), usage: self.usage }
    }
}

/// A tool call that is still being streamed.
#[derive(Debug, PartialEq)]
pub struct PartialToolCall {
    pub index: usize,
    pub id: String,
    pub name: String,
    pub arguments: String,
}

/// What a [`PartialToolCall`] is.
#[verifier::ext_equal]
pub struct PartialV {
    pub index: int,
    pub id: Seq<char>,
    pub name: Seq<char>,
    pub arguments: Seq<char>,
}

impl View for PartialToolCall {
    type V = PartialV;

    open spec fn view(&self) -> PartialV {
        PartialV {
            index: self.index as int,
            id: self.id@,
            name: self.name@,
            arguments: self.arguments@,
        }
    }
}

impl PartialV {
    /// A call of which nothing is known yet.
    pub open spec fn fresh(index: int) -> PartialV {
        PartialV { index, id: Seq::empty(), name: Seq::empty(), arguments: Seq::empty() }
    }

    /// The call once a piece of it has come: id and name replace, arguments go on.
    pub open spec fn extended(self, piece: ChunkToolCallV) -> PartialV {
        PartialV {
            index: self.index,
            id: match piece.id {
                Some(id) => id,
                None => self.id,
            },
            name: match piece.name {
                Some(name) => name,
                None => self.name,
            },
            arguments: match piece.arguments {
                Some(more) => self.arguments + more,
                None => self.arguments,
            },
        }
    }

    /// The call, once it is whole: arguments that are no JSON are `null`.
    pub open spec fn whole(self, parsed: Result<JsonV, Seq<char>>) -> ToolCallV {
        ToolCallV {
            id: self.id,
            name: self.name,
            arguments: match parsed {
                Ok(v) => v,
                Err(_) => JsonV::Null,
            },
        }
    }
}

/// The first place at or behind `from` that holds the call of the index, or the number of
/// calls.
pub open spec fn partial_place(partials: Seq<PartialV>, index: int, from: int) -> int
    decreases partials.len() - from,
{
    if from < 0 || from >= partials.len() {
        partials.len() as int
    } else if partials[from].index == index {
        from
    } else {
        partial_place(partials, index, from + 1)
    }
}

/// The calls once a piece of one has come.
pub open spec fn with_piece(partials: Seq<PartialV>, piece: ChunkToolCallV) -> Seq<PartialV> {
    let at = partial_place(partials, piece.index, 0);
    if 0 <= at < partials.len() {
        partials.update(at, partials[at].extended(piece))
    } else {
        partials.push(PartialV::fresh(piece.index).extended(piece))
    }
}

/// The calls once pieces have come, in order.
pub open spec fn with_pieces(partials: Seq<PartialV>, pieces: Seq<ChunkToolCallV>) -> Seq<
    PartialV,
>
    decreases pieces.len(),
{
    if pieces.len() == 0 {
        partials
    } else {
        with_piece(with_pieces(partials, pieces.drop_last()), pieces.last())
    }
}

/// The calls, once they are whole.
pub open spec fn whole_calls(partials: Seq<PartialV>) -> Seq<ToolCallV> {
    Seq::new(partials.len(), |i: int| partials[i].whole(json_read(partials[i].arguments)))
}

/// A streamed response of one block.
pub open spec fn streamed(block: BlockV, stop_reason: Option<Seq<char>>) -> StreamResponseV {
    StreamResponseV {
        message: MessageV { role: "assistant"@, content: seq![block] },
        usage: TokenUsage::none(),
        stop_reason,
    }
}

/// What a reader knows of the answer so far.
#[verifier::ext_equal]
pub struct AnswerV {
    pub partials: Seq<PartialV>,
    pub calls: Seq<ToolCallV>,
    pub text: Seq<char>,
    pub usage: Option<TokenUsage>,
}

/// Whether a text is there and says something.
pub open spec fn says(text: Option<Seq<char>>) -> bool {
    text is Some && text->0.len() > 0
}

impl AnswerV {
    /// Nothing yet.
    pub open spec fn empty() -> AnswerV {
        AnswerV { partials: Seq::empty(), calls: Seq::empty(), text: Seq::empty(), usage: None }
    }

    /// The tool calls are complete with this choice.
    pub open spec fn completes(choice: ChunkChoiceV) -> bool {
        choice.finish_reason == Some("tool_calls"@)
    }

    /// The calls being streamed once a choice has come.
    pub open spec fn extended(self, choice: ChunkChoiceV) -> Seq<PartialV> {
        match choice.tool_calls {
            Some(pieces) => with_pieces(self.partials, pieces),
            None => self.partials,
        }
    }

    /// What is known once a choice has come.
    pub open spec fn after_choice(self, choice: ChunkChoiceV) -> AnswerV {
        let partials = self.extended(choice);
        AnswerV {
            partials: if AnswerV::completes(choice) {
                Seq::empty()
            } else {
                partials
            },
            calls: if AnswerV::completes(choice) {
                self.calls + whole_calls(partials)
            } else {
                self.calls
            },
            text: if says(choice.content) {
                self.text + choice.content->0
            } else {
                self.text
            },
            usage: self.usage,
        }
    }

    /// What is streamed on because of a choice: its text, its reasoning, and the calls that it
    /// completes.
    pub open spec fn choice_responses(self, choice: ChunkChoiceV) -> Seq<StreamResponseV> {
        let calls = whole_calls(self.extended(choice));
        (if says(choice.content) {
            seq![streamed(BlockV::Text(choice.content->0), None)]
        } else {
            Seq::empty()
        }) + (if says(choice.reasoning_content) {
            seq![streamed(BlockV::Reasoning(choice.reasoning_content->0), None)]
        } else {
            Seq::empty()
        }) + (if AnswerV::completes(choice) {
            Seq::new(
                calls.len(),
                |i: int| streamed(BlockV::ToolCall(calls[i]), Some("tool_calls"@)),
            )
        } else {
            Seq::empty()
        })
    }

    /// What is known once choices have come, in order.
    pub open spec fn after_choices(self, choices: Seq<ChunkChoiceV>) -> AnswerV
        decreases choices.len(),
    {
        if choices.len() == 0 {
            self
        } else {
            self.after_choices(choices.drop_last()).after_choice(choices.last())
        }
    }

    /// What is streamed on because of choices, in order.
    pub open spec fn choices_responses(self, choices: Seq<ChunkChoiceV>) -> Seq<StreamResponseV>
        decreases choices.len(),
    {
        if choices.len() == 0 {
            Seq::empty()
        } else {
            self.choices_responses(choices.drop_last()) + self.after_choices(
                choices.drop_last(),
            ).choice_responses(choices.last())
        }
    }

    /// What is known once usage has been reported.
    pub open spec fn after_usage(self, usage: Option<ChunkUsage>) -> AnswerV {
        AnswerV {
            partials: self.partials,
            calls: self.calls,
            text: self.text,
            usage: match usage {
                Some(u) => Some(
                    TokenUsage {
                        input_tokens: u.prompt_tokens,
                        output_tokens: u.completion_tokens,
                        cache_read_tokens: u.prompt_cache_hit_tokens,
                        cache_write_tokens: None,
                    },
                ),
                None => self.usage,
            },
        }
    }

    /// What is known once an event has come.
    pub open spec fn after_chunk(self, chunk: ChatChunkV) -> AnswerV {
        self.after_usage(chunk.usage).after_choices(chunk.choices)
    }

    /// What is streamed on because of an event.
    pub open spec fn chunk_responses(self, chunk: ChatChunkV) -> Seq<StreamResponseV> {
        self.after_usage(chunk.usage).choices_responses(chunk.choices)
    }

    /// The blocks of the last response.
    pub open spec fn final_blocks(self) -> Seq<BlockV> {
        (if self.text.len() == 0 {
            Seq::empty()
        } else {
            seq![BlockV::Text(self.text)]
        }) + Seq::new(self.calls.len(), |i: int| BlockV::ToolCall(self.calls[i]))
    }

    /// The last response: the whole text, every call, and the usage.
    pub open spec fn done(self) -> StreamResponseV {
        StreamResponseV {
            message: MessageV { role: "assistant"@, content: self.final_blocks() },
            usage: match self.usage {
                Some(u) => u,
                None => TokenUsage::none(),
            },
            stop_reason: Some("stop"@),
        }
    }
}

/// The text of a list of responses.
pub open spec fn responses_text(responses: Seq<StreamResponseV>) -> Seq<char>
    decreases responses.len(),
{
    if responses.len() == 0 {
        Seq::empty()
    } else {
        responses_text(responses.drop_last()) + blocks_text(responses.last().message.content)
    }
}

/// The calls of a list of responses.
pub open spec fn responses_calls(responses: Seq<StreamResponseV>) -> Seq<ToolCallV>
    decreases responses.len(),
{
    if responses.len() == 0 {
        Seq::empty()
    } else {
        responses_calls(responses.drop_last()) + blocks_calls(responses.last().message.content)
    }
}

/// Responses that follow on each other say what each part says.
proof fn lemma_responses_split(a: Seq<StreamResponseV>, b: Seq<StreamResponseV>)
    ensures
        responses_text(a + b) == responses_text(a) + responses_text(b),
        responses_calls(a + b) == responses_calls(a) + responses_calls(b),
    decreases b.len(),
{
    if b.len() == 0 {
        assert(a + b =~= a);
        assert(responses_text(a) + Seq::<char>::empty() =~= responses_text(a));
        assert(responses_calls(a) + Seq::<ToolCallV>::empty() =~= responses_calls(a));
    } else {
        lemma_responses_split(a, b.drop_last());
        assert((a + b).drop_last() =~= a + b.drop_last());
        assert((a + b).last() == b.last());
        assert(responses_text(a + b) =~= responses_text(a) + responses_text(b));
        assert(responses_calls(a + b) =~= responses_calls(a) + responses_calls(b));
    }
}

/// A streamed block says the block.
proof fn lemma_streamed(block: BlockV, stop: Option<Seq<char>>)
    ensures
        responses_text(seq![streamed(block, stop)]) == (match block {
            BlockV::Text(t) => t,
            _ => Seq::empty(),
        }),
        responses_calls(seq![streamed(block, stop)]) == (match block {
            BlockV::ToolCall(c) => seq![c],
            _ => Seq::empty(),
        }),
{
    let one = seq![streamed(block, stop)];
    let content = streamed(block, stop).message.content;
    reveal_with_fuel(responses_text, 2);
    reveal_with_fuel(responses_calls, 2);
    reveal_with_fuel(blocks_text, 2);
    reveal_with_fuel(blocks_calls, 2);
    assert(one.drop_last() =~= Seq::<StreamResponseV>::empty());
    assert(one.last() == streamed(block, stop));
    assert(content.drop_last() =~= Seq::<BlockV>::empty());
    assert(content.last() == block);
    match block {
        BlockV::Text(t) => {
            assert(responses_text(one) =~= t);
        },
        BlockV::ToolCall(c) => {
            assert(responses_calls(one) =~= seq![c]);
        },
        _ => {},
    }
    assert(responses_text(one) =~= match block {
        BlockV::Text(t) => t,
        _ => Seq::empty(),
    });
    assert(responses_calls(one) =~= match block {
        BlockV::ToolCall(c) => seq![c],
        _ => Seq::empty(),
    });
}

/// Streamed tool calls say the calls, and no text.
proof fn lemma_streamed_calls(calls: Seq<ToolCallV>)
    ensures
        responses_text(
            Seq::new(
                calls.len(),
                |i: int| streamed(BlockV::ToolCall(calls[i]), Some("tool_calls"@)),
            ),
        ) == Seq::<char>::empty(),
        responses_calls(
            Seq::new(
                calls.len(),
                |i: int| streamed(BlockV::ToolCall(calls[i]), Some("tool_calls"@)),
            ),
        ) == calls,
    decreases calls.len(),
{
    let f = |i: int| streamed(BlockV::ToolCall(calls[i]), Some("tool_calls"@));
    let all = Seq::new(calls.len(), f);
    if calls.len() > 0 {
        let head = calls.drop_last();
        lemma_streamed_calls(head);
        let g = |i: int| streamed(BlockV::ToolCall(head[i]), Some("tool_calls"@));
        assert(all.drop_last() =~= Seq::new(head.len(), g));
        lemma_streamed(BlockV::ToolCall(calls.last()), Some("tool_calls"@));
        lemma_responses_split(
            all.drop_last(),
            seq![streamed(BlockV::ToolCall(calls.last()), Some("tool_calls"@))],
        );
        assert(all =~= all.drop_last() + seq![
            streamed(BlockV::ToolCall(calls.last()), Some("tool_calls"@)),
        ]);
        assert(responses_calls(all) =~= calls);
        assert(responses_text(all) =~= Seq::<char>::empty());
    } else {
        assert(responses_calls(all) =~= calls);
    }
}

/// Nothing that was streamed is missing from the last response, and nothing else is in it: a
/// choice adds to the text and the calls that are kept exactly what it streams.
pub proof fn law_last_response_is_what_was_streamed(answer: AnswerV, choices: Seq<ChunkChoiceV>)
    ensures
        answer.after_choices(choices).text == answer.text + responses_text(
            answer.choices_responses(choices),
        ),
        answer.after_choices(choices).calls == answer.calls + responses_calls(
            answer.choices_responses(choices),
        ),
    decreases choices.len(),
{
    if choices.len() == 0 {
        assert(answer.text + Seq::<char>::empty() =~= answer.text);
        assert(answer.calls + Seq::<ToolCallV>::empty() =~= answer.calls);
    } else {
        law_last_response_is_what_was_streamed(answer, choices.drop_last());
        let before = answer.after_choices(choices.drop_last());
        let choice = choices.last();
        let calls = whole_calls(before.extended(choice));
        let text_part = if says(choice.content) {
            seq![streamed(BlockV::Text(choice.content->0), None)]
        } else {
            Seq::empty()
        };
        let thought_part = if says(choice.reasoning_content) {
            seq![streamed(BlockV::Reasoning(choice.reasoning_content->0), None)]
        } else {
            Seq::empty()
        };
        let call_part = if AnswerV::completes(choice) {
            Seq::new(
                calls.len(),
                |i: int| streamed(BlockV::ToolCall(calls[i]), Some("tool_calls"@)),
            )
        } else {
            Seq::empty()
        };
        let streamed_now = before.choice_responses(choice);
        assert(streamed_now == text_part + thought_part + call_part);
        lemma_responses_split(text_part + thought_part, call_part);
        lemma_responses_split(text_part, thought_part);
        lemma_responses_split(answer.choices_responses(choices.drop_last()), streamed_now);
        if says(choice.content) {
            lemma_streamed(BlockV::Text(choice.content->0), None);
        }
        if says(choice.reasoning_content) {
            lemma_streamed(BlockV::Reasoning(choice.reasoning_content->0), None);
        }
        lemma_streamed_calls(calls);
        assert(answer.after_choices(choices).text =~= answer.text + responses_text(
            answer.choices_responses(choices),
        ));
        assert(answer.after_choices(choices).calls =~= answer.calls + responses_calls(
            answer.choices_responses(choices),
        ));
    }
}

/// What a [`SseReader`] is.
#[verifier::ext_equal]
pub struct SseV {
    /// The line that is not complete yet.
    pub open: Seq<char>,
    pub answer: AnswerV,
    /// Whether the answer is complete.
    pub ended: bool,
}

impl SseV {
    /// What is known once a line's data has come, given what it says. Behind `[DONE]` nothing
    /// counts, and data that says nothing is passed over.
    pub open spec fn after_data(self, data: Seq<char>, said: Option<ChatChunkV>) -> SseV {
        if self.ended {
            self
        } else if data == "[DONE]"@ {
            SseV { open: self.open, answer: self.answer, ended: true }
        } else {
            match said {
                Some(chunk) => SseV {
                    open: self.open,
                    answer: self.answer.after_chunk(chunk),
                    ended: false,
                },
                None => self,
            }
        }
    }

    /// What is streamed on because of a line's data, given what it says.
    pub open spec fn data_responses(self, data: Seq<char>, said: Option<ChatChunkV>) -> Seq<
        StreamResponseV,
    > {
        if self.ended {
            Seq::empty()
        } else if data == "[DONE]"@ {
            seq![self.answer.done()]
        } else {
            match said {
                Some(chunk) => self.answer.chunk_responses(chunk),
                None => Seq::empty(),
            }
        }
    }
}

/// Reads one streamed answer.
#[derive(Debug, PartialEq)]
pub struct SseReader {
    open: Vec<char>,
    partials: Vec<PartialToolCall>,
    calls: Vec<ToolCall>,
    text: String,
    usage: Option<TokenUsage>,
    ended: bool,
}

impl View for SseReader {
    type V = SseV;

    closed spec fn view(&self) -> SseV {
        SseV {
            open: self.open@,
            answer: AnswerV {
                partials: views(self.partials@),
                calls: views(self.calls@),
                text: self.text@,
                usage: self.usage,
            },
            ended: self.ended,
        }
    }
}

/// The data that a line carries.
fn data_of(line: &Vec<char>) -> (r: Option<String>)
    ensures
        opt_view(r) == line_data(line@),
{
    let whole = text_of(line, 0, line.len());
    assert(line@.subrange(0, line@.len() as int) =~= line@);
    let kept = trim_end(whole.as_str());
    match strip_prefix(kept.as_str(), "data: ") {
        Some(rest) => {
            proof {
                assert("data: "@.is_prefix_of(kept@)) by {
                    assert(kept@.subrange(0, "data: "@.len() as int) =~= "data: "@);
                }
                assert(kept@.skip("data: "@.len() as int) =~= rest@);
            }
            Some(trim(rest.as_str()))
        },
        None => None,
    }
}

/// A streamed response of one block.
fn stream_block(block: ContentBlock, stop_reason: Option<String>) -> (r: StreamResponse)
    ensures
        r@ == streamed(block@, opt_view(stop_reason)),
{
    StreamResponse {
        message: Message::of_block("assistant", block),
        usage: TokenUsage::zero(),
        stop_reason,
    }
}

/// Takes in a piece of a tool call.
fn absorb_piece(partials: &mut Vec<PartialToolCall>, piece: &ChunkToolCall)
    ensures
        views(final(partials)@) == with_piece(views(old(partials)@), piece@),
{
    let ghost before = views(partials@);
    let mut at: usize = 0;
    while at < partials.len() && partials[at].index != piece.index
        invariant
            at <= partials@.len(),
            before == views(partials@),
            partial_place(before, piece.index as int, 0) == partial_place(
                before,
                piece.index as int,
                at as int,
            ),
        decreases partials@.len() - at,
    {
        assert(before[at as int] == partials@[at as int]@);
        at += 1;
    }
    if at < partials.len() {
        assert(before[at as int] == partials@[at as int]@);
    }
    let known = at < partials.len();
    if !known {
        partials.push(
            PartialToolCall {
                index: piece.index,
                id: String::new(),
                name: String::new(),
                arguments: String::new(),
            },
        );
    }
    let ghost ready = views(partials@);
    assert(ready =~= if known {
        before
    } else {
        before.push(PartialV::fresh(piece.index as int))
    });
    let entry = &partials[at];
    let extended = PartialToolCall {
        index: entry.index,
        id: match &piece.id {
            Some(id) => id.clone(),
            None => entry.id.clone(),
        },
        name: match &piece.name {
            Some(name) => name.clone(),
            None => entry.name.clone(),
        },
        arguments: match &piece.arguments {
            Some(more) => crate::text::concat2(entry.arguments.as_str(), more.as_str()),
            None => entry.arguments.clone(),
        },
    };
    proof {
        assert(ready[at as int] == partials@[at as int]@);
        assert(extended@ == ready[at as int].extended(piece@));
    }
    partials[at] = extended;
    assert(views(partials@) =~= with_piece(before, piece@));
}

/// A tool call once it is whole, given what its arguments read as.
pub fn complete_call(partial: &PartialToolCall, parsed: Result<Json, String>) -> (r: ToolCall)
    ensures
        r@ == partial@.whole(
            match parsed {
                Ok(v) => Ok(v@),
                Err(e) => Err(e@),
            },
        ),
{
    ToolCall {
        id: partial.id.clone(),
        name: partial.name.clone(),
        arguments: match parsed {
            Ok(v) => v,
            Err(_) => Json::Null,
        },
    }
}

impl SseReader {
    /// A reader that has read nothing yet.
    pub fn new() -> (r: SseReader)
        ensures
            r@ == (SseV { open: Seq::empty(), answer: AnswerV::empty(), ended: false }),
    {
        let r = SseReader {
            open: Vec::new(),
            partials: Vec::new(),
            calls: Vec::new(),
            text: String::new(),
            usage: None,
            ended: false,
        };
        assert(r@.answer.partials =~= Seq::empty());
        assert(r@.answer.calls =~= Seq::empty());
        r
    }

    /// Whether the answer is complete.
    pub fn ended(&self) -> (r: bool)
        ensures
            r == self@.ended,
    {
        self.ended
    }

    /// Takes in bytes of the answer. Returns the data of the lines that they complete.
    pub fn feed(&mut self, bytes: &[u8]) -> (r: Vec<String>)
        ensures
            views(r@) == lines_data(framed(old(self)@.open, utf8_lossy(bytes@)).0),
            valid_utf8(bytes@) ==> views(r@) == lines_data(
                framed(old(self)@.open, decode_utf8(bytes@)).0,
            ),
            valid_utf8(bytes@) ==> final(self)@.open == framed(
                old(self)@.open,
                decode_utf8(bytes@),
            ).1,
            final(self)@ == (SseV {
                open: framed(old(self)@.open, utf8_lossy(bytes@)).1,
                answer: old(self)@.answer,
                ended: old(self)@.ended,
            }),
    {
        let text = lossy_text(bytes);
        self.read(text.as_str())
    }

    /// Takes in text of the answer. Returns the data of the lines that it completes.
    pub fn read(&mut self, text: &str) -> (r: Vec<String>)
        ensures
            views(r@) == lines_data(framed(old(self)@.open, text@).0),
            final(self)@ == (SseV {
                open: framed(old(self)@.open, text@).1,
                answer: old(self)@.answer,
                ended: old(self)@.ended,
            }),
    {
        let chars = chars_of(text);
        let ghost before = self@;
        let ghost all = chars@;
        let mut out: Vec<String> = Vec::new();
        let mut i: usize = 0;
        assert(views(out@) =~= Seq::<Seq<char>>::empty());
        while i < chars.len()
            invariant
                i <= chars@.len(),
                all == chars@,
                all == text@,
                self@.answer == before.answer,
                self@.ended == before.ended,
                self@.open == framed(before.open, all.take(i as int)).1,
                views(out@) == lines_data(framed(before.open, all.take(i as int)).0),
            decreases chars@.len() - i,
        {
            let c: char = chars[i];
            let ghost (lines, rest) = framed(before.open, all.take(i as int));
            proof {
                assert(all.take(i + 1).drop_last() =~= all.take(i as int));
                assert(all.take(i + 1).last() == c);
            }
            if c == '\n' {
                proof {
                    assert(lines.push(rest).drop_last() =~= lines);
                    assert(lines.push(rest).last() == rest);
                }
                match data_of(&self.open) {
                    Some(data) => {
                        let ghost so_far = views(out@);
                        let ghost shown = data@;
                        out.push(data);
                        assert(views(out@) =~= so_far.push(shown));
                    },
                    None => {},
                }
                self.open = Vec::new();
            } else {
                self.open.push(c);
            }
            i += 1;
        }
        assert(all.take(all.len() as int) =~= all);
        out
    }

    /// Completes the calls that are being streamed.
    fn flush(&mut self, out: &mut Vec<StreamResponse>)
        ensures
            final(self)@.open == old(self)@.open,
            final(self)@.ended == old(self)@.ended,
            final(self)@.answer == (AnswerV {
                partials: Seq::empty(),
                calls: old(self)@.answer.calls + whole_calls(old(self)@.answer.partials),
                text: old(self)@.answer.text,
                usage: old(self)@.answer.usage,
            }),
            views(final(out)@) == views(old(out)@) + Seq::new(
                whole_calls(old(self)@.answer.partials).len(),
                |i: int|
                    streamed(
                        BlockV::ToolCall(whole_calls(old(self)@.answer.partials)[i]),
                        Some("tool_calls"@),
                    ),
            ),
    {
        let ghost before = self@.answer;
        let ghost whole = whole_calls(before.partials);
        let ghost sent = views(out@);
        let ghost open = self@.open;
        let ghost responses = Seq::new(
            whole.len(),
            |i: int| streamed(BlockV::ToolCall(whole[i]), Some("tool_calls"@)),
        );
        let mut i: usize = 0;
        assert(before.calls + whole.take(0) =~= before.calls);
        assert(sent + responses.take(0) =~= sent);
        while i < self.partials.len()
            invariant
                i <= self.partials@.len(),
                before.partials == views(self.partials@),
                whole == whole_calls(before.partials),
                responses == Seq::new(
                    whole.len(),
                    |i: int| streamed(BlockV::ToolCall(whole[i]), Some("tool_calls"@)),
                ),
                self@.open == open,
                self@.ended == old(self)@.ended,
                self@.answer.text == before.text,
                self@.answer.usage == before.usage,
                self@.answer.calls == before.calls + whole.take(i as int),
                views(out@) == sent + responses.take(i as int),
            decreases self.partials@.len() - i,
        {
            let partial = &self.partials[i];
            let parsed = read_json(partial.arguments.as_str());
            let call = complete_call(partial, parsed);
            proof {
                assert(before.partials[i as int] == partial@);
                assert(call@ == whole[i as int]);
                assert(whole.take(i + 1) =~= whole.take(i as int).push(call@));
                assert(responses.take(i + 1) =~= responses.take(i as int).push(
                    responses[i as int],
                ));
            }
            let response = stream_block(
                ContentBlock::ToolCall(call.clone()),
                Some("tool_calls".to_owned()),
            );
            let ghost shown = response@;
            let ghost sent_so_far = views(out@);
            let ghost calls_so_far = views(self.calls@);
            let ghost shown_call = call@;
            assert(shown == responses[i as int]);
            out.push(response);
            self.calls.push(call);
            proof {
                assert(views(out@) =~= sent_so_far.push(shown));
                assert(views(self.calls@) =~= calls_so_far.push(shown_call));
                assert(sent_so_far.push(shown) =~= sent + responses.take(i + 1));
                assert(calls_so_far.push(shown_call) =~= before.calls + whole.take(i + 1));
            }
            i += 1;
        }
        self.partials = Vec::new();
        proof {
            assert(whole.take(whole.len() as int) =~= whole);
            assert(responses.take(responses.len() as int) =~= responses);
            assert(self@.answer.partials =~= Seq::empty());
        }
    }

    /// Takes in a choice.
    fn absorb_choice(&mut self, choice: &ChunkChoice, out: &mut Vec<StreamResponse>)
        ensures
            final(self)@ == (SseV {
                open: old(self)@.open,
                answer: old(self)@.answer.after_choice(choice@),
                ended: old(self)@.ended,
            }),
            views(final(out)@) == views(old(out)@) + old(self)@.answer.choice_responses(choice@),
    {
        let ghost before = self@.answer;
        let ghost sent = views(out@);
        match &choice.content {
            Some(content) => {
                if !content.as_str().is_empty() {
                    self.text.append(content.as_str());
                    let response = stream_block(
                        ContentBlock::Text(TextContent { content: content.clone() }),
                        None,
                    );
                    let ghost shown = response@;
                    out.push(response);
                    assert(views(out@) =~= sent.push(shown));
                }
            },
            None => {},
        }
        let ghost text_part = if says(choice@.content) {
            seq![streamed(BlockV::Text(choice@.content->0), None)]
        } else {
            Seq::empty()
        };
        assert(views(out@) =~= sent + text_part);
        match &choice.reasoning_content {
            Some(reasoning) => {
                if !reasoning.as_str().is_empty() {
                    let response = stream_block(
                        ContentBlock::Reasoning(TextContent { content: reasoning.clone() }),
                        None,
                    );
                    let ghost shown = response@;
                    let ghost so_far = views(out@);
                    out.push(response);
                    assert(views(out@) =~= so_far.push(shown));
                }
            },
            None => {},
        }
        let ghost thought_part = if says(choice@.reasoning_content) {
            seq![streamed(BlockV::Reasoning(choice@.reasoning_content->0), None)]
        } else {
            Seq::empty()
        };
        assert(views(out@) =~= sent + text_part + thought_part);
        match &choice.tool_calls {
            Some(pieces) => {
                let ghost all = views(pieces@);
                let ghost parts = self@.answer.partials;
                let ghost held = self@;
                let mut i: usize = 0;
                assert(all.take(0) =~= Seq::empty());
                while i < pieces.len()
                    invariant
                        i <= pieces@.len(),
                        all == views(pieces@),
                        self@.open == held.open,
                        self@.ended == held.ended,
                        self@.answer.text == held.answer.text,
                        self@.answer.usage == held.answer.usage,
                        self@.answer.calls == held.answer.calls,
                        self@.answer.partials == with_pieces(parts, all.take(i as int)),
                    decreases pieces@.len() - i,
                {
                    proof {
                        assert(all.take(i + 1).drop_last() =~= all.take(i as int));
                        assert(all.take(i + 1).last() == pieces@[i as int]@);
                    }
                    absorb_piece(&mut self.partials, &pieces[i]);
                    i += 1;
                }
                assert(all.take(all.len() as int) =~= all);
            },
            None => {},
        }
        let completes = match &choice.finish_reason {
            Some(reason) => same(reason.as_str(), "tool_calls"),
            None => false,
        };
        let ghost ready = views(out@);
        if completes {
            self.flush(out);
        } else {
            assert(ready + Seq::<StreamResponseV>::empty() =~= ready);
        }
        proof {
            assert(views(out@) =~= sent + before.choice_responses(choice@));
        }
    }

    /// Takes in what an event says. Returns what is to be streamed on.
    pub fn absorb(&mut self, chunk: &ChatChunk) -> (r: Vec<StreamResponse>)
        ensures
            final(self)@ == (SseV {
                open: old(self)@.open,
                answer: old(self)@.answer.after_chunk(chunk@),
                ended: old(self)@.ended,
            }),
            views(r@) == old(self)@.answer.chunk_responses(chunk@),
    {
        match &chunk.usage {
            Some(usage) => {
                self.usage = Some(
                    TokenUsage {
                        input_tokens: usage.prompt_tokens,
                        output_tokens: usage.completion_tokens,
                        cache_read_tokens: usage.prompt_cache_hit_tokens,
                        cache_write_tokens: None,
                    },
                );
            },
            None => {},
        }
        let ghost start = self@;
        assert(start.answer == old(self)@.answer.after_usage(chunk@.usage));
        let ghost all = chunk@.choices;
        let mut out: Vec<StreamResponse> = Vec::new();
        let mut i: usize = 0;
        assert(all.take(0) =~= Seq::empty());
        assert(views(out@) =~= Seq::empty());
        while i < chunk.choices.len()
            invariant
                i <= chunk.choices@.len(),
                all == views(chunk.choices@),
                self@.open == start.open,
                self@.ended == start.ended,
                self@.answer == start.answer.after_choices(all.take(i as int)),
                views(out@) == start.answer.choices_responses(all.take(i as int)),
            decreases chunk.choices@.len() - i,
        {
            proof {
                assert(all.take(i + 1).drop_last() =~= all.take(i as int));
                assert(all.take(i + 1).last() == chunk.choices@[i as int]@);
            }
            self.absorb_choice(&chunk.choices[i], &mut out);
            i += 1;
        }
        assert(all.take(all.len() as int) =~= all);
        out
    }

    /// The last response: the whole text, every call, and the usage.
    fn done(&self) -> (r: StreamResponse)
        ensures
            r@ == self@.answer.done(),
    {
        let ghost answer = self@.answer;
        let mut content: Vec<ContentBlock> = Vec::new();
        if !self.text.as_str().is_empty() {
            content.push(ContentBlock::Text(TextContent { content: self.text.clone() }));
        }
        let ghost head = views(content@);
        assert(head =~= if answer.text.len() == 0 {
            Seq::empty()
        } else {
            seq![BlockV::Text(answer.text)]
        });
        let ghost blocks = Seq::new(answer.calls.len(), |i: int| BlockV::ToolCall(answer.calls[i]));
        let mut i: usize = 0;
        assert(head + blocks.take(0) =~= head);
        while i < self.calls.len()
            invariant
                i <= self.calls@.len(),
                answer == self@.answer,
                blocks == Seq::new(
                    answer.calls.len(),
                    |i: int| BlockV::ToolCall(answer.calls[i]),
                ),
                views(content@) == head + blocks.take(i as int),
            decreases self.calls@.len() - i,
        {
            let ghost so_far = views(content@);
            content.push(ContentBlock::ToolCall(self.calls[i].clone()));
            proof {
                assert(answer.calls[i as int] == self.calls@[i as int]@);
                assert(views(content@) =~= so_far.push(blocks[i as int]));
                assert(so_far.push(blocks[i as int]) =~= head + blocks.take(i + 1));
            }
            i += 1;
        }
        proof {
            assert(blocks.take(blocks.len() as int) =~= blocks);
            assert(views(content@) =~= answer.final_blocks());
        }
        StreamResponse {
            message: Message { role: "assistant".to_owned(), content },
            usage: match self.usage {
                Some(u) => u,
                None => TokenUsage::zero(),
            },
            stop_reason: Some("stop".to_owned()),
        }
    }

    /// Takes in a line's data, with what it says where it says something. Returns what is to
    /// be streamed on.
    pub fn on_data(&mut self, data: &str, said: Option<ChatChunk>) -> (r: Vec<StreamResponse>)
        ensures
            final(self)@ == old(self)@.after_data(data@, opt_view(said)),
            views(r@) == old(self)@.data_responses(data@, opt_view(said)),
    {
        let mut out: Vec<StreamResponse> = Vec::new();
        assert(views(out@) =~= Seq::empty());
        if self.ended {
            return out;
        }
        if same(data, "[DONE]") {
            out.push(self.done());
            self.ended = true;
            assert(views(out@) =~= seq![old(self)@.answer.done()]);
            return out;
        }
        match said {
            Some(chunk) => self.absorb(&chunk),
            None => out,
        }
    }

    /// The bytes have come to an end. Returns the last response, unless it was streamed.
    pub fn finish(&mut self) -> (r: Option<StreamResponse>)
        ensures
            final(self)@ == (SseV {
                open: old(self)@.open,
                answer: old(self)@.answer,
                ended: true,
            }),
            opt_view(r) == (if old(self)@.ended {
                None
            } else {
                Some(old(self)@.answer.done())
            }),
    {
        if self.ended {
            None
        } else {
            self.ended = true;
            Some(self.done())
        }
    }
}

/// The last response comes once: behind it nothing is streamed on.
pub proof fn law_nothing_behind_the_last_response(
    reader: SseV,
    data: Seq<char>,
    said: Option<ChatChunkV>,
)
    requires
        reader.ended,
    ensures
        reader.data_responses(data, said) == Seq::<StreamResponseV>::empty(),
        reader.after_data(data, said) == reader,
{
}

/// The argument pieces that came under an index, one after the other.
pub open spec fn own_arguments(pieces: Seq<ChunkToolCallV>, index: int) -> Seq<char>
    decreases pieces.len(),
{
    if pieces.len() == 0 {
        Seq::empty()
    } else if pieces.last().index == index && pieces.last().arguments is Some {
        own_arguments(pieces.drop_last(), index) + pieces.last().arguments->0
    } else {
        own_arguments(pieces.drop_last(), index)
    }
}

/// The last id that came under an index.
pub open spec fn own_id(pieces: Seq<ChunkToolCallV>, index: int) -> Seq<char>
    decreases pieces.len(),
{
    if pieces.len() == 0 {
        Seq::empty()
    } else if pieces.last().index == index && pieces.last().id is Some {
        pieces.last().id->0
    } else {
        own_id(pieces.drop_last(), index)
    }
}

/// The last name that came under an index.
pub open spec fn own_name(pieces: Seq<ChunkToolCallV>, index: int) -> Seq<char>
    decreases pieces.len(),
{
    if pieces.len() == 0 {
        Seq::empty()
    } else if pieces.last().index == index && pieces.last().name is Some {
        pieces.last().name->0
    } else {
        own_name(pieces.drop_last(), index)
    }
}

/// Whether a piece of the index came.
pub open spec fn came(pieces: Seq<ChunkToolCallV>, index: int) -> bool {
    exists|j: int| 0 <= j < pieces.len() && (#[trigger] pieces[j]).index == index
}

/// The place found is the first one of the index.
proof fn lemma_partial_place(partials: Seq<PartialV>, index: int, from: int)
    requires
        0 <= from <= partials.len(),
    ensures
        from <= partial_place(partials, index, from) <= partials.len(),
        partial_place(partials, index, from) < partials.len() ==> partials[partial_place(
            partials,
            index,
            from,
        )].index == index,
        forall|j: int|
            from <= j < partial_place(partials, index, from) ==> (#[trigger] partials[j]).index
                != index,
    decreases partials.len() - from,
{
    if from < partials.len() && partials[from].index != index {
        lemma_partial_place(partials, index, from + 1);
    }
}

/// Each call is put together from its own pieces: its arguments are the argument pieces that
/// came under its index, one after the other, and its id and its name are the last that came
/// under it, whatever other calls are being streamed. There is one call for each index that
/// came.
pub proof fn law_calls_collect_their_own_pieces(pieces: Seq<ChunkToolCallV>)
    ensures
        ({
            let calls = with_pieces(Seq::empty(), pieces);
            &&& forall|i: int, j: int|
                0 <= i < j < calls.len() ==> (#[trigger] calls[i]).index != (
                #[trigger] calls[j]).index
            &&& forall|i: int|
                0 <= i < calls.len() ==> {
                    &&& came(pieces, (#[trigger] calls[i]).index)
                    &&& calls[i].arguments == own_arguments(pieces, calls[i].index)
                    &&& calls[i].id == own_id(pieces, calls[i].index)
                    &&& calls[i].name == own_name(pieces, calls[i].index)
                }
            &&& forall|j: int|
                0 <= j < pieces.len() ==> exists|i: int|
                    0 <= i < calls.len() && calls[i].index == (#[trigger] pieces[j]).index
        }),
    decreases pieces.len(),
{
    if pieces.len() > 0 {
        let head = pieces.drop_last();
        let piece = pieces.last();
        law_calls_collect_their_own_pieces(head);
        let before = with_pieces(Seq::empty(), head);
        let calls = with_pieces(Seq::empty(), pieces);
        let at = partial_place(before, piece.index, 0);
        lemma_partial_place(before, piece.index, 0);
        if at >= before.len() {
            assert forall|j: int| 0 <= j < head.len() implies (#[trigger] head[j]).index
                != piece.index by {
                let i = choose|i: int| 0 <= i < before.len() && before[i].index == head[j].index;
                assert(before[i].index != piece.index);
            }
            lemma_nothing_of_its_own(head, piece.index);
        }
        assert forall|i: int| 0 <= i < calls.len() implies {
            &&& came(pieces, (#[trigger] calls[i]).index)
            &&& calls[i].arguments == own_arguments(pieces, calls[i].index)
            &&& calls[i].id == own_id(pieces, calls[i].index)
            &&& calls[i].name == own_name(pieces, calls[i].index)
        } by {
            if i == at {
                assert(pieces[pieces.len() - 1] == piece);
                if at < before.len() {
                    assert(before[at].arguments == own_arguments(head, piece.index));
                } else {
                    assert(calls[i] == PartialV::fresh(piece.index).extended(piece));
                    if piece.arguments is Some {
                        assert(Seq::<char>::empty() + piece.arguments->0 =~= piece.arguments->0);
                        assert(own_arguments(head, piece.index) + piece.arguments->0
                            =~= piece.arguments->0);
                    }
                }
            } else {
                assert(calls[i] == before[i]);
                let j = choose|j: int|
                    0 <= j < head.len() && (#[trigger] head[j]).index == before[i].index;
                assert(pieces[j] == head[j]);
                assert(before[i].index != piece.index);
            }
        }
        assert forall|j: int| 0 <= j < pieces.len() implies exists|i: int|
            0 <= i < calls.len() && calls[i].index == (#[trigger] pieces[j]).index by {
            if j < head.len() {
                assert(pieces[j] == head[j]);
                let i = choose|i: int| 0 <= i < before.len() && before[i].index == head[j].index;
                assert(calls[i].index == before[i].index);
            } else {
                assert(calls[at].index == piece.index);
            }
        }
        assert forall|i: int, j: int| 0 <= i < j < calls.len() implies (
        #[trigger] calls[i]).index != (#[trigger] calls[j]).index by {
            if j < before.len() {
                assert(before[i].index != before[j].index);
            } else {
                assert(before[i].index != piece.index);
            }
        }
    }
}

/// Where no piece of an index came, nothing was collected for it.
proof fn lemma_nothing_of_its_own(pieces: Seq<ChunkToolCallV>, index: int)
    ensures
        (forall|j: int| 0 <= j < pieces.len() ==> (#[trigger] pieces[j]).index != index) ==> {
            &&& own_arguments(pieces, index).len() == 0
            &&& own_id(pieces, index).len() == 0
            &&& own_name(pieces, index).len() == 0
        },
    decreases pieces.len(),
{
    if pieces.len() > 0 && (forall|j: int|
        0 <= j < pieces.len() ==> (#[trigger] pieces[j]).index != index) {
        assert forall|j: int| 0 <= j < pieces.drop_last().len() implies (
        #[trigger] pieces.drop_last()[j]).index != index by {
            assert(pieces[j].index != index);
        }
        lemma_nothing_of_its_own(pieces.drop_last(), index);
        assert(pieces[pieces.len() - 1].index != index);
    }
}

/// It does not matter how the pieces of calls are cut into events: taking in two lots in turn
/// gives what taking them in as one gives.
pub proof fn law_pieces_in_two_lots(
    partials: Seq<PartialV>,
    first: Seq<ChunkToolCallV>,
    second: Seq<ChunkToolCallV>,
)
    ensures
        with_pieces(with_pieces(partials, first), second) == with_pieces(partials, first + second),
    decreases second.len(),
{
    if second.len() == 0 {
        assert(first + second =~= first);
    } else {
        law_pieces_in_two_lots(partials, first, second.drop_last());
        assert((first + second).drop_last() =~= first + second.drop_last());
        assert((first + second).last() == second.last());
    }
}

/// Calls are streamed once they are complete, each one as what was collected for it: its id, its
/// name, and what its own arguments read as, or null where they are no JSON. Until then they are
/// kept back.
pub proof fn law_complete_calls_are_streamed(answer: AnswerV, choice: ChunkChoiceV)
    ensures
        ({
            let collected = answer.extended(choice);
            let after = answer.after_choice(choice);
            let streamed_calls = responses_calls(answer.choice_responses(choice));
            if choice.finish_reason == Some("tool_calls"@) {
                &&& streamed_calls.len() == collected.len()
                &&& forall|i: int|
                    0 <= i < collected.len() ==> {
                        &&& (#[trigger] streamed_calls[i]).id == collected[i].id
                        &&& streamed_calls[i].name == collected[i].name
                        &&& json_read(collected[i].arguments) matches Ok(v)
                            ==> streamed_calls[i].arguments == v
                        &&& json_read(collected[i].arguments) is Err
                            ==> streamed_calls[i].arguments is Null
                    }
                &&& after.partials.len() == 0
                &&& after.calls == answer.calls + streamed_calls
            } else {
                &&& streamed_calls.len() == 0
                &&& after.partials == collected
                &&& after.calls == answer.calls
            }
        }),
{
    let calls = whole_calls(answer.extended(choice));
    lemma_choice_says(answer, choice);
    if !AnswerV::completes(choice) {
        assert(answer.calls + Seq::<ToolCallV>::empty() =~= answer.calls);
    }
}

/// What the responses to a choice say is what the choice says.
proof fn lemma_choice_says(answer: AnswerV, choice: ChunkChoiceV)
    ensures
        responses_text(answer.choice_responses(choice)) == (if says(choice.content) {
            choice.content->0
        } else {
            Seq::empty()
        }),
        responses_calls(answer.choice_responses(choice)) == (if AnswerV::completes(choice) {
            whole_calls(answer.extended(choice))
        } else {
            Seq::empty()
        }),
{
    law_last_response_is_what_was_streamed(answer, seq![choice]);
    reveal_with_fuel(AnswerV::after_choices, 2);
    reveal_with_fuel(AnswerV::choices_responses, 2);
    assert(seq![choice].drop_last() =~= Seq::empty());
    assert(seq![choice].last() == choice);
    let now = answer.choice_responses(choice);
    assert(answer.choices_responses(seq![choice]) =~= now);
    let text = if says(choice.content) {
        choice.content->0
    } else {
        Seq::empty()
    };
    let calls = if AnswerV::completes(choice) {
        whole_calls(answer.extended(choice))
    } else {
        Seq::empty()
    };
    assert(answer.text + text =~= answer.after_choice(choice).text);
    assert(answer.calls + calls =~= answer.after_choice(choice).calls);
    assert((answer.text + text).skip(answer.text.len() as int) =~= text);
    assert((answer.text + responses_text(now)).skip(answer.text.len() as int)
        =~= responses_text(now));
    assert((answer.calls + calls).skip(answer.calls.len() as int) =~= calls);
    assert((answer.calls + responses_calls(now)).skip(answer.calls.len() as int)
        =~= responses_calls(now));
}

/// Text and reasoning are streamed as they come, each in a response of its own, text first:
/// neither loses anything, and neither is taken for the other.
pub proof fn law_text_and_reasoning_are_streamed(answer: AnswerV, choice: ChunkChoiceV)
    requires
        choice.finish_reason != Some("tool_calls"@),
    ensures
        ({
            let now = answer.choice_responses(choice);
            let texts: int = if choice.content matches Some(t) && t.len() > 0 {
                1
            } else {
                0
            };
            let thoughts: int = if choice.reasoning_content matches Some(t) && t.len() > 0 {
                1
            } else {
                0
            };
            &&& now.len() == texts + thoughts
            &&& texts == 1 ==> now[0].message.content == seq![BlockV::Text(choice.content->0)]
            &&& thoughts == 1 ==> now[texts].message.content == seq![
                BlockV::Reasoning(choice.reasoning_content->0),
            ]
            &&& forall|i: int|
                0 <= i < now.len() ==> {
                    &&& (#[trigger] now[i]).message.role == "assistant"@
                    &&& now[i].stop_reason is None
                    &&& now[i].usage.input_tokens == 0
                    &&& now[i].usage.output_tokens == 0
                }
            &&& answer.after_choice(choice).text == (if texts == 1 {
                answer.text + choice.content->0
            } else {
                answer.text
            })
        }),
{
}

/// The last response says all that was kept: the whole text, every call in order, and the usage
/// that was reported last, and it is the one that stops.
pub proof fn law_the_last_response_says_it_all(answer: AnswerV)
    ensures
        ({
            let last = answer.done();
            &&& blocks_text(last.message.content) == answer.text
            &&& blocks_calls(last.message.content) == answer.calls
            &&& last.message.role == "assistant"@
            &&& last.stop_reason == Some("stop"@)
            &&& answer.usage matches Some(u) ==> last.usage == u
            &&& answer.usage is None ==> last.usage.input_tokens == 0 && last.usage.output_tokens
                == 0 && last.usage.cache_read_tokens is None
        }),
{
    let calls = answer.calls;
    let made = Seq::new(calls.len(), |i: int| BlockV::ToolCall(calls[i]));
    let text = if answer.text.len() == 0 {
        Seq::empty()
    } else {
        seq![BlockV::Text(answer.text)]
    };
    lemma_call_blocks(text, calls);
    reveal_with_fuel(blocks_text, 2);
    reveal_with_fuel(blocks_calls, 2);
    if answer.text.len() > 0 {
        assert(text.drop_last() =~= Seq::empty());
        assert(text.last() == BlockV::Text(answer.text));
    }
    assert(blocks_text(text) =~= answer.text);
    assert(blocks_calls(text) + calls =~= calls);
}

/// Blocks of calls behind other blocks add the calls and no text.
proof fn lemma_call_blocks(blocks: Seq<BlockV>, calls: Seq<ToolCallV>)
    ensures
        blocks_text(blocks + Seq::new(calls.len(), |i: int| BlockV::ToolCall(calls[i])))
            == blocks_text(blocks),
        blocks_calls(blocks + Seq::new(calls.len(), |i: int| BlockV::ToolCall(calls[i])))
            == blocks_calls(blocks) + calls,
    decreases calls.len(),
{
    let made = Seq::new(calls.len(), |i: int| BlockV::ToolCall(calls[i]));
    if calls.len() == 0 {
        assert(blocks + made =~= blocks);
        assert(blocks_calls(blocks) + calls =~= blocks_calls(blocks));
    } else {
        let head = calls.drop_last();
        let fewer = Seq::new(head.len(), |i: int| BlockV::ToolCall(head[i]));
        lemma_call_blocks(blocks, head);
        assert((blocks + made).drop_last() =~= blocks + fewer);
        assert((blocks + made).last() == BlockV::ToolCall(calls.last()));
        assert(blocks_text(blocks + fewer) + Seq::<char>::empty() =~= blocks_text(
            blocks + fewer,
        ));
        assert((blocks_calls(blocks) + head).push(calls.last()) =~= blocks_calls(blocks) + calls);
    }
}

/// The usage that an event reports is the one that is kept; an event without one changes
/// nothing of it, and neither does what is said.
pub proof fn law_usage_is_kept(answer: AnswerV, chunk: ChatChunkV)
    ensures
        chunk.usage matches Some(u) ==> {
            &&& answer.after_chunk(chunk).usage matches Some(kept)
            &&& kept.input_tokens == u.prompt_tokens
            &&& kept.output_tokens == u.completion_tokens
            &&& kept.cache_read_tokens == u.prompt_cache_hit_tokens
            &&& kept.cache_write_tokens is None
        },
        chunk.usage is None ==> answer.after_chunk(chunk).usage == answer.usage,
{
    lemma_choices_keep_usage(answer.after_usage(chunk.usage), chunk.choices);
}

/// Choices do not touch the usage.
proof fn lemma_choices_keep_usage(answer: AnswerV, choices: Seq<ChunkChoiceV>)
    ensures
        answer.after_choices(choices).usage == answer.usage,
    decreases choices.len(),
{
    if choices.len() > 0 {
        lemma_choices_keep_usage(answer, choices.drop_last());
    }
}

/// Choices are taken in one by one, in order.
pub proof fn law_choices_one_by_one(
    answer: AnswerV,
    choices: Seq<ChunkChoiceV>,
    choice: ChunkChoiceV,
)
    ensures
        answer.after_choices(Seq::empty()) == answer,
        answer.choices_responses(Seq::empty()).len() == 0,
        answer.after_choices(choices.push(choice)) == answer.after_choices(choices).after_choice(
            choice,
        ),
        answer.choices_responses(choices.push(choice)) == answer.choices_responses(choices)
            + answer.after_choices(choices).choice_responses(choice),
{
    assert(choices.push(choice).drop_last() =~= choices);
}

/// An event is what its usage and its choices are. `[DONE]` ends the answer with the last
/// response, and data that says nothing changes nothing.
pub proof fn law_events_are_taken_in(reader: SseV, data: Seq<char>, chunk: ChatChunkV)
    requires
        !reader.ended,
    ensures
        ({
            let said = reader.after_data(data, Some(chunk));
            let unsaid = reader.after_data(data, None);
            if data == "[DONE]"@ {
                &&& said.ended && unsaid.ended
                &&& said.answer == reader.answer && unsaid.answer == reader.answer
                &&& reader.data_responses(data, Some(chunk)) == seq![reader.answer.done()]
                &&& reader.data_responses(data, None) == seq![reader.answer.done()]
            } else {
                &&& !said.ended && unsaid == reader
                &&& said.answer.text == reader.answer.text + responses_text(
                    reader.data_responses(data, Some(chunk)),
                )
                &&& said.answer.calls == reader.answer.calls + responses_calls(
                    reader.data_responses(data, Some(chunk)),
                )
                &&& said.answer == reader.answer.after_chunk(chunk)
                &&& reader.data_responses(data, None).len() == 0
                &&& said.open == reader.open
            }
        }),
{
    law_last_response_is_what_was_streamed(
        reader.answer.after_usage(chunk.usage),
        chunk.choices,
    );
}

/// The data of a line is what stands behind `data: `, without the white space around it; a line
/// that does not start so carries none.
pub proof fn law_data_stands_behind_its_name(data: Seq<char>, line: Seq<char>)
    requires
        data.len() > 0,
        !is_space(data[0]),
        !is_space(data.last()),
    ensures
        line_data("data: "@ + data) == Some(data),
        line.len() < 6 || line.take(6) != "data: "@ ==> line_data(line) is None,
{
    reveal_strlit("data: ");
    let whole = "data: "@ + data;
    assert(whole.last() == data.last());
    assert(trimmed_end(whole) == whole);
    assert("data: "@ =~= whole.take(6));
    assert("data: "@.is_prefix_of(whole));
    assert(whole.skip(6) =~= data);
    assert(trimmed_end(data) == data);
    assert(trimmed_start(data) == data);
    law_trimming_the_end(line);
    let kept = trimmed_end(line);
    if "data: "@.is_prefix_of(kept) {
        assert(kept.take(6) =~= "data: "@);
        assert(line.take(6) =~= kept.take(6));
    }
}

/// The data of lines is read line by line, in order.
pub proof fn law_lines_are_read_in_order(lines: Seq<Seq<char>>, line: Seq<char>)
    ensures
        lines_data(Seq::empty()).len() == 0,
        line_data(line) matches Some(data) ==> lines_data(lines.push(line)) == lines_data(
            lines,
        ).push(data),
        line_data(line) is None ==> lines_data(lines.push(line)) == lines_data(lines),
{
    assert(lines.push(line).drop_last() =~= lines);
}

/// The data of a line is read without the white space around it.
pub proof fn law_data_is_trimmed(line: Seq<char>)
    ensures
        line_data(line) matches Some(data) ==> (data.len() > 0 ==> !crate::text::is_space(data[0])
            && !crate::text::is_space(data.last())),
{
    crate::text::law_trimming(trimmed_end(line).skip("data: "@.len() as int));
}

} // verus!
