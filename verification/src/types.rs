//! The conversation's data: messages, content blocks, tool calls and their results.
use vstd::prelude::*;

use crate::json::{Json, JsonV};
use crate::text::{opt_view, same, views};

verus! {

/// A run of text.
#[derive(Debug, PartialEq)]
pub struct TextContent {
    pub content: String,
}

impl View for TextContent {
    type V = Seq<char>;

    open spec fn view(&self) -> Seq<char> {
        self.content@
    }
}

impl Clone for TextContent {
    fn clone(&self) -> (r: Self)
        ensures
            r@ == self@,
    {
        TextContent { content: self.content.clone() }
    }
}

/// An image: its bytes and the media type that says how to read them.
#[derive(Debug, PartialEq)]
pub struct ImageContetnt {
    pub data: Vec<u8>,
    pub mime: String,
}

/// What an [`ImageContetnt`] is.
#[verifier::ext_equal]
pub struct ImageV {
    pub data: Seq<u8>,
    pub mime: Seq<char>,
}

impl View for ImageContetnt {
    type V = ImageV;

    open spec fn view(&self) -> ImageV {
        ImageV { data: self.data@, mime: self.mime@ }
    }
}

impl Clone for ImageContetnt {
    fn clone(&self) -> (r: Self)
        ensures
            r@ == self@,
    {
        let data = self.data.clone();
        assert(data@ =~= self.data@);
        ImageContetnt { data, mime: self.mime.clone() }
    }
}

/// One part of a tool's result.
#[derive(Debug, PartialEq)]
pub enum ToolResultContent {
    Text(TextContent),
    Image(ImageContetnt),
}

/// What a [`ToolResultContent`] is.
#[verifier::ext_equal]
pub enum ResultPartV {
    Text(Seq<char>),
    Image(ImageV),
}

impl View for ToolResultContent {
    type V = ResultPartV;

    open spec fn view(&self) -> ResultPartV {
        match self {
            ToolResultContent::Text(t) => ResultPartV::Text(t@),
            ToolResultContent::Image(i) => ResultPartV::Image(i@),
        }
    }
}

impl Clone for ToolResultContent {
    fn clone(&self) -> (r: Self)
        ensures
            r@ == self@,
    {
        match self {
            ToolResultContent::Text(t) => ToolResultContent::Text(t.clone()),
            ToolResultContent::Image(i) => ToolResultContent::Image(i.clone()),
        }
    }
}

/// A model's request to run a tool.
#[derive(Debug, PartialEq)]
pub struct ToolCall {
    pub id: String,
    pub name: String,
    pub arguments: Json,
}

/// What a [`ToolCall`] is.
#[verifier::ext_equal]
pub struct ToolCallV {
    pub id: Seq<char>,
    pub name: Seq<char>,
    pub arguments: JsonV,
}

impl View for ToolCall {
    type V = ToolCallV;

    open spec fn view(&self) -> ToolCallV {
        ToolCallV { id: self.id@, name: self.name@, arguments: self.arguments@ }
    }
}

impl Clone for ToolCall {
    fn clone(&self) -> (r: Self)
        ensures
            r@ == self@,
    {
        ToolCall {
            id: self.id.clone(),
            name: self.name.clone(),
            arguments: self.arguments.clone(),
        }
    }
}

/// What came of a tool call.
#[derive(Debug, PartialEq)]
pub struct ToolResult {
    pub tool_call_id: Option<String>,
    pub content: Vec<ToolResultContent>,
    pub is_error: bool,
}

/// What a [`ToolResult`] is.
#[verifier::ext_equal]
pub struct ToolResultV {
    pub tool_call_id: Option<Seq<char>>,
    pub content: Seq<ResultPartV>,
    pub is_error: bool,
}

impl View for ToolResult {
    type V = ToolResultV;

    open spec fn view(&self) -> ToolResultV {
        ToolResultV {
            tool_call_id: opt_view(self.tool_call_id),
            content: views(self.content@),
            is_error: self.is_error,
        }
    }
}

/// A copy of an optional text.
pub fn copy_opt(o: &Option<String>) -> (r: Option<String>)
    ensures
        opt_view(r) == opt_view(*o),
{
    match o {
        Some(s) => Some(s.clone()),
        None => None,
    }
}

impl Clone for ToolResult {
    fn clone(&self) -> (r: Self)
        ensures
            r@ == self@,
    {
        let content = self.content.clone();
        assert(views(content@) =~= views(self.content@));
        ToolResult { tool_call_id: copy_opt(&self.tool_call_id), content, is_error: self.is_error }
    }
}

/// The text parts of a result, one after the other.
pub open spec fn parts_text(parts: Seq<ResultPartV>) -> Seq<char>
    decreases parts.len(),
{
    if parts.len() == 0 {
        Seq::empty()
    } else {
        parts_text(parts.drop_last()) + match parts.last() {
            ResultPartV::Text(t) => t,
            _ => Seq::empty(),
        }
    }
}

/// A result of one text part that belongs to no call yet.
pub open spec fn text_result(text: Seq<char>, is_error: bool) -> ToolResultV {
    ToolResultV { tool_call_id: None, content: seq![ResultPartV::Text(text)], is_error }
}

impl ToolResult {
    /// A result of one text part that belongs to no call yet.
    pub fn text(text: String, is_error: bool) -> (r: ToolResult)
        ensures
            r@ == text_result(text@, is_error),
    {
        ToolResult::for_call(None, text, is_error)
    }

    /// A result of one text part.
    pub fn for_call(tool_call_id: Option<String>, text: String, is_error: bool) -> (r: ToolResult)
        ensures
            r@ == (ToolResultV {
                tool_call_id: opt_view(tool_call_id),
                content: seq![ResultPartV::Text(text@)],
                is_error,
            }),
    {
        let mut content: Vec<ToolResultContent> = Vec::new();
        let ghost shown = text@;
        content.push(ToolResultContent::Text(TextContent { content: text }));
        assert(views(content@) =~= seq![ResultPartV::Text(shown)]);
        ToolResult { tool_call_id, content, is_error }
    }
}

/// The text parts of a result, one after the other: what a model is shown of it.
pub fn result_text(result: &ToolResult) -> (r: String)
    ensures
        r@ == parts_text(result@.content),
{
    let ghost parts = result@.content;
    let mut out = String::new();
    let mut i: usize = 0;
    while i < result.content.len()
        invariant
            i <= result.content@.len(),
            parts == views(result.content@),
            out@ == parts_text(parts.take(i as int)),
        decreases result.content@.len() - i,
    {
        proof {
            assert(parts.take(i + 1).drop_last() =~= parts.take(i as int));
            assert(parts.take(i + 1).last() == result.content@[i as int]@);
        }
        match &result.content[i] {
            ToolResultContent::Text(t) => {
                out.append(t.content.as_str());
            },
            ToolResultContent::Image(_) => {
                assert(out@ + Seq::<char>::empty() =~= out@);
            },
        }
        i += 1;
    }
    assert(parts.take(parts.len() as int) =~= parts);
    out
}

/// One block of a message.
#[derive(Debug, PartialEq)]
pub enum ContentBlock {
    Text(TextContent),
    Image(ImageContetnt),
    Reasoning(TextContent),
    ToolCall(ToolCall),
    ToolResult(ToolResult),
    /// Data that only this framework reads; `kind` says whose it is.
    Custom { kind: String, content: Json },
}

/// What a [`ContentBlock`] is.
#[verifier::ext_equal]
pub enum BlockV {
    Text(Seq<char>),
    Image(ImageV),
    Reasoning(Seq<char>),
    ToolCall(ToolCallV),
    ToolResult(ToolResultV),
    Custom { kind: Seq<char>, content: JsonV },
}

impl View for ContentBlock {
    type V = BlockV;

    open spec fn view(&self) -> BlockV {
        match self {
            ContentBlock::Text(t) => BlockV::Text(t@),
            ContentBlock::Image(i) => BlockV::Image(i@),
            ContentBlock::Reasoning(t) => BlockV::Reasoning(t@),
            ContentBlock::ToolCall(c) => BlockV::ToolCall(c@),
            ContentBlock::ToolResult(r) => BlockV::ToolResult(r@),
            ContentBlock::Custom { kind, content } => BlockV::Custom {
                kind: kind@,
                content: content@,
            },
        }
    }
}

impl Clone for ContentBlock {
    fn clone(&self) -> (r: Self)
        ensures
            r@ == self@,
    {
        match self {
            ContentBlock::Text(t) => ContentBlock::Text(t.clone()),
            ContentBlock::Image(i) => ContentBlock::Image(i.clone()),
            ContentBlock::Reasoning(t) => ContentBlock::Reasoning(t.clone()),
            ContentBlock::ToolCall(c) => ContentBlock::ToolCall(c.clone()),
            ContentBlock::ToolResult(r) => ContentBlock::ToolResult(r.clone()),
            ContentBlock::Custom { kind, content } => ContentBlock::Custom {
                kind: kind.clone(),
                content: content.clone(),
            },
        }
    }
}

/// The text blocks, one after the other.
pub open spec fn blocks_text(blocks: Seq<BlockV>) -> Seq<char>
    decreases blocks.len(),
{
    if blocks.len() == 0 {
        Seq::empty()
    } else {
        blocks_text(blocks.drop_last()) + match blocks.last() {
            BlockV::Text(t) => t,
            _ => Seq::empty(),
        }
    }
}

/// The tool calls among the blocks, in order.
pub open spec fn blocks_calls(blocks: Seq<BlockV>) -> Seq<ToolCallV>
    decreases blocks.len(),
{
    if blocks.len() == 0 {
        Seq::empty()
    } else {
        match blocks.last() {
            BlockV::ToolCall(c) => blocks_calls(blocks.drop_last()).push(c),
            _ => blocks_calls(blocks.drop_last()),
        }
    }
}

/// The text blocks, one after the other.
pub fn extract_text(blocks: &Vec<ContentBlock>) -> (r: String)
    ensures
        r@ == blocks_text(views(blocks@)),
{
    let ghost all = views(blocks@);
    let mut out = String::new();
    let mut i: usize = 0;
    while i < blocks.len()
        invariant
            i <= blocks@.len(),
            all == views(blocks@),
            out@ == blocks_text(all.take(i as int)),
        decreases blocks@.len() - i,
    {
        proof {
            assert(all.take(i + 1).drop_last() =~= all.take(i as int));
            assert(all.take(i + 1).last() == blocks@[i as int]@);
            assert(out@ + Seq::<char>::empty() =~= out@);
        }
        match &blocks[i] {
            ContentBlock::Text(t) => {
                out.append(t.content.as_str());
            },
            _ => {},
        }
        i += 1;
    }
    assert(all.take(all.len() as int) =~= all);
    out
}

/// The tool calls among the blocks, in order.
pub fn tool_calls(blocks: &Vec<ContentBlock>) -> (r: Vec<ToolCall>)
    ensures
        views(r@) == blocks_calls(views(blocks@)),
{
    let ghost all = views(blocks@);
    let mut out: Vec<ToolCall> = Vec::new();
    let mut i: usize = 0;
    assert(views(out@) =~= blocks_calls(all.take(0)));
    while i < blocks.len()
        invariant
            i <= blocks@.len(),
            all == views(blocks@),
            views(out@) == blocks_calls(all.take(i as int)),
        decreases blocks@.len() - i,
    {
        proof {
            assert(all.take(i + 1).drop_last() =~= all.take(i as int));
            assert(all.take(i + 1).last() == blocks@[i as int]@);
        }
        match &blocks[i] {
            ContentBlock::ToolCall(c) => {
                let ghost before = out@;
                out.push(c.clone());
                assert(views(out@) =~= views(before).push(c@));
            },
            _ => {},
        }
        i += 1;
    }
    assert(all.take(all.len() as int) =~= all);
    out
}

/// One message of a conversation.
#[derive(Debug, PartialEq)]
pub struct Message {
    pub role: String,
    pub content: Vec<ContentBlock>,
}

/// What a [`Message`] is.
#[verifier::ext_equal]
pub struct MessageV {
    pub role: Seq<char>,
    pub content: Seq<BlockV>,
}

impl View for Message {
    type V = MessageV;

    open spec fn view(&self) -> MessageV {
        MessageV { role: self.role@, content: views(self.content@) }
    }
}

impl Clone for Message {
    fn clone(&self) -> (r: Self)
        ensures
            r@ == self@,
    {
        let content = self.content.clone();
        assert(views(content@) =~= views(self.content@));
        Message { role: self.role.clone(), content }
    }
}

/// The content of the first `Custom` block of the kind among `blocks`.
pub open spec fn first_custom(blocks: Seq<BlockV>, kind: Seq<char>) -> Option<JsonV>
    decreases blocks.len(),
{
    if blocks.len() == 0 {
        None
    } else {
        match blocks[0] {
            BlockV::Custom { kind: k, content } if k == kind => Some(content),
            _ => first_custom(blocks.skip(1), kind),
        }
    }
}

/// A message of one text block.
pub open spec fn text_message(role: Seq<char>, text: Seq<char>) -> MessageV {
    MessageV { role, content: seq![BlockV::Text(text)] }
}

impl MessageV {
    /// The content of the message's first `Custom` block of the kind.
    pub open spec fn custom(self, kind: Seq<char>) -> Option<JsonV> {
        first_custom(self.content, kind)
    }
}

impl Message {
    /// The content of the message's first `Custom` block of the kind.
    pub fn custom(&self, kind: &str) -> (r: Option<&Json>)
        ensures
            match r {
                Some(v) => self@.custom(kind@) == Some(v@),
                None => self@.custom(kind@) is None,
            },
    {
        let ghost all = self@.content;
        let mut i: usize = 0;
        assert(all.skip(0) =~= all);
        while i < self.content.len()
            invariant
                i <= self.content@.len(),
                all == views(self.content@),
                self@.custom(kind@) == first_custom(all.skip(i as int), kind@),
            decreases self.content@.len() - i,
        {
            proof {
                assert(all.skip(i as int)[0] == self.content@[i as int]@);
                assert(all.skip(i as int).skip(1) =~= all.skip(i + 1));
            }
            match &self.content[i] {
                ContentBlock::Custom { kind: k, content } => {
                    if same(k.as_str(), kind) {
                        return Some(content);
                    }
                },
                _ => {},
            }
            i += 1;
        }
        None
    }

    /// A message of one block.
    pub fn of_block(role: &str, block: ContentBlock) -> (r: Message)
        ensures
            r@ == (MessageV { role: role@, content: seq![block@] }),
    {
        let mut content: Vec<ContentBlock> = Vec::new();
        let ghost shown = block@;
        content.push(block);
        assert(views(content@) =~= seq![shown]);
        Message { role: role.to_owned(), content }
    }

    /// A message of one text block.
    pub fn text(role: &str, text: String) -> (r: Message)
        ensures
            r@ == text_message(role@, text@),
    {
        Message::of_block(role, ContentBlock::Text(TextContent { content: text }))
    }

    /// Whether the message plays the role.
    pub fn plays(&self, role: &str) -> (r: bool)
        ensures
            r == (self@.role == role@),
    {
        same(self.role.as_str(), role)
    }
}

/// A copy of a list of messages.
pub fn copy_messages(v: &Vec<Message>) -> (r: Vec<Message>)
    ensures
        views(r@) == views(v@),
{
    let r = v.clone();
    assert(views(r@) =~= views(v@));
    r
}

/// What a model is told of a tool.
#[derive(Debug, PartialEq)]
pub struct ToolDefinition {
    pub name: String,
    pub description: String,
    pub parameters: Json,
}

/// What a [`ToolDefinition`] is.
#[verifier::ext_equal]
pub struct ToolDefinitionV {
    pub name: Seq<char>,
    pub description: Seq<char>,
    pub parameters: JsonV,
}

impl View for ToolDefinition {
    type V = ToolDefinitionV;

    open spec fn view(&self) -> ToolDefinitionV {
        ToolDefinitionV {
            name: self.name@,
            description: self.description@,
            parameters: self.parameters@,
        }
    }
}

impl Clone for ToolDefinition {
    fn clone(&self) -> (r: Self)
        ensures
            r@ == self@,
    {
        ToolDefinition {
            name: self.name.clone(),
            description: self.description.clone(),
            parameters: self.parameters.clone(),
        }
    }
}

/// What a provider is asked: the conversation and the tools on offer.
#[derive(Debug, PartialEq)]
pub struct Request {
    pub messages: Vec<Message>,
    pub tools: Vec<ToolDefinition>,
}

/// Tokens that a response cost.
#[derive(Debug, Clone, Copy, PartialEq, Eq)]
pub struct TokenUsage {
    pub input_tokens: u64,
    pub output_tokens: u64,
    pub cache_read_tokens: Option<u64>,
    pub cache_write_tokens: Option<u64>,
}

impl TokenUsage {
    /// Nothing counted.
    pub open spec fn none() -> TokenUsage {
        TokenUsage {
            input_tokens: 0,
            output_tokens: 0,
            cache_read_tokens: None,
            cache_write_tokens: None,
        }
    }

    /// Nothing counted.
    pub fn zero() -> (r: TokenUsage)
        ensures
            r == TokenUsage::none(),
    {
        TokenUsage {
            input_tokens: 0,
            output_tokens: 0,
            cache_read_tokens: None,
            cache_write_tokens: None,
        }
    }
}

/// Text is read block by block: what is said behind other blocks comes behind their text, and
/// what is no text adds nothing.
pub proof fn law_text_is_read_in_order(blocks: Seq<BlockV>, block: BlockV)
    ensures
        blocks_text(Seq::<BlockV>::empty()).len() == 0,
        block matches BlockV::Text(t) ==> blocks_text(blocks.push(block)) == blocks_text(blocks)
            + t,
        !(block is Text) ==> blocks_text(blocks.push(block)) == blocks_text(blocks),
{
    assert(blocks.push(block).drop_last() =~= blocks);
    assert(blocks_text(blocks) + Seq::<char>::empty() =~= blocks_text(blocks));
}

/// Every tool call among blocks is found, as it stands and in order, and nothing else is taken
/// for one.
pub proof fn law_calls_are_read_in_order(blocks: Seq<BlockV>, block: BlockV)
    ensures
        blocks_calls(Seq::<BlockV>::empty()).len() == 0,
        block matches BlockV::ToolCall(c) ==> blocks_calls(blocks.push(block)) == blocks_calls(
            blocks,
        ).push(c),
        !(block is ToolCall) ==> blocks_calls(blocks.push(block)) == blocks_calls(blocks),
{
    assert(blocks.push(block).drop_last() =~= blocks);
}

/// The text of a result is read part by part, and a part that is no text adds nothing.
pub proof fn law_result_text_is_read_in_order(parts: Seq<ResultPartV>, part: ResultPartV)
    ensures
        parts_text(Seq::<ResultPartV>::empty()).len() == 0,
        part matches ResultPartV::Text(t) ==> parts_text(parts.push(part)) == parts_text(parts)
            + t,
        !(part is Text) ==> parts_text(parts.push(part)) == parts_text(parts),
{
    assert(parts.push(part).drop_last() =~= parts);
    assert(parts_text(parts) + Seq::<char>::empty() =~= parts_text(parts));
}

/// What is put into a result or a message as text is the text that is read out of it.
pub proof fn law_texts_are_read_back(role: Seq<char>, text: Seq<char>, is_error: bool)
    ensures
        parts_text(text_result(text, is_error).content) == text,
        text_result(text, is_error).is_error == is_error,
        text_result(text, is_error).tool_call_id is None,
        blocks_text(text_message(role, text).content) == text,
        blocks_calls(text_message(role, text).content).len() == 0,
        text_message(role, text).role == role,
{
    let part = ResultPartV::Text(text);
    let block = BlockV::Text(text);
    law_result_text_is_read_in_order(Seq::empty(), part);
    law_text_is_read_in_order(Seq::empty(), block);
    law_calls_are_read_in_order(Seq::empty(), block);
    assert(Seq::<ResultPartV>::empty().push(part) =~= seq![part]);
    assert(Seq::<BlockV>::empty().push(block) =~= seq![block]);
    assert(parts_text(seq![part]) =~= text);
    assert(blocks_text(seq![block]) =~= text);
}

/// The first block of a kind is the one that is found, with what it holds; blocks before it
/// that are not of the kind do not matter.
pub proof fn law_first_custom_is_found(
    before: Seq<BlockV>,
    kind: Seq<char>,
    content: JsonV,
    after: Seq<BlockV>,
)
    requires
        forall|i: int| 0 <= i < before.len() ==> !((#[trigger] before[i]) matches BlockV::Custom {
            kind: k,
            content: _,
        } && k == kind),
    ensures
        first_custom(before.push(BlockV::Custom { kind, content }) + after, kind) == Some(content),
        first_custom(before, kind) is None,
    decreases before.len(),
{
    let all = before.push(BlockV::Custom { kind, content }) + after;
    if before.len() > 0 {
        assert(all[0] == before[0]);
        assert(all.skip(1) =~= before.skip(1).push(BlockV::Custom { kind, content }) + after);
        assert forall|i: int| 0 <= i < before.skip(1).len() implies !((
        #[trigger] before.skip(1)[i]) matches BlockV::Custom { kind: k, content: _ } && k
            == kind) by {
            assert(before.skip(1)[i] == before[i + 1]);
        }
        law_first_custom_is_found(before.skip(1), kind, content, after);
    }
}

} // verus!
