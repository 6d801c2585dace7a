//! Providers: what a model answers with, and how its streamed chunks become one response.
use vstd::prelude::*;

use crate::names::{lookup, put, NameMap};
use crate::text::{
    concat2, concat3, decimal, decimal_text, ends_with, lemma_ends_with, opt_view, views,
};
use crate::types::{
    blocks_calls, blocks_text, copy_opt, BlockV, ContentBlock, Message, MessageV, TextContent,
    TokenUsage,
};

verus! {

/// A model and how it is reached.
#[derive(Debug, PartialEq)]
pub struct Model {
    pub id: String,
    pub provider: String,
    pub context_window: usize,
    pub base_url: String,
    pub headers: Vec<(String, String)>,
}

/// What a [`Model`] is.
#[verifier::ext_equal]
pub struct ModelV {
    pub id: Seq<char>,
    pub provider: Seq<char>,
    pub context_window: usize,
    pub base_url: Seq<char>,
    pub headers: Seq<(Seq<char>, Seq<char>)>,
}

impl View for Model {
    type V = ModelV;

    open spec fn view(&self) -> ModelV {
        ModelV {
            id: self.id@,
            provider: self.provider@,
            context_window: self.context_window,
            base_url: self.base_url@,
            headers: Seq::new(
                self.headers@.len(),
                |i: int| (self.headers@[i].0@, self.headers@[i].1@),
            ),
        }
    }
}

impl Clone for Model {
    fn clone(&self) -> (r: Self)
        ensures
            r@ == self@,
    {
        let mut headers: Vec<(String, String)> = Vec::new();
        let mut i: usize = 0;
        while i < self.headers.len()
            invariant
                i <= self.headers@.len(),
                headers@.len() == i,
                forall|j: int|
                    0 <= j < i ==> (#[trigger] headers@[j]).0@ == self.headers@[j].0@
                        && headers@[j].1@ == self.headers@[j].1@,
            decreases self.headers@.len() - i,
        {
            headers.push((self.headers[i].0.clone(), self.headers[i].1.clone()));
            i += 1;
        }
        let r = Model {
            id: self.id.clone(),
            provider: self.provider.clone(),
            context_window: self.context_window,
            base_url: self.base_url.clone(),
            headers,
        };
        assert(r@.headers =~= self@.headers);
        r
    }
}

/// Why a provider gave no response.
#[derive(Debug, PartialEq)]
pub enum ProviderError {
    RequestFailed(String),
    RateLimited,
    ContextExceeded(usize),
    ModelNotFound(String),
    Aborted,
}

/// What a [`ProviderError`] is.
#[verifier::ext_equal]
pub enum ProviderErrorV {
    RequestFailed(Seq<char>),
    RateLimited,
    ContextExceeded(usize),
    ModelNotFound(Seq<char>),
    Aborted,
}

impl View for ProviderError {
    type V = ProviderErrorV;

    open spec fn view(&self) -> ProviderErrorV {
        match self {
            ProviderError::RequestFailed(m) => ProviderErrorV::RequestFailed(m@),
            ProviderError::RateLimited => ProviderErrorV::RateLimited,
            ProviderError::ContextExceeded(n) => ProviderErrorV::ContextExceeded(*n),
            ProviderError::ModelNotFound(m) => ProviderErrorV::ModelNotFound(m@),
            ProviderError::Aborted => ProviderErrorV::Aborted,
        }
    }
}

impl ProviderErrorV {
    /// The error in words.
    pub open spec fn words(self) -> Seq<char> {
        match self {
            ProviderErrorV::RequestFailed(m) => "request failed: "@ + m,
            ProviderErrorV::RateLimited => "rate limited"@,
            ProviderErrorV::ContextExceeded(n) => "context window exceeded: "@ + decimal(n as nat)
                + " tokens"@,
            ProviderErrorV::ModelNotFound(m) => "model not found: "@ + m,
            ProviderErrorV::Aborted => "aborted"@,
        }
    }
}

impl ProviderError {
    /// The error in words.
    pub fn words(&self) -> (r: String)
        ensures
            r@ == self@.words(),
    {
        match self {
            ProviderError::RequestFailed(m) => concat2("request failed: ", m.as_str()),
            ProviderError::RateLimited => "rate limited".to_owned(),
            ProviderError::ContextExceeded(n) => {
                let count = decimal_text(*n as u128);
                concat3("context window exceeded: ", count.as_str(), " tokens")
            },
            ProviderError::ModelNotFound(m) => concat2("model not found: ", m.as_str()),
            ProviderError::Aborted => "aborted".to_owned(),
        }
    }
}

/// A response, or a chunk of one.
#[derive(Debug, PartialEq)]
pub struct StreamResponse {
    pub message: Message,
    pub usage: TokenUsage,
    pub stop_reason: Option<String>,
}

/// What a [`StreamResponse`] is.
#[verifier::ext_equal]
pub struct StreamResponseV {
    pub message: MessageV,
    pub usage: TokenUsage,
    pub stop_reason: Option<Seq<char>>,
}

impl View for StreamResponse {
    type V = StreamResponseV;

    open spec fn view(&self) -> StreamResponseV {
        StreamResponseV {
            message: self.message@,
            usage: self.usage,
            stop_reason: opt_view(self.stop_reason),
        }
    }
}

impl Clone for StreamResponse {
    fn clone(&self) -> (r: Self)
        ensures
            r@ == self@,
    {
        StreamResponse {
            message: self.message.clone(),
            usage: self.usage,
            stop_reason: copy_opt(&self.stop_reason),
        }
    }
}

/// The blocks once `block` has been merged behind them: text joins text and reasoning joins
/// reasoning where they meet, anything else becomes a block of its own.
pub open spec fn merge_block(blocks: Seq<BlockV>, block: BlockV) -> Seq<BlockV> {
    match block {
        BlockV::Text(t) if blocks.len() > 0 && blocks.last() is Text => blocks.drop_last().push(
            BlockV::Text(blocks.last()->Text_0 + t),
        ),
        BlockV::Reasoning(t) if blocks.len() > 0 && blocks.last() is Reasoning
            => blocks.drop_last().push(BlockV::Reasoning(blocks.last()->Reasoning_0 + t)),
        other => blocks.push(other),
    }
}

/// The blocks once all of `more` have been merged behind them, in order.
pub open spec fn merge_blocks(blocks: Seq<BlockV>, more: Seq<BlockV>) -> Seq<BlockV>
    decreases more.len(),
{
    if more.len() == 0 {
        blocks
    } else {
        merge_block(merge_blocks(blocks, more.drop_last()), more.last())
    }
}

impl StreamResponseV {
    /// An assistant's response that holds nothing yet.
    pub open spec fn empty() -> StreamResponseV {
        StreamResponseV {
            message: MessageV { role: "assistant"@, content: Seq::empty() },
            usage: TokenUsage::none(),
            stop_reason: None,
        }
    }

    /// The response once `chunk` has been merged into it.
    pub open spec fn merged(self, chunk: StreamResponseV) -> StreamResponseV {
        StreamResponseV {
            message: MessageV {
                role: self.message.role,
                content: merge_blocks(self.message.content, chunk.message.content),
            },
            usage: if chunk.usage.input_tokens > 0 || chunk.usage.output_tokens > 0 {
                chunk.usage
            } else {
                self.usage
            },
            stop_reason: if chunk.stop_reason is Some {
                chunk.stop_reason
            } else {
                self.stop_reason
            },
        }
    }

    /// The response once all of `chunks` have been merged into it, in order.
    pub open spec fn merged_all(self, chunks: Seq<StreamResponseV>) -> StreamResponseV
        decreases chunks.len(),
    {
        if chunks.len() == 0 {
            self
        } else {
            self.merged_all(chunks.drop_last()).merged(chunks.last())
        }
    }
}

/// Merges one block behind the others.
fn absorb(blocks: &mut Vec<ContentBlock>, block: ContentBlock)
    ensures
        views(final(blocks)@) == merge_block(views(old(blocks)@), block@),
{
    let ghost before = views(blocks@);
    let ghost shown = block@;
    let last = blocks.pop();
    match last {
        None => {
            blocks.push(block);
            assert(views(blocks@) =~= before.push(shown));
        },
        Some(existing) => {
            let ghost end = existing@;
            assert(views(blocks@) =~= before.drop_last());
            assert(end == before.last());
            match (existing, block) {
                (ContentBlock::Text(e), ContentBlock::Text(t)) => {
                    let content = concat2(e.content.as_str(), t.content.as_str());
                    blocks.push(ContentBlock::Text(TextContent { content }));
                    assert(views(blocks@) =~= before.drop_last().push(
                        BlockV::Text(end->Text_0 + shown->Text_0),
                    ));
                },
                (ContentBlock::Reasoning(e), ContentBlock::Reasoning(t)) => {
                    let content = concat2(e.content.as_str(), t.content.as_str());
                    blocks.push(ContentBlock::Reasoning(TextContent { content }));
                    assert(views(blocks@) =~= before.drop_last().push(
                        BlockV::Reasoning(end->Reasoning_0 + shown->Reasoning_0),
                    ));
                },
                (existing, block) => {
                    blocks.push(existing);
                    blocks.push(block);
                    assert(views(blocks@) =~= before.push(shown));
                },
            }
        },
    }
}

impl StreamResponse {
    /// An assistant's response that holds nothing yet.
    pub fn new() -> (r: Self)
        ensures
            r@ == StreamResponseV::empty(),
    {
        let content: Vec<ContentBlock> = Vec::new();
        assert(views(content@) =~= Seq::<BlockV>::empty());
        StreamResponse {
            message: Message { role: "assistant".to_owned(), content },
            usage: TokenUsage::zero(),
            stop_reason: None,
        }
    }

    /// Merges a streamed chunk into this response: text and reasoning go on where they
    /// stopped, other blocks are appended, and usage and stop reason are those of the last
    /// chunk that carries them.
    pub fn merge(&mut self, chunk: StreamResponse)
        ensures
            final(self)@ == old(self)@.merged(chunk@),
    {
        let ghost before = self@;
        let ghost more = chunk@.message.content;
        let mut i: usize = 0;
        assert(more.take(0) =~= Seq::empty());
        while i < chunk.message.content.len()
            invariant
                i <= chunk.message.content@.len(),
                more == views(chunk.message.content@),
                self@.message.role == before.message.role,
                self@.usage == before.usage,
                self@.stop_reason == before.stop_reason,
                self@.message.content == merge_blocks(
                    before.message.content,
                    more.take(i as int),
                ),
            decreases chunk.message.content@.len() - i,
        {
            proof {
                assert(more.take(i + 1).drop_last() =~= more.take(i as int));
                assert(more.take(i + 1).last() == chunk.message.content@[i as int]@);
            }
            absorb(&mut self.message.content, chunk.message.content[i].clone());
            i += 1;
        }
        assert(more.take(more.len() as int) =~= more);
        if chunk.usage.input_tokens > 0 || chunk.usage.output_tokens > 0 {
            self.usage = chunk.usage;
        }
        if chunk.stop_reason.is_some() {
            self.stop_reason = chunk.stop_reason;
        }
    }
}

/// Merging one block adds its text behind the text so far, and its call behind the calls.
proof fn lemma_merge_block(blocks: Seq<BlockV>, block: BlockV)
    ensures
        blocks_text(merge_block(blocks, block)) == blocks_text(blocks) + blocks_text(seq![block]),
        blocks_calls(merge_block(blocks, block)) == blocks_calls(blocks) + blocks_calls(
            seq![block],
        ),
{
    let next = merge_block(blocks, block);
    reveal_with_fuel(blocks_text, 3);
    reveal_with_fuel(blocks_calls, 3);
    assert(seq![block].drop_last() =~= Seq::<BlockV>::empty());
    assert(seq![block].last() == block);
    if next.len() == blocks.len() {
        assert(next.drop_last() =~= blocks.drop_last());
        match block {
            BlockV::Text(t) => {
                let end = blocks.last()->Text_0;
                assert(blocks_text(next) =~= blocks_text(blocks.drop_last()) + (end + t));
            },
            _ => {},
        }
        assert(blocks_text(next) =~= blocks_text(blocks) + blocks_text(seq![block]));
        assert(blocks_calls(next) =~= blocks_calls(blocks) + blocks_calls(seq![block]));
    } else {
        assert(next.drop_last() =~= blocks);
        assert(blocks_text(next) =~= blocks_text(blocks) + blocks_text(seq![block]));
        assert(blocks_calls(next) =~= blocks_calls(blocks) + blocks_calls(seq![block]));
    }
}

/// Merging loses no text and no call, and keeps their order: what the merged blocks say is
/// what the blocks said, followed by what the merged ones say.
pub proof fn law_merge_keeps_text_and_calls(blocks: Seq<BlockV>, more: Seq<BlockV>)
    ensures
        blocks_text(merge_blocks(blocks, more)) == blocks_text(blocks) + blocks_text(more),
        blocks_calls(merge_blocks(blocks, more)) == blocks_calls(blocks) + blocks_calls(more),
    decreases more.len(),
{
    if more.len() == 0 {
        assert(blocks_text(blocks) + Seq::<char>::empty() =~= blocks_text(blocks));
        assert(blocks_calls(blocks) =~= blocks_calls(blocks) + blocks_calls(more));
    } else {
        let head = more.drop_last();
        let last = more.last();
        law_merge_keeps_text_and_calls(blocks, head);
        lemma_merge_block(merge_blocks(blocks, head), last);
        lemma_merge_block(head, last);
        reveal_with_fuel(blocks_text, 2);
        reveal_with_fuel(blocks_calls, 2);
        assert(seq![last].drop_last() =~= Seq::<BlockV>::empty());
        assert(blocks_text(seq![last]) =~= match last {
            BlockV::Text(t) => t,
            _ => Seq::empty(),
        });
        assert(blocks_text(more) =~= blocks_text(head) + blocks_text(seq![last]));
        assert(blocks_calls(more) =~= blocks_calls(head) + blocks_calls(seq![last]));
        assert(blocks_text(merge_blocks(blocks, more)) =~= blocks_text(blocks) + blocks_text(
            more,
        ));
        assert(blocks_calls(merge_blocks(blocks, more)) =~= blocks_calls(blocks) + blocks_calls(
            more,
        ));
    }
}

/// How a run of blocks is cut into chunks does not matter: merging two runs in turn gives
/// what merging them as one run gives.
pub proof fn law_merge_in_pieces(blocks: Seq<BlockV>, first: Seq<BlockV>, second: Seq<BlockV>)
    ensures
        merge_blocks(merge_blocks(blocks, first), second) == merge_blocks(blocks, first + second),
    decreases second.len(),
{
    if second.len() == 0 {
        assert(first + second =~= first);
    } else {
        law_merge_in_pieces(blocks, first, second.drop_last());
        assert((first + second).drop_last() =~= first + second.drop_last());
        assert((first + second).last() == second.last());
    }
}

/// No two text blocks and no two reasoning blocks stand side by side.
pub open spec fn compact(blocks: Seq<BlockV>) -> bool {
    forall|i: int|
        #![trigger blocks[i]]
        0 <= i < blocks.len() - 1 ==> !(blocks[i] is Text && blocks[i + 1] is Text) && !(
        blocks[i] is Reasoning && blocks[i + 1] is Reasoning)
}

/// A response built by merging alone holds streamed text in single blocks.
pub proof fn law_merge_stays_compact(blocks: Seq<BlockV>, more: Seq<BlockV>)
    requires
        compact(blocks),
    ensures
        compact(merge_blocks(blocks, more)),
    decreases more.len(),
{
    if more.len() > 0 {
        law_merge_stays_compact(blocks, more.drop_last());
        let so_far = merge_blocks(blocks, more.drop_last());
        let next = merge_block(so_far, more.last());
        assert forall|i: int| #![trigger next[i]] 0 <= i < next.len() - 1 implies !(next[i] is Text
            && next[i + 1] is Text) && !(next[i] is Reasoning && next[i + 1] is Reasoning) by {
            assert(so_far[i] is Text || !(so_far[i] is Text));
            if i + 1 < so_far.len() {
                assert(so_far[i + 1] is Text || !(so_far[i + 1] is Text));
            }
        }
    }
}

/// The usage and the stop reason of a merged response are those of the last chunk that
/// carries them, whatever came before it.
pub proof fn law_merge_takes_last_usage_and_stop(
    response: StreamResponseV,
    before: Seq<StreamResponseV>,
    carrier: StreamResponseV,
    silent: Seq<StreamResponseV>,
)
    requires
        carrier.usage.input_tokens > 0 || carrier.usage.output_tokens > 0,
        carrier.stop_reason is Some,
        forall|i: int|
            0 <= i < silent.len() ==> (#[trigger] silent[i]).usage.input_tokens == 0
                && silent[i].usage.output_tokens == 0 && silent[i].stop_reason is None,
    ensures
        response.merged_all(before.push(carrier) + silent).usage == carrier.usage,
        response.merged_all(before.push(carrier) + silent).stop_reason == carrier.stop_reason,
    decreases silent.len(),
{
    let all = before.push(carrier) + silent;
    if silent.len() == 0 {
        assert(all.drop_last() =~= before);
        assert(all.last() == carrier);
    } else {
        law_merge_takes_last_usage_and_stop(response, before, carrier, silent.drop_last());
        assert(all.drop_last() =~= before.push(carrier) + silent.drop_last());
        assert(all.last() == silent.last());
    }
}

/// Providers by name.
pub struct Registry<P> {
    providers: NameMap<P>,
}

impl<P> View for Registry<P> {
    type V = Seq<(Seq<char>, P)>;

    closed spec fn view(&self) -> Seq<(Seq<char>, P)> {
        self.providers@
    }
}

impl<P> Registry<P> {
    /// A registry without providers.
    pub fn new() -> (r: Self)
        ensures
            r@ == Seq::<(Seq<char>, P)>::empty(),
    {
        Registry { providers: NameMap::new() }
    }

    /// Puts a provider under a name, in the place of the one that was there.
    pub fn register(&mut self, name: &str, provider: P)
        ensures
            final(self)@ == put(old(self)@, name@, provider),
    {
        self.providers.insert(name.to_owned(), provider);
    }

    /// The provider under a name.
    pub fn get(&self, name: &str) -> (r: Option<&P>)
        ensures
            match r {
                Some(p) => lookup(self@, name@) == Some(*p),
                None => lookup(self@, name@) is None,
            },
    {
        self.providers.get(name)
    }
}

/// The reasoning among blocks, one after the other.
pub open spec fn blocks_reasoning(blocks: Seq<BlockV>) -> Seq<char>
    decreases blocks.len(),
{
    if blocks.len() == 0 {
        Seq::empty()
    } else {
        blocks_reasoning(blocks.drop_last()) + match blocks.last() {
            BlockV::Reasoning(t) => t,
            _ => Seq::empty(),
        }
    }
}

/// Merging keeps all reasoning, in order, and what is neither text nor reasoning as it is: it
/// becomes a block of its own behind the others.
pub proof fn law_merge_keeps_reasoning(blocks: Seq<BlockV>, block: BlockV)
    ensures
        blocks_reasoning(merge_block(blocks, block)) == blocks_reasoning(blocks.push(block)),
        !(block is Text || block is Reasoning) ==> merge_block(blocks, block) == blocks.push(block),
        blocks.len() == 0 ==> merge_block(blocks, block) == seq![block],
        forall|i: int|
            0 <= i < blocks.len() - 1 ==> #[trigger] merge_block(blocks, block)[i] == blocks[i],
        blocks.len() > 0 && blocks.last() is Text && block is Reasoning ==> merge_block(
            blocks,
            block,
        ) == blocks.push(block),
{
    let after = merge_block(blocks, block);
    assert(blocks.push(block).drop_last() =~= blocks);
    if after.len() == blocks.len() {
        let head = blocks_reasoning(blocks.drop_last());
        assert(after.drop_last() =~= blocks.drop_last());
        match (blocks.last(), block) {
            (BlockV::Reasoning(shown), BlockV::Reasoning(more)) => {
                assert(blocks_reasoning(blocks) == head + shown);
                assert(head + (shown + more) =~= head + shown + more);
            },
            _ => {
                assert(blocks_reasoning(blocks) =~= head);
            },
        }
    } else {
        assert(after.drop_last() =~= blocks);
    }
    assert(blocks_reasoning(after) =~= blocks_reasoning(blocks.push(block)));
    if blocks.len() == 0 {
        assert(merge_block(blocks, block) =~= seq![block]);
    }
}

/// Blocks are merged one after the other.
pub proof fn law_merging_goes_block_by_block(
    blocks: Seq<BlockV>,
    more: Seq<BlockV>,
    block: BlockV,
)
    ensures
        merge_blocks(blocks, Seq::empty()) == blocks,
        merge_blocks(blocks, more.push(block)) == merge_block(merge_blocks(blocks, more), block),
{
    assert(more.push(block).drop_last() =~= more);
}

/// A chunk adds its blocks to a response, and its usage and its stop reason take the place of
/// those that were there, each where the chunk carries one; the role stays. An empty response is
/// an assistant's, without usage or stop reason.
pub proof fn law_chunks_merge_field_by_field(response: StreamResponseV, chunk: StreamResponseV)
    ensures
        response.merged(chunk).message.role == response.message.role,
        response.merged(chunk).message.content == merge_blocks(
            response.message.content,
            chunk.message.content,
        ),
        chunk.usage.input_tokens > 0 || chunk.usage.output_tokens > 0 ==> response.merged(
            chunk,
        ).usage == chunk.usage,
        chunk.usage.input_tokens == 0 && chunk.usage.output_tokens == 0 ==> response.merged(
            chunk,
        ).usage == response.usage,
        chunk.stop_reason is Some ==> response.merged(chunk).stop_reason == chunk.stop_reason,
        chunk.stop_reason is None ==> response.merged(chunk).stop_reason == response.stop_reason,
        StreamResponseV::empty().message.role == "assistant"@,
        StreamResponseV::empty().message.content.len() == 0,
        StreamResponseV::empty().stop_reason is None,
        StreamResponseV::empty().usage.input_tokens == 0,
        StreamResponseV::empty().usage.output_tokens == 0,
        StreamResponseV::empty().usage.cache_read_tokens is None,
        StreamResponseV::empty().usage.cache_write_tokens is None,
{
}

/// Chunks are merged one after the other.
pub proof fn law_chunks_merge_in_order(
    response: StreamResponseV,
    chunks: Seq<StreamResponseV>,
    chunk: StreamResponseV,
)
    ensures
        response.merged_all(Seq::empty()) == response,
        response.merged_all(chunks.push(chunk)) == response.merged_all(chunks).merged(chunk),
{
    assert(chunks.push(chunk).drop_last() =~= chunks);
}

/// What a provider fails with tells the reason, the model or the number of tokens.
pub proof fn law_provider_errors_tell_the_reason(why: Seq<char>, n: usize)
    ensures
        ends_with(ProviderErrorV::RequestFailed(why).words(), why),
        ends_with(ProviderErrorV::ModelNotFound(why).words(), why),
        ProviderErrorV::RequestFailed(why).words() != ProviderErrorV::ModelNotFound(why).words(),
        ends_with(
            ProviderErrorV::ContextExceeded(n).words(),
            decimal(n as nat) + " tokens"@,
        ),
{
    reveal_strlit("request failed: ");
    reveal_strlit("model not found: ");
    assert("request failed: "@.len() == 16);
    assert("model not found: "@.len() == 17);
    lemma_ends_with("request failed: "@, why);
    lemma_ends_with("model not found: "@, why);
    lemma_ends_with("context window exceeded: "@, decimal(n as nat) + " tokens"@);
    assert("context window exceeded: "@ + decimal(n as nat) + " tokens"@
        =~= "context window exceeded: "@ + (decimal(n as nat) + " tokens"@));
}

} // verus!
