//! The circuit breaker: no tool result floods a conversation.
use vstd::prelude::*;

use crate::extensions::{Extension, HookCall, HookCallV, HookReturn, HookReturnV};
use crate::text::{chars_of, text_of};
use crate::tools::ToolErrorV;
use crate::types::{
    parts_text, result_text, ResultPartV, TextContent, ToolResult, ToolResultContent, ToolResultV,
};

verus! {

/// The number of characters that a tool result may hold before it is clipped. The name is
/// the marker that the model reads.
pub const MAX_OUTPUT_LENGTH: usize = 30_000;

/// What follows a clipped text.
pub open spec fn clip_marker() -> Seq<char> {
    "\n[MAX_OUTPUT_LENGTH: output exceeded and was clipped]"@
}

/// The result as the model gets to see it: itself where its text is short enough, and an
/// error with the head of the text where it is not.
pub open spec fn clipped(result: ToolResultV) -> ToolResultV {
    let text = parts_text(result.content);
    if text.len() <= MAX_OUTPUT_LENGTH {
        result
    } else {
        ToolResultV {
            tool_call_id: result.tool_call_id,
            content: seq![
                ResultPartV::Text(text.take(MAX_OUTPUT_LENGTH as int)),
                ResultPartV::Text(clip_marker()),
            ],
            is_error: true,
        }
    }
}

/// What a clipped result says.
proof fn lemma_clipped_text(result: ToolResultV)
    requires
        parts_text(result.content).len() > MAX_OUTPUT_LENGTH,
    ensures
        parts_text(clipped(result).content) == parts_text(result.content).take(
            MAX_OUTPUT_LENGTH as int,
        ) + clip_marker(),
{
    let head = parts_text(result.content).take(MAX_OUTPUT_LENGTH as int);
    let parts = clipped(result).content;
    reveal_with_fuel(parts_text, 3);
    assert(parts.drop_last().drop_last() =~= Seq::<ResultPartV>::empty());
    assert(parts.drop_last().last() == ResultPartV::Text(head));
    assert(parts.last() == ResultPartV::Text(clip_marker()));
    assert(Seq::<char>::empty() + head =~= head);
}

/// Whatever a tool returns, the model sees no more of it than the limit and the marker, and
/// what it sees starts as the tool's text does.
pub proof fn law_output_is_bounded(result: ToolResultV)
    ensures
        parts_text(clipped(result).content).len() <= MAX_OUTPUT_LENGTH + clip_marker().len(),
        parts_text(result.content).len() > MAX_OUTPUT_LENGTH ==> clipped(result).is_error
            && parts_text(clipped(result).content).take(MAX_OUTPUT_LENGTH as int) == parts_text(
            result.content,
        ).take(MAX_OUTPUT_LENGTH as int),
{
    if parts_text(result.content).len() > MAX_OUTPUT_LENGTH {
        lemma_clipped_text(result);
        assert(parts_text(clipped(result).content).take(MAX_OUTPUT_LENGTH as int) =~= parts_text(
            result.content,
        ).take(MAX_OUTPUT_LENGTH as int));
    }
}

/// Clipping a clipped result changes nothing.
pub proof fn law_clipping_is_idempotent(result: ToolResultV)
    ensures
        clipped(clipped(result)) == clipped(result),
{
    if parts_text(result.content).len() > MAX_OUTPUT_LENGTH {
        lemma_clipped_text(result);
        let again = parts_text(clipped(result).content);
        assert(again.take(MAX_OUTPUT_LENGTH as int) =~= parts_text(result.content).take(
            MAX_OUTPUT_LENGTH as int,
        ));
    }
}

/// The result as the model gets to see it.
pub fn clip(result: ToolResult) -> (r: ToolResult)
    ensures
        r@ == clipped(result@),
{
    let text = result_text(&result);
    let chars = chars_of(text.as_str());
    if chars.len() <= MAX_OUTPUT_LENGTH {
        return result;
    }
    let head = text_of(&chars, 0, MAX_OUTPUT_LENGTH);
    let mut content: Vec<ToolResultContent> = Vec::new();
    content.push(ToolResultContent::Text(TextContent { content: head }));
    content.push(
        ToolResultContent::Text(
            TextContent {
                content: "\n[MAX_OUTPUT_LENGTH: output exceeded and was clipped]".to_owned(),
            },
        ),
    );
    let r = ToolResult { tool_call_id: result.tool_call_id, content, is_error: true };
    assert(chars@.subrange(0, MAX_OUTPUT_LENGTH as int) =~= chars@.take(MAX_OUTPUT_LENGTH as int));
    assert(r@.content =~= clipped(result@).content);
    r
}

/// The extension that clips what tools return. It holds no state; placed last in a chain it
/// clips what the others made of a result.
#[derive(Debug, PartialEq)]
pub struct CircuitBreaker;

impl CircuitBreaker {
    /// The extension.
    pub fn new() -> (r: Self)
        ensures
            r == CircuitBreaker,
    {
        CircuitBreaker
    }
}

impl Default for CircuitBreaker {
    fn default() -> (r: Self)
        ensures
            r == CircuitBreaker,
    {
        CircuitBreaker::new()
    }
}

/// What the circuit breaker answers: a successful result is clipped, nothing else changes.
pub open spec fn breaker_answer(call: HookCallV) -> HookReturnV {
    match call {
        HookCallV::ToolEnd { id: _, result: Ok(result) } => HookReturnV::Tool(
            Ok(Ok(clipped(result))),
        ),
        other => other.unchanged(),
    }
}

impl Extension for CircuitBreaker {
    open spec fn steps(pre: Self, call: HookCallV, post: Self, ret: HookReturnV) -> bool {
        ret == breaker_answer(call)
    }

    open spec fn called(&self) -> Seq<char> {
        "circuit_breaker"@
    }

    fn name(&self) -> String {
        "circuit_breaker".to_owned()
    }

    fn handle(&mut self, call: HookCall) -> (ret: HookReturn) {
        match call {
            HookCall::ToolEnd { id: _, result: Ok(result) } => HookReturn::Tool(
                Ok(Ok(clip(result))),
            ),
            other => other.unchanged(),
        }
    }
}

/// A result of up to thirty thousand characters passes as it is. Of a longer one the model sees
/// the first thirty thousand and the marker behind them, as an error of the same call.
pub proof fn law_long_results_are_clipped(result: ToolResultV)
    ensures
        parts_text(result.content).len() <= 30_000 ==> clipped(result) == result,
        parts_text(result.content).len() > 30_000 ==> {
            &&& parts_text(clipped(result).content) == parts_text(result.content).take(30_000)
                + "\n[MAX_OUTPUT_LENGTH: output exceeded and was clipped]"@
            &&& clipped(result).is_error
            &&& clipped(result).tool_call_id == result.tool_call_id
        },
{
    if parts_text(result.content).len() > 30_000 {
        lemma_clipped_text(result);
    }
}

/// Only what a tool returns is clipped: a failure passes as it is, and so does everything else.
pub proof fn law_the_breaker_clips_results_only(
    id: Seq<char>,
    result: ToolResultV,
    error: ToolErrorV,
    call: HookCallV,
)
    ensures
        breaker_answer(HookCallV::ToolEnd { id, result: Ok(result) }) == HookReturnV::Tool(
            Ok(Ok(clipped(result))),
        ),
        breaker_answer(HookCallV::ToolEnd { id, result: Err(error) }) == HookReturnV::Tool(
            Ok(Err(error)),
        ),
        !(call is ToolEnd) ==> breaker_answer(call) == call.unchanged(),
{
}

} // verus!
