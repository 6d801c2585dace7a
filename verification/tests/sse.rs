use akasha::json::Json;
use akasha::sse::{
    complete_call, ChatChunk, ChunkChoice, ChunkToolCall, ChunkUsage, PartialToolCall, SseReader,
};
use akasha::types::{ContentBlock, TextContent};

fn choice() -> ChunkChoice {
    ChunkChoice { content: None, reasoning_content: None, tool_calls: None, finish_reason: None }
}

fn chunk(choice: ChunkChoice) -> ChatChunk {
    ChatChunk { choices: vec![choice], usage: None }
}

fn said(text: &str) -> ChatChunk {
    chunk(ChunkChoice { content: Some(text.to_string()), ..choice() })
}

fn piece(index: usize, id: Option<&str>, name: Option<&str>, arguments: &str) -> ChunkToolCall {
    ChunkToolCall {
        index,
        id: id.map(str::to_string),
        name: name.map(str::to_string),
        arguments: Some(arguments.to_string()),
    }
}

fn text(t: &str) -> ContentBlock {
    ContentBlock::Text(TextContent { content: t.to_string() })
}

#[test]
fn lines_are_put_together_from_bytes() {
    let mut r = SseReader::new();
    assert_eq!(r.feed(b"data: {\"a\":1}\n\n: note\ndata: [DO"), ["{\"a\":1}"]);
    assert_eq!(r.feed(b"NE]\n"), ["[DONE]"]);
    assert!(r.feed(b"event: x\n").is_empty());
}

#[test]
fn bytes_that_are_no_text_are_replaced() {
    let mut r = SseReader::new();
    assert_eq!(r.feed(b"data: a\xffb\n"), ["a\u{fffd}b"]);
    assert_eq!(r.feed("data: é\n".as_bytes()), ["é"]);
}

#[test]
fn text_and_reasoning_are_streamed_as_they_come() {
    let mut r = SseReader::new();
    let out = r.absorb(&chunk(ChunkChoice {
        content: Some("Hi".to_string()),
        reasoning_content: Some("hm".to_string()),
        ..choice()
    }));
    assert_eq!(out.len(), 2);
    assert_eq!(out[0].message.content, vec![text("Hi")]);
    assert_eq!(
        out[1].message.content,
        vec![ContentBlock::Reasoning(TextContent { content: "hm".to_string() })]
    );
    assert!(r.absorb(&said("")).is_empty(), "empty text says nothing");
}

#[test]
fn the_last_response_holds_everything() {
    let mut r = SseReader::new();
    r.on_data("x", Some(said("Hel")));
    r.on_data("x", Some(said("lo")));
    r.on_data(
        "x",
        Some(ChatChunk {
            choices: vec![],
            usage: Some(ChunkUsage {
                prompt_tokens: 3,
                completion_tokens: 4,
                prompt_cache_hit_tokens: Some(1),
            }),
        }),
    );
    let out = r.on_data("[DONE]", None);
    assert_eq!(out.len(), 1);
    assert_eq!(out[0].message.content, vec![text("Hello")]);
    assert_eq!(out[0].stop_reason.as_deref(), Some("stop"));
    assert_eq!(out[0].usage.input_tokens, 3);
    assert_eq!(out[0].usage.output_tokens, 4);
    assert_eq!(out[0].usage.cache_read_tokens, Some(1));
    assert!(r.ended());
    assert!(r.on_data("x", Some(said("late"))).is_empty());
    assert_eq!(r.finish(), None);
}

#[test]
fn an_answer_that_breaks_off_is_still_concluded() {
    let mut r = SseReader::new();
    r.absorb(&said("half"));
    let last = r.finish().expect("a last response");
    assert_eq!(last.message.content, vec![text("half")]);
    assert!(r.finish().is_none());
}

#[test]
fn tool_calls_are_put_together_from_pieces() {
    let mut r = SseReader::new();
    r.absorb(&chunk(ChunkChoice {
        tool_calls: Some(vec![
            piece(0, Some("c0"), Some("f"), "{\"x\":"),
            piece(1, Some("c1"), Some("g"), ""),
        ]),
        ..choice()
    }));
    let out = r.absorb(&chunk(ChunkChoice {
        tool_calls: Some(vec![piece(0, None, None, "1}")]),
        finish_reason: Some("tool_calls".to_string()),
        ..choice()
    }));
    assert_eq!(out.len(), 2);
    match &out[0].message.content[0] {
        ContentBlock::ToolCall(call) => {
            assert_eq!((call.id.as_str(), call.name.as_str()), ("c0", "f"));
            assert_eq!(call.arguments, Json::parse("{\"x\":1}").unwrap());
        }
        other => panic!("unexpected {other:?}"),
    }
    assert_eq!(out[0].stop_reason.as_deref(), Some("tool_calls"));
    let done = r.finish().unwrap();
    assert_eq!(done.message.content.len(), 2);
}

#[test]
fn arguments_that_are_no_json() {
    let partial = PartialToolCall {
        index: 0,
        id: "c".to_string(),
        name: "f".to_string(),
        arguments: "{".to_string(),
    };
    let call = complete_call(&partial, Err("bad".to_string()));
    assert_eq!(call.id, "c");
    let whole = complete_call(&partial, Ok(Json::UInt(1)));
    assert_eq!(whole.arguments, Json::UInt(1));
}

#[test]
fn valid_text_is_read_as_it_is() {
    let mut r = SseReader::new();
    assert_eq!(r.feed("data: \u{1f600} ok\ndata: r".as_bytes()), ["\u{1f600} ok"]);
    assert_eq!(r.feed("est\n".as_bytes()), ["rest"]);
}
