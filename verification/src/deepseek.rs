//! The DeepSeek chat API: where a chat is posted, what is asked, and what the status of the
//! answer means.
use vstd::prelude::*;

use crate::json::{
    array, json_text, law_first_member_is_found, member_views, object, write_json, Json, JsonV,
};
use crate::providers::{ProviderError, ProviderErrorV};
use crate::text::{concat2, concat3, ends_with, lemma_ends_with, opt_view, views};
use crate::types::{
    blocks_calls, blocks_text, extract_text, parts_text, result_text, tool_calls, BlockV,
    ContentBlock, Message, MessageV, ToolCallV, ToolDefinition, ToolDefinitionV, ToolResultV,
};

verus! {

/// Where the API is reached unless the model says otherwise.
pub open spec fn default_base_url() -> Seq<char> {
    "https://api.deepseek.com"@
}

/// The provider of DeepSeek's models.
#[derive(Debug, PartialEq)]
pub struct DeepSeekProvider {
    api_key: String,
}

impl View for DeepSeekProvider {
    type V = Seq<char>;

    /// The key with which it is asked.
    closed spec fn view(&self) -> Seq<char> {
        self.api_key@
    }
}

impl DeepSeekProvider {
    /// A provider that is asked with a key.
    pub fn new(api_key: &str) -> (r: DeepSeekProvider)
        ensures
            r@ == api_key@,
    {
        DeepSeekProvider { api_key: api_key.to_owned() }
    }

    /// The name of the provider.
    pub fn name(&self) -> (r: String)
        ensures
            r@ == "deepseek"@,
    {
        "deepseek".to_owned()
    }

    /// The key with which it is asked.
    pub fn api_key(&self) -> (r: &str)
        ensures
            r@ == self@,
    {
        self.api_key.as_str()
    }
}

/// Where a chat is posted.
pub fn chat_url(base_url: &str) -> (r: String)
    ensures
        r@ == (if base_url@.len() == 0 {
            default_base_url()
        } else {
            base_url@
        }) + "/chat/completions"@,
        r@ == chat_address(base_url@),
{
    if base_url.is_empty() {
        concat2("https://api.deepseek.com", "/chat/completions")
    } else {
        concat2(base_url, "/chat/completions")
    }
}

/// What an answer's status means for the request: nothing where it is a success, and else the
/// error that it stands for.
pub open spec fn refusal(
    status: u16,
    shown: Seq<char>,
    body: Seq<char>,
    model: Seq<char>,
) -> Option<ProviderErrorV> {
    if status == 429 {
        Some(ProviderErrorV::RateLimited)
    } else if status == 404 {
        Some(ProviderErrorV::ModelNotFound(model))
    } else if 200 <= status < 300 {
        None
    } else {
        Some(ProviderErrorV::RequestFailed(shown + ": "@ + body))
    }
}

/// What an answer's status means for the request.
pub fn check_status(status: u16, shown: &str, body: &str, model: &str) -> (r: Option<ProviderError>)
    ensures
        opt_view(r) == refusal(status, shown@, body@, model@),
{
    if status == 429 {
        Some(ProviderError::RateLimited)
    } else if status == 404 {
        Some(ProviderError::ModelNotFound(model.to_owned()))
    } else if 200 <= status && status < 300 {
        None
    } else {
        Some(ProviderError::RequestFailed(concat3(shown, ": ", body)))
    }
}

/// A tool call as the API writes it: the arguments are JSON text.
#[derive(Debug, PartialEq)]
pub struct ApiToolCall {
    pub id: String,
    pub name: String,
    pub arguments: String,
}

/// What an [`ApiToolCall`] is.
#[verifier::ext_equal]
pub struct ApiToolCallV {
    pub id: Seq<char>,
    pub name: Seq<char>,
    pub arguments: Seq<char>,
}

impl View for ApiToolCall {
    type V = ApiToolCallV;

    open spec fn view(&self) -> ApiToolCallV {
        ApiToolCallV { id: self.id@, name: self.name@, arguments: self.arguments@ }
    }
}

/// A message as the API takes it.
#[allow(inconsistent_fields)]
#[derive(Debug, PartialEq)]
pub enum ApiMessage {
    System { content: String },
    User { content: String },
    Assistant { content: Option<String>, tool_calls: Option<Vec<ApiToolCall>> },
    Tool { content: String, tool_call_id: String },
}

/// What an [`ApiMessage`] is.
#[allow(inconsistent_fields)]
#[verifier::ext_equal]
pub enum ApiMessageV {
    System { content: Seq<char> },
    User { content: Seq<char> },
    Assistant { content: Option<Seq<char>>, tool_calls: Option<Seq<ApiToolCallV>> },
    Tool { content: Seq<char>, tool_call_id: Seq<char> },
}

impl View for ApiMessage {
    type V = ApiMessageV;

    open spec fn view(&self) -> ApiMessageV {
        match self {
            ApiMessage::System { content } => ApiMessageV::System { content: content@ },
            ApiMessage::User { content } => ApiMessageV::User { content: content@ },
            ApiMessage::Assistant { content, tool_calls } => ApiMessageV::Assistant {
                content: opt_view(*content),
                tool_calls: match tool_calls {
                    Some(calls) => Some(views(calls@)),
                    None => None,
                },
            },
            ApiMessage::Tool { content, tool_call_id } => ApiMessageV::Tool {
                content: content@,
                tool_call_id: tool_call_id@,
            },
        }
    }
}

/// A tool call as the API writes it.
pub open spec fn api_call(call: ToolCallV) -> ApiToolCallV {
    ApiToolCallV { id: call.id, name: call.name, arguments: json_text(call.arguments) }
}

/// The message that answers a tool call, as the API takes it.
pub open spec fn api_answer(result: ToolResultV) -> ApiMessageV {
    ApiMessageV::Tool {
        content: parts_text(result.content),
        tool_call_id: match result.tool_call_id {
            Some(id) => id,
            None => Seq::empty(),
        },
    }
}

/// The answers among the blocks of a tool message.
pub open spec fn api_answers(blocks: Seq<BlockV>) -> Seq<ApiMessageV>
    decreases blocks.len(),
{
    if blocks.len() == 0 {
        Seq::empty()
    } else {
        match blocks.last() {
            BlockV::ToolResult(r) => api_answers(blocks.drop_last()).push(api_answer(r)),
            _ => api_answers(blocks.drop_last()),
        }
    }
}

/// What the API is told of a message. A role that it does not know is left out.
pub open spec fn api_messages_of(message: MessageV) -> Seq<ApiMessageV> {
    let text = blocks_text(message.content);
    let calls = blocks_calls(message.content);
    if message.role == "system"@ {
        seq![ApiMessageV::System { content: text }]
    } else if message.role == "user"@ {
        seq![ApiMessageV::User { content: text }]
    } else if message.role == "assistant"@ {
        seq![
            ApiMessageV::Assistant {
                content: if text.len() == 0 {
                    None
                } else {
                    Some(text)
                },
                tool_calls: if calls.len() == 0 {
                    None
                } else {
                    Some(Seq::new(calls.len(), |i: int| api_call(calls[i])))
                },
            },
        ]
    } else if message.role == "tool"@ {
        api_answers(message.content)
    } else {
        Seq::empty()
    }
}

/// What the API is told of a conversation.
pub open spec fn api_messages(messages: Seq<MessageV>) -> Seq<ApiMessageV>
    decreases messages.len(),
{
    if messages.len() == 0 {
        Seq::empty()
    } else {
        api_messages(messages.drop_last()) + api_messages_of(messages.last())
    }
}

/// The calls of a message as the API writes them.
fn build_calls(blocks: &Vec<ContentBlock>) -> (r: Vec<ApiToolCall>)
    ensures
        views(r@) == Seq::new(
            blocks_calls(views(blocks@)).len(),
            |i: int| api_call(blocks_calls(views(blocks@))[i]),
        ),
{
    let calls = tool_calls(blocks);
    let mut out: Vec<ApiToolCall> = Vec::new();
    let mut i: usize = 0;
    while i < calls.len()
        invariant
            i <= calls@.len(),
            out@.len() == i,
            forall|j: int| 0 <= j < i ==> (#[trigger] out@[j])@ == api_call(calls@[j]@),
        decreases calls@.len() - i,
    {
        out.push(
            ApiToolCall {
                id: calls[i].id.clone(),
                name: calls[i].name.clone(),
                arguments: write_json(&calls[i].arguments),
            },
        );
        i += 1;
    }
    proof {
        let all = blocks_calls(views(blocks@));
        assert(all.len() == calls@.len());
        assert forall|j: int| 0 <= j < all.len() implies views(out@)[j] == #[trigger] api_call(
            all[j],
        ) by {
            assert(views(calls@)[j] == calls@[j]@);
        }
        assert(views(out@) =~= Seq::new(all.len(), |i: int| api_call(all[i])));
    }
    out
}

/// Appends the answers of a tool message.
fn build_answers(messages: &mut Vec<ApiMessage>, blocks: &Vec<ContentBlock>)
    ensures
        views(final(messages)@) == views(old(messages)@) + api_answers(views(blocks@)),
{
    let ghost before = views(messages@);
    let ghost all = views(blocks@);
    let mut i: usize = 0;
    assert(before + api_answers(all.take(0)) =~= before);
    while i < blocks.len()
        invariant
            i <= blocks@.len(),
            all == views(blocks@),
            views(messages@) == before + api_answers(all.take(i as int)),
        decreases blocks@.len() - i,
    {
        proof {
            assert(all.take(i + 1).drop_last() =~= all.take(i as int));
            assert(all.take(i + 1).last() == blocks@[i as int]@);
        }
        match &blocks[i] {
            ContentBlock::ToolResult(r) => {
                let ghost so_far = views(messages@);
                let answer = ApiMessage::Tool {
                    content: result_text(r),
                    tool_call_id: match &r.tool_call_id {
                        Some(id) => id.clone(),
                        None => String::new(),
                    },
                };
                assert(answer@ == api_answer(r@));
                messages.push(answer);
                assert(views(messages@) =~= so_far.push(api_answer(r@)));
                assert(so_far.push(api_answer(r@)) =~= before + api_answers(
                    all.take(i as int),
                ).push(api_answer(r@)));
            },
            _ => {},
        }
        i += 1;
    }
    assert(all.take(all.len() as int) =~= all);
}

/// What the API is told of a conversation.
pub fn build_messages(context: &Vec<Message>) -> (r: Vec<ApiMessage>)
    ensures
        views(r@) == api_messages(views(context@)),
{
    let ghost all = views(context@);
    let mut messages: Vec<ApiMessage> = Vec::new();
    let mut i: usize = 0;
    assert(views(messages@) =~= api_messages(all.take(0)));
    while i < context.len()
        invariant
            i <= context@.len(),
            all == views(context@),
            views(messages@) == api_messages(all.take(i as int)),
        decreases context@.len() - i,
    {
        let msg = &context[i];
        let ghost before = views(messages@);
        proof {
            assert(all.take(i + 1).drop_last() =~= all.take(i as int));
            assert(all.take(i + 1).last() == msg@);
        }
        if msg.plays("system") {
            messages.push(ApiMessage::System { content: extract_text(&msg.content) });
            assert(views(messages@) =~= before + api_messages_of(msg@));
        } else if msg.plays("user") {
            messages.push(ApiMessage::User { content: extract_text(&msg.content) });
            assert(views(messages@) =~= before + api_messages_of(msg@));
        } else if msg.plays("assistant") {
            let text = extract_text(&msg.content);
            let calls = build_calls(&msg.content);
            assert(calls@.len() == views(calls@).len());
            let content = if text.as_str().is_empty() {
                None
            } else {
                Some(text)
            };
            let tool_calls = if calls.len() == 0 {
                None
            } else {
                Some(calls)
            };
            messages.push(ApiMessage::Assistant { content, tool_calls });
            assert(views(messages@) =~= before + api_messages_of(msg@));
        } else if msg.plays("tool") {
            build_answers(&mut messages, &msg.content);
        } else {
            assert(before + Seq::<ApiMessageV>::empty() =~= before);
        }
        i += 1;
    }
    assert(all.take(all.len() as int) =~= all);
    messages
}

/// The API is told of a conversation message by message: what it is told of a longer one
/// starts with what it is told of the shorter one.
pub proof fn law_messages_one_by_one(first: Seq<MessageV>, second: Seq<MessageV>)
    ensures
        api_messages(first + second) == api_messages(first) + api_messages(second),
    decreases second.len(),
{
    if second.len() == 0 {
        assert(first + second =~= first);
        assert(api_messages(first) + Seq::<ApiMessageV>::empty() =~= api_messages(first));
    } else {
        law_messages_one_by_one(first, second.drop_last());
        assert((first + second).drop_last() =~= first + second.drop_last());
        assert((first + second).last() == second.last());
        assert(api_messages(first + second) =~= api_messages(first) + api_messages(second));
    }
}

/// A message of the role `custom` never reaches the API.
pub proof fn law_custom_messages_stay_here(message: MessageV)
    requires
        message.role == "custom"@,
    ensures
        api_messages_of(message) == Seq::<ApiMessageV>::empty(),
{
    reveal_strlit("custom");
    reveal_strlit("system");
    reveal_strlit("user");
    reveal_strlit("assistant");
    reveal_strlit("tool");
    assert("custom"@[0] == 'c' && "system"@[0] == 's');
    assert("custom"@.len() == 6);
}

/// A text as a JSON value.
fn str_json(s: &str) -> (r: Json)
    ensures
        r@ == JsonV::Str(s@),
{
    Json::Str(s.to_owned())
}

/// A tool call in the body of a request.
pub open spec fn call_json(call: ApiToolCallV) -> JsonV {
    JsonV::Object(
        seq![
            (
                "function"@,
                JsonV::Object(
                    seq![
                        ("arguments"@, JsonV::Str(call.arguments)),
                        ("name"@, JsonV::Str(call.name)),
                    ],
                ),
            ),
            ("id"@, JsonV::Str(call.id)),
            ("type"@, JsonV::Str("function"@)),
        ],
    )
}

/// A message in the body of a request.
pub open spec fn message_json(message: ApiMessageV) -> JsonV {
    match message {
        ApiMessageV::System { content } => JsonV::Object(
            seq![("content"@, JsonV::Str(content)), ("role"@, JsonV::Str("system"@))],
        ),
        ApiMessageV::User { content } => JsonV::Object(
            seq![("content"@, JsonV::Str(content)), ("role"@, JsonV::Str("user"@))],
        ),
        ApiMessageV::Assistant { content, tool_calls } => JsonV::Object(
            (match content {
                Some(text) => seq![("content"@, JsonV::Str(text))],
                None => Seq::empty(),
            }) + seq![("role"@, JsonV::Str("assistant"@))] + (match tool_calls {
                Some(calls) => seq![
                    (
                        "tool_calls"@,
                        JsonV::Array(Seq::new(calls.len(), |i: int| call_json(calls[i]))),
                    ),
                ],
                None => Seq::empty(),
            }),
        ),
        ApiMessageV::Tool { content, tool_call_id } => JsonV::Object(
            seq![
                ("content"@, JsonV::Str(content)),
                ("role"@, JsonV::Str("tool"@)),
                ("tool_call_id"@, JsonV::Str(tool_call_id)),
            ],
        ),
    }
}

/// A tool in the body of a request.
pub open spec fn tool_json(tool: ToolDefinitionV) -> JsonV {
    JsonV::Object(
        seq![
            (
                "function"@,
                JsonV::Object(
                    seq![
                        ("description"@, JsonV::Str(tool.description)),
                        ("name"@, JsonV::Str(tool.name)),
                        ("parameters"@, tool.parameters),
                    ],
                ),
            ),
            ("type"@, JsonV::Str("function"@)),
        ],
    )
}

/// The body of a request: the conversation, streamed with its usage, and the tools on offer
/// where there are any.
pub open spec fn request_json(
    model: Seq<char>,
    messages: Seq<MessageV>,
    tools: Seq<ToolDefinitionV>,
) -> JsonV {
    let told = api_messages(messages);
    JsonV::Object(
        seq![
            ("messages"@, JsonV::Array(Seq::new(told.len(), |i: int| message_json(told[i])))),
            ("model"@, JsonV::Str(model)),
            ("stream"@, JsonV::Bool(true)),
            (
                "stream_options"@,
                JsonV::Object(seq![("include_usage"@, JsonV::Bool(true))]),
            ),
        ] + (if tools.len() == 0 {
            Seq::empty()
        } else {
            seq![
                (
                    "tools"@,
                    JsonV::Array(Seq::new(tools.len(), |i: int| tool_json(tools[i]))),
                ),
            ]
        }),
    )
}

/// Adds a member behind the others.
fn add_member(members: &mut Vec<(String, Json)>, key: &str, value: Json)
    ensures
        member_views(final(members)@) == member_views(old(members)@).push((key@, value@)),
{
    let ghost before = member_views(members@);
    let ghost shown = value@;
    members.push((key.to_owned(), value));
    assert(member_views(members@) =~= before.push((key@, shown)));
}

/// A tool call, as the service reads it.
fn build_call(call: &ApiToolCall) -> (r: Json)
    ensures
        r@ == call_json(call@),
{
    let mut function: Vec<(String, Json)> = Vec::new();
    add_member(&mut function, "arguments", str_json(call.arguments.as_str()));
    add_member(&mut function, "name", str_json(call.name.as_str()));
    let ghost inner = member_views(function@);
    let mut members: Vec<(String, Json)> = Vec::new();
    add_member(&mut members, "function", object(function));
    add_member(&mut members, "id", str_json(call.id.as_str()));
    add_member(&mut members, "type", str_json("function"));
    proof {
        assert(inner =~= seq![
            ("arguments"@, JsonV::Str(call@.arguments)),
            ("name"@, JsonV::Str(call@.name)),
        ]);
        assert(member_views(members@) =~= call_json(call@)->Object_0);
    }
    object(members)
}

/// A message, as the service reads it.
fn build_message(message: &ApiMessage) -> (r: Json)
    ensures
        r@ == message_json(message@),
{
    let mut members: Vec<(String, Json)> = Vec::new();
    match message {
        ApiMessage::System { content } => {
            add_member(&mut members, "content", str_json(content.as_str()));
            add_member(&mut members, "role", str_json("system"));
        },
        ApiMessage::User { content } => {
            add_member(&mut members, "content", str_json(content.as_str()));
            add_member(&mut members, "role", str_json("user"));
        },
        ApiMessage::Assistant { content, tool_calls } => {
            match content {
                Some(text) => {
                    add_member(&mut members, "content", str_json(text.as_str()));
                },
                None => {},
            }
            add_member(&mut members, "role", str_json("assistant"));
            match tool_calls {
                Some(calls) => {
                    let mut items: Vec<Json> = Vec::new();
                    let mut i: usize = 0;
                    while i < calls.len()
                        invariant
                            i <= calls@.len(),
                            items@.len() == i,
                            forall|j: int|
                                0 <= j < i ==> (#[trigger] items@[j])@ == call_json(calls@[j]@),
                        decreases calls@.len() - i,
                    {
                        items.push(build_call(&calls[i]));
                        i += 1;
                    }
                    proof {
                        let all = views(calls@);
                        assert(views(items@) =~= Seq::new(all.len(), |i: int| call_json(all[i])));
                    }
                    add_member(&mut members, "tool_calls", array(items));
                },
                None => {},
            }
        },
        ApiMessage::Tool { content, tool_call_id } => {
            add_member(&mut members, "content", str_json(content.as_str()));
            add_member(&mut members, "role", str_json("tool"));
            add_member(&mut members, "tool_call_id", str_json(tool_call_id.as_str()));
        },
    }
    assert(member_views(members@) =~= message_json(message@)->Object_0);
    object(members)
}

/// The tools on offer, as the API takes them: none at all where there is no tool.
pub fn build_tools(tools: &Vec<ToolDefinition>) -> (r: Option<Vec<Json>>)
    ensures
        match r {
            Some(items) => tools@.len() > 0 && views(items@) == Seq::new(
                tools@.len(),
                |i: int| tool_json(tools@[i]@),
            ),
            None => tools@.len() == 0,
        },
{
    if tools.len() == 0 {
        return None;
    }
    let mut items: Vec<Json> = Vec::new();
    let mut i: usize = 0;
    while i < tools.len()
        invariant
            i <= tools@.len(),
            items@.len() == i,
            forall|j: int| 0 <= j < i ==> (#[trigger] items@[j])@ == tool_json(tools@[j]@),
        decreases tools@.len() - i,
    {
        let tool = &tools[i];
        let mut function: Vec<(String, Json)> = Vec::new();
        add_member(&mut function, "description", str_json(tool.description.as_str()));
        add_member(&mut function, "name", str_json(tool.name.as_str()));
        add_member(&mut function, "parameters", tool.parameters.clone());
        let ghost inner = member_views(function@);
        let mut members: Vec<(String, Json)> = Vec::new();
        add_member(&mut members, "function", object(function));
        add_member(&mut members, "type", str_json("function"));
        proof {
            assert(inner =~= seq![
                ("description"@, JsonV::Str(tool@.description)),
                ("name"@, JsonV::Str(tool@.name)),
                ("parameters"@, tool@.parameters),
            ]);
            assert(member_views(members@) =~= tool_json(tool@)->Object_0);
        }
        items.push(object(members));
        i += 1;
    }
    assert(views(items@) =~= Seq::new(tools@.len(), |i: int| tool_json(tools@[i]@)));
    Some(items)
}

/// The body of a request.
pub fn build_request(model: &str, messages: &Vec<Message>, tools: &Vec<ToolDefinition>) -> (r: Json)
    ensures
        r@ == request_json(model@, views(messages@), views(tools@)),
{
    let told = build_messages(messages);
    let mut items: Vec<Json> = Vec::new();
    let mut i: usize = 0;
    while i < told.len()
        invariant
            i <= told@.len(),
            items@.len() == i,
            forall|j: int| 0 <= j < i ==> (#[trigger] items@[j])@ == message_json(told@[j]@),
        decreases told@.len() - i,
    {
        items.push(build_message(&told[i]));
        i += 1;
    }
    let ghost shown = views(items@);
    let mut options: Vec<(String, Json)> = Vec::new();
    add_member(&mut options, "include_usage", Json::Bool(true));
    let ghost inner = member_views(options@);
    let mut members: Vec<(String, Json)> = Vec::new();
    add_member(&mut members, "messages", array(items));
    add_member(&mut members, "model", str_json(model));
    add_member(&mut members, "stream", Json::Bool(true));
    add_member(&mut members, "stream_options", object(options));
    proof {
        let all = views(told@);
        assert(shown =~= Seq::new(all.len(), |i: int| message_json(all[i])));
        assert(inner =~= seq![("include_usage"@, JsonV::Bool(true))]);
    }
    match build_tools(tools) {
        Some(offered) => {
            proof {
                let all = views(tools@);
                assert(views(offered@) =~= Seq::new(all.len(), |i: int| tool_json(all[i])));
            }
            add_member(&mut members, "tools", array(offered));
        },
        None => {},
    }
    assert(member_views(members@) =~= request_json(
        model@,
        views(messages@),
        views(tools@),
    )->Object_0);
    object(members)
}

/// The body of a request, as text.
pub fn request_text(model: &str, messages: &Vec<Message>, tools: &Vec<ToolDefinition>) -> (r:
    String)
    ensures
        r@ == json_text(request_json(model@, views(messages@), views(tools@))),
{
    write_json(&build_request(model, messages, tools))
}

/// The messages that the body of a request tells.
pub open spec fn told_in(body: JsonV) -> Seq<JsonV> {
    match body.get("messages"@) {
        Some(JsonV::Array(items)) => items,
        _ => Seq::empty(),
    }
}

/// The members of a request's body stand under their names.
proof fn lemma_request_members(
    model: Seq<char>,
    messages: Seq<MessageV>,
    tools: Seq<ToolDefinitionV>,
)
    ensures
        ({
            let body = request_json(model, messages, tools);
            let members = body->Object_0;
            &&& body.get("messages"@) == Some(members[0].1)
            &&& body.get("model"@) == Some(members[1].1)
            &&& body.get("stream"@) == Some(members[2].1)
            &&& body.get("stream_options"@) == Some(members[3].1)
            &&& tools.len() == 0 ==> body.get("tools"@) is None
            &&& tools.len() > 0 ==> body.get("tools"@) == Some(members[4].1)
        }),
{
    reveal_strlit("messages");
    reveal_strlit("model");
    reveal_strlit("stream");
    reveal_strlit("stream_options");
    reveal_strlit("tools");
    assert("messages"@.len() == 8);
    assert("model"@.len() == 5);
    assert("stream"@.len() == 6);
    assert("stream_options"@.len() == 14);
    assert("tools"@.len() == 5);
    assert("model"@[0] == 'm');
    assert("tools"@[0] == 't');
    assert("model"@[0] == 'm' && "tools"@[0] == 't');
    let members = request_json(model, messages, tools)->Object_0;
    law_first_member_is_found(members, "messages"@, 0);
    law_first_member_is_found(members, "model"@, 1);
    law_first_member_is_found(members, "stream"@, 2);
    law_first_member_is_found(members, "stream_options"@, 3);
    law_first_member_is_found(members, "tools"@, 4);
}

/// A request names its model and asks for a stream that ends with its usage.
pub proof fn law_requests_ask_for_a_stream(
    model: Seq<char>,
    messages: Seq<MessageV>,
    tools: Seq<ToolDefinitionV>,
)
    ensures
        ({
            let body = request_json(model, messages, tools);
            &&& body.get("model"@) == Some(JsonV::Str(model))
            &&& body.get("stream"@) == Some(JsonV::Bool(true))
            &&& body.get("stream_options"@) matches Some(options)
            &&& options.get("include_usage"@) == Some(JsonV::Bool(true))
        }),
{
    lemma_request_members(model, messages, tools);
    let options = request_json(model, messages, tools)->Object_0[3].1->Object_0;
    law_first_member_is_found(options, "include_usage"@, 0);
}

/// A conversation is told message by message: what is told of a longer one is what is told of
/// its first part, followed by what is told of the rest, whatever else the request says.
pub proof fn law_conversations_are_told_in_order(
    model: Seq<char>,
    first: Seq<MessageV>,
    second: Seq<MessageV>,
    tools: Seq<ToolDefinitionV>,
)
    ensures
        told_in(request_json(model, first + second, tools)) == told_in(
            request_json(model, first, tools),
        ) + told_in(request_json(model, second, tools)),
        told_in(request_json(model, Seq::empty(), tools)).len() == 0,
{
    lemma_request_members(model, first + second, tools);
    lemma_request_members(model, first, tools);
    lemma_request_members(model, second, tools);
    lemma_request_members(model, Seq::empty(), tools);
    law_messages_one_by_one(first, second);
    assert(told_in(request_json(model, first + second, tools)) =~= told_in(
        request_json(model, first, tools),
    ) + told_in(request_json(model, second, tools)));
}

/// What a request tells of a conversation of one message.
proof fn lemma_told_alone(
    model: Seq<char>,
    message: MessageV,
    tools: Seq<ToolDefinitionV>,
)
    ensures
        ({
            let told = api_messages_of(message);
            told_in(request_json(model, seq![message], tools)) == Seq::new(
                told.len(),
                |i: int| message_json(told[i]),
            )
        }),
{
    lemma_request_members(model, seq![message], tools);
    reveal_with_fuel(api_messages, 2);
    assert(seq![message].drop_last() =~= Seq::empty());
    assert(seq![message].last() == message);
    assert(api_messages(seq![message]) =~= api_messages_of(message));
}

/// What the system or the user says is told in one message, under the same role and with the
/// text of its blocks.
pub proof fn law_plain_messages_are_told(
    model: Seq<char>,
    message: MessageV,
    tools: Seq<ToolDefinitionV>,
)
    requires
        message.role == "system"@ || message.role == "user"@,
    ensures
        ({
            let told = told_in(request_json(model, seq![message], tools));
            &&& told.len() == 1
            &&& told[0].get("role"@) == Some(JsonV::Str(message.role))
            &&& told[0].get("content"@) == Some(JsonV::Str(blocks_text(message.content)))
        }),
{
    lemma_told_alone(model, message, tools);
    reveal_strlit("content");
    reveal_strlit("role");
    assert("content"@.len() == 7);
    assert("role"@.len() == 4);
    let members = message_json(api_messages_of(message)[0])->Object_0;
    law_first_member_is_found(members, "content"@, 0);
    law_first_member_is_found(members, "role"@, 1);
}

/// What the assistant says is told in one message: its text where it said something, and each of
/// its calls, in order, with the id, the name and the written arguments of that very call.
pub proof fn law_replies_are_told(
    model: Seq<char>,
    message: MessageV,
    tools: Seq<ToolDefinitionV>,
)
    requires
        message.role == "assistant"@,
    ensures
        ({
            let told = told_in(request_json(model, seq![message], tools));
            let text = blocks_text(message.content);
            let calls = blocks_calls(message.content);
            &&& told.len() == 1
            &&& told[0].get("role"@) == Some(JsonV::Str("assistant"@))
            &&& text.len() == 0 ==> told[0].get("content"@) is None
            &&& text.len() > 0 ==> told[0].get("content"@) == Some(JsonV::Str(text))
            &&& calls.len() == 0 ==> told[0].get("tool_calls"@) is None
            &&& calls.len() > 0 ==> {
                &&& told[0].get("tool_calls"@) matches Some(JsonV::Array(made))
                &&& made.len() == calls.len()
                &&& forall|i: int| 0 <= i < made.len() ==> tells_call(#[trigger] made[i], calls[i])
            }
        }),
{
    lemma_told_alone(model, message, tools);
    reveal_strlit("system");
    reveal_strlit("user");
    reveal_strlit("assistant");
    reveal_strlit("content");
    reveal_strlit("role");
    reveal_strlit("tool_calls");
    assert("system"@.len() == 6);
    assert("user"@.len() == 4);
    assert("assistant"@.len() == 9);
    assert("content"@.len() == 7);
    assert("role"@.len() == 4);
    assert("tool_calls"@.len() == 10);
    assert("user"@[0] == 'u');
    assert("role"@[0] == 'r');
    assert("content"@[0] == 'c' && "role"@[0] == 'r' && "tool_calls"@[0] == 't');
    let text = blocks_text(message.content);
    let calls = blocks_calls(message.content);
    let members = message_json(api_messages_of(message)[0])->Object_0;
    let first: int = if text.len() == 0 {
        0
    } else {
        1
    };
    law_first_member_is_found(members, "role"@, first);
    if text.len() > 0 {
        law_first_member_is_found(members, "content"@, 0);
    } else {
        law_first_member_is_found(members, "content"@, members.len() as int);
    }
    if calls.len() > 0 {
        law_first_member_is_found(members, "tool_calls"@, first + 1);
        assert forall|i: int| 0 <= i < calls.len() implies tells_call(
            #[trigger] call_json(api_call(calls[i])),
            calls[i],
        ) by {
            lemma_tells_call(calls[i]);
        }
    } else {
        law_first_member_is_found(members, "tool_calls"@, members.len() as int);
    }
}

/// Whether a value tells of a tool call: its id, its name, and its arguments as JSON text.
pub open spec fn tells_call(value: JsonV, call: ToolCallV) -> bool {
    &&& value.get("id"@) == Some(JsonV::Str(call.id))
    &&& value.get("type"@) == Some(JsonV::Str("function"@))
    &&& value.get("function"@) matches Some(function)
    &&& function.get("name"@) == Some(JsonV::Str(call.name))
    &&& function.get("arguments"@) == Some(JsonV::Str(json_text(call.arguments)))
}

/// A call is told with all that it holds.
proof fn lemma_tells_call(call: ToolCallV)
    ensures
        tells_call(call_json(api_call(call)), call),
{
    reveal_strlit("id");
    reveal_strlit("type");
    reveal_strlit("function");
    reveal_strlit("name");
    reveal_strlit("arguments");
    assert("id"@.len() == 2);
    assert("type"@.len() == 4);
    assert("function"@.len() == 8);
    assert("name"@.len() == 4);
    assert("arguments"@.len() == 9);
    assert("type"@[0] == 't');
    assert("name"@[0] == 'n');
    let members = call_json(api_call(call))->Object_0;
    law_first_member_is_found(members, "function"@, 0);
    law_first_member_is_found(members, "id"@, 1);
    law_first_member_is_found(members, "type"@, 2);
    let function = members[0].1->Object_0;
    law_first_member_is_found(function, "arguments"@, 0);
    law_first_member_is_found(function, "name"@, 1);
}

/// The results in a tool message are told one by one, each under the role `tool`, with the text
/// of the result as its content and the id of the call that it answers. Other blocks of such a
/// message are not told.
pub proof fn law_results_are_told(
    model: Seq<char>,
    blocks: Seq<BlockV>,
    block: BlockV,
    tools: Seq<ToolDefinitionV>,
)
    ensures
        ({
            let told = told_in(
                request_json(
                    model,
                    seq![MessageV { role: "tool"@, content: blocks.push(block) }],
                    tools,
                ),
            );
            let before = told_in(
                request_json(model, seq![MessageV { role: "tool"@, content: blocks }], tools),
            );
            &&& blocks.len() == 0 ==> before.len() == 0
            &&& !(block is ToolResult) ==> told == before
            &&& block matches BlockV::ToolResult(result) ==> {
                &&& told.len() == before.len() + 1
                &&& told.drop_last() == before
                &&& told.last().get("role"@) == Some(JsonV::Str("tool"@))
                &&& told.last().get("content"@) == Some(JsonV::Str(parts_text(result.content)))
                &&& told.last().get("tool_call_id"@) == Some(
                    JsonV::Str(
                        match result.tool_call_id {
                            Some(id) => id,
                            None => Seq::empty(),
                        },
                    ),
                )
            }
        }),
{
    let longer = MessageV { role: "tool"@, content: blocks.push(block) };
    let shorter = MessageV { role: "tool"@, content: blocks };
    lemma_told_alone(model, longer, tools);
    lemma_told_alone(model, shorter, tools);
    reveal_strlit("system");
    reveal_strlit("user");
    reveal_strlit("assistant");
    reveal_strlit("tool");
    reveal_strlit("content");
    reveal_strlit("role");
    reveal_strlit("tool_call_id");
    assert("system"@.len() == 6);
    assert("user"@.len() == 4);
    assert("assistant"@.len() == 9);
    assert("tool"@.len() == 4);
    assert("content"@.len() == 7);
    assert("role"@.len() == 4);
    assert("tool_call_id"@.len() == 12);
    assert("user"@[0] == 'u');
    assert("tool"@[0] == 't');
    assert("role"@[0] == 'r');
    assert("user"@[0] == 'u' && "tool"@[0] == 't');
    assert(blocks.push(block).drop_last() =~= blocks);
    let told = told_in(request_json(model, seq![longer], tools));
    let before = told_in(request_json(model, seq![shorter], tools));
    match block {
        BlockV::ToolResult(result) => {
            assert(told.drop_last() =~= before);
            let members = message_json(api_answer(result))->Object_0;
            law_first_member_is_found(members, "content"@, 0);
            law_first_member_is_found(members, "role"@, 1);
            law_first_member_is_found(members, "tool_call_id"@, 2);
        },
        _ => {
            assert(told =~= before);
        },
    }
}

/// A message of a role that the API does not know is not told.
pub proof fn law_other_roles_are_not_told(
    model: Seq<char>,
    message: MessageV,
    tools: Seq<ToolDefinitionV>,
)
    requires
        message.role != "system"@,
        message.role != "user"@,
        message.role != "assistant"@,
        message.role != "tool"@,
    ensures
        told_in(request_json(model, seq![message], tools)).len() == 0,
{
    lemma_told_alone(model, message, tools);
}

/// Every tool is offered, in order, with its name, its description and its parameters; without
/// tools the request speaks of none.
pub proof fn law_tools_are_offered(
    model: Seq<char>,
    messages: Seq<MessageV>,
    tools: Seq<ToolDefinitionV>,
)
    ensures
        ({
            let body = request_json(model, messages, tools);
            &&& tools.len() == 0 ==> body.get("tools"@) is None
            &&& tools.len() > 0 ==> {
                &&& body.get("tools"@) matches Some(JsonV::Array(offered))
                &&& offered.len() == tools.len()
                &&& forall|i: int|
                    0 <= i < offered.len() ==> offers_tool(#[trigger] offered[i], tools[i])
            }
        }),
{
    lemma_request_members(model, messages, tools);
    if tools.len() > 0 {
        assert forall|i: int| 0 <= i < tools.len() implies offers_tool(
            #[trigger] tool_json(tools[i]),
            tools[i],
        ) by {
            lemma_offers_tool(tools[i]);
        }
    }
}

/// Whether a value offers a tool.
pub open spec fn offers_tool(value: JsonV, tool: ToolDefinitionV) -> bool {
    &&& value.get("type"@) == Some(JsonV::Str("function"@))
    &&& value.get("function"@) matches Some(function)
    &&& function.get("name"@) == Some(JsonV::Str(tool.name))
    &&& function.get("description"@) == Some(JsonV::Str(tool.description))
    &&& function.get("parameters"@) == Some(tool.parameters)
}

/// A tool is offered with all that it declares.
proof fn lemma_offers_tool(tool: ToolDefinitionV)
    ensures
        offers_tool(tool_json(tool), tool),
{
    reveal_strlit("type");
    reveal_strlit("function");
    reveal_strlit("name");
    reveal_strlit("description");
    reveal_strlit("parameters");
    assert("type"@.len() == 4);
    assert("function"@.len() == 8);
    assert("name"@.len() == 4);
    assert("description"@.len() == 11);
    assert("parameters"@.len() == 10);
    assert("type"@[0] == 't');
    assert("name"@[0] == 'n');
    let members = tool_json(tool)->Object_0;
    law_first_member_is_found(members, "function"@, 0);
    law_first_member_is_found(members, "type"@, 1);
    let function = members[0].1->Object_0;
    law_first_member_is_found(function, "description"@, 0);
    law_first_member_is_found(function, "name"@, 1);
    law_first_member_is_found(function, "parameters"@, 2);
}

/// A request is refused if and only if its status is no success. The two statuses with a
/// meaning of their own are told apart, and any other refusal shows the status and the body.
pub proof fn law_refusals_tell_the_cause(
    status: u16,
    shown: Seq<char>,
    body: Seq<char>,
    model: Seq<char>,
)
    ensures
        refusal(status, shown, body, model) is None <==> 200 <= status <= 299,
        refusal(status, shown, body, model) matches Some(ProviderErrorV::RateLimited) <==> status
            == 429,
        refusal(status, shown, body, model) matches Some(ProviderErrorV::ModelNotFound(_))
            <==> status == 404,
        refusal(status, shown, body, model) matches Some(ProviderErrorV::ModelNotFound(m)) ==> m
            == model,
        refusal(status, shown, body, model) matches Some(ProviderErrorV::RequestFailed(why)) ==> {
            &&& ends_with(why, body)
            &&& why.take(shown.len() as int) == shown
        },
{
    lemma_ends_with(shown + ": "@, body);
    assert((shown + ": "@ + body).take(shown.len() as int) =~= shown);
}

/// Where a chat is posted.
pub open spec fn chat_address(base_url: Seq<char>) -> Seq<char> {
    if base_url.len() == 0 {
        default_base_url() + "/chat/completions"@
    } else {
        base_url + "/chat/completions"@
    }
}

/// A chat is posted below the address that the model names, and below the provider's own where it
/// names none.
pub proof fn law_chats_are_posted_where_the_model_says(base_url: Seq<char>)
    ensures
        ends_with(chat_address(base_url), "/chat/completions"@),
        base_url.is_prefix_of(chat_address(base_url)),
        base_url.len() > 0 ==> chat_address(base_url).len() == base_url.len()
            + "/chat/completions"@.len(),
        chat_address(Seq::empty()) == "https://api.deepseek.com"@ + "/chat/completions"@,
{
    lemma_ends_with(base_url, "/chat/completions"@);
    lemma_ends_with(default_base_url(), "/chat/completions"@);
    assert(chat_address(base_url).take(base_url.len() as int) =~= base_url);
}

} // verus!
