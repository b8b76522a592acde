//! The OpenAI Responses protocol: requests and the events of the answer.
use vstd::prelude::*;

use crate::client::{ProviderRequest, RequestView, ToolDefinition, ToolView};
use crate::client;
use crate::config::ProviderConfig;
use crate::conversation::{BlockView, ContentBlock, ConversationMessage, MessageRole, MessageView};
use crate::conversation;
use crate::events::{
    LlmError, LlmErrorView, LlmEvent, LlmEventView, StopReason, StopReasonView, Usage,
};
use crate::events;
use crate::http::SseDecoder;
use crate::json::{Json, JsonView, Members};
use crate::json;
use crate::limits;
use crate::response;
use crate::sse::{SseEvent, SseEventView};
use crate::text;

verus! {

/// What is remembered of the answer so far.
#[derive(Debug)]
pub struct OpenAiResponsesStreamState {
    usage: Usage,
    saw_tool_call: bool,
    reasoning_id: String,
    reasoning_encrypted: String,
    reasoning_text: String,
    current_tool_id: String,
    current_tool_name: String,
    tool_arguments: String,
}

/// What an [`OpenAiResponsesStreamState`] holds.
#[verifier::ext_equal]
pub struct ResponsesMemory {
    pub usage: Usage,
    pub saw_tool_call: bool,
    pub reasoning_id: Seq<char>,
    pub reasoning_encrypted: Seq<char>,
    pub reasoning_text: Seq<char>,
    pub current_tool_id: Seq<char>,
    pub current_tool_name: Seq<char>,
    pub tool_arguments: Seq<char>,
}

impl View for OpenAiResponsesStreamState {
    type V = ResponsesMemory;

    closed spec fn view(&self) -> ResponsesMemory {
        ResponsesMemory {
            usage: self.usage,
            saw_tool_call: self.saw_tool_call,
            reasoning_id: self.reasoning_id@,
            reasoning_encrypted: self.reasoning_encrypted@,
            reasoning_text: self.reasoning_text@,
            current_tool_id: self.current_tool_id@,
            current_tool_name: self.current_tool_name@,
            tool_arguments: self.tool_arguments@,
        }
    }
}

/// What is remembered before anything has arrived.
pub open spec fn fresh_memory() -> ResponsesMemory {
    ResponsesMemory {
        usage: events::no_usage(),
        saw_tool_call: false,
        reasoning_id: Seq::empty(),
        reasoning_encrypted: Seq::empty(),
        reasoning_text: Seq::empty(),
        current_tool_id: Seq::empty(),
        current_tool_name: Seq::empty(),
        tool_arguments: Seq::empty(),
    }
}

impl Default for OpenAiResponsesStreamState {
    fn default() -> (state: Self)
        ensures
            state@ == fresh_memory(),
    {
        OpenAiResponsesStreamState {
            usage: Usage::default(),
            saw_tool_call: false,
            reasoning_id: String::new(),
            reasoning_encrypted: String::new(),
            reasoning_text: String::new(),
            current_tool_id: String::new(),
            current_tool_name: String::new(),
            tool_arguments: String::new(),
        }
    }
}

/// What an event comes to: what is remembered after it, and what it stands for.
pub type Decoding = (ResponsesMemory, Result<Seq<LlmEventView>, LlmErrorView>);

/// A piece of the text.
pub open spec fn text_continued(memory: ResponsesMemory, data: JsonView) -> Decoding {
    match response::required_text("OpenAI"@, data, "delta"@) {
        Ok(text) => (memory, Ok(seq![LlmEventView::TextDelta { text }])),
        Err(error) => (memory, Err(error)),
    }
}

/// The beginning of an item: a tool call is announced, and its arguments are collected
/// anew; reasoning is collected anew too.
pub open spec fn item_added(memory: ResponsesMemory, data: JsonView) -> Decoding {
    match json::member(data, "item"@) {
        None => (memory, Err(response::missing_part("OpenAI"@))),
        Some(item) => {
            let kind = json::as_text(json::member(item, "type"@));
            if kind == Some("function_call"@) {
                match response::required_text("OpenAI"@, item, "call_id"@) {
                    Err(error) => (memory, Err(error)),
                    Ok(tool_id) => match response::required_text("OpenAI"@, item, "name"@) {
                        Err(error) => (
                            ResponsesMemory { current_tool_id: tool_id, ..memory },
                            Err(error),
                        ),
                        Ok(tool_name) => (
                            ResponsesMemory {
                                current_tool_id: tool_id,
                                current_tool_name: tool_name,
                                tool_arguments: Seq::empty(),
                                saw_tool_call: true,
                                ..memory
                            },
                            Ok(seq![LlmEventView::ToolCallStart { tool_id, tool_name }]),
                        ),
                    },
                }
            } else if kind == Some("reasoning"@) {
                (
                    ResponsesMemory {
                        reasoning_id: response::text_or_empty(item, "id"@),
                        reasoning_encrypted: response::text_or_empty(item, "encrypted_content"@),
                        reasoning_text: Seq::empty(),
                        ..memory
                    },
                    Ok(Seq::empty()),
                )
            } else {
                (memory, Ok(Seq::empty()))
            }
        },
    }
}

/// A piece of the reasoning.
pub open spec fn reasoning_continued(memory: ResponsesMemory, data: JsonView) -> Decoding {
    match response::required_text("OpenAI"@, data, "delta"@) {
        Ok(text) => (
            ResponsesMemory { reasoning_text: memory.reasoning_text + text, ..memory },
            Ok(seq![LlmEventView::ThinkingDelta { text }]),
        ),
        Err(error) => (memory, Err(error)),
    }
}

/// The end of the reasoning.
pub open spec fn reasoning_ended(memory: ResponsesMemory) -> Decoding {
    (
        memory,
        Ok(
            seq![
                LlmEventView::ThinkingComplete {
                    thinking: memory.reasoning_text,
                    signature: memory.reasoning_id,
                    encrypted_content: memory.reasoning_encrypted,
                },
            ],
        ),
    )
}

/// A piece of the arguments of a tool call.
pub open spec fn arguments_continued(memory: ResponsesMemory, data: JsonView) -> Decoding {
    match response::required_text("OpenAI"@, data, "delta"@) {
        Ok(text) => (
            ResponsesMemory { tool_arguments: memory.tool_arguments + text, ..memory },
            Ok(seq![LlmEventView::ToolCallDelta { text }]),
        ),
        Err(error) => (memory, Err(error)),
    }
}

/// The end of a tool call.
pub open spec fn arguments_ended(memory: ResponsesMemory) -> Decoding {
    (
        memory,
        response::call_completed(
            "OpenAI"@,
            memory.current_tool_id,
            memory.current_tool_name,
            response::collected_arguments(memory.tool_arguments),
        ),
    )
}

/// The usage that the end of the answer reports. What was read from the cache does
/// not count as read anew.
pub open spec fn reported_usage(usage: JsonView) -> Usage {
    let cached = json::unsigned_or_zero(
        json::member_of_member(usage, "input_tokens_details"@, "cached_tokens"@),
    );
    let input = json::unsigned_or_zero(json::member(usage, "input_tokens"@));
    Usage {
        input_tokens: if input >= cached {
            (input - cached) as u64
        } else {
            0u64
        },
        output_tokens: json::unsigned_or_zero(json::member(usage, "output_tokens"@)),
        cache_read_tokens: cached,
        cache_creation_tokens: 0,
    }
}

/// The end of the answer.
pub open spec fn answer_ended(memory: ResponsesMemory, data: JsonView) -> Decoding {
    let usage = match json::member_of_member(data, "response"@, "usage"@) {
        Some(usage) => reported_usage(usage),
        None => memory.usage,
    };
    (
        ResponsesMemory { usage, ..memory },
        Ok(
            seq![
                LlmEventView::StreamEnd {
                    stop_reason: if memory.saw_tool_call {
                        StopReasonView::ToolUse
                    } else {
                        StopReasonView::EndTurn
                    },
                    usage,
                },
            ],
        ),
    )
}

/// An error that the provider reports.
pub open spec fn error_reported(memory: ResponsesMemory, data: JsonView) -> Decoding {
    (
        memory,
        Err(
            response::invalid(
                match json::as_text(json::member_of_member(data, "error"@, "message"@)) {
                    Some(message) => message,
                    None => "unknown OpenAI stream error"@,
                },
            ),
        ),
    )
}

/// What the data of an event of that kind comes to. Kinds that are not known come to
/// nothing.
pub open spec fn decoded_kind(memory: ResponsesMemory, kind: Seq<char>, data: JsonView) -> Decoding {
    if kind == "response.output_text.delta"@ {
        text_continued(memory, data)
    } else if kind == "response.output_item.added"@ {
        item_added(memory, data)
    } else if kind == "response.reasoning_summary_text.delta"@ {
        reasoning_continued(memory, data)
    } else if kind == "response.reasoning_summary_text.done"@ {
        reasoning_ended(memory)
    } else if kind == "response.function_call_arguments.delta"@ {
        arguments_continued(memory, data)
    } else if kind == "response.function_call_arguments.done"@ {
        arguments_ended(memory)
    } else if kind == "response.completed"@ {
        answer_ended(memory, data)
    } else if kind == "error"@ {
        error_reported(memory, data)
    } else {
        (memory, Ok(Seq::empty()))
    }
}

/// What an event comes to, `data` being what was read of its data.
pub open spec fn decoded_data(
    memory: ResponsesMemory,
    name: Option<Seq<char>>,
    data: Result<JsonView, Seq<char>>,
) -> Decoding {
    match data {
        Ok(data) => decoded_kind(memory, response::event_kind(name, data), data),
        Err(message) => (memory, Err(response::no_json("OpenAI"@, message))),
    }
}

impl OpenAiResponsesStreamState {
    fn add_item(&mut self, data: &Json) -> (outcome: Result<Vec<LlmEvent>, LlmError>)
        ensures
            item_added(old(self)@, data@) == (final(self)@, events::decoded_view(outcome)),
    {
        let item = match data.get("item") {
            Some(item) => item,
            None => {
                return Err(response::invalid_response("OpenAI"));
            },
        };
        let kind = match json::text_in(item.get("type")) {
            Some(kind) => kind,
            None => {
                return Ok(events::no_events());
            },
        };
        proof {
            reveal_strlit("function_call");
            reveal_strlit("reasoning");
            assert("function_call"@.len() != "reasoning"@.len());
        }
        if text::same_text(kind.as_str(), "function_call") {
            match response::required_string("OpenAI", item, "call_id") {
                Ok(tool_id) => {
                    self.current_tool_id = tool_id;
                },
                Err(error) => {
                    return Err(error);
                },
            }
            match response::required_string("OpenAI", item, "name") {
                Ok(tool_name) => {
                    self.current_tool_name = tool_name;
                },
                Err(error) => {
                    return Err(error);
                },
            }
            self.tool_arguments = String::new();
            self.saw_tool_call = true;
            Ok(
                events::one_event(
                    LlmEvent::ToolCallStart {
                        tool_id: self.current_tool_id.clone(),
                        tool_name: self.current_tool_name.clone(),
                    },
                ),
            )
        } else if text::same_text(kind.as_str(), "reasoning") {
            self.reasoning_id = response::optional_string(item, "id");
            self.reasoning_encrypted = response::optional_string(item, "encrypted_content");
            self.reasoning_text = String::new();
            Ok(events::no_events())
        } else {
            Ok(events::no_events())
        }
    }

    fn end_answer(&mut self, data: &Json) -> (outcome: Result<Vec<LlmEvent>, LlmError>)
        ensures
            answer_ended(old(self)@, data@) == (final(self)@, events::decoded_view(outcome)),
    {
        if let Some(usage) = data.get_in("response", "usage") {
            let cached = json::unsigned_in_or_zero(
                usage.get_in("input_tokens_details", "cached_tokens"),
            );
            let input = json::unsigned_in_or_zero(usage.get("input_tokens"));
            self.usage = Usage {
                input_tokens: if input >= cached {
                    input - cached
                } else {
                    0
                },
                output_tokens: json::unsigned_in_or_zero(usage.get("output_tokens")),
                cache_read_tokens: cached,
                cache_creation_tokens: 0,
            };
        }
        let stop_reason = if self.saw_tool_call {
            StopReason::ToolUse
        } else {
            StopReason::EndTurn
        };
        Ok(events::one_event(LlmEvent::StreamEnd { stop_reason, usage: self.usage }))
    }

    /// What the data of an event comes to, `data` being what was read of it.
    pub fn decode_data(&mut self, name: &Option<String>, data: Result<Json, String>) -> (outcome:
        Result<Vec<LlmEvent>, LlmError>)
        ensures
            decoded_data(old(self)@, text::optional_text(*name), json::outcome_view(data)) == (
                final(self)@,
                events::decoded_view(outcome),
            ),
    {
        let data = match data {
            Ok(data) => data,
            Err(message) => {
                return Err(response::no_json_error("OpenAI", message.as_str()));
            },
        };
        let kind = response::kind_of_event(name, &data);
        if text::same_text(kind.as_str(), "response.output_text.delta") {
            match response::required_string("OpenAI", &data, "delta") {
                Ok(text) => Ok(events::one_event(LlmEvent::TextDelta { text })),
                Err(error) => Err(error),
            }
        } else if text::same_text(kind.as_str(), "response.output_item.added") {
            self.add_item(&data)
        } else if text::same_text(kind.as_str(), "response.reasoning_summary_text.delta") {
            match response::required_string("OpenAI", &data, "delta") {
                Ok(text) => {
                    self.reasoning_text.append(text.as_str());
                    Ok(events::one_event(LlmEvent::ThinkingDelta { text }))
                },
                Err(error) => Err(error),
            }
        } else if text::same_text(kind.as_str(), "response.reasoning_summary_text.done") {
            Ok(
                events::one_event(
                    LlmEvent::ThinkingComplete {
                        thinking: self.reasoning_text.clone(),
                        signature: self.reasoning_id.clone(),
                        encrypted_content: self.reasoning_encrypted.clone(),
                    },
                ),
            )
        } else if text::same_text(kind.as_str(), "response.function_call_arguments.delta") {
            match response::required_string("OpenAI", &data, "delta") {
                Ok(text) => {
                    self.tool_arguments.append(text.as_str());
                    Ok(events::one_event(LlmEvent::ToolCallDelta { text }))
                },
                Err(error) => Err(error),
            }
        } else if text::same_text(kind.as_str(), "response.function_call_arguments.done") {
            response::complete_call(
                "OpenAI",
                self.current_tool_id.clone(),
                self.current_tool_name.clone(),
                response::collect_arguments(self.tool_arguments.as_str()),
            )
        } else if text::same_text(kind.as_str(), "response.completed") {
            self.end_answer(&data)
        } else if text::same_text(kind.as_str(), "error") {
            let message = match json::text_in(data.get_in("error", "message")) {
                Some(message) => message,
                None => text::copy_text("unknown OpenAI stream error"),
            };
            Err(LlmError::InvalidResponse { message })
        } else {
            Ok(events::no_events())
        }
    }
}

impl SseDecoder for OpenAiResponsesStreamState {
    type Memory = ResponsesMemory;

    open spec fn memory(&self) -> ResponsesMemory {
        self@
    }

    open spec fn decoding(memory: ResponsesMemory, event: SseEventView) -> (
        ResponsesMemory,
        Result<Seq<LlmEventView>, LlmErrorView>,
    ) {
        decoded_data(memory, event.event, json::parsed_json(event.data))
    }

    open spec fn finishing(memory: ResponsesMemory) -> (
        ResponsesMemory,
        Result<Seq<LlmEventView>, LlmErrorView>,
    ) {
        (memory, Ok(Seq::empty()))
    }

    fn decode(&mut self, event: &SseEvent) -> (outcome: Result<Vec<LlmEvent>, LlmError>) {
        let data = Json::parse(event.data.as_str());
        self.decode_data(&event.event, data)
    }

    fn finish(&mut self) -> (outcome: Result<Vec<LlmEvent>, LlmError>) {
        Ok(events::no_events())
    }
}

/// What is needed to ask the provider.
#[derive(Debug, PartialEq, Eq)]
pub struct OpenAiClient {
    api_key: String,
    base_url: String,
    model: String,
    thinking: bool,
    max_output_tokens: u64,
}

/// What an [`OpenAiClient`] holds.
#[verifier::ext_equal]
pub struct OpenAiClientView {
    pub api_key: Seq<char>,
    pub base_url: Seq<char>,
    pub model: Seq<char>,
    pub thinking: bool,
    pub max_output_tokens: u64,
}

impl View for OpenAiClient {
    type V = OpenAiClientView;

    closed spec fn view(&self) -> OpenAiClientView {
        OpenAiClientView {
            api_key: self.api_key@,
            base_url: self.base_url@,
            model: self.model@,
            thinking: self.thinking,
            max_output_tokens: self.max_output_tokens,
        }
    }
}

/// A message item of that role.
pub open spec fn message_item(role: Seq<char>, text: Seq<char>) -> JsonView {
    JsonView::Object(
        seq![
            ("content"@, JsonView::Text(text)),
            ("role"@, JsonView::Text(role)),
            ("type"@, JsonView::Text("message"@)),
        ],
    )
}

/// The item for a tool result.
pub open spec fn result_item(tool_use_id: Seq<char>, content: Seq<char>) -> JsonView {
    JsonView::Object(
        seq![
            ("call_id"@, JsonView::Text(tool_use_id)),
            ("output"@, JsonView::Text(content)),
            ("type"@, JsonView::Text("function_call_output"@)),
        ],
    )
}

/// The item for reasoning. What is encrypted is left out where it is empty.
pub open spec fn reasoning_item(
    thinking: Seq<char>,
    signature: Seq<char>,
    encrypted_content: Seq<char>,
) -> JsonView {
    let summary = JsonView::Array(
        seq![
            JsonView::Object(
                seq![
                    ("text"@, JsonView::Text(thinking)),
                    ("type"@, JsonView::Text("summary_text"@)),
                ],
            ),
        ],
    );
    if encrypted_content.len() == 0 {
        JsonView::Object(
            seq![
                ("id"@, JsonView::Text(signature)),
                ("summary"@, summary),
                ("type"@, JsonView::Text("reasoning"@)),
            ],
        )
    } else {
        JsonView::Object(
            seq![
                ("encrypted_content"@, JsonView::Text(encrypted_content)),
                ("id"@, JsonView::Text(signature)),
                ("summary"@, summary),
                ("type"@, JsonView::Text("reasoning"@)),
            ],
        )
    }
}

/// The item for a tool call. Its arguments are given as text.
pub open spec fn call_item(
    tool_use_id: Seq<char>,
    tool_name: Seq<char>,
    arguments: JsonView,
) -> JsonView {
    JsonView::Object(
        seq![
            ("arguments"@, JsonView::Text(json::json_text(arguments))),
            ("call_id"@, JsonView::Text(tool_use_id)),
            ("name"@, JsonView::Text(tool_name)),
            ("type"@, JsonView::Text("function_call"@)),
        ],
    )
}

/// The item for a block, if it has one. Thinking and tool calls count only where the
/// assistant made them.
pub open spec fn block_item(role: MessageRole, block: BlockView) -> Option<JsonView> {
    match block {
        BlockView::Text { text } => Some(
            message_item(
                if role == MessageRole::Assistant {
                    "assistant"@
                } else {
                    "user"@
                },
                text,
            ),
        ),
        BlockView::ToolResult { tool_use_id, content, .. } => Some(
            result_item(tool_use_id, content),
        ),
        BlockView::Thinking { thinking, signature, encrypted_content } => if role
            == MessageRole::Assistant {
            Some(reasoning_item(thinking, signature, encrypted_content))
        } else {
            None
        },
        BlockView::ToolUse { tool_use_id, tool_name, arguments } => if role
            == MessageRole::Assistant {
            Some(call_item(tool_use_id, tool_name, arguments))
        } else {
            None
        },
    }
}

/// The items for the blocks of a message.
pub open spec fn block_items(role: MessageRole, content: Seq<BlockView>) -> Seq<JsonView>
    decreases content.len(),
{
    if content.len() == 0 {
        Seq::empty()
    } else {
        let before = block_items(role, content.drop_last());
        match block_item(role, content.last()) {
            Some(item) => before.push(item),
            None => before,
        }
    }
}

/// The items for a conversation.
pub open spec fn input_items(conversation: Seq<MessageView>) -> Seq<JsonView>
    decreases conversation.len(),
{
    if conversation.len() == 0 {
        Seq::empty()
    } else {
        input_items(conversation.drop_last()) + block_items(
            conversation.last().role,
            conversation.last().content,
        )
    }
}

/// The form of a tool in a request.
pub open spec fn wire_tool(tool: ToolView) -> JsonView {
    JsonView::Object(
        seq![
            ("description"@, JsonView::Text(tool.description)),
            ("name"@, JsonView::Text(tool.name)),
            ("parameters"@, tool.parameters),
            ("strict"@, JsonView::Bool(false)),
            ("type"@, JsonView::Text("function"@)),
        ],
    )
}

/// The body of a request.
pub open spec fn body_of(client: OpenAiClientView, request: RequestView) -> JsonView {
    let wanted = if client.thinking {
        seq![
            (
                "include"@,
                JsonView::Array(seq![JsonView::Text("reasoning.encrypted_content"@)]),
            ),
        ]
    } else {
        Seq::empty()
    };
    let always = seq![
        ("input"@, JsonView::Array(input_items(request.conversation))),
        ("instructions"@, JsonView::Text(request.system_prompt)),
        ("max_output_tokens"@, JsonView::Unsigned(client.max_output_tokens)),
        ("model"@, JsonView::Text(client.model)),
    ];
    let reasoning = if client.thinking {
        seq![
            (
                "reasoning"@,
                JsonView::Object(
                    seq![
                        ("effort"@, JsonView::Text("high"@)),
                        ("summary"@, JsonView::Text("detailed"@)),
                    ],
                ),
            ),
        ]
    } else {
        Seq::empty()
    };
    let tools = if request.tools.len() > 0 {
        seq![
            (
                "tools"@,
                JsonView::Array(request.tools.map_values(|tool: ToolView| wire_tool(tool))),
            ),
        ]
    } else {
        Seq::empty()
    };
    JsonView::Object(
        wanted + always + reasoning + seq![("stream"@, JsonView::Bool(true))] + tools,
    )
}

/// The item for a block, if it has one.
fn item_for(role: MessageRole, block: &ContentBlock) -> (item: Option<Json>)
    ensures
        match item {
            Some(item) => block_item(role, block@) == Some(item@),
            None => block_item(role, block@) is None,
        },
{
    let item = match block {
        ContentBlock::Text { text } => {
            let name = if role == MessageRole::Assistant {
                "assistant"
            } else {
                "user"
            };
            Members::new().with("content", json::text_value(text.as_str())).with(
                "role",
                json::text_value(name),
            ).with("type", json::text_value("message")).object()
        },
        ContentBlock::ToolResult { tool_use_id, content, .. } => Members::new().with(
            "call_id",
            json::text_value(tool_use_id.as_str()),
        ).with("output", json::text_value(content.as_str())).with(
            "type",
            json::text_value("function_call_output"),
        ).object(),
        ContentBlock::Thinking { thinking, signature, encrypted_content } => {
            if role != MessageRole::Assistant {
                return None;
            }
            let summary = Members::new().with("text", json::text_value(thinking.as_str())).with(
                "type",
                json::text_value("summary_text"),
            ).object();
            assert(summary@->Object_0 =~= seq![
                ("text"@, JsonView::Text(thinking@)),
                ("type"@, JsonView::Text("summary_text"@)),
            ]);
            let mut members = Members::new();
            if !encrypted_content.as_str().is_empty() {
                members =
                members.with("encrypted_content", json::text_value(encrypted_content.as_str()));
            }
            members.with("id", json::text_value(signature.as_str())).with(
                "summary",
                json::singleton(summary),
            ).with("type", json::text_value("reasoning")).object()
        },
        ContentBlock::ToolUse { tool_use_id, tool_name, arguments } => {
            if role != MessageRole::Assistant {
                return None;
            }
            Members::new().with("arguments", Json::Text(arguments.to_text())).with(
                "call_id",
                json::text_value(tool_use_id.as_str()),
            ).with("name", json::text_value(tool_name.as_str())).with(
                "type",
                json::text_value("function_call"),
            ).object()
        },
    };
    assert(item@->Object_0 =~= block_item(role, block@)->0->Object_0);
    Some(item)
}

/// Adds the items for a message.
pub fn openai_input_items(items: &mut Vec<Json>, message: &ConversationMessage)
    ensures
        json::json_views(final(items)@) == json::json_views(old(items)@) + block_items(
            message.role,
            message@.content,
        ),
{
    let ghost before = json::json_views(items@);
    let ghost all = message@.content;
    let mut i: usize = 0;
    assert(before + block_items(message.role, all.take(0)) =~= before);
    while i < message.content.len()
        invariant
            i <= message.content@.len(),
            all == message@.content,
            json::json_views(items@) == before + block_items(message.role, all.take(i as int)),
        decreases message.content@.len() - i,
    {
        assert(all.take(i + 1).drop_last() =~= all.take(i as int));
        assert(all.take(i + 1).last() == message.content@[i as int]@);
        let ghost so_far = json::json_views(items@);
        if let Some(item) = item_for(message.role, &message.content[i]) {
            items.push(item);
            assert(json::json_views(items@) =~= so_far.push(item@));
            assert((before + block_items(message.role, all.take(i as int))).push(item@) =~= before
                + block_items(message.role, all.take(i as int)).push(item@));
        }
        i += 1;
    }
    assert(all.take(i as int) =~= all);
}

/// The form of a tool in a request.
pub fn openai_tool(tool: &ToolDefinition) -> (json: Json)
    ensures
        json@ == wire_tool(tool@),
{
    let json = Members::new().with(
        "description",
        json::text_value(tool.description.as_str()),
    ).with("name", json::text_value(tool.name.as_str())).with(
        "parameters",
        tool.parameters.clone(),
    ).with("strict", Json::Bool(false)).with("type", json::text_value("function")).object();
    assert(json@->Object_0 =~= wire_tool(tool@)->Object_0);
    json
}

impl OpenAiClient {
    /// A client for a provider. `api_key` is what
    /// [`ProviderConfig::resolve_api_key_with`] gave for it.
    pub fn new(provider: &ProviderConfig, api_key: Option<String>) -> (client: Result<
        Self,
        LlmError,
    >)
        ensures
            match client {
                Ok(client) => api_key is Some && client@ == (OpenAiClientView {
                    api_key: api_key->0@,
                    base_url: text::without_trailing(provider.base_url@, '/'),
                    model: provider.model@,
                    thinking: provider.thinking,
                    max_output_tokens: limits::output_limit(*provider),
                }),
                Err(error) => api_key is None && error@ == (LlmErrorView::Authentication {
                    message: "OpenAI API key not found; set provider api_key or OPENAI_API_KEY"@,
                }),
            },
    {
        match api_key {
            Some(api_key) => Ok(
                OpenAiClient {
                    api_key,
                    base_url: text::trim_end_char(provider.base_url.as_str(), '/'),
                    model: provider.model.clone(),
                    thinking: provider.thinking,
                    max_output_tokens: limits::max_output_tokens(provider),
                },
            ),
            None => Err(
                LlmError::Authentication {
                    message: text::copy_text(
                        "OpenAI API key not found; set provider api_key or OPENAI_API_KEY",
                    ),
                },
            ),
        }
    }

    /// The body of a request.
    pub fn request_body(&self, request: &ProviderRequest) -> (body: Json)
        ensures
            body@ == body_of(self@, request@),
    {
        let conversation = request.conversation.messages();
        let ghost all = request@.conversation;
        let mut input: Vec<Json> = Vec::new();
        let mut i: usize = 0;
        assert(json::json_views(input@) =~= input_items(all.take(0)));
        while i < conversation.len()
            invariant
                i <= conversation@.len(),
                all == conversation::message_views(conversation@),
                json::json_views(input@) == input_items(all.take(i as int)),
            decreases conversation@.len() - i,
        {
            assert(all.take(i + 1).drop_last() =~= all.take(i as int));
            assert(all.take(i + 1).last() == conversation@[i as int]@);
            openai_input_items(&mut input, &conversation[i]);
            i += 1;
        }
        assert(all.take(i as int) =~= all);
        let mut body = Members::new();
        if self.thinking {
            body =
            body.with("include", json::singleton(json::text_value("reasoning.encrypted_content")));
        }
        body =
        body.with("input", json::array_value(input)).with(
            "instructions",
            json::text_value(request.system_prompt.as_str()),
        ).with("max_output_tokens", Json::Unsigned(self.max_output_tokens)).with(
            "model",
            json::text_value(self.model.as_str()),
        );
        if self.thinking {
            let reasoning = Members::new().with("effort", json::text_value("high")).with(
                "summary",
                json::text_value("detailed"),
            ).object();
            assert(reasoning@->Object_0 =~= seq![
                ("effort"@, JsonView::Text("high"@)),
                ("summary"@, JsonView::Text("detailed"@)),
            ]);
            body = body.with("reasoning", reasoning);
        }
        body = body.with("stream", Json::Bool(true));
        if request.tools.len() > 0 {
            let mut tools: Vec<Json> = Vec::new();
            let mut k: usize = 0;
            while k < request.tools.len()
                invariant
                    k <= request.tools.len(),
                    tools@.len() == k,
                    forall|m: int|
                        0 <= m < k ==> (#[trigger] tools@[m])@ == wire_tool(request.tools@[m]@),
                decreases request.tools@.len() - k,
            {
                tools.push(openai_tool(&request.tools[k]));
                k += 1;
            }
            assert(json::json_views(tools@) =~= request@.tools.map_values(
                |tool: ToolView| wire_tool(tool),
            ));
            body = body.with("tools", json::array_value(tools));
        }
        let json = body.object();
        assert(json@->Object_0 =~= body_of(self@, request@)->Object_0);
        json
    }

    /// Where requests go.
    pub fn endpoint(&self) -> (url: String)
        ensures
            url@ == self@.base_url + "/responses"@,
    {
        text::concat(self.base_url.as_str(), "/responses")
    }

    /// The headers of a request.
    pub fn headers(&self) -> (headers: Vec<(String, String)>)
        ensures
            headers@.len() == 1,
            headers@[0].0@ == "authorization"@,
            headers@[0].1@ == "Bearer "@ + self@.api_key,
    {
        let mut headers: Vec<(String, String)> = Vec::new();
        headers.push(
            (text::copy_text("authorization"), text::concat("Bearer ", self.api_key.as_str())),
        );
        headers
    }
}

/// The kind of an event that its data names.
pub open spec fn named_kind(data: JsonView) -> Option<Seq<char>> {
    json::as_text(json::member(data, "type"@))
}

/// What is remembered after events.
pub open spec fn heard(memory: ResponsesMemory, items: Seq<JsonView>) -> ResponsesMemory
    decreases items.len(),
{
    if items.len() == 0 {
        memory
    } else {
        decoded_data(heard(memory, items.drop_last()), None, Ok(items.last())).0
    }
}

/// The pieces that events of a kind bring, one after the other.
pub open spec fn pieces(items: Seq<JsonView>, kind: Seq<char>) -> Seq<char>
    decreases items.len(),
{
    if items.len() == 0 {
        Seq::empty()
    } else {
        let before = pieces(items.drop_last(), kind);
        match (named_kind(items.last()), json::as_text(json::member(items.last(), "delta"@))) {
            (Some(last), Some(piece)) => if last == kind {
                before + piece
            } else {
                before
            },
            _ => before,
        }
    }
}

/// Whether an event announces an item.
pub open spec fn announces(data: JsonView) -> bool {
    named_kind(data) == Some("response.output_item.added"@)
}

/// Whether an event announces a call with this id of a tool with this name.
pub open spec fn announces_call(data: JsonView, tool_id: Seq<char>, tool_name: Seq<char>) -> bool {
    &&& announces(data)
    &&& json::member(data, "item"@) matches Some(item) && {
        &&& json::as_text(json::member(item, "type"@)) == Some("function_call"@)
        &&& json::as_text(json::member(item, "call_id"@)) == Some(tool_id)
        &&& json::as_text(json::member(item, "name"@)) == Some(tool_name)
    }
}

/// Whether an event announces a thought with this id and this encrypted content.
pub open spec fn announces_thought(data: JsonView, id: Seq<char>, encrypted: Seq<char>) -> bool {
    &&& announces(data)
    &&& json::member(data, "item"@) matches Some(item) && {
        &&& json::as_text(json::member(item, "type"@)) == Some("reasoning"@)
        &&& json::as_text(json::member(item, "id"@)) == Some(id)
        &&& json::as_text(json::member(item, "encrypted_content"@)) == Some(encrypted)
    }
}

/// The kinds of events are different.
proof fn lemma_kinds_differ()
    ensures
        "response.output_text.delta"@ != "response.output_item.added"@,
        "response.output_text.delta"@ != "response.reasoning_summary_text.delta"@,
        "response.output_text.delta"@ != "response.reasoning_summary_text.done"@,
        "response.output_text.delta"@ != "response.function_call_arguments.delta"@,
        "response.output_text.delta"@ != "response.function_call_arguments.done"@,
        "response.output_text.delta"@ != "response.completed"@,
        "response.output_text.delta"@ != "error"@,
        "response.output_item.added"@ != "response.reasoning_summary_text.delta"@,
        "response.output_item.added"@ != "response.reasoning_summary_text.done"@,
        "response.output_item.added"@ != "response.function_call_arguments.delta"@,
        "response.output_item.added"@ != "response.function_call_arguments.done"@,
        "response.output_item.added"@ != "response.completed"@,
        "response.output_item.added"@ != "error"@,
        "response.reasoning_summary_text.delta"@ != "response.reasoning_summary_text.done"@,
        "response.reasoning_summary_text.delta"@ != "response.function_call_arguments.delta"@,
        "response.reasoning_summary_text.delta"@ != "response.function_call_arguments.done"@,
        "response.reasoning_summary_text.delta"@ != "response.completed"@,
        "response.reasoning_summary_text.delta"@ != "error"@,
        "response.reasoning_summary_text.done"@ != "response.function_call_arguments.delta"@,
        "response.reasoning_summary_text.done"@ != "response.function_call_arguments.done"@,
        "response.reasoning_summary_text.done"@ != "response.completed"@,
        "response.reasoning_summary_text.done"@ != "error"@,
        "response.function_call_arguments.delta"@ != "response.function_call_arguments.done"@,
        "response.function_call_arguments.delta"@ != "response.completed"@,
        "response.function_call_arguments.delta"@ != "error"@,
        "response.function_call_arguments.done"@ != "response.completed"@,
        "response.function_call_arguments.done"@ != "error"@,
        "response.completed"@ != "error"@,
        "function_call"@ != "reasoning"@,
{
    reveal_strlit("response.output_text.delta");
    reveal_strlit("response.output_item.added");
    reveal_strlit("response.reasoning_summary_text.delta");
    reveal_strlit("response.reasoning_summary_text.done");
    reveal_strlit("response.function_call_arguments.delta");
    reveal_strlit("response.function_call_arguments.done");
    reveal_strlit("response.completed");
    reveal_strlit("error");
    reveal_strlit("function_call");
    reveal_strlit("reasoning");
    assert("response.output_text.delta"@[16] != "response.output_item.added"@[16]);
    assert("response.reasoning_summary_text.delta"@[9]
        != "response.function_call_arguments.done"@[9]);
    assert("response.output_text.delta"@.len() == 26);
    assert("response.reasoning_summary_text.delta"@.len() == 37);
    assert("response.reasoning_summary_text.done"@.len() == 36);
    assert("response.function_call_arguments.delta"@.len() == 38);
    assert("response.function_call_arguments.done"@.len() == 37);
    assert("response.completed"@.len() == 18);
    assert("error"@.len() == 5);
    assert("function_call"@.len() == 13 && "reasoning"@.len() == 9);
}

/// What is remembered of a call after it was announced.
proof fn lemma_call_is_remembered(
    memory: ResponsesMemory,
    items: Seq<JsonView>,
    tool_id: Seq<char>,
    tool_name: Seq<char>,
)
    requires
        items.len() > 0,
        announces_call(items[0], tool_id, tool_name),
        forall|i: int|
            0 < i < items.len() ==> named_kind(#[trigger] items[i]) is Some && !announces(items[i]),
    ensures
        heard(memory, items).current_tool_id == tool_id,
        heard(memory, items).current_tool_name == tool_name,
        heard(memory, items).tool_arguments == pieces(
            items,
            "response.function_call_arguments.delta"@,
        ),
        heard(memory, items).saw_tool_call,
    decreases items.len(),
{
    lemma_kinds_differ();
    let kind = "response.function_call_arguments.delta"@;
    let before = items.drop_last();
    if items.len() == 1 {
        assert(before =~= Seq::<JsonView>::empty());
        assert(heard(memory, before) == memory);
        assert(pieces(before, kind) == Seq::<char>::empty());
        assert(items.last() == items[0]);
    } else {
        assert forall|i: int| 0 < i < before.len() implies named_kind(#[trigger] before[i]) is Some
            && !announces(before[i]) by {
            assert(before[i] == items[i]);
        }
        assert(before[0] == items[0]);
        lemma_call_is_remembered(memory, before, tool_id, tool_name);
        assert(items.last() == items[items.len() - 1]);
        assert(named_kind(items.last()) is Some && !announces(items.last()));
    }
}

/// A call holds its own arguments: once a call is announced and before another item is, the
/// end of its arguments completes the call with its id, its name and the JSON of all pieces
/// of arguments since it was announced, whatever came before it and whatever else came in
/// between. Without any piece it has no arguments.
pub proof fn law_call_holds_its_own_pieces(
    memory: ResponsesMemory,
    items: Seq<JsonView>,
    done: JsonView,
    tool_id: Seq<char>,
    tool_name: Seq<char>,
)
    requires
        items.len() > 0,
        announces_call(items[0], tool_id, tool_name),
        forall|i: int|
            0 < i < items.len() ==> named_kind(#[trigger] items[i]) is Some && !announces(items[i]),
        named_kind(done) == Some("response.function_call_arguments.done"@),
    ensures
        ({
            let joined = pieces(items, "response.function_call_arguments.delta"@);
            let completed = decoded_data(heard(memory, items), None, Ok(done)).1;
            &&& joined.len() == 0 ==> completed == Ok::<_, LlmErrorView>(
                seq![
                    LlmEventView::ToolCallComplete {
                        tool_id,
                        tool_name,
                        arguments: JsonView::Object(Seq::empty()),
                    },
                ],
            )
            &&& joined.len() > 0 ==> match json::parsed_json(joined) {
                Ok(arguments) => completed == Ok::<_, LlmErrorView>(
                    seq![LlmEventView::ToolCallComplete { tool_id, tool_name, arguments }],
                ),
                Err(_) => completed is Err && completed->Err_0 is InvalidResponse,
            }
        }),
{
    lemma_kinds_differ();
    lemma_call_is_remembered(memory, items, tool_id, tool_name);
}

/// What two decoders tell of a call depends only on the events from its announcement on:
/// whatever they heard before, they complete it alike.
pub proof fn law_call_does_not_depend_on_the_past(
    first: ResponsesMemory,
    second: ResponsesMemory,
    items: Seq<JsonView>,
    done: JsonView,
    tool_id: Seq<char>,
    tool_name: Seq<char>,
)
    requires
        items.len() > 0,
        announces_call(items[0], tool_id, tool_name),
        forall|i: int|
            0 < i < items.len() ==> named_kind(#[trigger] items[i]) is Some && !announces(items[i]),
        named_kind(done) == Some("response.function_call_arguments.done"@),
    ensures
        decoded_data(heard(first, items), None, Ok(done)).1 == decoded_data(
            heard(second, items),
            None,
            Ok(done),
        ).1,
{
    law_call_holds_its_own_pieces(first, items, done, tool_id, tool_name);
    law_call_holds_its_own_pieces(second, items, done, tool_id, tool_name);
    lemma_kinds_differ();
    lemma_call_is_remembered(first, items, tool_id, tool_name);
    lemma_call_is_remembered(second, items, tool_id, tool_name);
}

/// What is remembered of a thought after it was announced.
proof fn lemma_thought_is_remembered(
    memory: ResponsesMemory,
    items: Seq<JsonView>,
    id: Seq<char>,
    encrypted: Seq<char>,
)
    requires
        items.len() > 0,
        announces_thought(items[0], id, encrypted),
        forall|i: int|
            0 < i < items.len() ==> named_kind(#[trigger] items[i]) is Some && !announces(items[i]),
    ensures
        heard(memory, items).reasoning_id == id,
        heard(memory, items).reasoning_encrypted == encrypted,
        heard(memory, items).reasoning_text == pieces(
            items,
            "response.reasoning_summary_text.delta"@,
        ),
    decreases items.len(),
{
    lemma_kinds_differ();
    let kind = "response.reasoning_summary_text.delta"@;
    let before = items.drop_last();
    if items.len() == 1 {
        assert(before =~= Seq::<JsonView>::empty());
        assert(heard(memory, before) == memory);
        assert(pieces(before, kind) == Seq::<char>::empty());
        assert(items.last() == items[0]);
    } else {
        assert forall|i: int| 0 < i < before.len() implies named_kind(#[trigger] before[i]) is Some
            && !announces(before[i]) by {
            assert(before[i] == items[i]);
        }
        assert(before[0] == items[0]);
        lemma_thought_is_remembered(memory, before, id, encrypted);
        assert(items.last() == items[items.len() - 1]);
        assert(named_kind(items.last()) is Some && !announces(items.last()));
    }
}

/// A thought holds its own pieces: once it is announced and before another item is, its end
/// completes it with its id, its encrypted content and all pieces since it was announced,
/// whatever came before it.
pub proof fn law_thought_holds_its_own_pieces(
    memory: ResponsesMemory,
    items: Seq<JsonView>,
    done: JsonView,
    id: Seq<char>,
    encrypted: Seq<char>,
)
    requires
        items.len() > 0,
        announces_thought(items[0], id, encrypted),
        forall|i: int|
            0 < i < items.len() ==> named_kind(#[trigger] items[i]) is Some && !announces(items[i]),
        named_kind(done) == Some("response.reasoning_summary_text.done"@),
    ensures
        decoded_data(heard(memory, items), None, Ok(done)).1 == Ok::<_, LlmErrorView>(
            seq![
                LlmEventView::ThinkingComplete {
                    thinking: pieces(items, "response.reasoning_summary_text.delta"@),
                    signature: id,
                    encrypted_content: encrypted,
                },
            ],
        ),
{
    lemma_kinds_differ();
    lemma_thought_is_remembered(memory, items, id, encrypted);
}

/// A call was seen only where one was announced.
proof fn lemma_calls_are_noticed(items: Seq<JsonView>)
    ensures
        heard(fresh_memory(), items).saw_tool_call <==> exists|i: int, id: Seq<char>, name: Seq<char>|
            0 <= i < items.len() && #[trigger] announces_call(items[i], id, name),
    decreases items.len(),
{
    lemma_kinds_differ();
    if items.len() > 0 {
        let before = items.drop_last();
        lemma_calls_are_noticed(before);
        let last = items.last();
        assert(last == items[items.len() - 1]);
        if heard(fresh_memory(), before).saw_tool_call {
            let (i, id, name) = choose|i: int, id: Seq<char>, name: Seq<char>|
                0 <= i < before.len() && #[trigger] announces_call(before[i], id, name);
            assert(announces_call(items[i], id, name));
        } else {
            assert forall|i: int, id: Seq<char>, name: Seq<char>|
                0 <= i < items.len() - 1 implies !#[trigger] announces_call(items[i], id, name) by {
                assert(before[i] == items[i]);
                assert(!announces_call(before[i], id, name));
            }
            if heard(fresh_memory(), items).saw_tool_call {
                let item = json::member(last, "item"@)->0;
                let id = json::as_text(json::member(item, "call_id"@))->0;
                let name = json::as_text(json::member(item, "name"@))->0;
                assert(response::event_kind(None, last) == "response.output_item.added"@);
                reveal_strlit("response.output_item.added");
                assert(announces_call(items[items.len() - 1], id, name));
            }
        }
    }
}

/// The end of an answer tells whether a call was announced in it, and what was used: input
/// that was read from the cache counts once, as read from the cache.
pub proof fn law_end_tells_of_calls_and_usage(items: Seq<JsonView>, last: JsonView)
    requires
        named_kind(last) == Some("response.completed"@),
    ensures
        ({
            let end = decoded_data(heard(fresh_memory(), items), None, Ok(last)).1;
            let usage = json::member_of_member(last, "response"@, "usage"@);
            let told = (end->Ok_0)[0]->StreamEnd_usage;
            &&& end is Ok && (end->Ok_0).len() == 1 && (end->Ok_0)[0] is StreamEnd
            &&& (end->Ok_0)[0]->StreamEnd_stop_reason == (if exists|
                i: int,
                id: Seq<char>,
                name: Seq<char>,
            |
                0 <= i < items.len() && #[trigger] announces_call(items[i], id, name) {
                StopReasonView::ToolUse
            } else {
                StopReasonView::EndTurn
            })
            &&& forall|input: u64, cached: u64, output: u64|
                usage is Some && #[trigger] uses(usage->0, input, cached, output) ==> {
                    &&& told.input_tokens + told.cache_read_tokens == (if input >= cached {
                        input
                    } else {
                        cached
                    })
                    &&& told.cache_read_tokens == cached
                    &&& told.output_tokens == output
                    &&& told.cache_creation_tokens == 0
                }
        }),
{
    lemma_kinds_differ();
    lemma_calls_are_noticed(items);
}

/// Whether this is what a report of usage says.
pub open spec fn uses(usage: JsonView, input: u64, cached: u64, output: u64) -> bool {
    &&& json::member(usage, "input_tokens"@) == Some(JsonView::Unsigned(input))
    &&& json::member_of_member(usage, "input_tokens_details"@, "cached_tokens"@) == Some(
        JsonView::Unsigned(cached),
    )
    &&& json::member(usage, "output_tokens"@) == Some(JsonView::Unsigned(output))
}

/// Pieces are passed on as they come, an announced call is told of, an error is the failure
/// of the answer, and events of other kinds are passed over. Where the data does not say its
/// kind, the name of the event does.
pub proof fn law_events_are_passed_on(
    memory: ResponsesMemory,
    name: Option<Seq<char>>,
    data: JsonView,
    piece: Seq<char>,
    id: Seq<char>,
)
    ensures
        ({
            let kind = match named_kind(data) {
                Some(kind) => kind,
                None => match name {
                    Some(kind) => kind,
                    None => Seq::empty(),
                },
            };
            let (after, told) = decoded_data(memory, name, Ok(data));
            let delta = json::as_text(json::member(data, "delta"@));
            &&& kind == "response.output_text.delta"@ && delta == Some(piece) ==> after == memory
                && told == Ok::<_, LlmErrorView>(seq![LlmEventView::TextDelta { text: piece }])
            &&& kind == "response.reasoning_summary_text.delta"@ && delta == Some(piece) ==> told
                == Ok::<_, LlmErrorView>(seq![LlmEventView::ThinkingDelta { text: piece }])
            &&& kind == "response.function_call_arguments.delta"@ && delta == Some(piece) ==> told
                == Ok::<_, LlmErrorView>(seq![LlmEventView::ToolCallDelta { text: piece }])
            &&& (kind == "response.output_text.delta"@ || kind
                == "response.reasoning_summary_text.delta"@ || kind
                == "response.function_call_arguments.delta"@) && delta is None ==> after == memory
                && told is Err && told->Err_0 is InvalidResponse
            &&& announces_call(data, id, piece) ==> told == Ok::<_, LlmErrorView>(
                seq![LlmEventView::ToolCallStart { tool_id: id, tool_name: piece }],
            )
            &&& kind == "error"@ && json::as_text(
                json::member_of_member(data, "error"@, "message"@),
            ) == Some(piece) ==> told == Err::<Seq<LlmEventView>, _>(
                LlmErrorView::InvalidResponse { message: piece },
            )
            &&& kind == "error"@ ==> after == memory && told is Err
            &&& (kind != "response.output_text.delta"@ && kind != "response.output_item.added"@
                && kind != "response.reasoning_summary_text.delta"@ && kind
                != "response.reasoning_summary_text.done"@ && kind
                != "response.function_call_arguments.delta"@ && kind
                != "response.function_call_arguments.done"@ && kind != "response.completed"@
                && kind != "error"@) ==> after == memory && told == Ok::<_, LlmErrorView>(
                Seq::<LlmEventView>::empty(),
            )
        }),
        forall|message: Seq<char>|
            ({
                let (after, told) = #[trigger] decoded_data(memory, name, Err(message));
                after == memory && told is Err && told->Err_0 is InvalidResponse
            }),
{
    lemma_kinds_differ();
}

/// What is sent of a conversation is what is sent of its messages, in their order, and what
/// is sent of a message is what is sent of its blocks.
pub proof fn law_all_is_sent_in_order(
    first: Seq<MessageView>,
    message: MessageView,
    second: Seq<MessageView>,
    before: Seq<BlockView>,
    block: BlockView,
    after: Seq<BlockView>,
)
    requires
        message.content == before.push(block) + after,
    ensures
        input_items(first.push(message) + second) == input_items(first) + block_items(
            message.role,
            before,
        ) + block_items(message.role, seq![block]) + block_items(message.role, after) + input_items(
            second,
        ),
        input_items(Seq::empty()).len() == 0,
        block_items(message.role, Seq::empty()).len() == 0,
{
    lemma_items_split(first, message, second);
    lemma_blocks_split(message.role, before, block, after);
    assert(input_items(first.push(message) + second) =~= input_items(first) + block_items(
        message.role,
        before,
    ) + block_items(message.role, seq![block]) + block_items(message.role, after) + input_items(
        second,
    ));
}

proof fn lemma_items_split(
    first: Seq<MessageView>,
    message: MessageView,
    second: Seq<MessageView>,
)
    ensures
        input_items(first.push(message) + second) == input_items(first) + block_items(
            message.role,
            message.content,
        ) + input_items(second),
    decreases second.len(),
{
    let all = first.push(message) + second;
    if second.len() == 0 {
        assert(all =~= first.push(message));
        assert(all.drop_last() =~= first);
        assert(input_items(all) + input_items(second) =~= input_items(all));
    } else {
        lemma_items_split(first, message, second.drop_last());
        assert(all.drop_last() =~= first.push(message) + second.drop_last());
        assert(all.last() == second.last());
        assert(input_items(all) =~= input_items(first) + block_items(
            message.role,
            message.content,
        ) + input_items(second));
    }
}

proof fn lemma_blocks_split(
    role: MessageRole,
    first: Seq<BlockView>,
    block: BlockView,
    second: Seq<BlockView>,
)
    ensures
        block_items(role, first.push(block) + second) == block_items(role, first) + block_items(
            role,
            seq![block],
        ) + block_items(role, second),
    decreases second.len(),
{
    let all = first.push(block) + second;
    let one = seq![block];
    assert(one.drop_last() =~= Seq::<BlockView>::empty());
    assert(block_items(role, one.drop_last()) =~= Seq::<JsonView>::empty());
    assert(one.last() == block);
    if second.len() == 0 {
        assert(all =~= first.push(block));
        assert(all.drop_last() =~= first);
        assert(block_items(role, all) =~= block_items(role, first) + block_items(role, one)
            + block_items(role, second));
    } else {
        lemma_blocks_split(role, first, block, second.drop_last());
        assert(all.drop_last() =~= first.push(block) + second.drop_last());
        assert(all.last() == second.last());
        assert(block_items(role, all) =~= block_items(role, first) + block_items(role, one)
            + block_items(role, second));
    }
}

/// What is sent of a block: a text as a message of its speaker, a result under the id of its
/// call, and what only an answer holds, calls and thoughts, only of an answer.
pub proof fn law_blocks_are_sent_as_items(role: MessageRole, block: BlockView)
    ensures
        ({
            let items = block_items(role, seq![block]);
            let item = items[0];
            match block {
                BlockView::Text { text } => {
                    &&& items.len() == 1
                    &&& json::member(item, "type"@) == Some(JsonView::Text("message"@))
                    &&& json::member(item, "role"@) == Some(
                        JsonView::Text(
                            match role {
                                MessageRole::User => "user"@,
                                MessageRole::Assistant => "assistant"@,
                                MessageRole::System => "user"@,
                            },
                        ),
                    )
                    &&& json::member(item, "content"@) == Some(JsonView::Text(text))
                },
                BlockView::ToolResult { tool_use_id, content, .. } => {
                    &&& items.len() == 1
                    &&& json::member(item, "type"@) == Some(JsonView::Text("function_call_output"@))
                    &&& json::member(item, "call_id"@) == Some(JsonView::Text(tool_use_id))
                    &&& json::member(item, "output"@) == Some(JsonView::Text(content))
                },
                BlockView::ToolUse { tool_use_id, tool_name, arguments } => {
                    &&& role != MessageRole::Assistant ==> items.len() == 0
                    &&& role == MessageRole::Assistant ==> {
                        &&& items.len() == 1
                        &&& json::member(item, "type"@) == Some(JsonView::Text("function_call"@))
                        &&& json::member(item, "call_id"@) == Some(JsonView::Text(tool_use_id))
                        &&& json::member(item, "name"@) == Some(JsonView::Text(tool_name))
                        &&& json::member(item, "arguments"@) == Some(
                            JsonView::Text(json::json_text(arguments)),
                        )
                    }
                },
                BlockView::Thinking { thinking, signature, encrypted_content } => {
                    &&& role != MessageRole::Assistant ==> items.len() == 0
                    &&& role == MessageRole::Assistant ==> {
                        &&& items.len() == 1
                        &&& json::member(item, "type"@) == Some(JsonView::Text("reasoning"@))
                        &&& json::member(item, "id"@) == Some(JsonView::Text(signature))
                        &&& json::member(item, "encrypted_content"@) == (
                        if encrypted_content.len() > 0 {
                            Some(JsonView::Text(encrypted_content))
                        } else {
                            None
                        })
                        &&& json::as_items(json::member(item, "summary"@)) matches Some(summary) && {
                            &&& summary.len() == 1
                            &&& json::member(summary[0], "type"@) == Some(
                                JsonView::Text("summary_text"@),
                            )
                            &&& json::member(summary[0], "text"@) == Some(JsonView::Text(thinking))
                        }
                    }
                },
            }
        }),
{
    reveal_with_fuel(json::entry_from, 6);
    reveal_strlit("type");
    reveal_strlit("role");
    reveal_strlit("content");
    reveal_strlit("call_id");
    reveal_strlit("output");
    reveal_strlit("name");
    reveal_strlit("arguments");
    reveal_strlit("id");
    reveal_strlit("encrypted_content");
    reveal_strlit("summary");
    reveal_strlit("text");
    assert("type"@[0] == 't' && "role"@[0] == 'r' && "name"@[0] == 'n' && "text"@[1] == 'e');
    assert("type"@[1] == 'y' && "content"@[0] == 'c' && "call_id"@[1] == 'a');
    assert("content"@[1] == 'o' && "summary"@[0] == 's' && "call_id"@[0] == 'c');
    assert("id"@.len() == 2 && "encrypted_content"@.len() == 17 && "summary"@.len() == 7);
    assert("type"@.len() == 4 && "text"@.len() == 4 && "arguments"@.len() == 9);
    let one = seq![block];
    assert(one.drop_last() =~= Seq::<BlockView>::empty());
    assert(block_items(role, one.drop_last()) =~= Seq::<JsonView>::empty());
    assert(one.last() == block);
}

/// A request asks the model for what is wanted: it names the model, the instructions and the
/// limit, asks for a stream, sends the conversation, describes every tool in order, and asks
/// for thoughts only of a model that thinks.
pub proof fn law_request_asks_for_what_is_wanted(
    client: OpenAiClientView,
    request: RequestView,
    index: int,
)
    ensures
        ({
            let body = body_of(client, request);
            &&& json::member(body, "model"@) == Some(JsonView::Text(client.model))
            &&& json::member(body, "instructions"@) == Some(JsonView::Text(request.system_prompt))
            &&& json::member(body, "max_output_tokens"@) == Some(
                JsonView::Unsigned(client.max_output_tokens),
            )
            &&& json::member(body, "stream"@) == Some(JsonView::Bool(true))
            &&& json::member(body, "input"@) == Some(
                JsonView::Array(input_items(request.conversation)),
            )
            &&& json::member(body, "reasoning"@) is Some <==> client.thinking
            &&& json::member(body, "include"@) is Some <==> client.thinking
            &&& json::member(body, "tools"@) is Some <==> request.tools.len() > 0
            &&& 0 <= index < request.tools.len() ==> {
                let tools = json::as_items(json::member(body, "tools"@));
                let tool = (tools->0)[index];
                &&& tools is Some && (tools->0).len() == request.tools.len()
                &&& json::member(tool, "type"@) == Some(JsonView::Text("function"@))
                &&& json::member(tool, "name"@) == Some(JsonView::Text(request.tools[index].name))
                &&& json::member(tool, "description"@) == Some(
                    JsonView::Text(request.tools[index].description),
                )
                &&& json::member(tool, "parameters"@) == Some(request.tools[index].parameters)
                &&& json::member(tool, "strict"@) == Some(JsonView::Bool(false))
            }
        }),
{
    reveal_with_fuel(json::entry_from, 10);
    reveal_strlit("model");
    reveal_strlit("instructions");
    reveal_strlit("max_output_tokens");
    reveal_strlit("stream");
    reveal_strlit("input");
    reveal_strlit("reasoning");
    reveal_strlit("include");
    reveal_strlit("tools");
    reveal_strlit("type");
    reveal_strlit("name");
    reveal_strlit("description");
    reveal_strlit("parameters");
    reveal_strlit("strict");
    assert("model"@[0] == 'm' && "input"@[0] == 'i' && "tools"@[0] == 't');
    assert("stream"@[2] == 'r' && "strict"@[2] == 'r' && "stream"@[3] == 'e');
    assert("reasoning"@.len() == 9 && "include"@.len() == 7 && "instructions"@.len() == 12);
    assert("type"@[0] == 't' && "name"@[0] == 'n' && "strict"@.len() == 6);
    assert("description"@.len() == 11 && "name"@.len() == 4 && "parameters"@.len() == 10);
    let body = body_of(client, request);
    let entries = body->Object_0;
    if client.thinking {
        assert(entries[0].0 == "include"@);
        assert(entries[1].0 == "input"@);
        assert(entries[2].0 == "instructions"@);
        assert(entries[3].0 == "max_output_tokens"@);
        assert(entries[4].0 == "model"@);
        assert(entries[5].0 == "reasoning"@);
        assert(entries[6].0 == "stream"@);
        assert(request.tools.len() > 0 ==> entries[7].0 == "tools"@);
        assert(entries.len() == if request.tools.len() > 0 {
            8int
        } else {
            7
        });
    } else {
        assert(entries[0].0 == "input"@);
        assert(entries[1].0 == "instructions"@);
        assert(entries[2].0 == "max_output_tokens"@);
        assert(entries[3].0 == "model"@);
        assert(entries[4].0 == "stream"@);
        assert(request.tools.len() > 0 ==> entries[5].0 == "tools"@);
        assert(entries.len() == if request.tools.len() > 0 {
            6int
        } else {
            5
        });
    }
}

/// An announcement that lacks its item, or a call that lacks its id or its name, is refused, and
/// no call has been announced by it.
pub proof fn law_incomplete_announcements_are_refused(memory: ResponsesMemory, data: JsonView)
    requires
        announces(data),
    ensures
        ({
            let (after, told) = decoded_data(memory, None, Ok(data));
            let item = json::member(data, "item"@);
            let call = item is Some && json::as_text(json::member(item->0, "type"@)) == Some(
                "function_call"@,
            );
            let complete = call && json::as_text(json::member(item->0, "call_id"@)) is Some
                && json::as_text(json::member(item->0, "name"@)) is Some;
            &&& item is None || (call && !complete) ==> told is Err && told->Err_0
                is InvalidResponse && after.saw_tool_call == memory.saw_tool_call
                && after.tool_arguments == memory.tool_arguments
            &&& item is Some && !call ==> told == Ok::<_, LlmErrorView>(Seq::<LlmEventView>::empty())
            &&& complete ==> told is Ok && after.saw_tool_call
        }),
{
    lemma_kinds_differ();
}

/// What is decoded of an event is what its data says, read as JSON, with the name of the event;
/// the end of the stream says nothing more.
pub proof fn law_data_is_read_as_json(memory: ResponsesMemory, event: SseEventView)
    ensures
        <OpenAiResponsesStreamState as SseDecoder>::decoding(memory, event) == decoded_data(
            memory,
            event.event,
            json::parsed_json(event.data),
        ),
        <OpenAiResponsesStreamState as SseDecoder>::finishing(memory) == (
            memory,
            Ok::<_, LlmErrorView>(Seq::<LlmEventView>::empty()),
        ),
{
}

} // verus!
