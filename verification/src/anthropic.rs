//! The Anthropic Messages protocol: requests and the events of the answer.
use std::collections::BTreeMap;

use vstd::prelude::*;

use crate::client::{ProviderRequest, RequestView, ToolDefinition, ToolView};
use crate::client;
use crate::config::ProviderConfig;
use crate::conversation::{BlockView, ContentBlock, ConversationMessage, MessageRole, MessageView};
use crate::conversation;
use crate::events::{
    LlmError, LlmErrorView, LlmEvent, LlmEventView, StopReason, StopReasonView, Usage,
};
use crate::events;
use crate::http::SseDecoder;
use crate::json::{Json, JsonView, Members};
use crate::json;
use crate::limits;
use crate::response;
use crate::sse::{SseEvent, SseEventView};
use crate::text;

verus! {

/// A block of the answer that has begun and not yet ended.
#[derive(Debug)]
pub enum AnthropicBlockState {
    Text,
    Thinking { text: String, signature: String },
    ToolUse { tool_id: String, tool_name: String, arguments: String },
}

/// What an [`AnthropicBlockState`] holds.
#[verifier::ext_equal]
pub enum OpenBlock {
    Text,
    Thinking { text: Seq<char>, signature: Seq<char> },
    ToolUse { tool_id: Seq<char>, tool_name: Seq<char>, arguments: Seq<char> },
}

impl View for AnthropicBlockState {
    type V = OpenBlock;

    open spec fn view(&self) -> OpenBlock {
        match *self {
            AnthropicBlockState::Text => OpenBlock::Text,
            AnthropicBlockState::Thinking { text, signature } => OpenBlock::Thinking {
                text: text@,
                signature: signature@,
            },
            AnthropicBlockState::ToolUse { tool_id, tool_name, arguments } => OpenBlock::ToolUse {
                tool_id: tool_id@,
                tool_name: tool_name@,
                arguments: arguments@,
            },
        }
    }
}

/// What is remembered of the answer so far.
#[derive(Debug)]
pub struct AnthropicStreamState {
    usage: Usage,
    stop_reason: Option<StopReason>,
    blocks: BTreeMap<u64, AnthropicBlockState>,
}

/// What an [`AnthropicStreamState`] holds.
#[verifier::ext_equal]
pub struct AnthropicMemory {
    pub usage: Usage,
    pub stop_reason: Option<StopReasonView>,
    pub blocks: Map<u64, OpenBlock>,
}

impl View for AnthropicStreamState {
    type V = AnthropicMemory;

    closed spec fn view(&self) -> AnthropicMemory {
        AnthropicMemory {
            usage: self.usage,
            stop_reason: events::optional_stop_reason(self.stop_reason),
            blocks: self.blocks@.map_values(|block: AnthropicBlockState| block@),
        }
    }
}

/// What is remembered before anything has arrived.
pub open spec fn fresh_memory() -> AnthropicMemory {
    AnthropicMemory { usage: events::no_usage(), stop_reason: None, blocks: Map::empty() }
}

impl Default for AnthropicStreamState {
    fn default() -> (state: Self)
        ensures
            state@ == fresh_memory(),
    {
        let state = AnthropicStreamState {
            usage: Usage::default(),
            stop_reason: None,
            blocks: BTreeMap::new(),
        };
        assert(state@.blocks =~= fresh_memory().blocks);
        state
    }
}

/// What an event comes to: what is remembered after it, and what it stands for.
pub type Decoding = (AnthropicMemory, Result<Seq<LlmEventView>, LlmErrorView>);

/// The stop reason that the provider calls `value`.
pub open spec fn stop_reason_named(value: Seq<char>) -> StopReasonView {
    if value == "end_turn"@ {
        StopReasonView::EndTurn
    } else if value == "tool_use"@ {
        StopReasonView::ToolUse
    } else if value == "max_tokens"@ {
        StopReasonView::MaxTokens
    } else if value == "stop_sequence"@ {
        StopReasonView::StopSequence
    } else {
        StopReasonView::Other(value)
    }
}

/// The stop reason that the provider calls `value`.
pub fn anthropic_stop_reason(value: &str) -> (reason: StopReason)
    ensures
        reason@ == stop_reason_named(value@),
{
    if text::same_text(value, "end_turn") {
        StopReason::EndTurn
    } else if text::same_text(value, "tool_use") {
        StopReason::ToolUse
    } else if text::same_text(value, "max_tokens") {
        StopReason::MaxTokens
    } else if text::same_text(value, "stop_sequence") {
        StopReason::StopSequence
    } else {
        StopReason::Other(text::copy_text(value))
    }
}

/// The beginning of the answer: it reports what was read.
pub open spec fn message_started(memory: AnthropicMemory, data: JsonView) -> Decoding {
    match json::member_of_member(data, "message"@, "usage"@) {
        Some(usage) => (
            AnthropicMemory {
                usage: Usage {
                    input_tokens: json::unsigned_or_zero(json::member(usage, "input_tokens"@)),
                    output_tokens: memory.usage.output_tokens,
                    cache_read_tokens: json::unsigned_or_zero(
                        json::member(usage, "cache_read_input_tokens"@),
                    ),
                    cache_creation_tokens: json::unsigned_or_zero(
                        json::member(usage, "cache_creation_input_tokens"@),
                    ),
                },
                ..memory
            },
            Ok(Seq::empty()),
        ),
        None => (memory, Ok(Seq::empty())),
    }
}

/// The beginning of a block: the block is remembered, and a tool call is announced.
pub open spec fn block_started(memory: AnthropicMemory, data: JsonView) -> Decoding {
    match response::required_integer("Anthropic"@, data, "index"@) {
        Err(error) => (memory, Err(error)),
        Ok(index) => match json::member(data, "content_block"@) {
            None => (memory, Err(response::missing_part("Anthropic"@))),
            Some(block) => {
                let kind = json::as_text(json::member(block, "type"@));
                if kind == Some("thinking"@) {
                    (
                        with_block(
                            memory,
                            index,
                            OpenBlock::Thinking {
                                text: response::text_or_empty(block, "thinking"@),
                                signature: response::text_or_empty(block, "signature"@),
                            },
                        ),
                        Ok(Seq::empty()),
                    )
                } else if kind == Some("tool_use"@) {
                    match (response::required_text("Anthropic"@, block, "id"@), response::required_text("Anthropic"@, block, "name"@)) {
                        (Err(error), _) => (memory, Err(error)),
                        (Ok(_), Err(error)) => (memory, Err(error)),
                        (Ok(tool_id), Ok(tool_name)) => (
                            with_block(
                                memory,
                                index,
                                OpenBlock::ToolUse { tool_id, tool_name, arguments: Seq::empty() },
                            ),
                            Ok(seq![LlmEventView::ToolCallStart { tool_id, tool_name }]),
                        ),
                    }
                } else {
                    (with_block(memory, index, OpenBlock::Text), Ok(Seq::empty()))
                }
            },
        },
    }
}

/// The memory with `block` under `index`.
pub open spec fn with_block(
    memory: AnthropicMemory,
    index: u64,
    block: OpenBlock,
) -> AnthropicMemory {
    AnthropicMemory { blocks: memory.blocks.insert(index, block), ..memory }
}

/// The memory with `more` added to the thinking under `index`, if there is any.
pub open spec fn with_thought(
    memory: AnthropicMemory,
    index: u64,
    more: Seq<char>,
) -> AnthropicMemory {
    if memory.blocks.contains_key(index) {
        match memory.blocks[index] {
            OpenBlock::Thinking { text, signature } => with_block(
                memory,
                index,
                OpenBlock::Thinking { text: text + more, signature },
            ),
            _ => memory,
        }
    } else {
        memory
    }
}

/// The memory with `signature` for the thinking under `index`, if there is any.
pub open spec fn with_signature(
    memory: AnthropicMemory,
    index: u64,
    signature: Seq<char>,
) -> AnthropicMemory {
    if memory.blocks.contains_key(index) {
        match memory.blocks[index] {
            OpenBlock::Thinking { text, .. } => with_block(
                memory,
                index,
                OpenBlock::Thinking { text, signature },
            ),
            _ => memory,
        }
    } else {
        memory
    }
}

/// The memory with `more` added to the arguments of the tool call under `index`, if
/// there is one.
pub open spec fn with_arguments(
    memory: AnthropicMemory,
    index: u64,
    more: Seq<char>,
) -> AnthropicMemory {
    if memory.blocks.contains_key(index) {
        match memory.blocks[index] {
            OpenBlock::ToolUse { tool_id, tool_name, arguments } => with_block(
                memory,
                index,
                OpenBlock::ToolUse { tool_id, tool_name, arguments: arguments + more },
            ),
            _ => memory,
        }
    } else {
        memory
    }
}

/// A piece of a block.
pub open spec fn block_continued(memory: AnthropicMemory, data: JsonView) -> Decoding {
    match response::required_integer("Anthropic"@, data, "index"@) {
        Err(error) => (memory, Err(error)),
        Ok(index) => match json::member(data, "delta"@) {
            None => (memory, Err(response::missing_part("Anthropic"@))),
            Some(delta) => {
                let kind = response::text_or_empty(delta, "type"@);
                if kind == "text_delta"@ {
                    match response::required_text("Anthropic"@, delta, "text"@) {
                        Err(error) => (memory, Err(error)),
                        Ok(text) => (memory, Ok(seq![LlmEventView::TextDelta { text }])),
                    }
                } else if kind == "thinking_delta"@ {
                    match response::required_text("Anthropic"@, delta, "thinking"@) {
                        Err(error) => (memory, Err(error)),
                        Ok(text) => (
                            with_thought(memory, index, text),
                            Ok(seq![LlmEventView::ThinkingDelta { text }]),
                        ),
                    }
                } else if kind == "signature_delta"@ {
                    match response::required_text("Anthropic"@, delta, "signature"@) {
                        Err(error) => (memory, Err(error)),
                        Ok(signature) => (
                            with_signature(memory, index, signature),
                            Ok(Seq::empty()),
                        ),
                    }
                } else if kind == "input_json_delta"@ {
                    match response::required_text("Anthropic"@, delta, "partial_json"@) {
                        Err(error) => (memory, Err(error)),
                        Ok(text) => (
                            with_arguments(memory, index, text),
                            Ok(seq![LlmEventView::ToolCallDelta { text }]),
                        ),
                    }
                } else {
                    (memory, Ok(Seq::empty()))
                }
            },
        },
    }
}

/// The end of a block: it is forgotten, and complete thinking or a complete tool call
/// is reported.
pub open spec fn block_ended(memory: AnthropicMemory, data: JsonView) -> Decoding {
    match response::required_integer("Anthropic"@, data, "index"@) {
        Err(error) => (memory, Err(error)),
        Ok(index) => {
            let after = AnthropicMemory { blocks: memory.blocks.remove(index), ..memory };
            if !memory.blocks.contains_key(index) {
                (after, Ok(Seq::empty()))
            } else {
                match memory.blocks[index] {
                    OpenBlock::Text => (after, Ok(Seq::empty())),
                    OpenBlock::Thinking { text, signature } => (
                        after,
                        Ok(
                            seq![
                                LlmEventView::ThinkingComplete {
                                    thinking: text,
                                    signature,
                                    encrypted_content: Seq::empty(),
                                },
                            ],
                        ),
                    ),
                    OpenBlock::ToolUse { tool_id, tool_name, arguments } => (
                        after,
                        response::call_completed("Anthropic"@, tool_id, tool_name, response::collected_arguments(arguments)),
                    ),
                }
            }
        },
    }
}

/// The end of the message draws near: it reports why it stops and what was written.
pub open spec fn message_continued(memory: AnthropicMemory, data: JsonView) -> Decoding {
    (
        AnthropicMemory {
            usage: Usage {
                output_tokens: match json::as_unsigned(
                    json::member_of_member(data, "usage"@, "output_tokens"@),
                ) {
                    Some(tokens) => tokens,
                    None => memory.usage.output_tokens,
                },
                ..memory.usage
            },
            stop_reason: match json::as_text(
                json::member_of_member(data, "delta"@, "stop_reason"@),
            ) {
                Some(reason) => Some(stop_reason_named(reason)),
                None => memory.stop_reason,
            },
            blocks: memory.blocks,
        },
        Ok(Seq::empty()),
    )
}

/// The end of the message.
pub open spec fn message_ended(memory: AnthropicMemory) -> Decoding {
    (
        memory,
        Ok(
            seq![
                LlmEventView::StreamEnd {
                    stop_reason: events::stop_reason_or_end(memory.stop_reason),
                    usage: memory.usage,
                },
            ],
        ),
    )
}

/// An error that the provider reports.
pub open spec fn error_reported(memory: AnthropicMemory, data: JsonView) -> Decoding {
    (
        memory,
        Err(
            response::invalid(
                match json::as_text(json::member_of_member(data, "error"@, "message"@)) {
                    Some(message) => message,
                    None => "unknown Anthropic stream error"@,
                },
            ),
        ),
    )
}

/// What the data of an event of that kind comes to. Kinds that are not known come to
/// nothing.
pub open spec fn decoded_kind(memory: AnthropicMemory, kind: Seq<char>, data: JsonView) -> Decoding {
    if kind == "message_start"@ {
        message_started(memory, data)
    } else if kind == "content_block_start"@ {
        block_started(memory, data)
    } else if kind == "content_block_delta"@ {
        block_continued(memory, data)
    } else if kind == "content_block_stop"@ {
        block_ended(memory, data)
    } else if kind == "message_delta"@ {
        message_continued(memory, data)
    } else if kind == "message_stop"@ {
        message_ended(memory)
    } else if kind == "error"@ {
        error_reported(memory, data)
    } else {
        (memory, Ok(Seq::empty()))
    }
}

/// What an event comes to, `data` being what was read of its data.
pub open spec fn decoded_data(
    memory: AnthropicMemory,
    name: Option<Seq<char>>,
    data: Result<JsonView, Seq<char>>,
) -> Decoding {
    match data {
        Ok(data) => decoded_kind(memory, response::event_kind(name, data), data),
        Err(message) => (memory, Err(response::no_json("Anthropic"@, message))),
    }
}

impl AnthropicStreamState {
    fn start_message(&mut self, data: &Json) -> (outcome: Result<Vec<LlmEvent>, LlmError>)
        ensures
            message_started(old(self)@, data@) == (final(self)@, events::decoded_view(outcome)),
    {
        if let Some(usage) = data.get_in("message", "usage") {
            self.usage.input_tokens = json::unsigned_in_or_zero(usage.get("input_tokens"));
            self.usage.cache_read_tokens = json::unsigned_in_or_zero(
                usage.get("cache_read_input_tokens"),
            );
            self.usage.cache_creation_tokens = json::unsigned_in_or_zero(
                usage.get("cache_creation_input_tokens"),
            );
        }
        Ok(events::no_events())
    }

    /// Puts `block` under `index`.
    fn put_block(&mut self, index: u64, block: AnthropicBlockState)
        ensures
            final(self)@ == with_block(old(self)@, index, block@),
    {
        self.blocks.insert(index, block);
        assert(self@.blocks =~= old(self)@.blocks.insert(index, block@));
    }

    /// Takes the block under `index` out.
    fn take_block(&mut self, index: u64) -> (block: Option<AnthropicBlockState>)
        ensures
            final(self)@ == (AnthropicMemory {
                blocks: old(self)@.blocks.remove(index),
                ..old(self)@
            }),
            match block {
                Some(block) => old(self)@.blocks.contains_key(index) && old(self)@.blocks[index]
                    == block@,
                None => !old(self)@.blocks.contains_key(index),
            },
    {
        let block = self.blocks.remove(&index);
        assert(self@.blocks =~= old(self)@.blocks.remove(index));
        block
    }

    fn start_block(&mut self, data: &Json) -> (outcome: Result<Vec<LlmEvent>, LlmError>)
        ensures
            block_started(old(self)@, data@) == (final(self)@, events::decoded_view(outcome)),
    {
        let index = match response::required_u64("Anthropic", data, "index") {
            Ok(index) => index,
            Err(error) => {
                return Err(error);
            },
        };
        let block = match data.get("content_block") {
            Some(block) => block,
            None => {
                return Err(response::invalid_response("Anthropic"));
            },
        };
        let kind = match json::text_in(block.get("type")) {
            Some(kind) => kind,
            None => {
                self.put_block(index, AnthropicBlockState::Text);
                return Ok(events::no_events());
            },
        };
        proof {
            reveal_strlit("thinking");
            reveal_strlit("tool_use");
            assert("thinking"@[1] != "tool_use"@[1]);
        }
        if text::same_text(kind.as_str(), "thinking") {
            let state = AnthropicBlockState::Thinking {
                text: response::optional_string(block, "thinking"),
                signature: response::optional_string(block, "signature"),
            };
            self.put_block(index, state);
            Ok(events::no_events())
        } else if text::same_text(kind.as_str(), "tool_use") {
            let tool_id = match response::required_string("Anthropic", block, "id") {
                Ok(tool_id) => tool_id,
                Err(error) => {
                    return Err(error);
                },
            };
            let tool_name = match response::required_string("Anthropic", block, "name") {
                Ok(tool_name) => tool_name,
                Err(error) => {
                    return Err(error);
                },
            };
            let event = LlmEvent::ToolCallStart {
                tool_id: tool_id.clone(),
                tool_name: tool_name.clone(),
            };
            self.put_block(
                index,
                AnthropicBlockState::ToolUse { tool_id, tool_name, arguments: String::new() },
            );
            Ok(events::one_event(event))
        } else {
            self.put_block(index, AnthropicBlockState::Text);
            Ok(events::no_events())
        }
    }

    fn add_thought(&mut self, index: u64, more: &str)
        ensures
            final(self)@ == with_thought(old(self)@, index, more@),
    {
        match self.take_block(index) {
            Some(AnthropicBlockState::Thinking { text, signature }) => {
                let mut text = text;
                text.append(more);
                self.put_block(index, AnthropicBlockState::Thinking { text, signature });
            },
            Some(block) => {
                self.put_block(index, block);
            },
            None => {},
        }
        assert(self@.blocks =~= with_thought(old(self)@, index, more@).blocks);
    }

    fn set_signature(&mut self, index: u64, signature: String)
        ensures
            final(self)@ == with_signature(old(self)@, index, signature@),
    {
        match self.take_block(index) {
            Some(AnthropicBlockState::Thinking { text, .. }) => {
                self.put_block(index, AnthropicBlockState::Thinking { text, signature });
            },
            Some(block) => {
                self.put_block(index, block);
            },
            None => {},
        }
        assert(self@.blocks =~= with_signature(old(self)@, index, signature@).blocks);
    }

    fn add_arguments(&mut self, index: u64, more: &str)
        ensures
            final(self)@ == with_arguments(old(self)@, index, more@),
    {
        match self.take_block(index) {
            Some(AnthropicBlockState::ToolUse { tool_id, tool_name, arguments }) => {
                let mut arguments = arguments;
                arguments.append(more);
                self.put_block(
                    index,
                    AnthropicBlockState::ToolUse { tool_id, tool_name, arguments },
                );
            },
            Some(block) => {
                self.put_block(index, block);
            },
            None => {},
        }
        assert(self@.blocks =~= with_arguments(old(self)@, index, more@).blocks);
    }

    fn continue_block(&mut self, data: &Json) -> (outcome: Result<Vec<LlmEvent>, LlmError>)
        ensures
            block_continued(old(self)@, data@) == (final(self)@, events::decoded_view(outcome)),
    {
        let index = match response::required_u64("Anthropic", data, "index") {
            Ok(index) => index,
            Err(error) => {
                return Err(error);
            },
        };
        let delta = match data.get("delta") {
            Some(delta) => delta,
            None => {
                return Err(response::invalid_response("Anthropic"));
            },
        };
        let kind = response::optional_string(delta, "type");
        if text::same_text(kind.as_str(), "text_delta") {
            match response::required_string("Anthropic", delta, "text") {
                Ok(text) => Ok(events::one_event(LlmEvent::TextDelta { text })),
                Err(error) => Err(error),
            }
        } else if text::same_text(kind.as_str(), "thinking_delta") {
            match response::required_string("Anthropic", delta, "thinking") {
                Ok(text) => {
                    self.add_thought(index, text.as_str());
                    Ok(events::one_event(LlmEvent::ThinkingDelta { text }))
                },
                Err(error) => Err(error),
            }
        } else if text::same_text(kind.as_str(), "signature_delta") {
            match response::required_string("Anthropic", delta, "signature") {
                Ok(signature) => {
                    self.set_signature(index, signature);
                    Ok(events::no_events())
                },
                Err(error) => Err(error),
            }
        } else if text::same_text(kind.as_str(), "input_json_delta") {
            match response::required_string("Anthropic", delta, "partial_json") {
                Ok(text) => {
                    self.add_arguments(index, text.as_str());
                    Ok(events::one_event(LlmEvent::ToolCallDelta { text }))
                },
                Err(error) => Err(error),
            }
        } else {
            Ok(events::no_events())
        }
    }

    fn end_block(&mut self, data: &Json) -> (outcome: Result<Vec<LlmEvent>, LlmError>)
        ensures
            block_ended(old(self)@, data@) == (final(self)@, events::decoded_view(outcome)),
    {
        let index = match response::required_u64("Anthropic", data, "index") {
            Ok(index) => index,
            Err(error) => {
                return Err(error);
            },
        };
        match self.take_block(index) {
            Some(AnthropicBlockState::Thinking { text, signature }) => {
                let encrypted_content = String::new();
                Ok(
                    events::one_event(
                        LlmEvent::ThinkingComplete { thinking: text, signature, encrypted_content },
                    ),
                )
            },
            Some(AnthropicBlockState::ToolUse { tool_id, tool_name, arguments }) => {
                response::complete_call(
                    "Anthropic",
                    tool_id,
                    tool_name,
                    response::collect_arguments(arguments.as_str()),
                )
            },
            Some(AnthropicBlockState::Text) => Ok(events::no_events()),
            None => Ok(events::no_events()),
        }
    }

    fn continue_message(&mut self, data: &Json) -> (outcome: Result<Vec<LlmEvent>, LlmError>)
        ensures
            message_continued(old(self)@, data@) == (final(self)@, events::decoded_view(outcome)),
    {
        if let Some(reason) = json::text_in(data.get_in("delta", "stop_reason")) {
            self.stop_reason = Some(anthropic_stop_reason(reason.as_str()));
        }
        if let Some(output_tokens) = json::unsigned_in(data.get_in("usage", "output_tokens")) {
            self.usage.output_tokens = output_tokens;
        }
        Ok(events::no_events())
    }

    /// What the data of an event comes to, `data` being what was read of it.
    pub fn decode_data(&mut self, name: &Option<String>, data: Result<Json, String>) -> (outcome:
        Result<Vec<LlmEvent>, LlmError>)
        ensures
            decoded_data(old(self)@, text::optional_text(*name), json::outcome_view(data)) == (
                final(self)@,
                events::decoded_view(outcome),
            ),
    {
        let data = match data {
            Ok(data) => data,
            Err(message) => {
                return Err(response::no_json_error("Anthropic", message.as_str()));
            },
        };
        let kind = response::kind_of_event(name, &data);
        if text::same_text(kind.as_str(), "message_start") {
            self.start_message(&data)
        } else if text::same_text(kind.as_str(), "content_block_start") {
            self.start_block(&data)
        } else if text::same_text(kind.as_str(), "content_block_delta") {
            self.continue_block(&data)
        } else if text::same_text(kind.as_str(), "content_block_stop") {
            self.end_block(&data)
        } else if text::same_text(kind.as_str(), "message_delta") {
            self.continue_message(&data)
        } else if text::same_text(kind.as_str(), "message_stop") {
            Ok(
                events::one_event(
                    LlmEvent::StreamEnd {
                        stop_reason: events::reported_stop_reason(&self.stop_reason),
                        usage: self.usage,
                    },
                ),
            )
        } else if text::same_text(kind.as_str(), "error") {
            let message = match json::text_in(data.get_in("error", "message")) {
                Some(message) => message,
                None => text::copy_text("unknown Anthropic stream error"),
            };
            Err(LlmError::InvalidResponse { message })
        } else {
            Ok(events::no_events())
        }
    }
}

impl SseDecoder for AnthropicStreamState {
    type Memory = AnthropicMemory;

    open spec fn memory(&self) -> AnthropicMemory {
        self@
    }

    open spec fn decoding(memory: AnthropicMemory, event: SseEventView) -> (
        AnthropicMemory,
        Result<Seq<LlmEventView>, LlmErrorView>,
    ) {
        decoded_data(memory, event.event, json::parsed_json(event.data))
    }

    open spec fn finishing(memory: AnthropicMemory) -> (
        AnthropicMemory,
        Result<Seq<LlmEventView>, LlmErrorView>,
    ) {
        (memory, Ok(Seq::empty()))
    }

    fn decode(&mut self, event: &SseEvent) -> (outcome: Result<Vec<LlmEvent>, LlmError>) {
        let data = Json::parse(event.data.as_str());
        self.decode_data(&event.event, data)
    }

    fn finish(&mut self) -> (outcome: Result<Vec<LlmEvent>, LlmError>) {
        Ok(events::no_events())
    }
}

/// The version of the protocol.
pub open spec fn protocol_version() -> Seq<char> {
    "2023-06-01"@
}

/// What is needed to ask the provider.
#[derive(Debug, PartialEq, Eq)]
pub struct AnthropicClient {
    api_key: String,
    base_url: String,
    model: String,
    /// The name that Anthropic's models share, where that is known.
    family: Option<String>,
    thinking: bool,
    max_output_tokens: u64,
}

/// What an [`AnthropicClient`] holds.
#[verifier::ext_equal]
pub struct AnthropicClientView {
    pub api_key: Seq<char>,
    pub base_url: Seq<char>,
    pub model: Seq<char>,
    pub family: Option<Seq<char>>,
    pub thinking: bool,
    pub max_output_tokens: u64,
}

impl View for AnthropicClient {
    type V = AnthropicClientView;

    closed spec fn view(&self) -> AnthropicClientView {
        AnthropicClientView {
            api_key: self.api_key@,
            base_url: self.base_url@,
            model: self.model@,
            family: text::optional_text(self.family),
            thinking: self.thinking,
            max_output_tokens: self.max_output_tokens,
        }
    }
}

/// A JSON object of one text block.
pub open spec fn text_block(text: Seq<char>) -> JsonView {
    JsonView::Object(seq![("text"@, JsonView::Text(text)), ("type"@, JsonView::Text("text"@))])
}

/// The mark that asks the provider to cache what stands before it.
pub open spec fn cache_mark() -> JsonView {
    JsonView::Object(seq![("type"@, JsonView::Text("ephemeral"@))])
}

/// The form of a block in a request.
pub open spec fn wire_block(block: BlockView) -> JsonView {
    match block {
        BlockView::Text { text } => text_block(text),
        BlockView::Thinking { thinking, signature, .. } => JsonView::Object(
            seq![
                ("signature"@, JsonView::Text(signature)),
                ("thinking"@, JsonView::Text(thinking)),
                ("type"@, JsonView::Text("thinking"@)),
            ],
        ),
        BlockView::ToolUse { tool_use_id, tool_name, arguments } => JsonView::Object(
            seq![
                ("id"@, JsonView::Text(tool_use_id)),
                ("input"@, arguments),
                ("name"@, JsonView::Text(tool_name)),
                ("type"@, JsonView::Text("tool_use"@)),
            ],
        ),
        BlockView::ToolResult { tool_use_id, content, is_error } => JsonView::Object(
            seq![
                ("content"@, JsonView::Array(seq![text_block(content)])),
                ("is_error"@, JsonView::Bool(is_error)),
                ("tool_use_id"@, JsonView::Text(tool_use_id)),
                ("type"@, JsonView::Text("tool_result"@)),
            ],
        ),
    }
}

/// The forms of blocks in a request.
pub open spec fn wire_blocks(blocks: Seq<BlockView>) -> Seq<JsonView> {
    blocks.map_values(|block: BlockView| wire_block(block))
}

/// A message of a request.
#[derive(Debug)]
pub struct WireMessage {
    pub from_user: bool,
    /// Whether its first block is a tool result.
    pub leads_with_result: bool,
    pub content: Vec<Json>,
}

/// What a [`WireMessage`] holds.
#[verifier::ext_equal]
pub struct WireView {
    pub from_user: bool,
    pub leads_with_result: bool,
    pub content: Seq<JsonView>,
}

impl View for WireMessage {
    type V = WireView;

    open spec fn view(&self) -> WireView {
        WireView {
            from_user: self.from_user,
            leads_with_result: self.leads_with_result,
            content: json::json_views(self.content@),
        }
    }
}

/// The views of a sequence of messages.
pub open spec fn wire_views(messages: Seq<WireMessage>) -> Seq<WireView> {
    messages.map_values(|message: WireMessage| message@)
}

/// What a user's message holds in a request: an empty text where it holds nothing.
pub open spec fn user_content(content: Seq<BlockView>) -> Seq<JsonView> {
    if content.len() == 0 {
        seq![text_block(Seq::empty())]
    } else {
        wire_blocks(content)
    }
}

/// `messages` with one more. What a user says, and what the system says, goes into
/// the user's message before it, unless that begins with a tool result.
pub open spec fn appended(messages: Seq<WireView>, message: MessageView) -> Seq<WireView> {
    if message.role == MessageRole::Assistant {
        messages.push(
            WireView {
                from_user: false,
                leads_with_result: false,
                content: wire_blocks(message.content),
            },
        )
    } else if messages.len() > 0 && messages.last().from_user && !messages.last().leads_with_result {
        messages.drop_last().push(
            WireView {
                from_user: true,
                leads_with_result: false,
                content: messages.last().content + user_content(message.content),
            },
        )
    } else {
        messages.push(
            WireView {
                from_user: true,
                leads_with_result: message.content.len() > 0 && message.content[0] is ToolResult,
                content: user_content(message.content),
            },
        )
    }
}

/// The messages of a request for a conversation.
pub open spec fn wire_messages(conversation: Seq<MessageView>) -> Seq<WireView>
    decreases conversation.len(),
{
    if conversation.len() == 0 {
        Seq::empty()
    } else {
        appended(wire_messages(conversation.drop_last()), conversation.last())
    }
}

/// The form of a message in a request.
pub open spec fn wire_message_json(message: WireView) -> JsonView {
    JsonView::Object(
        seq![
            ("content"@, JsonView::Array(message.content)),
            (
                "role"@,
                JsonView::Text(
                    if message.from_user {
                        "user"@
                    } else {
                        "assistant"@
                    },
                ),
            ),
        ],
    )
}

/// The form of a tool in a request. The last tool carries the cache mark.
pub open spec fn wire_tool(tool: ToolView, last: bool) -> JsonView {
    if last {
        JsonView::Object(
            seq![
                ("cache_control"@, cache_mark()),
                ("description"@, JsonView::Text(tool.description)),
                ("input_schema"@, tool.parameters),
                ("name"@, JsonView::Text(tool.name)),
            ],
        )
    } else {
        JsonView::Object(
            seq![
                ("description"@, JsonView::Text(tool.description)),
                ("input_schema"@, tool.parameters),
                ("name"@, JsonView::Text(tool.name)),
            ],
        )
    }
}

/// The forms of the tools in a request.
pub open spec fn wire_tools(tools: Seq<ToolView>) -> Seq<JsonView> {
    Seq::new(tools.len(), |i: int| wire_tool(tools[i], i == tools.len() - 1))
}

/// Whether `model` begins like that and is of a version from 6 to 9.
pub open spec fn adaptive_in(model: Seq<char>, beginning: Seq<char>) -> bool {
    &&& text::begins_with(model, beginning)
    &&& model.len() > beginning.len()
    &&& '6' <= model[beginning.len() as int] <= '9'
}

/// Whether a model decides by itself how much it thinks.
/// `family` is the name that Anthropic's models share, where that is known.
pub open spec fn adaptive(model: Seq<char>, family: Option<Seq<char>>) -> bool {
    match family {
        Some(family) => adaptive_in(model, family + "-opus-4-"@) || adaptive_in(
            model,
            family + "-sonnet-4-"@,
        ),
        None => false,
    }
}

/// What a request says of thinking.
pub open spec fn thinking_json(
    model: Seq<char>,
    family: Option<Seq<char>>,
    max_output_tokens: u64,
) -> JsonView {
    if adaptive(model, family) {
        JsonView::Object(seq![("type"@, JsonView::Text("adaptive"@))])
    } else {
        JsonView::Object(
            seq![
                (
                    "budget_tokens"@,
                    JsonView::Unsigned(
                        if max_output_tokens >= 2 {
                            (max_output_tokens - 1) as u64
                        } else {
                            1u64
                        },
                    ),
                ),
                ("type"@, JsonView::Text("enabled"@)),
            ],
        )
    }
}

/// The body of a request.
pub open spec fn body_of(client: AnthropicClientView, request: RequestView) -> JsonView {
    let always = seq![
        ("max_tokens"@, JsonView::Unsigned(client.max_output_tokens)),
        (
            "messages"@,
            JsonView::Array(
                wire_messages(request.conversation).map_values(
                    |message: WireView| wire_message_json(message),
                ),
            ),
        ),
        ("model"@, JsonView::Text(client.model)),
        ("stream"@, JsonView::Bool(true)),
        (
            "system"@,
            JsonView::Array(
                seq![
                    JsonView::Object(
                        seq![
                            ("cache_control"@, cache_mark()),
                            ("text"@, JsonView::Text(request.system_prompt)),
                            ("type"@, JsonView::Text("text"@)),
                        ],
                    ),
                ],
            ),
        ),
    ];
    let thinking = if client.thinking {
        seq![("thinking"@, thinking_json(client.model, client.family, client.max_output_tokens))]
    } else {
        Seq::empty()
    };
    let tools = if request.tools.len() > 0 {
        seq![("tools"@, JsonView::Array(wire_tools(request.tools)))]
    } else {
        Seq::empty()
    };
    JsonView::Object(always + thinking + tools)
}

/// A JSON object of one text block.
fn text_block_value(text: &str) -> (json: Json)
    ensures
        json@ == text_block(text@),
{
    let json = Members::new().with("text", json::text_value(text)).with(
        "type",
        json::text_value("text"),
    ).object();
    assert(json@->Object_0 =~= text_block(text@)->Object_0);
    json
}

/// The cache mark.
fn cache_mark_value() -> (json: Json)
    ensures
        json@ == cache_mark(),
{
    let json = Members::new().with("type", json::text_value("ephemeral")).object();
    assert(json@->Object_0 =~= cache_mark()->Object_0);
    json
}

/// The form of a block in a request.
pub fn anthropic_content_block(block: &ContentBlock) -> (json: Json)
    ensures
        json@ == wire_block(block@),
{
    let json = match block {
        ContentBlock::Text { text } => text_block_value(text.as_str()),
        ContentBlock::Thinking { thinking, signature, .. } => Members::new().with(
            "signature",
            json::text_value(signature.as_str()),
        ).with("thinking", json::text_value(thinking.as_str())).with(
            "type",
            json::text_value("thinking"),
        ).object(),
        ContentBlock::ToolUse { tool_use_id, tool_name, arguments } => Members::new().with(
            "id",
            json::text_value(tool_use_id.as_str()),
        ).with("input", arguments.clone()).with("name", json::text_value(tool_name.as_str())).with(
            "type",
            json::text_value("tool_use"),
        ).object(),
        ContentBlock::ToolResult { tool_use_id, content, is_error } => Members::new().with(
            "content",
            json::singleton(text_block_value(content.as_str())),
        ).with("is_error", Json::Bool(*is_error)).with(
            "tool_use_id",
            json::text_value(tool_use_id.as_str()),
        ).with("type", json::text_value("tool_result")).object(),
    };
    assert(json@->Object_0 =~= wire_block(block@)->Object_0);
    json
}

/// The forms of blocks in a request.
fn content_values(content: &Vec<ContentBlock>) -> (values: Vec<Json>)
    ensures
        json::json_views(values@) == wire_blocks(conversation::block_views(content@)),
{
    let mut values: Vec<Json> = Vec::new();
    let mut i: usize = 0;
    while i < content.len()
        invariant
            i <= content@.len(),
            values@.len() == i,
            forall|j: int| 0 <= j < i ==> (#[trigger] values@[j])@ == wire_block(content@[j]@),
        decreases content@.len() - i,
    {
        values.push(anthropic_content_block(&content[i]));
        i += 1;
    }
    assert(json::json_views(values@) =~= wire_blocks(conversation::block_views(content@)));
    values
}

/// Whether the first block is a tool result.
fn begins_with_result(content: &Vec<ContentBlock>) -> (result: bool)
    ensures
        result == (content@.len() > 0 && content@[0]@ is ToolResult),
{
    if content.len() == 0 {
        return false;
    }
    match &content[0] {
        ContentBlock::ToolResult { .. } => true,
        _ => false,
    }
}

/// Adds a message to those of a request.
pub fn append_anthropic_message(messages: &mut Vec<WireMessage>, message: &ConversationMessage)
    ensures
        wire_views(final(messages)@) == appended(wire_views(old(messages)@), message@),
{
    let ghost before = wire_views(messages@);
    let mut content = content_values(&message.content);
    assert(content@.len() == json::json_views(content@).len());
    if message.role == MessageRole::Assistant {
        messages.push(WireMessage { from_user: false, leads_with_result: false, content });
        assert(wire_views(messages@) =~= appended(before, message@));
        return;
    }
    if message.content.len() == 0 {
        let nothing = String::new();
        content.push(text_block_value(nothing.as_str()));
    }
    assert(json::json_views(content@) =~= user_content(message@.content));
    if messages.len() > 0 {
        let last = messages.len() - 1;
        if messages[last].from_user && !messages[last].leads_with_result {
            match messages.pop() {
                Some(previous) => {
                    let mut joined = previous.content;
                    joined.append(&mut content);
                    assert(json::json_views(joined@) =~= before.last().content + user_content(
                        message@.content,
                    ));
                    messages.push(
                        WireMessage { from_user: true, leads_with_result: false, content: joined },
                    );
                },
                None => {},
            }
            assert(wire_views(messages@) =~= appended(before, message@));
            return;
        }
    }
    messages.push(
        WireMessage {
            from_user: true,
            leads_with_result: begins_with_result(&message.content),
            content,
        },
    );
    assert(wire_views(messages@) =~= appended(before, message@));
}

/// The form of a message in a request.
fn wire_message_value(message: &WireMessage) -> (json: Json)
    ensures
        json@ == wire_message_json(message@),
{
    let mut content: Vec<Json> = Vec::new();
    let mut i: usize = 0;
    while i < message.content.len()
        invariant
            i <= message.content@.len(),
            content@.len() == i,
            forall|j: int| 0 <= j < i ==> (#[trigger] content@[j])@ == message.content@[j]@,
        decreases message.content@.len() - i,
    {
        content.push(message.content[i].clone());
        i += 1;
    }
    assert(json::json_views(content@) =~= message@.content);
    let role = if message.from_user {
        "user"
    } else {
        "assistant"
    };
    let json = Members::new().with("content", json::array_value(content)).with(
        "role",
        json::text_value(role),
    ).object();
    assert(json@->Object_0 =~= wire_message_json(message@)->Object_0);
    json
}

/// The form of a tool in a request.
pub fn anthropic_tool(tool: &ToolDefinition, last: bool) -> (json: Json)
    ensures
        json@ == wire_tool(tool@, last),
{
    let mut members = Members::new();
    if last {
        members = members.with("cache_control", cache_mark_value());
    }
    let json = members.with("description", json::text_value(tool.description.as_str())).with(
        "input_schema",
        tool.parameters.clone(),
    ).with("name", json::text_value(tool.name.as_str())).object();
    assert(json@->Object_0 =~= wire_tool(tool@, last)->Object_0);
    json
}

/// Whether `model` begins like that and is of a version from 6 to 9.
fn is_adaptive_in(model: &str, beginning: &str) -> (result: bool)
    ensures
        result == adaptive_in(model@, beginning@),
{
    let chars = text::chars_of(model);
    let prefix = text::chars_of(beginning);
    if !text::stands_at(&chars, &prefix, 0) || chars.len() <= prefix.len() {
        return false;
    }
    let version = chars[prefix.len()];
    '6' <= version && version <= '9'
}

/// Whether a model decides by itself how much it thinks.
pub fn supports_adaptive_thinking(model: &str, family: &Option<String>) -> (result: bool)
    ensures
        result == adaptive(model@, text::optional_text(*family)),
{
    match family {
        Some(family) => is_adaptive_in(
            model,
            text::concat(family.as_str(), "-opus-4-").as_str(),
        ) || is_adaptive_in(model, text::concat(family.as_str(), "-sonnet-4-").as_str()),
        None => false,
    }
}

/// What a request says of thinking.
fn thinking_value(model: &str, family: &Option<String>, max_output_tokens: u64) -> (json: Json)
    ensures
        json@ == thinking_json(model@, text::optional_text(*family), max_output_tokens),
{
    let json = if supports_adaptive_thinking(model, family) {
        Members::new().with("type", json::text_value("adaptive")).object()
    } else {
        let budget: u64 = if max_output_tokens >= 2 {
            max_output_tokens - 1
        } else {
            1
        };
        Members::new().with("budget_tokens", Json::Unsigned(budget)).with(
            "type",
            json::text_value("enabled"),
        ).object()
    };
    assert(json@->Object_0 =~= thinking_json(
        model@,
        text::optional_text(*family),
        max_output_tokens,
    )->Object_0);
    json
}

impl AnthropicClient {
    /// A client for a provider. `api_key` is what
    /// [`ProviderConfig::resolve_api_key_with`] gave for it, and `family` the name that
    /// Anthropic's models share, where that is known.
    pub fn new(provider: &ProviderConfig, api_key: Option<String>, family: Option<&str>) -> (client:
        Result<Self, LlmError>)
        ensures
            match client {
                Ok(client) => api_key is Some && client@ == (AnthropicClientView {
                    api_key: api_key->0@,
                    base_url: text::without_trailing(provider.base_url@, '/'),
                    model: provider.model@,
                    family: conversation::borrowed_text(family),
                    thinking: provider.thinking,
                    max_output_tokens: limits::output_limit(*provider),
                }),
                Err(error) => api_key is None && error@ == (LlmErrorView::Authentication {
                    message:
                        "Anthropic API key not found; set provider api_key or ANTHROPIC_API_KEY"@,
                }),
            },
    {
        match api_key {
            Some(api_key) => Ok(
                AnthropicClient {
                    api_key,
                    base_url: text::trim_end_char(provider.base_url.as_str(), '/'),
                    model: provider.model.clone(),
                    family: match family {
                        Some(family) => Some(text::copy_text(family)),
                        None => None,
                    },
                    thinking: provider.thinking,
                    max_output_tokens: limits::max_output_tokens(provider),
                },
            ),
            None => Err(
                LlmError::Authentication {
                    message: text::copy_text(
                        "Anthropic API key not found; set provider api_key or ANTHROPIC_API_KEY",
                    ),
                },
            ),
        }
    }

    /// The body of a request.
    pub fn request_body(&self, request: &ProviderRequest) -> (body: Json)
        ensures
            body@ == body_of(self@, request@),
    {
        let conversation = request.conversation.messages();
        let ghost all = request@.conversation;
        let mut messages: Vec<WireMessage> = Vec::new();
        let mut i: usize = 0;
        assert(wire_views(messages@) =~= wire_messages(all.take(0)));
        while i < conversation.len()
            invariant
                i <= conversation@.len(),
                all == conversation::message_views(conversation@),
                wire_views(messages@) == wire_messages(all.take(i as int)),
            decreases conversation@.len() - i,
        {
            assert(all.take(i + 1).drop_last() =~= all.take(i as int));
            assert(all.take(i + 1).last() == conversation@[i as int]@);
            append_anthropic_message(&mut messages, &conversation[i]);
            i += 1;
        }
        assert(all.take(i as int) =~= all);
        let mut message_values: Vec<Json> = Vec::new();
        let mut j: usize = 0;
        while j < messages.len()
            invariant
                j <= messages@.len(),
                message_values@.len() == j,
                forall|k: int|
                    0 <= k < j ==> (#[trigger] message_values@[k])@ == wire_message_json(
                        messages@[k]@,
                    ),
            decreases messages@.len() - j,
        {
            message_values.push(wire_message_value(&messages[j]));
            j += 1;
        }
        assert(json::json_views(message_values@) =~= wire_messages(all).map_values(
            |message: WireView| wire_message_json(message),
        ));
        let system = Members::new().with("cache_control", cache_mark_value()).with(
            "text",
            json::text_value(request.system_prompt.as_str()),
        ).with("type", json::text_value("text")).object();
        assert(system@->Object_0 =~= seq![
            ("cache_control"@, cache_mark()),
            ("text"@, JsonView::Text(request.system_prompt@)),
            ("type"@, JsonView::Text("text"@)),
        ]);
        let mut body = Members::new().with(
            "max_tokens",
            Json::Unsigned(self.max_output_tokens),
        ).with("messages", json::array_value(message_values)).with(
            "model",
            json::text_value(self.model.as_str()),
        ).with("stream", Json::Bool(true)).with("system", json::singleton(system));
        if self.thinking {
            body =
            body.with(
                "thinking",
                thinking_value(self.model.as_str(), &self.family, self.max_output_tokens),
            );
        }
        if request.tools.len() > 0 {
            let mut tools: Vec<Json> = Vec::new();
            let mut k: usize = 0;
            while k < request.tools.len()
                invariant
                    k <= request.tools.len(),
                    tools@.len() == k,
                    forall|m: int|
                        0 <= m < k ==> (#[trigger] tools@[m])@ == wire_tool(
                            request.tools@[m]@,
                            m == request.tools@.len() - 1,
                        ),
                decreases request.tools@.len() - k,
            {
                tools.push(anthropic_tool(&request.tools[k], k == request.tools.len() - 1));
                k += 1;
            }
            assert(json::json_views(tools@) =~= wire_tools(request@.tools));
            body = body.with("tools", json::array_value(tools));
        }
        let json = body.object();
        assert(json@->Object_0 =~= body_of(self@, request@)->Object_0);
        json
    }

    /// Where requests go.
    pub fn endpoint(&self) -> (url: String)
        ensures
            url@ == self@.base_url + "/v1/messages"@,
    {
        text::concat(self.base_url.as_str(), "/v1/messages")
    }

    /// The headers of a request.
    pub fn headers(&self) -> (headers: Vec<(String, String)>)
        ensures
            headers@.len() == 2,
            headers@[0].0@ == "x-api-key"@,
            headers@[0].1@ == self@.api_key,
            headers@[1].0@ == "anthropic-version"@,
            headers@[1].1@ == protocol_version(),
    {
        let mut headers: Vec<(String, String)> = Vec::new();
        headers.push((text::copy_text("x-api-key"), self.api_key.clone()));
        headers.push((text::copy_text("anthropic-version"), text::copy_text("2023-06-01")));
        headers
    }
}

/// In a request a user's message follows a user's message only where the first of the
/// two begins with a tool result.
pub proof fn law_user_messages_are_joined(conversation: Seq<MessageView>, i: int)
    requires
        0 < i < wire_messages(conversation).len(),
        wire_messages(conversation)[i - 1].from_user,
        wire_messages(conversation)[i].from_user,
    ensures
        wire_messages(conversation)[i - 1].leads_with_result,
    decreases conversation.len(),
{
    let before = wire_messages(conversation.drop_last());
    let after = wire_messages(conversation);
    if i < before.len() {
        assert(after[i - 1] == before[i - 1]);
        assert(after[i].from_user == before[i].from_user);
        law_user_messages_are_joined(conversation.drop_last(), i);
    }
}

/// No message of a request is empty, unless it is an assistant's message without a
/// block.
pub proof fn law_user_messages_hold_something(conversation: Seq<MessageView>, i: int)
    requires
        0 <= i < wire_messages(conversation).len(),
        wire_messages(conversation)[i].from_user,
    ensures
        wire_messages(conversation)[i].content.len() > 0,
    decreases conversation.len(),
{
    let before = wire_messages(conversation.drop_last());
    if i < before.len() {
        law_user_messages_hold_something(conversation.drop_last(), i);
    }
}

/// Blocks with the role that says them.
pub open spec fn said_by(role: Seq<char>, blocks: Seq<JsonView>) -> Seq<(Seq<char>, JsonView)> {
    Seq::new(blocks.len(), |i: int| (role, blocks[i]))
}

/// All that a conversation says, in order: its blocks, each with the role that says it. What
/// the system and the user say, the user says; where they say nothing, they say an empty
/// text.
pub open spec fn spoken(conversation: Seq<MessageView>) -> Seq<(Seq<char>, JsonView)>
    decreases conversation.len(),
{
    if conversation.len() == 0 {
        Seq::empty()
    } else {
        let last = conversation.last();
        let blocks = Seq::new(last.content.len(), |i: int| wire_block(last.content[i]));
        spoken(conversation.drop_last()) + match last.role {
            MessageRole::Assistant => said_by("assistant"@, blocks),
            MessageRole::User | MessageRole::System => said_by(
                "user"@,
                if last.content.len() > 0 {
                    blocks
                } else {
                    seq![wire_block(BlockView::Text { text: Seq::empty() })]
                },
            ),
        }
    }
}

/// All that messages of a request say, in order: the items of their contents, each with the
/// role of its message.
pub open spec fn sent(messages: Seq<JsonView>) -> Seq<(Seq<char>, JsonView)>
    decreases messages.len(),
{
    if messages.len() == 0 {
        Seq::empty()
    } else {
        sent(messages.drop_last()) + match (
            json::as_text(json::member(messages.last(), "role"@)),
            json::as_items(json::member(messages.last(), "content"@)),
        ) {
            (Some(role), Some(blocks)) => said_by(role, blocks),
            _ => Seq::empty(),
        }
    }
}

/// How many messages have a role.
pub open spec fn with_role(messages: Seq<JsonView>, role: Seq<char>) -> int
    decreases messages.len(),
{
    if messages.len() == 0 {
        0
    } else {
        with_role(messages.drop_last(), role) + if json::as_text(
            json::member(messages.last(), "role"@),
        ) == Some(role) {
            1int
        } else {
            0int
        }
    }
}

/// How many messages of a conversation are answers.
pub open spec fn answers(conversation: Seq<MessageView>) -> int
    decreases conversation.len(),
{
    if conversation.len() == 0 {
        0
    } else {
        answers(conversation.drop_last()) + if conversation.last().role == MessageRole::Assistant {
            1int
        } else {
            0int
        }
    }
}

/// The messages of a request as JSON.
pub open spec fn sent_messages(messages: Seq<WireView>) -> Seq<JsonView> {
    messages.map_values(|message: WireView| wire_message_json(message))
}

/// Role and content of a message.
proof fn lemma_wire_message(message: WireView)
    ensures
        json::member(wire_message_json(message), "role"@) == Some(
            JsonView::Text(
                if message.from_user {
                    "user"@
                } else {
                    "assistant"@
                },
            ),
        ),
        json::member(wire_message_json(message), "content"@) == Some(
            JsonView::Array(message.content),
        ),
{
    reveal_with_fuel(json::entry_from, 3);
    reveal_strlit("role");
    reveal_strlit("content");
    assert("role"@.len() == 4 && "content"@.len() == 7);
}

/// What is sent of a conversation is what it says.
proof fn lemma_all_is_sent(conversation: Seq<MessageView>)
    ensures
        sent(sent_messages(wire_messages(conversation))) == spoken(conversation),
        with_role(sent_messages(wire_messages(conversation)), "assistant"@) == answers(
            conversation,
        ),
    decreases conversation.len(),
{
    reveal_strlit("user");
    reveal_strlit("assistant");
    assert("user"@.len() == 4 && "assistant"@.len() == 9);
    if conversation.len() > 0 {
        let earlier = conversation.drop_last();
        let last = conversation.last();
        lemma_all_is_sent(earlier);
        let before = wire_messages(earlier);
        let after = wire_messages(conversation);
        let before_json = sent_messages(before);
        let after_json = sent_messages(after);
        lemma_wire_message(after.last());
        let blocks = Seq::new(last.content.len(), |i: int| wire_block(last.content[i]));
        assert(wire_blocks(last.content) =~= blocks);
        assert(after_json.last() == wire_message_json(after.last()));
        let joins = last.role != MessageRole::Assistant && before.len() > 0
            && before.last().from_user && !before.last().leads_with_result;
        if joins {
            lemma_wire_message(before.last());
            assert(before_json.last() == wire_message_json(before.last()));
            assert(after_json.drop_last() =~= before_json.drop_last());
            let old = before.last().content;
            let more = user_content(last.content);
            assert(said_by("user"@, old + more) =~= said_by("user"@, old) + said_by("user"@, more));
            assert(sent(after_json) =~= sent(before_json) + said_by("user"@, more));
        } else {
            assert(after_json.drop_last() =~= before_json);
        }
        assert(sent(after_json) =~= spoken(conversation));
    } else {
        assert(sent_messages(wire_messages(conversation)) =~= Seq::<JsonView>::empty());
    }
}

/// The messages of the body of a request.
proof fn lemma_messages_of_body(client: AnthropicClientView, request: RequestView)
    ensures
        json::member(body_of(client, request), "messages"@) == Some(
            JsonView::Array(sent_messages(wire_messages(request.conversation))),
        ),
{
    let body = body_of(client, request);
    let entries = body->Object_0;
    reveal_strlit("max_tokens");
    reveal_strlit("messages");
    assert("max_tokens"@.len() == 10 && "messages"@.len() == 8);
    assert(entries[0].0 == "max_tokens"@);
    assert(entries[1].0 == "messages"@);
    json::lemma_entry_at(entries, "messages"@, 0, 1);
    assert((entries[1].1)->Array_0 =~= sent_messages(wire_messages(request.conversation)));
}

/// A request sends all that the conversation says, in order, and each block under the role
/// that says it: "assistant" for an answer, "user" for what the user and the system say. It
/// has as many messages of the assistant as the conversation has answers, and all others are
/// the user's.
pub proof fn law_request_sends_what_was_said(
    client: AnthropicClientView,
    request: RequestView,
    index: int,
)
    ensures
        ({
            let messages = json::as_items(json::member(body_of(client, request), "messages"@));
            &&& messages is Some
            &&& sent(messages->0) == spoken(request.conversation)
            &&& with_role(messages->0, "assistant"@) == answers(request.conversation)
            &&& 0 <= index < (messages->0).len() ==> {
                let role = json::as_text(json::member((messages->0)[index], "role"@));
                role == Some("user"@) || role == Some("assistant"@)
            }
        }),
{
    lemma_messages_of_body(client, request);
    lemma_all_is_sent(request.conversation);
    let wire = wire_messages(request.conversation);
    if 0 <= index < wire.len() {
        lemma_wire_message(wire[index]);
    }
}

/// A request for one text of the user is one message of role "user" with that text.
pub proof fn law_one_text_is_one_user_message(
    client: AnthropicClientView,
    request: RequestView,
    text: Seq<char>,
)
    requires
        request.conversation.len() == 1,
        request.conversation[0].role == MessageRole::User,
        request.conversation[0].content == seq![BlockView::Text { text }],
    ensures
        ({
            let messages = json::as_items(json::member(body_of(client, request), "messages"@));
            let message = (messages->0)[0];
            let content = json::as_items(json::member(message, "content"@));
            &&& messages is Some && (messages->0).len() == 1
            &&& json::member(message, "role"@) == Some(JsonView::Text("user"@))
            &&& content is Some && (content->0).len() == 1
            &&& json::member((content->0)[0], "type"@) == Some(JsonView::Text("text"@))
            &&& json::member((content->0)[0], "text"@) == Some(JsonView::Text(text))
        }),
{
    lemma_messages_of_body(client, request);
    let conversation = request.conversation;
    assert(conversation.drop_last() =~= Seq::<MessageView>::empty());
    assert(wire_messages(conversation.drop_last()) =~= Seq::<WireView>::empty());
    assert(conversation.last() == conversation[0]);
    let wire = wire_messages(conversation);
    assert(wire.len() == 1);
    lemma_wire_message(wire[0]);
    law_blocks_keep_what_they_hold(BlockView::Text { text });
}

/// What is sent of a block holds all that the block holds.
pub proof fn law_blocks_keep_what_they_hold(block: BlockView)
    ensures
        ({
            let json = wire_block(block);
            match block {
                BlockView::Text { text } => {
                    &&& json::member(json, "type"@) == Some(JsonView::Text("text"@))
                    &&& json::member(json, "text"@) == Some(JsonView::Text(text))
                },
                BlockView::Thinking { thinking, signature, .. } => {
                    &&& json::member(json, "type"@) == Some(JsonView::Text("thinking"@))
                    &&& json::member(json, "thinking"@) == Some(JsonView::Text(thinking))
                    &&& json::member(json, "signature"@) == Some(JsonView::Text(signature))
                },
                BlockView::ToolUse { tool_use_id, tool_name, arguments } => {
                    &&& json::member(json, "type"@) == Some(JsonView::Text("tool_use"@))
                    &&& json::member(json, "id"@) == Some(JsonView::Text(tool_use_id))
                    &&& json::member(json, "name"@) == Some(JsonView::Text(tool_name))
                    &&& json::member(json, "input"@) == Some(arguments)
                },
                BlockView::ToolResult { tool_use_id, content, is_error } => {
                    let told = json::as_items(json::member(json, "content"@));
                    &&& json::member(json, "type"@) == Some(JsonView::Text("tool_result"@))
                    &&& json::member(json, "tool_use_id"@) == Some(JsonView::Text(tool_use_id))
                    &&& json::member(json, "is_error"@) == Some(JsonView::Bool(is_error))
                    &&& told is Some && (told->0).len() == 1
                    &&& json::member((told->0)[0], "type"@) == Some(JsonView::Text("text"@))
                    &&& json::member((told->0)[0], "text"@) == Some(JsonView::Text(content))
                },
            }
        }),
{
    reveal_with_fuel(json::entry_from, 5);
    reveal_strlit("type");
    reveal_strlit("text");
    reveal_strlit("thinking");
    reveal_strlit("signature");
    reveal_strlit("id");
    reveal_strlit("input");
    reveal_strlit("name");
    reveal_strlit("content");
    reveal_strlit("is_error");
    reveal_strlit("tool_use_id");
    assert("type"@.len() == 4 && "text"@.len() == 4 && "name"@.len() == 4);
    assert("type"@[1] == 'y' && "text"@[1] == 'e' && "name"@[0] == 'n' && "type"@[0] == 't');
    assert("thinking"@.len() == 8 && "signature"@.len() == 9 && "id"@.len() == 2);
    assert("input"@.len() == 5 && "content"@.len() == 7 && "is_error"@.len() == 8);
    assert("tool_use_id"@.len() == 11);
}

/// A message of a request begins with a result just where it is marked so.
proof fn lemma_marks_are_right(conversation: Seq<MessageView>, i: int)
    requires
        0 <= i < wire_messages(conversation).len(),
    ensures
        ({
            let message = wire_messages(conversation)[i];
            message.from_user ==> message.content.len() > 0 && (message.leads_with_result
                <==> json::member(message.content[0], "type"@) == Some(
                JsonView::Text("tool_result"@),
            ))
        }),
    decreases conversation.len(),
{
    let before = wire_messages(conversation.drop_last());
    let after = wire_messages(conversation);
    let last = conversation.last();
    if i < before.len() {
        lemma_marks_are_right(conversation.drop_last(), i);
    }
    if last.content.len() > 0 {
        law_blocks_keep_what_they_hold(last.content[0]);
        assert(wire_blocks(last.content)[0] == wire_block(last.content[0]));
    }
    law_blocks_keep_what_they_hold(BlockView::Text { text: Seq::empty() });
    reveal_strlit("text");
    reveal_strlit("thinking");
    reveal_strlit("tool_use");
    reveal_strlit("tool_result");
    assert("text"@.len() == 4 && "thinking"@.len() == 8 && "tool_use"@.len() == 8
        && "tool_result"@.len() == 11);
}

/// A message of the user continues the user's message before it, unless that begins with a
/// result. An answer is a message of its own.
pub proof fn law_user_messages_continue(conversation: Seq<MessageView>, message: MessageView)
    ensures
        ({
            let before = sent_messages(wire_messages(conversation));
            let after = sent_messages(wire_messages(conversation.push(message)));
            let continues = message.role != MessageRole::Assistant && before.len() > 0
                && json::as_text(json::member(before.last(), "role"@)) == Some("user"@)
                && json::member(
                (json::as_items(json::member(before.last(), "content"@))->0)[0],
                "type"@,
            ) != Some(JsonView::Text("tool_result"@));
            after.len() == before.len() + if continues {
                0int
            } else {
                1int
            }
        }),
{
    reveal_strlit("user");
    reveal_strlit("assistant");
    assert("user"@.len() == 4 && "assistant"@.len() == 9);
    let all = conversation.push(message);
    assert(all.drop_last() =~= conversation);
    let wire = wire_messages(conversation);
    if wire.len() > 0 {
        lemma_wire_message(wire.last());
        lemma_marks_are_right(conversation, wire.len() - 1);
    }
}

/// A request asks the model for what is wanted: it names the model, the system prompt and the
/// limit, asks for a stream, describes every tool in order with the end of the tools marked
/// for the cache, and asks for thoughts only of a model that thinks.
pub proof fn law_request_asks_for_what_is_wanted(
    client: AnthropicClientView,
    request: RequestView,
    index: int,
)
    ensures
        ({
            let body = body_of(client, request);
            let system = json::as_items(json::member(body, "system"@));
            &&& json::member(body, "model"@) == Some(JsonView::Text(client.model))
            &&& json::member(body, "max_tokens"@) == Some(
                JsonView::Unsigned(client.max_output_tokens),
            )
            &&& json::member(body, "stream"@) == Some(JsonView::Bool(true))
            &&& system is Some && (system->0).len() == 1
            &&& json::member((system->0)[0], "type"@) == Some(JsonView::Text("text"@))
            &&& json::member((system->0)[0], "text"@) == Some(JsonView::Text(request.system_prompt))
            &&& json::member((system->0)[0], "cache_control"@) is Some
            &&& json::member(body, "thinking"@) is Some <==> client.thinking
            &&& json::member(body, "tools"@) is Some <==> request.tools.len() > 0
            &&& 0 <= index < request.tools.len() ==> {
                let tools = json::as_items(json::member(body, "tools"@));
                let tool = (tools->0)[index];
                &&& tools is Some && (tools->0).len() == request.tools.len()
                &&& json::member(tool, "name"@) == Some(JsonView::Text(request.tools[index].name))
                &&& json::member(tool, "description"@) == Some(
                    JsonView::Text(request.tools[index].description),
                )
                &&& json::member(tool, "input_schema"@) == Some(request.tools[index].parameters)
                &&& json::member(tool, "cache_control"@) is Some <==> index == request.tools.len()
                    - 1
            }
        }),
{
    reveal_with_fuel(json::entry_from, 8);
    reveal_strlit("model");
    reveal_strlit("max_tokens");
    reveal_strlit("stream");
    reveal_strlit("system");
    reveal_strlit("messages");
    reveal_strlit("thinking");
    reveal_strlit("tools");
    reveal_strlit("type");
    reveal_strlit("text");
    reveal_strlit("name");
    reveal_strlit("description");
    reveal_strlit("input_schema");
    reveal_strlit("cache_control");
    assert("max_tokens"@.len() == 10 && "messages"@.len() == 8 && "model"@.len() == 5);
    assert("stream"@.len() == 6 && "system"@.len() == 6 && "thinking"@.len() == 8);
    assert("tools"@.len() == 5 && "type"@.len() == 4 && "text"@.len() == 4);
    assert("name"@.len() == 4 && "description"@.len() == 11 && "input_schema"@.len() == 12);
    assert("cache_control"@.len() == 13);
    assert("stream"@[1] == 't' && "system"@[1] == 'y' && "messages"@[0] == 'm');
    assert("thinking"@[0] == 't' && "model"@[0] == 'm' && "tools"@[0] == 't');
    assert("type"@[1] == 'y' && "text"@[1] == 'e' && "name"@[0] == 'n');
    let body = body_of(client, request);
    let entries = body->Object_0;
    assert(entries[0].0 == "max_tokens"@);
    assert(entries[1].0 == "messages"@);
    assert(entries[2].0 == "model"@);
    assert(entries[3].0 == "stream"@);
    assert(entries[4].0 == "system"@);
    if client.thinking {
        assert(entries[5].0 == "thinking"@);
        assert(request.tools.len() > 0 ==> entries[6].0 == "tools"@);
        assert(entries.len() == if request.tools.len() > 0 {
            7int
        } else {
            6
        });
    } else {
        assert(request.tools.len() > 0 ==> entries[5].0 == "tools"@);
        assert(entries.len() == if request.tools.len() > 0 {
            6int
        } else {
            5
        });
    }
}

/// The kind of an event that its data names.
pub open spec fn named_kind(data: JsonView) -> Option<Seq<char>> {
    json::as_text(json::member(data, "type"@))
}

/// The block that an event is about.
pub open spec fn block_index(data: JsonView) -> Option<u64> {
    json::as_unsigned(json::member(data, "index"@))
}

/// What is remembered after events.
pub open spec fn heard(memory: AnthropicMemory, items: Seq<JsonView>) -> AnthropicMemory
    decreases items.len(),
{
    if items.len() == 0 {
        memory
    } else {
        decoded_data(heard(memory, items.drop_last()), None, Ok(items.last())).0
    }
}

/// Whether an event brings this piece, of this kind and under this name, of a block.
pub open spec fn brings(
    data: JsonView,
    index: u64,
    kind: Seq<char>,
    field: Seq<char>,
    piece: Seq<char>,
) -> bool {
    &&& named_kind(data) == Some("content_block_delta"@)
    &&& block_index(data) == Some(index)
    &&& json::member(data, "delta"@) matches Some(delta) && {
        &&& json::as_text(json::member(delta, "type"@)) == Some(kind)
        &&& json::as_text(json::member(delta, field)) == Some(piece)
    }
}

/// The pieces of a block, one after the other.
pub open spec fn pieces(items: Seq<JsonView>, index: u64, kind: Seq<char>, field: Seq<char>) -> Seq<
    char,
>
    decreases items.len(),
{
    if items.len() == 0 {
        Seq::empty()
    } else {
        let before = pieces(items.drop_last(), index, kind, field);
        let piece = json::as_text(json::member_of_member(items.last(), "delta"@, field));
        if piece is Some && brings(items.last(), index, kind, field, piece->0) {
            before + piece->0
        } else {
            before
        }
    }
}

/// The last signature that was given to a thought.
pub open spec fn last_signature(items: Seq<JsonView>, index: u64, first: Seq<char>) -> Seq<char>
    decreases items.len(),
{
    if items.len() == 0 {
        first
    } else {
        let piece = json::as_text(json::member_of_member(items.last(), "delta"@, "signature"@));
        if piece is Some && brings(
            items.last(),
            index,
            "signature_delta"@,
            "signature"@,
            piece->0,
        ) {
            piece->0
        } else {
            last_signature(items.drop_last(), index, first)
        }
    }
}

/// Whether an event begins or ends a block.
pub open spec fn bounds(data: JsonView, index: u64) -> bool {
    (named_kind(data) == Some("content_block_start"@) || named_kind(data) == Some(
        "content_block_stop"@,
    )) && block_index(data) == Some(index)
}

/// Whether an event begins a block that is a call with this id of a tool with this name.
pub open spec fn opens_call(
    data: JsonView,
    index: u64,
    tool_id: Seq<char>,
    tool_name: Seq<char>,
) -> bool {
    &&& named_kind(data) == Some("content_block_start"@)
    &&& block_index(data) == Some(index)
    &&& json::member(data, "content_block"@) matches Some(block) && {
        &&& json::as_text(json::member(block, "type"@)) == Some("tool_use"@)
        &&& json::as_text(json::member(block, "id"@)) == Some(tool_id)
        &&& json::as_text(json::member(block, "name"@)) == Some(tool_name)
    }
}

/// Whether an event begins a block that is a thought which begins so.
pub open spec fn opens_thought(
    data: JsonView,
    index: u64,
    text: Seq<char>,
    signature: Seq<char>,
) -> bool {
    &&& named_kind(data) == Some("content_block_start"@)
    &&& block_index(data) == Some(index)
    &&& json::member(data, "content_block"@) matches Some(block) && {
        &&& json::as_text(json::member(block, "type"@)) == Some("thinking"@)
        &&& json::as_text(json::member(block, "thinking"@)) == Some(text)
        &&& json::as_text(json::member(block, "signature"@)) == Some(signature)
    }
}

/// The kinds of events, and of pieces, are different.
proof fn lemma_kinds_differ()
    ensures
        "message_start"@ != "content_block_start"@,
        "message_start"@ != "content_block_delta"@,
        "message_start"@ != "content_block_stop"@,
        "message_start"@ != "message_delta"@,
        "message_start"@ != "message_stop"@,
        "message_start"@ != "error"@,
        "content_block_start"@ != "content_block_delta"@,
        "content_block_start"@ != "content_block_stop"@,
        "content_block_start"@ != "message_delta"@,
        "content_block_start"@ != "message_stop"@,
        "content_block_start"@ != "error"@,
        "content_block_delta"@ != "content_block_stop"@,
        "content_block_delta"@ != "message_delta"@,
        "content_block_delta"@ != "message_stop"@,
        "content_block_delta"@ != "error"@,
        "content_block_stop"@ != "message_delta"@,
        "content_block_stop"@ != "message_stop"@,
        "content_block_stop"@ != "error"@,
        "message_delta"@ != "message_stop"@,
        "message_delta"@ != "error"@,
        "message_stop"@ != "error"@,
        "thinking"@ != "tool_use"@,
        "text_delta"@ != "thinking_delta"@,
        "text_delta"@ != "signature_delta"@,
        "text_delta"@ != "input_json_delta"@,
        "thinking_delta"@ != "signature_delta"@,
        "thinking_delta"@ != "input_json_delta"@,
        "signature_delta"@ != "input_json_delta"@,
        "text_delta"@.len() > 0,
        "thinking_delta"@.len() > 0,
        "signature_delta"@.len() > 0,
        "input_json_delta"@.len() > 0,
{
    reveal_strlit("message_start");
    reveal_strlit("content_block_start");
    reveal_strlit("content_block_delta");
    reveal_strlit("content_block_stop");
    reveal_strlit("message_delta");
    reveal_strlit("message_stop");
    reveal_strlit("error");
    reveal_strlit("thinking");
    reveal_strlit("tool_use");
    reveal_strlit("text_delta");
    reveal_strlit("thinking_delta");
    reveal_strlit("signature_delta");
    reveal_strlit("input_json_delta");
    assert("message_start"@.len() == 13 && "message_delta"@.len() == 13);
    assert("message_start"@[8] == 's' && "message_delta"@[8] == 'd');
    assert("content_block_start"@.len() == 19 && "content_block_delta"@.len() == 19);
    assert("content_block_start"@[14] == 's' && "content_block_delta"@[14] == 'd');
    assert("content_block_stop"@.len() == 18 && "message_stop"@.len() == 12);
    assert("error"@.len() == 5 && "thinking"@[1] == 'h' && "tool_use"@[1] == 'o');
    assert("text_delta"@.len() == 10 && "thinking_delta"@.len() == 14);
    assert("signature_delta"@.len() == 15 && "input_json_delta"@.len() == 16);
}

/// What is remembered of a call after its block began.
proof fn lemma_call_is_remembered(
    memory: AnthropicMemory,
    items: Seq<JsonView>,
    index: u64,
    tool_id: Seq<char>,
    tool_name: Seq<char>,
)
    requires
        items.len() > 0,
        opens_call(items[0], index, tool_id, tool_name),
        forall|i: int|
            0 < i < items.len() ==> named_kind(#[trigger] items[i]) is Some && !bounds(
                items[i],
                index,
            ),
    ensures
        heard(memory, items).blocks.contains_key(index),
        heard(memory, items).blocks[index] == (OpenBlock::ToolUse {
            tool_id,
            tool_name,
            arguments: pieces(items, index, "input_json_delta"@, "partial_json"@),
        }),
    decreases items.len(),
{
    lemma_kinds_differ();
    let before = items.drop_last();
    if items.len() == 1 {
        assert(before =~= Seq::<JsonView>::empty());
        assert(heard(memory, before) == memory);
        assert(pieces(before, index, "input_json_delta"@, "partial_json"@) == Seq::<char>::empty());
        assert(items.last() == items[0]);
    } else {
        assert forall|i: int| 0 < i < before.len() implies named_kind(#[trigger] before[i]) is Some
            && !bounds(before[i], index) by {
            assert(before[i] == items[i]);
        }
        assert(before[0] == items[0]);
        lemma_call_is_remembered(memory, before, index, tool_id, tool_name);
        assert(items.last() == items[items.len() - 1]);
        assert(named_kind(items.last()) is Some && !bounds(items.last(), index));
    }
}

/// A call holds its own arguments: once its block has begun, the end of the block completes
/// the call with its id, its name and the JSON of all pieces of arguments for that block since
/// it began, whatever came before it and whatever else came in between. Without any piece it
/// has no arguments.
pub proof fn law_call_holds_its_own_pieces(
    memory: AnthropicMemory,
    items: Seq<JsonView>,
    stop: JsonView,
    index: u64,
    tool_id: Seq<char>,
    tool_name: Seq<char>,
)
    requires
        items.len() > 0,
        opens_call(items[0], index, tool_id, tool_name),
        forall|i: int|
            0 < i < items.len() ==> named_kind(#[trigger] items[i]) is Some && !bounds(
                items[i],
                index,
            ),
        named_kind(stop) == Some("content_block_stop"@),
        block_index(stop) == Some(index),
    ensures
        ({
            let joined = pieces(items, index, "input_json_delta"@, "partial_json"@);
            let (after, completed) = decoded_data(heard(memory, items), None, Ok(stop));
            &&& !after.blocks.contains_key(index)
            &&& joined.len() == 0 ==> completed == Ok::<_, LlmErrorView>(
                seq![
                    LlmEventView::ToolCallComplete {
                        tool_id,
                        tool_name,
                        arguments: JsonView::Object(Seq::empty()),
                    },
                ],
            )
            &&& joined.len() > 0 ==> match json::parsed_json(joined) {
                Ok(arguments) => completed == Ok::<_, LlmErrorView>(
                    seq![LlmEventView::ToolCallComplete { tool_id, tool_name, arguments }],
                ),
                Err(_) => completed is Err && completed->Err_0 is InvalidResponse,
            }
        }),
{
    lemma_kinds_differ();
    lemma_call_is_remembered(memory, items, index, tool_id, tool_name);
}

/// What is remembered of a thought after its block began.
proof fn lemma_thought_is_remembered(
    memory: AnthropicMemory,
    items: Seq<JsonView>,
    index: u64,
    text: Seq<char>,
    signature: Seq<char>,
)
    requires
        items.len() > 0,
        opens_thought(items[0], index, text, signature),
        forall|i: int|
            0 < i < items.len() ==> named_kind(#[trigger] items[i]) is Some && !bounds(
                items[i],
                index,
            ),
    ensures
        heard(memory, items).blocks.contains_key(index),
        heard(memory, items).blocks[index] == (OpenBlock::Thinking {
            text: text + pieces(items, index, "thinking_delta"@, "thinking"@),
            signature: last_signature(items, index, signature),
        }),
    decreases items.len(),
{
    lemma_kinds_differ();
    let before = items.drop_last();
    if items.len() == 1 {
        assert(before =~= Seq::<JsonView>::empty());
        assert(heard(memory, before) == memory);
        assert(pieces(before, index, "thinking_delta"@, "thinking"@) == Seq::<char>::empty());
        assert(last_signature(before, index, signature) == signature);
        assert(items.last() == items[0]);
        assert(text + Seq::<char>::empty() =~= text);
    } else {
        assert forall|i: int| 0 < i < before.len() implies named_kind(#[trigger] before[i]) is Some
            && !bounds(before[i], index) by {
            assert(before[i] == items[i]);
        }
        assert(before[0] == items[0]);
        lemma_thought_is_remembered(memory, before, index, text, signature);
        assert(items.last() == items[items.len() - 1]);
        assert(named_kind(items.last()) is Some && !bounds(items.last(), index));
        let earlier = pieces(before, index, "thinking_delta"@, "thinking"@);
        assert forall|more: Seq<char>| text + (earlier + more) == #[trigger] ((text + earlier)
            + more) by {
            assert(text + (earlier + more) =~= (text + earlier) + more);
        }
    }
}

/// A thought holds its own pieces: once its block has begun, the end of the block completes it
/// with what it began with, all pieces for that block since it began, and the last signature
/// that it was given, whatever came before it.
pub proof fn law_thought_holds_its_own_pieces(
    memory: AnthropicMemory,
    items: Seq<JsonView>,
    stop: JsonView,
    index: u64,
    text: Seq<char>,
    signature: Seq<char>,
)
    requires
        items.len() > 0,
        opens_thought(items[0], index, text, signature),
        forall|i: int|
            0 < i < items.len() ==> named_kind(#[trigger] items[i]) is Some && !bounds(
                items[i],
                index,
            ),
        named_kind(stop) == Some("content_block_stop"@),
        block_index(stop) == Some(index),
    ensures
        decoded_data(heard(memory, items), None, Ok(stop)).1 == Ok::<_, LlmErrorView>(
            seq![
                LlmEventView::ThinkingComplete {
                    thinking: text + pieces(items, index, "thinking_delta"@, "thinking"@),
                    signature: last_signature(items, index, signature),
                    encrypted_content: Seq::empty(),
                },
            ],
        ),
{
    lemma_kinds_differ();
    lemma_thought_is_remembered(memory, items, index, text, signature);
}

/// Pieces are passed on as they come, the beginning of a call is told of, an error is the
/// failure of the answer, and events of other kinds are passed over. Where the data does not
/// say its kind, the name of the event does.
pub proof fn law_events_are_passed_on(
    memory: AnthropicMemory,
    name: Option<Seq<char>>,
    data: JsonView,
    index: u64,
    piece: Seq<char>,
    id: Seq<char>,
)
    ensures
        ({
            let kind = match named_kind(data) {
                Some(kind) => kind,
                None => match name {
                    Some(kind) => kind,
                    None => Seq::empty(),
                },
            };
            let (after, told) = decoded_data(memory, name, Ok(data));
            &&& brings(data, index, "text_delta"@, "text"@, piece) ==> after == memory && told
                == Ok::<_, LlmErrorView>(seq![LlmEventView::TextDelta { text: piece }])
            &&& brings(data, index, "thinking_delta"@, "thinking"@, piece) ==> told == Ok::<
                _,
                LlmErrorView,
            >(seq![LlmEventView::ThinkingDelta { text: piece }])
            &&& brings(data, index, "input_json_delta"@, "partial_json"@, piece) ==> told == Ok::<
                _,
                LlmErrorView,
            >(seq![LlmEventView::ToolCallDelta { text: piece }])
            &&& opens_call(data, index, id, piece) ==> told == Ok::<_, LlmErrorView>(
                seq![LlmEventView::ToolCallStart { tool_id: id, tool_name: piece }],
            )
            &&& (kind == "content_block_start"@ || kind == "content_block_delta"@ || kind
                == "content_block_stop"@) && block_index(data) is None ==> after == memory && told
                is Err && told->Err_0 is InvalidResponse
            &&& kind == "error"@ && json::as_text(
                json::member_of_member(data, "error"@, "message"@),
            ) == Some(piece) ==> told == Err::<Seq<LlmEventView>, _>(
                LlmErrorView::InvalidResponse { message: piece },
            )
            &&& kind == "error"@ ==> after == memory && told is Err
            &&& (kind != "message_start"@ && kind != "content_block_start"@ && kind
                != "content_block_delta"@ && kind != "content_block_stop"@ && kind
                != "message_delta"@ && kind != "message_stop"@ && kind != "error"@) ==> after
                == memory && told == Ok::<_, LlmErrorView>(Seq::<LlmEventView>::empty())
        }),
        forall|message: Seq<char>|
            ({
                let (after, told) = #[trigger] decoded_data(memory, name, Err(message));
                after == memory && told is Err && told->Err_0 is InvalidResponse
            }),
{
    lemma_kinds_differ();
}

/// The end of an answer tells what was used and why it ended: the beginning of the answer says
/// what went in and what the cache gave and took, its last report what came out and why, and
/// nothing else changes these.
pub proof fn law_end_tells_of_usage_and_reason(
    memory: AnthropicMemory,
    data: JsonView,
    number: u64,
    reason: Seq<char>,
)
    requires
        named_kind(data) is Some,
    ensures
        ({
            let kind = named_kind(data)->0;
            let (after, told) = decoded_data(memory, None, Ok(data));
            let started = json::member_of_member(data, "message"@, "usage"@);
            &&& kind == "message_start"@ && started is Some ==> {
                &&& after.usage.output_tokens == memory.usage.output_tokens
                &&& after.stop_reason == memory.stop_reason
                &&& json::member(started->0, "input_tokens"@) == Some(JsonView::Unsigned(number))
                    ==> after.usage.input_tokens == number
                &&& json::member(started->0, "cache_read_input_tokens"@) == Some(
                    JsonView::Unsigned(number),
                ) ==> after.usage.cache_read_tokens == number
                &&& json::member(started->0, "cache_creation_input_tokens"@) == Some(
                    JsonView::Unsigned(number),
                ) ==> after.usage.cache_creation_tokens == number
            }
            &&& kind == "message_delta"@ ==> {
                let named = json::as_text(json::member_of_member(data, "delta"@, "stop_reason"@));
                &&& after.usage.input_tokens == memory.usage.input_tokens
                &&& after.usage.cache_read_tokens == memory.usage.cache_read_tokens
                &&& after.usage.cache_creation_tokens == memory.usage.cache_creation_tokens
                &&& json::member_of_member(data, "usage"@, "output_tokens"@) == Some(
                    JsonView::Unsigned(number),
                ) ==> after.usage.output_tokens == number
                &&& named is None ==> after.stop_reason == memory.stop_reason
                &&& named == Some("end_turn"@) ==> after.stop_reason == Some(
                    StopReasonView::EndTurn,
                )
                &&& named == Some("tool_use"@) ==> after.stop_reason == Some(
                    StopReasonView::ToolUse,
                )
                &&& named == Some("max_tokens"@) ==> after.stop_reason == Some(
                    StopReasonView::MaxTokens,
                )
                &&& named == Some("stop_sequence"@) ==> after.stop_reason == Some(
                    StopReasonView::StopSequence,
                )
                &&& named == Some(reason) && reason != "end_turn"@ && reason != "tool_use"@
                    && reason != "max_tokens"@ && reason != "stop_sequence"@ ==> after.stop_reason
                    == Some(StopReasonView::Other(reason))
            }
            &&& kind == "message_stop"@ ==> told == Ok::<_, LlmErrorView>(
                seq![
                    LlmEventView::StreamEnd {
                        stop_reason: match memory.stop_reason {
                            Some(reason) => reason,
                            None => StopReasonView::EndTurn,
                        },
                        usage: memory.usage,
                    },
                ],
            )
            &&& kind != "message_start"@ && kind != "message_delta"@ ==> after.usage
                == memory.usage && after.stop_reason == memory.stop_reason
        }),
{
    lemma_kinds_differ();
    reveal_strlit("end_turn");
    reveal_strlit("tool_use");
    reveal_strlit("max_tokens");
    reveal_strlit("stop_sequence");
    assert("end_turn"@.len() == 8 && "tool_use"@.len() == 8 && "max_tokens"@.len() == 10
        && "stop_sequence"@.len() == 13);
    assert("end_turn"@[0] == 'e' && "tool_use"@[0] == 't');
}

/// A model that thinks is given a budget just below the limit of its answer, and at least one
/// token; one that decides for itself how much to think is given none.
pub proof fn law_thinking_stays_below_the_limit(
    model: Seq<char>,
    family: Option<Seq<char>>,
    max_output_tokens: u64,
    rest: Seq<char>,
    digit: char,
)
    ensures
        ({
            let thinking = thinking_json(model, family, max_output_tokens);
            let kind = json::as_text(json::member(thinking, "type"@));
            let budget = json::as_unsigned(json::member(thinking, "budget_tokens"@));
            &&& kind == Some("adaptive"@) <==> budget is None
            &&& kind == Some("adaptive"@) || kind == Some("enabled"@)
            &&& budget is Some && max_output_tokens >= 2 ==> budget->0 + 1 == max_output_tokens
            &&& budget is Some && max_output_tokens < 2 ==> budget->0 == 1
            &&& family is None ==> kind == Some("enabled"@)
            &&& family is Some && '6' <= digit <= '9' && (model == family->0
                + "-opus-4-"@.push(digit) + rest || model == family->0 + "-sonnet-4-"@.push(digit)
                + rest) ==> kind == Some("adaptive"@)
            &&& family is Some && !('6' <= digit <= '9') && model == family->0
                + "-opus-4-"@.push(digit) + rest ==> kind == Some("enabled"@)
            &&& family is Some && !('6' <= digit <= '9') && model == family->0
                + "-sonnet-4-"@.push(digit) + rest ==> kind == Some("enabled"@)
        }),
{
    reveal_with_fuel(json::entry_from, 3);
    reveal_strlit("type");
    reveal_strlit("budget_tokens");
    reveal_strlit("adaptive");
    reveal_strlit("enabled");
    assert("type"@.len() == 4 && "budget_tokens"@.len() == 13);
    assert("adaptive"@.len() == 8 && "enabled"@.len() == 7);
    if let Some(family) = family {
        reveal_strlit("-opus-4-");
        reveal_strlit("-sonnet-4-");
        let opus = family + "-opus-4-"@;
        let sonnet = family + "-sonnet-4-"@;
        let at = family.len() as int;
        if model == family + "-opus-4-"@.push(digit) + rest {
            assert(model.subrange(0, opus.len() as int) =~= opus);
            assert(model[opus.len() as int] == digit);
            assert(model[at + 1] == 'o');
            if text::begins_with(model, sonnet) {
                assert(model.subrange(0, sonnet.len() as int)[at + 1] == sonnet[at + 1]);
                assert(sonnet[at + 1] == 's');
            }
        }
        if model == family + "-sonnet-4-"@.push(digit) + rest {
            assert(model.subrange(0, sonnet.len() as int) =~= sonnet);
            assert(model[sonnet.len() as int] == digit);
            assert(model[at + 1] == 's');
            if text::begins_with(model, opus) {
                assert(model.subrange(0, opus.len() as int)[at + 1] == opus[at + 1]);
                assert(opus[at + 1] == 'o');
            }
        }
    }
}

/// The beginning of a block that lacks its content, or of a call that lacks its id or its name, is
/// refused, as is a piece that lacks what it is a piece of; nothing is remembered of it.
pub proof fn law_incomplete_blocks_are_refused(memory: AnthropicMemory, data: JsonView)
    requires
        block_index(data) is Some,
    ensures
        ({
            let (after, told) = decoded_data(memory, None, Ok(data));
            let block = json::member(data, "content_block"@);
            let call = block is Some && json::as_text(json::member(block->0, "type"@)) == Some(
                "tool_use"@,
            );
            let complete = call && json::as_text(json::member(block->0, "id"@)) is Some
                && json::as_text(json::member(block->0, "name"@)) is Some;
            let delta = json::member(data, "delta"@);
            &&& named_kind(data) == Some("content_block_start"@) && (block is None || (call
                && !complete)) ==> told is Err && told->Err_0 is InvalidResponse && after == memory
            &&& named_kind(data) == Some("content_block_start"@) && block is Some && !call ==> told
                == Ok::<_, LlmErrorView>(Seq::<LlmEventView>::empty())
            &&& named_kind(data) == Some("content_block_delta"@) && delta is None ==> told is Err
                && told->Err_0 is InvalidResponse && after == memory
        }),
{
    lemma_kinds_differ();
}

/// Blocks do not disturb each other: an event about one block changes nothing that is remembered
/// of another.
pub proof fn law_blocks_do_not_disturb_each_other(
    memory: AnthropicMemory,
    data: JsonView,
    other: u64,
)
    requires
        named_kind(data) is Some,
        block_index(data) != Some(other),
    ensures
        ({
            let after = decoded_data(memory, None, Ok(data)).0;
            &&& after.blocks.contains_key(other) == memory.blocks.contains_key(other)
            &&& memory.blocks.contains_key(other) ==> after.blocks[other] == memory.blocks[other]
        }),
{
    lemma_kinds_differ();
}

/// What is decoded of an event is what its data says, read as JSON, with the name of the event;
/// the end of the stream says nothing more.
pub proof fn law_data_is_read_as_json(memory: AnthropicMemory, event: SseEventView)
    ensures
        <AnthropicStreamState as SseDecoder>::decoding(memory, event) == decoded_data(
            memory,
            event.event,
            json::parsed_json(event.data),
        ),
        <AnthropicStreamState as SseDecoder>::finishing(memory) == (
            memory,
            Ok::<_, LlmErrorView>(Seq::<LlmEventView>::empty()),
        ),
{
}

/// Events that only tell the decoder something tell the caller nothing: the beginning and the
/// last report of an answer, a signature, and the end of a text or of a block that never began.
pub proof fn law_quiet_events_tell_nothing(
    memory: AnthropicMemory,
    data: JsonView,
    index: u64,
    signature: Seq<char>,
)
    requires
        named_kind(data) is Some,
    ensures
        ({
            let kind = named_kind(data)->0;
            let told = decoded_data(memory, None, Ok(data)).1;
            let open = memory.blocks.contains_key(index);
            let quiet = kind == "message_start"@ || kind == "message_delta"@ || brings(
                data,
                index,
                "signature_delta"@,
                "signature"@,
                signature,
            ) || (kind == "content_block_stop"@ && block_index(data) == Some(index) && (!open
                || memory.blocks[index] is Text));
            quiet ==> told == Ok::<_, LlmErrorView>(Seq::<LlmEventView>::empty())
        }),
{
    lemma_kinds_differ();
}

} // verus!
