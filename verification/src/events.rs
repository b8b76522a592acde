//! What a provider reports while it answers, and how it fails.
use vstd::prelude::*;

use crate::json::{Json, JsonView};
use crate::text;

verus! {

#[derive(Debug, PartialEq, Eq)]
pub enum StopReason {
    EndTurn,
    ToolUse,
    MaxTokens,
    StopSequence,
    Other(String),
}

/// What a [`StopReason`] holds.
#[verifier::ext_equal]
pub enum StopReasonView {
    EndTurn,
    ToolUse,
    MaxTokens,
    StopSequence,
    Other(Seq<char>),
}

impl View for StopReason {
    type V = StopReasonView;

    open spec fn view(&self) -> StopReasonView {
        match *self {
            StopReason::EndTurn => StopReasonView::EndTurn,
            StopReason::ToolUse => StopReasonView::ToolUse,
            StopReason::MaxTokens => StopReasonView::MaxTokens,
            StopReason::StopSequence => StopReasonView::StopSequence,
            StopReason::Other(text) => StopReasonView::Other(text@),
        }
    }
}

impl Clone for StopReason {
    fn clone(&self) -> (copy: Self)
        ensures
            copy@ == self@,
    {
        match self {
            StopReason::EndTurn => StopReason::EndTurn,
            StopReason::ToolUse => StopReason::ToolUse,
            StopReason::MaxTokens => StopReason::MaxTokens,
            StopReason::StopSequence => StopReason::StopSequence,
            StopReason::Other(text) => StopReason::Other(text.clone()),
        }
    }
}

/// The view of an optional stop reason.
pub open spec fn optional_stop_reason(reason: Option<StopReason>) -> Option<StopReasonView> {
    match reason {
        Some(reason) => Some(reason@),
        None => None,
    }
}

/// The reported stop reason, or the end of the turn where none was reported.
pub open spec fn stop_reason_or_end(reason: Option<StopReasonView>) -> StopReasonView {
    match reason {
        Some(reason) => reason,
        None => StopReasonView::EndTurn,
    }
}

/// The reported stop reason, or the end of the turn where none was reported.
pub fn reported_stop_reason(reason: &Option<StopReason>) -> (result: StopReason)
    ensures
        result@ == stop_reason_or_end(optional_stop_reason(*reason)),
{
    match reason {
        Some(reason) => reason.clone(),
        None => StopReason::EndTurn,
    }
}

/// How many tokens a request took.
#[derive(Debug, Clone, Copy, PartialEq, Eq, Structural)]
pub struct Usage {
    pub input_tokens: u64,
    pub output_tokens: u64,
    pub cache_read_tokens: u64,
    pub cache_creation_tokens: u64,
}

impl Default for Usage {
    fn default() -> (usage: Self)
        ensures
            usage == no_usage(),
    {
        Usage {
            input_tokens: 0,
            output_tokens: 0,
            cache_read_tokens: 0,
            cache_creation_tokens: 0,
        }
    }
}

/// The usage of nothing.
pub open spec fn no_usage() -> Usage {
    Usage { input_tokens: 0, output_tokens: 0, cache_read_tokens: 0, cache_creation_tokens: 0 }
}

#[derive(Debug, PartialEq, Eq)]
pub enum LlmEvent {
    TextDelta { text: String },
    ThinkingDelta { text: String },
    ThinkingComplete { thinking: String, signature: String, encrypted_content: String },
    ToolCallStart { tool_id: String, tool_name: String },
    ToolCallDelta { text: String },
    ToolCallComplete { tool_id: String, tool_name: String, arguments: Json },
    StreamEnd { stop_reason: StopReason, usage: Usage },
}

/// What an [`LlmEvent`] holds.
#[verifier::ext_equal]
pub enum LlmEventView {
    TextDelta { text: Seq<char> },
    ThinkingDelta { text: Seq<char> },
    ThinkingComplete { thinking: Seq<char>, signature: Seq<char>, encrypted_content: Seq<char> },
    ToolCallStart { tool_id: Seq<char>, tool_name: Seq<char> },
    ToolCallDelta { text: Seq<char> },
    ToolCallComplete { tool_id: Seq<char>, tool_name: Seq<char>, arguments: JsonView },
    StreamEnd { stop_reason: StopReasonView, usage: Usage },
}

impl View for LlmEvent {
    type V = LlmEventView;

    open spec fn view(&self) -> LlmEventView {
        match *self {
            LlmEvent::TextDelta { text } => LlmEventView::TextDelta { text: text@ },
            LlmEvent::ThinkingDelta { text } => LlmEventView::ThinkingDelta { text: text@ },
            LlmEvent::ThinkingComplete { thinking, signature, encrypted_content } =>
                LlmEventView::ThinkingComplete {
                thinking: thinking@,
                signature: signature@,
                encrypted_content: encrypted_content@,
            },
            LlmEvent::ToolCallStart { tool_id, tool_name } => LlmEventView::ToolCallStart {
                tool_id: tool_id@,
                tool_name: tool_name@,
            },
            LlmEvent::ToolCallDelta { text } => LlmEventView::ToolCallDelta { text: text@ },
            LlmEvent::ToolCallComplete { tool_id, tool_name, arguments } =>
                LlmEventView::ToolCallComplete {
                tool_id: tool_id@,
                tool_name: tool_name@,
                arguments: arguments@,
            },
            LlmEvent::StreamEnd { stop_reason, usage } => LlmEventView::StreamEnd {
                stop_reason: stop_reason@,
                usage,
            },
        }
    }
}

impl Clone for LlmEvent {
    fn clone(&self) -> (copy: Self)
        ensures
            copy@ == self@,
    {
        match self {
            LlmEvent::TextDelta { text } => LlmEvent::TextDelta { text: text.clone() },
            LlmEvent::ThinkingDelta { text } => LlmEvent::ThinkingDelta { text: text.clone() },
            LlmEvent::ThinkingComplete { thinking, signature, encrypted_content } =>
                LlmEvent::ThinkingComplete {
                thinking: thinking.clone(),
                signature: signature.clone(),
                encrypted_content: encrypted_content.clone(),
            },
            LlmEvent::ToolCallStart { tool_id, tool_name } => LlmEvent::ToolCallStart {
                tool_id: tool_id.clone(),
                tool_name: tool_name.clone(),
            },
            LlmEvent::ToolCallDelta { text } => LlmEvent::ToolCallDelta { text: text.clone() },
            LlmEvent::ToolCallComplete { tool_id, tool_name, arguments } =>
                LlmEvent::ToolCallComplete {
                tool_id: tool_id.clone(),
                tool_name: tool_name.clone(),
                arguments: arguments.clone(),
            },
            LlmEvent::StreamEnd { stop_reason, usage } => LlmEvent::StreamEnd {
                stop_reason: stop_reason.clone(),
                usage: *usage,
            },
        }
    }
}

/// The views of a sequence of events.
pub open spec fn event_views(events: Seq<LlmEvent>) -> Seq<LlmEventView> {
    events.map_values(|event: LlmEvent| event@)
}

#[derive(Debug, PartialEq, Eq)]
pub enum LlmError {
    Authentication { message: String },
    RateLimit { message: String, retry_after: Option<String> },
    Network { message: String },
    ContextTooLong { message: String },
    InvalidResponse { message: String },
    Cancelled,
}

/// What an [`LlmError`] holds.
#[verifier::ext_equal]
pub enum LlmErrorView {
    Authentication { message: Seq<char> },
    RateLimit { message: Seq<char>, retry_after: Option<Seq<char>> },
    Network { message: Seq<char> },
    ContextTooLong { message: Seq<char> },
    InvalidResponse { message: Seq<char> },
    Cancelled,
}

impl View for LlmError {
    type V = LlmErrorView;

    open spec fn view(&self) -> LlmErrorView {
        match *self {
            LlmError::Authentication { message } => LlmErrorView::Authentication {
                message: message@,
            },
            LlmError::RateLimit { message, retry_after } => LlmErrorView::RateLimit {
                message: message@,
                retry_after: text::optional_text(retry_after),
            },
            LlmError::Network { message } => LlmErrorView::Network { message: message@ },
            LlmError::ContextTooLong { message } => LlmErrorView::ContextTooLong {
                message: message@,
            },
            LlmError::InvalidResponse { message } => LlmErrorView::InvalidResponse {
                message: message@,
            },
            LlmError::Cancelled => LlmErrorView::Cancelled,
        }
    }
}

impl Clone for LlmError {
    fn clone(&self) -> (copy: Self)
        ensures
            copy@ == self@,
    {
        match self {
            LlmError::Authentication { message } => LlmError::Authentication {
                message: message.clone(),
            },
            LlmError::RateLimit { message, retry_after } => LlmError::RateLimit {
                message: message.clone(),
                retry_after: text::copy_optional(retry_after),
            },
            LlmError::Network { message } => LlmError::Network { message: message.clone() },
            LlmError::ContextTooLong { message } => LlmError::ContextTooLong {
                message: message.clone(),
            },
            LlmError::InvalidResponse { message } => LlmError::InvalidResponse {
                message: message.clone(),
            },
            LlmError::Cancelled => LlmError::Cancelled,
        }
    }
}

/// What an error says to a reader.
pub open spec fn error_text(error: LlmErrorView) -> Seq<char> {
    match error {
        LlmErrorView::Authentication { message } => "provider authentication failed: "@ + message,
        LlmErrorView::RateLimit { message, .. } => "provider rate limit exceeded: "@ + message,
        LlmErrorView::Network { message } => "provider network request failed: "@ + message,
        LlmErrorView::ContextTooLong { message } => "provider context is too long: "@ + message,
        LlmErrorView::InvalidResponse { message } => "provider returned an invalid response: "@
            + message,
        LlmErrorView::Cancelled => "provider request was cancelled"@,
    }
}

impl LlmError {
    /// What the error says to a reader.
    pub fn message(&self) -> (text: String)
        ensures
            text@ == error_text(self@),
    {
        match self {
            LlmError::Authentication { message } => text::concat(
                "provider authentication failed: ",
                message.as_str(),
            ),
            LlmError::RateLimit { message, .. } => text::concat(
                "provider rate limit exceeded: ",
                message.as_str(),
            ),
            LlmError::Network { message } => text::concat(
                "provider network request failed: ",
                message.as_str(),
            ),
            LlmError::ContextTooLong { message } => text::concat(
                "provider context is too long: ",
                message.as_str(),
            ),
            LlmError::InvalidResponse { message } => text::concat(
                "provider returned an invalid response: ",
                message.as_str(),
            ),
            LlmError::Cancelled => text::copy_text("provider request was cancelled"),
        }
    }
}

/// What decoding an event gave: the events it stands for, or an error.
pub open spec fn decoded_view(outcome: Result<Vec<LlmEvent>, LlmError>) -> Result<
    Seq<LlmEventView>,
    LlmErrorView,
> {
    match outcome {
        Ok(events) => Ok(event_views(events@)),
        Err(error) => Err(error@),
    }
}

/// The list that holds `event` alone.
pub fn one_event(event: LlmEvent) -> (events: Vec<LlmEvent>)
    ensures
        event_views(events@) == seq![event@],
{
    let mut events: Vec<LlmEvent> = Vec::new();
    events.push(event);
    assert(event_views(events@) =~= seq![event@]);
    events
}

/// The empty list of events.
pub fn no_events() -> (events: Vec<LlmEvent>)
    ensures
        event_views(events@) == Seq::<LlmEventView>::empty(),
{
    let events: Vec<LlmEvent> = Vec::new();
    assert(event_views(events@) =~= Seq::<LlmEventView>::empty());
    events
}

/// What is told of an error says what kind it is and all that it says itself.
pub proof fn law_errors_tell_what_went_wrong(error: LlmErrorView)
    ensures
        ({
            let told = error_text(error);
            match error {
                LlmErrorView::Authentication { message } => told
                    == "provider authentication failed: "@ + message,
                LlmErrorView::RateLimit { message, .. } => told
                    == "provider rate limit exceeded: "@ + message,
                LlmErrorView::Network { message } => told == "provider network request failed: "@
                    + message,
                LlmErrorView::ContextTooLong { message } => told
                    == "provider context is too long: "@ + message,
                LlmErrorView::InvalidResponse { message } => told
                    == "provider returned an invalid response: "@ + message,
                LlmErrorView::Cancelled => told == "provider request was cancelled"@,
            }
        }),
{
}

} // verus!
