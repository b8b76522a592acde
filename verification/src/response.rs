//! Reading what a provider sends: fields that must be there, and fields that may.
use vstd::prelude::*;

use crate::events::{LlmError, LlmErrorView, LlmEvent, LlmEventView};
use crate::events;
use crate::json::{Json, JsonView, Members};
use crate::json;
use crate::text;

verus! {

/// The error for a response that lacks something.
pub open spec fn invalid(message: Seq<char>) -> LlmErrorView {
    LlmErrorView::InvalidResponse { message }
}

/// The error for a missing text field.
pub open spec fn missing_text(provider: Seq<char>, field: Seq<char>) -> LlmErrorView {
    invalid(provider + " response is missing string field "@ + text::quoted_text(field))
}

/// The error for a missing integer field.
pub open spec fn missing_integer(provider: Seq<char>, field: Seq<char>) -> LlmErrorView {
    invalid(provider + " response is missing integer field "@ + text::quoted_text(field))
}

/// The error for a missing part.
pub open spec fn missing_part(provider: Seq<char>) -> LlmErrorView {
    invalid(provider + " response was missing an expected field"@)
}

/// The text under `field`, or the empty text.
pub open spec fn text_or_empty(json: JsonView, field: Seq<char>) -> Seq<char> {
    match json::as_text(json::member(json, field)) {
        Some(text) => text,
        None => Seq::empty(),
    }
}

/// The text under `field`.
pub open spec fn required_text(provider: Seq<char>, json: JsonView, field: Seq<char>) -> Result<
    Seq<char>,
    LlmErrorView,
> {
    match json::as_text(json::member(json, field)) {
        Some(text) => Ok(text),
        None => Err(missing_text(provider, field)),
    }
}

/// The integer under `field`.
pub open spec fn required_integer(provider: Seq<char>, json: JsonView, field: Seq<char>) -> Result<u64, LlmErrorView> {
    match json::as_unsigned(json::member(json, field)) {
        Some(number) => Ok(number),
        None => Err(missing_integer(provider, field)),
    }
}

/// The view of a required text.
pub open spec fn text_outcome(outcome: Result<String, LlmError>) -> Result<Seq<char>, LlmErrorView> {
    match outcome {
        Ok(text) => Ok(text@),
        Err(error) => Err(error@),
    }
}

/// The view of a required integer.
pub open spec fn integer_outcome(outcome: Result<u64, LlmError>) -> Result<u64, LlmErrorView> {
    match outcome {
        Ok(number) => Ok(number),
        Err(error) => Err(error@),
    }
}

/// The text under `field`.
pub fn required_string(provider: &str, object: &Json, field: &str) -> (outcome: Result<String, LlmError>)
    ensures
        text_outcome(outcome) == required_text(provider@, object@, field@),
{
    match json::text_in(object.get(field)) {
        Some(text) => Ok(text),
        None => Err(
            LlmError::InvalidResponse {
                message: text::concat3(
                    provider,
                    " response is missing string field ",
                    text::quoted(field).as_str(),
                ),
            },
        ),
    }
}

/// The integer under `field`.
pub fn required_u64(provider: &str, object: &Json, field: &str) -> (outcome: Result<u64, LlmError>)
    ensures
        integer_outcome(outcome) == required_integer(provider@, object@, field@),
{
    match json::unsigned_in(object.get(field)) {
        Some(number) => Ok(number),
        None => Err(
            LlmError::InvalidResponse {
                message: text::concat3(
                    provider,
                    " response is missing integer field ",
                    text::quoted(field).as_str(),
                ),
            },
        ),
    }
}

/// The error for a missing part.
pub fn invalid_response(provider: &str) -> (error: LlmError)
    ensures
        error@ == missing_part(provider@),
{
    LlmError::InvalidResponse {
        message: text::concat(provider, " response was missing an expected field"),
    }
}

/// The text under `field`, or the empty text.
pub fn optional_string(object: &Json, field: &str) -> (result: String)
    ensures
        result@ == text_or_empty(object@, field@),
{
    match json::text_in(object.get(field)) {
        Some(text) => text,
        None => String::new(),
    }
}

/// The kind of an event: what its data says, or else the name it was sent under.
pub open spec fn event_kind(name: Option<Seq<char>>, data: JsonView) -> Seq<char> {
    match json::as_text(json::member(data, "type"@)) {
        Some(kind) => kind,
        None => match name {
            Some(kind) => kind,
            None => Seq::empty(),
        },
    }
}

/// The kind of an event.
pub fn kind_of_event(name: &Option<String>, data: &Json) -> (kind: String)
    ensures
        kind@ == event_kind(text::optional_text(*name), data@),
{
    match json::text_in(data.get("type")) {
        Some(kind) => kind,
        None => match name {
            Some(kind) => text::copy_text(kind.as_str()),
            None => String::new(),
        },
    }
}

/// The arguments that were collected for a tool call: an empty object where there was
/// no text.
pub open spec fn collected_arguments(text: Seq<char>) -> Result<JsonView, Seq<char>> {
    if text.len() == 0 {
        Ok(JsonView::Object(Seq::empty()))
    } else {
        json::parsed_json(text)
    }
}

/// The arguments that were collected for a tool call.
pub fn collect_arguments(text: &str) -> (arguments: Result<Json, String>)
    ensures
        json::outcome_view(arguments) == collected_arguments(text@),
{
    if text.is_empty() {
        Ok(Members::new().object())
    } else {
        Json::parse(text)
    }
}

/// The complete tool call with those arguments, or the error where they are no JSON.
pub open spec fn call_completed(
    provider: Seq<char>,
    tool_id: Seq<char>,
    tool_name: Seq<char>,
    arguments: Result<JsonView, Seq<char>>,
) -> Result<Seq<LlmEventView>, LlmErrorView> {
    match arguments {
        Ok(arguments) => Ok(
            seq![LlmEventView::ToolCallComplete { tool_id, tool_name, arguments }],
        ),
        Err(message) => Err(bad_arguments(provider, message)),
    }
}

/// The error for arguments that are no JSON.
pub open spec fn bad_arguments(provider: Seq<char>, message: Seq<char>) -> LlmErrorView {
    invalid("invalid "@ + provider + " Tool arguments: "@ + message)
}

/// The error for arguments that are no JSON.
pub fn bad_arguments_error(provider: &str, message: &str) -> (error: LlmError)
    ensures
        error@ == bad_arguments(provider@, message@),
{
    let mut full = text::concat3("invalid ", provider, " Tool arguments: ");
    full.append(message);
    LlmError::InvalidResponse { message: full }
}

/// The complete tool call with those arguments, or the error where they are no JSON.
pub fn complete_call(
    provider: &str,
    tool_id: String,
    tool_name: String,
    arguments: Result<Json, String>,
) -> (outcome: Result<Vec<LlmEvent>, LlmError>)
    ensures
        events::decoded_view(outcome) == call_completed(
            provider@,
            tool_id@,
            tool_name@,
            json::outcome_view(arguments),
        ),
{
    match arguments {
        Ok(arguments) => Ok(
            events::one_event(LlmEvent::ToolCallComplete { tool_id, tool_name, arguments }),
        ),
        Err(message) => Err(bad_arguments_error(provider, message.as_str())),
    }
}

/// The error for an event whose data is no JSON.
pub open spec fn no_json(provider: Seq<char>, message: Seq<char>) -> LlmErrorView {
    invalid("invalid "@ + provider + " SSE JSON: "@ + message)
}

/// The error for an event whose data is no JSON.
pub fn no_json_error(provider: &str, message: &str) -> (error: LlmError)
    ensures
        error@ == no_json(provider@, message@),
{
    let mut full = text::concat3("invalid ", provider, " SSE JSON: ");
    full.append(message);
    LlmError::InvalidResponse { message: full }
}

/// What is missing in a response is told by the name of the provider and of the field, and what
/// is no JSON by why it is none.
pub proof fn law_wrong_responses_are_told(
    provider: Seq<char>,
    field: Seq<char>,
    json: JsonView,
    message: Seq<char>,
)
    ensures
        json::as_text(json::member(json, field)) is Some ==> required_text(provider, json, field)
            == Ok::<_, LlmErrorView>(json::as_text(json::member(json, field))->0),
        json::as_text(json::member(json, field)) is None ==> required_text(provider, json, field)
            == Err::<Seq<char>, _>(
            LlmErrorView::InvalidResponse {
                message: provider + " response is missing string field "@ + text::quoted_text(
                    field,
                ),
            },
        ),
        json::as_unsigned(json::member(json, field)) is Some ==> required_integer(
            provider,
            json,
            field,
        ) == Ok::<_, LlmErrorView>(json::as_unsigned(json::member(json, field))->0),
        json::as_unsigned(json::member(json, field)) is None ==> required_integer(
            provider,
            json,
            field,
        ) == Err::<u64, _>(
            LlmErrorView::InvalidResponse {
                message: provider + " response is missing integer field "@ + text::quoted_text(
                    field,
                ),
            },
        ),
        bad_arguments(provider, message) == (LlmErrorView::InvalidResponse {
            message: "invalid "@ + provider + " Tool arguments: "@ + message,
        }),
        no_json(provider, message) == (LlmErrorView::InvalidResponse {
            message: "invalid "@ + provider + " SSE JSON: "@ + message,
        }),
{
}

} // verus!
