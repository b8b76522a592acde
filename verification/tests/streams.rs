use mycode::anthropic::AnthropicStreamState;
use mycode::events::{LlmError, LlmEvent, StopReason, Usage};
use mycode::http::{
    advance_stream, invalid_url_error, is_success, map_http_error, SseDecoder, StreamSignal,
};
use mycode::json::Json;
use mycode::openai::OpenAiResponsesStreamState;
use mycode::openai_compat::ChatCompletionsStreamState;
use mycode::sse::SseEvent;

fn arguments(text: &str) -> Json {
    Json::parse(text).expect("valid JSON")
}

fn usage(input: u64, output: u64, read: u64, creation: u64) -> Usage {
    Usage {
        input_tokens: input,
        output_tokens: output,
        cache_read_tokens: read,
        cache_creation_tokens: creation,
    }
}

fn replay<D: SseDecoder>(mut decoder: D, data: &[&str]) -> Vec<Result<LlmEvent, LlmError>> {
    let mut items = Vec::new();
    for line in data {
        let step = advance_stream(
            &mut decoder,
            StreamSignal::Event(SseEvent {
                event: None,
                data: line.to_string(),
            }),
        );
        items.extend(step.items);
        if step.done {
            return items;
        }
    }
    let step = advance_stream(&mut decoder, StreamSignal::End);
    assert!(step.done);
    items.extend(step.items);
    items
}

fn events<D: SseDecoder>(decoder: D, data: &[&str]) -> Vec<LlmEvent> {
    replay(decoder, data)
        .into_iter()
        .map(|item| item.expect("stream should not fail"))
        .collect()
}

fn text(text: &str) -> LlmEvent {
    LlmEvent::TextDelta { text: text.into() }
}

fn thinking(text: &str) -> LlmEvent {
    LlmEvent::ThinkingDelta { text: text.into() }
}

fn start(id: &str, name: &str) -> LlmEvent {
    LlmEvent::ToolCallStart {
        tool_id: id.into(),
        tool_name: name.into(),
    }
}

fn delta(text: &str) -> LlmEvent {
    LlmEvent::ToolCallDelta { text: text.into() }
}

fn complete(id: &str, name: &str, json: &str) -> LlmEvent {
    LlmEvent::ToolCallComplete {
        tool_id: id.into(),
        tool_name: name.into(),
        arguments: arguments(json),
    }
}

#[test]
fn anthropic_streams_are_decoded() {
    let decoded = events(
        AnthropicStreamState::default(),
        &[
            r#"{"type":"message_start","message":{"usage":{"input_tokens":120,"output_tokens":1,"cache_read_input_tokens":5000,"cache_creation_input_tokens":200}}}"#,
            r#"{"type":"content_block_start","index":0,"content_block":{"type":"text","text":""}}"#,
            r#"{"type":"content_block_delta","index":0,"delta":{"type":"text_delta","text":"hello"}}"#,
            r#"{"type":"content_block_stop","index":0}"#,
            r#"{"type":"content_block_start","index":1,"content_block":{"type":"thinking","thinking":""}}"#,
            r#"{"type":"content_block_delta","index":1,"delta":{"type":"thinking_delta","thinking":"thinking"}}"#,
            r#"{"type":"content_block_delta","index":1,"delta":{"type":"signature_delta","signature":"signature"}}"#,
            r#"{"type":"content_block_stop","index":1}"#,
            r#"{"type":"content_block_start","index":2,"content_block":{"type":"tool_use","id":"call-2","name":"read_file"}}"#,
            r#"{"type":"content_block_delta","index":2,"delta":{"type":"input_json_delta","partial_json":"{\"path\":"}}"#,
            r#"{"type":"content_block_delta","index":2,"delta":{"type":"input_json_delta","partial_json":"\"README.md\"}"}}"#,
            r#"{"type":"content_block_stop","index":2}"#,
            r#"{"type":"message_delta","delta":{"stop_reason":"tool_use"},"usage":{"output_tokens":42}}"#,
            r#"{"type":"message_stop"}"#,
        ],
    );
    assert_eq!(
        decoded,
        vec![
            text("hello"),
            thinking("thinking"),
            LlmEvent::ThinkingComplete {
                thinking: "thinking".into(),
                signature: "signature".into(),
                encrypted_content: String::new(),
            },
            start("call-2", "read_file"),
            delta("{\"path\":"),
            delta("\"README.md\"}"),
            complete("call-2", "read_file", r#"{"path": "README.md"}"#),
            LlmEvent::StreamEnd {
                stop_reason: StopReason::ToolUse,
                usage: usage(120, 42, 5000, 200),
            },
        ]
    );
}

#[test]
fn responses_streams_are_decoded() {
    let decoded = events(
        OpenAiResponsesStreamState::default(),
        &[
            r#"{"type":"response.output_text.delta","delta":"hello"}"#,
            r#"{"type":"response.output_item.added","item":{"type":"reasoning","id":"reasoning-id","encrypted_content":"encrypted-response"}}"#,
            r#"{"type":"response.reasoning_summary_text.delta","delta":"thinking"}"#,
            r#"{"type":"response.reasoning_summary_text.done"}"#,
            r#"{"type":"response.output_item.added","item":{"type":"function_call","call_id":"call-2","name":"read_file"}}"#,
            r#"{"type":"response.function_call_arguments.delta","delta":"{\"path\":"}"#,
            r#"{"type":"response.function_call_arguments.delta","delta":"\"README.md\"}"}"#,
            r#"{"type":"response.function_call_arguments.done"}"#,
            r#"{"type":"response.completed","response":{"usage":{"input_tokens":120,"output_tokens":42,"input_tokens_details":{"cached_tokens":20}}}}"#,
        ],
    );
    assert_eq!(
        decoded,
        vec![
            text("hello"),
            thinking("thinking"),
            LlmEvent::ThinkingComplete {
                thinking: "thinking".into(),
                signature: "reasoning-id".into(),
                encrypted_content: "encrypted-response".into(),
            },
            start("call-2", "read_file"),
            delta("{\"path\":"),
            delta("\"README.md\"}"),
            complete("call-2", "read_file", r#"{"path": "README.md"}"#),
            LlmEvent::StreamEnd {
                stop_reason: StopReason::ToolUse,
                usage: usage(100, 42, 20, 0),
            },
        ]
    );
}

#[test]
fn chat_streams_are_decoded_and_calls_assembled() {
    let decoded = events(
        ChatCompletionsStreamState::default(),
        &[
            r#"{"choices":[{"delta":{"content":"hello"}}]}"#,
            r#"{"choices":[{"delta":{"tool_calls":[{"index":0,"id":"call-2","function":{"name":"read_file","arguments":"{\"path\":"}}]}}]}"#,
            r#"{"choices":[{"delta":{"tool_calls":[{"index":0,"function":{"arguments":"\"README.md\"}"}}]}}]}"#,
            r#"{"choices":[{"delta":{"tool_calls":[{"index":1,"id":"call-3","function":{"name":"search","arguments":"{\"query\":\"docs\"}"}}]}}]}"#,
            r#"{"choices":[{"delta":{},"finish_reason":"tool_calls"}]}"#,
            r#"{"choices":[],"usage":{"prompt_tokens":120,"completion_tokens":42,"prompt_tokens_details":{"cached_tokens":20}}}"#,
        ],
    );
    assert_eq!(
        decoded,
        vec![
            text("hello"),
            start("call-2", "read_file"),
            delta("{\"path\":"),
            delta("\"README.md\"}"),
            start("call-3", "search"),
            delta("{\"query\":\"docs\"}"),
            complete("call-2", "read_file", r#"{"path": "README.md"}"#),
            complete("call-3", "search", r#"{"query": "docs"}"#),
            LlmEvent::StreamEnd {
                stop_reason: StopReason::ToolUse,
                usage: usage(100, 42, 20, 0),
            },
        ]
    );
}

#[test]
fn the_end_of_a_chat_is_reported_once() {
    let decoded = events(
        ChatCompletionsStreamState::default(),
        &[
            r#"{"choices":[{"delta":{"content":"hello"}}]}"#,
            r#"{"choices":[{"delta":{},"finish_reason":"stop"}],"usage":{"prompt_tokens":10,"completion_tokens":20}}"#,
            "[DONE]",
        ],
    );
    assert_eq!(
        decoded,
        vec![
            text("hello"),
            LlmEvent::StreamEnd {
                stop_reason: StopReason::EndTurn,
                usage: usage(10, 20, 0, 0),
            },
        ]
    );
}

#[test]
fn data_that_is_no_json_is_an_invalid_response() {
    for items in [
        replay(AnthropicStreamState::default(), &["not-json", "{}"]),
        replay(OpenAiResponsesStreamState::default(), &["not-json", "{}"]),
        replay(ChatCompletionsStreamState::default(), &["not-json", "{}"]),
    ] {
        assert_eq!(items.len(), 1);
        assert!(matches!(
            items[0],
            Err(LlmError::InvalidResponse { .. })
        ));
    }
}

#[test]
fn a_stream_ends_with_the_error_that_ends_it() {
    let mut decoder = AnthropicStreamState::default();
    for (signal, expected) in [
        (StreamSignal::Cancelled, LlmError::Cancelled),
        (
            StreamSignal::Failed(LlmError::Network {
                message: "reset".into(),
            }),
            LlmError::Network {
                message: "reset".into(),
            },
        ),
        (
            StreamSignal::Idle,
            LlmError::Network {
                message: "provider stream idle timeout: no SSE events for 300s".into(),
            },
        ),
    ] {
        let step = advance_stream(&mut decoder, signal);
        assert!(step.done);
        assert_eq!(step.items, vec![Err(expected)]);
    }
}

#[test]
fn refusals_are_told_apart_by_their_status() {
    assert!(is_success(200));
    assert!(!is_success(301));
    assert!(matches!(
        map_http_error(401, r#"{"error":{"message":"invalid api key"}}"#, None),
        LlmError::Authentication { .. }
    ));
    assert_eq!(
        map_http_error(429, "slow down", Some("7".into())),
        LlmError::RateLimit {
            message: "provider rate limit exceeded (HTTP 429)".into(),
            retry_after: Some("7".into()),
        }
    );
    assert_eq!(
        map_http_error(
            400,
            "This model's maximum CONTEXT LENGTH is 4096 tokens",
            None
        ),
        LlmError::ContextTooLong {
            message:
                "provider returned HTTP 400: This model's maximum CONTEXT LENGTH is 4096 tokens"
                    .into(),
        }
    );
    assert!(matches!(
        map_http_error(413, "", None),
        LlmError::ContextTooLong { .. }
    ));
    assert_eq!(
        map_http_error(500, "broken", None),
        LlmError::Network {
            message: "provider returned HTTP 500: broken".into(),
        }
    );
    assert!(invalid_url_error("a \"b\"", "reason")
        .message()
        .contains(r#"invalid provider URL "a \"b\"": reason"#));
}

#[test]
fn errors_of_providers_say_what_failed() {
    let message = || "m".to_string();
    for (error, expected) in [
        (
            LlmError::Authentication { message: message() },
            "provider authentication failed: m",
        ),
        (
            LlmError::RateLimit {
                message: message(),
                retry_after: None,
            },
            "provider rate limit exceeded: m",
        ),
        (
            LlmError::Network { message: message() },
            "provider network request failed: m",
        ),
        (
            LlmError::ContextTooLong { message: message() },
            "provider context is too long: m",
        ),
        (
            LlmError::InvalidResponse { message: message() },
            "provider returned an invalid response: m",
        ),
        (LlmError::Cancelled, "provider request was cancelled"),
    ] {
        assert_eq!(error.message(), expected);
    }
}
