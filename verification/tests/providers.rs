use mycode::anthropic::AnthropicClient;
use mycode::client::{ProviderRequest, ToolDefinition};
use mycode::config::{ProviderConfig, ProviderProtocol};
use mycode::conversation::{ContentBlock, Conversation, ConversationMessage, MessageRole};
use mycode::events::{LlmError, LlmEvent, StopReason, Usage};
use mycode::json::Json;
use mycode::limits::{built_in_context_window, max_output_tokens};
use mycode::mock::{MockClient, MockReply};
use mycode::openai::OpenAiClient;
use mycode::openai_compat::OpenAiCompatClient;
use mycode::provider::{build_client, metadata_request, reported_window, ProtocolClient};

const FAMILY: Option<&str> = Some("muse");

fn provider(protocol: ProviderProtocol, model: &str, thinking: bool) -> ProviderConfig {
    ProviderConfig {
        name: "provider".into(),
        protocol,
        base_url: "https://provider.example.test/".into(),
        model: model.into(),
        api_key: "test-key".into(),
        thinking,
        context_window: None,
        max_output_tokens: None,
    }
}

fn key() -> Option<String> {
    Some("test-key".to_string())
}

fn json(text: &str) -> Json {
    Json::parse(text).expect("valid JSON")
}

fn request() -> ProviderRequest {
    let mut conversation = Conversation::new();
    conversation.push(ConversationMessage {
        role: MessageRole::User,
        content: vec![ContentBlock::Text {
            text: "inspect this".into(),
        }],
        timestamp_unix_seconds: 1,
    });
    conversation.push(ConversationMessage {
        role: MessageRole::Assistant,
        content: vec![
            ContentBlock::Thinking {
                thinking: "I should read the file".into(),
                signature: "reasoning-id".into(),
                encrypted_content: "encrypted-reasoning".into(),
            },
            ContentBlock::Text {
                text: "I will read it".into(),
            },
            ContentBlock::ToolUse {
                tool_use_id: "call-1".into(),
                tool_name: "read_file".into(),
                arguments: json(r#"{"path": "README.md"}"#),
            },
        ],
        timestamp_unix_seconds: 2,
    });
    conversation.push(ConversationMessage {
        role: MessageRole::User,
        content: vec![ContentBlock::ToolResult {
            tool_use_id: "call-1".into(),
            content: "file contents".into(),
            is_error: false,
        }],
        timestamp_unix_seconds: 3,
    });

    ProviderRequest {
        system_prompt: "be concise".into(),
        conversation,
        tools: vec![ToolDefinition {
            name: "read_file".into(),
            description: "Read a file".into(),
            parameters: json(
                r#"{"type": "object", "properties": {"path": {"type": "string"}}, "required": ["path"]}"#,
            ),
        }],
    }
}

fn parsed(body: &Json) -> serde_json::Value {
    serde_json::from_str(&body.to_text()).expect("valid JSON")
}

fn value(text: &str) -> serde_json::Value {
    serde_json::from_str(text).expect("valid JSON")
}

#[test]
fn anthropic_requests_are_built() {
    let client = AnthropicClient::new(
        &provider(ProviderProtocol::Anthropic, "muse-sonnet-4-5", true),
        key(),
        FAMILY,
    )
    .expect("client should construct");
    assert_eq!(
        client.endpoint(),
        "https://provider.example.test/v1/messages"
    );
    assert_eq!(
        client.headers(),
        vec![
            ("x-api-key".to_string(), "test-key".to_string()),
            ("anthropic-version".to_string(), "2023-06-01".to_string()),
        ]
    );
    let body = parsed(&client.request_body(&request()));
    assert_eq!(body["model"], "muse-sonnet-4-5");
    assert_eq!(body["max_tokens"], 64_000);
    assert_eq!(body["stream"], true);
    assert_eq!(body["system"][0]["text"], "be concise");
    assert_eq!(body["system"][0]["cache_control"]["type"], "ephemeral");
    assert_eq!(
        body["messages"][1]["content"][0],
        value(
            r#"{"type": "thinking", "thinking": "I should read the file", "signature": "reasoning-id"}"#
        )
    );
    assert_eq!(
        body["messages"][1]["content"][2],
        value(
            r#"{"type": "tool_use", "id": "call-1", "name": "read_file", "input": {"path": "README.md"}}"#
        )
    );
    assert_eq!(
        body["messages"][2]["content"][0],
        value(
            r#"{"type": "tool_result", "tool_use_id": "call-1", "content": [{"type": "text", "text": "file contents"}], "is_error": false}"#
        )
    );
    assert_eq!(
        body["tools"][0],
        value(
            r#"{"name": "read_file", "description": "Read a file", "input_schema": {"type": "object", "properties": {"path": {"type": "string"}}, "required": ["path"]}, "cache_control": {"type": "ephemeral"}}"#
        )
    );
    assert_eq!(body["thinking"]["type"], "enabled");
    assert_eq!(body["thinking"]["budget_tokens"], 63_999);
}

#[test]
fn adaptive_models_decide_how_much_they_think() {
    let thinking = |model: &str| {
        let client = AnthropicClient::new(
            &provider(ProviderProtocol::Anthropic, model, true),
            key(),
            FAMILY,
        )
        .expect("client should construct");
        parsed(&client.request_body(&request()))["thinking"].clone()
    };
    for model in ["muse-sonnet-4-6", "muse-opus-4-9-latest"] {
        let told = thinking(model);
        assert_eq!(told["type"], "adaptive");
        assert!(told.get("budget_tokens").is_none());
    }
    assert_eq!(thinking("muse-haiku-4-6")["type"], "enabled");
    assert_eq!(thinking("muse-sonnet-4-")["type"], "enabled");
}

#[test]
fn responses_requests_are_built() {
    let client = OpenAiClient::new(&provider(ProviderProtocol::OpenAi, "gpt-4.1", true), key())
        .expect("client should construct");
    assert_eq!(client.endpoint(), "https://provider.example.test/responses");
    assert_eq!(
        client.headers(),
        vec![("authorization".to_string(), "Bearer test-key".to_string())]
    );
    let body = parsed(&client.request_body(&request()));
    assert_eq!(body["model"], "gpt-4.1");
    assert_eq!(body["max_output_tokens"], 64_000);
    assert_eq!(body["instructions"], "be concise");
    assert_eq!(body["stream"], true);
    assert_eq!(
        body["input"][1],
        value(
            r#"{"type": "reasoning", "id": "reasoning-id", "encrypted_content": "encrypted-reasoning", "summary": [{"type": "summary_text", "text": "I should read the file"}]}"#
        )
    );
    assert_eq!(
        body["input"][2],
        value(r#"{"type": "message", "role": "assistant", "content": "I will read it"}"#)
    );
    assert_eq!(
        body["input"][3],
        value(
            r#"{"type": "function_call", "call_id": "call-1", "name": "read_file", "arguments": "{\"path\":\"README.md\"}"}"#
        )
    );
    assert_eq!(
        body["input"][4],
        value(
            r#"{"type": "function_call_output", "call_id": "call-1", "output": "file contents"}"#
        )
    );
    assert_eq!(body["tools"][0]["type"], "function");
    assert_eq!(body["tools"][0]["strict"], false);
    assert_eq!(body["reasoning"]["effort"], "high");
    assert_eq!(body["reasoning"]["summary"], "detailed");
    assert_eq!(body["include"], value(r#"["reasoning.encrypted_content"]"#));
}

#[test]
fn chat_requests_are_built() {
    let config = ProviderConfig {
        max_output_tokens: Some(4_096),
        ..provider(ProviderProtocol::OpenAiCompat, "compatible-model", false)
    };
    let client = OpenAiCompatClient::new(&config, key()).expect("client should construct");
    assert_eq!(
        client.endpoint(),
        "https://provider.example.test/chat/completions"
    );
    let body = parsed(&client.request_body(&request()));
    assert_eq!(body["model"], "compatible-model");
    assert_eq!(body["max_tokens"], 4_096);
    assert_eq!(body["stream"], true);
    assert_eq!(body["stream_options"]["include_usage"], true);
    assert_eq!(
        body["messages"][0],
        value(r#"{"role": "system", "content": "be concise"}"#)
    );
    assert_eq!(
        body["messages"][2],
        value(
            r#"{"role": "assistant", "content": "I will read it", "tool_calls": [{"id": "call-1", "type": "function", "function": {"name": "read_file", "arguments": "{\"path\":\"README.md\"}"}}]}"#
        )
    );
    assert_eq!(
        body["messages"][3],
        value(r#"{"role": "tool", "tool_call_id": "call-1", "content": "file contents"}"#)
    );
    assert_eq!(body["tools"][0]["type"], "function");
    assert_eq!(body["tools"][0]["function"]["strict"], false);
}

#[test]
fn what_anthropic_tells_of_a_model_is_used() {
    let config = provider(ProviderProtocol::Anthropic, "muse-sonnet-4-6", false);
    let asked = metadata_request(&config, "test-key").expect("the provider is asked");
    assert_eq!(
        asked.endpoint,
        "https://provider.example.test/v1/models/muse-sonnet-4-6"
    );
    assert_eq!(asked.headers[0].1, "test-key");
    let body = json(r#"{"id":"muse-sonnet-4-6","max_input_tokens":555000}"#);
    let fetched = reported_window(200, Some(&body));
    assert_eq!(fetched, Some(555_000));
    let built = build_client(&config, key(), fetched, FAMILY).expect("provider should build");
    assert_eq!(built.context_window, 555_000);
    assert_eq!(built.max_output_tokens, 8_192);
    assert!(matches!(built.client, ProtocolClient::Anthropic(_)));

    assert_eq!(reported_window(500, Some(&body)), None);
    assert_eq!(
        reported_window(200, Some(&json(r#"{"max_input_tokens":0}"#))),
        None
    );
    assert_eq!(reported_window(200, None), None);
    let unknown = build_client(&config, key(), None, FAMILY).expect("provider should build");
    assert_eq!(unknown.context_window, 200_000);
}

#[test]
fn other_providers_and_configured_windows_are_not_asked_for() {
    let configured = ProviderConfig {
        context_window: Some(4_096),
        ..provider(ProviderProtocol::Anthropic, "muse-sonnet-4-6", false)
    };
    assert_eq!(metadata_request(&configured, "test-key"), None);
    assert_eq!(
        build_client(&configured, key(), Some(9), FAMILY)
            .expect("provider should build")
            .context_window,
        4_096
    );
    let openai = provider(ProviderProtocol::OpenAi, "gpt-4.1", false);
    assert_eq!(metadata_request(&openai, "test-key"), None);
    let built = build_client(&openai, key(), None, FAMILY).expect("provider should build");
    assert_eq!(built.context_window, 1_000_000);
    assert_eq!(built.max_output_tokens, 8_192);
}

#[test]
fn limits_are_configured_or_known() {
    let explicit = ProviderConfig {
        context_window: Some(123_456),
        max_output_tokens: Some(2_048),
        ..provider(ProviderProtocol::OpenAiCompat, "unknown-model", false)
    };
    let built = build_client(&explicit, key(), None, FAMILY).expect("provider should build");
    assert_eq!(built.context_window, 123_456);
    assert_eq!(built.max_output_tokens, 2_048);
    let thinking = provider(ProviderProtocol::OpenAiCompat, "unknown-model", true);
    assert_eq!(max_output_tokens(&thinking), 64_000);
    for (model, window) in [
        ("MUSE-3", 200_000),
        ("muse-3-1M", 1_000_000),
        ("gpt-4o-mini", 128_000),
        ("GPT-4-Turbo", 128_000),
        ("o3-mini", 200_000),
        ("gpt-3.5-turbo", 16_385),
        ("unknown-model", 128_000),
    ] {
        assert_eq!(built_in_context_window(model, FAMILY), window, "{model}");
    }
}

#[test]
fn without_a_key_there_is_no_client() {
    for protocol in [
        ProviderProtocol::Anthropic,
        ProviderProtocol::OpenAi,
        ProviderProtocol::OpenAiCompat,
    ] {
        let error = build_client(&provider(protocol, "model", false), None, None, FAMILY)
            .expect_err("a missing key should be refused");
        assert_eq!(
            error,
            LlmError::Authentication {
                message: "Provider API key not found; set provider api_key or its protocol environment variable".into()
            }
        );
    }
    let anthropic = provider(ProviderProtocol::Anthropic, "model", false);
    assert!(matches!(
        AnthropicClient::new(&anthropic, None, FAMILY),
        Err(LlmError::Authentication { .. })
    ));
    assert!(matches!(
        OpenAiClient::new(&anthropic, None),
        Err(LlmError::Authentication { .. })
    ));
    assert!(matches!(
        OpenAiCompatClient::new(&anthropic, None),
        Err(LlmError::Authentication { .. })
    ));
}

#[test]
fn a_mock_replays_events_and_remembers_requests() {
    let end = || LlmEvent::StreamEnd {
        stop_reason: StopReason::EndTurn,
        usage: Usage {
            input_tokens: 10,
            output_tokens: 20,
            cache_read_tokens: 30,
            cache_creation_tokens: 40,
        },
    };
    let mut client = MockClient::new(vec![
        LlmEvent::TextDelta {
            text: "hello".into(),
        },
        end(),
    ]);
    client.ask(request());
    assert_eq!(
        client.reply(0, false),
        MockReply::Send(Ok(LlmEvent::TextDelta {
            text: "hello".into()
        }))
    );
    assert_eq!(client.reply(1, false), MockReply::Send(Ok(end())));
    assert_eq!(client.reply(2, false), MockReply::End);
    assert_eq!(client.requests().len(), 1);
    assert_eq!(client.requests()[0].system_prompt, "be concise");
    assert_eq!(
        client.requests()[0].conversation.first_user_text(),
        Some("inspect this")
    );
}

#[test]
fn a_mock_replays_errors_and_cancellation() {
    let error = LlmError::Authentication {
        message: "invalid key".into(),
    };
    let client = MockClient::with_results(vec![
        Ok(LlmEvent::TextDelta {
            text: "partial".into(),
        }),
        Err(error.clone()),
    ]);
    assert_eq!(client.reply(1, false), MockReply::Send(Err(error)));
    assert_eq!(client.reply(1, true), MockReply::Cancelled);
    assert_eq!(client.reply(2, true), MockReply::End);
    assert_eq!(
        MockClient::new(Vec::new()).reply(0, true),
        MockReply::Cancelled
    );
}
