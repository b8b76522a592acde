use mycode::conversation::{
    ContentBlock, Conversation, ConversationError, ConversationMessage, MessageRole,
};
use mycode::json::Json;

fn message(role: MessageRole, content: Vec<ContentBlock>) -> ConversationMessage {
    ConversationMessage {
        role,
        content,
        timestamp_unix_seconds: 42,
    }
}

fn json(text: &str) -> Json {
    Json::parse(text).expect("valid JSON")
}

#[test]
fn conversation_round_trips_every_content_block_kind_in_order() {
    let mut conversation = Conversation::new();
    conversation.push(message(
        MessageRole::User,
        vec![ContentBlock::Text {
            text: "Inspect this repository".into(),
        }],
    ));
    conversation.push(message(
        MessageRole::Assistant,
        vec![
            ContentBlock::Thinking {
                thinking: "I will inspect the files".into(),
                signature: "signature".into(),
                encrypted_content: String::new(),
            },
            ContentBlock::ToolUse {
                tool_use_id: "tool-1".into(),
                tool_name: "read_file".into(),
                arguments: json(r#"{ "path": "README.md" }"#),
            },
        ],
    ));
    conversation.push(message(MessageRole::System, Vec::new()));
    conversation.push(message(
        MessageRole::User,
        vec![ContentBlock::ToolResult {
            tool_use_id: "tool-1".into(),
            content: "file contents".into(),
            is_error: false,
        }],
    ));

    let json = conversation
        .to_json()
        .expect("serialization should succeed");
    let restored = Conversation::from_json(&json).expect("deserialization should succeed");

    assert_eq!(restored, conversation);
    assert_eq!(restored.messages().len(), 4);
    assert_eq!(restored.messages()[2].role, MessageRole::System);
}

#[test]
fn conversation_deserialization_tolerates_unknown_fields() {
    let json = r#"{
      "messages": [
        {
          "role": "user",
          "content": [
            {
              "type": "text",
              "text": "hello",
              "future_field": "ignored"
            }
          ],
          "timestamp_unix_seconds": 7,
          "another_future_field": 12
        }
      ],
      "schema_version": "future"
    }"#;

    let conversation = Conversation::from_json(json).expect("unknown fields should be ignored");
    let message = &conversation.messages()[0];

    assert_eq!(message.role, MessageRole::User);
    assert_eq!(
        message.content,
        vec![ContentBlock::Text {
            text: "hello".into()
        }]
    );
    assert_eq!(message.timestamp_unix_seconds, 7);
}

#[test]
fn what_is_no_conversation_is_not_read() {
    for text in [
        "",
        "[",
        "42",
        r#"{"messages": 1}"#,
        r#"{"messages": [{"role": "robot", "content": [], "timestamp_unix_seconds": 1}]}"#,
        r#"{"messages": [{"role": "user", "content": [{"type": "image"}], "timestamp_unix_seconds": 1}]}"#,
        r#"{"messages": [{"role": "user", "content": [], "timestamp_unix_seconds": -1}]}"#,
    ] {
        assert_eq!(
            Conversation::from_json(text),
            Err(ConversationError::Deserialization),
            "{text}"
        );
    }
}

#[test]
fn only_the_first_message_of_a_user_counts_for_the_first_user_text() {
    let mut conversation = Conversation::new();
    assert_eq!(conversation.first_user_text(), None);
    conversation.push(message(
        MessageRole::Assistant,
        vec![ContentBlock::Text { text: "hi".into() }],
    ));
    conversation.push(message(
        MessageRole::User,
        vec![ContentBlock::ToolResult {
            tool_use_id: "t".into(),
            content: "output".into(),
            is_error: true,
        }],
    ));
    conversation.push(message(
        MessageRole::User,
        vec![ContentBlock::Text {
            text: "later".into(),
        }],
    ));
    assert_eq!(conversation.first_user_text(), None);
    assert_eq!(conversation.messages()[2].first_text(), Some("later"));
    assert_eq!(conversation.clone().into_messages().len(), 3);
}
