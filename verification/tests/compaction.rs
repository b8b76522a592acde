use mycode::client::ToolDefinition;
use mycode::compaction::{
    choose_keep_start, estimate_tokens, estimated_tokens, format_summary, keep_start_of,
    CompactionAction, CompactionConfig, CompactionError, CompactionTracker, CompactionTrigger,
    ManualCompaction, RecoveryState, SummaryCollector, SummaryStep,
};
use mycode::conversation::{ContentBlock, ConversationMessage, MessageRole};
use mycode::events::{LlmError, LlmEvent, StopReason, Usage};
use mycode::json::Json;
use mycode::session::{boundary_line, message_line, SessionError, SessionId, SessionStore};

fn message(role: MessageRole, content: Vec<ContentBlock>) -> ConversationMessage {
    ConversationMessage {
        role,
        content,
        timestamp_unix_seconds: 42,
    }
}

fn text(role: MessageRole, text: &str) -> ConversationMessage {
    message(role, vec![ContentBlock::Text { text: text.into() }])
}

fn small_config() -> CompactionConfig {
    CompactionConfig {
        min_keep_messages: 1,
        keep_recent_tokens: 1,
        ..CompactionConfig::default()
    }
}

#[test]
fn recovery_state_keeps_only_the_most_recent_file_reads() {
    let mut recovery = RecoveryState::default();
    for index in 0..12 {
        recovery.record_file_read(&format!("file-{index}"), "content");
    }
    recovery.record_file_read("file-2", "updated");

    let attachment = recovery.attachment(&[], 1_000);
    assert!(attachment.contains("--- file-11 ---"));
    assert!(attachment.contains("--- file-2 ---\nupdated"));
    assert!(!attachment.contains("--- file-0 ---"));
    assert!(!attachment.contains("--- file-1 ---"));
}

#[test]
fn usage_anchor_and_failure_tracker_drive_thresholds() {
    let mut tracker = CompactionTracker::default();
    let messages = vec![
        text(MessageRole::User, "hello"),
        text(MessageRole::Assistant, "hi"),
    ];
    tracker.record_usage(
        Usage {
            input_tokens: 90,
            output_tokens: 5,
            cache_read_tokens: 2,
            cache_creation_tokens: 3,
        },
        messages.len(),
    );
    let config = CompactionConfig {
        context_window_tokens: 110,
        max_output_tokens: 5,
        auto_safety_margin_tokens: 11,
        manual_safety_margin_tokens: 4,
        max_consecutive_auto_failures: 2,
        ..CompactionConfig::default()
    };
    assert_eq!(tracker.used_tokens(&messages), 100);
    assert_eq!(
        tracker.should_compact(&messages, &config),
        CompactionTrigger::Soft
    );

    assert!(tracker.record_auto_failure(&config));
    assert!(!tracker.record_auto_failure(&config));
    assert_eq!(
        tracker.should_compact(&messages, &config),
        CompactionTrigger::NotNeeded
    );

    tracker.record_auto_success();
    assert_eq!(
        tracker.should_compact(&messages, &config),
        CompactionTrigger::Soft
    );
}

#[test]
fn zero_output_limit_still_reserves_summary_output() {
    let tracker = CompactionTracker::default();
    let messages = vec![text(MessageRole::User, &"x".repeat(350))];
    let config = CompactionConfig {
        context_window_tokens: 110,
        max_output_tokens: 0,
        summary_output_reserve_tokens: 5,
        auto_safety_margin_tokens: 11,
        manual_safety_margin_tokens: 0,
        max_consecutive_auto_failures: 2,
        ..CompactionConfig::default()
    };

    assert_eq!(
        tracker.should_compact(&messages, &config),
        CompactionTrigger::Soft
    );
}

#[test]
fn token_estimation_uses_utf8_bytes_for_multibyte_text() {
    let cjk = text(MessageRole::User, "你好");
    let ascii = text(MessageRole::User, "abcdef");

    assert_eq!(
        estimate_tokens(std::slice::from_ref(&cjk)),
        estimate_tokens(std::slice::from_ref(&ascii))
    );
}

#[test]
fn tokens_are_two_for_seven_bytes_rounded_up() {
    for length in 0..200usize {
        let expected = 4 + (length as f64 / 3.5).ceil() as usize;
        let messages = [text(MessageRole::User, &"x".repeat(length))];
        assert_eq!(estimate_tokens(&messages), expected, "{length} bytes");
    }
    let messages = [message(
        MessageRole::Assistant,
        vec![
            ContentBlock::Thinking {
                thinking: "1234567".into(),
                signature: "ignored".into(),
                encrypted_content: "ignored".into(),
            },
            ContentBlock::ToolUse {
                tool_use_id: "ignored".into(),
                tool_name: "ignored".into(),
                arguments: Json::parse(r#"{"a": 1}"#).expect("valid JSON"),
            },
            ContentBlock::ToolResult {
                tool_use_id: "ignored".into(),
                content: "12345678".into(),
                is_error: false,
            },
        ],
    )];
    assert_eq!(estimated_tokens(&messages), Some(4 + 2 + (50 + 2) + (10 + 3)));
}

#[test]
fn what_is_told_after_compacting_is_cut_to_the_budget() {
    let mut recovery = RecoveryState::default();
    recovery.record_file_read("a.txt", &"z".repeat(100));
    let tools = [ToolDefinition {
        name: "ReadFile".into(),
        description: "Reads a file".into(),
        parameters: Json::Null,
    }];
    assert_eq!(
        recovery.attachment(&tools, 17),
        "Recovery snapshot:\nRecently read files:\n--- a.tAvailable tools:\n- ReadFile: Re"
    );
    assert_eq!(RecoveryState::default().attachment(&[], 1_000), "");
    assert_eq!(
        RecoveryState::default().attachment(&tools, 1_000),
        "Recovery snapshot:\nAvailable tools:\n- ReadFile: Reads a file\n"
    );
}

#[test]
fn summaries_are_taken_from_between_their_marks() {
    assert_eq!(
        format_summary("noise <summary> kept </summary> noise"),
        "kept"
    );
    assert_eq!(format_summary("<summary>open"), "open");
    assert_eq!(
        format_summary(" before <analysis>thoughts</analysis> after "),
        "before  after"
    );
    assert_eq!(format_summary("<analysis>open"), "<analysis>open");
    assert_eq!(format_summary("  plain \n"), "plain");
}

#[test]
fn a_summary_is_the_text_before_the_end_of_the_stream() {
    let mut collector = SummaryCollector::new();
    let delta = |text: &str| Ok(LlmEvent::TextDelta { text: text.into() });
    assert_eq!(collector.collect(delta("<summary>a")), SummaryStep::More);
    assert_eq!(
        collector.collect(Ok(LlmEvent::ThinkingDelta {
            text: "ignored".into()
        })),
        SummaryStep::More
    );
    assert_eq!(collector.collect(delta("b</summary>")), SummaryStep::More);
    assert_eq!(
        collector.collect(Ok(LlmEvent::StreamEnd {
            stop_reason: StopReason::EndTurn,
            usage: Usage::default(),
        })),
        SummaryStep::Complete
    );
    assert_eq!(
        collector.collect(Err(LlmError::Cancelled)),
        SummaryStep::Failed(LlmError::Cancelled)
    );
    assert_eq!(collector.finish(), "ab");
}

#[test]
fn recent_messages_are_kept_with_the_uses_of_their_results() {
    let messages = vec![
        text(MessageRole::User, "old request"),
        message(
            MessageRole::Assistant,
            vec![ContentBlock::ToolUse {
                tool_use_id: "tool-1".into(),
                tool_name: "ReadFile".into(),
                arguments: Json::parse(r#"{"file_path": "README.md"}"#).expect("valid JSON"),
            }],
        ),
        message(
            MessageRole::User,
            vec![ContentBlock::ToolResult {
                tool_use_id: "tool-1".into(),
                content: "file contents".into(),
                is_error: false,
            }],
        ),
    ];
    assert_eq!(choose_keep_start(&messages, &small_config()), 1);
    assert_eq!(
        choose_keep_start(&messages, &CompactionConfig::default()),
        0
    );
    assert_eq!(choose_keep_start(&[], &small_config()), 0);
    let nothing = CompactionConfig {
        max_keep_tokens: 3,
        ..small_config()
    };
    assert_eq!(keep_start_of(&messages, &nothing), None);
}

#[test]
fn manual_compaction_stores_a_boundary_that_the_session_resumes_from() {
    let messages = || {
        vec![
            text(MessageRole::User, "old request"),
            text(MessageRole::User, "old answer"),
            text(MessageRole::User, "recent request"),
        ]
    };
    let (mut manual, action) =
        ManualCompaction::start(Ok(Some(messages())), small_config(), 7);
    match action {
        CompactionAction::Summarize(request) => {
            let asked = request.conversation.first_user_text().expect("a prompt");
            assert!(asked.contains("[user]: old request\n[user]: old answer\n"));
            assert!(!asked.contains("recent request"));
            assert!(request.system_prompt.contains("summaries"));
            assert!(request.tools.is_empty());
        }
        other => panic!("expected a request for a summary, not {other:?}"),
    }
    let boundary = match manual.summarized(Ok("actionable summary".into())) {
        CompactionAction::StoreBoundary(boundary) => boundary,
        other => panic!("expected a boundary, not {other:?}"),
    };
    let mut contents: String = messages().iter().map(message_line).collect();
    contents.push_str(&boundary_line(&boundary));
    let outcome = match manual.stored(Ok(()), 8) {
        CompactionAction::Finish(Ok(outcome)) => outcome,
        other => panic!("expected an outcome, not {other:?}"),
    };
    assert_eq!(outcome.summary, "actionable summary");
    assert_eq!(outcome.compacted_conversation.messages().len(), 2);
    assert_eq!(
        outcome.compacted_conversation.first_user_text(),
        Some("This session continues from an earlier conversation that was compacted. Earlier summary:\n\nactionable summary\n\nRecent messages are preserved below.")
    );
    assert_eq!(
        outcome.estimated_tokens_before,
        estimate_tokens(&messages())
    );

    let resumed = SessionStore::new("/work".to_string())
        .load(
            &SessionId::new("session".to_string()).expect("valid session ID"),
            Some(contents),
            9,
        )
        .expect("session should load")
        .expect("session should exist");
    assert_eq!(resumed.len(), 2);
    assert_eq!(resumed[0].first_text(), Some("actionable summary"));
    assert_eq!(resumed[1].first_text(), Some("recent request"));
}

#[test]
fn manual_compaction_fails_for_each_of_its_reasons() {
    let finish = |action| match action {
        CompactionAction::Finish(Err(error)) => error,
        other => panic!("expected a failure, not {other:?}"),
    };
    let start = || {
        ManualCompaction::start(
            Ok(Some(vec![
                text(MessageRole::User, "a"),
                text(MessageRole::User, "b"),
            ])),
            small_config(),
            7,
        )
        .0
    };
    let (_, missing) = ManualCompaction::start(Ok(None), small_config(), 7);
    assert_eq!(finish(missing), CompactionError::SessionMissing);
    let (_, unread) = ManualCompaction::start(Err(SessionError::List), small_config(), 7);
    assert_eq!(finish(unread), CompactionError::Session(SessionError::List));
    assert_eq!(
        finish(start().summarized(Err(LlmError::Cancelled))),
        CompactionError::Provider(LlmError::Cancelled)
    );
    assert_eq!(
        finish(start().summarized(Ok(" \n".into()))),
        CompactionError::EmptySummary
    );
    assert_eq!(
        finish(start().stored(Err(SessionError::List), 8)).message(),
        "failed to list Sessions"
    );
    assert_eq!(
        CompactionError::SessionMissing.message(),
        "Session was not found"
    );
    assert_eq!(
        CompactionError::EmptySummary.message(),
        "compaction summary was empty"
    );
    assert_eq!(
        CompactionError::Provider(LlmError::Cancelled).message(),
        "provider request was cancelled"
    );
    let (_, unchanged) = ManualCompaction::start(
        Ok(Some(vec![text(MessageRole::User, "a")])),
        CompactionConfig::default(),
        7,
    );
    match unchanged {
        CompactionAction::Finish(Ok(outcome)) => assert_eq!(outcome.summary, ""),
        other => panic!("expected nothing to compact, not {other:?}"),
    }
}
