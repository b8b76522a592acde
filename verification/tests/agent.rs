use mycode::agent::{AgentConfig, ProviderTurn, RunAction, RunSignal, RunState, TurnStep};
use mycode::agent_events::AgentEvent;
use mycode::compaction::CompactionConfig;
use mycode::conversation::{ContentBlock, ConversationMessage, MessageRole};
use mycode::events::{LlmError, LlmEvent, StopReason, Usage};
use mycode::json::Json;
use mycode::session::{SessionError, SessionId};
use mycode::tool_result::{ToolResultBudget, ToolResultBudgetConfig, ToolResultBudgetError};
use mycode::tools::{
    PendingToolCall, PermissionDecision, PermissionEffect, PlannedToolCall, ToolOutput,
};

fn budget(config: ToolResultBudgetConfig) -> ToolResultBudget {
    let session = SessionId::new("session".to_string()).expect("valid session ID");
    ToolResultBudget::resume("/work", &session, config, None).expect("budget should resume")
}

fn begin(config: AgentConfig, loaded: Option<Vec<ConversationMessage>>) -> (RunState, RunAction) {
    let limits = config.tool_result_budget;
    RunState::begin(
        config,
        Vec::new(),
        Ok(loaded),
        Ok(budget(limits)),
        "prompt".into(),
        1,
    )
    .expect("run should begin")
}

fn user(text: &str) -> ConversationMessage {
    ConversationMessage {
        role: MessageRole::User,
        content: vec![ContentBlock::Text { text: text.into() }],
        timestamp_unix_seconds: 42,
    }
}

fn stored() -> RunSignal {
    RunSignal::Stored(Ok(()))
}

fn text_turn(text: &str) -> ProviderTurn {
    ProviderTurn {
        text: text.into(),
        tool_calls: Vec::new(),
        usage: None,
    }
}

fn call(id: &str, name: &str) -> PendingToolCall {
    PendingToolCall {
        tool_id: id.into(),
        tool_name: name.into(),
        arguments: Json::parse(r#"{"file_path": "notes.txt"}"#).expect("valid JSON"),
    }
}

fn call_turn(calls: Vec<PendingToolCall>) -> ProviderTurn {
    ProviderTurn {
        text: String::new(),
        tool_calls: calls,
        usage: None,
    }
}

fn plan(tool_call: PendingToolCall) -> PlannedToolCall {
    PlannedToolCall {
        tool_call,
        denial_reason: None,
        authorization: Some(PermissionDecision {
            effect: PermissionEffect::Allow,
            reason: "allowed".into(),
        }),
    }
}

fn output(text: &str) -> Option<ToolOutput> {
    Some(ToolOutput {
        output: text.into(),
        is_error: false,
    })
}

/// A run that has asked the provider for the first time.
fn asking(config: AgentConfig) -> RunState {
    let (run, _) = begin(config, None);
    let (run, action) = run.advance(stored(), 2, false);
    assert!(matches!(action, RunAction::Ask(_)), "{action:?}");
    run
}

/// A run whose calls have been run, with these results.
fn executed(
    config: AgentConfig,
    calls: Vec<PendingToolCall>,
    outputs: Vec<Option<ToolOutput>>,
) -> (RunState, RunAction) {
    let run = asking(config);
    let plans = calls.iter().map(|call| plan(call.clone())).collect();
    let (run, _) = run.advance(RunSignal::Answered(Ok(call_turn(calls))), 3, false);
    let (run, action) = run.advance(stored(), 3, false);
    assert!(matches!(action, RunAction::Authorize(_)), "{action:?}");
    let (run, action) = run.advance(RunSignal::Authorized(Some(plans)), 3, false);
    assert!(matches!(action, RunAction::Execute { .. }), "{action:?}");
    run.advance(RunSignal::Executed(outputs), 3, false)
}

#[test]
fn a_text_answer_completes_the_run() {
    let (run, action) = begin(AgentConfig::default(), None);
    let prompt = ConversationMessage {
        role: MessageRole::User,
        content: vec![ContentBlock::Text {
            text: "prompt".into(),
        }],
        timestamp_unix_seconds: 1,
    };
    assert_eq!(action, RunAction::Store(prompt.clone()));
    let (run, action) = run.advance(stored(), 2, false);
    match action {
        RunAction::Ask(request) => {
            assert_eq!(
                request.system_prompt,
                "You are MyCode, a terminal coding agent."
            );
            assert_eq!(request.conversation.messages(), &[prompt]);
            assert!(request.tools.is_empty());
        }
        other => panic!("expected a request, not {other:?}"),
    }
    let (run, action) = run.advance(RunSignal::Answered(Ok(text_turn("hello"))), 3, false);
    assert_eq!(
        action,
        RunAction::Store(ConversationMessage {
            role: MessageRole::Assistant,
            content: vec![ContentBlock::Text {
                text: "hello".into()
            }],
            timestamp_unix_seconds: 3,
        })
    );
    let (run, action) = run.advance(stored(), 4, false);
    assert_eq!(
        action,
        RunAction::Stop(Some(AgentEvent::RunCompleted {
            final_text: "hello".into()
        }))
    );
    let (_, action) = run.advance(stored(), 5, false);
    assert_eq!(action, RunAction::Abort);
}

#[test]
fn results_are_reported_and_stored_in_the_order_of_the_calls() {
    let (run, action) = executed(
        AgentConfig::default(),
        vec![call("call-1", "SlowOne"), call("call-2", "Fast")],
        vec![output("one"), output("two")],
    );
    let event = |id: &str, name: &str, content: &str| AgentEvent::ToolResult {
        tool_id: id.into(),
        tool_name: name.into(),
        content: content.into(),
        is_error: false,
    };
    assert_eq!(
        action,
        RunAction::Report(vec![
            event("call-1", "SlowOne", "one"),
            event("call-2", "Fast", "two")
        ])
    );
    let (run, action) = run.advance(RunSignal::Delivered(true), 9, false);
    let block = |id: &str, content: &str| ContentBlock::ToolResult {
        tool_use_id: id.into(),
        content: content.into(),
        is_error: false,
    };
    assert_eq!(
        action,
        RunAction::Store(ConversationMessage {
            role: MessageRole::User,
            content: vec![block("call-1", "one"), block("call-2", "two")],
            timestamp_unix_seconds: 9,
        })
    );
    let (_, action) = run.advance(stored(), 9, false);
    match action {
        RunAction::Ask(request) => assert_eq!(request.conversation.messages().len(), 3),
        other => panic!("expected a request, not {other:?}"),
    }
}

#[test]
fn turns_are_limited() {
    let config = AgentConfig {
        max_iterations: 1,
        ..AgentConfig::default()
    };
    let (run, _) = executed(config, vec![call("call-1", "Tool")], vec![output("done")]);
    let (run, _) = run.advance(RunSignal::Delivered(true), 4, false);
    let (_, action) = run.advance(stored(), 4, false);
    assert_eq!(
        action,
        RunAction::Stop(Some(AgentEvent::MaxIterationsReached { limit: 1 }))
    );

    let none = AgentConfig {
        max_iterations: 0,
        ..AgentConfig::default()
    };
    let (run, _) = begin(none, None);
    let (_, action) = run.advance(stored(), 2, false);
    assert_eq!(
        action,
        RunAction::Stop(Some(AgentEvent::MaxIterationsReached { limit: 0 }))
    );
}

#[test]
fn cancelled_runs_end_as_cancelled() {
    let cancelled = RunAction::Stop(Some(AgentEvent::RunCancelled));
    let (_, action) = asking(AgentConfig::default()).advance(
        RunSignal::Answered(Err(LlmError::Cancelled)),
        3,
        true,
    );
    assert_eq!(action, cancelled);

    let calls = || vec![call("call-1", "Tool")];
    let (run, _) = asking(AgentConfig::default()).advance(
        RunSignal::Answered(Ok(call_turn(calls()))),
        3,
        false,
    );
    let (run, _) = run.advance(stored(), 3, false);
    let (_, action) = run.advance(RunSignal::Authorized(None), 3, true);
    assert_eq!(action, cancelled);

    let (run, action) = executed(AgentConfig::default(), calls(), vec![None]);
    assert_eq!(action, RunAction::Report(Vec::new()));
    let (_, action) = run.advance(RunSignal::Delivered(true), 4, true);
    assert_eq!(action, cancelled);

    for outcome in [Ok(()), Err(SessionError::List)] {
        let (run, _) = executed(AgentConfig::default(), calls(), vec![output("done")]);
        let (run, action) = run.advance(RunSignal::Delivered(true), 4, true);
        assert!(matches!(action, RunAction::Store(_)), "{action:?}");
        let (_, action) = run.advance(RunSignal::Stored(outcome), 4, true);
        assert_eq!(action, cancelled);
    }
}

#[test]
fn failures_end_a_run_with_what_failed() {
    let error = |message: &str| {
        RunAction::Stop(Some(AgentEvent::RunError {
            message: message.into(),
        }))
    };
    let (run, _) = begin(AgentConfig::default(), None);
    let (_, action) = run.advance(RunSignal::Stored(Err(SessionError::List)), 2, false);
    assert_eq!(action, error("failed to list Sessions"));

    let (_, action) = asking(AgentConfig::default()).advance(
        RunSignal::Answered(Err(LlmError::Network {
            message: "reset".into(),
        })),
        3,
        false,
    );
    assert_eq!(action, error("provider network request failed: reset"));

    let (run, _) = asking(AgentConfig::default()).advance(
        RunSignal::Answered(Ok(text_turn("hello"))),
        3,
        false,
    );
    let (_, action) = run.advance(RunSignal::Stored(Err(SessionError::List)), 3, false);
    assert_eq!(action, error("failed to list Sessions"));

    let (_, action) = asking(AgentConfig::default()).advance(RunSignal::Unheard, 3, false);
    assert_eq!(action, RunAction::Stop(None));
}

#[test]
fn a_run_does_not_begin_without_its_session_or_its_records() {
    let limits = ToolResultBudgetConfig::default();
    let unread = RunState::begin(
        AgentConfig::default(),
        Vec::new(),
        Err(SessionError::List),
        Ok(budget(limits)),
        "prompt".into(),
        1,
    );
    assert_eq!(
        unread.err(),
        Some(AgentEvent::RunError {
            message: "failed to list Sessions".into()
        })
    );
    let unrecorded = RunState::begin(
        AgentConfig::default(),
        Vec::new(),
        Ok(None),
        Err(ToolResultBudgetError::ReadRecords),
        "prompt".into(),
        1,
    );
    assert_eq!(
        unrecorded.err(),
        Some(AgentEvent::RunError {
            message: "failed to read Tool Result replacement records".into()
        })
    );
}

fn full_config(manual_margin: usize, auto_margin: usize) -> AgentConfig {
    AgentConfig {
        compaction: CompactionConfig {
            context_window_tokens: 100,
            max_output_tokens: 5,
            auto_safety_margin_tokens: auto_margin,
            manual_safety_margin_tokens: manual_margin,
            min_keep_messages: 1,
            keep_recent_tokens: 1,
            recovery_token_budget: 1,
            max_consecutive_auto_failures: 2,
            ..CompactionConfig::default()
        },
        ..AgentConfig::default()
    }
}

#[test]
fn a_full_conversation_is_compacted_before_the_provider_is_asked() {
    let old = "x".repeat(1_000);
    let (run, _) = begin(full_config(0, 0), Some(vec![user(&old)]));
    let (run, action) = run.advance(stored(), 2, false);
    match action {
        RunAction::Summarize(request) => assert!(request
            .conversation
            .first_user_text()
            .is_some_and(|text| text.contains(&old))),
        other => panic!("expected a request for a summary, not {other:?}"),
    }
    let (run, action) = run.advance(
        RunSignal::Summarized(Ok("old work summarized".into())),
        3,
        false,
    );
    match action {
        RunAction::StoreBoundary(boundary) => {
            assert_eq!(boundary.summary, "old work summarized");
            assert_eq!(boundary.keep.len(), 1);
        }
        other => panic!("expected a boundary, not {other:?}"),
    }
    let (run, action) = run.advance(stored(), 4, false);
    match action {
        RunAction::Report(events) => {
            assert_eq!(events.len(), 1);
            assert!(matches!(
                &events[0],
                AgentEvent::Compacted { message }
                    if message == "Compacted: 296 → 52 estimated tokens"
            ), "{events:?}");
        }
        other => panic!("expected a report, not {other:?}"),
    }
    let (_, action) = run.advance(RunSignal::Delivered(true), 5, false);
    match action {
        RunAction::Ask(request) => assert!(request
            .conversation
            .first_user_text()
            .is_some_and(|text| text.contains("old work summarized"))),
        other => panic!("expected a request, not {other:?}"),
    }
}

#[test]
fn urgent_compaction_that_fails_ends_the_run() {
    let (run, _) = begin(full_config(0, 0), Some(vec![user(&"x".repeat(1_000))]));
    let (run, _) = run.advance(stored(), 2, false);
    let (_, action) = run.advance(RunSignal::Summarized(Ok(String::new())), 3, false);
    assert_eq!(
        action,
        RunAction::Stop(Some(AgentEvent::RunError {
            message: "compaction summary was empty".into()
        }))
    );
}

#[test]
fn early_compaction_that_fails_is_tried_only_so_often() {
    let (run, _) = begin(full_config(0, 20), Some(vec![user(&"x".repeat(280))]));
    let (run, action) = run.advance(stored(), 2, false);
    assert!(matches!(action, RunAction::Summarize(_)), "{action:?}");
    let (mut run, action) = run.advance(RunSignal::Summarized(Ok(String::new())), 3, false);
    assert!(matches!(action, RunAction::Ask(_)), "{action:?}");
    let mut summaries = 1;
    for turn in 0..3 {
        let calls = vec![call(&format!("call-{turn}"), "Tool")];
        let answer = ProviderTurn {
            usage: Some(Usage {
                input_tokens: 70,
                ..Usage::default()
            }),
            ..call_turn(calls.clone())
        };
        let signals = vec![
            RunSignal::Answered(Ok(answer)),
            stored(),
            RunSignal::Authorized(Some(calls.into_iter().map(plan).collect())),
            RunSignal::Executed(vec![output("ok")]),
            RunSignal::Delivered(true),
            stored(),
        ];
        let mut action = RunAction::Abort;
        for signal in signals {
            (run, action) = run.advance(signal, 4, false);
        }
        if matches!(action, RunAction::Summarize(_)) {
            summaries += 1;
            (run, action) = run.advance(RunSignal::Summarized(Ok(String::new())), 5, false);
        }
        assert!(matches!(action, RunAction::Ask(_)), "{action:?}");
    }
    assert_eq!(summaries, 2);
}

#[test]
fn large_results_are_put_into_files_and_recorded_before_the_provider_is_asked() {
    let config = AgentConfig {
        tool_result_budget: ToolResultBudgetConfig {
            single_result_limit_chars: 5,
            ..ToolResultBudgetConfig::default()
        },
        ..AgentConfig::default()
    };
    let (run, _) = executed(config, vec![call("call-1", "Tool")], vec![output("abcdefghij")]);
    let (run, _) = run.advance(RunSignal::Delivered(true), 4, false);
    let (run, action) = run.advance(stored(), 4, false);
    match action {
        RunAction::Spill(spill) => assert_eq!(spill.content, "abcdefghij"),
        other => panic!("expected a file, not {other:?}"),
    }
    let (run, action) = run.advance(RunSignal::Spilled(true), 4, false);
    match action {
        RunAction::Record { path, lines } => {
            assert_eq!(
                path,
                "/work/.mycode/sessions/session/replacement_records.jsonl"
            );
            assert_eq!(lines.lines().count(), 1);
            assert!(lines.contains("\"tool_use_id\":\"call-1\""));
        }
        other => panic!("expected a record, not {other:?}"),
    }
    let (_, action) = run.advance(RunSignal::Recorded(true), 4, false);
    match action {
        RunAction::Ask(request) => match &request.conversation.messages()[2].content[0] {
            ContentBlock::ToolResult { content, .. } => {
                assert!(content.starts_with("[Result of 10 chars saved to "))
            }
            other => panic!("expected a result, not {other:?}"),
        },
        other => panic!("expected a request, not {other:?}"),
    }
}

#[test]
fn what_a_provider_answers_is_collected_and_reported() {
    let mut turn = ProviderTurn::new();
    assert_eq!(
        turn.take(Ok(LlmEvent::TextDelta { text: "he".into() })),
        TurnStep::Report(AgentEvent::TextDelta { text: "he".into() })
    );
    turn.take(Ok(LlmEvent::TextDelta { text: "llo".into() }));
    assert_eq!(
        turn.take(Ok(LlmEvent::ThinkingDelta { text: "hm".into() })),
        TurnStep::More
    );
    let wanted = call("call-1", "ReadFile");
    assert_eq!(
        turn.take(Ok(LlmEvent::ToolCallComplete {
            tool_id: wanted.tool_id.clone(),
            tool_name: wanted.tool_name.clone(),
            arguments: wanted.arguments.clone(),
        })),
        TurnStep::Report(AgentEvent::ToolCall {
            tool_id: wanted.tool_id.clone(),
            tool_name: wanted.tool_name.clone(),
            arguments: wanted.arguments.clone(),
        })
    );
    assert_eq!(
        turn.take(Err(LlmError::Cancelled)),
        TurnStep::Failed(LlmError::Cancelled)
    );
    assert_eq!(
        turn.take(Ok(LlmEvent::StreamEnd {
            stop_reason: StopReason::ToolUse,
            usage: Usage::default(),
        })),
        TurnStep::Complete
    );
    assert_eq!(
        turn,
        ProviderTurn {
            text: "hello".into(),
            tool_calls: vec![wanted],
            usage: Some(Usage::default()),
        }
    );
}
