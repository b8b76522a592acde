use mycode::agent_events::AgentEvent;
use mycode::cli::{
    command_for, compacted_line, grants_permission, parse_arguments, requested_session,
    session_started_line, summary_line, Command, RunReport, USAGE,
};
use mycode::compaction::CompactionOutcome;
use mycode::conversation::Conversation;
use mycode::json::Json;
use mycode::session::{SessionError, SessionId, SessionSummary};

fn arguments(words: &[&str]) -> Vec<String> {
    words.iter().map(|word| word.to_string()).collect()
}

fn command(words: &[&str]) -> Result<Command, String> {
    command_for(&arguments(words))
}

fn id(value: &str) -> SessionId {
    SessionId::new(value.to_string()).expect("valid session ID")
}

#[test]
fn arguments_choose_the_command() {
    assert_eq!(command(&[]), Ok(Command::Usage));
    assert_eq!(command(&["--bogus", "-h"]), Ok(Command::Usage));
    assert_eq!(command(&["--version", "--help"]), Ok(Command::Usage));
    assert_eq!(command(&["--bogus", "-V"]), Ok(Command::Version));
    assert_eq!(command(&["--config", "c"]), Ok(Command::Usage));
    assert_eq!(command(&["--list-sessions"]), Ok(Command::ListSessions));
    assert_eq!(
        command(&["--search-sessions", "MIGRATE"]),
        Ok(Command::SearchSessions {
            query: "MIGRATE".into()
        })
    );
    assert_eq!(
        command(&["--headless", "--config", "c", "--session", "new"]),
        Ok(Command::Run {
            config: "c".into(),
            session: "new".into(),
            permission_mode: None,
        })
    );
    assert_eq!(
        command(&[
            "--headless",
            "--compact",
            "--config",
            "c",
            "--session",
            "s",
            "--permission-mode",
            "plan"
        ]),
        Ok(Command::Compact {
            config: "c".into(),
            session: "s".into(),
            permission_mode: Some("plan".into()),
        })
    );
    assert!(USAGE.contains("--headless"));
}

#[test]
fn wrong_arguments_are_told() {
    assert_eq!(
        command(&["--headless"]),
        Err("--headless requires --config <path>".into())
    );
    assert_eq!(
        command(&["--headless", "--config", "c"]),
        Err("--headless requires --session <id|new>".into())
    );
    assert_eq!(
        command(&["--config"]),
        Err("--config requires a value".into())
    );
    assert_eq!(
        command(&["a\"b"]),
        Err("unknown argument \"a\\\"b\"".into())
    );
    let options = parse_arguments(&arguments(&["--session", "--headless"])).expect("options");
    assert_eq!(options.session.as_deref(), Some("--headless"));
    assert!(!options.headless);
}

#[test]
fn only_a_plain_yes_grants_permission() {
    assert!(grants_permission(2, "y\n"));
    assert!(grants_permission(4, " y \n"));
    assert!(!grants_permission(0, "y"));
    assert!(!grants_permission(4, "yes\n"));
    assert!(!grants_permission(2, "Y\n"));
}

#[test]
fn the_status_tells_how_a_run_ended() {
    let status = |events: &[AgentEvent], granted: bool| {
        let mut report = RunReport::new();
        for event in events {
            report.note(event);
        }
        report.note_permission(granted);
        report.status()
    };
    let completed = AgentEvent::RunCompleted {
        final_text: "done".into(),
    };
    let failure = AgentEvent::ToolResult {
        tool_id: "t".into(),
        tool_name: "T".into(),
        content: "c".into(),
        is_error: true,
    };
    assert_eq!(status(&[completed.clone()], true), 0);
    assert_eq!(status(&[completed.clone()], false), 3);
    assert_eq!(status(&[failure.clone(), completed.clone()], true), 4);
    assert_eq!(status(&[failure.clone(), completed], false), 3);
    assert_eq!(
        status(&[AgentEvent::MaxIterationsReached { limit: 1 }], true),
        5
    );
    assert_eq!(status(&[AgentEvent::RunCancelled], true), 130);
    assert_eq!(
        status(
            &[AgentEvent::RunError {
                message: "m".into()
            }],
            true
        ),
        1
    );
    assert_eq!(status(&[failure], true), 1);
    assert_eq!(status(&[], true), 1);
}

#[test]
fn sessions_are_new_or_named() {
    assert_eq!(
        requested_session("new".into(), 5, 1),
        Ok(SessionId::generate(5, 1))
    );
    assert_eq!(requested_session("abc".into(), 5, 1), Ok(id("abc")));
    assert_eq!(
        requested_session("../abc".into(), 5, 1),
        Err(SessionError::InvalidSessionId)
    );
}

#[test]
fn lines_of_the_command_line_are_json() {
    assert_eq!(
        session_started_line(&id("abc")),
        r#"{"session_id":"abc","type":"session_started"}"#
    );
    let summary = |first: Option<&str>| SessionSummary {
        id: id("abc"),
        first_user_message: first.map(str::to_string),
        message_count: 1,
        file_size_bytes: 2,
        modified_at: 3,
    };
    assert_eq!(
        summary_line(&summary(Some("migrate \"database\""))),
        r#"{"first_user_message":"migrate \"database\"","id":"abc"}"#
    );
    assert_eq!(
        summary_line(&summary(None)),
        r#"{"first_user_message":null,"id":"abc"}"#
    );
    let outcome = CompactionOutcome {
        summary: "actionable summary".into(),
        estimated_tokens_before: 2,
        estimated_tokens_after: 1,
        compacted_conversation: Conversation::new(),
    };
    assert_eq!(
        compacted_line(&outcome),
        r#"{"summary":"actionable summary","type":"compacted"}"#
    );
}

#[test]
fn events_are_lines_of_json_with_their_kind_first() {
    let object = || Json::parse(r#"{"b": 1, "a": "x"}"#).expect("valid JSON");
    for (event, expected) in [
        (
            AgentEvent::TextDelta { text: "a\n".into() },
            r#"{"type":"text_delta","text":"a\n"}"#,
        ),
        (
            AgentEvent::ToolCall {
                tool_id: "i".into(),
                tool_name: "n".into(),
                arguments: object(),
            },
            r#"{"type":"tool_call","tool_id":"i","tool_name":"n","arguments":{"a":"x","b":1}}"#,
        ),
        (
            AgentEvent::PermissionRequest {
                request_id: "i".into(),
                tool_name: "n".into(),
                arguments: Json::Null,
                reason: "r".into(),
            },
            r#"{"type":"permission_request","request_id":"i","tool_name":"n","arguments":null,"reason":"r"}"#,
        ),
        (
            AgentEvent::PermissionDecision {
                request_id: "i".into(),
                allowed: true,
            },
            r#"{"type":"permission_decision","request_id":"i","allowed":true}"#,
        ),
        (
            AgentEvent::ToolResult {
                tool_id: "i".into(),
                tool_name: "n".into(),
                content: "c".into(),
                is_error: false,
            },
            r#"{"type":"tool_result","tool_id":"i","tool_name":"n","content":"c","is_error":false}"#,
        ),
        (
            AgentEvent::Compacted {
                message: "m".into(),
            },
            r#"{"type":"compacted","message":"m"}"#,
        ),
        (
            AgentEvent::RunCompleted {
                final_text: "t".into(),
            },
            r#"{"type":"run_completed","final_text":"t"}"#,
        ),
        (
            AgentEvent::MaxIterationsReached { limit: 50 },
            r#"{"type":"max_iterations_reached","limit":50}"#,
        ),
        (
            AgentEvent::RunError {
                message: "m".into(),
            },
            r#"{"type":"run_error","message":"m"}"#,
        ),
        (AgentEvent::RunCancelled, r#"{"type":"run_cancelled"}"#),
    ] {
        assert_eq!(event.to_line(), expected);
        assert!(Json::parse(&event.to_line()).is_ok());
    }
}
