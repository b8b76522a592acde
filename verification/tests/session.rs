use mycode::conversation::{ContentBlock, ConversationMessage, MessageRole};
use mycode::json::Json;
use mycode::session::{
    boundary_line, is_session_file, message_line, CompactBoundary, SessionError, SessionFile,
    SessionId, SessionStore,
};

fn message(role: MessageRole, content: Vec<ContentBlock>) -> ConversationMessage {
    ConversationMessage {
        role,
        content,
        timestamp_unix_seconds: 42,
    }
}

fn text(role: MessageRole, text: &str) -> ConversationMessage {
    message(role, vec![ContentBlock::Text { text: text.into() }])
}

fn tool_result() -> ContentBlock {
    ContentBlock::ToolResult {
        tool_use_id: "tool-1".into(),
        content: "contents".into(),
        is_error: true,
    }
}

fn id(value: &str) -> SessionId {
    SessionId::new(value.to_string()).expect("valid session ID")
}

fn store() -> SessionStore {
    SessionStore::new("/work".to_string())
}

fn file(name: &str, contents: String, modified_at: i128) -> SessionFile {
    SessionFile {
        stem: Some(name.to_string()),
        file_size_bytes: contents.len() as u64,
        contents,
        modified_at,
    }
}

#[test]
fn session_append_and_load_round_trip_typed_messages_in_order() {
    let session_id = id("session-1");
    let mut contents = String::new();
    contents.push_str(&message_line(&text(MessageRole::User, "hello")));
    contents.push_str(&message_line(&message(
        MessageRole::Assistant,
        vec![
            ContentBlock::Thinking {
                thinking: "thinking".into(),
                signature: "signature".into(),
                encrypted_content: String::new(),
            },
            ContentBlock::ToolUse {
                tool_use_id: "tool-1".into(),
                tool_name: "read_file".into(),
                arguments: Json::parse(r#"{ "path": "README.md" }"#).expect("valid JSON"),
            },
        ],
    )));
    contents.push_str(&message_line(&message(
        MessageRole::User,
        vec![tool_result()],
    )));

    let messages = store()
        .load(&session_id, Some(contents), 7)
        .expect("load session")
        .expect("session exists");

    assert_eq!(messages.len(), 3);
    assert_eq!(messages[0].role, MessageRole::User);
    assert_eq!(messages[1].content.len(), 2);
    assert_eq!(messages[2].content[0], tool_result());
}

#[test]
fn session_list_reports_metadata_newest_first() {
    let sessions = store()
        .list(vec![
            file(
                "older",
                message_line(&text(MessageRole::User, "older prompt")),
                1_000,
            ),
            file(
                "newer",
                message_line(&text(MessageRole::User, "newer prompt")),
                2_000,
            ),
        ])
        .expect("list sessions");

    assert_eq!(sessions.len(), 2);
    assert_eq!(sessions[0].id, id("newer"));
    assert_eq!(
        sessions[0].first_user_message.as_deref(),
        Some("newer prompt")
    );
    assert_eq!(sessions[0].message_count, 1);
    assert_eq!(sessions[1].id, id("older"));
    assert!(sessions[0].modified_at > sessions[1].modified_at);
}

#[test]
fn loading_a_missing_session_is_none_and_malformed_jsonl_fails() {
    assert!(store()
        .load(&id("missing"), None, 7)
        .expect("missing session lookup should succeed")
        .is_none());

    let error = store()
        .load(&id("malformed"), Some("{not json}\n".to_string()), 7)
        .expect_err("malformed JSONL should fail")
        .message();
    assert!(
        error.contains("line 1"),
        "error should identify the line: {error}"
    );
}

#[test]
fn session_ids_reject_path_traversal() {
    let error = SessionId::new("../outside".to_string())
        .expect_err("path traversal should fail")
        .message();
    assert!(
        error.contains("session ID"),
        "error should identify the field: {error}"
    );
}

#[test]
fn session_search_matches_id_and_first_user_prompt_case_insensitively() {
    let files = || {
        vec![
            file(
                "rust-refactor",
                message_line(&text(MessageRole::User, "Fix the workspace lints")),
                1,
            ),
            file(
                "database-migration",
                message_line(&text(MessageRole::User, "Add a migration")),
                2,
            ),
        ]
    };
    let search = |query: &str| {
        store()
            .search(store().list(files()), query)
            .expect("search Sessions")
            .into_iter()
            .map(|summary| summary.id)
            .collect::<Vec<_>>()
    };

    assert_eq!(search("MIGRATION"), vec![id("database-migration")]);
    assert_eq!(search("RUST"), vec![id("rust-refactor")]);
    assert_eq!(search("").len(), 2);
    assert!(search("missing").is_empty());
}

#[test]
fn a_search_fails_as_the_list_does() {
    let broken = || vec![file("broken", "not json\n".to_string(), 1)];
    let listed = store().list(broken()).expect_err("the list should fail");
    assert_eq!(
        store().search(store().list(broken()), ""),
        Err(listed)
    );
    let all = vec![
        file("b", message_line(&text(MessageRole::User, "Zwei")), 1),
        file("a", message_line(&text(MessageRole::User, "Eins")), 2),
    ];
    let ids = store()
        .search(store().list(all), "")
        .expect("search Sessions")
        .into_iter()
        .map(|summary| summary.id)
        .collect::<Vec<_>>();
    assert_eq!(ids, vec![id("a"), id("b")]);
}

#[test]
fn compact_boundary_resume_replays_summary_kept_tail_and_later_messages() {
    let kept = text(MessageRole::Assistant, "kept answer");
    let mut contents = message_line(&text(MessageRole::User, "old prompt"));
    contents.push_str(&boundary_line(&CompactBoundary {
        summary: "old conversation summary".into(),
        keep: vec![kept.clone()],
    }));
    contents.push_str(&message_line(&text(MessageRole::User, "new prompt")));

    let resumed = store()
        .load(&id("compacted"), Some(contents), 7)
        .expect("load compacted Session")
        .expect("Session exists");

    assert_eq!(resumed.len(), 3);
    assert_eq!(resumed[0].first_text(), Some("old conversation summary"));
    assert_eq!(resumed[0].timestamp_unix_seconds, 7);
    assert_eq!(resumed[1], kept);
    assert_eq!(resumed[2].first_text(), Some("new prompt"));
}

#[test]
fn compact_boundary_resume_uses_the_last_boundary_and_falls_back_from_corruption() {
    let keep = text(MessageRole::User, "kept");
    let lines = vec![
        message_line(&text(MessageRole::User, "raw")),
        boundary_line(&CompactBoundary {
            summary: "first summary".into(),
            keep: vec![keep.clone()],
        }),
        boundary_line(&CompactBoundary {
            summary: "second summary".into(),
            keep: vec![keep],
        }),
    ];
    let resumed = store()
        .load(&id("multi-boundary"), Some(lines.concat()), 7)
        .expect("load twice-compacted Session")
        .expect("Session exists");
    assert_eq!(resumed.len(), 2);
    assert_eq!(resumed[0].first_text(), Some("second summary"));

    let corrupt = lines[2].replace("\"summary\":\"second summary\"", "\"summary\":42");
    assert_ne!(corrupt, lines[2]);
    let fallback = store()
        .load(
            &id("multi-boundary"),
            Some(format!("{}{}{}", lines[0], lines[1], corrupt)),
            7,
        )
        .expect("load Session with corrupt final boundary")
        .expect("Session exists");
    assert_eq!(fallback.len(), 2);
    assert_eq!(fallback[0].first_text(), Some("first summary"));
    assert_eq!(fallback[1].first_text(), Some("kept"));
}

#[test]
fn ids_hold_letters_digits_hyphens_and_underscores() {
    assert!(SessionId::new("aZ09-_".to_string()).is_ok());
    for value in ["", "a/b", "a.b", "a b", "\u{e9}"] {
        assert_eq!(
            SessionId::new(value.to_string()),
            Err(SessionError::InvalidSessionId)
        );
    }
    assert_ne!(SessionId::generate(1, 2), SessionId::generate(1, 3));
    assert!(SessionId::new(SessionId::generate(1, 2).as_str().to_string()).is_ok());
}

#[test]
fn sessions_stand_below_the_workspace() {
    assert_eq!(store().sessions_dir(), "/work/.mycode/sessions");
    assert_eq!(
        store().session_path(&id("abc")),
        "/work/.mycode/sessions/abc.jsonl"
    );
    assert!(is_session_file(true, Some("jsonl")));
    assert!(!is_session_file(false, Some("jsonl")));
    assert!(!is_session_file(true, Some("txt")));
    assert!(!is_session_file(true, None));
}

#[test]
fn sessions_of_one_time_are_listed_with_greater_ids_first() {
    let line = || message_line(&text(MessageRole::User, "prompt"));
    let sessions = store()
        .list(vec![
            file("database-session", line(), 5),
            file("rust-session", line(), 5),
        ])
        .expect("list sessions");
    assert_eq!(sessions[0].id, id("rust-session"));
    assert_eq!(sessions[1].id, id("database-session"));
}

#[test]
fn session_errors_name_the_session() {
    let name = || "abc".to_string();
    for (error, expected) in [
        (
            SessionError::CreateDirectory { path: name() },
            "failed to create the Session directory",
        ),
        (
            SessionError::Append { session_id: name() },
            "failed to append to Session abc",
        ),
        (
            SessionError::Serialize { session_id: name() },
            "failed to serialize a Session abc message",
        ),
        (
            SessionError::Read { session_id: name() },
            "failed to read Session abc",
        ),
        (
            SessionError::InvalidRecord {
                session_id: name(),
                line_number: 3,
            },
            "invalid Session abc record at line 3",
        ),
        (SessionError::List, "failed to list Sessions"),
        (
            SessionError::Metadata { session_id: name() },
            "failed to read Session metadata for abc",
        ),
    ] {
        assert_eq!(error.message(), expected);
    }
}
