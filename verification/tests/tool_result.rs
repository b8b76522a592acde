use mycode::conversation::{ContentBlock, Conversation, ConversationMessage, MessageRole};
use mycode::json::Json;
use mycode::session::SessionId;
use mycode::tool_result::{
    replacement_lines, Applied, ToolResultBudget, ToolResultBudgetConfig, ToolResultBudgetError,
};

fn tool_result_message(results: Vec<ContentBlock>) -> ConversationMessage {
    ConversationMessage {
        role: MessageRole::User,
        content: results,
        timestamp_unix_seconds: 42,
    }
}

fn result(id: &str, content: impl Into<String>) -> ContentBlock {
    ContentBlock::ToolResult {
        tool_use_id: id.into(),
        content: content.into(),
        is_error: false,
    }
}

fn text_message(role: MessageRole, text: &str) -> ConversationMessage {
    ConversationMessage {
        role,
        content: vec![ContentBlock::Text { text: text.into() }],
        timestamp_unix_seconds: 42,
    }
}

fn tool_use_message(tool_use_id: &str, tool_name: &str, arguments: Json) -> ConversationMessage {
    ConversationMessage {
        role: MessageRole::Assistant,
        content: vec![ContentBlock::ToolUse {
            tool_use_id: tool_use_id.into(),
            tool_name: tool_name.into(),
            arguments,
        }],
        timestamp_unix_seconds: 42,
    }
}

fn config() -> ToolResultBudgetConfig {
    ToolResultBudgetConfig {
        single_result_limit_chars: 10_000,
        message_aggregate_limit_chars: 5_000,
        old_result_snip_chars: 5,
        keep_recent_turns: 1,
    }
}

fn small_config() -> ToolResultBudgetConfig {
    ToolResultBudgetConfig {
        single_result_limit_chars: 5,
        message_aggregate_limit_chars: 200,
        old_result_snip_chars: 1_000,
        keep_recent_turns: 5,
    }
}

fn session() -> SessionId {
    SessionId::new("session".to_string()).expect("valid session ID")
}

/// The files of a workspace: those that were spilled, and the records.
#[derive(Default)]
struct Disk {
    refuses: bool,
    spilled: Vec<(String, String)>,
    records: Option<String>,
}

fn resume(disk: &Disk, config: ToolResultBudgetConfig) -> ToolResultBudget {
    ToolResultBudget::resume("/work", &session(), config, disk.records.clone())
        .expect("budget should resume")
}

fn apply(
    budget: &mut ToolResultBudget,
    conversation: &Conversation,
    disk: &mut Disk,
) -> Conversation {
    let mut answers = Vec::new();
    let sent = loop {
        match budget.apply(conversation, &answers) {
            Applied::Spill(spill) => {
                if !disk.refuses {
                    disk.spilled.push((spill.path, spill.content));
                }
                answers.push(!disk.refuses);
            }
            Applied::Done(sent) => break sent,
        }
    };
    let records = budget.new_replacement_records();
    if !records.is_empty() {
        let mut contents = disk.records.take().unwrap_or_default();
        contents.push_str(&replacement_lines(&records));
        disk.records = Some(contents);
        budget.records_written();
    }
    sent
}

fn content(conversation: &Conversation, message: usize, block: usize) -> &str {
    match &conversation.messages()[message].content[block] {
        ContentBlock::ToolResult { content, .. } => content,
        _ => panic!("expected a Tool Result"),
    }
}

#[test]
fn single_large_tool_result_spills_and_stays_stable_after_restart() {
    let mut disk = Disk::default();
    let mut budget = resume(&disk, small_config());
    let mut conversation = Conversation::new();
    conversation.push(tool_result_message(vec![result("tool-1", "abcdefghij")]));

    let first = apply(&mut budget, &conversation, &mut disk);
    let sent = content(&first, 0, 0);
    assert!(sent.starts_with("[Result of 10 chars saved to "));
    assert!(sent.ends_with(" — read with ReadFile if needed]"));
    assert_eq!(disk.spilled.len(), 1);
    assert_eq!(disk.spilled[0].1, "abcdefghij");
    assert!(sent.contains(&disk.spilled[0].0));

    let mut restarted = resume(&disk, small_config());
    let second = apply(&mut restarted, &conversation, &mut disk);
    assert_eq!(first, second);
    assert_eq!(disk.spilled.len(), 1);
}

#[test]
fn aggregate_budget_spills_largest_results_while_preserving_order() {
    let mut disk = Disk::default();
    let mut budget = resume(&disk, config());
    let mut conversation = Conversation::new();
    conversation.push(tool_result_message(vec![
        result("small", "1".repeat(1_000)),
        result("large", "a".repeat(3_000)),
        result("medium", "b".repeat(2_000)),
    ]));

    let sent = apply(&mut budget, &conversation, &mut disk);
    assert_eq!(content(&sent, 0, 0), "1".repeat(1_000));
    assert!(content(&sent, 0, 1).starts_with("[Result of 3000 chars saved to"));
    assert_eq!(content(&sent, 0, 2), "b".repeat(2_000));
}

#[test]
fn stale_tool_results_are_snipped_with_a_stable_preview() {
    let mut disk = Disk::default();
    let mut budget = resume(&disk, config());
    let mut conversation = Conversation::new();
    conversation.push(text_message(MessageRole::Assistant, "first turn"));
    conversation.push(tool_result_message(vec![result("old", "abcdefghij")]));
    conversation.push(text_message(MessageRole::Assistant, "second turn"));

    let sent = apply(&mut budget, &conversation, &mut disk);
    assert_eq!(content(&sent, 1, 0), "[Stale output snipped: 10 chars]");
    assert_eq!(sent, apply(&mut budget, &conversation, &mut disk));
}

#[test]
fn spill_readback_does_not_spill_again() {
    let mut disk = Disk::default();
    let mut budget = resume(&disk, small_config());
    let mut conversation = Conversation::new();
    conversation.push(tool_use_message(
        "readback",
        "ReadFile",
        Json::parse(r#"{"file_path": "/work/.mycode/tool_results/readback.txt"}"#)
            .expect("valid JSON"),
    ));
    conversation.push(tool_result_message(vec![result(
        "readback",
        "large readback",
    )]));

    let sent = apply(&mut budget, &conversation, &mut disk);
    assert_eq!(content(&sent, 1, 0), "large readback");
    assert!(disk.spilled.is_empty());
}

#[test]
fn failed_spill_freezes_the_original_result() {
    let mut disk = Disk {
        refuses: true,
        ..Disk::default()
    };
    let mut budget = resume(&disk, small_config());
    let mut conversation = Conversation::new();
    conversation.push(tool_result_message(vec![result("tool-1", "abcdefghij")]));

    let first = apply(&mut budget, &conversation, &mut disk);
    disk.refuses = false;
    let second = apply(&mut budget, &conversation, &mut disk);

    assert_eq!(first, second);
    assert_eq!(
        first.messages()[0].content[0],
        result("tool-1", "abcdefghij")
    );
    assert!(disk.spilled.is_empty());
}

#[test]
fn restart_reconstructs_seen_but_unreplaced_results() {
    let config = ToolResultBudgetConfig {
        single_result_limit_chars: 10_000,
        message_aggregate_limit_chars: 20_000,
        old_result_snip_chars: 1_000,
        keep_recent_turns: 5,
    };
    let mut disk = Disk::default();
    let mut conversation = Conversation::new();
    conversation.push(tool_result_message(vec![result("old", "o".repeat(1_000))]));

    let mut first = resume(&disk, config);
    assert_eq!(apply(&mut first, &conversation, &mut disk), conversation);

    conversation.push(tool_result_message(vec![result("new", "n".repeat(24_000))]));
    let mut restarted = resume(&disk, config);
    restarted.reconstruct(&conversation);
    let resumed = apply(&mut restarted, &conversation, &mut disk);
    assert_eq!(content(&resumed, 0, 0), "o".repeat(1_000));
}

#[test]
fn a_line_that_is_no_record_is_reported() {
    let error = ToolResultBudget::resume(
        "/work",
        &session(),
        small_config(),
        Some("\n{\"kind\":\"other\"}\n".to_string()),
    )
    .expect_err("the record should be refused");
    assert_eq!(error, ToolResultBudgetError::InvalidRecord { line_number: 2 });
    assert_eq!(
        error.message(),
        "invalid Tool Result replacement record at line 2"
    );
    assert_eq!(
        ToolResultBudgetError::ReadRecords.message(),
        "failed to read Tool Result replacement records"
    );
}

#[test]
fn records_and_spilled_files_stand_below_the_workspace() {
    let budget = resume(&Disk::default(), ToolResultBudgetConfig::default());
    assert_eq!(
        budget.records_path(),
        "/work/.mycode/sessions/session/replacement_records.jsonl"
    );
    assert_eq!(budget.spill_dir(), "/work/.mycode/tool_results");
}
