use mycode::config::{
    merge_documents, ConfigDocument, McpServerConfig, McpTransport,
};
use mycode::conversation::{ContentBlock, Conversation, ConversationMessage, MessageRole};
use mycode::history::PromptHistory;
use mycode::json::Json;
use mycode::provider::window_in_answer;
use mycode::raw::{fields_of, items_of, members_of};
use mycode::session::{boundary_line, message_line, CompactBoundary, SessionId};
use mycode::tool_result::{
    replacement_line, ReplacementRecord, ToolResultBudget, ToolResultBudgetConfig,
    ToolResultBudgetError,
};

fn json(text: &str) -> Json {
    Json::parse(text).expect("valid JSON")
}

fn message(role: MessageRole, content: Vec<ContentBlock>) -> ConversationMessage {
    ConversationMessage {
        role,
        content,
        timestamp_unix_seconds: 7,
    }
}

fn every_block() -> Vec<ContentBlock> {
    vec![
        ContentBlock::Text { text: "a\n\"b\"".into() },
        ContentBlock::Thinking {
            thinking: "t".into(),
            signature: "s".into(),
            encrypted_content: String::new(),
        },
        ContentBlock::Thinking {
            thinking: "t".into(),
            signature: "s".into(),
            encrypted_content: "e".into(),
        },
        ContentBlock::ToolUse {
            tool_use_id: "id".into(),
            tool_name: "ReadFile".into(),
            arguments: json(r#"{"b":1.5,"a":[-1,null,true,{"!x":2}]}"#),
        },
        ContentBlock::ToolResult {
            tool_use_id: "id".into(),
            content: "c".into(),
            is_error: true,
        },
    ]
}

const EVERY_BLOCK: &str = r#"[{"type":"text","text":"a\n\"b\""},{"type":"thinking","thinking":"t","signature":"s"},{"type":"thinking","thinking":"t","signature":"s","encrypted_content":"e"},{"type":"tool_use","tool_use_id":"id","tool_name":"ReadFile","arguments":{"a":[-1,null,true,{"!x":2}],"b":1.5}},{"type":"tool_result","tool_use_id":"id","content":"c","is_error":true}]"#;

#[test]
fn messages_are_stored_with_their_fields_in_order() {
    let line = message_line(&message(MessageRole::Assistant, every_block()));
    assert_eq!(
        line,
        format!(
            "{{\"role\":\"assistant\",\"content\":{EVERY_BLOCK},\"timestamp_unix_seconds\":7}}\n"
        )
    );
}

#[test]
fn boundaries_are_stored_with_their_fields_in_order() {
    let line = boundary_line(&CompactBoundary {
        summary: "so far".into(),
        keep: vec![message(MessageRole::User, Vec::new())],
    });
    assert_eq!(
        line,
        "{\"type\":\"compact_boundary\",\"summary\":\"so far\",\"keep\":[{\"role\":\"user\",\"content\":[],\"timestamp_unix_seconds\":7}]}\n"
    );
}

#[test]
fn replacements_are_stored_with_their_fields_in_order() {
    let line = replacement_line(&ReplacementRecord {
        tool_use_id: "id".into(),
        replacement: "short".into(),
    });
    assert_eq!(
        line,
        "{\"kind\":\"tool-result\",\"tool_use_id\":\"id\",\"replacement\":\"short\"}\n"
    );
}

#[test]
fn conversations_are_stored_with_their_fields_in_order_and_read_back() {
    let mut conversation = Conversation::new();
    conversation.push(message(MessageRole::User, every_block()));
    conversation.push(message(MessageRole::System, Vec::new()));
    let written = conversation.to_json().expect("conversation should be written");
    assert_eq!(
        written,
        format!(
            "{{\"messages\":[{{\"role\":\"user\",\"content\":{EVERY_BLOCK},\"timestamp_unix_seconds\":7}},{{\"role\":\"system\",\"content\":[],\"timestamp_unix_seconds\":7}}]}}"
        )
    );
    assert_eq!(Conversation::from_json(&written), Ok(conversation));
}

fn reads(text: &str) -> bool {
    Conversation::from_json(text).is_ok()
}

fn with_block(block: &str) -> String {
    format!(r#"{{"messages":[{{"role":"user","content":[{block}]}}]}}"#)
}

fn with_member(member: &str) -> String {
    format!(r#"{{"messages":[{{"role":"user",{member},"content":[]}}]}}"#)
}

#[test]
fn members_that_matter_may_not_be_repeated() {
    assert!(reads(r#"{"messages":[]}"#));
    assert!(!reads(r#"{"messages":[],"messages":[]}"#));
    assert!(!reads(&with_member(r#""role":"user""#)));
    assert!(!reads(&with_member(r#""content":[]"#)));
    assert!(!reads(&with_member(
        r#""timestamp_unix_seconds":1,"timestamp_unix_seconds":1"#
    )));
    assert!(reads(&with_block(r#"{"type":"text","text":"a"}"#)));
    assert!(!reads(&with_block(
        r#"{"type":"text","text":"a","text":"a"}"#
    )));
    assert!(!reads(&with_block(
        r#"{"type":"text","type":"text","text":"a"}"#
    )));
    let repeated = r#"{"type":"tool_use","tool_use_id":"i","tool_name":"n","arguments":{"a":1,"a":2}}"#;
    let read = Conversation::from_json(&with_block(repeated)).expect("should be read");
    assert!(read
        .to_json()
        .expect("conversation should be written")
        .contains(r#""arguments":{"a":2}"#));
}

#[test]
fn other_members_may_be_repeated() {
    assert!(reads(r#"{"messages":[],"more":1,"more":2}"#));
    assert!(reads(&with_member(r#""more":1,"more":2"#)));
    assert!(reads(&with_block(
        r#"{"type":"text","text":"a","signature":1,"signature":2}"#
    )));
}

#[test]
fn other_members_are_passed_over_unread() {
    let deep = format!("{}{}", "[".repeat(300), "]".repeat(300));
    assert!(reads(&format!(r#"{{"messages":[],"more":{deep}}}"#)));
    assert!(reads(r#"{"messages":[],"more":1e999}"#));
    assert!(reads(&with_member(&format!(r#""more":{deep}"#))));
    assert!(reads(&with_member(r#""more":[1e999]"#)));
    assert!(!reads(r#"{"messages":[],"more":[1,]}"#));
    assert!(!reads(r#"{"messages":[],"more":}"#));
    assert!(!reads(r#"{"messages":[],}"#));
    assert!(!reads(r#"{"messages":[]} more"#));
    assert!(!reads(&with_block(
        r#"{"type":"text","text":"a","more":1e999}"#
    )));
    assert!(!reads(&with_block(&format!(
        r#"{{"type":"text","text":"a","more":{deep}}}"#
    ))));
}

#[test]
fn arguments_are_read_as_deep_as_a_text_may_be_nested() {
    let block = |depth: usize| {
        with_block(&format!(
            r#"{{"type":"tool_use","tool_use_id":"i","tool_name":"n","arguments":{}{}}}"#,
            "[".repeat(depth),
            "]".repeat(depth)
        ))
    };
    assert!(reads(&block(122)));
    assert!(!reads(&block(123)));
}

#[test]
fn records_may_be_arrays_of_their_fields() {
    assert!(reads(r#" [ [ [ "user" , [ [ "text" , "a" ] ] , 3 ] ] ] "#));
    assert!(reads(r#"[[["user",[]]]]"#));
    assert!(!reads(r#"[[["user",[],3,4]]]"#));
    assert!(!reads("[[],[]]"));
    assert!(!reads("[]"));
    assert!(reads(&with_member(r#""timestamp_unix_seconds":3"#)));
    assert!(reads(r#"{"messages":[{"role":{"user":null},"content":[]}]}"#));
    assert!(!reads(
        r#"{"messages":[{"role":{"user":null,"user":null},"content":[]}]}"#
    ));
}

#[test]
fn texts_are_taken_apart_around_their_values() {
    assert_eq!(
        members_of(" { \"a\" : [1, 2] , \"a\" : {\"b\":\"}\"} } "),
        Some(vec![
            ("a".to_string(), "[1, 2]".to_string()),
            ("a".to_string(), "{\"b\":\"}\"}".to_string()),
        ])
    );
    assert_eq!(members_of("{}"), Some(Vec::new()));
    assert_eq!(members_of("[]"), None);
    assert_eq!(members_of("{\"a\":1,}"), None);
    assert_eq!(members_of("{1:1}"), None);
    assert_eq!(members_of("{} {}"), None);
    assert_eq!(
        items_of("[1 ,\"a,b\",[ ]]"),
        Some(vec!["1".to_string(), "\"a,b\"".to_string(), "[ ]".to_string()])
    );
    assert_eq!(items_of("[ ]"), Some(Vec::new()));
    assert_eq!(items_of("[1 2]"), None);
    assert_eq!(
        fields_of("{\"x\":1}", &vec!["y".to_string(), "x".to_string()]),
        Some(vec![None, Some("1".to_string())])
    );
}

#[test]
fn prompts_are_read_directly() {
    let history = PromptHistory::new("/work".to_string());
    let contents = [
        "{\"text\":\"one\",\"timestamp_unix_seconds\":1,\"more\":1e999,\"more\":2}\n",
        "{\"text\":\"two\",\"text\":\"two\",\"timestamp_unix_seconds\":1}\n",
        "[\"three\",3]\n",
        "[\"four\"]\n",
        "{\"text\":\"five\",\"timestamp_unix_seconds\":-1}\n",
    ]
    .concat();
    assert_eq!(
        history.load(&Some(contents)),
        vec!["one", "three"]
    );
    assert_eq!(
        history.append(&None, "one", 9),
        Some("{\"text\":\"one\",\"timestamp_unix_seconds\":9}\n".to_string())
    );
}

#[test]
fn replacements_are_read_directly() {
    let resume = |line: &str| {
        ToolResultBudget::resume(
            "/work",
            &SessionId::new("session".to_string()).expect("valid session ID"),
            ToolResultBudgetConfig::default(),
            Some(line.to_string()),
        )
        .map(|_| ())
    };
    let invalid = Err(ToolResultBudgetError::InvalidRecord { line_number: 1 });
    let fields = r#""tool_use_id":"i","replacement":"r""#;
    assert_eq!(resume(&format!(r#"{{"kind":"tool-result",{fields}}}"#)), Ok(()));
    assert_eq!(
        resume(&format!(r#"{{"kind":"tool-result",{fields},"more":1e999}}"#)),
        Ok(())
    );
    assert_eq!(
        resume(&format!(r#"{{"kind":{{"tool-result":null}},{fields}}}"#)),
        Ok(())
    );
    assert_eq!(
        resume(&format!(
            r#"{{"kind":{{"tool-result":null,"tool-result":null}},{fields}}}"#
        )),
        invalid
    );
    assert_eq!(
        resume(&format!(r#"{{"kind":"tool-result",{fields},{fields}}}"#)),
        invalid
    );
    assert_eq!(resume(&format!(r#"{{"kind":"other",{fields}}}"#)), invalid);
}

#[test]
fn numbers_are_written_as_they_were_read() {
    assert_eq!(
        json("0.98598559837064373").to_text(),
        "0.9859855983706437"
    );
    for text in ["[1e21,-0.0,5e-324]", "0.1", "1.7976931348623157e308", "123456789.123456789e-7"] {
        let value: serde_json::Value = serde_json::from_str(text).expect("valid JSON");
        assert_eq!(json(text).to_text(), value.to_string());
    }
}

fn server(name: &str, command: &str) -> McpServerConfig {
    McpServerConfig {
        name: name.into(),
        transport: McpTransport::Stdio,
        command: Some(command.into()),
        args: Vec::new(),
        url: None,
        headers: Default::default(),
        env: Default::default(),
    }
}

fn layer(servers: Vec<McpServerConfig>) -> ConfigDocument {
    ConfigDocument {
        mcp_servers: Some(servers),
        ..ConfigDocument::default()
    }
}

#[test]
fn layers_may_be_merged_from_below_or_from_above() {
    let layers = || {
        (
            layer(vec![server("a", "1"), server("b", "1")]),
            layer(vec![server("c", "2"), server("b", "2")]),
            layer(vec![server("b", "3"), server("c", "3"), server("d", "3")]),
        )
    };
    let (base, middle, upper) = layers();
    let below = merge_documents(merge_documents(base, middle), upper);
    let (base, middle, upper) = layers();
    let above = merge_documents(base, merge_documents(middle, upper));
    assert_eq!(below, above);
    let (base, _, _) = layers();
    assert_eq!(
        merge_documents(ConfigDocument::default(), base.clone()),
        base
    );
}

#[test]
fn the_window_is_found_in_the_text_of_an_answer() {
    assert_eq!(
        window_in_answer(200, r#"{"max_input_tokens":555000}"#),
        Some(555_000)
    );
    assert_eq!(window_in_answer(500, r#"{"max_input_tokens":555000}"#), None);
    assert_eq!(window_in_answer(200, "no JSON"), None);
    assert_eq!(window_in_answer(200, "{}"), None);
}
