use mycode::events::LlmError;
use mycode::sse::{SseEvent, SseParser};

fn event(name: Option<&str>, data: &str) -> SseEvent {
    SseEvent {
        event: name.map(str::to_string),
        data: data.to_string(),
    }
}

#[test]
fn parses_events_split_across_chunks() {
    let mut parser = SseParser::new();
    assert_eq!(
        parser
            .push_bytes(b"event: message_start\ndata: {\"value\":1}\n\nevent")
            .expect("valid UTF-8"),
        vec![SseEvent {
            event: Some("message_start".into()),
            data: "{\"value\":1}".into(),
        }]
    );
    assert_eq!(
        parser
            .push_bytes(b": delta\ndata: {\"value\":2}\r\n\r\n")
            .expect("valid UTF-8"),
        vec![SseEvent {
            event: Some("delta".into()),
            data: "{\"value\":2}".into(),
        }]
    );
}

#[test]
fn finish_parses_a_final_event_without_a_separator() {
    let mut parser = SseParser::new();
    parser.push_bytes(b"data: final\n").expect("valid UTF-8");
    assert_eq!(
        parser.finish().expect("valid UTF-8"),
        vec![SseEvent {
            event: None,
            data: "final".into(),
        }]
    );
}

#[test]
fn the_way_a_stream_is_cut_into_chunks_does_not_matter() {
    let stream = "event: a\ndata: one\ndata: two\n\n: comment\n\ndata: \u{e9}\r\n\r\n".as_bytes();
    let mut whole = SseParser::new();
    let expected = whole.push_bytes(stream).expect("valid UTF-8");
    assert_eq!(
        expected,
        vec![event(Some("a"), "one\ntwo"), event(None, "\u{e9}")]
    );
    for size in 1..stream.len() {
        let mut parser = SseParser::new();
        let mut events = Vec::new();
        for chunk in stream.chunks(size) {
            events.extend(parser.push_bytes(chunk).expect("valid UTF-8"));
        }
        assert_eq!(events, expected, "chunks of {size} bytes");
        assert_eq!(parser.finish().expect("valid UTF-8"), vec![]);
    }
}

#[test]
fn a_block_that_is_no_text_is_an_invalid_response() {
    let mut parser = SseParser::new();
    let error = parser
        .push_bytes(b"data: \xff\n\n")
        .expect_err("invalid UTF-8 should fail");
    assert!(matches!(error, LlmError::InvalidResponse { .. }));
    assert!(error.message().contains("invalid utf-8"), "{}", error.message());
}
