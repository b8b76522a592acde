use mycode::text::{comes_before, contains, decimal_text, join, lines, same_text, text_len, trim};

#[test]
fn decimal_numbers_have_no_leading_zeros() {
    assert_eq!(decimal_text(0), "0");
    assert_eq!(decimal_text(1_050), "1050");
}

#[test]
fn trimming_removes_white_space_at_both_ends() {
    assert_eq!(trim(" \t a b\u{3000}\n"), "a b");
}

#[test]
fn lines_end_at_line_feeds_with_or_without_carriage_returns() {
    assert_eq!(lines("a\r\nb\n\nc"), vec!["a", "b", "", "c"]);
    assert_eq!(lines("a\n"), vec!["a"]);
    assert!(lines("").is_empty());
}

#[test]
fn texts_are_compared_by_their_characters() {
    assert!(same_text("\u{e9}", "\u{e9}"));
    assert!(!same_text("a", "ab"));
    assert!(comes_before("a", "ab"));
    assert!(!comes_before("b", "ab"));
    assert!(contains("hello world", "o w"));
    assert!(!contains("hello", "hello!"));
    assert_eq!(text_len("\u{4f60}"), 3);
    assert_eq!(join(&vec!["a".to_string(), "b".to_string()], ", "), "a, b");
}
