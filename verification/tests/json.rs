use mycode::json::Json;

#[test]
fn json_is_read_and_written_in_the_order_of_its_keys() {
    let value = Json::parse(r#" {"b": [1, -2, true, null], "a": "x\ny"} "#).expect("valid JSON");
    assert_eq!(value.to_text(), r#"{"a":"x\ny","b":[1,-2,true,null]}"#);
    assert_eq!(value.get("a").and_then(Json::as_str), Some("x\ny"));
    assert_eq!(value.get("missing"), None);
    assert_eq!(Json::parse(&value.to_text()), Ok(value));
}

#[test]
fn numbers_keep_their_kind() {
    let value = Json::parse("[18446744073709551615, 1.5]").expect("valid JSON");
    assert_eq!(value.to_text(), "[18446744073709551615,1.5]");
    assert_eq!(
        Json::parse("18446744073709551615")
            .expect("valid JSON")
            .as_u64(),
        Some(u64::MAX)
    );
    assert_eq!(Json::parse("-1").expect("valid JSON").as_u64(), None);
    assert_eq!(Json::parse("1.0").expect("valid JSON").as_u64(), None);
}

#[test]
fn what_is_no_json_is_reported() {
    let message = Json::parse("{not json}").expect_err("should fail");
    assert!(message.contains("line 1"), "{message}");
    assert!(Json::parse("").is_err());
    assert!(Json::parse("{} {}").is_err());
}

#[test]
fn members_of_members_are_found() {
    let value = Json::parse(r#"{"usage": {"tokens": 3}}"#).expect("valid JSON");
    assert_eq!(
        value.get_in("usage", "tokens").and_then(Json::as_u64),
        Some(3)
    );
    assert_eq!(value.get_in("usage", "other"), None);
    assert_eq!(value.get_in("none", "tokens"), None);
}
