use chat_relay::codec::parse_message;
use chat_relay::codec::serialize_message;
use chat_relay::ChatMessage;

fn msg(user_id: &str, timestamp: &str, content: &str) -> ChatMessage {
    ChatMessage {
        user_id: user_id.to_string(),
        timestamp: timestamp.to_string(),
        content: content.to_string(),
    }
}

#[test]
fn parse_without_timestamp() {
    let m = parse_message("{\"user_id\":\"a\",\"content\":\"hi\"}").unwrap();
    assert_eq!(m.user_id, "a");
    assert_eq!(m.timestamp, "");
    assert_eq!(m.content, "hi");
}

#[test]
fn parse_members_in_any_order() {
    let m = parse_message(
        "{\"content\":\"x\",\"timestamp\":\"2024-01-01T00:00:00+00:00\",\"user_id\":\"u\"}",
    )
    .unwrap();
    assert_eq!(m.user_id, "u");
    assert_eq!(m.timestamp, "2024-01-01T00:00:00+00:00");
    assert_eq!(m.content, "x");
}

#[test]
fn parse_with_whitespace() {
    let m = parse_message(
        " \t{ \"user_id\" : \"a\" ,\n \"content\" : \"hi\" }\r\n ",
    )
    .unwrap();
    assert_eq!(m.user_id, "a");
    assert_eq!(m.content, "hi");
}

#[test]
fn parse_simple_escapes() {
    let m = parse_message(
        "{\"user_id\":\"\\\"q\\\\\\/\",\"content\":\"\\b\\f\\n\\r\\t\"}",
    )
    .unwrap();
    assert_eq!(m.user_id, "\"q\\/");
    assert_eq!(m.content, "\u{8}\u{c}\n\r\t");
}

#[test]
fn parse_unicode_escapes() {
    let m = parse_message("{\"user_id\":\"\\u0041\\u00e9\",\"content\":\"\\u20aC\"}").unwrap();
    assert_eq!(m.user_id, "A\u{e9}");
    assert_eq!(m.content, "\u{20ac}");
}

#[test]
fn parse_rejects_surrogate_escape() {
    assert!(parse_message("{\"user_id\":\"\\ud800\",\"content\":\"x\"}").is_none());
}

#[test]
fn parse_rejects_malformed() {
    assert!(parse_message("").is_none());
    assert!(parse_message("hi there").is_none());
    assert!(parse_message("{}").is_none());
    assert!(parse_message("{\"user_id\":\"a\"}").is_none());
    assert!(parse_message("{\"content\":\"hi\"}").is_none());
    assert!(parse_message("{\"user_id\":\"a\",\"content\":\"hi\"").is_none());
    assert!(parse_message("{\"user_id\":\"a\",\"content\":\"hi\"}}").is_none());
    assert!(parse_message("{\"user_id\":\"a\",\"content\":\"hi\",}").is_none());
    assert!(parse_message("{\"user_id\":\"a\",\"user_id\":\"b\",\"content\":\"hi\"}").is_none());
    assert!(parse_message("{\"user_id\":\"a\",\"content\":\"hi\",\"extra\":\"z\"}").is_none());
    assert!(parse_message("{\"user_id\":\"a\",\"content\":7}").is_none());
    assert!(parse_message("{\"user_id\":\"a\",\"content\":\"\\q\"}").is_none());
    assert!(parse_message("{\"user_id\":\"a\",\"content\":\"\\u12\"}").is_none());
    assert!(parse_message("{\"user_id\":\"a\",\"content\":\"open").is_none());
}

#[test]
fn serialize_exact_frame() {
    let frame = serialize_message(&msg("a", "2024-01-01T00:00:00+00:00", "hi"));
    assert_eq!(
        frame,
        "{\"user_id\":\"a\",\"timestamp\":\"2024-01-01T00:00:00+00:00\",\"content\":\"hi\"}"
    );
}

#[test]
fn serialize_escapes_specials() {
    let frame = serialize_message(&msg("a\"b", "T", "line1\nline2\t\\end\r"));
    assert_eq!(
        frame,
        "{\"user_id\":\"a\\\"b\",\"timestamp\":\"T\",\"content\":\"line1\\nline2\\t\\\\end\\r\"}"
    );
}

#[test]
fn round_trip_recovers_fields() {
    let original = msg("user \"7\"\\", "2024-06-01T10:20:30.400+00:00", "a\nmulti\tline \u{e9}\u{20ac} message");
    let back = parse_message(&serialize_message(&original)).unwrap();
    assert_eq!(back.user_id, original.user_id);
    assert_eq!(back.timestamp, original.timestamp);
    assert_eq!(back.content, original.content);
}

#[test]
fn serialized_frame_is_json_for_serde() {
    let frame = serialize_message(&msg("ann", "2024-01-02T03:04:05+00:00", "hello\nworld"));
    let val: serde_json::Value = serde_json::from_str(&frame).unwrap();
    assert_eq!(val["user_id"].as_str().unwrap(), "ann");
    assert_eq!(val["timestamp"].as_str().unwrap(), "2024-01-02T03:04:05+00:00");
    assert_eq!(val["content"].as_str().unwrap(), "hello\nworld");
}

#[test]
fn parses_what_serde_serializes() {
    let mut map = serde_json::Map::new();
    map.insert("user_id".to_string(), serde_json::Value::String("bob".to_string()));
    map.insert(
        "timestamp".to_string(),
        serde_json::Value::String("2024-01-02T03:04:05+00:00".to_string()),
    );
    map.insert("content".to_string(), serde_json::Value::String("caf\u{e9} \"x\"".to_string()));
    let text = serde_json::to_string(&serde_json::Value::Object(map)).unwrap();
    let m = parse_message(&text).unwrap();
    assert_eq!(m.user_id, "bob");
    assert_eq!(m.timestamp, "2024-01-02T03:04:05+00:00");
    assert_eq!(m.content, "caf\u{e9} \"x\"");
}

#[test]
fn empty_fields_round_trip() {
    let m = parse_message("{\"user_id\":\"\",\"content\":\"\"}").unwrap();
    assert_eq!(m.user_id, "");
    assert_eq!(m.content, "");
    let frame = serialize_message(&msg("", "", ""));
    assert_eq!(frame, "{\"user_id\":\"\",\"timestamp\":\"\",\"content\":\"\"}");
    let back = parse_message(&frame).unwrap();
    assert_eq!(back.user_id, "");
    assert_eq!(back.timestamp, "");
    assert_eq!(back.content, "");
}

#[test]
fn same_as_compares_fields() {
    let a = msg("u", "t", "c");
    let b = msg("u", "t", "c");
    let d = msg("u", "t", "other");
    assert!(a.same_as(&b));
    assert!(!a.same_as(&d));
}
