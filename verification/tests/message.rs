use argus::message::{extract_argus_raw_message, Handler, HandlerAction, JsonValue, ScriptMessage};

fn other(entries: Vec<(&str, JsonValue)>) -> ScriptMessage {
    ScriptMessage::Other(JsonValue::Object(
        entries.into_iter().map(|(k, v)| (k.to_string(), v)).collect(),
    ))
}

#[test]
fn raw_message_is_taken_from_data() {
    let raw = "{\"type\":\"send\",\"payload\":{}}";
    let m = other(vec![
        ("error", JsonValue::String("invalid type".to_string())),
        ("data", JsonValue::String(raw.to_string())),
    ]);
    assert_eq!(extract_argus_raw_message(&m), Some(raw.to_string()));
}

#[test]
fn non_string_data_is_not_forwarded() {
    let m = other(vec![("data", JsonValue::Number("3".to_string()))]);
    assert_eq!(extract_argus_raw_message(&m), None);
    let m = ScriptMessage::Other(JsonValue::Array(vec![]));
    assert_eq!(extract_argus_raw_message(&m), None);
    assert_eq!(extract_argus_raw_message(&ScriptMessage::Log), None);
}

#[test]
fn first_member_wins() {
    let v = JsonValue::Object(vec![
        ("data".to_string(), JsonValue::String("first".to_string())),
        ("data".to_string(), JsonValue::String("second".to_string())),
    ]);
    assert!(matches!(v.get("data"), Some(JsonValue::String(s)) if s == "first"));
    assert!(v.get("missing").is_none());
}

#[test]
fn handler_forwards_or_reports() {
    let mut h = Handler;
    let m = other(vec![("data", JsonValue::String("x".to_string()))]);
    assert!(matches!(h.on_message(m, None), HandlerAction::Forward(s) if s == "x"));
    let r = h.on_message(ScriptMessage::Send, Some(vec![1, 2]));
    assert!(matches!(r, HandlerAction::Report(Some(d)) if d == vec![1, 2]));
}
