use pi_web::api::session_state::{to_client_event, SessionState};
use pi_web::json::{JsonNumber, JsonValue};
use serde_json::Value;

fn from_serde(v: &Value) -> JsonValue {
    match v {
        Value::Null => JsonValue::Null,
        Value::Bool(b) => JsonValue::Bool(*b),
        Value::Number(n) => match (n.as_u64(), n.as_i64()) {
            (Some(u), _) => JsonValue::Number(JsonNumber::PosInt(u)),
            (None, Some(i)) => JsonValue::Number(JsonNumber::NegInt(i)),
            _ => JsonValue::Number(JsonNumber::Float(n.to_string())),
        },
        Value::String(s) => JsonValue::Str(s.clone()),
        Value::Array(items) => JsonValue::Array(items.iter().map(from_serde).collect()),
        Value::Object(m) => JsonValue::Object(m.iter().map(|(k, v)| (k.clone(), from_serde(v))).collect()),
    }
}

fn ev(json_str: &str) -> JsonValue {
    from_serde(&serde_json::from_str::<Value>(json_str).expect("agent event json"))
}

fn text(s: &str) -> JsonValue {
    JsonValue::Str(s.to_string())
}

#[test]
fn to_client_event_omits_high_frequency() {
    assert!(to_client_event(ev(r#"{"type":"turn_start","sessionId":"s"}"#)).is_none());
    assert!(to_client_event(ev(r#"{"type":"tool_execution_update","toolCallId":"t"}"#)).is_none());
}

#[test]
fn to_client_event_projects_message_update() {
    let out = to_client_event(ev(
        r#"{"type":"message_update","sessionId":"s","assistantMessageEvent":{"partial":true,"content":[{"type":"text","text":"hi"}]}}"#,
    ))
    .expect("projected");
    assert_eq!(out.get("type"), Some(&text("message_update")));
    let ame = out.get("assistantMessageEvent").expect("event");
    assert!(ame.get("partial").is_none());
    match ame.get("content") {
        Some(JsonValue::Array(blocks)) => assert_eq!(blocks[0].get("text"), Some(&text("hi"))),
        other => panic!("content: {:?}", other),
    }
}

#[test]
fn to_client_event_folds_agent_end_and_passthrough() {
    let out = to_client_event(ev(r#"{"type":"agent_end","sessionId":"s","messages":[]}"#)).expect("folded");
    assert_eq!(out, JsonValue::Object(vec![("type".to_string(), text("agent_end"))]));
    let out = to_client_event(ev(r#"{"type":"agent_start","sessionId":"s"}"#)).expect("kept");
    assert_eq!(out.get("type"), Some(&text("agent_start")));
}

#[test]
fn message_update_without_event_object_is_dropped() {
    assert!(to_client_event(ev(r#"{"type":"message_update"}"#)).is_none());
    assert!(to_client_event(ev(r#"{"type":"message_update","assistantMessageEvent":3}"#)).is_none());
    assert!(to_client_event(JsonValue::Null).is_some());
}

#[test]
fn snap_state_shape_for_reconcile() {
    let mut snap = SessionState::new();
    snap.session_id = Some("s1".into());
    snap.is_prompt_running = true;
    snap.is_streaming = true;
    snap.queue_steering("a".to_string());
    snap.model_provider = Some("p".into());
    snap.model_id = Some("m".into());
    let v = snap.to_state_json();
    assert_eq!(v.get("sessionId"), Some(&text("s1")));
    assert_eq!(v.get("isStreaming"), Some(&JsonValue::Bool(true)));
    assert_eq!(v.get("isPromptRunning"), Some(&JsonValue::Bool(true)));
    assert_eq!(
        v.get("queuedMessages").and_then(|q| q.get("steering")),
        Some(&JsonValue::Array(vec![text("a")]))
    );
    assert_eq!(v.get("model").and_then(|m| m.get("id")), Some(&text("m")));
    assert_eq!(v.get("thinkingLevel"), Some(&text("off")));
}

#[test]
fn queues_keep_order_and_clear() {
    let mut s = SessionState::new();
    s.queue_steering("s1".to_string());
    s.queue_follow_up("f1".to_string());
    s.queue_steering("s2".to_string());
    let update = s.queue_update_event();
    assert_eq!(update.get("type"), Some(&text("queue_update")));
    assert_eq!(update.get("steering"), Some(&JsonValue::Array(vec![text("s1"), text("s2")])));
    let (steering, follow_up) = s.clear_queues();
    assert_eq!(steering, vec!["s1".to_string(), "s2".to_string()]);
    assert_eq!(follow_up, vec!["f1".to_string()]);
    assert!(s.queued_steering.is_empty() && s.queued_follow_up.is_empty());
    let state = s.to_state_json();
    assert_eq!(state.get("model"), Some(&JsonValue::Null));
    s.model_provider = Some("p".into());
    s.model_id = Some("m".into());
    s.thinking_level = Some("high".into());
    assert_eq!(s.to_state_json().get("thinkingLevel"), Some(&text("high")));
}
