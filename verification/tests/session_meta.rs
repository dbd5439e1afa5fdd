use pi_web::api::session_meta::{
    export_inline, file_stem, header_model, thinking_answer, thinking_request, is_child_session, session_header, session_id_arg, session_leaf_id,
    session_not_found, session_summary_value, success_answer, SessionHeader,
};
use pi_web::api::export::export_response_headers;
use pi_web::api::types::ApiError;
use pi_web::json::{JsonNumber, JsonValue};

fn s(v: &str) -> JsonValue {
    JsonValue::Str(v.to_string())
}

fn obj(pairs: Vec<(&str, JsonValue)>) -> JsonValue {
    JsonValue::Object(pairs.into_iter().map(|(k, v)| (k.to_string(), v)).collect())
}

fn get<'a>(v: &'a JsonValue, key: &str) -> Option<&'a JsonValue> {
    v.get(key)
}

fn header(id: &str) -> SessionHeader {
    SessionHeader {
        id: id.to_string(),
        cwd: "/work".to_string(),
        timestamp: "2026-08-16T00:00:00.000Z".to_string(),
        provider: None,
        model_id: None,
        leaf_id: None,
        branched_from: None,
    }
}

fn user_msg(id: &str, parent: &str, text: &str) -> JsonValue {
    obj(vec![
        ("type", s("message")),
        ("id", s(id)),
        ("parentId", s(parent)),
        ("message", obj(vec![("role", s("user")), ("content", s(text))])),
    ])
}

#[test]
fn error_body_is_json_error_shape() {
    let err = ApiError::not_found("no route: GET /api/nope");
    assert_eq!(err.status, 404);
    let body = err.error_body();
    assert_eq!(body, obj(vec![("error", s("no route: GET /api/nope"))]));
}

#[test]
fn header_reads_session_records_only() {
    let h = session_header(&obj(vec![
        ("type", s("session")),
        ("id", s("uuid-1234")),
        ("cwd", s("/work")),
        ("timestamp", s("2026-08-16T00:00:00.000Z")),
        ("leafId", s("e9")),
        ("branchedFrom", JsonValue::Null),
        ("extra", JsonValue::Bool(true)),
    ]))
    .unwrap();
    assert_eq!(h.id, "uuid-1234");
    assert_eq!(h.cwd, "/work");
    assert_eq!(h.leaf_id.as_deref(), Some("e9"));
    assert_eq!(h.branched_from, None);
    assert_eq!(h.provider, None);

    let minimal = session_header(&obj(vec![("type", s("session")), ("id", s("x"))])).unwrap();
    assert_eq!((minimal.cwd.as_str(), minimal.timestamp.as_str()), ("", ""));

    assert!(session_header(&obj(vec![("type", s("message")), ("id", s("x"))])).is_none());
    assert!(session_header(&obj(vec![("type", s("session"))])).is_none());
    assert!(session_header(&obj(vec![("type", s("session")), ("id", JsonValue::Bool(true))])).is_none());
    assert!(session_header(&obj(vec![("type", s("session")), ("id", s("x")), ("cwd", JsonValue::Null)])).is_none());
    assert!(session_header(&obj(vec![
        ("type", s("session")),
        ("id", s("x")),
        ("leafId", JsonValue::Number(JsonNumber::PosInt(3))),
    ]))
    .is_none());
    assert!(session_header(&s("session")).is_none());
}

#[test]
fn leaf_is_header_leaf_or_last_entry_id() {
    let entries = vec![user_msg("e1", "h", "a"), obj(vec![("type", s("custom"))]), user_msg("e2", "e1", "b")];
    assert_eq!(session_leaf_id(&header("h"), &entries).as_deref(), Some("e2"));
    let mut h = header("h");
    h.leaf_id = Some("e1".to_string());
    assert_eq!(session_leaf_id(&h, &entries).as_deref(), Some("e1"));
    assert_eq!(session_leaf_id(&header("h"), &Vec::new()), None);
}

#[test]
fn summary_shape() {
    let entries = vec![
        user_msg("e1", "uuid-get", "hello spike"),
        obj(vec![("type", s("compaction")), ("id", s("c1"))]),
        obj(vec![("type", s("session_info")), ("name", s("first name"))]),
        obj(vec![("type", s("model_change")), ("id", s("m1"))]),
        obj(vec![("type", s("session_info")), ("name", s("renamed"))]),
        user_msg("e3", "e1", "next turn"),
    ];
    let mut h = header("uuid-get");
    h.branched_from = Some("/s/parent-file.jsonl".to_string());
    let info = session_summary_value("/s/a.jsonl", &h, &entries, None);
    let expected = obj(vec![
        ("created", s("2026-08-16T00:00:00.000Z")),
        ("cwd", s("/work")),
        ("firstMessage", s("hello spike")),
        ("id", s("uuid-get")),
        ("messageCount", JsonValue::Number(JsonNumber::PosInt(3))),
        ("modified", s("2026-08-16T00:00:00.000Z")),
        ("name", s("renamed")),
        ("parentSessionId", s("parent-file")),
        ("path", s("/s/a.jsonl")),
        ("projectRoot", s("/work")),
    ]);
    assert_eq!(info, expected);
}

#[test]
fn summary_without_user_first_message() {
    let entries = vec![obj(vec![
        ("type", s("message")),
        ("message", obj(vec![("role", s("assistant")), ("content", s("hi"))])),
    ])];
    let mut h = header("h");
    h.branched_from = Some("/".to_string());
    let info = session_summary_value("/p", &h, &entries, Some("2027-01-01T00:00:00+00:00"));
    assert_eq!(get(&info, "firstMessage"), Some(&s("(no messages)")));
    assert_eq!(get(&info, "modified"), Some(&s("2027-01-01T00:00:00+00:00")));
    assert_eq!(get(&info, "parentSessionId"), None);
    assert_eq!(get(&info, "name"), None);
    assert_eq!(get(&info, "messageCount"), Some(&JsonValue::Number(JsonNumber::PosInt(1))));
}

#[test]
fn summary_names_parent_by_file_stem() {
    let mut h = header("child");
    h.branched_from = Some("/home/u/.pi/sessions/--work--/2026-08-16_parent.jsonl".to_string());
    let info = session_summary_value("/c.jsonl", &h, &Vec::new(), None);
    assert_eq!(get(&info, "parentSessionId"), Some(&s("2026-08-16_parent")));
    assert_eq!(get(&info, "firstMessage"), Some(&s("(no messages)")));
    let info = session_summary_value("/c.jsonl", &header("solo"), &Vec::new(), None);
    assert_eq!(get(&info, "parentSessionId"), None);
}

#[test]
fn file_stems() {
    assert_eq!(file_stem("/a/b/name.jsonl").as_deref(), Some("name"));
    assert_eq!(file_stem("archive.tar.gz").as_deref(), Some("archive.tar"));
    assert_eq!(file_stem("/home/.bashrc").as_deref(), Some(".bashrc"));
    assert_eq!(file_stem("dir/plain/").as_deref(), Some("plain"));
    assert_eq!(file_stem("name.").as_deref(), Some("name"));
    assert_eq!(file_stem("/"), None);
    assert_eq!(file_stem("a/.."), None);
    assert_eq!(file_stem(""), None);
}

#[test]
fn session_command_arguments() {
    let e = session_id_arg(&obj(vec![("id", s("  "))])).unwrap_err();
    assert_eq!((e.status, e.message.as_str()), (400, "id is required"));
    assert_eq!(session_id_arg(&obj(vec![("id", s(" abc "))])).unwrap(), "abc");
    let e = session_not_found("abc");
    assert_eq!((e.status, e.message.as_str()), (404, "session not found: abc"));
    let mut h = header("h");
    assert_eq!(header_model(&h), None);
    h.provider = Some("acme".to_string());
    h.model_id = Some(String::new());
    assert_eq!(header_model(&h), None);
    h.model_id = Some("m1".to_string());
    assert_eq!(header_model(&h), Some(("acme".to_string(), "m1".to_string())));
    h.branched_from = Some("/s/p.jsonl".to_string());
    assert!(is_child_session(&h, "/s/p.jsonl"));
    assert!(!is_child_session(&h, "/s/q.jsonl"));
    assert!(!is_child_session(&header("x"), "/s/p.jsonl"));
    assert_eq!(success_answer(), obj(vec![("success", JsonValue::Bool(true))]));
}

fn assistant_entry(id: &str, content: JsonValue) -> JsonValue {
    obj(vec![
        ("type", s("message")),
        ("id", s(id)),
        ("message", obj(vec![("role", s("assistant")), ("content", content)])),
    ])
}

#[test]
fn thinking_request_arguments() {
    let e = thinking_request(&obj(vec![("id", s("a")), ("entryId", s("b"))])).unwrap_err();
    assert_eq!((e.status, e.message.as_str()), (400, "Valid blockIndex is required"));
    let e = thinking_request(&obj(vec![("id", s("a")), ("entryId", s("b")), ("blockIndex", JsonValue::Number(JsonNumber::NegInt(-1)))])).unwrap_err();
    assert_eq!(e.status, 400);
    let e = thinking_request(&obj(vec![("id", s("a")), ("blockIndex", JsonValue::Number(JsonNumber::PosInt(0)))])).unwrap_err();
    assert_eq!((e.status, e.message.as_str()), (400, "id and entryId are required"));
    let (id, entry, b) =
        thinking_request(&obj(vec![("id", s(" a ")), ("entryId", s("e1")), ("blockIndex", JsonValue::Number(JsonNumber::PosInt(2)))]))
            .unwrap();
    assert_eq!((id.as_str(), entry.as_str(), b), ("a", "e1", 2));
}

#[test]
fn thinking_blocks() {
    let entries = vec![
        user_msg("u1", "h", "hello"),
        assistant_entry(
            "a1",
            JsonValue::Array(vec![
                obj(vec![("type", s("text")), ("text", s("answer"))]),
                obj(vec![("type", s("thinking")), ("thinking", s("pondering"))]),
                obj(vec![("type", s("thinking"))]),
            ]),
        ),
        obj(vec![("type", s("message")), ("id", s("bare"))]),
        assistant_entry("a2", s("plain text")),
    ];
    assert_eq!(thinking_answer(&entries, "a1", 1).unwrap(), obj(vec![("thinking", s("pondering"))]));
    assert_eq!(thinking_answer(&entries, "a1", 2).unwrap(), obj(vec![("thinking", s(""))]));
    let cases = [
        ("zz", 0, "entry not found: zz"),
        ("bare", 0, "entry has no message"),
        ("u1", 0, "entry u1 is not an assistant message"),
        ("a2", 0, "entry has no content array"),
        ("a1", 3, "block 3 out of range in entry a1"),
        ("a1", 0, "block 0 is not a thinking block"),
    ];
    for (id, b, msg) in cases {
        let e = thinking_answer(&entries, id, b).unwrap_err();
        assert_eq!((e.status, e.message.as_str()), (404, msg));
    }
}

#[test]
fn export_inline_flag() {
    assert!(export_inline(&obj(vec![("inline", s("1"))])));
    assert!(export_inline(&obj(vec![("inline", JsonValue::Number(JsonNumber::PosInt(1)))])));
    assert!(!export_inline(&obj(vec![("inline", s("true"))])));
    assert!(!export_inline(&obj(vec![("inline", JsonValue::Number(JsonNumber::PosInt(2)))])));
    assert!(!export_inline(&obj(vec![])));
    let headers = export_response_headers("pi-session-a.html", true);
    assert_eq!(headers.len(), 6);
    assert_eq!(headers[0], ("Content-Type".to_string(), "text/html; charset=utf-8".to_string()));
    assert_eq!(headers[1].0, "Content-Disposition");
    assert!(headers[1].1.starts_with("inline"));
    assert_eq!(headers[5], ("X-Frame-Options".to_string(), "DENY".to_string()));
}
