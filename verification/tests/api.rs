use pi_web::api::export::{
    export_session_html, generate_export_html, session_data, session_jsonl_records, theme_vars, ExportAssets,
    content_disposition, encode_header_value, export_file_name, js_replace, patch_export_html,
    replace_required, MAP_NODES_REPLACEMENT, MAP_NODES_SEARCH, MARK_ACTIVE_REPLACEMENT,
    MARK_ACTIVE_SEARCH, SORT_CHILDREN_REPLACEMENT, SORT_CHILDREN_SEARCH,
};
use pi_web::api::files::{
    document_preview_kind, extension_of, find, is_text_extension, language_for_extension,
    language_for_path, mime_for, parse_multipart, parse_multipart_checked, preview_kind,
    resolve_path,
};
use pi_web::api::routes::{
    match_pattern, match_route, normalize_path, query_to_args, resolve, url_decode, TimeoutClass,
    TimeoutConfig,
};
use pi_web::api::commands::{
    check_cwd_allowed, check_cwd_to_validate, check_directory, default_cwd_name, str_arg,
};
use pi_web::api::models::{
    discovery_fetch_error, discovery_headers, discovery_request, upstream_status_error,
};
use pi_web::api::rpc::{decode_rpc, rpc_failure_body, rpc_success, session_rejection_body, RpcRequest};
use pi_web::api::sessions::{
    generated_title, reparented_header, replace_first_line, session_info_entry, session_messages,
    user_first_text,
};
use pi_web::json::{JsonNumber, JsonValue};
use pi_web::api::types::{ApiError, FetchResponse, FetchSpec};

#[test]
fn path_normalization() {
    assert_eq!(normalize_path("/api/home/"), "/api/home");
    assert_eq!(normalize_path(""), "/");
    assert_eq!(normalize_path("/"), "/");
    assert_eq!(normalize_path("/api/home"), "/api/home");
}

#[test]
fn timeouts_by_class() {
    let t = TimeoutConfig::standard();
    assert_eq!(t.for_class(TimeoutClass::Default), 60_000);
    assert_eq!(t.for_class(TimeoutClass::Long), 300_000);
}

#[test]
fn url_decoding() {
    assert_eq!(url_decode("a%20b+c"), "a b c");
    assert_eq!(url_decode("%E4%BD%A0"), "你");
    assert_eq!(url_decode("100%"), "100%");
    assert_eq!(url_decode("%zz"), "%zz");
    assert_eq!(url_decode("%ff"), "\u{fffd}");
}

#[test]
fn patterns_capture_parameters() {
    assert_eq!(
        match_pattern("/api/sessions/:id/context", "/api/sessions/a%2Fb/context"),
        Some(vec![("id".to_string(), "a/b".to_string())])
    );
    assert_eq!(
        match_pattern("/api/files/*path", "/api/files/x/y%20z"),
        Some(vec![("path".to_string(), "x/y z".to_string())])
    );
    assert_eq!(
        match_pattern("/api/files/*path", "/api/files"),
        Some(vec![("path".to_string(), "".to_string())])
    );
    assert_eq!(match_pattern("/api/home", "/api/home/x"), None);
    assert_eq!(match_pattern("/api/:id", "/api"), None);
}

#[test]
fn routes_resolve_commands() {
    let m = match_route("GET", "/api/agent/abc/").unwrap();
    assert_eq!(m.command, "agent_get_state");
    assert_eq!(m.params, vec![("id".to_string(), "abc".to_string())]);
    assert_eq!(m.timeout_class, TimeoutClass::Default);
    assert_eq!(match_route("GET", "/api/agent/running").unwrap().command, "agent_running");
    assert!(match_route("POST", "/api/agent/running").is_none());
    assert!(match_route("DELETE", "/api/home").is_none());
    assert_eq!(match_route("PUT", "/api/models-config").unwrap().command, "models_config_put");
    assert_eq!(match_route("POST", "/api/files/a/b").unwrap().command, "files");
}

#[test]
fn api_errors() {
    assert_eq!(ApiError::not_found("x"), ApiError { status: 404, message: "x".to_string() });
    assert_eq!(ApiError::internal("y").status, 500);
    assert_eq!(ApiError::timeout().message, "request timed out");
    assert_eq!(ApiError::unavailable().status, 503);
    assert_eq!(ApiError::new(418, "tea").message, "tea");
}

#[test]
fn fetch_values() {
    let f = FetchSpec::get_json("http://x".to_string(), 5000);
    assert_eq!(f.headers, vec![("accept".to_string(), "application/json".to_string())]);
    assert_eq!(f.timeout_ms, 5000);
    let r = FetchResponse { status: 200, body: b"ok \xff".to_vec() };
    assert_eq!(r.text(), "ok \u{fffd}");
}

#[test]
fn js_replace_semantics() {
    assert_eq!(js_replace("a{{X}}b", "{{X}}", "1$$2"), "a1$2b");
    assert_eq!(js_replace("a{{X}}b", "{{X}}", "[$&]"), "a[{{X}}]b");
    assert_eq!(js_replace("a{{X}}b", "{{X}}", "$`|$'"), "aa|bb");
    assert_eq!(js_replace("a{{X}}b", "{{X}}", "$z"), "a$zb");
    assert_eq!(js_replace("abc", "{{X}}", "$$"), "abc");
}

#[test]
fn js_replace_first_only_and_trailing_dollar() {
    assert_eq!(js_replace("xx", "x", "y$"), "y$x");
    assert_eq!(js_replace("abc", "", "-"), "-abc");
}

#[test]
fn content_disposition_shape() {
    let d = content_disposition("pi-session-2026-a1b2c3d4.html", true);
    assert_eq!(
        d,
        "inline; filename=\"pi-session-2026-a1b2c3d4.html\"; filename*=UTF-8''pi-session-2026-a1b2c3d4.html"
    );
    let d = content_disposition("café.html", false);
    assert!(d.starts_with("attachment; filename=\"caf_.html\""));
    assert!(d.ends_with("filename*=UTF-8''caf%C3%A9.html"));
}

#[test]
fn header_values_and_file_names() {
    assert_eq!(encode_header_value("a b(c)"), "a%20b%28c%29");
    assert_eq!(
        content_disposition("", true),
        "inline; filename=\"session.html\"; filename*=UTF-8''"
    );
    assert_eq!(export_file_name("/s/2026/abc.jsonl"), "pi-session-abc.html");
    assert_eq!(export_file_name("/s/notes.txt"), "pi-session-notes.txt.html");
    assert_eq!(export_file_name("/s/.."), "pi-session-session.html");
    assert_eq!(export_file_name("/s/x.jsonl/."), "pi-session-x.html");
}

#[test]
fn required_replacement_counts_matches() {
    assert_eq!(replace_required("a-b-c".to_string(), "dash", "b", "B"), Ok("a-B-c".to_string()));
    assert_eq!(
        replace_required("a-b-b".to_string(), "bee", "b", "B"),
        Err("Failed to patch exported HTML: bee expected 1 match, found 2".to_string())
    );
    assert_eq!(
        replace_required("aaaa".to_string(), "aa", "aa", "x"),
        Err("Failed to patch exported HTML: aa expected 1 match, found 2".to_string())
    );
    assert_eq!(
        replace_required("abc".to_string(), "none", "z", "x"),
        Err("Failed to patch exported HTML: none expected 1 match, found 0".to_string())
    );
}

#[test]
fn export_patch_replaces_tree_functions() {
    let page = format!(
        "<script>\r\n{}\r\n{}\r\n{}\r\n</script>",
        SORT_CHILDREN_SEARCH, MAP_NODES_SEARCH, MARK_ACTIVE_SEARCH
    );
    let patched = patch_export_html(&page).unwrap();
    assert_eq!(
        patched,
        format!(
            "<script>\n{}\n{}\n{}\n</script>",
            SORT_CHILDREN_REPLACEMENT, MAP_NODES_REPLACEMENT, MARK_ACTIVE_REPLACEMENT
        )
    );
    assert!(patched.contains("const stack = [root];"));
    assert_eq!(
        patch_export_html("<html></html>"),
        Err("Failed to patch exported HTML: sortChildren expected 1 match, found 0".to_string())
    );
}

#[test]
fn byte_search() {
    assert_eq!(find(b"abcabc", b"bc", 0), Some(1));
    assert_eq!(find(b"abcabc", b"bc", 2), Some(4));
    assert_eq!(find(b"abc", b"", 0), None);
    assert_eq!(find(b"abc", b"c", 3), None);
}

#[test]
fn multipart_file_parts() {
    let body = b"--XYZ\r\nContent-Disposition: form-data; name=\"files\"; filename=\"a.txt\"\r\nContent-Type: text/plain\r\n\r\nhello\r\n--XYZ\r\nContent-Disposition: form-data; name=\"field\"\r\n\r\nvalue\r\n--XYZ--\r\n";
    let parts = parse_multipart("multipart/form-data; boundary=XYZ", body).unwrap();
    assert_eq!(parts, vec![("a.txt".to_string(), b"hello".to_vec())]);
    let parts = parse_multipart("multipart/form-data; boundary=\"XYZ\"", body).unwrap();
    assert_eq!(parts.len(), 1);
    assert_eq!(parse_multipart("multipart/form-data", body), Err("missing boundary".to_string()));
    assert_eq!(
        parse_multipart("multipart/form-data; boundary=QQ", body),
        Err("boundary not found".to_string())
    );
    assert_eq!(
        parse_multipart("multipart/form-data; boundary=XYZ", b"--XYZ\r\nno blank line"),
        Err("malformed part header".to_string())
    );
    assert_eq!(
        parse_multipart("multipart/form-data; boundary=XYZ", b"--XYZ\r\nA: b\r\n\r\ndata"),
        Err("unterminated part".to_string())
    );
}

#[test]
fn multipart_empty_file_part_is_refused() {
    let body = b"--B\r\nContent-Disposition: form-data; filename=\"e\"\r\n\r\n--B--";
    assert_eq!(parse_multipart_checked("multipart/form-data; boundary=B", body), None);
}

#[test]
fn kinds_by_extension() {
    assert_eq!(extension_of("/a/b/Photo.PNG"), "png".chars().collect::<Vec<_>>());
    assert_eq!(extension_of("/a/.env"), Vec::<char>::new());
    assert_eq!(extension_of("/a/noext"), Vec::<char>::new());
    assert_eq!(preview_kind("/x/a.svg"), "image");
    assert_eq!(preview_kind("/x/a.mkv"), "video");
    assert_eq!(preview_kind("/x/a.7z"), "archive");
    assert_eq!(preview_kind("/x/a.rs"), "text");
    assert_eq!(preview_kind("/x/a.exe"), "binary");
    assert_eq!(preview_kind("/x/Makefile"), "text");
    assert!(is_text_extension(&"".chars().collect()));
    assert!(!is_text_extension(&"woff2".chars().collect()));
    assert_eq!(mime_for("a.aac"), "audio/mp4");
    assert_eq!(mime_for("a.unknown"), "text/plain");
    assert_eq!(document_preview_kind("a.docx"), Some("docx"));
    assert_eq!(document_preview_kind("a.doc"), None);
}

#[test]
fn languages() {
    assert_eq!(language_for_extension(&"tsx".chars().collect()), "typescript");
    assert_eq!(language_for_extension(&"zzz".chars().collect()), "text");
    assert_eq!(language_for_path("/p/Dockerfile.dev"), "dockerfile");
    assert_eq!(language_for_path("/p/.env.local"), "bash");
    assert_eq!(language_for_path("/p/GNUmakefile"), "makefile");
    assert_eq!(language_for_path("/p/main.RS"), "rust");
    assert_eq!(resolve_path("~/a/../b", "/home/u", "/"), "/home/u/b");
}

fn members(v: &JsonValue) -> Vec<(String, JsonValue)> {
    match v {
        JsonValue::Object(es) => es.iter().map(|(k, v)| (k.clone(), copy_value(v))).collect(),
        other => panic!("not an object: {:?}", other),
    }
}

fn copy_value(v: &JsonValue) -> JsonValue {
    match v {
        JsonValue::Null => JsonValue::Null,
        JsonValue::Bool(b) => JsonValue::Bool(*b),
        JsonValue::Number(n) => JsonValue::Number(n.clone()),
        JsonValue::Str(s) => JsonValue::Str(s.clone()),
        JsonValue::Array(items) => JsonValue::Array(items.iter().map(copy_value).collect()),
        JsonValue::Object(es) => {
            JsonValue::Object(es.iter().map(|(k, v)| (k.clone(), copy_value(v))).collect())
        }
    }
}

fn member<'a>(v: &'a JsonValue, key: &str) -> Option<&'a JsonValue> {
    v.get(key)
}

#[test]
fn query_arguments_are_typed() {
    let args = query_to_args("a=1&b=x&c=true&d=false&e=-5&f&&g=%20y+z");
    assert_eq!(member(&args, "a"), Some(&JsonValue::Number(JsonNumber::PosInt(1))));
    assert_eq!(member(&args, "b"), Some(&JsonValue::Str("x".to_string())));
    assert_eq!(member(&args, "c"), Some(&JsonValue::Bool(true)));
    assert_eq!(member(&args, "d"), Some(&JsonValue::Bool(false)));
    assert_eq!(member(&args, "e"), Some(&JsonValue::Number(JsonNumber::NegInt(-5))));
    assert_eq!(member(&args, "f"), Some(&JsonValue::Str(String::new())));
    assert_eq!(member(&args, "g"), Some(&JsonValue::Str(" y z".to_string())));
    assert_eq!(members(&args).len(), 7);
}

#[test]
fn query_later_key_wins() {
    let args = query_to_args("k=1&k=2");
    assert_eq!(members(&args), vec![("k".to_string(), JsonValue::Number(JsonNumber::PosInt(2)))]);
    assert_eq!(members(&query_to_args("")), vec![]);
    let big = query_to_args("n=99999999999999999999");
    assert_eq!(member(&big, "n"), Some(&JsonValue::Str("99999999999999999999".to_string())));
}

#[test]
fn resolve_merges_query_body_and_params() {
    let body = JsonValue::Object(vec![
        ("message".to_string(), JsonValue::Str("hi".to_string())),
        ("id".to_string(), JsonValue::Str("from-body".to_string())),
    ]);
    let d = resolve("POST", "/api/agent/abc", "x=1", Some(body)).expect("route");
    assert_eq!(d.command, "agent_rpc");
    assert_eq!(d.timeout_class, TimeoutClass::Default);
    assert_eq!(member(&d.args, "x"), Some(&JsonValue::Number(JsonNumber::PosInt(1))));
    assert_eq!(member(&d.args, "message"), Some(&JsonValue::Str("hi".to_string())));
    assert_eq!(member(&d.args, "id"), Some(&JsonValue::Str("abc".to_string())));

    let get_body = JsonValue::Object(vec![("message".to_string(), JsonValue::Bool(true))]);
    let g = resolve("GET", "/api/sessions/s1", "", Some(get_body)).expect("route");
    assert_eq!(g.command, "sessions_get");
    assert_eq!(member(&g.args, "message"), None);
    assert_eq!(member(&g.args, "id"), Some(&JsonValue::Str("s1".to_string())));

    assert!(resolve("GET", "/api/agent/new", "", None).is_none());
    assert!(resolve("DELETE", "/api/home", "", None).is_none());
}

fn text_value(s: &str) -> JsonValue {
    JsonValue::Str(s.to_string())
}

fn record(kind: &str, id: Option<&str>) -> JsonValue {
    let mut es = vec![("type".to_string(), text_value(kind))];
    if let Some(id) = id {
        es.push(("id".to_string(), text_value(id)));
    }
    JsonValue::Object(es)
}

#[test]
fn session_record_lines() {
    let content = "{\"type\":\"session\"}\r\n\n   \n{\"id\":\"a\"}\r\r\n{\"id\":\"b\"}";
    assert_eq!(
        session_jsonl_records(content),
        vec!["{\"type\":\"session\"}", "{\"id\":\"a\"}", "{\"id\":\"b\"}"]
    );
    assert!(session_jsonl_records("").is_empty());
}

#[test]
fn session_data_header_entries_and_leaf() {
    let records = vec![
        Some(record("session", Some("fix-uuid-1"))),
        None,
        Some(record("message", Some("e1"))),
        Some(record("session", Some("second-header"))),
        Some(record("message", Some("e2"))),
        Some(record("message", None)),
    ];
    let data = session_data(records);
    assert_eq!(member(&data, "header").and_then(|h| h.get("id")), Some(&text_value("fix-uuid-1")));
    assert_eq!(member(&data, "leafId"), Some(&text_value("e2")));
    match member(&data, "entries") {
        Some(JsonValue::Array(es)) => {
            assert_eq!(es.len(), 4);
            assert_eq!(es[0].get("id"), Some(&text_value("e1")));
            assert_eq!(es[1].get("id"), Some(&text_value("second-header")));
        }
        other => panic!("entries: {:?}", other),
    }
    let empty = session_data(vec![]);
    assert_eq!(member(&empty, "header"), Some(&JsonValue::Null));
    assert_eq!(member(&empty, "leafId"), Some(&JsonValue::Null));
    assert_eq!(member(&empty, "entries"), Some(&JsonValue::Array(vec![])));
}

#[test]
fn user_message_first_text() {
    assert_eq!(user_first_text(&text_value("hello")), "hello");
    let blocks = JsonValue::Array(vec![
        JsonValue::Object(vec![("type".to_string(), text_value("image"))]),
        JsonValue::Object(vec![
            ("type".to_string(), text_value("text")),
            ("text".to_string(), text_value("first")),
        ]),
        JsonValue::Object(vec![
            ("type".to_string(), text_value("text")),
            ("text".to_string(), text_value("second")),
        ]),
    ]);
    assert_eq!(user_first_text(&blocks), "first");
    assert_eq!(user_first_text(&JsonValue::Array(vec![])), "");
    assert_eq!(user_first_text(&JsonValue::Null), "");
}

#[test]
fn command_arguments_and_checks() {
    let args = JsonValue::Object(vec![
        ("cwd".to_string(), text_value("  /tmp/x  ")),
        ("n".to_string(), JsonValue::Number(JsonNumber::PosInt(3))),
    ]);
    assert_eq!(str_arg(&args, "cwd"), "/tmp/x");
    assert_eq!(str_arg(&args, "n"), "");
    assert_eq!(str_arg(&args, "missing"), "");
    assert_eq!(str_arg(&JsonValue::Null, "cwd"), "");

    assert_eq!(check_cwd_to_validate("", true, true), Err(ApiError::new(400, "cwd is required")));
    assert_eq!(
        check_cwd_to_validate("/nope", false, false),
        Err(ApiError::new(404, "path does not exist: /nope"))
    );
    assert_eq!(check_directory("/f", true, false), Err(ApiError::new(400, "not a directory: /f")));
    assert_eq!(check_cwd_to_validate("/d", true, true), Ok(()));

    let roots = vec!["/home/u/proj".to_string()];
    assert_eq!(check_cwd_allowed("/home/u/proj/sub", &roots, "/"), Ok(()));
    assert_eq!(
        check_cwd_allowed("/home/u/project", &roots, "/"),
        Err(ApiError::new(403, "access denied: /home/u/project"))
    );
    assert_eq!(default_cwd_name("2024-05-01"), "pi-cwd-2024-05-01");
    assert_eq!(TimeoutConfig::default(), TimeoutConfig::standard());
}

#[test]
fn export_theme_variables() {
    let vars = theme_vars();
    assert!(vars.starts_with("--accent: #8abeb7;\n      --border: #5f87ff;\n      "));
    assert!(vars.ends_with("--exportCardBg: #1e1e24;\n      --exportInfoBg: #3c3728;"));
    assert_eq!(vars.split("\n      ").count(), 56);
    assert!(vars.contains("--bashMode: #b5bd68;\n      --exportPageBg: #18181e;"));
}

#[test]
fn export_page_fills_placeholders() {
    let assets = ExportAssets {
        template_html: "<style>{{CSS}}</style><script>{{JS}}</script><d>{{SESSION_DATA}}</d>{{MARKED_JS}}|{{HIGHLIGHT_JS}}".to_string(),
        template_css: ":root{{{THEME_VARS}}} body{background:{{BODY_BG}}} .c{{{CONTAINER_BG}}} .i{{{INFO_BG}}}".to_string(),
        template_js: "run($$)".to_string(),
        marked_js: "M".to_string(),
        highlight_js: "H".to_string(),
    };
    let page = generate_export_html("{\"a\":1}", &assets);
    assert!(page.contains("<d>eyJhIjoxfQ==</d>M|H"));
    assert!(page.contains("<script>run($)</script>"));
    assert!(page.contains("body{background:#18181e} .c{#1e1e24} .i{#3c3728}"));
    assert!(page.contains(":root{--accent: #8abeb7;"));
}

fn pairs(v: &[(String, String)]) -> Vec<(&str, &str)> {
    v.iter().map(|(k, v)| (k.as_str(), v.as_str())).collect()
}

#[test]
fn discovery_headers_by_family() {
    let none = JsonValue::Null;
    assert_eq!(
        pairs(&discovery_headers("openai-completions", Some(" sk-1 "), &none)),
        vec![("accept", "application/json"), ("authorization", "Bearer sk-1")]
    );
    assert_eq!(
        pairs(&discovery_headers("anthropic-messages", Some("k"), &none)),
        vec![("accept", "application/json"), ("x-api-key", "k"), ("anthropic-version", "2023-06-01")]
    );
    assert_eq!(
        pairs(&discovery_headers("google-generative-ai", Some("g"), &none)),
        vec![("accept", "application/json"), ("x-goog-api-key", "g")]
    );
    assert_eq!(pairs(&discovery_headers("openai-completions", Some("   "), &none)), vec![("accept", "application/json")]);
    let configured = JsonValue::Object(vec![
        ("Authorization".to_string(), text_value("Token t")),
        ("x-n".to_string(), JsonValue::Number(JsonNumber::PosInt(1))),
    ]);
    assert_eq!(
        pairs(&discovery_headers("openai-completions", Some("k"), &configured)),
        vec![("accept", "application/json"), ("Authorization", "Token t")]
    );
}

#[test]
fn discovery_request_checks_arguments() {
    let provider = |members: Vec<(&str, JsonValue)>| {
        JsonValue::Object(members.into_iter().map(|(k, v)| (k.to_string(), v)).collect())
    };
    let args = |name: &str, p: JsonValue| provider(vec![("providerName", text_value(name)), ("provider", p)]);
    assert_eq!(
        discovery_request(&args(" ", JsonValue::Null)).unwrap_err(),
        ApiError::new(400, "providerName is required")
    );
    assert_eq!(
        discovery_request(&args("p", JsonValue::Null)).unwrap_err(),
        ApiError::new(400, "provider is required")
    );
    assert_eq!(
        discovery_request(&args("p", provider(vec![("baseUrl", text_value(" "))]))).unwrap_err(),
        ApiError::new(400, "Base URL is required")
    );
    let d = discovery_request(&args(
        " p ",
        provider(vec![("baseUrl", text_value(" http://x/v1 ")), ("apiKey", text_value("k"))]),
    ))
    .unwrap();
    assert_eq!(d.provider_name, "p");
    assert_eq!(d.base_url, "http://x/v1");
    assert_eq!(d.api, "openai-completions");
    assert_eq!(d.api_key.as_deref(), Some("k"));
    assert_eq!(pairs(&d.headers), vec![("accept", "application/json"), ("authorization", "Bearer k")]);
}

#[test]
fn discovery_answer_errors() {
    assert_eq!(discovery_fetch_error("Request Timed Out"), ApiError::new(504, "Model discovery timed out"));
    assert_eq!(discovery_fetch_error("refused"), ApiError::new(502, "network error: refused"));
    assert_eq!(upstream_status_error(200, "x"), None);
    assert_eq!(upstream_status_error(404, ""), Some(ApiError::new(502, "Upstream returned HTTP 404")));
    let long = "e".repeat(600);
    assert_eq!(upstream_status_error(500, &long), Some(ApiError::new(502, &long[..500])));
}

#[test]
fn child_headers_follow_their_grandparent() {
    let header = JsonValue::Object(vec![
        ("type".to_string(), text_value("session")),
        ("branchedFrom".to_string(), text_value("/s/parent.jsonl")),
    ]);
    let moved = reparented_header(copy_value(&header), Some("/s/grand.jsonl")).unwrap();
    assert_eq!(member(&moved, "branchedFrom"), Some(&text_value("/s/grand.jsonl")));
    assert_eq!(members(&moved).len(), 2);
    let root = reparented_header(header, None).unwrap();
    assert_eq!(members(&root), vec![("type".to_string(), text_value("session"))]);
    assert_eq!(reparented_header(JsonValue::Null, Some("g")), None);
}

#[test]
fn first_line_replacement() {
    assert_eq!(replace_first_line("NEW", "old\nl2\nl3\n"), "NEW\nl2\nl3\n");
    assert_eq!(replace_first_line("NEW", "old\r\nl2\n\n\n"), "NEW\nl2\n");
    assert_eq!(replace_first_line("NEW", "only"), "NEW\n\n");
    assert_eq!(replace_first_line("NEW", ""), "NEW\n\n");
}

#[test]
fn messages_and_session_names() {
    let entry = |kind: &str, msg: Option<JsonValue>| {
        let mut es = vec![("type".to_string(), text_value(kind))];
        if let Some(m) = msg {
            es.push(("message".to_string(), m));
        }
        JsonValue::Object(es)
    };
    let msgs = session_messages(vec![
        entry("message", Some(text_value("a"))),
        entry("model_change", Some(text_value("x"))),
        entry("message", None),
        entry("message", Some(text_value("b"))),
        JsonValue::Null,
    ]);
    assert_eq!(msgs, vec![text_value("a"), text_value("b")]);

    let info = session_info_entry("e1", None, "h1", "2024-01-01T00:00:00Z", "Title");
    assert_eq!(
        members(&info),
        vec![
            ("id".to_string(), text_value("e1")),
            ("name".to_string(), text_value("Title")),
            ("parentId".to_string(), text_value("h1")),
            ("timestamp".to_string(), text_value("2024-01-01T00:00:00Z")),
            ("type".to_string(), text_value("session_info")),
        ]
    );
    let with_leaf = session_info_entry("e1", Some("leaf"), "h1", "t", "n");
    assert_eq!(member(&with_leaf, "parentId"), Some(&text_value("leaf")));
    assert_eq!(generated_title("  Fix bug  "), Ok("Fix bug".to_string()));
    assert_eq!(generated_title(" \n "), Err(ApiError::new(500, "generated title is empty")));
}

fn rpc_args(members: Vec<(&str, JsonValue)>) -> JsonValue {
    JsonValue::Object(members.into_iter().map(|(k, v)| (k.to_string(), v)).collect())
}

#[test]
fn rpc_commands_decode() {
    match decode_rpc(rpc_args(vec![("type", text_value("prompt")), ("message", text_value(" hi "))])).unwrap() {
        RpcRequest::Prompt { message, images } => {
            assert_eq!(message, " hi ");
            assert!(images.is_none());
        }
        other => panic!("{:?}", other),
    }
    let with_images = rpc_args(vec![
        ("type", text_value("prompt")),
        ("message", text_value("m")),
        ("images", JsonValue::Array(vec![])),
    ]);
    match decode_rpc(with_images).unwrap() {
        RpcRequest::Prompt { images, .. } => assert_eq!(images, Some(JsonValue::Array(vec![]))),
        other => panic!("{:?}", other),
    }
    let steer = rpc_args(vec![
        ("type", text_value("prompt")),
        ("message", text_value("m")),
        ("streamingBehavior", text_value("steer")),
    ]);
    assert!(matches!(decode_rpc(steer).unwrap(), RpcRequest::Steer { message } if message == "m"));
    let model = rpc_args(vec![
        ("type", text_value("set_model")),
        ("provider", text_value(" anthropic ")),
        ("modelId", text_value("model-x")),
    ]);
    assert!(matches!(decode_rpc(model).unwrap(),
        RpcRequest::SetModel { provider, model } if provider == "anthropic" && model == "model-x"));
    let tools = rpc_args(vec![
        ("type", text_value("set_tools")),
        ("toolNames", JsonValue::Array(vec![text_value("read"), JsonValue::Null, text_value("bash")])),
    ]);
    assert!(matches!(decode_rpc(tools).unwrap(),
        RpcRequest::SetTools { names } if names == vec!["read".to_string(), "bash".to_string()]));
    assert!(matches!(decode_rpc(rpc_args(vec![("type", text_value("fork"))])).unwrap(),
        RpcRequest::Fork { entry_id: None }));
    assert!(matches!(decode_rpc(rpc_args(vec![("type", text_value("abort"))])).unwrap(), RpcRequest::Abort));
    assert_eq!(
        decode_rpc(rpc_args(vec![("type", text_value("dance"))])).unwrap_err(),
        ApiError::new(400, "unknown rpc type: dance")
    );
    assert_eq!(decode_rpc(JsonValue::Null).unwrap_err(), ApiError::new(400, "unknown rpc type: "));
}

#[test]
fn rpc_answer_bodies() {
    assert_eq!(
        members(&rpc_success(JsonValue::Bool(false))),
        vec![("data".to_string(), JsonValue::Bool(false)), ("success".to_string(), JsonValue::Bool(true))]
    );
    assert_eq!(
        members(&session_rejection_body("prompt")),
        vec![
            ("accepted".to_string(), JsonValue::Bool(false)),
            ("code".to_string(), text_value("prompt_rejected")),
            ("error".to_string(), text_value("Session not found")),
        ]
    );
    assert_eq!(members(&rpc_failure_body("steer", "boom")), vec![("error".to_string(), text_value("boom"))]);
}

#[test]
fn export_session_page_is_patched() {
    let js = format!("{}\n{}\n{}", SORT_CHILDREN_SEARCH, MAP_NODES_SEARCH, MARK_ACTIVE_SEARCH);
    let assets = ExportAssets {
        template_html: "<script>{{JS}}</script>{{SESSION_DATA}}".to_string(),
        template_css: String::new(),
        template_js: js,
        marked_js: String::new(),
        highlight_js: String::new(),
    };
    let page = export_session_html("{}", &assets).expect("patched");
    assert!(page.contains(SORT_CHILDREN_REPLACEMENT));
    assert!(page.contains(MAP_NODES_REPLACEMENT));
    assert!(page.contains(MARK_ACTIVE_REPLACEMENT));
    assert!(page.ends_with("</script>e30="));
    let unpatched = ExportAssets { template_js: String::new(), ..assets };
    assert_eq!(
        export_session_html("{}", &unpatched),
        Err("Failed to patch exported HTML: sortChildren expected 1 match, found 0".to_string())
    );
}

#[test]
fn rpc_extension_ui_response_keeps_its_arguments() {
    let args = rpc_args(vec![
        ("type", text_value("extension_ui_response")),
        ("id", text_value(" req-1 ")),
        ("value", JsonValue::Bool(true)),
    ]);
    let expected = rpc_args(vec![
        ("type", text_value("extension_ui_response")),
        ("id", text_value(" req-1 ")),
        ("value", JsonValue::Bool(true)),
    ]);
    match decode_rpc(args).unwrap() {
        RpcRequest::ExtensionUiResponse { id, body } => {
            assert_eq!(id, "req-1");
            assert_eq!(body, expected);
        },
        other => panic!("decoded {other:?}"),
    }
}
