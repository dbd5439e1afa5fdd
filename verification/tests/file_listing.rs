use pi_web::api::file_listing::{
    check_index_cwd, check_text_size, empty_index_answer, file_index_answer, files_request,
    is_ignored_name, ls_files_index, sort_listing, FilesOp, IndexWalk, ListEntry,
    MAX_INDEX_FILES, MAX_INDEX_MATCHES, MAX_WALK_DEPTH, WALK_HARD_CAP,
};
use pi_web::json::JsonValue;

fn entry(name: &str, is_dir: bool) -> ListEntry {
    ListEntry { name: name.to_string(), is_dir, size: 0, modified: String::new() }
}

fn args(pairs: &[(&str, &str)]) -> JsonValue {
    JsonValue::Object(
        pairs.iter().map(|(k, v)| (k.to_string(), JsonValue::Str(v.to_string()))).collect(),
    )
}

#[test]
fn ignored_names_are_left_out() {
    for name in ["node_modules", ".git", ".next", "dist", "build", "__pycache__", "x.pyc", ".pyc"] {
        assert!(is_ignored_name(name), "{name}");
    }
    for name in ["src", "Build", "dist2", "x.py", "pyc", ".gitignore", ""] {
        assert!(!is_ignored_name(name), "{name}");
    }
}

#[test]
fn listing_puts_directories_first_then_names_case_insensitively() {
    let sorted = sort_listing(vec![
        entry("b.txt", false),
        entry("Zeta", true),
        entry("A.txt", false),
        entry("alpha", true),
        entry("c.txt", false),
    ]);
    let names: Vec<&str> = sorted.iter().map(|e| e.name.as_str()).collect();
    assert_eq!(names, vec!["alpha", "Zeta", "A.txt", "b.txt", "c.txt"]);
}

#[test]
fn listing_keeps_names_equal_but_for_case_in_their_order() {
    let sorted = sort_listing(vec![entry("readme", false), entry("README", false), entry("Readme", false)]);
    let names: Vec<&str> = sorted.iter().map(|e| e.name.as_str()).collect();
    assert_eq!(names, vec!["readme", "README", "Readme"]);
    assert!(sort_listing(Vec::new()).is_empty());
}

#[test]
fn files_request_reads_type_and_path() {
    let r = files_request(&args(&[("path", "/tmp/a.txt"), ("type", "read")]), "/home/u", "/work").unwrap();
    assert_eq!(r.op, FilesOp::Read);
    assert_eq!(r.path, "/tmp/a.txt");
    let r = files_request(&args(&[("path", "tmp/b/../c")]), "/home/u", "/work").unwrap();
    assert_eq!(r.op, FilesOp::List);
    assert_eq!(r.path, "/tmp/c");
    let r = files_request(&args(&[("path", "/x"), ("type", "upload-check")]), "/h", "/w").unwrap();
    assert_eq!(r.op, FilesOp::UploadCheck);
}

#[test]
fn files_request_errors() {
    let e = files_request(&args(&[("type", "read")]), "/h", "/w").unwrap_err();
    assert_eq!((e.status, e.message.as_str()), (400, "path is required"));
    let e = files_request(&args(&[("path", "/x"), ("type", "watch")]), "/h", "/w").unwrap_err();
    assert_eq!(e.status, 501);
    assert_eq!(
        e.message,
        "file watch stream not implemented (frontend EventSource interception retained)"
    );
    let e = files_request(&args(&[("path", "/x"), ("type", "delete")]), "/h", "/w").unwrap_err();
    assert_eq!((e.status, e.message.as_str()), (400, "unknown type: delete"));
}

#[test]
fn text_size_limit() {
    assert!(check_text_size(0).is_ok());
    assert!(check_text_size(262144).is_ok());
    let e = check_text_size(262145).unwrap_err();
    assert_eq!(e.status, 413);
    assert_eq!(e.message, "file too large for text preview (262145 > 262144 bytes)");
}

#[test]
fn index_from_ls_files_output() {
    let (files, truncated) = ls_files_index("src/main.rs\0README.md\0\0Cargo.toml\0src/lib.rs\0");
    assert_eq!(files, vec!["Cargo.toml", "README.md", "src/lib.rs", "src/main.rs"]);
    assert!(!truncated);
    let (files, truncated) = ls_files_index("");
    assert!(files.is_empty());
    assert!(!truncated);
}

#[test]
fn index_is_truncated_past_the_limit() {
    let mut out = String::new();
    out.push_str("f99999\0");
    for i in 0..(MAX_INDEX_FILES + 2) {
        out.push_str(&format!("f{:05}\0", i + 1));
    }
    let (files, truncated) = ls_files_index(&out);
    assert!(truncated);
    assert_eq!(files.len(), MAX_INDEX_FILES);
    assert_eq!(files[0], "f00001");
    assert!(files.windows(2).all(|w| w[0] < w[1]));
}

#[test]
fn index_directory_checks() {
    let e = check_index_cwd("rel", false, true, true).unwrap_err();
    assert_eq!((e.status, e.message.as_str()), (400, "cwd must be an absolute path"));
    let e = check_index_cwd("/nope", true, false, false).unwrap_err();
    assert_eq!((e.status, e.message.as_str()), (404, "directory does not exist: /nope"));
    let e = check_index_cwd("/f", true, true, false).unwrap_err();
    assert_eq!((e.status, e.message.as_str()), (400, "not a directory: /f"));
    assert!(check_index_cwd("/d", true, true, true).is_ok());
}

#[test]
fn file_index_list_and_query() {
    let files: Vec<String> = ["readme.md", "src/deep/util.rs", "src/main.rs"].iter().map(|s| s.to_string()).collect();
    let listed = file_index_answer(&files, false, "").unwrap();
    assert_eq!(
        listed,
        JsonValue::Object(vec![
            ("files".to_string(), JsonValue::Array(files.iter().map(|f| JsonValue::Str(f.clone())).collect())),
            ("truncated".to_string(), JsonValue::Bool(false)),
        ])
    );
    let found = file_index_answer(&files, false, "util").unwrap();
    let matches = match found.get("matches") {
        Some(JsonValue::Array(m)) => m,
        other => panic!("no matches: {other:?}"),
    };
    assert!(!matches.is_empty());
    assert!(matches.iter().any(|m| m.get("path") == Some(&JsonValue::Str("src/deep/util.rs".to_string()))));
    assert!(matches.len() <= MAX_INDEX_MATCHES);
    assert_eq!(
        empty_index_answer(&JsonValue::Object(vec![])),
        JsonValue::Object(vec![
            ("files".to_string(), JsonValue::Array(vec![])),
            ("truncated".to_string(), JsonValue::Bool(false)),
        ])
    );
    assert_eq!(
        empty_index_answer(&args(&[("q", "ut")])),
        JsonValue::Object(vec![("matches".to_string(), JsonValue::Array(vec![]))])
    );
}

#[test]
fn index_walk_limits() {
    let mut w = IndexWalk::new();
    assert!(w.enters(0));
    assert!(w.enters(MAX_WALK_DEPTH));
    assert!(!w.enters(MAX_WALK_DEPTH + 1));
    assert!(!w.visit("node_modules"));
    assert!(!w.visit("mod.pyc"));
    assert_eq!(w.visited, 0);
    assert!(w.visit("src"));
    assert_eq!(w.visited, 1);
    for i in 0..MAX_INDEX_FILES {
        assert!(w.add_file(format!("f{i}")));
    }
    assert!(!w.truncated);
    assert!(!w.add_file("one.more".to_string()));
    assert!(w.truncated);
    assert!(w.stopped());
    assert!(!w.enters(0));
    assert_eq!(w.files.len(), MAX_INDEX_FILES);
    let mut w = IndexWalk::new();
    w.visited = WALK_HARD_CAP;
    assert!(w.stopped());
}
