use pi_web::api::file_listing::ListEntry;
use pi_web::api::file_ops::{
    check_readable_file, download_disposition, file_meta_body, listing_body, preview_refusal,
    text_read_body, upload_check_body, upload_parts, upload_request, UploadProgress,
};
use pi_web::fs::file_upload::UploadConflictStrategy;
use pi_web::json::{JsonNumber, JsonValue};

fn s(v: &str) -> JsonValue {
    JsonValue::Str(v.to_string())
}

fn obj(pairs: Vec<(&str, JsonValue)>) -> JsonValue {
    JsonValue::Object(pairs.into_iter().map(|(k, v)| (k.to_string(), v)).collect())
}

fn num(n: u64) -> JsonValue {
    JsonValue::Number(JsonNumber::PosInt(n))
}

fn entry(name: &str, is_dir: bool, size: u64) -> ListEntry {
    ListEntry { name: name.to_string(), is_dir, size, modified: "2026-01-01T00:00:00+00:00".to_string() }
}

fn entry_json(name: &str, is_dir: bool, size: u64) -> JsonValue {
    obj(vec![
        ("isDir", JsonValue::Bool(is_dir)),
        ("modified", s("2026-01-01T00:00:00+00:00")),
        ("name", s(name)),
        ("size", num(size)),
    ])
}

#[test]
fn listing_filters_and_sorts() {
    let body = listing_body(
        "/proj",
        vec![
            entry("zeta.rs", false, 10),
            entry("node_modules", true, 0),
            entry("src", true, 0),
            entry("cache.pyc", false, 3),
            entry("Alpha.md", false, 5),
            entry(".git", true, 0),
        ],
    );
    let expected = obj(vec![
        (
            "entries",
            JsonValue::Array(vec![
                entry_json("src", true, 0),
                entry_json("Alpha.md", false, 5),
                entry_json("zeta.rs", false, 10),
            ]),
        ),
        ("path", s("/proj")),
    ]);
    assert_eq!(body, expected);
    assert_eq!(listing_body("/e", Vec::new()), obj(vec![("entries", JsonValue::Array(vec![])), ("path", s("/e"))]));
}

#[test]
fn readable_file_checks() {
    let e = check_readable_file("/x", false, false).unwrap_err();
    assert_eq!((e.status, e.message.as_str()), (404, "file not found: /x"));
    let e = check_readable_file("/d", true, false).unwrap_err();
    assert_eq!((e.status, e.message.as_str()), (400, "not a file: /d"));
    assert!(check_readable_file("/f", true, true).is_ok());
}

#[test]
fn text_read_answers() {
    let body = text_read_body("/a.rs", b"fn main() {}".to_vec(), 12).unwrap();
    assert_eq!(body, obj(vec![("content", s("fn main() {}")), ("language", s("rust")), ("size", num(12))]));
    let e = text_read_body("/a.txt", vec![0xff, 0xfe, 0x00], 3).unwrap_err();
    assert_eq!(e.status, 415);
    assert_eq!(e.message, "file is not valid UTF-8 (kind=binary); use native byte load");
}

#[test]
fn meta_answers() {
    let body = file_meta_body("/docs/report.pdf", 2048);
    assert_eq!(
        body,
        obj(vec![
            ("language", s("text")),
            ("mime", s("application/pdf")),
            ("previewKind", s("pdf")),
            ("size", num(2048)),
        ])
    );
    let body = file_meta_body("/src/main.rs", 7);
    assert_eq!(body.get("previewKind"), Some(&JsonValue::Null));
    assert_eq!(body.get("language"), Some(&s("rust")));
}

#[test]
fn previews_are_refused() {
    let e = preview_refusal("/a/b.txt");
    assert_eq!((e.status, e.message.as_str()), (400, "preview only supported for .docx"));
    let e = preview_refusal("/a/B.DOCX");
    assert_eq!(e.status, 501);
    assert_eq!(e.message, "docx preview not supported (mammoth is a Node-only library)");
}

#[test]
fn download_names() {
    assert_eq!(download_disposition("/tmp/data.csv"), "attachment; filename=\"data.csv\"");
    assert_eq!(download_disposition("/"), "attachment; filename=\"file\"");
}

#[test]
fn upload_check_answers() {
    let ok = upload_check_body(&obj(vec![("fileNames", JsonValue::Array(vec![s("a.txt"), num(3), s("b.txt")]))])).unwrap();
    assert_eq!(ok, obj(vec![("conflicts", JsonValue::Array(vec![])), ("nonReplaceable", JsonValue::Array(vec![]))]));
    let e = upload_check_body(&obj(vec![("fileNames", JsonValue::Array(vec![s("../x")]))])).unwrap_err();
    assert_eq!(e.status, 400);
    assert!(upload_check_body(&obj(vec![])).is_err());
}

#[test]
fn upload_request_checks() {
    let e = upload_request(&obj(vec![]), Some("multipart/form-data; boundary=x"), "/f", false).unwrap_err();
    assert_eq!((e.status, e.message.as_str()), (400, "not a directory: /f"));
    let e = upload_request(&obj(vec![("conflict", s("merge"))]), Some("m"), "/d", true).unwrap_err();
    assert_eq!((e.status, e.message.as_str()), (400, "Invalid conflict strategy: merge"));
    let e = upload_request(&obj(vec![]), None, "/d", true).unwrap_err();
    assert_eq!((e.status, e.message.as_str()), (400, "Content-Type required for upload"));
    assert_eq!(upload_request(&obj(vec![]), Some("m"), "/d", true).unwrap(), UploadConflictStrategy::Error);
    assert_eq!(
        upload_request(&obj(vec![("conflict", s("skip"))]), Some("m"), "/d", true).unwrap(),
        UploadConflictStrategy::Skip
    );
}

#[test]
fn upload_parts_answers() {
    let ct = "multipart/form-data; boundary=XB";
    let body = b"--XB\r\nContent-Disposition: form-data; name=\"file\"; filename=\"a.txt\"\r\n\r\nhello\r\n--XB--\r\n";
    let parts = upload_parts(ct, body).unwrap().unwrap();
    assert_eq!(parts, vec![("a.txt".to_string(), b"hello".to_vec())]);
    let only_field = b"--XB\r\nContent-Disposition: form-data; name=\"note\"\r\n\r\nhi\r\n--XB--\r\n";
    let e = upload_parts(ct, only_field).unwrap().unwrap_err();
    assert_eq!((e.status, e.message.as_str()), (400, "no file parts"));
    let e = upload_parts("multipart/form-data", body).unwrap().unwrap_err();
    assert_eq!((e.status, e.message.as_str()), (400, "multipart parse: missing boundary"));
}

#[test]
fn upload_progress_by_strategy() {
    let mut p = UploadProgress::new();
    assert!(p.decide("new.txt", false, UploadConflictStrategy::Error));
    p.written("new.txt");
    assert!(!p.decide("old.txt", true, UploadConflictStrategy::Error));
    let (status, body) = p.response();
    assert_eq!(status, 409);
    assert_eq!(
        body,
        obj(vec![
            ("conflicts", JsonValue::Array(vec![s("old.txt")])),
            ("error", s("conflict")),
            ("nonReplaceable", JsonValue::Array(vec![])),
        ])
    );

    let mut p = UploadProgress::new();
    assert!(!p.decide("old.txt", true, UploadConflictStrategy::Skip));
    assert!(p.decide("other.txt", true, UploadConflictStrategy::Overwrite));
    p.written("other.txt");
    let (status, body) = p.response();
    assert_eq!(status, 200);
    assert_eq!(body, obj(vec![("skipped", num(1)), ("uploaded", JsonValue::Array(vec![s("other.txt")]))]));
}
