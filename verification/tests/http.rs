use pi_web::http::bounded_form_data::{
    check_declared_content_length, collect_body_within_limit, declared_content_length,
    BodyCollector, RequestBodyTooLarge,
};
use pi_web::http::dispatcher::{
    http_dispatcher_configured, reset_dispatcher_guard, DispatcherGuard, HttpDispatcherConfig,
};

#[test]
fn declared_length_parsing() {
    assert_eq!(declared_content_length(Some("1024")), Some(1024));
    assert_eq!(declared_content_length(Some("0")), Some(0));
    assert_eq!(declared_content_length(Some("")), None);
    assert_eq!(declared_content_length(Some("12a")), None);
    assert_eq!(declared_content_length(Some("-1")), None);
    assert_eq!(declared_content_length(Some("1.5")), None);
    assert_eq!(declared_content_length(Some(" 1024")), None);
    assert_eq!(declared_content_length(None), None);
    assert_eq!(declared_content_length(Some("9007199254740992")), None);
    assert_eq!(
        declared_content_length(Some("9007199254740991")),
        Some(9_007_199_254_740_991)
    );
}

#[test]
fn declared_check() {
    assert_eq!(check_declared_content_length(Some("500"), 1000), Ok(()));
    assert_eq!(check_declared_content_length(Some("1000"), 1000), Ok(()));
    assert_eq!(
        check_declared_content_length(Some("1001"), 1000),
        Err(RequestBodyTooLarge)
    );
    assert_eq!(check_declared_content_length(None, 1000), Ok(()));
    assert_eq!(check_declared_content_length(Some("abc"), 1000), Ok(()));
}

#[test]
fn sync_collect_within_limit() {
    let chunks = vec![b"hello ".to_vec(), b"world".to_vec()];
    let body = collect_body_within_limit(chunks, 100).unwrap();
    assert_eq!(body, b"hello world");

    let chunks = vec![b"a".to_vec(), b"b".to_vec()];
    assert!(collect_body_within_limit(chunks, 2).is_ok());

    let mut consumed = 0usize;
    let chunks: Vec<Vec<u8>> = (0..3)
        .map(|_i| {
            consumed += 1;
            vec![b'x'; 10]
        })
        .collect();
    assert_eq!(
        collect_body_within_limit(chunks, 25),
        Err(RequestBodyTooLarge)
    );
    assert_eq!(consumed, 3);
}

#[test]
fn collector_stops_at_limit() {
    let mut c = BodyCollector::start(Some("5"), 10).unwrap();
    assert_eq!(c.push_chunk(b"hello"), Ok(()));
    assert_eq!(c.push_chunk(b"world!"), Err(RequestBodyTooLarge));
    assert_eq!(c.push_chunk(b"12345"), Ok(()));
    assert_eq!(c.finish(), b"hello12345".to_vec());
    assert!(BodyCollector::start(Some("11"), 10).is_err());
    assert_eq!(
        RequestBodyTooLarge.message(),
        "Request body exceeds the allowed size"
    );
}

#[test]
fn configure_once_guard() {
    let mut guard = DispatcherGuard::new();
    reset_dispatcher_guard(&mut guard);
    assert!(!http_dispatcher_configured(&guard));
    let cfg = guard.configure(Some(150_000)).unwrap();
    assert_eq!(cfg, HttpDispatcherConfig { idle_timeout_ms: 150_000 });
    assert!(http_dispatcher_configured(&guard));
    let cfg2 = guard.configure(Some(99_000)).unwrap();
    assert_eq!(cfg2, HttpDispatcherConfig { idle_timeout_ms: 150_000 });
    reset_dispatcher_guard(&mut guard);
    assert!(guard.configure(None).is_err());
    assert!(!http_dispatcher_configured(&guard));
}
