use pi_web::auth::{is_valid_basic_authorization, is_web_password_enabled, secrets_equal};

#[test]
fn password_enabled() {
    assert!(!is_web_password_enabled(None));
    assert!(!is_web_password_enabled(Some("")));
    assert!(is_web_password_enabled(Some("secret")));
}

#[test]
fn valid_auth() {
    // Basic base64("pi:secret") = "cGk6c2VjcmV0"
    let result = is_valid_basic_authorization(Some("Basic cGk6c2VjcmV0"), Some("secret"));
    assert!(result);
}

#[test]
fn invalid_auth() {
    assert!(!is_valid_basic_authorization(None, Some("secret")));
    assert!(!is_valid_basic_authorization(Some("Bearer xyz"), Some("secret")));
    assert!(!is_valid_basic_authorization(Some("Basic cGk6d3Jvbmc="), Some("secret")));
}

#[test]
fn basic_scheme_case_and_whitespace_insensitive() {
    assert!(is_valid_basic_authorization(Some("Basic cGk6c2VjcmV0"), Some("secret")));
    assert!(is_valid_basic_authorization(Some("BASIC cGk6c2VjcmV0"), Some("secret")));
    assert!(is_valid_basic_authorization(Some("basic\tcGk6c2VjcmV0"), Some("secret")));
    assert!(is_valid_basic_authorization(Some("Basic  cGk6c2VjcmV0"), Some("secret")));
}

#[test]
fn rejects_non_canonical_base64() {
    assert!(is_valid_basic_authorization(Some("Basic cGk6c2VjcmV0"), Some("secret")));
    assert!(!is_valid_basic_authorization(Some("Basic cGk6c2VjcmV0===="), Some("secret")));
    assert!(!is_valid_basic_authorization(Some("Basic cGk6c2VjcmV0!"), Some("secret")));
}

#[test]
fn auth_rejects_without_password_configured() {
    assert!(!is_valid_basic_authorization(Some("Basic cGk6c2VjcmV0"), None));
    assert!(!is_valid_basic_authorization(Some("Basic cGk6c2VjcmV0"), Some("")));
}

#[test]
fn auth_rejects_wrong_user_and_missing_colon() {
    // base64("bob:secret") = "Ym9iOnNlY3JldA=="
    assert!(!is_valid_basic_authorization(Some("Basic Ym9iOnNlY3JldA=="), Some("secret")));
    // base64("pisecret") = "cGlzZWNyZXQ="
    assert!(!is_valid_basic_authorization(Some("Basic cGlzZWNyZXQ="), Some("secret")));
}

#[test]
fn auth_scheme_folds_long_s_and_needs_separator() {
    // Unicode simple case folding maps U+017F onto `s`.
    assert!(is_valid_basic_authorization(Some("Ba\u{17f}ic cGk6c2VjcmV0"), Some("secret")));
    assert!(!is_valid_basic_authorization(Some("BasiccGk6c2VjcmV0"), Some("secret")));
    assert!(!is_valid_basic_authorization(Some("Basic cGk6c2VjcmV0 x"), Some("secret")));
}

#[test]
fn auth_password_with_colon_and_unicode() {
    // base64("pi:a:é") = "cGk6YTrDqQ=="
    assert!(is_valid_basic_authorization(Some("Basic cGk6YTrDqQ=="), Some("a:é")));
}

#[test]
fn secrets_equal_compares_digests() {
    assert!(secrets_equal("pi", "pi"));
    assert!(!secrets_equal("pi", "pj"));
}
