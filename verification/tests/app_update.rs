use pi_web::app_update::{get_pi_web_release_url, is_newer_stable_version};

#[test]
fn detects_newer_stable_pi_web_versions() {
    assert!(is_newer_stable_version("0.8.8", "0.8.7"));
    assert!(is_newer_stable_version("0.9.0", "0.8.7"));
    assert!(is_newer_stable_version("1.0.0", "0.9.9"));
}

#[test]
fn does_not_report_equal_older_or_unsupported_as_updates() {
    assert!(!is_newer_stable_version("0.8.7", "0.8.7"));
    assert!(!is_newer_stable_version("0.8.6", "0.8.7"));
    assert!(!is_newer_stable_version("0.8.8-beta.1", "0.8.7"));
    assert!(!is_newer_stable_version("invalid", "0.8.7"));
}

#[test]
fn builds_a_release_url_only_for_stable_versions() {
    assert_eq!(
        get_pi_web_release_url("0.8.8").as_deref(),
        Some("https://github.com/agegr/pi-web/releases/tag/v0.8.8")
    );
    assert_eq!(get_pi_web_release_url("0.8.8-beta.1"), None);
}

#[test]
fn version_parts_must_be_safe_integers() {
    assert!(is_newer_stable_version("9007199254740991.0.0", "1.0.0"));
    assert!(!is_newer_stable_version("9007199254740992.0.0", "1.0.0"));
    assert_eq!(get_pi_web_release_url("1.2"), None);
    assert_eq!(get_pi_web_release_url("1.2.3.4"), None);
    assert_eq!(get_pi_web_release_url("1..3"), None);
    assert_eq!(get_pi_web_release_url("+1.2.3"), None);
    assert_eq!(get_pi_web_release_url("٣.2.3"), None);
    assert!(is_newer_stable_version("01.0.10", "1.0.9"));
}

#[test]
fn newer_is_asymmetric_and_transitive_on_samples() {
    let vs = ["0.0.1", "0.1.0", "1.0.0", "1.0.1", "2.0.0", "x"];
    for a in vs.iter() {
        assert!(!is_newer_stable_version(a, a));
        for b in vs.iter() {
            assert!(!(is_newer_stable_version(a, b) && is_newer_stable_version(b, a)));
            for c in vs.iter() {
                if is_newer_stable_version(a, b) && is_newer_stable_version(b, c) {
                    assert!(is_newer_stable_version(a, c));
                }
            }
        }
    }
}
