use pi_web::fs::allowed_roots::{
    allow_file_root, get_additional_allowed_roots, normalize_slashes, AdditionalRoots,
};
use pi_web::fs::atomic_file::{temp_file_name, uuid_from_seed, uuid_v4_simple};
use pi_web::fs::directory_browser::{
    sort_directories,
    get_browse_start_directory, get_parent_directory, get_windows_drive_candidates,
    normalize_directory, should_show_windows_drive_picker, BrowsableDirectory,
};
use pi_web::fs::file_access::{
    combine_allowed_roots, invalidate_allowed_roots_cache, is_file_path_allowed,
    is_pi_cwd_dir_name, is_windows_absolute_path, AllowedRootsCache,
};
use pi_web::fs::bash_output::{
    effective_read_limit, exceeds_read_limit, resolve_bash_output_path, MAX_INLINE_BASH_OUTPUT_BYTES,
};
use pi_web::fs::file_dirent::{needs_stat, resolve_dirent_is_directory};
use pi_web::fs::file_upload::{
    inspection_from_stats, parse_upload_conflict_strategy, validate_upload_file_names,
    UploadConflictStrategy,
};
use pi_web::fs::models_config_store::get_models_config_path;
use pi_web::fs::path_security::is_path_within_roots;

#[test]
fn allowed_roots_normalize() {
    assert_eq!(normalize_slashes(r"C:\Users\test"), "C:/Users/test");
    assert_eq!(normalize_slashes("/unix/path"), "/unix/path");
}

#[test]
fn allow_and_get() {
    let mut registry = AdditionalRoots::new();
    let mut cache = AllowedRootsCache::new();
    allow_file_root(&mut registry, &mut cache, "/tmp/test_allowed_roots");
    let roots = get_additional_allowed_roots(&registry);
    assert!(roots.contains(&"/tmp/test_allowed_roots".to_string()));
}

#[test]
fn allow_root_invalidates_cache_and_dedups() {
    let mut registry = AdditionalRoots::new();
    let mut cache = AllowedRootsCache::new();
    cache.store(vec!["/a".to_string()], 1000);
    assert_eq!(cache.cached(1500), Some(vec!["/a".to_string()]));
    assert_eq!(cache.cached(6000), None);
    allow_file_root(&mut registry, &mut cache, r"C:\x");
    allow_file_root(&mut registry, &mut cache, "C:/x");
    allow_file_root(&mut registry, &mut cache, "");
    assert_eq!(cache.cached(1500), None);
    assert_eq!(get_additional_allowed_roots(&registry), vec!["C:/x".to_string()]);
    invalidate_allowed_roots_cache(&mut cache);
    assert_eq!(cache.cached(0), None);
}

#[test]
fn uuid_format() {
    let id = uuid_v4_simple();
    assert_eq!(id.len(), 36);
    assert_eq!(id.as_bytes()[8], b'-');
    assert_eq!(id.as_bytes()[14], b'4');
}

#[test]
fn uuid_from_seed_is_deterministic_and_versioned() {
    let a = uuid_from_seed(42);
    assert_eq!(a, uuid_from_seed(42));
    assert_ne!(a, uuid_from_seed(43));
    assert!(matches!(a.as_bytes()[19], b'8' | b'9' | b'a' | b'b'));
    assert!(a.chars().all(|c| c == '-' || c.is_ascii_hexdigit() && !c.is_ascii_uppercase()));
    assert_eq!(temp_file_name("models.json", "id"), ".models.json-id.tmp");
}

#[test]
fn resolve_valid_path() {
    assert_eq!(
        resolve_bash_output_path("/tmp/pi-bash-abc123.log", "/tmp", "/"),
        Some("/tmp/pi-bash-abc123.log".to_string())
    );
}

#[test]
fn resolve_normalizes_dot_segments() {
    assert_eq!(
        resolve_bash_output_path("/tmp/./pi-bash-abc123.log", "/tmp", "/"),
        Some("/tmp/pi-bash-abc123.log".to_string())
    );
    assert_eq!(
        resolve_bash_output_path("/tmp/pi-bash-abc123.log", "/tmp/.", "/"),
        Some("/tmp/pi-bash-abc123.log".to_string())
    );
}

#[test]
fn reject_invalid_names() {
    assert!(resolve_bash_output_path("/tmp/not-bash.log", "/tmp", "/").is_none());
    assert!(resolve_bash_output_path("/tmp/pi-bash-evil../../.ssh/id_rsa", "/tmp", "/").is_none());
    assert!(resolve_bash_output_path("/other/pi-bash-abc.log", "/tmp", "/").is_none());
}

#[test]
fn bash_output_relative_paths_use_cwd() {
    assert_eq!(
        resolve_bash_output_path("pi-bash-x_1.log", "/tmp", "/tmp"),
        Some("/tmp/pi-bash-x_1.log".to_string())
    );
    assert!(resolve_bash_output_path("/tmp/pi-bash-.log", "/tmp", "/").is_none());
    assert!(resolve_bash_output_path("/tmp/pi-bash-a.b.log", "/tmp", "/").is_none());
}

#[test]
fn parent_directory() {
    assert_eq!(
        get_parent_directory("/home/user/project", "/"),
        Some("/home/user".to_string())
    );
    assert_eq!(get_parent_directory("/", "/"), None);
}

#[test]
fn parent_directory_resolves_first() {
    assert_eq!(get_parent_directory("/a/b/../c", "/"), Some("/a".to_string()));
    assert_eq!(get_parent_directory("/a", "/"), Some("/".to_string()));
}

#[test]
fn directory_browser_normalize() {
    let n = normalize_directory("/tmp", "/home/u", "/");
    assert_eq!(n, "/tmp");
}

#[test]
fn normalize_directory_expands_home() {
    assert_eq!(normalize_directory("~", "/home/u", "/"), "/home/u");
    assert_eq!(normalize_directory("~/x/../y", "/home/u", "/"), "/home/u/y");
    assert_eq!(normalize_directory("rel", "/home/u", "/srv"), "/srv/rel");
    assert_eq!(get_browse_start_directory(None, "/home/u"), "/home/u");
    assert_eq!(get_browse_start_directory(Some("/x"), "/home/u"), "/x");
    assert!(!should_show_windows_drive_picker(None, false));
    assert!(should_show_windows_drive_picker(None, true));
    assert!(!should_show_windows_drive_picker(Some("C:\\"), true));
}

#[test]
fn windows_drive_candidates() {
    let cands = get_windows_drive_candidates();
    assert_eq!(cands.len(), 26);
    assert_eq!(cands[0].name, "A:");
    assert_eq!(cands[0].path, "A:\\");
    assert_eq!(cands[25].name, "Z:");
}

#[test]
fn windows_path_detection() {
    assert!(is_windows_absolute_path("C:\\Users\\test"));
    assert!(is_windows_absolute_path("D:/foo"));
    assert!(!is_windows_absolute_path("/unix/path"));
    assert!(is_windows_absolute_path("//server/share"));
}

#[test]
fn file_path_allowed() {
    let roots = vec!["/home/user/project".to_string()];
    assert!(is_file_path_allowed("/home/user/project/src/main.rs", &roots, "/"));
    assert!(!is_file_path_allowed("/etc/passwd", &roots, "/"));
}

#[test]
fn combine_roots_from_sources() {
    let session = vec!["/tmp/test_session_root".to_string(), "".to_string()];
    let home = vec![
        ("pi-cwd-2026-08-20".to_string(), "/home/u/pi-cwd-2026-08-20".to_string()),
        ("notes".to_string(), "/home/u/notes".to_string()),
    ];
    let added = vec!["/tmp/test_extra_root".to_string(), "/tmp/test_session_root".to_string()];
    let roots = combine_allowed_roots(&session, &home, &added);
    assert_eq!(
        roots,
        vec![
            "/tmp/test_session_root".to_string(),
            "/home/u/pi-cwd-2026-08-20".to_string(),
            "/tmp/test_extra_root".to_string(),
        ]
    );
}

#[test]
fn dashed_date_matches_default_cwd_naming() {
    assert!(is_pi_cwd_dir_name("pi-cwd-2026-08-20"));
    assert!(is_pi_cwd_dir_name("pi-cwd-2026-01-01"));
}

#[test]
fn wrong_shapes_rejected() {
    assert!(!is_pi_cwd_dir_name("pi-cwd-20260820"));
    assert!(!is_pi_cwd_dir_name("pi-cwd-2026-8-20"));
    assert!(!is_pi_cwd_dir_name("pi-cwd-202-08-20"));
    assert!(!is_pi_cwd_dir_name("pi-cwd-2026-08-2"));
    assert!(!is_pi_cwd_dir_name("pi-cwd-"));
    assert!(!is_pi_cwd_dir_name("other-2026-08-20"));
}

#[test]
fn dirent_knows_directly() {
    assert_eq!(resolve_dirent_is_directory(true, false, None), Some(true));
    assert_eq!(resolve_dirent_is_directory(false, true, None), Some(false));
}

#[test]
fn dirent_falls_back_to_stat() {
    assert_eq!(resolve_dirent_is_directory(false, false, Some(true)), Some(true));
    assert_eq!(resolve_dirent_is_directory(false, false, None), None);
}

#[test]
fn parse_strategy() {
    assert_eq!(parse_upload_conflict_strategy(Some("error")), Some(UploadConflictStrategy::Error));
    assert_eq!(
        parse_upload_conflict_strategy(Some("overwrite")),
        Some(UploadConflictStrategy::Overwrite)
    );
    assert_eq!(parse_upload_conflict_strategy(None), Some(UploadConflictStrategy::Error));
    assert_eq!(parse_upload_conflict_strategy(Some("invalid")), None);
    assert_eq!(parse_upload_conflict_strategy(Some("skip")), Some(UploadConflictStrategy::Skip));
}

#[test]
fn validate_names() {
    assert!(validate_upload_file_names(&[]).is_some());
    assert!(validate_upload_file_names(&["a.rs".into(), "b.rs".into()]).is_none());
    assert!(validate_upload_file_names(&["../evil".into()]).is_some());
    assert!(validate_upload_file_names(&["a/b".into()]).is_some());
    assert!(validate_upload_file_names(&["a.rs".into(), "a.rs".into()]).is_some());
}

#[test]
fn validate_names_messages() {
    assert_eq!(validate_upload_file_names(&[]).as_deref(), Some("No files selected"));
    assert_eq!(
        validate_upload_file_names(&["".into()]).as_deref(),
        Some("Invalid file name: (empty)")
    );
    assert_eq!(validate_upload_file_names(&["..".into()]).as_deref(), Some("Invalid file name: .."));
    assert_eq!(
        validate_upload_file_names(&["a\\b".into()]).as_deref(),
        Some("File names must not contain a path: a\\b")
    );
    assert_eq!(
        validate_upload_file_names(&["x".into(), "y".into(), "x".into()]).as_deref(),
        Some("Duplicate file name in upload: x")
    );
}

#[test]
fn inspection_sorts_existing_targets() {
    let names = vec!["a".to_string(), "b".to_string(), "c".to_string()];
    let stats = vec![None, Some((false, true)), Some((true, false))];
    let r = inspection_from_stats(&names, &stats);
    assert_eq!(r.conflicts, vec!["b".to_string(), "c".to_string()]);
    assert_eq!(r.non_replaceable, vec!["c".to_string()]);
}

#[test]
fn models_config_path() {
    assert_eq!(get_models_config_path(None, "/home/u"), "/home/u/.pi/agent/models.json");
    assert_eq!(get_models_config_path(Some("/etc/pi/"), "/home/u"), "/etc/pi/models.json");
}

#[test]
fn within_roots() {
    let roots = vec!["/home/user/project".to_string()];
    assert!(is_path_within_roots("/home/user/project/src/main.rs", &roots, "/"));
    assert!(is_path_within_roots("/home/user/project", &roots, "/"));
    assert!(!is_path_within_roots("/home/user/other", &roots, "/"));
    assert!(!is_path_within_roots("/home/user/projectt/evil", &roots, "/"));
}

#[test]
fn normalize_dotdot() {
    let roots = vec!["/home/user/project".to_string()];
    assert!(!is_path_within_roots("/home/user/project/../../../etc/passwd", &roots, "/"));
}

#[test]
fn within_roots_windows_paths_ignore_case() {
    let roots = vec!["//Server/Share".to_string()];
    assert!(is_path_within_roots("//server/share/x", &roots, "/"));
    let roots = vec!["/Home/U".to_string()];
    assert!(!is_path_within_roots("/home/u/x", &roots, "/"));
}


#[test]
fn directories_sorted_ignoring_case() {
    let dir = |n: &str| BrowsableDirectory { name: n.to_string(), path: format!("/x/{n}") };
    let sorted = sort_directories(vec![dir("b"), dir("A"), dir("a"), dir("C"), dir("Ab")]);
    let names: Vec<&str> = sorted.iter().map(|d| d.name.as_str()).collect();
    assert_eq!(names, vec!["A", "a", "Ab", "b", "C"]);
    assert_eq!(sorted[0].path, "/x/A");
    assert!(sort_directories(vec![]).is_empty());
}

#[test]
fn dirent_stat_and_read_limits() {
    assert!(needs_stat(false, false));
    assert!(!needs_stat(true, false));
    assert!(!needs_stat(false, true));
    assert_eq!(effective_read_limit(None), MAX_INLINE_BASH_OUTPUT_BYTES);
    assert_eq!(effective_read_limit(Some(10)), 10);
    assert!(exceeds_read_limit(11, 10));
    assert!(!exceeds_read_limit(10, 10));
}
