use pi_web::api::cwd::{browse_answer, cwd_answer, default_sessions_root, validated_cwd_answer};
use pi_web::fs::directory_browser::BrowsableDirectory;
use pi_web::api::commands::{
    bash_output_answer, bash_output_read_error, bash_output_request, context_usage_window,
    context_window,
};
use pi_web::fs::bash_output::ReadResult;
use pi_web::api::worktrees::{
    check_worktree_dir, worktree_add_request, worktree_cwd_arg, worktree_remove_refusal,
    worktree_remove_request,
};
use pi_web::json::{JsonNumber, JsonValue};

fn s(v: &str) -> JsonValue {
    JsonValue::Str(v.to_string())
}

fn obj(pairs: Vec<(&str, JsonValue)>) -> JsonValue {
    JsonValue::Object(pairs.into_iter().map(|(k, v)| (k.to_string(), v)).collect())
}

fn num(n: u64) -> JsonValue {
    JsonValue::Number(JsonNumber::PosInt(n))
}

#[test]
fn worktree_cwd_is_required_and_trimmed() {
    let e = worktree_cwd_arg(&obj(vec![("cwd", s("   "))])).unwrap_err();
    assert_eq!((e.status, e.message.as_str()), (400, "cwd is required"));
    assert!(worktree_cwd_arg(&obj(vec![("cwd", JsonValue::Bool(true))])).is_err());
    assert_eq!(worktree_cwd_arg(&obj(vec![("cwd", s(" /repo "))])).unwrap(), "/repo");
}

#[test]
fn worktree_add_arguments() {
    let e = worktree_add_request(&obj(vec![("branch", s("b"))])).unwrap_err();
    assert_eq!(e.message, "cwd is required");
    let e = worktree_add_request(&obj(vec![("cwd", s("/r"))])).unwrap_err();
    assert_eq!((e.status, e.message.as_str()), (400, "branch is required"));
    let (cwd, branch) = worktree_add_request(&obj(vec![("cwd", s("/r")), ("branch", s(" feat "))])).unwrap();
    assert_eq!((cwd.as_str(), branch.as_str()), ("/r", "feat"));
    let e = check_worktree_dir("/gone", false).unwrap_err();
    assert_eq!((e.status, e.message.as_str()), (400, "Directory does not exist: /gone"));
    assert!(check_worktree_dir("/r", true).is_ok());
}

#[test]
fn worktree_remove_arguments() {
    let e = worktree_remove_request(&obj(vec![("cwd", s("/r"))])).unwrap_err();
    assert_eq!((e.status, e.message.as_str()), (400, "path is required"));
    let (cwd, path, force) =
        worktree_remove_request(&obj(vec![("cwd", s("/r")), ("path", s("/r-wt")), ("force", JsonValue::Bool(true))]))
            .unwrap();
    assert_eq!((cwd.as_str(), path.as_str(), force), ("/r", "/r-wt", true));
    let (_, _, force) =
        worktree_remove_request(&obj(vec![("cwd", s("/r")), ("path", s("/r-wt")), ("force", s("true"))])).unwrap();
    assert!(!force);
}

#[test]
fn dirty_worktree_removal_is_409() {
    let msg = "fatal: '/r-wt' contains modified or untracked files, use --force to delete it";
    let (status, body) = worktree_remove_refusal(msg);
    assert_eq!(status, 409);
    assert_eq!(body, obj(vec![("dirty", JsonValue::Bool(true)), ("error", s(msg))]));
    let (status, _) = worktree_remove_refusal("worktree is dirty");
    assert_eq!(status, 409);
    let (status, body) = worktree_remove_refusal("fatal: not a working tree");
    assert_eq!(status, 400);
    assert_eq!(body, obj(vec![("error", s("fatal: not a working tree"))]));
}

#[test]
fn context_window_lookup() {
    let config = obj(vec![(
        "providers",
        obj(vec![(
            "acme",
            obj(vec![(
                "models",
                JsonValue::Array(vec![
                    obj(vec![("id", s("small")), ("contextWindow", num(8000))]),
                    obj(vec![("id", s("big")), ("contextWindow", num(200000))]),
                    obj(vec![("id", s("odd")), ("contextWindow", s("lots"))]),
                ]),
            )]),
        )]),
    )]);
    assert_eq!(context_window(&config, "acme", "big"), 200000);
    assert_eq!(context_window(&config, "acme", "odd"), 0);
    assert_eq!(context_window(&config, "acme", "none"), 0);
    assert_eq!(context_window(&config, "other", "big"), 0);
    assert_eq!(context_usage_window(1000, "acme", "small", &config), Some(8000));
    assert_eq!(context_usage_window(0, "acme", "small", &config), None);
    assert_eq!(context_usage_window(5, "", "small", &config), None);
    assert_eq!(context_usage_window(5, "acme", "odd", &config), None);
}

#[test]
fn sessions_root_defaults() {
    assert_eq!(default_sessions_root(Some("/opt/agent//"), Some("/home/u")), "/opt/agent/sessions");
    assert_eq!(default_sessions_root(None, Some("/home/u")), "/home/u/.pi/agent/sessions");
    assert_eq!(default_sessions_root(None, None), "//.pi/agent/sessions");
}

#[test]
fn cwd_answers() {
    let dirs = vec![
        BrowsableDirectory { name: "alpha".to_string(), path: "/w/alpha".to_string() },
        BrowsableDirectory { name: "Beta".to_string(), path: "/w/Beta".to_string() },
    ];
    let body = browse_answer("/w", &dirs, "/");
    assert_eq!(
        body,
        obj(vec![
            (
                "directories",
                JsonValue::Array(vec![
                    obj(vec![("name", s("alpha")), ("path", s("/w/alpha"))]),
                    obj(vec![("name", s("Beta")), ("path", s("/w/Beta"))]),
                ]),
            ),
            ("parentPath", s("/")),
            ("path", s("/w")),
        ])
    );
    assert_eq!(browse_answer("/", &Vec::new(), "/").get("parentPath"), Some(&JsonValue::Null));
    assert_eq!(validated_cwd_answer("/w"), obj(vec![("cwd", s("/w")), ("success", JsonValue::Bool(true))]));
    assert_eq!(cwd_answer("/h/pi-cwd-2026-01-02"), obj(vec![("cwd", s("/h/pi-cwd-2026-01-02"))]));
}

#[test]
fn bash_output_requests_and_answers() {
    let e = bash_output_request(&obj(vec![]), "/tmp", "/").unwrap_err();
    assert_eq!((e.status, e.message.as_str()), (400, "path is required"));
    let e = bash_output_request(&obj(vec![("path", s("/etc/passwd"))]), "/tmp", "/").unwrap_err();
    assert_eq!((e.status, e.message.as_str()), (400, "invalid bash output path"));
    let e = bash_output_request(&obj(vec![("path", s("/tmp/pi-bash-a b.log"))]), "/tmp", "/").unwrap_err();
    assert_eq!(e.status, 400);
    assert_eq!(
        bash_output_request(&obj(vec![("path", s("/tmp/x/../pi-bash-run_1.log"))]), "/tmp/", "/").unwrap(),
        "/tmp/pi-bash-run_1.log"
    );
    let ok = bash_output_answer(ReadResult::Content { content: "hi\n".to_string(), size: 3 }).unwrap();
    assert_eq!(ok, obj(vec![("output", s("hi\n"))]));
    let e = bash_output_answer(ReadResult::TooLarge { size: 6000000 }).unwrap_err();
    assert_eq!((e.status, e.message.as_str()), (413, "bash output too large (6000000 bytes); use download"));
    let e = bash_output_read_error(true, "gone");
    assert_eq!((e.status, e.message.as_str()), (404, "bash output file not found"));
    let e = bash_output_read_error(false, "denied");
    assert_eq!((e.status, e.message.as_str()), (500, "read bash output: denied"));
}
