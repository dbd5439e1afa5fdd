use pi_web::git::worktree::{
    infer_removed_worktree, invalidate_project_cache, parse_worktree_list, plain_project,
    plan_project, same_path, sanitize_branch_for_dir, select_worktrees, worktree_branch_and_dir,
    worktree_add_command, worktree_path_for, worktree_to_remove, ProjectCache, ProjectInfo, ProjectRoot, RemovedWorktree, WorktreeInfo,
    WorktreeRecord,
};

#[test]
fn sanitize_branch() {
    assert_eq!(sanitize_branch_for_dir("feature/foo bar"), "feature-foo-bar");
    assert_eq!(sanitize_branch_for_dir("---leading"), "leading");
    assert_eq!(sanitize_branch_for_dir("clean"), "clean");
}

#[test]
fn sanitize_branch_collapses_runs() {
    assert_eq!(sanitize_branch_for_dir("a//b\\:c"), "a-b-c");
    assert_eq!(sanitize_branch_for_dir("a-/b"), "a--b");
    assert_eq!(sanitize_branch_for_dir("/x/"), "x");
    assert_eq!(sanitize_branch_for_dir("***"), "");
}

#[test]
fn branch_and_dir_checks() {
    assert_eq!(
        worktree_branch_and_dir("  feat/x "),
        Ok(("feat/x".to_string(), "feat-x".to_string()))
    );
    assert_eq!(worktree_branch_and_dir("   "), Err("Branch name is required".to_string()));
    assert_eq!(worktree_branch_and_dir(" // "), Err("Invalid branch name:  // ".to_string()));
}

#[test]
fn infer_removed() {
    let result = infer_removed_worktree("/nonexistent/path");
    assert!(result.is_none());
}

#[test]
fn infer_removed_worktree_shape() {
    assert_eq!(
        infer_removed_worktree("/src/repo-worktrees/feat-x/"),
        Some(RemovedWorktree { repo_root: "/src/repo".to_string(), branch: "feat-x".to_string() })
    );
    assert_eq!(
        infer_removed_worktree("/-worktrees/x"),
        Some(RemovedWorktree { repo_root: "/".to_string(), branch: "x".to_string() })
    );
    assert_eq!(infer_removed_worktree("-worktrees/x"), None);
    assert_eq!(infer_removed_worktree("/a/b-worktrees-worktrees/c").unwrap().repo_root, "/a/b");
}

#[test]
fn worktree_listing() {
    let out = "worktree /r\nHEAD abc\nbranch refs/heads/main\n\nworktree /r-worktrees/a\nbranch refs/heads/a\nprunable\n\nworktree /r-worktrees/b\ndetached\n";
    let records = parse_worktree_list(out);
    assert_eq!(
        records,
        vec![
            WorktreeRecord { path: "/r".into(), branch: Some("main".into()), prunable: false },
            WorktreeRecord { path: "/r-worktrees/a".into(), branch: Some("a".into()), prunable: true },
            WorktreeRecord { path: "/r-worktrees/b".into(), branch: None, prunable: false },
        ]
    );
    let shown = select_worktrees(&records, &vec![false, true, true]);
    assert_eq!(
        shown,
        vec![WorktreeInfo { path: "/r-worktrees/b".into(), branch: None, is_main: true }]
    );
}

#[test]
fn project_plans() {
    let out = "/r/.git\n/r/.git/worktrees/a\n/r-worktrees/a\nfeature";
    let plan = plan_project(out, "/r-worktrees/a").unwrap();
    assert_eq!(plan.root, ProjectRoot::Resolve("/r".to_string()));
    assert_eq!(plan.branch, Some("feature".to_string()));
    assert!(plan.is_worktree && plan.is_top_level);
    let plan = plan_project("/r/.git\n/r/.git\n/r\nHEAD", "/r/sub").unwrap();
    assert_eq!(plan.root, ProjectRoot::Cwd);
    assert_eq!(plan.branch, None);
    assert!(!plan.is_top_level);
    assert!(plan_project("x\ny", "/r").is_none());
    assert!(same_path("/a/b/", "/a/./b"));
    assert!(same_path("C:\\Repo", "c:/repo"));
    assert!(!same_path("/A", "/a"));
}

#[test]
fn removal_targets() {
    let wts = vec![
        WorktreeInfo { path: "/r".into(), branch: None, is_main: true },
        WorktreeInfo { path: "/r-worktrees/a".into(), branch: None, is_main: false },
    ];
    assert_eq!(worktree_to_remove(&wts, "/r-worktrees/a/"), Ok("/r-worktrees/a".to_string()));
    assert_eq!(worktree_to_remove(&wts, "/r"), Err("Cannot remove the main worktree".to_string()));
    assert_eq!(
        worktree_to_remove(&wts, "/x"),
        Err("Not a worktree of this repository: /x".to_string())
    );
}

#[test]
fn project_cache_expires_and_clears() {
    let mut cache = ProjectCache::new();
    let info = plain_project("/w");
    assert_eq!(
        info,
        ProjectInfo { project_root: "/w".into(), branch: None, is_worktree: false, is_top_level: false }
    );
    cache.insert("/w", info.clone(), 1000);
    assert_eq!(cache.get("/w", 2000), Some(info.clone()));
    assert_eq!(cache.get("/w", 61_000), None);
    assert_eq!(cache.get("/v", 2000), None);
    invalidate_project_cache(&mut cache);
    assert_eq!(cache.get("/w", 2000), None);
}

#[test]
fn new_worktree_location_and_command() {
    assert_eq!(worktree_path_for("/home/u/repo", "feature-x"), "/home/u/repo-worktrees/feature-x");
    assert_eq!(
        worktree_add_command("/r-worktrees/b", "b", true),
        vec!["worktree", "add", "--", "/r-worktrees/b", "b"]
    );
    assert_eq!(
        worktree_add_command("/r-worktrees/b", "b", false),
        vec!["worktree", "add", "-b", "b", "--", "/r-worktrees/b"]
    );
}
