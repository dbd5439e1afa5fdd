use pi_web::git::changes::{
    count_untracked_text_lines, create_added_file_patch, diff_from_patch, find_status_entry,
    git_status_files, git_status_totals, numstat_totals, present_file_diff, to_git_path,
    unsupported_diff,
};
use pi_web::git::status::{classify_git_status, parse_git_porcelain_v1, GitPorcelainEntry};
use pi_web::git::types::{GitFileStatusKind, GitStatusCode};

#[test]
fn parse_basic_entries() {
    let input = "M  src/main.rs\0A  new.rs\0?? untracked.rs\0";
    let entries = parse_git_porcelain_v1(input);
    assert_eq!(entries.len(), 3);
    assert_eq!(entries[0].index_status, "M");
    assert_eq!(entries[0].path, "src/main.rs");
    assert_eq!(entries[1].index_status, "A");
    assert_eq!(entries[2].worktree_status, "?");
    assert_eq!(entries[2].path, "untracked.rs");
}

#[test]
fn parse_rename_entry() {
    let input = "R  new.rs\0old.rs\0";
    let entries = parse_git_porcelain_v1(input);
    assert_eq!(entries.len(), 1);
    assert_eq!(entries[0].index_status, "R");
    assert_eq!(entries[0].path, "new.rs");
    assert_eq!(entries[0].original_path.as_deref(), Some("old.rs"));
}

#[test]
fn parse_rename_at_end_has_no_original() {
    let entries = parse_git_porcelain_v1(" C a.rs");
    assert_eq!(entries.len(), 1);
    assert_eq!(entries[0].worktree_status, "C");
    assert_eq!(entries[0].original_path, None);
}

#[test]
fn classify_all_statuses() {
    let cases = [
        ("M", " ", GitFileStatusKind::Modified, GitStatusCode::Modified),
        ("A", " ", GitFileStatusKind::Added, GitStatusCode::Added),
        ("D", " ", GitFileStatusKind::Deleted, GitStatusCode::Deleted),
        ("R", " ", GitFileStatusKind::Renamed, GitStatusCode::Renamed),
        ("C", " ", GitFileStatusKind::Renamed, GitStatusCode::Renamed),
        ("?", "?", GitFileStatusKind::Untracked, GitStatusCode::Untracked),
        ("U", "U", GitFileStatusKind::Conflict, GitStatusCode::Conflict),
        ("A", "U", GitFileStatusKind::Conflict, GitStatusCode::Conflict),
        ("D", "D", GitFileStatusKind::Conflict, GitStatusCode::Conflict),
    ];
    for (idx, wt, expected_status, expected_code) in cases {
        let entry = GitPorcelainEntry {
            path: "test.rs".into(),
            original_path: None,
            index_status: idx.into(),
            worktree_status: wt.into(),
        };
        let (status, code) = classify_git_status(&entry);
        assert_eq!(status, expected_status, "index={idx} worktree={wt}");
        assert_eq!(code, expected_code, "index={idx} worktree={wt}");
    }
}

#[test]
fn classify_aa_is_conflict() {
    let entry = GitPorcelainEntry {
        path: "x".into(),
        original_path: None,
        index_status: "A".into(),
        worktree_status: "A".into(),
    };
    assert_eq!(
        classify_git_status(&entry),
        (GitFileStatusKind::Conflict, GitStatusCode::Conflict)
    );
    assert_eq!(GitStatusCode::Renamed.letter(), 'R');
}

#[test]
fn skip_short_records() {
    let input = "ab\0xy\0";
    let entries = parse_git_porcelain_v1(input);
    assert!(entries.is_empty());
}

#[test]
fn added_file_patch() {
    let patch = create_added_file_patch("test.rs", "line1\nline2\n");
    assert!(patch.contains("diff --git a/test.rs b/test.rs"));
    assert!(patch.contains("new file mode 100644"));
    assert!(patch.contains("+line1"));
    assert!(patch.contains("+line2"));
}

#[test]
fn added_file_patch_no_trailing_newline() {
    let patch = create_added_file_patch("test.rs", "line1");
    assert!(patch.contains("\\ No newline at end of file"));
}

#[test]
fn added_file_patch_exact_text() {
    assert_eq!(
        create_added_file_patch("a.txt", "x\r\ny\n"),
        "diff --git a/a.txt b/a.txt\nnew file mode 100644\n--- /dev/null\n+++ b/a.txt\n@@ -0,0 +1,2 @@\n+x\n+y"
    );
    assert_eq!(
        create_added_file_patch("e", ""),
        "diff --git a/e b/e\nnew file mode 100644\n--- /dev/null\n+++ b/e\n@@ -0,0 +1,0 @@\n"
    );
    assert_eq!(to_git_path(r"a\b\c"), "a/b/c");
}

#[test]
fn numstat_totals_sum_counts() {
    assert_eq!(numstat_totals("3\t1\ta.rs\n10\t0\tb.rs\n"), (13, 1));
    assert_eq!(numstat_totals("-\t-\timage.png\n2\t5\tc.rs"), (2, 5));
    assert_eq!(numstat_totals(""), (0, 0));
    assert_eq!(numstat_totals("no tabs here\n+4\t2\td.rs\r\n"), (4, 2));
    assert_eq!(numstat_totals("18446744073709551615\t0\ta\n1\t0\tb\n"), (u64::MAX, 0));
}

#[test]
fn untracked_line_counts() {
    assert_eq!(count_untracked_text_lines(b"a\nb\nc\n"), 3);
    assert_eq!(count_untracked_text_lines(b"a\nb"), 2);
    assert_eq!(count_untracked_text_lines(b""), 0);
    assert_eq!(count_untracked_text_lines(b"bin\0ary\n"), 0);
    let big = vec![b'x'; 256 * 1024 + 1];
    assert_eq!(count_untracked_text_lines(&big), 0);
}

fn entry(path: &str, x: &str, y: &str) -> GitPorcelainEntry {
    GitPorcelainEntry {
        path: path.to_string(),
        original_path: None,
        index_status: x.to_string(),
        worktree_status: y.to_string(),
    }
}

#[test]
fn status_files_join_classify_and_filter() {
    let entries = vec![entry("src/a.rs", "M", " "), entry("other/b.rs", "?", "?"), entry("new.rs", "?", "?")];
    let files = git_status_files("/repo", &entries, &vec![true, false, true]);
    assert_eq!(files.len(), 2);
    assert_eq!(files[0].file_path, "/repo/src/a.rs");
    assert_eq!(files[0].status, GitFileStatusKind::Modified);
    assert_eq!(files[1].file_path, "/repo/new.rs");
    assert_eq!(files[1].code, GitStatusCode::Untracked);
    assert_eq!(files[1].index_status, "?");
    let rooted = git_status_files("/repo/", &vec![entry("x", "A", " ")], &vec![true]);
    assert_eq!(rooted[0].file_path, "/repo/x");
    let totals = git_status_totals(&files, (5, 2), &vec![100, 7]);
    assert_eq!(totals, (12, 2));
}

#[test]
fn status_entries_found_by_path() {
    let entries = vec![entry("a", "M", " "), entry("b", "D", " ")];
    assert_eq!(find_status_entry(&entries, "b"), Some(1));
    assert_eq!(find_status_entry(&entries, "c"), None);
}

#[test]
fn file_diff_responses() {
    let none = unsupported_diff();
    assert!(!none.supported && none.status.is_none() && none.patch.is_none());
    let hunk = "diff --git a/x b/x\n@@ -1 +1 @@\n-a\n+b".to_string();
    let d = diff_from_patch(GitFileStatusKind::Deleted, Some(hunk.clone()));
    assert!(d.supported);
    assert_eq!(d.patch.as_deref(), Some(hunk.as_str()));
    assert!(!diff_from_patch(GitFileStatusKind::Modified, Some("no hunk".to_string())).supported);
    assert!(!diff_from_patch(GitFileStatusKind::Modified, None).supported);

    let untracked = present_file_diff(GitFileStatusKind::Untracked, "n.txt", "hi\n", None);
    assert!(untracked.supported);
    assert_eq!(untracked.status, Some(GitFileStatusKind::Untracked));
    assert_eq!(untracked.patch.as_deref(), Some(create_added_file_patch("n.txt", "hi\n").as_str()));
    let added = present_file_diff(GitFileStatusKind::Added, "n.txt", "hi\n", None);
    assert!(added.supported);
    let modified = present_file_diff(GitFileStatusKind::Modified, "n.txt", "hi\n", None);
    assert!(!modified.supported);
    let from_git = present_file_diff(GitFileStatusKind::Modified, "n.txt", "hi\n", Some(hunk.clone()));
    assert_eq!(from_git.patch.as_deref(), Some(hunk.as_str()));
}
