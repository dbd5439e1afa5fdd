use pi_web::diff::{parse_unified_patch, parse_unified_patch_checked, SplitDiffCellType, SplitDiffRow};

#[test]
fn parse_simple_patch() {
    let patch = "--- a/test.rs\n+++ b/test.rs\n@@ -1,2 +1,2 @@\n old line\n-new line\n+new modified\n context\n";
    let result = parse_unified_patch(patch).unwrap();
    assert_eq!(result.len(), 1);
    assert_eq!(result[0].old_path.as_deref(), Some("a/test.rs"));
    assert_eq!(result[0].new_path.as_deref(), Some("b/test.rs"));
    assert!(result[0].rows.iter().any(|r| matches!(r, SplitDiffRow::Line { .. })));
}

#[test]
fn null_for_empty() {
    assert!(parse_unified_patch("").is_none());
    assert!(parse_unified_patch("not a patch").is_none());
}

#[test]
fn diff_rows_pair_removed_and_added_lines() {
    let patch = "--- a/x\n+++ b/x\n@@ -10,3 +10,2 @@\n ctx\n-a\n-b\n+c\n";
    let files = parse_unified_patch(patch).unwrap();
    let rows = &files[0].rows;
    assert_eq!(rows.len(), 4);
    match &rows[0] {
        SplitDiffRow::Hunk { text } => assert_eq!(text, "@@ -10,3 +10,2 @@"),
        _ => panic!("expected hunk row"),
    }
    match &rows[1] {
        SplitDiffRow::Line { left, right } => {
            assert_eq!(left.line_no, Some(10));
            assert_eq!(right.line_no, Some(10));
            assert_eq!(left.cell_type, SplitDiffCellType::Context);
            assert_eq!(left.text, "ctx");
        }
        _ => panic!("expected line row"),
    }
    match &rows[2] {
        SplitDiffRow::Line { left, right } => {
            assert_eq!(left.line_no, Some(11));
            assert_eq!(left.text, "a");
            assert_eq!(left.cell_type, SplitDiffCellType::Removed);
            assert_eq!(right.line_no, Some(11));
            assert_eq!(right.text, "c");
            assert_eq!(right.cell_type, SplitDiffCellType::Added);
        }
        _ => panic!("expected line row"),
    }
    match &rows[3] {
        SplitDiffRow::Line { left, right } => {
            assert_eq!(left.line_no, Some(12));
            assert_eq!(left.text, "b");
            assert_eq!(right.line_no, None);
            assert_eq!(right.cell_type, SplitDiffCellType::Empty);
        }
        _ => panic!("expected line row"),
    }
}

#[test]
fn diff_hunk_without_file_header_and_no_newline_marker() {
    let patch = "@@ -1 +1 @@\n-x\n+y\n\\ No newline at end of file\n";
    let files = parse_unified_patch(patch).unwrap();
    assert_eq!(files.len(), 1);
    assert_eq!(files[0].old_path, None);
    assert_eq!(files[0].rows.len(), 3);
    match &files[0].rows[2] {
        SplitDiffRow::Hunk { text } => assert_eq!(text, "\\ No newline at end of file"),
        _ => panic!("expected annotation row"),
    }
}

#[test]
fn diff_paths_cut_at_tab_and_crlf() {
    let patch = "--- a/f.txt\t2024-01-01\r\n+++ b/f.txt\t2024-01-02\r\n@@ -1 +1 @@\r\n-x\r\n+y\r\n";
    let files = parse_unified_patch(patch).unwrap();
    assert_eq!(files[0].old_path.as_deref(), Some("a/f.txt"));
    assert_eq!(files[0].new_path.as_deref(), Some("b/f.txt"));
}

#[test]
fn diff_drops_files_without_line_rows() {
    let patch = "--- a/one\n+++ b/one\n--- a/two\n+++ b/two\n@@ -1 +1 @@\n-x\n+y\n";
    let files = parse_unified_patch(patch).unwrap();
    assert_eq!(files.len(), 1);
    assert_eq!(files[0].new_path.as_deref(), Some("b/two"));
}

#[test]
fn checked_patch_parse_refuses_counter_overflow() {
    let ok = "--- a/f\n+++ b/f\n@@ -1,1 +1,1 @@\n-a\n+b\n";
    let files = parse_unified_patch_checked(ok).unwrap().unwrap();
    assert_eq!(files.len(), parse_unified_patch(ok).unwrap().len());
    assert_eq!(files[0].new_path.as_deref(), Some("b/f"));
    let big = "--- a/f\n+++ b/f\n@@ -9223372036854775807,2 +1,2 @@\n x\n";
    assert!(parse_unified_patch_checked(big).is_none());
    let big_added = "--- a/f\n+++ b/f\n@@ -1,1 +9223372036854775807,2 @@\n+x\n";
    assert!(parse_unified_patch_checked(big_added).is_none());
    let last_line = "--- a/f\n+++ b/f\n@@ -9223372036854775806,1 +1,1 @@\n-x\n";
    assert!(parse_unified_patch_checked(last_line).unwrap().is_some());
}
