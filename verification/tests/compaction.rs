use pi_web::compaction::{compaction_from_matches, parse_compaction_summary};

#[test]
fn basic_parse() {
    let result = parse_compaction_summary("Summary text");
    assert_eq!(result.body, "Summary text");
    assert!(result.read_files.is_empty());
}

#[test]
fn parse_with_file_sections() {
    let summary = "Conversation about fixing a bug.\n\n<read-files>\nsrc/main.rs\nsrc/lib.rs\n</read-files>\n\n<modified-files>\nsrc/main.rs\n</modified-files>";
    let result = parse_compaction_summary(summary);
    assert_eq!(result.body, "Conversation about fixing a bug.");
    assert_eq!(result.read_files, vec!["src/main.rs", "src/lib.rs"]);
    assert_eq!(result.modified_files, vec!["src/main.rs"]);
}

#[test]
fn parse_empty_sections() {
    let summary = "Body text.\n\n<read-files>\n\n</read-files>";
    let result = parse_compaction_summary(summary);
    assert_eq!(result.body, "Body text.");
    assert!(result.read_files.is_empty());
}

#[test]
fn no_sections_returns_full_body() {
    let result = parse_compaction_summary("Just a summary\nwith newlines\nbut no tags");
    assert_eq!(result.body, "Just a summary\nwith newlines\nbut no tags");
    assert!(result.read_files.is_empty());
    assert!(result.modified_files.is_empty());
}

#[test]
fn sections_need_a_blank_line_before_them() {
    let summary = "Body\n<read-files>\na.rs\n</read-files>";
    let result = parse_compaction_summary(summary);
    assert_eq!(result.body, summary);
    assert!(result.read_files.is_empty());
}

#[test]
fn from_matches_trims_and_skips_blank_lines() {
    let result = compaction_from_matches(
        "ignored",
        Some(("  Body  \n".to_string(), "block".to_string())),
        vec!["  a.rs \n\n b.rs\r\n".to_string(), "c.rs".to_string()],
        vec![],
    );
    assert_eq!(result.body, "Body");
    assert_eq!(result.read_files, vec!["a.rs", "b.rs", "c.rs"]);
    assert!(result.modified_files.is_empty());
    let result = compaction_from_matches("  whole  ", None, vec![], vec!["x".to_string()]);
    assert_eq!(result.body, "whole");
    assert_eq!(result.modified_files, vec!["x"]);
}
