use pi_web::file::fuzzy::{
    build_at_insert_text, build_at_mention_text, build_entries_from_files,
    build_file_at_mentions_text, build_file_line_mention_text, extract_at_query,
    filter_file_entries, filter_file_entries_checked, locale_compare_default, utf16_len_of,
    AtInsertion, AtQueryMatch, FileIndexEntry, AT_RESULT_LIMIT,
};

fn entry(path: &str, is_dir: bool) -> FileIndexEntry {
    FileIndexEntry {
        path: path.to_string(),
        is_dir,
    }
}

#[test]
fn extract_at_query_plain() {
    assert_eq!(
        extract_at_query("@"),
        Some(AtQueryMatch {
            start: 0,
            query: String::new(),
            quoted: false
        })
    );
    assert_eq!(
        extract_at_query("  @foo"),
        Some(AtQueryMatch {
            start: 2,
            query: "foo".to_string(),
            quoted: false
        })
    );
    assert_eq!(
        extract_at_query("hi @foo"),
        Some(AtQueryMatch {
            start: 3,
            query: "foo".to_string(),
            quoted: false
        })
    );
    assert_eq!(
        extract_at_query("\t@tab"),
        Some(AtQueryMatch {
            start: 1,
            query: "tab".to_string(),
            quoted: false
        })
    );
    assert_eq!(extract_at_query("a@b"), None);
    assert_eq!(extract_at_query("foo@bar.com"), None);
    assert_eq!(extract_at_query("@foo bar"), None);
    assert_eq!(
        extract_at_query(" @a@b"),
        Some(AtQueryMatch {
            start: 1,
            query: "a@b".to_string(),
            quoted: false
        })
    );
}

#[test]
fn extract_at_query_quoted() {
    assert_eq!(
        extract_at_query("@\"my dir/"),
        Some(AtQueryMatch {
            start: 0,
            query: "my dir/".to_string(),
            quoted: true
        })
    );
    assert_eq!(
        extract_at_query("hi @\"a b"),
        Some(AtQueryMatch {
            start: 3,
            query: "a b".to_string(),
            quoted: true
        })
    );
    assert_eq!(
        extract_at_query("@\""),
        Some(AtQueryMatch {
            start: 0,
            query: String::new(),
            quoted: true
        })
    );
    assert_eq!(extract_at_query("@\"my dir/x\""), None);
    assert_eq!(extract_at_query("@\"x\""), None);
    assert_eq!(extract_at_query("@\"quoted\"rest"), None);
}

#[test]
fn extract_at_query_counts_utf16_units() {
    // "😀" is two UTF-16 code units, "é" one.
    assert_eq!(
        extract_at_query("😀é @x"),
        Some(AtQueryMatch {
            start: 4,
            query: "x".to_string(),
            quoted: false
        })
    );
    assert_eq!(utf16_len_of("a😀"), 3);
    // A newline inside the quoted form ends it; the plain form then fails on `"`.
    assert_eq!(extract_at_query("@\"a\nb"), None);
}

#[test]
fn build_entries_from_files_behavior() {
    let files = vec![
        "src/App.tsx".to_string(),
        "src/components/Chat.tsx".to_string(),
        "README.md".to_string(),
    ];
    let entries = build_entries_from_files(&files);
    assert_eq!(
        entries.iter().map(|e| e.path.as_str()).collect::<Vec<_>>(),
        vec![
            "README.md",
            "src",
            "src/App.tsx",
            "src/components",
            "src/components/Chat.tsx"
        ]
    );
    assert_eq!(entries[0].is_dir, false);
    assert_eq!(entries[1].is_dir, true);
    let entries = build_entries_from_files(&["".to_string()]);
    assert!(entries.is_empty());
}

#[test]
fn build_entries_dedups_directories() {
    let files = vec!["a/b/c.ts".to_string(), "a/b/d.ts".to_string(), "a/e.ts".to_string()];
    let entries = build_entries_from_files(&files);
    assert_eq!(
        entries,
        vec![
            entry("a", true),
            entry("a/b", true),
            entry("a/e.ts", false),
            entry("a/b/c.ts", false),
            entry("a/b/d.ts", false),
        ]
    );
}

#[test]
fn filter_empty_query_returns_slice() {
    let entries = vec![entry("a.ts", false), entry("b.ts", false)];
    assert_eq!(
        filter_file_entries(&entries, "", 1),
        vec![entry("a.ts", false)]
    );
    assert_eq!(filter_file_entries(&entries, "", 0).len(), 0);
}

#[test]
fn filter_scoring_ladder() {
    let entries = vec![
        entry("src/App.tsx", false),
        entry("app/main.ts", false),
        entry("src/App.css", false),
    ];
    let out = filter_file_entries(&entries, "app", 20);
    assert!(out[0].path.starts_with("src/App."));
    assert!(out[1].path.starts_with("src/App."));
    assert_eq!(out[2].path, "app/main.ts");
    let entries = vec![
        entry("src", true),
        entry("src/App.tsx", false),
        entry("src/App.css", false),
    ];
    let out = filter_file_entries(&entries, "src/", 20);
    assert!(!out.iter().any(|e| e.path == "src"));
    assert_eq!(out.len(), 2);
}

#[test]
fn filter_dir_bonus_and_subsequence() {
    let entries = vec![entry("src/App.tsx", false), entry("src", true)];
    let out = filter_file_entries(&entries, "src", 20);
    assert_eq!(out[0].path, "src");
    assert_eq!(out[0].is_dir, true);
    let entries = vec![entry("components/ChatInput.tsx", false)];
    let out = filter_file_entries(&entries, "chinp", 20);
    assert_eq!(out.len(), 1);
}

#[test]
fn filter_orders_ties_by_depth_then_collation() {
    let entries = vec![
        entry("b/x.ts", false),
        entry("x.ts", false),
        entry("a/x.ts", false),
        entry("zzz", false),
    ];
    let out = filter_file_entries(&entries, "x.ts", AT_RESULT_LIMIT);
    assert_eq!(
        out,
        vec![entry("x.ts", false), entry("a/x.ts", false), entry("b/x.ts", false)]
    );
    let out = filter_file_entries(&entries, "X.TS", 2);
    assert_eq!(out, vec![entry("x.ts", false), entry("a/x.ts", false)]);
}

#[test]
fn filter_checked_reports_failing_subsequence_scan() {
    let entries = vec![entry("éaxb", false)];
    assert_eq!(filter_file_entries_checked(&entries, "éx", 20), None);
    let entries = vec![entry("abc", false)];
    assert_eq!(
        filter_file_entries_checked(&entries, "ac", 20),
        Some(vec![entry("abc", false)])
    );
}

#[test]
fn insert_text_variants() {
    assert_eq!(
        build_at_insert_text("src/App.tsx", false, false),
        AtInsertion {
            text: "@src/App.tsx ".to_string(),
            cursor_offset: 13,
        }
    );
    assert_eq!(
        build_at_insert_text("src", true, false),
        AtInsertion {
            text: "@src/".to_string(),
            cursor_offset: 5,
        }
    );
    let ins = build_at_insert_text("my dir", true, false);
    assert_eq!(ins.text, "@\"my dir/\"");
    assert_eq!(ins.cursor_offset, ins.text.len() - 1);
    let ins = build_at_insert_text("plain", false, true);
    assert_eq!(ins.text, "@\"plain\" ");
}

#[test]
fn insert_text_cursor_counts_utf16_units() {
    let ins = build_at_insert_text("é", false, false);
    assert_eq!(ins.text, "@é ");
    assert_eq!(ins.cursor_offset, 3);
    let ins = build_at_insert_text("é.ts", false, false);
    assert_eq!(ins.text, "@é.ts ");
    assert_eq!(ins.cursor_offset, 6);
    let ins = build_at_insert_text("😀 d", true, false);
    assert_eq!(ins.text, "@\"😀 d/\"");
    assert_eq!(ins.cursor_offset, 7);
}

#[test]
fn mention_text_variants() {
    assert_eq!(build_at_mention_text("src/App.tsx", false), "@src/App.tsx ");
    assert_eq!(build_at_mention_text("my dir", true), "@\"my dir/\" ");
    assert_eq!(
        build_file_line_mention_text("a b.ts", 3, 3),
        "@\"a b.ts\":3 "
    );
    assert_eq!(build_file_line_mention_text("c.ts", 2, 5), "@c.ts:2-5 ");
    assert_eq!(build_file_line_mention_text("c.ts", 5, 2), "@c.ts:2-5 ");
    assert_eq!(build_file_line_mention_text("c.ts", 0, 0), "@c.ts:1 ");
    assert_eq!(
        build_file_at_mentions_text(&["a.ts".to_string(), "b.ts".to_string()]),
        "@a.ts @b.ts "
    );
}

#[test]
fn line_mention_multi_digit() {
    assert_eq!(build_file_line_mention_text("f", 120, 7), "@f:7-120 ");
}

#[test]
fn locale_compare_approximation() {
    assert_eq!(locale_compare_default("a", "b"), std::cmp::Ordering::Less);
    assert_eq!(
        locale_compare_default("A", "a"),
        std::cmp::Ordering::Greater
    );
    assert_eq!(
        locale_compare_default("B", "a"),
        std::cmp::Ordering::Greater
    );
    assert_eq!(
        locale_compare_default("a-b", "ab"),
        std::cmp::Ordering::Less
    );
    assert_eq!(
        locale_compare_default("src/a", "src/b"),
        std::cmp::Ordering::Less
    );
    assert_eq!(locale_compare_default("a", "a"), std::cmp::Ordering::Equal);
}

#[test]
fn locale_compare_is_antisymmetric_on_samples() {
    let samples = ["a", "A", "b", "B", "a-b", "ab", "Ab", "é", "É", ""];
    for x in samples.iter() {
        for y in samples.iter() {
            assert_eq!(
                locale_compare_default(x, y),
                locale_compare_default(y, x).reverse()
            );
        }
    }
}
