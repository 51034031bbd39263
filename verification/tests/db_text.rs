use bearclaw::db::notes::{
    backlink_from_row, check_not_encrypted, extract_section, file_from_row, note_from_row,
    summary_from_row, NoteRow,
};
use bearclaw::db::stats::monthly_trend;
use bearclaw::db::tags::build_tag_tree;
use bearclaw::db::{check_schema, default_db_path, required_table_names, resolve_db_path, table_count_sql};
use bearclaw::models::Tag;

const NOTE: &str = "# Title\nintro\n## Tasks\n- one\n- two\n### Sub\ndeep\n## Notes\nlast\n";

#[test]
fn section_runs_to_next_heading_of_same_level() {
    assert_eq!(
        extract_section(NOTE, "Tasks"),
        Some("- one\n- two\n### Sub\ndeep".to_string())
    );
}

#[test]
fn section_header_ignores_ascii_case_and_spacing() {
    assert_eq!(extract_section(NOTE, "tasks"), extract_section(NOTE, "TASKS"));
    assert_eq!(
        extract_section("  ##   Plan  \n\n  body  \n\n", "plan"),
        Some("body".to_string())
    );
}

#[test]
fn section_runs_to_end_and_stops_at_higher_heading() {
    assert_eq!(extract_section(NOTE, "Notes"), Some("last".to_string()));
    assert_eq!(extract_section(NOTE, "Sub"), Some("deep".to_string()));
    assert_eq!(
        extract_section(NOTE, "Title"),
        Some("intro\n## Tasks\n- one\n- two\n### Sub\ndeep\n## Notes\nlast".to_string())
    );
}

#[test]
fn section_missing_or_empty() {
    assert_eq!(extract_section(NOTE, "Nope"), None);
    assert_eq!(extract_section("", "x"), None);
    assert_eq!(extract_section("plain text\nno headings", "plain text"), None);
    assert_eq!(extract_section("# A\n# B\n", "A"), Some(String::new()));
}

#[test]
fn section_handles_crlf_and_first_match_only() {
    assert_eq!(
        extract_section("# A\r\none\r\n# A\r\ntwo\r\n", "a"),
        Some("one".to_string())
    );
}

#[test]
fn section_text_is_trimmed() {
    let s = extract_section("# H\n\n   padded   \n\n# K", "H").unwrap();
    assert_eq!(s, s.trim());
    assert_eq!(s, "padded");
}

fn find<'a>(tags: &'a [Tag], name: &str) -> &'a Tag {
    tags.iter().find(|t| t.name == name).unwrap()
}

#[test]
fn tag_tree_nests_by_slash() {
    let flat = vec![
        ("a".to_string(), 1u32),
        ("a/b".to_string(), 2),
        ("a/b/c".to_string(), 3),
        ("c".to_string(), 4),
    ];
    let tree = build_tag_tree(&flat);
    assert_eq!(tree.len(), 2);
    let a = find(&tree, "a");
    assert_eq!(a.note_count, 1);
    let b = find(&a.children, "a/b");
    assert_eq!(b.note_count, 2);
    let c = find(&b.children, "a/b/c");
    assert_eq!(c.note_count, 3);
    assert!(c.children.is_empty());
    assert_eq!(find(&tree, "c").note_count, 4);
}

#[test]
fn tag_tree_child_before_parent() {
    let flat = vec![("a/b".to_string(), 2u32), ("a".to_string(), 1)];
    let tree = build_tag_tree(&flat);
    assert_eq!(tree.len(), 1);
    assert_eq!(tree[0].name, "a");
    assert_eq!(tree[0].note_count, 1);
    assert_eq!(tree[0].children.len(), 1);
    assert_eq!(tree[0].children[0].name, "a/b");
    assert_eq!(tree[0].children[0].note_count, 2);
}

#[test]
fn tag_tree_intermediate_without_own_entry_counts_zero() {
    let flat = vec![("x/y".to_string(), 5u32)];
    let tree = build_tag_tree(&flat);
    assert_eq!(tree[0].name, "x");
    assert_eq!(tree[0].note_count, 0);
    assert_eq!(tree[0].children[0].name, "x/y");
    assert_eq!(tree[0].children[0].note_count, 5);
}

#[test]
fn tag_tree_later_duplicate_wins() {
    let flat = vec![("d".to_string(), 1u32), ("d".to_string(), 9)];
    let tree = build_tag_tree(&flat);
    assert_eq!(tree.len(), 1);
    assert_eq!(tree[0].note_count, 9);
    assert!(build_tag_tree(&[]).is_empty());
}

#[test]
fn monthly_trend_groups_and_sorts() {
    let dates = vec![
        "2024-01-05T10:00:00Z".to_string(),
        "2023-12-01T00:00:00Z".to_string(),
        "2024-01-20T00:00:00Z".to_string(),
        "short".to_string(),
        String::new(),
        "2023-02-28T00:00:00Z".to_string(),
    ];
    let trend = monthly_trend(&dates);
    let got: Vec<(String, u32)> = trend.into_iter().map(|m| (m.month, m.count)).collect();
    assert_eq!(
        got,
        vec![
            ("2023-02".to_string(), 1),
            ("2023-12".to_string(), 1),
            ("2024-01".to_string(), 2)
        ]
    );
    assert!(monthly_trend(&Vec::new()).is_empty());
}

#[test]
fn monthly_trend_counts_every_dated_note_once() {
    let dates: Vec<String> = (0..30)
        .map(|i| format!("20{:02}-0{}-01T00:00:00Z", 20 + i % 3, 1 + i % 4))
        .collect();
    let trend = monthly_trend(&dates);
    let total: u32 = trend.iter().map(|m| m.count).sum();
    assert_eq!(total, 30);
    assert!(trend.windows(2).all(|w| w[0].month < w[1].month));
}

#[test]
fn rows_become_models() {
    let row = NoteRow {
        uid: "U1".to_string(),
        title: None,
        text: Some("body".to_string()),
        created_at: "c".to_string(),
        modified_at: "m".to_string(),
        pinned: 1,
        archived: 0,
        trashed: 2,
        has_files: 0,
        has_images: -1,
    };
    let n = note_from_row(row, vec!["t".to_string()]);
    assert_eq!(n.id, "U1");
    assert_eq!(n.title, "");
    assert_eq!(n.text, "body");
    assert_eq!(n.tags, vec!["t".to_string()]);
    assert!(n.is_pinned && !n.is_archived && n.is_trashed && !n.has_files && n.has_images);

    let s = summary_from_row("U2".to_string(), Some("T".to_string()), "c".into(), "m".into(), 0, vec![]);
    assert_eq!(s.title, "T");
    assert!(!s.is_pinned);
    let b = backlink_from_row("U3".to_string(), None);
    assert_eq!((b.id.as_str(), b.title.as_str()), ("U3", ""));
    let f = file_from_row(None, Some("ocr".to_string()));
    assert_eq!(f.filename, "");
    assert_eq!(f.search_text, Some("ocr".to_string()));
}

#[test]
fn encrypted_notes_are_refused() {
    assert_eq!(check_not_encrypted(0), Ok(()));
    assert_eq!(check_not_encrypted(1), Err("ENCRYPTED_NOTE".to_string()));
}

#[test]
fn schema_checks() {
    assert_eq!(
        required_table_names(),
        vec!["ZSFNOTE", "ZSFNOTETAG", "Z_5TAGS", "ZSFNOTEFILE", "ZSFNOTEBACKLINK"]
    );
    assert_eq!(
        table_count_sql("ZSFNOTE"),
        "SELECT COUNT(*) FROM sqlite_master WHERE type='table' AND name='ZSFNOTE'"
    );
    assert!(check_schema(&vec![Some(1), Some(1), Some(2), Some(1), Some(1)]));
    assert!(!check_schema(&vec![Some(1), Some(0), Some(1), Some(1), Some(1)]));
    assert!(!check_schema(&vec![Some(1), None, Some(1), Some(1), Some(1)]));
}

#[test]
fn database_paths() {
    let rel = "Library/Group Containers/9K33E3U3T4.net.shinyfrog.bear/Application Data/database.sqlite";
    assert_eq!(default_db_path(Some("/Users/me")), Some(format!("/Users/me/{rel}")));
    assert_eq!(default_db_path(Some("/Users/me/")), Some(format!("/Users/me/{rel}")));
    assert_eq!(default_db_path(None), None);
    assert_eq!(resolve_db_path(Some("/tmp/x.sqlite"), Some("/Users/me")), "/tmp/x.sqlite");
    assert_eq!(resolve_db_path(None, Some("/h")), format!("/h/{rel}"));
    assert_eq!(resolve_db_path(None, None), "");
}
