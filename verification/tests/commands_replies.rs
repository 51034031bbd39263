use bearclaw::commands::batch::{batch_archive, batch_tag, batch_targets};
use bearclaw::commands::export::{export_done, export_notes, sanitize_filename};
use bearclaw::commands::note::{
    append_text, append_text_reply, archive_note, backlinks, create_note, create_note_reply,
    edit_note, edit_note_reply, pick_title_match, prepend_text, prepend_text_reply, read_note,
    resolve_text, search_notes, section, stdin_text_if_any, trash_note, unescape, TextSource,
};
use bearclaw::commands::stats::show_stats;
use bearclaw::commands::tag::{add_tag, delete_tag, list_tags, rename_tag, untagged};
use bearclaw::health::{db_not_found, health_status};
use bearclaw::models::{Note, NoteSummary, Stats};
use bearclaw::output::Response;

fn note(id: &str, title: &str, tags: &[&str], text: &str) -> Note {
    Note {
        id: id.to_string(),
        title: title.to_string(),
        text: text.to_string(),
        tags: tags.iter().map(|t| t.to_string()).collect(),
        created_at: "2024-01-15T00:00:00Z".to_string(),
        modified_at: "2024-01-16T00:00:00Z".to_string(),
        is_pinned: false,
        is_archived: false,
        is_trashed: false,
        has_files: false,
        has_images: false,
    }
}

fn summary(id: &str) -> NoteSummary {
    NoteSummary {
        id: id.to_string(),
        title: String::new(),
        created_at: String::new(),
        modified_at: String::new(),
        is_pinned: false,
        tags: vec![],
    }
}

fn failure<T>(r: &Response<T>) -> (bool, Option<&str>, Option<&str>) {
    (r.ok, r.code.as_deref(), r.error.as_deref())
}

#[test]
fn unescape_turns_escapes_into_characters() {
    assert_eq!(unescape("a\\nb\\tc"), "a\nb\tc");
    assert_eq!(unescape("plain"), "plain");
    assert_eq!(unescape("\\\\n"), "\\\n");
    assert_eq!(unescape("\\"), "\\");
    let out = unescape("x\\n\\t\\\\t\\nn");
    assert!(!out.contains("\\n") && !out.contains("\\t"));
}

#[test]
fn text_sources() {
    assert!(matches!(resolve_text(Some("a\\nb"), Some("f"), false), TextSource::Inline(t) if t == "a\nb"));
    assert!(matches!(resolve_text(None, Some("-"), true), TextSource::Stdin));
    assert!(matches!(resolve_text(None, Some("notes.md"), true), TextSource::File(p) if p == "notes.md"));
    assert!(matches!(resolve_text(None, None, false), TextSource::StdinIfAny));
    assert!(matches!(resolve_text(None, None, true), TextSource::Missing));
    assert_eq!(stdin_text_if_any(String::new()), None);
    assert_eq!(stdin_text_if_any("x".to_string()), Some("x".to_string()));
}

#[test]
fn title_matches() {
    assert!(matches!(pick_title_match(vec![]), Ok(None)));
    assert!(matches!(pick_title_match(vec![note("A", "t", &[], "")]), Ok(Some(n)) if n.id == "A"));
    assert_eq!(
        pick_title_match(vec![note("A", "t", &[], ""), note("B", "t", &[], "")]).err(),
        Some("AMBIGUOUS_TITLE".to_string())
    );
}

#[test]
fn read_note_replies() {
    let r = read_note(Ok(Some(note("A", "t", &[], ""))));
    assert!(r.ok && r.data.as_ref().unwrap().id == "A");
    assert_eq!(failure(&read_note(Ok(None))), (false, Some("NOT_FOUND"), Some("Note not found")));
    assert_eq!(
        failure(&read_note(Err("ENCRYPTED_NOTE".to_string()))),
        (false, Some("ENCRYPTED_NOTE"), Some("Note is encrypted and cannot be read"))
    );
    assert_eq!(
        failure(&read_note(Err("AMBIGUOUS_TITLE".to_string()))),
        (false, Some("DB_ERROR"), Some("AMBIGUOUS_TITLE"))
    );
}

#[test]
fn list_replies_carry_counts() {
    let r = search_notes(Ok(vec![summary("A"), summary("B")]));
    assert!(r.ok);
    assert_eq!(r.count, Some(2));
    assert_eq!(failure(&search_notes(Err("boom".into()))), (false, Some("SEARCH_ERROR"), Some("boom")));
    assert_eq!(untagged(Ok(vec![])).count, Some(0));
    assert_eq!(failure(&untagged(Err("x".into()))).1, Some("DB_ERROR"));
    assert_eq!(list_tags(Ok(vec![])).count, Some(0));
    assert_eq!(failure(&list_tags(Err("x".into()))).1, Some("DB_ERROR"));
    assert_eq!(backlinks(Ok(vec![])).count, Some(0));
    assert_eq!(failure(&backlinks(Err("x".into()))).1, Some("DB_ERROR"));
}

#[test]
fn section_replies() {
    assert_eq!(section(Ok(Some("s".into()))).data, Some("s".to_string()));
    assert_eq!(failure(&section(Ok(None))), (false, Some("NOT_FOUND"), Some("Section not found")));
    assert_eq!(
        failure(&section(Err("AMBIGUOUS_TITLE".into()))),
        (false, Some("AMBIGUOUS_TITLE"), Some("Multiple notes match this title"))
    );
    assert_eq!(failure(&section(Err("io".into()))), (false, Some("DB_ERROR"), Some("io")));
}

#[test]
fn create_note_steps() {
    assert_eq!(
        create_note("T", Ok(None), None).ok(),
        Some("bear://x-callback-url/create?show_window=no&title=T&text=&open_note=no".to_string())
    );
    assert_eq!(
        create_note("T", Ok(Some("b".into())), Some("x")).ok(),
        Some("bear://x-callback-url/create?show_window=no&title=T&text=b&open_note=no&tags=x".to_string())
    );
    let e = create_note("T", Err("no file".into()), None).unwrap_err();
    assert_eq!(failure(&e), (false, Some("INPUT_ERROR"), Some("no file")));
    assert!(create_note_reply(Ok(())).ok);
    assert_eq!(failure(&create_note_reply(Err("x".into()))).1, Some("CREATE_ERROR"));
}

#[test]
fn edit_append_prepend_steps() {
    assert!(edit_note("I", Ok(Some("b".into()))).unwrap().contains("mode=replace"));
    assert_eq!(
        failure(&edit_note("I", Ok(None)).unwrap_err()),
        (false, Some("INPUT_ERROR"), Some("Either --body or --body-file is required"))
    );
    assert_eq!(
        failure(&append_text("I", Ok(None), None).unwrap_err()),
        (false, Some("INPUT_ERROR"), Some("Either --text or --text-file is required"))
    );
    assert!(append_text("I", Ok(Some("t".into())), Some("H")).unwrap().ends_with("mode=append&open_note=no&header=H"));
    assert!(prepend_text("I", Ok(Some("t".into()))).unwrap().ends_with("mode=prepend&open_note=no"));
    assert_eq!(failure(&prepend_text("I", Err("e".into())).unwrap_err()).1, Some("INPUT_ERROR"));

    assert!(edit_note_reply(Ok(true)).ok);
    assert_eq!(
        failure(&edit_note_reply(Ok(false))),
        (false, Some("VERIFY_TIMEOUT"), Some("Write could not be verified"))
    );
    assert_eq!(failure(&edit_note_reply(Err("x".into()))).1, Some("EDIT_ERROR"));
    assert_eq!(failure(&append_text_reply(Err("x".into()))).1, Some("APPEND_ERROR"));
    assert_eq!(failure(&prepend_text_reply(Err("x".into()))).1, Some("PREPEND_ERROR"));
    assert_eq!(failure(&prepend_text_reply(Ok(false))).1, Some("VERIFY_TIMEOUT"));
}

#[test]
fn simple_write_replies() {
    assert!(trash_note(Ok(())).ok);
    assert_eq!(failure(&trash_note(Err("x".into()))).1, Some("TRASH_ERROR"));
    assert_eq!(failure(&archive_note(Err("x".into()))).1, Some("ARCHIVE_ERROR"));
    assert_eq!(failure(&rename_tag(Err("x".into()))).1, Some("RENAME_ERROR"));
    assert_eq!(failure(&delete_tag(Err("x".into()))).1, Some("DELETE_ERROR"));
    assert!(rename_tag(Ok(())).ok && delete_tag(Ok(())).ok && archive_note(Ok(())).ok);
    assert!(add_tag(Ok(true)).ok);
    assert_eq!(
        failure(&add_tag(Ok(false))),
        (false, Some("VERIFY_TIMEOUT"), Some("Tag addition could not be verified"))
    );
    assert_eq!(failure(&add_tag(Err("x".into()))).1, Some("TAG_ERROR"));
}

#[test]
fn stats_reply() {
    let s = Stats {
        total_notes: 3,
        total_tags: 1,
        archived_count: 0,
        trashed_count: 0,
        untagged_count: 2,
        pinned_count: 0,
        with_files_count: 0,
        tag_distribution: vec![],
        monthly_trend: vec![],
    };
    assert_eq!(show_stats(Ok(s)).data.unwrap().total_notes, 3);
    assert_eq!(failure(&show_stats(Err("x".into()))).1, Some("DB_ERROR"));
}

#[test]
fn batch_targets_and_answers() {
    assert_eq!(
        failure(&batch_targets(Ok(vec![])).unwrap_err()),
        (false, Some("NOT_FOUND"), Some("No notes match the filter"))
    );
    assert_eq!(failure(&batch_targets(Err("q".into())).unwrap_err()).1, Some("SEARCH_ERROR"));
    let ids = batch_targets(Ok(vec![summary("A"), summary("B"), summary("C")])).unwrap();
    assert_eq!(ids, vec!["A", "B", "C"]);

    let r = batch_tag(&ids, vec![Ok(true), Ok(true), Ok(true)]);
    assert!(r.ok && r.count == Some(3) && r.code.is_none());
    let data = r.data.unwrap();
    assert_eq!(data.succeeded, vec!["A", "B", "C"]);
    assert!(data.failed.is_empty());

    let r = batch_tag(&ids, vec![Ok(true), Ok(false), Err("boom".into())]);
    assert_eq!(failure(&r), (false, Some("PARTIAL_FAILURE"), Some("Some operations failed")));
    assert_eq!(r.count, Some(3));
    let data = r.data.unwrap();
    assert_eq!(data.succeeded, vec!["A"]);
    let failed: Vec<(&str, &str)> = data.failed.iter().map(|f| (f.id.as_str(), f.error.as_str())).collect();
    assert_eq!(failed, vec![("B", "VERIFY_TIMEOUT"), ("C", "boom")]);

    let r = batch_archive(&ids, vec![Ok(()), Err("x".into()), Ok(())]);
    assert!(!r.ok);
    let data = r.data.unwrap();
    assert_eq!(data.succeeded.len() + data.failed.len(), 3);
    assert_eq!(data.succeeded, vec!["A", "C"]);
    assert!(batch_archive(&ids, vec![Ok(()), Ok(()), Ok(())]).ok);
}

#[test]
fn sanitized_file_names() {
    assert_eq!(sanitize_filename("  My/Note: Test?  "), "My_Note_ Test_");
    assert_eq!(sanitize_filename("a\\b*c\"d<e>f|g\0h"), "a_b_c_d_e_f_g_h");
    assert_eq!(sanitize_filename("   "), "");
    for name in ["  x/y: z?  ", "\t<a>\n", "ok"] {
        let once = sanitize_filename(name);
        assert_eq!(sanitize_filename(&once), once);
        assert!(!once.contains(['/', '\\', ':', '*', '?', '"', '<', '>', '|', '\0']));
        assert_eq!(once, once.trim());
    }
}

#[test]
fn exported_files() {
    let notes = vec![
        note("0123456789ABCDEF", "Plan: Q1", &["work", "a/b"], "Body\n"),
        note("SHORT", "  ", &[], "x"),
    ];
    let files = export_notes(&notes);
    assert_eq!(files.len(), 2);
    assert_eq!(files[0].filename, "Plan_ Q1--01234567.md");
    assert_eq!(
        files[0].content,
        "---\ntags: [\"work\", \"a/b\"]\ncreated: 2024-01-15T00:00:00Z\nmodified: 2024-01-16T00:00:00Z\nbear_id: 0123456789ABCDEF\n---\n\nBody\n"
    );
    assert_eq!(files[1].filename, "untitled--SHORT.md");
    assert_eq!(
        files[1].content,
        "---\ncreated: 2024-01-15T00:00:00Z\nmodified: 2024-01-16T00:00:00Z\nbear_id: SHORT\n---\n\nx"
    );
    let done = export_done(2, "/tmp/out");
    assert!(done.ok);
    let d = done.data.unwrap();
    assert_eq!((d.exported, d.output_dir.as_str()), (2, "/tmp/out"));
}

#[test]
fn health_reports() {
    let h = health_status(true, true, "/db", Some(true), Some((10, 3)));
    assert!(h.schema_ok);
    assert_eq!((h.note_count, h.tag_count), (Some(10), Some(3)));
    let h = health_status(false, true, "/db", Some(false), Some((10, 3)));
    assert!(!h.schema_ok);
    assert_eq!((h.note_count, h.tag_count), (None, None));
    let h = health_status(false, false, "/none", None, None);
    assert!(!h.db_exists && !h.schema_ok && h.db_path == "/none");
    assert_eq!(
        failure(&db_not_found("/x.sqlite")),
        (false, Some("DB_NOT_FOUND"), Some("Database not found at: /x.sqlite"))
    );
}

#[test]
fn response_constructors() {
    let r = Response::success(5);
    assert!(r.ok && r.data == Some(5) && r.count.is_none());
    let r = Response::success_with_count(vec![1, 2], 2);
    assert_eq!(r.count, Some(2));
    let r = Response::<()>::error("C", "m");
    assert_eq!(failure(&r), (false, Some("C"), Some("m")));
    let r = Response::<()>::ok_empty();
    assert!(r.ok && r.data.is_none() && r.error.is_none() && r.code.is_none());
}
