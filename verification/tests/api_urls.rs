use bearclaw::api::{
    add_file, add_tag, add_text, archive_note, build_url, create_note, delete_tag, edit_note,
    rename_tag, trash_note, verify_delay, verify_write, VerifyStep,
};

#[test]
fn build_url_encodes_values() {
    let url = build_url("create", &[("title", "a b"), ("text", "x&y=z")]);
    assert_eq!(
        url,
        "bear://x-callback-url/create?show_window=no&title=a%20b&text=x%26y%3Dz"
    );
}

#[test]
fn build_url_keeps_unreserved_characters() {
    let url = build_url("open", &[("id", "AZaz09-._~")]);
    assert_eq!(url, "bear://x-callback-url/open?show_window=no&id=AZaz09-._~");
}

#[test]
fn build_url_encodes_utf8_bytes_in_upper_case_hex() {
    let url = build_url("create", &[("title", "é/ü")]);
    assert_eq!(
        url,
        "bear://x-callback-url/create?show_window=no&title=%C3%A9%2F%C3%BC"
    );
}

#[test]
fn build_url_without_params() {
    assert_eq!(build_url("trash", &[]), "bear://x-callback-url/trash?show_window=no");
}

#[test]
fn encoded_values_never_split_the_query() {
    let url = build_url("create", &[("text", "a&b=c?d#e f")]);
    let query = url.split('?').nth(1).unwrap();
    let fields: Vec<&str> = query.split('&').collect();
    assert_eq!(fields.len(), 2);
    assert_eq!(fields[1], "text=a%26b%3Dc%3Fd%23e%20f");
}

#[test]
fn create_note_url_closed_without_tags() {
    assert_eq!(
        create_note("T", "B", None, false),
        "bear://x-callback-url/create?show_window=no&title=T&text=B&open_note=no"
    );
}

#[test]
fn create_note_url_open_with_tags() {
    assert_eq!(
        create_note("T", "B", Some("a,b"), true),
        "bear://x-callback-url/create?show_window=no&title=T&text=B&tags=a%2Cb"
    );
}

#[test]
fn edit_note_url() {
    assert_eq!(
        edit_note("ID1", "new body"),
        "bear://x-callback-url/add-text?show_window=no&id=ID1&text=new%20body&mode=replace&open_note=no"
    );
}

#[test]
fn add_text_url_with_and_without_header() {
    assert_eq!(
        add_text("ID1", "x", "append", Some("Notes")),
        "bear://x-callback-url/add-text?show_window=no&id=ID1&text=x&mode=append&open_note=no&header=Notes"
    );
    assert_eq!(
        add_text("ID1", "x", "prepend", None),
        "bear://x-callback-url/add-text?show_window=no&id=ID1&text=x&mode=prepend&open_note=no"
    );
}

#[test]
fn trash_and_archive_urls() {
    assert_eq!(
        trash_note("ID1"),
        "bear://x-callback-url/trash?show_window=no&id=ID1&show_window=no"
    );
    assert_eq!(
        archive_note("ID1"),
        "bear://x-callback-url/archive?show_window=no&id=ID1&show_window=no"
    );
}

#[test]
fn tag_urls() {
    assert_eq!(
        add_tag("ID1", "work,home"),
        "bear://x-callback-url/add-text?show_window=no&id=ID1&tags=work%2Chome&open_note=no"
    );
    assert_eq!(
        rename_tag("old", "new/name"),
        "bear://x-callback-url/rename-tag?show_window=no&name=old&new_name=new%2Fname&show_window=no"
    );
    assert_eq!(
        delete_tag("old"),
        "bear://x-callback-url/delete-tag?show_window=no&name=old&show_window=no"
    );
}

#[test]
fn add_file_url() {
    assert_eq!(
        add_file("ID1", "aGk=", "a b.txt"),
        "bear://x-callback-url/add-file?show_window=no&id=ID1&file=aGk%3D&filename=a%20b.txt&open_note=no"
    );
}

#[test]
fn verify_schedule_waits_eight_seconds_in_five_steps() {
    let delays: Vec<u64> = (0..6).filter_map(verify_delay).collect();
    assert_eq!(delays, vec![500, 1000, 1500, 2000, 3000]);
    assert_eq!(delays.iter().sum::<u64>(), 8000);
    assert_eq!(verify_delay(5), None);
}

#[test]
fn verify_write_steps() {
    assert_eq!(verify_write(0, true), VerifyStep::Done(true));
    assert_eq!(verify_write(0, false), VerifyStep::Wait(1000));
    assert_eq!(verify_write(3, false), VerifyStep::Wait(3000));
    assert_eq!(verify_write(4, false), VerifyStep::Done(false));
    assert_eq!(verify_write(4, true), VerifyStep::Done(true));
}

#[test]
fn verify_write_gives_up_after_five_checks() {
    let mut attempt = 0;
    let mut checks = 1;
    loop {
        match verify_write(attempt, false) {
            VerifyStep::Wait(_) => {
                attempt += 1;
                checks += 1;
            }
            VerifyStep::Done(seen) => {
                assert!(!seen);
                break;
            }
        }
    }
    assert_eq!(checks, 5);
}
