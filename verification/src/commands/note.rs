use vstd::prelude::*;

use crate::api;
use crate::commands::{list_reply, required_text, unit_reply, verified_reply};
use crate::models::{BacklinkNote, Note, NoteSummary};
use crate::output::{is_failure, is_ok_empty, Response};
use crate::text::{chars_of, str_eq, string_of};

verus! {

// ---------------------------------------------------------------------------
// Escapes in inline text
// ---------------------------------------------------------------------------

/// `s` with every backslash followed by `letter` replaced by `ctrl`,
/// scanning left to right (as `str::replace` does).
pub open spec fn replace_escape(s: Seq<char>, letter: char, ctrl: char) -> Seq<char>
    decreases s.len(),
{
    if s.len() < 2 {
        s
    } else if s[0] == '\\' && s[1] == letter {
        seq![ctrl] + replace_escape(s.skip(2), letter, ctrl)
    } else {
        seq![s[0]] + replace_escape(s.drop_first(), letter, ctrl)
    }
}

/// Inline text with `\n` and `\t` written out turned into newline and tab.
pub open spec fn unescaped(s: Seq<char>) -> Seq<char> {
    replace_escape(replace_escape(s, 'n', '\n'), 't', '\t')
}

fn replace_escape_chars(v: &[char], letter: char, ctrl: char) -> (r: Vec<char>)
    ensures
        r@ == replace_escape(v@, letter, ctrl),
{
    let n = v.len();
    let mut out: Vec<char> = Vec::new();
    let mut i: usize = 0;
    assert(v@.skip(0) == v@);
    while i < n
        invariant
            n == v@.len(),
            i <= n,
            out@ + replace_escape(v@.skip(i as int), letter, ctrl) == replace_escape(v@, letter, ctrl),
        decreases n - i,
    {
        let ghost rest = v@.skip(i as int);
        if i + 1 < n && v[i] == '\\' && v[i + 1] == letter {
            assert(rest.skip(2) == v@.skip(i + 2));
            out.push(ctrl);
            i = i + 2;
        } else if i + 1 < n {
            assert(rest.drop_first() == v@.skip(i + 1));
            out.push(v[i]);
            i = i + 1;
        } else {
            assert(rest == seq![v@[i as int]]);
            assert(v@.skip(i + 1).len() == 0);
            out.push(v[i]);
            i = i + 1;
        }
    }
    assert(v@.skip(n as int).len() == 0);
    out
}

/// Turns the escapes `\n` and `\t` in inline text into newline and tab.
pub fn unescape(s: &str) -> (r: String)
    ensures
        r@ == unescaped(s@),
{
    let v = chars_of(s);
    let once = replace_escape_chars(v.as_slice(), 'n', '\n');
    let twice = replace_escape_chars(once.as_slice(), 't', '\t');
    string_of(twice.as_slice())
}

/// `s` holds a backslash followed by `letter`.
pub open spec fn has_escape(s: Seq<char>, letter: char) -> bool {
    exists|i: int| 0 <= i < s.len() - 1 && #[trigger] s[i] == '\\' && s[i + 1] == letter
}

proof fn lemma_replace_removes(s: Seq<char>, letter: char, ctrl: char, other: char)
    requires
        ctrl != '\\',
        ctrl != letter,
        ctrl != other,
    ensures
        !has_escape(replace_escape(s, letter, ctrl), letter),
        !has_escape(s, other) ==> !has_escape(replace_escape(s, letter, ctrl), other),
        replace_escape(s, letter, ctrl).len() > 0 ==> (s.len() > 0 && (replace_escape(
            s,
            letter,
            ctrl,
        )[0] == s[0] || replace_escape(s, letter, ctrl)[0] == ctrl)),
    decreases s.len(),
{
    let r = replace_escape(s, letter, ctrl);
    if s.len() < 2 {
    } else if s[0] == '\\' && s[1] == letter {
        let t = s.skip(2);
        lemma_replace_removes(t, letter, ctrl, other);
        let tail = replace_escape(t, letter, ctrl);
        if !has_escape(s, other) {
            assert forall|i: int| 0 <= i < t.len() - 1 && #[trigger] t[i] == '\\' implies t[i + 1]
                != other by {
                assert(s[i + 2] == t[i] && s[i + 3] == t[i + 1]);
            }
        }
        assert forall|i: int| 0 <= i < r.len() - 1 && #[trigger] r[i] == '\\' implies r[i + 1]
            != letter by {
            assert(r[i] == tail[i - 1]);
            assert(r[i + 1] == tail[i]);
        }
        if !has_escape(s, other) {
            assert forall|i: int| 0 <= i < r.len() - 1 && #[trigger] r[i] == '\\' implies r[i + 1]
                != other by {
                assert(r[i] == tail[i - 1]);
                assert(r[i + 1] == tail[i]);
            }
        }
    } else {
        let t = s.drop_first();
        lemma_replace_removes(t, letter, ctrl, other);
        let tail = replace_escape(t, letter, ctrl);
        if !has_escape(s, other) {
            assert forall|i: int| 0 <= i < t.len() - 1 && #[trigger] t[i] == '\\' implies t[i + 1]
                != other by {
                assert(s[i + 1] == t[i] && s[i + 2] == t[i + 1]);
            }
        }
        assert forall|i: int| 0 <= i < r.len() - 1 && #[trigger] r[i] == '\\' implies r[i + 1]
            != letter && (!has_escape(s, other) ==> r[i + 1] != other) by {
            if i == 0 {
                assert(r[1] == tail[0]);
                assert(t[0] == s[1]);
                if tail[0] == other && !has_escape(s, other) {
                    assert(s[0] == '\\' && s[1] == other);
                }
            } else {
                assert(r[i] == tail[i - 1]);
                assert(r[i + 1] == tail[i]);
            }
        }
    }
}

/// Law: after unescaping, no `\n` or `\t` escape is left in the text.
pub proof fn law_unescape_leaves_no_escape(s: Seq<char>)
    ensures
        !has_escape(unescaped(s), 'n'),
        !has_escape(unescaped(s), 't'),
{
    let once = replace_escape(s, 'n', '\n');
    lemma_replace_removes(s, 'n', '\n', 't');
    lemma_replace_removes(once, 't', '\t', 'n');
}

// ---------------------------------------------------------------------------
// Where a command's text comes from
// ---------------------------------------------------------------------------

/// Where the text of a command comes from.
#[derive(Debug)]
pub enum TextSource {
    /// Given inline (escapes already turned into characters).
    Inline(String),
    /// All of standard input, even when empty.
    Stdin,
    /// The contents of the file at this path.
    File(String),
    /// Standard input, if it holds anything.
    StdinIfAny,
    /// No text was given.
    Missing,
}

/// Decides where a command's text comes from: inline text first (with its
/// `\n` and `\t` escapes turned into characters), then a file (`-` meaning
/// standard input), then standard input when it is not a terminal.
pub fn resolve_text(inline: Option<&str>, file_path: Option<&str>, stdin_is_terminal: bool) -> (r:
    TextSource)
    ensures
        match inline {
            Some(t) => r matches TextSource::Inline(u) && u@ == unescaped(t@),
            None => match file_path {
                Some(p) => if p@ == "-"@ {
                    r is Stdin
                } else {
                    r matches TextSource::File(q) && q@ == p@
                },
                None => if stdin_is_terminal {
                    r is Missing
                } else {
                    r is StdinIfAny
                },
            },
        },
{
    if let Some(text) = inline {
        return TextSource::Inline(unescape(text));
    }
    if let Some(path) = file_path {
        if str_eq(path, "-") {
            return TextSource::Stdin;
        }
        return TextSource::File(path.to_owned());
    }
    if !stdin_is_terminal {
        TextSource::StdinIfAny
    } else {
        TextSource::Missing
    }
}

/// What a look at standard input gives: its text, unless it is empty.
pub fn stdin_text_if_any(buf: String) -> (r: Option<String>)
    ensures
        buf@.len() == 0 ==> r is None,
        buf@.len() > 0 ==> r == Some(buf),
{
    if buf.as_str().is_empty() {
        None
    } else {
        Some(buf)
    }
}

// ---------------------------------------------------------------------------
// Reading
// ---------------------------------------------------------------------------

/// The note a title names: none when no note has it, the note when one
/// has it, and the error `AMBIGUOUS_TITLE` when several have it.
pub fn pick_title_match(notes: Vec<Note>) -> (r: Result<Option<Note>, String>)
    ensures
        notes@.len() == 0 ==> r == Ok::<Option<Note>, String>(None),
        notes@.len() == 1 ==> r == Ok::<Option<Note>, String>(Some(notes@[0])),
        notes@.len() > 1 ==> (r matches Err(e) && e@ == "AMBIGUOUS_TITLE"@),
{
    let mut notes = notes;
    if notes.len() == 0 {
        Ok(None)
    } else if notes.len() == 1 {
        Ok(Some(notes.remove(0)))
    } else {
        Err(String::from_str("AMBIGUOUS_TITLE"))
    }
}

/// The answer to reading a note: the note, `NOT_FOUND`, `ENCRYPTED_NOTE`
/// for an encrypted note, or `DB_ERROR` with the message.
pub fn read_note(outcome: Result<Option<Note>, String>) -> (r: Response<Note>)
    ensures
        match outcome {
            Ok(Some(n)) => r.ok && r.data == Some(n) && r.count is None && r.error is None
                && r.code is None,
            Ok(None) => is_failure(r, "NOT_FOUND"@, "Note not found"@),
            Err(e) => if e@ == "ENCRYPTED_NOTE"@ {
                is_failure(r, "ENCRYPTED_NOTE"@, "Note is encrypted and cannot be read"@)
            } else {
                is_failure(r, "DB_ERROR"@, e@)
            },
        },
{
    match outcome {
        Ok(Some(note)) => Response::success(note),
        Ok(None) => Response::failure("NOT_FOUND", "Note not found"),
        Err(e) => {
            if str_eq(e.as_str(), "ENCRYPTED_NOTE") {
                Response::failure("ENCRYPTED_NOTE", "Note is encrypted and cannot be read")
            } else {
                Response::failure("DB_ERROR", e.as_str())
            }
        },
    }
}

/// The answer to a search: the summaries with their number, or `SEARCH_ERROR`.
pub fn search_notes(outcome: Result<Vec<NoteSummary>, String>) -> (r: Response<Vec<NoteSummary>>)
    ensures
        match outcome {
            Ok(items) => r.ok && r.data == Some(items) && r.count == Some(items.len()) && r.error is None
                && r.code is None,
            Err(e) => is_failure(r, "SEARCH_ERROR"@, e@),
        },
{
    list_reply(outcome, "SEARCH_ERROR")
}

/// The answer to a section request: the section, `NOT_FOUND`,
/// `AMBIGUOUS_TITLE` when several notes have the title, or `DB_ERROR`.
pub fn section(outcome: Result<Option<String>, String>) -> (r: Response<String>)
    ensures
        match outcome {
            Ok(Some(c)) => r.ok && r.data == Some(c) && r.count is None && r.error is None
                && r.code is None,
            Ok(None) => is_failure(r, "NOT_FOUND"@, "Section not found"@),
            Err(e) => if e@ == "AMBIGUOUS_TITLE"@ {
                is_failure(r, "AMBIGUOUS_TITLE"@, "Multiple notes match this title"@)
            } else {
                is_failure(r, "DB_ERROR"@, e@)
            },
        },
{
    match outcome {
        Ok(Some(content)) => Response::success(content),
        Ok(None) => Response::failure("NOT_FOUND", "Section not found"),
        Err(e) => {
            if str_eq(e.as_str(), "AMBIGUOUS_TITLE") {
                Response::failure("AMBIGUOUS_TITLE", "Multiple notes match this title")
            } else {
                Response::failure("DB_ERROR", e.as_str())
            }
        },
    }
}

/// The answer to a backlinks request: the linking notes with their number,
/// or `DB_ERROR`.
pub fn backlinks(outcome: Result<Vec<BacklinkNote>, String>) -> (r: Response<Vec<BacklinkNote>>)
    ensures
        match outcome {
            Ok(items) => r.ok && r.data == Some(items) && r.count == Some(items.len()) && r.error is None
                && r.code is None,
            Err(e) => is_failure(r, "DB_ERROR"@, e@),
        },
{
    list_reply(outcome, "DB_ERROR")
}

// ---------------------------------------------------------------------------
// Writing
// ---------------------------------------------------------------------------

/// The text given, or the empty text.
pub open spec fn text_or_empty(t: Option<String>) -> Seq<char> {
    match t {
        Some(t) => t@,
        None => Seq::empty(),
    }
}

/// The first step of creating a note: the callback URL to open, made from
/// the body read (none meaning an empty body), or the answer
/// `INPUT_ERROR` when the body could not be read.
pub fn create_note(title: &str, body: Result<Option<String>, String>, tags: Option<&str>) -> (r:
    Result<String, Response<()>>)
    ensures
        match body {
            Ok(b) => r matches Ok(url) && url@ == api::callback_url(
                "create"@,
                seq![
                    ("title"@, title@),
                    ("text"@, text_or_empty(b)),
                    ("open_note"@, "no"@),
                ] + match tags {
                    Some(t) => seq![("tags"@, t@)],
                    None => Seq::empty(),
                },
            ),
            Err(e) => r matches Err(resp) && is_failure(resp, "INPUT_ERROR"@, e@),
        },
{
    match body {
        Ok(b) => {
            let body_text = match b {
                Some(t) => t,
                None => String::new(),
            };
            let url = api::create_note(title, body_text.as_str(), tags, false);
            let ghost tag_part = match tags {
                Some(t) => seq![("tags"@, t@)],
                None => Seq::<(Seq<char>, Seq<char>)>::empty(),
            };
            assert(body_text@ == text_or_empty(b));
            assert(seq![("title"@, title@), ("text"@, body_text@)] + seq![("open_note"@, "no"@)]
                + tag_part =~= seq![("title"@, title@), ("text"@, body_text@), ("open_note"@, "no"@)]
                + tag_part);
            Ok(url)
        },
        Err(e) => Err(Response::error("INPUT_ERROR", e.as_str())),
    }
}

/// The answer once the create URL was opened: empty success, or
/// `CREATE_ERROR` with the message.
pub fn create_note_reply(outcome: Result<(), String>) -> (r: Response<()>)
    ensures
        match outcome {
            Ok(()) => is_ok_empty(r),
            Err(e) => is_failure(r, "CREATE_ERROR"@, e@),
        },
{
    unit_reply(outcome, "CREATE_ERROR")
}

/// The first step of replacing a note's body: the callback URL, or the
/// answer `INPUT_ERROR` when no body was given or it could not be read.
pub fn edit_note(id: &str, body: Result<Option<String>, String>) -> (r: Result<String, Response<()>>)
    ensures
        match body {
            Ok(Some(t)) => r matches Ok(url) && url@ == api::callback_url(
                "add-text"@,
                seq![("id"@, id@), ("text"@, t@), ("mode"@, "replace"@), ("open_note"@, "no"@)],
            ),
            Ok(None) => r matches Err(resp) && is_failure(
                resp,
                "INPUT_ERROR"@,
                "Either --body or --body-file is required"@,
            ),
            Err(e) => r matches Err(resp) && is_failure(resp, "INPUT_ERROR"@, e@),
        },
{
    match required_text(body, "Either --body or --body-file is required") {
        Ok(t) => Ok(api::edit_note(id, t.as_str())),
        Err(resp) => Err(resp),
    }
}

/// The answer once an edit was sent and checked for.
pub fn edit_note_reply(outcome: Result<bool, String>) -> (r: Response<()>)
    ensures
        match outcome {
            Ok(true) => is_ok_empty(r),
            Ok(false) => is_failure(r, "VERIFY_TIMEOUT"@, "Write could not be verified"@),
            Err(e) => is_failure(r, "EDIT_ERROR"@, e@),
        },
{
    verified_reply(outcome, "EDIT_ERROR", "Write could not be verified")
}

/// The first step of appending text to a note, under `header` when given:
/// the callback URL, or the answer `INPUT_ERROR`.
pub fn append_text(id: &str, text: Result<Option<String>, String>, header: Option<&str>) -> (r:
    Result<String, Response<()>>)
    ensures
        match text {
            Ok(Some(t)) => r matches Ok(url) && url@ == api::callback_url(
                "add-text"@,
                seq![("id"@, id@), ("text"@, t@), ("mode"@, "append"@), ("open_note"@, "no"@)]
                    + match header {
                    Some(h) => seq![("header"@, h@)],
                    None => Seq::empty(),
                },
            ),
            Ok(None) => r matches Err(resp) && is_failure(
                resp,
                "INPUT_ERROR"@,
                "Either --text or --text-file is required"@,
            ),
            Err(e) => r matches Err(resp) && is_failure(resp, "INPUT_ERROR"@, e@),
        },
{
    match required_text(text, "Either --text or --text-file is required") {
        Ok(t) => Ok(api::add_text(id, t.as_str(), "append", header)),
        Err(resp) => Err(resp),
    }
}

/// The answer once an append was sent and checked for.
pub fn append_text_reply(outcome: Result<bool, String>) -> (r: Response<()>)
    ensures
        match outcome {
            Ok(true) => is_ok_empty(r),
            Ok(false) => is_failure(r, "VERIFY_TIMEOUT"@, "Write could not be verified"@),
            Err(e) => is_failure(r, "APPEND_ERROR"@, e@),
        },
{
    verified_reply(outcome, "APPEND_ERROR", "Write could not be verified")
}

/// The first step of prepending text to a note: the callback URL, or the
/// answer `INPUT_ERROR`.
pub fn prepend_text(id: &str, text: Result<Option<String>, String>) -> (r: Result<
    String,
    Response<()>,
>)
    ensures
        match text {
            Ok(Some(t)) => r matches Ok(url) && url@ == api::callback_url(
                "add-text"@,
                seq![("id"@, id@), ("text"@, t@), ("mode"@, "prepend"@), ("open_note"@, "no"@)],
            ),
            Ok(None) => r matches Err(resp) && is_failure(
                resp,
                "INPUT_ERROR"@,
                "Either --text or --text-file is required"@,
            ),
            Err(e) => r matches Err(resp) && is_failure(resp, "INPUT_ERROR"@, e@),
        },
{
    match required_text(text, "Either --text or --text-file is required") {
        Ok(t) => {
            let url = api::add_text(id, t.as_str(), "prepend", None);
            assert(seq![("id"@, id@), ("text"@, t@), ("mode"@, "prepend"@), ("open_note"@, "no"@)]
                + Seq::<(Seq<char>, Seq<char>)>::empty() =~= seq![
                ("id"@, id@),
                ("text"@, t@),
                ("mode"@, "prepend"@),
                ("open_note"@, "no"@),
            ]);
            Ok(url)
        },
        Err(resp) => Err(resp),
    }
}

/// The answer once a prepend was sent and checked for.
pub fn prepend_text_reply(outcome: Result<bool, String>) -> (r: Response<()>)
    ensures
        match outcome {
            Ok(true) => is_ok_empty(r),
            Ok(false) => is_failure(r, "VERIFY_TIMEOUT"@, "Write could not be verified"@),
            Err(e) => is_failure(r, "PREPEND_ERROR"@, e@),
        },
{
    verified_reply(outcome, "PREPEND_ERROR", "Write could not be verified")
}

/// The answer once the trash URL was opened.
pub fn trash_note(outcome: Result<(), String>) -> (r: Response<()>)
    ensures
        match outcome {
            Ok(()) => is_ok_empty(r),
            Err(e) => is_failure(r, "TRASH_ERROR"@, e@),
        },
{
    unit_reply(outcome, "TRASH_ERROR")
}

/// The answer once the archive URL was opened.
pub fn archive_note(outcome: Result<(), String>) -> (r: Response<()>)
    ensures
        match outcome {
            Ok(()) => is_ok_empty(r),
            Err(e) => is_failure(r, "ARCHIVE_ERROR"@, e@),
        },
{
    unit_reply(outcome, "ARCHIVE_ERROR")
}

} // verus!
