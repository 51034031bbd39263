use vstd::prelude::*;

use vstd::utf8::{decode_utf8, encode_utf8};

use crate::models::Note;
use crate::output::Response;
use crate::text::{
    chars_of, extend_chars, is_ws, join, join_all, lemma_trim_idempotent, lemma_trim_is_stretch,
    string_of, trim, trim_chars,
};

verus! {

// ---------------------------------------------------------------------------
// File names
// ---------------------------------------------------------------------------

/// A character that file names must not hold.
pub open spec fn is_forbidden(c: char) -> bool {
    ||| c == '/'
    ||| c == '\\'
    ||| c == ':'
    ||| c == '*'
    ||| c == '?'
    ||| c == '"'
    ||| c == '<'
    ||| c == '>'
    ||| c == '|'
    ||| c == '\0'
}

/// `c`, or `_` in place of a forbidden character.
pub open spec fn safe_char(c: char) -> char {
    if is_forbidden(c) {
        '_'
    } else {
        c
    }
}

/// A title made fit for a file name: every forbidden character replaced by
/// `_`, then leading and trailing whitespace dropped.
pub open spec fn sanitized(name: Seq<char>) -> Seq<char> {
    trim(name.map_values(|c: char| safe_char(c)))
}

/// Makes a title fit for a file name.
pub fn sanitize_filename(name: &str) -> (r: String)
    ensures
        r@ == sanitized(name@),
{
    let v = chars_of(name);
    let mut mapped: Vec<char> = Vec::new();
    let n = v.len();
    for i in 0..n
        invariant
            n == v@.len(),
            mapped@ == v@.take(i as int).map_values(|c: char| safe_char(c)),
    {
        let c = v[i];
        let d = if c == '/' || c == '\\' || c == ':' || c == '*' || c == '?' || c == '"' || c == '<'
            || c == '>' || c == '|' || c == '\0' {
            '_'
        } else {
            c
        };
        mapped.push(d);
        assert(v@.take(i + 1).map_values(|c: char| safe_char(c)) =~= v@.take(i as int).map_values(
            |c: char| safe_char(c),
        ).push(safe_char(c)));
    }
    assert(v@.take(n as int) == v@);
    let t = trim_chars(mapped.as_slice());
    string_of(t.as_slice())
}

/// Law: a sanitized title holds no forbidden character and no leading or
/// trailing whitespace.
pub proof fn law_sanitized_is_safe(name: Seq<char>)
    ensures
        forall|i: int| 0 <= i < sanitized(name).len() ==> !is_forbidden(#[trigger] sanitized(name)[i]),
        sanitized(name).len() > 0 ==> !is_ws(sanitized(name)[0]) && !is_ws(sanitized(name).last()),
{
    let m = name.map_values(|c: char| safe_char(c));
    let (a, b) = lemma_trim_is_stretch(m);
    assert forall|i: int| 0 <= i < sanitized(name).len() implies !is_forbidden(
        #[trigger] sanitized(name)[i],
    ) by {
        assert(sanitized(name)[i] == m[a + i]);
    }
    lemma_trim_idempotent(m);
    crate::text::lemma_trim_start_drops(sanitized(name));
    crate::text::lemma_trim_end_keeps(crate::text::trim_start(sanitized(name)));
}

/// Law: sanitizing a sanitized title changes nothing.
pub proof fn law_sanitize_idempotent(name: Seq<char>)
    ensures
        sanitized(sanitized(name)) == sanitized(name),
{
    let s = sanitized(name);
    law_sanitized_is_safe(name);
    assert(s.map_values(|c: char| safe_char(c)) =~= s);
    lemma_trim_idempotent(name.map_values(|c: char| safe_char(c)));
}

/// The id cut to its first eight bytes (when it is longer).
pub open spec fn short_id(id: Seq<char>) -> Seq<char> {
    let b = encode_utf8(id);
    if b.len() > 8 {
        decode_utf8(b.take(8))
    } else {
        id
    }
}

/// An id that is longer than eight bytes has a character boundary after
/// its eighth byte.
pub open spec fn id_cuttable(id: Seq<char>) -> bool {
    encode_utf8(id).len() > 8 ==> vstd::utf8::is_char_boundary(encode_utf8(id), 8)
}

/// The file a note is exported to: its sanitized title (`untitled` when
/// nothing is left), `--`, the first eight bytes of its id, `.md`.
pub open spec fn export_filename(title: Seq<char>, id: Seq<char>) -> Seq<char> {
    let t = sanitized(title);
    (if t.len() == 0 {
        "untitled"@
    } else {
        t
    }) + "--"@ + short_id(id) + ".md"@
}

fn file_name_for(title: &str, id: &str) -> (r: String)
    requires
        id_cuttable(id@),
    ensures
        r@ == export_filename(title@, id@),
{
    let sanitized_title = sanitize_filename(title);
    let id_bytes = id.as_bytes();
    let short: &str = if id_bytes.len() > 8 {
        let (head, _tail) = id.split_at(8);
        proof {
            vstd::utf8::encode_utf8_decode_utf8(head@);
            assert(encode_utf8(head@) == encode_utf8(id@).subrange(0, 8));
            assert(encode_utf8(id@).subrange(0, 8) == encode_utf8(id@).take(8));
        }
        head
    } else {
        id
    };
    assert(short@ == short_id(id@));
    let mut r: Vec<char> = if sanitized_title.as_str().is_empty() {
        chars_of("untitled")
    } else {
        chars_of(sanitized_title.as_str())
    };
    extend_chars(&mut r, chars_of("--").as_slice());
    extend_chars(&mut r, chars_of(short).as_slice());
    extend_chars(&mut r, chars_of(".md").as_slice());
    string_of(r.as_slice())
}

// ---------------------------------------------------------------------------
// Documents
// ---------------------------------------------------------------------------

/// `t` in double quotes.
pub open spec fn quoted(t: Seq<char>) -> Seq<char> {
    seq!['"'] + t + seq!['"']
}

/// The front-matter line listing the tags, or nothing when there are none.
pub open spec fn tags_line(tags: Seq<String>) -> Seq<char> {
    if tags.len() == 0 {
        Seq::empty()
    } else {
        "tags: ["@ + join(tags.map_values(|t: String| quoted(t@)), ", "@) + "]\n"@
    }
}

/// The Markdown an exported note is written as: YAML front matter with its
/// tags, dates and id, then its text.
pub open spec fn export_document(note: Note) -> Seq<char> {
    "---\n"@ + tags_line(note.tags@) + "created: "@ + note.created_at@ + "\n"@ + "modified: "@
        + note.modified_at@ + "\n"@ + "bear_id: "@ + note.id@ + "\n"@ + "---\n\n"@ + note.text@
}

fn document_for(note: &Note) -> (r: String)
    ensures
        r@ == export_document(*note),
{
    let mut content = chars_of("---\n");
    if note.tags.len() > 0 {
        let mut quoted_tags: Vec<Vec<char>> = Vec::new();
        let n = note.tags.len();
        for i in 0..n
            invariant
                n == note.tags@.len(),
                quoted_tags@.map_values(|q: Vec<char>| q@) == note.tags@.take(i as int).map_values(
                    |t: String| quoted(t@),
                ),
        {
            let mut q: Vec<char> = Vec::new();
            q.push('"');
            extend_chars(&mut q, chars_of(note.tags[i].as_str()).as_slice());
            q.push('"');
            assert(q@ == quoted(note.tags@[i as int]@));
            let ghost before = quoted_tags@.map_values(|q: Vec<char>| q@);
            quoted_tags.push(q);
            assert(quoted_tags@.map_values(|q: Vec<char>| q@) =~= before.push(quoted(note.tags@[i as int]@)));
            assert(note.tags@.take(i + 1).map_values(|t: String| quoted(t@)) =~= note.tags@.take(
                i as int,
            ).map_values(|t: String| quoted(t@)).push(quoted(note.tags@[i as int]@)));
        }
        assert(note.tags@.take(n as int) == note.tags@);
        extend_chars(&mut content, chars_of("tags: [").as_slice());
        let joined = join_all(&quoted_tags, chars_of(", ").as_slice());
        extend_chars(&mut content, joined.as_slice());
        extend_chars(&mut content, chars_of("]\n").as_slice());
    }
    extend_chars(&mut content, chars_of("created: ").as_slice());
    extend_chars(&mut content, chars_of(note.created_at.as_str()).as_slice());
    extend_chars(&mut content, chars_of("\n").as_slice());
    extend_chars(&mut content, chars_of("modified: ").as_slice());
    extend_chars(&mut content, chars_of(note.modified_at.as_str()).as_slice());
    extend_chars(&mut content, chars_of("\n").as_slice());
    extend_chars(&mut content, chars_of("bear_id: ").as_slice());
    extend_chars(&mut content, chars_of(note.id.as_str()).as_slice());
    extend_chars(&mut content, chars_of("\n").as_slice());
    extend_chars(&mut content, chars_of("---\n\n").as_slice());
    extend_chars(&mut content, chars_of(note.text.as_str()).as_slice());
    string_of(content.as_slice())
}

/// A file to write: its name and its contents.
#[derive(Debug)]
pub struct ExportFile {
    pub filename: String,
    pub content: String,
}

/// The files that exporting `notes` writes, one per note in order: the
/// note's file name and its Markdown document.
pub fn export_notes(notes: &Vec<Note>) -> (files: Vec<ExportFile>)
    requires
        forall|i: int| 0 <= i < notes@.len() ==> id_cuttable(#[trigger] notes@[i].id@),
    ensures
        files@.len() == notes@.len(),
        forall|i: int|
            0 <= i < files@.len() ==> {
                &&& #[trigger] files@[i].filename@ == export_filename(notes@[i].title@, notes@[i].id@)
                &&& files@[i].content@ == export_document(notes@[i])
            },
{
    let mut files: Vec<ExportFile> = Vec::new();
    let n = notes.len();
    let mut i: usize = 0;
    while i < n
        invariant
            n == notes@.len(),
            i <= n,
            forall|j: int| 0 <= j < notes@.len() ==> id_cuttable(#[trigger] notes@[j].id@),
            files@.len() == i,
            forall|k: int|
                0 <= k < i ==> {
                    &&& #[trigger] files@[k].filename@ == export_filename(
                        notes@[k].title@,
                        notes@[k].id@,
                    )
                    &&& files@[k].content@ == export_document(notes@[k])
                },
        decreases n - i,
    {
        let note = &notes[i];
        let filename = file_name_for(note.title.as_str(), note.id.as_str());
        let content = document_for(note);
        assert(*note == notes@[i as int]);
        assert(content@ == export_document(notes@[i as int]));
        assert(filename@ == export_filename(notes@[i as int].title@, notes@[i as int].id@));
        let ghost before = files@;
        files.push(ExportFile { filename, content });
        assert(files@[i as int].content@ == export_document(notes@[i as int]));
        assert forall|k: int| 0 <= k < i + 1 implies {
            &&& #[trigger] files@[k].filename@ == export_filename(notes@[k].title@, notes@[k].id@)
            &&& files@[k].content@ == export_document(notes@[k])
        } by {
            if k < i {
                assert(files@[k] == before[k]);
            }
        }
        i = i + 1;
    }
    files
}

/// How many notes were exported, and where to.
#[derive(Debug)]
pub struct ExportResult {
    pub exported: u32,
    pub output_dir: String,
}

/// The answer once the files are written: how many were, and where.
pub fn export_done(exported: u32, output_dir: &str) -> (r: Response<ExportResult>)
    ensures
        r.ok,
        r.data matches Some(d) && d.exported == exported && d.output_dir@ == output_dir@,
        r.count is None,
        r.error is None,
        r.code is None,
{
    Response::success(ExportResult { exported, output_dir: output_dir.to_owned() })
}

} // verus!
