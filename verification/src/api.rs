//! Bear's x-callback-url write API: the URLs that ask Bear to create,
//! change, trash or archive notes and tags, and the schedule on which a
//! write is checked for. Opening a URL is the caller's part.
use vstd::prelude::*;

verus! {

/// A byte that percent-encoding leaves as it is: an ASCII letter or digit,
/// or one of `-`, `.`, `_`, `~`.
pub open spec fn is_unreserved(b: u8) -> bool {
    ||| 0x30 <= b <= 0x39
    ||| 0x41 <= b <= 0x5a
    ||| 0x61 <= b <= 0x7a
    ||| b == 0x2d
    ||| b == 0x2e
    ||| b == 0x5f
    ||| b == 0x7e
}

/// The upper-case hexadecimal digit for `d` (below 16).
pub open spec fn hex_digit(d: u8) -> char {
    if d < 10 {
        ((0x30 + d) as u32) as char
    } else {
        ((0x41 + d - 10) as u32) as char
    }
}

/// The encoding of one byte: the byte itself when unreserved, otherwise
/// `%` and its two upper-case hexadecimal digits.
pub open spec fn percent_encode_byte(b: u8) -> Seq<char> {
    if is_unreserved(b) {
        seq![(b as u32) as char]
    } else {
        seq!['%', hex_digit(b / 16), hex_digit(b % 16)]
    }
}

/// Percent-encoding of a byte sequence, byte by byte.
pub open spec fn percent_encode(bytes: Seq<u8>) -> Seq<char>
    decreases bytes.len(),
{
    if bytes.len() == 0 {
        Seq::empty()
    } else {
        percent_encode_byte(bytes[0]) + percent_encode(bytes.drop_first())
    }
}

proof fn lemma_percent_encode_push(bytes: Seq<u8>, b: u8)
    ensures
        percent_encode(bytes.push(b)) == percent_encode(bytes) + percent_encode_byte(b),
    decreases bytes.len(),
{
    let pushed = bytes.push(b);
    assert(pushed[0] == if bytes.len() == 0 { b } else { bytes[0] });
    assert(percent_encode(pushed) == percent_encode_byte(pushed[0]) + percent_encode(pushed.drop_first()));
    if bytes.len() == 0 {
        assert(bytes.push(b).drop_first() =~= Seq::<u8>::empty());
        assert(percent_encode_byte(b) + Seq::<char>::empty() =~= percent_encode_byte(b));
    } else {
        assert(bytes.push(b).drop_first() =~= bytes.drop_first().push(b));
        lemma_percent_encode_push(bytes.drop_first(), b);
        assert(percent_encode_byte(bytes[0]) + (percent_encode(bytes.drop_first())
            + percent_encode_byte(b)) =~= percent_encode_byte(bytes[0]) + percent_encode(
            bytes.drop_first(),
        ) + percent_encode_byte(b));
    }
}

fn hex_char(d: u8) -> (c: char)
    requires
        d < 16,
    ensures
        c == hex_digit(d),
{
    if d < 10 {
        (48 + d) as char
    } else {
        (55 + d) as char
    }
}

/// Percent-encodes the UTF-8 bytes of `text` as `urlencoding::encode`
/// does: every byte but ASCII letters, digits and `-`, `.`, `_`, `~`
/// becomes `%` and two upper-case hexadecimal digits.
fn url_encode(text: &str) -> (r: String)
    ensures
        r@ == percent_encode(vstd::utf8::encode_utf8(text@)),
{
    let bytes = text.as_bytes();
    let mut out = String::new();
    let n = bytes.len();
    assert(bytes@.take(0) =~= Seq::<u8>::empty());
    for i in 0..n
        invariant
            n == bytes@.len(),
            bytes@ == vstd::utf8::encode_utf8(text@),
            out@ == percent_encode(bytes@.take(i as int)),
    {
        let b = bytes[i];
        proof {
            assert(bytes@.take(i + 1) =~= bytes@.take(i as int).push(b));
            lemma_percent_encode_push(bytes@.take(i as int), b);
        }
        if (48 <= b && b <= 57) || (65 <= b && b <= 90) || (97 <= b && b <= 122) || b == 45 || b
            == 46 || b == 95 || b == 126 {
            out.push(b as char);
        } else {
            out.push('%');
            out.push(hex_char(b / 16));
            out.push(hex_char(b % 16));
        }
    }
    assert(bytes@.take(n as int) =~= bytes@);
    out
}

/// The value of a hexadecimal digit, upper or lower case (-1 for any other
/// character).
pub open spec fn hex_value(c: char) -> int {
    if '0' <= c <= '9' {
        c as int - 48
    } else if 'A' <= c <= 'F' {
        c as int - 55
    } else if 'a' <= c <= 'f' {
        c as int - 87
    } else {
        -1
    }
}

/// Percent-decoding: `%` and two hexadecimal digits give the byte they
/// spell, any other character gives its own code as a byte.
pub open spec fn percent_decode(s: Seq<char>) -> Seq<u8>
    decreases s.len(),
{
    if s.len() == 0 {
        Seq::empty()
    } else if s[0] == '%' && s.len() >= 3 {
        seq![(hex_value(s[1]) * 16 + hex_value(s[2])) as u8] + percent_decode(s.skip(3))
    } else {
        seq![(s[0] as u32) as u8] + percent_decode(s.drop_first())
    }
}

/// Law: percent-decoding an encoded value gives back exactly the bytes
/// that were encoded, so every byte of a field's text (a line break, a
/// space, a multi-byte character) reaches Bear unchanged.
pub proof fn law_percent_decoding_restores_bytes(bytes: Seq<u8>)
    ensures
        percent_decode(percent_encode(bytes)) == bytes,
    decreases bytes.len(),
{
    if bytes.len() > 0 {
        let b = bytes[0];
        let head = percent_encode_byte(b);
        let rest = percent_encode(bytes.drop_first());
        law_percent_decoding_restores_bytes(bytes.drop_first());
        let e = percent_encode(bytes);
        assert(e == head + rest);
        if is_unreserved(b) {
            assert(e[0] == (b as u32) as char);
            assert(e.drop_first() =~= rest);
        } else {
            assert(b / 16 < 16 && b % 16 < 16);
            assert(e[0] == '%');
            assert(e[1] == hex_digit(b / 16));
            assert(e[2] == hex_digit(b % 16));
            assert(hex_value(hex_digit(b / 16)) == b / 16);
            assert(hex_value(hex_digit(b % 16)) == b % 16);
            assert(e.skip(3) =~= rest);
        }
        assert(percent_decode(e) =~= bytes);
    }
}

/// One `&key=value` field of a callback URL, the value percent-encoded.
pub open spec fn query_field(key: Seq<char>, value: Seq<char>) -> Seq<char> {
    seq!['&'] + key + seq!['='] + percent_encode(vstd::utf8::encode_utf8(value))
}

/// The query fields of `params`, in order.
pub open spec fn query_fields(params: Seq<(Seq<char>, Seq<char>)>) -> Seq<char>
    decreases params.len(),
{
    if params.len() == 0 {
        Seq::empty()
    } else {
        query_fields(params.drop_last()) + query_field(params.last().0, params.last().1)
    }
}

/// The character sequences of key/value pairs.
pub open spec fn pair_views(params: Seq<(&str, &str)>) -> Seq<(Seq<char>, Seq<char>)> {
    params.map_values(|p: (&str, &str)| (p.0@, p.1@))
}

/// The callback URL for `action`: Bear's scheme and host, the action, the
/// `show_window=no` field, then one field per parameter.
pub open spec fn callback_url(action: Seq<char>, params: Seq<(Seq<char>, Seq<char>)>) -> Seq<char> {
    "bear://x-callback-url/"@ + action + "?show_window=no"@ + query_fields(params)
}

/// Builds the callback URL for `action` with the given parameters, each
/// value percent-encoded.
pub fn build_url(action: &str, params: &[(&str, &str)]) -> (url: String)
    ensures
        url@ == callback_url(action@, pair_views(params@)),
{
    let mut url = String::from_str("bear://x-callback-url/");
    url.append(action);
    url.append("?show_window=no");
    let n = params.len();
    let ghost head = "bear://x-callback-url/"@ + action@ + "?show_window=no"@;
    for i in 0..n
        invariant
            n == params@.len(),
            url@ == head + query_fields(pair_views(params@.take(i as int))),
    {
        let (key, value) = params[i];
        let encoded = url_encode(value);
        url.push('&');
        url.append(key);
        url.push('=');
        url.append(encoded.as_str());
        proof {
            let before = pair_views(params@.take(i as int));
            let after = pair_views(params@.take(i + 1));
            assert(after.drop_last() == before);
            assert(after.last() == (key@, value@));
            assert(url@ == head + query_fields(before) + query_field(key@, value@));
        }
    }
    assert(params@.take(n as int) == params@);
    url
}

/// Law: an encoded value holds only unreserved characters, `%` and
/// upper-case hexadecimal digits, so no value can add a `&`, `=`, `?` or
/// `#` to a callback URL: the fields stay apart.
pub proof fn law_encoded_value_is_url_safe(bytes: Seq<u8>)
    ensures
        forall|i: int|
            0 <= i < percent_encode(bytes).len() ==> {
                let c = #[trigger] percent_encode(bytes)[i];
                &&& c != '&'
                &&& c != '='
                &&& c != '?'
                &&& c != '#'
                &&& c != ' '
            },
    decreases bytes.len(),
{
    if bytes.len() > 0 {
        law_encoded_value_is_url_safe(bytes.drop_first());
        let head = percent_encode_byte(bytes[0]);
        let rest = percent_encode(bytes.drop_first());
        assert forall|i: int| 0 <= i < percent_encode(bytes).len() implies {
            let c = #[trigger] percent_encode(bytes)[i];
            &&& c != '&'
            &&& c != '='
            &&& c != '?'
            &&& c != '#'
            &&& c != ' '
        } by {
            if i >= head.len() {
                assert(percent_encode(bytes)[i] == rest[i - head.len()]);
            } else {
                let b = bytes[0];
                assert(b / 16 < 16 && b % 16 < 16);
            }
        }
    }
}

/// The URL that creates a note with `title`, `body` and, when given, the
/// comma-separated `tags`; unless `open_note`, Bear is asked not to open it.
pub fn create_note(title: &str, body: &str, tags: Option<&str>, open_note: bool) -> (url: String)
    ensures
        url@ == callback_url(
            "create"@,
            seq![("title"@, title@), ("text"@, body@)] + (if open_note {
                Seq::empty()
            } else {
                seq![("open_note"@, "no"@)]
            }) + match tags {
                Some(t) => seq![("tags"@, t@)],
                None => Seq::empty(),
            },
        ),
{
    let mut params: Vec<(&str, &str)> = Vec::new();
    params.push(("title", title));
    params.push(("text", body));
    if !open_note {
        params.push(("open_note", "no"));
    }
    if let Some(t) = tags {
        params.push(("tags", t));
    }
    let url = build_url("create", params.as_slice());
    assert(pair_views(params@) =~= seq![("title"@, title@), ("text"@, body@)] + (if open_note {
        Seq::empty()
    } else {
        seq![("open_note"@, "no"@)]
    }) + match tags {
        Some(t) => seq![("tags"@, t@)],
        None => Seq::empty(),
    });
    url
}

/// The URL that replaces the text of note `id` with `body`.
pub fn edit_note(id: &str, body: &str) -> (url: String)
    ensures
        url@ == callback_url(
            "add-text"@,
            seq![("id"@, id@), ("text"@, body@), ("mode"@, "replace"@), ("open_note"@, "no"@)],
        ),
{
    let params: Vec<(&str, &str)> = vec![
        ("id", id),
        ("text", body),
        ("mode", "replace"),
        ("open_note", "no"),
    ];
    let url = build_url("add-text", params.as_slice());
    assert(pair_views(params@) =~= seq![
        ("id"@, id@),
        ("text"@, body@),
        ("mode"@, "replace"@),
        ("open_note"@, "no"@),
    ]);
    url
}

/// The URL that adds `text` to note `id` in `mode` (such as `append` or
/// `prepend`), under `header` when given.
pub fn add_text(id: &str, text: &str, mode: &str, header: Option<&str>) -> (url: String)
    ensures
        url@ == callback_url(
            "add-text"@,
            seq![("id"@, id@), ("text"@, text@), ("mode"@, mode@), ("open_note"@, "no"@)]
                + match header {
                Some(h) => seq![("header"@, h@)],
                None => Seq::empty(),
            },
        ),
{
    let mut params: Vec<(&str, &str)> = vec![
        ("id", id),
        ("text", text),
        ("mode", mode),
        ("open_note", "no"),
    ];
    if let Some(h) = header {
        params.push(("header", h));
    }
    let url = build_url("add-text", params.as_slice());
    assert(pair_views(params@) =~= seq![
        ("id"@, id@),
        ("text"@, text@),
        ("mode"@, mode@),
        ("open_note"@, "no"@),
    ] + match header {
        Some(h) => seq![("header"@, h@)],
        None => Seq::empty(),
    });
    url
}

/// The URL that moves note `id` to the trash.
pub fn trash_note(id: &str) -> (url: String)
    ensures
        url@ == callback_url("trash"@, seq![("id"@, id@), ("show_window"@, "no"@)]),
{
    let params: Vec<(&str, &str)> = vec![("id", id), ("show_window", "no")];
    let url = build_url("trash", params.as_slice());
    assert(pair_views(params@) =~= seq![("id"@, id@), ("show_window"@, "no"@)]);
    url
}

/// The URL that archives note `id`.
pub fn archive_note(id: &str) -> (url: String)
    ensures
        url@ == callback_url("archive"@, seq![("id"@, id@), ("show_window"@, "no"@)]),
{
    let params: Vec<(&str, &str)> = vec![("id", id), ("show_window", "no")];
    let url = build_url("archive", params.as_slice());
    assert(pair_views(params@) =~= seq![("id"@, id@), ("show_window"@, "no"@)]);
    url
}

/// The URL that adds the comma-separated `tags` to note `id`.
pub fn add_tag(id: &str, tags: &str) -> (url: String)
    ensures
        url@ == callback_url(
            "add-text"@,
            seq![("id"@, id@), ("tags"@, tags@), ("open_note"@, "no"@)],
        ),
{
    let params: Vec<(&str, &str)> = vec![("id", id), ("tags", tags), ("open_note", "no")];
    let url = build_url("add-text", params.as_slice());
    assert(pair_views(params@) =~= seq![("id"@, id@), ("tags"@, tags@), ("open_note"@, "no"@)]);
    url
}

/// The URL that renames the tag `old_name` to `new_name`.
pub fn rename_tag(old_name: &str, new_name: &str) -> (url: String)
    ensures
        url@ == callback_url(
            "rename-tag"@,
            seq![("name"@, old_name@), ("new_name"@, new_name@), ("show_window"@, "no"@)],
        ),
{
    let params: Vec<(&str, &str)> = vec![
        ("name", old_name),
        ("new_name", new_name),
        ("show_window", "no"),
    ];
    let url = build_url("rename-tag", params.as_slice());
    assert(pair_views(params@) =~= seq![
        ("name"@, old_name@),
        ("new_name"@, new_name@),
        ("show_window"@, "no"@),
    ]);
    url
}

/// The URL that deletes the tag `name`.
pub fn delete_tag(name: &str) -> (url: String)
    ensures
        url@ == callback_url("delete-tag"@, seq![("name"@, name@), ("show_window"@, "no"@)]),
{
    let params: Vec<(&str, &str)> = vec![("name", name), ("show_window", "no")];
    let url = build_url("delete-tag", params.as_slice());
    assert(pair_views(params@) =~= seq![("name"@, name@), ("show_window"@, "no"@)]);
    url
}

/// The URL that attaches a file (its bytes in base64) named `filename` to note `id`.
pub fn add_file(id: &str, file_data_base64: &str, filename: &str) -> (url: String)
    ensures
        url@ == callback_url(
            "add-file"@,
            seq![
                ("id"@, id@),
                ("file"@, file_data_base64@),
                ("filename"@, filename@),
                ("open_note"@, "no"@),
            ],
        ),
{
    let params: Vec<(&str, &str)> = vec![
        ("id", id),
        ("file", file_data_base64),
        ("filename", filename),
        ("open_note", "no"),
    ];
    let url = build_url("add-file", params.as_slice());
    assert(pair_views(params@) =~= seq![
        ("id"@, id@),
        ("file"@, file_data_base64@),
        ("filename"@, filename@),
        ("open_note"@, "no"@),
    ]);
    url
}

// ---------------------------------------------------------------------------
// Checking that a write arrived
// ---------------------------------------------------------------------------

/// The waits, in milliseconds, before each check that a write arrived.
pub open spec fn verify_delays() -> Seq<u64> {
    seq![500, 1000, 1500, 2000, 3000]
}

/// How long to wait before check number `attempt` (counted from 0);
/// `None` once all checks are used up.
pub fn verify_delay(attempt: usize) -> (d: Option<u64>)
    ensures
        d == (if attempt < verify_delays().len() {
            Some(verify_delays()[attempt as int])
        } else {
            None
        }),
{
    if attempt == 0 {
        Some(500)
    } else if attempt == 1 {
        Some(1000)
    } else if attempt == 2 {
        Some(1500)
    } else if attempt == 3 {
        Some(2000)
    } else if attempt == 4 {
        Some(3000)
    } else {
        None
    }
}

/// What to do after a check of a write.
#[derive(Debug, PartialEq, Eq, Structural)]
pub enum VerifyStep {
    /// Wait this many milliseconds, then check again.
    Wait(u64),
    /// Stop: whether the write was seen.
    Done(bool),
}

/// The decision after check number `attempt`: a confirmed write ends the
/// wait with success; otherwise the next wait follows, or failure once
/// the five checks are used up.
pub fn verify_write(attempt: usize, confirmed: bool) -> (step: VerifyStep)
    requires
        attempt < verify_delays().len(),
    ensures
        step == (if confirmed {
            VerifyStep::Done(true)
        } else if attempt + 1 < verify_delays().len() {
            VerifyStep::Wait(verify_delays()[attempt + 1])
        } else {
            VerifyStep::Done(false)
        }),
{
    if confirmed {
        return VerifyStep::Done(true);
    }
    match verify_delay(attempt + 1) {
        Some(d) => VerifyStep::Wait(d),
        None => VerifyStep::Done(false),
    }
}

/// The total time, in milliseconds, that the checks of one write wait.
pub open spec fn total_wait(delays: Seq<u64>) -> int
    decreases delays.len(),
{
    if delays.len() == 0 {
        0
    } else {
        delays[0] + total_wait(delays.drop_first())
    }
}

/// Law: checking a write waits eight seconds in all before giving up, over
/// five checks, each wait longer than the one before.
pub proof fn law_verify_schedule()
    ensures
        verify_delays().len() == 5,
        total_wait(verify_delays()) == 8000,
        forall|i: int| 0 < i < verify_delays().len() ==> verify_delays()[i - 1] < #[trigger] verify_delays()[i],
{
    reveal_with_fuel(total_wait, 6);
    assert(verify_delays().drop_first() =~= seq![1000u64, 1500, 2000, 3000]);
    assert(verify_delays().drop_first().drop_first() =~= seq![1500u64, 2000, 3000]);
    assert(verify_delays().drop_first().drop_first().drop_first() =~= seq![2000u64, 3000]);
    assert(verify_delays().drop_first().drop_first().drop_first().drop_first() =~= seq![3000u64]);
    assert(verify_delays().drop_first().drop_first().drop_first().drop_first().drop_first() =~= Seq::<u64>::empty());
}

} // verus!
