//! What the database layer computes: SQL text, row shapes, dates, note
//! sections, statistics and the tag tree. Running the queries is the
//! caller's part.
use vstd::prelude::*;

pub mod calendar;
pub mod notes;
pub mod stats;
pub mod tags;

use crate::text::{chars_of, str_eq, string_of};

verus! {

/// The UTC time `secs` seconds after the Unix epoch written with the
/// `strftime`-style `format`, as `chrono` writes it, for the format
/// `%Y-%m-%dT%H:%M:%SZ` that this library writes: the calendar date of the
/// day `secs` falls in, `T`, the time of day, `Z`. `None` when the day lies
/// outside the years `chrono` handles; no other format is written.
pub open spec fn chrono_utc_text(secs: int, format: Seq<char>) -> Option<Seq<char>> {
    if format == "%Y-%m-%dT%H:%M:%SZ"@ {
        calendar::utc_text_of(secs)
    } else {
        None
    }
}

/// The Unix time of midnight (UTC) on the date that `text` spells in the
/// `strftime`-style `format`, read as `chrono`'s `NaiveDate::parse_from_str`
/// reads it, for the format `%Y-%m-%d` that this library reads: 86400
/// seconds for each day from 1970-01-01 to that date. `None` when `text`
/// spells no date; no other format is read.
pub open spec fn chrono_midnight(text: Seq<char>, format: Seq<char>) -> Option<int> {
    if format == "%Y-%m-%d"@ {
        calendar::midnight_of(text)
    } else {
        None
    }
}

/// The UTC time `secs` seconds after the Unix epoch written with `format`
/// (only `%Y-%m-%dT%H:%M:%SZ` is written), as `chrono`'s
/// `DateTime::from_timestamp` and `DateTime::format` write it.
fn utc_text(secs: i64, format: &str) -> (r: Option<String>)
    ensures
        match r {
            Some(s) => chrono_utc_text(secs as int, format@) == Some(s@),
            None => chrono_utc_text(secs as int, format@) is None,
        },
{
    if !str_eq(format, "%Y-%m-%dT%H:%M:%SZ") {
        return None;
    }
    match calendar::utc_chars(secs) {
        Some(v) => Some(string_of(v.as_slice())),
        None => None,
    }
}

/// The Unix timestamp of midnight UTC on the date `text` spells in
/// `format` (only `%Y-%m-%d` is read), as `chrono`'s
/// `NaiveDate::parse_from_str` reads it. Dates lie within about 262 000
/// years of the epoch, so the timestamp is below 10^13 seconds either way.
fn date_midnight(text: &str, format: &str) -> (r: Option<i64>)
    ensures
        match r {
            Some(t) => chrono_midnight(text@, format@) == Some(t as int) && -10_000_000_000_000
                < t < 10_000_000_000_000,
            None => chrono_midnight(text@, format@) is None,
        },
{
    if !str_eq(format, "%Y-%m-%d") {
        return None;
    }
    let v = chars_of(text);
    calendar::midnight_seconds(v.as_slice())
}

/// Law: every date of the calendar within the years a date may have,
/// written `YYYY-MM-DD`, is read as a date (has a midnight).
pub proof fn law_every_date_is_read(y: int, m: int, d: int)
    requires
        calendar::valid_date(y, m, d),
    ensures
        chrono_midnight(calendar::date_text(y, m, d), "%Y-%m-%d"@) is Some,
{
    calendar::lemma_midnight_of_date_text(y, m, d);
}

/// Law: 1970-01-01 is read as Unix time 0.
pub proof fn law_epoch_date_is_time_zero()
    ensures
        chrono_midnight(calendar::date_text(1970, 1, 1), "%Y-%m-%d"@) == Some(0int),
{
    calendar::lemma_midnight_of_date_text(1970, 1, 1);
}

/// Law: midnight of the next calendar day is exactly 86400 seconds after
/// midnight of a day, across month ends, February 28 and 29 and year ends.
pub proof fn law_next_day_is_a_day_later(y: int, m: int, d: int)
    requires
        calendar::valid_date(y, m, d),
        calendar::valid_date(
            calendar::next_date(y, m, d).0,
            calendar::next_date(y, m, d).1,
            calendar::next_date(y, m, d).2,
        ),
    ensures
        chrono_midnight(calendar::date_text(y, m, d), "%Y-%m-%d"@) matches Some(t) && chrono_midnight(
            calendar::date_text(
                calendar::next_date(y, m, d).0,
                calendar::next_date(y, m, d).1,
                calendar::next_date(y, m, d).2,
            ),
            "%Y-%m-%d"@,
        ) == Some(t + 86400),
{
    let (y2, m2, d2) = calendar::next_date(y, m, d);
    calendar::lemma_midnight_of_date_text(y, m, d);
    calendar::lemma_midnight_of_date_text(y2, m2, d2);
    calendar::lemma_next_date(y, m, d);
}

/// Law: writing a time read from a date gives the date back: for midnight
/// of a date plus `h` hours, `mi` minutes and `s` seconds, the UTC text is
/// the date (which reads back as that date), `T`, two digits spelling `h`
/// on a 24-hour clock, `:`, two spelling `mi`, `:`, two spelling `s`, `Z`.
pub proof fn law_written_time_names_its_date_and_clock(y: int, m: int, d: int, h: int, mi: int, s: int)
    requires
        calendar::valid_date(y, m, d),
        0 <= h < 24,
        0 <= mi < 60,
        0 <= s < 60,
    ensures
        chrono_midnight(calendar::date_text(y, m, d), "%Y-%m-%d"@) matches Some(t) && chrono_utc_text(
            t + 3600 * h + 60 * mi + s,
            "%Y-%m-%dT%H:%M:%SZ"@,
        ) matches Some(text) && {
            let n = text.len() - 10;
            &&& n >= 10
            &&& calendar::read_ymd(text.take(n)) == Some((y, m, d))
            &&& text[n] == 'T' && text[n + 3] == ':' && text[n + 6] == ':' && text[n + 9] == 'Z'
            &&& calendar::all_digits(text.subrange(n + 1, n + 3))
            &&& calendar::all_digits(text.subrange(n + 4, n + 6))
            &&& calendar::all_digits(text.subrange(n + 7, n + 9))
            &&& calendar::digits_value(text.subrange(n + 1, n + 3)) == h
            &&& calendar::digits_value(text.subrange(n + 4, n + 6)) == mi
            &&& calendar::digits_value(text.subrange(n + 7, n + 9)) == s
        },
{
    calendar::lemma_midnight_of_date_text(y, m, d);
    calendar::lemma_utc_text_of_date_time(y, m, d, h, mi, s);
    calendar::lemma_date_text_reads_back(y, m, d);
    calendar::lemma_clock_text(h, mi, s);
    let dt = calendar::date_text(y, m, d);
    let ct = calendar::clock_text(h, mi, s);
    let text = dt + seq!['T'] + ct + seq!['Z'];
    let n = dt.len() as int;
    calendar::lemma_date_text_len(y, m, d);
    assert(text.len() == n + 10);
    assert(text.take(n) =~= dt);
    assert(text.subrange(n + 1, n + 3) =~= ct.subrange(0, 2));
    assert(text.subrange(n + 4, n + 6) =~= ct.subrange(3, 5));
    assert(text.subrange(n + 7, n + 9) =~= ct.subrange(6, 8));
    assert(text[n + 3] == ct[2]);
    assert(text[n + 6] == ct[5]);
}

/// Seconds from the Unix epoch to the Core Data epoch (2001-01-01 UTC).
pub open spec fn core_data_epoch() -> int {
    978_307_200
}

/// The ISO 8601 text (`YYYY-MM-DDThh:mm:ssZ`) of the UTC time `unix_secs`
/// seconds after the Unix epoch, or the empty text when that time is out of
/// range.
pub fn iso_from_unix(unix_secs: i64) -> (r: String)
    ensures
        r@ == match chrono_utc_text(unix_secs as int, "%Y-%m-%dT%H:%M:%SZ"@) {
            Some(s) => s,
            None => Seq::empty(),
        },
{
    match utc_text(unix_secs, "%Y-%m-%dT%H:%M:%SZ") {
        Some(s) => s,
        None => String::new(),
    }
}

/// The message given for a date that is not `YYYY-MM-DD`.
pub open spec fn bad_date_message() -> Seq<char> {
    "Invalid date format, expected YYYY-MM-DD"@
}

/// The Core Data time (seconds since 2001-01-01 UTC) of midnight UTC on the
/// date `iso` (`YYYY-MM-DD`); an error naming the expected format when
/// `iso` is no such date.
pub fn iso_to_core_data(iso: &str) -> (r: Result<i64, String>)
    ensures
        match chrono_midnight(iso@, "%Y-%m-%d"@) {
            Some(t) => r matches Ok(v) && v == t - core_data_epoch(),
            None => r matches Err(e) && e@ == bad_date_message(),
        },
{
    match date_midnight(iso, "%Y-%m-%d") {
        Some(t) => Ok(t - 978_307_200),
        None => Err(String::from_str("Invalid date format, expected YYYY-MM-DD")),
    }
}

/// The tables a Bear database must have.
pub open spec fn required_tables() -> Seq<Seq<char>> {
    seq!["ZSFNOTE"@, "ZSFNOTETAG"@, "Z_5TAGS"@, "ZSFNOTEFILE"@, "ZSFNOTEBACKLINK"@]
}

/// The tables a Bear database must have, in the order they are checked.
pub fn required_table_names() -> (r: Vec<String>)
    ensures
        r@.map_values(|t: String| t@) == required_tables(),
{
    let mut r: Vec<String> = Vec::new();
    r.push(String::from_str("ZSFNOTE"));
    r.push(String::from_str("ZSFNOTETAG"));
    r.push(String::from_str("Z_5TAGS"));
    r.push(String::from_str("ZSFNOTEFILE"));
    r.push(String::from_str("ZSFNOTEBACKLINK"));
    assert(r@.map_values(|t: String| t@) =~= required_tables());
    r
}

/// The query that counts the tables named `table`.
pub fn table_count_sql(table: &str) -> (r: String)
    ensures
        r@ == "SELECT COUNT(*) FROM sqlite_master WHERE type='table' AND name='"@ + table@ + "'"@,
{
    let mut r = String::from_str("SELECT COUNT(*) FROM sqlite_master WHERE type='table' AND name='");
    r.append(table);
    r.append("'");
    r
}

/// The schema is as expected when every table count came back above 0
/// (a failed count counts as a missing table).
pub fn check_schema(table_counts: &Vec<Option<i32>>) -> (ok: bool)
    ensures
        ok == forall|i: int|
            0 <= i < table_counts@.len() ==> (#[trigger] table_counts@[i] matches Some(c) && c > 0),
{
    let n = table_counts.len();
    for i in 0..n
        invariant
            n == table_counts@.len(),
            forall|j: int| 0 <= j < i ==> (#[trigger] table_counts@[j] matches Some(c) && c > 0),
    {
        match table_counts[i] {
            Some(c) => {
                if c <= 0 {
                    return false;
                }
            },
            None => {
                return false;
            },
        }
    }
    true
}

/// The relative place of Bear's database under the home directory.
pub open spec fn bear_db_relative() -> Seq<char> {
    "Library/Group Containers/9K33E3U3T4.net.shinyfrog.bear/Application Data/database.sqlite"@
}

/// `base` joined with the relative path `rel` as `PathBuf::join` joins on
/// Unix: a `/` goes between them unless `base` is empty or ends with one.
pub open spec fn path_join(base: Seq<char>, rel: Seq<char>) -> Seq<char> {
    if base.len() == 0 || base.last() == '/' {
        base + rel
    } else {
        base + seq!['/'] + rel
    }
}

/// The default place of Bear's database under the home directory `home`,
/// none when the home directory is unknown.
pub fn default_db_path(home: Option<&str>) -> (r: Option<String>)
    ensures
        match home {
            Some(h) => r matches Some(p) && p@ == path_join(h@, bear_db_relative()),
            None => r is None,
        },
{
    match home {
        Some(h) => {
            let hv = crate::text::chars_of(h);
            let mut p = String::from_str(h);
            if hv.len() > 0 && hv[hv.len() - 1] != '/' {
                p.push('/');
            }
            p.append("Library/Group Containers/9K33E3U3T4.net.shinyfrog.bear/Application Data/database.sqlite");
            Some(p)
        },
        None => None,
    }
}

/// The database to use: the one given, else the default place under the
/// home directory, else the empty path.
pub fn resolve_db_path(given: Option<&str>, home: Option<&str>) -> (r: String)
    ensures
        match given {
            Some(p) => r@ == p@,
            None => match home {
                Some(h) => r@ == path_join(h@, bear_db_relative()),
                None => r@.len() == 0,
            },
        },
{
    match given {
        Some(p) => String::from_str(p),
        None => match default_db_path(home) {
            Some(p) => p,
            None => String::new(),
        },
    }
}

} // verus!
