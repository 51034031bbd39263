use vstd::prelude::*;

use crate::db::{chrono_midnight, core_data_epoch, iso_to_core_data};
use crate::models::{BacklinkNote, Note, NoteFile, NoteSummary};
use crate::text::{
    decimal, decimal_chars, extend_chars, join_all,
    chars_eq_ignore_ascii_case, chars_of, eq_ignore_ascii_case, join, join_lines, lines,
    split_lines, string_of, trim, trim_chars, trim_start, trim_start_index, lemma_trim_idempotent,
};

verus! {

/// The number of `'#'` characters that `s` starts with.
pub open spec fn hash_run(s: Seq<char>) -> nat
    decreases s.len(),
{
    if s.len() > 0 && s[0] == '#' {
        1 + hash_run(s.drop_first())
    } else {
        0
    }
}

/// The heading level of a Markdown line: the number of `'#'` it starts
/// with once leading whitespace is dropped (0 for a line that is no heading).
pub open spec fn heading_level(line: Seq<char>) -> nat {
    hash_run(trim_start(line))
}

/// The text of a heading line: what follows its `'#'` run, trimmed.
pub open spec fn heading_text(line: Seq<char>) -> Seq<char> {
    trim(trim_start(line).skip(heading_level(line) as int))
}

/// `line` is a heading whose text is `header`, ignoring ASCII case.
pub open spec fn opens_section(line: Seq<char>, header: Seq<char>) -> bool {
    heading_level(line) > 0 && eq_ignore_ascii_case(heading_text(line), header)
}

/// The index of the first line at or after `from` that opens the section `header`.
pub open spec fn first_opening(ls: Seq<Seq<char>>, header: Seq<char>, from: int) -> Option<int>
    decreases ls.len() - from,
{
    if from < 0 || from >= ls.len() {
        None
    } else if opens_section(ls[from], header) {
        Some(from)
    } else {
        first_opening(ls, header, from + 1)
    }
}

/// `line` closes a section opened at `level`: it is a heading of that
/// level or a higher one.
pub open spec fn closes_section(line: Seq<char>, level: nat) -> bool {
    0 < heading_level(line) <= level
}

/// The index of the first line at or after `from` that closes a section of
/// `level`, or the number of lines if none does.
pub open spec fn section_end(ls: Seq<Seq<char>>, level: nat, from: int) -> int
    decreases ls.len() - from,
{
    if from < 0 || from >= ls.len() {
        ls.len() as int
    } else if closes_section(ls[from], level) {
        from
    } else {
        section_end(ls, level, from + 1)
    }
}

/// The section of `text` under the first heading whose text is `header`
/// (ASCII case ignored): the lines after that heading up to the next heading
/// of the same or a higher level (or the end), joined with `'\n'` and trimmed.
/// `None` when no heading has that text.
pub open spec fn section_of(text: Seq<char>, header: Seq<char>) -> Option<Seq<char>> {
    let ls = lines(text);
    match first_opening(ls, header, 0) {
        None => None,
        Some(s) => {
            let e = section_end(ls, heading_level(ls[s]), s + 1);
            Some(trim(join(ls.subrange(s + 1, e), seq!['\n'])))
        },
    }
}

proof fn lemma_first_opening_skip(ls: Seq<Seq<char>>, header: Seq<char>, from: int, i: int)
    requires
        0 <= from <= i <= ls.len(),
        forall|j: int| from <= j < i ==> !opens_section(#[trigger] ls[j], header),
    ensures
        first_opening(ls, header, from) == first_opening(ls, header, i),
    decreases i - from,
{
    if from < i {
        lemma_first_opening_skip(ls, header, from + 1, i);
    }
}

proof fn lemma_section_end_skip(ls: Seq<Seq<char>>, level: nat, from: int, i: int)
    requires
        0 <= from <= i <= ls.len(),
        forall|j: int| from <= j < i ==> !closes_section(#[trigger] ls[j], level),
    ensures
        section_end(ls, level, from) == section_end(ls, level, i),
    decreases i - from,
{
    if from < i {
        lemma_section_end_skip(ls, level, from + 1, i);
    }
}

proof fn lemma_hash_run_take(s: Seq<char>, k: int)
    requires
        0 <= k <= s.len(),
        forall|j: int| 0 <= j < k ==> #[trigger] s[j] == '#',
        k == s.len() || s[k] != '#',
    ensures
        hash_run(s) == k,
    decreases k,
{
    if k > 0 {
        assert forall|j: int| 0 <= j < k - 1 implies #[trigger] s.drop_first()[j] == '#' by {
            assert(s.drop_first()[j] == s[j + 1]);
        }
        if k < s.len() {
            assert(s.drop_first()[k - 1] == s[k]);
        }
        lemma_hash_run_take(s.drop_first(), k - 1);
    }
}

/// The heading level of `line` and the range of its heading text.
fn heading_parts(line: &[char]) -> (r: (usize, Vec<char>))
    ensures
        r.0 == heading_level(line@),
        r.0 > 0 ==> r.1@ == heading_text(line@),
{
    let t = trim_start_index(line);
    let trimmed = &line[t..line.len()];
    assert(trimmed@ == trim_start(line@));
    let n = trimmed.len();
    let mut k: usize = 0;
    while k < n && trimmed[k] == '#'
        invariant
            n == trimmed@.len(),
            k <= n,
            forall|j: int| 0 <= j < k ==> #[trigger] trimmed@[j] == '#',
        decreases n - k,
    {
        k = k + 1;
    }
    proof {
        lemma_hash_run_take(trimmed@, k as int);
    }
    if k == 0 {
        return (0, Vec::new());
    }
    let rest = &trimmed[k..n];
    assert(rest@ == trimmed@.skip(k as int));
    (k, trim_chars(rest))
}

/// The section of `text` under the Markdown heading `header`: the lines
/// after the first heading whose text equals `header` (ASCII case ignored)
/// up to the next heading of the same or a higher level, joined and trimmed.
pub fn extract_section(text: &str, header: &str) -> (r: Option<String>)
    ensures
        match r {
            Some(s) => section_of(text@, header@) == Some(s@),
            None => section_of(text@, header@) is None,
        },
{
    let tv = chars_of(text);
    let hv = chars_of(header);
    let ls = split_lines(tv.as_slice());
    let ghost spec_ls = lines(text@);
    assert forall|k: int| 0 <= k < ls@.len() implies #[trigger] ls@[k]@ == spec_ls[k] by {}
    let n = ls.len();
    let mut start: Option<usize> = None;
    let mut header_level: usize = 0;
    let mut i: usize = 0;
    while i < n
        invariant
            n == ls@.len(),
            n == spec_ls.len(),
            spec_ls == lines(text@),
            hv@ == header@,
            forall|k: int| 0 <= k < ls@.len() ==> #[trigger] ls@[k]@ == spec_ls[k],
            i <= n,
            match start {
                None => first_opening(spec_ls, header@, 0) == first_opening(spec_ls, header@, i as int),
                Some(s) => {
                    &&& s < i
                    &&& first_opening(spec_ls, header@, 0) == Some(s as int)
                    &&& header_level == heading_level(spec_ls[s as int])
                    &&& section_end(spec_ls, header_level as nat, s + 1) == section_end(
                        spec_ls,
                        header_level as nat,
                        i as int,
                    )
                },
            },
        decreases n - i,
    {
        let (level, h_text) = heading_parts(ls[i].as_slice());
        assert(ls@[i as int]@ == spec_ls[i as int]);
        if level > 0 {
            if start.is_none() && chars_eq_ignore_ascii_case(h_text.as_slice(), hv.as_slice()) {
                header_level = level;
                proof {
                    assert(opens_section(spec_ls[i as int], header@));
                    lemma_section_end_skip(spec_ls, level as nat, i + 1, i + 1);
                }
                start = Some(i);
            } else if start.is_some() && level <= header_level {
                let s = start.unwrap();
                let ghost e = section_end(spec_ls, header_level as nat, s + 1);
                proof {
                    assert(closes_section(spec_ls[i as int], header_level as nat));
                    assert(e == i);
                }
                let joined = join_lines(&ls, s + 1, i);
                proof {
                    let a = Seq::new((i - (s + 1)) as nat, |k: int| ls@[s + 1 + k]@);
                    assert(a == spec_ls.subrange(s + 1, i as int));
                }
                let trimmed = trim_chars(joined.as_slice());
                return Some(string_of(trimmed.as_slice()));
            } else {
                proof {
                    if start.is_none() {
                        assert(!opens_section(spec_ls[i as int], header@));
                    } else {
                        assert(!closes_section(spec_ls[i as int], header_level as nat));
                    }
                }
            }
        }
        proof {
            match start {
                None => {
                    assert(!opens_section(spec_ls[i as int], header@));
                    lemma_first_opening_skip(spec_ls, header@, i as int, i + 1);
                },
                Some(s) => {
                    if s < i {
                        assert(!closes_section(spec_ls[i as int], header_level as nat));
                        lemma_section_end_skip(spec_ls, header_level as nat, i as int, i + 1);
                    }
                },
            }
        }
        i = i + 1;
    }
    match start {
        Some(s) => {
            let joined = join_lines(&ls, s + 1, n);
            proof {
                let a = Seq::new((n - (s + 1)) as nat, |k: int| ls@[s + 1 + k]@);
                assert(a == spec_ls.subrange(s + 1, n as int));
            }
            let trimmed = trim_chars(joined.as_slice());
            Some(string_of(trimmed.as_slice()))
        },
        None => None,
    }
}

/// Law: an extracted section has no leading or trailing whitespace:
/// trimming it again changes nothing.
pub proof fn law_section_is_trimmed(text: Seq<char>, header: Seq<char>)
    ensures
        section_of(text, header) matches Some(s) ==> trim(s) == s,
{
    let ls = lines(text);
    if let Some(st) = first_opening(ls, header, 0) {
        let e = section_end(ls, heading_level(ls[st]), st + 1);
        lemma_trim_idempotent(join(ls.subrange(st + 1, e), seq!['\n']));
    }
}

// ---------------------------------------------------------------------------
// Search and export queries
// ---------------------------------------------------------------------------

/// A value bound to a query placeholder.
#[derive(Debug)]
pub enum SqlParam {
    /// A text value.
    Text(String),
    /// A Core Data time in whole seconds, bound as a real number.
    Time(i64),
}

/// The mathematical value of a query parameter.
pub enum SqlValue {
    Text(Seq<char>),
    Time(int),
}

pub open spec fn param_value(p: SqlParam) -> SqlValue {
    match p {
        SqlParam::Text(s) => SqlValue::Text(s@),
        SqlParam::Time(t) => SqlValue::Time(t as int),
    }
}

pub open spec fn param_values(ps: Seq<SqlParam>) -> Seq<SqlValue> {
    ps.map_values(|p: SqlParam| param_value(p))
}

/// A query: its SQL text and the values of its numbered placeholders.
#[derive(Debug)]
pub struct SqlQuery {
    pub sql: String,
    pub params: Vec<SqlParam>,
}

pub open spec fn search_select() -> Seq<char> {
    "SELECT DISTINCT n.ZUNIQUEIDENTIFIER, n.ZTITLE, n.ZCREATIONDATE, n.ZMODIFICATIONDATE, n.ZPINNED
             FROM ZSFNOTE n"@
}

pub open spec fn export_select() -> Seq<char> {
    "SELECT DISTINCT n.ZUNIQUEIDENTIFIER, n.ZTITLE, n.ZTEXT, n.ZCREATIONDATE, n.ZMODIFICATIONDATE,
                    n.ZPINNED, n.ZARCHIVED, n.ZTRASHED, n.ZHASFILES, n.ZHASIMAGES
             FROM ZSFNOTE n"@
}

pub open spec fn file_join() -> Seq<char> {
    " LEFT JOIN ZSFNOTEFILE f ON f.ZNOTE = n.Z_PK"@
}

pub open spec fn tag_join() -> Seq<char> {
    " JOIN Z_5TAGS zt ON zt.Z_5NOTES = n.Z_PK
                 JOIN ZSFNOTETAG t ON t.Z_PK = zt.Z_13TAGS"@
}

/// The conditions every listing starts with: not trashed, not deleted, not encrypted.
pub open spec fn live_conditions() -> Seq<Seq<char>> {
    seq!["n.ZTRASHED = 0"@, "n.ZPERMANENTLYDELETED = 0"@, "n.ZENCRYPTED = 0"@]
}

/// The text-match condition of a search, over title and text, and over the
/// text recognised in attached files when `ocr`.
pub open spec fn text_condition(ocr: bool) -> Seq<char> {
    if ocr {
        "(n.ZTEXT LIKE ?1 OR n.ZTITLE LIKE ?2 OR f.ZSEARCHTEXT LIKE ?3)"@
    } else {
        "(n.ZTEXT LIKE ?1 OR n.ZTITLE LIKE ?2)"@
    }
}

/// The optional tag and date conditions, numbering their placeholders from
/// `first` on, in the order tag, since, before.
pub open spec fn filter_conditions(
    first: nat,
    has_tag: bool,
    has_since: bool,
    has_before: bool,
    since_prefix: Seq<char>,
    before_prefix: Seq<char>,
) -> Seq<Seq<char>> {
    let k_since = first + if has_tag { 1nat } else { 0nat };
    let k_before = k_since + if has_since { 1nat } else { 0nat };
    (if has_tag { seq!["t.ZTITLE = ?"@ + decimal(first)] } else { Seq::empty() }) + (if has_since {
        seq![since_prefix + decimal(k_since)]
    } else {
        Seq::empty()
    }) + (if has_before { seq![before_prefix + decimal(k_before)] } else { Seq::empty() })
}

/// The Core Data time of midnight on the date `text` names, if it names one.
pub open spec fn core_time(text: Seq<char>) -> Option<int> {
    match chrono_midnight(text, "%Y-%m-%d"@) {
        Some(t) => Some(t - core_data_epoch()),
        None => None,
    }
}

/// Every given date names a date.
pub open spec fn dates_valid(since: Option<&str>, before: Option<&str>) -> bool {
    &&& (since matches Some(d) ==> core_time(d@) is Some)
    &&& (before matches Some(d) ==> core_time(d@) is Some)
}

/// The values of the optional filters, in the order tag, since, before.
pub open spec fn filter_values(tag: Option<&str>, since: Option<&str>, before: Option<&str>) -> Seq<
    SqlValue,
> {
    (match tag {
        Some(t) => seq![SqlValue::Text(t@)],
        None => Seq::empty(),
    }) + (match since {
        Some(d) => seq![SqlValue::Time(core_time(d@)->0)],
        None => Seq::empty(),
    }) + (match before {
        Some(d) => seq![SqlValue::Time(core_time(d@)->0)],
        None => Seq::empty(),
    })
}

/// The SQL of a search.
pub open spec fn search_sql(
    ocr: bool,
    has_tag: bool,
    has_since: bool,
    has_before: bool,
    limit: u32,
) -> Seq<char> {
    let conds = live_conditions() + seq![text_condition(ocr)] + filter_conditions(
        if ocr { 4 } else { 3 },
        has_tag,
        has_since,
        has_before,
        "n.ZMODIFICATIONDATE >= ?"@,
        "n.ZMODIFICATIONDATE < ?"@,
    );
    search_select() + (if ocr { file_join() } else { Seq::empty() }) + (if has_tag {
        tag_join()
    } else {
        Seq::empty()
    }) + " WHERE "@ + join(conds, " AND "@) + " ORDER BY n.ZMODIFICATIONDATE DESC"@ + " LIMIT "@
        + decimal(limit as nat)
}

/// The SQL of an export.
pub open spec fn export_sql(has_tag: bool, has_since: bool, has_before: bool) -> Seq<char> {
    let conds = live_conditions() + filter_conditions(
        1,
        has_tag,
        has_since,
        has_before,
        "n.ZCREATIONDATE >= ?"@,
        "n.ZCREATIONDATE < ?"@,
    );
    export_select() + (if has_tag { tag_join() } else { Seq::empty() }) + " WHERE "@ + join(
        conds,
        " AND "@,
    ) + " ORDER BY n.ZCREATIONDATE DESC"@
}

/// The `LIKE` pattern that finds `query` anywhere.
pub open spec fn like_pattern(query: Seq<char>) -> Seq<char> {
    seq!['%'] + query + seq!['%']
}

fn live_condition_chars() -> (r: Vec<Vec<char>>)
    ensures
        r@.map_values(|c: Vec<char>| c@) == live_conditions(),
{
    let mut r: Vec<Vec<char>> = Vec::new();
    r.push(chars_of("n.ZTRASHED = 0"));
    r.push(chars_of("n.ZPERMANENTLYDELETED = 0"));
    r.push(chars_of("n.ZENCRYPTED = 0"));
    assert(r@.map_values(|c: Vec<char>| c@) =~= live_conditions());
    r
}

/// `prefix` followed by the placeholder number `k`.
fn numbered(prefix: &str, k: usize) -> (r: Vec<char>)
    ensures
        r@ == prefix@ + decimal(k as nat),
{
    let mut r = chars_of(prefix);
    let d = decimal_chars(k as u64);
    extend_chars(&mut r, d.as_slice());
    r
}

/// Adds the optional tag and date conditions and their values.
fn push_filters(
    conds: &mut Vec<Vec<char>>,
    params: &mut Vec<SqlParam>,
    tag: Option<&str>,
    since: Option<&str>,
    before: Option<&str>,
    since_prefix: &str,
    before_prefix: &str,
) -> (r: Result<(), String>)
    requires
        old(params)@.len() < 1000,
    ensures
        r is Ok <==> dates_valid(since, before),
        r matches Err(e) ==> e@ == crate::db::bad_date_message(),
        r is Ok ==> {
            &&& final(conds)@.map_values(|c: Vec<char>| c@) == old(conds)@.map_values(
                |c: Vec<char>| c@,
            ) + filter_conditions(
                (old(params)@.len() + 1) as nat,
                tag is Some,
                since is Some,
                before is Some,
                since_prefix@,
                before_prefix@,
            )
            &&& param_values(final(params)@) == param_values(old(params)@) + filter_values(
                tag,
                since,
                before,
            )
        },
{
    let ghost c0 = conds@.map_values(|c: Vec<char>| c@);
    let ghost p0 = param_values(params@);
    let first = params.len() + 1;
    let ghost mut fc: Seq<Seq<char>> = Seq::empty();
    let ghost mut fv: Seq<SqlValue> = Seq::empty();
    if let Some(t) = tag {
        conds.push(numbered("t.ZTITLE = ?", params.len() + 1));
        params.push(SqlParam::Text(t.to_owned()));
        proof {
            fc = fc.push("t.ZTITLE = ?"@ + decimal(first as nat));
            fv = fv.push(SqlValue::Text(t@));
        }
    }
    assert(conds@.map_values(|c: Vec<char>| c@) =~= c0 + fc);
    assert(param_values(params@) =~= p0 + fv);
    if let Some(d) = since {
        let cd = match iso_to_core_data(d) {
            Ok(cd) => cd,
            Err(e) => return Err(e),
        };
        let ghost k = params.len() + 1;
        conds.push(numbered(since_prefix, params.len() + 1));
        params.push(SqlParam::Time(cd));
        proof {
            fc = fc.push(since_prefix@ + decimal(k as nat));
            fv = fv.push(SqlValue::Time(core_time(d@)->0));
        }
    }
    assert(conds@.map_values(|c: Vec<char>| c@) =~= c0 + fc);
    assert(param_values(params@) =~= p0 + fv);
    if let Some(d) = before {
        let cd = match iso_to_core_data(d) {
            Ok(cd) => cd,
            Err(e) => return Err(e),
        };
        let ghost k = params.len() + 1;
        conds.push(numbered(before_prefix, params.len() + 1));
        params.push(SqlParam::Time(cd));
        proof {
            fc = fc.push(before_prefix@ + decimal(k as nat));
            fv = fv.push(SqlValue::Time(core_time(d@)->0));
        }
    }
    assert(conds@.map_values(|c: Vec<char>| c@) =~= c0 + fc);
    assert(param_values(params@) =~= p0 + fv);
    assert(fc =~= filter_conditions(
        first as nat,
        tag is Some,
        since is Some,
        before is Some,
        since_prefix@,
        before_prefix@,
    ));
    assert(fv =~= filter_values(tag, since, before));
    Ok(())
}

/// The query that searches live notes for `query` in title and text (and in
/// the text recognised in attachments when `ocr`), optionally only notes
/// carrying `tag` or modified since / before a `YYYY-MM-DD` date, newest
/// first, at most `limit` of them. An error when a date is not `YYYY-MM-DD`.
pub fn search_query(
    query: &str,
    ocr: bool,
    tag: Option<&str>,
    since: Option<&str>,
    before: Option<&str>,
    limit: u32,
) -> (r: Result<SqlQuery, String>)
    ensures
        r is Ok <==> dates_valid(since, before),
        r matches Err(e) ==> e@ == crate::db::bad_date_message(),
        r matches Ok(q) ==> {
            &&& q.sql@ == search_sql(ocr, tag is Some, since is Some, before is Some, limit)
            &&& param_values(q.params@) == Seq::new(
                if ocr { 3nat } else { 2nat },
                |i: int| SqlValue::Text(like_pattern(query@)),
            ) + filter_values(tag, since, before)
        },
{
    let mut sql = chars_of("SELECT DISTINCT n.ZUNIQUEIDENTIFIER, n.ZTITLE, n.ZCREATIONDATE, n.ZMODIFICATIONDATE, n.ZPINNED
             FROM ZSFNOTE n");
    let mut conds = live_condition_chars();
    let mut params: Vec<SqlParam> = Vec::new();
    let mut pattern = String::new();
    pattern.push('%');
    pattern.append(query);
    pattern.push('%');
    assert(pattern@ == like_pattern(query@));
    if ocr {
        extend_chars(&mut sql, chars_of(" LEFT JOIN ZSFNOTEFILE f ON f.ZNOTE = n.Z_PK").as_slice());
        conds.push(chars_of("(n.ZTEXT LIKE ?1 OR n.ZTITLE LIKE ?2 OR f.ZSEARCHTEXT LIKE ?3)"));
        params.push(SqlParam::Text(pattern.clone()));
        params.push(SqlParam::Text(pattern.clone()));
        params.push(SqlParam::Text(pattern));
    } else {
        conds.push(chars_of("(n.ZTEXT LIKE ?1 OR n.ZTITLE LIKE ?2)"));
        params.push(SqlParam::Text(pattern.clone()));
        params.push(SqlParam::Text(pattern));
    }
    let ghost text_params = param_values(params@);
    assert(text_params =~= Seq::new(
        if ocr { 3nat } else { 2nat },
        |i: int| SqlValue::Text(like_pattern(query@)),
    ));
    let ghost conds0 = conds@.map_values(|c: Vec<char>| c@);
    assert(conds0 =~= live_conditions() + seq![text_condition(ocr)]);
    if tag.is_some() {
        extend_chars(
            &mut sql,
            chars_of(" JOIN Z_5TAGS zt ON zt.Z_5NOTES = n.Z_PK
                 JOIN ZSFNOTETAG t ON t.Z_PK = zt.Z_13TAGS").as_slice(),
        );
    }
    match push_filters(
        &mut conds,
        &mut params,
        tag,
        since,
        before,
        "n.ZMODIFICATIONDATE >= ?",
        "n.ZMODIFICATIONDATE < ?",
    ) {
        Ok(()) => {},
        Err(e) => return Err(e),
    }
    extend_chars(&mut sql, chars_of(" WHERE ").as_slice());
    let and_sep = chars_of(" AND ");
    let joined = join_all(&conds, and_sep.as_slice());
    extend_chars(&mut sql, joined.as_slice());
    extend_chars(&mut sql, chars_of(" ORDER BY n.ZMODIFICATIONDATE DESC").as_slice());
    extend_chars(&mut sql, chars_of(" LIMIT ").as_slice());
    let digits = decimal_chars(limit as u64);
    extend_chars(&mut sql, digits.as_slice());
    assert(sql@ == search_sql(ocr, tag is Some, since is Some, before is Some, limit));
    Ok(SqlQuery { sql: string_of(sql.as_slice()), params })
}

/// The query that lists live notes for export, optionally only those
/// carrying `tag` or created since / before a `YYYY-MM-DD` date, newest
/// first. An error when a date is not `YYYY-MM-DD`.
pub fn export_query(tag: Option<&str>, since: Option<&str>, before: Option<&str>) -> (r: Result<
    SqlQuery,
    String,
>)
    ensures
        r is Ok <==> dates_valid(since, before),
        r matches Err(e) ==> e@ == crate::db::bad_date_message(),
        r matches Ok(q) ==> {
            &&& q.sql@ == export_sql(tag is Some, since is Some, before is Some)
            &&& param_values(q.params@) == filter_values(tag, since, before)
        },
{
    let mut sql = chars_of("SELECT DISTINCT n.ZUNIQUEIDENTIFIER, n.ZTITLE, n.ZTEXT, n.ZCREATIONDATE, n.ZMODIFICATIONDATE,
                    n.ZPINNED, n.ZARCHIVED, n.ZTRASHED, n.ZHASFILES, n.ZHASIMAGES
             FROM ZSFNOTE n");
    let mut conds = live_condition_chars();
    let mut params: Vec<SqlParam> = Vec::new();
    if tag.is_some() {
        extend_chars(
            &mut sql,
            chars_of(" JOIN Z_5TAGS zt ON zt.Z_5NOTES = n.Z_PK
                 JOIN ZSFNOTETAG t ON t.Z_PK = zt.Z_13TAGS").as_slice(),
        );
    }
    assert(param_values(params@) =~= Seq::empty());
    match push_filters(
        &mut conds,
        &mut params,
        tag,
        since,
        before,
        "n.ZCREATIONDATE >= ?",
        "n.ZCREATIONDATE < ?",
    ) {
        Ok(()) => {},
        Err(e) => return Err(e),
    }
    extend_chars(&mut sql, chars_of(" WHERE ").as_slice());
    let and_sep = chars_of(" AND ");
    let joined = join_all(&conds, and_sep.as_slice());
    extend_chars(&mut sql, joined.as_slice());
    extend_chars(&mut sql, chars_of(" ORDER BY n.ZCREATIONDATE DESC").as_slice());
    assert(sql@ == export_sql(tag is Some, since is Some, before is Some));
    Ok(SqlQuery { sql: string_of(sql.as_slice()), params })
}

// ---------------------------------------------------------------------------
// Rows
// ---------------------------------------------------------------------------

/// The columns of a note row, its dates already written as ISO text.
#[derive(Debug)]
pub struct NoteRow {
    pub uid: String,
    pub title: Option<String>,
    pub text: Option<String>,
    pub created_at: String,
    pub modified_at: String,
    pub pinned: i32,
    pub archived: i32,
    pub trashed: i32,
    pub has_files: i32,
    pub has_images: i32,
}

/// The text of an optional column, empty when absent.
pub open spec fn or_empty(t: Option<String>) -> Seq<char> {
    match t {
        Some(s) => s@,
        None => Seq::empty(),
    }
}

fn text_or_default(t: Option<String>) -> (r: String)
    ensures
        r@ == or_empty(t),
{
    match t {
        Some(s) => s,
        None => String::new(),
    }
}

/// A note from its row and its tags: absent title and text read as empty,
/// each flag as set when it is not 0.
pub fn note_from_row(row: NoteRow, tags: Vec<String>) -> (n: Note)
    ensures
        n.id == row.uid,
        n.title@ == or_empty(row.title),
        n.text@ == or_empty(row.text),
        n.tags == tags,
        n.created_at == row.created_at,
        n.modified_at == row.modified_at,
        n.is_pinned == (row.pinned != 0),
        n.is_archived == (row.archived != 0),
        n.is_trashed == (row.trashed != 0),
        n.has_files == (row.has_files != 0),
        n.has_images == (row.has_images != 0),
{
    Note {
        id: row.uid,
        title: text_or_default(row.title),
        text: text_or_default(row.text),
        tags,
        created_at: row.created_at,
        modified_at: row.modified_at,
        is_pinned: row.pinned != 0,
        is_archived: row.archived != 0,
        is_trashed: row.trashed != 0,
        has_files: row.has_files != 0,
        has_images: row.has_images != 0,
    }
}

/// An encrypted note cannot be read: the error `ENCRYPTED_NOTE` when the
/// flag is set.
pub fn check_not_encrypted(encrypted: i32) -> (r: Result<(), String>)
    ensures
        encrypted == 0 <==> r is Ok,
        r matches Err(e) ==> e@ == "ENCRYPTED_NOTE"@,
{
    if encrypted != 0 {
        Err(String::from_str("ENCRYPTED_NOTE"))
    } else {
        Ok(())
    }
}

/// A note summary from its columns.
pub fn summary_from_row(
    uid: String,
    title: Option<String>,
    created_at: String,
    modified_at: String,
    pinned: i32,
    tags: Vec<String>,
) -> (s: NoteSummary)
    ensures
        s.id == uid,
        s.title@ == or_empty(title),
        s.created_at == created_at,
        s.modified_at == modified_at,
        s.is_pinned == (pinned != 0),
        s.tags == tags,
{
    NoteSummary {
        id: uid,
        title: text_or_default(title),
        created_at,
        modified_at,
        is_pinned: pinned != 0,
        tags,
    }
}

/// A linking note from its columns.
pub fn backlink_from_row(id: String, title: Option<String>) -> (b: BacklinkNote)
    ensures
        b.id == id,
        b.title@ == or_empty(title),
{
    BacklinkNote { id, title: text_or_default(title) }
}

/// An attached file from its columns.
pub fn file_from_row(filename: Option<String>, search_text: Option<String>) -> (f: NoteFile)
    ensures
        f.filename@ == or_empty(filename),
        f.search_text == search_text,
{
    NoteFile { filename: text_or_default(filename), search_text }
}

} // verus!
