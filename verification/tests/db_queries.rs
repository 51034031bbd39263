use bearclaw::db::notes::{export_query, search_query, SqlParam};
use bearclaw::db::{iso_from_unix, iso_to_core_data};

const SEARCH_SELECT: &str = "SELECT DISTINCT n.ZUNIQUEIDENTIFIER, n.ZTITLE, n.ZCREATIONDATE, n.ZMODIFICATIONDATE, n.ZPINNED
             FROM ZSFNOTE n";
const EXPORT_SELECT: &str = "SELECT DISTINCT n.ZUNIQUEIDENTIFIER, n.ZTITLE, n.ZTEXT, n.ZCREATIONDATE, n.ZMODIFICATIONDATE,
                    n.ZPINNED, n.ZARCHIVED, n.ZTRASHED, n.ZHASFILES, n.ZHASIMAGES
             FROM ZSFNOTE n";
const TAG_JOIN: &str = " JOIN Z_5TAGS zt ON zt.Z_5NOTES = n.Z_PK
                 JOIN ZSFNOTETAG t ON t.Z_PK = zt.Z_13TAGS";
const LIVE: &str = "n.ZTRASHED = 0 AND n.ZPERMANENTLYDELETED = 0 AND n.ZENCRYPTED = 0";

fn text(p: &SqlParam) -> String {
    match p {
        SqlParam::Text(s) => s.clone(),
        SqlParam::Time(t) => panic!("expected text, got time {t}"),
    }
}

fn time(p: &SqlParam) -> i64 {
    match p {
        SqlParam::Time(t) => *t,
        SqlParam::Text(s) => panic!("expected time, got text {s}"),
    }
}

#[test]
fn plain_search_query() {
    let q = search_query("rust", false, None, None, None, 50).unwrap();
    let expected = format!(
        "{SEARCH_SELECT} WHERE {LIVE} AND (n.ZTEXT LIKE ?1 OR n.ZTITLE LIKE ?2) ORDER BY n.ZMODIFICATIONDATE DESC LIMIT 50"
    );
    assert_eq!(q.sql, expected);
    assert_eq!(q.params.len(), 2);
    assert_eq!(text(&q.params[0]), "%rust%");
    assert_eq!(text(&q.params[1]), "%rust%");
}

#[test]
fn full_search_query_numbers_placeholders_in_order() {
    let q = search_query("x", true, Some("work"), Some("2001-01-02"), Some("2001-01-03"), 7).unwrap();
    let expected = format!(
        "{SEARCH_SELECT} LEFT JOIN ZSFNOTEFILE f ON f.ZNOTE = n.Z_PK{TAG_JOIN} WHERE {LIVE} AND (n.ZTEXT LIKE ?1 OR n.ZTITLE LIKE ?2 OR f.ZSEARCHTEXT LIKE ?3) AND t.ZTITLE = ?4 AND n.ZMODIFICATIONDATE >= ?5 AND n.ZMODIFICATIONDATE < ?6 ORDER BY n.ZMODIFICATIONDATE DESC LIMIT 7"
    );
    assert_eq!(q.sql, expected);
    assert_eq!(q.params.len(), 6);
    assert_eq!(text(&q.params[2]), "%x%");
    assert_eq!(text(&q.params[3]), "work");
    assert_eq!(time(&q.params[4]), 86400);
    assert_eq!(time(&q.params[5]), 2 * 86400);
}

#[test]
fn search_query_with_only_before() {
    let q = search_query("", false, None, None, Some("2001-01-01"), 1000).unwrap();
    let expected = format!(
        "{SEARCH_SELECT} WHERE {LIVE} AND (n.ZTEXT LIKE ?1 OR n.ZTITLE LIKE ?2) AND n.ZMODIFICATIONDATE < ?3 ORDER BY n.ZMODIFICATIONDATE DESC LIMIT 1000"
    );
    assert_eq!(q.sql, expected);
    assert_eq!(text(&q.params[0]), "%%");
    assert_eq!(time(&q.params[2]), 0);
}

#[test]
fn search_query_rejects_bad_dates() {
    let e = search_query("x", false, None, Some("yesterday"), None, 5).unwrap_err();
    assert_eq!(e, "Invalid date format, expected YYYY-MM-DD");
    let e = search_query("x", false, None, None, Some("2024/01/15"), 5).unwrap_err();
    assert_eq!(e, "Invalid date format, expected YYYY-MM-DD");
}

#[test]
fn export_queries() {
    let q = export_query(None, None, None).unwrap();
    assert_eq!(q.sql, format!("{EXPORT_SELECT} WHERE {LIVE} ORDER BY n.ZCREATIONDATE DESC"));
    assert!(q.params.is_empty());

    let q = export_query(Some("a/b"), Some("2024-01-15"), None).unwrap();
    assert_eq!(
        q.sql,
        format!(
            "{EXPORT_SELECT}{TAG_JOIN} WHERE {LIVE} AND t.ZTITLE = ?1 AND n.ZCREATIONDATE >= ?2 ORDER BY n.ZCREATIONDATE DESC"
        )
    );
    assert_eq!(text(&q.params[0]), "a/b");
    assert_eq!(time(&q.params[1]), 726969600);

    let q = export_query(None, Some("2024-01-15"), Some("2024-02-01")).unwrap();
    assert!(q.sql.ends_with("AND n.ZCREATIONDATE >= ?1 AND n.ZCREATIONDATE < ?2 ORDER BY n.ZCREATIONDATE DESC"));
    assert!(export_query(None, None, Some("01-02-2024")).is_err());
}

#[test]
fn core_data_dates() {
    assert_eq!(iso_to_core_data("2001-01-01"), Ok(0));
    assert_eq!(iso_to_core_data("2024-01-15"), Ok(726969600));
    assert_eq!(iso_to_core_data("2000-12-31"), Ok(-86400));
    assert_eq!(
        iso_to_core_data("not a date"),
        Err("Invalid date format, expected YYYY-MM-DD".to_string())
    );
}

#[test]
fn iso_text_of_unix_times() {
    assert_eq!(iso_from_unix(0), "1970-01-01T00:00:00Z");
    assert_eq!(iso_from_unix(978307200), "2001-01-01T00:00:00Z");
    assert_eq!(iso_from_unix(1705276800 + 3661), "2024-01-15T01:01:01Z");
    assert_eq!(iso_from_unix(i64::MAX), "");
}
