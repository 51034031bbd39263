//! What the program reports before it reaches a command: a missing
//! database, and the health check.
use vstd::prelude::*;

use crate::models::HealthStatus;
use crate::output::{is_failure, Response};

verus! {

/// The answer when no database is at `path`: `DB_NOT_FOUND`, naming the path.
pub fn db_not_found(path: &str) -> (r: Response<()>)
    ensures
        is_failure(r, "DB_NOT_FOUND"@, "Database not found at: "@ + path@),
{
    let mut message = String::from_str("Database not found at: ");
    message.append(path);
    Response::error("DB_NOT_FOUND", message.as_str())
}

/// The health report. `schema` is what the schema check found when the
/// database could be opened (`None` when it could not), `counts` the note
/// and tag counts when the statistics could be read; counts are reported
/// only for a database with the expected schema.
pub fn health_status(
    bear_installed: bool,
    db_exists: bool,
    db_path: &str,
    schema: Option<bool>,
    counts: Option<(u32, u32)>,
) -> (h: HealthStatus)
    ensures
        h.bear_installed == bear_installed,
        h.db_exists == db_exists,
        h.db_path@ == db_path@,
        h.schema_ok == (db_exists && schema == Some(true)),
        h.note_count == (match counts {
            Some(c) => if h.schema_ok {
                Some(c.0)
            } else {
                None
            },
            None => None,
        }),
        h.tag_count == (match counts {
            Some(c) => if h.schema_ok {
                Some(c.1)
            } else {
                None
            },
            None => None,
        }),
{
    let schema_ok = db_exists && match schema {
        Some(true) => true,
        _ => false,
    };
    let (note_count, tag_count) = match counts {
        Some((n, t)) => {
            if schema_ok {
                (Some(n), Some(t))
            } else {
                (None, None)
            }
        },
        None => (None, None),
    };
    HealthStatus {
        bear_installed,
        db_exists,
        db_path: db_path.to_owned(),
        note_count,
        tag_count,
        schema_ok,
    }
}

} // verus!
