use vstd::prelude::*;

use crate::commands::{list_reply, unit_reply, verified_reply};
use crate::models::{NoteSummary, Tag};
use crate::output::{is_failure, is_ok_empty, Response};

verus! {

/// The answer to listing tags: the tag tree with the number of its roots,
/// or `DB_ERROR`.
pub fn list_tags(outcome: Result<Vec<Tag>, String>) -> (r: Response<Vec<Tag>>)
    ensures
        match outcome {
            Ok(items) => r.ok && r.data == Some(items) && r.count == Some(items.len()) && r.error is None
                && r.code is None,
            Err(e) => is_failure(r, "DB_ERROR"@, e@),
        },
{
    list_reply(outcome, "DB_ERROR")
}

/// The answer once tags were sent to a note and checked for.
pub fn add_tag(outcome: Result<bool, String>) -> (r: Response<()>)
    ensures
        match outcome {
            Ok(true) => is_ok_empty(r),
            Ok(false) => is_failure(r, "VERIFY_TIMEOUT"@, "Tag addition could not be verified"@),
            Err(e) => is_failure(r, "TAG_ERROR"@, e@),
        },
{
    verified_reply(outcome, "TAG_ERROR", "Tag addition could not be verified")
}

/// The answer once the rename URL was opened.
pub fn rename_tag(outcome: Result<(), String>) -> (r: Response<()>)
    ensures
        match outcome {
            Ok(()) => is_ok_empty(r),
            Err(e) => is_failure(r, "RENAME_ERROR"@, e@),
        },
{
    unit_reply(outcome, "RENAME_ERROR")
}

/// The answer once the delete URL was opened.
pub fn delete_tag(outcome: Result<(), String>) -> (r: Response<()>)
    ensures
        match outcome {
            Ok(()) => is_ok_empty(r),
            Err(e) => is_failure(r, "DELETE_ERROR"@, e@),
        },
{
    unit_reply(outcome, "DELETE_ERROR")
}

/// The answer to listing untagged notes: the notes with their number, or
/// `DB_ERROR`.
pub fn untagged(outcome: Result<Vec<NoteSummary>, String>) -> (r: Response<Vec<NoteSummary>>)
    ensures
        match outcome {
            Ok(items) => r.ok && r.data == Some(items) && r.count == Some(items.len()) && r.error is None
                && r.code is None,
            Err(e) => is_failure(r, "DB_ERROR"@, e@),
        },
{
    list_reply(outcome, "DB_ERROR")
}

} // verus!
