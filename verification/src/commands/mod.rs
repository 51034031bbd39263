//! The commands' decisions: which callback URL to open, what input a
//! command needs, and how each outcome is answered. Reading input, opening
//! URLs, querying the database and printing are the caller's part.
use vstd::prelude::*;

use crate::output::{is_failure, is_ok_empty, Response};

pub mod batch;
pub mod export;
pub mod note;
pub mod stats;
pub mod tag;

verus! {

/// The answer to a write that either went through or failed with a message.
pub fn unit_reply(outcome: Result<(), String>, error_code: &str) -> (r: Response<()>)
    ensures
        match outcome {
            Ok(()) => is_ok_empty(r),
            Err(e) => is_failure(r, error_code@, e@),
        },
{
    match outcome {
        Ok(()) => Response::ok_empty(),
        Err(e) => Response::error(error_code, e.as_str()),
    }
}

/// The answer to a write that is checked for: seen, not seen in time
/// (`VERIFY_TIMEOUT`), or failed with a message.
pub fn verified_reply(outcome: Result<bool, String>, error_code: &str, timeout_message: &str) -> (r:
    Response<()>)
    ensures
        match outcome {
            Ok(true) => is_ok_empty(r),
            Ok(false) => is_failure(r, "VERIFY_TIMEOUT"@, timeout_message@),
            Err(e) => is_failure(r, error_code@, e@),
        },
{
    match outcome {
        Ok(true) => Response::ok_empty(),
        Ok(false) => Response::error("VERIFY_TIMEOUT", timeout_message),
        Err(e) => Response::error(error_code, e.as_str()),
    }
}

/// The text a command needs: the text read, or the answer `INPUT_ERROR`
/// with `missing_message` when none was given, or with the read error.
pub fn required_text(text: Result<Option<String>, String>, missing_message: &str) -> (r: Result<
    String,
    Response<()>,
>)
    ensures
        match text {
            Ok(Some(t)) => r == Ok::<String, Response<()>>(t),
            Ok(None) => r matches Err(resp) && is_failure(resp, "INPUT_ERROR"@, missing_message@),
            Err(e) => r matches Err(resp) && is_failure(resp, "INPUT_ERROR"@, e@),
        },
{
    match text {
        Ok(Some(t)) => Ok(t),
        Ok(None) => Err(Response::error("INPUT_ERROR", missing_message)),
        Err(e) => Err(Response::error("INPUT_ERROR", e.as_str())),
    }
}

/// The answer to a listing: the items with their number, or the error
/// `error_code` with the message.
pub fn list_reply<T>(outcome: Result<Vec<T>, String>, error_code: &str) -> (r: Response<Vec<T>>)
    ensures
        match outcome {
            Ok(items) => r.ok && r.data == Some(items) && r.count == Some(items.len()) && r.error is None
                && r.code is None,
            Err(e) => is_failure(r, error_code@, e@),
        },
{
    match outcome {
        Ok(items) => {
            let count = items.len();
            Response::success_with_count(items, count)
        },
        Err(e) => Response::failure(error_code, e.as_str()),
    }
}

} // verus!
