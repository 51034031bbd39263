use vstd::prelude::*;

use crate::models::Stats;
use crate::output::{is_failure, Response};

verus! {

/// The answer to a statistics request: the statistics, or `DB_ERROR`.
pub fn show_stats(outcome: Result<Stats, String>) -> (r: Response<Stats>)
    ensures
        match outcome {
            Ok(s) => r.ok && r.data == Some(s) && r.count is None && r.error is None && r.code is None,
            Err(e) => is_failure(r, "DB_ERROR"@, e@),
        },
{
    match outcome {
        Ok(stats) => Response::success(stats),
        Err(e) => Response::failure("DB_ERROR", e.as_str()),
    }
}

} // verus!
