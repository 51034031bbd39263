use vstd::prelude::*;

use crate::models::NoteSummary;
use crate::output::{is_failure, is_well_formed, Response};

verus! {

/// A note a batch operation failed on, and why.
#[derive(Debug)]
pub struct BatchFailure {
    pub id: String,
    pub error: String,
}

/// The notes a batch operation went through on, and those it failed on.
#[derive(Debug)]
pub struct BatchResult {
    pub succeeded: Vec<String>,
    pub failed: Vec<BatchFailure>,
}

pub open spec fn succeeded_ids(r: BatchResult) -> Seq<Seq<char>> {
    r.succeeded@.map_values(|s: String| s@)
}

pub open spec fn failures(r: BatchResult) -> Seq<(Seq<char>, Seq<char>)> {
    r.failed@.map_values(|f: BatchFailure| (f.id@, f.error@))
}

/// The notes a batch operation runs on: the ids of the search results, or
/// the answer `SEARCH_ERROR` when the search failed, or `NOT_FOUND` when it
/// found nothing.
pub fn batch_targets(found: Result<Vec<NoteSummary>, String>) -> (r: Result<Vec<String>, Response<()>>)
    ensures
        match found {
            Ok(notes) => if notes@.len() == 0 {
                r matches Err(resp) && is_failure(resp, "NOT_FOUND"@, "No notes match the filter"@)
            } else {
                r matches Ok(ids) && ids@.len() == notes@.len() && forall|i: int|
                    0 <= i < ids@.len() ==> #[trigger] ids@[i]@ == notes@[i].id@
            },
            Err(e) => r matches Err(resp) && is_failure(resp, "SEARCH_ERROR"@, e@),
        },
{
    match found {
        Ok(notes) => {
            if notes.len() == 0 {
                return Err(Response::error("NOT_FOUND", "No notes match the filter"));
            }
            let mut ids: Vec<String> = Vec::new();
            let n = notes.len();
            for i in 0..n
                invariant
                    n == notes@.len(),
                    ids@.len() == i,
                    forall|j: int| 0 <= j < i ==> #[trigger] ids@[j]@ == notes@[j].id@,
            {
                ids.push(notes[i].id.clone());
            }
            Ok(ids)
        },
        Err(e) => Err(Response::error("SEARCH_ERROR", e.as_str())),
    }
}

/// The notes a batch tagging went through on: those whose write was seen.
pub open spec fn tag_successes(ids: Seq<String>, outcomes: Seq<Result<bool, String>>) -> Seq<
    Seq<char>,
>
    decreases ids.len(),
{
    if ids.len() == 0 || outcomes.len() == 0 {
        Seq::empty()
    } else {
        tag_successes(ids.drop_last(), outcomes.drop_last()) + if outcomes.last() matches Ok(
            true,
        ) {
            seq![ids.last()@]
        } else {
            Seq::empty()
        }
    }
}

/// The notes a batch tagging failed on, with `VERIFY_TIMEOUT` when the
/// write was not seen and the message otherwise.
pub open spec fn tag_failures(ids: Seq<String>, outcomes: Seq<Result<bool, String>>) -> Seq<
    (Seq<char>, Seq<char>),
>
    decreases ids.len(),
{
    if ids.len() == 0 || outcomes.len() == 0 {
        Seq::empty()
    } else {
        tag_failures(ids.drop_last(), outcomes.drop_last()) + match outcomes.last() {
            Ok(true) => Seq::empty(),
            Ok(false) => seq![(ids.last()@, "VERIFY_TIMEOUT"@)],
            Err(e) => seq![(ids.last()@, e@)],
        }
    }
}

/// The notes a batch archiving went through on.
pub open spec fn archive_successes(ids: Seq<String>, outcomes: Seq<Result<(), String>>) -> Seq<
    Seq<char>,
>
    decreases ids.len(),
{
    if ids.len() == 0 || outcomes.len() == 0 {
        Seq::empty()
    } else {
        archive_successes(ids.drop_last(), outcomes.drop_last()) + if outcomes.last() is Ok {
            seq![ids.last()@]
        } else {
            Seq::empty()
        }
    }
}

/// The notes a batch archiving failed on, with the message.
pub open spec fn archive_failures(ids: Seq<String>, outcomes: Seq<Result<(), String>>) -> Seq<
    (Seq<char>, Seq<char>),
>
    decreases ids.len(),
{
    if ids.len() == 0 || outcomes.len() == 0 {
        Seq::empty()
    } else {
        archive_failures(ids.drop_last(), outcomes.drop_last()) + match outcomes.last() {
            Ok(()) => Seq::empty(),
            Err(e) => seq![(ids.last()@, e@)],
        }
    }
}

/// `r` answers a batch over `total` notes with `result`: success with the
/// count when nothing failed, otherwise `PARTIAL_FAILURE` with the result.
pub open spec fn is_batch_answer(r: Response<BatchResult>, result: BatchResult, total: usize) -> bool {
    &&& r.data == Some(result)
    &&& r.count == Some(total)
    &&& if result.failed@.len() == 0 {
        r.ok && r.error is None && r.code is None
    } else {
        &&& !r.ok
        &&& r.error matches Some(e) && e@ == "Some operations failed"@
        &&& r.code matches Some(c) && c@ == "PARTIAL_FAILURE"@
    }
}

/// Law: a batch answer is well formed, and it succeeds exactly when no
/// target failed.
pub proof fn law_batch_answer_is_well_formed(r: Response<BatchResult>, result: BatchResult, total: usize)
    requires
        is_batch_answer(r, result, total),
    ensures
        is_well_formed(r),
        r.ok <==> result.failed@.len() == 0,
{
}

fn batch_answer(result: BatchResult, total: usize) -> (r: Response<BatchResult>)
    ensures
        is_batch_answer(r, result, total),
{
    if result.failed.len() == 0 {
        Response::success_with_count(result, total)
    } else {
        Response {
            ok: false,
            data: Some(result),
            count: Some(total),
            error: Some(String::from_str("Some operations failed")),
            code: Some(String::from_str("PARTIAL_FAILURE")),
        }
    }
}

/// The answer to a batch tagging, given each target's outcome in order:
/// the ids whose write was seen, and the failures (`VERIFY_TIMEOUT` or the
/// message).
pub fn batch_tag(ids: &Vec<String>, outcomes: Vec<Result<bool, String>>) -> (r: Response<BatchResult>)
    requires
        ids@.len() == outcomes@.len(),
    ensures
        r.data matches Some(result) && is_batch_answer(r, result, ids.len()) && succeeded_ids(result)
            == tag_successes(ids@, outcomes@) && failures(result) == tag_failures(ids@, outcomes@),
{
    let mut result = BatchResult { succeeded: Vec::new(), failed: Vec::new() };
    let n = ids.len();
    for i in 0..n
        invariant
            n == ids@.len(),
            n == outcomes@.len(),
            succeeded_ids(result) == tag_successes(ids@.take(i as int), outcomes@.take(i as int)),
            failures(result) == tag_failures(ids@.take(i as int), outcomes@.take(i as int)),
    {
        let ghost s0 = succeeded_ids(result);
        let ghost f0 = failures(result);
        proof {
            let ids1 = ids@.take(i + 1);
            let outs1 = outcomes@.take(i + 1);
            assert(ids1.drop_last() == ids@.take(i as int));
            assert(outs1.drop_last() == outcomes@.take(i as int));
            assert(ids1.last() == ids@[i as int]);
            assert(outs1.last() == outcomes@[i as int]);
        }
        match &outcomes[i] {
            Ok(true) => {
                result.succeeded.push(ids[i].clone());
                assert(succeeded_ids(result) =~= s0 + seq![ids@[i as int]@]);
                assert(failures(result) =~= f0);
            },
            Ok(false) => {
                result.failed.push(
                    BatchFailure { id: ids[i].clone(), error: String::from_str("VERIFY_TIMEOUT") },
                );
                assert(failures(result) =~= f0 + seq![(ids@[i as int]@, "VERIFY_TIMEOUT"@)]);
                assert(succeeded_ids(result) =~= s0);
            },
            Err(e) => {
                result.failed.push(BatchFailure { id: ids[i].clone(), error: e.clone() });
                assert(failures(result) =~= f0 + seq![(ids@[i as int]@, e@)]);
                assert(succeeded_ids(result) =~= s0);
            },
        }
    }
    assert(ids@.take(n as int) == ids@);
    assert(outcomes@.take(n as int) == outcomes@);
    batch_answer(result, n)
}

/// The answer to a batch archiving, given each target's outcome in order.
pub fn batch_archive(ids: &Vec<String>, outcomes: Vec<Result<(), String>>) -> (r: Response<
    BatchResult,
>)
    requires
        ids@.len() == outcomes@.len(),
    ensures
        r.data matches Some(result) && is_batch_answer(r, result, ids.len()) && succeeded_ids(result)
            == archive_successes(ids@, outcomes@) && failures(result) == archive_failures(
            ids@,
            outcomes@,
        ),
{
    let mut result = BatchResult { succeeded: Vec::new(), failed: Vec::new() };
    let n = ids.len();
    for i in 0..n
        invariant
            n == ids@.len(),
            n == outcomes@.len(),
            succeeded_ids(result) == archive_successes(ids@.take(i as int), outcomes@.take(i as int)),
            failures(result) == archive_failures(ids@.take(i as int), outcomes@.take(i as int)),
    {
        let ghost s0 = succeeded_ids(result);
        let ghost f0 = failures(result);
        proof {
            let ids1 = ids@.take(i + 1);
            let outs1 = outcomes@.take(i + 1);
            assert(ids1.drop_last() == ids@.take(i as int));
            assert(outs1.drop_last() == outcomes@.take(i as int));
            assert(ids1.last() == ids@[i as int]);
            assert(outs1.last() == outcomes@[i as int]);
        }
        match &outcomes[i] {
            Ok(()) => {
                result.succeeded.push(ids[i].clone());
                assert(succeeded_ids(result) =~= s0 + seq![ids@[i as int]@]);
                assert(failures(result) =~= f0);
            },
            Err(e) => {
                result.failed.push(BatchFailure { id: ids[i].clone(), error: e.clone() });
                assert(failures(result) =~= f0 + seq![(ids@[i as int]@, e@)]);
                assert(succeeded_ids(result) =~= s0);
            },
        }
    }
    assert(ids@.take(n as int) == ids@);
    assert(outcomes@.take(n as int) == outcomes@);
    batch_answer(result, n)
}

/// Law: a batch tagging accounts for every target exactly once: as many
/// successes and failures together as targets.
pub proof fn law_batch_tag_accounts_for_all(ids: Seq<String>, outcomes: Seq<Result<bool, String>>)
    requires
        ids.len() == outcomes.len(),
    ensures
        tag_successes(ids, outcomes).len() + tag_failures(ids, outcomes).len() == ids.len(),
    decreases ids.len(),
{
    if ids.len() > 0 {
        law_batch_tag_accounts_for_all(ids.drop_last(), outcomes.drop_last());
    }
}

/// Law: a batch archiving accounts for every target exactly once.
pub proof fn law_batch_archive_accounts_for_all(ids: Seq<String>, outcomes: Seq<Result<(), String>>)
    requires
        ids.len() == outcomes.len(),
    ensures
        archive_successes(ids, outcomes).len() + archive_failures(ids, outcomes).len() == ids.len(),
    decreases ids.len(),
{
    if ids.len() > 0 {
        law_batch_archive_accounts_for_all(ids.drop_last(), outcomes.drop_last());
    }
}

} // verus!
