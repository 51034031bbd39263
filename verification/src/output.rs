//! The envelope every command answers with: `ok`, and the data with its
//! count, or an error message with its code.
use vstd::prelude::*;

verus! {

/// A command's answer.
#[derive(Debug)]
pub struct Response<T> {
    pub ok: bool,
    pub data: Option<T>,
    pub count: Option<usize>,
    pub error: Option<String>,
    pub code: Option<String>,
}

impl<T> Response<T> {
    /// A successful answer carrying `data`.
    pub fn success(data: T) -> (r: Self)
        ensures
            r.ok,
            r.data == Some(data),
            r.count is None,
            r.error is None,
            r.code is None,
    {
        Response { ok: true, data: Some(data), count: None, error: None, code: None }
    }

    /// A successful answer carrying `data` and the number of its items.
    pub fn success_with_count(data: T, count: usize) -> (r: Self)
        ensures
            r.ok,
            r.data == Some(data),
            r.count == Some(count),
            r.error is None,
            r.code is None,
    {
        Response { ok: true, data: Some(data), count: Some(count), error: None, code: None }
    }

    /// A failed answer with the error `code` and `message`, and no data.
    pub fn failure(code: &str, message: &str) -> (r: Self)
        ensures
            !r.ok,
            r.data is None,
            r.count is None,
            r.error matches Some(e) && e@ == message@,
            r.code matches Some(c) && c@ == code@,
    {
        Response {
            ok: false,
            data: None,
            count: None,
            error: Some(message.to_owned()),
            code: Some(code.to_owned()),
        }
    }
}

impl Response<()> {
    /// A failed answer with the error `code` and `message`.
    pub fn error(code: &str, message: &str) -> (r: Self)
        ensures
            !r.ok,
            r.data is None,
            r.count is None,
            r.error matches Some(e) && e@ == message@,
            r.code matches Some(c) && c@ == code@,
    {
        Self::failure(code, message)
    }

    /// A successful answer with nothing in it.
    pub fn ok_empty() -> (r: Self)
        ensures
            r.ok,
            r.data is None,
            r.count is None,
            r.error is None,
            r.code is None,
    {
        Response { ok: true, data: None, count: None, error: None, code: None }
    }
}

/// `r` is a failure with exactly this code and message.
pub open spec fn is_failure<T>(r: Response<T>, code: Seq<char>, message: Seq<char>) -> bool {
    &&& !r.ok
    &&& r.data is None
    &&& r.count is None
    &&& r.error matches Some(e) && e@ == message
    &&& r.code matches Some(c) && c@ == code
}

/// `r` is the empty success.
pub open spec fn is_ok_empty<T>(r: Response<T>) -> bool {
    &&& r.ok
    &&& r.data is None
    &&& r.count is None
    &&& r.error is None
    &&& r.code is None
}

/// `r` has the shape every answer has: it succeeded exactly when it
/// carries no error message, and an error message always comes with its code.
pub open spec fn is_well_formed<T>(r: Response<T>) -> bool {
    &&& r.ok <==> r.error is None
    &&& r.error is Some <==> r.code is Some
}

/// Law: every answer is either a success without error, or a failure with
/// both an error message and its code. The failures and the empty success
/// that the commands give have this shape, and so does any success built
/// without an error.
pub proof fn law_answers_are_well_formed<T>(r: Response<T>, code: Seq<char>, message: Seq<char>)
    ensures
        is_failure(r, code, message) ==> is_well_formed(r),
        is_ok_empty(r) ==> is_well_formed(r),
        (r.ok && r.error is None && r.code is None) ==> is_well_formed(r),
{
}

} // verus!
