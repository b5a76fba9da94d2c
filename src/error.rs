//! The library's error: a message saying what went wrong.

use vstd::prelude::*;

verus! {

#[derive(Clone, Debug)]
pub struct PicklsError {
    pub message: String,
}

impl PicklsError {
    pub fn new(message: String) -> (r: PicklsError)
        ensures
            r.message == message,
    {
        PicklsError { message }
    }

    /// The error with `detail` after `context` and a colon.
    pub fn with_context(context: &str, detail: &str) -> (r: PicklsError)
        ensures
            r.message@ == context@ + ": "@ + detail@,
    {
        PicklsError { message: String::from_str(context).concat(": ").concat(detail) }
    }
}

pub type Result<T> = core::result::Result<T, PicklsError>;

} // verus!
