//! HTTP status classes.
use vstd::prelude::*;

verus! {

/// Whether an HTTP status code denotes success (the 2xx class).
pub open spec fn is_success_status(code: u16) -> bool {
    200 <= code && code < 300
}

/// `StatusCode::is_success`.
pub fn status_is_success(code: u16) -> (ok: bool)
    ensures
        ok == is_success_status(code),
{
    200 <= code && code < 300
}

} // verus!
