//! The status of an HTTP response.

use vstd::prelude::*;

verus! {

/// A status: its code, and the code and reason as text.
#[derive(Debug)]
pub struct HttpStatus {
    pub code: u16,
    pub text: String,
}

/// Whether a status code says that the request was successful.
pub open spec fn success_code(code: u16) -> bool {
    200 <= code < 300
}

/// Whether a status code says that the request was successful.
pub fn is_success(code: u16) -> (r: bool)
    ensures
        r == success_code(code),
{
    200 <= code && code < 300
}

} // verus!
