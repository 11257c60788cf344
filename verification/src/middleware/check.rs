//! The verdict of a middleware on an incoming request.
use vstd::prelude::*;

use crate::headers::HeaderList;

verus! {

/// The response that refuses a request: status, headers and body text.
#[derive(Debug)]
pub struct Denial {
    pub status: u16,
    pub headers: HeaderList,
    pub body: String,
}

/// Whether a request may go on, and if not, the response that refuses it.
#[derive(Debug)]
pub enum CheckResult {
    Allowed,
    Denied(Denial),
}

/// A status code in the success class (200 to 299).
pub open spec fn is_success_status(status: u16) -> bool {
    200 <= status <= 299
}

} // verus!
