//! The library's error type: a message.
use vstd::prelude::*;

verus! {

/// An error carrying a human-readable message.
#[derive(Debug, Clone, PartialEq, Eq)]
pub struct AppError(pub String);

/// An error with the given message.
pub fn app_error(message: &str) -> (e: AppError)
    ensures
        e.0@ == message@,
{
    AppError(message.to_owned())
}

} // verus!
