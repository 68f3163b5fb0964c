//! Errors that the HTTP layer turns into responses.

use vstd::prelude::*;

verus! {

/// An error answered to an API client.
#[derive(Debug, PartialEq, Eq)]
pub enum ApiError {
    /// 400: invalid input or parameters.
    BadRequest(String),
    /// 401: missing or invalid API key.
    Unauthorized(String),
    /// 429: too many requests; retry after the given number of seconds.
    RateLimited { retry_after_seconds: u64 },
}

} // verus!
