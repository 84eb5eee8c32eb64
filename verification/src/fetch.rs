//! The fetcher's one decision: whether the server's answer is a success.

use vstd::prelude::*;
use crate::error::{StageError, StageErrorView};

verus! {

/// The status codes that count as success.
pub open spec fn is_success_code(code: u16) -> bool {
    200 <= code <= 299
}

/// Asks `reqwest::StatusCode` whether `code` is a success: the code is
/// converted with `StatusCode::from_u16` and judged by
/// `StatusCode::is_success`. The contract is trusted, not proved. It claims
/// that the answer is `true` exactly for 200 to 299: `from_u16` accepts 100 to
/// 999, `is_success` holds of 200 to 299, and a code that `from_u16` rejects is
/// no success.
#[verifier::external_body]
fn status_is_success(code: u16) -> (ok: bool)
    ensures
        ok == is_success_code(code),
{
    match reqwest::StatusCode::from_u16(code) {
        Ok(status) => status.is_success(),
        Err(_) => false,
    }
}

/// Accepts the response to the download request, or fails with its status.
pub fn check_status(code: u16) -> (outcome: Result<(), StageError>)
    ensures
        match outcome {
            Ok(_) => is_success_code(code),
            Err(e) => !is_success_code(code) && e@ == StageErrorView::HttpStatus(code),
        },
{
    if status_is_success(code) {
        Ok(())
    } else {
        Err(StageError::HttpStatus(code))
    }
}

} // verus!
