//! How often a client tries to connect.
//!
//! A benchmark often starts right after the server that it measures, so the
//! first attempts may well come too early.

use vstd::prelude::*;
use vstd::string::StringExecFns;

use crate::text::{decimal, decimal_string};

verus! {

/// Connection attempts before giving up.
pub const CONNECT_ATTEMPTS: usize = 50;

/// Pause after a failed attempt, in milliseconds.
pub const CONNECT_RETRY_DELAY_MS: u64 = 10;

/// Whether to try again after some failed attempts.
pub fn connect_retry(failed: usize) -> (again: bool)
    ensures
        again == (failed < CONNECT_ATTEMPTS),
{
    failed < CONNECT_ATTEMPTS
}

/// What is said once no attempt is left, with the last error.
pub fn connect_failure(last_error: &str) -> (text: String)
    ensures
        text@ == "failed to connect after "@ + decimal(CONNECT_ATTEMPTS as nat) + " attempts: "@
            + last_error@,
{
    let mut text: String = "failed to connect after ".to_owned();
    text.append(decimal_string(CONNECT_ATTEMPTS as u64).as_str());
    text.append(" attempts: ");
    text.append(last_error);
    text
}

/// A client tries again until fifty attempts failed.
pub proof fn law_fifty_attempts(failed: usize, again: bool)
    requires
        call_ensures(connect_retry, (failed,), again),
    ensures
        again <==> failed <= 49,
{
}

} // verus!
