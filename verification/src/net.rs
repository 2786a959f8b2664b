//! When a network operation that failed is tried again.
use vstd::prelude::*;

use crate::error::AircError;
use crate::number;
use crate::number::to_decimal;
use crate::text::{glue4, glue5};

verus! {

pub const MAX_RETRY_ATTEMPTS: u32 = 3;

pub const RETRY_DELAY_MS: u64 = 1000;

/// What follows a failed attempt: a wait before the next one, with a warning, or the error
/// that ends the operation.
pub enum Retry {
    Wait { delay_ms: u64, warning: String },
    GiveUp(AircError),
}

/// The wait after the attempt with this number, in milliseconds: it doubles each time.
pub open spec fn backoff(attempt: nat) -> nat
    decreases attempt,
{
    if attempt <= 1 {
        RETRY_DELAY_MS as nat
    } else {
        2 * backoff((attempt - 1) as nat)
    }
}

/// The warning for an attempt that failed and will be followed by another one.
pub open spec fn warning_text(operation: Seq<char>, attempt: nat, error: Seq<char>) -> Seq<char> {
    operation + " attempt "@ + number::decimal(attempt) + "/"@ + number::decimal(
        MAX_RETRY_ATTEMPTS as nat,
    ) + " failed: "@ + error + ". Retrying in "@ + number::decimal(backoff(attempt)) + "ms..."@
}

/// What follows the failure of the attempt with this number, the first being number one.
pub fn after_failure(operation: &str, attempt: u32, error: &AircError) -> (next: Retry)
    requires
        1 <= attempt,
    ensures
        if attempt >= MAX_RETRY_ATTEMPTS {
            next matches Retry::GiveUp(AircError::Connection(s)) && s@ == operation
                @ + " failed after "@ + number::decimal(MAX_RETRY_ATTEMPTS as nat) + " attempts: "@
                + error.text()
        } else {
            next matches Retry::Wait { delay_ms, warning } && delay_ms == backoff(attempt as nat)
                && warning@ == warning_text(operation@, attempt as nat, error.text())
        },
{
    if attempt >= MAX_RETRY_ATTEMPTS {
        return Retry::GiveUp(
            AircError::Connection(
                glue5(
                    operation,
                    " failed after ",
                    to_decimal(MAX_RETRY_ATTEMPTS as u64).as_str(),
                    " attempts: ",
                    error.message().as_str(),
                ),
            ),
        );
    }
    let mut delay_ms: u64 = RETRY_DELAY_MS;
    let mut i: u32 = 1;
    while i < attempt
        invariant
            1 <= i <= attempt,
            attempt < MAX_RETRY_ATTEMPTS,
            delay_ms == backoff(i as nat),
            delay_ms <= RETRY_DELAY_MS * i,
        decreases attempt - i,
    {
        delay_ms = delay_ms * 2;
        i = i + 1;
    }
    let mut warning = glue4(
        operation,
        " attempt ",
        to_decimal(attempt as u64).as_str(),
        "/",
    );
    warning.append(to_decimal(MAX_RETRY_ATTEMPTS as u64).as_str());
    warning.append(" failed: ");
    warning.append(error.message().as_str());
    warning.append(". Retrying in ");
    warning.append(to_decimal(delay_ms).as_str());
    warning.append("ms...");
    Retry::Wait { delay_ms, warning }
}

/// Each wait is twice the one before it, and before an operation is given up they add up
/// to three seconds.
pub proof fn law_waits_double()
    ensures
        forall|attempt: nat| attempt >= 1 ==> #[trigger] backoff(attempt + 1) == 2 * backoff(attempt),
        MAX_RETRY_ATTEMPTS == 3,
        backoff(1) + backoff(2) == 3000,
{
    assert(backoff(1) == RETRY_DELAY_MS);
    assert(backoff(1 + 1) == 2 * backoff(1));
}

/// The warning for an attempt that failed names the operation and the attempt, says why it
/// failed and ends with the wait.
pub proof fn law_warnings_say_what_failed(operation: Seq<char>, attempt: nat, error: Seq<char>)
    ensures
        ({
            let s = warning_text(operation, attempt, error);
            let end = " failed: "@ + error + ". Retrying in "@ + number::decimal(backoff(attempt))
                + "ms..."@;
            let start = operation + " attempt "@ + number::decimal(attempt) + "/"@
                + number::decimal(3);
            &&& start.is_prefix_of(s)
            &&& end.is_suffix_of(s)
            &&& s.len() == start.len() + end.len()
        }),
{
    let s = warning_text(operation, attempt, error);
    let start = operation + " attempt "@ + number::decimal(attempt) + "/"@ + number::decimal(3);
    let end = " failed: "@ + error + ". Retrying in "@ + number::decimal(backoff(attempt))
        + "ms..."@;
    assert(s.subrange(0, start.len() as int) =~= start);
    assert(s.subrange(s.len() - end.len(), s.len() as int) =~= end);
}

}
