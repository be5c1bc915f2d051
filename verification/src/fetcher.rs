//! How fetching a URL retries.
use vstd::prelude::*;

verus! {

/// The number of attempts a fetch makes.
pub const MAX_RETRIES: u32 = 3;

/// What a fetch does after an attempt.
#[derive(Debug)]
pub enum FetchAction {
    /// Hand back the body just fetched.
    ReturnBody,
    /// Pause this many seconds, then try again.
    Retry { pause_secs: u64 },
    /// Give up with the error of the last attempt.
    ReturnLastError,
}

/// The decision after attempt `attempt` (counted from 1) of at most
/// [`MAX_RETRIES`]: a success is returned; after a failure an attempt
/// before the last pauses `attempt` seconds and tries again, and the last
/// one gives up with its error.
pub fn next_fetch_action(attempt: u32, succeeded: bool) -> (r: FetchAction)
    requires
        1 <= attempt <= MAX_RETRIES,
    ensures
        succeeded ==> r == FetchAction::ReturnBody,
        !succeeded && attempt < MAX_RETRIES ==> r == (FetchAction::Retry { pause_secs: attempt as u64 }),
        !succeeded && attempt == MAX_RETRIES ==> r == FetchAction::ReturnLastError,
{
    if succeeded {
        FetchAction::ReturnBody
    } else if attempt < MAX_RETRIES {
        FetchAction::Retry { pause_secs: attempt as u64 }
    } else {
        FetchAction::ReturnLastError
    }
}

} // verus!
