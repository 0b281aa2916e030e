//! Request timeouts of the tool.

use vstd::prelude::*;

verus! {

/// How long the question for a repository may take, in seconds.
pub const TIMEOUT_GET_REPO_SECS: u64 = 30;

/// How long the download of an archive may take, in seconds.
pub const TIMEOUT_DOWNLOAD_SECS: u64 = 60;

/// The longest of the timeouts, in seconds.
pub const MAX_TIMEOUT_SECS: u64 = 60;

/// The larger of two timeouts, in seconds.
pub open spec fn spec_max_timeout_secs(a: u64, b: u64) -> u64 {
    if a > b {
        a
    } else {
        b
    }
}

/// Returns the larger of two timeouts, in seconds.
#[verifier::when_used_as_spec(spec_max_timeout_secs)]
pub fn max_timeout_secs(a: u64, b: u64) -> (m: u64)
    ensures
        m == spec_max_timeout_secs(a, b),
        m >= a,
        m >= b,
        m == a || m == b,
{
    if a > b {
        a
    } else {
        b
    }
}

/// `MAX_TIMEOUT_SECS` is the larger of the two timeouts of the tool.
pub proof fn lemma_max_timeout_is_the_larger()
    ensures
        MAX_TIMEOUT_SECS == spec_max_timeout_secs(TIMEOUT_GET_REPO_SECS, TIMEOUT_DOWNLOAD_SECS),
{
}

} // verus!
