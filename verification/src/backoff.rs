//! Reconnect backoff: a deterministic, capped geometric delay schedule.
//!
//! A venue transport that fails to connect waits `backoff_delay_secs(n)`
//! seconds before attempt `n + 1`. The schedule starts at one second,
//! doubles after every failure, and is capped at sixty seconds. A
//! successful connection resets the attempt counter to zero.

use vstd::prelude::*;

verus! {

/// Initial reconnect delay, in seconds.
pub const INITIAL_DELAY_SECS: u64 = 1;

/// Ceiling on the reconnect delay, in seconds.
pub const MAX_DELAY_SECS: u64 = 60;

/// Delay before reconnect attempt `attempt` (zero-based): one second for
/// the first retry, doubling after each further failure, capped at sixty
/// seconds.
pub open spec fn spec_backoff_secs(attempt: nat) -> nat
    decreases attempt,
{
    if attempt == 0 {
        INITIAL_DELAY_SECS as nat
    } else {
        let prev = spec_backoff_secs((attempt - 1) as nat);
        if 2 * prev >= MAX_DELAY_SECS {
            MAX_DELAY_SECS as nat
        } else {
            2 * prev
        }
    }
}

/// Once the schedule reaches the cap it stays there.
pub proof fn lemma_backoff_saturates(n: nat, m: nat)
    requires
        n <= m,
        spec_backoff_secs(n) == 60,
    ensures
        spec_backoff_secs(m) == 60,
    decreases m,
{
    if m > n {
        lemma_backoff_saturates(n, (m - 1) as nat);
    }
}

/// The schedule is always between the initial delay and the cap.
pub proof fn lemma_backoff_bounds(n: nat)
    ensures
        1 <= spec_backoff_secs(n) <= 60,
    decreases n,
{
    if n > 0 {
        lemma_backoff_bounds((n - 1) as nat);
    }
}

/// The delay sequence for a continuously failing connection is geometric
/// and capped: it doubles while below the cap and is pinned at the cap
/// from then on.
pub proof fn lemma_backoff_geometric_capped(n: nat)
    ensures
        spec_backoff_secs(0) == 1,
        2 * spec_backoff_secs(n) < 60 ==> spec_backoff_secs(n + 1) == 2 * spec_backoff_secs(n),
        2 * spec_backoff_secs(n) >= 60 ==> spec_backoff_secs(n + 1) == 60,
{
    lemma_backoff_bounds(n);
}

/// Seconds to wait before reconnect attempt `attempt` of a failing venue
/// connection.
pub fn backoff_delay_secs(attempt: u64) -> (d: u64)
    ensures
        d == spec_backoff_secs(attempt as nat),
{
    let mut d: u64 = INITIAL_DELAY_SECS;
    let mut i: u64 = 0;
    while i < attempt && d < MAX_DELAY_SECS
        invariant
            i <= attempt,
            d == spec_backoff_secs(i as nat),
            d <= MAX_DELAY_SECS,
        decreases attempt - i,
    {
        if 2 * d >= MAX_DELAY_SECS {
            d = MAX_DELAY_SECS;
        } else {
            d = 2 * d;
        }
        i = i + 1;
    }
    if i < attempt {
        proof {
            lemma_backoff_saturates(i as nat, attempt as nat);
        }
    }
    d
}

} // verus!
