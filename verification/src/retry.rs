//! Retry policy for connect attempts: a bounded number of tries with an
//! exponential backoff that is capped.

use vstd::prelude::*;

verus! {

/// How many connect attempts are made before giving up.
pub const MAX_CONNECT_ATTEMPTS: u8 = 5;

/// Backoff before the first retry, in milliseconds.
pub const INITIAL_BACKOFF_MS: u32 = 500;

/// The backoff never exceeds this many milliseconds.
pub const MAX_BACKOFF_MS: u32 = 10000;

/// The backoff in effect at failure number `k` (counting from 1): the
/// initial backoff, doubled after each earlier failure and capped.
pub open spec fn spec_backoff_value(k: nat) -> int
    decreases k,
{
    if k <= 1 {
        INITIAL_BACKOFF_MS as int
    } else {
        let p = 2 * spec_backoff_value((k - 1) as nat);
        if p > MAX_BACKOFF_MS as int {
            MAX_BACKOFF_MS as int
        } else {
            p
        }
    }
}

/// Every backoff value lies between the initial backoff and the cap.
pub proof fn lemma_backoff_bounds(k: nat)
    ensures
        INITIAL_BACKOFF_MS as int <= spec_backoff_value(k) <= MAX_BACKOFF_MS as int,
    decreases k,
{
    if k > 1 {
        lemma_backoff_bounds((k - 1) as nat);
    }
}

/// The exact backoff schedule: five failed attempts see the delays 500 ms,
/// 1000 ms, 2000 ms, 4000 ms and 8000 ms, and no failure ever sees more
/// than 10000 ms.
pub proof fn lemma_retry_schedule()
    ensures
        spec_backoff_value(1) == 500,
        spec_backoff_value(2) == 1000,
        spec_backoff_value(3) == 2000,
        spec_backoff_value(4) == 4000,
        spec_backoff_value(5) == 8000,
        forall|k: nat| spec_backoff_value(k) <= 10000,
{
    assert forall|k: nat| spec_backoff_value(k) <= 10000 by {
        lemma_backoff_bounds(k);
    }
    assert(spec_backoff_value(1) == 500);
    assert(spec_backoff_value(2) == 1000);
    assert(spec_backoff_value(3) == 2000);
    assert(spec_backoff_value(4) == 4000);
    assert(spec_backoff_value(5) == 8000);
}

/// State of one connect flow: how many attempts have failed so far, and the
/// backoff the next failure will be charged.
pub struct ConnectRetry {
    pub attempts: u8,
    pub backoff_ms: u32,
}

impl ConnectRetry {
    /// The counter never passes the attempt bound, and the stored backoff is
    /// exactly the scheduled one for the next failure.
    pub open spec fn wf(self) -> bool {
        &&& self.attempts <= MAX_CONNECT_ATTEMPTS
        &&& self.backoff_ms as int == spec_backoff_value(self.attempts as nat + 1)
    }

    /// A fresh connect flow: no attempts yet, initial backoff.
    pub fn new() -> (r: ConnectRetry)
        ensures
            r.wf(),
            r.attempts == 0,
            r.backoff_ms == INITIAL_BACKOFF_MS,
    {
        ConnectRetry { attempts: 0, backoff_ms: INITIAL_BACKOFF_MS }
    }

    /// Records one failed attempt and returns the backoff delay charged to
    /// it; the stored backoff doubles, capped at the maximum.
    pub fn on_failure(&mut self) -> (delay_ms: u32)
        requires
            old(self).wf(),
            old(self).attempts < MAX_CONNECT_ATTEMPTS,
        ensures
            final(self).wf(),
            final(self).attempts == old(self).attempts + 1,
            delay_ms as int == spec_backoff_value(old(self).attempts as nat + 1),
    {
        proof {
            lemma_backoff_bounds(self.attempts as nat + 1);
        }
        let delay = self.backoff_ms;
        self.attempts = self.attempts + 1;
        let doubled = self.backoff_ms * 2;
        self.backoff_ms = if doubled > MAX_BACKOFF_MS {
            MAX_BACKOFF_MS
        } else {
            doubled
        };
        delay
    }

    /// Whether another attempt may be made after the failures seen so far.
    pub fn should_retry(&self) -> (r: bool)
        ensures
            r == (self.attempts < MAX_CONNECT_ATTEMPTS),
    {
        self.attempts < MAX_CONNECT_ATTEMPTS
    }
}

} // verus!
