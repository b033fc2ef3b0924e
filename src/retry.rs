use vstd::prelude::*;

verus! {

/// Seconds between two liveness checks during bootstrap.
pub const RETRY_INTERVAL_SECS: u64 = 1;

/// Seconds to wait for the backend application to answer.
pub const BACKEND_WAIT_SECS: u64 = 60;

/// Seconds to wait for the consensus engine to answer; it starts slower,
/// with its peers.
pub const ENGINE_WAIT_SECS: u64 = 300;

/// What to do after a liveness check.
#[derive(Clone, Copy, Debug, PartialEq, Eq, Structural)]
pub enum RetryDecision {
    /// The service answered: go on.
    Proceed,
    /// Sleep this many seconds, then check again.
    RetryAfter(u64),
    /// No further check fits before the deadline: stop the process.
    Fatal,
}

/// A bounded retry policy for a liveness check.
#[derive(Clone, Copy, Debug)]
pub struct RetryPolicy {
    pub interval: u64,
    pub max_duration: u64,
}

impl RetryPolicy {
    pub open spec fn wf(&self) -> bool {
        self.interval > 0
    }

    /// The decision after a check made `elapsed` seconds into the wait.
    pub open spec fn decision(&self, elapsed: nat, reachable: bool) -> RetryDecision {
        if reachable {
            RetryDecision::Proceed
        } else if elapsed + self.interval > self.max_duration {
            RetryDecision::Fatal
        } else {
            RetryDecision::RetryAfter(self.interval)
        }
    }

    pub fn new(interval: u64, max_duration: u64) -> (r: RetryPolicy)
        requires
            interval > 0,
        ensures
            r.wf(),
            r.interval == interval,
            r.max_duration == max_duration,
    {
        RetryPolicy { interval, max_duration }
    }

    /// The wait for the backend application.
    pub fn backend() -> (r: RetryPolicy)
        ensures
            r.wf(),
            r.interval == RETRY_INTERVAL_SECS,
            r.max_duration == BACKEND_WAIT_SECS,
    {
        RetryPolicy::new(RETRY_INTERVAL_SECS, BACKEND_WAIT_SECS)
    }

    /// The wait for the consensus engine.
    pub fn engine() -> (r: RetryPolicy)
        ensures
            r.wf(),
            r.interval == RETRY_INTERVAL_SECS,
            r.max_duration == ENGINE_WAIT_SECS,
    {
        RetryPolicy::new(RETRY_INTERVAL_SECS, ENGINE_WAIT_SECS)
    }

    /// Decides what follows a check made `elapsed` seconds into the wait:
    /// go on if the service answered, else check again after one interval
    /// if that still starts by the deadline, else give up.
    pub fn decide(&self, elapsed: u64, reachable: bool) -> (r: RetryDecision)
        ensures
            r == self.decision(elapsed as nat, reachable),
    {
        if reachable {
            RetryDecision::Proceed
        } else if self.interval > self.max_duration || elapsed > self.max_duration - self.interval {
            RetryDecision::Fatal
        } else {
            RetryDecision::RetryAfter(self.interval)
        }
    }
}

/// A service that never answers is given up on in time: no check is
/// scheduled to start after the deadline, and a failed check past the
/// deadline is fatal. So the process stops within the deadline plus the
/// time of one check.
pub proof fn lemma_gives_up_by_deadline(p: RetryPolicy, elapsed: nat)
    ensures
        p.decision(elapsed, false) matches RetryDecision::RetryAfter(d) ==> elapsed + d <= p.max_duration,
        elapsed > p.max_duration ==> p.decision(elapsed, false) == RetryDecision::Fatal,
        p.decision(elapsed, false) != RetryDecision::Proceed,
{
}

/// Checks spaced at least one interval apart are retried at most
/// `max_duration / interval` times: the `n`-th retry, made at least `n`
/// intervals in, must still fit before the deadline.
pub proof fn lemma_retries_bounded(p: RetryPolicy, n: nat, elapsed: nat)
    requires
        p.wf(),
        elapsed >= n * p.interval,
        p.decision(elapsed, false) is RetryAfter,
    ensures
        n + 1 <= (p.max_duration as nat) / (p.interval as nat),
{
    let i = p.interval as int;
    assert((n + 1) * i <= p.max_duration) by (nonlinear_arith)
        requires
            elapsed >= n * i,
            elapsed + i <= p.max_duration,
    ;
    assert(n + 1 <= (p.max_duration as int) / i) by {
        vstd::arithmetic::div_mod::lemma_div_is_ordered(((n + 1) * i) as int, p.max_duration as int, i);
        vstd::arithmetic::div_mod::lemma_div_by_multiple((n + 1) as int, i);
    }
}

} // verus!
