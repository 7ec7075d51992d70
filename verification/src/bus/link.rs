//! When the bus thread wakes, and how it brings a dropped link back.
//!
//! Times are nanoseconds on the caller's monotonic clock.

use vstd::prelude::*;

verus! {

/// The longest the bus sleeps when nothing is due, so commands are never kept
/// waiting long.
pub const IDLE_SLICE: u64 = 20_000_000;

/// How soon to try again after the link drops. The first retry is quick
/// because the common cause is a board being reset, which re-enumerates within
/// a second or so.
pub const FIRST_RETRY: u64 = 250_000_000;

/// The ceiling the retry backoff climbs to.
pub const MAX_RETRY: u64 = 2_000_000_000;

/// `a - b`, or 0 when `b` is later.
pub open spec fn since(a: u64, b: u64) -> u64 {
    if a >= b {
        (a - b) as u64
    } else {
        0
    }
}

/// How long the bus may block waiting for a command: the idle slice, cut
/// short by the next periodic frame while connected, or by the next retry
/// while not.
pub open spec fn spec_wait_budget(now: u64, connected: bool, next_due: Option<u64>, retry_at: Option<u64>) -> u64 {
    let until = if connected {
        next_due
    } else {
        retry_at
    };
    match until {
        Some(t) => if since(t, now) < IDLE_SLICE {
            since(t, now)
        } else {
            IDLE_SLICE
        },
        None => IDLE_SLICE,
    }
}

/// How long the bus may block waiting for a command (see
/// [`spec_wait_budget`]).
pub fn wait_budget(now: u64, connected: bool, next_due: Option<u64>, retry_at: Option<u64>) -> (b: u64)
    ensures
        b == spec_wait_budget(now, connected, next_due, retry_at),
        b <= IDLE_SLICE,
{
    let until = if connected {
        next_due
    } else {
        retry_at
    };
    match until {
        Some(t) => {
            let left = t.saturating_sub(now);
            if left < IDLE_SLICE {
                left
            } else {
                IDLE_SLICE
            }
        },
        None => IDLE_SLICE,
    }
}

/// The reconnect schedule of a dropped link.
#[derive(Clone, Copy, Debug, PartialEq, Eq, Structural)]
pub struct Retry {
    /// When to try next; `None` when no retry is scheduled.
    pub at: Option<u64>,
    /// How long the next failure waits before trying again.
    pub backoff: u64,
    /// Attempts since the link dropped.
    pub count: u32,
}

/// What the bus does about a dropped link at a given moment.
#[derive(Clone, Copy, Debug, PartialEq, Eq, Structural)]
pub enum RetryStep {
    /// Nothing scheduled, or not due yet.
    Wait,
    /// Due, but there is nothing to reopen: the schedule is dropped.
    Abandon,
    /// Due: try to reopen the link; this is attempt number `attempt`.
    Attempt { attempt: u32 },
}

/// Whether a schedule is sane: the backoff between the first retry and the
/// ceiling.
pub open spec fn backoff_in_range(r: Retry) -> bool {
    FIRST_RETRY <= r.backoff <= MAX_RETRY
}

/// The next backoff after a failed attempt: doubled, up to the ceiling.
pub open spec fn doubled(b: u64) -> u64 {
    if 2 * b <= MAX_RETRY {
        (2 * b) as u64
    } else {
        MAX_RETRY
    }
}

impl Retry {
    /// No retry scheduled.
    pub fn new() -> (r: Retry)
        ensures
            r == (Retry { at: None, backoff: FIRST_RETRY, count: 0 }),
    {
        Retry { at: None, backoff: FIRST_RETRY, count: 0 }
    }

    /// The link dropped at `now`: retry after [`FIRST_RETRY`] when there is a
    /// connection to reopen. Returns whether a retry is scheduled.
    pub fn lost(&mut self, now: u64, reopenable: bool) -> (retrying: bool)
        requires
            now + FIRST_RETRY <= u64::MAX,
        ensures
            retrying == reopenable,
            *final(self) == (Retry {
                at: if reopenable {
                    Some((now + FIRST_RETRY) as u64)
                } else {
                    None
                },
                backoff: FIRST_RETRY,
                count: 0,
            }),
    {
        self.count = 0;
        self.backoff = FIRST_RETRY;
        self.at = if reopenable {
            Some(now + FIRST_RETRY)
        } else {
            None
        };
        reopenable
    }

    /// What to do at `now`: wait until a scheduled retry is due, then attempt
    /// it, counting the attempt, unless there is nothing to reopen.
    pub fn step(&mut self, now: u64, reopenable: bool) -> (s: RetryStep)
        requires
            old(self).count < u32::MAX,
        ensures
            match old(self).at {
                None => s == RetryStep::Wait && *final(self) == *old(self),
                Some(t) => if now < t {
                    s == RetryStep::Wait && *final(self) == *old(self)
                } else if !reopenable {
                    s == RetryStep::Abandon && *final(self) == (Retry { at: None, ..*old(self) })
                } else {
                    s == (RetryStep::Attempt { attempt: (old(self).count + 1) as u32 })
                        && *final(self) == (Retry { count: (old(self).count + 1) as u32, ..*old(self) })
                },
            },
    {
        match self.at {
            None => RetryStep::Wait,
            Some(t) => {
                if now < t {
                    RetryStep::Wait
                } else if !reopenable {
                    self.at = None;
                    RetryStep::Abandon
                } else {
                    self.count = self.count + 1;
                    RetryStep::Attempt { attempt: self.count }
                }
            },
        }
    }

    /// The attempt made at `now` reopened the link: nothing more is scheduled,
    /// and the backoff starts over.
    pub fn succeeded(&mut self)
        ensures
            *final(self) == (Retry { at: None, backoff: FIRST_RETRY, ..*old(self) }),
    {
        self.at = None;
        self.backoff = FIRST_RETRY;
    }

    /// The attempt made at `now` failed: wait twice as long as last time, up
    /// to [`MAX_RETRY`], before the next.
    pub fn failed(&mut self, now: u64)
        requires
            now + MAX_RETRY <= u64::MAX,
        ensures
            final(self).backoff == doubled(old(self).backoff),
            final(self).at == Some((now + doubled(old(self).backoff)) as u64),
            final(self).count == old(self).count,
    {
        let b = if self.backoff <= MAX_RETRY / 2 {
            self.backoff * 2
        } else {
            MAX_RETRY
        };
        self.backoff = b;
        self.at = Some(now + b);
    }
}

/// The backoff stays between the first retry and the ceiling, whatever
/// happens: a drop and a success start it over, a failure doubles it up to
/// the ceiling.
pub proof fn law_backoff_stays_in_range(r: Retry)
    requires
        backoff_in_range(r),
    ensures
        FIRST_RETRY <= doubled(r.backoff) <= MAX_RETRY,
        doubled(r.backoff) >= r.backoff,
        r.backoff < MAX_RETRY ==> doubled(r.backoff) > r.backoff,
{
}

/// Retries keep backing off: after `k` failures in a row from a fresh drop the
/// wait is the first retry doubled `k` times, held at the ceiling.
pub open spec fn backoff_after(k: nat) -> u64
    decreases k,
{
    if k == 0 {
        FIRST_RETRY
    } else {
        doubled(backoff_after((k - 1) as nat))
    }
}

/// Three failures in a row reach the ceiling, and it holds there.
pub proof fn law_backoff_reaches_the_ceiling(k: nat)
    requires
        k >= 3,
    ensures
        backoff_after(k) == MAX_RETRY,
    decreases k,
{
    reveal_with_fuel(backoff_after, 4);
    if k > 3 {
        law_backoff_reaches_the_ceiling((k - 1) as nat);
    }
}

} // verus!
