//! Refresh scheduling with jitter.
//!
//! The scheduler tracks when a refresh last succeeded and when one was
//! last attempted, and decides from a caller-supplied clock whether a
//! new cycle is due. A jittered check shortens the interval by up to a
//! tenth so repeated cycles do not synchronize.

use vstd::prelude::*;

verus! {

/// No configured interval may fall below this floor, in milliseconds.
pub const MIN_INTERVAL_MS: u64 = 1_000;

/// An interval clamped to the scheduler's floor.
pub open spec fn spec_clamp_interval(ms: u64) -> u64 {
    if ms < MIN_INTERVAL_MS {
        MIN_INTERVAL_MS
    } else {
        ms
    }
}

/// The interval actually waited for, shortened by the jitter source:
/// between ninety and one hundred percent of the configured interval.
pub open spec fn spec_effective_interval(interval_ms: u64, jitter: u64) -> int {
    interval_ms - (jitter as int) % ((interval_ms as int) / 10 + 1)
}

/// The effective interval never leaves the ninety-to-hundred-percent
/// band.
pub proof fn lemma_effective_interval_band(interval_ms: u64, jitter: u64)
    requires
        interval_ms >= MIN_INTERVAL_MS,
    ensures
        interval_ms - interval_ms / 10 <= spec_effective_interval(interval_ms, jitter)
            <= interval_ms,
{
}

/// Decides when the next fetch cycle is due.
#[derive(Debug, Clone, Copy)]
pub struct RefreshScheduler {
    /// When a refresh last succeeded, in the caller's clock; `None`
    /// forces an immediate refresh.
    pub last_refresh: Option<u64>,
    /// When a refresh was last attempted, success or not.
    pub last_attempt: Option<u64>,
    /// Configured interval between refreshes, in milliseconds; never
    /// below the floor.
    pub interval_ms: u64,
}

impl RefreshScheduler {
    /// A scheduler that wants an immediate first refresh.
    pub fn new(interval_ms: u64) -> (r: RefreshScheduler)
        ensures
            r.last_refresh is None,
            r.last_attempt is None,
            r.interval_ms == spec_clamp_interval(interval_ms),
    {
        let clamped = if interval_ms < MIN_INTERVAL_MS {
            MIN_INTERVAL_MS
        } else {
            interval_ms
        };
        RefreshScheduler { last_refresh: None, last_attempt: None, interval_ms: clamped }
    }

    /// Whether a refresh is due: always when none succeeded yet, else
    /// once the interval has elapsed.
    pub fn needs_refresh(&self, now: u64) -> (r: bool)
        ensures
            r == match self.last_refresh {
                Option::None => true,
                Option::Some(t) => now >= t + self.interval_ms,
            },
    {
        match self.last_refresh {
            None => true,
            Some(t) => now >= t && now - t >= self.interval_ms,
        }
    }

    /// Like `needs_refresh`, but against the jittered interval drawn
    /// from the caller's randomness.
    pub fn needs_refresh_jittered(&self, now: u64, jitter: u64) -> (r: bool)
        requires
            self.interval_ms >= MIN_INTERVAL_MS,
        ensures
            r == match self.last_refresh {
                Option::None => true,
                Option::Some(t) => now >= t + spec_effective_interval(self.interval_ms, jitter),
            },
    {
        match self.last_refresh {
            None => true,
            Some(t) => {
                let effective = self.interval_ms - jitter % (self.interval_ms / 10 + 1);
                now >= t && now - t >= effective
            },
        }
    }

    /// Whether a new attempt is allowed: the attempt instant is
    /// tracked so failed cycles wait out the interval too, instead of
    /// retrying on the next tick.
    pub fn attempt_due(&self, now: u64) -> (r: bool)
        ensures
            r == match self.last_attempt {
                Option::None => true,
                Option::Some(t) => now >= t + self.interval_ms,
            },
    {
        match self.last_attempt {
            None => true,
            Some(t) => now >= t && now - t >= self.interval_ms,
        }
    }

    /// Note that a refresh was attempted, whatever its outcome.
    pub fn mark_attempt(&mut self, now: u64)
        ensures
            final(self).last_attempt == Some(now),
            final(self).last_refresh == old(self).last_refresh,
            final(self).interval_ms == old(self).interval_ms,
    {
        self.last_attempt = Some(now);
    }

    /// Note that a refresh succeeded.
    pub fn mark_refreshed(&mut self, now: u64)
        ensures
            final(self).last_refresh == Some(now),
            final(self).last_attempt == old(self).last_attempt,
            final(self).interval_ms == old(self).interval_ms,
    {
        self.last_refresh = Some(now);
    }

    /// Forget the last success so the next check refreshes at once.
    pub fn force_refresh(&mut self)
        ensures
            final(self).last_refresh is None,
            final(self).last_attempt == old(self).last_attempt,
            final(self).interval_ms == old(self).interval_ms,
    {
        self.last_refresh = None;
    }

    /// Change the interval, still clamped to the floor.
    pub fn set_interval(&mut self, interval_ms: u64)
        ensures
            final(self).interval_ms == spec_clamp_interval(interval_ms),
            final(self).last_refresh == old(self).last_refresh,
            final(self).last_attempt == old(self).last_attempt,
    {
        self.interval_ms = if interval_ms < MIN_INTERVAL_MS {
            MIN_INTERVAL_MS
        } else {
            interval_ms
        };
    }

    /// Milliseconds since the last successful refresh, when one
    /// happened and the clock has not moved backwards.
    pub fn elapsed_since_refresh(&self, now: u64) -> (r: Option<u64>)
        ensures
            r == match self.last_refresh {
                Option::None => None::<u64>,
                Option::Some(t) => if now >= t {
                    Some((now - t) as u64)
                } else {
                    None::<u64>
                },
            },
    {
        match self.last_refresh {
            None => None,
            Some(t) => if now >= t {
                Some(now - t)
            } else {
                None
            },
        }
    }
}

} // verus!
