//! Per-session pacing: a token-bucket-style rate limiter and a duplicate
//! suppressor.
//!
//! Both take the current time as an explicit argument in milliseconds, so
//! their decisions are functions of their state and inputs alone.

use vstd::prelude::*;

verus! {

/// Rate limiter tuning; all values are milliseconds (the burst is a
/// millisecond budget).
#[derive(Debug, Clone, Copy, PartialEq, Eq, Structural)]
pub struct RateLimitConfig {
    pub min_message_time_hard: i64,
    pub min_message_time_soft: i64,
    pub kick_burst: i64,
}

/// `a + b` held inside the `i64` range.
pub open spec fn sat_add_i64(a: int, b: int) -> int {
    clamp_i64(a + b)
}

pub open spec fn clamp_i64(v: int) -> int {
    if v > i64::MAX {
        i64::MAX as int
    } else if v < i64::MIN {
        i64::MIN as int
    } else {
        v
    }
}

/// The elapsed time the limiter sees: `now - last`, floored at zero and
/// saturated to the top of the range.
pub open spec fn spec_delta(last: int, now: int) -> int {
    if now <= last {
        0
    } else {
        clamp_i64(now - last)
    }
}

/// Whether one arrival with elapsed time `delta` is accepted, given the
/// burst budget already consumed.
pub open spec fn rl_accepts(conf: RateLimitConfig, burst: int, delta: int) -> bool {
    &&& delta >= conf.min_message_time_hard
    &&& rl_drained(conf, burst, delta) <= conf.kick_burst
}

/// The burst after the hard-interval charge: the budget grows by how far the
/// arrival undercut the hard interval, and never goes below zero.
pub open spec fn rl_drained(conf: RateLimitConfig, burst: int, delta: int) -> int {
    let b = sat_add_i64(burst, sat_add_i64(conf.min_message_time_hard as int, -delta));
    if b < 0 {
        0
    } else {
        b
    }
}

/// The burst after a full accepted step: the soft-interval penalty is added
/// when the arrival also undercut the soft interval.
pub open spec fn rl_next_burst(conf: RateLimitConfig, burst: int, delta: int) -> int {
    if delta < conf.min_message_time_hard {
        burst
    } else {
        let drained = rl_drained(conf, burst, delta);
        if drained > conf.kick_burst {
            drained
        } else if delta < conf.min_message_time_soft {
            sat_add_i64(drained, clamp_i64(2 * sat_add_i64(conf.min_message_time_soft as int, -delta)))
        } else {
            drained
        }
    }
}

/// An arrival faster than the hard minimum interval is always rejected,
/// whatever the burst state: a sender pacing below `min_message_time_hard`
/// is kicked at its second message.
pub proof fn lemma_fast_arrival_rejected(conf: RateLimitConfig, burst: int, delta: int)
    requires
        delta < conf.min_message_time_hard,
    ensures
        !rl_accepts(conf, burst, delta),
{
}

/// Arrivals at or above both minimum intervals are always accepted while
/// the burst budget is in bounds, and they never grow the budget: a sender
/// pacing at or above `min_message_time_soft` stays accepted indefinitely.
pub proof fn lemma_slow_arrivals_accepted(conf: RateLimitConfig, burst: int, delta: int)
    requires
        0 <= burst <= conf.kick_burst,
        delta >= conf.min_message_time_hard,
        delta >= conf.min_message_time_soft,
    ensures
        rl_accepts(conf, burst, delta),
        0 <= rl_next_burst(conf, burst, delta) <= conf.kick_burst,
{
}

/// The burst budget never goes negative.
pub proof fn lemma_burst_nonnegative(conf: RateLimitConfig, burst: int, delta: int)
    requires
        burst >= 0,
    ensures
        rl_next_burst(conf, burst, delta) >= 0,
{
}

/// Paces one session's messages. Each arrival that undercuts the hard
/// minimum interval is rejected outright; arrivals that undercut the soft
/// interval charge a growing burst budget whose exhaustion also rejects.
pub struct RateLimiter {
    conf: RateLimitConfig,
    burst: i64,
    last_message_ms: i64,
}

impl RateLimiter {
    pub closed spec fn spec_conf(&self) -> RateLimitConfig {
        self.conf
    }

    pub closed spec fn spec_burst(&self) -> int {
        self.burst as int
    }

    pub closed spec fn spec_last_ms(&self) -> int {
        self.last_message_ms as int
    }

    /// A fresh limiter at time `now_ms` with an empty burst budget.
    pub fn new(conf: RateLimitConfig, now_ms: i64) -> (r: Self)
        ensures
            r.spec_conf() == conf,
            r.spec_burst() == 0,
            r.spec_last_ms() == now_ms as int,
    {
        RateLimiter { conf, burst: 0, last_message_ms: now_ms }
    }

    /// Records one message arrival at time `now_ms` and says whether it is
    /// accepted; a rejection is a kick.
    pub fn update(&mut self, now_ms: i64) -> (accept: bool)
        ensures
            accept == rl_accepts(
                old(self).spec_conf(),
                old(self).spec_burst(),
                spec_delta(old(self).spec_last_ms(), now_ms as int),
            ),
            final(self).spec_conf() == old(self).spec_conf(),
            final(self).spec_last_ms() == now_ms as int,
            final(self).spec_burst() == rl_next_burst(
                old(self).spec_conf(),
                old(self).spec_burst(),
                spec_delta(old(self).spec_last_ms(), now_ms as int),
            ),
    {
        let last = self.last_message_ms;
        self.last_message_ms = now_ms;
        let delta: i64 = if now_ms <= last {
            0
        } else {
            sat_sub(now_ms, last)
        };

        if delta < self.conf.min_message_time_hard {
            return false;
        }
        self.burst = sat_add(self.burst, sat_sub(self.conf.min_message_time_hard, delta));
        if self.burst < 0 {
            self.burst = 0;
        }
        if self.burst > self.conf.kick_burst {
            return false;
        }
        if delta < self.conf.min_message_time_soft {
            let penalty = sat_mul_2(sat_sub(self.conf.min_message_time_soft, delta));
            self.burst = sat_add(self.burst, penalty);
        }
        true
    }
}

/// Suppresses repeated identical messages: a message equal to the previous
/// one is rejected unless the previous one is older than five seconds.
pub struct SpamLimiter {
    last_message: Option<String>,
    last_message_ms: i64,
}

/// Whether `update` accepts a message, given the previous message and its
/// arrival time.
pub open spec fn spam_accepts(
    last: Option<Seq<char>>,
    last_ms: int,
    message: Seq<char>,
    now_ms: int,
) -> bool {
    ||| now_ms - last_ms > 5000
    ||| (match last {
        Some(prev) => prev != message,
        None => true,
    })
}

impl SpamLimiter {
    pub closed spec fn spec_last(&self) -> Option<Seq<char>> {
        match self.last_message {
            Some(ref s) => Some(s@),
            None => None,
        }
    }

    pub closed spec fn spec_last_ms(&self) -> int {
        self.last_message_ms as int
    }

    /// A fresh limiter at time `now_ms` with no previous message.
    pub fn new(now_ms: i64) -> (r: Self)
        ensures
            r.spec_last() is None,
            r.spec_last_ms() == now_ms as int,
    {
        SpamLimiter { last_message: None, last_message_ms: now_ms }
    }

    /// Records `message` at time `now_ms`; whether accepted or not, the
    /// message becomes the one the next arrival is compared against.
    pub fn update(&mut self, message: String, now_ms: i64) -> (accept: bool)
        ensures
            accept == spam_accepts(
                old(self).spec_last(),
                old(self).spec_last_ms(),
                message@,
                now_ms as int,
            ),
            final(self).spec_last() == Some(message@),
            final(self).spec_last_ms() == now_ms as int,
    {
        let over_5s: bool = (now_ms as i128) - (self.last_message_ms as i128) > 5000;
        let differs: bool = match self.last_message {
            Some(ref prev) => !prev.eq(&message),
            None => true,
        };
        let allow = over_5s || differs;
        self.last_message = Some(message);
        self.last_message_ms = now_ms;
        allow
    }
}

/// `i64` addition saturated at the ends of the range.
fn sat_add(a: i64, b: i64) -> (r: i64)
    ensures
        r as int == sat_add_i64(a as int, b as int),
{
    match a.checked_add(b) {
        Some(v) => v,
        None => if b >= 0 {
            i64::MAX
        } else {
            i64::MIN
        },
    }
}

/// `i64` subtraction saturated at the ends of the range.
fn sat_sub(a: i64, b: i64) -> (r: i64)
    ensures
        r as int == sat_add_i64(a as int, -(b as int)),
{
    match a.checked_sub(b) {
        Some(v) => v,
        None => if b <= 0 {
            i64::MAX
        } else {
            i64::MIN
        },
    }
}

/// Doubles a value, saturated at the ends of the range.
fn sat_mul_2(a: i64) -> (r: i64)
    ensures
        r as int == clamp_i64(2 * a as int),
{
    match a.checked_mul(2) {
        Some(v) => v,
        None => if a >= 0 {
            i64::MAX
        } else {
            i64::MIN
        },
    }
}

} // verus!
