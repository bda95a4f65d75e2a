//! A token-bucket admission gate for submissions.
//!
//! The bucket holds up to `max_tokens` tokens; a refill pass credits
//! `refill_rate` tokens per full elapsed second since the last refill, and
//! each admitted decision consumes one token. Time enters as an explicit
//! monotonic nanosecond reading, so the arithmetic of the bucket is verified
//! for every schedule of readings.

use vstd::prelude::*;

verus! {

pub const NANOS_PER_SEC: u64 = 1_000_000_000;

/// A token bucket with integer tokens.
pub struct RateLimiter {
    pub tokens: u64,
    pub max_tokens: u64,
    pub refill_rate: u64,
    pub last_refill: u64,
}

/// The bucket after a refill pass at reading `now`: when strictly more than
/// one second has elapsed since the last refill, the elapsed whole seconds
/// times the rate are credited — capped at `max_tokens` — and the refill
/// timestamp advances to `now`. Sub-second time, and any reading older than
/// the stored one, credits nothing.
pub open spec fn refilled(s: RateLimiter, now: u64) -> RateLimiter {
    let elapsed: int = if now >= s.last_refill {
        now - s.last_refill
    } else {
        0
    };
    if elapsed > NANOS_PER_SEC && s.refill_rate > 0 {
        let credit = (elapsed / (NANOS_PER_SEC as int)) * s.refill_rate;
        let topped: u64 = if s.tokens + credit > s.max_tokens {
            s.max_tokens
        } else {
            (s.tokens + credit) as u64
        };
        RateLimiter { tokens: topped, last_refill: now, ..s }
    } else {
        s
    }
}

/// One `check_and_consume` call at reading `now`: the refill pass, then the
/// consumption attempt. Yields the bucket afterwards and whether a token was
/// granted.
pub open spec fn consumed(s: RateLimiter, now: u64) -> (RateLimiter, bool) {
    let r = refilled(s, now);
    if r.tokens == 0 {
        (r, false)
    } else {
        (RateLimiter { tokens: (r.tokens - 1) as u64, ..r }, true)
    }
}

impl RateLimiter {
    /// The token count never exceeds the cap.
    pub open spec fn wf(&self) -> bool {
        self.tokens <= self.max_tokens
    }

    /// A bucket that starts full, with its refill timestamp sampled at
    /// construction.
    pub fn new(rate: u64, max: u64, now_ns: u64) -> (r: RateLimiter)
        ensures
            r.wf(),
            r == (RateLimiter { tokens: max, max_tokens: max, refill_rate: rate, last_refill: now_ns }),
    {
        RateLimiter { tokens: max, max_tokens: max, refill_rate: rate, last_refill: now_ns }
    }

    /// Runs a refill pass for reading `now_ns`, then attempts to take one
    /// token. Returns whether a token was granted; the bucket never holds
    /// more than `max_tokens` tokens.
    pub fn check_and_consume(&mut self, now_ns: u64) -> (granted: bool)
        requires
            old(self).wf(),
        ensures
            final(self).wf(),
            (*final(self), granted) == consumed(*old(self), now_ns),
    {
        self.refill(now_ns);
        if self.tokens == 0 {
            false
        } else {
            self.tokens = self.tokens - 1;
            true
        }
    }

    fn refill(&mut self, now_ns: u64)
        requires
            old(self).wf(),
        ensures
            final(self).wf(),
            *final(self) == refilled(*old(self), now_ns),
    {
        let elapsed: u64 = if now_ns >= self.last_refill {
            now_ns - self.last_refill
        } else {
            0
        };
        if elapsed > NANOS_PER_SEC && self.refill_rate > 0 {
            let whole_secs: u64 = elapsed / NANOS_PER_SEC;
            proof {
                assert(whole_secs as u128 * (self.refill_rate as u128) <= 0x5_0000_0000
                    * 0xffff_ffff_ffff_ffff && whole_secs * (self.refill_rate as int) >= 1) by (
                nonlinear_arith)
                    requires
                        1 <= whole_secs <= 0x5_0000_0000,
                        0 < self.refill_rate <= 0xffff_ffff_ffff_ffff,
                ;
            }
            let credit: u128 = whole_secs as u128 * self.refill_rate as u128;
            self.last_refill = now_ns;
            let topped: u128 = self.tokens as u128 + credit;
            self.tokens = if topped > self.max_tokens as u128 {
                self.max_tokens
            } else {
                topped as u64
            };
        }
    }
}

/// The bucket and the number of granted tokens after a run of
/// `check_and_consume` calls at the given sequence of readings.
pub open spec fn limiter_run(s: RateLimiter, readings: Seq<u64>) -> (RateLimiter, int)
    decreases readings.len(),
{
    if readings.len() == 0 {
        (s, 0)
    } else {
        let (s1, count) = limiter_run(s, readings.drop_last());
        let (s2, granted) = consumed(s1, readings.last());
        (s2, count + if granted {
            1int
        } else {
            0int
        })
    }
}

/// Floor division distributes superadditively over a sum.
proof fn lemma_div_superadd(a: int, b: int, d: int)
    requires
        a >= 0,
        b >= 0,
        d > 0,
    ensures
        a / d + b / d <= (a + b) / d,
{
    let qa = a / d;
    let qb = b / d;
    vstd::arithmetic::div_mod::lemma_fundamental_div_mod(a, d);
    vstd::arithmetic::div_mod::lemma_fundamental_div_mod(b, d);
    assert(d * qa + d * qb == d * (qa + qb)) by (nonlinear_arith);
    vstd::arithmetic::div_mod::lemma_div_is_ordered(d * (qa + qb), a + b, d);
    vstd::arithmetic::div_mod::lemma_div_multiples_vanish(qa + qb, d);
}

/// Token-bucket conservation: over any monotone schedule of readings that
/// starts no earlier than the bucket's refill timestamp, the number of
/// granted tokens is at most the tokens initially held plus the rate times
/// the whole seconds spanned by the schedule.
pub proof fn lemma_token_conservation(s: RateLimiter, readings: Seq<u64>)
    requires
        s.wf(),
        readings.len() > 0,
        forall|i: int, j: int| 0 <= i <= j < readings.len() ==> readings[i] <= readings[j],
        readings.first() >= s.last_refill,
    ensures
        limiter_run(s, readings).1 <= s.tokens + s.refill_rate * ((readings.last()
            - s.last_refill) / (NANOS_PER_SEC as int)),
{
    let d = NANOS_PER_SEC as int;
    let rate = s.refill_rate as int;
    lemma_run_state(s, readings);
    let (se, count) = limiter_run(s, readings);
    vstd::arithmetic::div_mod::lemma_div_is_ordered(
        se.last_refill - s.last_refill,
        readings.last() - s.last_refill,
        d,
    );
    assert(rate * ((se.last_refill - s.last_refill) / d) <= rate * ((readings.last()
        - s.last_refill) / d)) by (nonlinear_arith)
        requires
            rate >= 0,
            (se.last_refill - s.last_refill) / d <= (readings.last() - s.last_refill) / d,
    ;
}

/// Along any monotone schedule, the bucket's refill timestamp stays between
/// its starting value and the last reading, the rate and cap are unchanged,
/// and the run respects the conservation budget counted from the start.
proof fn lemma_run_state(s: RateLimiter, readings: Seq<u64>)
    requires
        s.wf(),
        readings.len() > 0,
        forall|i: int, j: int| 0 <= i <= j < readings.len() ==> readings[i] <= readings[j],
        readings.first() >= s.last_refill,
    ensures
        limiter_run(s, readings).0.wf(),
        limiter_run(s, readings).0.refill_rate == s.refill_rate,
        limiter_run(s, readings).0.max_tokens == s.max_tokens,
        limiter_run(s, readings).0.last_refill >= s.last_refill,
        limiter_run(s, readings).0.last_refill <= readings.last(),
        limiter_run(s, readings).1 + limiter_run(s, readings).0.tokens <= s.tokens + s.refill_rate
            * ((limiter_run(s, readings).0.last_refill - s.last_refill) / (NANOS_PER_SEC as int)),
    decreases readings.len(),
{
    let d = NANOS_PER_SEC as int;
    let rate = s.refill_rate as int;
    if readings.len() == 1 {
        let t = readings.last();
        let r = refilled(s, t);
        if r.last_refill != s.last_refill {
            assert(((t - s.last_refill) / d) * rate == rate * ((t - s.last_refill) / d)) by (
            nonlinear_arith);
        }
        vstd::arithmetic::div_mod::lemma_div_pos_is_pos(t - s.last_refill, d);
        assert(rate * ((t - s.last_refill) / d) >= 0) by (nonlinear_arith)
            requires
                rate >= 0,
                (t - s.last_refill) / d >= 0,
        ;
    } else {
        let front = readings.drop_last();
        let t = readings.last();
        lemma_run_state(s, front);
        let (s1, count) = limiter_run(s, front);
        lemma_div_superadd(s1.last_refill - s.last_refill, t - s1.last_refill, d);
        assert(rate * ((s1.last_refill - s.last_refill) / d) + rate * ((t - s1.last_refill) / d)
            <= rate * ((t - s.last_refill) / d)) by (nonlinear_arith)
            requires
                rate >= 0,
                (s1.last_refill - s.last_refill) / d + (t - s1.last_refill) / d <= (t
                    - s.last_refill) / d,
        ;
        let r1 = refilled(s1, t);
        if r1.last_refill != s1.last_refill {
            assert(((t - s1.last_refill) / d) * rate == rate * ((t - s1.last_refill) / d)) by (
            nonlinear_arith);
        }
        vstd::arithmetic::div_mod::lemma_div_pos_is_pos(t - s1.last_refill, d);
        assert(rate * ((t - s1.last_refill) / d) >= 0) by (nonlinear_arith)
            requires
                rate >= 0,
                (t - s1.last_refill) / d >= 0,
        ;
    }
}

} // verus!
