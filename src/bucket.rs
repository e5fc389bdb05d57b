//! Token-bucket state of one flow slot.
use vstd::prelude::*;

use crate::headers::TimeT;

verus! {

/// Tokens available to a flow and when they were last refilled.
#[derive(Clone, Copy, Debug, PartialEq, Eq, Structural)]
pub struct Bucket {
    pub tokens: u64,
    pub last_refill: TimeT,
}

/// Time since `last`, or zero when the clock went backwards.
pub open spec fn elapsed(last: TimeT, now: TimeT) -> nat {
    if now > last {
        (now - last) as nat
    } else {
        0
    }
}

impl Bucket {
    /// The bucket after refilling at `rate` tokens per time unit up to `burst`.
    pub open spec fn refilled(self, now: TimeT, rate: u64, burst: u64) -> Bucket {
        let t = self.tokens + elapsed(self.last_refill, now) * rate;
        Bucket { tokens: if t < burst { t as u64 } else { burst }, last_refill: now }
    }

    /// The bucket after asking for `cost` tokens, and whether they were granted.
    pub open spec fn charged(self, cost: u64) -> (Bucket, bool) {
        if self.tokens >= cost {
            (Bucket { tokens: (self.tokens - cost) as u64, ..self }, true)
        } else {
            (self, false)
        }
    }

    /// A full bucket stamped at `now`, as a newly admitted flow gets.
    pub fn full(burst: u64, now: TimeT) -> (r: Bucket)
        ensures
            r == (Bucket { tokens: burst, last_refill: now }),
    {
        Bucket { tokens: burst, last_refill: now }
    }

    /// Refills the bucket for the time elapsed up to `now`, then takes `cost`
    /// tokens if that many are there. Returns whether they were taken.
    pub fn take(&mut self, cost: u64, now: TimeT, rate: u64, burst: u64) -> (r: bool)
        requires
            old(self).tokens <= burst,
        ensures
            (*final(self), r) == old(self).refilled(now, rate, burst).charged(cost),
            final(self).tokens <= burst,
    {
        let gap: u128 = if now > self.last_refill {
            (now as i128 - self.last_refill as i128) as u128
        } else {
            0
        };
        assert(gap == elapsed(self.last_refill, now));
        assert(gap * (rate as u128) <= 0xffff_ffff_ffff_ffff_u128 * 0xffff_ffff_ffff_ffff_u128)
            by (nonlinear_arith)
            requires
                gap <= 0xffff_ffff_ffff_ffff_u128,
                rate <= 0xffff_ffff_ffff_ffff_u64,
        ;
        let grant: u128 = gap * (rate as u128);
        let room: u128 = (burst - self.tokens) as u128;
        let tokens: u64 = if grant < room {
            self.tokens + grant as u64
        } else {
            burst
        };
        self.tokens = tokens;
        self.last_refill = now;
        if self.tokens >= cost {
            self.tokens = self.tokens - cost;
            true
        } else {
            false
        }
    }
}

} // verus!
