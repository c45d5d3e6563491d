//! Spans of time.

use vstd::arithmetic::power2::{lemma_pow2_strictly_increases, lemma_pow2_unfold, pow2};
use vstd::prelude::*;

verus! {

/// The longest span, in nanoseconds: `u64::MAX` seconds and 999999999
/// nanoseconds.
pub const MAX_NANOS: u128 = 18446744073709551615999999999;

/// A span of time, in nanoseconds.
#[derive(Debug, Clone, Copy, PartialEq, Eq, Structural)]
pub struct Duration {
    /// How many nanoseconds the span lasts.
    pub nanos: u128,
}

impl Duration {
    /// No time at all.
    pub fn zero() -> (r: Duration)
        ensures
            r.nanos == 0,
    {
        Duration { nanos: 0 }
    }

    /// A span of `secs` seconds.
    pub fn from_secs(secs: u64) -> (r: Duration)
        ensures
            r.nanos == secs * 1_000_000_000,
    {
        Duration { nanos: secs as u128 * 1_000_000_000 }
    }

    /// A span of `millis` milliseconds.
    pub fn from_millis(millis: u64) -> (r: Duration)
        ensures
            r.nanos == millis * 1_000_000,
    {
        Duration { nanos: millis as u128 * 1_000_000 }
    }

    /// The whole milliseconds in the span.
    pub fn as_millis(&self) -> (r: u128)
        ensures
            r == self.nanos / 1_000_000,
    {
        self.nanos / 1_000_000
    }

    /// `times` this span, or the longest span if that is shorter.
    pub fn saturating_mul(&self, times: u32) -> (r: Duration)
        ensures
            r.nanos == if self.nanos * times <= MAX_NANOS {
                self.nanos * times
            } else {
                MAX_NANOS as int
            },
    {
        match self.nanos.checked_mul(times as u128) {
            Some(nanos) => if nanos <= MAX_NANOS {
                Duration { nanos }
            } else {
                Duration { nanos: MAX_NANOS }
            },
            None => Duration { nanos: MAX_NANOS },
        }
    }

    /// This span, or `cap` if that is shorter.
    pub fn at_most(&self, cap: Duration) -> (r: Duration)
        ensures
            r.nanos == if self.nanos <= cap.nanos {
                self.nanos
            } else {
                cap.nanos
            },
    {
        if self.nanos <= cap.nanos {
            Duration { nanos: self.nanos }
        } else {
            cap
        }
    }
}

/// Two to the power `n`, or `u32::MAX` if that is less.
pub open spec fn doublings_view(n: nat) -> nat {
    if n < 32 {
        pow2(n)
    } else {
        u32::MAX as nat
    }
}

/// Two to the power `n`, or `u32::MAX` if that is less.
pub fn doublings(n: u32) -> (r: u32)
    ensures
        r == doublings_view(n as nat),
{
    if n >= 32 {
        return u32::MAX;
    }
    proof {
        vstd::arithmetic::power2::lemma2_to64();
    }
    let mut r: u32 = 1;
    let mut i: u32 = 0;
    while i < n
        invariant
            i <= n < 32,
            r == pow2(i as nat),
            pow2(0) == 1,
            pow2(31) == 0x8000_0000,
        decreases n - i,
    {
        proof {
            lemma_pow2_unfold((i + 1) as nat);
            if i + 1 < 31 {
                lemma_pow2_strictly_increases((i + 1) as nat, 31);
            }
        }
        r = r * 2;
        i += 1;
    }
    r
}

} // verus!
