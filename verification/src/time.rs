//! Spans of time, counted in nanoseconds.

use vstd::prelude::*;

verus! {

/// The number of nanoseconds in a second.
pub const NANOS_PER_SEC: u128 = 1_000_000_000;

/// The longest span a [`Duration`] can hold: `u64::MAX` seconds and
/// 999,999,999 nanoseconds.
pub open spec fn max_nanos() -> int {
    u64::MAX as int * 1_000_000_000 + 999_999_999
}

/// A span of time with nanosecond precision.
#[derive(Clone, Copy, Debug)]
pub struct Duration {
    nanos: u128,
}

impl View for Duration {
    type V = nat;

    /// The length of the span in nanoseconds.
    closed spec fn view(&self) -> nat {
        self.nanos as nat
    }
}

impl Duration {
    /// Whether the span lies within the range a duration can hold.
    pub open spec fn bounded(self) -> bool {
        self@ <= max_nanos()
    }

    /// The empty span.
    pub fn zero() -> (r: Duration)
        ensures
            r@ == 0,
            r.bounded(),
    {
        Duration { nanos: 0 }
    }

    /// A span of `secs` seconds and `nanos` nanoseconds; nanoseconds past a
    /// whole second carry into the seconds.
    pub fn new(secs: u64, nanos: u32) -> (r: Duration)
        requires
            secs + nanos / 1_000_000_000 <= u64::MAX,
        ensures
            r@ == secs * 1_000_000_000 + nanos,
            r.bounded(),
    {
        assert(secs * 1_000_000_000 <= u64::MAX * 1_000_000_000) by (nonlinear_arith)
            requires secs <= u64::MAX;
        let total = secs as u128 * NANOS_PER_SEC + nanos as u128;
        proof {
            let q = nanos / 1_000_000_000;
            let rem = nanos % 1_000_000_000;
            assert(nanos == q * 1_000_000_000 + rem);
            assert((secs + q) * 1_000_000_000 <= u64::MAX * 1_000_000_000) by (nonlinear_arith)
                requires secs + q <= u64::MAX;
        }
        Duration { nanos: total }
    }

    /// The span of `millis` milliseconds.
    pub closed spec fn spec_from_millis(millis: u64) -> Duration {
        Duration { nanos: (millis * 1_000_000) as u128 }
    }

    /// A span of `millis` milliseconds.
    pub fn from_millis(millis: u64) -> (r: Duration)
        ensures
            r == Duration::spec_from_millis(millis),
            r@ == millis * 1_000_000,
            r.bounded(),
    {
        assert(millis * 1_000_000 <= u64::MAX * 1_000_000) by (nonlinear_arith)
            requires millis <= u64::MAX;
        Duration { nanos: millis as u128 * 1_000_000 }
    }

    /// A span of `nanos` nanoseconds.
    pub fn from_nanos(nanos: u64) -> (r: Duration)
        ensures
            r@ == nanos,
            r.bounded(),
    {
        Duration { nanos: nanos as u128 }
    }

    /// The length of this span in nanoseconds.
    pub fn as_nanos(&self) -> (r: u128)
        ensures
            r == self@,
    {
        self.nanos
    }

    /// The whole seconds in this span.
    pub fn as_secs(&self) -> (r: u64)
        requires
            self.bounded(),
        ensures
            r == self@ / 1_000_000_000,
    {
        (self.nanos / NANOS_PER_SEC) as u64
    }

    /// The nanoseconds past the whole seconds of this span.
    pub fn subsec_nanos(&self) -> (r: u32)
        ensures
            r == self@ % 1_000_000_000,
    {
        (self.nanos % NANOS_PER_SEC) as u32
    }

    /// The sum of two spans. The sum must fit in a duration.
    pub fn add(self, other: Duration) -> (r: Duration)
        requires
            self@ + other@ <= max_nanos(),
        ensures
            r@ == self@ + other@,
            r.bounded(),
    {
        Duration { nanos: self.nanos + other.nanos }
    }

    /// The difference `self - other`, or `None` when `other` is longer.
    pub fn checked_sub(self, other: Duration) -> (r: Option<Duration>)
        ensures
            r matches Some(d) ==> d@ == self@ - other@,
            r is None <==> self@ < other@,
    {
        if self.nanos >= other.nanos {
            Some(Duration { nanos: self.nanos - other.nanos })
        } else {
            None
        }
    }

    /// Whether this span is strictly longer than `other`.
    pub fn longer_than(&self, other: &Duration) -> (r: bool)
        ensures
            r == (self@ > other@),
    {
        self.nanos > other.nanos
    }
}

} // verus!
