//! A small span-of-time value used by the configuration types.
use vstd::prelude::*;

verus! {

/// A span of time with nanosecond precision, kept as whole seconds plus a
/// sub-second part below one billion nanoseconds.
#[derive(Debug, Clone, Copy, PartialEq, Eq, Structural)]
pub struct Duration {
    secs: u64,
    nanos: u32,
}

impl Duration {
    /// The well-formedness of a duration: the sub-second part stays below one second.
    pub open spec fn wf(self) -> bool {
        self.spec_nanos() < 1_000_000_000
    }

    /// The whole seconds of this duration.
    pub closed spec fn spec_secs(self) -> u64 {
        self.secs
    }

    /// The sub-second part of this duration, in nanoseconds.
    pub closed spec fn spec_nanos(self) -> u32 {
        self.nanos
    }

    /// The total length of this duration in nanoseconds.
    pub open spec fn total_nanos(self) -> int {
        self.spec_secs() * 1_000_000_000 + self.spec_nanos()
    }

    /// A duration of `secs` whole seconds.
    pub fn from_secs(secs: u64) -> (d: Duration)
        ensures
            d.spec_secs() == secs,
            d.spec_nanos() == 0,
            d.wf(),
    {
        Duration { secs, nanos: 0 }
    }

    /// A duration of `millis` milliseconds.
    pub fn from_millis(millis: u64) -> (d: Duration)
        ensures
            d.spec_secs() == millis / 1000,
            d.spec_nanos() == (millis % 1000) * 1_000_000,
            d.wf(),
    {
        Duration { secs: millis / 1000, nanos: ((millis % 1000) as u32) * 1_000_000 }
    }

    /// A duration of `secs` seconds and `nanos` nanoseconds, `nanos` below one second.
    pub fn new(secs: u64, nanos: u32) -> (d: Duration)
        requires
            nanos < 1_000_000_000,
        ensures
            d.spec_secs() == secs,
            d.spec_nanos() == nanos,
            d.wf(),
    {
        Duration { secs, nanos }
    }

    fn from_total_nanos(t: u128) -> (d: Duration)
        requires
            t / 1_000_000_000 <= u64::MAX,
        ensures
            d.total_nanos() == t,
            d.wf(),
    {
        let secs = (t / 1_000_000_000) as u64;
        let nanos = (t % 1_000_000_000) as u32;
        Duration { secs, nanos }
    }

    fn to_total_nanos(&self) -> (t: u128)
        ensures
            t == self.total_nanos(),
    {
        (self.secs as u128) * 1_000_000_000 + (self.nanos as u128)
    }

    /// This duration multiplied by `k`; the product must fit.
    pub fn mul_u32(&self, k: u32) -> (d: Duration)
        requires
            self.wf(),
            self.total_nanos() * k / 1_000_000_000 <= u64::MAX,
        ensures
            d.wf(),
            d.total_nanos() == self.total_nanos() * k,
    {
        let t = self.to_total_nanos();
        proof {
            assert(t * (k as u128) <= u128::MAX) by (nonlinear_arith)
                requires
                    t == self.secs * 1_000_000_000 + self.nanos,
                    self.nanos < 1_000_000_000,
                    k <= u32::MAX,
                    t * k / 1_000_000_000 <= u64::MAX,
            {
                assert(t < (u64::MAX as int + 1) * 1_000_000_000);
            }
        }
        Duration::from_total_nanos(t * (k as u128))
    }

    /// This duration divided by `k` (rounded down to whole nanoseconds).
    pub fn div_u32(&self, k: u32) -> (d: Duration)
        requires
            self.wf(),
            k > 0,
        ensures
            d.wf(),
            d.total_nanos() == self.total_nanos() / (k as int),
    {
        let t = self.to_total_nanos();
        proof {
            assert(t / (k as u128) <= t) by (nonlinear_arith)
                requires k > 0, t >= 0;
            assert(t / 1_000_000_000 <= u64::MAX);
            assert((t / (k as u128)) / 1_000_000_000 <= t / 1_000_000_000) by (nonlinear_arith)
                requires t / (k as u128) <= t, t >= 0;
        }
        Duration::from_total_nanos(t / (k as u128))
    }

    /// The sum of two durations; it must fit.
    pub fn add(&self, other: &Duration) -> (d: Duration)
        requires
            self.wf(),
            other.wf(),
            (self.total_nanos() + other.total_nanos()) / 1_000_000_000 <= u64::MAX,
        ensures
            d.wf(),
            d.total_nanos() == self.total_nanos() + other.total_nanos(),
    {
        let t = self.to_total_nanos() + other.to_total_nanos();
        Duration::from_total_nanos(t)
    }

    /// Whether this duration is longer than `other`.
    pub fn gt(&self, other: &Duration) -> (b: bool)
        requires
            self.wf(),
            other.wf(),
        ensures
            b == (self.total_nanos() > other.total_nanos()),
    {
        self.secs > other.secs || (self.secs == other.secs && self.nanos > other.nanos)
    }

    /// The whole seconds of this duration.
    pub fn as_secs(&self) -> (s: u64)
        ensures
            s == self.spec_secs(),
    {
        self.secs
    }

    /// The sub-second part of this duration in nanoseconds.
    pub fn subsec_nanos(&self) -> (n: u32)
        ensures
            n == self.spec_nanos(),
    {
        self.nanos
    }
}

} // verus!
