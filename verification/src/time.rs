//! Spans of time.

use vstd::prelude::*;

verus! {

/// A span of time, counted in nanoseconds.
#[derive(Clone, Copy, Debug, PartialEq, Eq, PartialOrd, Ord, Hash, Structural)]
pub struct Duration {
    pub nanos: u128,
}

impl Duration {
    pub fn from_secs(secs: u64) -> (r: Self)
        ensures
            r.nanos == secs * 1_000_000_000,
    {
        Duration { nanos: secs as u128 * 1_000_000_000 }
    }

    pub fn from_millis(millis: u64) -> (r: Self)
        ensures
            r.nanos == millis * 1_000_000,
    {
        Duration { nanos: millis as u128 * 1_000_000 }
    }

    pub fn from_micros(micros: u64) -> (r: Self)
        ensures
            r.nanos == micros * 1_000,
    {
        Duration { nanos: micros as u128 * 1_000 }
    }

    pub fn from_nanos(nanos: u64) -> (r: Self)
        ensures
            r.nanos == nanos,
    {
        Duration { nanos: nanos as u128 }
    }

    /// The number of whole milliseconds.
    pub open spec fn millis(self) -> nat {
        self.nanos as nat / 1_000_000
    }

    pub fn as_millis(&self) -> (r: u128)
        ensures
            r == self.millis(),
    {
        self.nanos / 1_000_000
    }

    pub fn as_nanos(&self) -> (r: u128)
        ensures
            r == self.nanos,
    {
        self.nanos
    }

    pub fn is_zero(&self) -> (r: bool)
        ensures
            r == (self.nanos == 0),
    {
        self.nanos == 0
    }
}

/// A thousand of each unit make one of the next: a second is a thousand milliseconds, a
/// millisecond a thousand microseconds, and a microsecond a thousand nanoseconds.
pub proof fn law_units(
    n: u64,
    m: u64,
    secs: Duration,
    millis: Duration,
    micros: Duration,
    more_millis: Duration,
    more_micros: Duration,
    more_nanos: Duration,
)
    requires
        m == n * 1000,
        call_ensures(Duration::from_secs, (n,), secs),
        call_ensures(Duration::from_millis, (n,), millis),
        call_ensures(Duration::from_micros, (n,), micros),
        call_ensures(Duration::from_millis, (m,), more_millis),
        call_ensures(Duration::from_micros, (m,), more_micros),
        call_ensures(Duration::from_nanos, (m,), more_nanos),
    ensures
        secs == more_millis,
        millis == more_micros,
        micros == more_nanos,
        more_nanos.nanos == m,
        millis.millis() == n,
        more_millis.millis() == m,
{
}

/// The nanoseconds and the whole milliseconds of a span are told as they are, and a span is
/// nothing where it has no nanosecond.
pub proof fn law_told_time(nanos: u64, d: Duration, a: u128, b: u128, zero: bool)
    requires
        call_ensures(Duration::from_nanos, (nanos,), d),
        call_ensures(Duration::as_nanos, (&d,), a),
        call_ensures(Duration::as_millis, (&d,), b),
        call_ensures(Duration::is_zero, (&d,), zero),
    ensures
        a == nanos,
        b * 1_000_000 <= nanos < (b + 1) * 1_000_000,
        zero <==> nanos == 0,
{
}

/// Whole milliseconds count, and what remains of the last one does not.
pub proof fn law_whole_milliseconds(d: Duration)
    ensures
        d.millis() * 1_000_000 <= d.nanos < (d.millis() + 1) * 1_000_000,
{
}

} // verus!
