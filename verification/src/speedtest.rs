//! Measuring throughput: what is asked of a test, and what its downloads amount to.

use vstd::prelude::*;

use crate::connector::{HandshakeType, Timing};
use crate::error::DetectorError;
use crate::model::Target;
use crate::time::Duration;

verus! {

/// How throughput is measured.
#[derive(Clone, Copy, Debug)]
pub struct SpeedTestConfig {
    pub timeout: Duration,
    pub threads_per_target: usize,
    pub concurrency: usize,
}

impl Default for SpeedTestConfig {
    fn default() -> (r: Self)
        ensures
            r.timeout.nanos == 5_000_000_000,
            r.threads_per_target == 3,
            r.concurrency == 8,
    {
        SpeedTestConfig { timeout: Duration::from_secs(5), threads_per_target: 3, concurrency: 8 }
    }
}

impl SpeedTestConfig {
    /// The downloads that run at a time for one target, at least one.
    pub fn threads(&self) -> (r: usize)
        ensures
            r == (if self.threads_per_target == 0 {
                1
            } else {
                self.threads_per_target
            }),
    {
        if self.threads_per_target == 0 {
            1
        } else {
            self.threads_per_target
        }
    }

    /// The targets that are tested at a time, at least one.
    pub fn parallel_targets(&self) -> (r: usize)
        ensures
            r == (if self.concurrency == 0 {
                1
            } else {
                self.concurrency
            }),
    {
        if self.concurrency == 0 {
            1
        } else {
            self.concurrency
        }
    }
}

/// The throughput of a target.
#[derive(Clone, Copy, Debug)]
pub struct SpeedTestResult {
    pub target: Target,
    pub bytes_per_second: u64,
    pub elapsed: Duration,
    pub connect_latency: Option<Duration>,
    pub tls_handshake_latency: Option<Duration>,
    pub ttfb_latency: Option<Duration>,
    pub handshake_type: Option<HandshakeType>,
}

impl SpeedTestResult {
    /// The result with the given times.
    pub fn with_timing(self, timing: Timing) -> (r: Self)
        ensures
            r == (SpeedTestResult {
                connect_latency: timing.connect_latency,
                tls_handshake_latency: timing.tls_handshake_latency,
                ttfb_latency: timing.ttfb_latency,
                ..self
            }),
    {
        SpeedTestResult {
            target: self.target,
            bytes_per_second: self.bytes_per_second,
            elapsed: self.elapsed,
            connect_latency: timing.connect_latency,
            tls_handshake_latency: timing.tls_handshake_latency,
            ttfb_latency: timing.ttfb_latency,
            handshake_type: self.handshake_type,
        }
    }

    /// The result with the given times and kind of handshake.
    pub fn with_timing_and_handshake(
        self,
        timing: Timing,
        handshake_type: Option<HandshakeType>,
    ) -> (r: Self)
        ensures
            r == (SpeedTestResult {
                connect_latency: timing.connect_latency,
                tls_handshake_latency: timing.tls_handshake_latency,
                ttfb_latency: timing.ttfb_latency,
                handshake_type,
                ..self
            }),
    {
        let t = self.with_timing(timing);
        SpeedTestResult {
            target: t.target,
            bytes_per_second: t.bytes_per_second,
            elapsed: t.elapsed,
            connect_latency: t.connect_latency,
            tls_handshake_latency: t.tls_handshake_latency,
            ttfb_latency: t.ttfb_latency,
            handshake_type,
        }
    }
}

/// The nanoseconds of a span, as a number of 64 bits.
pub open spec fn nanos64(d: Duration) -> int {
    (d.nanos % 0x1_0000_0000_0000_0000) as int
}

/// `n` times a thousand million, kept within 64 bits.
pub open spec fn giga(n: int) -> int {
    if n * 1_000_000_000 > u64::MAX {
        u64::MAX as int
    } else {
        n * 1_000_000_000
    }
}

/// The bytes per second; none where no time has passed.
pub open spec fn rate(total: int, elapsed: Duration) -> int {
    if elapsed.nanos == 0 {
        0
    } else {
        giga(total) / nanos64(elapsed)
    }
}

/// Computes the bytes per second.
pub fn bytes_per_second(total: u64, elapsed: Duration) -> (r: u64)
    requires
        elapsed.nanos == 0 || nanos64(elapsed) != 0,
    ensures
        r == rate(total as int, elapsed),
{
    if elapsed.is_zero() {
        return 0;
    }
    let wide: u128 = total as u128 * 1_000_000_000;
    let scaled: u64 = if wide > u64::MAX as u128 {
        u64::MAX
    } else {
        wide as u64
    };
    let nanos: u64 = (elapsed.nanos % 0x1_0000_0000_0000_0000) as u64;
    scaled / nanos
}

/// One download of a test.
#[derive(Clone, Copy, Debug)]
pub struct Sample {
    pub bytes: u64,
    pub timing: Timing,
    pub handshake_type: Option<HandshakeType>,
}

/// The bytes of all downloads.
pub open spec fn total_bytes(s: Seq<Sample>) -> int
    decreases s.len(),
{
    if s.len() == 0 {
        0
    } else {
        total_bytes(s.drop_last()) + s.last().bytes
    }
}

/// A time that is not zero.
pub open spec fn nonzero(d: Option<Duration>) -> Option<Duration> {
    match d {
        Some(t) => if t.nanos == 0 {
            None
        } else {
            Some(t)
        },
        None => None,
    }
}

/// The result of a test whose downloads all succeeded. The times and the kind of
/// handshake are those of the first download.
pub open spec fn outcome(
    target: Target,
    samples: Seq<Sample>,
    elapsed: Duration,
    first_byte: Option<Duration>,
) -> SpeedTestResult {
    let bps = rate(total_bytes(samples), elapsed) as u64;
    if samples.len() > 0 {
        SpeedTestResult {
            target,
            bytes_per_second: bps,
            elapsed,
            connect_latency: samples[0].timing.connect_latency,
            tls_handshake_latency: samples[0].timing.tls_handshake_latency,
            ttfb_latency: samples[0].timing.ttfb_latency,
            handshake_type: samples[0].handshake_type,
        }
    } else {
        SpeedTestResult {
            target,
            bytes_per_second: bps,
            elapsed,
            connect_latency: None,
            tls_handshake_latency: None,
            ttfb_latency: nonzero(first_byte),
            handshake_type: None,
        }
    }
}

proof fn lemma_total_prefix(s: Seq<Sample>, n: int)
    requires
        0 <= n <= s.len(),
    ensures
        0 <= total_bytes(s.take(n)) <= total_bytes(s),
    decreases s.len(),
{
    if n == s.len() {
        assert(s.take(n) =~= s);
        if n > 0 {
            lemma_total_prefix(s.drop_last(), n - 1);
            assert(s.drop_last().take(n - 1) =~= s.drop_last());
        }
    } else {
        lemma_total_prefix(s.drop_last(), n);
        assert(s.drop_last().take(n) =~= s.take(n));
    }
}

/// Sums up a test whose downloads all succeeded.
pub fn combine(
    target: Target,
    samples: &Vec<Sample>,
    elapsed: Duration,
    first_byte: Option<Duration>,
) -> (r: SpeedTestResult)
    requires
        total_bytes(samples@) <= u64::MAX,
        elapsed.nanos == 0 || nanos64(elapsed) != 0,
    ensures
        r == outcome(target, samples@, elapsed, first_byte),
{
    let mut total: u64 = 0;
    let mut i: usize = 0;
    while i < samples.len()
        invariant
            i <= samples@.len(),
            total_bytes(samples@) <= u64::MAX,
            total == total_bytes(samples@.take(i as int)),
        decreases samples@.len() - i,
    {
        proof {
            assert(samples@.take(i + 1).drop_last() =~= samples@.take(i as int));
            lemma_total_prefix(samples@, i + 1);
        }
        total = total + samples[i].bytes;
        i += 1;
    }
    proof {
        assert(samples@.take(i as int) =~= samples@);
    }
    let bps: u64 = bytes_per_second(total, elapsed);
    let ttfb_latency = match first_byte {
        Some(t) => if t.is_zero() {
            None
        } else {
            Some(t)
        },
        None => None,
    };
    let base = SpeedTestResult {
        target,
        bytes_per_second: bps,
        elapsed,
        connect_latency: None,
        tls_handshake_latency: None,
        ttfb_latency,
        handshake_type: if samples.len() > 0 {
            samples[0].handshake_type
        } else {
            None
        },
    };
    if samples.len() > 0 {
        base.with_timing(samples[0].timing)
    } else {
        base
    }
}

/// The downloads up to the first that failed.
pub open spec fn good_prefix(outcomes: Seq<Result<Sample, DetectorError>>) -> Seq<Sample>
    decreases outcomes.len(),
{
    if outcomes.len() == 0 {
        Seq::empty()
    } else {
        match outcomes[0] {
            Ok(s) => seq![s] + good_prefix(outcomes.skip(1)),
            Err(_) => Seq::empty(),
        }
    }
}

/// The downloads of a test, or the first failure among them.
pub fn gather(outcomes: Vec<Result<Sample, DetectorError>>) -> (r: Result<
    Vec<Sample>,
    DetectorError,
>)
    ensures
        match r {
            Ok(v) => v@ == good_prefix(outcomes@) && v@.len() == outcomes@.len(),
            Err(e) => good_prefix(outcomes@).len() < outcomes@.len()
                && outcomes@[good_prefix(outcomes@).len() as int] == Err::<Sample, DetectorError>(e),
        },
{
    let mut rest = outcomes;
    let ghost all = outcomes@;
    let mut v: Vec<Sample> = Vec::new();
    proof {
        assert(all.skip(0) =~= all);
        assert(v@ + good_prefix(all) =~= good_prefix(all));
    }
    while rest.len() > 0
        invariant
            all == outcomes@,
            v@.len() + rest@.len() == all.len(),
            rest@ == all.skip(v@.len() as int),
            good_prefix(all) == v@ + good_prefix(rest@),
        decreases rest@.len(),
    {
        let ghost before = rest@;
        let ghost gathered = v@;
        let first = rest.remove(0);
        proof {
            assert(before[0] == first);
            assert(rest@ =~= before.skip(1));
            assert(all.skip((gathered.len() + 1) as int) =~= before.skip(1));
        }
        match first {
            Ok(s) => {
                v.push(s);
                proof {
                    assert(gathered + (seq![s] + good_prefix(rest@)) =~= v@ + good_prefix(rest@));
                }
            },
            Err(e) => {
                proof {
                    assert(good_prefix(before) =~= Seq::<Sample>::empty());
                    assert(good_prefix(all) =~= gathered);
                    assert(all[gathered.len() as int] == before[0]);
                }
                return Err(e);
            },
        }
    }
    proof {
        assert(v@ + good_prefix(rest@) =~= v@);
    }
    Ok(v)
}

/// The results there are, in order.
pub open spec fn present(s: Seq<Option<SpeedTestResult>>) -> Seq<SpeedTestResult>
    decreases s.len(),
{
    if s.len() == 0 {
        Seq::empty()
    } else {
        match s.last() {
            Some(r) => present(s.drop_last()).push(r),
            None => present(s.drop_last()),
        }
    }
}

/// Leaves out the targets whose test failed.
pub fn collect_results(s: &Vec<Option<SpeedTestResult>>) -> (r: Vec<SpeedTestResult>)
    ensures
        r@ == present(s@),
{
    let mut r: Vec<SpeedTestResult> = Vec::new();
    let mut i: usize = 0;
    while i < s.len()
        invariant
            i <= s@.len(),
            r@ == present(s@.take(i as int)),
        decreases s@.len() - i,
    {
        proof {
            assert(s@.take(i + 1).drop_last() =~= s@.take(i as int));
        }
        if let Some(x) = s[i] {
            r.push(x);
        }
        i += 1;
    }
    proof {
        assert(s@.take(i as int) =~= s@);
    }
    r
}

/// In one second as many bytes are loaded as the rate tells, up to the largest total
/// that can be scaled.
pub proof fn law_rate_of_one_second(total: u64)
    requires
        total * 1_000_000_000 <= u64::MAX,
    ensures
        rate(total as int, Duration { nanos: 1_000_000_000 }) == total,
        rate(total as int, Duration { nanos: 0 }) == 0,
{
    let d = Duration { nanos: 1_000_000_000 };
    assert(nanos64(d) == 1_000_000_000);
    assert((total * 1_000_000_000) / 1_000_000_000 == total);
}

/// The rate is the number of whole bytes per second: so many bytes and no more would have been
/// loaded in that time at that rate. Totals whose thousand-millionfold needs more than 64 bits
/// count as the largest that fits, and of a time its lower 64 bits of nanoseconds count.
pub proof fn law_rate_is_bytes_over_time(total: u64, elapsed: Duration)
    requires
        elapsed.nanos % 0x1_0000_0000_0000_0000 != 0,
    ensures
        ({
            let r = rate(total as int, elapsed);
            let nanos = elapsed.nanos as int % 0x1_0000_0000_0000_0000;
            &&& total * 1_000_000_000 <= u64::MAX ==> r * nanos <= total * 1_000_000_000 < (r + 1)
                * nanos
            &&& total * 1_000_000_000 > u64::MAX ==> r * nanos <= u64::MAX < (r + 1) * nanos
        }),
        elapsed.nanos < 0x1_0000_0000_0000_0000 && total * 1_000_000_000 <= u64::MAX ==> ({
            let r = rate(total as int, elapsed);
            r * elapsed.nanos <= total * 1_000_000_000 < (r + 1) * elapsed.nanos
        }),
{
    let nanos = elapsed.nanos as int % 0x1_0000_0000_0000_0000;
    let scaled = if total * 1_000_000_000 > u64::MAX {
        u64::MAX as int
    } else {
        total * 1_000_000_000
    };
    let r = rate(total as int, elapsed);
    assert(r == scaled / nanos);
    assert(r * nanos <= scaled < (r + 1) * nanos) by (nonlinear_arith)
        requires
            r == scaled / nanos,
            nanos > 0,
            scaled >= 0,
    ;
    assert(elapsed.nanos < 0x1_0000_0000_0000_0000 ==> nanos == elapsed.nanos);
}

/// More bytes in a time make no smaller rate, and more time for the bytes makes no larger one.
pub proof fn law_rate_follows_bytes_and_time(a: u64, b: u64, s: Duration, t: Duration)
    requires
        a <= b,
        0 < s.nanos <= t.nanos < 0x1_0000_0000_0000_0000,
    ensures
        rate(a as int, s) <= rate(b as int, s),
        rate(a as int, t) <= rate(a as int, s),
{
    law_rate_is_bytes_over_time(a, s);
    law_rate_is_bytes_over_time(b, s);
    law_rate_is_bytes_over_time(a, t);
    let (x, y, z) = (rate(a as int, s), rate(b as int, s), rate(a as int, t));
    let (m, n) = (s.nanos as int, t.nanos as int);
    let p = if a * 1_000_000_000 <= u64::MAX {
        a * 1_000_000_000
    } else {
        u64::MAX as int
    };
    let q = if b * 1_000_000_000 <= u64::MAX {
        b * 1_000_000_000
    } else {
        u64::MAX as int
    };
    assert(m == s.nanos as int % 0x1_0000_0000_0000_0000);
    assert(n == t.nanos as int % 0x1_0000_0000_0000_0000);
    assert(x <= y) by (nonlinear_arith)
        requires
            x * m <= p,
            p <= q,
            q < (y + 1) * m,
            m > 0,
    ;
    assert(z <= x) by (nonlinear_arith)
        requires
            z * n <= p,
            p < (x + 1) * m,
            0 < m <= n,
            x >= 0,
    ;
}

/// The bytes of downloads add up, whatever way they are grouped.
pub proof fn law_bytes_add_up(a: Seq<Sample>, b: Seq<Sample>, one: Sample)
    ensures
        total_bytes(a + b) == total_bytes(a) + total_bytes(b),
        total_bytes(seq![one]) == one.bytes,
        total_bytes(Seq::<Sample>::empty()) == 0,
    decreases b.len(),
{
    assert(seq![one].drop_last() =~= Seq::<Sample>::empty());
    assert(total_bytes(seq![one].drop_last()) == 0);
    if b.len() == 0 {
        assert(a + b =~= a);
    } else {
        assert((a + b).drop_last() =~= a + b.drop_last());
        law_bytes_add_up(a, b.drop_last(), one);
    }
}

/// A test tells the rate of the bytes of all its downloads over its time, and the times and the
/// handshake of its first download; without downloads it tells the time to the first byte, if
/// any passed, and nothing else.
pub proof fn law_outcome_tells_all_downloads(
    target: Target,
    samples: Seq<Sample>,
    elapsed: Duration,
    first_byte: Option<Duration>,
)
    requires
        total_bytes(samples) * 1_000_000_000 <= u64::MAX,
        elapsed.nanos < 0x1_0000_0000_0000_0000,
    ensures
        ({
            let r = outcome(target, samples, elapsed, first_byte);
            &&& r.target == target
            &&& r.elapsed == elapsed
            &&& elapsed.nanos == 0 ==> r.bytes_per_second == 0
            &&& elapsed.nanos > 0 ==> r.bytes_per_second * elapsed.nanos <= total_bytes(samples)
                * 1_000_000_000 < (r.bytes_per_second + 1) * elapsed.nanos
            &&& samples.len() > 0 ==> {
                &&& r.connect_latency == samples[0].timing.connect_latency
                &&& r.tls_handshake_latency == samples[0].timing.tls_handshake_latency
                &&& r.ttfb_latency == samples[0].timing.ttfb_latency
                &&& r.handshake_type == samples[0].handshake_type
            }
            &&& samples.len() == 0 ==> {
                &&& r.connect_latency is None
                &&& r.tls_handshake_latency is None
                &&& r.handshake_type is None
                &&& r.ttfb_latency is Some <==> first_byte is Some && first_byte->0.nanos > 0
                &&& r.ttfb_latency is Some ==> r.ttfb_latency == first_byte
            }
        }),
{
    lemma_total_prefix(samples, 0);
    assert(samples.take(0) =~= Seq::<Sample>::empty());
    let total = total_bytes(samples);
    assert(0 <= total <= u64::MAX);
    if elapsed.nanos > 0 {
        law_rate_is_bytes_over_time(total as u64, elapsed);
        let r = rate(total, elapsed);
        let nanos = elapsed.nanos as int;
        assert(0 <= r <= u64::MAX) by (nonlinear_arith)
            requires
                r * nanos <= total * 1_000_000_000,
                total * 1_000_000_000 < (r + 1) * nanos,
                total * 1_000_000_000 <= u64::MAX,
                total >= 0,
                nanos > 0,
        ;
    }
}

/// The downloads that count are those before the first failure, each in its place: all of them
/// where none failed.
pub proof fn law_downloads_up_to_a_failure(outcomes: Seq<Result<Sample, DetectorError>>)
    ensures
        good_prefix(outcomes).len() <= outcomes.len(),
        forall|i: int|
            0 <= i < good_prefix(outcomes).len() ==> outcomes[i] == Ok::<Sample, DetectorError>(
                #[trigger] good_prefix(outcomes)[i],
            ),
        good_prefix(outcomes).len() < outcomes.len()
            ==> outcomes[good_prefix(outcomes).len() as int] is Err,
        (forall|i: int| 0 <= i < outcomes.len() ==> (#[trigger] outcomes[i]) is Ok)
            ==> good_prefix(outcomes).len() == outcomes.len(),
    decreases outcomes.len(),
{
    if outcomes.len() > 0 {
        if let Ok(s) = outcomes[0] {
            let rest = outcomes.skip(1);
            law_downloads_up_to_a_failure(rest);
            let g = good_prefix(outcomes);
            assert forall|i: int| 0 <= i < g.len() implies outcomes[i] == Ok::<
                Sample,
                DetectorError,
            >(#[trigger] g[i]) by {
                if i > 0 {
                    assert(g[i] == good_prefix(rest)[i - 1]);
                    assert(rest[i - 1] == outcomes[i]);
                }
            }
            if good_prefix(rest).len() < rest.len() {
                assert(rest[good_prefix(rest).len() as int] == outcomes[g.len() as int]);
            }
        }
    }
}

/// The results of a batch are those of the targets that were tested, each once and in order.
pub proof fn law_present_results(
    a: Seq<Option<SpeedTestResult>>,
    b: Seq<Option<SpeedTestResult>>,
    r: SpeedTestResult,
)
    ensures
        present(a + b) == present(a) + present(b),
        present(seq![Some(r)]) == seq![r],
        present(seq![None]) == Seq::<SpeedTestResult>::empty(),
        present(Seq::empty()) == Seq::<SpeedTestResult>::empty(),
    decreases b.len(),
{
    let none = Seq::<Option<SpeedTestResult>>::empty();
    assert(seq![Some(r)].drop_last() =~= none);
    assert(seq![None::<SpeedTestResult>].drop_last() =~= none);
    assert(present(none) =~= Seq::<SpeedTestResult>::empty());
    assert(present(seq![Some(r)]) =~= seq![r]);
    if b.len() == 0 {
        assert(a + b =~= a);
        assert(present(a) + present(b) =~= present(a));
    } else {
        assert((a + b).drop_last() =~= a + b.drop_last());
        law_present_results(a, b.drop_last(), r);
        assert(present(a + b) =~= present(a) + present(b));
    }
}

} // verus!
