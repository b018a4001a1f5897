//! The plan of a short measurement of the program itself, and its figures.

use vstd::prelude::*;

use crate::text;

verus! {

/// An action to measure.
#[derive(Clone, Debug)]
pub struct Scenario {
    pub name: String,
    /// What the action is expected to take, in nanoseconds.
    pub hint_ns: u128,
    /// The component that the expectation comes from.
    pub component: String,
    /// How often the action is measured.
    pub iterations: usize,
    /// How often the action is run before that.
    pub warmup: usize,
}

impl Scenario {
    fn make(name: &str, hint_ns: u128, component: &str, iterations: usize, warmup: usize) -> (r: Self)
        ensures
            r.is(name@, hint_ns, component@, iterations as int, warmup as int),
    {
        Scenario {
            name: text::owned(name),
            hint_ns,
            component: text::owned(component),
            iterations,
            warmup,
        }
    }

    pub open spec fn is(
        self,
        name: Seq<char>,
        hint_ns: u128,
        component: Seq<char>,
        iterations: int,
        warmup: int,
    ) -> bool {
        &&& self.name@ == name
        &&& self.hint_ns == hint_ns
        &&& self.component@ == component
        &&& self.iterations == iterations
        &&& self.warmup == warmup
    }
}

/// How often an action is measured.
pub open spec fn runs(quick: bool) -> int {
    if quick {
        2_000
    } else {
        50_000
    }
}

/// How often an action is run before it is measured.
pub open spec fn warmup_runs(quick: bool) -> int {
    if quick {
        50
    } else {
        500
    }
}

/// The actions to measure. Building a connector takes long, and is measured less often.
pub fn scenarios(quick: bool) -> (r: Vec<Scenario>)
    ensures
        r@.len() == 5,
        r@[0].is(
            "governor.cap_concurrency"@,
            2500,
            "go-cfrp-detector/pkg/governor"@,
            runs(quick),
            warmup_runs(quick),
        ),
        r@[1].is(
            "governor.classify_resource_error_EMFILE"@,
            180,
            "go-cfrp-detector/pkg/governor"@,
            runs(quick),
            warmup_runs(quick),
        ),
        r@[2].is(
            "connector.PinnedConnector_new_default"@,
            450_000,
            "go-cfrp-detector/pkg/connector"@,
            runs(quick) / 50,
            warmup_runs(quick) / 5,
        ),
        r@[3].is(
            "probe.ProbeConfig_to_pinned"@,
            80,
            "go-cfrp-detector/internal/config"@,
            runs(quick),
            warmup_runs(quick),
        ),
        r@[4].is(
            "detector.DetectorConfig_default_clone"@,
            40,
            "go-cfrp-detector/pkg/detector"@,
            runs(quick),
            warmup_runs(quick),
        ),
{
    let n: usize = if quick {
        2_000
    } else {
        50_000
    };
    let w: usize = if quick {
        50
    } else {
        500
    };
    vec![
        Scenario::make("governor.cap_concurrency", 2500, "go-cfrp-detector/pkg/governor", n, w),
        Scenario::make(
            "governor.classify_resource_error_EMFILE",
            180,
            "go-cfrp-detector/pkg/governor",
            n,
            w,
        ),
        Scenario::make(
            "connector.PinnedConnector_new_default",
            450_000,
            "go-cfrp-detector/pkg/connector",
            n / 50,
            w / 5,
        ),
        Scenario::make("probe.ProbeConfig_to_pinned", 80, "go-cfrp-detector/internal/config", n, w),
        Scenario::make(
            "detector.DetectorConfig_default_clone",
            40,
            "go-cfrp-detector/pkg/detector",
            n,
            w,
        ),
    ]
}

/// What was measured of an action, in nanoseconds.
#[derive(Clone, Copy, Debug, PartialEq, Eq, Structural)]
pub struct Figures {
    pub avg_ns: u128,
    pub min_ns: u128,
    pub max_ns: u128,
}

/// The figures of measurements that took `total_ns` in all: the average is taken of the
/// whole, and counts no measurement as one.
pub fn summarize(samples: &Vec<u128>, total_ns: u128) -> (r: Figures)
    ensures
        r.avg_ns == total_ns as int / (if samples@.len() == 0 {
            1
        } else {
            samples@.len() as int
        }),
        samples@.len() == 0 ==> r.min_ns == u128::MAX && r.max_ns == 0,
        samples@.len() > 0 ==> samples@.contains(r.min_ns) && samples@.contains(r.max_ns),
        forall|i: int| 0 <= i < samples@.len() ==> r.min_ns <= #[trigger] samples@[i] <= r.max_ns,
{
    let mut min_ns: u128 = u128::MAX;
    let mut max_ns: u128 = 0;
    let mut i: usize = 0;
    while i < samples.len()
        invariant
            i <= samples@.len(),
            i == 0 ==> min_ns == u128::MAX && max_ns == 0,
            i > 0 ==> samples@.contains(min_ns) && samples@.contains(max_ns),
            forall|j: int| 0 <= j < i ==> min_ns <= #[trigger] samples@[j] <= max_ns,
        decreases samples@.len() - i,
    {
        let ns: u128 = samples[i];
        assert(samples@.contains(ns));
        if i == 0 || ns < min_ns {
            min_ns = ns;
        }
        if i == 0 || ns > max_ns {
            max_ns = ns;
        }
        i += 1;
    }
    let count: u128 = if samples.len() == 0 {
        1
    } else {
        samples.len() as u128
    };
    Figures { avg_ns: total_ns / count, min_ns, max_ns }
}

/// A quick measurement runs each action one time in twenty-five, and takes a tenth of the runs
/// before it.
pub proof fn law_quick_measurement()
    ensures
        runs(false) == 50_000,
        runs(true) * 25 == runs(false),
        warmup_runs(false) == 500,
        warmup_runs(true) * 10 == warmup_runs(false),
{
}

/// The average of the whole, times the number of measurements, is the whole but for less than
/// one nanosecond each; the least and the greatest are among the measurements, and bound them.
pub proof fn law_figures(samples: Vec<u128>, total_ns: u128, r: Figures)
    requires
        samples@.len() > 0,
        call_ensures(summarize, (&samples, total_ns), r),
    ensures
        r.avg_ns * samples@.len() <= total_ns < (r.avg_ns + 1) * samples@.len(),
        samples@.contains(r.min_ns),
        samples@.contains(r.max_ns),
        forall|x: u128| samples@.contains(x) ==> r.min_ns <= x <= r.max_ns,
{
    let n = samples@.len() as int;
    let t = total_ns as int;
    let q = t / n;
    assert(q * n <= t < (q + 1) * n) by (nonlinear_arith)
        requires
            n > 0,
            q == t / n,
    ;
}

/// A plan of five actions: each has its name, what it is expected to take, and how often it is
/// run; a connector is built fifty times less often than the other actions are run.
pub proof fn law_plan(quick: bool, r: Vec<Scenario>)
    requires
        call_ensures(scenarios, (quick,), r),
    ensures
        r@.len() == 5,
        r@[0].name@ == "governor.cap_concurrency"@,
        r@[1].name@ == "governor.classify_resource_error_EMFILE"@,
        r@[2].name@ == "connector.PinnedConnector_new_default"@,
        r@[3].name@ == "probe.ProbeConfig_to_pinned"@,
        r@[4].name@ == "detector.DetectorConfig_default_clone"@,
        r@[0].iterations == r@[1].iterations == r@[3].iterations == r@[4].iterations,
        r@[2].iterations * 50 == r@[0].iterations,
        r@[0].warmup == r@[1].warmup == r@[3].warmup == r@[4].warmup,
        r@[2].warmup * 5 == r@[0].warmup,
        r@[0].iterations == (if quick {
            2_000int
        } else {
            50_000
        }),
        r@[0].hint_ns == 2_500 && r@[1].hint_ns == 180 && r@[2].hint_ns == 450_000 && r@[3].hint_ns
            == 80 && r@[4].hint_ns == 40,
{
}

} // verus!
