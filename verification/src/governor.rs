//! Holding concurrency back where file descriptors run short or the system's
//! resources give out.

use std::collections::VecDeque;
use vstd::prelude::*;

use crate::error::{DetectorError, ErrorKind, IoError};
use crate::error;
use crate::ratio;
use crate::ratio::Ratio;
use crate::text;
use crate::time::Duration;

verus! {

/// A resource that can run out.
#[derive(Clone, Copy, Debug, PartialEq, Eq, Structural)]
pub enum ResourceKind {
    Fd,
    Backlog,
}

impl ResourceKind {
    pub fn to_string(&self) -> (r: String)
        ensures
            r@ == (match *self {
                ResourceKind::Fd => "fd"@,
                ResourceKind::Backlog => "backlog"@,
            }),
    {
        match self {
            ResourceKind::Fd => text::owned("fd"),
            ResourceKind::Backlog => text::owned("backlog"),
        }
    }
}

/// A source of the number of open file descriptors and of their limit.
pub trait FdCounter {
    fn open_fd_count(&self) -> usize;

    fn fd_limit(&self) -> usize;
}

/// A counter that is set by hand.
#[derive(Clone, Copy, Debug)]
pub struct MockFdCounter {
    pub used: usize,
    pub limit: usize,
}

impl MockFdCounter {
    pub fn new(initial_used: usize, limit: usize) -> (r: Self)
        ensures
            r.used == initial_used,
            r.limit == limit,
    {
        MockFdCounter { used: initial_used, limit }
    }

    pub fn set(&mut self, used: usize)
        ensures
            final(self).used == used,
            final(self).limit == old(self).limit,
    {
        self.used = used;
    }

    /// Moves the count up or down; it stops at the ends of its range.
    pub fn inc(&mut self, delta: isize)
        requires
            delta > isize::MIN,
        ensures
            final(self).limit == old(self).limit,
            final(self).used == (if old(self).used + delta < 0 {
                0
            } else if old(self).used + delta > usize::MAX {
                usize::MAX as int
            } else {
                old(self).used + delta
            }),
    {
        if delta >= 0 {
            self.used = self.used.saturating_add(delta as usize);
        } else {
            self.used = self.used.saturating_sub((-delta) as usize);
        }
    }
}

impl FdCounter for MockFdCounter {
    fn open_fd_count(&self) -> (r: usize)
        ensures
            r == self.used,
    {
        self.used
    }

    fn fd_limit(&self) -> (r: usize)
        ensures
            r == self.limit,
    {
        self.limit
    }
}

pub const DEFAULT_SAFETY_HEADROOM: usize = 32;

pub const DEFAULT_RESOURCE_WINDOW: usize = 50;

/// How a governor holds concurrency back.
#[derive(Clone, Copy, Debug)]
pub struct ResourceGovernorConfig {
    pub enabled: bool,
    /// File descriptors that are left free.
    pub fd_safety_headroom: usize,
    /// The share of resource errors above which concurrency is halved.
    pub resource_error_threshold: Ratio,
    /// The number of outcomes that the share is taken of.
    pub resource_error_window: usize,
    /// How long a count of file descriptors is used again.
    pub resource_sample_interval: Duration,
    pub user_max_concurrency: usize,
    /// The share of file descriptors in use from which on only a quarter of the free
    /// ones is used.
    pub fd_ratio_hard_cap: Option<Ratio>,
    /// The share of file descriptors in use from which on concurrency falls with it.
    pub fd_ratio_soft_cap: Option<Ratio>,
}

impl ResourceGovernorConfig {
    pub open spec fn wf(self) -> bool {
        &&& self.resource_error_threshold.wf()
        &&& match self.fd_ratio_hard_cap {
            Some(h) => h.wf(),
            None => true,
        }
        &&& match self.fd_ratio_soft_cap {
            Some(s) => s.wf(),
            None => true,
        }
    }
}

/// How a governor holds concurrency back where nothing else is said.
pub open spec fn default_config() -> ResourceGovernorConfig {
    ResourceGovernorConfig {
        enabled: true,
        fd_safety_headroom: 32,
        resource_error_threshold: Ratio { numer: 10, denom: 100 },
        resource_error_window: 50,
        resource_sample_interval: Duration { nanos: 250_000_000 },
        user_max_concurrency: 256,
        fd_ratio_hard_cap: Some(Ratio { numer: 92, denom: 100 }),
        fd_ratio_soft_cap: Some(Ratio { numer: 80, denom: 100 }),
    }
}

impl Default for ResourceGovernorConfig {
    fn default() -> (r: Self)
        ensures
            r == default_config(),
            r.wf(),
    {
        ResourceGovernorConfig {
            enabled: true,
            fd_safety_headroom: DEFAULT_SAFETY_HEADROOM,
            resource_error_threshold: Ratio { numer: 10, denom: 100 },
            resource_error_window: DEFAULT_RESOURCE_WINDOW,
            resource_sample_interval: Duration::from_millis(250),
            user_max_concurrency: 256,
            fd_ratio_hard_cap: Some(Ratio { numer: 92, denom: 100 }),
            fd_ratio_soft_cap: Some(Ratio { numer: 80, denom: 100 }),
        }
    }
}

/// What a governor saw and decided.
#[derive(Clone, Copy, Debug)]
pub struct GovernorSnapshot {
    pub active: bool,
    pub fd_used: usize,
    pub fd_limit: usize,
    pub fd_budget: usize,
    pub throttled_due_to_fd: bool,
    /// The outcomes that the share of resource errors is taken of.
    pub outcomes: usize,
    pub throttled_due_to_resource_errors: bool,
    pub capped_concurrency: usize,
    pub available_fds: usize,
    pub used_fds: usize,
    pub user_max_concurrency: usize,
    pub proposed_concurrency: usize,
    pub resource_errors: usize,
}

impl Default for GovernorSnapshot {
    fn default() -> (r: Self)
        ensures
            r == blank_snapshot(),
    {
        GovernorSnapshot {
            active: false,
            fd_used: 0,
            fd_limit: 0,
            fd_budget: 0,
            throttled_due_to_fd: false,
            outcomes: 0,
            throttled_due_to_resource_errors: false,
            capped_concurrency: 0,
            available_fds: 0,
            used_fds: 0,
            user_max_concurrency: 0,
            proposed_concurrency: 0,
            resource_errors: 0,
        }
    }
}

pub open spec fn blank_snapshot() -> GovernorSnapshot {
    GovernorSnapshot {
        active: false,
        fd_used: 0,
        fd_limit: 0,
        fd_budget: 0,
        throttled_due_to_fd: false,
        outcomes: 0,
        throttled_due_to_resource_errors: false,
        capped_concurrency: 0,
        available_fds: 0,
        used_fds: 0,
        user_max_concurrency: 0,
        proposed_concurrency: 0,
        resource_errors: 0,
    }
}

// ---------------------------------------------------------------------------
// The rules

pub open spec fn min(a: int, b: int) -> int {
    if a <= b {
        a
    } else {
        b
    }
}

pub open spec fn max(a: int, b: int) -> int {
    if a >= b {
        a
    } else {
        b
    }
}

pub fn least(a: usize, b: usize) -> (r: usize)
    ensures
        r == min(a as int, b as int),
{
    if a <= b {
        a
    } else {
        b
    }
}

pub fn greatest(a: usize, b: usize) -> (r: usize)
    ensures
        r == max(a as int, b as int),
{
    if a >= b {
        a
    } else {
        b
    }
}

/// The file descriptors that may still be used: the free ones less the headroom, but
/// no more than the user allows and at least one.
pub open spec fn budget(cfg: ResourceGovernorConfig, used: int, limit: int) -> int {
    max(min(max(limit - used - cfg.fd_safety_headroom, 0), cfg.user_max_concurrency as int), 1)
}

/// Whether `part / whole` is at least the ratio. The share of nothing counts as zero.
pub open spec fn share_reaches(part: int, whole: int, r: Ratio) -> bool {
    if whole == 0 {
        r.numer == 0
    } else {
        part * r.denom >= r.numer * whole
    }
}

/// Whether `part / whole` is above the ratio. The share of nothing counts as zero.
pub open spec fn share_exceeds(part: int, whole: int, r: Ratio) -> bool {
    part * r.denom > r.numer * whole
}

/// The concurrency left once the share of file descriptors in use has reached the hard
/// cap: a quarter of the free ones, and at least one.
pub open spec fn after_hard_cap(capped: int, used: int, limit: int, hard: Option<Ratio>) -> int {
    match hard {
        Some(h) => if share_reaches(used, limit, h) {
            min(capped, max(max(limit - used, 0) / 4, 1))
        } else {
            capped
        },
        None => capped,
    }
}

/// `capped` times `max(1 - (share - soft) / (1 - soft), 1/4)`, rounded down.
pub open spec fn softened(capped: int, used: int, limit: int, soft: Ratio) -> int {
    if limit == 0 || soft.numer > soft.denom {
        capped
    } else if soft.numer == soft.denom || used >= limit {
        capped / 4
    } else {
        max(
            ratio::scaled(
                capped,
                (limit - used) * soft.denom,
                limit * (soft.denom - soft.numer),
            ),
            capped / 4,
        )
    }
}

/// The concurrency left once the share of file descriptors in use has reached the soft
/// cap: it falls as the share rises, to no less than a quarter, and at least one.
pub open spec fn after_soft_cap(capped: int, used: int, limit: int, soft: Option<Ratio>) -> int {
    match soft {
        Some(s) => if share_reaches(used, limit, s) {
            min(capped, max(softened(capped, used, limit, s), 1))
        } else {
            capped
        },
        None => capped,
    }
}

/// The concurrency left once resource errors are too frequent: half, and at least one.
pub open spec fn after_errors(capped: int, errors: int, outcomes: int, threshold: Ratio) -> int {
    if share_exceeds(errors, outcomes, threshold) {
        min(capped, max(capped / 2, 1))
    } else {
        capped
    }
}

/// What a governor decides on, besides its configuration.
pub struct Readings {
    /// The budget from the count in use.
    pub budget: usize,
    pub used: usize,
    pub limit: usize,
    pub errors: usize,
    pub outcomes: usize,
}

pub open spec fn first_cap(cfg: ResourceGovernorConfig, proposed: int, r: Readings) -> int {
    min(min(proposed, r.budget as int), cfg.user_max_concurrency as int)
}

pub open spec fn hard_capped(cfg: ResourceGovernorConfig, proposed: int, r: Readings) -> int {
    after_hard_cap(
        first_cap(cfg, proposed, r),
        r.used as int,
        r.limit as int,
        cfg.fd_ratio_hard_cap,
    )
}

pub open spec fn fd_capped(cfg: ResourceGovernorConfig, proposed: int, r: Readings) -> int {
    after_soft_cap(
        hard_capped(cfg, proposed, r),
        r.used as int,
        r.limit as int,
        cfg.fd_ratio_soft_cap,
    )
}

pub open spec fn error_capped(cfg: ResourceGovernorConfig, proposed: int, r: Readings) -> int {
    after_errors(
        fd_capped(cfg, proposed, r),
        r.errors as int,
        r.outcomes as int,
        cfg.resource_error_threshold,
    )
}

/// The concurrency that an enabled governor allows.
pub open spec fn allowed(cfg: ResourceGovernorConfig, proposed: int, r: Readings) -> int {
    max(error_capped(cfg, proposed, r), 1)
}

/// The snapshot that an enabled governor gives of its decision.
pub open spec fn active_snapshot(
    cfg: ResourceGovernorConfig,
    proposed: usize,
    r: Readings,
) -> GovernorSnapshot {
    GovernorSnapshot {
        active: true,
        fd_used: r.used,
        fd_limit: r.limit,
        fd_budget: r.budget,
        throttled_due_to_fd: fd_capped(cfg, proposed as int, r) < proposed,
        outcomes: r.outcomes,
        throttled_due_to_resource_errors: error_capped(cfg, proposed as int, r) < fd_capped(
            cfg,
            proposed as int,
            r,
        ),
        capped_concurrency: allowed(cfg, proposed as int, r) as usize,
        available_fds: max(r.limit - r.used, 0) as usize,
        used_fds: r.used,
        user_max_concurrency: cfg.user_max_concurrency,
        proposed_concurrency: proposed,
        resource_errors: r.errors,
    }
}

/// The snapshot that a disabled governor gives.
pub open spec fn idle_snapshot(cfg: ResourceGovernorConfig, proposed: usize) -> GovernorSnapshot {
    GovernorSnapshot {
        capped_concurrency: max(min(proposed as int, cfg.user_max_concurrency as int), 1) as usize,
        proposed_concurrency: proposed,
        user_max_concurrency: cfg.user_max_concurrency,
        ..blank_snapshot()
    }
}

/// The decision of a governor, as a function of what it reads.
pub open spec fn decision(
    cfg: ResourceGovernorConfig,
    proposed: usize,
    r: Readings,
) -> GovernorSnapshot {
    if cfg.enabled {
        active_snapshot(cfg, proposed, r)
    } else {
        idle_snapshot(cfg, proposed)
    }
}

fn reaches(part: usize, whole: usize, r: Ratio) -> (b: bool)
    ensures
        b == share_reaches(part as int, whole as int, r),
{
    if whole == 0 {
        return r.numer == 0;
    }
    proof {
        lemma_product(part as int, r.denom as int);
        lemma_product(whole as int, r.numer as int);
        assert(r.numer * whole == whole * r.numer) by (nonlinear_arith);
    }
    part as u128 * r.denom as u128 >= whole as u128 * r.numer as u128
}

proof fn lemma_product(a: int, b: int)
    requires
        0 <= a <= 0xffff_ffff_ffff_ffff,
        0 <= b <= 0xffff_ffff,
    ensures
        0 <= a * b <= 0xffff_ffff_ffff_ffff * 0xffff_ffff,
{
    assert(0 <= a * b <= 0xffff_ffff_ffff_ffff * 0xffff_ffff) by (nonlinear_arith)
        requires
            0 <= a <= 0xffff_ffff_ffff_ffff,
            0 <= b <= 0xffff_ffff,
    ;
}

fn exceeds(part: usize, whole: usize, r: Ratio) -> (b: bool)
    ensures
        b == share_exceeds(part as int, whole as int, r),
{
    proof {
        lemma_product(part as int, r.denom as int);
        lemma_product(whole as int, r.numer as int);
        assert(r.numer * whole == whole * r.numer) by (nonlinear_arith);
    }
    part as u128 * r.denom as u128 > whole as u128 * r.numer as u128
}

fn soften(capped: usize, used: usize, limit: usize, soft: Ratio) -> (r: usize)
    requires
        soft.wf(),
        share_reaches(used as int, limit as int, soft),
    ensures
        r == softened(capped as int, used as int, limit as int, soft),
{
    if limit == 0 || soft.numer > soft.denom {
        return capped;
    }
    if soft.numer == soft.denom || used >= limit {
        return capped / 4;
    }
    let free: usize = limit - used;
    let left: u32 = soft.denom - soft.numer;
    proof {
        lemma_product(free as int, soft.denom as int);
        lemma_product(limit as int, left as int);
        assert((limit - used) * soft.denom <= limit * (soft.denom - soft.numer)) by (nonlinear_arith)
            requires
                used * soft.denom >= soft.numer * limit,
        ;
        assert(limit * left > 0) by (nonlinear_arith)
            requires
                limit > 0,
                left > 0,
        ;
    }
    let a: u128 = free as u128 * soft.denom as u128;
    let b: u128 = limit as u128 * left as u128;
    let part: u64 = ratio::mul_div(capped as u64, a, b);
    greatest(part as usize, capped / 4)
}

/// The decision of a governor, as a function of what it reads.
pub fn decide(cfg: &ResourceGovernorConfig, proposed: usize, r: &Readings) -> (s: GovernorSnapshot)
    requires
        cfg.wf(),
    ensures
        s == decision(*cfg, proposed, *r),
{
    if !cfg.enabled {
        let capped: usize = greatest(least(proposed, cfg.user_max_concurrency), 1);
        return GovernorSnapshot {
            active: false,
            fd_used: 0,
            fd_limit: 0,
            fd_budget: 0,
            throttled_due_to_fd: false,
            outcomes: 0,
            throttled_due_to_resource_errors: false,
            capped_concurrency: capped,
            available_fds: 0,
            used_fds: 0,
            user_max_concurrency: cfg.user_max_concurrency,
            proposed_concurrency: proposed,
            resource_errors: 0,
        };
    }
    let free: usize = if r.limit >= r.used {
        r.limit - r.used
    } else {
        0
    };
    let mut capped: usize = least(least(proposed, r.budget), cfg.user_max_concurrency);
    let mut throttled_due_to_fd = capped < proposed;
    if let Some(hard) = cfg.fd_ratio_hard_cap {
        if reaches(r.used, r.limit, hard) {
            let reduced: usize = greatest(free / 4, 1);
            if reduced < capped {
                capped = reduced;
                throttled_due_to_fd = true;
            }
        }
    }
    assert(capped == hard_capped(*cfg, proposed as int, *r));
    if let Some(soft) = cfg.fd_ratio_soft_cap {
        if reaches(r.used, r.limit, soft) {
            let reduced: usize = greatest(soften(capped, r.used, r.limit, soft), 1);
            if reduced < capped {
                capped = reduced;
                throttled_due_to_fd = true;
            }
        }
    }
    assert(capped == fd_capped(*cfg, proposed as int, *r));
    let mut throttled_due_to_resource_errors = false;
    if exceeds(r.errors, r.outcomes, cfg.resource_error_threshold) {
        let reduced: usize = greatest(capped / 2, 1);
        if reduced < capped {
            capped = reduced;
            throttled_due_to_resource_errors = true;
        }
    }
    assert(capped == error_capped(*cfg, proposed as int, *r));
    capped = greatest(capped, 1);
    GovernorSnapshot {
        active: true,
        fd_used: r.used,
        fd_limit: r.limit,
        fd_budget: r.budget,
        throttled_due_to_fd,
        outcomes: r.outcomes,
        throttled_due_to_resource_errors,
        capped_concurrency: capped,
        available_fds: free,
        used_fds: r.used,
        user_max_concurrency: cfg.user_max_concurrency,
        proposed_concurrency: proposed,
        resource_errors: r.errors,
    }
}

// ---------------------------------------------------------------------------
// The governor

/// The number of outcomes that were resource errors.
pub open spec fn count_true(w: Seq<bool>) -> int
    decreases w.len(),
{
    if w.len() == 0 {
        0
    } else {
        count_true(w.drop_last()) + (if w.last() {
            1int
        } else {
            0
        })
    }
}

/// Counts what holds in a window.
pub fn count_in(w: &VecDeque<bool>) -> (r: usize)
    ensures
        r == count_true(w@),
        r <= w@.len(),
{
    let mut n: usize = 0;
    let mut i: usize = 0;
    while i < w.len()
        invariant
            i <= w@.len(),
            n <= i,
            n == count_true(w@.take(i as int)),
        decreases w@.len() - i,
    {
        proof {
            assert(w@.take(i + 1).drop_last() =~= w@.take(i as int));
        }
        if w[i] {
            n += 1;
        }
        i += 1;
    }
    proof {
        assert(w@.take(i as int) =~= w@);
    }
    n
}

/// The last `n` elements.
pub open spec fn last_of<T>(s: Seq<T>, n: int) -> Seq<T> {
    if s.len() > n {
        s.skip(s.len() - n)
    } else {
        s
    }
}

/// Appends to a window of the given size.
pub fn push_window(w: &mut VecDeque<bool>, x: bool, size: usize)
    requires
        size >= 1,
    ensures
        final(w)@ == last_of(old(w)@.push(x), size as int),
{
    let ghost all = w@.push(x);
    w.push_back(x);
    proof {
        assert(all.skip(0) =~= all);
    }
    while w.len() > size
        invariant
            size >= 1,
            w@.len() <= all.len(),
            w@ == all.skip(all.len() - w@.len()),
            w@.len() >= size || w@.len() == all.len(),
        decreases w@.len(),
    {
        let ghost before = w@;
        let _ = w.pop_front();
        proof {
            assert(before.skip(1) =~= all.skip(all.len() - before.len() + 1));
            assert(w@ =~= before.skip(1));
        }
    }
    proof {
        assert(w@ =~= last_of(all, size as int));
    }
}

/// Counts file descriptors and remembers outcomes, and caps concurrency by them.
pub struct ResourceGovernor<C: FdCounter> {
    pub config: ResourceGovernorConfig,
    pub fd_counter: C,
    /// The latest outcomes: whether each was a resource error.
    pub error_window: VecDeque<bool>,
    /// When file descriptors were counted last, and the count.
    pub last_sample: Option<(Duration, usize)>,
}

/// The size of the window of outcomes.
pub open spec fn window_size(cfg: ResourceGovernorConfig) -> int {
    max(cfg.resource_error_window as int, 1)
}

/// Whether the last count of file descriptors is new enough to be used again.
pub open spec fn is_recent(
    cfg: ResourceGovernorConfig,
    last: Option<(Duration, usize)>,
    now: Duration,
) -> bool {
    match last {
        Some((t, _)) => max(now.nanos - t.nanos, 0) < cfg.resource_sample_interval.nanos,
        None => false,
    }
}

/// The count in use at `now`: the last one while it is new enough, else a new one.
pub open spec fn current_sample(
    cfg: ResourceGovernorConfig,
    last: Option<(Duration, usize)>,
    now: Duration,
    counted: usize,
) -> (Duration, usize) {
    if is_recent(cfg, last, now) {
        last->0
    } else {
        (now, counted)
    }
}

impl<C: FdCounter> ResourceGovernor<C> {
    pub open spec fn wf(self) -> bool {
        &&& self.config.wf()
        &&& self.error_window@.len() <= window_size(self.config)
    }

    pub fn new(config: ResourceGovernorConfig, fd_counter: C) -> (r: Self)
        requires
            config.wf(),
        ensures
            r.wf(),
            r.config == config,
            r.fd_counter == fd_counter,
            r.error_window@ == Seq::<bool>::empty(),
            r.last_sample is None,
    {
        ResourceGovernor { config, fd_counter, error_window: VecDeque::new(), last_sample: None }
    }

    /// Tells whether the last count of file descriptors is used again.
    fn has_recent_sample(&self, now: Duration) -> (r: bool)
        ensures
            r == is_recent(self.config, self.last_sample, now),
    {
        match self.last_sample {
            Some((t, _)) => {
                let age: u128 = if now.nanos >= t.nanos {
                    now.nanos - t.nanos
                } else {
                    0
                };
                age < self.config.resource_sample_interval.nanos
            },
            None => false,
        }
    }

    /// The budget of file descriptors at a moment, given what the counter says then. The
    /// count does not matter while the last one is new enough.
    pub fn budget_from(&mut self, now: Duration, counted: usize, limit: usize) -> (r: usize)
        ensures
            final(self).config == old(self).config,
            final(self).fd_counter == old(self).fd_counter,
            final(self).error_window == old(self).error_window,
            if old(self).config.enabled {
                let s = current_sample(old(self).config, old(self).last_sample, now, counted);
                final(self).last_sample == Some(s) && r == budget(
                    old(self).config,
                    s.1 as int,
                    limit as int,
                )
            } else {
                final(self).last_sample == old(self).last_sample && r
                    == old(self).config.user_max_concurrency
            },
    {
        if !self.config.enabled {
            return self.config.user_max_concurrency;
        }
        if !self.has_recent_sample(now) {
            self.last_sample = Some((now, counted));
        }
        let used: usize = match self.last_sample {
            Some((_, v)) => v,
            None => counted,
        };
        let free: usize = limit.saturating_sub(used).saturating_sub(self.config.fd_safety_headroom);
        greatest(least(free, self.config.user_max_concurrency), 1)
    }

    /// Asks the counter, unless the last count is new enough.
    fn count_now(&self, now: Duration) -> (r: usize)
        ensures
            is_counted(self.fd_counter, self.config, self.last_sample, now, r),
    {
        if self.has_recent_sample(now) {
            0
        } else {
            self.fd_counter.open_fd_count()
        }
    }

    /// The budget of file descriptors, from what the counter says at the moment.
    pub fn fd_budget(&mut self, now: Duration) -> (r: usize)
        ensures
            final(self).config == old(self).config,
            final(self).fd_counter == old(self).fd_counter,
            final(self).error_window == old(self).error_window,
            !old(self).config.enabled ==> r == old(self).config.user_max_concurrency
                && final(self).last_sample == old(self).last_sample,
            old(self).config.enabled ==> 1 <= r <= max(
                old(self).config.user_max_concurrency as int,
                1,
            ),
            old(self).config.enabled ==> exists|counted: usize, limit: usize|
                is_counted(
                    old(self).fd_counter,
                    old(self).config,
                    old(self).last_sample,
                    now,
                    counted,
                ) && is_limit(old(self).fd_counter, limit) && (final(self).last_sample, r as int)
                    == #[trigger] budget_at(
                    old(self).config,
                    old(self).last_sample,
                    now,
                    counted,
                    limit,
                ),
    {
        if !self.config.enabled {
            return self.config.user_max_concurrency;
        }
        let limit: usize = self.fd_counter.fd_limit();
        let counted: usize = self.count_now(now);
        let r: usize = self.budget_from(now, counted, limit);
        proof {
            assert((self.last_sample, r as int) == budget_at(
                old(self).config,
                old(self).last_sample,
                now,
                counted,
                limit,
            ));
        }
        r
    }

    /// Remembers whether an outcome was a resource error.
    pub fn record_outcome(&mut self, is_resource_error: bool)
        requires
            old(self).wf(),
        ensures
            final(self).wf(),
            final(self).config == old(self).config,
            final(self).fd_counter == old(self).fd_counter,
            final(self).last_sample == old(self).last_sample,
            final(self).error_window@ == (if old(self).config.enabled {
                last_of(old(self).error_window@.push(is_resource_error), window_size(old(self).config))
            } else {
                old(self).error_window@
            }),
    {
        if !self.config.enabled {
            return;
        }
        let size: usize = greatest(self.config.resource_error_window, 1);
        push_window(&mut self.error_window, is_resource_error, size);
    }

    /// The resource errors among the remembered outcomes, and the number of these.
    pub fn resource_error_ratio(&self) -> (r: (usize, usize))
        ensures
            r.0 == count_true(self.error_window@),
            r.1 == self.error_window@.len(),
            r.0 <= r.1,
    {
        (count_in(&self.error_window), self.error_window.len())
    }

    /// Caps a proposed concurrency, given what the counter answers.
    pub fn cap_from(&mut self, proposed: usize, now: Duration, a: &Answers) -> (r: (
        usize,
        GovernorSnapshot,
    ))
        requires
            old(self).wf(),
        ensures
            final(self).wf(),
            final(self).config == old(self).config,
            final(self).fd_counter == old(self).fd_counter,
            final(self).error_window == old(self).error_window,
            final(self).last_sample == sample_after(
                old(self).config,
                old(self).last_sample,
                now,
                a.counted,
            ),
            r.1 == decision(old(self).config, proposed, readings_at(*old(self), now, *a)),
            r.0 == r.1.capped_concurrency,
            1 <= r.0 <= max(min(proposed as int, old(self).config.user_max_concurrency as int), 1),
    {
        let fd_budget: usize = self.budget_from(now, a.counted, a.budget_limit);
        let (errors, outcomes) = self.resource_error_ratio();
        let readings = Readings {
            budget: fd_budget,
            used: a.used,
            limit: a.limit,
            errors,
            outcomes,
        };
        let config = self.config;
        let s = decide(&config, proposed, &readings);
        proof {
            lemma_decision_bounds(config, proposed, readings);
        }
        (s.capped_concurrency, s)
    }

    /// Caps a proposed concurrency, by what the counter answers at the moment: once for the
    /// budget and once for the share in use. A disabled governor does not ask it.
    pub fn cap_concurrency(&mut self, proposed: usize, now: Duration) -> (r: (
        usize,
        GovernorSnapshot,
    ))
        requires
            old(self).wf(),
        ensures
            final(self).wf(),
            final(self).config == old(self).config,
            final(self).fd_counter == old(self).fd_counter,
            final(self).error_window == old(self).error_window,
            1 <= r.0 <= max(min(proposed as int, old(self).config.user_max_concurrency as int), 1),
            r.0 == r.1.capped_concurrency,
            !old(self).config.enabled ==> r.1 == idle_snapshot(old(self).config, proposed)
                && final(self).last_sample == old(self).last_sample,
            old(self).config.enabled ==> exists|a: Answers|
                #[trigger] may_answer(
                    old(self).fd_counter,
                    old(self).config,
                    old(self).last_sample,
                    now,
                    a,
                ) && r.1 == decision(old(self).config, proposed, readings_at(*old(self), now, a))
                    && final(self).last_sample == sample_after(
                    old(self).config,
                    old(self).last_sample,
                    now,
                    a.counted,
                ),
    {
        if !self.config.enabled {
            let nothing = Answers { counted: 0, budget_limit: 0, used: 0, limit: 0 };
            return self.cap_from(proposed, now, &nothing);
        }
        let budget_limit: usize = self.fd_counter.fd_limit();
        let counted: usize = self.count_now(now);
        let used: usize = self.fd_counter.open_fd_count();
        let limit: usize = self.fd_counter.fd_limit();
        let a = Answers { counted, budget_limit, used, limit };
        proof {
            assert(may_answer(self.fd_counter, self.config, self.last_sample, now, a));
        }
        self.cap_from(proposed, now, &a)
    }
}

/// What a counter answers: the count and the limit for the budget, then those for the share
/// in use.
pub struct Answers {
    pub counted: usize,
    pub budget_limit: usize,
    pub used: usize,
    pub limit: usize,
}

/// Whether a counter may say that so many file descriptors are open.
pub open spec fn is_count<C: FdCounter>(counter: C, n: usize) -> bool {
    call_ensures(C::open_fd_count, (&counter,), n)
}

/// Whether a counter may say that this is the limit of file descriptors.
pub open spec fn is_limit<C: FdCounter>(counter: C, n: usize) -> bool {
    call_ensures(C::fd_limit, (&counter,), n)
}

/// Whether this is a count for the budget: any number while the last count is new enough,
/// else what the counter says.
pub open spec fn is_counted<C: FdCounter>(
    counter: C,
    cfg: ResourceGovernorConfig,
    last: Option<(Duration, usize)>,
    now: Duration,
    n: usize,
) -> bool {
    is_recent(cfg, last, now) || is_count(counter, n)
}

/// Whether a counter may answer so.
pub open spec fn may_answer<C: FdCounter>(
    counter: C,
    cfg: ResourceGovernorConfig,
    last: Option<(Duration, usize)>,
    now: Duration,
    a: Answers,
) -> bool {
    &&& is_counted(counter, cfg, last, now, a.counted)
    &&& is_limit(counter, a.budget_limit)
    &&& is_count(counter, a.used)
    &&& is_limit(counter, a.limit)
}

/// The count that a governor remembers after it was asked.
pub open spec fn sample_after(
    cfg: ResourceGovernorConfig,
    last: Option<(Duration, usize)>,
    now: Duration,
    counted: usize,
) -> Option<(Duration, usize)> {
    if cfg.enabled {
        Some(current_sample(cfg, last, now, counted))
    } else {
        last
    }
}

/// The count in use, and the budget from it, when the counter says so.
pub open spec fn budget_at(
    cfg: ResourceGovernorConfig,
    last: Option<(Duration, usize)>,
    now: Duration,
    counted: usize,
    limit: usize,
) -> (Option<(Duration, usize)>, int) {
    let s = current_sample(cfg, last, now, counted);
    (Some(s), budget(cfg, s.1 as int, limit as int))
}

/// What a governor decides on when it remembers the given count and outcomes and the
/// counter answers so.
pub open spec fn readings_of(
    cfg: ResourceGovernorConfig,
    last: Option<(Duration, usize)>,
    window: Seq<bool>,
    now: Duration,
    a: Answers,
) -> Readings {
    Readings {
        budget: if cfg.enabled {
            budget(
                cfg,
                current_sample(cfg, last, now, a.counted).1 as int,
                a.budget_limit as int,
            ) as usize
        } else {
            cfg.user_max_concurrency
        },
        used: a.used,
        limit: a.limit,
        errors: count_true(window) as usize,
        outcomes: window.len() as usize,
    }
}

/// What a governor decides on when the counter answers so.
pub open spec fn readings_at<C: FdCounter>(
    g: ResourceGovernor<C>,
    now: Duration,
    a: Answers,
) -> Readings {
    readings_of(g.config, g.last_sample, g.error_window@, now, a)
}

proof fn lemma_decision_bounds(cfg: ResourceGovernorConfig, proposed: usize, r: Readings)
    ensures
        1 <= decision(cfg, proposed, r).capped_concurrency <= max(
            min(proposed as int, cfg.user_max_concurrency as int),
            1,
        ),
{
}

/// Whatever a governor reads, it allows at least one probe, and no more than was
/// proposed or the user allows.
pub proof fn law_cap_bounds(cfg: ResourceGovernorConfig, proposed: usize, r: Readings)
    ensures
        1 <= decision(cfg, proposed, r).capped_concurrency,
        decision(cfg, proposed, r).capped_concurrency <= max(proposed as int, 1),
        decision(cfg, proposed, r).capped_concurrency <= max(cfg.user_max_concurrency as int, 1),
        cfg.enabled ==> decision(cfg, proposed, r).capped_concurrency <= max(r.budget as int, 1),
{
}

/// The cap of an enabled governor falls below what was proposed only where the snapshot
/// tells why.
pub proof fn law_cap_is_explained(cfg: ResourceGovernorConfig, proposed: usize, r: Readings)
    requires
        cfg.enabled,
        proposed >= 1,
    ensures
        decision(cfg, proposed, r).capped_concurrency < proposed ==> decision(
            cfg,
            proposed,
            r,
        ).throttled_due_to_fd || decision(cfg, proposed, r).throttled_due_to_resource_errors,
        !decision(cfg, proposed, r).throttled_due_to_fd && !decision(
            cfg,
            proposed,
            r,
        ).throttled_due_to_resource_errors ==> decision(cfg, proposed, r).capped_concurrency
            == proposed,
{
}

proof fn lemma_reaches_rises(low: int, high: int, whole: int, r: Ratio)
    requires
        low <= high,
        share_reaches(low, whole, r),
    ensures
        share_reaches(high, whole, r),
{
    assert(low * r.denom <= high * r.denom) by (nonlinear_arith)
        requires
            low <= high,
            r.denom >= 0,
    ;
}

proof fn lemma_scaled_falls(c_low: int, c_high: int, a_low: int, a_high: int, b: int)
    requires
        0 <= c_high <= c_low,
        0 <= a_high <= a_low,
        b > 0,
    ensures
        ratio::scaled(c_high, a_high, b) <= ratio::scaled(c_low, a_low, b),
{
    assert(c_high * a_high <= c_low * a_low) by (nonlinear_arith)
        requires
            0 <= c_high <= c_low,
            0 <= a_high <= a_low,
    ;
    vstd::arithmetic::div_mod::lemma_div_is_ordered(c_high * a_high, c_low * a_low, b);
}

proof fn lemma_softened_falls(
    c_low: int,
    c_high: int,
    low: int,
    high: int,
    limit: int,
    soft: Ratio,
)
    requires
        0 <= c_high <= c_low,
        0 <= low <= high,
        limit >= 0,
    ensures
        softened(c_high, high, limit, soft) <= softened(c_low, low, limit, soft),
{
    if limit > 0 && soft.numer < soft.denom && high < limit {
        let a_low = (limit - low) * soft.denom;
        let a_high = (limit - high) * soft.denom;
        let b = limit * (soft.denom - soft.numer);
        assert(0 <= a_high <= a_low) by (nonlinear_arith)
            requires
                low <= high < limit,
                soft.denom >= 0,
                a_low == (limit - low) * soft.denom,
                a_high == (limit - high) * soft.denom,
        ;
        assert(b > 0) by (nonlinear_arith)
            requires
                limit > 0,
                soft.numer < soft.denom,
                b == limit * (soft.denom - soft.numer),
        ;
        lemma_scaled_falls(c_low, c_high, a_low, a_high, b);
    }
}

/// The cap does not rise when more file descriptors are in use, or the budget of them gets
/// smaller, or less is proposed; so it does not fall when they are free again.
pub proof fn law_cap_follows_use(
    cfg: ResourceGovernorConfig,
    more: usize,
    less: usize,
    low: Readings,
    high: Readings,
)
    requires
        less <= more,
        low.limit == high.limit,
        low.used <= high.used,
        high.budget <= low.budget,
        low.errors == high.errors,
        low.outcomes == high.outcomes,
    ensures
        decision(cfg, less, high).capped_concurrency <= decision(cfg, more, low).capped_concurrency,
{
    let h_low = hard_capped(cfg, more as int, low);
    let h_high = hard_capped(cfg, less as int, high);
    if let Some(h) = cfg.fd_ratio_hard_cap {
        if share_reaches(low.used as int, low.limit as int, h) {
            lemma_reaches_rises(low.used as int, high.used as int, low.limit as int, h);
        }
    }
    assert(0 <= h_high <= h_low);
    if let Some(s) = cfg.fd_ratio_soft_cap {
        if share_reaches(low.used as int, low.limit as int, s) {
            lemma_reaches_rises(low.used as int, high.used as int, low.limit as int, s);
            lemma_softened_falls(
                h_low,
                h_high,
                low.used as int,
                high.used as int,
                low.limit as int,
                s,
            );
        }
    }
    assert(fd_capped(cfg, less as int, high) <= fd_capped(cfg, more as int, low));
}

/// The budget does not rise when more file descriptors are in use, nor when the limit of
/// them is lowered.
pub proof fn law_budget_follows_use(
    cfg: ResourceGovernorConfig,
    low: usize,
    high: usize,
    wide: usize,
    narrow: usize,
)
    requires
        low <= high,
        narrow <= wide,
    ensures
        budget(cfg, high as int, narrow as int) <= budget(cfg, low as int, wide as int),
{
}

/// What was proposed is allowed where the budget and the user allow it, no cap on the file
/// descriptors in use is reached, and resource errors are not too frequent.
pub proof fn law_idle_system_caps_nothing(cfg: ResourceGovernorConfig, proposed: usize, r: Readings)
    requires
        1 <= proposed <= cfg.user_max_concurrency,
        proposed <= r.budget,
        cfg.fd_ratio_hard_cap matches Some(h) ==> !share_reaches(r.used as int, r.limit as int, h),
        cfg.fd_ratio_soft_cap matches Some(s) ==> !share_reaches(r.used as int, r.limit as int, s),
        !share_exceeds(r.errors as int, r.outcomes as int, cfg.resource_error_threshold),
    ensures
        decision(cfg, proposed, r).capped_concurrency == proposed,
        !decision(cfg, proposed, r).throttled_due_to_fd,
        !decision(cfg, proposed, r).throttled_due_to_resource_errors,
{
}

/// What holds in a window is counted one by one.
pub proof fn law_count(a: Seq<bool>, b: Seq<bool>)
    ensures
        count_true(a + b) == count_true(a) + count_true(b),
        count_true(seq![true]) == 1,
        count_true(seq![false]) == 0,
        count_true(Seq::empty()) == 0,
        0 <= count_true(a) <= a.len(),
    decreases b.len(), a.len(),
{
    let none = Seq::<bool>::empty();
    assert(seq![true].drop_last() =~= none && seq![false].drop_last() =~= none);
    assert(count_true(none) == 0);
    if b.len() == 0 {
        assert(a + b =~= a);
        if a.len() > 0 {
            law_count(a.drop_last(), none);
        }
    } else {
        assert((a + b).drop_last() =~= a + b.drop_last());
        law_count(a, b.drop_last());
    }
}

/// A failure that becomes a success raises the count by one.
pub proof fn law_count_of_update(w: Seq<bool>, i: int)
    requires
        0 <= i < w.len(),
        !w[i],
    ensures
        count_true(w.update(i, true)) == count_true(w) + 1,
{
    let (a, b) = (w.take(i), w.skip(i + 1));
    assert(w =~= a + (seq![false] + b));
    assert(w.update(i, true) =~= a + (seq![true] + b));
    law_count(a, seq![false] + b);
    law_count(a, seq![true] + b);
    law_count(seq![false], b);
    law_count(seq![true], b);
}

/// A window holds the latest elements: all of them while there is room, and else as many of the
/// last ones as there is room for, in their order.
pub proof fn law_window<T>(s: Seq<T>, n: int)
    requires
        n >= 0,
    ensures
        s.len() <= n ==> last_of(s, n) == s,
        s.len() > n ==> last_of(s, n).len() == n,
        s.len() > n ==> forall|i: int|
            0 <= i < n ==> #[trigger] last_of(s, n)[i] == s[s.len() - n + i],
{
}

/// The budget is what is free beyond the headroom, but no more than the user allows, and at
/// least one.
pub proof fn law_budget_is_what_is_free(cfg: ResourceGovernorConfig, used: usize, limit: usize)
    ensures
        ({
            let free = limit - used - cfg.fd_safety_headroom;
            let b = budget(cfg, used as int, limit as int);
            &&& 1 <= free <= cfg.user_max_concurrency ==> b == free
            &&& free < 1 ==> b == 1
            &&& free > cfg.user_max_concurrency >= 1 ==> b == cfg.user_max_concurrency
            &&& cfg.user_max_concurrency == 0 ==> b == 1
        }),
{
}

/// Too many resource errors halve what would be allowed without them, down to one; few enough
/// change nothing.
pub proof fn law_errors_halve(
    cfg: ResourceGovernorConfig,
    proposed: usize,
    bad: Readings,
    good: Readings,
)
    requires
        cfg.enabled,
        good == (Readings { errors: 0, outcomes: 0, ..bad }),
    ensures
        ({
            let r = cfg.resource_error_threshold;
            let calm = decision(cfg, proposed, good).capped_concurrency;
            let cap = decision(cfg, proposed, bad).capped_concurrency;
            &&& bad.errors * r.denom > r.numer * bad.outcomes ==> cap == (if calm >= 2 {
                calm as int / 2
            } else {
                1
            })
            &&& bad.errors * r.denom <= r.numer * bad.outcomes ==> cap == calm && !decision(
                cfg,
                proposed,
                bad,
            ).throttled_due_to_resource_errors
        }),
{
    assert(0 * cfg.resource_error_threshold.denom == 0) by (nonlinear_arith);
    assert(cfg.resource_error_threshold.numer * 0 == 0) by (nonlinear_arith);
}

/// Where the share of file descriptors in use has reached the hard cap, no more than a quarter
/// of the free ones is allowed, but always one; short of it the hard cap changes nothing.
pub proof fn law_hard_cap_quarters_what_is_free(
    cfg: ResourceGovernorConfig,
    hard: Ratio,
    proposed: usize,
    r: Readings,
)
    requires
        cfg.enabled,
        cfg.fd_ratio_hard_cap == Some(hard),
        cfg.fd_ratio_soft_cap is None,
        r.errors * cfg.resource_error_threshold.denom <= cfg.resource_error_threshold.numer
            * r.outcomes,
        1 <= proposed,
        1 <= r.budget,
        1 <= cfg.user_max_concurrency,
        r.limit > 0,
    ensures
        ({
            let open = min(
                min(proposed as int, r.budget as int),
                cfg.user_max_concurrency as int,
            );
            let free = if r.limit > r.used {
                r.limit - r.used
            } else {
                0
            };
            let cap = decision(cfg, proposed, r).capped_concurrency;
            &&& r.used * hard.denom >= hard.numer * r.limit ==> {
                &&& cap <= open
                &&& cap == 1 || 4 * cap <= free
                &&& cap == open || 4 * (cap + 1) > free
            }
            &&& r.used * hard.denom < hard.numer * r.limit ==> cap == open
        }),
{
}

/// Where the share of file descriptors in use has reached the soft cap, what is allowed falls in
/// proportion to what is left up to full use, to no less than a quarter, and always one; short
/// of it the soft cap changes nothing.
pub proof fn law_soft_cap_falls_in_proportion(
    cfg: ResourceGovernorConfig,
    soft: Ratio,
    proposed: usize,
    r: Readings,
)
    requires
        cfg.enabled,
        cfg.fd_ratio_hard_cap is None,
        cfg.fd_ratio_soft_cap == Some(soft),
        soft.numer < soft.denom,
        r.errors * cfg.resource_error_threshold.denom <= cfg.resource_error_threshold.numer
            * r.outcomes,
        1 <= proposed,
        1 <= r.budget,
        1 <= cfg.user_max_concurrency,
        r.used < r.limit,
    ensures
        ({
            let open = min(
                min(proposed as int, r.budget as int),
                cfg.user_max_concurrency as int,
            );
            let left = (r.limit - r.used) * soft.denom;
            let whole = r.limit * (soft.denom - soft.numer);
            let cap = decision(cfg, proposed, r).capped_concurrency;
            &&& r.used * soft.denom >= soft.numer * r.limit ==> {
                &&& cap <= open
                &&& 4 * (cap + 1) > open
                &&& cap == 1 || cap == open / 4 || cap * whole <= open * left
                &&& cap == open || (cap + 1) * whole > open * left
            }
            &&& r.used * soft.denom < soft.numer * r.limit ==> cap == open
        }),
{
    let open = min(min(proposed as int, r.budget as int), cfg.user_max_concurrency as int);
    let left = (r.limit - r.used) * soft.denom;
    let whole = r.limit * (soft.denom - soft.numer);
    assert(whole > 0) by (nonlinear_arith)
        requires
            whole == r.limit * (soft.denom - soft.numer),
            r.limit > 0,
            soft.numer < soft.denom,
    ;
    let q = ratio::scaled(open, left, whole);
    let p = open * left;
    assert(q == p / whole);
    assert(q * whole <= p < (q + 1) * whole) by (nonlinear_arith)
        requires
            q == p / whole,
            whole > 0,
    ;
    let cap = decision(cfg, proposed, r).capped_concurrency as int;
    if cap < open {
        assert(r.used * soft.denom >= soft.numer * r.limit ==> cap >= q);
        assert((cap + 1) * whole >= (q + 1) * whole || cap < q) by (nonlinear_arith)
            requires
                whole > 0,
        ;
    }
    assert(cap * whole <= q * whole || cap > q) by (nonlinear_arith)
        requires
            whole > 0,
    ;
}

/// A governor that is switched off allows what was proposed, up to what the user allows.
pub proof fn law_idle_governor(cfg: ResourceGovernorConfig, proposed: usize, r: Readings)
    requires
        !cfg.enabled,
    ensures
        ({
            let d = decision(cfg, proposed, r);
            &&& 1 <= proposed <= cfg.user_max_concurrency ==> d.capped_concurrency == proposed
            &&& proposed > cfg.user_max_concurrency >= 1 ==> d.capped_concurrency
                == cfg.user_max_concurrency
            &&& proposed == 0 || cfg.user_max_concurrency == 0 ==> d.capped_concurrency == 1
            &&& !d.active && !d.throttled_due_to_fd && !d.throttled_due_to_resource_errors
        }),
{
}

/// The snapshot of an enabled governor tells what it read and what was proposed; it tells of
/// file descriptors exactly where they, the budget or the user's limit held back what was
/// proposed.
pub proof fn law_snapshot_tells_readings(cfg: ResourceGovernorConfig, proposed: usize, r: Readings)
    requires
        cfg.enabled,
    ensures
        ({
            let d = decision(cfg, proposed, r);
            let calm = decision(cfg, proposed, Readings { errors: 0, outcomes: 0, ..r });
            &&& d.active
            &&& d.fd_used == r.used && d.used_fds == r.used
            &&& d.fd_limit == r.limit
            &&& d.fd_budget == r.budget
            &&& d.outcomes == r.outcomes && d.resource_errors == r.errors
            &&& d.proposed_concurrency == proposed
            &&& d.user_max_concurrency == cfg.user_max_concurrency
            &&& r.used <= r.limit ==> d.available_fds == r.limit - r.used
            &&& r.used > r.limit ==> d.available_fds == 0
            &&& d.throttled_due_to_fd <==> calm.throttled_due_to_fd
            &&& proposed >= 1 && r.budget >= 1 && cfg.user_max_concurrency >= 1 ==> (
            d.throttled_due_to_fd <==> calm.capped_concurrency < proposed)
        }),
{
    assert(0 * cfg.resource_error_threshold.denom == 0) by (nonlinear_arith);
    assert(cfg.resource_error_threshold.numer * 0 == 0) by (nonlinear_arith);
}

/// What a governor decides on: the errors among the outcomes it remembers, what the counter says
/// of use and limit, and the budget from the count. A count is used again for as long as the
/// interval says, and no longer.
pub proof fn law_readings(
    cfg: ResourceGovernorConfig,
    t: Duration,
    n: usize,
    window: Seq<bool>,
    now: Duration,
    a: Answers,
)
    requires
        cfg.enabled,
        window.len() <= usize::MAX,
    ensures
        ({
            let r = readings_of(cfg, Some((t, n)), window, now, a);
            let fresh = readings_of(cfg, None, window, now, a);
            &&& r.used == a.used && r.limit == a.limit
            &&& r.errors == count_true(window) && r.outcomes == window.len()
            &&& fresh.budget == budget(cfg, a.counted as int, a.budget_limit as int)
            &&& t.nanos <= now.nanos < t.nanos + cfg.resource_sample_interval.nanos ==> r.budget
                == budget(cfg, n as int, a.budget_limit as int) && sample_after(
                cfg,
                Some((t, n)),
                now,
                a.counted,
            ) == Some((t, n))
            &&& now.nanos >= t.nanos + cfg.resource_sample_interval.nanos ==> r.budget
                == fresh.budget && sample_after(cfg, Some((t, n)), now, a.counted) == Some(
                (now, a.counted),
            )
        }),
{
    law_count(window, Seq::empty());
}

// ---------------------------------------------------------------------------
// Resource errors

/// The operating system's error numbers that tell of missing resources.
pub open spec fn is_resource_os(code: i32) -> bool {
    code == 24 || code == 23 || code == 104 || code == 98 || code == 99 || code == 107
}

pub open spec fn is_resource_kind(kind: ErrorKind) -> bool {
    match kind {
        ErrorKind::WouldBlock => true,
        ErrorKind::AddrNotAvailable => true,
        ErrorKind::BrokenPipe => true,
        ErrorKind::OutOfMemory => true,
        _ => false,
    }
}

pub open spec fn is_resource_io(e: IoError) -> bool {
    is_resource_kind(e.kind) || is_resource_os(error::os_code(e))
}

/// Whether an error tells of missing resources.
pub open spec fn is_resource_error(err: DetectorError) -> bool
    decreases err,
{
    match err {
        DetectorError::Network(e) => {
            !e.is_timeout && {
                ||| (e.is_connect || e.is_request) && exists|i: int|
                    0 <= i < e.io_causes@.len() && is_resource_io(#[trigger] e.io_causes@[i])
                ||| text::contains(e.message@, "Too many open files"@)
                ||| text::contains(e.message@, "EMFILE"@)
                ||| text::contains(e.message@, "ENFILE"@)
                ||| text::contains(e.message@, "connection reset"@)
                ||| text::contains(e.message@, "broken pipe"@)
            }
        },
        DetectorError::NetworkIo(e) => is_resource_io(e),
        DetectorError::Http(m) => {
            ||| text::contains(m@, "Too many open files"@)
            ||| text::contains(m@, "EMFILE"@)
            ||| text::contains(m@, "ENFILE"@)
            ||| text::contains(m@, "timed out"@)
            ||| text::contains(m@, "semaphore closed"@)
        },
        DetectorError::Tls(m) => {
            ||| text::contains(m@, "open files"@)
            ||| text::contains(m@, "EMFILE"@)
            ||| text::contains(m@, "connection reset"@)
            ||| text::contains(m@, "timed out"@)
        },
        DetectorError::Io(e) => is_resource_io(e),
        DetectorError::RetriesExceeded { source, .. } => is_resource_error(*source),
        _ => false,
    }
}

pub fn matches_os_resource(code: i32) -> (r: bool)
    ensures
        r == is_resource_os(code),
{
    code == 24 || code == 23 || code == 104 || code == 98 || code == 99 || code == 107
}

pub fn matches_io_resource_kind(e: &IoError) -> (r: bool)
    ensures
        r == is_resource_io(*e),
{
    let kind = match e.kind {
        ErrorKind::WouldBlock => true,
        ErrorKind::AddrNotAvailable => true,
        ErrorKind::BrokenPipe => true,
        ErrorKind::OutOfMemory => true,
        _ => false,
    };
    let code: i32 = match e.raw_os_error {
        Some(c) => c,
        None => 0,
    };
    kind || matches_os_resource(code)
}

fn any_resource(causes: &Vec<IoError>) -> (r: bool)
    ensures
        r == (exists|i: int| 0 <= i < causes@.len() && is_resource_io(#[trigger] causes@[i])),
{
    let mut i: usize = 0;
    while i < causes.len()
        invariant
            i <= causes@.len(),
            forall|j: int| 0 <= j < i ==> !is_resource_io(#[trigger] causes@[j]),
        decreases causes@.len() - i,
    {
        if matches_io_resource_kind(&causes[i]) {
            return true;
        }
        i += 1;
    }
    false
}

/// Whether an error tells of missing resources.
pub fn classify_resource_error(err: &DetectorError) -> (r: bool)
    ensures
        r == is_resource_error(*err),
    decreases err,
{
    match err {
        DetectorError::Network(e) => {
            if e.is_timeout {
                return false;
            }
            if (e.is_connect || e.is_request) && any_resource(&e.io_causes) {
                return true;
            }
            let m = e.message.as_str();
            text::str_contains(m, "Too many open files") || text::str_contains(m, "EMFILE")
                || text::str_contains(m, "ENFILE") || text::str_contains(m, "connection reset")
                || text::str_contains(m, "broken pipe")
        },
        DetectorError::NetworkIo(e) => matches_io_resource_kind(e),
        DetectorError::Http(m) => {
            let m = m.as_str();
            text::str_contains(m, "Too many open files") || text::str_contains(m, "EMFILE")
                || text::str_contains(m, "ENFILE") || text::str_contains(m, "timed out")
                || text::str_contains(m, "semaphore closed")
        },
        DetectorError::Tls(m) => {
            let m = m.as_str();
            text::str_contains(m, "open files") || text::str_contains(m, "EMFILE")
                || text::str_contains(m, "connection reset") || text::str_contains(m, "timed out")
        },
        DetectorError::Io(e) => matches_io_resource_kind(e),
        DetectorError::RetriesExceeded { source, .. } => classify_resource_error(source),
        _ => false,
    }
}

/// Which errors tell of missing resources. Those of input and output do by their kind or by the
/// number of the operating system; those of HTTP and TLS by what their message names; those of
/// the network by their message, or by a cause where they came up on the way to the server, but
/// never where they are time-outs; and those of attempts that were given up as the last of them
/// does.
pub proof fn law_resource_errors(
    e: DetectorError,
    io: IoError,
    m: String,
    network: error::NetworkError,
    source: Box<DetectorError>,
    attempts: usize,
)
    ensures
        is_resource_error(DetectorError::Io(io)) <==> is_resource_error(
            DetectorError::NetworkIo(io),
        ),
        is_resource_error(DetectorError::Io(io)) <==> (io.kind is WouldBlock || io.kind
            is AddrNotAvailable || io.kind is BrokenPipe || io.kind is OutOfMemory
            || io.raw_os_error == Some(24i32) || io.raw_os_error == Some(23i32) || io.raw_os_error
            == Some(104i32) || io.raw_os_error == Some(98i32) || io.raw_os_error == Some(99i32)
            || io.raw_os_error == Some(107i32)),
        is_resource_error(DetectorError::Http(m)) <==> (text::contains(
            m@,
            "Too many open files"@,
        ) || text::contains(m@, "EMFILE"@) || text::contains(m@, "ENFILE"@) || text::contains(
            m@,
            "timed out"@,
        ) || text::contains(m@, "semaphore closed"@)),
        is_resource_error(DetectorError::Tls(m)) <==> (text::contains(m@, "open files"@)
            || text::contains(m@, "EMFILE"@) || text::contains(m@, "connection reset"@)
            || text::contains(m@, "timed out"@)),
        network.is_timeout ==> !is_resource_error(DetectorError::Network(network)),
        !network.is_timeout ==> (is_resource_error(DetectorError::Network(network)) <==> ((
        network.is_connect || network.is_request) && exists|i: int|
            0 <= i < network.io_causes@.len() && is_resource_error(
                DetectorError::Io(#[trigger] network.io_causes@[i]),
            )) || text::contains(network.message@, "Too many open files"@) || text::contains(
            network.message@,
            "EMFILE"@,
        ) || text::contains(network.message@, "ENFILE"@) || text::contains(
            network.message@,
            "connection reset"@,
        ) || text::contains(network.message@, "broken pipe"@)),
        is_resource_error(DetectorError::RetriesExceeded { source, attempts })
            <==> is_resource_error(*source),
        e is InvalidTarget || e is InvalidIp || e is InvalidPort || e is DataSource || e is Json || e is Csv
            ==> !is_resource_error(e),
{
    assert forall|i: int| 0 <= i < network.io_causes@.len() implies (is_resource_io(
        #[trigger] network.io_causes@[i],
    ) <==> is_resource_error(DetectorError::Io(network.io_causes@[i]))) by {}
}

/// By default the governor works, keeps 32 descriptors free, and takes a tenth of resource errors
/// among fifty outcomes for too many; it eases off from four fifths of the descriptors on, and
/// falls back hard only above nine tenths.
pub proof fn law_defaults()
    ensures
        ({
            let c = default_config();
            &&& c.enabled
            &&& c.fd_safety_headroom == 32
            &&& c.resource_error_threshold.numer * 10 == c.resource_error_threshold.denom
            &&& c.resource_error_window == 50
            &&& c.resource_sample_interval.nanos * 4 == 1_000_000_000
            &&& c.user_max_concurrency == 256
            &&& c.fd_ratio_hard_cap matches Some(h) && h.numer * 100 == h.denom * 92 && h.denom > 0
            &&& c.fd_ratio_soft_cap matches Some(s) && s.numer * 5 == s.denom * 4 && s.denom > 0
            &&& c.resource_error_threshold.denom > 0
        }),
{
}

/// Before anything was measured, a snapshot tells of nothing.
pub proof fn law_blank_snapshot()
    ensures
        ({
            let s = blank_snapshot();
            &&& !s.active && !s.throttled_due_to_fd && !s.throttled_due_to_resource_errors
            &&& s.fd_used + s.fd_limit + s.fd_budget + s.outcomes + s.capped_concurrency
                + s.available_fds + s.used_fds + s.user_max_concurrency + s.proposed_concurrency
                + s.resource_errors == 0
        }),
{
}

/// The window holds as many outcomes as is set, but at least one.
pub proof fn law_window_size(cfg: ResourceGovernorConfig)
    ensures
        cfg.resource_error_window > 0 ==> window_size(cfg) == cfg.resource_error_window,
        cfg.resource_error_window == 0 ==> window_size(cfg) == 1,
{
}

/// The lesser and the greater of two numbers are those numbers, in order.
pub proof fn law_lesser_and_greater(a: int, b: int)
    ensures
        min(a, b) <= a && min(a, b) <= b && a <= max(a, b) && b <= max(a, b),
        min(a, b) + max(a, b) == a + b,
{
}

/// What a counter answers is what it counts at the time: its limits always, and its count too,
/// but that a count of a moment ago, where there is a recent one, may stand for it.
pub proof fn law_answers<C: FdCounter>(
    counter: C,
    cfg: ResourceGovernorConfig,
    last: Option<(Duration, usize)>,
    now: Duration,
    a: Answers,
)
    requires
        may_answer(counter, cfg, last, now, a),
    ensures
        is_count(counter, a.used),
        is_limit(counter, a.limit),
        is_limit(counter, a.budget_limit),
        last is None ==> is_count(counter, a.counted),
        last matches Some((t, _)) ==> now.nanos >= t.nanos + cfg.resource_sample_interval.nanos
            ==> is_count(counter, a.counted),
{
}

/// At full use, and where the soft cap is full use, a quarter is left; where the cap is beyond full
/// use, or nothing is known of the limit, all of it.
pub proof fn law_full_use(capped: int, used: int, limit: int, soft: Ratio)
    requires
        0 <= capped,
        0 <= limit,
    ensures
        limit > 0 && soft.numer <= soft.denom && used >= limit ==> softened(
            capped,
            used,
            limit,
            soft,
        ) * 4 <= capped < (softened(capped, used, limit, soft) + 1) * 4,
        limit > 0 && soft.numer == soft.denom ==> softened(capped, used, limit, soft) * 4 <= capped
            < (softened(capped, used, limit, soft) + 1) * 4,
        limit == 0 || soft.numer > soft.denom ==> softened(capped, used, limit, soft) == capped,
        softened(capped, used, limit, soft) >= capped / 4,
{
}

/// A share that reaches a ratio still does where more is in use; all of something reaches every
/// ratio up to one, and nothing at all only that of zero.
pub proof fn law_share(part: int, more: int, whole: int, r: Ratio)
    requires
        0 <= part <= more,
        0 <= whole,
        r.denom > 0,
    ensures
        share_reaches(part, whole, r) ==> share_reaches(more, whole, r),
        r.numer <= r.denom && whole > 0 ==> share_reaches(whole, whole, r),
        whole == 0 || part == 0 ==> (share_reaches(part, whole, r) <==> r.numer == 0),
{
    let (a, b) = (r.numer as int, r.denom as int);
    assert(part * b <= more * b) by (nonlinear_arith)
        requires
            part <= more,
            b > 0,
    ;
    if a <= b {
        assert(a * whole <= whole * b) by (nonlinear_arith)
            requires
                a <= b,
                whole >= 0,
        ;
    }
    if part == 0 && whole > 0 {
        assert(part * b == 0) by (nonlinear_arith)
            requires
                part == 0,
        ;
        if a > 0 {
            assert(a * whole > 0) by (nonlinear_arith)
                requires
                    a > 0,
                    whole > 0,
            ;
        } else {
            assert(a * whole == 0) by (nonlinear_arith)
                requires
                    a == 0,
            ;
        }
    }
}

} // verus!
