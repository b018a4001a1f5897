use cfrp_detector::governor::{Answers, DEFAULT_RESOURCE_WINDOW, DEFAULT_SAFETY_HEADROOM};
use cfrp_detector::ratio::{mul_div, Ratio};
use cfrp_detector::{
    Duration, FdCounter, GovernorSnapshot, MockFdCounter, ResourceGovernor, ResourceGovernorConfig,
    ResourceKind,
};
use std::cell::Cell;
use std::sync::Arc;

fn start() -> Duration {
    Duration::from_millis(0)
}

fn value(r: Ratio) -> f64 {
    r.numer as f64 / r.denom as f64
}

fn error_ratio(s: &GovernorSnapshot) -> f64 {
    s.resource_errors as f64 / s.outcomes as f64
}

fn fd_ratio(s: &GovernorSnapshot) -> f64 {
    s.fd_used as f64 / s.fd_limit as f64
}

#[test]
fn resource_kind_display_works() {
    assert_eq!(ResourceKind::Fd.to_string(), "fd");
    assert_eq!(ResourceKind::Backlog.to_string(), "backlog");
}

#[test]
fn governor_default_config_sane() {
    let cfg = ResourceGovernorConfig::default();
    assert!(cfg.enabled);
    assert_eq!(cfg.fd_safety_headroom, DEFAULT_SAFETY_HEADROOM);
    assert!((value(cfg.resource_error_threshold) - 0.10).abs() < 1e-9);
}

#[test]
fn governor_disabled_passes_user_through() {
    let mock = MockFdCounter::new(10_000, 128);
    let cfg = ResourceGovernorConfig {
        enabled: false,
        user_max_concurrency: 64,
        ..Default::default()
    };
    let mut gov = ResourceGovernor::new(cfg, mock);
    let (capped, snap) = gov.cap_concurrency(usize::MAX, start());
    assert_eq!(capped, 64);
    assert!(!snap.active);
}

#[test]
fn fd_budget_respects_headroom() {
    let mock = MockFdCounter::new(60, 128);
    let cfg = ResourceGovernorConfig {
        enabled: true,
        fd_safety_headroom: 32,
        user_max_concurrency: 256,
        ..Default::default()
    };
    let mut gov = ResourceGovernor::new(cfg, mock);
    assert_eq!(gov.fd_budget(start()), 128 - 60 - 32);
}

#[test]
fn fd_budget_saturates_to_1() {
    let mock = MockFdCounter::new(10_000, 128);
    let cfg = ResourceGovernorConfig {
        enabled: true,
        fd_safety_headroom: 1,
        user_max_concurrency: 256,
        ..Default::default()
    };
    let mut gov = ResourceGovernor::new(cfg, mock);
    assert!(gov.fd_budget(start()) >= 1);
}

#[test]
fn governor_throttles_on_fd_pressure() {
    let mock = MockFdCounter::new(110, 128);
    let cfg = ResourceGovernorConfig {
        enabled: true,
        fd_safety_headroom: 10,
        user_max_concurrency: 256,
        ..Default::default()
    };
    let mut gov = ResourceGovernor::new(cfg, mock);
    let (capped, snap) = gov.cap_concurrency(128, start());
    assert!(capped < 128, "expected FD throttle, got {}", capped);
    assert!(snap.throttled_due_to_fd);
}

#[test]
fn governor_throttles_on_resource_error_ratio() {
    let mock = MockFdCounter::new(10, 128);
    let cfg = ResourceGovernorConfig {
        enabled: true,
        fd_safety_headroom: 10,
        resource_error_threshold: Ratio::new(10, 100),
        resource_error_window: 10,
        user_max_concurrency: 256,
        ..Default::default()
    };
    let mut gov = ResourceGovernor::new(cfg, mock);
    for _ in 0..6 {
        gov.record_outcome(true);
    }
    for _ in 0..4 {
        gov.record_outcome(false);
    }
    let (errors, outcomes) = gov.resource_error_ratio();
    assert!(errors as f64 / outcomes as f64 > 0.10);
    let (capped, snap) = gov.cap_concurrency(100, start());
    assert!(
        snap.throttled_due_to_resource_errors,
        "expected resource error throttle, snap={:?}",
        snap
    );
    assert!(capped < 100);
    assert!(capped >= 1);
}

#[test]
fn mock_fd_counter_increments_and_decrements() {
    let mut m = MockFdCounter::new(10, 128);
    m.inc(5);
    assert_eq!(m.open_fd_count(), 15);
    m.inc(-20);
    assert_eq!(m.open_fd_count(), 0);
    m.set(100);
    assert_eq!(m.open_fd_count(), 100);
}

#[test]
fn snapshot_defaults_are_all_off() {
    let s = GovernorSnapshot::default();
    assert!(!s.active);
    assert_eq!(s.fd_used, 0);
    assert_eq!(s.capped_concurrency, 0);
}

#[test]
fn phase3_4_resource_governor_config_fields_added() {
    let cfg = ResourceGovernorConfig::default();
    assert_eq!(cfg.fd_ratio_hard_cap.map(value), Some(0.92));
    assert_eq!(cfg.fd_ratio_soft_cap.map(value), Some(0.80));
    assert!(cfg.enabled);
}

#[test]
fn phase3_4_governor_snapshot_all_new_fields() {
    let snap = GovernorSnapshot {
        active: false,
        fd_used: 12,
        fd_limit: 1024,
        fd_budget: 980,
        throttled_due_to_fd: false,
        outcomes: 0,
        throttled_due_to_resource_errors: false,
        capped_concurrency: 256,
        available_fds: 1012,
        used_fds: 12,
        user_max_concurrency: 256,
        proposed_concurrency: 128,
        resource_errors: 0,
    };
    assert_eq!(snap.available_fds, 1012);
    assert_eq!(snap.proposed_concurrency, 128);
    assert_eq!(snap.used_fds, 12);
}

#[test]
fn phase3_4_mock_fd_counter_supports_set_and_inc() {
    let mut m = MockFdCounter::new(100, 1024);
    assert_eq!(m.open_fd_count(), 100);
    assert_eq!(m.fd_limit(), 1024);
    m.set(200);
    assert_eq!(m.open_fd_count(), 200);
    m.inc(50);
    assert_eq!(m.open_fd_count(), 250);
    m.inc(-100);
    assert_eq!(m.open_fd_count(), 150);
}

#[test]
fn phase3_4_governor_cap_concurrency_uses_fd_ratio() {
    let mut cfg = ResourceGovernorConfig::default();
    cfg.fd_ratio_hard_cap = Some(Ratio::new(60, 100));
    cfg.fd_ratio_soft_cap = Some(Ratio::new(50, 100));
    let mock = MockFdCounter::new(800, 1024);
    let mut gov = ResourceGovernor::new(cfg, mock);
    let (capped, snap) = gov.cap_concurrency(256, start());
    assert!(capped < 256, "expected cap, got {}", capped);
    assert!(snap.throttled_due_to_fd);
    assert!(fd_ratio(&snap) > 0.5);
    assert_eq!(snap.used_fds, 800);
}

#[test]
fn phase3_4_governor_records_resource_error_ratio_and_throttles() {
    let cfg = ResourceGovernorConfig {
        enabled: true,
        resource_error_threshold: Ratio::new(10, 100),
        resource_error_window: 10,
        user_max_concurrency: 128,
        fd_safety_headroom: 0,
        ..Default::default()
    };
    let mock = MockFdCounter::new(10, 1024);
    let mut gov = ResourceGovernor::new(cfg, mock);
    for _ in 0..10 {
        gov.record_outcome(true);
    }
    let (errors, outcomes) = gov.resource_error_ratio();
    let ratio = errors as f64 / outcomes as f64;
    assert!((ratio - 1.0).abs() < 1e-6);
    let (capped, snap) = gov.cap_concurrency(64, start());
    assert!(snap.throttled_due_to_resource_errors);
    assert_eq!(snap.resource_errors, 10);
    assert!(capped < 64, "expected error throttle, got {}", capped);
}

#[test]
fn phase3_4_governor_disabled_passthrough_no_throttle() {
    let cfg = ResourceGovernorConfig {
        enabled: false,
        user_max_concurrency: 10_000,
        ..ResourceGovernorConfig::default()
    };
    let mock = MockFdCounter::new(999_999, 1024);
    let mut gov = ResourceGovernor::new(cfg, mock);
    let (capped, snap) = gov.cap_concurrency(512, start());
    assert_eq!(capped, 512, "disabled governor with high user_max MUST NOT cap below proposed");
    assert!(!snap.active);
    assert!(!snap.throttled_due_to_fd);
    assert!(!snap.throttled_due_to_resource_errors);
}

#[test]
fn phase3_4_governor_fd_safety_headroom_reduces_budget() {
    let mut cfg = ResourceGovernorConfig::default();
    cfg.fd_ratio_hard_cap = None;
    cfg.fd_ratio_soft_cap = None;
    cfg.fd_safety_headroom = 500;
    cfg.user_max_concurrency = 10_000;
    let mock = MockFdCounter::new(100, 1024);
    let mut gov = ResourceGovernor::new(cfg, mock);
    let (capped, snap) = gov.cap_concurrency(10_000, start());
    assert_eq!(gov.fd_budget(start()), 424, "fd_budget should be limit-used-headroom = 424");
    assert_eq!(capped, 424, "expected capped at headroom budget 424, got {capped}");
    assert_eq!(snap.available_fds, 1024 - 100);
    assert_eq!(snap.fd_budget, 424);
    assert_eq!(snap.proposed_concurrency, 10_000);
    assert_eq!(snap.capped_concurrency, capped);
    assert!(snap.active);
}

#[test]
fn phase3_4_governor_user_max_concurrency_is_upper_bound() {
    let cfg = ResourceGovernorConfig {
        enabled: true,
        user_max_concurrency: 16,
        fd_ratio_hard_cap: None,
        fd_ratio_soft_cap: None,
        fd_safety_headroom: 0,
        ..Default::default()
    };
    let mock = MockFdCounter::new(1, 1_000_000);
    let mut gov = ResourceGovernor::new(cfg, mock);
    let (capped, snap) = gov.cap_concurrency(1024, start());
    assert_eq!(capped, 16, "user_max_concurrency must be hard upper bound");
    assert_eq!(snap.user_max_concurrency, 16);
    assert_eq!(snap.capped_concurrency, 16);
}

#[test]
fn phase3_4_governor_snapshot_roundtrips_all_ratio_fields() {
    let cfg = ResourceGovernorConfig::default();
    let mock = MockFdCounter::new(300, 1000);
    let mut gov = ResourceGovernor::new(cfg, mock);
    for ok in [true, false, true, false, false, true, true, true, false, false] {
        gov.record_outcome(ok);
    }
    let (_, snap) = gov.cap_concurrency(128, start());
    assert!((error_ratio(&snap) - 0.5).abs() < 1e-6);
    assert_eq!(snap.resource_errors, 5);
    assert_eq!(snap.fd_used, 300);
    assert_eq!(snap.used_fds, 300);
    assert!((fd_ratio(&snap) - 0.3).abs() < 1e-6);
    assert!(snap.active);
}

struct Shared(Arc<dyn FdCounter>);

impl FdCounter for Shared {
    fn open_fd_count(&self) -> usize {
        self.0.open_fd_count()
    }

    fn fd_limit(&self) -> usize {
        self.0.fd_limit()
    }
}

#[test]
fn phase3_5_governor_accepts_dyn_fd_counter_via_trait_object() {
    let trait_obj: Arc<dyn FdCounter> = Arc::new(MockFdCounter::new(5, 100));
    let mut gov = ResourceGovernor::new(ResourceGovernorConfig::default(), Shared(trait_obj));
    let (_, snap) = gov.cap_concurrency(10, start());
    assert_eq!(snap.fd_used, 5);
    assert_eq!(snap.fd_limit, 100);
}

#[test]
fn default_window_holds_fifty_outcomes() {
    let mut gov =
        ResourceGovernor::new(ResourceGovernorConfig::default(), MockFdCounter::new(1, 1024));
    assert_eq!(DEFAULT_RESOURCE_WINDOW, 50);
    assert_eq!(gov.resource_error_ratio(), (0, 0));
    for _ in 0..30 {
        gov.record_outcome(true);
    }
    for _ in 0..40 {
        gov.record_outcome(false);
    }
    assert_eq!(gov.resource_error_ratio(), (10, 50));
}

#[test]
fn the_hard_cap_leaves_a_quarter_of_the_free_and_the_soft_cap_a_share() {
    let cfg = ResourceGovernorConfig {
        fd_safety_headroom: 0,
        user_max_concurrency: 100_000,
        fd_ratio_hard_cap: Some(Ratio::new(9, 10)),
        fd_ratio_soft_cap: Some(Ratio::new(1, 2)),
        ..Default::default()
    };
    let mut over_hard = ResourceGovernor::new(cfg, MockFdCounter::new(9_500, 10_000));
    let (hard, snap) = over_hard.cap_concurrency(400, start());
    assert!(snap.throttled_due_to_fd);
    assert_eq!(hard, 31);
    let mut over_soft = ResourceGovernor::new(cfg, MockFdCounter::new(6_000, 10_000));
    let (soft, snap) = over_soft.cap_concurrency(400, start());
    assert!(snap.throttled_due_to_fd);
    assert_eq!(soft, 320);
    let mut below = ResourceGovernor::new(cfg, MockFdCounter::new(4_000, 10_000));
    let (free, snap) = below.cap_concurrency(400, start());
    assert!(!snap.throttled_due_to_fd);
    assert_eq!(free, 400);
}

#[test]
fn a_cap_is_never_below_one_nor_above_the_proposal() {
    for used in [0usize, 10, 120, 5_000] {
        for proposed in [0usize, 1, 7, 10_000] {
            let mut gov = ResourceGovernor::new(
                ResourceGovernorConfig::default(),
                MockFdCounter::new(used, 128),
            );
            let (capped, snap) = gov.cap_concurrency(proposed, start());
            assert!(capped >= 1);
            assert!(capped <= proposed.max(1));
            assert_eq!(capped, snap.capped_concurrency);
        }
    }
}

#[test]
fn products_are_divided_exactly() {
    assert_eq!(mul_div(10, 3, 4), 7);
    assert_eq!(mul_div(u64::MAX, 1, 1), u64::MAX);
    assert_eq!(mul_div(u64::MAX, 1, 2), u64::MAX / 2);
}

struct Asked {
    counts: Cell<usize>,
}

impl FdCounter for Asked {
    fn open_fd_count(&self) -> usize {
        self.counts.set(self.counts.get() + 1);
        100 * self.counts.get()
    }

    fn fd_limit(&self) -> usize {
        1000
    }
}

#[test]
fn a_count_is_used_again_while_it_is_new() {
    let cfg = ResourceGovernorConfig { user_max_concurrency: 5000, ..Default::default() };
    let mut gov = ResourceGovernor::new(cfg, Asked { counts: Cell::new(0) });
    assert_eq!(gov.fd_budget(Duration::from_millis(0)), 1000 - 100 - 32);
    assert_eq!(gov.fd_budget(Duration::from_millis(249)), 1000 - 100 - 32);
    assert_eq!(gov.fd_counter.counts.get(), 1);
    assert_eq!(gov.fd_budget(Duration::from_millis(250)), 1000 - 200 - 32);
    assert_eq!(gov.fd_counter.counts.get(), 2);
    let (_, snap) = gov.cap_concurrency(10, Duration::from_millis(300));
    assert_eq!((snap.fd_budget, snap.fd_used), (1000 - 200 - 32, 300));
    assert_eq!(gov.last_sample, Some((Duration::from_millis(250), 200)));
}

#[test]
fn a_disabled_governor_asks_no_counter() {
    let cfg = ResourceGovernorConfig { enabled: false, ..Default::default() };
    let mut gov = ResourceGovernor::new(cfg, Asked { counts: Cell::new(0) });
    let (capped, snap) = gov.cap_concurrency(1000, start());
    assert_eq!(capped, 256);
    assert!(!snap.active);
    assert_eq!(gov.fd_budget(start()), 256);
    assert_eq!(gov.fd_counter.counts.get(), 0);
    assert_eq!(gov.last_sample, None);
}

#[test]
fn the_budget_and_the_share_go_by_their_own_answers() {
    let mut gov = ResourceGovernor::new(ResourceGovernorConfig::default(), MockFdCounter::new(0, 0));
    let a = Answers { counted: 10, budget_limit: 100, used: 95, limit: 100 };
    let (capped, snap) = gov.cap_from(64, start(), &a);
    assert_eq!(snap.fd_budget, 58);
    assert_eq!(snap.fd_used, 95);
    assert_eq!(capped, 1);
    assert!(snap.throttled_due_to_fd);
    assert_eq!(gov.last_sample, Some((start(), 10)));
}

#[test]
fn the_cap_falls_as_use_rises_and_recovers() {
    let cfg = ResourceGovernorConfig {
        resource_sample_interval: Duration::from_millis(0),
        ..Default::default()
    };
    let mut gov = ResourceGovernor::new(cfg, MockFdCounter::new(0, 1024));
    let mut caps = Vec::new();
    for used in [0, 400, 700, 820, 900, 950, 1000, 1024, 2000] {
        gov.fd_counter.set(used);
        caps.push(gov.cap_concurrency(200, start()).0);
    }
    assert_eq!(caps[..3], [200, 200, 200]);
    assert!(caps.windows(2).all(|w| w[1] <= w[0]));
    assert_eq!(caps[8], 1);
    gov.fd_counter.set(10);
    let (capped, snap) = gov.cap_concurrency(200, start());
    assert_eq!(capped, 200);
    assert!(!snap.throttled_due_to_fd && !snap.throttled_due_to_resource_errors);
}
