use cfrp_detector::speedtest::{bytes_per_second, collect_results, combine, gather, Sample};
use cfrp_detector::{
    DetectorError, Duration, HandshakeType, IpAddr, Ipv4Addr, SpeedTestConfig, SpeedTestResult,
    Target, Timing,
};

fn target() -> Target {
    Target::new(IpAddr::V4(Ipv4Addr::new(1, 1, 1, 1)), 443)
}

fn blank() -> SpeedTestResult {
    SpeedTestResult {
        target: target(),
        bytes_per_second: 0,
        elapsed: Duration::from_secs(0),
        connect_latency: None,
        tls_handshake_latency: None,
        ttfb_latency: None,
        handshake_type: None,
    }
}

fn as_secs(d: Duration) -> u128 {
    d.as_millis() / 1000
}

#[test]
fn speedtest_config_default_values() {
    let cfg = SpeedTestConfig::default();
    assert_eq!(cfg.timeout, Duration::from_secs(5));
    assert_eq!(cfg.threads_per_target, 3);
    assert_eq!(cfg.concurrency, 8);
}

#[test]
fn speedtest_config_clone() {
    let cfg = SpeedTestConfig {
        timeout: Duration::from_secs(10),
        threads_per_target: 5,
        concurrency: 16,
    };
    let cfg2 = cfg.clone();
    assert_eq!(cfg.timeout, cfg2.timeout);
    assert_eq!(cfg.threads_per_target, cfg2.threads_per_target);
    assert_eq!(cfg.concurrency, cfg2.concurrency);
}

#[test]
fn speedtest_clamp_zero_elapsed_to_zero_bps() {
    let bps = bytes_per_second(1000u64, Duration::from_secs(0));
    assert_eq!(bps, 0);
}

#[test]
fn speedtest_bps_calculation_one_second() {
    let bps = bytes_per_second(10_000_000u64, Duration::from_secs(1));
    assert_eq!(bps, 10_000_000);
}

#[test]
fn speedtest_concurrency_min_is_one() {
    let cfg = SpeedTestConfig {
        timeout: Duration::from_secs(1),
        threads_per_target: 0,
        concurrency: 0,
    };
    assert_eq!(cfg.parallel_targets(), 1);
    assert_eq!(cfg.threads(), 1);
}

#[test]
fn phase3_2_speedtest_config_defaults_and_clamp() {
    let cfg = SpeedTestConfig::default();
    assert!(as_secs(cfg.timeout) >= 1);
    assert!(cfg.threads_per_target >= 1);
    assert!(cfg.concurrency >= 1);
    let bad = SpeedTestConfig {
        timeout: Duration::from_millis(0),
        threads_per_target: 0,
        concurrency: 0,
    };
    assert_eq!(bad.threads(), 1);
    assert_eq!(bad.parallel_targets(), 1);
}

#[test]
fn speedtest_config_default() {
    let cfg = SpeedTestConfig::default();
    assert!(as_secs(cfg.timeout) >= 3);
    assert!(cfg.threads_per_target >= 1);
    assert!(cfg.concurrency >= 1);
}

#[test]
fn bps_calc_saturating_no_overflow() {
    let bps = bytes_per_second(u64::MAX, Duration::from_nanos(1));
    assert!(bps > 0);
    assert_eq!(bps, u64::MAX);
}

#[test]
fn bps_zero_elapsed_is_zero_no_panic() {
    let bps = bytes_per_second(1000u64, Duration::from_nanos(0));
    assert_eq!(bps, 0);
}

#[test]
fn speedtest_config_zero_values_clamp() {
    let cfg = SpeedTestConfig {
        timeout: Duration::from_secs(0),
        threads_per_target: 0,
        concurrency: 0,
    };
    assert_eq!(cfg.threads(), 1);
    assert_eq!(cfg.parallel_targets(), 1);
}

#[test]
fn speedtest_config_clone_independent() {
    let mut a = SpeedTestConfig::default();
    let b = a.clone();
    a.concurrency = 999;
    assert_ne!(a.concurrency, b.concurrency);
}

#[test]
fn speedtest_batch_does_not_require_network() {
    let targets: Vec<Target> = vec![];
    let cfg = SpeedTestConfig {
        timeout: Duration::from_millis(100),
        threads_per_target: 1,
        concurrency: 1,
    };
    let _ = (targets, cfg);
}

#[test]
fn speedtest_result_struct_fields_all_optional_latencies() {
    let res = SpeedTestResult {
        target: target(),
        bytes_per_second: 5_000_000,
        elapsed: Duration::from_millis(1234),
        connect_latency: Some(Duration::from_millis(25)),
        tls_handshake_latency: Some(Duration::from_millis(40)),
        ttfb_latency: Some(Duration::from_millis(80)),
        handshake_type: Some(HandshakeType::Resumed),
    };
    assert_eq!(res.target, target());
    assert_eq!(res.bytes_per_second, 5_000_000);
    assert_eq!(res.elapsed.as_millis(), 1234);
    assert_eq!(res.connect_latency.map(|d| d.as_millis()), Some(25));
    assert_eq!(res.tls_handshake_latency.map(|d| d.as_millis()), Some(40));
    assert_eq!(res.ttfb_latency.map(|d| d.as_millis()), Some(80));
    assert!(matches!(res.handshake_type, Some(HandshakeType::Resumed)));
}

#[test]
fn speedtest_result_with_timing_populates_latencies() {
    let timing = Timing {
        connect_latency: Some(Duration::from_millis(10)),
        tls_handshake_latency: Some(Duration::from_millis(20)),
        ttfb_latency: Some(Duration::from_millis(30)),
    };
    let r = blank().with_timing(timing);
    assert_eq!(r.connect_latency.unwrap().as_millis(), 10);
    assert_eq!(r.tls_handshake_latency.unwrap().as_millis(), 20);
    assert_eq!(r.ttfb_latency.unwrap().as_millis(), 30);
}

#[test]
fn speedtest_result_bytes_per_sec_is_u64() {
    let r = SpeedTestResult {
        bytes_per_second: u64::MAX,
        elapsed: Duration::from_secs(1),
        handshake_type: Some(HandshakeType::FullHandshake),
        ..blank()
    };
    assert_eq!(r.bytes_per_second, u64::MAX);
}

#[test]
fn phase4_1_speedtest_payload_size_calculation() {
    let payload_size = 1024 * 64usize;
    let samples = vec![Sample {
        bytes: payload_size as u64,
        timing: Timing::default(),
        handshake_type: Some(HandshakeType::FullHandshake),
    }];
    let result = combine(target(), &samples, Duration::from_millis(250), None);
    assert!(result.bytes_per_second > 0);
    assert!(!result.elapsed.is_zero());
    let expected_min = payload_size as u64;
    let secs = result.elapsed.as_nanos() as f64 / 1e9;
    let estimated_bytes = (result.bytes_per_second as f64) * secs;
    assert!(estimated_bytes >= expected_min as f64 * 0.1);
    assert_eq!(result.bytes_per_second, 262_144);
}

#[test]
fn handshakes_are_set_with_the_timing() {
    let timing = Timing { ttfb_latency: Some(Duration::from_millis(7)), ..Timing::default() };
    let r = blank().with_timing_and_handshake(timing, Some(HandshakeType::ZeroRtt));
    assert_eq!(r.ttfb_latency, Some(Duration::from_millis(7)));
    assert_eq!(r.handshake_type, Some(HandshakeType::ZeroRtt));
}

#[test]
fn downloads_of_one_test_are_added_up() {
    let sample = |bytes: u64, ms: u64| Sample {
        bytes,
        timing: Timing {
            connect_latency: Some(Duration::from_millis(ms)),
            ..Timing::default()
        },
        handshake_type: Some(HandshakeType::Resumed),
    };
    let r = combine(
        target(),
        &vec![sample(1_000, 5), sample(3_000, 6)],
        Duration::from_secs(2),
        None,
    );
    assert_eq!(r.bytes_per_second, 2_000);
    assert_eq!(r.elapsed, Duration::from_secs(2));
    assert_eq!(r.target, target());
}

#[test]
fn the_first_failed_download_fails_the_test() {
    let sample = Sample { bytes: 1, timing: Timing::default(), handshake_type: None };
    let all = gather(vec![Ok(sample), Ok(sample)]).unwrap();
    assert_eq!(all.len(), 2);
    let e = gather(vec![
        Ok(sample),
        Err(DetectorError::Http("first".into())),
        Err(DetectorError::Http("second".into())),
    ])
    .unwrap_err();
    assert_eq!(e.to_string(), "HTTP error: first");
}

#[test]
fn targets_without_a_result_are_left_out() {
    let one = SpeedTestResult { bytes_per_second: 1, ..blank() };
    let two = SpeedTestResult { bytes_per_second: 2, ..blank() };
    let rates: Vec<u64> = collect_results(&vec![Some(one), None, Some(two)])
        .iter()
        .map(|r| r.bytes_per_second)
        .collect();
    assert_eq!(rates, vec![1, 2]);
}
