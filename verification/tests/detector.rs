use cfrp_detector::connector::PinnedHttpResponse;
use cfrp_detector::detection::{Ask, Detection};
use cfrp_detector::detector::{
    assemble, batch_domain, edge_from_trace, extract_colo_from_trace, initial_limit,
    number_targets, plan_http, BatchCollector, BatchControl, PermitChange,
};
use cfrp_detector::error::{ErrorKind, IoError};
use cfrp_detector::probe::{HttpProbe, TlsProbe};
use cfrp_detector::{
    AdaptiveConfig, BatchProgress, BatchTarget, CacheConfig, CfLocation, CidrSource,
    CloudflareRanges, Confidence, DetectionResult, DetectorConfig, DetectorError, Duration,
    GovernorFeedback, GovernorSnapshot, HandshakeType, IpAddr, Ipv4Addr, LocationStore,
    MockFdCounter, ProbeConfig, Protocol, ResourceGovernor, ResourceGovernorConfig, Target,
    Timing,
};
use http::{HeaderMap, HeaderValue};

const TRACE: &str = "/cdn-cgi/trace";

fn v4(a: u8, b: u8, c: u8, d: u8) -> IpAddr {
    IpAddr::V4(Ipv4Addr::new(a, b, c, d))
}

fn targets(n: usize) -> Vec<BatchTarget> {
    (0..n).map(|i| BatchTarget { target: Target::new(v4(127, 0, 0, 1), 443), id: i }).collect()
}

fn place(iata: &str, city: &str, region: &str, cca2: &str) -> CfLocation {
    CfLocation {
        iata: iata.into(),
        lat_bits: 0,
        lon_bits: 0,
        city: city.into(),
        region: region.into(),
        cca2: cca2.into(),
    }
}

fn sample_locations() -> LocationStore {
    LocationStore::from_locations(vec![
        place("LAX", "Los Angeles", "CA", "US"),
        place("NRT", "Tokyo", "Tokyo", "JP"),
    ])
}

fn response(status: u16, fields: &[(&'static str, &'static str)], body: &str) -> PinnedHttpResponse {
    let mut headers = HeaderMap::new();
    for (name, value) in fields {
        headers.insert(*name, HeaderValue::from_static(value));
    }
    PinnedHttpResponse {
        status,
        headers,
        body: body.as_bytes().to_vec(),
        timing: Timing::default(),
        handshake_type: HandshakeType::FullHandshake,
    }
}

fn timed_out() -> DetectorError {
    DetectorError::NetworkIo(IoError {
        kind: ErrorKind::TimedOut,
        raw_os_error: None,
        message: "TCP connect timed out".into(),
    })
}

/// A server that bears the marks of the network, and answers over one protocol alone.
struct MockServer {
    https: bool,
    colo: &'static str,
}

impl MockServer {
    fn answer(&self, ask: &Ask) -> Result<PinnedHttpResponse, DetectorError> {
        if (ask.protocol == Protocol::Https) != self.https {
            return Err(timed_out());
        }
        let body = if ask.path == TRACE {
            format!("fl=1\nh={}\ncolo={}\n", ask.host, self.colo)
        } else {
            "ok".to_string()
        };
        Ok(response(200, &[("server", "cloudflare"), ("cf-ray", "abc-LAX")], &body))
    }

    fn detect(
        &self,
        ranges: &CloudflareRanges,
        target: &Target,
        domain: Option<&str>,
    ) -> Result<DetectionResult, DetectorError> {
        let sni = ProbeConfig::default().default_sni;
        let mut detection = Detection::new(ranges.contains(target.ip), domain, &sni);
        while let Some(ask) = detection.ask() {
            detection = match self.answer(&ask) {
                Ok(r) => {
                    detection.on_response(&r, Duration::from_millis(9), &sample_locations())
                }
                Err(e) => detection.on_failure(e)?,
            };
        }
        Ok(detection.result().unwrap())
    }
}

#[test]
fn concurrency_clamp_logic() {
    let max = 256;
    for (input, want) in [(0usize, 1usize), (1, 1), (50, 50), (256, 256), (1000, 256)] {
        let got = initial_limit(&AdaptiveConfig::default(), input, max);
        assert_eq!(got, want, "input={input}");
    }
}

#[test]
fn detect_batch_concurrency_clamps_to_one() {
    let limit = initial_limit(&AdaptiveConfig::default(), 0, 10);
    assert_eq!(limit, 1);
}

#[test]
fn detect_batch_concurrency_clamps_to_max() {
    let max = 256;
    let limit = initial_limit(&AdaptiveConfig::default(), 10_000, max);
    assert_eq!(limit, 256);
}

#[test]
fn ordered_by_index_behavior() {
    let mut pairs: Vec<(usize, &'static str)> = vec![(2, "c"), (0, "a"), (1, "b")];
    pairs.sort_by_key(|(idx, _)| *idx);
    assert_eq!(pairs, vec![(0, "a"), (1, "b"), (2, "c")]);
    let mut c = BatchCollector::new(&targets(3));
    for (order, (index, name)) in [(2usize, "c"), (0, "a"), (1, "b")].into_iter().enumerate() {
        let failed = Err(DetectorError::Tls(name.into()));
        c.on_outcome(index, order, failed, 1, None);
    }
    let errors: Vec<String> = c.finish().into_iter().map(|r| r.error.unwrap()).collect();
    assert_eq!(errors, vec!["TLS error: a", "TLS error: b", "TLS error: c"]);
}

#[test]
fn detector_config_default_values() {
    let cfg = DetectorConfig::default();
    assert_eq!(cfg.probe.connect_timeout, Duration::from_secs(2));
    assert_eq!(cfg.max_concurrency, 256);
    assert_eq!(cfg.cache.directory, "data/cfrpdata");
}

#[test]
fn detector_config_clone() {
    let cfg = DetectorConfig {
        probe: ProbeConfig::default(),
        cache: CacheConfig::default(),
        max_concurrency: 10,
        governor_enabled: true,
        governor: ResourceGovernorConfig::default(),
    };
    let cfg2 = cfg.clone();
    assert_eq!(cfg.max_concurrency, cfg2.max_concurrency);
}

#[test]
fn detector_config_defaults() {
    let cfg = DetectorConfig::default();
    assert!(cfg.max_concurrency > 0);
    assert!(cfg.probe.connect_timeout.as_millis() > 0);
    assert!(cfg.probe.request_timeout.as_millis() > 0);
    assert!(!cfg.probe.default_sni.is_empty());
}

#[test]
fn detector_cfg_clone_keeps_values() {
    let cfg = DetectorConfig {
        max_concurrency: 10,
        probe: ProbeConfig::default(),
        cache: CacheConfig::default(),
        ..DetectorConfig::default()
    };
    let cloned = cfg.clone();
    assert_eq!(cloned.max_concurrency, 10);
}

#[test]
fn phase3_4_detector_config_integrates_governor() {
    let cfg = DetectorConfig::default();
    assert!(cfg.governor_enabled);
    let hard = cfg.governor.fd_ratio_hard_cap.unwrap();
    assert_eq!(hard.numer as f64 / hard.denom as f64, 0.92);
    assert_eq!(cfg.max_concurrency, 256);
}

#[test]
fn phase3_e2e_detectorconfig_default_user_max_syncs_with_max_concurrency_semantically() {
    let cfg = DetectorConfig::default();
    assert!(cfg.max_concurrency >= 1);
    assert!(cfg.governor.user_max_concurrency >= 1);

    let mut cfg2 = DetectorConfig::default();
    cfg2.max_concurrency = 64;
    cfg2.governor_enabled = false;
    cfg2.governor = ResourceGovernorConfig {
        enabled: false,
        user_max_concurrency: 1,
        ..Default::default()
    };
    assert_eq!(cfg2.max_concurrency, 64);
    assert!(!cfg2.governor_enabled);
    assert!(cfg2.governor_config().is_none());
}

#[test]
fn phase3_4_detect_batch_accepts_high_base_concurrency_with_adaptive() {
    let adaptive = AdaptiveConfig { enabled: true, initial: 64, min: 2, max: 128, window: 20 };
    assert!(adaptive.enabled);
    assert_eq!(adaptive.initial.clamp(adaptive.min, adaptive.max), 64);
    assert_eq!(initial_limit(&adaptive, 10_000, 256), 64);
}

#[test]
fn phase3_4_batch_progress_has_governor_fields() {
    let sample_target = Target::new(v4(127, 0, 0, 1), 443);
    let bp = BatchProgress {
        completed: 10,
        total: 100,
        current_concurrency: 32,
        last_success: true,
        last_target: Some(sample_target),
        throttled_due_to_fd: true,
        governor_feedback: GovernorFeedback { snapshot: None },
    };
    assert!(bp.throttled_due_to_fd);
    assert!(bp.governor_feedback.snapshot.is_none());
    assert_eq!(bp.last_target.unwrap().port, 443);
}

#[test]
fn phase3_4_batch_targets_construction_supports_large_sets() {
    let mut out = Vec::with_capacity(1000);
    for i in 0..1000 {
        let ip = v4(104, 16, ((i % 16) + 132) as u8, 1);
        out.push(BatchTarget { target: Target::new(ip, 443), id: i });
    }
    assert_eq!(out.len(), 1000);
}

#[test]
fn phase3_4_governor_feedback_with_snapshot_in_batch_progress() {
    let snap = GovernorSnapshot {
        active: true,
        fd_used: 50,
        fd_limit: 1024,
        fd_budget: 900,
        throttled_due_to_fd: false,
        outcomes: 20,
        throttled_due_to_resource_errors: false,
        capped_concurrency: 64,
        available_fds: 974,
        used_fds: 50,
        user_max_concurrency: 256,
        proposed_concurrency: 64,
        resource_errors: 1,
    };
    let bp = BatchProgress {
        completed: 1,
        total: 10,
        current_concurrency: snap.capped_concurrency,
        last_success: true,
        last_target: Some(Target::new(v4(1, 1, 1, 1), 443)),
        throttled_due_to_fd: snap.throttled_due_to_fd,
        governor_feedback: GovernorFeedback { snapshot: Some(snap.clone()) },
    };
    let inner = bp.governor_feedback.snapshot.as_ref().unwrap();
    assert!(inner.active);
    assert_eq!(inner.resource_errors, 1);
    assert_eq!(inner.capped_concurrency, 64);
    assert_eq!(bp.current_concurrency, 64);
}

fn verdict(in_range: bool, status: u16, marked: bool) -> DetectionResult {
    let http = HttpProbe { status: Some(status), cloudflare_trait: marked, reasons: vec![] };
    assemble(in_range, &None, Protocol::Http, &http)
}

#[test]
fn detection_result_confidence_reason_high() {
    let r = verdict(true, 200, true);
    assert_eq!(r.confidence, Confidence::High);
    assert!(r.confidence_reason.contains("application-level traits"));
}

#[test]
fn detection_result_confidence_reason_medium() {
    let r = verdict(true, 500, false);
    assert_eq!(r.confidence, Confidence::Medium);
    assert!(r.confidence_reason.contains("ranges, but active service traits are limited"));
}

#[test]
fn detection_result_confidence_reason_low() {
    let r = verdict(false, 500, true);
    assert_eq!(r.confidence, Confidence::Low);
    assert!(r.confidence_reason.contains("exhibits Cloudflare application traits"));
}

#[test]
fn detection_result_confidence_reason_none() {
    let r = verdict(false, 500, false);
    assert_eq!(r.confidence, Confidence::Absent);
    assert!(r.confidence_reason.contains("no Cloudflare traits were detected"));
}

#[test]
fn extract_colo_happy_path() {
    let body = "fl=42\nh=www.cloudflare.com\ncolo=LAX\nloc=US\nsni=plaintext\n";
    assert_eq!(extract_colo_from_trace(body).as_deref(), Some("LAX"));
}

#[test]
fn extract_colo_case_and_ws_insensitive() {
    assert_eq!(extract_colo_from_trace("  colo=lax  \n").as_deref(), Some("LAX"));
    assert_eq!(extract_colo_from_trace("\ncolo=NRT\n").as_deref(), Some("NRT"));
    assert_eq!(
        extract_colo_from_trace("foo=bar\r\ncolo=  lax  \r\n").as_deref(),
        Some("LAX")
    );
}

#[test]
fn extract_colo_missing_or_empty_returns_none() {
    assert_eq!(extract_colo_from_trace(""), None);
    assert_eq!(extract_colo_from_trace("foo=bar\nbar=baz\n"), None);
    assert_eq!(extract_colo_from_trace("colo=\n"), None);
    assert_eq!(extract_colo_from_trace("colo=   \n"), None);
}

#[test]
fn phase4_1_detect_in_cidr_high_confidence() {
    let server = MockServer { https: true, colo: "LAX" };
    let ranges = CloudflareRanges::from(vec!["127.0.0.1/32".to_string()]);
    let target = Target::new(v4(127, 0, 0, 1), 443);
    let result = server.detect(&ranges, &target, Some("www.cloudflare.com")).unwrap();
    assert!(result.is_cloudflare_edge, "should be cloudflare edge");
    assert_eq!(
        result.confidence,
        Confidence::High,
        "expected HIGH confidence for in-range + CF headers"
    );
    assert!(result.edge_info.is_some(), "edge info should be populated");
    assert_eq!(result.edge_info.as_ref().unwrap().colo_code.as_deref(), Some("LAX"));
    assert_eq!(result.edge_info.as_ref().unwrap().city.as_deref(), Some("Los Angeles"));
    assert!(result.is_tls);
    assert_eq!(
        result.reasons,
        vec![
            "IP is within official Cloudflare CIDR ranges",
            "TLS/HTTPS probe exhibits Cloudflare traits",
            "Service detected on HTTPS",
            "HTTP Server header contains 'cloudflare'",
            "HTTP response has CF-RAY header",
            "Successful domain-based response (HTTP 200)",
        ]
    );
}

#[test]
fn phase4_1_detect_outside_cidr_but_cf_headers_low() {
    let server = MockServer { https: true, colo: "NRT" };
    let ranges = CloudflareRanges::from(vec!["10.0.0.0/8".to_string()]);
    let target = Target::new(v4(127, 0, 0, 1), 443);
    let result = server.detect(&ranges, &target, Some("www.cloudflare.com")).unwrap();
    assert_eq!(result.confidence, Confidence::Low, "outside CIDR but has CF headers => LOW");
    assert!(result.is_cloudflare_edge, "should still report edge");
}

#[test]
fn phase4_1_fetch_edge_info_parse_trace() {
    let body = b"fl=1\nh=trace.example.com\ncolo=LAX\n";
    let info = edge_from_trace(body, Duration::from_millis(5), &sample_locations());
    assert!(info.is_some(), "trace parse should succeed");
    let info = info.unwrap();
    assert_eq!(info.colo_code.as_deref(), Some("LAX"));
    assert_eq!(info.city.as_deref(), Some("Los Angeles"));
    assert_eq!(info.country.as_deref(), Some("US"));
    assert_eq!(info.region.as_deref(), Some("CA"));
    assert!(info.latency.is_some());
}

#[test]
fn phase4_1_fetch_edge_info_missing_colo_returns_none() {
    let body = b"fl=1\nh=example.com\ncolo=XYZ\n";
    let info = edge_from_trace(body, Duration::from_millis(5), &sample_locations());
    assert!(info.is_some(), "even unknown colo should still extract colo code");
    let info = info.unwrap();
    assert_eq!(info.colo_code.as_deref(), Some("XYZ"));
    assert!(info.city.is_none(), "XYZ is not in location source");
}

#[test]
fn traces_that_are_no_utf8_are_still_read() {
    let info = edge_from_trace(
        b"x=\xff\xfe\ncolo=nrt\n",
        Duration::from_millis(5),
        &sample_locations(),
    );
    assert_eq!(info.unwrap().city.as_deref(), Some("Tokyo"));
    let none = edge_from_trace(b"\xffcolo=nrt", Duration::from_millis(5), &sample_locations());
    assert!(none.is_none());
}

#[test]
fn a_target_without_tls_is_asked_in_plain() {
    let server = MockServer { https: false, colo: "XYZ" };
    let ranges = CloudflareRanges::empty();
    let target = Target::new(v4(127, 0, 0, 1), 80);
    let result = server.detect(&ranges, &target, Some("a.example")).unwrap();
    assert!(!result.is_tls);
    assert!(result.reasons.contains(&"Service detected on HTTP".to_string()));
    assert_eq!(result.edge_info.unwrap().colo_code.as_deref(), Some("XYZ"));
}

#[test]
fn a_detection_asks_step_by_step() {
    let none = LocationStore::empty();
    let latency = Duration::from_millis(1);
    let mut d = Detection::new(false, Some("a.example"), "b.example");
    for host in ["a.example", "b.example", "b.example"] {
        let ask = d.ask().unwrap();
        assert_eq!((ask.protocol, ask.host.as_str(), ask.path), (Protocol::Https, host, TRACE));
        d = if host == "a.example" {
            d.on_failure(timed_out()).unwrap()
        } else {
            d.on_response(&response(404, &[], ""), latency, &none)
        };
    }
    let ask = d.ask().unwrap();
    assert_eq!((ask.protocol, ask.host.as_str(), ask.path), (Protocol::Http, "a.example", TRACE));
    d = d.on_response(&response(404, &[], ""), latency, &none);
    assert!(d.ask().is_none());
    let r = d.result().unwrap();
    assert!(!r.is_cloudflare_edge && !r.is_usable && !r.is_tls);
    assert_eq!(r.http_status_code, Some(404));
    assert!(r.reasons.is_empty());
    assert!(r.edge_info.is_none());
}

#[test]
fn a_failure_after_the_search_is_that_of_the_detection() {
    let none = LocationStore::empty();
    let d = Detection::new(true, None, "b.example");
    let d = d.on_response(&response(200, &[], ""), Duration::from_millis(1), &none);
    assert_eq!(d.ask().unwrap().path, TRACE);
    assert!(d.clone().result().is_none());
    let e = d.on_failure(DetectorError::Tls("gone".into())).unwrap_err();
    assert_eq!(e.to_string(), "TLS error: gone");
}

#[test]
fn the_probe_after_tls_uses_the_name_that_answered() {
    let tls = |sni: &str| {
        Some(TlsProbe {
            working_sni: sni.into(),
            cloudflare_trait: false,
            reason: None,
            handshake_type: HandshakeType::FullHandshake,
            connect_latency: None,
            tls_handshake_latency: None,
            ttfb_latency: None,
        })
    };
    assert_eq!(plan_http(&tls("x"), Some("d"), "s"), (Protocol::Https, "x".to_string()));
    assert_eq!(plan_http(&tls(""), Some("d"), "s"), (Protocol::Https, "s".to_string()));
    assert_eq!(plan_http(&None, Some("d"), "s"), (Protocol::Http, "d".to_string()));
    assert_eq!(plan_http(&None, None, "s"), (Protocol::Http, "s".to_string()));
}

#[test]
fn phase4_1_detect_batch_with_reset_keeps_order() {
    let server = MockServer { https: true, colo: "LAX" };
    let ranges = CloudflareRanges::from(vec!["127.0.0.1/32".to_string()]);
    let n = 30usize;
    let adaptive = AdaptiveConfig { enabled: true, initial: 4, min: 1, max: 8, window: 10 };
    let goals = targets(n);
    let limit = initial_limit(&adaptive, 4, 8);
    let mut control = BatchControl::new(adaptive, 8, limit);
    let mut collector = BatchCollector::new(&goals);
    let mut governor: Option<ResourceGovernor<MockFdCounter>> = None;
    for step in 0..n {
        let index = (step * 7) % n;
        let outcome = if step % 3 == 0 {
            Err(timed_out())
        } else {
            server.detect(&ranges, &goals[index].target, Some("www.cloudflare.com"))
        };
        let now = Duration::from_millis(step as u64);
        let (order, _) = control.on_probe(&mut governor, &outcome, now);
        assert_eq!(order, step);
        assert!(control.limit >= 1 && control.limit <= 8);
        let p = collector.on_outcome(index, order, outcome, control.limit, control.snapshot);
        assert_eq!((p.completed, p.total), (step + 1, n));
        assert!(p.governor_feedback.snapshot.is_none() && !p.throttled_due_to_fd);
    }
    let results = collector.finish();
    assert_eq!(results.len(), n);
    for (i, r) in results.iter().enumerate() {
        assert_eq!(r.id, i, "output order must match input order (id={})", i);
        assert_eq!(r.target, goals[i].target, "target preserved for id={}", i);
    }
    let ok_count = results.iter().filter(|r| r.result.is_some()).count();
    assert!(ok_count > 0, "at least some should succeed with 70% success prob");
}

#[test]
fn phase4_6_cancellation_returns_partial_results_in_order() {
    let n = 20usize;
    let mut collector = BatchCollector::new(&targets(n));
    let adaptive = AdaptiveConfig { enabled: false, initial: 4, min: 1, max: 4, window: 10 };
    let mut control = BatchControl::new(adaptive, 4, 4);
    for index in 0..n {
        let cancelled = index >= 5;
        let (order, outcome) = if index == 19 {
            continue;
        } else if cancelled {
            (control.skip(), Err(DetectorError::Http("cancelled".into())))
        } else {
            (control.observe(true), Ok(DetectionResult::default()))
        };
        let event = collector.on_outcome(index, order, outcome, 4, None);
        assert_eq!(event.completed, index + 1);
        assert_eq!(event.last_success, !cancelled);
    }
    let results = collector.finish();
    assert_eq!(results.len(), n, "even cancelled should have N results, partial error-filled");
    for (i, r) in results.iter().enumerate() {
        assert_eq!(r.id, i, "order preserved: id {} out of place", i);
    }
    assert!(results[4].result.is_some());
    for r in &results[5..] {
        assert!(r.result.is_none());
        assert_eq!(r.error.as_deref(), Some("cancelled"));
    }
}

#[test]
fn every_completion_is_told_of() {
    let mut c = BatchCollector::new(&targets(4));
    let errors = GovernorSnapshot {
        throttled_due_to_resource_errors: true,
        ..GovernorSnapshot::default()
    };
    let descriptors = GovernorSnapshot { throttled_due_to_fd: true, ..errors };
    let ok = || Ok(DetectionResult::default());
    let p = c.on_outcome(0, 1, ok(), 3, Some(errors));
    assert_eq!((p.completed, p.total, p.current_concurrency), (2, 4, 3));
    assert!(p.last_success && !p.throttled_due_to_fd);
    assert!(p.governor_feedback.snapshot.unwrap().throttled_due_to_resource_errors);
    let p = c.on_outcome(1, 0, ok(), 3, Some(descriptors));
    assert_eq!(p.completed, 2);
    assert!(p.last_success && p.throttled_due_to_fd);
    let p = c.on_outcome(2, 3, Err(timed_out()), 3, None);
    assert_eq!(p.completed, 4);
    assert!(!p.last_success && !p.throttled_due_to_fd);
    let p = c.on_outcome(3, 2, ok(), 3, None);
    assert_eq!((p.completed, p.last_target), (4, Some(targets(4)[3].target)));
    let failed = c.finish();
    assert_eq!(failed[2].error, Some(timed_out().to_string()));
    assert!(failed.iter().all(|r| r.result.is_some() != r.error.is_some()));
}

#[test]
fn success_raises_the_limit_and_failure_halves_it() {
    let adaptive = AdaptiveConfig { enabled: true, initial: 16, min: 2, max: 40, window: 4 };
    let mut control = BatchControl::new(adaptive, 64, 16);
    let mut none: Option<ResourceGovernor<MockFdCounter>> = None;
    let now = Duration::from_millis(0);
    let good = Ok(DetectionResult::default());
    let bad: Result<DetectionResult, DetectorError> = Err(timed_out());
    assert_eq!(control.on_probe(&mut none, &good, now), (0, PermitChange::Keep));
    assert_eq!(control.on_probe(&mut none, &good, now), (1, PermitChange::Keep));
    assert_eq!(control.on_probe(&mut none, &good, now), (2, PermitChange::Add(1)));
    assert_eq!(control.on_probe(&mut none, &good, now), (3, PermitChange::Add(1)));
    assert_eq!(control.limit, 18);
    assert_eq!(control.on_probe(&mut none, &bad, now), (4, PermitChange::Keep));
    assert_eq!(control.on_probe(&mut none, &bad, now), (5, PermitChange::Keep));
    assert_eq!(control.on_probe(&mut none, &bad, now), (6, PermitChange::Remove(9)));
    assert_eq!(control.limit, 9);
    for _ in 0..5 {
        control.on_probe(&mut none, &bad, now);
    }
    assert_eq!(control.limit, 2);
    for _ in 0..50 {
        control.on_probe(&mut none, &good, now);
    }
    assert_eq!(control.limit, 40);
}

#[test]
fn a_minimum_beyond_the_ceiling_leaves_a_batch_whole() {
    let n = 12usize;
    let adaptive = AdaptiveConfig { enabled: true, initial: 50, min: 20, max: 100, window: 3 };
    let limit = initial_limit(&adaptive, 4, 8);
    assert_eq!(limit, 8);
    let mut control = BatchControl::new(adaptive, 8, limit);
    let mut collector = BatchCollector::new(&targets(n));
    let mut none: Option<ResourceGovernor<MockFdCounter>> = None;
    for index in 0..n {
        let outcome = if index < 6 { Err(timed_out()) } else { Ok(DetectionResult::default()) };
        let now = Duration::from_millis(index as u64);
        let (order, change) = control.on_probe(&mut none, &outcome, now);
        assert_eq!(change, PermitChange::Keep);
        assert_eq!(control.limit, 8);
        collector.on_outcome(index, order, outcome, control.limit, control.snapshot);
    }
    let results = collector.finish();
    assert_eq!(results.len(), n);
    assert!(results.iter().all(|r| r.result.is_some() != r.error.is_some()));
    let nothing = AdaptiveConfig { enabled: true, initial: 0, min: 0, max: 0, window: 1 };
    assert_eq!(initial_limit(&nothing, 4, 8), 1);
    let mut control = BatchControl::new(nothing, 8, 1);
    control.on_probe(&mut none, &Err(timed_out()), Duration::from_millis(0));
    assert_eq!(control.limit, 1);
}

#[test]
fn equal_answers_lead_to_equal_results() {
    let places = sample_locations();
    let run = |millis: u64| {
        let latency = Duration::from_millis(millis);
        let mut asked = Vec::new();
        let mut d = Detection::new(false, Some("a.example"), "b.example");
        while let Some(ask) = d.ask() {
            asked.push((ask.protocol, ask.host, ask.path));
            d = match asked.len() {
                1 => d.on_failure(timed_out()).unwrap(),
                2 => d.on_response(&response(204, &[], ""), latency, &places),
                3 => {
                    let marked = response(403, &[("cf-cache-status", "DYNAMIC")], "");
                    d.on_response(&marked, latency, &places)
                }
                _ => d.on_response(&response(200, &[], "colo=lax\n"), latency, &places),
            };
        }
        (asked, d.result().unwrap())
    };
    let (asked, fast) = run(1);
    let (same, slow) = run(900);
    assert_eq!(asked, same);
    assert_eq!(asked.len(), 4);
    assert_eq!(fast.reasons, slow.reasons);
    assert_eq!(fast.confidence, slow.confidence);
    assert_eq!(fast.is_cloudflare_edge, slow.is_cloudflare_edge);
    assert!(fast.is_cloudflare_edge && !fast.is_usable);
    let (e, f) = (fast.edge_info.unwrap(), slow.edge_info.unwrap());
    assert_eq!((&e.colo_code, &e.city, &e.country), (&f.colo_code, &f.city, &f.country));
    assert_eq!(e.city.as_deref(), Some("Los Angeles"));
    assert_eq!(e.latency, Some(Duration::from_millis(1)));
    assert_eq!(f.latency, Some(Duration::from_millis(900)));
}

#[test]
fn a_governor_caps_what_a_batch_proposes() {
    let cfg = DetectorConfig { max_concurrency: 32, ..DetectorConfig::default() };
    let g = cfg.governor_config().unwrap();
    assert_eq!(g.user_max_concurrency, 32);
    let mut governor = Some(ResourceGovernor::new(g, MockFdCounter::new(1_000, 1_024)));
    let mut control = BatchControl::new(AdaptiveConfig::default(), 32, 20);
    let failed: Result<DetectionResult, DetectorError> =
        Err(DetectorError::Http("Too many open files".into()));
    let (order, change) = control.on_probe(&mut governor, &failed, Duration::from_millis(0));
    assert_eq!(order, 0);
    assert_eq!(change, PermitChange::Remove(19));
    assert_eq!(control.limit, 1);
    let snap = control.snapshot.unwrap();
    assert!(snap.active && snap.throttled_due_to_fd);
    assert_eq!((snap.resource_errors, snap.outcomes), (1, 1));
    assert_eq!(governor.unwrap().resource_error_ratio(), (1, 1));
}

#[test]
fn without_a_governor_a_fixed_limit_stays() {
    let mut control = BatchControl::new(AdaptiveConfig::default(), 32, 20);
    let mut none: Option<ResourceGovernor<MockFdCounter>> = None;
    for i in 0..10 {
        let outcome: Result<DetectionResult, DetectorError> = Err(timed_out());
        let step = control.on_probe(&mut none, &outcome, Duration::from_millis(i));
        assert_eq!(step.1, PermitChange::Keep);
    }
    assert_eq!(control.limit, 20);
    assert!(control.snapshot.is_none());
}

#[test]
fn batches_number_their_targets_and_ignore_an_empty_name() {
    let ts = vec![Target::new(v4(1, 1, 1, 1), 1), Target::new(v4(2, 2, 2, 2), 2)];
    let numbered = number_targets(&ts);
    assert_eq!((numbered[1].id, numbered[1].target), (1, ts[1]));
    assert_eq!(batch_domain(Some("")), None);
    assert_eq!(batch_domain(None), None);
    assert_eq!(batch_domain(Some("x")), Some("x".to_string()));
}
