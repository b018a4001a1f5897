use cfrp_detector::{Confidence, DetectionResult, Duration, EdgeInfo, Protocol};

#[test]
fn protocol_scheme_http() {
    assert_eq!(Protocol::Http.scheme(), "http");
}

#[test]
fn protocol_scheme_https() {
    assert_eq!(Protocol::Https.scheme(), "https");
}

#[test]
fn protocol_serde_lowercase() {
    assert_eq!(serde_json::to_string(Protocol::Http.scheme()).unwrap(), "\"http\"");
    assert_eq!(serde_json::to_string(Protocol::Https.scheme()).unwrap(), "\"https\"");
}

#[test]
fn protocol_scheme_and_serde_match() {
    assert_eq!(Protocol::Http.scheme(), "http");
    assert_eq!(
        serde_json::to_string(Protocol::Http.scheme()).unwrap(),
        serde_json::Value::from("http").to_string()
    );
    assert_eq!(Protocol::Https.scheme(), "https");
    assert_eq!(
        serde_json::to_string(Protocol::Https.scheme()).unwrap(),
        serde_json::Value::from("https").to_string()
    );
}

#[test]
fn confidence_variants_exist() {
    let _ = Confidence::Absent;
    let _ = Confidence::Low;
    let _ = Confidence::Medium;
    let _ = Confidence::High;
}

#[test]
fn confidence_equality() {
    assert_eq!(Confidence::High, Confidence::High);
    assert_ne!(Confidence::High, Confidence::Low);
}

#[test]
fn confidence_ordering_is_not_relied_on_but_variants_exist() {
    let all = [Confidence::Absent, Confidence::Low, Confidence::Medium, Confidence::High];
    assert_eq!(all.len(), 4);
}

#[test]
fn confidence_has_its_label() {
    assert_eq!(Confidence::Absent.label(), "NONE");
    assert_eq!(Confidence::Low.label(), "LOW");
    assert_eq!(Confidence::Medium.label(), "MEDIUM");
    assert_eq!(Confidence::High.label(), "HIGH");
}

#[test]
fn detection_result_default_values() {
    let r = DetectionResult::default();
    assert!(!r.is_cloudflare_edge);
    assert!(!r.is_usable);
    assert!(r.http_status_code.is_none());
    assert!(!r.is_tls);
    assert_eq!(r.confidence, Confidence::Absent);
    assert!(r.confidence_reason.is_empty());
    assert!(r.reasons.is_empty());
    assert!(r.edge_info.is_none());
}

#[test]
fn edge_info_default_values() {
    let e = EdgeInfo::default();
    assert!(e.colo_code.is_none());
    assert!(e.city.is_none());
    assert!(e.country.is_none());
    assert!(e.region.is_none());
    assert!(e.latency.is_none());
    assert!(e.download_speed_bytes_per_sec.is_none());
}

#[test]
fn edge_info_with_fields() {
    let e = EdgeInfo {
        colo_code: Some("LAX".into()),
        city: Some("Los Angeles".into()),
        country: Some("US".into()),
        region: Some("CA".into()),
        latency: Some(Duration::from_millis(50)),
        download_speed_bytes_per_sec: Some(1_000_000),
    };
    assert_eq!(e.colo_code.as_deref(), Some("LAX"));
    assert_eq!(e.latency.unwrap().as_millis(), 50);
}

#[test]
fn edge_info_partial_construction() {
    let info = EdgeInfo {
        colo_code: Some("NRT".into()),
        latency: Some(Duration::from_millis(25)),
        ..Default::default()
    };
    assert_eq!(info.colo_code.as_deref(), Some("NRT"));
    assert!(info.city.is_none());
    assert!(info.download_speed_bytes_per_sec.is_none());
}

#[test]
fn durations_convert_between_units() {
    assert_eq!(Duration::from_secs(2).as_millis(), 2_000);
    assert_eq!(Duration::from_micros(5_123).as_millis(), 5);
    assert_eq!(Duration::from_nanos(7).as_nanos(), 7);
    assert!(Duration::from_millis(0).is_zero());
    assert!(!Duration::from_nanos(1).is_zero());
}
