use cfrp_detector::export::{
    bool_yn, speed_for, speed_only_result, speed_targets, use_tls, CsvRow, ExportRecord,
    SpeedExport,
};
use cfrp_detector::{
    BatchResult, Confidence, DetectionResult, Duration, EdgeInfo, HandshakeType, IpAddr, Ipv4Addr,
    SpeedTestResult, Target,
};

fn target(port: u16) -> Target {
    Target::new(IpAddr::V4(Ipv4Addr::new(1, 1, 1, 1)), port)
}

fn edge_result() -> BatchResult {
    BatchResult {
        id: 42,
        target: target(443),
        result: Some(DetectionResult {
            is_cloudflare_edge: true,
            is_tls: true,
            is_usable: false,
            http_status_code: Some(403),
            confidence: Confidence::Medium,
            confidence_reason: "why".into(),
            reasons: vec!["a".into(), "b".into()],
            edge_info: Some(EdgeInfo {
                colo_code: Some("LAX".into()),
                city: Some("Los Angeles".into()),
                country: Some("US".into()),
                region: Some("CA".into()),
                latency: Some(Duration::from_micros(13_999)),
                download_speed_bytes_per_sec: Some(7),
            }),
        }),
        error: None,
    }
}

fn speed_result() -> SpeedTestResult {
    SpeedTestResult {
        target: target(443),
        bytes_per_second: 1000,
        elapsed: Duration::from_millis(250),
        connect_latency: Some(Duration::from_millis(1)),
        tls_handshake_latency: Some(Duration::from_millis(2)),
        ttfb_latency: None,
        handshake_type: Some(HandshakeType::Resumed),
    }
}

#[test]
fn a_record_tells_of_detection_and_speed() {
    let rec = ExportRecord::build(&edge_result(), Some(SpeedExport::from_result(&speed_result())));
    assert_eq!((rec.id, rec.target.as_str(), rec.ip.as_str()), (42, "1.1.1.1:443", "1.1.1.1"));
    assert_eq!(rec.confidence, "MEDIUM");
    assert_eq!(rec.latency_ms, Some(13));
    assert_eq!(rec.download_speed_bytes_per_sec, Some(1000));
    assert_eq!(rec.speedtest_handshake.as_deref(), Some("Resumed"));
    assert_eq!(
        rec.txt_line(),
        "#42    1.1.1.1:443 edge=Y tls=Y usable=N conf=MEDIUM status=403 colo=LAX country=US \
         region=CA city=Los Angeles latency_ms=13 bps=1000 sp_elapsed=250ms sp_tcp=1ms sp_tls=2ms \
         sp_hs=Resumed reasons=[a; b]"
    );
}

#[test]
fn a_record_without_a_result_is_bare() {
    let br = BatchResult {
        id: 123456,
        target: target(80),
        result: None,
        error: Some("he said \"no\"".into()),
    };
    let rec = ExportRecord::build(&br, None);
    assert_eq!(
        rec.txt_line(),
        "#123456 1.1.1.1:80 edge=N tls=N usable=N conf=NONE error=\"he said \\\"no\\\"\""
    );
    let row = CsvRow::from_record(&rec);
    assert_eq!((row.colo.as_str(), row.reasons.as_str()), ("", ""));
    assert_eq!(row.error, "he said \"no\"");
    assert!(row.status_code.is_none() && row.latency_ms.is_none());
}

#[test]
fn a_row_holds_the_reasons_in_one_cell() {
    let rec = ExportRecord::build(&edge_result(), None);
    assert_eq!(rec.download_speed_bytes_per_sec, Some(7));
    let row = CsvRow::from_record(&rec);
    assert_eq!(row.reasons, "a; b");
    assert_eq!((row.id, row.port, row.status_code), (42, 443, Some(403)));
    assert_eq!((row.colo.as_str(), row.city.as_str()), ("LAX", "Los Angeles"));
    assert_eq!(row.speedtest_handshake, "");
}

#[test]
fn the_latest_measurement_of_a_target_counts() {
    let first = SpeedExport { bytes_per_second: Some(1), ..SpeedExport::default() };
    let second = SpeedExport { bytes_per_second: Some(2), ..SpeedExport::default() };
    let entries = vec![(target(1), first), (target(2), second.copy()), (target(1), second)];
    assert_eq!(speed_for(&entries, target(1)).unwrap().bytes_per_second, Some(2));
    assert!(speed_for(&entries, target(3)).is_none());
}

#[test]
fn targets_are_tested_as_they_were_found() {
    let hints = vec![(target(8080), false), (target(80), true)];
    assert!(!use_tls(&hints, target(8080)));
    assert!(use_tls(&hints, target(80)));
    assert!(use_tls(&hints, target(443)));
    assert!(!use_tls(&vec![], target(80)));
}

#[test]
fn only_edges_are_measured_after_a_detection() {
    let mut other = edge_result();
    other.result.as_mut().unwrap().is_cloudflare_edge = false;
    let failed = BatchResult { result: None, ..edge_result() };
    assert_eq!(speed_targets(&vec![other, edge_result(), failed]), vec![(target(443), true)]);
}

#[test]
fn a_speed_test_alone_tells_what_it_measured() {
    let ok = speed_only_result(3, target(80), true);
    let d = ok.result.unwrap();
    assert!(d.is_usable && d.is_tls && !d.is_cloudflare_edge);
    assert_eq!(d.reasons, vec!["speedtest succeeded"]);
    assert!(ok.error.is_none());
    let bad = speed_only_result(4, target(80), false);
    assert_eq!(bad.error.as_deref(), Some("speedtest failed or cancelled"));
    let d = bad.result.unwrap();
    assert!(!d.is_usable && !d.is_tls);
    assert_eq!(d.confidence_reason, "speedtest command: edge detection skipped");
}

#[test]
fn booleans_are_written_as_letters() {
    assert_eq!(bool_yn(true), "Y");
    assert_eq!(bool_yn(false), "N");
}
