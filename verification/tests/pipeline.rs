use cfrp_detector::masscan_pipeline::{
    asn_label, count_edges, ip_batch_label, ip_label, ExportCsvRow,
};
use cfrp_detector::{
    guess_tls_by_port, AsnTask, BatchResult, Confidence, DetectionResult, Duration, EdgeInfo,
    IpAddr, Ipv4Addr, MasscanPipeline, OpenPort, PipelineAsnTask, PipelineOptions, PipelineOutput,
    PipelineResult, Target,
};

fn v4(a: u8, b: u8, c: u8, d: u8) -> IpAddr {
    IpAddr::V4(Ipv4Addr::new(a, b, c, d))
}

fn found(port: u16, edge: bool, tls: bool) -> BatchResult {
    BatchResult {
        id: 0,
        target: Target::new(v4(10, 0, 0, 1), port),
        result: Some(DetectionResult {
            is_cloudflare_edge: edge,
            is_tls: tls,
            ..Default::default()
        }),
        error: None,
    }
}

#[test]
fn pipeline_options_default_values() {
    let opts = PipelineOptions::default();
    assert!(!opts.speedtest);
    assert_eq!(opts.speedtest_threads, 0);
    assert_eq!(opts.concurrency, 0);
    assert_eq!(opts.speedtest_url_path, "");
    assert_eq!(opts.output_dir, "");
    assert_eq!(opts.probe_timeout_secs, 0);
    assert_eq!(opts.tls_session_cache, 0);
}

#[test]
fn build_output_filename_safe_chars() {
    assert_eq!(
        MasscanPipeline::build_output_filename("AS45102", true, "443"),
        "AS45102-true-443.csv"
    );
    assert_eq!(
        MasscanPipeline::build_output_filename("AS1", false, "443,8443"),
        "AS1-false-443-8443.csv"
    );
    assert_eq!(
        MasscanPipeline::build_output_filename("IP-batch", true, "1-65535"),
        "IP-batch-true-1to65535.csv"
    );
}

#[test]
fn build_output_filename_replaces_three_special_chars() {
    assert_eq!(
        MasscanPipeline::build_output_filename("X", false, "80,443,2053,8443"),
        "X-false-80-443-2053-8443.csv"
    );
    assert_eq!(
        MasscanPipeline::build_output_filename("X", true, "8080/8443"),
        "X-true-8080to8443.csv"
    );
    assert_eq!(
        MasscanPipeline::build_output_filename("X", true, "1-65535/1024,2048"),
        "X-true-1to65535to1024-2048.csv"
    );
}

#[test]
fn pipeline_asn_task_from_crate_asn_task() {
    let raw = AsnTask { asn: 45102, ports: "443".into(), tls: true };
    let t: PipelineAsnTask = raw.into();
    assert_eq!(t.asn, 45102);
    assert_eq!(t.ports, "443");
    assert!(t.tls);
}

#[test]
fn pipeline_asn_task_from_impl_roundtrip() {
    let original = AsnTask { asn: 13335, ports: "443,8443,2053".into(), tls: false };
    let task: PipelineAsnTask = original.clone().into();
    assert_eq!(task.asn, original.asn);
    assert_eq!(task.ports, original.ports);
    assert_eq!(task.tls, original.tls);
}

#[test]
fn pipeline_result_and_output_fields() {
    let out = PipelineOutput {
        label: "AS45102".into(),
        tls_flag: true,
        ports: "443".into(),
        output_path: "AS45102-true-443.csv".into(),
        masscan_duration_secs: 10,
        detection_duration_secs: 20,
        open_ports_count: 100,
        detection_results_count: 100,
        cloudflare_edges_count: 75,
    };
    let res = PipelineResult { outputs: vec![out], total_duration_secs: 30 };
    assert_eq!(res.outputs.len(), 1);
    assert_eq!(res.outputs[0].cloudflare_edges_count, 75);
    assert_eq!(res.total_duration_secs, 30);
}

#[test]
fn new_pipeline_stores_opts() {
    let opts = PipelineOptions {
        concurrency: 50,
        output_dir: "/tmp/out".into(),
        ..Default::default()
    };
    let p = MasscanPipeline::new(opts.clone());
    assert_eq!(p.opts.concurrency, 50);
    assert_eq!(p.opts.output_dir, "/tmp/out");
}

#[test]
fn open_ports_to_targets_maps_ip_and_port() {
    let ops = vec![
        OpenPort { ip: v4(10, 0, 0, 1), port: 443 },
        OpenPort { ip: v4(10, 0, 0, 2), port: 80 },
    ];
    let ts = MasscanPipeline::open_ports_to_targets(&ops, true);
    assert_eq!(ts.len(), 2);
    assert_eq!(ts[0].port, 443);
    assert_eq!(ts[1].port, 80);
}

#[test]
fn open_ports_to_targets_handles_zero_port() {
    let ops = vec![OpenPort { ip: v4(10, 0, 0, 1), port: 0 }];
    let ts_tls = MasscanPipeline::open_ports_to_targets(&ops, true);
    assert_eq!(ts_tls[0].port, 443);
    let ts_plain = MasscanPipeline::open_ports_to_targets(&ops, false);
    assert_eq!(ts_plain[0].port, 80);
}

#[test]
fn export_csv_row_owned_no_lifetime_trap() {
    let target = Target::new(v4(1, 1, 1, 1), 443);
    let br = BatchResult {
        id: 99,
        target: target.clone(),
        result: Some(DetectionResult {
            is_cloudflare_edge: true,
            is_tls: true,
            is_usable: true,
            confidence: Confidence::Low,
            confidence_reason: "r".into(),
            reasons: vec!["a".into(), "b".into()],
            edge_info: Some(EdgeInfo {
                colo_code: Some("SIN".into()),
                latency: Some(Duration::from_micros(5_123)),
                ..Default::default()
            }),
            http_status_code: Some(403),
        }),
        error: Some("boom".into()),
    };
    let row = {
        let r_ref = &br;
        ExportCsvRow::from_batch(r_ref, Some(123456))
    };
    assert_eq!(row.target, target.to_string());
    assert_eq!(row.ip, "1.1.1.1");
    assert_eq!(row.port, 443);
    assert!(row.is_cloudflare_edge);
    assert!(row.is_tls);
    assert!(row.is_usable);
    assert_eq!(row.status_code, "403");
    assert_eq!(row.colo, "SIN");
    assert_eq!(row.confidence, "LOW");
    assert_eq!(row.confidence_reason, "r");
    assert_eq!(row.reasons, "a; b");
    assert_eq!(row.error, "boom");
    assert_eq!(row.latency_ms, "5");
    assert_eq!(row.download_speed_bytes_per_sec, "123456");
}

#[test]
fn export_csv_row_defaults_when_result_none() {
    let target = Target::new(v4(8, 8, 8, 8), 53);
    let br = BatchResult { id: 0, target: target.clone(), result: None, error: None };
    let row = ExportCsvRow::from_batch(&br, None);
    assert_eq!(row.target, target.to_string());
    assert_eq!(row.ip, "8.8.8.8");
    assert_eq!(row.port, 53);
    assert!(!row.is_cloudflare_edge);
    assert!(!row.is_tls);
    assert!(!row.is_usable);
    assert!(row.status_code.is_empty());
    assert!(row.colo.is_empty());
    assert!(row.country.is_empty());
    assert!(row.region.is_empty());
    assert!(row.city.is_empty());
    assert!(row.latency_ms.is_empty());
    assert!(row.download_speed_bytes_per_sec.is_empty());
    assert_eq!(row.confidence, "NONE");
    assert!(row.confidence_reason.is_empty());
    assert!(row.reasons.is_empty());
    assert!(row.error.is_empty());
}

#[test]
fn export_csv_row_speed_prefers_explicit_over_edge_info() {
    let br = BatchResult {
        id: 0,
        target: Target::new(v4(10, 0, 0, 1), 443),
        result: Some(DetectionResult {
            is_cloudflare_edge: true,
            is_tls: true,
            is_usable: true,
            confidence: Confidence::High,
            confidence_reason: "x".into(),
            reasons: Vec::new(),
            edge_info: Some(EdgeInfo {
                download_speed_bytes_per_sec: Some(1_000_000),
                latency: Some(Duration::from_millis(7)),
                ..Default::default()
            }),
            ..Default::default()
        }),
        error: None,
    };
    let with_explicit = ExportCsvRow::from_batch(&br, Some(9_999_999));
    assert_eq!(with_explicit.download_speed_bytes_per_sec, "9999999");
    let without_explicit = ExportCsvRow::from_batch(&br, None);
    assert_eq!(without_explicit.download_speed_bytes_per_sec, "1000000");
}

#[test]
fn names_of_files_hold_no_separators() {
    let name = MasscanPipeline::build_output_filename("AS1", true, "1-2,3/4");
    assert_eq!(name, "AS1-true-1to2-3to4.csv");
    assert!(!name.contains('/') && !name.contains(','));
}

#[test]
fn scans_are_labelled_and_summed_up() {
    assert_eq!(asn_label(13335), "AS13335");
    assert_eq!(ip_label(v4(1, 2, 3, 4)), "IP1.2.3.4");
    assert_eq!(ip_batch_label(12), "IPbatch-12");
    let results = vec![found(1, true, true), found(2, false, true), found(3, true, false)];
    assert_eq!(count_edges(&results), 2);
    let out = MasscanPipeline::summarize("L", "80", false, "p.csv".into(), 5, 9, &results);
    assert_eq!((out.label.as_str(), out.ports.as_str(), out.tls_flag), ("L", "80", false));
    assert_eq!(out.output_path, "p.csv");
    assert_eq!((out.masscan_duration_secs, out.detection_duration_secs), (0, 5));
    assert_eq!((out.open_ports_count, out.detection_results_count), (9, 3));
    assert_eq!(out.cloudflare_edges_count, 2);
}

#[test]
fn only_tls_edges_are_measured() {
    let results = vec![found(1, true, true), found(2, false, true), found(3, true, false)];
    let ts = MasscanPipeline::speed_targets(&results);
    assert_eq!(ts, vec![Target::new(v4(10, 0, 0, 1), 1)]);
}

#[test]
fn options_become_configurations() {
    let p = MasscanPipeline::new(PipelineOptions {
        concurrency: 0,
        speedtest_threads: 0,
        speedtest_concurrency: 0,
        probe_timeout_secs: 9,
        tls_session_cache: 33,
        adaptive_min: 2,
        adaptive_max: 50,
        ..Default::default()
    });
    assert_eq!(p.concurrency(), 1);
    assert_eq!(p.speedtest_domain(), "www.cloudflare.com");
    let d = p.detector_config();
    assert_eq!(d.probe.request_timeout, Duration::from_secs(9));
    let a = p.adaptive_config();
    assert_eq!((a.min, a.max), (2, 50));
    assert_eq!(p.speedtest_config().threads(), 1);
    let named = MasscanPipeline::new(PipelineOptions {
        domain: Some("x.example".into()),
        ..Default::default()
    });
    assert_eq!(named.speedtest_domain(), "x.example");
}

#[test]
fn only_port_80_is_taken_for_plain() {
    assert!(!guess_tls_by_port(80));
    assert!(guess_tls_by_port(443));
    assert!(guess_tls_by_port(8080));
}

#[test]
fn the_figures_of_a_run_stand_on_one_line() {
    let out = PipelineOutput {
        label: "AS1".into(),
        tls_flag: true,
        ports: "443".into(),
        output_path: "./AS1.csv".into(),
        masscan_duration_secs: 12,
        detection_duration_secs: 34,
        open_ports_count: 5,
        detection_results_count: 5,
        cloudflare_edges_count: 2,
    };
    assert_eq!(
        out.figures_line(),
        "open=5 edges=2 masscan_sec=12 detect_sec=34 output=./AS1.csv"
    );
}
