use cfrp_detector::config::{
    build_adaptive_config, build_detector_config, build_masscan_scanner, build_pipeline_options,
    build_speedtest_config, cf_a_initial, cf_a_max, cf_a_min, cf_a_window, cf_concurrency,
    cf_grace_seconds, cf_probe_timeout_secs, cf_speedtest_concurrency, cf_speedtest_threads,
    cf_speedtest_timeout_secs, cf_speedtest_url_path, cf_tls_session_cache, check_fast,
    infer_format, merge_config, merge_engine_config, merge_scan_config, merge_speedtest_config,
    plan_run, ConfigFile, DetectArgs, EngineConfig, EngineFlags, GlobalArgs, OutputFormat,
    RunPlan, ScanDetectArgs, ScanEngineArgs, ScanSpeedTestArgs, SpeedTestArgs,
};
use cfrp_detector::Duration;

fn global(config: Option<&str>) -> GlobalArgs {
    GlobalArgs { config: config.map(|s| s.to_string()), grace_seconds: None }
}

fn detect_args() -> DetectArgs {
    DetectArgs {
        domain: None,
        input: None,
        output: None,
        format: None,
        concurrency: None,
        adaptive: false,
        a_min: None,
        a_max: None,
        a_initial: None,
        a_window: None,
        progress: false,
        fast: false,
        probe_timeout_secs: None,
        bench: false,
        bench_quick: false,
        governor_report: false,
        no_governor: false,
        tls_session_cache: None,
        speedtest: false,
        speedtest_url_path: None,
        speedtest_threads: None,
        speedtest_timeout_secs: None,
        speedtest_concurrency: None,
        enable_0rtt: false,
        targets: vec![],
    }
}

fn scan_args() -> ScanDetectArgs {
    ScanDetectArgs {
        domain: None,
        concurrency: None,
        adaptive: false,
        a_min: None,
        a_max: None,
        a_initial: None,
        a_window: None,
        progress: false,
        probe_timeout_secs: None,
        governor_report: false,
        no_governor: false,
        tls_session_cache: None,
    }
}

fn engine_args() -> ScanEngineArgs {
    ScanEngineArgs {
        interface: None,
        rate: 10000,
        wait_seconds: 3,
        masscan_binary: None,
        asn_cache_dir: "asn".into(),
        iface_setting_file: "setting.txt".into(),
        output_dir: ".".into(),
    }
}

#[test]
fn build_masscan_scanner_from_engine_args() {
    let engine = ScanEngineArgs {
        rate: 25000,
        interface: Some("enp0s3".into()),
        asn_cache_dir: "/a/cache".into(),
        iface_setting_file: "/a/s.txt".into(),
        masscan_binary: Some("/bin/ms".into()),
        ..engine_args()
    };
    let scanner = build_masscan_scanner(&engine);
    assert_eq!(scanner.cfg.rate, 25000);
    assert_eq!(scanner.cfg.interface.as_deref(), Some("enp0s3"));
    assert_eq!(scanner.cfg.asn_cache_dir, "/a/cache");
    assert_eq!(scanner.cfg.iface_setting_file, "/a/s.txt");
    assert_eq!(scanner.cfg.masscan_binary_path.as_deref(), Some("/bin/ms"));
}

#[test]
fn build_pipeline_options_using_new_args() {
    let engine = ScanEngineArgs { output_dir: "/tmp/outs".into(), ..engine_args() };
    let detect = ScanDetectArgs {
        probe_timeout_secs: Some(5),
        tls_session_cache: Some(512),
        a_min: Some(4),
        a_max: Some(200),
        concurrency: Some(150),
        ..scan_args()
    };
    let cfg = merge_scan_config(ConfigFile::default(), &global(None), detect.clone(), None);
    let opts = build_pipeline_options(&engine, &detect, &cfg, false);
    assert_eq!(opts.probe_timeout_secs, 5);
    assert_eq!(opts.tls_session_cache, 512);
    assert_eq!(opts.adaptive_min, 4);
    assert_eq!(opts.adaptive_max, 200);
    assert_eq!(opts.concurrency, 150);
    assert_eq!(opts.output_dir, "/tmp/outs");
}

#[test]
fn defaults_are_those_of_the_single_settings() {
    let d = ConfigFile::default();
    assert_eq!(d.concurrency, cf_concurrency());
    assert_eq!((d.a_min, d.a_max), (cf_a_min(), cf_a_max()));
    assert_eq!((d.a_initial, d.a_window), (cf_a_initial(), cf_a_window()));
    assert_eq!(d.speedtest_threads, cf_speedtest_threads());
    assert_eq!(d.speedtest_timeout_secs, cf_speedtest_timeout_secs());
    assert_eq!(d.speedtest_concurrency, cf_speedtest_concurrency());
    assert_eq!(d.speedtest_url_path, cf_speedtest_url_path());
    assert_eq!(d.probe_timeout_secs, cf_probe_timeout_secs());
    assert_eq!(d.tls_session_cache, cf_tls_session_cache());
    assert_eq!(d.grace_seconds, cf_grace_seconds());
    assert_eq!((d.concurrency, d.grace_seconds, d.tls_session_cache), (10, 30, 256));
}

#[test]
fn the_command_line_goes_before_the_file() {
    let base = ConfigFile {
        domain: Some("file.example".into()),
        concurrency: 200,
        adaptive: true,
        targets: vec!["1.1.1.1".into()],
        grace_seconds: 60,
        ..ConfigFile::default()
    };
    let kept = merge_config(base.clone(), &global(Some("c.toml")), detect_args());
    assert_eq!(kept.domain.as_deref(), Some("file.example"));
    assert_eq!(kept.concurrency, 200);
    assert!(kept.adaptive);
    assert_eq!(kept.targets, vec!["1.1.1.1"]);
    assert_eq!(kept.grace_seconds, 60);

    let detect = DetectArgs {
        domain: Some("line.example".into()),
        concurrency: Some(10),
        progress: true,
        enable_0rtt: true,
        targets: vec!["2.2.2.2".into()],
        ..detect_args()
    };
    let line = GlobalArgs { config: Some("c.toml".into()), grace_seconds: Some(5) };
    let merged = merge_config(base.clone(), &line, detect.clone());
    assert_eq!(merged.domain.as_deref(), Some("line.example"));
    assert_eq!(merged.concurrency, 10);
    assert!(merged.adaptive && merged.progress && merged.speedtest_0rtt);
    assert_eq!(merged.targets, vec!["1.1.1.1", "2.2.2.2"]);
    assert_eq!(merged.grace_seconds, 5);

    let without_file = merge_config(base, &global(None), detect);
    assert_eq!(without_file.targets, vec!["2.2.2.2"]);
}

#[test]
fn a_speed_test_is_one_whatever_the_settings_say() {
    let st = SpeedTestArgs {
        domain: None,
        input: None,
        output: Some("o.csv".into()),
        format: None,
        url_path: Some("/x".into()),
        threads: Some(9),
        timeout_secs: None,
        concurrency: None,
        enable_0rtt: false,
        tls_session_cache: None,
        progress: false,
        targets: vec!["1.1.1.1".into()],
    };
    let cfg = merge_speedtest_config(ConfigFile::default(), &global(None), st);
    assert!(cfg.speedtest && cfg.speedtest_only);
    assert_eq!((cfg.speedtest_url_path.as_str(), cfg.speedtest_threads), ("/x", 9));
    assert_eq!((cfg.speedtest_timeout_secs, cfg.speedtest_concurrency), (5, 8));
    assert_eq!(infer_format(&cfg), OutputFormat::Csv);
}

#[test]
fn a_scan_takes_its_own_speed_test() {
    let st = ScanSpeedTestArgs {
        enabled: true,
        threads: None,
        url_path: Some("/y".into()),
        timeout_secs: Some(2),
        speedtest_concurrency: None,
    };
    let cfg = merge_scan_config(ConfigFile::default(), &global(None), scan_args(), Some(st));
    assert!(cfg.speedtest && !cfg.speedtest_only);
    assert_eq!((cfg.speedtest_threads, cfg.speedtest_timeout_secs), (3, 2));
    assert_eq!(cfg.speedtest_url_path, "/y");
    let opts = build_pipeline_options(&engine_args(), &scan_args(), &cfg, false);
    assert_eq!(opts.concurrency, 100);
    assert!(opts.speedtest);
}

#[test]
fn settings_become_configurations() {
    let cfg = ConfigFile {
        concurrency: 0,
        tls_session_cache: 1024,
        no_governor: true,
        speedtest_0rtt: true,
        probe_timeout_secs: 7,
        adaptive: true,
        speedtest_threads: 0,
        ..ConfigFile::default()
    };
    let d = build_detector_config(&cfg);
    assert_eq!(d.max_concurrency, 1);
    assert!(!d.governor_enabled && d.probe.allow_0rtt_speedtest);
    assert_eq!(d.governor.fd_safety_headroom, 128);
    assert_eq!(d.probe.request_timeout, Duration::from_secs(7));
    let a = build_adaptive_config(&cfg);
    assert!(a.enabled);
    assert_eq!((a.initial, a.min, a.max, a.window), (16, 1, 128, 10));
    let (speed, conn, domain, path) = build_speedtest_config(&cfg, Duration::from_secs(2));
    assert_eq!(speed.threads_per_target, 1);
    assert_eq!(conn.request_timeout, Duration::from_secs(5));
    assert_eq!(conn.tls_session_cache_max_entries, 1024);
    assert!(conn.enable_0rtt);
    assert_eq!((domain.as_str(), path.as_str()), ("www.cloudflare.com", "/cdn-cgi/trace"));
}

#[test]
fn formats_are_inferred_from_the_output() {
    let with = |output: Option<&str>, format: Option<OutputFormat>| {
        infer_format(&ConfigFile {
            output: output.map(|s| s.to_string()),
            format,
            ..ConfigFile::default()
        })
    };
    assert_eq!(with(Some("a.TXT"), None), OutputFormat::Txt);
    assert_eq!(with(Some("a.text"), None), OutputFormat::Txt);
    assert_eq!(with(Some("a.csv"), None), OutputFormat::Csv);
    assert_eq!(with(Some("a.xml"), None), OutputFormat::Json);
    assert_eq!(with(None, None), OutputFormat::Json);
    assert_eq!(with(Some("a.csv"), Some(OutputFormat::Txt)), OutputFormat::Txt);
}

#[test]
fn formats_are_read_by_name() {
    assert_eq!(OutputFormat::parse("CSV"), Ok(OutputFormat::Csv));
    assert_eq!(OutputFormat::parse("json"), Ok(OutputFormat::Json));
    assert_eq!(OutputFormat::parse("txt"), Ok(OutputFormat::Txt));
    assert!(OutputFormat::parse("xml").is_err());
}

#[test]
fn fast_mode_takes_one_target() {
    assert!(check_fast(1).is_ok());
    assert_eq!(
        check_fast(3),
        Err("--fast mode requires exactly one target (got 3)".to_string())
    );
    assert!(check_fast(0).is_err());
}

#[test]
fn a_run_is_planned_by_the_number_of_targets() {
    let batch = ConfigFile::default();
    assert!(matches!(plan_run(&batch, 0), RunPlan::Nothing));
    assert!(matches!(plan_run(&batch, 1), RunPlan::Batch));
    assert!(matches!(plan_run(&batch, 7), RunPlan::Batch));
    let fast = ConfigFile { fast: true, ..ConfigFile::default() };
    assert!(matches!(plan_run(&fast, 0), RunPlan::Nothing));
    assert!(matches!(plan_run(&fast, 1), RunPlan::Single));
    match plan_run(&fast, 3) {
        RunPlan::Refused(m) => assert_eq!(m, "--fast mode requires exactly one target (got 3)"),
        other => panic!("{other:?}"),
    }
}

#[test]
fn the_settings_of_a_scan_come_in_layers() {
    let bare = EngineFlags {
        interface: None,
        rate: None,
        wait_seconds: None,
        masscan_binary: None,
        asn_cache_dir: None,
        iface_setting_file: None,
        output_dir: None,
    };
    let none =
        EngineConfig { interface: None, rate: None, wait_seconds: None, asn_cache_dir: None };
    let got = merge_engine_config(none, bare.clone());
    assert_eq!(got.interface, None);
    assert_eq!((got.rate, got.wait_seconds), (10000, 3));
    assert_eq!(got.asn_cache_dir, "asn");
    assert_eq!(got.iface_setting_file, "setting.txt");
    assert_eq!(got.output_dir, ".");

    let file = EngineConfig {
        interface: Some("eth0".into()),
        rate: Some(200_000),
        wait_seconds: Some(15),
        asn_cache_dir: Some("/var/cache/asn".into()),
    };
    let got = merge_engine_config(file.clone(), bare.clone());
    assert_eq!(got.interface.as_deref(), Some("eth0"));
    assert_eq!((got.rate, got.wait_seconds), (200_000, 15));
    assert_eq!(got.asn_cache_dir, "/var/cache/asn");
    assert_eq!(build_masscan_scanner(&got).cfg.wait_seconds, 15);

    let flags = EngineFlags {
        interface: Some("eth1".into()),
        rate: Some(7),
        masscan_binary: Some("/opt/masscan".into()),
        asn_cache_dir: Some("here".into()),
        output_dir: Some("out".into()),
        ..bare
    };
    let got = merge_engine_config(file, flags);
    assert_eq!(got.interface.as_deref(), Some("eth1"));
    assert_eq!((got.rate, got.wait_seconds), (7, 15));
    assert_eq!(got.masscan_binary.as_deref(), Some("/opt/masscan"));
    assert_eq!(got.asn_cache_dir, "here");
    assert_eq!(got.output_dir, "out");
}

#[test]
fn a_pipeline_takes_the_concurrency_that_is_given() {
    let concurrency = |given: Option<usize>, held: usize| {
        let detect = ScanDetectArgs { concurrency: given, ..scan_args() };
        let cfg = ConfigFile { concurrency: held, ..ConfigFile::default() };
        build_pipeline_options(&engine_args(), &detect, &cfg, false).concurrency
    };
    assert_eq!(concurrency(Some(10), 300), 10);
    assert_eq!(concurrency(Some(150), 300), 150);
    assert_eq!(concurrency(None, 300), 300);
    assert_eq!(concurrency(None, 7), 100);
}
