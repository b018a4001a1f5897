use cfrp_detector::error::{
    matches_io_transient, matches_os_transient, ErrorKind, IoError, NetworkError, Retry, RetryStep,
};
use cfrp_detector::ratio::Ratio;
use cfrp_detector::{classify_resource_error, is_retryable_error, DetectorError, RetryConfig};
use std::io;

fn io_error(e: io::Error) -> IoError {
    let kind = match e.kind() {
        io::ErrorKind::NotFound => ErrorKind::NotFound,
        io::ErrorKind::PermissionDenied => ErrorKind::PermissionDenied,
        io::ErrorKind::ConnectionRefused => ErrorKind::ConnectionRefused,
        io::ErrorKind::ConnectionReset => ErrorKind::ConnectionReset,
        io::ErrorKind::AddrNotAvailable => ErrorKind::AddrNotAvailable,
        io::ErrorKind::BrokenPipe => ErrorKind::BrokenPipe,
        io::ErrorKind::WouldBlock => ErrorKind::WouldBlock,
        io::ErrorKind::TimedOut => ErrorKind::TimedOut,
        io::ErrorKind::Interrupted => ErrorKind::Interrupted,
        io::ErrorKind::OutOfMemory => ErrorKind::OutOfMemory,
        _ => ErrorKind::Other,
    };
    IoError { kind, raw_os_error: e.raw_os_error(), message: e.to_string() }
}

fn os_error(code: i32) -> IoError {
    io_error(io::Error::from_raw_os_error(code))
}

fn kind_error(kind: io::ErrorKind) -> IoError {
    io_error(io::Error::new(kind, "told"))
}

fn network() -> NetworkError {
    NetworkError {
        is_timeout: false,
        is_connect: false,
        is_request: false,
        status: None,
        io_causes: vec![],
        message: "refused by name".into(),
    }
}

#[test]
fn error_invalid_target_display() {
    let e = DetectorError::InvalidTarget("bad".into());
    assert_eq!(e.to_string(), "invalid target: bad");
}

#[test]
fn error_invalid_ip_display() {
    let e = DetectorError::InvalidIp("999.1.1.1".into());
    assert_eq!(e.to_string(), "invalid IP address: 999.1.1.1");
}

#[test]
fn error_invalid_port_display() {
    let e = DetectorError::InvalidPort(0);
    assert_eq!(e.to_string(), "invalid port: 0");
}

#[test]
fn error_http_display() {
    let e = DetectorError::Http("timeout".into());
    assert_eq!(e.to_string(), "HTTP error: timeout");
}

#[test]
fn error_data_source_display() {
    let e = DetectorError::DataSource("missing".into());
    assert_eq!(e.to_string(), "data source error: missing");
}

#[test]
fn error_from_io_error() {
    let io_err = io::Error::new(io::ErrorKind::NotFound, "file missing");
    let e = DetectorError::Io(io_error(io_err));
    assert!(e.to_string().contains("I/O error"));
}

#[test]
fn error_from_json_error() {
    let json_err = serde_json::from_str::<serde_json::Value>("not json").unwrap_err();
    let e = DetectorError::Json(json_err.to_string());
    assert!(e.to_string().contains("JSON error"));
}

#[test]
fn json_into_error() {
    let res: Result<serde_json::Value, _> = serde_json::from_str("{ missing: value }");
    let json_err = res.unwrap_err();
    let e = DetectorError::Json(json_err.to_string());
    assert!(e.to_string().contains("JSON error"));
}

#[test]
fn invalid_target_from_string_parsing_failure() {
    let _e = DetectorError::InvalidTarget("1..1::555".into());
}

#[test]
fn invalid_port_message_shows_value() {
    let e = DetectorError::InvalidPort(65535);
    assert!(e.to_string().contains("65535"));
}

#[test]
fn io_into_error_is_idiomatic() {
    let io = io::Error::new(io::ErrorKind::PermissionDenied, "denied");
    let e = DetectorError::Io(io_error(io));
    let msg = e.to_string();
    assert!(msg.starts_with("I/O error:"));
    assert!(msg.contains("denied"));
}

#[test]
fn detector_error_is_send_and_sync() {
    fn assert_send_sync<T: Send + Sync>() {}
    assert_send_sync::<DetectorError>();
}

#[test]
fn phase4_5_retry_config_defaults() {
    let cfg = RetryConfig::default();
    assert!(cfg.max_attempts >= 2, "max_attempts default should be >=2");
    assert!(cfg.max_backoff_ms > 0);
}

#[test]
fn phase4_5_retry_error_is_retryable_for_connect_and_timeout() {
    let io_err = DetectorError::Io(os_error(104));
    assert!(is_retryable_error(&io_err));
    let refused = DetectorError::Io(os_error(61));
    assert!(is_retryable_error(&refused));
    let http_timeout = DetectorError::Http("speedtest timed out".into());
    assert!(is_retryable_error(&http_timeout));
    let non_retryable = DetectorError::InvalidPort(0);
    assert!(!is_retryable_error(&non_retryable));
}

#[test]
fn resource_error_classify_emfile_like() {
    let err = DetectorError::NetworkIo(os_error(24));
    assert!(classify_resource_error(&err));
}

#[test]
fn resource_error_does_not_classify_normal_error() {
    let io = io::Error::new(io::ErrorKind::NotFound, "not found");
    let err = DetectorError::NetworkIo(io_error(io));
    assert!(!classify_resource_error(&err));
}

#[test]
fn phase3_4_classify_resource_error_known_cases() {
    let e = DetectorError::Io(os_error(24));
    assert!(classify_resource_error(&e));

    let e2 = DetectorError::Http("Too many open files".into());
    assert!(classify_resource_error(&e2));

    let e3 = DetectorError::Tls("connection reset by peer".into());
    assert!(classify_resource_error(&e3));

    let benign = DetectorError::InvalidTarget("nope".into());
    assert!(!classify_resource_error(&benign));

    let inner = DetectorError::Http("Too many open files".into());
    let wrapped = DetectorError::RetriesExceeded { source: Box::new(inner), attempts: 3 };
    assert!(classify_resource_error(&wrapped));
}

#[test]
fn phase3_4_classify_resource_error_network_io_variant_works() {
    let e = DetectorError::NetworkIo(os_error(23));
    assert!(
        classify_resource_error(&e),
        "NetworkIo(ENFILE) should be classified as resource error"
    );

    let e2 = DetectorError::NetworkIo(os_error(100));
    assert!(!classify_resource_error(&e2));
}

#[test]
fn every_variant_has_its_text() {
    let io = IoError { kind: ErrorKind::Other, raw_os_error: None, message: "disk".into() };
    let cases = [
        (DetectorError::Network(network()), "network error: refused by name"),
        (DetectorError::NetworkIo(io.clone()), "network I/O error: disk"),
        (DetectorError::Tls("alert".into()), "TLS error: alert"),
        (DetectorError::Io(io), "I/O error: disk"),
        (DetectorError::Json("eof".into()), "JSON error: eof"),
        (DetectorError::Csv("row".into()), "CSV error: row"),
        (
            DetectorError::RetriesExceeded {
                source: Box::new(DetectorError::InvalidPort(7)),
                attempts: 12,
            },
            "retries exceeded after 12 attempts: invalid port: 7",
        ),
    ];
    for (e, want) in cases {
        assert_eq!(e.to_string(), want);
    }
}

#[test]
fn transient_codes_and_kinds() {
    for code in [4, 32, 60, 61, 98, 99, 104, 107] {
        assert!(matches_os_transient(code), "{code}");
        assert!(matches_io_transient(&os_error(code)), "{code}");
    }
    assert!(!matches_os_transient(2));
    assert!(matches_io_transient(&kind_error(io::ErrorKind::ConnectionRefused)));
    assert!(matches_io_transient(&kind_error(io::ErrorKind::TimedOut)));
    assert!(!matches_io_transient(&kind_error(io::ErrorKind::PermissionDenied)));
}

#[test]
fn network_errors_are_retried_by_their_cause() {
    assert!(!is_retryable_error(&DetectorError::Network(network())));
    assert!(is_retryable_error(&DetectorError::Network(NetworkError {
        is_timeout: true,
        ..network()
    })));
    assert!(!is_retryable_error(&DetectorError::Network(NetworkError {
        is_connect: true,
        io_causes: vec![os_error(2)],
        ..network()
    })));
    assert!(is_retryable_error(&DetectorError::Network(NetworkError {
        is_connect: true,
        io_causes: vec![os_error(2), os_error(104)],
        ..network()
    })));
    assert!(!is_retryable_error(&DetectorError::Network(NetworkError {
        io_causes: vec![os_error(104)],
        ..network()
    })));
    assert!(is_retryable_error(&DetectorError::Network(NetworkError {
        message: "connection reset".into(),
        ..network()
    })));
    assert!(!is_retryable_error(&DetectorError::Json("timed out".into())));
}

#[test]
fn waits_double_up_to_the_ceiling_and_then_the_error_is_wrapped() {
    let mut retry = Retry::new(RetryConfig {
        max_attempts: 4,
        initial_backoff_ms: 100,
        max_backoff_ms: 300,
        backoff_multiplier: Ratio::new(2, 1),
    });
    let mut waits: Vec<u64> = vec![];
    let last = loop {
        match retry.on_error(DetectorError::Http("timed out".into())) {
            RetryStep::Wait(ms) => waits.push(ms),
            RetryStep::Fail(e) => break e,
        }
    };
    assert_eq!(waits, vec![100, 200, 300]);
    assert_eq!(last.to_string(), "retries exceeded after 4 attempts: HTTP error: timed out");
}

#[test]
fn an_error_that_is_not_transient_ends_the_attempts_at_once() {
    let mut retry = Retry::new(RetryConfig::default());
    match retry.on_error(DetectorError::InvalidPort(1)) {
        RetryStep::Fail(e) => assert_eq!(e.to_string(), "invalid port: 1"),
        RetryStep::Wait(ms) => panic!("waited {ms}"),
    }
}

#[test]
fn failures_of_the_server_are_retried() {
    for status in [500, 502, 503, 599] {
        let told = DetectorError::Http(format!("download failed with HTTP {status}"));
        assert!(is_retryable_error(&told), "{status}");
        let network = DetectorError::Network(NetworkError { status: Some(status), ..network() });
        assert!(is_retryable_error(&network), "{status}");
    }
    for status in [200, 404, 429, 499, 600] {
        let told = DetectorError::Http(format!("download failed with HTTP {status}"));
        assert!(!is_retryable_error(&told), "{status}");
        let network = DetectorError::Network(NetworkError { status: Some(status), ..network() });
        assert!(!is_retryable_error(&network), "{status}");
    }
    for told in ["HTTP 50", "HTTP 5000", "HTTP5 503", "HTTP 5x3", "503", ""] {
        assert!(!is_retryable_error(&DetectorError::Http(told.into())), "{told}");
    }
    for told in ["HTTP 503", "got HTTP 503, gave up", "HTTP 404 and then HTTP 504."] {
        assert!(is_retryable_error(&DetectorError::Http(told.into())), "{told}");
    }
}

#[test]
fn no_wait_is_longer_than_the_cap() {
    let waits = |initial_backoff_ms: u64, max_backoff_ms: u64| {
        let mut retry = Retry::new(RetryConfig {
            max_attempts: 4,
            initial_backoff_ms,
            max_backoff_ms,
            backoff_multiplier: Ratio::new(3, 2),
        });
        let mut waits: Vec<u64> = vec![];
        while let RetryStep::Wait(ms) = retry.on_error(DetectorError::Http("timed out".into())) {
            waits.push(ms);
        }
        waits
    };
    assert_eq!(waits(5000, 1000), [1000, 1000, 1000]);
    assert_eq!(waits(0, 1000), [0, 1, 1]);
    assert_eq!(waits(100, 200), [100, 150, 200]);
    assert_eq!(waits(100, 0), [0, 0, 0]);
}
