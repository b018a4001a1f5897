use cfrp_detector::probe::{analyze_headers, unique_snis, HttpProbe, TlsProbe, TlsSearch};
use cfrp_detector::{
    Confidence, Duration, HandshakeType, PinnedHttpResponse, ProbeConfig, Timing,
};
use http::{HeaderMap, HeaderName, HeaderValue, StatusCode};

fn response(status: u16, fields: &[(&'static str, &'static str)]) -> PinnedHttpResponse {
    let mut headers = HeaderMap::new();
    for (name, value) in fields {
        headers.insert(*name, HeaderValue::from_static(value));
    }
    PinnedHttpResponse {
        status,
        headers,
        body: vec![],
        timing: Timing {
            connect_latency: Some(Duration::from_millis(1)),
            tls_handshake_latency: Some(Duration::from_millis(2)),
            ttfb_latency: Some(Duration::from_millis(3)),
        },
        handshake_type: HandshakeType::Resumed,
    }
}

#[test]
fn probe_config_clone() {
    let cfg = ProbeConfig::default();
    let cfg2 = cfg.clone();
    assert_eq!(cfg.connect_timeout, cfg2.connect_timeout);
    assert_eq!(cfg.user_agent, cfg2.user_agent);
}

#[test]
fn unique_snis_with_custom_domain() {
    let snis = unique_snis(Some("example.com"), "www.cloudflare.com");
    assert_eq!(snis.len(), 3);
    assert_eq!(snis[0], "example.com");
    assert_eq!(snis[1], "www.cloudflare.com");
    assert_eq!(snis[2], "");
}

#[test]
fn unique_snis_no_domain() {
    let snis = unique_snis(None, "www.cloudflare.com");
    assert_eq!(snis.len(), 2);
    assert_eq!(snis[0], "www.cloudflare.com");
    assert_eq!(snis[1], "");
}

#[test]
fn unique_snis_empty_domain_treated_as_none() {
    let snis = unique_snis(Some(""), "www.cloudflare.com");
    assert_eq!(snis.len(), 2);
    assert_eq!(snis[0], "www.cloudflare.com");
    assert_eq!(snis[1], "");
}

#[test]
fn unique_snis_dedupes_when_custom_matches_default() {
    let snis = unique_snis(Some("www.cloudflare.com"), "www.cloudflare.com");
    assert_eq!(snis.len(), 2);
    assert_eq!(snis[0], "www.cloudflare.com");
    assert_eq!(snis[1], "");
}

#[test]
fn tls_probe_struct_fields() {
    let probe = TlsProbe {
        working_sni: "test.com".into(),
        cloudflare_trait: true,
        reason: Some("ok".into()),
        handshake_type: HandshakeType::FullHandshake,
        connect_latency: None,
        tls_handshake_latency: None,
        ttfb_latency: None,
    };
    assert_eq!(probe.working_sni, "test.com");
    assert!(probe.cloudflare_trait);
    assert!(probe.reason.is_some());
}

#[test]
fn probe_config_default_values() {
    let cfg = ProbeConfig::default();
    assert_eq!(cfg.connect_timeout, Duration::from_secs(2));
    assert_eq!(cfg.request_timeout, Duration::from_secs(3));
    assert!(cfg.user_agent.contains("CFRP-Detector"));
    assert!(!cfg.default_sni.is_empty());
}

#[test]
fn probe_config_mutate_connect_timeout() {
    let mut cfg = ProbeConfig::default();
    cfg.connect_timeout = Duration::from_millis(500);
    assert_eq!(cfg.connect_timeout, Duration::from_millis(500));
    assert_ne!(cfg.connect_timeout, ProbeConfig::default().connect_timeout);
}

#[test]
fn probe_config_defaults_user_agent_mentions_product() {
    let cfg = ProbeConfig::default();
    assert!(cfg.user_agent.contains("CFRP-Detector"));
}

#[test]
fn probe_config_defaults_default_sni_is_cloudflare() {
    let cfg = ProbeConfig::default();
    assert!(cfg.default_sni.contains("cloudflare"));
}

#[test]
fn analyze_headers_no_cloudflare_traits() {
    let mut headers = HeaderMap::new();
    headers.insert("server", HeaderValue::from_static("nginx"));
    let probe = analyze_headers(StatusCode::OK.as_u16(), &headers);
    assert!(!probe.cloudflare_trait);
    assert!(probe.reasons.is_empty());
    assert_eq!(probe.status, Some(StatusCode::OK.as_u16()));
}

#[test]
fn analyze_headers_server_cloudflare() {
    let mut headers = HeaderMap::new();
    headers.insert("server", HeaderValue::from_static("cloudflare"));
    let probe = analyze_headers(StatusCode::OK.as_u16(), &headers);
    assert!(probe.cloudflare_trait);
    assert!(probe
        .reasons
        .iter()
        .any(|r| r.contains("Server header contains 'cloudflare'")));
}

#[test]
fn analyze_headers_server_cloudflare_case_insensitive() {
    let mut headers = HeaderMap::new();
    headers.insert("server", HeaderValue::from_static("CloudFlare"));
    let probe = analyze_headers(StatusCode::OK.as_u16(), &headers);
    assert!(probe.cloudflare_trait);
}

#[test]
fn analyze_headers_cf_ray_header() {
    let mut headers = HeaderMap::new();
    headers.insert("cf-ray", HeaderValue::from_static("abc123-LAX"));
    let probe = analyze_headers(StatusCode::FORBIDDEN.as_u16(), &headers);
    assert!(probe.cloudflare_trait);
    assert!(probe.reasons.iter().any(|r| r.contains("CF-RAY header")));
    assert_eq!(probe.status, Some(StatusCode::FORBIDDEN.as_u16()));
}

#[test]
fn analyze_headers_both_traits_collects_both_reasons() {
    let mut headers = HeaderMap::new();
    headers.insert("server", HeaderValue::from_static("cloudflare"));
    headers.insert("cf-ray", HeaderValue::from_static("xyz-LHR"));
    let probe = analyze_headers(StatusCode::MOVED_PERMANENTLY.as_u16(), &headers);
    assert!(probe.cloudflare_trait);
    assert_eq!(probe.reasons.len(), 2);
}

#[test]
fn http_probe_struct_fields() {
    let probe = HttpProbe {
        status: Some(StatusCode::OK.as_u16()),
        cloudflare_trait: false,
        reasons: vec!["none".into()],
    };
    assert_eq!(probe.status, Some(StatusCode::OK.as_u16()));
    assert!(!probe.cloudflare_trait);
    assert_eq!(probe.reasons.len(), 1);
}

#[test]
fn header_map_construction_case_insensitive_lookup() {
    let mut h = HeaderMap::new();
    h.insert(HeaderName::from_static("cf-ray"), HeaderValue::from_static("a-LAX"));
    assert!(h.get("cf-ray").is_some());
    assert!(h.get("CF-RAY").is_some());
    assert!(h.get("Cf-Ray").is_some());
}

#[test]
fn status_code_classification_usable_2xx_and_3xx() {
    for code in [200u16, 201, 204, 301, 302, 304, 399] {
        let mut search = TlsSearch::new(None, "d");
        let usable = search.on_response(Some(&response(code, &[]))).is_some();
        assert!(usable, "code {} should be usable", code);
    }
    for code in [100u16, 199, 400, 404, 500, 599] {
        let mut search = TlsSearch::new(None, "d");
        let usable = search.on_response(Some(&response(code, &[]))).is_some();
        assert!(!usable, "code {} should NOT be usable", code);
    }
}

#[test]
fn application_traits_count_logic() {
    for (usable, cf_trait, expected) in
        [(false, false, 0usize), (true, false, 1), (false, true, 1), (true, true, 2)]
    {
        let got = usize::from(usable) + usize::from(cf_trait);
        assert_eq!(got, expected, "usable={usable}, cf_trait={cf_trait}");
    }
}

#[test]
fn confidence_matches_table() {
    let table = vec![
        ((true, 2usize), Confidence::High),
        ((true, 1usize), Confidence::High),
        ((true, 0usize), Confidence::Medium),
        ((false, 2usize), Confidence::Low),
        ((false, 1usize), Confidence::Low),
        ((false, 0usize), Confidence::Absent),
    ];
    for ((in_range, traits), want) in table {
        let got = match (in_range, traits) {
            (true, n) if n > 0 => Confidence::High,
            (true, _) => Confidence::Medium,
            (false, n) if n > 0 => Confidence::Low,
            _ => Confidence::Absent,
        };
        assert_eq!(got, want, "in_range={in_range}, traits={traits}");
    }
}

#[test]
fn a_value_that_is_no_text_names_no_server() {
    let mut headers = HeaderMap::new();
    headers.insert("server", HeaderValue::from_bytes(b"cloudflare\xff").unwrap());
    assert!(!analyze_headers(200, &headers).cloudflare_trait);
}

#[test]
fn reasons_come_in_order() {
    let r = response(200, &[("cf-ray", "1"), ("server", "cloudflare-nginx")]);
    assert_eq!(
        analyze_headers(r.status, &r.headers).reasons,
        vec!["HTTP Server header contains 'cloudflare'", "HTTP response has CF-RAY header"]
    );
}

#[test]
fn names_are_tried_one_after_the_other() {
    let mut search = TlsSearch::new(Some("a.example"), "b.example");
    assert_eq!(search.next_host().as_deref(), Some("a.example"));
    assert!(search.on_response(None).is_none());
    assert_eq!(search.next_host().as_deref(), Some("b.example"));
    assert!(search.on_response(Some(&response(500, &[]))).is_none());
    assert_eq!(search.next_host().as_deref(), Some("b.example"));
    let probe = search.on_response(Some(&response(302, &[("server", "CLOUDFLARE")]))).unwrap();
    assert_eq!(probe.working_sni, "");
    assert!(probe.cloudflare_trait);
    assert_eq!(probe.reason.as_deref(), Some("HTTPS endpoint responded"));
    assert_eq!(probe.handshake_type, HandshakeType::Resumed);
    assert_eq!(probe.connect_latency, Some(Duration::from_millis(1)));
    assert_eq!(probe.tls_handshake_latency, Some(Duration::from_millis(2)));
    assert_eq!(probe.ttfb_latency, Some(Duration::from_millis(3)));
    assert!(search.next_host().is_none());
}

#[test]
fn the_status_of_a_cache_is_a_mark() {
    let r = response(404, &[("CF-Cache-Status", "HIT")]);
    let probe = analyze_headers(r.status, &r.headers);
    assert!(probe.cloudflare_trait);
    assert_eq!(probe.reasons, vec!["HTTP response has CF-Cache-Status header"]);
    let r = response(200, &[("cf-cache-status", "MISS"), ("cf-ray", "1"), ("server", "cloudflare")]);
    assert_eq!(
        analyze_headers(r.status, &r.headers).reasons,
        vec![
            "HTTP Server header contains 'cloudflare'",
            "HTTP response has CF-RAY header",
            "HTTP response has CF-Cache-Status header"
        ]
    );
}

#[test]
fn the_cookies_of_the_network_are_a_mark() {
    let reasons = |values: &[&'static str]| {
        let mut headers = HeaderMap::new();
        for v in values {
            headers.append("set-cookie", HeaderValue::from_static(v));
        }
        let probe = analyze_headers(200, &headers);
        assert_eq!(probe.cloudflare_trait, !probe.reasons.is_empty());
        probe.reasons
    };
    let marked = vec!["HTTP response sets a Cloudflare cookie".to_string()];
    assert_eq!(reasons(&["__cf_bm=abc; path=/; Secure"]), marked);
    assert_eq!(reasons(&["cf_ob_info=200"]), marked);
    assert_eq!(reasons(&["__cf_bm="]), marked);
    assert_eq!(reasons(&["id=1", "__cf_bm=abc", "cf_ob_info=1"]), marked);
    assert!(reasons(&["id=__cf_bm=1", "__cf_bm", "__cf_bmx=1", "cf_ob=1", ""]).is_empty());
    let mut headers = HeaderMap::new();
    headers.insert("cookie", HeaderValue::from_static("__cf_bm=abc"));
    assert!(!analyze_headers(200, &headers).cloudflare_trait);
    let cookie = HeaderValue::from_bytes(b"__cf_bm=\xff").unwrap();
    headers.insert("set-cookie", cookie);
    assert!(analyze_headers(200, &headers).cloudflare_trait);
}
