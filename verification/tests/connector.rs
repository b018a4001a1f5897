use cfrp_detector::connector::{
    build_http_request, check_chunks, decode_chunked, finish_download, ResponseFault,
    ResponseReader,
};
use cfrp_detector::headers::value_text;
use cfrp_detector::text::decode_lossy;
use cfrp_detector::{
    ConnectorConfig, Duration, HandshakeType, PinnedClientConfig, PinnedDownload, ProbeConfig,
    Timing,
};
use http::{HeaderMap, HeaderValue};

type Read = Result<(u16, HeaderMap, Vec<u8>), ResponseFault>;

fn read_pieces(pieces: &[&[u8]]) -> Read {
    let mut reader = ResponseReader::new();
    for piece in pieces {
        if reader.feed(piece)? {
            break;
        }
    }
    reader.finish()
}

#[test]
fn timing_default_all_none() {
    let t = Timing::default();
    assert!(t.connect_latency.is_none());
    assert!(t.tls_handshake_latency.is_none());
    assert!(t.ttfb_latency.is_none());
}

#[test]
fn decode_chunked_two_chunks() {
    let data = b"5\r\nhello\r\n6\r\n world\r\n0\r\n\r\n";
    let decoded = decode_chunked(data);
    assert_eq!(decoded, b"hello world");
}

#[test]
fn decode_chunked_single_zero_chunk_ends() {
    let data = b"0\r\n\r\n";
    let decoded = decode_chunked(data);
    assert!(decoded.is_empty());
}

#[test]
fn handshake_type_display_and_serde_roundtrip() {
    let cases = [
        (HandshakeType::FullHandshake, "full"),
        (HandshakeType::Resumed, "resumed"),
        (HandshakeType::ZeroRtt, "0rtt"),
    ];
    for (ht, expected_str) in cases {
        assert_eq!(ht.to_string(), expected_str);
        let json = serde_json::to_string(&ht.to_string()).unwrap();
        assert_eq!(json, format!("\"{}\"", expected_str));
        let name: String = serde_json::from_str(&json).unwrap();
        let back = HandshakeType::from_name(&name).unwrap();
        assert_eq!(back.to_string(), expected_str);
    }
}

#[test]
fn build_http_request_includes_extra_headers() {
    let mut hm = HeaderMap::new();
    hm.insert("x-custom", HeaderValue::from_static("hello"));
    let req = build_http_request("GET", "h", "/p", "UA", Some(&hm));
    assert!(req.contains("x-custom: hello\r\n"));
}

#[test]
fn pinned_client_config_default_values() {
    let cfg = PinnedClientConfig::default();
    assert!(cfg.accept_invalid_certs);
    assert!(cfg.tls_session_cache);
    assert_eq!(cfg.tls_session_cache_size, 256);
    assert_eq!(cfg.connect_timeout, Duration::from_secs(2));
}

#[test]
fn build_http_request_get_root() {
    let req = build_http_request("GET", "example.com", "/", "UA/1.0", None);
    assert!(req.starts_with("GET / HTTP/1.1\r\n"));
    assert!(req.contains("Host: example.com\r\n"));
    assert!(req.contains("User-Agent: UA/1.0\r\n"));
    assert!(req.ends_with("\r\n\r\n"));
}

#[test]
fn build_http_request_with_empty_path_becomes_slash() {
    let req = build_http_request("GET", "example.com", "", "UA/1.0", None);
    assert!(req.starts_with("GET / HTTP/1.1\r\n"));
}

#[test]
fn phase3_1_connector_config_alias_works() {
    let _cfg: ConnectorConfig = ConnectorConfig::default();
}

#[test]
fn phase3_1_connector_config_default_values_are_phase3_spec() {
    let cfg = ConnectorConfig::default();
    assert!(
        cfg.accept_invalid_certs,
        "PinnedConnector must accept pinned-invalid certs for endpoint pinning"
    );
    assert!(cfg.tls_session_cache, "session cache enabled by default");
    assert!(
        !cfg.enable_0rtt,
        "0rtt disabled by default (opt-in via allow_0rtt_speedtest)"
    );
    assert!(cfg.connect_timeout.as_millis() > 0);
    assert!(cfg.request_timeout.as_millis() > 0);
    assert!(!cfg.user_agent.is_empty());
    assert!(cfg.tls_session_cache_size > 0);
    assert!(cfg.tls_session_cache_max_entries >= cfg.tls_session_cache_size);
}

#[test]
fn phase3_1_connector_exports_timing_and_handshake_type_in_download() {
    let timing = Timing {
        connect_latency: Some(Duration::from_millis(20)),
        tls_handshake_latency: Some(Duration::from_millis(45)),
        ttfb_latency: Some(Duration::from_millis(90)),
    };
    let dl = PinnedDownload {
        total_bytes: 1_000_000,
        timing: timing.clone(),
        handshake_type: Some(HandshakeType::ZeroRtt),
    };
    assert_eq!(dl.timing.connect_latency.unwrap().as_millis(), 20);
    assert_eq!(dl.timing.tls_handshake_latency.unwrap().as_millis(), 45);
    assert_eq!(dl.timing.ttfb_latency.unwrap().as_millis(), 90);
    assert!(matches!(dl.handshake_type, Some(HandshakeType::ZeroRtt)));
}

#[test]
fn phase3_1_handshake_type_variants_all_constructible() {
    for h in [HandshakeType::FullHandshake, HandshakeType::Resumed, HandshakeType::ZeroRtt] {
        let dl =
            PinnedDownload { total_bytes: 0, timing: Timing::default(), handshake_type: Some(h) };
        assert!(dl.handshake_type.is_some());
    }
}

#[test]
fn phase3_2_pinned_download_struct_has_handshake_type() {
    let dl = PinnedDownload {
        total_bytes: 1024,
        timing: Timing::default(),
        handshake_type: Some(HandshakeType::Resumed),
    };
    assert_eq!(dl.total_bytes, 1024);
    assert!(matches!(dl.handshake_type, Some(HandshakeType::Resumed)));
}

#[test]
fn phase3_2_probe_config_copies_0rtt_to_pinned_client_config() {
    let pc = ProbeConfig {
        allow_0rtt_speedtest: true,
        tls_session_cache_size: 512,
        ..ProbeConfig::default()
    };
    let pinned = pc.to_pinned();
    assert!(pinned.enable_0rtt);
    assert_eq!(pinned.tls_session_cache_max_entries, 512);
}

#[test]
fn phase3_2_probe_config_to_pinned_respects_tls_flags_separately() {
    let pc1 = ProbeConfig {
        allow_0rtt_speedtest: true,
        tls_session_cache_size: 0,
        tls_session_cache: true,
        ..ProbeConfig::default()
    };
    let pinned1 = pc1.to_pinned();
    assert!(pinned1.enable_0rtt);
    assert_eq!(pinned1.tls_session_cache_size, 0);
    assert_eq!(pinned1.tls_session_cache_max_entries, 0);

    let pc2 = ProbeConfig {
        allow_0rtt_speedtest: false,
        tls_session_cache_size: 1024,
        ..ProbeConfig::default()
    };
    let pinned2 = pc2.to_pinned();
    assert!(!pinned2.enable_0rtt);
    assert_eq!(pinned2.tls_session_cache_max_entries, 1024);
}

#[test]
fn a_request_is_written_line_by_line() {
    let mut extra = HeaderMap::new();
    extra.insert("x-a", HeaderValue::from_static("1"));
    extra.insert("x-b", HeaderValue::from_bytes(b"\xff").unwrap());
    extra.append("x-a", HeaderValue::from_static("2"));
    assert_eq!(
        build_http_request("GET", "h", "/p", "UA", Some(&extra)),
        "GET /p HTTP/1.1\r\nHost: h\r\nUser-Agent: UA\r\nAccept: */*\r\nConnection: close\r\n\
         x-a: 1\r\nx-a: 2\r\n\r\n"
    );
}

#[test]
fn a_response_of_known_length_is_read_from_pieces() {
    let mut reader = ResponseReader::new();
    assert_eq!(reader.feed(b"HTTP/1.1 403 Forbidden\r\nServer: cloud"), Ok(false));
    assert_eq!(reader.feed(b"flare\r\nContent-Length:  5 \r\nno colon\r\n\r"), Ok(false));
    assert_eq!(reader.feed(b"\nhel"), Ok(false));
    assert_eq!(reader.feed(b"lo and more"), Ok(true));
    let (status, headers, body) = reader.finish().unwrap();
    assert_eq!(status, 403);
    assert_eq!(headers.get("SERVER").unwrap(), "cloudflare");
    assert_eq!(headers.len(), 2);
    assert_eq!(body, b"hello");
}

#[test]
fn a_chunked_response_ends_with_its_last_chunk() {
    let mut reader = ResponseReader::new();
    let head = b"HTTP/1.1 200 OK\r\nTransfer-Encoding: Chunked\r\n\r\n";
    assert_eq!(reader.feed(head), Ok(false));
    assert_eq!(reader.feed(b"5;x=1\r\nhello\r\n"), Ok(false));
    assert_eq!(reader.feed(b"0\r\n\r\n"), Ok(true));
    let (status, _, body) = reader.finish().unwrap();
    assert_eq!(status, 200);
    assert_eq!(body, b"hello");
}

#[test]
fn a_response_without_length_ends_with_its_connection() {
    let (status, headers, body) =
        read_pieces(&[b"HTTP/1.1 weird\r\nA: 1\r\na: 2\r\n\r\n", b"all ", b"of it"]).unwrap();
    assert_eq!(status, 200);
    assert_eq!(headers.get_all("a").iter().count(), 1);
    assert_eq!(headers.get("a").unwrap(), "2");
    assert_eq!(body, b"all of it");
}

#[test]
fn faulty_responses_are_told_apart() {
    assert_eq!(read_pieces(&[b"HTTP/1.1 200 OK\r\n"]).err(), Some(ResponseFault::NoHeadEnd));
    assert_eq!(read_pieces(&[]).err(), Some(ResponseFault::NoHeadEnd));
    assert_eq!(
        read_pieces(&[b"HTTP/1.1 200 OK\r\nTransfer-Encoding: chunked\r\n\r\n5\r"]).err(),
        Some(ResponseFault::BrokenChunk)
    );
    let mut many = b"HTTP/1.1 200 OK\r\n".to_vec();
    for i in 0..40_000 {
        many.extend_from_slice(format!("x-{i}: 1\r\n").as_bytes());
    }
    many.extend_from_slice(b"\r\n");
    assert_eq!(read_pieces(&[&many]).err(), Some(ResponseFault::TooManyFields));
    assert_eq!(
        ResponseFault::no_head_end().to_string(),
        "HTTP error: invalid HTTP response: no headers terminator"
    );
}

#[test]
fn bytes_that_are_no_utf8_are_replaced_in_a_head() {
    let (status, headers, _) =
        read_pieces(&[b"HTTP/1.1 204 \xff\r\nX: a\xffb\r\nbad name\xff: 1\r\n\r\n"]).unwrap();
    assert_eq!(status, 204);
    assert_eq!(headers.len(), 1);
    assert_eq!(headers.get("x").unwrap().as_bytes(), "a\u{fffd}b".as_bytes());
}

#[test]
fn what_follows_a_head_does_not_change_it() {
    let head: &[u8] = b"HTTP/1.1 301 Moved\r\nLocation: /\r\n\r\n";
    let (s1, h1, b1) = read_pieces(&[head]).unwrap();
    let (s2, h2, b2) = read_pieces(&[head, b"x\r\n\r\nHTTP/1.1 200 OK\r\nA: 1\r\n\r\n"]).unwrap();
    assert_eq!((s1, &h1), (s2, &h2));
    assert!(b1.is_empty());
    assert!(b2.starts_with(b"x\r\n"));
}

#[test]
fn chunks_may_be_cut_short() {
    assert_eq!(decode_chunked(b"a\r\nhello"), b"hello");
    assert_eq!(decode_chunked(b"5\r\nhello"), b"hello");
    assert_eq!(decode_chunked(b"zz\r\nhello"), b"");
    assert_eq!(decode_chunked(b" +5 ; ext\r\nhello\r\n"), b"hello");
    assert!(check_chunks(b"5\r\nhello"));
    assert!(!check_chunks(b"5\r"));
    assert!(!check_chunks(b"1\r\na\r\n5\r"));
    assert!(!check_chunks(b"ffffffffffffffff\r\nhello"));
}

#[test]
fn only_success_counts_as_a_download() {
    let timing = Timing { connect_latency: Some(Duration::from_millis(3)), ..Timing::default() };
    let d = finish_download(206, &vec![1, 2, 3], timing, None).unwrap();
    assert_eq!(d.total_bytes, 3);
    assert_eq!(d.timing, timing);
    assert!(d.handshake_type.is_none());
    let e = finish_download(302, &vec![1], timing, None).unwrap_err();
    assert_eq!(e.to_string(), "HTTP error: download failed with HTTP 302");
}

#[test]
fn sessions_are_kept_up_to_the_larger_setting() {
    let cfg = |size: usize, entries: usize| PinnedClientConfig {
        tls_session_cache_size: size,
        tls_session_cache_max_entries: entries,
        ..PinnedClientConfig::default()
    };
    assert_eq!(cfg(7, 11).session_capacity(), 11);
    assert_eq!(cfg(12, 11).session_capacity(), 12);
    assert_eq!(cfg(0, 0).session_capacity(), 1);
}

#[test]
fn handshakes_are_classified_and_named() {
    assert_eq!(HandshakeType::classify(false, true), HandshakeType::FullHandshake);
    assert_eq!(HandshakeType::classify(true, false), HandshakeType::Resumed);
    assert_eq!(HandshakeType::classify(true, true), HandshakeType::ZeroRtt);
    assert_eq!(HandshakeType::from_name("Full"), None);
    assert_eq!(HandshakeType::ZeroRtt.variant_name(), "ZeroRtt");
}

#[test]
fn values_are_read_as_visible_text() {
    assert_eq!(value_text(&b"a\tb".to_vec()), Some(vec!['a', '\t', 'b']));
    assert_eq!(value_text(&b"a\x7f".to_vec()), None);
    assert_eq!(value_text(&vec![0xc3, 0xa9]), None);
}

#[test]
fn sent_chunks_are_read_back() {
    let pieces: [&[u8]; 3] = [b"a", b"0123456789abcdef", b"tail"];
    let mut sent = Vec::new();
    for piece in pieces {
        sent.extend_from_slice(format!("{:x}\r\n", piece.len()).as_bytes());
        sent.extend_from_slice(piece);
        sent.extend_from_slice(b"\r\n");
    }
    sent.extend_from_slice(b"0\r\n\r\n");
    assert!(check_chunks(&sent));
    assert_eq!(decode_chunked(&sent), pieces.concat());
}

#[test]
fn bytes_are_read_as_text() {
    assert_eq!(decode_lossy("h\u{e9}llo \u{1f310}".as_bytes()), "h\u{e9}llo \u{1f310}");
    assert_eq!(decode_lossy(b""), "");
    assert_eq!(decode_lossy(b"a\xffb"), "a\u{fffd}b");
    assert_eq!(decode_lossy(b"\xf0\x9f\x8c"), "\u{fffd}");
}

#[test]
fn repeated_fields_take_no_room() {
    let mut many = b"HTTP/1.1 200 OK\r\n".to_vec();
    for i in 0..40_000 {
        many.extend_from_slice(format!("x-{}: {i}\r\n", i % 10).as_bytes());
    }
    many.extend_from_slice(b"\r\n");
    let (status, headers, _) = read_pieces(&[&many]).unwrap();
    assert_eq!((status, headers.len()), (200, 10));
    assert_eq!(headers.get("x-3").unwrap(), "39993");
}
