use cfrp_detector::cidr::{parse_list, IpNetLike};
use cfrp_detector::input;
use cfrp_detector::model::parse_target;
use cfrp_detector::net::{parse_ip, parse_socket, IpAddr, Ipv4Addr, Ipv6Addr};
use cfrp_detector::{
    BatchResult, BatchTarget, CidrSource, CloudflareCidrs, CloudflareRanges, DetectionResult, Target,
};
use std::collections::HashSet;

fn v4(a: u8, b: u8, c: u8, d: u8) -> IpAddr {
    IpAddr::V4(Ipv4Addr::new(a, b, c, d))
}

fn v6(s0: u16, s1: u16, s6: u16, s7: u16) -> IpAddr {
    IpAddr::V6(Ipv6Addr::new(s0, s1, 0, 0, 0, 0, s6, s7))
}

fn localhost4() -> IpAddr {
    v4(127, 0, 0, 1)
}

fn localhost6() -> IpAddr {
    v6(0, 0, 0, 1)
}

fn ranges(texts: &[&str]) -> CloudflareRanges {
    CloudflareRanges::from(texts.iter().map(|s| s.to_string()).collect::<Vec<String>>())
}

fn chars(s: &str) -> Vec<char> {
    s.chars().collect()
}

// Targets

#[test]
fn target_display_is_ipv6_safe() {
    let target = Target::new(localhost6(), 443);
    assert_eq!(target.to_string(), "[::1]:443");
}

#[test]
fn target_display_ipv4_plain() {
    let target = Target::new(v4(192, 168, 1, 1), 8080);
    assert_eq!(target.to_string(), "192.168.1.1:8080");
}

#[test]
fn target_equality_and_hash() {
    let t1 = Target::new(v4(1, 1, 1, 1), 443);
    let t2 = Target::new(v4(1, 1, 1, 1), 443);
    let t3 = Target::new(v4(1, 1, 1, 1), 80);
    assert_eq!(t1, t2);
    assert_ne!(t1, t3);
    let mut set = HashSet::new();
    set.insert(t1.clone());
    assert!(set.contains(&t2));
    assert!(!set.contains(&t3));
}

#[test]
fn target_new_constructor() {
    let ip = v4(10, 0, 0, 1);
    let t = Target::new(ip, 8443);
    assert_eq!(t.ip, ip);
    assert_eq!(t.port, 8443);
}

#[test]
fn target_new_with_ipv4() {
    let ip = v4(104, 16, 132, 229);
    let t = Target::new(ip, 443);
    assert_eq!(t.port, 443);
    assert_eq!(t.ip, ip);
}

#[test]
fn target_display_roundtrip_v4() {
    let t = Target::new(v4(104, 18, 241, 5), 443);
    assert_eq!(t.to_string(), "104.18.241.5:443");
}

#[test]
fn target_display_roundtrip_v6() {
    let t = Target::new(v6(0x2606, 0x4700, 0, 1), 8443);
    assert_eq!(t.to_string(), "[2606:4700::1]:8443");
}

#[test]
fn target_can_be_sorted_via_ip_then_port() {
    let t1 = Target::new(v4(1, 0, 0, 1), 80);
    let t2 = Target::new(v4(1, 0, 0, 1), 443);
    let t3 = Target::new(v4(2, 0, 0, 1), 443);
    let mut v = vec![t3.clone(), t1.clone(), t2.clone()];
    v.sort_by(|a, b| a.ip.cmp(&b.ip).then(a.port.cmp(&b.port)));
    assert_eq!(v[0], t1);
    assert_eq!(v[1], t2);
    assert_eq!(v[2], t3);
}

#[test]
fn target_struct_port_stored_correctly() {
    let t = Target::new(v4(104, 16, 132, 1), 8443);
    assert_eq!(t.port, 8443);
}

#[test]
fn target_ip_and_port_can_be_accessed_publicly() {
    let t = Target::new(localhost4(), 8080);
    assert!(matches!(t.ip, IpAddr::V4(_)));
    assert_eq!(t.port, 8080);
}

#[test]
fn batch_target_construction() {
    let t = Target::new(localhost4(), 443);
    let bt = BatchTarget { target: t.clone(), id: 0 };
    assert_eq!(bt.target.ip, t.ip);
    assert_eq!(bt.target.port, t.port);
}

#[test]
fn batch_target_construction_for_detect_batch() {
    let targets: Vec<BatchTarget> = ["1.1.1.1", "1.0.0.1", "8.8.8.8"]
        .iter()
        .map(|s| BatchTarget { target: Target::new(parse_ip(s).unwrap(), 443), id: 0 })
        .collect();
    assert_eq!(targets.len(), 3);
    assert_eq!(targets[1].target.port, 443);
}

#[test]
fn batch_result_fields() {
    let t = Target::new(localhost4(), 443);
    let br = BatchResult {
        target: t.clone(),
        result: Some(DetectionResult::default()),
        error: None,
        id: 0,
    };
    assert!(br.result.is_some());
    assert!(br.error.is_none());
    assert_eq!(br.target, t);
}

#[test]
fn batch_result_with_error() {
    let t = Target::new(localhost4(), 443);
    let br = BatchResult {
        target: t,
        result: None,
        error: Some("connection refused".into()),
        id: 0,
    };
    assert!(br.result.is_none());
    assert_eq!(br.error.as_deref(), Some("connection refused"));
}

#[test]
fn parse_target_happy_v4_with_port() {
    let t = parse_target("1.2.3.4:8080", 443).unwrap();
    assert_eq!(t.port, 8080);
    assert_eq!(t.ip, v4(1, 2, 3, 4));
}

#[test]
fn parse_target_happy_v6_with_bracket() {
    let t = parse_target("[::1]:8443", 443).unwrap();
    assert_eq!(t.port, 8443);
    assert_eq!(t.ip, localhost6());
}

#[test]
fn parse_target_rejects_garbage() {
    assert!(parse_target("not an ip", 443).is_err());
    assert!(parse_target("", 443).is_err());
    assert!(parse_target(":::::", 443).is_err());
    assert!(parse_target("1.2.3.4:99999", 443).is_err());
}

#[test]
fn parse_target_does_not_panic_on_arbitrary_bytes() {
    let cases = [
        "",
        "::::::",
        "[unclosed",
        "999.999.999.999:-1",
        "[::1]:bad",
        "\x00\x01\x02",
        "a]b:c",
    ];
    for c in cases {
        let _ = parse_target(c, 443);
    }
}

#[test]
fn phase4_4_targets_and_target_parsing() {
    let t = parse_target("127.0.0.1", 443).unwrap();
    assert_eq!(t.port, 443);
    let t2 = parse_target("127.0.0.1:8443", 443).unwrap();
    assert_eq!(t2.port, 8443);
    let t3 = parse_target("[::1]:8443", 443).unwrap();
    assert_eq!(t3.port, 8443);
    let err = parse_target("not a target at all", 443);
    assert!(err.is_err());
}

#[test]
fn target_error_names_the_text() {
    assert_eq!(parse_target("nowhere", 443), Err("invalid target: nowhere".to_string()));
}

#[test]
fn target_forms_beside_the_plain_ones() {
    assert_eq!(parse_target("[::1]", 443), Ok(Target::new(localhost6(), 443)));
    assert_eq!(parse_target("[10.0.0.1]:80", 443), Ok(Target::new(v4(10, 0, 0, 1), 80)));
    assert_eq!(parse_target("[10.0.0.1]", 443), Ok(Target::new(v4(10, 0, 0, 1), 443)));
    assert_eq!(parse_target("10.0.0.1:+80", 443), Ok(Target::new(v4(10, 0, 0, 1), 80)));
    assert_eq!(parse_target("[fe80::1%3]:80", 443), Ok(Target::new(v6(0xfe80, 0, 0, 1), 80)));
    assert!(parse_target("[::1]80", 443).is_err());
    assert!(parse_target(" 10.0.0.1", 443).is_err());
}

#[test]
fn written_targets_are_read_back() {
    for t in [
        Target::new(v4(0, 0, 0, 0), 0),
        Target::new(v4(255, 1, 20, 3), 65535),
        Target::new(IpAddr::V6(Ipv6Addr::new(0, 0, 0, 0, 0, 0, 0, 0)), 443),
        Target::new(IpAddr::V6(Ipv6Addr::new(1, 0, 0, 2, 0, 0, 0, 3)), 1),
        Target::new(IpAddr::V6(Ipv6Addr::new(0, 0, 0, 0, 0, 0xffff, 0x0102, 0x0304)), 9),
        Target::new(IpAddr::V6(Ipv6Addr::new(1, 2, 3, 4, 5, 6, 7, 8)), 80),
    ] {
        assert_eq!(parse_target(&t.to_string(), 7), Ok(t));
        assert_eq!(input::parse_target(&t.to_string(), 7).unwrap(), Some(t));
        assert_eq!(parse_target(&t.ip.to_string(), 7), Ok(Target::new(t.ip, 7)));
    }
}

#[test]
fn addresses_are_written_in_their_shortest_form() {
    assert_eq!(IpAddr::V6(Ipv6Addr::new(1, 0, 0, 2, 0, 0, 0, 3)).to_string(), "1:0:0:2::3");
    assert_eq!(IpAddr::V6(Ipv6Addr::new(1, 0, 2, 3, 4, 5, 6, 7)).to_string(), "1:0:2:3:4:5:6:7");
    assert_eq!(
        IpAddr::V6(Ipv6Addr::new(0, 0, 0, 0, 0, 0xffff, 0x7f00, 1)).to_string(),
        "::ffff:127.0.0.1"
    );
    assert_eq!(IpAddr::V6(Ipv6Addr::new(0, 0, 0, 0, 0, 0, 0, 0)).to_string(), "::");
    assert_eq!(v4(1, 20, 255, 0).to_string(), "1.20.255.0");
}

#[test]
fn addresses_are_read_strictly() {
    assert_eq!(parse_ip("1.2.3.04"), None);
    assert_eq!(parse_ip("1.2.3"), None);
    assert_eq!(parse_ip("1.2.3.256"), None);
    assert_eq!(parse_ip("1::2::3"), None);
    assert_eq!(parse_ip("12345::"), None);
    assert_eq!(parse_ip("1:2:3:4:5:6:7"), None);
    assert_eq!(parse_ip("::1.2.3.4"), Some(v6(0, 0, 0x0102, 0x0304)));
    assert_eq!(parse_ip("ABCD::00ef"), Some(v6(0xabcd, 0, 0, 0xef)));
    assert_eq!(Ipv4Addr::new(1, 2, 3, 4).to_u32(), 0x0102_0304);
    assert_eq!(Ipv6Addr::new(1, 0, 0, 0, 0, 0, 0, 2).to_u128(), (1u128 << 112) + 2);
}

// Addresses with a port

#[test]
fn invalid_ip_from_parse_failure() {
    let res = parse_ip("not an ip");
    assert!(res.is_none());
    let e = cfrp_detector::DetectorError::InvalidIp("not an ip".into());
    assert!(e.to_string().contains("invalid IP address"));
}

#[test]
fn socketaddr_from_str_valid_v4() {
    let (ip, port) = parse_socket(&chars("127.0.0.1:443")).unwrap();
    assert_eq!(ip, localhost4());
    assert_eq!(port, 443);
}

#[test]
fn socketaddr_from_str_invalid_propagates() {
    let sa = parse_socket(&chars("not a socket addr"));
    assert!(sa.is_none());
}

// Ranges

#[test]
fn cidr_membership_works_for_v4_and_v6() {
    let r = ranges(&["1.1.0.0/16", "2606:4700::/32"]);
    assert!(r.contains(v4(1, 1, 1, 1)));
    assert!(!r.contains(v4(1, 2, 1, 1)));
    assert!(r.contains(v6(0x2606, 0x4700, 0, 1)));
    assert!(!r.contains(localhost6()));
}

#[test]
fn cidr_ipnet_parse_valid_v4() {
    let n = IpNetLike::parse("10.0.0.0/8").unwrap();
    assert!(n.contains(v4(10, 255, 255, 1)));
    assert!(!n.contains(v4(11, 0, 0, 1)));
}

#[test]
fn cidr_ipnet_parse_valid_v6() {
    let n = IpNetLike::parse("::1/128").unwrap();
    assert!(n.contains(localhost6()));
    assert!(!n.contains(v6(0, 0, 0, 0)));
}

#[test]
fn cidr_ipnet_parse_single_host_v4() {
    let n = IpNetLike::parse("192.168.1.1/32").unwrap();
    assert!(n.contains(v4(192, 168, 1, 1)));
    assert!(!n.contains(v4(192, 168, 1, 2)));
}

#[test]
fn cidr_ipnet_parse_zero_prefix_v4() {
    let n = IpNetLike::parse("0.0.0.0/0").unwrap();
    assert!(n.contains(v4(0, 0, 0, 0)));
    assert!(n.contains(v4(255, 255, 255, 255)));
}

#[test]
fn cidr_ipnet_parse_zero_prefix_v6() {
    let n = IpNetLike::parse("::/0").unwrap();
    assert!(n.contains(localhost6()));
    assert!(n.contains(IpAddr::V6(Ipv6Addr::new(1, 2, 3, 4, 5, 6, 7, 8))));
}

#[test]
fn cidr_ipnet_parse_rejects_invalid() {
    assert!(IpNetLike::parse("not-a-cidr").is_none());
    assert!(IpNetLike::parse("10.0.0.1").is_none());
    assert!(IpNetLike::parse("10.0.0.0/33").is_none());
    assert!(IpNetLike::parse("::1/129").is_none());
    assert!(IpNetLike::parse("::1/-1").is_none());
}

#[test]
fn cidr_cloudflare_ranges_empty() {
    let r = CloudflareRanges::empty();
    assert!(!r.contains(v4(1, 1, 1, 1)));
    assert!(!r.contains(localhost6()));
}

#[test]
fn cidr_cloudflare_ranges_default_is_empty() {
    let r = CloudflareRanges::default();
    assert!(!r.contains(localhost4()));
}

#[test]
fn cidr_from_vec_ignores_invalid() {
    let r = ranges(&["valid garbage", "172.16.0.0/12", "not a cidr"]);
    assert!(r.contains(v4(172, 16, 0, 1)));
    assert!(!r.contains(v4(10, 0, 0, 1)));
}

#[test]
fn cidr_v4_v6_cross_mismatch_returns_false() {
    let r = ranges(&["10.0.0.0/8"]);
    assert!(!r.contains(localhost6()));
    let v6only = ranges(&["fd00::/8"]);
    assert!(!v6only.contains(localhost4()));
}

#[test]
fn cidr_boundary_network_address() {
    let r = ranges(&["192.168.1.0/24"]);
    assert!(r.contains(v4(192, 168, 1, 0)));
}

#[test]
fn cidr_boundary_broadcast_address() {
    let r = ranges(&["192.168.1.0/24"]);
    assert!(r.contains(v4(192, 168, 1, 255)));
}

#[test]
fn cidr_boundary_outside_prefix() {
    let r = ranges(&["192.168.1.0/24"]);
    assert!(!r.contains(v4(192, 168, 2, 0)));
}

#[test]
fn from_vec_handles_empty_list() {
    let r = CloudflareRanges::from(vec![]);
    assert!(!r.contains(localhost4()));
}

#[test]
fn from_vec_handles_whitespace_in_cidr() {
    let r = ranges(&["  10.0.0.0/8  "]);
    assert!(r.contains(v4(10, 0, 0, 1)));
    assert!(!r.contains(v4(11, 0, 0, 1)));
}

#[test]
fn multiple_v4_ranges_all_active() {
    let r = ranges(&["10.0.0.0/8", "172.16.0.0/12", "192.168.0.0/16"]);
    assert!(r.contains(v4(10, 255, 255, 254)));
    assert!(r.contains(v4(172, 31, 255, 254)));
    assert!(r.contains(v4(192, 168, 255, 254)));
    assert!(!r.contains(v4(9, 255, 255, 255)));
}

#[test]
fn multiple_v6_ranges_all_active() {
    let r = ranges(&["2001:db8::/32", "fc00::/7"]);
    assert!(r.contains(v6(0x2001, 0xdb8, 0, 1)));
    assert!(r.contains(v6(0xfc00, 0, 0, 1)));
    assert!(!r.contains(v6(0x2001, 0xdb9, 0, 1)));
}

#[test]
fn cidr_31_prefix_v4_two_hosts() {
    let r = ranges(&["192.168.1.4/31"]);
    assert!(r.contains(v4(192, 168, 1, 4)));
    assert!(r.contains(v4(192, 168, 1, 5)));
    assert!(!r.contains(v4(192, 168, 1, 3)));
    assert!(!r.contains(v4(192, 168, 1, 6)));
}

#[test]
fn cidr_127_prefix_v6_two_hosts() {
    let r = ranges(&["fd00::1/127"]);
    assert!(r.contains(v6(0xfd00, 0, 0, 0)));
    assert!(r.contains(v6(0xfd00, 0, 0, 1)));
    assert!(!r.contains(v6(0xfd00, 0, 0, 2)));
    assert!(!r.contains(v6(0xfd00, 0, 0, 3)));
}

#[test]
fn clone_of_ranges_shares_state() {
    let r1 = ranges(&["10.0.0.0/8"]);
    let r2 = r1.clone();
    assert!(r2.contains(v4(10, 0, 0, 1)));
    drop(r1);
    assert!(r2.contains(v4(10, 0, 0, 1)));
}

#[test]
fn phase4_static_ranges_contains_loopback() {
    let r = ranges(&["127.0.0.0/8", "::1/128"]);
    assert!(r.contains(localhost4()));
    assert!(r.contains(localhost6()));
    assert!(!r.contains(v4(8, 8, 8, 8)));
}

#[test]
fn published_lists_keep_their_family() {
    let mut lists = CloudflareCidrs::default();
    assert!(lists.fetched_at.is_none());
    lists.ipv4.push("10.0.0.0/8".into());
    lists.ipv6.push("11.0.0.0/8".into());
    lists.ipv6.push("fd00::/8".into());
    let r = CloudflareRanges::from_cidrs(lists);
    assert!(r.contains(v4(10, 1, 2, 3)));
    assert!(!r.contains(v4(11, 1, 2, 3)));
    assert!(r.contains(v6(0xfd00, 1, 0, 0)));
}

#[test]
fn downloaded_lists_are_read_line_by_line() {
    let nets = parse_list(b"10.0.0.0/8\r\nnonsense\n\xff\xfe\n::/0");
    assert_eq!(
        nets,
        vec![
            IpNetLike::V4(Ipv4Addr::new(10, 0, 0, 0), 8),
            IpNetLike::V6(Ipv6Addr::new(0, 0, 0, 0, 0, 0, 0, 0), 0),
        ]
    );
    let r = CloudflareRanges::from_lists(b"10.0.0.0/8\n", b"fd00::/8\n");
    assert!(r.contains(v4(10, 0, 0, 1)));
    assert!(r.contains(v6(0xfdff, 0, 0, 1)));
    assert!(!r.contains(v6(0xfe00, 0, 0, 1)));
}
