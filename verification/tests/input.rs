use cfrp_detector::input::{
    collect_file, collect_json, collect_lines, collect_listed, collect_objects, collect_rows,
    collect_separated, collect_strings, collect_targets, extension, input_kind, parse_target,
    CollectError, CsvInputRow, InputFault, InputFile, InputKind, InputTarget, DEFAULT_PORT,
};
use cfrp_detector::{IpAddr, Ipv4Addr, Ipv6Addr, Target};
use std::path::PathBuf;

fn v4(a: u8, b: u8, c: u8, d: u8) -> IpAddr {
    IpAddr::V4(Ipv4Addr::new(a, b, c, d))
}

fn read(s: &str, port: u16) -> Option<(IpAddr, u16)> {
    parse_target(s, port).ok().flatten().map(|t| (t.ip, t.port))
}

fn fault(s: &str) -> InputFault {
    parse_target(s, 443).unwrap_err().fault
}

#[test]
fn parse_v6_with_colon_port_split() {
    let raw = "[fd00::1]:53";
    let (ip, port) = raw.rsplit_once(':').unwrap();
    let ip_clean = ip.trim_matches(['[', ']']);
    assert_eq!(ip_clean, "fd00::1");
    assert_eq!(port, "53");
    let t = parse_target(raw, 443).unwrap().unwrap();
    assert_eq!(t.ip.to_string(), "fd00::1");
    assert_eq!(t.port, 53);
}

#[test]
fn parse_socket_addr_with_port() {
    let got = read("127.0.0.1:8080", 443).unwrap();
    assert_eq!(got.0, v4(127, 0, 0, 1));
    assert_eq!(got.1, 8080);
}

#[test]
fn parse_ip_only_uses_default_port() {
    let got = read("8.8.8.8", 443).unwrap();
    assert_eq!(got.0, v4(8, 8, 8, 8));
    assert_eq!(got.1, 443);
}

#[test]
fn parse_ipv6_bracketed_with_port() {
    let got = read("[::1]:8443", 443).unwrap();
    assert_eq!(got.0, IpAddr::V6(Ipv6Addr::new(0, 0, 0, 0, 0, 0, 0, 1)));
    assert_eq!(got.1, 8443);
}

#[test]
fn parse_ipv6_unbracketed_without_port() {
    let got = read("2606:4700::1", 443).unwrap();
    assert_eq!(got.1, 443);
}

#[test]
fn parse_empty_string_returns_none() {
    assert!(read("", 443).is_none());
    assert!(read("   ", 443).is_none());
}

#[test]
fn parse_invalid_string_returns_none() {
    assert!(read("definitely-not-valid", 443).is_none());
    assert!(read("1.2.3.4.5.6", 443).is_none());
    assert!(read("1.2.3.4:99999", 443).is_none());
}

#[test]
fn parse_ipv6_socket_addr_formal() {
    let got = read("[2001:db8::1]:80", 443).unwrap();
    assert_eq!(got.1, 80);
}

#[test]
fn parse_trims_whitespace() {
    let got = read("  1.1.1.1:443  ", 80).unwrap();
    assert_eq!(got.0, v4(1, 1, 1, 1));
    assert_eq!(got.1, 443);
}

#[test]
fn json_input_array_of_strings() {
    let raw = r#"["1.1.1.1:443","1.0.0.1"]"#;
    let as_list: Vec<String> = serde_json::from_str(raw).unwrap();
    assert_eq!(as_list.len(), 2);
    let targets = collect_json(raw, &None, DEFAULT_PORT).unwrap();
    assert_eq!(
        targets,
        vec![Target::new(v4(1, 1, 1, 1), 443), Target::new(v4(1, 0, 0, 1), 443)]
    );
}

#[test]
fn json_input_array_of_objects() {
    let raw = r#"[{"ip":"8.8.8.8","port":53}]"#;
    let value: serde_json::Value = serde_json::from_str(raw).unwrap();
    let as_list: Vec<InputTarget> = value
        .as_array()
        .unwrap()
        .iter()
        .map(|v| InputTarget {
            ip: v["ip"].as_str().unwrap().to_string(),
            port: v["port"].as_u64().unwrap() as u16,
        })
        .collect();
    assert_eq!(as_list.len(), 1);
    let targets = collect_json(raw, &Some(as_list), DEFAULT_PORT).unwrap();
    assert_eq!(targets, vec![Target::new(v4(8, 8, 8, 8), 53)]);
}

#[test]
fn phase4_4_output_format_inference_check_extension() {
    fn check(ext: &str) {
        let _p = PathBuf::from(format!("/tmp/x.{ext}"));
        let found: String = extension(&format!("/tmp/x.{ext}")).unwrap().into_iter().collect();
        assert_eq!(found, ext);
    }
    check("txt");
    check("csv");
    check("json");
}

#[test]
fn faults_are_told_apart() {
    assert_eq!(fault("1.2.3.4:99999"), InputFault::Port);
    assert_eq!(fault("1.2.3.4:"), InputFault::Port);
    assert_eq!(fault("host:80"), InputFault::Address);
    assert_eq!(fault("host"), InputFault::Form);
    assert_eq!(parse_target("  host ", 443).unwrap_err().text, "host");
    assert_eq!(read("[1.2.3.4]:80", 443), Some((v4(1, 2, 3, 4), 80)));
    assert_eq!(read("fd00::1]:+53", 443).map(|t| t.1), Some(53));
}

#[test]
fn targets_are_read_from_lists() {
    let texts: Vec<String> =
        ["1.1.1.1", " ", "2.2.2.2:80"].iter().map(|s| s.to_string()).collect();
    let want = vec![Target::new(v4(1, 1, 1, 1), 443), Target::new(v4(2, 2, 2, 2), 80)];
    assert_eq!(collect_listed(&texts, 443).unwrap(), want);
    assert_eq!(collect_separated("1.1.1.1,, 2.2.2.2:80\n", 443).unwrap(), want);
    assert_eq!(
        collect_lines("# head\n1.1.1.1 # one\n\n2.2.2.2:80\r\n", 443).unwrap(),
        want
    );
    assert_eq!(collect_strings("x", &Some(texts), 443).unwrap(), want);
}

#[test]
fn the_first_fault_ends_a_list() {
    let e = collect_lines("1.1.1.1\nbad # x\nworse\n", 443).unwrap_err();
    assert_eq!((e.fault, e.text.as_str()), (InputFault::Form, "bad"));
    let e = collect_separated("1.1.1.1 x:1", 443).unwrap_err();
    assert_eq!((e.fault, e.text.as_str()), (InputFault::Address, "x:1"));
    let objects = vec![InputTarget { ip: " 1.1.1.1".into(), port: 1 }];
    let e = collect_objects(&objects).unwrap_err();
    assert_eq!((e.fault, e.text.as_str()), (InputFault::ListedAddress, " 1.1.1.1"));
}

#[test]
fn json_that_lists_no_strings_is_refused() {
    let e = collect_json(" [1, 2] ", &None, 443).unwrap_err();
    assert_eq!((e.fault, e.text.as_str()), (InputFault::List, "[1, 2]"));
    let e = collect_json("[\"nowhere\"]", &None, 443).unwrap_err();
    assert_eq!((e.fault, e.text.as_str()), (InputFault::Form, "nowhere"));
    assert_eq!(collect_json("\n[\"\\u0031.1.1.1\"]\n", &None, 7).unwrap()[0].port, 7);
}

#[test]
fn rows_that_cannot_be_read_are_left_out() {
    let row = |ip: &str, port: Option<u16>| Some(CsvInputRow { ip: ip.into(), port });
    let rows = vec![row("1.1.1.1", Some(80)), None, row("2.2.2.2", None)];
    assert_eq!(
        collect_rows(&rows, 443),
        Ok(vec![Target::new(v4(1, 1, 1, 1), 80), Target::new(v4(2, 2, 2, 2), 443)])
    );
    let rows = vec![row("1.1.1.1", None), None, row("x", None)];
    assert_eq!(collect_rows(&rows, 443), Err(2));
}

#[test]
fn files_are_told_by_their_extension() {
    assert_eq!(input_kind("a/b.JSON"), InputKind::Json);
    assert_eq!(input_kind("b.Csv"), InputKind::Csv);
    assert_eq!(input_kind("b.csv/"), InputKind::Csv);
    assert_eq!(input_kind("b.csv/."), InputKind::Csv);
    assert_eq!(input_kind("b.csv/.."), InputKind::Lines);
    assert_eq!(input_kind(".json"), InputKind::Lines);
    assert_eq!(input_kind("dir.json/list"), InputKind::Lines);
    for p in ["a.txt", "a.tar.gz", "x/.hidden", "..", ".", "", "a.", "/", "x.y/.z.w"] {
        let std_ext = PathBuf::from(p).extension().map(|e| e.to_str().unwrap().to_string());
        let own: Option<String> = extension(p).map(|e| e.into_iter().collect());
        assert_eq!(own, std_ext, "{p}");
    }
}

fn shown(r: Result<Vec<Target>, CollectError>) -> Vec<String> {
    r.unwrap().iter().map(|t| t.to_string()).collect()
}

#[test]
fn targets_are_collected_in_the_order_of_their_sources() {
    let listed = vec!["1.1.1.1".to_string(), "  ".to_string(), "[::1]:80".to_string()];
    let file = Some(InputFile::Lines("# a note\n3.3.3.3\n\n4.4.4.4:8443\n".into()));
    assert_eq!(
        shown(collect_targets(&listed, Some("2.2.2.2,2.2.2.3:81"), &file, 443)),
        ["1.1.1.1:443", "[::1]:80", "2.2.2.2:443", "2.2.2.3:81", "3.3.3.3:443", "4.4.4.4:8443"]
    );
    assert_eq!(shown(collect_targets(&listed, None, &None, 8443)), ["1.1.1.1:8443", "[::1]:80"]);
    assert!(shown(collect_targets(&Vec::new(), None, &None, 443)).is_empty());
}

#[test]
fn the_first_faulty_source_is_reported() {
    let good = vec!["1.1.1.1".to_string()];
    let bad = vec!["1.1.1.1:port".to_string()];
    let row = |ip: &str| Some(CsvInputRow { ip: ip.into(), port: Some(1) });
    let rows = Some(InputFile::Rows(vec![row("5.5.5.5"), None, row("nowhere")]));
    match collect_targets(&bad, Some("elsewhere"), &rows, 443) {
        Err(CollectError::Target(e)) => assert_eq!(e.fault, InputFault::Port),
        other => panic!("{other:?}"),
    }
    match collect_targets(&good, Some("elsewhere"), &rows, 443) {
        Err(CollectError::Target(e)) => {
            assert_eq!(e.fault, InputFault::Form);
            assert_eq!(e.text, "elsewhere");
        }
        other => panic!("{other:?}"),
    }
    let direct = collect_rows(&vec![row("5.5.5.5"), None, row("nowhere")], 443).unwrap_err();
    match collect_targets(&good, None, &rows, 443) {
        Err(CollectError::Row(n)) => assert_eq!(n, direct),
        other => panic!("{other:?}"),
    }
}

#[test]
fn files_are_read_by_their_kind() {
    let objects = Some(vec![InputTarget { ip: "6.6.6.6".into(), port: 2053 }]);
    let data = "[{\"ip\":\"6.6.6.6\",\"port\":2053}]".to_string();
    assert_eq!(shown(collect_file(&InputFile::Json { data, objects }, 443)), ["6.6.6.6:2053"]);
    let data = "[\"7.7.7.7\",\"8.8.8.8:53\"]".to_string();
    let file = InputFile::Json { data, objects: None };
    assert_eq!(shown(collect_file(&file, 443)), ["7.7.7.7:443", "8.8.8.8:53"]);
    let file = InputFile::Json { data: "{}".into(), objects: None };
    match collect_file(&file, 443) {
        Err(CollectError::Target(e)) => assert_eq!(e.fault, InputFault::List),
        other => panic!("{other:?}"),
    }
    let file = InputFile::Rows(vec![Some(CsvInputRow { ip: "9.9.9.9".into(), port: None })]);
    assert_eq!(shown(collect_file(&file, 8080)), ["9.9.9.9:8080"]);
}

#[test]
fn a_written_list_is_read_back() {
    let targets = vec![
        Target::new(v4(10, 0, 0, 1), 80),
        Target::new(IpAddr::V6(Ipv6Addr::new(0x2606, 0x4700, 0, 0, 0, 0, 0, 1)), 443),
    ];
    let texts: Vec<String> = targets.iter().map(|t| t.to_string()).collect();
    assert_eq!(collect_listed(&texts, 9).unwrap(), targets);
    assert_eq!(collect_lines(&texts.join("\n"), 9).unwrap(), targets);
}

#[test]
fn errors_tell_what_is_wrong_where() {
    let told = |raw: &str| {
        let listed = vec![raw.to_string()];
        collect_targets(&listed, None, &None, 443).unwrap_err().message("a.txt")
    };
    assert_eq!(told("here"), "invalid target: here");
    assert!(told("1.1.1.1:x").starts_with("invalid port in target: "));
    assert!(told("here:80").starts_with("invalid ip in target: "));
    let objects = Some(vec![InputTarget { ip: "nowhere".into(), port: 1 }]);
    let file = InputFile::Json { data: "[]".into(), objects };
    let e = collect_file(&file, 443).unwrap_err();
    assert_eq!(e.message("a.json"), "invalid ip nowhere in a.json");
    let file = InputFile::Json { data: "{}".into(), objects: None };
    let e = collect_file(&file, 443).unwrap_err();
    assert_eq!(e.message("a.json"), "invalid JSON input format in a.json");
    assert_eq!(CollectError::Row(12).message("a.csv"), "csv row 12 invalid ip");
}
