use cfrp_detector::masscan::{
    asn_url, check_command, choose_command, exit_error, parse_cidr_file, parse_interfaces,
    read_asn_task_file, read_ip_list_file,
};
use cfrp_detector::prefixes::{parse_ipip_asn_html, regex_fallback};
use cfrp_detector::{
    parse_masscan_output, AsnTask, IpAddr, Ipv4Addr, MasscanConfig, MasscanScanner,
    NetworkInterface, OpenPort, ScanMode, ScanPipelineConfig,
};
use std::path::PathBuf;
use tempfile::NamedTempFile;

fn v4(a: u8, b: u8, c: u8, d: u8) -> IpAddr {
    IpAddr::V4(Ipv4Addr::new(a, b, c, d))
}

fn path_text(p: &std::path::Path) -> String {
    p.to_str().unwrap().to_string()
}

fn existing_file(dir: &tempfile::TempDir, prefix: &str) -> NamedTempFile {
    tempfile::Builder::new().prefix(prefix).tempfile_in(dir.path()).unwrap()
}

fn interfaces(names: &[&str]) -> Vec<NetworkInterface> {
    names.iter().map(|n| NetworkInterface { name: n.to_string() }).collect()
}

#[test]
fn masscan_config_default_values() {
    let cfg = MasscanConfig::new();
    assert_eq!(cfg.rate, 10000);
    assert_eq!(cfg.wait_seconds, 3);
    assert_eq!(cfg.asn_cache_dir, "asn");
    assert_eq!(cfg.iface_setting_file, "setting.txt");
    assert!(cfg.interface.is_none());
    assert!(!cfg.user_agent.is_empty());
}

#[test]
fn scan_mode_default_is_single_asn() {
    assert_eq!(ScanMode::default(), ScanMode::SingleAsn);
}

#[test]
fn asn_task_parse_line_valid() {
    let t = AsnTask::parse_line("45102:443:1").unwrap();
    assert_eq!(t.asn, 45102);
    assert_eq!(t.ports, "443");
    assert!(t.tls);

    let t2 = AsnTask::parse_line("132203:80:0").unwrap();
    assert_eq!(t2.asn, 132203);
    assert_eq!(t2.ports, "80");
    assert!(!t2.tls);

    let t3 = AsnTask::parse_line("13335:443,8443:1").unwrap();
    assert_eq!(t3.asn, 13335);
    assert_eq!(t3.ports, "443,8443");
    assert!(t3.tls);
}

#[test]
fn asn_task_parse_line_tls_bool_aliases() {
    assert!(AsnTask::parse_line("1:80:yes").unwrap().tls);
    assert!(AsnTask::parse_line("1:80:Y").unwrap().tls);
    assert!(AsnTask::parse_line("1:80:true").unwrap().tls);
    assert!(!AsnTask::parse_line("1:80:n").unwrap().tls);
    assert!(!AsnTask::parse_line("1:80:false").unwrap().tls);
}

#[test]
fn asn_task_parse_line_invalid() {
    assert!(AsnTask::parse_line("").is_err());
    assert!(AsnTask::parse_line("45102").is_err());
    assert!(AsnTask::parse_line("bad:443:1").is_err());
}

#[test]
fn task_errors_name_the_fault() {
    assert_eq!(
        AsnTask::parse_line("1:2").unwrap_err().to_string(),
        "invalid target: invalid ASN task line: 1:2, expected format ASN:PORT:TLS"
    );
    assert_eq!(
        AsnTask::parse_line("bad:443:1").unwrap_err().to_string(),
        "invalid target: invalid ASN number: bad"
    );
}

#[test]
fn regex_fallback_rejects_ipv6() {
    let line = "2001:db8::/32 is v6 172.16.0.0/12 is v4";
    let out = regex_fallback(line);
    assert_eq!(out, vec!["172.16.0.0/12".to_string()]);
}

#[test]
fn regex_fallback_extracts_cidrs() {
    let line = "prefix: 192.168.1.0/24 other 10.0.0.0/8 end";
    let out = regex_fallback(line);
    assert!(out.contains(&"192.168.1.0/24".into()));
    assert!(out.contains(&"10.0.0.0/8".into()));
}

#[test]
fn scan_pipeline_config_default_values() {
    let cfg = ScanPipelineConfig::default();
    assert_eq!(cfg.detector_concurrency, 100);
    assert!(!cfg.speedtest);
    assert_eq!(cfg.speedtest_threads, 3);
    assert_eq!(cfg.output_dir, ".");
}

#[test]
fn scanner_new_stores_config() {
    let cfg = MasscanConfig { rate: 50000, ..MasscanConfig::new() };
    let s = MasscanScanner::new(cfg.clone());
    assert_eq!(s.cfg.rate, 50000);
    assert_eq!(s.cfg.wait_seconds, cfg.wait_seconds);
}

#[test]
fn resolve_masscan_cmd_falls_back_to_path_binary() {
    let cfg = MasscanConfig::new();
    let s = MasscanScanner::new(cfg);
    let path = s.resolve_masscan_cmd();
    assert_eq!(path, "masscan");
}

#[test]
fn resolve_masscan_cmd_prefers_local_relative_binary() {
    let local = PathBuf::from("./masscan");
    if local.exists() {
        let cfg = MasscanConfig::new();
        let s = MasscanScanner::new(cfg);
        let path = s.resolve_masscan_cmd();
        assert_eq!(PathBuf::from(path), local);
    }
}

#[test]
fn resolve_masscan_cmd_custom_path_nonexistent_falls_back() {
    let dir = tempfile::tempdir().unwrap();
    let missing = dir.path().join("definitely-not-masscan-binary");
    let cfg = MasscanConfig {
        masscan_binary_path: Some(path_text(&missing)),
        ..MasscanConfig::new()
    };
    let s = MasscanScanner::new(cfg);
    assert_eq!(s.resolve_masscan_cmd(), "masscan");
}

#[test]
fn scanner_resolve_masscan_prefers_local_binary_setting() {
    let dir = tempfile::tempdir().unwrap();
    let custom_bin = existing_file(&dir, "custom-masscan");
    let custom = path_text(custom_bin.path());
    let cfg = MasscanConfig { masscan_binary_path: Some(custom.clone()), ..MasscanConfig::new() };
    let s = MasscanScanner::new(cfg);
    let path = s.resolve_masscan_cmd();
    assert_eq!(path, custom);
}

#[test]
fn resolve_masscan_cmd_custom_path_existing_is_used() {
    let dir = tempfile::tempdir().unwrap();
    let fake = existing_file(&dir, "my-masscan");
    let custom = path_text(fake.path());
    let cfg = MasscanConfig { masscan_binary_path: Some(custom.clone()), ..MasscanConfig::new() };
    let s = MasscanScanner::new(cfg);
    assert_eq!(s.resolve_masscan_cmd(), custom);
}

#[test]
fn check_masscan_available_existing_custom_path_returns_ok() {
    let dir = tempfile::tempdir().unwrap();
    let fake = existing_file(&dir, "existing-custom-masscan");
    let custom = path_text(fake.path());
    let cfg = MasscanConfig { masscan_binary_path: Some(custom.clone()), ..MasscanConfig::new() };
    let s = MasscanScanner::new(cfg);
    let got = check_command(s.resolve_masscan_cmd(), fake.path().exists(), false).unwrap();
    assert_eq!(got, custom);
}

#[test]
fn commands_are_chosen_in_order() {
    let custom = Some("/opt/m".to_string());
    assert_eq!(choose_command(&custom, true, true), "/opt/m");
    assert_eq!(choose_command(&custom, false, true), "./masscan");
    assert_eq!(choose_command(&custom, false, false), "masscan");
    assert_eq!(choose_command(&None, true, false), "masscan");
    assert!(check_command("masscan".into(), false, true).is_ok());
    let e = check_command("./masscan".into(), false, true).unwrap_err();
    assert_eq!(
        e.to_string(),
        "data source error: masscan binary not found. Please install masscan or place it at \
         ./masscan"
    );
}

#[test]
fn resolve_interface_uses_explicit_config() {
    let cfg = MasscanConfig { interface: Some("eth123".into()), ..MasscanConfig::new() };
    let s = MasscanScanner::new(cfg);
    let iface = s.configured_interface(None).unwrap();
    assert_eq!(iface, "eth123");
}

#[test]
fn resolve_interface_reads_from_setting_file() {
    let cfg = MasscanConfig { interface: None, ..MasscanConfig::new() };
    let s = MasscanScanner::new(cfg);
    let iface = s.configured_interface(Some(" eth99 \n")).unwrap();
    assert_eq!(iface, "eth99");
}

#[test]
fn resolve_interface_setting_file_empty_or_missing_falls_back() {
    let cfg = MasscanConfig { interface: None, ..MasscanConfig::new() };
    let s = MasscanScanner::new(cfg);
    assert!(s.configured_interface(Some("   \n\t\n")).is_none());
    assert!(s.configured_interface(None).is_none());
    let iface = s.only_interface(&interfaces(&["eth0"])).unwrap();
    assert!(!iface.is_empty());
    let err = s.only_interface(&interfaces(&["eth0", "a\"b"])).unwrap_err();
    let msg = err.to_string();
    assert!(msg.contains("multiple network interfaces"));
    assert_eq!(
        msg,
        "data source error: multiple network interfaces detected ([\"eth0\", \"a\\\"b\"]); \
         please set --interface or write the name to setting.txt"
    );
    let none = s.only_interface(&interfaces(&[])).unwrap_err();
    assert_eq!(none.to_string(), "data source error: no network interfaces detected");
}

#[test]
fn interfaces_are_read_from_the_kernel_table() {
    let table = "Inter-|   Receive  |  Transmit\n face |bytes    packets\n    lo: 1 2 3\n  \
                 eth0: 4 5 6\n wlan0:7\n";
    let names: Vec<String> = parse_interfaces(table).into_iter().map(|i| i.name).collect();
    assert_eq!(names, vec!["eth0", "wlan0"]);
}

#[test]
fn parse_ipip_asn_html_deduplicates() {
    let html = r#"
  <a href="/AS1/10.0.0.0/8">a</a>
  <a href="/AS1/10.0.0.0/8">dup</a>
  <a href="/AS1/10.0.0.0/8">again</a>
  "#;
    let out = parse_ipip_asn_html(html, 1);
    assert_eq!(out.len(), 1);
    assert_eq!(out[0], "10.0.0.0/8");
}

#[test]
fn parse_ipip_asn_html_extracts_cidrs_from_link_hrefs() {
    let html = r#"
  <html>
    <a href="/AS45102/104.16.0.0/12">104.16.0.0/12</a>
    <a href='/AS45102/172.64.0.0/13'>172.64.0.0/13</a>
    <span class="x" data-cidr="/AS45102/104.28.0.0/14">nope</span>
    <a href="/AS13335/1.1.1.0/24">other asn</a>
  </html>
  "#;
    let out = parse_ipip_asn_html(html, 45102);
    assert!(out.contains(&"104.16.0.0/12".into()));
    assert!(out.contains(&"172.64.0.0/13".into()));
    assert!(out.contains(&"104.28.0.0/14".into()));
    assert!(!out.iter().any(|c| c.starts_with("1.1.1.")));
}

#[test]
fn parse_ipip_asn_html_regex_fallback_works() {
    let html = "plain text with 192.168.0.0/16 and 10.0.0.0/8 mentioned without links";
    let out = parse_ipip_asn_html(html, 9999);
    assert!(out.contains(&"192.168.0.0/16".into()));
    assert!(out.contains(&"10.0.0.0/8".into()));
}

#[test]
fn parse_ipip_asn_html_rejects_ipv6_candidates() {
    let html = r#"
  <a href="/AS1/2001:db8::/32">v6</a>
  plain 2001:db8::/32 here
  "#;
    let out = parse_ipip_asn_html(html, 1);
    for cidr in &out {
        assert!(!cidr.contains(':'));
    }
}

#[test]
fn open_port_struct() {
    let op = OpenPort { ip: v4(1, 2, 3, 4), port: 443 };
    assert_eq!(op.port, 443);
    assert_eq!(op.ip, v4(1, 2, 3, 4));
}

#[test]
fn parse_masscan_output_format() {
    let sample = "\
#masscan
open tcp 443 104.16.132.229 1710000000
open tcp 8443 104.17.200.10 1710000001
# end
";
    let parsed = parse_masscan_output(sample);
    assert_eq!(parsed.len(), 2);
    assert_eq!(parsed[0].port, 443);
    assert_eq!(parsed[0].ip, v4(104, 16, 132, 229));
    assert_eq!(parsed[1].port, 8443);
}

#[test]
fn parse_masscan_output_empty_or_comment_lines() {
    let parsed = parse_masscan_output("# only header\n\n# end\n");
    assert!(parsed.is_empty());
}

#[test]
fn parse_masscan_output_malformed() {
    let parsed = parse_masscan_output("open tcp notanumber notanip x\nopen udp 123 1.2.3.4\n");
    assert!(parsed.is_empty());
}

#[test]
fn read_asn_task_file_skips_comments_and_blanks() {
    let tasks = read_asn_task_file("\n# a comment\n45102:443:1\n   \n132203:80:0\n");
    assert_eq!(tasks.len(), 2);
    assert_eq!(tasks[0].asn, 45102);
    assert_eq!(tasks[1].asn, 132203);
}

#[test]
fn task_lines_that_stand_for_none_are_left_out() {
    let tasks = read_asn_task_file("x:1:1\n7:80,443: yes # both\nno task\n");
    assert_eq!(tasks.len(), 1);
    assert_eq!((tasks[0].asn, tasks[0].ports.as_str(), tasks[0].tls), (7, "80,443", true));
}

#[test]
fn read_ip_list_file_skips_comments_and_blanks() {
    let ips = read_ip_list_file("\n# comment\n1.1.1.1\n\n2.2.2.2 # trailing\n").unwrap();
    assert_eq!(ips.len(), 2);
    assert_eq!(ips[0], v4(1, 1, 1, 1));
    assert_eq!(ips[1], v4(2, 2, 2, 2));
}

#[test]
fn a_line_that_is_no_address_fails_the_list() {
    let e = read_ip_list_file("1.1.1.1\n oops # x\n2.2.2.2\n").unwrap_err();
    assert_eq!(e.to_string(), "invalid IP address: oops");
}

#[test]
fn scans_are_run_with_their_arguments() {
    let s = MasscanScanner::new(MasscanConfig { rate: 7, ..MasscanConfig::new() });
    assert_eq!(
        s.masscan_args(Some("l.txt"), Some("1.1.1.1"), "80", "o.txt", "eth0"),
        vec![
            "-p", "80", "-iL", "l.txt", "--wait", "3", "--rate", "7", "-oL", "o.txt",
            "--interface", "eth0"
        ]
    );
    let single = s.masscan_args(None, Some("1.1.1.1"), "80", "o.txt", "eth0");
    assert_eq!(single[2], "1.1.1.1");
    assert_eq!(s.masscan_args(None, None, "80", "o.txt", "eth0").len(), 10);
    assert_eq!(
        exit_error(Some(-1)).to_string(),
        "HTTP error: masscan exited with status Some(-1)"
    );
    assert_eq!(exit_error(None).to_string(), "HTTP error: masscan exited with status None");
}

#[test]
fn kept_prefixes_are_read_line_by_line() {
    assert_eq!(parse_cidr_file(" 10.0.0.0/8 \n\n1.0.0.0/24"), vec!["10.0.0.0/8", "1.0.0.0/24"]);
    assert_eq!(asn_url(13335), "https://whois.ipip.net/AS13335");
}

#[test]
fn the_ports_of_a_task_may_hold_colons() {
    let t = AsnTask::parse_line("13335:443,2053,8443,U:53:1").unwrap();
    assert_eq!((t.asn, t.ports.as_str(), t.tls), (13335, "443,2053,8443,U:53", true));
    let t = AsnTask::parse_line("1::").unwrap();
    assert_eq!((t.asn, t.ports.as_str(), t.tls), (1, "", false));
    let t = AsnTask::parse_line("7:U:53: yes ").unwrap();
    assert_eq!((t.asn, t.ports.as_str(), t.tls), (7, "U:53", true));
    assert!(AsnTask::parse_line(":").is_err());
    assert!(AsnTask::parse_line("::").is_err());
    let tasks = read_asn_task_file("13335:U:53:1 # names\n9\n");
    assert_eq!(tasks.len(), 1);
    assert_eq!(tasks[0].ports, "U:53");
}
