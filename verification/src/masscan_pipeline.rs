//! From open ports to a table of edges: the settings of each step, the choice of targets,
//! and the rows of the table.

use vstd::prelude::*;

use crate::connector::PinnedClientConfig;
use crate::detector::{AdaptiveConfig, DetectorConfig};
use crate::error;
use crate::governor;
use crate::masscan::{AsnTask, OpenPort};
use crate::model::{BatchResult, Confidence, EdgeInfo, Target};
use crate::net;
use crate::net::IpAddr;
use crate::numeral;
use crate::speedtest::SpeedTestConfig;
use crate::text;
use crate::time::Duration;

verus! {

/// The settings of a pipeline.
#[derive(Clone, Debug)]
pub struct PipelineOptions {
    pub domain: Option<String>,
    pub concurrency: usize,
    pub speedtest: bool,
    pub speedtest_threads: usize,
    pub speedtest_url_path: String,
    pub speedtest_concurrency: usize,
    pub output_dir: String,
    pub adaptive_min: usize,
    pub adaptive_max: usize,
    pub probe_timeout_secs: u64,
    pub tls_session_cache: usize,
}

impl Default for PipelineOptions {
    fn default() -> (r: Self)
        ensures
            r.domain is None,
            r.concurrency == 0,
            !r.speedtest,
            r.speedtest_threads == 0,
            r.speedtest_url_path@ == Seq::<char>::empty(),
            r.speedtest_concurrency == 0,
            r.output_dir@ == Seq::<char>::empty(),
            r.adaptive_min == 0,
            r.adaptive_max == 0,
            r.probe_timeout_secs == 0,
            r.tls_session_cache == 0,
    {
        PipelineOptions {
            domain: None,
            concurrency: 0,
            speedtest: false,
            speedtest_threads: 0,
            speedtest_url_path: String::new(),
            speedtest_concurrency: 0,
            output_dir: String::new(),
            adaptive_min: 0,
            adaptive_max: 0,
            probe_timeout_secs: 0,
            tls_session_cache: 0,
        }
    }
}

/// An autonomous system that a pipeline works off.
#[derive(Clone, Debug)]
pub struct PipelineAsnTask {
    pub asn: u32,
    pub ports: String,
    pub tls: bool,
}

impl vstd::std_specs::convert::FromSpecImpl<AsnTask> for PipelineAsnTask {
    open spec fn obeys_from_spec() -> bool {
        true
    }

    open spec fn from_spec(t: AsnTask) -> Self {
        PipelineAsnTask { asn: t.asn, ports: t.ports, tls: t.tls }
    }
}

impl From<AsnTask> for PipelineAsnTask {
    fn from(t: AsnTask) -> (r: Self) {
        PipelineAsnTask { asn: t.asn, ports: t.ports, tls: t.tls }
    }
}

/// What a pipeline did for one scan.
#[derive(Clone, Debug)]
pub struct PipelineOutput {
    pub label: String,
    pub tls_flag: bool,
    pub ports: String,
    pub output_path: String,
    pub masscan_duration_secs: u64,
    pub detection_duration_secs: u64,
    pub open_ports_count: usize,
    pub detection_results_count: usize,
    pub cloudflare_edges_count: usize,
}

/// What a pipeline did for several scans.
#[derive(Clone, Debug)]
pub struct PipelineResult {
    pub outputs: Vec<PipelineOutput>,
    pub total_duration_secs: u64,
}

/// Works off scans.
#[derive(Clone, Debug)]
pub struct MasscanPipeline {
    pub opts: PipelineOptions,
}

/// Ports as part of a file name: ranges with `to`, lists with dashes, and no slashes.
pub open spec fn safe_ports(ports: Seq<char>) -> Seq<char> {
    text::replaced(
        text::replaced(text::replaced(ports, '-', "to"@), ',', "-"@),
        '/',
        "to"@,
    )
}

/// The name of the file for a scan.
pub open spec fn output_name(label: Seq<char>, tls: bool, ports: Seq<char>) -> Seq<char> {
    label + "-"@ + (if tls {
        "true"@
    } else {
        "false"@
    }) + "-"@ + safe_ports(ports) + ".csv"@
}

/// Whether a host is taken to speak TLS, going by its port alone.
pub fn guess_tls_by_port(port: u16) -> (r: bool)
    ensures
        r == (port != 80),
{
    port != 80
}

/// The target of an open port. A port of zero stands for that of the protocol.
pub open spec fn target_of(p: OpenPort, tls_hint: bool) -> Target {
    Target {
        ip: p.ip,
        port: if p.port != 0 {
            p.port
        } else if tls_hint {
            443
        } else {
            80
        },
    }
}

/// Whether a result is an edge.
pub open spec fn is_edge(r: BatchResult) -> bool {
    r.result is Some && r.result->0.is_cloudflare_edge
}

/// Whether a result is an edge that speaks TLS.
pub open spec fn is_tls_edge(r: BatchResult) -> bool {
    is_edge(r) && r.result->0.is_tls
}

/// The number of edges.
pub open spec fn edge_count(rs: Seq<BatchResult>) -> int
    decreases rs.len(),
{
    if rs.len() == 0 {
        0
    } else {
        edge_count(rs.drop_last()) + (if is_edge(rs.last()) {
            1int
        } else {
            0
        })
    }
}

/// The targets that are edges and speak TLS, in order.
pub open spec fn tls_edges(rs: Seq<BatchResult>) -> Seq<Target>
    decreases rs.len(),
{
    if rs.len() == 0 {
        Seq::empty()
    } else if is_tls_edge(rs.last()) {
        tls_edges(rs.drop_last()).push(rs.last().target)
    } else {
        tls_edges(rs.drop_last())
    }
}

fn check_edge(r: &BatchResult) -> (b: bool)
    ensures
        b == is_edge(*r),
{
    match &r.result {
        Some(d) => d.is_cloudflare_edge,
        None => false,
    }
}

fn check_tls_edge(r: &BatchResult) -> (b: bool)
    ensures
        b == is_tls_edge(*r),
{
    match &r.result {
        Some(d) => d.is_cloudflare_edge && d.is_tls,
        None => false,
    }
}

/// Counts the edges.
pub fn count_edges(rs: &Vec<BatchResult>) -> (r: usize)
    ensures
        r == edge_count(rs@),
{
    let mut n: usize = 0;
    let mut i: usize = 0;
    while i < rs.len()
        invariant
            i <= rs@.len(),
            n <= i,
            n == edge_count(rs@.take(i as int)),
        decreases rs@.len() - i,
    {
        proof {
            assert(rs@.take(i + 1).drop_last() =~= rs@.take(i as int));
        }
        if check_edge(&rs[i]) {
            n += 1;
        }
        i += 1;
    }
    proof {
        assert(rs@.take(i as int) =~= rs@);
    }
    n
}

impl MasscanPipeline {
    pub fn new(opts: PipelineOptions) -> (r: Self)
        ensures
            r.opts == opts,
    {
        MasscanPipeline { opts }
    }

    /// Names the file for a scan.
    pub fn build_output_filename(label: &str, tls: bool, ports: &str) -> (r: String)
        ensures
            r@ == output_name(label@, tls, ports@),
    {
        let p0 = text::to_chars(ports);
        let s1 = text::replace(&p0, '-', "to");
        let p1 = text::to_chars(s1.as_str());
        let s2 = text::replace(&p1, ',', "-");
        let p2 = text::to_chars(s2.as_str());
        let s3 = text::replace(&p2, '/', "to");
        let mut r = text::owned(label);
        r.append("-");
        if tls {
            r.append("true");
        } else {
            r.append("false");
        }
        r.append("-");
        r.append(s3.as_str());
        r.append(".csv");
        r
    }

    /// The targets of open ports.
    pub fn open_ports_to_targets(open_ports: &Vec<OpenPort>, tls_hint: bool) -> (r: Vec<Target>)
        ensures
            r@ == open_ports@.map_values(|p: OpenPort| target_of(p, tls_hint)),
    {
        let mut r: Vec<Target> = Vec::new();
        let mut i: usize = 0;
        while i < open_ports.len()
            invariant
                i <= open_ports@.len(),
                r@ == open_ports@.take(i as int).map_values(
                    |p: OpenPort| target_of(p, tls_hint),
                ),
            decreases open_ports@.len() - i,
        {
            let p = open_ports[i];
            let port: u16 = if p.port == 0 {
                if tls_hint {
                    443
                } else {
                    80
                }
            } else {
                p.port
            };
            r.push(Target::new(p.ip, port));
            proof {
                assert(r@ =~= open_ports@.take(i + 1).map_values(
                    |p: OpenPort| target_of(p, tls_hint),
                ));
            }
            i += 1;
        }
        proof {
            assert(open_ports@.take(i as int) =~= open_ports@);
        }
        r
    }

    /// The probes at a time, at least one.
    pub fn concurrency(&self) -> (r: usize)
        ensures
            r == governor::max(self.opts.concurrency as int, 1),
    {
        governor::greatest(self.opts.concurrency, 1)
    }

    /// The configuration of the detection.
    pub fn detector_config(&self) -> (r: DetectorConfig)
        ensures
            r.probe.connect_timeout.nanos == 2_000_000_000,
            r.probe.request_timeout.nanos == self.opts.probe_timeout_secs * 1_000_000_000,
            r.probe.user_agent@ == "Mozilla/5.0 (compatible; CFRP-Detector/3.0)"@,
            r.probe.default_sni@ == "www.cloudflare.com"@,
            r.probe.tls_session_cache,
            r.probe.tls_session_cache_size == self.opts.tls_session_cache,
            !r.probe.allow_0rtt_speedtest,
            r.probe.accept_invalid_certs,
            r.max_concurrency == governor::max(self.opts.concurrency as int, 256),
            r.governor_enabled,
            r.governor.wf(),
            r.governor == (governor::ResourceGovernorConfig {
                fd_safety_headroom: governor::max(
                    self.opts.tls_session_cache as int / 8,
                    32,
                ) as usize,
                ..governor::default_config()
            }),
            r.cache.directory@ == "data/cfrpdata"@,
            r.cache.max_age.nanos == 7 * 24 * 3600 * 1_000_000_000,
    {
        let mut cfg = DetectorConfig::default();
        cfg.probe.request_timeout = Duration::from_secs(self.opts.probe_timeout_secs);
        cfg.probe.tls_session_cache_size = self.opts.tls_session_cache;
        cfg.max_concurrency = governor::greatest(self.concurrency(), cfg.max_concurrency);
        cfg.governor.fd_safety_headroom = governor::greatest(self.opts.tls_session_cache / 8, 32);
        cfg
    }

    /// How the number of concurrent probes follows their success.
    pub fn adaptive_config(&self) -> (r: AdaptiveConfig)
        ensures
            r.enabled,
            r.initial == governor::max(self.opts.concurrency as int, 1),
            r.min == governor::max(self.opts.adaptive_min as int, 1),
            r.max == governor::max(self.opts.adaptive_max as int, r.initial as int),
            r.window == 10,
    {
        let n: usize = self.concurrency();
        AdaptiveConfig {
            enabled: true,
            initial: n,
            min: governor::greatest(self.opts.adaptive_min, 1),
            max: governor::greatest(self.opts.adaptive_max, n),
            window: 10,
        }
    }

    /// The targets whose throughput is measured.
    pub fn speed_targets(results: &Vec<BatchResult>) -> (r: Vec<Target>)
        ensures
            r@ == tls_edges(results@),
    {
        let mut r: Vec<Target> = Vec::new();
        let mut i: usize = 0;
        while i < results.len()
            invariant
                i <= results@.len(),
                r@ == tls_edges(results@.take(i as int)),
            decreases results@.len() - i,
        {
            proof {
                assert(results@.take(i + 1).drop_last() =~= results@.take(i as int));
            }
            if check_tls_edge(&results[i]) {
                r.push(results[i].target);
            }
            i += 1;
        }
        proof {
            assert(results@.take(i as int) =~= results@);
        }
        r
    }

    /// How throughput is measured.
    pub fn speedtest_config(&self) -> (r: SpeedTestConfig)
        ensures
            r.timeout.nanos == 5_000_000_000,
            r.threads_per_target == governor::max(self.opts.speedtest_threads as int, 1),
            r.concurrency == governor::max(self.opts.speedtest_concurrency as int, 1),
    {
        SpeedTestConfig {
            timeout: Duration::from_secs(5),
            threads_per_target: governor::greatest(self.opts.speedtest_threads, 1),
            concurrency: governor::greatest(self.opts.speedtest_concurrency, 1),
        }
    }

    /// How endpoints are connected to when their throughput is measured.
    pub fn speedtest_client(&self) -> (r: PinnedClientConfig)
        ensures
            r.connect_timeout.nanos == 2_000_000_000,
            r.request_timeout.nanos == 5_000_000_000,
            r.accept_invalid_certs,
            r.user_agent@ == "Mozilla/5.0 (compatible; CFRP-Detector/3.0)"@,
            r.tls_session_cache,
            r.tls_session_cache_max_entries == governor::max(
                self.opts.tls_session_cache as int,
                128,
            ),
            r.tls_session_cache_size == r.tls_session_cache_max_entries,
            !r.enable_0rtt,
            r.retry == error::default_retry(),
    {
        let mut cfg = PinnedClientConfig::default();
        cfg.connect_timeout = Duration::from_secs(2);
        cfg.request_timeout = Duration::from_secs(5);
        let n: usize = governor::greatest(self.opts.tls_session_cache, 128);
        cfg.tls_session_cache_max_entries = n;
        cfg.tls_session_cache_size = n;
        cfg
    }

    /// The name to ask for when throughput is measured.
    pub fn speedtest_domain(&self) -> (r: String)
        ensures
            r@ == (match self.opts.domain {
                Some(d) => d@,
                None => "www.cloudflare.com"@,
            }),
    {
        match &self.opts.domain {
            Some(d) => d.clone(),
            None => text::owned("www.cloudflare.com"),
        }
    }

    /// Sums up a scan.
    pub fn summarize(
        label: &str,
        ports: &str,
        tls: bool,
        output_path: String,
        detection_duration_secs: u64,
        open_ports_count: usize,
        results: &Vec<BatchResult>,
    ) -> (r: PipelineOutput)
        ensures
            r.label@ == label@,
            r.tls_flag == tls,
            r.ports@ == ports@,
            r.output_path == output_path,
            r.masscan_duration_secs == 0,
            r.detection_duration_secs == detection_duration_secs,
            r.open_ports_count == open_ports_count,
            r.detection_results_count == results@.len(),
            r.cloudflare_edges_count == edge_count(results@),
    {
        PipelineOutput {
            label: text::owned(label),
            tls_flag: tls,
            ports: text::owned(ports),
            output_path,
            masscan_duration_secs: 0,
            detection_duration_secs,
            open_ports_count,
            detection_results_count: results.len(),
            cloudflare_edges_count: count_edges(results),
        }
    }
}

impl PipelineOutput {
    /// The figures of a scan, as they are told.
    pub open spec fn figures(self) -> Seq<char> {
        "open="@ + numeral::decimal(self.open_ports_count as nat) + " edges="@ + numeral::decimal(
            self.cloudflare_edges_count as nat,
        ) + " masscan_sec="@ + numeral::decimal(self.masscan_duration_secs as nat)
            + " detect_sec="@ + numeral::decimal(self.detection_duration_secs as nat)
            + " output="@ + self.output_path@
    }

    /// Writes the figures of a scan.
    pub fn figures_line(&self) -> (r: String)
        ensures
            r@ == self.figures(),
    {
        let mut s = text::owned("open=");
        numeral::push_numeral(&mut s, self.open_ports_count as u128, 10);
        s.append(" edges=");
        numeral::push_numeral(&mut s, self.cloudflare_edges_count as u128, 10);
        s.append(" masscan_sec=");
        numeral::push_numeral(&mut s, self.masscan_duration_secs as u128, 10);
        s.append(" detect_sec=");
        numeral::push_numeral(&mut s, self.detection_duration_secs as u128, 10);
        s.append(" output=");
        s.append(self.output_path.as_str());
        s
    }
}

/// The label of the scan of a system.
pub fn asn_label(asn: u32) -> (r: String)
    ensures
        r@ == "AS"@ + numeral::decimal(asn as nat),
{
    let mut r = text::owned("AS");
    numeral::push_numeral(&mut r, asn as u128, 10);
    r
}

/// The label of the scan of an address.
pub fn ip_label(ip: IpAddr) -> (r: String)
    ensures
        r@ == "IP"@ + net::show_ip(ip),
{
    let mut r = text::owned("IP");
    let s = ip.to_string();
    r.append(s.as_str());
    r
}

/// The label of the scan of several addresses.
pub fn ip_batch_label(n: usize) -> (r: String)
    ensures
        r@ == "IPbatch-"@ + numeral::decimal(n as nat),
{
    let mut r = text::owned("IPbatch-");
    numeral::push_numeral(&mut r, n as u128, 10);
    r
}

proof fn lemma_replaced_without(s: Seq<char>, from: char, to: Seq<char>, c: char)
    requires
        !to.contains(c),
        c == from || !s.contains(c),
    ensures
        !text::replaced(s, from, to).contains(c),
    decreases s.len(),
{
    if s.len() > 0 {
        let d = s.drop_last();
        if c != from {
            assert forall|i: int| 0 <= i < d.len() implies d[i] != c by {
                assert(s.contains(s[i]));
            }
        }
        lemma_replaced_without(d, from, to, c);
        let a = text::replaced(d, from, to);
        let r = text::replaced(s, from, to);
        assert forall|i: int| 0 <= i < r.len() implies r[i] != c by {
            if i < a.len() {
                assert(r[i] == a[i]);
                assert(a.contains(a[i]));
            } else if s.last() == from {
                assert(r[i] == to[i - a.len()]);
                assert(to.contains(to[i - a.len()]));
            } else {
                assert(r[i] == s.last());
                assert(s.contains(s[s.len() - 1]));
            }
        }
    }
}

/// Ports as part of a file name hold neither commas nor slashes.
pub proof fn law_safe_ports(ports: Seq<char>)
    ensures
        !safe_ports(ports).contains(','),
        !safe_ports(ports).contains('/'),
{
    reveal_strlit("to");
    reveal_strlit("-");
    let a = text::replaced(ports, '-', "to"@);
    let b = text::replaced(a, ',', "-"@);
    lemma_replaced_without(a, ',', "-"@, ',');
    lemma_replaced_without(b, '/', "to"@, ',');
    lemma_replaced_without(b, '/', "to"@, '/');
}

// ---------------------------------------------------------------------------
// Rows

/// The text of an optional string, empty where there is none.
pub open spec fn or_empty(o: Option<String>) -> Seq<char> {
    match o {
        Some(s) => s@,
        None => Seq::empty(),
    }
}

pub fn text_or_empty(o: &Option<String>) -> (r: String)
    ensures
        r@ == or_empty(*o),
{
    match o {
        Some(s) => s.clone(),
        None => String::new(),
    }
}

/// What is told of the edge of a result.
pub open spec fn edge_of(br: BatchResult) -> Option<EdgeInfo> {
    match br.result {
        Some(d) => d.edge_info,
        None => None,
    }
}

/// A row of the table.
#[derive(Clone, Debug)]
pub struct ExportCsvRow {
    pub target: String,
    pub ip: String,
    pub port: u16,
    pub is_cloudflare_edge: bool,
    pub is_tls: bool,
    pub is_usable: bool,
    pub status_code: String,
    pub colo: String,
    pub country: String,
    pub region: String,
    pub city: String,
    pub latency_ms: String,
    pub download_speed_bytes_per_sec: String,
    pub confidence: String,
    pub confidence_reason: String,
    pub reasons: String,
    pub error: String,
}

/// The throughput to write down: the one measured, or else the one known of the edge.
pub open spec fn speed_of(br: BatchResult, measured: Option<u64>) -> Option<u64> {
    match measured {
        Some(b) => Some(b),
        None => match edge_of(br) {
            Some(e) => e.download_speed_bytes_per_sec,
            None => None,
        },
    }
}

impl ExportCsvRow {
    /// The row of a result.
    pub fn from_batch(br: &BatchResult, speed_bps: Option<u64>) -> (r: Self)
        ensures
            r.target@ == br.target.show(),
            r.ip@ == net::show_ip(br.target.ip),
            r.port == br.target.port,
            r.is_cloudflare_edge == (br.result is Some && br.result->0.is_cloudflare_edge),
            r.is_tls == (br.result is Some && br.result->0.is_tls),
            r.is_usable == (br.result is Some && br.result->0.is_usable),
            r.status_code@ == (match br.result {
                Some(d) => match d.http_status_code {
                    Some(c) => numeral::decimal(c as nat),
                    None => Seq::empty(),
                },
                None => Seq::empty(),
            }),
            match edge_of(*br) {
                Some(e) => {
                    &&& r.colo@ == or_empty(e.colo_code)
                    &&& r.country@ == or_empty(e.country)
                    &&& r.region@ == or_empty(e.region)
                    &&& r.city@ == or_empty(e.city)
                    &&& r.latency_ms@ == (match e.latency {
                        Some(d) => numeral::decimal(d.millis()),
                        None => Seq::empty(),
                    })
                },
                None => {
                    &&& r.colo@ == Seq::<char>::empty()
                    &&& r.country@ == Seq::<char>::empty()
                    &&& r.region@ == Seq::<char>::empty()
                    &&& r.city@ == Seq::<char>::empty()
                    &&& r.latency_ms@ == Seq::<char>::empty()
                },
            },
            r.download_speed_bytes_per_sec@ == (match speed_of(*br, speed_bps) {
                Some(b) => numeral::decimal(b as nat),
                None => Seq::empty(),
            }),
            r.confidence@ == (match br.result {
                Some(d) => d.confidence.name(),
                None => Confidence::Absent.name(),
            }),
            r.confidence_reason@ == (match br.result {
                Some(d) => d.confidence_reason@,
                None => Seq::empty(),
            }),
            r.reasons@ == (match br.result {
                Some(d) => text::joined(text::strings(d.reasons@), "; "@),
                None => Seq::empty(),
            }),
            r.error@ == or_empty(br.error),
    {
        let mut row = ExportCsvRow {
            target: br.target.to_string(),
            ip: br.target.ip.to_string(),
            port: br.target.port,
            is_cloudflare_edge: false,
            is_tls: false,
            is_usable: false,
            status_code: String::new(),
            colo: String::new(),
            country: String::new(),
            region: String::new(),
            city: String::new(),
            latency_ms: String::new(),
            download_speed_bytes_per_sec: String::new(),
            confidence: text::owned(Confidence::Absent.label()),
            confidence_reason: String::new(),
            reasons: String::new(),
            error: text_or_empty(&br.error),
        };
        let mut speed: Option<u64> = speed_bps;
        if let Some(d) = &br.result {
            row.is_cloudflare_edge = d.is_cloudflare_edge;
            row.is_tls = d.is_tls;
            row.is_usable = d.is_usable;
            if let Some(c) = d.http_status_code {
                row.status_code = numeral::to_decimal(c as u128);
            }
            row.confidence = text::owned(d.confidence.label());
            row.confidence_reason = d.confidence_reason.clone();
            row.reasons = text::join(&d.reasons, "; ");
            if let Some(e) = &d.edge_info {
                row.colo = text_or_empty(&e.colo_code);
                row.country = text_or_empty(&e.country);
                row.region = text_or_empty(&e.region);
                row.city = text_or_empty(&e.city);
                if let Some(l) = e.latency {
                    row.latency_ms = numeral::to_decimal(l.as_millis());
                }
                if speed.is_none() {
                    speed = e.download_speed_bytes_per_sec;
                }
            }
        }
        if let Some(b) = speed {
            row.download_speed_bytes_per_sec = numeral::to_decimal(b as u128);
        }
        row
    }
}

/// Ports become part of a file name character by character: a dash and a slash become `to`, a
/// comma a dash, and every other character stays as it is.
#[verifier::rlimit(40)]
pub proof fn law_safe_ports_by_character(a: Seq<char>, b: Seq<char>, c: char)
    ensures
        safe_ports(a + b) == safe_ports(a) + safe_ports(b),
        safe_ports(seq!['-']) == seq!['t', 'o'],
        safe_ports(seq!['/']) == seq!['t', 'o'],
        safe_ports(seq![',']) == seq!['-'],
        c != '-' && c != '/' && c != ',' ==> safe_ports(seq![c]) == seq![c],
{
    reveal_strlit("to");
    reveal_strlit("-");
    let to = seq!['t', 'o'];
    assert("to"@ =~= to);
    assert("-"@ =~= seq!['-']);
    let d = "-"@;
    let a1 = text::replaced(a, '-', to);
    let b1 = text::replaced(b, '-', to);
    text::law_replaced(a, b, '-', to, c);
    text::law_replaced(a1, b1, ',', d, c);
    text::law_replaced(text::replaced(a1, ',', d), text::replaced(b1, ',', d), '/', to, c);
    // The letters that a dash becomes stay as they are.
    text::law_replaced(seq!['t'], seq!['o'], ',', d, 't');
    text::law_replaced(seq!['t'], seq!['o'], ',', d, 'o');
    text::law_replaced(seq!['t'], seq!['o'], '/', to, 't');
    text::law_replaced(seq!['t'], seq!['o'], '/', to, 'o');
    assert(seq!['t'] + seq!['o'] =~= to);
    // The other two marks.
    text::law_replaced(a, b, '-', to, ',');
    text::law_replaced(a, b, '-', to, '/');
    text::law_replaced(a, b, ',', d, '/');
    text::law_replaced(a, b, '/', to, '-');
}

/// The name of a file is the label, whether the scan is for TLS, and the ports, with dashes
/// between them, and ends with the extension.
pub proof fn law_output_name(label: Seq<char>, ports: Seq<char>)
    ensures
        output_name(label, true, ports).take(label.len() as int) == label,
        output_name(label, true, ports).skip(label.len() as int) == seq![
            '-',
            't',
            'r',
            'u',
            'e',
            '-',
        ] + safe_ports(ports) + seq!['.', 'c', 's', 'v'],
        output_name(label, false, ports).take(label.len() as int) == label,
        output_name(label, false, ports).skip(label.len() as int) == seq![
            '-',
            'f',
            'a',
            'l',
            's',
            'e',
            '-',
        ] + safe_ports(ports) + seq!['.', 'c', 's', 'v'],
{
    reveal_strlit("-");
    reveal_strlit("true");
    reveal_strlit("false");
    reveal_strlit(".csv");
    assert(output_name(label, true, ports).take(label.len() as int) =~= label);
    assert(output_name(label, false, ports).take(label.len() as int) =~= label);
    assert(output_name(label, true, ports).skip(label.len() as int) =~= seq![
        '-',
        't',
        'r',
        'u',
        'e',
        '-',
    ] + safe_ports(ports) + seq!['.', 'c', 's', 'v']);
    assert(output_name(label, false, ports).skip(label.len() as int) =~= seq![
        '-',
        'f',
        'a',
        'l',
        's',
        'e',
        '-',
    ] + safe_ports(ports) + seq!['.', 'c', 's', 'v']);
}

/// A target keeps the address of its open port, and its port where that is one; the hint only
/// counts where it is none, and then stands for 443 with TLS and 80 without.
pub proof fn law_targets_of_ports(p: OpenPort, hint: bool)
    ensures
        target_of(p, hint).ip == p.ip,
        p.port > 0 ==> target_of(p, hint).port == p.port,
        p.port == 0 ==> target_of(p, true).port == 443 && target_of(p, false).port == 80,
{
}

/// Edges are counted and picked result by result, in order: a result counts where it is an
/// edge, and is picked where it speaks TLS too.
pub proof fn law_edges(a: Seq<BatchResult>, b: Seq<BatchResult>, one: BatchResult)
    ensures
        edge_count(a + b) == edge_count(a) + edge_count(b),
        tls_edges(a + b) == tls_edges(a) + tls_edges(b),
        one.result matches Some(d) ==> edge_count(seq![one]) == (if d.is_cloudflare_edge {
            1int
        } else {
            0
        }) && tls_edges(seq![one]) == (if d.is_cloudflare_edge && d.is_tls {
            seq![one.target]
        } else {
            Seq::empty()
        }),
        one.result is None ==> edge_count(seq![one]) == 0 && tls_edges(seq![one]) == Seq::<
            Target,
        >::empty(),
    decreases b.len(),
{
    let none = Seq::<BatchResult>::empty();
    assert(seq![one].drop_last() =~= none);
    assert(edge_count(none) == 0);
    assert(tls_edges(none) =~= Seq::<Target>::empty());
    assert(Seq::<Target>::empty().push(one.target) =~= seq![one.target]);
    if b.len() == 0 {
        assert(a + b =~= a);
        assert(tls_edges(a) + tls_edges(b) =~= tls_edges(a));
    } else {
        assert((a + b).drop_last() =~= a + b.drop_last());
        law_edges(a, b.drop_last(), one);
        assert(tls_edges(a + b) =~= tls_edges(a) + tls_edges(b));
    }
}

/// Not more results are edges than there are, and not more are measured than are edges.
pub proof fn law_edges_are_among_results(rs: Seq<BatchResult>)
    ensures
        tls_edges(rs).len() <= edge_count(rs) <= rs.len(),
        forall|t: Target|
            tls_edges(rs).contains(t) ==> exists|i: int|
                0 <= i < rs.len() && (#[trigger] rs[i]).target == t,
    decreases rs.len(),
{
    if rs.len() > 0 {
        let front = rs.drop_last();
        law_edges_are_among_results(front);
        assert forall|t: Target| tls_edges(rs).contains(t) implies exists|i: int|
            0 <= i < rs.len() && (#[trigger] rs[i]).target == t by {
            if tls_edges(front).contains(t) {
                let i = choose|i: int| 0 <= i < front.len() && (#[trigger] front[i]).target == t;
                assert(rs[i] == front[i]);
            } else {
                let k = choose|k: int| 0 <= k < tls_edges(rs).len() && tls_edges(rs)[k] == t;
                if k < tls_edges(front).len() {
                    assert(tls_edges(front)[k] == t);
                }
                assert(rs[rs.len() - 1].target == t);
            }
        }
    }
}

/// A measured throughput goes before the one known of the edge; without either there is none.
pub proof fn law_measured_goes_first(br: BatchResult, measured: u64)
    ensures
        speed_of(br, Some(measured)) == Some(measured),
        edge_of(br) matches Some(e) ==> speed_of(br, None) == e.download_speed_bytes_per_sec,
        edge_of(br) is None ==> speed_of(br, None) is None,
        br.result matches Some(d) ==> edge_of(br) == d.edge_info,
        br.result is None ==> edge_of(br) is None,
{
}

/// A host is taken to speak TLS on every port but 80.
pub proof fn law_guess_by_port(port: u16, r: bool)
    requires
        call_ensures(guess_tls_by_port, (port,), r),
    ensures
        r <==> port < 80 || port > 80,
{
}

/// What adaptive mode starts with lies within its limits, whenever the least is within them; none
/// of them is zero, and settings that are not zero hold.
pub proof fn law_adaptive_limits(p: MasscanPipeline, r: AdaptiveConfig)
    requires
        call_ensures(MasscanPipeline::adaptive_config, (&p,), r),
    ensures
        r.enabled,
        1 <= r.min,
        1 <= r.initial <= r.max,
        p.opts.concurrency > 0 ==> r.initial == p.opts.concurrency,
        p.opts.concurrency == 0 ==> r.initial == 1,
        p.opts.adaptive_min > 0 ==> r.min == p.opts.adaptive_min,
        p.opts.adaptive_min == 0 ==> r.min == 1,
        p.opts.adaptive_max >= r.initial ==> r.max == p.opts.adaptive_max,
        p.opts.adaptive_max < r.initial ==> r.max == r.initial,
        r.window == 10,
{
}

/// The detection may probe at least 256 targets at a time and more where the settings say so, and
/// keeps an eighth of the sessions, but at least 32, free of descriptors.
pub proof fn law_detection_of_a_pipeline(p: MasscanPipeline, r: DetectorConfig)
    requires
        call_ensures(MasscanPipeline::detector_config, (&p,), r),
    ensures
        r.max_concurrency >= 256,
        r.max_concurrency >= p.opts.concurrency,
        r.max_concurrency == 256 || r.max_concurrency == p.opts.concurrency,
        r.governor.fd_safety_headroom >= 32,
        r.governor.fd_safety_headroom == 32 || r.governor.fd_safety_headroom * 8
            <= p.opts.tls_session_cache < (r.governor.fd_safety_headroom + 1) * 8,
        p.opts.tls_session_cache >= 256 ==> r.governor.fd_safety_headroom * 8
            > p.opts.tls_session_cache - 8,
        r.probe.request_timeout.nanos == p.opts.probe_timeout_secs * 1_000_000_000,
        r.probe.connect_timeout.nanos == 2 * 1_000_000_000,
        r.probe.tls_session_cache_size == p.opts.tls_session_cache,
        r.governor_enabled,
{
}

/// The figures of a scan are five words, each a name and its value.
#[verifier::rlimit(40)]
pub proof fn law_figures_are_words(o: PipelineOutput)
    ensures
        text::words(o.figures()) == text::words("open="@ + numeral::decimal(o.open_ports_count as nat))
            + text::words("edges="@ + numeral::decimal(o.cloudflare_edges_count as nat))
            + text::words("masscan_sec="@ + numeral::decimal(o.masscan_duration_secs as nat))
            + text::words("detect_sec="@ + numeral::decimal(o.detection_duration_secs as nat))
            + text::words("output="@ + o.output_path@),
{
    reveal_strlit(" edges=");
    reveal_strlit("edges=");
    reveal_strlit(" masscan_sec=");
    reveal_strlit("masscan_sec=");
    reveal_strlit(" detect_sec=");
    reveal_strlit("detect_sec=");
    reveal_strlit(" output=");
    reveal_strlit("output=");
    let a = "open="@ + numeral::decimal(o.open_ports_count as nat);
    let b = "edges="@ + numeral::decimal(o.cloudflare_edges_count as nat);
    let c = "masscan_sec="@ + numeral::decimal(o.masscan_duration_secs as nat);
    let d = "detect_sec="@ + numeral::decimal(o.detection_duration_secs as nat);
    let e = "output="@ + o.output_path@;
    text::law_white_space(' ');
    text::law_words(a, ' ', b);
    text::law_words(a + seq![' '] + b, ' ', c);
    text::law_words(a + seq![' '] + b + seq![' '] + c, ' ', d);
    text::law_words(a + seq![' '] + b + seq![' '] + c + seq![' '] + d, ' ', e);
    assert(o.figures() =~= a + seq![' '] + b + seq![' '] + c + seq![' '] + d + seq![' '] + e);
}

} // verus!
