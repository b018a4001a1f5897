//! Results as they are written out: records, lines of text, rows of a table.

use vstd::prelude::*;

use crate::masscan_pipeline;
use crate::model::{BatchResult, Confidence, DetectionResult, EdgeInfo, Target};
use crate::net;
use crate::numeral;
use crate::speedtest::SpeedTestResult;
use crate::text;
use crate::time::Duration;

verus! {

/// What is written out of a speed test.
#[derive(Clone, Debug)]
pub struct SpeedExport {
    pub bytes_per_second: Option<u64>,
    pub elapsed_ms: Option<u128>,
    pub connect_ms: Option<u128>,
    pub tls_handshake_ms: Option<u128>,
    pub ttfb_ms: Option<u128>,
    pub handshake: Option<String>,
}

impl Default for SpeedExport {
    fn default() -> (r: Self)
        ensures
            r.bytes_per_second is None,
            r.elapsed_ms is None,
            r.connect_ms is None,
            r.tls_handshake_ms is None,
            r.ttfb_ms is None,
            r.handshake is None,
    {
        SpeedExport {
            bytes_per_second: None,
            elapsed_ms: None,
            connect_ms: None,
            tls_handshake_ms: None,
            ttfb_ms: None,
            handshake: None,
        }
    }
}

/// The whole milliseconds of an optional span.
pub open spec fn opt_millis(d: Option<Duration>) -> Option<u128> {
    match d {
        Some(t) => Some(t.millis() as u128),
        None => None,
    }
}

fn millis_of(d: &Option<Duration>) -> (r: Option<u128>)
    ensures
        r == opt_millis(*d),
{
    match d {
        Some(t) => Some(t.as_millis()),
        None => None,
    }
}

impl SpeedExport {
    /// What is written out of the result of a speed test.
    pub fn from_result(sr: &SpeedTestResult) -> (r: Self)
        ensures
            r.bytes_per_second == Some(sr.bytes_per_second),
            r.elapsed_ms == Some(sr.elapsed.millis() as u128),
            r.connect_ms == opt_millis(sr.connect_latency),
            r.tls_handshake_ms == opt_millis(sr.tls_handshake_latency),
            r.ttfb_ms == opt_millis(sr.ttfb_latency),
            text::opt_text(r.handshake) == (match sr.handshake_type {
                Some(h) => Some(h.variant()),
                None => None,
            }),
    {
        SpeedExport {
            bytes_per_second: Some(sr.bytes_per_second),
            elapsed_ms: Some(sr.elapsed.as_millis()),
            connect_ms: millis_of(&sr.connect_latency),
            tls_handshake_ms: millis_of(&sr.tls_handshake_latency),
            ttfb_ms: millis_of(&sr.ttfb_latency),
            handshake: match &sr.handshake_type {
                Some(h) => Some(h.variant_name()),
                None => None,
            },
        }
    }

    pub fn copy(&self) -> (r: Self)
        ensures
            r == *self,
    {
        SpeedExport {
            bytes_per_second: self.bytes_per_second,
            elapsed_ms: self.elapsed_ms,
            connect_ms: self.connect_ms,
            tls_handshake_ms: self.tls_handshake_ms,
            ttfb_ms: self.ttfb_ms,
            handshake: self.handshake.clone(),
        }
    }
}

/// The last entry for a target.
pub open spec fn last_for<T>(entries: Seq<(Target, T)>, t: Target) -> Option<T>
    decreases entries.len(),
{
    if entries.len() == 0 {
        None
    } else if entries.last().0 == t {
        Some(entries.last().1)
    } else {
        last_for(entries.drop_last(), t)
    }
}

/// Finds what was measured of a target.
pub fn speed_for(entries: &Vec<(Target, SpeedExport)>, t: Target) -> (r: Option<SpeedExport>)
    ensures
        r == last_for(entries@, t),
{
    let mut n: usize = entries.len();
    proof {
        assert(entries@.take(n as int) =~= entries@);
    }
    while n > 0
        invariant
            n <= entries@.len(),
            last_for(entries@, t) == last_for(entries@.take(n as int), t),
        decreases n,
    {
        proof {
            assert(entries@.take(n as int).drop_last() =~= entries@.take(n - 1));
        }
        if entries[n - 1].0 == t {
            return Some(entries[n - 1].1.copy());
        }
        n -= 1;
    }
    None
}

/// Tells whether a target is tested over TLS: as its detection found, or else by its port.
pub fn use_tls(hints: &Vec<(Target, bool)>, t: Target) -> (r: bool)
    ensures
        r == (match last_for(hints@, t) {
            Some(b) => b,
            None => t.port != 80,
        }),
{
    let mut n: usize = hints.len();
    proof {
        assert(hints@.take(n as int) =~= hints@);
    }
    while n > 0
        invariant
            n <= hints@.len(),
            last_for(hints@, t) == last_for(hints@.take(n as int), t),
        decreases n,
    {
        proof {
            assert(hints@.take(n as int).drop_last() =~= hints@.take(n - 1));
        }
        if hints[n - 1].0 == t {
            return hints[n - 1].1;
        }
        n -= 1;
    }
    masscan_pipeline::guess_tls_by_port(t.port)
}

/// The edges among results, each with whether it speaks TLS, in order.
pub open spec fn edges_of(rs: Seq<BatchResult>) -> Seq<(Target, bool)>
    decreases rs.len(),
{
    if rs.len() == 0 {
        Seq::empty()
    } else if masscan_pipeline::is_edge(rs.last()) {
        edges_of(rs.drop_last()).push((rs.last().target, rs.last().result->0.is_tls))
    } else {
        edges_of(rs.drop_last())
    }
}

/// Finds the edges whose throughput is measured after a detection.
pub fn speed_targets(rs: &Vec<BatchResult>) -> (r: Vec<(Target, bool)>)
    ensures
        r@ == edges_of(rs@),
{
    let mut r: Vec<(Target, bool)> = Vec::new();
    let mut i: usize = 0;
    while i < rs.len()
        invariant
            i <= rs@.len(),
            r@ == edges_of(rs@.take(i as int)),
        decreases rs@.len() - i,
    {
        proof {
            assert(rs@.take(i + 1).drop_last() =~= rs@.take(i as int));
        }
        if let Some(d) = &rs[i].result {
            if d.is_cloudflare_edge {
                r.push((rs[i].target, d.is_tls));
            }
        }
        i += 1;
    }
    proof {
        assert(rs@.take(i as int) =~= rs@);
    }
    r
}

/// What a speed test alone tells of a target: whether it could be used.
pub fn speed_only_result(id: usize, target: Target, measured: bool) -> (r: BatchResult)
    ensures
        r.id == id,
        r.target == target,
        r.result is Some,
        !r.result->0.is_cloudflare_edge,
        r.result->0.is_tls == (measured || target.port != 80),
        r.result->0.is_usable == measured,
        r.result->0.http_status_code is None,
        r.result->0.edge_info is None,
        r.result->0.confidence == Confidence::Absent,
        r.result->0.confidence_reason@ == "speedtest command: edge detection skipped"@,
        text::strings(r.result->0.reasons@) == (if measured {
            seq!["speedtest succeeded"@]
        } else {
            seq!["speedtest command: edge detection skipped"@]
        }),
        text::opt_text(r.error) == (if measured {
            None
        } else {
            Some("speedtest failed or cancelled"@)
        }),
{
    let reasons: Vec<String> = if measured {
        vec![text::owned("speedtest succeeded")]
    } else {
        vec![text::owned("speedtest command: edge detection skipped")]
    };
    proof {
        assert(text::strings(reasons@) =~= seq![reasons@[0]@]);
    }
    BatchResult {
        target,
        result: Some(
            DetectionResult {
                is_cloudflare_edge: false,
                is_usable: measured,
                http_status_code: None,
                is_tls: measured || masscan_pipeline::guess_tls_by_port(target.port),
                confidence: Confidence::Absent,
                confidence_reason: text::owned("speedtest command: edge detection skipped"),
                reasons,
                edge_info: None,
            },
        ),
        error: if measured {
            None
        } else {
            Some(text::owned("speedtest failed or cancelled"))
        },
        id,
    }
}

// ---------------------------------------------------------------------------
// Records

/// A result as it is written out.
#[derive(Clone, Debug)]
pub struct ExportRecord {
    pub id: usize,
    pub target: String,
    pub ip: String,
    pub port: u16,
    pub is_cloudflare_edge: bool,
    pub is_tls: bool,
    pub is_usable: bool,
    pub status_code: Option<u16>,
    pub colo: Option<String>,
    pub country: Option<String>,
    pub region: Option<String>,
    pub city: Option<String>,
    pub latency_ms: Option<u128>,
    pub download_speed_bytes_per_sec: Option<u64>,
    pub speedtest_elapsed_ms: Option<u128>,
    pub speedtest_connect_ms: Option<u128>,
    pub speedtest_tls_handshake_ms: Option<u128>,
    pub speedtest_ttfb_ms: Option<u128>,
    pub speedtest_handshake: Option<String>,
    pub confidence: String,
    pub confidence_reason: String,
    pub reasons: Vec<String>,
    pub error: Option<String>,
}

/// What is measured of a target, if it was measured.
pub open spec fn measured_speed(speed: Option<SpeedExport>) -> Option<u64> {
    match speed {
        Some(s) => s.bytes_per_second,
        None => None,
    }
}

/// What the parts of a record that tell of the edge are.
pub open spec fn tells_edge(r: ExportRecord, edge: Option<EdgeInfo>) -> bool {
    match edge {
        Some(e) => {
            &&& text::opt_text(r.colo) == text::opt_text(e.colo_code)
            &&& text::opt_text(r.country) == text::opt_text(e.country)
            &&& text::opt_text(r.region) == text::opt_text(e.region)
            &&& text::opt_text(r.city) == text::opt_text(e.city)
            &&& r.latency_ms == opt_millis(e.latency)
        },
        None => {
            &&& r.colo is None
            &&& r.country is None
            &&& r.region is None
            &&& r.city is None
            &&& r.latency_ms is None
        },
    }
}

/// What the parts of a record that tell of the speed test are.
pub open spec fn tells_speed(r: ExportRecord, speed: Option<SpeedExport>) -> bool {
    match speed {
        Some(s) => {
            &&& r.speedtest_elapsed_ms == s.elapsed_ms
            &&& r.speedtest_connect_ms == s.connect_ms
            &&& r.speedtest_tls_handshake_ms == s.tls_handshake_ms
            &&& r.speedtest_ttfb_ms == s.ttfb_ms
            &&& text::opt_text(r.speedtest_handshake) == text::opt_text(s.handshake)
        },
        None => {
            &&& r.speedtest_elapsed_ms is None
            &&& r.speedtest_connect_ms is None
            &&& r.speedtest_tls_handshake_ms is None
            &&& r.speedtest_ttfb_ms is None
            &&& r.speedtest_handshake is None
        },
    }
}

/// What the parts of a record that tell of the detection are.
pub open spec fn tells_detection(r: ExportRecord, d: Option<DetectionResult>) -> bool {
    match d {
        Some(x) => {
            &&& r.is_cloudflare_edge == x.is_cloudflare_edge
            &&& r.is_tls == x.is_tls
            &&& r.is_usable == x.is_usable
            &&& r.status_code == x.http_status_code
            &&& r.confidence@ == x.confidence.name()
            &&& r.confidence_reason@ == x.confidence_reason@
            &&& text::strings(r.reasons@) == text::strings(x.reasons@)
        },
        None => {
            &&& !r.is_cloudflare_edge
            &&& !r.is_tls
            &&& !r.is_usable
            &&& r.status_code is None
            &&& r.confidence@ == Confidence::Absent.name()
            &&& r.confidence_reason@ == Seq::<char>::empty()
            &&& text::strings(r.reasons@) == Seq::<Seq<char>>::empty()
        },
    }
}

impl ExportRecord {
    /// The record of a result. A measured speed goes before one known of the edge.
    pub fn build(br: &BatchResult, speed: Option<SpeedExport>) -> (r: Self)
        ensures
            r.id == br.id,
            r.target@ == br.target.show(),
            r.ip@ == net::show_ip(br.target.ip),
            r.port == br.target.port,
            tells_detection(r, br.result),
            tells_edge(r, masscan_pipeline::edge_of(*br)),
            r.download_speed_bytes_per_sec == masscan_pipeline::speed_of(
                *br,
                measured_speed(speed),
            ),
            tells_speed(r, speed),
            text::opt_text(r.error) == text::opt_text(br.error),
    {
        let mut rec = ExportRecord {
            id: br.id,
            target: br.target.to_string(),
            ip: br.target.ip.to_string(),
            port: br.target.port,
            is_cloudflare_edge: false,
            is_tls: false,
            is_usable: false,
            status_code: None,
            colo: None,
            country: None,
            region: None,
            city: None,
            latency_ms: None,
            download_speed_bytes_per_sec: None,
            speedtest_elapsed_ms: None,
            speedtest_connect_ms: None,
            speedtest_tls_handshake_ms: None,
            speedtest_ttfb_ms: None,
            speedtest_handshake: None,
            confidence: text::owned(Confidence::Absent.label()),
            confidence_reason: String::new(),
            reasons: Vec::new(),
            error: text::clone_opt(&br.error),
        };
        proof {
            assert(text::strings(rec.reasons@) =~= Seq::<Seq<char>>::empty());
        }
        if let Some(s) = speed {
            rec.download_speed_bytes_per_sec = s.bytes_per_second;
            rec.speedtest_elapsed_ms = s.elapsed_ms;
            rec.speedtest_connect_ms = s.connect_ms;
            rec.speedtest_tls_handshake_ms = s.tls_handshake_ms;
            rec.speedtest_ttfb_ms = s.ttfb_ms;
            rec.speedtest_handshake = s.handshake;
        }
        if let Some(d) = &br.result {
            rec.is_cloudflare_edge = d.is_cloudflare_edge;
            rec.is_tls = d.is_tls;
            rec.is_usable = d.is_usable;
            rec.status_code = d.http_status_code;
            rec.confidence = text::owned(d.confidence.label());
            rec.confidence_reason = d.confidence_reason.clone();
            rec.reasons = text::clone_strings(&d.reasons);
            if let Some(e) = &d.edge_info {
                rec.colo = text::clone_opt(&e.colo_code);
                rec.country = text::clone_opt(&e.country);
                rec.region = text::clone_opt(&e.region);
                rec.city = text::clone_opt(&e.city);
                rec.latency_ms = millis_of(&e.latency);
                if rec.download_speed_bytes_per_sec.is_none() {
                    rec.download_speed_bytes_per_sec = e.download_speed_bytes_per_sec;
                }
            }
        }
        rec
    }

    /// The line of text of the record.
    pub open spec fn line(self) -> Seq<char> {
        "#"@ + text::padded(numeral::decimal(self.id as nat), 5) + " "@ + self.target@ + " edge="@
            + yes_no(self.is_cloudflare_edge) + " tls="@ + yes_no(self.is_tls) + " usable="@
            + yes_no(self.is_usable) + " conf="@ + self.confidence@ + labelled(
            " status="@,
            opt_number(match self.status_code {
                Some(c) => Some(c as nat),
                None => None,
            }),
        ) + labelled(" colo="@, text::opt_text(self.colo)) + labelled(
            " country="@,
            text::opt_text(self.country),
        ) + labelled(" region="@, text::opt_text(self.region)) + labelled(
            " city="@,
            text::opt_text(self.city),
        ) + labelled(" latency_ms="@, opt_wide(self.latency_ms)) + labelled(
            " bps="@,
            opt_number(match self.download_speed_bytes_per_sec {
                Some(b) => Some(b as nat),
                None => None,
            }),
        ) + self.speed_details() + self.reason_list() + self.error_note()
    }

    /// The times of the speed test, where there is a speed.
    pub open spec fn speed_details(self) -> Seq<char> {
        if self.download_speed_bytes_per_sec is Some {
            timed(" sp_elapsed="@, self.speedtest_elapsed_ms) + timed(
                " sp_tcp="@,
                self.speedtest_connect_ms,
            ) + timed(" sp_tls="@, self.speedtest_tls_handshake_ms) + timed(
                " sp_ttfb="@,
                self.speedtest_ttfb_ms,
            ) + labelled(" sp_hs="@, text::opt_text(self.speedtest_handshake))
        } else {
            Seq::empty()
        }
    }

    pub open spec fn reason_list(self) -> Seq<char> {
        if self.reasons@.len() == 0 {
            Seq::empty()
        } else {
            " reasons=["@ + text::joined(text::strings(self.reasons@), "; "@) + "]"@
        }
    }

    /// The error in quotation marks, with a backslash before those in it.
    pub open spec fn error_note(self) -> Seq<char> {
        match self.error {
            Some(e) => " error=\""@ + text::replaced(e@, '"', "\\\""@) + "\""@,
            None => Seq::empty(),
        }
    }

    /// Writes the line of text of the record.
    #[verifier::rlimit(40)]
    pub fn txt_line(&self) -> (r: String)
        ensures
            r@ == self.line(),
    {
        let mut s = text::owned("#");
        let id = numeral::to_decimal(self.id as u128);
        let padded = text::pad(id.as_str(), 5);
        s.append(padded.as_str());
        s.append(" ");
        s.append(self.target.as_str());
        s.append(" edge=");
        s.append(bool_yn(self.is_cloudflare_edge));
        s.append(" tls=");
        s.append(bool_yn(self.is_tls));
        s.append(" usable=");
        s.append(bool_yn(self.is_usable));
        s.append(" conf=");
        s.append(self.confidence.as_str());
        if let Some(c) = self.status_code {
            push_number(&mut s, " status=", c as u128);
        }
        push_labelled(&mut s, " colo=", &self.colo);
        push_labelled(&mut s, " country=", &self.country);
        push_labelled(&mut s, " region=", &self.region);
        push_labelled(&mut s, " city=", &self.city);
        if let Some(ms) = self.latency_ms {
            push_number(&mut s, " latency_ms=", ms);
        }
        if let Some(b) = self.download_speed_bytes_per_sec {
            push_number(&mut s, " bps=", b as u128);
        }
        let ghost head = s@;
        if self.download_speed_bytes_per_sec.is_some() {
            push_timed(&mut s, " sp_elapsed=", &self.speedtest_elapsed_ms);
            push_timed(&mut s, " sp_tcp=", &self.speedtest_connect_ms);
            push_timed(&mut s, " sp_tls=", &self.speedtest_tls_handshake_ms);
            push_timed(&mut s, " sp_ttfb=", &self.speedtest_ttfb_ms);
            push_labelled(&mut s, " sp_hs=", &self.speedtest_handshake);
        }
        proof {
            assert(s@ =~= head + self.speed_details());
        }
        let ghost head = s@;
        if self.reasons.len() > 0 {
            s.append(" reasons=[");
            let list = text::join(&self.reasons, "; ");
            s.append(list.as_str());
            s.append("]");
        }
        proof {
            assert(s@ =~= head + self.reason_list());
        }
        let ghost head = s@;
        if let Some(e) = &self.error {
            s.append(" error=\"");
            let cs = text::to_chars(e.as_str());
            let quoted = text::replace(&cs, '"', "\\\"");
            s.append(quoted.as_str());
            s.append("\"");
        }
        proof {
            assert(s@ =~= head + self.error_note());
            assert(s@ =~= self.line());
        }
        s
    }
}

pub open spec fn yes_no(b: bool) -> Seq<char> {
    if b {
        "Y"@
    } else {
        "N"@
    }
}

pub fn bool_yn(v: bool) -> (r: &'static str)
    ensures
        r@ == yes_no(v),
{
    if v {
        "Y"
    } else {
        "N"
    }
}

/// A label and a value, where there is one.
pub open spec fn labelled(label: Seq<char>, value: Option<Seq<char>>) -> Seq<char> {
    match value {
        Some(v) => label + v,
        None => Seq::empty(),
    }
}

pub open spec fn opt_number(n: Option<nat>) -> Option<Seq<char>> {
    match n {
        Some(x) => Some(numeral::decimal(x)),
        None => None,
    }
}

pub open spec fn opt_wide(n: Option<u128>) -> Option<Seq<char>> {
    match n {
        Some(x) => Some(numeral::decimal(x as nat)),
        None => None,
    }
}

/// A label and a number of milliseconds, where there is one.
pub open spec fn timed(label: Seq<char>, ms: Option<u128>) -> Seq<char> {
    match ms {
        Some(x) => label + numeral::decimal(x as nat) + "ms"@,
        None => Seq::empty(),
    }
}

fn push_number(s: &mut String, label: &str, n: u128)
    ensures
        final(s)@ == old(s)@ + (label@ + numeral::decimal(n as nat)),
{
    let ghost before = s@;
    s.append(label);
    numeral::push_numeral(s, n, 10);
    proof {
        assert(s@ =~= before + (label@ + numeral::decimal(n as nat)));
    }
}

fn push_labelled(s: &mut String, label: &str, value: &Option<String>)
    ensures
        final(s)@ == old(s)@ + labelled(label@, text::opt_text(*value)),
{
    let ghost before = s@;
    if let Some(v) = value {
        s.append(label);
        s.append(v.as_str());
    }
    proof {
        assert(s@ =~= before + labelled(label@, text::opt_text(*value)));
    }
}

fn push_timed(s: &mut String, label: &str, ms: &Option<u128>)
    ensures
        final(s)@ == old(s)@ + timed(label@, *ms),
{
    let ghost before = s@;
    if let Some(x) = ms {
        s.append(label);
        numeral::push_numeral(s, *x, 10);
        s.append("ms");
    }
    proof {
        assert(s@ =~= before + timed(label@, *ms));
    }
}

// ---------------------------------------------------------------------------
// Rows

/// A record as a row of a table: texts that are missing are empty, and the reasons stand
/// in one cell.
#[derive(Clone, Debug)]
pub struct CsvRow {
    pub id: usize,
    pub target: String,
    pub ip: String,
    pub port: u16,
    pub is_cloudflare_edge: bool,
    pub is_tls: bool,
    pub is_usable: bool,
    pub status_code: Option<u16>,
    pub colo: String,
    pub country: String,
    pub region: String,
    pub city: String,
    pub latency_ms: Option<u128>,
    pub download_speed_bytes_per_sec: Option<u64>,
    pub speedtest_elapsed_ms: Option<u128>,
    pub speedtest_connect_ms: Option<u128>,
    pub speedtest_tls_handshake_ms: Option<u128>,
    pub speedtest_ttfb_ms: Option<u128>,
    pub speedtest_handshake: String,
    pub confidence: String,
    pub confidence_reason: String,
    pub reasons: String,
    pub error: String,
}

impl CsvRow {
    /// The row of a record.
    pub fn from_record(r: &ExportRecord) -> (row: Self)
        ensures
            row.id == r.id,
            row.target@ == r.target@,
            row.ip@ == r.ip@,
            row.port == r.port,
            row.is_cloudflare_edge == r.is_cloudflare_edge,
            row.is_tls == r.is_tls,
            row.is_usable == r.is_usable,
            row.status_code == r.status_code,
            row.colo@ == masscan_pipeline::or_empty(r.colo),
            row.country@ == masscan_pipeline::or_empty(r.country),
            row.region@ == masscan_pipeline::or_empty(r.region),
            row.city@ == masscan_pipeline::or_empty(r.city),
            row.latency_ms == r.latency_ms,
            row.download_speed_bytes_per_sec == r.download_speed_bytes_per_sec,
            row.speedtest_elapsed_ms == r.speedtest_elapsed_ms,
            row.speedtest_connect_ms == r.speedtest_connect_ms,
            row.speedtest_tls_handshake_ms == r.speedtest_tls_handshake_ms,
            row.speedtest_ttfb_ms == r.speedtest_ttfb_ms,
            row.speedtest_handshake@ == masscan_pipeline::or_empty(r.speedtest_handshake),
            row.confidence@ == r.confidence@,
            row.confidence_reason@ == r.confidence_reason@,
            row.reasons@ == text::joined(text::strings(r.reasons@), "; "@),
            row.error@ == masscan_pipeline::or_empty(r.error),
    {
        CsvRow {
            id: r.id,
            target: r.target.clone(),
            ip: r.ip.clone(),
            port: r.port,
            is_cloudflare_edge: r.is_cloudflare_edge,
            is_tls: r.is_tls,
            is_usable: r.is_usable,
            status_code: r.status_code,
            colo: masscan_pipeline::text_or_empty(&r.colo),
            country: masscan_pipeline::text_or_empty(&r.country),
            region: masscan_pipeline::text_or_empty(&r.region),
            city: masscan_pipeline::text_or_empty(&r.city),
            latency_ms: r.latency_ms,
            download_speed_bytes_per_sec: r.download_speed_bytes_per_sec,
            speedtest_elapsed_ms: r.speedtest_elapsed_ms,
            speedtest_connect_ms: r.speedtest_connect_ms,
            speedtest_tls_handshake_ms: r.speedtest_tls_handshake_ms,
            speedtest_ttfb_ms: r.speedtest_ttfb_ms,
            speedtest_handshake: masscan_pipeline::text_or_empty(&r.speedtest_handshake),
            confidence: r.confidence.clone(),
            confidence_reason: r.confidence_reason.clone(),
            reasons: text::join(&r.reasons, "; "),
            error: masscan_pipeline::text_or_empty(&r.error),
        }
    }
}

/// Of several entries for a target the last one counts; entries for other targets do not.
pub proof fn law_last_entry<T>(entries: Seq<(Target, T)>, t: Target, i: int)
    ensures
        (forall|j: int| 0 <= j < entries.len() ==> (#[trigger] entries[j]).0 != t) ==> last_for(
            entries,
            t,
        ) is None,
        0 <= i < entries.len() && entries[i].0 == t && (forall|j: int|
            i < j < entries.len() ==> (#[trigger] entries[j]).0 != t) ==> last_for(entries, t)
            == Some(entries[i].1),
    decreases entries.len(),
{
    if entries.len() > 0 {
        let front = entries.drop_last();
        let n = entries.len() - 1;
        law_last_entry(front, t, i);
        assert forall|j: int| 0 <= j < front.len() implies (#[trigger] front[j]) == entries[j] by {}
        assert(entries[n] == entries.last());
    }
}

/// A target is tested over TLS as the last word on it says; where there is none, on every port
/// but 80.
pub proof fn law_tls_of_a_target(hints: Vec<(Target, bool)>, t: Target, i: int, r: bool)
    requires
        call_ensures(use_tls, (&hints, t), r),
    ensures
        0 <= i < hints@.len() && hints@[i].0 == t && (forall|j: int|
            i < j < hints@.len() ==> (#[trigger] hints@[j]).0 != t) ==> r == hints@[i].1,
        (forall|j: int| 0 <= j < hints@.len() ==> (#[trigger] hints@[j]).0 != t) ==> (r
            <==> t.port < 80 || t.port > 80),
{
    law_last_entry(hints@, t, i);
}

/// The edges are found result by result, in order, each with whether it speaks TLS.
pub proof fn law_found_edges(a: Seq<BatchResult>, b: Seq<BatchResult>, one: BatchResult)
    ensures
        edges_of(a + b) == edges_of(a) + edges_of(b),
        edges_of(seq![one]) == (match one.result {
            Some(d) => if d.is_cloudflare_edge {
                seq![(one.target, d.is_tls)]
            } else {
                Seq::empty()
            },
            None => Seq::empty(),
        }),
        edges_of(a).len() == masscan_pipeline::edge_count(a),
    decreases a.len() + b.len(),
{
    let none = Seq::<BatchResult>::empty();
    let nothing = Seq::<(Target, bool)>::empty();
    assert(seq![one].drop_last() =~= none);
    assert(edges_of(none) =~= nothing);
    if let Some(d) = one.result {
        assert(nothing.push((one.target, d.is_tls)) =~= seq![(one.target, d.is_tls)]);
    }
    if a.len() > 0 {
        law_found_edges(a.drop_last(), none, one);
    }
    if b.len() == 0 {
        assert(a + b =~= a);
        assert(edges_of(a) + edges_of(b) =~= edges_of(a));
    } else {
        assert((a + b).drop_last() =~= a + b.drop_last());
        law_found_edges(a, b.drop_last(), one);
        assert(edges_of(a + b) =~= edges_of(a) + edges_of(b));
    }
}

/// The edges that speak TLS are those that a pipeline measures.
pub proof fn law_tls_edges_are_measured(rs: Seq<BatchResult>, t: Target)
    ensures
        edges_of(rs).contains((t, true)) <==> masscan_pipeline::tls_edges(rs).contains(t),
    decreases rs.len(),
{
    let all = edges_of(rs);
    let tls = masscan_pipeline::tls_edges(rs);
    if rs.len() > 0 {
        let front = rs.drop_last();
        law_tls_edges_are_measured(front, t);
        let last = rs.last();
        if masscan_pipeline::is_edge(last) {
            let e = (last.target, last.result->0.is_tls);
            lemma_push_contains(edges_of(front), e, (t, true));
            if e.1 {
                lemma_push_contains(masscan_pipeline::tls_edges(front), last.target, t);
            }
        }
    }
}

proof fn lemma_push_contains<T>(s: Seq<T>, x: T, y: T)
    ensures
        s.push(x).contains(y) <==> s.contains(y) || x == y,
{
    if s.contains(y) {
        let i = choose|i: int| 0 <= i < s.len() && s[i] == y;
        assert(s.push(x)[i] == y);
    }
    if x == y {
        assert(s.push(x)[s.len() as int] == y);
    }
}

/// A speed test alone says that a target can be used exactly where it was measured, and tells an
/// error exactly where it was not; it never says that a target is an edge.
pub proof fn law_speed_alone(id: usize, target: Target, measured: bool, r: BatchResult)
    requires
        call_ensures(speed_only_result, (id, target, measured), r),
    ensures
        r.result matches Some(d) && {
            &&& d.is_usable <==> measured
            &&& !d.is_cloudflare_edge
            &&& d.confidence == Confidence::Absent
            &&& measured ==> d.is_tls
            &&& !measured ==> (d.is_tls <==> target.port != 80)
            &&& d.http_status_code is None
            &&& d.edge_info is None
        },
        r.error is None <==> measured,
        r.id == id,
        r.target == target,
        !masscan_pipeline::is_edge(r),
{
}

/// What is written out of a speed test is what it measured, with times in whole milliseconds.
pub proof fn law_written_speed(sr: SpeedTestResult, r: SpeedExport)
    requires
        call_ensures(SpeedExport::from_result, (&sr,), r),
    ensures
        r.bytes_per_second == Some(sr.bytes_per_second),
        r.elapsed_ms matches Some(ms) && ms * 1_000_000 <= sr.elapsed.nanos < (ms + 1) * 1_000_000,
        r.connect_ms is Some <==> sr.connect_latency is Some,
        r.connect_ms is Some ==> r.connect_ms->0 * 1_000_000 <= sr.connect_latency->0.nanos < (
        r.connect_ms->0 + 1) * 1_000_000,
        r.tls_handshake_ms is Some <==> sr.tls_handshake_latency is Some,
        r.tls_handshake_ms is Some ==> r.tls_handshake_ms->0 * 1_000_000
            <= sr.tls_handshake_latency->0.nanos < (r.tls_handshake_ms->0 + 1) * 1_000_000,
        r.ttfb_ms is Some <==> sr.ttfb_latency is Some,
        r.ttfb_ms is Some ==> r.ttfb_ms->0 * 1_000_000 <= sr.ttfb_latency->0.nanos < (r.ttfb_ms->0
            + 1) * 1_000_000,
        r.handshake is Some <==> sr.handshake_type is Some,
{
}

/// The table of a pipeline and the rows of the records tell the same of a result: both have the
/// same target, the same findings, the same place and the same speed, and leave empty what is
/// not known.
#[verifier::rlimit(40)]
pub proof fn law_tables_agree(
    br: BatchResult,
    speed: Option<SpeedExport>,
    record: ExportRecord,
    row: CsvRow,
    line: masscan_pipeline::ExportCsvRow,
)
    requires
        call_ensures(ExportRecord::build, (&br, speed), record),
        call_ensures(CsvRow::from_record, (&record,), row),
        call_ensures(
            masscan_pipeline::ExportCsvRow::from_batch,
            (&br, measured_speed(speed)),
            line,
        ),
    ensures
        row.target@ == line.target@,
        row.ip@ == line.ip@,
        row.port == line.port,
        row.is_cloudflare_edge == line.is_cloudflare_edge,
        row.is_tls == line.is_tls,
        row.is_usable == line.is_usable,
        row.colo@ == line.colo@,
        row.country@ == line.country@,
        row.region@ == line.region@,
        row.city@ == line.city@,
        row.confidence@ == line.confidence@,
        row.confidence_reason@ == line.confidence_reason@,
        row.reasons@ == line.reasons@,
        row.error@ == line.error@,
        line.status_code@ == (match row.status_code {
            Some(c) => numeral::decimal(c as nat),
            None => Seq::empty(),
        }),
        line.latency_ms@ == (match row.latency_ms {
            Some(ms) => numeral::decimal(ms as nat),
            None => Seq::empty(),
        }),
        line.download_speed_bytes_per_sec@ == (match row.download_speed_bytes_per_sec {
            Some(b) => numeral::decimal(b as nat),
            None => Seq::empty(),
        }),
{
    text::law_joined(Seq::empty(), Seq::empty(), "; "@);
}

/// A record tells each finding on the result under its own name, and of a result without findings
/// nothing but its target and its error.
#[verifier::rlimit(40)]
pub proof fn law_record(br: BatchResult, speed: Option<SpeedExport>, r: ExportRecord)
    requires
        call_ensures(ExportRecord::build, (&br, speed), r),
    ensures
        r.id == br.id,
        r.target@ == br.target.show(),
        r.ip@ == net::show_ip(br.target.ip),
        r.port == br.target.port,
        r.is_cloudflare_edge <==> masscan_pipeline::is_edge(br),
        r.is_cloudflare_edge && r.is_tls <==> masscan_pipeline::is_tls_edge(br),
        r.is_usable <==> br.result is Some && br.result->0.is_usable,
        br.result is Some ==> r.status_code == br.result->0.http_status_code && r.confidence@
            == br.result->0.confidence.name() && r.confidence_reason@
            == br.result->0.confidence_reason@,
        br.result is None ==> r.status_code is None && r.colo is None && r.country is None
            && r.region is None && r.city is None && r.latency_ms is None && r.reasons@.len() == 0
            && r.confidence_reason@.len() == 0 && r.confidence@ == Confidence::Absent.name(),
        br.result matches Some(d) ==> d.edge_info matches Some(e) ==> {
            &&& text::opt_text(r.colo) == text::opt_text(e.colo_code)
            &&& text::opt_text(r.country) == text::opt_text(e.country)
            &&& text::opt_text(r.region) == text::opt_text(e.region)
            &&& text::opt_text(r.city) == text::opt_text(e.city)
            &&& r.latency_ms is Some <==> e.latency is Some
            &&& r.latency_ms is Some ==> r.latency_ms->0 * 1_000_000 <= e.latency->0.nanos < (
            r.latency_ms->0 + 1) * 1_000_000
        },
        speed matches Some(s) ==> {
            &&& r.speedtest_elapsed_ms == s.elapsed_ms
            &&& r.speedtest_connect_ms == s.connect_ms
            &&& r.speedtest_tls_handshake_ms == s.tls_handshake_ms
            &&& r.speedtest_ttfb_ms == s.ttfb_ms
            &&& s.bytes_per_second is Some ==> r.download_speed_bytes_per_sec == s.bytes_per_second
        },
        speed is None ==> r.speedtest_elapsed_ms is None && r.speedtest_connect_ms is None
            && r.speedtest_tls_handshake_ms is None && r.speedtest_ttfb_ms is None
            && r.speedtest_handshake is None,
        text::opt_text(r.error) == text::opt_text(br.error),
{
    if br.result is None {
        assert(text::strings(r.reasons@).len() == 0);
    }
}

/// The words of a name and its value, where there is one.
pub open spec fn told(name: Seq<char>, value: Option<Seq<char>>) -> Seq<Seq<char>> {
    match value {
        Some(v) => text::words(name + v),
        None => Seq::empty(),
    }
}

proof fn lemma_led(name: Seq<char>, led: Seq<char>, value: Seq<char>)
    requires
        led == seq![' '] + name,
    ensures
        text::words(led + value) == text::words(name + value),
        text::is_space((led + value)[0]),
{
    text::law_white_space(' ');
    assert(led + value =~= seq![' '] + (name + value));
    text::lemma_words_of_space(seq![' '], name + value);
}

proof fn lemma_labelled(before: Seq<char>, name: Seq<char>, led: Seq<char>, value: Option<Seq<char>>)
    requires
        led == seq![' '] + name,
    ensures
        text::words(before + labelled(led, value)) == text::words(before) + told(name, value),
{
    match value {
        Some(v) => {
            lemma_led(name, led, v);
            text::lemma_words_append(before, led + v);
        },
        None => {
            assert(before + labelled(led, value) =~= before);
            assert(text::words(before) + told(name, value) =~= text::words(before));
        },
    }
}

/// The milliseconds with their unit, where there are any.
pub open spec fn with_unit(ms: Option<u128>) -> Option<Seq<char>> {
    match ms {
        Some(x) => Some(numeral::decimal(x as nat) + "ms"@),
        None => None,
    }
}

proof fn lemma_timed(before: Seq<char>, name: Seq<char>, led: Seq<char>, ms: Option<u128>)
    requires
        led == seq![' '] + name,
    ensures
        text::words(before + timed(led, ms)) == text::words(before) + told(name, with_unit(ms)),
{
    lemma_labelled(before, name, led, with_unit(ms));
    if let Some(x) = ms {
        assert(led + numeral::decimal(x as nat) + "ms"@ =~= led + (numeral::decimal(x as nat)
            + "ms"@));
    }
}

/// What the line of every record begins with.
spec fn head_of(r: ExportRecord) -> Seq<char> {
    "#"@ + text::padded(numeral::decimal(r.id as nat), 5) + " "@ + r.target@ + " edge="@ + yes_no(
        r.is_cloudflare_edge,
    ) + " tls="@ + yes_no(r.is_tls) + " usable="@ + yes_no(r.is_usable) + " conf="@ + r.confidence@
}

#[verifier::rlimit(40)]
proof fn lemma_head_in_words(r: ExportRecord)
    ensures
        text::words(head_of(r)) == text::words("#"@ + numeral::decimal(r.id as nat)) + text::words(
            r.target@,
        ) + text::words("edge="@ + yes_no(r.is_cloudflare_edge)) + text::words(
            "tls="@ + yes_no(r.is_tls),
        ) + text::words("usable="@ + yes_no(r.is_usable)) + text::words("conf="@ + r.confidence@),
{
    reveal_strlit(" ");
    reveal_strlit(" edge=");
    reveal_strlit("edge=");
    reveal_strlit(" tls=");
    reveal_strlit("tls=");
    reveal_strlit(" usable=");
    reveal_strlit("usable=");
    reveal_strlit(" conf=");
    reveal_strlit("conf=");
    text::law_white_space(' ');
    let number = numeral::decimal(r.id as nat);
    let wide = text::padded(number, 5);
    text::law_padded(number, 5);
    let blanks = wide.skip(number.len() as int) + seq![' '];
    assert forall|i: int| 0 <= i < blanks.len() implies text::is_space(#[trigger] blanks[i]) by {
        if i < blanks.len() - 1 {
            assert(blanks[i] == wide[number.len() + i]);
        }
    }
    let a = "#"@ + number;
    let b = blanks + r.target@;
    assert(b[0] == blanks[0]);
    text::lemma_words_of_space(blanks, r.target@);
    text::lemma_words_append(a, b);
    assert("#"@ + wide + " "@ + r.target@ =~= a + b) by {
        assert(wide =~= number + wide.skip(number.len() as int));
    }
    let h0 = a + b;
    let e = yes_no(r.is_cloudflare_edge);
    let h1 = h0 + " edge="@ + e;
    assert(" edge="@ =~= seq![' '] + "edge="@);
    lemma_labelled(h0, "edge="@, " edge="@, Some(e));
    assert(h0 + (" edge="@ + e) =~= h1);
    let t = yes_no(r.is_tls);
    let h2 = h1 + " tls="@ + t;
    assert(" tls="@ =~= seq![' '] + "tls="@);
    lemma_labelled(h1, "tls="@, " tls="@, Some(t));
    assert(h1 + (" tls="@ + t) =~= h2);
    let u = yes_no(r.is_usable);
    let h3 = h2 + " usable="@ + u;
    assert(" usable="@ =~= seq![' '] + "usable="@);
    lemma_labelled(h2, "usable="@, " usable="@, Some(u));
    assert(h2 + (" usable="@ + u) =~= h3);
    let h4 = h3 + " conf="@ + r.confidence@;
    assert(" conf="@ =~= seq![' '] + "conf="@);
    lemma_labelled(h3, "conf="@, " conf="@, Some(r.confidence@));
    assert(h3 + (" conf="@ + r.confidence@) =~= h4);
    assert(head_of(r) =~= h4);
}

#[verifier::rlimit(40)]
proof fn lemma_details_in_words(before: Seq<char>, r: ExportRecord)
    ensures
        text::words(before + r.speed_details()) == text::words(before) + (
        if r.download_speed_bytes_per_sec is Some {
            told("sp_elapsed="@, with_unit(r.speedtest_elapsed_ms)) + told(
                "sp_tcp="@,
                with_unit(r.speedtest_connect_ms),
            ) + told("sp_tls="@, with_unit(r.speedtest_tls_handshake_ms)) + told(
                "sp_ttfb="@,
                with_unit(r.speedtest_ttfb_ms),
            ) + told("sp_hs="@, text::opt_text(r.speedtest_handshake))
        } else {
            Seq::empty()
        }),
{
    reveal_strlit(" sp_elapsed=");
    reveal_strlit("sp_elapsed=");
    reveal_strlit(" sp_tcp=");
    reveal_strlit("sp_tcp=");
    reveal_strlit(" sp_tls=");
    reveal_strlit("sp_tls=");
    reveal_strlit(" sp_ttfb=");
    reveal_strlit("sp_ttfb=");
    reveal_strlit(" sp_hs=");
    reveal_strlit("sp_hs=");
    if r.download_speed_bytes_per_sec is Some {
        assert(" sp_elapsed="@ =~= seq![' '] + "sp_elapsed="@);
        assert(" sp_tcp="@ =~= seq![' '] + "sp_tcp="@);
        assert(" sp_tls="@ =~= seq![' '] + "sp_tls="@);
        assert(" sp_ttfb="@ =~= seq![' '] + "sp_ttfb="@);
        assert(" sp_hs="@ =~= seq![' '] + "sp_hs="@);
        let b1 = before + timed(" sp_elapsed="@, r.speedtest_elapsed_ms);
        let b2 = b1 + timed(" sp_tcp="@, r.speedtest_connect_ms);
        let b3 = b2 + timed(" sp_tls="@, r.speedtest_tls_handshake_ms);
        let b4 = b3 + timed(" sp_ttfb="@, r.speedtest_ttfb_ms);
        let b5 = b4 + labelled(" sp_hs="@, text::opt_text(r.speedtest_handshake));
        lemma_timed(before, "sp_elapsed="@, " sp_elapsed="@, r.speedtest_elapsed_ms);
        lemma_timed(b1, "sp_tcp="@, " sp_tcp="@, r.speedtest_connect_ms);
        lemma_timed(b2, "sp_tls="@, " sp_tls="@, r.speedtest_tls_handshake_ms);
        lemma_timed(b3, "sp_ttfb="@, " sp_ttfb="@, r.speedtest_ttfb_ms);
        lemma_labelled(b4, "sp_hs="@, " sp_hs="@, text::opt_text(r.speedtest_handshake));
        assert(before + r.speed_details() =~= b5);
        let w0 = text::words(before);
        let t1 = told("sp_elapsed="@, with_unit(r.speedtest_elapsed_ms));
        let t2 = told("sp_tcp="@, with_unit(r.speedtest_connect_ms));
        let t3 = told("sp_tls="@, with_unit(r.speedtest_tls_handshake_ms));
        let t4 = told("sp_ttfb="@, with_unit(r.speedtest_ttfb_ms));
        let t5 = told("sp_hs="@, text::opt_text(r.speedtest_handshake));
        assert(w0 + t1 + t2 + t3 + t4 + t5 =~= w0 + (t1 + t2 + t3 + t4 + t5));
    } else {
        assert(before + r.speed_details() =~= before);
        assert(text::words(before) + Seq::<Seq<char>>::empty() =~= text::words(before));
    }
}

/// The line of a record in words: its number, its target, yes or no to each of three questions
/// and how sure the first answer is; then each finding that there is, a name and its value, the
/// times of the speed test only where there is a speed; then the reasons and the error, where
/// there are any.
#[verifier::rlimit(40)]
pub proof fn law_line_in_words(r: ExportRecord)
    ensures
        text::words(r.line()) == text::words("#"@ + numeral::decimal(r.id as nat)) + text::words(
            r.target@,
        ) + text::words("edge="@ + yes_no(r.is_cloudflare_edge)) + text::words(
            "tls="@ + yes_no(r.is_tls),
        ) + text::words("usable="@ + yes_no(r.is_usable)) + text::words("conf="@ + r.confidence@)
            + told(
            "status="@,
            if r.status_code is Some {
                Some(numeral::decimal(r.status_code->0 as nat))
            } else {
                None
            },
        ) + told("colo="@, text::opt_text(r.colo)) + told("country="@, text::opt_text(r.country))
            + told("region="@, text::opt_text(r.region)) + told("city="@, text::opt_text(r.city))
            + told(
            "latency_ms="@,
            if r.latency_ms is Some {
                Some(numeral::decimal(r.latency_ms->0 as nat))
            } else {
                None
            },
        ) + told(
            "bps="@,
            if r.download_speed_bytes_per_sec is Some {
                Some(numeral::decimal(r.download_speed_bytes_per_sec->0 as nat))
            } else {
                None
            },
        ) + (if r.download_speed_bytes_per_sec is Some {
            told("sp_elapsed="@, with_unit(r.speedtest_elapsed_ms)) + told(
                "sp_tcp="@,
                with_unit(r.speedtest_connect_ms),
            ) + told("sp_tls="@, with_unit(r.speedtest_tls_handshake_ms)) + told(
                "sp_ttfb="@,
                with_unit(r.speedtest_ttfb_ms),
            ) + told("sp_hs="@, text::opt_text(r.speedtest_handshake))
        } else {
            Seq::empty()
        }) + told(
            "reasons=["@,
            if r.reasons@.len() > 0 {
                Some(text::joined(text::strings(r.reasons@), "; "@) + "]"@)
            } else {
                None
            },
        ) + told(
            "error=\""@,
            if r.error is Some {
                Some(text::replaced(r.error->0@, '"', seq!['\\', '"']) + "\""@)
            } else {
                None
            },
        ),
        yes_no(true) == seq!['Y'],
        yes_no(false) == seq!['N'],
{
    reveal_strlit("Y");
    reveal_strlit("N");
    reveal_strlit("\\\"");
    assert(yes_no(true) =~= seq!['Y'] && yes_no(false) =~= seq!['N']);
    assert("\\\""@ =~= seq!['\\', '"']);
    reveal_strlit(" status=");
    reveal_strlit("status=");
    reveal_strlit(" colo=");
    reveal_strlit("colo=");
    reveal_strlit(" country=");
    reveal_strlit("country=");
    reveal_strlit(" region=");
    reveal_strlit("region=");
    reveal_strlit(" city=");
    reveal_strlit("city=");
    reveal_strlit(" latency_ms=");
    reveal_strlit("latency_ms=");
    reveal_strlit(" bps=");
    reveal_strlit("bps=");
    reveal_strlit(" reasons=[");
    reveal_strlit("reasons=[");
    reveal_strlit(" error=\"");
    reveal_strlit("error=\"");
    assert(" status="@ =~= seq![' '] + "status="@);
    assert(" colo="@ =~= seq![' '] + "colo="@);
    assert(" country="@ =~= seq![' '] + "country="@);
    assert(" region="@ =~= seq![' '] + "region="@);
    assert(" city="@ =~= seq![' '] + "city="@);
    assert(" latency_ms="@ =~= seq![' '] + "latency_ms="@);
    assert(" bps="@ =~= seq![' '] + "bps="@);
    assert(" reasons=["@ =~= seq![' '] + "reasons=["@);
    assert(" error=\""@ =~= seq![' '] + "error=\""@);
    let status = if r.status_code is Some {
        Some(numeral::decimal(r.status_code->0 as nat))
    } else {
        None
    };
    let speed = if r.download_speed_bytes_per_sec is Some {
        Some(numeral::decimal(r.download_speed_bytes_per_sec->0 as nat))
    } else {
        None
    };
    let latency = opt_wide(r.latency_ms);
    let reasons = if r.reasons@.len() > 0 {
        Some(text::joined(text::strings(r.reasons@), "; "@) + "]"@)
    } else {
        None
    };
    let error = if r.error is Some {
        Some(text::replaced(r.error->0@, '"', seq!['\\', '"']) + "\""@)
    } else {
        None
    };
    lemma_head_in_words(r);
    let h = head_of(r);
    let b1 = h + labelled(" status="@, status);
    let b2 = b1 + labelled(" colo="@, text::opt_text(r.colo));
    let b3 = b2 + labelled(" country="@, text::opt_text(r.country));
    let b4 = b3 + labelled(" region="@, text::opt_text(r.region));
    let b5 = b4 + labelled(" city="@, text::opt_text(r.city));
    let b6 = b5 + labelled(" latency_ms="@, latency);
    let b7 = b6 + labelled(" bps="@, speed);
    let b8 = b7 + r.speed_details();
    let b9 = b8 + labelled(" reasons=["@, reasons);
    let b10 = b9 + labelled(" error=\""@, error);
    lemma_labelled(h, "status="@, " status="@, status);
    lemma_labelled(b1, "colo="@, " colo="@, text::opt_text(r.colo));
    lemma_labelled(b2, "country="@, " country="@, text::opt_text(r.country));
    lemma_labelled(b3, "region="@, " region="@, text::opt_text(r.region));
    lemma_labelled(b4, "city="@, " city="@, text::opt_text(r.city));
    lemma_labelled(b5, "latency_ms="@, " latency_ms="@, latency);
    lemma_labelled(b6, "bps="@, " bps="@, speed);
    lemma_details_in_words(b7, r);
    lemma_labelled(b8, "reasons=["@, " reasons=["@, reasons);
    lemma_labelled(b9, "error=\""@, " error=\""@, error);
    assert(r.reason_list() =~= labelled(" reasons=["@, reasons));
    assert(r.error_note() =~= labelled(" error=\""@, error));
    assert(r.line() == b10);
}

} // verus!
