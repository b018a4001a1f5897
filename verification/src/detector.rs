//! Detection: what the probes of one target add up to, and how the targets of a batch
//! are worked off.

use std::collections::VecDeque;
use vstd::prelude::*;
use vstd::slice::slice_subrange;

use crate::cache::CacheConfig;
use crate::error::DetectorError;
use crate::governor;
use crate::governor::{FdCounter, GovernorSnapshot, ResourceGovernor, ResourceGovernorConfig};
use crate::location::{CfLocation, LocationSource};
use crate::model::{BatchResult, BatchTarget, Confidence, DetectionResult, EdgeInfo, Protocol, Target};
use crate::numeral;
use crate::probe;
use crate::probe::{HttpProbe, ProbeConfig, TlsProbe};
use crate::text;
use crate::time::Duration;

verus! {

/// How the number of concurrent probes follows their success.
#[derive(Clone, Copy, Debug)]
pub struct AdaptiveConfig {
    pub enabled: bool,
    pub initial: usize,
    pub min: usize,
    pub max: usize,
    /// The number of latest probes whose success counts.
    pub window: usize,
}

impl Default for AdaptiveConfig {
    fn default() -> (r: Self)
        ensures
            !r.enabled,
            r.initial == 16,
            r.min == 1,
            r.max == 128,
            r.window == 10,
    {
        AdaptiveConfig { enabled: false, initial: 16, min: 1, max: 128, window: 10 }
    }
}

/// How detection is done.
#[derive(Clone, Debug)]
pub struct DetectorConfig {
    pub probe: ProbeConfig,
    pub cache: CacheConfig,
    /// The most probes at a time.
    pub max_concurrency: usize,
    pub governor_enabled: bool,
    pub governor: ResourceGovernorConfig,
}

impl Default for DetectorConfig {
    fn default() -> (r: Self)
        ensures
            r.probe.connect_timeout.nanos == 2_000_000_000,
            r.probe.request_timeout.nanos == 3_000_000_000,
            r.probe.user_agent@ == "Mozilla/5.0 (compatible; CFRP-Detector/3.0)"@,
            r.probe.default_sni@ == "www.cloudflare.com"@,
            r.probe.tls_session_cache,
            r.probe.tls_session_cache_size == 256,
            !r.probe.allow_0rtt_speedtest,
            r.probe.accept_invalid_certs,
            r.cache.directory@ == "data/cfrpdata"@,
            r.cache.max_age.nanos == 7 * 24 * 3600 * 1_000_000_000,
            r.max_concurrency == 256,
            r.governor_enabled,
            r.governor == governor::default_config(),
    {
        DetectorConfig {
            probe: ProbeConfig::default(),
            cache: CacheConfig::default(),
            max_concurrency: 256,
            governor_enabled: true,
            governor: ResourceGovernorConfig::default(),
        }
    }
}

impl DetectorConfig {
    /// The configuration of the governor, if there is to be one: the user's limit is the
    /// detector's own.
    pub fn governor_config(&self) -> (r: Option<ResourceGovernorConfig>)
        ensures
            match r {
                Some(g) => self.governor_enabled && g == (ResourceGovernorConfig {
                    user_max_concurrency: governor::max(self.max_concurrency as int, 1) as usize,
                    ..self.governor
                }),
                None => !self.governor_enabled,
            },
    {
        if !self.governor_enabled {
            return None;
        }
        let mut g = self.governor;
        g.user_max_concurrency = governor::greatest(self.max_concurrency, 1);
        Some(g)
    }
}

// ---------------------------------------------------------------------------
// One target

/// The protocol and the host name of the HTTP probe, after the TLS probe.
pub open spec fn http_plan(
    tls: Option<TlsProbe>,
    domain: Option<Seq<char>>,
    default_sni: Seq<char>,
) -> (Protocol, Seq<char>) {
    match tls {
        Some(t) => (Protocol::Https, probe::host_for(t.working_sni@, default_sni)),
        None => (
            Protocol::Http,
            match domain {
                Some(d) => d,
                None => default_sni,
            },
        ),
    }
}

/// Plans the HTTP probe.
pub fn plan_http(tls: &Option<TlsProbe>, domain: Option<&str>, default_sni: &str) -> (r: (
    Protocol,
    String,
))
    ensures
        (r.0, r.1@) == http_plan(*tls, probe::opt_str(domain), default_sni@),
{
    match tls {
        Some(t) => {
            proof {
                assert((t.working_sni@.len() == 0) == (t.working_sni@ =~= Seq::<char>::empty()));
            }
            if t.working_sni.as_str().is_empty() {
                (Protocol::Https, text::owned(default_sni))
            } else {
                (Protocol::Https, t.working_sni.clone())
            }
        },
        None => match domain {
            Some(d) => (Protocol::Http, text::owned(d)),
            None => (Protocol::Http, text::owned(default_sni)),
        },
    }
}

/// Whether a status tells that the endpoint can be used.
pub open spec fn is_usable_status(status: Option<u16>) -> bool {
    match status {
        Some(s) => 200 <= s < 400,
        None => false,
    }
}

/// How sure a detection is: by whether the address belongs to the network, and whether
/// the service can be used or bears the network's marks.
pub open spec fn confidence_of(in_range: bool, usable: bool, marked: bool) -> Confidence {
    if in_range {
        if usable || marked {
            Confidence::High
        } else {
            Confidence::Medium
        }
    } else {
        if usable || marked {
            Confidence::Low
        } else {
            Confidence::Absent
        }
    }
}

/// Why a detection is as sure as it is.
pub open spec fn confidence_reason(c: Confidence) -> Seq<char> {
    match c {
        Confidence::High => "IP belongs to Cloudflare and shows application-level traits"@,
        Confidence::Medium =>
            "IP belongs to Cloudflare ranges, but active service traits are limited"@,
        Confidence::Low =>
            "IP is outside official ranges but exhibits Cloudflare application traits"@,
        Confidence::Absent =>
            "IP is outside Cloudflare ranges and no Cloudflare traits were detected"@,
    }
}

pub open spec fn range_reasons(in_range: bool) -> Seq<Seq<char>> {
    if in_range {
        seq!["IP is within official Cloudflare CIDR ranges"@]
    } else {
        Seq::empty()
    }
}

pub open spec fn tls_reasons(tls: Option<TlsProbe>) -> Seq<Seq<char>> {
    match tls {
        Some(t) => if t.cloudflare_trait {
            seq!["TLS/HTTPS probe exhibits Cloudflare traits"@]
        } else {
            Seq::empty()
        },
        None => Seq::empty(),
    }
}

pub open spec fn http_reasons(protocol: Protocol, http: HttpProbe) -> Seq<Seq<char>> {
    if http.cloudflare_trait {
        seq!["Service detected on "@ + text::upper(protocol.scheme_text())] + text::strings(
            http.reasons@,
        )
    } else {
        Seq::empty()
    }
}

pub open spec fn usable_reasons(status: Option<u16>) -> Seq<Seq<char>> {
    if is_usable_status(status) {
        seq![
            "Successful domain-based response (HTTP "@ + numeral::decimal(status->0 as nat) + ")"@,
        ]
    } else {
        Seq::empty()
    }
}

/// The reasons for a verdict, in the order of the probes.
pub open spec fn all_reasons(
    in_range: bool,
    tls: Option<TlsProbe>,
    protocol: Protocol,
    http: HttpProbe,
) -> Seq<Seq<char>> {
    range_reasons(in_range) + tls_reasons(tls) + http_reasons(protocol, http) + usable_reasons(
        http.status,
    )
}

/// The verdict on a target: whether the address belongs to the network, what the TLS
/// probe and the HTTP probe found. Where it is an edge comes later.
pub open spec fn is_verdict(
    r: DetectionResult,
    in_range: bool,
    tls: Option<TlsProbe>,
    protocol: Protocol,
    http: HttpProbe,
) -> bool {
    let usable = is_usable_status(http.status);
    &&& r.is_cloudflare_edge == (in_range || usable || http.cloudflare_trait)
    &&& r.is_usable == usable
    &&& r.http_status_code == http.status
    &&& r.is_tls == (tls is Some)
    &&& r.confidence == confidence_of(in_range, usable, http.cloudflare_trait)
    &&& r.confidence_reason@ == confidence_reason(r.confidence)
    &&& text::strings(r.reasons@) == all_reasons(in_range, tls, protocol, http)
    &&& r.edge_info is None
}

fn push_reason(reasons: &mut Vec<String>, reason: String)
    ensures
        text::strings(final(reasons)@) == text::strings(old(reasons)@) + seq![reason@],
{
    let ghost before = reasons@;
    reasons.push(reason);
    proof {
        assert(text::strings(reasons@) =~= text::strings(before) + seq![reason@]);
    }
}

fn push_reasons(reasons: &mut Vec<String>, more: &Vec<String>)
    ensures
        text::strings(final(reasons)@) == text::strings(old(reasons)@) + text::strings(more@),
{
    let ghost before = text::strings(reasons@);
    let ghost all = text::strings(more@);
    let mut i: usize = 0;
    proof {
        assert(before + all.take(0) =~= before);
    }
    while i < more.len()
        invariant
            all == text::strings(more@),
            i <= more@.len(),
            text::strings(reasons@) == before + all.take(i as int),
        decreases more@.len() - i,
    {
        push_reason(reasons, more[i].clone());
        proof {
            assert(before + all.take(i as int) + seq![more@[i as int]@] =~= before + all.take(
                i + 1,
            ));
        }
        i += 1;
    }
    proof {
        assert(all.take(i as int) =~= all);
    }
}

/// Sums up the probes of a target.
pub fn assemble(in_range: bool, tls: &Option<TlsProbe>, protocol: Protocol, http: &HttpProbe) -> (r:
    DetectionResult)
    ensures
        is_verdict(r, in_range, *tls, protocol, *http),
{
    let mut reasons: Vec<String> = Vec::new();
    let ghost none = Seq::<Seq<char>>::empty();
    proof {
        assert(text::strings(reasons@) =~= none);
    }
    if in_range {
        push_reason(&mut reasons, text::owned("IP is within official Cloudflare CIDR ranges"));
    }
    proof {
        assert(text::strings(reasons@) =~= range_reasons(in_range));
    }
    let is_tls = tls.is_some();
    if let Some(t) = tls {
        if t.cloudflare_trait {
            push_reason(&mut reasons, text::owned("TLS/HTTPS probe exhibits Cloudflare traits"));
        }
    }
    proof {
        assert(text::strings(reasons@) =~= range_reasons(in_range) + tls_reasons(*tls));
    }
    if http.cloudflare_trait {
        let scheme = text::to_chars(protocol.scheme());
        let up = text::to_upper(&scheme);
        let name = text::from_chars(&up);
        let mut s = text::owned("Service detected on ");
        s.append(name.as_str());
        push_reason(&mut reasons, s);
        push_reasons(&mut reasons, &http.reasons);
    }
    proof {
        assert(text::strings(reasons@) =~= range_reasons(in_range) + tls_reasons(*tls)
            + http_reasons(protocol, *http));
    }
    let is_usable = match http.status {
        Some(s) => 200 <= s && s < 400,
        None => false,
    };
    let traits = is_usable || http.cloudflare_trait;
    let confidence = if in_range {
        if traits {
            Confidence::High
        } else {
            Confidence::Medium
        }
    } else {
        if traits {
            Confidence::Low
        } else {
            Confidence::Absent
        }
    };
    let reason = match confidence {
        Confidence::High => text::owned("IP belongs to Cloudflare and shows application-level traits"),
        Confidence::Medium => text::owned(
            "IP belongs to Cloudflare ranges, but active service traits are limited",
        ),
        Confidence::Low => text::owned(
            "IP is outside official ranges but exhibits Cloudflare application traits",
        ),
        Confidence::Absent => text::owned(
            "IP is outside Cloudflare ranges and no Cloudflare traits were detected",
        ),
    };
    if is_usable {
        if let Some(code) = http.status {
            let mut s = text::owned("Successful domain-based response (HTTP ");
            numeral::push_numeral(&mut s, code as u128, 10);
            s.append(")");
            push_reason(&mut reasons, s);
        }
    }
    proof {
        assert(text::strings(reasons@) =~= all_reasons(in_range, *tls, protocol, *http));
    }
    DetectionResult {
        is_cloudflare_edge: in_range || traits,
        is_usable,
        http_status_code: http.status,
        is_tls,
        confidence,
        confidence_reason: reason,
        reasons,
        edge_info: None,
    }
}

/// What a verdict says. A target is an edge where its address belongs to the network, or where
/// its service can be used or bears the network's marks; a service can be used where its status
/// tells of success or points elsewhere. The confidence is high for an address of the network
/// with such a service and medium for one without; for another address it is low with such a
/// service, and absent without. An endpoint that can be used is an edge.
pub proof fn law_verdict(
    r: DetectionResult,
    in_range: bool,
    tls: Option<TlsProbe>,
    protocol: Protocol,
    http: HttpProbe,
)
    requires
        is_verdict(r, in_range, tls, protocol, http),
    ensures
        ({
            let usable = http.status is Some && 200 <= http.status->0 < 400;
            let alive = usable || http.cloudflare_trait;
            &&& r.is_usable <==> usable
            &&& r.is_cloudflare_edge <==> in_range || alive
            &&& r.http_status_code == http.status
            &&& r.is_tls <==> tls is Some
            &&& r.confidence == Confidence::High <==> in_range && alive
            &&& r.confidence == Confidence::Medium <==> in_range && !alive
            &&& r.confidence == Confidence::Low <==> !in_range && alive
            &&& r.confidence == Confidence::Absent <==> !in_range && !alive
            &&& in_range && alive ==> r.confidence_reason@
                == "IP belongs to Cloudflare and shows application-level traits"@
            &&& in_range && !alive ==> r.confidence_reason@
                == "IP belongs to Cloudflare ranges, but active service traits are limited"@
            &&& !in_range && alive ==> r.confidence_reason@
                == "IP is outside official ranges but exhibits Cloudflare application traits"@
            &&& !in_range && !alive ==> r.confidence_reason@
                == "IP is outside Cloudflare ranges and no Cloudflare traits were detected"@
            &&& r.edge_info is None
        }),
        r.is_usable ==> r.is_cloudflare_edge,
        r.is_cloudflare_edge <==> r.confidence != Confidence::Absent,
        in_range <==> r.confidence == Confidence::High || r.confidence == Confidence::Medium,
        !r.is_cloudflare_edge ==> !in_range && !http.cloudflare_trait,
{
}

/// The reasons of a verdict, in order: that the address belongs to the network, that the TLS
/// probe bore its marks, that the service did, with all that tell of it, and that the service
/// can be used, with its status. Each stands there exactly where it holds.
pub proof fn law_verdict_reasons(
    r: DetectionResult,
    in_range: bool,
    tls: Option<TlsProbe>,
    protocol: Protocol,
    http: HttpProbe,
)
    requires
        is_verdict(r, in_range, tls, protocol, http),
    ensures
        text::strings(r.reasons@) == (if in_range {
            seq!["IP is within official Cloudflare CIDR ranges"@]
        } else {
            Seq::empty()
        }) + (if tls is Some && tls->0.cloudflare_trait {
            seq!["TLS/HTTPS probe exhibits Cloudflare traits"@]
        } else {
            Seq::empty()
        }) + (if http.cloudflare_trait {
            seq![
                match protocol {
                    Protocol::Https => "Service detected on HTTPS"@,
                    Protocol::Http => "Service detected on HTTP"@,
                },
            ] + text::strings(http.reasons@)
        } else {
            Seq::empty()
        }) + (if http.status is Some && 200 <= http.status->0 < 400 {
            seq![
                "Successful domain-based response (HTTP "@ + numeral::decimal(
                    http.status->0 as nat,
                ) + ")"@,
            ]
        } else {
            Seq::empty()
        }),
{
    reveal_strlit("Service detected on ");
    reveal_strlit("Service detected on HTTPS");
    reveal_strlit("Service detected on HTTP");
    reveal_strlit("http");
    reveal_strlit("https");
    assert("Service detected on "@ + text::upper("https"@) =~= "Service detected on HTTPS"@);
    assert("Service detected on "@ + text::upper("http"@) =~= "Service detected on HTTP"@);
}

/// After an answer over TLS the service is asked over TLS, under the name that was answered, or
/// the default one where that is empty; without an answer it is asked in plain, under the given
/// name or else the default one.
pub proof fn law_http_plan(
    tls: TlsProbe,
    domain: Option<Seq<char>>,
    default_sni: Seq<char>,
    given: Seq<char>,
)
    ensures
        tls.working_sni@.len() > 0 ==> http_plan(Some(tls), domain, default_sni) == (
            Protocol::Https,
            tls.working_sni@,
        ),
        tls.working_sni@.len() == 0 ==> http_plan(Some(tls), domain, default_sni) == (
            Protocol::Https,
            default_sni,
        ),
        http_plan(None, Some(given), default_sni) == (Protocol::Http, given),
        http_plan(None, None, default_sni) == (Protocol::Http, default_sni),
{
}

/// The colo code that a trace tells, from line `i` on: the first line of that name
/// counts, even where it names none.
pub open spec fn colo_from(lines: Seq<Seq<char>>, i: int) -> Option<Seq<char>>
    decreases lines.len() - i,
{
    if i < 0 || i >= lines.len() {
        None
    } else {
        let line = text::trimmed(lines[i]);
        if text::starts_with(line, "colo="@) {
            let code = text::trimmed(line.skip(5));
            if code.len() == 0 {
                None
            } else {
                Some(text::upper(code))
            }
        } else {
            colo_from(lines, i + 1)
        }
    }
}

/// The colo code that a trace tells.
pub open spec fn colo_of(body: Seq<char>) -> Option<Seq<char>> {
    colo_from(text::lines(body), 0)
}

/// Finds the colo code in a trace.
pub fn extract_colo_from_trace(body: &str) -> (r: Option<String>)
    ensures
        text::opt_text(r) == colo_of(body@),
{
    let cs = text::to_chars(body);
    let ls = text::split_lines(&cs);
    let key = text::to_chars("colo=");
    let ghost v = text::views(ls@);
    let mut i: usize = 0;
    proof {
        reveal_strlit("colo=");
    }
    while i < ls.len()
        invariant
            v == text::views(ls@),
            v == text::lines(body@),
            key@ == "colo="@,
            "colo="@.len() == 5,
            i <= ls@.len(),
            colo_of(body@) == colo_from(v, i as int),
        decreases ls@.len() - i,
    {
        proof {
            assert(v[i as int] == ls@[i as int]@);
        }
        let line = text::trim(ls[i]);
        if text::has_prefix(line, &key) {
            assert(line@.subrange(5, line@.len() as int) =~= line@.skip(5));
            let code = text::trim(slice_subrange(line, 5, line.len()));
            if code.len() == 0 {
                return None;
            }
            let up = text::to_upper(code);
            return Some(text::from_chars(&up));
        }
        i += 1;
    }
    None
}

/// A colo code that was found is not empty, and is in upper case.
pub proof fn law_colo_is_upper(body: Seq<char>)
    ensures
        match colo_of(body) {
            Some(c) => c.len() > 0 && text::upper(c) == c,
            None => true,
        },
{
    lemma_colo_from(text::lines(body), 0);
}

proof fn lemma_colo_from(lines: Seq<Seq<char>>, i: int)
    ensures
        match colo_from(lines, i) {
            Some(c) => c.len() > 0 && text::upper(c) == c,
            None => true,
        },
    decreases lines.len() - i,
{
    if 0 <= i < lines.len() {
        let line = text::trimmed(lines[i]);
        if text::starts_with(line, "colo="@) {
            text::lemma_upper_idempotent(text::trimmed(line.skip(5)));
        } else {
            lemma_colo_from(lines, i + 1);
        }
    }
}

/// Whether this is what is told of an edge with the given code, time and place.
pub open spec fn is_edge_info(
    e: EdgeInfo,
    colo: Seq<char>,
    latency: Duration,
    place: Option<CfLocation>,
) -> bool {
    &&& text::opt_text(e.colo_code) == Some(colo)
    &&& e.latency == Some(latency)
    &&& e.download_speed_bytes_per_sec is None
    &&& match place {
        Some(l) => e.city == Some(l.city) && e.country == Some(l.cca2) && e.region == Some(l.region),
        None => e.city is None && e.country is None && e.region is None,
    }
}

/// Puts together what is told of an edge.
pub fn edge_info(colo: String, latency: Duration, place: Option<CfLocation>) -> (r: EdgeInfo)
    ensures
        is_edge_info(r, colo@, latency, place),
{
    let mut info = EdgeInfo::default();
    info.colo_code = Some(colo);
    info.latency = Some(latency);
    if let Some(l) = place {
        info.city = Some(l.city);
        info.country = Some(l.cca2);
        info.region = Some(l.region);
    }
    info
}

/// Whether a source of places answers a code so.
pub open spec fn places<L: LocationSource>(locations: L, code: &str, place: Option<CfLocation>) -> bool {
    call_ensures(L::lookup, (&locations, code), place)
}

/// Whether this is what a trace tells of an edge: its colo code, and the place that the
/// source of places answers for it.
pub open spec fn is_traced<L: LocationSource>(
    e: EdgeInfo,
    body: Seq<u8>,
    latency: Duration,
    locations: L,
) -> bool {
    &&& colo_of(text::lossy_text(body)) is Some
    &&& exists|code: &str, place: Option<CfLocation>|
        #[trigger] places(locations, code, place) && code@ == colo_of(text::lossy_text(body))->0
            && is_edge_info(e, code@, latency, place)
}

/// What a trace tells of an edge; the place is what the source of places answers for the
/// colo code. Nothing is told without a colo code.
pub fn edge_from_trace<L: LocationSource>(body: &[u8], latency: Duration, locations: &L) -> (r:
    Option<EdgeInfo>)
    ensures
        match r {
            Some(e) => is_traced(e, body@, latency, *locations),
            None => colo_of(text::lossy_text(body@)) is None,
        },
{
    let s = text::decode_lossy(body);
    match extract_colo_from_trace(s.as_str()) {
        Some(code) => {
            let key = code.as_str();
            let place = locations.lookup(key);
            let ghost k = key;
            let ghost p = place;
            assert(call_ensures(L::lookup, (locations, k), p));
            let info = edge_info(code, latency, place);
            proof {
                assert(places(*locations, k, p));
            }
            Some(info)
        },
        None => None,
    }
}

// ---------------------------------------------------------------------------
// Batches: how many probes at a time

pub open spec fn clamp(x: int, lo: int, hi: int) -> int {
    if x < lo {
        lo
    } else if x > hi {
        hi
    } else {
        x
    }
}

fn clamped(x: usize, lo: usize, hi: usize) -> (r: usize)
    requires
        lo <= hi,
    ensures
        r == clamp(x as int, lo as int, hi as int),
{
    if x < lo {
        lo
    } else if x > hi {
        hi
    } else {
        x
    }
}

/// The most probes at a time, at least one.
pub open spec fn ceiling(max_concurrency: usize) -> int {
    governor::max(max_concurrency as int, 1)
}

/// The probes at a time that a batch starts with, before a governor caps them: at least one.
pub open spec fn first_limit(a: AdaptiveConfig, base: int, max_limit: int) -> int {
    if a.enabled {
        governor::max(
            governor::min(clamp(a.initial as int, a.min as int, a.max as int), max_limit),
            1,
        )
    } else {
        clamp(base, 1, max_limit)
    }
}

/// Computes the probes at a time that a batch starts with.
pub fn initial_limit(a: &AdaptiveConfig, base: usize, max_concurrency: usize) -> (r: usize)
    requires
        a.enabled ==> a.min <= a.max,
    ensures
        r == first_limit(*a, base as int, ceiling(max_concurrency)),
{
    let max_limit: usize = governor::greatest(max_concurrency, 1);
    if a.enabled {
        let wanted: usize = governor::least(clamped(a.initial, a.min, a.max), max_limit);
        governor::greatest(wanted, 1)
    } else {
        clamped(base, 1, max_limit)
    }
}

/// How much a limit grows at a time.
pub const LIMIT_STEP: usize = 1;

/// One step more.
pub open spec fn grown(cur: int) -> int {
    governor::min(cur + LIMIT_STEP, usize::MAX as int)
}

/// The most that an adaptive limit grows to: the configured maximum, as far as the ceiling
/// allows it.
pub open spec fn upper_bound(a: AdaptiveConfig, max_limit: int) -> int {
    governor::min(a.max as int, max_limit)
}

/// The least that an adaptive limit falls to: the configured minimum, at least one, as far as
/// the upper bound allows it.
pub open spec fn lower_bound(a: AdaptiveConfig, max_limit: int) -> int {
    governor::min(governor::max(a.min as int, 1), upper_bound(a, max_limit))
}

/// What the success of the latest probes calls for: at 85 % and more the limit grows by a
/// step, at 35 % and less it falls by half.
pub open spec fn adapted(cur: int, successes: int, n: int) -> int {
    if n > 0 && successes * 100 >= n * 85 {
        grown(cur)
    } else if n > 0 && successes * 100 <= n * 35 {
        cur / 2
    } else {
        cur
    }
}

/// The limit to propose after a probe: the success of the latest probes counts once
/// three of them, or a full window, are known.
pub open spec fn proposal(a: AdaptiveConfig, max_limit: int, recent: Seq<bool>, cur: int) -> int {
    if a.enabled {
        if recent.len() >= governor::min(a.window as int, 3) {
            governor::max(
                clamp(
                    adapted(cur, governor::count_true(recent), recent.len() as int),
                    lower_bound(a, max_limit),
                    upper_bound(a, max_limit),
                ),
                1,
            )
        } else {
            cur
        }
    } else {
        clamp(cur, 1, max_limit)
    }
}

/// How the number of permits to probe changes.
#[derive(Clone, Copy, Debug, PartialEq, Eq, Structural)]
pub enum PermitChange {
    Keep,
    /// So many permits are added.
    Add(usize),
    /// So many permits are taken back, as far as they are free.
    Remove(usize),
}

/// The change from one limit to another.
pub open spec fn change(from: int, to: int) -> PermitChange {
    if to > from {
        PermitChange::Add((to - from) as usize)
    } else if to < from {
        PermitChange::Remove((from - to) as usize)
    } else {
        PermitChange::Keep
    }
}

/// Whether an outcome is a resource error.
pub open spec fn is_resource_outcome(outcome: Result<DetectionResult, DetectorError>) -> bool {
    match outcome {
        Ok(_) => false,
        Err(e) => governor::is_resource_error(e),
    }
}

/// The outcomes that a governor remembers after one more.
pub open spec fn told_of<C: FdCounter>(g: ResourceGovernor<C>, resource_error: bool) -> Seq<bool> {
    if g.config.enabled {
        governor::last_of(
            g.error_window@.push(resource_error),
            governor::window_size(g.config),
        )
    } else {
        g.error_window@
    }
}

/// The course of a batch: how many probes run at a time, and how they fare.
#[derive(Clone, Debug)]
pub struct BatchControl {
    pub adaptive: AdaptiveConfig,
    pub max_limit: usize,
    pub limit: usize,
    /// Whether the latest probes succeeded.
    pub recent: VecDeque<bool>,
    pub completed: usize,
    pub snapshot: Option<GovernorSnapshot>,
}

impl BatchControl {
    /// The size of the window of latest probes.
    pub open spec fn window_size(self) -> int {
        governor::max(self.adaptive.window as int, 1)
    }

    pub open spec fn wf(self) -> bool {
        &&& self.max_limit >= 1
        &&& self.recent@.len() <= self.window_size()
    }

    /// Starts a batch with the given number of probes at a time.
    pub fn new(adaptive: AdaptiveConfig, max_concurrency: usize, limit: usize) -> (r: Self)
        ensures
            r.wf(),
            r.adaptive == adaptive,
            r.max_limit == ceiling(max_concurrency),
            r.limit == limit,
            r.recent@ == Seq::<bool>::empty(),
            r.completed == 0,
            r.snapshot is None,
    {
        BatchControl {
            adaptive,
            max_limit: governor::greatest(max_concurrency, 1),
            limit,
            recent: VecDeque::new(),
            completed: 0,
            snapshot: None,
        }
    }

    /// Counts a target that was given up before it was probed; tells how many were
    /// completed before it.
    pub fn skip(&mut self) -> (r: usize)
        requires
            old(self).wf(),
            old(self).completed < usize::MAX,
        ensures
            final(self).wf(),
            r == old(self).completed,
            *final(self) == (BatchControl {
                completed: (old(self).completed + 1) as usize,
                ..*old(self)
            }),
    {
        let order: usize = self.completed;
        self.completed = order + 1;
        order
    }

    /// Counts a probe; tells how many targets were completed before it.
    pub fn observe(&mut self, success: bool) -> (r: usize)
        requires
            old(self).wf(),
            old(self).completed < usize::MAX,
        ensures
            final(self).wf(),
            r == old(self).completed,
            final(self).completed == old(self).completed + 1,
            final(self).recent@ == governor::last_of(
                old(self).recent@.push(success),
                old(self).window_size(),
            ),
            final(self).adaptive == old(self).adaptive,
            final(self).max_limit == old(self).max_limit,
            final(self).limit == old(self).limit,
            final(self).snapshot == old(self).snapshot,
    {
        let size: usize = governor::greatest(self.adaptive.window, 1);
        governor::push_window(&mut self.recent, success, size);
        let order: usize = self.completed;
        self.completed = order + 1;
        order
    }

    /// The limit to propose.
    pub fn propose(&self) -> (r: usize)
        requires
            self.wf(),
        ensures
            r == proposal(self.adaptive, self.max_limit as int, self.recent@, self.limit as int),
    {
        let a = self.adaptive;
        if !a.enabled {
            return clamped(self.limit, 1, self.max_limit);
        }
        let n: usize = self.recent.len();
        if n < governor::least(a.window, 3) {
            return self.limit;
        }
        let successes: usize = governor::count_in(&self.recent);
        let cur: usize = self.limit;
        let mut wanted: usize = cur;
        if n > 0 {
            if successes as u128 * 100 >= n as u128 * 85 {
                wanted = cur.saturating_add(LIMIT_STEP);
            } else if successes as u128 * 100 <= n as u128 * 35 {
                wanted = cur / 2;
            }
        }
        let hi: usize = governor::least(a.max, self.max_limit);
        let lo: usize = governor::least(governor::greatest(a.min, 1), hi);
        governor::greatest(clamped(wanted, lo, hi), 1)
    }

    /// The limit where no governor caps the proposal.
    pub fn cap_alone(&self, proposed: usize) -> (r: usize)
        ensures
            r == governor::max(governor::min(proposed as int, self.max_limit as int), 1),
    {
        governor::greatest(governor::least(proposed, self.max_limit), 1)
    }

    /// Takes the capped limit; tells how the number of permits changes.
    pub fn apply(&mut self, capped: usize) -> (r: PermitChange)
        requires
            old(self).wf(),
        ensures
            final(self).wf(),
            *final(self) == (BatchControl {
                limit: governor::max(capped as int, 1) as usize,
                ..*old(self)
            }),
            r == change(old(self).limit as int, final(self).limit as int),
    {
        let next: usize = governor::greatest(capped, 1);
        let cur: usize = self.limit;
        self.limit = next;
        if next > cur {
            PermitChange::Add(next - cur)
        } else if next < cur {
            PermitChange::Remove(cur - next)
        } else {
            PermitChange::Keep
        }
    }

    /// Takes the outcome of a probe: the governor, if there is one, is told whether it was a
    /// resource error, and where concurrency adapts or is governed the limit is set anew.
    /// Tells how many targets were completed before, and how the number of permits changes.
    pub fn on_probe<C: FdCounter>(
        &mut self,
        governor: &mut Option<ResourceGovernor<C>>,
        outcome: &Result<DetectionResult, DetectorError>,
        now: Duration,
    ) -> (r: (usize, PermitChange))
        requires
            old(self).wf(),
            old(self).completed < usize::MAX,
            *old(governor) matches Some(g) ==> g.wf(),
        ensures
            final(self).wf(),
            final(self).adaptive == old(self).adaptive,
            final(self).max_limit == old(self).max_limit,
            r.0 == old(self).completed,
            final(self).completed == old(self).completed + 1,
            final(self).recent@ == governor::last_of(
                old(self).recent@.push(outcome is Ok),
                old(self).window_size(),
            ),
            r.1 == change(old(self).limit as int, final(self).limit as int),
            1 <= old(self).limit <= old(self).max_limit ==> 1 <= final(self).limit
                <= old(self).max_limit,
            match *old(governor) {
                Some(g) => {
                    let told = told_of(g, is_resource_outcome(*outcome));
                    &&& *final(governor) matches Some(h) && h.wf() && h.config == g.config
                        && h.fd_counter == g.fd_counter && h.error_window@ == told
                    &&& if g.config.enabled {
                        exists|a: governor::Answers|
                            #[trigger] governor::may_answer(
                                g.fd_counter,
                                g.config,
                                g.last_sample,
                                now,
                                a,
                            ) && final(self).snapshot == Some(
                                governor::decision(
                                    g.config,
                                    final(self).wanted(old(self).limit) as usize,
                                    governor::readings_of(
                                        g.config,
                                        g.last_sample,
                                        told,
                                        now,
                                        a,
                                    ),
                                ),
                            ) && (*final(governor))->0.last_sample == governor::sample_after(
                                g.config,
                                g.last_sample,
                                now,
                                a.counted,
                            )
                    } else {
                        final(self).snapshot == Some(
                            governor::idle_snapshot(
                                g.config,
                                final(self).wanted(old(self).limit) as usize,
                            ),
                        ) && (*final(governor))->0.last_sample == g.last_sample
                    }
                    &&& final(self).limit == final(self).snapshot->0.capped_concurrency
                },
                None => {
                    &&& *final(governor) is None
                    &&& if old(self).adaptive.enabled {
                        final(self).limit == governor::max(
                            governor::min(
                                final(self).wanted(old(self).limit),
                                old(self).max_limit as int,
                            ),
                            1,
                        )
                    } else {
                        final(self).limit == old(self).limit
                    }
                    &&& final(self).snapshot == old(self).snapshot
                },
            },
    {
        let resource_error = match outcome {
            Ok(_) => false,
            Err(e) => governor::classify_resource_error(e),
        };
        let order: usize = self.observe(outcome.is_ok());
        let proposed: usize = self.propose();
        match governor {
            Some(g) => {
                let ghost before = *g;
                g.record_outcome(resource_error);
                let (capped, snapshot) = g.cap_concurrency(proposed, now);
                self.snapshot = Some(snapshot);
                let permits = self.apply(capped);
                proof {
                    assert(g.error_window@ == told_of(before, is_resource_outcome(*outcome)));
                }
                (order, permits)
            },
            None => {
                if !self.adaptive.enabled {
                    return (order, PermitChange::Keep);
                }
                let capped: usize = self.cap_alone(proposed);
                (order, self.apply(capped))
            },
        }
    }

    /// The limit that the latest probes call for, from the given one.
    pub open spec fn wanted(self, from: usize) -> int {
        proposal(self.adaptive, self.max_limit as int, self.recent@, from as int)
    }
}

/// Whatever the configuration, a batch starts with at least one probe and no more than the
/// ceiling, and every later proposal keeps to that; once the success of the probes counts, it
/// keeps to the bounds of the configuration too, as far as the ceiling leaves room for them.
pub proof fn law_limit_bounds(
    a: AdaptiveConfig,
    base: usize,
    max_concurrency: usize,
    recent: Seq<bool>,
    cur: usize,
)
    requires
        1 <= cur <= ceiling(max_concurrency),
    ensures
        1 <= first_limit(a, base as int, ceiling(max_concurrency)) <= ceiling(max_concurrency),
        1 <= proposal(a, ceiling(max_concurrency), recent, cur as int) <= ceiling(max_concurrency),
        a.enabled && recent.len() >= 3 && a.max >= 1 ==> proposal(
            a,
            ceiling(max_concurrency),
            recent,
            cur as int,
        ) <= a.max,
        a.enabled && recent.len() >= 3 && a.min <= a.max && a.min <= ceiling(max_concurrency)
            ==> a.min <= proposal(a, ceiling(max_concurrency), recent, cur as int),
{
}

/// The proposal follows the success of the latest probes, once three of them or a full window
/// are known: at 85 % and more the limit grows by one, at 35 % and less it falls to half, and
/// in between it stays, always within the bounds. So it never falls where 85 % succeed. Before
/// that, and where concurrency does not adapt, it stays as it is.
pub proof fn law_proposal_follows_success(
    a: AdaptiveConfig,
    max_limit: int,
    recent: Seq<bool>,
    cur: usize,
)
    requires
        1 <= max_limit <= usize::MAX,
        a.max >= 1,
    ensures
        ({
            let n = recent.len() as int;
            let good = governor::count_true(recent);
            let hi = if a.max < max_limit {
                a.max as int
            } else {
                max_limit
            };
            let floor = if a.min < 1 {
                1
            } else {
                a.min as int
            };
            let lo = if floor < hi {
                floor
            } else {
                hi
            };
            let next = proposal(a, max_limit, recent, cur as int);
            &&& a.enabled && n > 0 && (n >= 3 || n >= a.window) && lo <= cur <= hi ==> {
                &&& good * 100 >= 85 * n ==> next == (if cur + 1 < hi {
                    cur + 1
                } else {
                    hi
                }) && next >= cur
                &&& good * 100 <= 35 * n ==> next == (if cur as int / 2 > lo {
                    cur as int / 2
                } else {
                    lo
                })
                &&& 35 * n < good * 100 < 85 * n ==> next == cur
            }
            &&& a.enabled && n < 3 && n < a.window ==> next == cur
            &&& !a.enabled && 1 <= cur <= max_limit ==> next == cur
        }),
{
}

/// A success in place of a failure among the latest probes never lowers the proposal.
pub proof fn law_success_never_lowers(
    a: AdaptiveConfig,
    max_limit: int,
    recent: Seq<bool>,
    i: int,
    cur: usize,
)
    requires
        0 <= i < recent.len(),
        !recent[i],
    ensures
        proposal(a, max_limit, recent.update(i, true), cur as int) >= proposal(
            a,
            max_limit,
            recent,
            cur as int,
        ),
{
    governor::law_count_of_update(recent, i);
}

/// A batch starts with the configured number of probes where that lies between the bounds and
/// does not exceed the ceiling, and otherwise with the nearest number that does; without
/// adaptation it starts with the given number, between one and the ceiling.
pub proof fn law_first_limit(a: AdaptiveConfig, base: usize, max_concurrency: usize)
    ensures
        ({
            let top = if max_concurrency == 0 {
                1
            } else {
                max_concurrency as int
            };
            let first = first_limit(a, base as int, ceiling(max_concurrency));
            &&& 1 <= first <= top
            &&& !a.enabled ==> {
                &&& 1 <= base <= top ==> first == base
                &&& base == 0 ==> first == 1
                &&& base > top ==> first == top
            }
            &&& a.enabled && a.min <= a.max ==> {
                &&& a.min <= a.initial <= a.max && 1 <= a.initial <= top ==> first == a.initial
                &&& a.initial < a.min && 1 <= a.min <= top ==> first == a.min
                &&& a.initial > a.max && 1 <= a.max <= top ==> first == a.max
                &&& a.min <= a.initial <= a.max && a.initial > top ==> first == top
                &&& a.initial < a.min && a.min > top ==> first == top
                &&& a.initial > a.max && a.max > top ==> first == top
            }
        }),
{
}

/// A change of permits takes the limit from one number to the other.
pub proof fn law_change_leads_there(from: usize, to: usize)
    ensures
        match change(from as int, to as int) {
            PermitChange::Keep => to == from,
            PermitChange::Add(n) => n > 0 && from + n == to,
            PermitChange::Remove(n) => n > 0 && from - n == to,
        },
{
}

// ---------------------------------------------------------------------------
// Batches: results

/// What is told of a batch after a target.
#[derive(Clone, Copy, Debug)]
pub struct BatchProgress {
    pub completed: usize,
    pub total: usize,
    pub current_concurrency: usize,
    pub last_success: bool,
    pub last_target: Option<Target>,
    pub throttled_due_to_fd: bool,
    pub governor_feedback: GovernorFeedback,
}

/// What the governor last saw, if there is one.
#[derive(Clone, Copy, Debug)]
pub struct GovernorFeedback {
    pub snapshot: Option<GovernorSnapshot>,
}

impl Default for GovernorFeedback {
    fn default() -> (r: Self)
        ensures
            r.snapshot is None,
    {
        GovernorFeedback { snapshot: None }
    }
}

impl Default for BatchProgress {
    fn default() -> (r: Self)
        ensures
            r.completed == 0,
            r.total == 0,
            r.current_concurrency == 0,
            !r.last_success,
            r.last_target is None,
            !r.throttled_due_to_fd,
            r.governor_feedback.snapshot is None,
    {
        BatchProgress {
            completed: 0,
            total: 0,
            current_concurrency: 0,
            last_success: false,
            last_target: None,
            throttled_due_to_fd: false,
            governor_feedback: GovernorFeedback { snapshot: None },
        }
    }
}

/// Whether an error tells of a target that was given up for a shutdown.
pub open spec fn is_given_up(e: DetectorError) -> bool {
    e is Http && e->Http_0@ == "cancelled"@
}

/// The message of a failed target. That of one that was given up for a shutdown is a word.
pub open spec fn failure_text(e: DetectorError) -> Seq<char> {
    if is_given_up(e) {
        "cancelled"@
    } else {
        e.show()
    }
}

/// Whether this is the result of a target with the given outcome.
pub open spec fn is_result(
    r: BatchResult,
    t: BatchTarget,
    outcome: Result<DetectionResult, DetectorError>,
) -> bool {
    &&& r.target == t.target
    &&& r.id == t.id
    &&& match outcome {
        Ok(d) => r.result == Some(d) && r.error is None,
        Err(e) => r.result is None && text::opt_text(r.error) == Some(failure_text(e)),
    }
}

/// Whether this is the result of a target that no outcome came for: it was given up.
pub open spec fn is_gap(r: BatchResult, t: BatchTarget) -> bool {
    &&& r.target == t.target
    &&& r.id == t.id
    &&& r.result is None
    &&& text::opt_text(r.error) == Some("cancelled"@)
}

/// The results of a batch as they come in.
pub struct BatchCollector {
    results: Vec<BatchResult>,
    targets: Vec<BatchTarget>,
    /// The completions that were told of last.
    told: usize,
}

impl BatchCollector {
    /// The targets of the batch.
    pub closed spec fn goals(self) -> Seq<BatchTarget> {
        self.targets@
    }

    /// The results so far, by target.
    pub closed spec fn found(self) -> Seq<BatchResult> {
        self.results@
    }

    /// The most completions that were told of.
    pub closed spec fn finished(self) -> int {
        self.told as int
    }

    /// There is one result for each target, in the order of the targets, and no more
    /// completions are told of than there are targets.
    pub open spec fn wf(self) -> bool {
        &&& in_order(self.found(), self.goals())
        &&& self.finished() <= self.goals().len()
    }

    /// Starts with a gap for every target.
    pub fn new(targets: &Vec<BatchTarget>) -> (r: Self)
        ensures
            r.wf(),
            r.goals() == targets@,
            r.finished() == 0,
            forall|i: int| 0 <= i < targets@.len() ==> is_gap(#[trigger] r.found()[i], targets@[i]),
    {
        let mut results: Vec<BatchResult> = Vec::new();
        let mut own: Vec<BatchTarget> = Vec::new();
        let mut i: usize = 0;
        while i < targets.len()
            invariant
                i <= targets@.len(),
                own@ == targets@.take(i as int),
                results@.len() == i,
                forall|j: int| 0 <= j < i ==> is_gap(#[trigger] results@[j], targets@[j]),
            decreases targets@.len() - i,
        {
            let t = targets[i];
            let e = Some(text::owned("cancelled"));
            results.push(BatchResult { target: t.target, result: None, error: e, id: t.id });
            own.push(t);
            i += 1;
        }
        proof {
            assert(own@ =~= targets@);
        }
        BatchCollector { results, targets: own, told: 0 }
    }

    /// Takes the outcome of a target, which `order` targets were completed before, and tells
    /// of it. The number of completions that is told never falls, in whatever order outcomes
    /// come.
    pub fn on_outcome(
        &mut self,
        index: usize,
        order: usize,
        outcome: Result<DetectionResult, DetectorError>,
        limit: usize,
        snapshot: Option<GovernorSnapshot>,
    ) -> (p: BatchProgress)
        requires
            old(self).wf(),
            index < old(self).goals().len(),
            order < usize::MAX,
        ensures
            final(self).wf(),
            final(self).goals() == old(self).goals(),
            is_result(final(self).found()[index as int], old(self).goals()[index as int], outcome),
            forall|i: int|
                0 <= i < old(self).goals().len() && i != index ==> #[trigger] final(self).found()[i]
                    == old(self).found()[i],
            p.completed == governor::max(
                governor::min(order + 1, old(self).goals().len() as int),
                old(self).finished(),
            ),
            final(self).finished() == p.completed,
            p.total == old(self).goals().len(),
            p.current_concurrency == limit,
            p.last_success == (outcome is Ok),
            p.last_target == Some(old(self).goals()[index as int].target),
            p.throttled_due_to_fd == (match snapshot {
                Some(s) => s.throttled_due_to_fd,
                None => false,
            }),
            p.governor_feedback.snapshot == snapshot,
    {
        let ghost found = self.found();
        let t = self.targets[index];
        let ok = outcome.is_ok();
        let result = match outcome {
            Ok(d) => BatchResult { target: t.target, result: Some(d), error: None, id: t.id },
            Err(e) => {
                let m = match &e {
                    DetectorError::Http(m) => {
                        if text::same_str(m.as_str(), "cancelled") {
                            text::owned("cancelled")
                        } else {
                            e.to_string()
                        }
                    },
                    _ => e.to_string(),
                };
                BatchResult { target: t.target, result: None, error: Some(m), id: t.id }
            },
        };
        assert(is_result(result, t, outcome));
        self.results[index] = result;
        proof {
            assert(self.found() == found.update(index as int, result));
            assert forall|i: int| 0 <= i < self.goals().len() implies is_slot(
                #[trigger] self.found()[i],
                self.goals()[i],
            ) by {
                if i != index {
                    assert(self.found()[i] == found[i]);
                }
            }
        }
        let total: usize = self.targets.len();
        let completed: usize = governor::greatest(governor::least(order + 1, total), self.told);
        self.told = completed;
        BatchProgress {
            completed,
            total,
            current_concurrency: limit,
            last_success: ok,
            last_target: Some(t.target),
            throttled_due_to_fd: match &snapshot {
                Some(s) => s.throttled_due_to_fd,
                None => false,
            },
            governor_feedback: GovernorFeedback { snapshot },
        }
    }

    /// The results, one for each target, in the order of the targets.
    pub fn finish(self) -> (r: Vec<BatchResult>)
        requires
            self.wf(),
        ensures
            r@ == self.found(),
            in_order(r@, self.goals()),
    {
        self.results
    }
}

/// Whether this is a result of the target: it holds either what was found or an error.
pub open spec fn is_slot(r: BatchResult, t: BatchTarget) -> bool {
    &&& r.target == t.target
    &&& r.id == t.id
    &&& r.result is Some <==> r.error is None
}

/// There is one result for each target, in the order of the targets.
pub open spec fn in_order(results: Seq<BatchResult>, targets: Seq<BatchTarget>) -> bool {
    &&& results.len() == targets.len()
    &&& forall|i: int| 0 <= i < targets.len() ==> is_slot(#[trigger] results[i], targets[i])
}

/// The name that the probes of a batch ask for: an empty one counts as none.
pub fn batch_domain(domain: Option<&str>) -> (r: Option<String>)
    ensures
        text::opt_text(r) == (match domain {
            Some(d) => if d@.len() == 0 {
                None
            } else {
                Some(d@)
            },
            None => None,
        }),
{
    match domain {
        Some(d) => {
            proof {
                assert((d@.len() == 0) == (d@ =~= Seq::<char>::empty()));
            }
            if d.is_empty() {
                None
            } else {
                Some(text::owned(d))
            }
        },
        None => None,
    }
}

/// The targets of a batch, numbered in order.
pub fn number_targets(targets: &Vec<Target>) -> (r: Vec<BatchTarget>)
    ensures
        r@.len() == targets@.len(),
        forall|i: int|
            0 <= i < targets@.len() ==> (#[trigger] r@[i]).target == targets@[i] && r@[i].id == i,
{
    let mut r: Vec<BatchTarget> = Vec::new();
    let mut i: usize = 0;
    while i < targets.len()
        invariant
            i <= targets@.len(),
            r@.len() == i,
            forall|j: int| 0 <= j < i ==> (#[trigger] r@[j]).target == targets@[j] && r@[j].id == j,
        decreases targets@.len() - i,
    {
        r.push(BatchTarget { target: targets[i], id: i });
        i += 1;
    }
    r
}

/// A trace tells the code of the first line that begins with its key, in upper case and without
/// the white space around it; further lines of the key do not count. Without such a line, and
/// where the first one is empty, it tells none.
pub proof fn law_colo_is_read(
    a: Seq<Seq<char>>,
    line: Seq<char>,
    b: Seq<Seq<char>>,
    before: Seq<char>,
    code: Seq<char>,
    behind: Seq<char>,
)
    requires
        forall|i: int|
            0 <= i < a.len() ==> !text::starts_with(text::trimmed(#[trigger] a[i]), "colo="@),
        text::trimmed(line) == "colo="@ + before + code + behind,
        forall|i: int| 0 <= i < before.len() ==> text::is_space(#[trigger] before[i]),
        forall|i: int| 0 <= i < behind.len() ==> text::is_space(#[trigger] behind[i]),
        code.len() > 0 ==> !text::is_space(code[0]) && !text::is_space(code.last()),
    ensures
        colo_from(a + seq![line] + b, 0) == (if code.len() == 0 {
            None
        } else {
            Some(text::upper(code))
        }),
        colo_from(a, 0) is None,
{
    let lines = a + seq![line] + b;
    reveal_strlit("colo=");
    let t = text::trimmed(line);
    assert(t.skip(5) =~= before + code + behind);
    assert(t.subrange(0, 5) =~= "colo="@);
    text::law_trimmed_space(before, code, behind);
    assert(lines[a.len() as int] == line);
    lemma_colo_skips(lines, 0, a.len() as int);
    lemma_colo_skips(a, 0, a.len() as int);
}

proof fn lemma_colo_skips(lines: Seq<Seq<char>>, i: int, n: int)
    requires
        0 <= i <= n <= lines.len(),
        forall|j: int|
            i <= j < n ==> !text::starts_with(text::trimmed(#[trigger] lines[j]), "colo="@),
    ensures
        colo_from(lines, i) == colo_from(lines, n),
    decreases n - i,
{
    if i < n {
        assert(!text::starts_with(text::trimmed(lines[i]), "colo="@));
        lemma_colo_skips(lines, i + 1, n);
    }
}

/// What is told of an edge: its code, how long it took, and the city, the country and the region
/// of its place, where that is known; no speed yet.
pub proof fn law_edge_info(
    e: EdgeInfo,
    colo: Seq<char>,
    latency: Duration,
    place: Option<CfLocation>,
)
    requires
        is_edge_info(e, colo, latency, place),
    ensures
        e.colo_code is Some && e.colo_code->0@ == colo,
        e.latency == Some(latency),
        e.download_speed_bytes_per_sec is None,
        place matches Some(l) ==> e.city == Some(l.city) && e.country == Some(l.cca2) && e.region
            == Some(l.region),
        place is None ==> e.city is None && e.country is None && e.region is None,
{
}

/// The result of a target holds what was found, or else an error: a single word where the target
/// was given up for a shutdown, and the text of the error otherwise.
pub proof fn law_result_of_a_target(
    r: BatchResult,
    t: BatchTarget,
    outcome: Result<DetectionResult, DetectorError>,
)
    requires
        is_result(r, t, outcome),
    ensures
        r.target == t.target,
        r.id == t.id,
        outcome matches Ok(d) ==> r.result == Some(d) && r.error is None,
        outcome matches Err(e) ==> r.result is None && r.error is Some && r.error->0@ == (if e is Http
            && e->Http_0@ == "cancelled"@ {
            "cancelled"@
        } else {
            e.show()
        }),
{
}

/// What the governor is told of an outcome stands last in its window, which keeps its size; a
/// governor that is turned off is told nothing.
pub proof fn law_told_governor<C: FdCounter>(g: ResourceGovernor<C>, resource_error: bool)
    ensures
        g.config.enabled ==> told_of(g, resource_error).len() > 0 && told_of(
            g,
            resource_error,
        ).last() == resource_error,
        g.config.enabled ==> told_of(g, resource_error).len() <= g.error_window@.len() + 1,
        !g.config.enabled ==> told_of(g, resource_error) == g.error_window@,
{
}

/// A target that was not probed tells that it was cancelled, and nothing else.
pub proof fn law_gap(r: BatchResult, t: BatchTarget)
    requires
        is_gap(r, t),
    ensures
        r.target == t.target,
        r.id == t.id,
        r.result is None,
        r.error matches Some(e) && e@ == "cancelled"@,
{
}

/// The window of latest probes holds as many as is set, but at least one.
pub proof fn law_window_of_probes(b: BatchControl)
    ensures
        b.adaptive.window > 0 ==> b.window_size() == b.adaptive.window,
        b.adaptive.window == 0 ==> b.window_size() == 1,
{
}

/// What a trace tells of an edge is the code in its text and how long it took, and the place is one
/// that the source of places answers for just that code.
pub proof fn law_traced<L: LocationSource>(
    e: EdgeInfo,
    body: Seq<u8>,
    latency: Duration,
    locations: L,
)
    requires
        is_traced(e, body, latency, locations),
    ensures
        colo_of(text::lossy_text(body)) is Some,
        text::opt_text(e.colo_code) == colo_of(text::lossy_text(body)),
        e.latency == Some(latency),
        exists|code: &str, place: Option<CfLocation>| #[trigger]
            places(locations, code, place) && code@ == colo_of(text::lossy_text(body))->0 && (
            place matches Some(l) ==> e.city == Some(l.city) && e.country == Some(l.cca2)
                && e.region == Some(l.region)) && (place is None ==> e.city is None && e.country is None
                && e.region is None),
{
    let (code, place) = choose|code: &str, place: Option<CfLocation>| #[trigger]
        places(locations, code, place) && code@ == colo_of(text::lossy_text(body))->0
            && is_edge_info(e, code@, latency, place);
    law_edge_info(e, code@, latency, place);
    assert(places(locations, code, place));
}

/// Results in order are as many as the targets, and each tells of the target in its place.
pub proof fn law_results_in_order(results: Seq<BatchResult>, targets: Seq<BatchTarget>, i: int)
    requires
        in_order(results, targets),
        0 <= i < targets.len(),
    ensures
        results.len() == targets.len(),
        results[i].target == targets[i].target,
        results[i].id == targets[i].id,
        results[i].result is Some <==> results[i].error is None,
{
    assert(is_slot(results[i], targets[i]));
}

/// Where every probe of the window succeeded the proposal grows by one step, and where none
/// did it falls to half, within the bounds.
pub proof fn law_proposal_at_the_ends(
    a: AdaptiveConfig,
    max_limit: int,
    recent: Seq<bool>,
    cur: usize,
)
    requires
        a.enabled,
        max_limit >= 1,
        a.max >= 1,
        recent.len() >= 3,
        lower_bound(a, max_limit) <= cur <= upper_bound(a, max_limit),
    ensures
        governor::count_true(recent) == recent.len() ==> proposal(a, max_limit, recent, cur as int)
            == governor::min(cur + LIMIT_STEP, upper_bound(a, max_limit)),
        governor::count_true(recent) == 0 ==> proposal(a, max_limit, recent, cur as int)
            == governor::max(cur as int / 2, lower_bound(a, max_limit)),
{
}

} // verus!
