//! Targets, and what a detection says of them.

use vstd::prelude::*;
use vstd::slice::slice_subrange;

use crate::net;
use crate::net::IpAddr;
use crate::numeral;
use crate::text;
use crate::time::Duration;

verus! {

/// An endpoint to probe.
#[derive(Clone, Copy, Debug, PartialEq, Eq, Hash, Structural)]
pub struct Target {
    pub ip: IpAddr,
    pub port: u16,
}

impl Target {
    pub fn new(ip: IpAddr, port: u16) -> (r: Self)
        ensures
            r == (Target { ip, port }),
    {
        Target { ip, port }
    }

    /// The text of the target; an IPv6 address stands in square brackets.
    pub open spec fn show(self) -> Seq<char> {
        net::show_socket(self.ip, self.port)
    }

    pub fn to_string(&self) -> (r: String)
        ensures
            r@ == self.show(),
    {
        let ip = self.ip.to_string();
        let port = numeral::to_decimal(self.port as u128);
        let mut r = String::new();
        match self.ip {
            IpAddr::V4(_) => {
                r.append(ip.as_str());
                r.append(":");
            },
            IpAddr::V6(_) => {
                r.append("[");
                r.append(ip.as_str());
                r.append("]:");
            },
        }
        r.append(port.as_str());
        proof {
            reveal_strlit(":");
            reveal_strlit("[");
            reveal_strlit("]:");
            assert(r@ =~= self.show());
        }
        r
    }
}

/// A target in square brackets, with or without a port.
pub open spec fn bracketed_text(s: Seq<char>, default_port: u16) -> Option<Target> {
    let close = text::position(s, ']');
    if s.len() > 0 && s[0] == '[' && close < s.len() {
        let ip = net::ip_text(s.subrange(1, close));
        let rest = s.skip(close + 1);
        if ip is None {
            None
        } else if rest.len() == 0 {
            Some(Target { ip: ip->0, port: default_port })
        } else if rest[0] == ':' {
            match numeral::unsigned_value(rest.skip(1), 10, 0xffff) {
                Some(p) => Some(Target { ip: ip->0, port: p as u16 }),
                None => None,
            }
        } else {
            None
        }
    } else {
        None
    }
}

/// A target whose port stands behind the last colon.
pub open spec fn suffixed_text(s: Seq<char>) -> Option<Target> {
    let colon = text::last_position(s, ':');
    if colon >= 0 {
        match (
            net::ip_text(s.take(colon)),
            numeral::unsigned_value(s.skip(colon + 1), 10, 0xffff),
        ) {
            (Some(ip), Some(p)) => Some(Target { ip, port: p as u16 }),
            _ => None,
        }
    } else {
        None
    }
}

/// The target that a text stands for: an address with a port, or an address alone,
/// which takes the default port.
pub open spec fn target_text(s: Seq<char>, default_port: u16) -> Option<Target> {
    match net::socket_text(s) {
        Some((ip, port)) => Some(Target { ip, port }),
        None => match net::ip_text(s) {
            Some(ip) => Some(Target { ip, port: default_port }),
            None => match bracketed_text(s, default_port) {
                Some(t) => Some(t),
                None => suffixed_text(s),
            },
        },
    }
}

fn parse_bracketed(s: &[char], default_port: u16) -> (r: Option<Target>)
    ensures
        r == bracketed_text(s@, default_port),
{
    proof {
        text::lemma_find_from(s@, ']', 0);
    }
    let close: usize = text::find_char(s, ']');
    if s.len() == 0 || s[0] != '[' || close >= s.len() {
        return None;
    }
    let ip = match net::parse_ip_chars(slice_subrange(s, 1, close)) {
        Some(ip) => ip,
        None => {
            return None;
        },
    };
    if close + 1 == s.len() {
        return Some(Target { ip, port: default_port });
    }
    if s[close + 1] != ':' {
        return None;
    }
    assert(s@.subrange(close + 2, s@.len() as int) =~= s@.skip(close + 1).skip(1));
    match numeral::read_unsigned(slice_subrange(s, close + 2, s.len()), 10, 0xffff) {
        Some(p) => Some(Target { ip, port: p as u16 }),
        None => None,
    }
}

fn parse_suffixed(s: &[char]) -> (r: Option<Target>)
    ensures
        r == suffixed_text(s@),
{
    match text::rfind_char(s, ':') {
        Some(colon) => {
            assert(s@.len() == s.len());
            assert(s@.subrange(0, colon as int) =~= s@.take(colon as int));
            assert(s@.subrange(colon + 1, s@.len() as int) =~= s@.skip(colon + 1));
            let ip = net::parse_ip_chars(slice_subrange(s, 0, colon));
            let port = numeral::read_unsigned(slice_subrange(s, colon + 1, s.len()), 10, 0xffff);
            match (ip, port) {
                (Some(ip), Some(p)) => Some(Target { ip, port: p as u16 }),
                _ => None,
            }
        },
        None => None,
    }
}

/// Reads a target; the error names the text that is none.
pub fn parse_target(s: &str, default_port: u16) -> (r: Result<Target, String>)
    ensures
        match r {
            Ok(t) => target_text(s@, default_port) == Some(t),
            Err(e) => target_text(s@, default_port) is None && e@ == "invalid target: "@ + s@,
        },
{
    let cs = text::to_chars(s);
    if let Some((ip, port)) = net::parse_socket(&cs) {
        return Ok(Target::new(ip, port));
    }
    if let Some(ip) = net::parse_ip_chars(&cs) {
        return Ok(Target::new(ip, default_port));
    }
    if let Some(t) = parse_bracketed(&cs, default_port) {
        return Ok(t);
    }
    if let Some(t) = parse_suffixed(&cs) {
        return Ok(t);
    }
    let mut e = text::owned("invalid target: ");
    e.append(s);
    Err(e)
}

/// Reading the text of a target gives the target back, whatever the default port.
pub proof fn law_read_written_target(t: Target, default_port: u16)
    ensures
        target_text(t.show(), default_port) == Some(t),
{
    net::law_read_written_socket(t.ip, t.port);
}

/// The text of an address alone stands for that address at the default port.
pub proof fn law_address_takes_default_port(ip: IpAddr, default_port: u16)
    ensures
        target_text(net::show_ip(ip), default_port) == Some(Target { ip, port: default_port }),
{
    net::law_address_is_no_socket(ip);
    net::law_read_written_address(ip);
}

/// A target of a batch, with the number by which its result is told.
#[derive(Clone, Copy, Debug)]
pub struct BatchTarget {
    pub target: Target,
    pub id: usize,
}

/// How sure a detection is.
#[derive(Clone, Copy, Debug, PartialEq, Eq, Structural)]
pub enum Confidence {
    Absent,
    Low,
    Medium,
    High,
}

impl Confidence {
    /// The name of the level, as it is written out.
    pub open spec fn name(self) -> Seq<char> {
        match self {
            Confidence::Absent => "NONE"@,
            Confidence::Low => "LOW"@,
            Confidence::Medium => "MEDIUM"@,
            Confidence::High => "HIGH"@,
        }
    }

    pub fn label(self) -> (r: &'static str)
        ensures
            r@ == self.name(),
    {
        match self {
            Confidence::Absent => "NONE",
            Confidence::Low => "LOW",
            Confidence::Medium => "MEDIUM",
            Confidence::High => "HIGH",
        }
    }
}

/// The protocol that a target speaks.
#[derive(Clone, Copy, Debug, PartialEq, Eq, Structural)]
pub enum Protocol {
    Http,
    Https,
}

impl Protocol {
    pub open spec fn scheme_text(self) -> Seq<char> {
        match self {
            Protocol::Http => "http"@,
            Protocol::Https => "https"@,
        }
    }

    /// The scheme of the protocol's URLs.
    pub fn scheme(self) -> (r: &'static str)
        ensures
            r@ == self.scheme_text(),
    {
        match self {
            Protocol::Http => "http",
            Protocol::Https => "https",
        }
    }
}

/// Where an edge stands, and how fast it answers.
#[derive(Clone, Debug)]
pub struct EdgeInfo {
    pub colo_code: Option<String>,
    pub city: Option<String>,
    pub country: Option<String>,
    pub region: Option<String>,
    pub latency: Option<Duration>,
    pub download_speed_bytes_per_sec: Option<u64>,
}

impl Default for EdgeInfo {
    fn default() -> (r: Self)
        ensures
            r.colo_code is None,
            r.city is None,
            r.country is None,
            r.region is None,
            r.latency is None,
            r.download_speed_bytes_per_sec is None,
    {
        EdgeInfo {
            colo_code: None,
            city: None,
            country: None,
            region: None,
            latency: None,
            download_speed_bytes_per_sec: None,
        }
    }
}

/// What a detection found.
#[derive(Clone, Debug)]
pub struct DetectionResult {
    pub is_cloudflare_edge: bool,
    pub is_usable: bool,
    pub http_status_code: Option<u16>,
    pub is_tls: bool,
    pub confidence: Confidence,
    pub confidence_reason: String,
    pub reasons: Vec<String>,
    pub edge_info: Option<EdgeInfo>,
}

impl Default for DetectionResult {
    fn default() -> (r: Self)
        ensures
            !r.is_cloudflare_edge,
            !r.is_usable,
            r.http_status_code is None,
            !r.is_tls,
            r.confidence == Confidence::Absent,
            r.confidence_reason@ == Seq::<char>::empty(),
            r.reasons@ == Seq::<String>::empty(),
            r.edge_info is None,
    {
        DetectionResult {
            is_cloudflare_edge: false,
            is_usable: false,
            http_status_code: None,
            is_tls: false,
            confidence: Confidence::Absent,
            confidence_reason: String::new(),
            reasons: Vec::new(),
            edge_info: None,
        }
    }
}

/// The outcome for one target of a batch: a result or an error.
#[derive(Clone, Debug)]
pub struct BatchResult {
    pub target: Target,
    pub result: Option<DetectionResult>,
    pub error: Option<String>,
    pub id: usize,
}

/// An address in square brackets stands for that address, at the default port or at the one that
/// follows the brackets and a colon.
pub proof fn law_bracketed_address(ip: IpAddr, port: u16, default_port: u16)
    ensures
        target_text(seq!['['] + net::show_ip(ip) + seq![']'], default_port) == Some(
            Target { ip, port: default_port },
        ),
        target_text(
            seq!['['] + net::show_ip(ip) + seq![']', ':'] + numeral::decimal(port as nat),
            default_port,
        ) == Some(Target { ip, port }),
{
    let a = net::show_ip(ip);
    let s = seq!['['] + a + seq![']'];
    let d = numeral::decimal(port as nat);
    let t = seq!['['] + a + seq![']', ':'] + d;
    let n = 1 + a.len() as int;
    net::law_read_written_address(ip);
    net::lemma_address_unbracketed(ip);
    numeral::lemma_numeral(port as nat, 10);
    numeral::lemma_read_numeral(port as nat, 10, 0xffff);
    assert(s[0] == '[' && t[0] == '[');
    net::law_no_address(s, 0);
    net::law_no_address(t, 0);
    assert forall|j: int| 0 <= j < n implies s[j] != ']' && t[j] != ']' by {
        if j > 0 {
            assert(s[j] == a[j - 1] && t[j] == a[j - 1]);
        }
    }
    text::lemma_find_at(s, ']', 0, n);
    text::lemma_find_at(t, ']', 0, n);
    assert(s.subrange(1, n) =~= a && t.subrange(1, n) =~= a);
    assert(s.skip(n + 1) =~= Seq::<char>::empty());
    assert(t.skip(n + 1) =~= seq![':'] + d);
    assert((seq![':'] + d).skip(1) =~= d);
    net::lemma_bracket_is_no_plain_socket(s);
    net::lemma_bracket_is_no_plain_socket(t);
    assert(net::socket_v6_text(s) is None);
    if net::socket_text(t) is Some {
        net::lemma_scoped_only_v6(ip, t, n);
        assert(t.skip(n + 2) =~= d);
    }
}

/// The names of the levels of confidence.
pub proof fn law_level_names(c: Confidence)
    ensures
        c is High <==> c.name() == "HIGH"@,
        c is Medium <==> c.name() == "MEDIUM"@,
        c is Low <==> c.name() == "LOW"@,
        c is Absent <==> c.name() == "NONE"@,
{
    reveal_strlit("HIGH");
    reveal_strlit("MEDIUM");
    reveal_strlit("LOW");
    reveal_strlit("NONE");
    assert("HIGH"@.len() == 4 && "MEDIUM"@.len() == 6 && "LOW"@.len() == 3);
    assert("HIGH"@[0] == 'H' && "NONE"@[0] == 'N');
}

/// The scheme over TLS is the plain one with one more letter.
pub proof fn law_schemes()
    ensures
        Protocol::Http.scheme_text() == seq!['h', 't', 't', 'p'],
        Protocol::Https.scheme_text() == Protocol::Http.scheme_text().push('s'),
{
    reveal_strlit("http");
    reveal_strlit("https");
    assert("http"@ =~= seq!['h', 't', 't', 'p']);
    assert("https"@ =~= "http"@.push('s'));
}

} // verus!
