//! The two probes of an endpoint: how they are configured, which names they try, and
//! what they make of the responses.

use vstd::prelude::*;

use crate::connector::{HandshakeType, PinnedClientConfig, PinnedHttpResponse};
use crate::error;
use crate::error::RetryConfig;
use crate::headers;
use crate::text;
use crate::time::Duration;

verus! {

/// How endpoints are probed.
#[derive(Clone, Debug)]
pub struct ProbeConfig {
    pub connect_timeout: Duration,
    pub request_timeout: Duration,
    pub user_agent: String,
    /// The name to ask for where the caller gives none.
    pub default_sni: String,
    pub tls_session_cache: bool,
    pub tls_session_cache_size: usize,
    pub allow_0rtt_speedtest: bool,
    pub accept_invalid_certs: bool,
}

impl Default for ProbeConfig {
    fn default() -> (r: Self)
        ensures
            r.connect_timeout.nanos == 2_000_000_000,
            r.request_timeout.nanos == 3_000_000_000,
            r.user_agent@ == "Mozilla/5.0 (compatible; CFRP-Detector/3.0)"@,
            r.default_sni@ == "www.cloudflare.com"@,
            r.tls_session_cache,
            r.tls_session_cache_size == 256,
            !r.allow_0rtt_speedtest,
            r.accept_invalid_certs,
    {
        ProbeConfig {
            connect_timeout: Duration::from_secs(2),
            request_timeout: Duration::from_secs(3),
            user_agent: text::owned("Mozilla/5.0 (compatible; CFRP-Detector/3.0)"),
            default_sni: text::owned("www.cloudflare.com"),
            tls_session_cache: true,
            tls_session_cache_size: 256,
            allow_0rtt_speedtest: false,
            accept_invalid_certs: true,
        }
    }
}

impl ProbeConfig {
    /// The configuration of the connections that probes are made over.
    pub fn to_pinned(&self) -> (r: PinnedClientConfig)
        ensures
            r.connect_timeout == self.connect_timeout,
            r.request_timeout == self.request_timeout,
            r.accept_invalid_certs == self.accept_invalid_certs,
            r.user_agent@ == self.user_agent@,
            r.tls_session_cache == self.tls_session_cache,
            r.tls_session_cache_size == self.tls_session_cache_size,
            r.tls_session_cache_max_entries == self.tls_session_cache_size,
            r.enable_0rtt == self.allow_0rtt_speedtest,
            r.retry == error::default_retry(),
    {
        PinnedClientConfig {
            connect_timeout: self.connect_timeout,
            request_timeout: self.request_timeout,
            accept_invalid_certs: self.accept_invalid_certs,
            user_agent: self.user_agent.clone(),
            tls_session_cache: self.tls_session_cache,
            tls_session_cache_size: self.tls_session_cache_size,
            tls_session_cache_max_entries: self.tls_session_cache_size,
            enable_0rtt: self.allow_0rtt_speedtest,
            retry: RetryConfig::default(),
        }
    }
}

/// What a TLS probe found.
#[derive(Clone, Debug)]
pub struct TlsProbe {
    /// The name that was answered; empty for the default one.
    pub working_sni: String,
    pub cloudflare_trait: bool,
    pub reason: Option<String>,
    pub handshake_type: HandshakeType,
    pub connect_latency: Option<Duration>,
    pub tls_handshake_latency: Option<Duration>,
    pub ttfb_latency: Option<Duration>,
}

/// What an HTTP probe found.
#[derive(Clone, Debug)]
pub struct HttpProbe {
    pub status: Option<u16>,
    pub cloudflare_trait: bool,
    pub reasons: Vec<String>,
}

/// The names to try: the given one, if it is not empty; the default one, if it is
/// another; and the empty name, which stands for the default one.
pub open spec fn sni_candidates(domain: Option<Seq<char>>, default: Seq<char>) -> Seq<Seq<char>> {
    let given = match domain {
        Some(d) => if d.len() > 0 {
            seq![d]
        } else {
            Seq::empty()
        },
        None => Seq::empty(),
    };
    let named = if given.contains(default) {
        given
    } else {
        given.push(default)
    };
    named.push(Seq::empty())
}

/// The text of an optional string slice.
pub open spec fn opt_str(o: Option<&str>) -> Option<Seq<char>> {
    match o {
        Some(s) => Some(s@),
        None => None,
    }
}

/// Lists the names to try.
pub fn unique_snis(domain: Option<&str>, default: &str) -> (r: Vec<String>)
    ensures
        text::strings(r@) == sni_candidates(opt_str(domain), default@),
{
    let mut out: Vec<String> = Vec::new();
    proof {
        assert(text::strings(out@) =~= Seq::<Seq<char>>::empty());
    }
    if let Some(d) = domain {
        if !d.is_empty() {
            out.push(text::owned(d));
            proof {
                assert(text::strings(out@) =~= seq![d@]);
            }
        }
    }
    let ghost given = text::strings(out@);
    if !text::holds(&out, default) {
        let ghost before = out@;
        out.push(text::owned(default));
        proof {
            assert(text::strings(out@) =~= text::strings(before).push(default@));
        }
    }
    let ghost before = out@;
    out.push(String::new());
    proof {
        assert(text::strings(out@) =~= text::strings(before).push(Seq::<char>::empty()));
    }
    out
}

/// The names to try are two or three, the last of them is empty, and no name is tried
/// twice, unless the default one is empty.
pub proof fn law_candidates(domain: Option<Seq<char>>, default: Seq<char>)
    ensures
        2 <= sni_candidates(domain, default).len() <= 3,
        sni_candidates(domain, default).last() == Seq::<char>::empty(),
        sni_candidates(domain, default).contains(default),
        default.len() > 0 ==> sni_candidates(domain, default).no_duplicates(),
        domain matches Some(d) ==> d.len() > 0 ==> sni_candidates(domain, default)[0] == d,
{
    let c = sni_candidates(domain, default);
    let given = match domain {
        Some(d) => if d.len() > 0 {
            seq![d]
        } else {
            Seq::empty()
        },
        None => Seq::empty(),
    };
    if given.contains(default) {
        assert(given.len() == 1 && given[0] == default);
        assert(c[0] == default);
    } else {
        assert(c[c.len() - 2] == default);
        if given.len() == 1 {
            assert(given.contains(given[0]));
            assert(c[0] == given[0]);
        }
    }
}

/// Whether the fields name the network as the server.
pub open spec fn names_server(e: Seq<(Seq<char>, Seq<u8>)>) -> bool {
    match headers::first_value(e, "server"@) {
        Some(v) => match headers::visible_text(v) {
            Some(t) => text::contains(text::lower(t), "cloudflare"@),
            None => false,
        },
        None => false,
    }
}

/// Whether the fields hold the mark that the network puts on its responses.
pub open spec fn has_ray(e: Seq<(Seq<char>, Seq<u8>)>) -> bool {
    headers::first_value(e, "cf-ray"@) is Some
}

/// Whether the fields tell what the cache of the network made of the request.
pub open spec fn has_cache_status(e: Seq<(Seq<char>, Seq<u8>)>) -> bool {
    headers::first_value(e, "cf-cache-status"@) is Some
}

/// Whether a value sets the cookie of the given name.
pub open spec fn sets_cookie(v: Seq<u8>, name: Seq<char>) -> bool {
    &&& name.len() < v.len()
    &&& forall|i: int| 0 <= i < name.len() ==> v[i] as char == #[trigger] name[i]
    &&& v[name.len() as int] as char == '='
}

/// Whether a field sets a cookie of the network.
pub open spec fn is_cookie_field(f: (Seq<char>, Seq<u8>)) -> bool {
    f.0 == "set-cookie"@ && (sets_cookie(f.1, "__cf_bm"@) || sets_cookie(f.1, "cf_ob_info"@))
}

/// Whether one of the fields sets a cookie of the network.
pub open spec fn has_cookie(e: Seq<(Seq<char>, Seq<u8>)>) -> bool {
    exists|i: int| 0 <= i < e.len() && is_cookie_field(#[trigger] e[i])
}

/// Whether the fields bear a mark of the network.
pub open spec fn bears_mark(e: Seq<(Seq<char>, Seq<u8>)>) -> bool {
    names_server(e) || has_ray(e) || has_cache_status(e) || has_cookie(e)
}

fn check_server(map: &http::HeaderMap<http::HeaderValue>) -> (r: bool)
    ensures
        r == names_server(headers::header_entries(*map)),
{
    proof {
        lemma_field_names();
    }
    match headers::get_header(map, "server") {
        Some(v) => match headers::value_text(&v) {
            Some(t) => {
                let l = text::to_lower(&t);
                let word = text::to_chars("cloudflare");
                text::has_seq(&l, &word)
            },
            None => false,
        },
        None => false,
    }
}

fn check_ray(map: &http::HeaderMap<http::HeaderValue>) -> (r: bool)
    ensures
        r == has_ray(headers::header_entries(*map)),
{
    proof {
        lemma_field_names();
    }
    headers::get_header(map, "cf-ray").is_some()
}

fn check_cache_status(map: &http::HeaderMap<http::HeaderValue>) -> (r: bool)
    ensures
        r == has_cache_status(headers::header_entries(*map)),
{
    proof {
        lemma_field_names();
    }
    headers::get_header(map, "cf-cache-status").is_some()
}

fn check_sets(v: &Vec<u8>, name: &str) -> (r: bool)
    ensures
        r == sets_cookie(v@, name@),
{
    let cs = text::to_chars(name);
    if cs.len() >= v.len() {
        return false;
    }
    let mut i: usize = 0;
    while i < cs.len()
        invariant
            cs@ == name@,
            i <= cs@.len() < v@.len(),
            forall|j: int| 0 <= j < i ==> v@[j] as char == #[trigger] name@[j],
        decreases cs@.len() - i,
    {
        if v[i] as char != cs[i] {
            assert(v@[i as int] as char != name@[i as int]);
            return false;
        }
        i += 1;
    }
    v[i] as char == '='
}

fn check_cookie(map: &http::HeaderMap<http::HeaderValue>) -> (r: bool)
    ensures
        r == has_cookie(headers::header_entries(*map)),
{
    let fields = headers::list_headers(map);
    let ghost e = headers::header_entries(*map);
    let mut i: usize = 0;
    while i < fields.len()
        invariant
            e == headers::header_entries(*map),
            e == headers::field_views(fields@),
            i <= fields@.len(),
            forall|j: int| 0 <= j < i ==> !is_cookie_field(#[trigger] e[j]),
        decreases fields@.len() - i,
    {
        assert(e[i as int] == (fields@[i as int].0@, fields@[i as int].1@));
        if text::same_str(fields[i].0.as_str(), "set-cookie") && (check_sets(
            &fields[i].1,
            "__cf_bm",
        ) || check_sets(&fields[i].1, "cf_ob_info")) {
            assert(is_cookie_field(e[i as int]));
            return true;
        }
        i += 1;
    }
    false
}

proof fn lemma_field_names()
    ensures
        headers::is_name("server"@),
        headers::is_name("cf-ray"@),
        headers::is_name("cf-cache-status"@),
        text::lower("server"@) == "server"@,
        text::lower("cf-ray"@) == "cf-ray"@,
        text::lower("cf-cache-status"@) == "cf-cache-status"@,
{
    reveal_strlit("server");
    reveal_strlit("cf-ray");
    reveal_strlit("cf-cache-status");
    assert(text::lower("server"@) =~= "server"@);
    assert(text::lower("cf-ray"@) =~= "cf-ray"@);
    assert(text::lower("cf-cache-status"@) =~= "cf-cache-status"@);
}

/// The reasons that the fields of a response give.
pub open spec fn header_reasons(e: Seq<(Seq<char>, Seq<u8>)>) -> Seq<Seq<char>> {
    let server = if names_server(e) {
        seq!["HTTP Server header contains 'cloudflare'"@]
    } else {
        Seq::empty()
    };
    let ray = if has_ray(e) {
        server.push("HTTP response has CF-RAY header"@)
    } else {
        server
    };
    let cache = if has_cache_status(e) {
        ray.push("HTTP response has CF-Cache-Status header"@)
    } else {
        ray
    };
    if has_cookie(e) {
        cache.push("HTTP response sets a Cloudflare cookie"@)
    } else {
        cache
    }
}

/// Whether this is what a response with the given status and fields tells.
pub open spec fn is_analysis(p: HttpProbe, status: u16, e: Seq<(Seq<char>, Seq<u8>)>) -> bool {
    &&& p.status == Some(status)
    &&& p.cloudflare_trait == bears_mark(e)
    &&& text::strings(p.reasons@) == header_reasons(e)
}

/// Looks for the marks of the network in the fields of a response.
pub fn analyze_headers(status: u16, map: &http::HeaderMap<http::HeaderValue>) -> (r: HttpProbe)
    ensures
        is_analysis(r, status, headers::header_entries(*map)),
{
    let mut reasons: Vec<String> = Vec::new();
    let mut cloudflare_trait = false;
    proof {
        assert(text::strings(reasons@) =~= Seq::<Seq<char>>::empty());
    }
    if check_server(map) {
        reasons.push(text::owned("HTTP Server header contains 'cloudflare'"));
        cloudflare_trait = true;
        proof {
            assert(text::strings(reasons@) =~= seq!["HTTP Server header contains 'cloudflare'"@]);
        }
    }
    if check_ray(map) {
        let ghost before = reasons@;
        reasons.push(text::owned("HTTP response has CF-RAY header"));
        cloudflare_trait = true;
        proof {
            assert(text::strings(reasons@) =~= text::strings(before).push(
                "HTTP response has CF-RAY header"@,
            ));
        }
    }
    if check_cache_status(map) {
        let ghost before = reasons@;
        reasons.push(text::owned("HTTP response has CF-Cache-Status header"));
        cloudflare_trait = true;
        proof {
            assert(text::strings(reasons@) =~= text::strings(before).push(
                "HTTP response has CF-Cache-Status header"@,
            ));
        }
    }
    if check_cookie(map) {
        let ghost before = reasons@;
        reasons.push(text::owned("HTTP response sets a Cloudflare cookie"));
        cloudflare_trait = true;
        proof {
            assert(text::strings(reasons@) =~= text::strings(before).push(
                "HTTP response sets a Cloudflare cookie"@,
            ));
        }
    }
    HttpProbe { status: Some(status), cloudflare_trait, reasons }
}

/// A response has reasons exactly where it bears a mark of the network.
pub proof fn law_reasons_go_with_trait(e: Seq<(Seq<char>, Seq<u8>)>)
    ensures
        header_reasons(e).len() > 0 <==> bears_mark(e),
{
}

/// The name to put into the request for a candidate.
pub open spec fn host_for(sni: Seq<char>, default: Seq<char>) -> Seq<char> {
    if sni.len() == 0 {
        default
    } else {
        sni
    }
}

/// Whether a status tells of success or points elsewhere.
pub open spec fn is_answer(status: u16) -> bool {
    200 <= status < 400
}

/// Whether this is what a response to a request for the given name tells.
pub open spec fn is_tls_probe(p: TlsProbe, sni: Seq<char>, response: PinnedHttpResponse) -> bool {
    &&& p.working_sni@ == sni
    &&& p.cloudflare_trait == names_server(headers::header_entries(response.headers))
    &&& text::opt_text(p.reason) == Some("HTTPS endpoint responded"@)
    &&& p.handshake_type == response.handshake_type
    &&& p.connect_latency == response.timing.connect_latency
    &&& p.tls_handshake_latency == response.timing.tls_handshake_latency
    &&& p.ttfb_latency == response.timing.ttfb_latency
}

/// A search for a name that an endpoint answers to over TLS.
#[derive(Clone, Debug)]
pub struct TlsSearch {
    /// The names still to be tried, the next one last.
    pub left: Vec<String>,
    pub default_sni: String,
}

/// The texts in reverse order.
pub open spec fn reversed(s: Seq<Seq<char>>) -> Seq<Seq<char>> {
    Seq::new(s.len(), |i: int| s[s.len() - 1 - i])
}

impl TlsSearch {
    /// The names still to be tried, in order.
    pub open spec fn todo(self) -> Seq<Seq<char>> {
        reversed(text::strings(self.left@))
    }

    pub fn new(domain: Option<&str>, default_sni: &str) -> (r: Self)
        ensures
            r.todo() == sni_candidates(opt_str(domain), default_sni@),
            r.default_sni@ == default_sni@,
    {
        let mut names = unique_snis(domain, default_sni);
        let ghost all = text::strings(names@);
        let mut left: Vec<String> = Vec::new();
        let ghost mut n: int = 0;
        proof {
            assert(text::strings(left@) =~= reversed(all).take(0));
        }
        while names.len() > 0
            invariant
                0 <= n <= all.len(),
                names@.len() == all.len() - n,
                text::strings(names@) == all.take(all.len() - n),
                text::strings(left@) == reversed(all).take(n),
            decreases names@.len(),
        {
            let ghost before = names@;
            let ghost gathered = left@;
            let x = names.pop().unwrap();
            proof {
                assert(text::strings(before)[before.len() - 1] == x@);
                assert(text::strings(names@) =~= text::strings(before).drop_last());
                assert(text::strings(before).drop_last() =~= all.take(all.len() - n - 1));
            }
            left.push(x);
            proof {
                assert(text::strings(left@) =~= text::strings(gathered).push(x@));
                assert(reversed(all).take(n + 1) =~= reversed(all).take(n).push(x@));
                n = n + 1;
            }
        }
        proof {
            assert(reversed(all).take(n) =~= reversed(all));
            assert(reversed(reversed(all)) =~= all);
        }
        TlsSearch { left, default_sni: text::owned(default_sni) }
    }

    /// The name to put into the next request; none once every name has been tried.
    pub fn next_host(&self) -> (r: Option<String>)
        ensures
            match r {
                Some(h) => self.todo().len() > 0 && h@ == host_for(
                    self.todo()[0],
                    self.default_sni@,
                ),
                None => self.todo().len() == 0,
            },
    {
        if self.left.len() == 0 {
            return None;
        }
        let sni = &self.left[self.left.len() - 1];
        proof {
            assert(self.todo()[0] == sni@);
            assert((sni@.len() == 0) == (sni@ =~= Seq::<char>::empty()));
        }
        if sni.as_str().is_empty() {
            Some(self.default_sni.clone())
        } else {
            Some(sni.clone())
        }
    }

    /// Takes the response to the next request, if there was one. A response that tells
    /// of success or points elsewhere ends the search.
    pub fn on_response(&mut self, response: Option<&PinnedHttpResponse>) -> (r: Option<TlsProbe>)
        requires
            old(self).todo().len() > 0,
        ensures
            final(self).todo() == old(self).todo().skip(1),
            final(self).default_sni == old(self).default_sni,
            match r {
                Some(p) => response is Some && is_answer(response->0.status) && is_tls_probe(
                    p,
                    old(self).todo()[0],
                    *response->0,
                ),
                None => response is None || !is_answer(response->0.status),
            },
    {
        let ghost before = self.left@;
        let ghost todo = self.todo();
        let sni = self.left.pop().unwrap();
        proof {
            assert(todo[0] == sni@);
            assert(text::strings(self.left@) =~= text::strings(before).drop_last());
            assert(self.todo() =~= todo.skip(1));
        }
        match response {
            Some(r) => {
                if 200 <= r.status && r.status < 400 {
                    Some(
                        TlsProbe {
                            working_sni: sni,
                            cloudflare_trait: check_server(&r.headers),
                            reason: Some(text::owned("HTTPS endpoint responded")),
                            handshake_type: r.handshake_type,
                            connect_latency: r.timing.connect_latency,
                            tls_handshake_latency: r.timing.tls_handshake_latency,
                            ttfb_latency: r.timing.ttfb_latency,
                        },
                    )
                } else {
                    None
                }
            },
            None => None,
        }
    }
}

/// The names to try, one after the other: the given one, unless it is empty or the default one;
/// the default one; and the empty name.
pub proof fn law_names_to_try(given: Seq<char>, default: Seq<char>)
    ensures
        given.len() > 0 && given != default ==> sni_candidates(Some(given), default) == seq![
            given,
            default,
            Seq::empty(),
        ],
        given.len() == 0 || given == default ==> sni_candidates(Some(given), default) == seq![
            default,
            Seq::empty(),
        ],
        sni_candidates(None, default) == seq![default, Seq::empty()],
{
    assert(seq![given].contains(default) <==> given == default) by {
        assert(seq![given][0] == given);
    }
    assert(!Seq::<Seq<char>>::empty().contains(default));
    if given.len() > 0 && given != default {
        assert(sni_candidates(Some(given), default) =~= seq![given, default, Seq::empty()]);
    } else {
        assert(sni_candidates(Some(given), default) =~= seq![default, Seq::empty()]);
    }
    assert(sni_candidates(None, default) =~= seq![default, Seq::empty()]);
}

/// A response bears a mark of the network where its server names it, where it has one of the
/// network's two fields, or where it sets one of its cookies.
pub proof fn law_marks(e: Seq<(Seq<char>, Seq<u8>)>, i: int)
    requires
        0 <= i < e.len(),
    ensures
        e[i].0 == "cf-ray"@ || e[i].0 == "cf-cache-status"@ ==> bears_mark(e),
        e[i].0 == "set-cookie"@ && e[i].1.len() >= 8 && e[i].1.take(8) == seq![
            95u8,
            95u8,
            99u8,
            102u8,
            95u8,
            98u8,
            109u8,
            61u8,
        ] ==> bears_mark(e),
        e[i].0 == "set-cookie"@ && e[i].1.len() >= 11 && e[i].1.take(11) == seq![
            99u8,
            102u8,
            95u8,
            111u8,
            98u8,
            95u8,
            105u8,
            110u8,
            102u8,
            111u8,
            61u8,
        ] ==> bears_mark(e),
        (e[i].0 == "server"@ && (forall|j: int| 0 <= j < i ==> (#[trigger] e[j]).0 != "server"@)
            && headers::visible_text(e[i].1) is Some && text::contains(
            text::lower(headers::visible_text(e[i].1)->0),
            "cloudflare"@,
        )) ==> bears_mark(e),
        bears_mark(e) ==> exists|j: int|
            0 <= j < e.len() && ((#[trigger] e[j]).0 == "cf-ray"@ || e[j].0 == "cf-cache-status"@
                || (e[j].0 == "set-cookie"@ && (sets_cookie(e[j].1, "__cf_bm"@) || sets_cookie(
                e[j].1,
                "cf_ob_info"@,
            ))) || (e[j].0 == "server"@ && headers::visible_text(e[j].1)
                is Some && text::contains(
                text::lower(headers::visible_text(e[j].1)->0),
                "cloudflare"@,
            ))),
{
    headers::law_first_value(e, "cf-ray"@, i);
    headers::law_first_value(e, "cf-cache-status"@, i);
    headers::law_first_value(e, "server"@, i);
    headers::lemma_index_of_name(e, "server"@, 0);
    law_cookies(e[i].1);
    if has_cookie(e) {
        let j = choose|j: int| 0 <= j < e.len() && is_cookie_field(#[trigger] e[j]);
        law_cookies(e[j].1);
        assert(e[j].0 == "set-cookie"@);
    }
}

/// A value sets one of the network's cookies exactly where it begins with its name and an equals
/// sign.
pub proof fn law_cookies(v: Seq<u8>)
    ensures
        sets_cookie(v, "__cf_bm"@) <==> v.len() >= 8 && v.take(8) == seq![
            95u8,
            95u8,
            99u8,
            102u8,
            95u8,
            98u8,
            109u8,
            61u8,
        ],
        sets_cookie(v, "cf_ob_info"@) <==> v.len() >= 11 && v.take(11) == seq![
            99u8,
            102u8,
            95u8,
            111u8,
            98u8,
            95u8,
            105u8,
            110u8,
            102u8,
            111u8,
            61u8,
        ],
{
    reveal_strlit("__cf_bm");
    reveal_strlit("cf_ob_info");
    let a = seq![95u8, 95u8, 99u8, 102u8, 95u8, 98u8, 109u8, 61u8];
    let b = seq![99u8, 102u8, 95u8, 111u8, 98u8, 95u8, 105u8, 110u8, 102u8, 111u8, 61u8];
    assert(a.len() == 8 && b.len() == 11);
    if v.len() >= 8 && v.take(8) == a {
        assert(v[7] == v.take(8)[7]);
        assert forall|j: int| 0 <= j < "__cf_bm"@.len() implies v[j] as char
            == #[trigger] "__cf_bm"@[j] by {
            assert(v[j] == v.take(8)[j]);
        }
    }
    if sets_cookie(v, "__cf_bm"@) {
        let n = "__cf_bm"@;
        assert forall|j: int| 0 <= j < 8 implies #[trigger] v.take(8)[j] == a[j] by {
            if j < 7 {
                assert(v[j] as char == n[j]);
            }
        }
        assert(v.take(8) =~= a);
    }
    if v.len() >= 11 && v.take(11) == b {
        assert(v[10] == v.take(11)[10]);
        assert forall|j: int| 0 <= j < "cf_ob_info"@.len() implies v[j] as char
            == #[trigger] "cf_ob_info"@[j] by {
            assert(v[j] == v.take(11)[j]);
        }
    }
    if sets_cookie(v, "cf_ob_info"@) {
        let n = "cf_ob_info"@;
        assert forall|j: int| 0 <= j < 11 implies #[trigger] v.take(11)[j] == b[j] by {
            if j < 10 {
                assert(v[j] as char == n[j]);
            }
        }
        assert(v.take(11) =~= b);
    }
}

/// The reasons that a response gives, in order: one for each of the marks that it bears.
pub proof fn law_header_reasons(p: HttpProbe, status: u16, e: Seq<(Seq<char>, Seq<u8>)>)
    requires
        is_analysis(p, status, e),
    ensures
        p.status == Some(status),
        p.cloudflare_trait <==> bears_mark(e),
        p.cloudflare_trait <==> p.reasons@.len() > 0,
        text::strings(p.reasons@) == (if names_server(e) {
            seq!["HTTP Server header contains 'cloudflare'"@]
        } else {
            Seq::empty()
        }) + (if headers::first_value(e, "cf-ray"@) is Some {
            seq!["HTTP response has CF-RAY header"@]
        } else {
            Seq::empty()
        }) + (if headers::first_value(e, "cf-cache-status"@) is Some {
            seq!["HTTP response has CF-Cache-Status header"@]
        } else {
            Seq::empty()
        }) + (if has_cookie(e) {
            seq!["HTTP response sets a Cloudflare cookie"@]
        } else {
            Seq::empty()
        }),
{
    law_reasons_go_with_trait(e);
    assert(text::strings(p.reasons@).len() == p.reasons@.len());
    let a: Seq<Seq<char>> = if names_server(e) {
        seq!["HTTP Server header contains 'cloudflare'"@]
    } else {
        Seq::empty()
    };
    let b: Seq<Seq<char>> = if has_ray(e) {
        seq!["HTTP response has CF-RAY header"@]
    } else {
        Seq::empty()
    };
    let c: Seq<Seq<char>> = if has_cache_status(e) {
        seq!["HTTP response has CF-Cache-Status header"@]
    } else {
        Seq::empty()
    };
    let d: Seq<Seq<char>> = if has_cookie(e) {
        seq!["HTTP response sets a Cloudflare cookie"@]
    } else {
        Seq::empty()
    };
    assert(header_reasons(e) =~= a + b + c + d);
}

/// An answer ends the search for a name exactly where its status tells of success or points
/// elsewhere, and is told with the name that was asked for, the mark of its server, and its
/// times.
pub proof fn law_answer_over_tls(p: TlsProbe, sni: Seq<char>, response: PinnedHttpResponse)
    ensures
        is_answer(response.status) <==> 200 <= response.status <= 399,
        is_tls_probe(p, sni, response) ==> {
            &&& p.working_sni@ == sni
            &&& p.cloudflare_trait <==> names_server(headers::header_entries(response.headers))
            &&& p.reason is Some && p.reason->0@ == "HTTPS endpoint responded"@
            &&& p.handshake_type == response.handshake_type
            &&& p.connect_latency == response.timing.connect_latency
            &&& p.tls_handshake_latency == response.timing.tls_handshake_latency
            &&& p.ttfb_latency == response.timing.ttfb_latency
        },
{
}

/// The host that is asked for is the name that was announced; where none was, the default one.
pub proof fn law_host(sni: Seq<char>, default: Seq<char>)
    ensures
        sni.len() > 0 ==> host_for(sni, default) == sni,
        host_for(Seq::empty(), default) == default,
{
}

/// Reversed twice, a list is as it was; the last comes first.
pub proof fn law_reversed(s: Seq<Seq<char>>)
    ensures
        reversed(reversed(s)) == s,
        s.len() > 0 ==> reversed(s)[0] == s.last() && reversed(s).skip(1) == reversed(s.drop_last()),
{
    assert(reversed(reversed(s)) =~= s);
    if s.len() > 0 {
        assert(reversed(s).skip(1) =~= reversed(s.drop_last()));
    }
}

} // verus!
