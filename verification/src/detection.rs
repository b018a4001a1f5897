//! The course of a detection: what is asked of a target, one request after the other, and
//! what the responses lead to.

use vstd::prelude::*;

use crate::connector::PinnedHttpResponse;
use crate::detector;
use crate::error::DetectorError;
use crate::headers;
use crate::location::{CfLocation, LocationSource, LocationStore};
use crate::model::{Confidence, DetectionResult, EdgeInfo, Protocol};
use crate::probe;
use crate::probe::{HttpProbe, TlsProbe, TlsSearch};
use crate::text;
use crate::time::Duration;

verus! {

/// A request to a target.
#[derive(Clone, Debug)]
pub struct Ask {
    pub protocol: Protocol,
    /// The name to ask for, in TLS and in the request.
    pub host: String,
    pub path: &'static str,
}

/// How far a detection has come.
#[derive(Clone, Debug)]
pub enum Phase {
    /// A name is sought that the target answers to over TLS.
    Tls(TlsSearch),
    /// The service itself is asked.
    Http { tls: Option<TlsProbe>, protocol: Protocol, host: String },
    /// The target is an edge, and is asked where it stands.
    Trace { result: DetectionResult, host: String },
    Done(DetectionResult),
}

/// The detection of a target.
#[derive(Clone, Debug)]
pub struct Detection {
    /// Whether the address belongs to the network.
    pub in_range: bool,
    pub domain: Option<String>,
    pub default_sni: String,
    pub phase: Phase,
}

/// A result without what is told of the edge.
pub open spec fn without_edge(r: DetectionResult) -> DetectionResult {
    DetectionResult { edge_info: None, ..r }
}

/// Whether a result is the verdict on some responses.
pub open spec fn is_some_verdict(r: DetectionResult, in_range: bool) -> bool {
    exists|tls: Option<TlsProbe>, protocol: Protocol, http: HttpProbe|
        #[trigger] detector::is_verdict(r, in_range, tls, protocol, http)
}

/// Whether this is where a detection goes that got no answer over TLS.
pub open spec fn is_plain(p: Phase, domain: Option<Seq<char>>, default_sni: Seq<char>) -> bool {
    p matches Phase::Http { tls, protocol, host } && tls is None && (protocol, host@)
        == detector::http_plan(None, domain, default_sni)
}

/// Whether this is where the search for a name goes on, or ends without one.
pub open spec fn is_next_name(d: Detection, todo: Seq<Seq<char>>, p: Phase) -> bool {
    if todo.len() > 0 {
        p matches Phase::Tls(s) && s.todo() == todo && s.default_sni@ == d.default_sni@
    } else {
        is_plain(p, text::opt_text(d.domain), d.default_sni@)
    }
}

/// Whether a response leads from a detection to the given phase.
pub open spec fn leads_to<L: LocationSource>(
    d: Detection,
    response: PinnedHttpResponse,
    latency: Duration,
    locations: L,
    p: Phase,
) -> bool {
    match d.phase {
        Phase::Tls(s) => if probe::is_answer(response.status) {
            p matches Phase::Http { tls, protocol, host } && tls is Some && probe::is_tls_probe(
                tls->0,
                s.todo()[0],
                response,
            ) && protocol == Protocol::Https && host@ == probe::host_for(s.todo()[0], d.default_sni@)
        } else {
            is_next_name(d, s.todo().skip(1), p)
        },
        Phase::Http { tls, protocol, host } => exists|http: HttpProbe|
            #[trigger] probe::is_analysis(
                http,
                response.status,
                headers::header_entries(response.headers),
            ) && match p {
                Phase::Trace { result, host: h } => result.is_cloudflare_edge && h@ == host@
                    && detector::is_verdict(result, d.in_range, tls, protocol, http),
                Phase::Done(result) => !result.is_cloudflare_edge && detector::is_verdict(
                    result,
                    d.in_range,
                    tls,
                    protocol,
                    http,
                ),
                _ => false,
            },
        Phase::Trace { result, host } => p matches Phase::Done(r) && without_edge(r)
            == without_edge(result) && match r.edge_info {
            Some(e) => detector::is_traced(e, response.body@, latency, locations),
            None => detector::colo_of(text::lossy_text(response.body@)) is None,
        },
        Phase::Done(_) => false,
    }
}

impl Detection {
    /// The requests that may still be made.
    pub open spec fn left(self) -> int {
        match self.phase {
            Phase::Tls(s) => s.todo().len() as int + 2,
            Phase::Http { .. } => 2,
            Phase::Trace { .. } => 1,
            Phase::Done(_) => 0,
        }
    }

    pub open spec fn wf(self) -> bool {
        match self.phase {
            Phase::Tls(s) => s.todo().len() > 0 && s.default_sni@ == self.default_sni@,
            Phase::Http { tls, protocol, host } => (protocol, host@) == detector::http_plan(
                tls,
                text::opt_text(self.domain),
                self.default_sni@,
            ),
            Phase::Trace { result, host } => result.is_cloudflare_edge && is_some_verdict(
                result,
                self.in_range,
            ),
            Phase::Done(result) => {
                &&& result.edge_info is Some ==> result.is_cloudflare_edge
                &&& is_some_verdict(without_edge(result), self.in_range)
            },
        }
    }

    /// Starts the detection of a target.
    pub fn new(in_range: bool, domain: Option<&str>, default_sni: &str) -> (r: Self)
        ensures
            r.wf(),
            r.in_range == in_range,
            text::opt_text(r.domain) == probe::opt_str(domain),
            r.default_sni@ == default_sni@,
            r.phase matches Phase::Tls(s) && s.todo() == probe::sni_candidates(
                probe::opt_str(domain),
                default_sni@,
            ),
            r.left() <= 5,
    {
        let search = TlsSearch::new(domain, default_sni);
        proof {
            probe::law_candidates(probe::opt_str(domain), default_sni@);
        }
        Detection {
            in_range,
            domain: match domain {
                Some(d) => Some(text::owned(d)),
                None => None,
            },
            default_sni: text::owned(default_sni),
            phase: Phase::Tls(search),
        }
    }

    /// The protocol, the host and the path of the next request; none once the detection is
    /// done.
    pub open spec fn asked(self) -> Option<(Protocol, Seq<char>, Seq<char>)> {
        match self.phase {
            Phase::Tls(s) => Some(
                (
                    Protocol::Https,
                    probe::host_for(s.todo()[0], self.default_sni@),
                    "/cdn-cgi/trace"@,
                ),
            ),
            Phase::Http { protocol, host, .. } => Some((protocol, host@, "/cdn-cgi/trace"@)),
            Phase::Trace { result, host } => Some(
                (
                    if result.is_tls {
                        Protocol::Https
                    } else {
                        Protocol::Http
                    },
                    host@,
                    "/cdn-cgi/trace"@,
                ),
            ),
            Phase::Done(_) => None,
        }
    }

    /// The next request; none once the detection is done.
    pub fn ask(&self) -> (r: Option<Ask>)
        requires
            self.wf(),
        ensures
            match r {
                Some(ask) => self.asked() == Some((ask.protocol, ask.host@, ask.path@)),
                None => self.asked() is None,
            },
    {
        match &self.phase {
            Phase::Tls(s) => match s.next_host() {
                Some(host) => Some(Ask { protocol: Protocol::Https, host, path: "/cdn-cgi/trace" }),
                None => None,
            },
            Phase::Http { protocol, host, .. } => Some(
                Ask { protocol: *protocol, host: host.clone(), path: "/cdn-cgi/trace" },
            ),
            Phase::Trace { result, host } => Some(
                Ask {
                    protocol: if result.is_tls {
                        Protocol::Https
                    } else {
                        Protocol::Http
                    },
                    host: host.clone(),
                    path: "/cdn-cgi/trace",
                },
            ),
            Phase::Done(_) => None,
        }
    }

    /// Where the search for a name goes after a name without an answer.
    fn next_name(search: TlsSearch, domain: &Option<String>, default_sni: &String) -> (r: Phase)
        requires
            search.default_sni@ == default_sni@,
        ensures
            if search.todo().len() > 0 {
                r matches Phase::Tls(s) && s == search
            } else {
                is_plain(r, text::opt_text(*domain), default_sni@)
            },
    {
        if search.left.len() > 0 {
            return Phase::Tls(search);
        }
        let none: Option<TlsProbe> = None;
        let given: Option<&str> = match domain {
            Some(d) => Some(d.as_str()),
            None => None,
        };
        let (protocol, host) = detector::plan_http(&none, given, default_sni.as_str());
        Phase::Http { tls: none, protocol, host }
    }

    /// Takes the response to the request, and how long it took.
    pub fn on_response<L: LocationSource>(
        self,
        response: &PinnedHttpResponse,
        latency: Duration,
        locations: &L,
    ) -> (r: Self)
        requires
            self.wf(),
            self.phase !is Done,
        ensures
            r.wf(),
            r.in_range == self.in_range,
            r.domain == self.domain,
            r.default_sni == self.default_sni,
            leads_to(self, *response, latency, *locations, r.phase),
            r.left() < self.left(),
    {
        let ghost before = self;
        let Detection { in_range, domain, default_sni, phase } = self;
        let next = match phase {
            Phase::Tls(s) => {
                let mut search = s;
                match search.on_response(Some(response)) {
                    Some(p) => {
                        let given: Option<&str> = match &domain {
                            Some(d) => Some(d.as_str()),
                            None => None,
                        };
                        let tls = Some(p);
                        let (protocol, host) = detector::plan_http(&tls, given, default_sni.as_str());
                        Phase::Http { tls, protocol, host }
                    },
                    None => Self::next_name(search, &domain, &default_sni),
                }
            },
            Phase::Http { tls, protocol, host } => {
                let http = probe::analyze_headers(response.status, &response.headers);
                let result = detector::assemble(in_range, &tls, protocol, &http);
                proof {
                    assert(detector::is_verdict(result, in_range, tls, protocol, http));
                    assert(without_edge(result) == result);
                }
                if result.is_cloudflare_edge {
                    Phase::Trace { result, host }
                } else {
                    Phase::Done(result)
                }
            },
            Phase::Trace { result, host } => {
                let edge = detector::edge_from_trace(response.body.as_slice(), latency, locations);
                let mut done = result;
                proof {
                    assert(without_edge(result) == result);
                }
                done.edge_info = edge;
                Phase::Done(done)
            },
            Phase::Done(r) => Phase::Done(r),
        };
        Detection { in_range, domain, default_sni, phase: next }
    }

    /// Takes the failure of the request: the search for a name goes on, any other failure
    /// is that of the detection.
    pub fn on_failure(self, e: DetectorError) -> (r: Result<Self, DetectorError>)
        requires
            self.wf(),
            self.phase !is Done,
        ensures
            match r {
                Ok(d) => {
                    &&& d.wf()
                    &&& d.in_range == self.in_range
                    &&& d.domain == self.domain
                    &&& d.default_sni == self.default_sni
                    &&& self.phase matches Phase::Tls(s) && is_next_name(
                        self,
                        s.todo().skip(1),
                        d.phase,
                    )
                    &&& d.left() < self.left()
                },
                Err(f) => f == e && self.phase !is Tls,
            },
    {
        let Detection { in_range, domain, default_sni, phase } = self;
        match phase {
            Phase::Tls(s) => {
                let mut search = s;
                let _ = search.on_response(None);
                let next = Self::next_name(search, &domain, &default_sni);
                Ok(Detection { in_range, domain, default_sni, phase: next })
            },
            _ => Err(e),
        }
    }

    /// The result, once the detection is done.
    pub fn result(self) -> (r: Option<DetectionResult>)
        ensures
            match self.phase {
                Phase::Done(x) => r == Some(x),
                _ => r is None,
            },
    {
        match self.phase {
            Phase::Done(x) => Some(x),
            _ => None,
        }
    }
}

/// Whatever the target answers, the result of a detection keeps to this: an endpoint that
/// can be used is an edge, only an edge has a place, and the confidence tells whether the
/// target is an edge and whether its address belongs to the network.
pub proof fn law_result(d: Detection)
    requires
        d.wf(),
        d.phase is Done,
    ensures
        d.phase matches Phase::Done(r) && {
            &&& r.is_usable ==> r.is_cloudflare_edge
            &&& r.edge_info is Some ==> r.is_cloudflare_edge
            &&& d.in_range ==> r.is_cloudflare_edge
            &&& r.is_cloudflare_edge <==> r.confidence != Confidence::Absent
            &&& d.in_range <==> r.confidence == Confidence::High || r.confidence
                == Confidence::Medium
        },
{
    if let Phase::Done(r) = d.phase {
        let (tls, protocol, http) = choose|
            tls: Option<TlsProbe>,
            protocol: Protocol,
            http: HttpProbe,
        | detector::is_verdict(without_edge(r), d.in_range, tls, protocol, http);
        detector::law_verdict(without_edge(r), d.in_range, tls, protocol, http);
    }
}

// ---------------------------------------------------------------------------
// Equal answers

/// What comes back to a request.
pub enum Answer {
    Response { response: PinnedHttpResponse, latency: Duration },
    Failure(DetectorError),
}

/// Whether two answers are equal, but for the times and the kind of the handshake.
pub open spec fn same_answer(x: Answer, y: Answer) -> bool {
    match (x, y) {
        (
            Answer::Response { response: r, latency: _ },
            Answer::Response { response: q, latency: _ },
        ) => {
            &&& r.status == q.status
            &&& headers::header_entries(r.headers) == headers::header_entries(q.headers)
            &&& r.body@ == q.body@
        },
        (Answer::Failure(e), Answer::Failure(f)) => e == f,
        _ => false,
    }
}

/// Whether two results tell the same of an edge, but for the time it took to answer.
pub open spec fn same_edge(x: EdgeInfo, y: EdgeInfo) -> bool {
    &&& text::opt_text(x.colo_code) == text::opt_text(y.colo_code)
    &&& text::opt_text(x.city) == text::opt_text(y.city)
    &&& text::opt_text(x.country) == text::opt_text(y.country)
    &&& text::opt_text(x.region) == text::opt_text(y.region)
    &&& x.download_speed_bytes_per_sec == y.download_speed_bytes_per_sec
}

/// Whether two results are equal, but for the time that an edge took to answer.
pub open spec fn same_result(x: DetectionResult, y: DetectionResult) -> bool {
    &&& x.is_cloudflare_edge == y.is_cloudflare_edge
    &&& x.is_usable == y.is_usable
    &&& x.http_status_code == y.http_status_code
    &&& x.is_tls == y.is_tls
    &&& x.confidence == y.confidence
    &&& x.confidence_reason@ == y.confidence_reason@
    &&& text::strings(x.reasons@) == text::strings(y.reasons@)
    &&& match (x.edge_info, y.edge_info) {
        (Some(e), Some(f)) => same_edge(e, f),
        (None, None) => true,
        _ => false,
    }
}

/// Whether two searches over TLS found the same.
pub open spec fn same_tls(x: Option<TlsProbe>, y: Option<TlsProbe>) -> bool {
    match (x, y) {
        (Some(p), Some(q)) => p.working_sni@ == q.working_sni@ && p.cloudflare_trait
            == q.cloudflare_trait,
        (None, None) => true,
        _ => false,
    }
}

/// Whether two detections have come equally far.
pub open spec fn same_phase(x: Phase, y: Phase) -> bool {
    match (x, y) {
        (Phase::Tls(s), Phase::Tls(t)) => s.todo() == t.todo(),
        (
            Phase::Http { tls: s, protocol: p, host: h },
            Phase::Http { tls: t, protocol: q, host: g },
        ) => same_tls(s, t) && p == q && h@ == g@,
        (Phase::Trace { result: r, host: h }, Phase::Trace { result: q, host: g }) => same_result(
            r,
            q,
        ) && h@ == g@,
        (Phase::Done(r), Phase::Done(q)) => same_result(r, q),
        _ => false,
    }
}

/// Whether two detections are of one kind of target, and have come equally far.
pub open spec fn alike(a: Detection, b: Detection) -> bool {
    &&& a.in_range == b.in_range
    &&& text::opt_text(a.domain) == text::opt_text(b.domain)
    &&& a.default_sni@ == b.default_sni@
    &&& same_phase(a.phase, b.phase)
}

/// Whether a source of places has one answer for a code.
pub open spec fn is_settled<L: LocationSource>(locations: L) -> bool {
    forall|c: &str, d: &str, p: Option<CfLocation>, q: Option<CfLocation>|
        #[trigger] detector::places(locations, c, p) && #[trigger] detector::places(locations, d, q)
            && c@ == d@ ==> p == q
}

/// Whether an answer takes a detection there: what `on_response` and `on_failure` promise.
pub open spec fn is_step<L: LocationSource>(
    d: Detection,
    answer: Answer,
    locations: L,
    next: Result<Detection, DetectorError>,
) -> bool {
    &&& d.wf()
    &&& d.phase !is Done
    &&& next matches Ok(n) ==> {
        &&& n.wf()
        &&& n.in_range == d.in_range
        &&& n.domain == d.domain
        &&& n.default_sni == d.default_sni
    }
    &&& match (answer, next) {
        (Answer::Response { response, latency }, Ok(n)) => leads_to(
            d,
            response,
            latency,
            locations,
            n.phase,
        ),
        (Answer::Response { .. }, Err(_)) => false,
        (Answer::Failure(_), Ok(n)) => d.phase matches Phase::Tls(s) && is_next_name(
            d,
            s.todo().skip(1),
            n.phase,
        ),
        (Answer::Failure(e), Err(f)) => f == e && d.phase !is Tls,
    }
}

/// Whether answers take a detection from state to state.
pub open spec fn is_course<L: LocationSource>(
    states: Seq<Detection>,
    answers: Seq<Answer>,
    locations: L,
) -> bool {
    &&& states.len() == answers.len() + 1
    &&& forall|i: int|
        0 <= i < answers.len() ==> is_step(
            #[trigger] states[i],
            answers[i],
            locations,
            Ok(states[i + 1]),
        )
}

/// Detections that have come equally far go on equally with equal answers: to the same phase,
/// or to the same error.
pub proof fn law_equal_answer<L: LocationSource>(
    a: Detection,
    b: Detection,
    x: Answer,
    y: Answer,
    locations: L,
    m: Result<Detection, DetectorError>,
    n: Result<Detection, DetectorError>,
)
    requires
        is_settled(locations),
        alike(a, b),
        same_answer(x, y),
        is_step(a, x, locations, m),
        is_step(b, y, locations, n),
    ensures
        match (m, n) {
            (Ok(c), Ok(d)) => alike(c, d),
            (Err(e), Err(f)) => e == f,
            _ => false,
        },
{
}

/// Two detections of one address range, domain and default name that get equal answers come
/// equally far and ask the same next, whatever the times; once they are done, their results
/// are equal but for the time that the edge took to answer.
pub proof fn law_equal_answers<L: LocationSource>(
    a: Seq<Detection>,
    b: Seq<Detection>,
    x: Seq<Answer>,
    y: Seq<Answer>,
    locations: L,
)
    requires
        is_settled(locations),
        is_course(a, x, locations),
        is_course(b, y, locations),
        x.len() == y.len(),
        forall|i: int| 0 <= i < x.len() ==> same_answer(#[trigger] x[i], y[i]),
        alike(a[0], b[0]),
    ensures
        alike(a.last(), b.last()),
        a.last().asked() == b.last().asked(),
        match (a.last().phase, b.last().phase) {
            (Phase::Done(r), Phase::Done(q)) => same_result(r, q),
            (Phase::Done(_), _) => false,
            (_, Phase::Done(_)) => false,
            _ => true,
        },
    decreases x.len(),
{
    if x.len() > 0 {
        let k = x.len() - 1;
        let (p, q) = (a.drop_last(), b.drop_last());
        let (u, v) = (x.drop_last(), y.drop_last());
        assert forall|i: int| 0 <= i < u.len() implies is_step(
            #[trigger] p[i],
            u[i],
            locations,
            Ok(p[i + 1]),
        ) by {
            assert(p[i] == a[i] && p[i + 1] == a[i + 1]);
        }
        assert forall|i: int| 0 <= i < v.len() implies is_step(
            #[trigger] q[i],
            v[i],
            locations,
            Ok(q[i + 1]),
        ) by {
            assert(q[i] == b[i] && q[i + 1] == b[i + 1]);
        }
        assert forall|i: int| 0 <= i < u.len() implies same_answer(#[trigger] u[i], v[i]) by {
            assert(u[i] == x[i]);
        }
        law_equal_answers(p, q, u, v, locations);
        assert(p.last() == a[k] && q.last() == b[k]);
        assert(same_answer(x[k], y[k]));
        law_equal_answer(a[k], b[k], x[k], y[k], locations, Ok(a[k + 1]), Ok(b[k + 1]));
    }
}

/// The places of the data centres have one answer for a code.
pub proof fn law_store_is_settled(store: LocationStore)
    ensures
        is_settled(store),
{
}

/// What a detection asks for: while a name is sought, the next name over TLS; then the service
/// itself, by the protocol and under the name that were found; then, of an edge, where it
/// stands, over TLS exactly where it was reached so. An empty name stands for the default one.
pub proof fn law_asks(d: Detection)
    requires
        d.wf(),
    ensures
        match d.phase {
            Phase::Tls(s) => d.asked() == Some(
                (
                    Protocol::Https,
                    if s.todo()[0].len() > 0 {
                        s.todo()[0]
                    } else {
                        d.default_sni@
                    },
                    "/cdn-cgi/trace"@,
                ),
            ),
            Phase::Http { protocol, host, .. } => d.asked() == Some(
                (protocol, host@, "/cdn-cgi/trace"@),
            ),
            Phase::Trace { result, host } => d.asked() == Some(
                (
                    if result.is_tls {
                        Protocol::Https
                    } else {
                        Protocol::Http
                    },
                    host@,
                    "/cdn-cgi/trace"@,
                ),
            ),
            Phase::Done(_) => d.asked() is None,
        },
{
}

/// Where a response leads while a name is sought: with a status from 200 to 399 on to the service
/// itself, over TLS and under the name that was answered; with another to the next name, or,
/// where that was the last, on to the service in plain, under the given name or the default one.
pub proof fn law_search_for_a_name<L: LocationSource>(
    d: Detection,
    s: TlsSearch,
    response: PinnedHttpResponse,
    latency: Duration,
    locations: L,
    p: Phase,
)
    requires
        d.wf(),
        d.phase == Phase::Tls(s),
        leads_to(d, response, latency, locations, p),
    ensures
        200 <= response.status < 400 ==> {
            &&& p matches Phase::Http { tls, protocol, host }
            &&& tls is Some
            &&& tls->0.working_sni@ == s.todo()[0]
            &&& protocol == Protocol::Https
            &&& host@ == (if s.todo()[0].len() > 0 {
                s.todo()[0]
            } else {
                d.default_sni@
            })
        },
        !(200 <= response.status < 400) && s.todo().len() > 1 ==> {
            &&& p matches Phase::Tls(t)
            &&& t.todo() == s.todo().skip(1)
        },
        !(200 <= response.status < 400) && s.todo().len() == 1 ==> {
            &&& p matches Phase::Http { tls, protocol, host }
            &&& tls is None
            &&& protocol == Protocol::Http
            &&& d.domain matches Some(name) ==> host@ == name@
            &&& d.domain is None ==> host@ == d.default_sni@
        },
{
}

/// Where the response of the service leads: to the end where the target is no edge, and else to
/// the question where it stands, under the same name. Whether it is one, and how sure that is,
/// follows from the range of its address, the status, and the marks of the response.
#[verifier::rlimit(40)]
pub proof fn law_service_decides<L: LocationSource>(
    d: Detection,
    tls: Option<TlsProbe>,
    protocol: Protocol,
    host: String,
    response: PinnedHttpResponse,
    latency: Duration,
    locations: L,
    p: Phase,
)
    requires
        d.phase == (Phase::Http { tls, protocol, host }),
        leads_to(d, response, latency, locations, p),
    ensures
        ({
            let usable = 200 <= response.status < 400;
            let marked = probe::bears_mark(headers::header_entries(response.headers));
            let edge = d.in_range || usable || marked;
            &&& edge <==> p is Trace
            &&& !edge <==> p is Done
            &&& p matches Phase::Trace { result, host: h } ==> h@ == host@ && result.is_usable
                == usable && result.is_cloudflare_edge && result.is_tls == (tls is Some)
                && result.http_status_code == Some(response.status) && result.confidence == (
            if d.in_range {
                if usable || marked {
                    Confidence::High
                } else {
                    Confidence::Medium
                }
            } else {
                Confidence::Low
            })
            &&& p matches Phase::Done(result) ==> !result.is_cloudflare_edge && !result.is_usable
                && result.confidence == Confidence::Absent && result.http_status_code == Some(
                response.status,
            )
        }),
{
    let e = headers::header_entries(response.headers);
    match p {
        Phase::Trace { result, host: h } => {
            let http = choose|http: HttpProbe| #[trigger]
                probe::is_analysis(http, response.status, e) && detector::is_verdict(
                    result,
                    d.in_range,
                    tls,
                    protocol,
                    http,
                ) && result.is_cloudflare_edge && h@ == host@;
            detector::law_verdict(result, d.in_range, tls, protocol, http);
            probe::law_header_reasons(http, response.status, e);
        },
        Phase::Done(result) => {
            let http = choose|http: HttpProbe| #[trigger]
                probe::is_analysis(http, response.status, e) && detector::is_verdict(
                    result,
                    d.in_range,
                    tls,
                    protocol,
                    http,
                ) && !result.is_cloudflare_edge;
            detector::law_verdict(result, d.in_range, tls, protocol, http);
            probe::law_header_reasons(http, response.status, e);
        },
        _ => {},
    }
}

/// What a trace adds to the verdict on an edge: the code that it tells, and how long it took;
/// nothing else of the verdict changes, and without a code nothing is added.
pub proof fn law_trace_adds_the_place<L: LocationSource>(
    d: Detection,
    result: DetectionResult,
    host: String,
    response: PinnedHttpResponse,
    latency: Duration,
    locations: L,
    p: Phase,
)
    requires
        d.phase == (Phase::Trace { result, host }),
        leads_to(d, response, latency, locations, p),
    ensures
        p matches Phase::Done(r) && {
            &&& r.is_cloudflare_edge == result.is_cloudflare_edge
            &&& r.is_usable == result.is_usable
            &&& r.http_status_code == result.http_status_code
            &&& r.is_tls == result.is_tls
            &&& r.confidence == result.confidence
            &&& r.confidence_reason == result.confidence_reason
            &&& r.reasons == result.reasons
            &&& r.edge_info is Some <==> detector::colo_of(text::lossy_text(response.body@)) is Some
            &&& r.edge_info matches Some(e) ==> text::opt_text(e.colo_code) == detector::colo_of(
                text::lossy_text(response.body@),
            ) && e.latency == Some(latency)
        },
{
    if let Phase::Done(r) = p {
        assert(without_edge(r).is_cloudflare_edge == r.is_cloudflare_edge);
        assert(without_edge(result).is_cloudflare_edge == result.is_cloudflare_edge);
        assert(without_edge(r).reasons == r.reasons && without_edge(result).reasons
            == result.reasons);
        assert(without_edge(r).confidence_reason == r.confidence_reason);
        assert(without_edge(result).confidence_reason == result.confidence_reason);
    }
}

/// What is left of a detection: a response for each name that is still to be tried, one of the
/// service and one on its place; nothing is left exactly at the end.
pub proof fn law_left(d: Detection)
    requires
        d.wf(),
    ensures
        d.phase matches Phase::Tls(s) ==> d.left() == s.todo().len() + 2,
        d.phase is Http ==> d.left() == 2,
        d.phase is Trace ==> d.left() == 1,
        d.left() == 0 <==> d.phase is Done,
        d.left() == 0 <==> d.asked() is None,
{
}

/// Results that are the same agree in every finding, in the text of each reason and in the place;
/// only how long the answer took may differ.
pub proof fn law_same_results(x: DetectionResult, y: DetectionResult)
    requires
        same_result(x, y),
    ensures
        same_result(y, x),
        x.is_cloudflare_edge == y.is_cloudflare_edge,
        x.is_usable == y.is_usable,
        x.http_status_code == y.http_status_code,
        x.is_tls == y.is_tls,
        x.confidence == y.confidence,
        x.confidence_reason@ == y.confidence_reason@,
        text::strings(x.reasons@) == text::strings(y.reasons@),
        x.edge_info is Some <==> y.edge_info is Some,
        x.edge_info matches Some(e) ==> y.edge_info matches Some(f) ==> text::opt_text(e.colo_code)
            == text::opt_text(f.colo_code) && text::opt_text(e.city) == text::opt_text(f.city)
            && text::opt_text(e.country) == text::opt_text(f.country) && text::opt_text(e.region)
            == text::opt_text(f.region) && e.download_speed_bytes_per_sec
            == f.download_speed_bytes_per_sec,
{
}

} // verus!
