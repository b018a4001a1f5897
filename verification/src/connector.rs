//! Requests to pinned endpoints, and what comes back: the text of a request, the
//! reading of a response, and what both are configured by.

use vstd::prelude::*;
use vstd::slice::slice_subrange;

use crate::error;
use crate::error::{DetectorError, RetryConfig};
use crate::headers;
use crate::headers::Insertion;
use crate::numeral;
use crate::text;
use crate::time::Duration;

verus! {

/// How endpoints are connected to.
#[derive(Clone, Debug)]
pub struct PinnedClientConfig {
    pub connect_timeout: Duration,
    pub request_timeout: Duration,
    pub accept_invalid_certs: bool,
    pub user_agent: String,
    pub tls_session_cache: bool,
    /// The older name of `tls_session_cache_max_entries`; the larger of both counts.
    pub tls_session_cache_size: usize,
    pub tls_session_cache_max_entries: usize,
    pub enable_0rtt: bool,
    pub retry: RetryConfig,
}

pub type ConnectorConfig = PinnedClientConfig;

impl Default for PinnedClientConfig {
    fn default() -> (r: Self)
        ensures
            r.connect_timeout.nanos == 2_000_000_000,
            r.request_timeout.nanos == 3_000_000_000,
            r.accept_invalid_certs,
            r.user_agent@ == "Mozilla/5.0 (compatible; CFRP-Detector/3.0)"@,
            r.tls_session_cache,
            r.tls_session_cache_size == 256,
            r.tls_session_cache_max_entries == 256,
            !r.enable_0rtt,
            r.retry == error::default_retry(),
    {
        PinnedClientConfig {
            connect_timeout: Duration::from_secs(2),
            request_timeout: Duration::from_secs(3),
            accept_invalid_certs: true,
            user_agent: text::owned("Mozilla/5.0 (compatible; CFRP-Detector/3.0)"),
            tls_session_cache: true,
            tls_session_cache_size: 256,
            tls_session_cache_max_entries: 256,
            enable_0rtt: false,
            retry: RetryConfig::default(),
        }
    }
}

impl PinnedClientConfig {
    /// The number of TLS sessions to keep: the larger of the two settings, at least one.
    pub fn session_capacity(&self) -> (r: usize)
        ensures
            r >= 1,
            r >= self.tls_session_cache_size,
            r >= self.tls_session_cache_max_entries,
            r == 1 || r == self.tls_session_cache_size || r == self.tls_session_cache_max_entries,
    {
        let mut n: usize = self.tls_session_cache_max_entries;
        if self.tls_session_cache_size > n {
            n = self.tls_session_cache_size;
        }
        if n < 1 {
            1
        } else {
            n
        }
    }
}

/// How a TLS session came about.
#[derive(Clone, Copy, Debug, PartialEq, Eq, Structural)]
pub enum HandshakeType {
    FullHandshake,
    Resumed,
    ZeroRtt,
}

impl HandshakeType {
    /// The name under which the value is written out.
    pub open spec fn show(self) -> Seq<char> {
        match self {
            HandshakeType::FullHandshake => "full"@,
            HandshakeType::Resumed => "resumed"@,
            HandshakeType::ZeroRtt => "0rtt"@,
        }
    }

    pub fn to_string(&self) -> (r: String)
        ensures
            r@ == self.show(),
    {
        match self {
            HandshakeType::FullHandshake => text::owned("full"),
            HandshakeType::Resumed => text::owned("resumed"),
            HandshakeType::ZeroRtt => text::owned("0rtt"),
        }
    }

    /// Reads the name under which a value is written out.
    pub fn from_name(s: &str) -> (r: Option<Self>)
        ensures
            match r {
                Some(h) => s@ == h.show(),
                None => forall|h: HandshakeType| s@ != #[trigger] h.show(),
            },
    {
        if text::same_str(s, "full") {
            Some(HandshakeType::FullHandshake)
        } else if text::same_str(s, "resumed") {
            Some(HandshakeType::Resumed)
        } else if text::same_str(s, "0rtt") {
            Some(HandshakeType::ZeroRtt)
        } else {
            None
        }
    }

    /// The name of the variant.
    pub open spec fn variant(self) -> Seq<char> {
        match self {
            HandshakeType::FullHandshake => "FullHandshake"@,
            HandshakeType::Resumed => "Resumed"@,
            HandshakeType::ZeroRtt => "ZeroRtt"@,
        }
    }

    pub fn variant_name(&self) -> (r: String)
        ensures
            r@ == self.variant(),
    {
        match self {
            HandshakeType::FullHandshake => text::owned("FullHandshake"),
            HandshakeType::Resumed => text::owned("Resumed"),
            HandshakeType::ZeroRtt => text::owned("ZeroRtt"),
        }
    }

    /// Tells how a session came about from whether it was resumed and whether early
    /// data was on.
    pub fn classify(resumed: bool, early_data: bool) -> (r: Self)
        ensures
            r == (if !resumed {
                HandshakeType::FullHandshake
            } else if early_data {
                HandshakeType::ZeroRtt
            } else {
                HandshakeType::Resumed
            }),
    {
        if resumed {
            if early_data {
                HandshakeType::ZeroRtt
            } else {
                HandshakeType::Resumed
            }
        } else {
            HandshakeType::FullHandshake
        }
    }
}

/// No two kinds of handshake are written out alike, so reading one that was written
/// gives it back.
pub proof fn law_handshake_names_differ(a: HandshakeType, b: HandshakeType)
    requires
        a.show() == b.show(),
    ensures
        a == b,
{
    reveal_strlit("full");
    reveal_strlit("resumed");
    reveal_strlit("0rtt");
    assert("full"@[0] == 'f' && "resumed"@[0] == 'r' && "0rtt"@[0] == '0');
}

/// How long the steps of a request took.
#[derive(Clone, Copy, Debug, PartialEq, Eq, Structural)]
pub struct Timing {
    pub connect_latency: Option<Duration>,
    pub tls_handshake_latency: Option<Duration>,
    pub ttfb_latency: Option<Duration>,
}

impl Default for Timing {
    fn default() -> (r: Self)
        ensures
            r.connect_latency is None,
            r.tls_handshake_latency is None,
            r.ttfb_latency is None,
    {
        Timing { connect_latency: None, tls_handshake_latency: None, ttfb_latency: None }
    }
}

/// A response with what was measured on the way to it.
pub struct PinnedHttpResponse {
    pub status: u16,
    pub headers: http::HeaderMap<http::HeaderValue>,
    pub body: Vec<u8>,
    pub timing: Timing,
    pub handshake_type: HandshakeType,
}

/// A download with what was measured on the way to it.
#[derive(Clone, Copy, Debug)]
pub struct PinnedDownload {
    pub total_bytes: u64,
    pub timing: Timing,
    /// None for a download without TLS.
    pub handshake_type: Option<HandshakeType>,
}

/// Whether a status tells of success.
pub open spec fn is_success(status: u16) -> bool {
    200 <= status < 300
}

/// Takes a response as a download; only a successful one counts.
pub fn finish_download(
    status: u16,
    body: &Vec<u8>,
    timing: Timing,
    handshake_type: Option<HandshakeType>,
) -> (r: Result<PinnedDownload, DetectorError>)
    ensures
        match r {
            Ok(d) => is_success(status) && d.total_bytes == body@.len() && d.timing == timing
                && d.handshake_type == handshake_type,
            Err(e) => !is_success(status) && e is Http && e->Http_0@
                == "download failed with HTTP "@ + numeral::decimal(status as nat),
        },
{
    if !(200 <= status && status < 300) {
        let mut m = text::owned("download failed with HTTP ");
        numeral::push_numeral(&mut m, status as u128, 10);
        return Err(DetectorError::Http(m));
    }
    Ok(PinnedDownload { total_bytes: body.len() as u64, timing, handshake_type })
}

// ---------------------------------------------------------------------------
// Requests

/// The line of one extra field; fields that are no visible text are left out.
pub open spec fn field_line(f: (Seq<char>, Seq<u8>)) -> Seq<char> {
    match headers::visible_text(f.1) {
        Some(v) => f.0 + ": "@ + v + "\r\n"@,
        None => Seq::empty(),
    }
}

pub open spec fn field_lines(e: Seq<(Seq<char>, Seq<u8>)>) -> Seq<char>
    decreases e.len(),
{
    if e.len() == 0 {
        Seq::empty()
    } else {
        field_lines(e.drop_last()) + field_line(e.last())
    }
}

/// The text of a request; an empty path stands for the root.
pub open spec fn request_text(
    method: Seq<char>,
    host: Seq<char>,
    path: Seq<char>,
    user_agent: Seq<char>,
    extra: Seq<(Seq<char>, Seq<u8>)>,
) -> Seq<char> {
    method + " "@ + (if path.len() == 0 {
        "/"@
    } else {
        path
    }) + " HTTP/1.1\r\nHost: "@ + host + "\r\nUser-Agent: "@ + user_agent
        + "\r\nAccept: */*\r\nConnection: close\r\n"@ + field_lines(extra) + "\r\n"@
}

/// The fields that an optional map adds.
pub open spec fn extra_fields(extra: Option<&http::HeaderMap<http::HeaderValue>>) -> Seq<
    (Seq<char>, Seq<u8>),
> {
    match extra {
        Some(h) => headers::header_entries(*h),
        None => Seq::empty(),
    }
}

/// Writes a request.
pub fn build_http_request(
    method: &str,
    host: &str,
    path: &str,
    user_agent: &str,
    extra_headers: Option<&http::HeaderMap<http::HeaderValue>>,
) -> (r: String)
    ensures
        r@ == request_text(method@, host@, path@, user_agent@, extra_fields(extra_headers)),
{
    let mut s = text::owned(method);
    s.append(" ");
    if path.is_empty() {
        s.append("/");
    } else {
        s.append(path);
    }
    proof {
        assert((path@.len() == 0) == (path@ =~= Seq::<char>::empty()));
    }
    s.append(" HTTP/1.1\r\nHost: ");
    s.append(host);
    s.append("\r\nUser-Agent: ");
    s.append(user_agent);
    s.append("\r\nAccept: */*\r\nConnection: close\r\n");
    let ghost base = s@;
    let ghost extra = extra_fields(extra_headers);
    if let Some(h) = extra_headers {
        let list = headers::list_headers(h);
        let ghost e = headers::field_views(list@);
        let mut i: usize = 0;
        proof {
            assert(s@ =~= base + field_lines(e.take(0)));
        }
        while i < list.len()
            invariant
                e == headers::field_views(list@),
                i <= list@.len(),
                s@ == base + field_lines(e.take(i as int)),
            decreases list@.len() - i,
        {
            proof {
                assert(e.take(i + 1).drop_last() =~= e.take(i as int));
                assert(e.take(i + 1).last() == (list@[i as int].0@, list@[i as int].1@));
            }
            let ghost before = s@;
            if let Some(v) = headers::value_text(&list[i].1) {
                s.append(list[i].0.as_str());
                s.append(": ");
                let t = text::from_chars(&v);
                s.append(t.as_str());
                s.append("\r\n");
            }
            proof {
                assert(s@ =~= base + field_lines(e.take(i + 1)));
            }
            i += 1;
        }
        proof {
            assert(e.take(i as int) =~= e);
        }
    } else {
        proof {
            assert(s@ =~= base + field_lines(extra));
        }
    }
    s.append("\r\n");
    s
}

// ---------------------------------------------------------------------------
// Chunked bodies

/// The size that a chunk's size line stands for; what follows a semicolon is left out.
pub open spec fn chunk_size(line: Seq<u8>) -> Option<int> {
    let s = text::lossy_text(line);
    numeral::unsigned_value(text::trimmed(s.take(text::position(s, ';'))), 16, usize::MAX as int)
}

/// The chunk at the front of chunked data: the length of its size line and its size.
/// There is none at the end of the data and at a size line without a size above zero.
pub open spec fn first_chunk(data: Seq<u8>) -> Option<(int, int)> {
    let p = text::position(data, 13u8);
    if p < data.len() {
        match chunk_size(data.take(p)) {
            Some(n) => if n > 0 {
                Some((p, n))
            } else {
                None
            },
            None => None,
        }
    } else {
        None
    }
}

/// The chunks of chunked data, one after the other; the last may be cut short.
pub open spec fn unchunked(data: Seq<u8>) -> Seq<u8>
    decreases data.len(),
{
    match first_chunk(data) {
        Some((p, n)) => if p < 0 || p + 2 + n > data.len() {
            data.skip(p + 2)
        } else if p + 2 + n + 2 > data.len() {
            data.subrange(p + 2, p + 2 + n)
        } else {
            data.subrange(p + 2, p + 2 + n) + unchunked(data.skip(p + 2 + n + 2))
        },
        None => Seq::empty(),
    }
}

/// Whether every size line is whole, its end included, and no size passes the range of
/// positions.
pub open spec fn chunks_intact(data: Seq<u8>) -> bool
    decreases data.len(),
{
    match first_chunk(data) {
        Some((p, n)) => {
            &&& p + 2 <= data.len()
            &&& p + 2 + n <= usize::MAX
            &&& p >= 0 && p + 2 + n + 2 <= data.len() ==> chunks_intact(data.skip(p + 2 + n + 2))
        },
        None => true,
    }
}

fn find_byte(s: &[u8], c: u8) -> (r: usize)
    ensures
        r == text::position(s@, c),
        r <= s@.len(),
{
    let mut i: usize = 0;
    while i < s.len()
        invariant
            i <= s@.len(),
            text::find_from(s@, c, 0) == text::find_from(s@, c, i as int),
        decreases s@.len() - i,
    {
        if s[i] == c {
            return i;
        }
        i += 1;
    }
    i
}

fn read_chunk_size(line: &[u8]) -> (r: Option<usize>)
    ensures
        match r {
            Some(n) => chunk_size(line@) == Some(n as int),
            None => chunk_size(line@) is None,
        },
{
    let s = text::decode_lossy(line);
    let cs = text::to_chars(s.as_str());
    let p: usize = text::find_char(&cs, ';');
    assert(cs@.subrange(0, p as int) =~= cs@.take(p as int));
    let t = text::trim(slice_subrange(&cs, 0, p));
    match numeral::read_unsigned(t, 16, usize::MAX as u64) {
        Some(n) => Some(n as usize),
        None => None,
    }
}

fn read_first_chunk(data: &[u8]) -> (r: Option<(usize, usize)>)
    ensures
        match r {
            Some((p, n)) => first_chunk(data@) == Some((p as int, n as int)) && p < data@.len(),
            None => first_chunk(data@) is None,
        },
{
    let p: usize = find_byte(data, 13);
    if p >= data.len() {
        return None;
    }
    assert(data@.subrange(0, p as int) =~= data@.take(p as int));
    match read_chunk_size(slice_subrange(data, 0, p)) {
        Some(n) => if n > 0 {
            Some((p, n))
        } else {
            None
        },
        None => None,
    }
}

/// Appends bytes.
pub fn append_bytes(out: &mut Vec<u8>, data: &[u8])
    ensures
        final(out)@ == old(out)@ + data@,
{
    let ghost before = out@;
    let mut i: usize = 0;
    proof {
        assert(out@ =~= before + data@.take(0));
    }
    while i < data.len()
        invariant
            i <= data@.len(),
            out@ == before + data@.take(i as int),
        decreases data@.len() - i,
    {
        out.push(data[i]);
        proof {
            assert(out@ =~= before + data@.take(i + 1));
        }
        i += 1;
    }
    proof {
        assert(data@.take(i as int) =~= data@);
    }
}

/// Tells whether chunked data can be decoded.
pub fn check_chunks(data: &[u8]) -> (r: bool)
    ensures
        r == chunks_intact(data@),
{
    let mut rest: &[u8] = data;
    loop
        invariant
            chunks_intact(data@) == chunks_intact(rest@),
        decreases rest@.len(),
    {
        match read_first_chunk(rest) {
            Some((p, n)) => {
                assert(rest@.len() == rest.len());
                let len: usize = rest.len();
                if len - p < 2 {
                    return false;
                }
                if n > usize::MAX - (p + 2) {
                    return false;
                }
                let end: usize = p + 2 + n;
                if end > len || len - end < 2 {
                    return true;
                }
                assert(rest@.subrange(end + 2, rest@.len() as int) =~= rest@.skip(p + 2 + n + 2));
                rest = slice_subrange(rest, end + 2, len);
            },
            None => {
                return true;
            },
        }
    }
}

/// Decodes chunked data.
pub fn decode_chunked(data: &[u8]) -> (r: Vec<u8>)
    requires
        chunks_intact(data@),
    ensures
        r@ == unchunked(data@),
{
    let mut out: Vec<u8> = Vec::new();
    let mut rest: &[u8] = data;
    proof {
        assert(out@ + unchunked(rest@) =~= unchunked(data@));
    }
    loop
        invariant
            chunks_intact(rest@),
            unchunked(data@) == out@ + unchunked(rest@),
        decreases rest@.len(),
    {
        match read_first_chunk(rest) {
            Some((p, n)) => {
                assert(rest@.len() == rest.len());
                let len: usize = rest.len();
                let start: usize = p + 2;
                let end: usize = start + n;
                if end > len {
                    assert(rest@.subrange(start as int, rest@.len() as int) =~= rest@.skip(p + 2));
                    append_bytes(&mut out, slice_subrange(rest, start, len));
                    return out;
                }
                let ghost before = out@;
                append_bytes(&mut out, slice_subrange(rest, start, end));
                if len - end < 2 {
                    return out;
                }
                proof {
                    let tail = rest@.skip(p + 2 + n + 2);
                    assert(rest@.subrange(end + 2, rest@.len() as int) =~= tail);
                    assert(before + (rest@.subrange(p + 2, p + 2 + n) + unchunked(tail)) =~= out@
                        + unchunked(tail));
                }
                rest = slice_subrange(rest, end + 2, len);
            },
            None => {
                assert(out@ + Seq::<u8>::empty() =~= out@);
                return out;
            },
        }
    }
}

// ---------------------------------------------------------------------------
// Responses

/// The end of the head of a response.
pub open spec fn head_end_mark() -> Seq<u8> {
    seq![13u8, 10u8, 13u8, 10u8]
}

/// The end of a chunked body.
pub open spec fn chunked_end_mark() -> Seq<u8> {
    seq![48u8, 13u8, 10u8, 13u8, 10u8]
}

/// What the fields of a head say.
pub struct Fields {
    pub entries: Seq<(Seq<char>, Seq<u8>)>,
    pub content_length: Option<int>,
    pub chunked: bool,
}

/// What the fields say with one more line.
pub open spec fn with_line(f: Fields, line: Seq<char>) -> Fields {
    let p = text::position(line, ':');
    if p < line.len() {
        let k = text::trimmed(line.take(p));
        let v = text::trimmed(line.skip(p + 1));
        Fields {
            entries: if headers::is_name(k) && headers::is_value(v) {
                headers::with_field(f.entries, text::lower(k), vstd::utf8::encode_utf8(v))
            } else {
                f.entries
            },
            content_length: if text::lower(k) == "content-length"@ {
                numeral::unsigned_value(v, 10, usize::MAX as int)
            } else {
                f.content_length
            },
            chunked: f.chunked || (text::lower(k) == "transfer-encoding"@ && text::contains(
                text::lower(v),
                "chunked"@,
            )),
        }
    } else {
        f
    }
}

/// What the field lines say. A line without a colon says nothing; of two lines of one
/// name the last counts.
pub open spec fn fields_of(lines: Seq<Seq<char>>) -> Fields
    decreases lines.len(),
{
    if lines.len() == 0 {
        Fields { entries: Seq::empty(), content_length: None, chunked: false }
    } else {
        with_line(fields_of(lines.drop_last()), lines.last())
    }
}

/// Whether no two fields have one name.
pub open spec fn are_distinct(e: Seq<(Seq<char>, Seq<u8>)>) -> bool {
    forall|i: int, j: int| 0 <= i < j < e.len() ==> (#[trigger] e[i]).0 != (#[trigger] e[j]).0
}

/// The status that the first line tells: its second word, if that is a number of three
/// digits' size; else 200.
pub open spec fn status_of(lines: Seq<Seq<char>>) -> int {
    if lines.len() > 0 && text::words(lines[0]).len() > 1 {
        match numeral::unsigned_value(text::words(lines[0])[1], 10, 0xffff) {
            Some(n) => if 100 <= n < 1000 {
                n
            } else {
                200
            },
            None => 200,
        }
    } else {
        200
    }
}

/// The lines of the head of a response that ends at `pos`.
pub open spec fn head_lines(data: Seq<u8>, pos: int) -> Seq<Seq<char>> {
    text::lines(text::lossy_text(data.take(pos)))
}

/// The field lines of the head of a response that ends at `pos`.
pub open spec fn field_lines_of(data: Seq<u8>, pos: int) -> Seq<Seq<char>> {
    if head_lines(data, pos).len() > 0 {
        head_lines(data, pos).skip(1)
    } else {
        Seq::empty()
    }
}

/// Whether a response is known to be complete. One with neither a length nor chunks
/// ends with its connection.
pub open spec fn is_complete(data: Seq<u8>) -> bool {
    match text::find_seq_from(data, head_end_mark(), 0) {
        Some(pos) => {
            let f = fields_of(field_lines_of(data, pos));
            if f.chunked {
                text::ends_with(data, chunked_end_mark())
            } else {
                match f.content_length {
                    Some(n) => data.len() - (pos + 4) >= n,
                    None => false,
                }
            }
        },
        None => false,
    }
}

/// The body of a response.
pub open spec fn body_of(raw: Seq<u8>, f: Fields) -> Seq<u8> {
    if f.chunked {
        unchunked(raw)
    } else {
        match f.content_length {
            Some(n) => if n < raw.len() {
                raw.take(n)
            } else {
                raw
            },
            None => raw,
        }
    }
}

/// The head of a response.
pub struct Head {
    /// Where the body starts.
    pub len: usize,
    pub status: u16,
    pub headers: http::HeaderMap<http::HeaderValue>,
    pub content_length: Option<usize>,
    pub chunked: bool,
}

impl Head {
    /// The head is that of the data, and ends at `pos`.
    pub open spec fn is_of(self, data: Seq<u8>, pos: int) -> bool {
        let f = fields_of(field_lines_of(data, pos));
        &&& self.len == pos + 4
        &&& self.status == status_of(head_lines(data, pos))
        &&& headers::header_entries(self.headers) == f.entries
        &&& match (self.content_length, f.content_length) {
            (Some(n), Some(m)) => n == m,
            (None, None) => true,
            _ => false,
        }
        &&& self.chunked == f.chunked
    }
}

/// A response that could not be read.
#[derive(Clone, Copy, Debug, PartialEq, Eq, Structural)]
pub enum ResponseFault {
    /// The head has no end.
    NoHeadEnd,
    /// A chunk's size line is cut off or its size is out of range.
    BrokenChunk,
    /// There are more fields than a map of them takes.
    TooManyFields,
}

impl ResponseFault {
    /// The error of a response whose head has no end.
    pub fn no_head_end() -> (r: DetectorError)
        ensures
            r is Http,
            r->Http_0@ == "invalid HTTP response: no headers terminator"@,
    {
        DetectorError::Http(text::owned("invalid HTTP response: no headers terminator"))
    }
}

/// A response as it arrives.
pub struct ResponseReader {
    buf: Vec<u8>,
    head: Option<Head>,
}

proof fn lemma_find_stable(data: Seq<u8>, more: Seq<u8>, mark: Seq<u8>)
    requires
        text::find_seq_from(data, mark, 0) is Some,
    ensures
        text::find_seq_from(data + more, mark, 0) == text::find_seq_from(data, mark, 0),
{
    text::lemma_find_seq_from(data, mark, 0);
    let pos = text::find_seq_from(data, mark, 0)->0;
    let s = data + more;
    assert(s.subrange(pos, pos + mark.len()) =~= data.subrange(pos, pos + mark.len()));
    assert forall|j: int| 0 <= j < pos implies !text::occurs_at(s, mark, j) by {
        assert(!text::occurs_at(data, mark, j));
        assert(s.subrange(j, j + mark.len()) =~= data.subrange(j, j + mark.len()));
    }
    text::lemma_find_seq_at(s, mark, 0, pos);
}

fn bytes_match(s: &[u8], p: &[u8], i: usize) -> (r: bool)
    requires
        i + p@.len() <= s@.len(),
    ensures
        r == text::occurs_at(s@, p@, i as int),
{
    let ghost sub = s@.subrange(i as int, i + p@.len());
    let mut k: usize = 0;
    assert(s@.len() == s.len());
    while k < p.len()
        invariant
            k <= p@.len(),
            i + p@.len() <= s@.len(),
            s@.len() == s.len(),
            sub == s@.subrange(i as int, i + p@.len()),
            forall|j: int| 0 <= j < k ==> sub[j] == p@[j],
        decreases p@.len() - k,
    {
        if s[i + k] != p[k] {
            assert(sub[k as int] != p@[k as int]);
            return false;
        }
        k += 1;
    }
    proof {
        assert(sub =~= p@);
    }
    true
}

fn find_bytes(s: &[u8], p: &[u8]) -> (r: Option<usize>)
    requires
        p@.len() > 0,
    ensures
        match r {
            Some(i) => text::find_seq_from(s@, p@, 0) == Some(i as int) && i + p@.len() <= s@.len(),
            None => text::find_seq_from(s@, p@, 0) is None,
        },
{
    if p.len() > s.len() {
        return None;
    }
    let last: usize = s.len() - p.len();
    let mut i: usize = 0;
    while i <= last
        invariant
            p@.len() > 0,
            s@.len() == s.len(),
            last == s@.len() - p@.len(),
            i <= last + 1,
            text::find_seq_from(s@, p@, 0) == text::find_seq_from(s@, p@, i as int),
        decreases last + 1 - i,
    {
        if bytes_match(s, p, i) {
            return Some(i);
        }
        i += 1;
    }
    None
}

fn read_status(lines: &Vec<&[char]>) -> (r: u16)
    ensures
        r == status_of(text::views(lines@)),
{
    if lines.len() == 0 {
        return 200;
    }
    proof {
        assert(text::views(lines@)[0] == lines@[0]@);
    }
    let w = text::split_words(lines[0]);
    proof {
        assert(text::views(w@).len() == w@.len());
    }
    if w.len() < 2 {
        return 200;
    }
    proof {
        assert(text::views(w@)[1] == w@[1]@);
    }
    match numeral::read_unsigned(w[1], 10, 0xffff) {
        Some(n) => if 100 <= n && n < 1000 {
            n as u16
        } else {
            200
        },
        None => 200,
    }
}

/// Reads the head of a response from the lines of its text.
fn read_head(lines: &Vec<&[char]>, len: usize) -> (r: Option<Head>)
    ensures
        match r {
            Some(h) => {
                let v = text::views(lines@);
                let f = fields_of(if v.len() > 0 { v.skip(1) } else { Seq::empty() });
                &&& h.len == len
                &&& h.status == status_of(v)
                &&& headers::header_entries(h.headers) == f.entries
                &&& match (h.content_length, f.content_length) {
                    (Some(n), Some(m)) => n == m,
                    (None, None) => true,
                    _ => false,
                }
                &&& h.chunked == f.chunked
            },
            None => lines@.len() > 0 && fields_of(text::views(lines@).skip(1)).entries.len()
                > headers::SURE_CAPACITY,
        },
{
    let status: u16 = read_status(lines);
    let mut map = headers::new_headers();
    let mut content_length: Option<usize> = None;
    let mut chunked = false;
    let ghost v = text::views(lines@);
    if lines.len() == 0 {
        return Some(Head { len, status, headers: map, content_length, chunked });
    }
    let ghost fl = v.skip(1);
    let mut i: usize = 1;
    proof {
        assert(fl.take(0) =~= Seq::<Seq<char>>::empty());
    }
    while i < lines.len()
        invariant
            v == text::views(lines@),
            fl == v.skip(1),
            1 <= i <= lines@.len(),
            headers::header_entries(map) == fields_of(fl.take(i - 1)).entries,
            match (content_length, fields_of(fl.take(i - 1)).content_length) {
                (Some(n), Some(m)) => n == m,
                (None, None) => true,
                _ => false,
            },
            chunked == fields_of(fl.take(i - 1)).chunked,
        decreases lines@.len() - i,
    {
        let line = lines[i];
        proof {
            assert(fl.take(i as int).drop_last() =~= fl.take(i - 1));
            assert(fl.take(i as int).last() == line@);
            text::lemma_find_from(line@, ':', 0);
        }
        let p: usize = text::find_char(line, ':');
        if p < line.len() {
            assert(line@.subrange(0, p as int) =~= line@.take(p as int));
            assert(line@.subrange(p + 1, line@.len() as int) =~= line@.skip(p + 1));
            let k = text::trim(slice_subrange(line, 0, p));
            let val = text::trim(slice_subrange(line, p + 1, line.len()));
            let name = text::from_chars(k);
            let value = text::from_chars(val);
            match headers::insert_header(&mut map, name.as_str(), value.as_str()) {
                Insertion::Stored => {},
                Insertion::Invalid => {},
                Insertion::Full => {
                    proof {
                        lemma_fields_grow(fl, i - 1);
                    }
                    return None;
                },
            }
            let k_lower = text::to_lower(k);
            if text::is_str(&k_lower, "content-length") {
                content_length = match numeral::read_unsigned(val, 10, usize::MAX as u64) {
                    Some(n) => Some(n as usize),
                    None => None,
                };
            }
            if text::is_str(&k_lower, "transfer-encoding") {
                let v_lower = text::to_lower(val);
                let word = text::to_chars("chunked");
                if text::has_seq(&v_lower, &word) {
                    chunked = true;
                }
            }
        }
        i += 1;
    }
    proof {
        assert(fl.take(i - 1) =~= fl);
    }
    Some(Head { len, status, headers: map, content_length, chunked })
}

proof fn lemma_without_absent(e: Seq<(Seq<char>, Seq<u8>)>, name: Seq<char>)
    requires
        forall|i: int| 0 <= i < e.len() ==> (#[trigger] e[i]).0 != name,
    ensures
        headers::without_name(e, name) == e,
    decreases e.len(),
{
    if e.len() > 0 {
        assert(e.last() == e[e.len() - 1]);
        assert forall|i: int| 0 <= i < e.drop_last().len() implies (#[trigger] e.drop_last()[i]).0
            != name by {
            assert(e.drop_last()[i] == e[i]);
        }
        lemma_without_absent(e.drop_last(), name);
        assert(e.drop_last().push(e.last()) =~= e);
    }
}

proof fn lemma_with_field_distinct(e: Seq<(Seq<char>, Seq<u8>)>, name: Seq<char>, value: Seq<u8>)
    requires
        are_distinct(e),
    ensures
        are_distinct(headers::with_field(e, name, value)),
        e.len() <= headers::with_field(e, name, value).len(),
{
    let i = headers::index_of_name(e, name, 0);
    headers::lemma_index_of_name(e, name, 0);
    if i < e.len() {
        let rest = e.skip(i + 1);
        assert forall|j: int| 0 <= j < rest.len() implies (#[trigger] rest[j]).0 != name by {
            assert(rest[j] == e[i + 1 + j]);
        }
        lemma_without_absent(rest, name);
        assert(headers::with_field(e, name, value) =~= e.update(i, (name, value)));
    }
}

/// No two fields of a head have one name, and further lines take no field away.
proof fn lemma_fields_grow(lines: Seq<Seq<char>>, n: int)
    requires
        0 <= n <= lines.len(),
    ensures
        are_distinct(fields_of(lines).entries),
        fields_of(lines.take(n)).entries.len() <= fields_of(lines).entries.len(),
    decreases lines.len(),
{
    if lines.len() > 0 {
        let rest = lines.drop_last();
        let m = if n < lines.len() {
            n
        } else {
            n - 1
        };
        lemma_fields_grow(rest, m);
        let line = lines.last();
        let p = text::position(line, ':');
        lemma_with_field_distinct(
            fields_of(rest).entries,
            text::lower(text::trimmed(line.take(p))),
            vstd::utf8::encode_utf8(text::trimmed(line.skip(p + 1))),
        );
        if n < lines.len() {
            assert(rest.take(n) =~= lines.take(n));
        }
    }
    if n == lines.len() {
        assert(lines.take(n) =~= lines);
    }
}

/// The fields that a response is read to have have names of their own each: of two lines of
/// one name a single field is left.
pub proof fn law_fields_are_distinct(lines: Seq<Seq<char>>)
    ensures
        are_distinct(fields_of(lines).entries),
{
    lemma_fields_grow(lines, 0);
}

impl ResponseReader {
    /// What has arrived.
    pub closed spec fn data(self) -> Seq<u8> {
        self.buf@
    }

    /// The head has been read as soon as it is whole.
    pub closed spec fn wf(self) -> bool {
        match text::find_seq_from(self.buf@, head_end_mark(), 0) {
            Some(pos) => self.head is Some && self.head->0.is_of(self.buf@, pos),
            None => self.head is None,
        }
    }

    pub fn new() -> (r: Self)
        ensures
            r.wf(),
            r.data() == Seq::<u8>::empty(),
    {
        ResponseReader { buf: Vec::new(), head: None }
    }

    /// Takes bytes that have arrived, and tells whether the response is complete.
    pub fn feed(&mut self, bytes: &[u8]) -> (r: Result<bool, ResponseFault>)
        requires
            old(self).wf(),
        ensures
            final(self).data() == old(self).data() + bytes@,
            match r {
                Ok(done) => final(self).wf() && done == is_complete(final(self).data()),
                Err(fault) => {
                    &&& fault == ResponseFault::TooManyFields
                    &&& text::find_seq_from(final(self).data(), head_end_mark(), 0) matches Some(
                        pos,
                    ) && fields_of(field_lines_of(final(self).data(), pos)).entries.len()
                        > headers::SURE_CAPACITY
                },
            },
    {
        let ghost before = self.buf@;
        append_bytes(&mut self.buf, bytes);
        let ghost data = self.buf@;
        if self.head.is_none() {
            let mark: Vec<u8> = vec![13u8, 10u8, 13u8, 10u8];
            proof {
                assert(mark@ =~= head_end_mark());
            }
            match find_bytes(self.buf.as_slice(), &mark) {
                Some(pos) => {
                    assert(self.buf@.len() == self.buf.len());
                    assert(data.subrange(0, pos as int) =~= data.take(pos as int));
                    let hdr = text::decode_lossy(slice_subrange(self.buf.as_slice(), 0, pos));
                    let cs = text::to_chars(hdr.as_str());
                    let lines = text::split_lines(&cs);
                    match read_head(&lines, pos + 4) {
                        Some(h) => {
                            proof {
                                assert(text::views(lines@) == head_lines(data, pos as int));
                            }
                            self.head = Some(h);
                        },
                        None => {
                            assert(text::views(lines@) == head_lines(data, pos as int));
                            return Err(ResponseFault::TooManyFields);
                        },
                    }
                },
                None => {},
            }
        } else {
            proof {
                lemma_find_stable(before, bytes@, head_end_mark());
                text::lemma_find_seq_from(before, head_end_mark(), 0);
                let pos = text::find_seq_from(before, head_end_mark(), 0)->0;
                assert(data.take(pos) =~= before.take(pos));
            }
        }
        match &self.head {
            Some(h) => {
                proof {
                    text::lemma_find_seq_from(data, head_end_mark(), 0);
                }
                let have: usize = self.buf.len() - h.len;
                if h.chunked {
                    let mark: Vec<u8> = vec![48u8, 13u8, 10u8, 13u8, 10u8];
                    proof {
                        assert(mark@ =~= chunked_end_mark());
                    }
                    if self.buf.len() < 5 {
                        return Ok(false);
                    }
                    Ok(bytes_match(self.buf.as_slice(), &mark, self.buf.len() - 5))
                } else {
                    match h.content_length {
                        Some(n) => Ok(have >= n),
                        None => Ok(false),
                    }
                }
            },
            None => Ok(false),
        }
    }

    /// Takes the end of the connection or of the response: status, fields and body.
    pub fn finish(self) -> (r: Result<
        (u16, http::HeaderMap<http::HeaderValue>, Vec<u8>),
        ResponseFault,
    >)
        requires
            self.wf(),
        ensures
            match text::find_seq_from(self.data(), head_end_mark(), 0) {
                Some(pos) => {
                    let f = fields_of(field_lines_of(self.data(), pos));
                    let raw = self.data().skip(pos + 4);
                    if f.chunked && !chunks_intact(raw) {
                        r matches Err(ResponseFault::BrokenChunk)
                    } else {
                        r matches Ok(x) && x.0 == status_of(head_lines(self.data(), pos))
                            && headers::header_entries(x.1) == f.entries && x.2@ == body_of(raw, f)
                    }
                },
                None => r matches Err(ResponseFault::NoHeadEnd),
            },
    {
        let ResponseReader { buf, head } = self;
        match head {
            Some(h) => {
                let ghost pos = text::find_seq_from(buf@, head_end_mark(), 0)->0;
                proof {
                    text::lemma_find_seq_from(buf@, head_end_mark(), 0);
                    assert(buf@.subrange(pos + 4, buf@.len() as int) =~= buf@.skip(pos + 4));
                }
                let raw = slice_subrange(buf.as_slice(), h.len, buf.len());
                let mut body: Vec<u8> = Vec::new();
                if h.chunked {
                    if !check_chunks(raw) {
                        return Err(ResponseFault::BrokenChunk);
                    }
                    body = decode_chunked(raw);
                } else {
                    let n: usize = match h.content_length {
                        Some(n) => if n < raw.len() {
                            n
                        } else {
                            raw.len()
                        },
                        None => raw.len(),
                    };
                    append_bytes(&mut body, slice_subrange(raw, 0, n));
                    proof {
                        assert(body@ =~= raw@.take(n as int));
                        assert(raw@.take(raw@.len() as int) =~= raw@);
                    }
                }
                Ok((h.status, h.headers, body))
            },
            None => Err(ResponseFault::NoHeadEnd),
        }
    }
}

/// A chunk as it is sent: its size in hexadecimal digits, and the bytes.
pub open spec fn sent_chunk(chunk: Seq<u8>) -> Seq<u8> {
    vstd::utf8::encode_utf8(numeral::numeral(chunk.len(), 16)) + seq![13u8, 10u8] + chunk + seq![
        13u8,
        10u8,
    ]
}

/// Chunks as they are sent, with the end of the body behind them.
pub open spec fn sent_chunks(chunks: Seq<Seq<u8>>) -> Seq<u8>
    decreases chunks.len(),
{
    if chunks.len() == 0 {
        chunked_end_mark()
    } else {
        sent_chunk(chunks[0]) + sent_chunks(chunks.skip(1))
    }
}

/// The bytes of chunks, one after the other.
pub open spec fn all_bytes(chunks: Seq<Seq<u8>>) -> Seq<u8>
    decreases chunks.len(),
{
    if chunks.len() == 0 {
        Seq::empty()
    } else {
        chunks[0] + all_bytes(chunks.skip(1))
    }
}

/// Hexadecimal digits are read back from their bytes, with whatever follows the line.
proof fn lemma_size_line(n: nat, rest: Seq<u8>)
    requires
        n <= usize::MAX,
    ensures
        ({
            let line = vstd::utf8::encode_utf8(numeral::numeral(n, 16));
            let data = line + seq![13u8, 10u8] + rest;
            &&& text::position(data, 13u8) == line.len()
            &&& data.take(line.len() as int) == line
            &&& chunk_size(line) == Some(n as int)
        }),
{
    let h = numeral::numeral(n, 16);
    let line = vstd::utf8::encode_utf8(h);
    let data = line + seq![13u8, 10u8] + rest;
    numeral::lemma_numeral(n, 16);
    numeral::lemma_read_numeral(n, 16, usize::MAX as int);
    assert forall|i: int| 0 <= i < h.len() implies '0' <= #[trigger] h[i] <= 'f' && h[i] != ';' by {
        assert(text::digit_value(h[i], 16) is Some);
        numeral::lemma_lower_digits(n, 16, i);
    }
    assert(vstd::utf8::is_ascii_chars(h));
    vstd::utf8::is_ascii_chars_encode_utf8(h);
    assert forall|j: int| 0 <= j < line.len() implies data[j] != 13u8 by {
        assert(h[j] as u8 == line[j]);
        assert('0' <= h[j] <= 'f');
    }
    text::lemma_find_at(data, 13u8, 0, line.len() as int);
    assert(data.take(line.len() as int) =~= line);
    text::law_encoded_text_is_read(h);
    text::lemma_find_at(h, ';', 0, h.len() as int);
    assert(h.take(h.len() as int) =~= h);
    assert('0' <= h[0] <= 'f' && '0' <= h.last() <= 'f');
    text::lemma_trim_keeps(h, text::space_fn());
}

/// A body that was sent in chunks is read as the chunks, one after the other, and its end
/// is recognised.
pub proof fn law_chunks_are_read(chunks: Seq<Seq<u8>>)
    requires
        forall|i: int| 0 <= i < chunks.len() ==> (#[trigger] chunks[i]).len() > 0,
        sent_chunks(chunks).len() <= usize::MAX,
    ensures
        chunks_intact(sent_chunks(chunks)),
        unchunked(sent_chunks(chunks)) == all_bytes(chunks),
        text::ends_with(sent_chunks(chunks), chunked_end_mark()),
    decreases chunks.len(),
{
    let d = sent_chunks(chunks);
    if chunks.len() == 0 {
        lemma_size_line(0, seq![13u8, 10u8]);
        numeral::lemma_numeral(0, 16);
        let line = vstd::utf8::encode_utf8(numeral::numeral(0, 16));
        vstd::utf8::is_ascii_chars_encode_utf8(numeral::numeral(0, 16));
        assert('0' as u8 == 48u8);
        assert(line =~= seq![48u8]);
        assert(d =~= line + seq![13u8, 10u8] + seq![13u8, 10u8]);
        assert(first_chunk(d) is None);
        assert(d.subrange(0, 5) =~= d);
    } else {
        let c = chunks[0];
        let rest = sent_chunks(chunks.skip(1));
        let line = vstd::utf8::encode_utf8(numeral::numeral(c.len(), 16));
        let tail = c + seq![13u8, 10u8] + rest;
        assert(d =~= line + seq![13u8, 10u8] + tail);
        assert forall|i: int| 0 <= i < chunks.skip(1).len() implies (#[trigger] chunks.skip(
            1,
        )[i]).len() > 0 by {
            assert(chunks.skip(1)[i] == chunks[i + 1]);
        }
        lemma_size_line(c.len(), tail);
        law_chunks_are_read(chunks.skip(1));
        let p = line.len() as int;
        let n = c.len() as int;
        assert(first_chunk(d) == Some((p, n)));
        assert(d.skip(p + 2 + n + 2) =~= rest);
        assert(d.subrange(p + 2, p + 2 + n) =~= c);
        let e = chunked_end_mark();
        assert(rest.len() >= e.len());
        assert(d.subrange(d.len() - e.len(), d.len() as int) =~= rest.subrange(
            rest.len() - e.len(),
            rest.len() as int,
        ));
    }
}

/// A response whose head tells the length of its body is complete as soon as the body is
/// there, and the body is read as it was sent.
pub proof fn law_known_length_is_read(head: Seq<u8>, body: Seq<u8>)
    requires
        text::find_seq_from(head + head_end_mark(), head_end_mark(), 0) == Some(head.len() as int),
        !fields_of(field_lines_of(head, head.len() as int)).chunked,
        fields_of(field_lines_of(head, head.len() as int)).content_length == Some(
            body.len() as int,
        ),
    ensures
        is_complete(head + head_end_mark() + body),
        text::find_seq_from(head + head_end_mark() + body, head_end_mark(), 0) == Some(
            head.len() as int,
        ),
        body_of(
            (head + head_end_mark() + body).skip((head.len() + 4) as int),
            fields_of(field_lines_of(head + head_end_mark() + body, head.len() as int)),
        ) == body,
{
    let whole = head + head_end_mark();
    let data = whole + body;
    lemma_find_stable(whole, body, head_end_mark());
    assert(data.take(head.len() as int) =~= head.take(head.len() as int));
    assert(data.skip((head.len() + 4) as int) =~= body);
}

/// A response whose head announces chunks is complete as soon as the last of them is there,
/// and its body is read as the chunks, one after the other.
pub proof fn law_chunked_response_is_read(head: Seq<u8>, chunks: Seq<Seq<u8>>)
    requires
        text::find_seq_from(head + head_end_mark(), head_end_mark(), 0) == Some(head.len() as int),
        fields_of(field_lines_of(head, head.len() as int)).chunked,
        forall|i: int| 0 <= i < chunks.len() ==> (#[trigger] chunks[i]).len() > 0,
        sent_chunks(chunks).len() <= usize::MAX,
    ensures
        is_complete(head + head_end_mark() + sent_chunks(chunks)),
        text::find_seq_from(head + head_end_mark() + sent_chunks(chunks), head_end_mark(), 0)
            == Some(head.len() as int),
        chunks_intact((head + head_end_mark() + sent_chunks(chunks)).skip((head.len() + 4) as int)),
        body_of(
            (head + head_end_mark() + sent_chunks(chunks)).skip((head.len() + 4) as int),
            fields_of(
                field_lines_of(head + head_end_mark() + sent_chunks(chunks), head.len() as int),
            ),
        ) == all_bytes(chunks),
{
    let body = sent_chunks(chunks);
    let whole = head + head_end_mark();
    let data = whole + body;
    lemma_find_stable(whole, body, head_end_mark());
    law_chunks_are_read(chunks);
    assert(data.take(head.len() as int) =~= head.take(head.len() as int));
    assert(data.skip((head.len() + 4) as int) =~= body);
    assert(data.skip(data.len() - 5) =~= body.skip(body.len() - 5));
}

/// Bytes that follow a whole head do not change it, nor where it ends.
pub proof fn law_head_is_stable(data: Seq<u8>, more: Seq<u8>)
    requires
        text::find_seq_from(data, head_end_mark(), 0) is Some,
    ensures
        text::find_seq_from(data + more, head_end_mark(), 0) == text::find_seq_from(
            data,
            head_end_mark(),
            0,
        ),
        head_lines(data + more, text::find_seq_from(data, head_end_mark(), 0)->0) == head_lines(
            data,
            text::find_seq_from(data, head_end_mark(), 0)->0,
        ),
{
    lemma_find_stable(data, more, head_end_mark());
    text::lemma_find_seq_from(data, head_end_mark(), 0);
    let pos = text::find_seq_from(data, head_end_mark(), 0)->0;
    assert((data + more).take(pos) =~= data.take(pos));
}

/// A status tells of success from 200 to 299.
pub proof fn law_success(status: u16)
    ensures
        is_success(status) <==> 200 <= status <= 299,
{
}

/// The head of a response ends with the first empty line.
pub proof fn law_head_ends_with_an_empty_line(data: Seq<u8>, pos: int)
    ensures
        text::find_seq_from(data, head_end_mark(), 0) == Some(pos) <==> {
            &&& 0 <= pos && pos + 4 <= data.len()
            &&& data[pos] == 13 && data[pos + 1] == 10 && data[pos + 2] == 13 && data[pos + 3] == 10
            &&& forall|i: int|
                0 <= i < pos ==> !(#[trigger] data[i] == 13 && data[i + 1] == 10 && data[i + 2] == 13
                    && data[i + 3] == 10)
        },
{
    let mark = head_end_mark();
    text::lemma_find_seq_from(data, mark, 0);
    assert forall|i: int| 0 <= i && i + 4 <= data.len() implies (text::occurs_at(data, mark, i)
        <==> #[trigger] data[i] == 13 && data[i + 1] == 10 && data[i + 2] == 13 && data[i + 3]
        == 10) by {
        let s = data.subrange(i, i + 4);
        assert(s[0] == data[i] && s[1] == data[i + 1] && s[2] == data[i + 2] && s[3] == data[i + 3]);
        if data[i] == 13 && data[i + 1] == 10 && data[i + 2] == 13 && data[i + 3] == 10 {
            assert(s =~= mark);
        }
    }
    if text::find_seq_from(data, mark, 0) == Some(pos) {
        assert(text::occurs_at(data, mark, pos));
        assert forall|i: int| 0 <= i < pos implies !(#[trigger] data[i] == 13 && data[i + 1] == 10
            && data[i + 2] == 13 && data[i + 3] == 10) by {
            assert(!text::occurs_at(data, mark, i));
        }
    } else if 0 <= pos && pos + 4 <= data.len() && data[pos] == 13 && data[pos + 1] == 10 && data[pos
        + 2] == 13 && data[pos + 3] == 10 && (forall|i: int|
        0 <= i < pos ==> !(#[trigger] data[i] == 13 && data[i + 1] == 10 && data[i + 2] == 13
            && data[i + 3] == 10)) {
        assert(text::occurs_at(data, mark, pos));
        assert forall|i: int| 0 <= i < pos implies !#[trigger] text::occurs_at(data, mark, i) by {
            assert(!(data[i] == 13 && data[i + 1] == 10 && data[i + 2] == 13 && data[i + 3] == 10));
        }
        text::lemma_find_seq_at(data, mark, 0, pos);
    }
}

/// A field line sets the field that it names to its value, whatever the case of the name and the
/// blanks around the value; of two lines of one name the last counts, and the other fields are
/// left alone. The length of the body and whether it comes in chunks are what the lines of
/// these names say.
pub proof fn law_field_line_is_read(
    f: Fields,
    name: Seq<char>,
    before: Seq<char>,
    value: Seq<char>,
    behind: Seq<char>,
    other: Seq<char>,
)
    requires
        headers::is_name(name),
        headers::is_value(value),
        forall|i: int| 0 <= i < before.len() ==> text::is_space(#[trigger] before[i]),
        forall|i: int| 0 <= i < behind.len() ==> text::is_space(#[trigger] behind[i]),
        value.len() > 0 ==> !text::is_space(value[0]) && !text::is_space(value.last()),
        other != text::lower(name),
    ensures
        ({
            let g = with_line(f, name + seq![':'] + before + value + behind);
            let key = text::lower(name);
            &&& headers::first_value(g.entries, key) == Some(vstd::utf8::encode_utf8(value))
            &&& headers::first_value(g.entries, other) == headers::first_value(f.entries, other)
            &&& key == "content-length"@ ==> g.content_length == numeral::unsigned_value(
                value,
                10,
                usize::MAX as int,
            )
            &&& key != "content-length"@ ==> g.content_length == f.content_length
            &&& g.chunked <==> f.chunked || (key == "transfer-encoding"@ && text::contains(
                text::lower(value),
                "chunked"@,
            ))
        }),
{
    let rest = before + value + behind;
    let line = name + seq![':'] + before + value + behind;
    assert(line =~= name + seq![':'] + rest);
    assert forall|j: int| 0 <= j < name.len() implies line[j] != ':' by {
        assert(line[j] == name[j]);
        assert(headers::is_name_char(name[j]));
    }
    text::lemma_find_at(line, ':', 0, name.len() as int);
    assert(line.take(name.len() as int) =~= name);
    assert(line.skip((name.len() + 1) as int) =~= rest);
    assert(headers::is_name_char(name[0]) && headers::is_name_char(name[name.len() - 1]));
    text::lemma_trim_keeps(name, text::space_fn());
    text::law_trimmed_space(before, value, behind);
    headers::law_set_field_is_read(
        f.entries,
        text::lower(name),
        vstd::utf8::encode_utf8(value),
        other,
    );
}

/// A line that tells the length of the body in decimal digits makes it that length.
pub proof fn law_content_length_is_read(f: Fields, n: usize)
    ensures
        with_line(f, "Content-Length: "@ + numeral::decimal(n as nat)).content_length == Some(
            n as int,
        ),
        with_line(f, "Transfer-Encoding: chunked"@).chunked,
{
    let d = numeral::decimal(n as nat);
    numeral::lemma_numeral(n as nat, 10);
    numeral::lemma_read_numeral(n as nat, 10, usize::MAX as int);
    let none = Seq::<char>::empty();
    reveal_strlit("Content-Length: ");
    reveal_strlit("content-length");
    reveal_strlit("Transfer-Encoding: chunked");
    reveal_strlit("transfer-encoding");
    reveal_strlit("chunked");
    let name = "Content-Length: "@.take(14);
    assert(name =~= seq!['C', 'o', 'n', 't', 'e', 'n', 't', '-', 'L', 'e', 'n', 'g', 't', 'h']);
    assert(text::lower(name) =~= "content-length"@);
    assert forall|i: int| 0 <= i < d.len() implies '0' <= #[trigger] d[i] <= '9' by {
        assert(text::digit_value(d[i], 10) is Some);
    }
    assert("Content-Length: "@ + d =~= name + seq![':'] + seq![' '] + d + none);
    law_field_line_is_read(f, name, seq![' '], d, none, none);
    let coding = "Transfer-Encoding: chunked"@.take(17);
    assert(text::lower(coding) =~= "transfer-encoding"@);
    let word = "chunked"@;
    assert("Transfer-Encoding: chunked"@ =~= coding + seq![':'] + seq![' '] + word + none);
    assert(text::lower(word) =~= word);
    assert(word.subrange(0, 7) =~= word);
    assert(text::occurs_at(word, word, 0));
    law_field_line_is_read(f, coding, seq![' '], word, none, none);
}

/// The fields of a head come from its lines one after the other; a line without a colon says
/// nothing.
pub proof fn law_fields_come_line_by_line(lines: Seq<Seq<char>>, line: Seq<char>)
    ensures
        fields_of(lines.push(line)) == with_line(fields_of(lines), line),
        fields_of(Seq::empty()).entries.len() == 0,
        fields_of(Seq::empty()).content_length is None,
        !fields_of(Seq::empty()).chunked,
        !line.contains(':') ==> with_line(fields_of(lines), line) == fields_of(lines),
{
    assert(lines.push(line).drop_last() =~= lines);
    if !line.contains(':') {
        assert forall|j: int| 0 <= j < line.len() implies line[j] != ':' by {
            assert(line.contains(line[j]));
        }
        text::lemma_find_at(line, ':', 0, line.len() as int);
    }
}

/// The status of a response is the number behind the version in its first line, if that is one
/// of three digits, and else 200.
pub proof fn law_status_is_read(
    version: Seq<char>,
    number: nat,
    rest: Seq<char>,
    lines: Seq<Seq<char>>,
)
    requires
        version.len() > 0,
        forall|i: int| 0 <= i < version.len() ==> !text::is_space(#[trigger] version[i]),
    ensures
        status_of(
            seq![version + seq![' '] + numeral::decimal(number) + seq![' '] + rest] + lines,
        ) == (if 100 <= number < 1000 {
            number as int
        } else {
            200
        }),
        status_of(seq![version] + lines) == 200,
        status_of(Seq::empty()) == 200,
{
    let d = numeral::decimal(number);
    numeral::lemma_numeral(number, 10);
    assert forall|i: int| 0 <= i < d.len() implies !text::is_space(#[trigger] d[i]) by {
        assert(text::digit_value(d[i], 10) is Some);
    }
    let tail = d + seq![' '] + rest;
    let line = version + seq![' '] + d + seq![' '] + rest;
    assert(line =~= version + seq![' '] + tail);
    text::law_words(version, ' ', tail);
    text::law_words(d, ' ', rest);
    assert(text::words(line) =~= seq![version, d] + text::words(rest));
    assert((seq![line] + lines)[0] == line);
    assert((seq![version] + lines)[0] == version);
    assert(text::digit_value(d[0], 10) is Some);
}

/// A body of known length is what was sent, up to that length; one of unknown length is all
/// that was sent.
pub proof fn law_body(raw: Seq<u8>, f: Fields, n: int)
    requires
        !f.chunked,
        n >= 0,
    ensures
        f.content_length == Some(n) && n <= raw.len() ==> body_of(raw, f) == raw.take(n),
        f.content_length == Some(n) && n > raw.len() ==> body_of(raw, f) == raw,
        f.content_length is None ==> body_of(raw, f) == raw,
{
    assert(raw.take(raw.len() as int) =~= raw);
}

/// A response is complete once its head is there and, behind it, as many bytes as the head
/// tells, or the end of the chunks that it announces; one without either never is.
pub proof fn law_complete(data: Seq<u8>, pos: int, n: int)
    requires
        text::find_seq_from(data, head_end_mark(), 0) == Some(pos),
    ensures
        ({
            let f = fields_of(field_lines_of(data, pos));
            &&& !f.chunked && f.content_length == Some(n) ==> (is_complete(data) <==> data.len()
                >= pos + 4 + n)
            &&& !f.chunked && f.content_length is None ==> !is_complete(data)
            &&& f.chunked ==> (is_complete(data) <==> data.len() >= 5 && data.skip(data.len() - 5)
                == seq![48u8, 13u8, 10u8, 13u8, 10u8])
        }),
{
    if data.len() >= 5 {
        assert(data.subrange(data.len() - 5, data.len() as int) =~= data.skip(data.len() - 5));
    }
}

/// Without a whole head a response is not complete.
pub proof fn law_no_head_is_not_complete(data: Seq<u8>)
    requires
        text::find_seq_from(data, head_end_mark(), 0) is None,
    ensures
        !is_complete(data),
{
}

/// Of a chunk that was cut short what has come is read.
pub proof fn law_cut_chunk_is_read(size: usize, part: Seq<u8>)
    requires
        part.len() < size,
    ensures
        unchunked(
            vstd::utf8::encode_utf8(numeral::numeral(size as nat, 16)) + seq![13u8, 10u8] + part,
        ) == part,
{
    let line = vstd::utf8::encode_utf8(numeral::numeral(size as nat, 16));
    let data = line + seq![13u8, 10u8] + part;
    lemma_size_line(size as nat, part);
    assert(first_chunk(data) == Some((line.len() as int, size as int)));
    assert(data.skip(line.len() as int + 2) =~= part);
}

/// The size of a chunk is the hexadecimal number before a semicolon or the end of its line; what
/// follows the semicolon does not count.
pub proof fn law_chunk_extension_does_not_count(n: nat, extension: Seq<char>)
    requires
        n <= usize::MAX,
    ensures
        chunk_size(vstd::utf8::encode_utf8(numeral::numeral(n, 16) + seq![';'] + extension)) == Some(
            n as int,
        ),
{
    let h = numeral::numeral(n, 16);
    let s = h + seq![';'] + extension;
    numeral::lemma_numeral(n, 16);
    numeral::lemma_read_numeral(n, 16, usize::MAX as int);
    assert forall|i: int| 0 <= i < h.len() implies '0' <= #[trigger] h[i] <= 'f' && h[i] != ';' by {
        assert(text::digit_value(h[i], 16) is Some);
        numeral::lemma_lower_digits(n, 16, i);
    }
    text::law_encoded_text_is_read(s);
    assert forall|j: int| 0 <= j < h.len() implies s[j] != ';' by {
        assert(s[j] == h[j]);
    }
    text::lemma_find_at(s, ';', 0, h.len() as int);
    assert(s.take(h.len() as int) =~= h);
    assert('0' <= h[0] <= 'f' && '0' <= h.last() <= 'f');
    text::lemma_trim_keeps(h, text::space_fn());
}

/// Whether a text can stand in a line.
pub open spec fn is_one_line(s: Seq<char>) -> bool {
    forall|i: int| 0 <= i < s.len() ==> (#[trigger] s[i]) != '\n' && s[i] != '\r'
}

/// A request is made of its lines: what is asked for, the host, the client, what is accepted,
/// that the connection is closed afterwards, and an empty line. An empty path stands for the
/// root.
#[verifier::rlimit(60)]
pub proof fn law_request_lines(
    method: Seq<char>,
    host: Seq<char>,
    path: Seq<char>,
    user_agent: Seq<char>,
)
    requires
        is_one_line(method),
        is_one_line(host),
        is_one_line(path),
        is_one_line(user_agent),
    ensures
        text::lines(request_text(method, host, path, user_agent, Seq::empty())) == seq![
            method + " "@ + (if path.len() == 0 {
                "/"@
            } else {
                path
            }) + " HTTP/1.1"@,
            "Host: "@ + host,
            "User-Agent: "@ + user_agent,
            "Accept: */*"@,
            "Connection: close"@,
            Seq::empty(),
        ],
{
    reveal_strlit(" ");
    reveal_strlit("/");
    reveal_strlit(" HTTP/1.1");
    reveal_strlit("Host: ");
    reveal_strlit("User-Agent: ");
    reveal_strlit("Accept: */*");
    reveal_strlit("Connection: close");
    reveal_strlit(" HTTP/1.1\r\nHost: ");
    reveal_strlit("\r\nUser-Agent: ");
    reveal_strlit("\r\nAccept: */*\r\nConnection: close\r\n");
    reveal_strlit("\r\n");
    let none = Seq::<char>::empty();
    let end = seq!['\r', '\n'];
    let target = if path.len() == 0 {
        "/"@
    } else {
        path
    };
    let start = method + " "@ + target;
    let l0 = start + " HTTP/1.1"@;
    let l1 = "Host: "@ + host;
    let l2 = "User-Agent: "@ + user_agent;
    let l3 = "Accept: */*"@;
    let l4 = "Connection: close"@;
    let s4 = l4 + end + (none + end + none);
    let s3 = l3 + end + s4;
    let s2 = l2 + end + s3;
    let s1 = l1 + end + s2;
    let s0 = l0 + end + s1;
    let m1 = " HTTP/1.1\r\nHost: "@;
    let m2 = "\r\nUser-Agent: "@;
    let m3 = "\r\nAccept: */*\r\nConnection: close\r\n"@;
    let m4 = "\r\n"@;
    let extra = field_lines(Seq::empty());
    assert(extra == none);
    let whole = start + m1 + host + m2 + user_agent + m3 + extra + m4;
    assert(whole == request_text(method, host, path, user_agent, Seq::empty()));
    assert(m3 + extra + m4 =~= end + s3);
    assert(m2 =~= end + "User-Agent: "@);
    assert(m1 =~= " HTTP/1.1"@ + end + "Host: "@);
    lemma_seven(start, m1, host, m2, user_agent, m3 + extra + m4);
    assert(whole =~= start + m1 + host + m2 + user_agent + (m3 + extra + m4));
    lemma_tail(m2, user_agent, end, s3, "User-Agent: "@);
    assert(m2 + (user_agent + (end + s3)) == end + s2);
    lemma_tail(end, host, end, s2, "Host: "@);
    assert(m1 + (host + (end + s2)) =~= " HTTP/1.1"@ + (end + s1));
    assert(start + (" HTTP/1.1"@ + (end + s1)) =~= s0);
    assert(whole == s0);
    lemma_request_splits(l0, l1, l2, l3, l4);
}

proof fn lemma_seven(
    a: Seq<char>,
    b: Seq<char>,
    c: Seq<char>,
    d: Seq<char>,
    e: Seq<char>,
    f: Seq<char>,
)
    ensures
        a + b + c + d + e + f == a + (b + (c + (d + (e + f)))),
{
    assert(a + b + c + d + e + f =~= a + (b + (c + (d + (e + f)))));
}

proof fn lemma_tail(
    mark: Seq<char>,
    value: Seq<char>,
    end: Seq<char>,
    rest: Seq<char>,
    key: Seq<char>,
)
    ensures
        mark == end + key ==> mark + (value + (end + rest)) == end + (key + value + end + rest),
{
    if mark == end + key {
        assert(mark + (value + (end + rest)) =~= end + (key + value + end + rest));
    }
}

#[verifier::rlimit(60)]
proof fn lemma_request_splits(
    l0: Seq<char>,
    l1: Seq<char>,
    l2: Seq<char>,
    l3: Seq<char>,
    l4: Seq<char>,
)
    requires
        is_one_line(l0),
        is_one_line(l1),
        is_one_line(l2),
        is_one_line(l3),
        is_one_line(l4),
    ensures
        ({
            let none = Seq::<char>::empty();
            let end = seq!['\r', '\n'];
            let s4 = l4 + end + (none + end + none);
            let s3 = l3 + end + s4;
            let s2 = l2 + end + s3;
            let s1 = l1 + end + s2;
            text::lines(l0 + end + s1) == seq![l0, l1, l2, l3, l4, none]
        }),
{
    let none = Seq::<char>::empty();
    let end = seq!['\r', '\n'];
    let s4 = l4 + end + (none + end + none);
    let s3 = l3 + end + s4;
    let s2 = l2 + end + s3;
    let s1 = l1 + end + s2;
    lemma_first_line(l0, s1);
    lemma_first_line(l1, s2);
    lemma_first_line(l2, s3);
    lemma_first_line(l3, s4);
    lemma_first_line(l4, none + end + none);
    lemma_first_line(none, none);
    text::law_lines(none, none);
    assert(seq![l0] + (seq![l1] + (seq![l2] + (seq![l3] + (seq![l4] + (seq![none] + text::lines(
        none,
    )))))) =~= seq![l0, l1, l2, l3, l4, none]);
}

proof fn lemma_first_line(line: Seq<char>, rest: Seq<char>)
    requires
        is_one_line(line),
    ensures
        text::lines(line + seq!['\r', '\n'] + rest) == seq![line] + text::lines(rest),
{
    lemma_no_break(line);
    text::law_lines(line, rest);
}

proof fn lemma_no_break(s: Seq<char>)
    requires
        is_one_line(s),
    ensures
        !s.contains('\n'),
{
    if s.contains('\n') {
        let i = choose|i: int| 0 <= i < s.len() && s[i] == '\n';
        assert(s[i] != '\n');
    }
}

/// Further fields follow the others in a request, one to a line and in order; a field whose value
/// is no visible text is left out.
pub proof fn law_extra_fields(
    a: Seq<(Seq<char>, Seq<u8>)>,
    b: Seq<(Seq<char>, Seq<u8>)>,
    name: Seq<char>,
    value: Seq<u8>,
)
    ensures
        field_lines(a + b) == field_lines(a) + field_lines(b),
        headers::visible_text(value) matches Some(v) ==> field_lines(seq![(name, value)]) == name
            + ": "@ + v + "\r\n"@,
        headers::visible_text(value) is None ==> field_lines(seq![(name, value)]).len() == 0,
    decreases b.len(),
{
    let one = seq![(name, value)];
    let none = Seq::<(Seq<char>, Seq<u8>)>::empty();
    assert(one.drop_last() =~= none);
    assert(field_lines(none) =~= Seq::<char>::empty());
    assert(field_lines(one) =~= field_line((name, value)));
    if b.len() == 0 {
        assert(a + b =~= a);
        assert(field_lines(a) + field_lines(b) =~= field_lines(a));
    } else {
        assert((a + b).drop_last() =~= a + b.drop_last());
        law_extra_fields(a, b.drop_last(), name, value);
        assert(field_lines(a + b) =~= field_lines(a) + field_lines(b));
    }
}

/// The handshakes are told apart by their names.
pub proof fn law_handshake_names()
    ensures
        HandshakeType::FullHandshake.variant() == "FullHandshake"@,
        HandshakeType::Resumed.variant() == "Resumed"@,
        HandshakeType::ZeroRtt.variant() == "ZeroRtt"@,
{
}

/// A chunk that was cut short behind its size line can be read, even where none of it has come;
/// one whose size line ends with the carriage return cannot, and neither can one of a size beyond
/// all that can be counted.
pub proof fn law_cut_chunk_is_intact(size: usize, part: Seq<u8>)
    requires
        part.len() < size,
    ensures
        ({
            let line = vstd::utf8::encode_utf8(numeral::numeral(size as nat, 16));
            &&& chunks_intact(line + seq![13u8, 10u8] + part) <==> line.len() + 2 + size <= usize::MAX
            &&& !chunks_intact(line + seq![13u8])
        }),
{
    let line = vstd::utf8::encode_utf8(numeral::numeral(size as nat, 16));
    let data = line + seq![13u8, 10u8] + part;
    lemma_size_line(size as nat, part);
    assert(first_chunk(data) == Some((line.len() as int, size as int)));
    let cut = line + seq![13u8];
    let n = line.len() as int;
    assert(text::position(data, 13u8) == n);
    text::lemma_find_from(data, 13u8, 0);
    assert forall|j: int| 0 <= j < n implies cut[j] != 13u8 by {
        assert(data[j] == line[j] && cut[j] == line[j]);
    }
    assert(cut[n] == 13u8);
    text::lemma_find_at(cut, 13u8, 0, n);
    assert(cut.take(n) =~= data.take(n));
    assert(first_chunk(cut) == Some((n, size as int)));
}

} // verus!
