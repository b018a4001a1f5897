//! Errors, which of them deserve another try, and when to make it.

use vstd::prelude::*;

use crate::numeral;
use crate::ratio::Ratio;
use crate::text;

verus! {

/// The kinds of input and output failures that are told apart.
#[derive(Clone, Copy, Debug, PartialEq, Eq, Structural)]
pub enum ErrorKind {
    NotFound,
    PermissionDenied,
    ConnectionRefused,
    ConnectionReset,
    AddrNotAvailable,
    BrokenPipe,
    WouldBlock,
    TimedOut,
    Interrupted,
    OutOfMemory,
    Other,
}

/// A failure of input or output.
#[derive(Clone, Debug)]
pub struct IoError {
    pub kind: ErrorKind,
    pub raw_os_error: Option<i32>,
    pub message: String,
}

/// A failure of an HTTP client: what it says of itself, and the input and output
/// failures among its causes.
#[derive(Clone, Debug)]
pub struct NetworkError {
    pub is_timeout: bool,
    pub is_connect: bool,
    pub is_request: bool,
    /// The status of the response that was taken for a failure, if there was one.
    pub status: Option<u16>,
    pub io_causes: Vec<IoError>,
    pub message: String,
}

/// Everything that can go wrong.
#[derive(Debug)]
pub enum DetectorError {
    InvalidTarget(String),
    InvalidIp(String),
    InvalidPort(u16),
    Network(NetworkError),
    NetworkIo(IoError),
    Tls(String),
    Io(IoError),
    Json(String),
    Csv(String),
    Http(String),
    DataSource(String),
    RetriesExceeded { source: Box<DetectorError>, attempts: usize },
}

/// A prefix and a message.
fn prefixed(prefix: &str, message: &str) -> (r: String)
    ensures
        r@ == prefix@ + message@,
{
    let mut r = text::owned(prefix);
    r.append(message);
    r
}

impl DetectorError {
    /// The message of the error.
    pub open spec fn show(self) -> Seq<char>
        decreases self,
    {
        match self {
            DetectorError::InvalidTarget(s) => "invalid target: "@ + s@,
            DetectorError::InvalidIp(s) => "invalid IP address: "@ + s@,
            DetectorError::InvalidPort(p) => "invalid port: "@ + numeral::decimal(p as nat),
            DetectorError::Network(e) => "network error: "@ + e.message@,
            DetectorError::NetworkIo(e) => "network I/O error: "@ + e.message@,
            DetectorError::Tls(s) => "TLS error: "@ + s@,
            DetectorError::Io(e) => "I/O error: "@ + e.message@,
            DetectorError::Json(s) => "JSON error: "@ + s@,
            DetectorError::Csv(s) => "CSV error: "@ + s@,
            DetectorError::Http(s) => "HTTP error: "@ + s@,
            DetectorError::DataSource(s) => "data source error: "@ + s@,
            DetectorError::RetriesExceeded { source, attempts } => "retries exceeded after "@
                + numeral::decimal(attempts as nat) + " attempts: "@ + source.show(),
        }
    }

    pub fn to_string(&self) -> (r: String)
        ensures
            r@ == self.show(),
        decreases self,
    {
        match self {
            DetectorError::InvalidTarget(s) => prefixed("invalid target: ", s.as_str()),
            DetectorError::InvalidIp(s) => prefixed("invalid IP address: ", s.as_str()),
            DetectorError::InvalidPort(p) => {
                let n = numeral::to_decimal(*p as u128);
                prefixed("invalid port: ", n.as_str())
            },
            DetectorError::Network(e) => prefixed("network error: ", e.message.as_str()),
            DetectorError::NetworkIo(e) => prefixed("network I/O error: ", e.message.as_str()),
            DetectorError::Tls(s) => prefixed("TLS error: ", s.as_str()),
            DetectorError::Io(e) => prefixed("I/O error: ", e.message.as_str()),
            DetectorError::Json(s) => prefixed("JSON error: ", s.as_str()),
            DetectorError::Csv(s) => prefixed("CSV error: ", s.as_str()),
            DetectorError::Http(s) => prefixed("HTTP error: ", s.as_str()),
            DetectorError::DataSource(s) => prefixed("data source error: ", s.as_str()),
            DetectorError::RetriesExceeded { source, attempts } => {
                let n = numeral::to_decimal(*attempts as u128);
                let mut r = prefixed("retries exceeded after ", n.as_str());
                r.append(" attempts: ");
                let inner = source.to_string();
                r.append(inner.as_str());
                r
            },
        }
    }
}

// ---------------------------------------------------------------------------
// Transient failures

/// The operating system's error numbers for failures that may pass.
pub open spec fn is_transient_os(code: i32) -> bool {
    code == 60 || code == 104 || code == 61 || code == 98 || code == 99 || code == 107 || code == 32
        || code == 4
}

/// The kinds of failures that may pass.
pub open spec fn is_transient_kind(kind: ErrorKind) -> bool {
    match kind {
        ErrorKind::TimedOut => true,
        ErrorKind::WouldBlock => true,
        ErrorKind::BrokenPipe => true,
        ErrorKind::Interrupted => true,
        ErrorKind::ConnectionRefused => true,
        ErrorKind::ConnectionReset => true,
        ErrorKind::AddrNotAvailable => true,
        _ => false,
    }
}

/// The error number, zero where there is none.
pub open spec fn os_code(e: IoError) -> i32 {
    match e.raw_os_error {
        Some(c) => c,
        None => 0,
    }
}

pub open spec fn is_transient_io(e: IoError) -> bool {
    is_transient_kind(e.kind) || is_transient_os(os_code(e))
}

/// Whether one of the causes of a client's failure may pass.
pub open spec fn has_transient_cause(e: NetworkError) -> bool {
    exists|i: int| 0 <= i < e.io_causes@.len() && is_transient_io(#[trigger] e.io_causes@[i])
}

/// Whether a status tells of a failure of the server.
pub open spec fn is_server_error(status: u16) -> bool {
    500 <= status < 600
}

pub open spec fn is_digit(c: char) -> bool {
    '0' <= c <= '9'
}

/// Whether a message names, from index `i` on, the HTTP status of a failure of the server.
pub open spec fn names_server_error(m: Seq<char>, i: int) -> bool {
    &&& 0 <= i && i + 8 <= m.len()
    &&& m[i] == 'H' && m[i + 1] == 'T' && m[i + 2] == 'T' && m[i + 3] == 'P' && m[i + 4] == ' '
    &&& m[i + 5] == '5' && is_digit(m[i + 6]) && is_digit(m[i + 7])
    &&& i + 8 == m.len() || !is_digit(m[i + 8])
}

/// Whether a message tells of an HTTP status from 500 to 599.
pub open spec fn tells_server_error(m: Seq<char>) -> bool {
    exists|i: int| #[trigger] names_server_error(m, i)
}

/// Whether an error deserves another try.
pub open spec fn is_retryable(err: DetectorError) -> bool
    decreases err,
{
    match err {
        DetectorError::Network(e) => {
            ||| e.is_timeout
            ||| e.status is Some && is_server_error(e.status->0)
            ||| (e.is_connect || e.is_request) && has_transient_cause(e)
            ||| text::contains(e.message@, "connection reset"@)
            ||| text::contains(e.message@, "broken pipe"@)
            ||| text::contains(e.message@, "Connection refused"@)
            ||| text::contains(e.message@, "timed out"@)
            ||| text::contains(e.message@, "timeout"@)
        },
        DetectorError::NetworkIo(e) => is_transient_io(e),
        DetectorError::Http(m) => {
            ||| text::contains(m@, "timed out"@)
            ||| text::contains(m@, "timeout"@)
            ||| text::contains(m@, "connection reset"@)
            ||| text::contains(m@, "broken pipe"@)
            ||| text::contains(m@, "Connection refused"@)
            ||| text::contains(m@, "speedtest timed out"@)
            ||| tells_server_error(m@)
        },
        DetectorError::Tls(m) => {
            ||| text::contains(m@, "connection reset"@)
            ||| text::contains(m@, "timed out"@)
            ||| text::contains(m@, "broken pipe"@)
            ||| text::contains(m@, "Connection refused"@)
        },
        DetectorError::Io(e) => is_transient_io(e),
        DetectorError::RetriesExceeded { source, .. } => is_retryable(*source),
        _ => false,
    }
}

pub fn matches_os_transient(code: i32) -> (r: bool)
    ensures
        r == is_transient_os(code),
{
    code == 60 || code == 104 || code == 61 || code == 98 || code == 99 || code == 107 || code == 32
        || code == 4
}

pub fn matches_io_transient(e: &IoError) -> (r: bool)
    ensures
        r == is_transient_io(*e),
{
    let kind = match e.kind {
        ErrorKind::TimedOut => true,
        ErrorKind::WouldBlock => true,
        ErrorKind::BrokenPipe => true,
        ErrorKind::Interrupted => true,
        ErrorKind::ConnectionRefused => true,
        ErrorKind::ConnectionReset => true,
        ErrorKind::AddrNotAvailable => true,
        _ => false,
    };
    let code: i32 = match e.raw_os_error {
        Some(c) => c,
        None => 0,
    };
    kind || matches_os_transient(code)
}

fn any_transient(causes: &Vec<IoError>) -> (r: bool)
    ensures
        r == (exists|i: int| 0 <= i < causes@.len() && is_transient_io(#[trigger] causes@[i])),
{
    let mut i: usize = 0;
    while i < causes.len()
        invariant
            i <= causes@.len(),
            forall|j: int| 0 <= j < i ==> !is_transient_io(#[trigger] causes@[j]),
        decreases causes@.len() - i,
    {
        if matches_io_transient(&causes[i]) {
            return true;
        }
        i += 1;
    }
    false
}

/// A failure that is told by its HTTP status deserves another try where the status is one of
/// a failure of the server, whatever stands before it.
pub proof fn law_server_failure_is_retried(told: Seq<char>, status: u16, e: DetectorError)
    requires
        is_server_error(status),
        e matches DetectorError::Http(m) && m@ == told + "HTTP "@ + numeral::decimal(status as nat),
    ensures
        is_retryable(e),
{
    reveal_strlit("HTTP ");
    reveal_with_fuel(numeral::numeral, 3);
    let d = numeral::decimal(status as nat);
    let n = status as nat;
    assert(n / 10 >= 10 && n / 10 / 10 == 5);
    assert(d =~= seq![
        '5',
        numeral::digit_char((n / 10 % 10) as int),
        numeral::digit_char((n % 10) as int),
    ]);
    let m = told + "HTTP "@ + d;
    assert(names_server_error(m, told.len() as int));
}

/// Tells whether a message names an HTTP status from 500 to 599.
fn find_server_error(m: &str) -> (r: bool)
    ensures
        r == tells_server_error(m@),
{
    let cs = text::to_chars(m);
    let mut i: usize = 0;
    while i < cs.len()
        invariant
            cs@ == m@,
            i <= cs@.len(),
            forall|j: int| 0 <= j < i ==> !#[trigger] names_server_error(m@, j),
        decreases cs@.len() - i,
    {
        if cs.len() - i >= 8 && cs[i] == 'H' && cs[i + 1] == 'T' && cs[i + 2] == 'T' && cs[i + 3]
            == 'P' && cs[i + 4] == ' ' && cs[i + 5] == '5' && check_digit(cs[i + 6])
            && check_digit(cs[i + 7]) && (cs.len() - i == 8 || !check_digit(cs[i + 8])) {
            assert(names_server_error(m@, i as int));
            return true;
        }
        i += 1;
    }
    false
}

fn check_digit(c: char) -> (r: bool)
    ensures
        r == is_digit(c),
{
    '0' <= c && c <= '9'
}

/// Whether an error deserves another try: time-outs, failures of the server, passing failures
/// of input and output, and messages that tell of one of these.
pub fn is_retryable_error(err: &DetectorError) -> (r: bool)
    ensures
        r == is_retryable(*err),
    decreases err,
{
    match err {
        DetectorError::Network(e) => {
            if e.is_timeout {
                return true;
            }
            if let Some(s) = e.status {
                if 500 <= s && s < 600 {
                    return true;
                }
            }
            if (e.is_connect || e.is_request) && any_transient(&e.io_causes) {
                return true;
            }
            let m = e.message.as_str();
            text::str_contains(m, "connection reset") || text::str_contains(m, "broken pipe")
                || text::str_contains(m, "Connection refused") || text::str_contains(m, "timed out")
                || text::str_contains(m, "timeout")
        },
        DetectorError::NetworkIo(e) => matches_io_transient(e),
        DetectorError::Http(m) => {
            let m = m.as_str();
            text::str_contains(m, "timed out") || text::str_contains(m, "timeout")
                || text::str_contains(m, "connection reset") || text::str_contains(m, "broken pipe")
                || text::str_contains(m, "Connection refused") || text::str_contains(
                m,
                "speedtest timed out",
            ) || find_server_error(m)
        },
        DetectorError::Tls(m) => {
            let m = m.as_str();
            text::str_contains(m, "connection reset") || text::str_contains(m, "timed out")
                || text::str_contains(m, "broken pipe") || text::str_contains(
                m,
                "Connection refused",
            )
        },
        DetectorError::Io(e) => matches_io_transient(e),
        DetectorError::RetriesExceeded { source, .. } => is_retryable_error(source),
        _ => false,
    }
}

// ---------------------------------------------------------------------------
// Retrying

/// How often, and after which pauses, a failed action is tried again.
#[derive(Clone, Copy, Debug)]
pub struct RetryConfig {
    /// The number of attempts; zero counts as one.
    pub max_attempts: usize,
    /// The pause before the second attempt, in milliseconds.
    pub initial_backoff_ms: u64,
    /// The cap on every pause.
    pub max_backoff_ms: u64,
    /// What each pause is multiplied by to give the next.
    pub backoff_multiplier: Ratio,
}

/// How often, and after which pauses, an action is tried again where nothing else is said.
pub open spec fn default_retry() -> RetryConfig {
    RetryConfig {
        max_attempts: 3,
        initial_backoff_ms: 50,
        max_backoff_ms: 1000,
        backoff_multiplier: Ratio { numer: 2, denom: 1 },
    }
}

impl Default for RetryConfig {
    fn default() -> (r: Self)
        ensures
            r == default_retry(),
    {
        RetryConfig {
            max_attempts: 3,
            initial_backoff_ms: 50,
            max_backoff_ms: 1000,
            backoff_multiplier: Ratio { numer: 2, denom: 1 },
        }
    }
}

/// The attempts that a configuration allows.
pub open spec fn allowed_attempts(cfg: RetryConfig) -> int {
    if cfg.max_attempts == 0 {
        1
    } else {
        cfg.max_attempts as int
    }
}

/// The pause before the second attempt: the configured one, up to the cap.
pub open spec fn first_backoff(cfg: RetryConfig) -> u64 {
    if cfg.initial_backoff_ms < cfg.max_backoff_ms {
        cfg.initial_backoff_ms
    } else {
        cfg.max_backoff_ms
    }
}

/// The pause that follows a pause of `ms`: it grows, from at least one, up to the cap.
pub open spec fn next_backoff(cfg: RetryConfig, ms: int) -> int {
    let grown = (ms * cfg.backoff_multiplier.numer) / (cfg.backoff_multiplier.denom as int);
    let felt = if grown < 1 {
        1
    } else {
        grown
    };
    if felt < cfg.max_backoff_ms {
        felt
    } else {
        cfg.max_backoff_ms as int
    }
}

/// What to do after a failed attempt.
#[derive(Debug)]
pub enum RetryStep {
    /// Pause for so many milliseconds, then try again.
    Wait(u64),
    /// Give up with this error.
    Fail(DetectorError),
}

/// The course of an action that is tried again when it fails.
#[derive(Clone, Copy, Debug)]
pub struct Retry {
    pub cfg: RetryConfig,
    /// Attempts that have failed.
    pub failed: usize,
    /// The pause before the next attempt.
    pub backoff_ms: u64,
}

impl Retry {
    /// There is an attempt left, and the pause keeps to the cap.
    pub open spec fn wf(self) -> bool {
        &&& self.cfg.backoff_multiplier.wf()
        &&& self.failed < allowed_attempts(self.cfg)
        &&& self.backoff_ms <= self.cfg.max_backoff_ms
    }

    pub fn new(cfg: RetryConfig) -> (r: Self)
        requires
            cfg.backoff_multiplier.wf(),
        ensures
            r.wf(),
            r.cfg == cfg,
            r.failed == 0,
            r.backoff_ms == first_backoff(cfg),
    {
        let backoff_ms: u64 = if cfg.initial_backoff_ms < cfg.max_backoff_ms {
            cfg.initial_backoff_ms
        } else {
            cfg.max_backoff_ms
        };
        Retry { cfg, failed: 0, backoff_ms }
    }

    /// Takes the failure of an attempt. The last attempt and an error that does not
    /// deserve another try end the course; an error that follows an earlier failure is
    /// then wrapped with the number of attempts.
    pub fn on_error(&mut self, e: DetectorError) -> (r: RetryStep)
        requires
            old(self).wf(),
        ensures
            final(self).cfg == old(self).cfg,
            final(self).failed == old(self).failed + 1,
            match r {
                RetryStep::Wait(ms) => {
                    &&& is_retryable(e)
                    &&& final(self).wf()
                    &&& ms == old(self).backoff_ms
                    &&& ms <= old(self).cfg.max_backoff_ms
                    &&& final(self).backoff_ms == next_backoff(
                        old(self).cfg,
                        old(self).backoff_ms as int,
                    )
                },
                RetryStep::Fail(f) => {
                    &&& final(self).backoff_ms == old(self).backoff_ms
                    &&& old(self).failed + 1 >= allowed_attempts(old(self).cfg) || !is_retryable(e)
                    &&& if old(self).failed == 0 {
                        f == e
                    } else {
                        f == (DetectorError::RetriesExceeded {
                            source: Box::new(e),
                            attempts: (old(self).failed + 1) as usize,
                        })
                    }
                },
            },
    {
        let allowed: usize = if self.cfg.max_attempts == 0 {
            1
        } else {
            self.cfg.max_attempts
        };
        self.failed = self.failed + 1;
        if self.failed >= allowed || !is_retryable_error(&e) {
            if self.failed > 1 {
                return RetryStep::Fail(
                    DetectorError::RetriesExceeded { source: Box::new(e), attempts: self.failed },
                );
            }
            return RetryStep::Fail(e);
        }
        let ms: u64 = self.backoff_ms;
        proof {
            assert(ms * self.cfg.backoff_multiplier.numer <= 0xffff_ffff_ffff_ffff * 0xffff_ffff)
                by (nonlinear_arith)
                requires
                    ms <= 0xffff_ffff_ffff_ffff,
                    self.cfg.backoff_multiplier.numer <= 0xffff_ffff,
            ;
        }
        let grown: u128 = (ms as u128 * self.cfg.backoff_multiplier.numer as u128) / (
        self.cfg.backoff_multiplier.denom as u128);
        let felt: u128 = if grown < 1 {
            1
        } else {
            grown
        };
        self.backoff_ms = if felt < self.cfg.max_backoff_ms as u128 {
            felt as u64
        } else {
            self.cfg.max_backoff_ms
        };
        RetryStep::Wait(ms)
    }
}

/// Whether a course goes on after its next attempt fails.
pub open spec fn goes_on(cfg: RetryConfig, failed: int, retryable: bool) -> bool {
    failed + 1 < allowed_attempts(cfg) && retryable
}

/// The `i`-th failure deserves another try.
pub open spec fn deserves(retryable: spec_fn(int) -> bool, i: int) -> bool {
    retryable(i)
}

/// The attempts made where every one of them fails and `retryable` tells which of the
/// failures deserve another try, counted from 0; `failed` of them have been made.
pub open spec fn attempts_made(cfg: RetryConfig, retryable: spec_fn(int) -> bool, failed: int) -> int
    decreases allowed_attempts(cfg) - failed,
{
    if goes_on(cfg, failed, deserves(retryable, failed)) {
        attempts_made(cfg, retryable, failed + 1)
    } else {
        failed + 1
    }
}

/// No more attempts are made than the configuration allows, and at least one; all of
/// them are made where every failure deserves another try, and only one where the
/// first does not.
pub proof fn law_attempts(cfg: RetryConfig, retryable: spec_fn(int) -> bool)
    ensures
        1 <= attempts_made(cfg, retryable, 0) <= allowed_attempts(cfg),
        (forall|i: int| deserves(retryable, i)) ==> attempts_made(cfg, retryable, 0) == allowed_attempts(cfg),
        !deserves(retryable, 0) ==> attempts_made(cfg, retryable, 0) == 1,
{
    lemma_attempts(cfg, retryable, 0);
}

proof fn lemma_attempts(cfg: RetryConfig, retryable: spec_fn(int) -> bool, failed: int)
    requires
        0 <= failed < allowed_attempts(cfg),
    ensures
        failed < attempts_made(cfg, retryable, failed) <= allowed_attempts(cfg),
        (forall|i: int| deserves(retryable, i)) ==> attempts_made(cfg, retryable, failed)
            == allowed_attempts(cfg),
    decreases allowed_attempts(cfg) - failed,
{
    if goes_on(cfg, failed, deserves(retryable, failed)) {
        lemma_attempts(cfg, retryable, failed + 1);
    }
}

/// Which errors deserve another try. Those of input and output do by their kind or by the number
/// of the operating system; those of the network where they are time-outs, tell of a failure of
/// the server, have such a cause on the way to the server, or say so; those of HTTP and TLS by
/// what their message says; and those of attempts that were given up as the last of them does.
/// Faults of the input and of data never do.
pub proof fn law_errors_worth_another_try(
    e: DetectorError,
    io: IoError,
    m: String,
    network: NetworkError,
    source: Box<DetectorError>,
    attempts: usize,
)
    ensures
        is_retryable(DetectorError::Io(io)) <==> is_retryable(DetectorError::NetworkIo(io)),
        is_retryable(DetectorError::Io(io)) <==> (io.kind is TimedOut || io.kind is WouldBlock
            || io.kind is BrokenPipe || io.kind is Interrupted || io.kind is ConnectionRefused
            || io.kind is ConnectionReset || io.kind is AddrNotAvailable || io.raw_os_error == Some(
            60i32,
        ) || io.raw_os_error == Some(104i32) || io.raw_os_error == Some(61i32) || io.raw_os_error
            == Some(98i32) || io.raw_os_error == Some(99i32) || io.raw_os_error == Some(107i32)
            || io.raw_os_error == Some(32i32) || io.raw_os_error == Some(4i32)),
        network.is_timeout ==> is_retryable(DetectorError::Network(network)),
        network.status is Some && 500 <= network.status->0 < 600 ==> is_retryable(
            DetectorError::Network(network),
        ),
        is_retryable(DetectorError::Network(network)) <==> (network.is_timeout || (
        network.status is Some && 500 <= network.status->0 < 600) || ((network.is_connect
            || network.is_request) && exists|i: int|
            0 <= i < network.io_causes@.len() && is_retryable(
                DetectorError::Io(#[trigger] network.io_causes@[i]),
            )) || text::contains(network.message@, "connection reset"@) || text::contains(
            network.message@,
            "broken pipe"@,
        ) || text::contains(network.message@, "Connection refused"@) || text::contains(
            network.message@,
            "timed out"@,
        ) || text::contains(network.message@, "timeout"@)),
        text::contains(m@, "timed out"@) || text::contains(m@, "timeout"@) || text::contains(
            m@,
            "connection reset"@,
        ) || text::contains(m@, "broken pipe"@) || text::contains(m@, "Connection refused"@)
            ==> is_retryable(DetectorError::Http(m)),
        is_retryable(DetectorError::Http(m)) ==> text::contains(m@, "timed out"@) || text::contains(
            m@,
            "timeout"@,
        ) || text::contains(m@, "connection reset"@) || text::contains(m@, "broken pipe"@)
            || text::contains(m@, "Connection refused"@) || text::contains(m@, "HTTP 5"@),
        is_retryable(DetectorError::Tls(m)) <==> (text::contains(m@, "connection reset"@)
            || text::contains(m@, "timed out"@) || text::contains(m@, "broken pipe"@)
            || text::contains(m@, "Connection refused"@)),
        is_retryable(DetectorError::RetriesExceeded { source, attempts }) <==> is_retryable(*source),
        e is InvalidTarget || e is InvalidIp || e is InvalidPort || e is Json || e is Csv || e
            is DataSource ==> !is_retryable(e),
{
    assert forall|i: int| 0 <= i < network.io_causes@.len() implies (is_transient_io(
        #[trigger] network.io_causes@[i],
    ) <==> is_retryable(DetectorError::Io(network.io_causes@[i]))) by {}
    if tells_server_error(m@) {
        let i = choose|i: int| #[trigger] names_server_error(m@, i);
        reveal_strlit("HTTP 5");
        assert(m@.subrange(i, i + 6) =~= "HTTP 5"@);
        assert(text::occurs_at(m@, "HTTP 5"@, i));
    }
    if text::contains(m@, "speedtest timed out"@) {
        let i = choose|i: int| text::occurs_at(m@, "speedtest timed out"@, i);
        reveal_strlit("speedtest timed out");
        reveal_strlit("timed out");
        let t = m@.subrange(i, i + 19);
        assert forall|j: int| 0 <= j < 9 implies m@.subrange(i + 10, i + 19)[j] == "timed out"@[j] by {
            assert(m@.subrange(i + 10, i + 19)[j] == t[j + 10]);
        }
        assert(m@.subrange(i + 10, i + 19) =~= "timed out"@);
        assert(text::occurs_at(m@, "timed out"@, i + 10));
    }
}

/// A message that ends with an HTTP status tells of a failure of the server exactly where the
/// status lies from 500 to 599.
pub proof fn law_status_tells_server_failure(told: Seq<char>, status: u16)
    requires
        100 <= status < 1000,
        !told.contains('H'),
    ensures
        tells_server_error(told + "HTTP "@ + numeral::decimal(status as nat)) <==> 500 <= status
            < 600,
{
    reveal_strlit("HTTP ");
    reveal_with_fuel(numeral::numeral, 3);
    let n = status as nat;
    let d = numeral::decimal(n);
    assert(d =~= seq![
        numeral::digit_char((n / 10 / 10) as int),
        numeral::digit_char((n / 10 % 10) as int),
        numeral::digit_char((n % 10) as int),
    ]);
    let m = told + "HTTP "@ + d;
    let k = told.len() as int;
    if 500 <= status < 600 {
        assert(names_server_error(m, k));
    }
    if tells_server_error(m) {
        let i = choose|i: int| #[trigger] names_server_error(m, i);
        if i < k {
            assert(m[i] == told[i]);
            assert(told.contains(told[i]));
        } else if i > k {
            assert(m.len() == k + 8);
        }
        assert(m[k + 5] == d[0]);
    }
}

/// Each pause is the one before it times the factor, rounded down, but at least one and never
/// more than the cap; the first is the configured one, up to the cap.
pub proof fn law_pauses_grow_up_to_the_cap(cfg: RetryConfig, ms: u64)
    requires
        cfg.backoff_multiplier.denom > 0,
    ensures
        ({
            let (a, b) = (
                cfg.backoff_multiplier.numer as int,
                cfg.backoff_multiplier.denom as int,
            );
            let next = next_backoff(cfg, ms as int);
            &&& next <= cfg.max_backoff_ms
            &&& cfg.max_backoff_ms >= 1 ==> next >= 1
            &&& next < cfg.max_backoff_ms && next > 1 ==> next * b <= ms * a < (next + 1) * b
            &&& next == cfg.max_backoff_ms && next > 1 ==> next * b <= ms * a
            &&& next == 1 && cfg.max_backoff_ms > 1 ==> ms * a < 2 * b
            &&& a >= b && ms <= cfg.max_backoff_ms ==> next >= ms
        }),
        cfg.initial_backoff_ms <= cfg.max_backoff_ms ==> first_backoff(cfg)
            == cfg.initial_backoff_ms,
        cfg.initial_backoff_ms > cfg.max_backoff_ms ==> first_backoff(cfg) == cfg.max_backoff_ms,
{
    let (a, b) = (cfg.backoff_multiplier.numer as int, cfg.backoff_multiplier.denom as int);
    let x = ms * a;
    let q = x / b;
    assert(q * b <= x < (q + 1) * b) by (nonlinear_arith)
        requires
            q == x / b,
            b > 0,
    ;
    assert(x == ms * cfg.backoff_multiplier.numer);
    let cap = cfg.max_backoff_ms as int;
    assert(cap <= q ==> cap * b <= q * b) by (nonlinear_arith)
        requires
            b > 0,
    ;
    assert(q <= 1 ==> (q + 1) * b <= 2 * b) by (nonlinear_arith)
        requires
            b > 0,
    ;
    if a >= b {
        assert(q >= ms) by (nonlinear_arith)
            requires
                x == ms * a,
                a >= b,
                b > 0,
                x < (q + 1) * b,
                ms >= 0,
        ;
    }
}

/// As many attempts are allowed as the configuration says, and at least one.
pub proof fn law_allowed_attempts(cfg: RetryConfig, retryable: spec_fn(int) -> bool)
    ensures
        allowed_attempts(cfg) == (if cfg.max_attempts == 0 {
            1
        } else {
            cfg.max_attempts as int
        }),
        (forall|i: int| deserves(retryable, i)) && cfg.max_attempts > 0 ==> attempts_made(
            cfg,
            retryable,
            0,
        ) == cfg.max_attempts,
{
    law_attempts(cfg, retryable);
}

/// The text of an error names its kind, and then tells what went wrong; that of retries in vain
/// ends with the text of the last error.
pub proof fn law_error_texts(s: String, port: u16, last: Box<DetectorError>, attempts: usize)
    ensures
        DetectorError::InvalidTarget(s).show() == "invalid target: "@ + s@,
        DetectorError::InvalidIp(s).show() == "invalid IP address: "@ + s@,
        DetectorError::InvalidPort(port).show() == "invalid port: "@ + numeral::decimal(port as nat),
        DetectorError::Tls(s).show() == "TLS error: "@ + s@,
        DetectorError::Json(s).show() == "JSON error: "@ + s@,
        DetectorError::Csv(s).show() == "CSV error: "@ + s@,
        DetectorError::Http(s).show() == "HTTP error: "@ + s@,
        DetectorError::DataSource(s).show() == "data source error: "@ + s@,
        (DetectorError::RetriesExceeded { source: last, attempts }).show()
            == "retries exceeded after "@ + numeral::decimal(attempts as nat) + " attempts: "@
            + last.show(),
{
    reveal_with_fuel(DetectorError::show, 2);
}

/// By default three attempts are made, the first pause takes 50 milliseconds, each further one
/// twice as long, and none more than a second.
pub proof fn law_default_retry()
    ensures
        default_retry().max_attempts == 3,
        default_retry().initial_backoff_ms == 50,
        default_retry().max_backoff_ms == 1_000,
        default_retry().backoff_multiplier.numer == 2 * default_retry().backoff_multiplier.denom,
        default_retry().backoff_multiplier.denom > 0,
{
}

} // verus!
