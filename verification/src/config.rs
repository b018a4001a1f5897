//! Settings: their defaults, and how those of the command line, of the environment and of
//! a file go together.

use vstd::prelude::*;

use crate::connector::PinnedClientConfig;
use crate::detector::{AdaptiveConfig, DetectorConfig};
use crate::error;
use crate::governor;
use crate::input;
use crate::masscan::{MasscanConfig, MasscanScanner};
use crate::masscan_pipeline::PipelineOptions;
use crate::numeral;
use crate::speedtest::SpeedTestConfig;
use crate::text;
use crate::time::Duration;

verus! {

/// The forms that results are written in.
#[derive(Clone, Copy, Debug, PartialEq, Eq, Structural)]
pub enum OutputFormat {
    Txt,
    Csv,
    Json,
}

/// The form that a word stands for, whatever the case of its letters.
pub open spec fn format_named(s: Seq<char>) -> Option<OutputFormat> {
    let l = text::lower(s);
    if l == "txt"@ || l == "text"@ {
        Some(OutputFormat::Txt)
    } else if l == "csv"@ {
        Some(OutputFormat::Csv)
    } else if l == "json"@ || l == "j"@ {
        Some(OutputFormat::Json)
    } else {
        None
    }
}

impl OutputFormat {
    /// Reads the word for a form; the error names the word that is none.
    pub fn parse(s: &str) -> (r: Result<Self, String>)
        ensures
            match r {
                Ok(f) => format_named(s@) == Some(f),
                Err(e) => format_named(s@) is None && e@ == "unknown format: "@ + text::lower(s@)
                    + ", expected txt|csv|json"@,
            },
    {
        let cs = text::to_chars(s);
        let l = text::to_lower(&cs);
        if text::is_str(&l, "txt") || text::is_str(&l, "text") {
            Ok(OutputFormat::Txt)
        } else if text::is_str(&l, "csv") {
            Ok(OutputFormat::Csv)
        } else if text::is_str(&l, "json") || text::is_str(&l, "j") {
            Ok(OutputFormat::Json)
        } else {
            let mut e = text::owned("unknown format: ");
            let w = text::from_chars(&l);
            e.append(w.as_str());
            e.append(", expected txt|csv|json");
            Err(e)
        }
    }
}

/// All settings.
#[derive(Clone, Debug)]
pub struct ConfigFile {
    /// The name to ask for.
    pub domain: Option<String>,
    /// The file to read targets from.
    pub input: Option<String>,
    /// The file to write to.
    pub output: Option<String>,
    pub format: Option<OutputFormat>,
    /// Targets given one by one.
    pub targets: Vec<String>,
    pub concurrency: usize,
    pub adaptive: bool,
    /// The least probes at a time in adaptive mode.
    pub a_min: usize,
    /// The most probes at a time in adaptive mode.
    pub a_max: usize,
    /// The probes at a time that adaptive mode starts with.
    pub a_initial: usize,
    /// The latest probes whose success counts in adaptive mode.
    pub a_window: usize,
    pub progress: bool,
    pub speedtest: bool,
    pub speedtest_url_path: String,
    pub speedtest_threads: usize,
    pub speedtest_timeout_secs: u64,
    pub speedtest_concurrency: usize,
    /// One target only, without a batch.
    pub fast: bool,
    pub probe_timeout_secs: u64,
    pub governor_report: bool,
    pub no_governor: bool,
    pub tls_session_cache: usize,
    pub speedtest_0rtt: bool,
    pub speedtest_only: bool,
    pub bench: bool,
    pub bench_quick: bool,
    /// How long probes may go on after a shutdown was asked for.
    pub grace_seconds: u64,
}

pub fn cf_concurrency() -> (r: usize)
    ensures
        r == 10,
{
    10
}

pub fn cf_a_min() -> (r: usize)
    ensures
        r == 1,
{
    1
}

pub fn cf_a_max() -> (r: usize)
    ensures
        r == 128,
{
    128
}

pub fn cf_a_initial() -> (r: usize)
    ensures
        r == 16,
{
    16
}

pub fn cf_a_window() -> (r: usize)
    ensures
        r == 10,
{
    10
}

pub fn cf_speedtest_threads() -> (r: usize)
    ensures
        r == 3,
{
    3
}

pub fn cf_speedtest_timeout_secs() -> (r: u64)
    ensures
        r == 5,
{
    5
}

pub fn cf_speedtest_concurrency() -> (r: usize)
    ensures
        r == 8,
{
    8
}

pub fn cf_probe_timeout_secs() -> (r: u64)
    ensures
        r == 3,
{
    3
}

pub fn cf_tls_session_cache() -> (r: usize)
    ensures
        r == 256,
{
    256
}

pub fn cf_grace_seconds() -> (r: u64)
    ensures
        r == 30,
{
    30
}

pub fn cf_speedtest_url_path() -> (r: String)
    ensures
        r@ == "/cdn-cgi/trace"@,
{
    text::owned("/cdn-cgi/trace")
}

impl Default for ConfigFile {
    fn default() -> (r: Self)
        ensures
            r.domain is None,
            r.input is None,
            r.output is None,
            r.format is None,
            r.targets@ == Seq::<String>::empty(),
            r.concurrency == 10,
            !r.adaptive,
            r.a_min == 1,
            r.a_max == 128,
            r.a_initial == 16,
            r.a_window == 10,
            !r.progress,
            !r.speedtest,
            r.speedtest_url_path@ == "/cdn-cgi/trace"@,
            r.speedtest_threads == 3,
            r.speedtest_timeout_secs == 5,
            r.speedtest_concurrency == 8,
            !r.fast,
            r.probe_timeout_secs == 3,
            !r.governor_report,
            !r.no_governor,
            r.tls_session_cache == 256,
            !r.speedtest_0rtt,
            !r.speedtest_only,
            !r.bench,
            !r.bench_quick,
            r.grace_seconds == 30,
    {
        ConfigFile {
            domain: None,
            input: None,
            output: None,
            format: None,
            targets: Vec::new(),
            concurrency: cf_concurrency(),
            adaptive: false,
            a_min: cf_a_min(),
            a_max: cf_a_max(),
            a_initial: cf_a_initial(),
            a_window: cf_a_window(),
            progress: false,
            speedtest: false,
            speedtest_url_path: cf_speedtest_url_path(),
            speedtest_threads: cf_speedtest_threads(),
            speedtest_timeout_secs: cf_speedtest_timeout_secs(),
            speedtest_concurrency: cf_speedtest_concurrency(),
            fast: false,
            probe_timeout_secs: cf_probe_timeout_secs(),
            governor_report: false,
            no_governor: false,
            tls_session_cache: cf_tls_session_cache(),
            speedtest_0rtt: false,
            speedtest_only: false,
            bench: false,
            bench_quick: false,
            grace_seconds: cf_grace_seconds(),
        }
    }
}

// ---------------------------------------------------------------------------
// What the command line gives

/// What the command line gives for every command. A value that is not given is none.
#[derive(Clone, Debug)]
pub struct GlobalArgs {
    pub config: Option<String>,
    pub grace_seconds: Option<u64>,
}

/// What the command line gives for a detection. A value that is not given is none.
#[derive(Clone, Debug)]
pub struct DetectArgs {
    pub domain: Option<String>,
    pub input: Option<String>,
    pub output: Option<String>,
    pub format: Option<OutputFormat>,
    pub concurrency: Option<usize>,
    pub adaptive: bool,
    pub a_min: Option<usize>,
    pub a_max: Option<usize>,
    pub a_initial: Option<usize>,
    pub a_window: Option<usize>,
    pub progress: bool,
    pub fast: bool,
    pub probe_timeout_secs: Option<u64>,
    pub bench: bool,
    pub bench_quick: bool,
    pub governor_report: bool,
    pub no_governor: bool,
    pub tls_session_cache: Option<usize>,
    pub speedtest: bool,
    pub speedtest_url_path: Option<String>,
    pub speedtest_threads: Option<usize>,
    pub speedtest_timeout_secs: Option<u64>,
    pub speedtest_concurrency: Option<usize>,
    pub enable_0rtt: bool,
    pub targets: Vec<String>,
}

/// What the command line gives for a speed test. A value that is not given is none.
#[derive(Clone, Debug)]
pub struct SpeedTestArgs {
    pub domain: Option<String>,
    pub input: Option<String>,
    pub output: Option<String>,
    pub format: Option<OutputFormat>,
    pub url_path: Option<String>,
    pub threads: Option<usize>,
    pub timeout_secs: Option<u64>,
    pub concurrency: Option<usize>,
    pub enable_0rtt: bool,
    pub tls_session_cache: Option<usize>,
    pub progress: bool,
    pub targets: Vec<String>,
}

/// What the command line gives for the detection after a scan. A value that is not given
/// is none.
#[derive(Clone, Debug)]
pub struct ScanDetectArgs {
    pub domain: Option<String>,
    pub concurrency: Option<usize>,
    pub adaptive: bool,
    pub a_min: Option<usize>,
    pub a_max: Option<usize>,
    pub a_initial: Option<usize>,
    pub a_window: Option<usize>,
    pub progress: bool,
    pub probe_timeout_secs: Option<u64>,
    pub governor_report: bool,
    pub no_governor: bool,
    pub tls_session_cache: Option<usize>,
}

/// What the command line gives for the speed test after a scan. A value that is not given
/// is none.
#[derive(Clone, Debug)]
pub struct ScanSpeedTestArgs {
    pub enabled: bool,
    pub threads: Option<usize>,
    pub url_path: Option<String>,
    pub timeout_secs: Option<u64>,
    pub speedtest_concurrency: Option<usize>,
}

/// The settings of the scan itself.
#[derive(Clone, Debug)]
pub struct ScanEngineArgs {
    pub interface: Option<String>,
    pub rate: u64,
    pub wait_seconds: u64,
    pub masscan_binary: Option<String>,
    pub asn_cache_dir: String,
    pub iface_setting_file: String,
    pub output_dir: String,
}

/// A value of the command line, or else the one that is there already.
pub open spec fn given_or<T>(given: Option<T>, there: T) -> T {
    match given {
        Some(x) => x,
        None => there,
    }
}

fn choose_or<T>(given: Option<T>, there: T) -> (r: T)
    ensures
        r == given_or(given, there),
{
    match given {
        Some(x) => x,
        None => there,
    }
}

/// An optional value of the command line, or else what is there already.
pub open spec fn opt_or<T>(given: Option<T>, there: Option<T>) -> Option<T> {
    match given {
        Some(x) => Some(x),
        None => there,
    }
}

fn choose_opt<T>(given: Option<T>, there: Option<T>) -> (r: Option<T>)
    ensures
        r == opt_or(given, there),
{
    match given {
        Some(x) => Some(x),
        None => there,
    }
}

/// The targets: those of the command line, behind those of the file where there is one.
pub open spec fn all_targets(
    has_file: bool,
    listed: Seq<String>,
    given: Seq<String>,
) -> Seq<String> {
    if has_file {
        listed + given
    } else {
        given
    }
}

fn join_targets(has_file: bool, listed: Vec<String>, given: Vec<String>) -> (r: Vec<String>)
    ensures
        r@ == all_targets(has_file, listed@, given@),
{
    if has_file {
        let mut all = listed;
        let mut rest = given;
        all.append(&mut rest);
        all
    } else {
        given
    }
}

/// Whether `r` holds the settings of a detection: what the command line gives, or else what
/// `base` holds. Switches that are on stay on.
pub open spec fn is_detect_merge(r: ConfigFile, base: ConfigFile, global: GlobalArgs, detect: DetectArgs) -> bool {
    &&& r.domain == opt_or(detect.domain, base.domain)
    &&& r.input == opt_or(detect.input, base.input)
    &&& r.output == opt_or(detect.output, base.output)
    &&& r.format == opt_or(detect.format, base.format)
    &&& r.targets@ == all_targets(global.config is Some, base.targets@, detect.targets@)
    &&& r.concurrency == given_or(detect.concurrency, base.concurrency)
    &&& r.adaptive == (base.adaptive || detect.adaptive)
    &&& r.a_min == given_or(detect.a_min, base.a_min)
    &&& r.a_max == given_or(detect.a_max, base.a_max)
    &&& r.a_initial == given_or(detect.a_initial, base.a_initial)
    &&& r.a_window == given_or(detect.a_window, base.a_window)
    &&& r.progress == (base.progress || detect.progress)
    &&& r.speedtest == (base.speedtest || detect.speedtest)
    &&& r.speedtest_url_path == given_or(detect.speedtest_url_path, base.speedtest_url_path)
    &&& r.speedtest_threads == given_or(detect.speedtest_threads, base.speedtest_threads)
    &&& r.speedtest_timeout_secs == given_or(detect.speedtest_timeout_secs, base.speedtest_timeout_secs)
    &&& r.speedtest_concurrency == given_or(detect.speedtest_concurrency, base.speedtest_concurrency)
    &&& r.fast == (base.fast || detect.fast)
    &&& r.probe_timeout_secs == given_or(detect.probe_timeout_secs, base.probe_timeout_secs)
    &&& r.governor_report == (base.governor_report || detect.governor_report)
    &&& r.no_governor == (base.no_governor || detect.no_governor)
    &&& r.tls_session_cache == given_or(detect.tls_session_cache, base.tls_session_cache)
    &&& r.speedtest_0rtt == (base.speedtest_0rtt || detect.enable_0rtt)
    &&& r.speedtest_only == base.speedtest_only
    &&& r.bench == (base.bench || detect.bench)
    &&& r.bench_quick == (base.bench_quick || detect.bench_quick)
    &&& r.grace_seconds == given_or(global.grace_seconds, base.grace_seconds)
}

/// The settings of a detection: what the command line gives goes before what `base` holds, the
/// settings of the environment, of a file and the defaults in that order. Switches that are
/// on stay on.
pub fn merge_config(base: ConfigFile, global: &GlobalArgs, detect: DetectArgs) -> (r: ConfigFile)
    ensures
        is_detect_merge(r, base, *global, detect),
{
    ConfigFile {
        domain: choose_opt(detect.domain, base.domain),
        input: choose_opt(detect.input, base.input),
        output: choose_opt(detect.output, base.output),
        format: choose_opt(detect.format, base.format),
        targets: join_targets(global.config.is_some(), base.targets, detect.targets),
        concurrency: choose_or(detect.concurrency, base.concurrency),
        adaptive: base.adaptive || detect.adaptive,
        a_min: choose_or(detect.a_min, base.a_min),
        a_max: choose_or(detect.a_max, base.a_max),
        a_initial: choose_or(detect.a_initial, base.a_initial),
        a_window: choose_or(detect.a_window, base.a_window),
        progress: base.progress || detect.progress,
        speedtest: base.speedtest || detect.speedtest,
        speedtest_url_path: choose_or(detect.speedtest_url_path, base.speedtest_url_path),
        speedtest_threads: choose_or(detect.speedtest_threads, base.speedtest_threads),
        speedtest_timeout_secs: choose_or(detect.speedtest_timeout_secs, base.speedtest_timeout_secs),
        speedtest_concurrency: choose_or(detect.speedtest_concurrency, base.speedtest_concurrency),
        fast: base.fast || detect.fast,
        probe_timeout_secs: choose_or(detect.probe_timeout_secs, base.probe_timeout_secs),
        governor_report: base.governor_report || detect.governor_report,
        no_governor: base.no_governor || detect.no_governor,
        tls_session_cache: choose_or(detect.tls_session_cache, base.tls_session_cache),
        speedtest_0rtt: base.speedtest_0rtt || detect.enable_0rtt,
        speedtest_only: base.speedtest_only,
        bench: base.bench || detect.bench,
        bench_quick: base.bench_quick || detect.bench_quick,
        grace_seconds: choose_or(global.grace_seconds, base.grace_seconds),
    }
}

/// Whether `r` holds the settings of a speed test: what the command line gives, or else what
/// `base` holds.
pub open spec fn is_speed_merge(r: ConfigFile, base: ConfigFile, global: GlobalArgs, st: SpeedTestArgs) -> bool {
    &&& r.domain == opt_or(st.domain, base.domain)
    &&& r.input == opt_or(st.input, base.input)
    &&& r.output == opt_or(st.output, base.output)
    &&& r.format == opt_or(st.format, base.format)
    &&& r.targets@ == all_targets(global.config is Some, base.targets@, st.targets@)
    &&& r.concurrency == base.concurrency
    &&& r.adaptive == base.adaptive
    &&& r.a_min == base.a_min
    &&& r.a_max == base.a_max
    &&& r.a_initial == base.a_initial
    &&& r.a_window == base.a_window
    &&& r.progress == (base.progress || st.progress)
    &&& r.speedtest
    &&& r.speedtest_url_path == given_or(st.url_path, base.speedtest_url_path)
    &&& r.speedtest_threads == given_or(st.threads, base.speedtest_threads)
    &&& r.speedtest_timeout_secs == given_or(st.timeout_secs, base.speedtest_timeout_secs)
    &&& r.speedtest_concurrency == given_or(st.concurrency, base.speedtest_concurrency)
    &&& r.fast == base.fast
    &&& r.probe_timeout_secs == base.probe_timeout_secs
    &&& r.governor_report == base.governor_report
    &&& r.no_governor == base.no_governor
    &&& r.tls_session_cache == given_or(st.tls_session_cache, base.tls_session_cache)
    &&& r.speedtest_0rtt == (base.speedtest_0rtt || st.enable_0rtt)
    &&& r.speedtest_only
    &&& r.bench == base.bench
    &&& r.bench_quick == base.bench_quick
    &&& r.grace_seconds == given_or(global.grace_seconds, base.grace_seconds)
}

/// The settings of a speed test: what the command line gives goes before what `base` holds.
pub fn merge_speedtest_config(base: ConfigFile, global: &GlobalArgs, st: SpeedTestArgs) -> (r: ConfigFile)
    ensures
        is_speed_merge(r, base, *global, st),
{
    ConfigFile {
        domain: choose_opt(st.domain, base.domain),
        input: choose_opt(st.input, base.input),
        output: choose_opt(st.output, base.output),
        format: choose_opt(st.format, base.format),
        targets: join_targets(global.config.is_some(), base.targets, st.targets),
        concurrency: base.concurrency,
        adaptive: base.adaptive,
        a_min: base.a_min,
        a_max: base.a_max,
        a_initial: base.a_initial,
        a_window: base.a_window,
        progress: base.progress || st.progress,
        speedtest: true,
        speedtest_url_path: choose_or(st.url_path, base.speedtest_url_path),
        speedtest_threads: choose_or(st.threads, base.speedtest_threads),
        speedtest_timeout_secs: choose_or(st.timeout_secs, base.speedtest_timeout_secs),
        speedtest_concurrency: choose_or(st.concurrency, base.speedtest_concurrency),
        fast: base.fast,
        probe_timeout_secs: base.probe_timeout_secs,
        governor_report: base.governor_report,
        no_governor: base.no_governor,
        tls_session_cache: choose_or(st.tls_session_cache, base.tls_session_cache),
        speedtest_0rtt: base.speedtest_0rtt || st.enable_0rtt,
        speedtest_only: true,
        bench: base.bench,
        bench_quick: base.bench_quick,
        grace_seconds: choose_or(global.grace_seconds, base.grace_seconds),
    }
}

/// The settings of the detection after a scan, without those of its speed test.
pub fn merge_scan_detect(base: ConfigFile, global: &GlobalArgs, detect: ScanDetectArgs) -> (r: ConfigFile)
    ensures
        r.domain == opt_or(detect.domain, base.domain),
        r.input == base.input,
        r.output == base.output,
        r.format == base.format,
        r.targets == base.targets,
        r.concurrency == given_or(detect.concurrency, base.concurrency),
        r.adaptive == (base.adaptive || detect.adaptive),
        r.a_min == given_or(detect.a_min, base.a_min),
        r.a_max == given_or(detect.a_max, base.a_max),
        r.a_initial == given_or(detect.a_initial, base.a_initial),
        r.a_window == given_or(detect.a_window, base.a_window),
        r.progress == (base.progress || detect.progress),
        r.speedtest == base.speedtest,
        r.speedtest_url_path == base.speedtest_url_path,
        r.speedtest_threads == base.speedtest_threads,
        r.speedtest_timeout_secs == base.speedtest_timeout_secs,
        r.speedtest_concurrency == base.speedtest_concurrency,
        r.fast == base.fast,
        r.probe_timeout_secs == given_or(detect.probe_timeout_secs, base.probe_timeout_secs),
        r.governor_report == (base.governor_report || detect.governor_report),
        r.no_governor == (base.no_governor || detect.no_governor),
        r.tls_session_cache == given_or(detect.tls_session_cache, base.tls_session_cache),
        r.speedtest_0rtt == base.speedtest_0rtt,
        r.speedtest_only == base.speedtest_only,
        r.bench == base.bench,
        r.bench_quick == base.bench_quick,
        r.grace_seconds == given_or(global.grace_seconds, base.grace_seconds),
{
    ConfigFile {
        domain: choose_opt(detect.domain, base.domain),
        input: base.input,
        output: base.output,
        format: base.format,
        targets: base.targets,
        concurrency: choose_or(detect.concurrency, base.concurrency),
        adaptive: base.adaptive || detect.adaptive,
        a_min: choose_or(detect.a_min, base.a_min),
        a_max: choose_or(detect.a_max, base.a_max),
        a_initial: choose_or(detect.a_initial, base.a_initial),
        a_window: choose_or(detect.a_window, base.a_window),
        progress: base.progress || detect.progress,
        speedtest: base.speedtest,
        speedtest_url_path: base.speedtest_url_path,
        speedtest_threads: base.speedtest_threads,
        speedtest_timeout_secs: base.speedtest_timeout_secs,
        speedtest_concurrency: base.speedtest_concurrency,
        fast: base.fast,
        probe_timeout_secs: choose_or(detect.probe_timeout_secs, base.probe_timeout_secs),
        governor_report: base.governor_report || detect.governor_report,
        no_governor: base.no_governor || detect.no_governor,
        tls_session_cache: choose_or(detect.tls_session_cache, base.tls_session_cache),
        speedtest_0rtt: base.speedtest_0rtt,
        speedtest_only: base.speedtest_only,
        bench: base.bench,
        bench_quick: base.bench_quick,
        grace_seconds: choose_or(global.grace_seconds, base.grace_seconds),
    }
}

/// Whether `r` holds the settings of a scan: what the command line gives, or else what `base`
/// holds.
pub open spec fn is_scan_merge(
    r: ConfigFile,
    base: ConfigFile,
    global: GlobalArgs,
    detect: ScanDetectArgs,
    st: Option<ScanSpeedTestArgs>,
) -> bool {
    &&& r.domain == opt_or(detect.domain, base.domain)
    &&& r.input == base.input
    &&& r.output == base.output
    &&& r.format == base.format
    &&& r.targets == base.targets
    &&& r.concurrency == given_or(detect.concurrency, base.concurrency)
    &&& r.adaptive == (base.adaptive || detect.adaptive)
    &&& r.a_min == given_or(detect.a_min, base.a_min)
    &&& r.a_max == given_or(detect.a_max, base.a_max)
    &&& r.a_initial == given_or(detect.a_initial, base.a_initial)
    &&& r.a_window == given_or(detect.a_window, base.a_window)
    &&& r.progress == (base.progress || detect.progress)
    &&& r.fast == base.fast
    &&& r.probe_timeout_secs == given_or(detect.probe_timeout_secs, base.probe_timeout_secs)
    &&& r.governor_report == (base.governor_report || detect.governor_report)
    &&& r.no_governor == (base.no_governor || detect.no_governor)
    &&& r.tls_session_cache == given_or(detect.tls_session_cache, base.tls_session_cache)
    &&& r.speedtest_0rtt == base.speedtest_0rtt
    &&& r.speedtest_only == base.speedtest_only
    &&& r.bench == base.bench
    &&& r.bench_quick == base.bench_quick
    &&& r.grace_seconds == given_or(global.grace_seconds, base.grace_seconds)
    &&& match st {
        Some(s) => {
            &&& r.speedtest == (base.speedtest || s.enabled)
            &&& r.speedtest_threads == given_or(s.threads, base.speedtest_threads)
            &&& r.speedtest_timeout_secs == given_or(
                s.timeout_secs,
                base.speedtest_timeout_secs,
            )
            &&& r.speedtest_concurrency == given_or(
                s.speedtest_concurrency,
                base.speedtest_concurrency,
            )
            &&& r.speedtest_url_path == given_or(s.url_path, base.speedtest_url_path)
        },
        None => {
            &&& r.speedtest == base.speedtest
            &&& r.speedtest_threads == base.speedtest_threads
            &&& r.speedtest_timeout_secs == base.speedtest_timeout_secs
            &&& r.speedtest_concurrency == base.speedtest_concurrency
            &&& r.speedtest_url_path == base.speedtest_url_path
        },
    }
}

/// The settings of a scan: what the command line gives goes before what `base` holds.
pub fn merge_scan_config(
    base: ConfigFile,
    global: &GlobalArgs,
    detect: ScanDetectArgs,
    st: Option<ScanSpeedTestArgs>,
) -> (r: ConfigFile)
    ensures
        is_scan_merge(r, base, *global, detect, st),
{
    let mut cfg = merge_scan_detect(base, global, detect);
    if let Some(s) = st {
        cfg.speedtest = cfg.speedtest || s.enabled;
        cfg.speedtest_threads = choose_or(s.threads, cfg.speedtest_threads);
        cfg.speedtest_timeout_secs = choose_or(s.timeout_secs, cfg.speedtest_timeout_secs);
        cfg.speedtest_concurrency = choose_or(s.speedtest_concurrency, cfg.speedtest_concurrency);
        if let Some(p) = s.url_path {
            cfg.speedtest_url_path = p;
        }
    }
    cfg
}

/// A setting that the command line gives holds, whatever the other layers say; one that it
/// does not give stays as they say.
pub proof fn law_command_line_goes_first(
    r: ConfigFile,
    base: ConfigFile,
    global: GlobalArgs,
    detect: DetectArgs,
)
    requires
        is_detect_merge(r, base, global, detect),
    ensures
        r.domain == (if detect.domain is Some {
            detect.domain
        } else {
            base.domain
        }),
        r.input == (if detect.input is Some {
            detect.input
        } else {
            base.input
        }),
        r.output == (if detect.output is Some {
            detect.output
        } else {
            base.output
        }),
        r.format == (if detect.format is Some {
            detect.format
        } else {
            base.format
        }),
        detect.concurrency == Some(r.concurrency) || detect.concurrency is None && r.concurrency
            == base.concurrency,
        detect.a_min == Some(r.a_min) || detect.a_min is None && r.a_min == base.a_min,
        detect.a_max == Some(r.a_max) || detect.a_max is None && r.a_max == base.a_max,
        detect.a_initial == Some(r.a_initial) || detect.a_initial is None && r.a_initial
            == base.a_initial,
        detect.a_window == Some(r.a_window) || detect.a_window is None && r.a_window
            == base.a_window,
        detect.speedtest_url_path == Some(r.speedtest_url_path) || detect.speedtest_url_path is None
            && r.speedtest_url_path == base.speedtest_url_path,
        detect.speedtest_threads == Some(r.speedtest_threads) || detect.speedtest_threads is None
            && r.speedtest_threads == base.speedtest_threads,
        detect.speedtest_timeout_secs == Some(r.speedtest_timeout_secs)
            || detect.speedtest_timeout_secs is None && r.speedtest_timeout_secs
            == base.speedtest_timeout_secs,
        detect.speedtest_concurrency == Some(r.speedtest_concurrency)
            || detect.speedtest_concurrency is None && r.speedtest_concurrency
            == base.speedtest_concurrency,
        detect.probe_timeout_secs == Some(r.probe_timeout_secs) || detect.probe_timeout_secs is None
            && r.probe_timeout_secs == base.probe_timeout_secs,
        detect.tls_session_cache == Some(r.tls_session_cache) || detect.tls_session_cache is None
            && r.tls_session_cache == base.tls_session_cache,
        global.grace_seconds == Some(r.grace_seconds) || global.grace_seconds is None
            && r.grace_seconds == base.grace_seconds,
{
}

/// So it is with the settings of a speed test.
pub proof fn law_speedtest_command_line_goes_first(
    r: ConfigFile,
    base: ConfigFile,
    global: GlobalArgs,
    st: SpeedTestArgs,
)
    requires
        is_speed_merge(r, base, global, st),
    ensures
        r.domain == (if st.domain is Some {
            st.domain
        } else {
            base.domain
        }),
        r.input == (if st.input is Some {
            st.input
        } else {
            base.input
        }),
        r.output == (if st.output is Some {
            st.output
        } else {
            base.output
        }),
        r.format == (if st.format is Some {
            st.format
        } else {
            base.format
        }),
        st.url_path == Some(r.speedtest_url_path) || st.url_path is None && r.speedtest_url_path == base.speedtest_url_path,
        st.threads == Some(r.speedtest_threads) || st.threads is None && r.speedtest_threads == base.speedtest_threads,
        st.timeout_secs == Some(r.speedtest_timeout_secs) || st.timeout_secs is None && r.speedtest_timeout_secs == base.speedtest_timeout_secs,
        st.concurrency == Some(r.speedtest_concurrency) || st.concurrency is None && r.speedtest_concurrency == base.speedtest_concurrency,
        st.tls_session_cache == Some(r.tls_session_cache) || st.tls_session_cache is None && r.tls_session_cache == base.tls_session_cache,
        global.grace_seconds == Some(r.grace_seconds) || global.grace_seconds is None && r.grace_seconds == base.grace_seconds,
{
}

/// So it is with the settings of a scan.
pub proof fn law_scan_command_line_goes_first(
    r: ConfigFile,
    base: ConfigFile,
    global: GlobalArgs,
    detect: ScanDetectArgs,
    st: ScanSpeedTestArgs,
)
    requires
        is_scan_merge(r, base, global, detect, Some(st)),
    ensures
        r.domain == (if detect.domain is Some {
            detect.domain
        } else {
            base.domain
        }),
        detect.concurrency == Some(r.concurrency) || detect.concurrency is None && r.concurrency == base.concurrency,
        detect.a_min == Some(r.a_min) || detect.a_min is None && r.a_min == base.a_min,
        detect.a_max == Some(r.a_max) || detect.a_max is None && r.a_max == base.a_max,
        detect.a_initial == Some(r.a_initial) || detect.a_initial is None && r.a_initial == base.a_initial,
        detect.a_window == Some(r.a_window) || detect.a_window is None && r.a_window == base.a_window,
        detect.probe_timeout_secs == Some(r.probe_timeout_secs) || detect.probe_timeout_secs is None && r.probe_timeout_secs == base.probe_timeout_secs,
        detect.tls_session_cache == Some(r.tls_session_cache) || detect.tls_session_cache is None && r.tls_session_cache == base.tls_session_cache,
        st.threads == Some(r.speedtest_threads) || st.threads is None && r.speedtest_threads == base.speedtest_threads,
        st.url_path == Some(r.speedtest_url_path) || st.url_path is None && r.speedtest_url_path == base.speedtest_url_path,
        st.timeout_secs == Some(r.speedtest_timeout_secs) || st.timeout_secs is None && r.speedtest_timeout_secs == base.speedtest_timeout_secs,
        st.speedtest_concurrency == Some(r.speedtest_concurrency) || st.speedtest_concurrency is None && r.speedtest_concurrency == base.speedtest_concurrency,
        global.grace_seconds == Some(r.grace_seconds) || global.grace_seconds is None && r.grace_seconds == base.grace_seconds,
{
}

/// Settings that differ in their targets only.
pub open spec fn same_but_targets(r: ConfigFile, base: ConfigFile) -> bool {
    r == (ConfigFile { targets: r.targets, ..base })
}

/// A command line that gives no setting and turns no switch on leaves all settings as they
/// are, but for its targets.
pub proof fn law_bare_command_line_changes_nothing(
    r: ConfigFile,
    base: ConfigFile,
    global: GlobalArgs,
    detect: DetectArgs,
)
    requires
        is_detect_merge(r, base, global, detect),
        detect == (DetectArgs {
            domain: None,
            input: None,
            output: None,
            format: None,
            concurrency: None,
            adaptive: false,
            a_min: None,
            a_max: None,
            a_initial: None,
            a_window: None,
            progress: false,
            fast: false,
            probe_timeout_secs: None,
            bench: false,
            bench_quick: false,
            governor_report: false,
            no_governor: false,
            tls_session_cache: None,
            speedtest: false,
            speedtest_url_path: None,
            speedtest_threads: None,
            speedtest_timeout_secs: None,
            speedtest_concurrency: None,
            enable_0rtt: false,
            targets: detect.targets,
        }),
        global.grace_seconds is None,
    ensures
        same_but_targets(r, base),
        global.config is Some && detect.targets@.len() == 0 ==> r.targets@ == base.targets@,
        global.config is None ==> r.targets@ == detect.targets@,
{
}

/// What a file or the environment says of the scan itself. A value that is not given is
/// none.
#[derive(Clone, Debug)]
pub struct EngineConfig {
    pub interface: Option<String>,
    pub rate: Option<u64>,
    pub wait_seconds: Option<u64>,
    pub asn_cache_dir: Option<String>,
}

/// What the command line gives for the scan itself. A value that is not given is none.
#[derive(Clone, Debug)]
pub struct EngineFlags {
    pub interface: Option<String>,
    pub rate: Option<u64>,
    pub wait_seconds: Option<u64>,
    pub masscan_binary: Option<String>,
    pub asn_cache_dir: Option<String>,
    pub iface_setting_file: Option<String>,
    pub output_dir: Option<String>,
}

/// A text of the command line, or else one of the other layers, or else the default.
pub open spec fn text_or(
    given: Option<String>,
    there: Option<String>,
    default: Seq<char>,
) -> Seq<char> {
    match opt_or(given, there) {
        Some(s) => s@,
        None => default,
    }
}

fn choose_text(given: Option<String>, there: Option<String>, default: &str) -> (r: String)
    ensures
        r@ == text_or(given, there, default@),
{
    match choose_opt(given, there) {
        Some(s) => s,
        None => text::owned(default),
    }
}

/// The settings of the scan itself: what the command line gives goes before what `base` holds,
/// and that before the defaults.
pub fn merge_engine_config(base: EngineConfig, flags: EngineFlags) -> (r: ScanEngineArgs)
    ensures
        r.interface == opt_or(flags.interface, base.interface),
        r.rate == given_or(opt_or(flags.rate, base.rate), 10000),
        r.wait_seconds == given_or(opt_or(flags.wait_seconds, base.wait_seconds), 3),
        r.masscan_binary == flags.masscan_binary,
        r.asn_cache_dir@ == text_or(flags.asn_cache_dir, base.asn_cache_dir, "asn"@),
        r.iface_setting_file@ == text_or(flags.iface_setting_file, None, "setting.txt"@),
        r.output_dir@ == text_or(flags.output_dir, None, "."@),
{
    ScanEngineArgs {
        interface: choose_opt(flags.interface, base.interface),
        rate: choose_or(choose_opt(flags.rate, base.rate), 10000),
        wait_seconds: choose_or(choose_opt(flags.wait_seconds, base.wait_seconds), 3),
        masscan_binary: flags.masscan_binary,
        asn_cache_dir: choose_text(flags.asn_cache_dir, base.asn_cache_dir, "asn"),
        iface_setting_file: choose_text(flags.iface_setting_file, None, "setting.txt"),
        output_dir: choose_text(flags.output_dir, None, "."),
    }
}

// ---------------------------------------------------------------------------
// From settings to configurations

/// The scanner that the settings ask for.
pub fn build_masscan_scanner(engine: &ScanEngineArgs) -> (r: MasscanScanner)
    ensures
        text::opt_text(r.cfg.interface) == text::opt_text(engine.interface),
        r.cfg.rate == engine.rate,
        r.cfg.wait_seconds == engine.wait_seconds,
        text::opt_text(r.cfg.masscan_binary_path) == text::opt_text(engine.masscan_binary),
        r.cfg.asn_cache_dir@ == engine.asn_cache_dir@,
        r.cfg.iface_setting_file@ == engine.iface_setting_file@,
        r.cfg.user_agent@
            == "Mozilla/5.0 (Windows NT 10.0; Win64; x64) AppleWebKit/537.36 (KHTML, like Gecko) Chrome/110.0.0.0 Safari/537.36"@,
{
    let mut cfg = MasscanConfig::new();
    cfg.interface = text::clone_opt(&engine.interface);
    cfg.rate = engine.rate;
    cfg.wait_seconds = engine.wait_seconds;
    cfg.masscan_binary_path = text::clone_opt(&engine.masscan_binary);
    cfg.asn_cache_dir = engine.asn_cache_dir.clone();
    cfg.iface_setting_file = engine.iface_setting_file.clone();
    MasscanScanner::new(cfg)
}

/// The probes at a time of a pipeline: what the command line gives; where it gives nothing,
/// what the settings hold, but at least a hundred.
pub open spec fn pipeline_concurrency(given: Option<usize>, merged: usize) -> int {
    match given {
        Some(n) => n as int,
        None => governor::max(merged as int, 100),
    }
}

/// The settings of a pipeline.
pub fn build_pipeline_options(
    engine: &ScanEngineArgs,
    detect: &ScanDetectArgs,
    cfg: &ConfigFile,
    force_speedtest: bool,
) -> (r: PipelineOptions)
    ensures
        text::opt_text(r.domain) == text::opt_text(cfg.domain),
        r.concurrency == pipeline_concurrency(detect.concurrency, cfg.concurrency),
        r.speedtest == (cfg.speedtest || force_speedtest),
        r.speedtest_threads == cfg.speedtest_threads,
        r.speedtest_url_path@ == cfg.speedtest_url_path@,
        r.speedtest_concurrency == cfg.speedtest_concurrency,
        r.output_dir@ == engine.output_dir@,
        r.adaptive_min == cfg.a_min,
        r.adaptive_max == cfg.a_max,
        r.probe_timeout_secs == cfg.probe_timeout_secs,
        r.tls_session_cache == cfg.tls_session_cache,
{
    PipelineOptions {
        domain: text::clone_opt(&cfg.domain),
        concurrency: match detect.concurrency {
            Some(n) => n,
            None => governor::greatest(cfg.concurrency, 100),
        },
        speedtest: cfg.speedtest || force_speedtest,
        speedtest_threads: cfg.speedtest_threads,
        speedtest_url_path: cfg.speedtest_url_path.clone(),
        speedtest_concurrency: cfg.speedtest_concurrency,
        output_dir: engine.output_dir.clone(),
        adaptive_min: cfg.a_min,
        adaptive_max: cfg.a_max,
        probe_timeout_secs: cfg.probe_timeout_secs,
        tls_session_cache: cfg.tls_session_cache,
    }
}

/// The configuration of a detection.
pub fn build_detector_config(cfg: &ConfigFile) -> (r: DetectorConfig)
    ensures
        r.probe.connect_timeout.nanos == 2_000_000_000,
        r.probe.request_timeout.nanos == cfg.probe_timeout_secs * 1_000_000_000,
        r.probe.user_agent@ == "Mozilla/5.0 (compatible; CFRP-Detector/3.0)"@,
        r.probe.default_sni@ == "www.cloudflare.com"@,
        r.probe.tls_session_cache,
        r.probe.tls_session_cache_size == cfg.tls_session_cache,
        r.probe.allow_0rtt_speedtest == cfg.speedtest_0rtt,
        r.probe.accept_invalid_certs,
        r.cache.directory@ == "data/cfrpdata"@,
        r.cache.max_age.nanos == 7 * 24 * 3600 * 1_000_000_000,
        r.max_concurrency == governor::max(cfg.concurrency as int, 1),
        r.governor_enabled == !cfg.no_governor,
        r.governor.wf(),
        r.governor == (governor::ResourceGovernorConfig {
            user_max_concurrency: governor::max(cfg.concurrency as int, 1) as usize,
            fd_safety_headroom: governor::max(cfg.tls_session_cache as int / 8, 32) as usize,
            ..governor::default_config()
        }),
{
    let mut d = DetectorConfig::default();
    d.probe.request_timeout = Duration::from_secs(cfg.probe_timeout_secs);
    d.probe.tls_session_cache_size = cfg.tls_session_cache;
    d.probe.allow_0rtt_speedtest = cfg.speedtest_0rtt;
    d.governor_enabled = !cfg.no_governor;
    let n: usize = governor::greatest(cfg.concurrency, 1);
    d.max_concurrency = n;
    d.governor.user_max_concurrency = n;
    d.governor.fd_safety_headroom = governor::greatest(cfg.tls_session_cache / 8, 32);
    d
}

/// How the number of concurrent probes follows their success.
pub fn build_adaptive_config(cfg: &ConfigFile) -> (r: AdaptiveConfig)
    ensures
        r.enabled == cfg.adaptive,
        r.initial == cfg.a_initial,
        r.min == cfg.a_min,
        r.max == cfg.a_max,
        r.window == cfg.a_window,
{
    AdaptiveConfig {
        enabled: cfg.adaptive,
        initial: cfg.a_initial,
        min: cfg.a_min,
        max: cfg.a_max,
        window: cfg.a_window,
    }
}

/// How throughput is measured, how endpoints are connected to meanwhile, the name to ask
/// for and the path to load.
pub fn build_speedtest_config(cfg: &ConfigFile, connect_timeout: Duration) -> (r: (
    SpeedTestConfig,
    PinnedClientConfig,
    String,
    String,
))
    ensures
        r.0.timeout.nanos == cfg.speedtest_timeout_secs * 1_000_000_000,
        r.0.threads_per_target == governor::max(cfg.speedtest_threads as int, 1),
        r.0.concurrency == governor::max(cfg.speedtest_concurrency as int, 1),
        r.1.connect_timeout == connect_timeout,
        r.1.request_timeout == r.0.timeout,
        r.1.accept_invalid_certs,
        r.1.user_agent@ == "Mozilla/5.0 (compatible; CFRP-Detector/3.0)"@,
        r.1.tls_session_cache,
        r.1.tls_session_cache_max_entries == governor::max(cfg.tls_session_cache as int, 128),
        r.1.tls_session_cache_size == governor::max(cfg.tls_session_cache as int, 128),
        r.1.enable_0rtt == cfg.speedtest_0rtt,
        r.1.retry == error::default_retry(),
        r.2@ == (match cfg.domain {
            Some(d) => d@,
            None => "www.cloudflare.com"@,
        }),
        r.3@ == cfg.speedtest_url_path@,
{
    let speed = SpeedTestConfig {
        timeout: Duration::from_secs(cfg.speedtest_timeout_secs),
        threads_per_target: governor::greatest(cfg.speedtest_threads, 1),
        concurrency: governor::greatest(cfg.speedtest_concurrency, 1),
    };
    let domain = match &cfg.domain {
        Some(d) => d.clone(),
        None => text::owned("www.cloudflare.com"),
    };
    let n: usize = governor::greatest(cfg.tls_session_cache, 128);
    let mut conn = PinnedClientConfig::default();
    conn.connect_timeout = connect_timeout;
    conn.request_timeout = speed.timeout;
    conn.tls_session_cache_max_entries = n;
    conn.tls_session_cache_size = n;
    conn.enable_0rtt = cfg.speedtest_0rtt;
    (speed, conn, domain, cfg.speedtest_url_path.clone())
}

/// The form to write results in: the one that is set, or else the one that the name of
/// the output file tells, or else JSON.
pub open spec fn format_for(set: Option<OutputFormat>, output: Option<Seq<char>>) -> OutputFormat {
    match set {
        Some(f) => f,
        None => match output {
            Some(p) => match input::extension_of(p) {
                Some(e) => if text::lower(e) == "txt"@ || text::lower(e) == "text"@ {
                    OutputFormat::Txt
                } else if text::lower(e) == "csv"@ {
                    OutputFormat::Csv
                } else {
                    OutputFormat::Json
                },
                None => OutputFormat::Json,
            },
            None => OutputFormat::Json,
        },
    }
}

/// Finds the form to write results in.
pub fn infer_format(cfg: &ConfigFile) -> (r: OutputFormat)
    ensures
        r == format_for(cfg.format, text::opt_text(cfg.output)),
{
    if let Some(f) = cfg.format {
        return f;
    }
    if let Some(p) = &cfg.output {
        if let Some(e) = input::extension(p.as_str()) {
            let l = text::to_lower(&e);
            if text::is_str(&l, "txt") || text::is_str(&l, "text") {
                return OutputFormat::Txt;
            }
            if text::is_str(&l, "csv") {
                return OutputFormat::Csv;
            }
        }
    }
    OutputFormat::Json
}

/// Checks the number of targets of a detection without a batch.
pub fn check_fast(count: usize) -> (r: Result<(), String>)
    ensures
        match r {
            Ok(_) => count == 1,
            Err(e) => count != 1 && e@ == "--fast mode requires exactly one target (got "@
                + numeral::decimal(count as nat) + ")"@,
        },
{
    if count == 1 {
        return Ok(());
    }
    let mut e = text::owned("--fast mode requires exactly one target (got ");
    numeral::push_numeral(&mut e, count as u128, 10);
    e.append(")");
    Err(e)
}

/// What a detection command does with its targets.
#[derive(Clone, Debug)]
pub enum RunPlan {
    /// There are none.
    Nothing,
    /// The only one is probed at once.
    Single,
    /// They are probed as a batch.
    Batch,
    /// Their number is refused, with this message.
    Refused(String),
}

/// Plans what a detection command does with so many targets.
pub fn plan_run(cfg: &ConfigFile, count: usize) -> (r: RunPlan)
    ensures
        match r {
            RunPlan::Nothing => count == 0,
            RunPlan::Single => cfg.fast && count == 1,
            RunPlan::Batch => !cfg.fast && count > 0,
            RunPlan::Refused(m) => cfg.fast && count > 1 && m@
                == "--fast mode requires exactly one target (got "@ + numeral::decimal(
                count as nat,
            ) + ")"@,
        },
{
    if count == 0 {
        return RunPlan::Nothing;
    }
    if !cfg.fast {
        return RunPlan::Batch;
    }
    match check_fast(count) {
        Ok(_) => RunPlan::Single,
        Err(m) => RunPlan::Refused(m),
    }
}

// ---------------------------------------------------------------------------
// What holds of all settings

/// The words for the forms, in small letters; the case of a word does not count, and every other
/// word stands for none.
pub proof fn law_words_for_forms(s: Seq<char>)
    ensures
        format_named(s) == Some(OutputFormat::Txt) <==> text::lower(s) == seq!['t', 'x', 't']
            || text::lower(s) == seq!['t', 'e', 'x', 't'],
        format_named(s) == Some(OutputFormat::Csv) <==> text::lower(s) == seq!['c', 's', 'v'],
        format_named(s) == Some(OutputFormat::Json) <==> text::lower(s) == seq!['j', 's', 'o', 'n']
            || text::lower(s) == seq!['j'],
        forall|t: Seq<char>|
            text::lower(s) == #[trigger] text::lower(t) ==> format_named(s) == format_named(t),
{
    reveal_strlit("txt");
    reveal_strlit("text");
    reveal_strlit("csv");
    reveal_strlit("json");
    reveal_strlit("j");
    assert("txt"@ =~= seq!['t', 'x', 't']);
    assert("text"@ =~= seq!['t', 'e', 'x', 't']);
    assert("csv"@ =~= seq!['c', 's', 'v']);
    assert("json"@ =~= seq!['j', 's', 'o', 'n']);
    assert("j"@ =~= seq!['j']);
    let l = text::lower(s);
    assert("txt"@.len() == 3 && "text"@.len() == 4 && "csv"@.len() == 3 && "json"@.len() == 4
        && "j"@.len() == 1);
    assert("txt"@[0] == 't' && "csv"@[0] == 'c' && "text"@[0] == 't' && "json"@[0] == 'j');
}

/// A form that is set holds, whatever the output file is called. Else the extension of the file
/// tells the form, as the word for it would, and results are written as JSON where it is no such
/// word or there is none.
pub proof fn law_form_of_results(
    set: OutputFormat,
    output: Option<Seq<char>>,
    directory: Seq<char>,
    stem: Seq<char>,
    e: Seq<char>,
)
    requires
        stem.len() > 0,
        !stem.contains('/'),
        !e.contains('/'),
        !e.contains('.'),
        e.len() > 0,
    ensures
        format_for(Some(set), output) == set,
        format_for(None, None) == OutputFormat::Json,
        format_for(None, Some(directory + seq!['/'] + stem + seq!['.'] + e)) == (match format_named(
            e,
        ) {
            Some(f) => f,
            None => OutputFormat::Json,
        }),
        format_for(None, Some(e)) == OutputFormat::Json,
{
    input::law_extension(directory, stem, e);
    law_words_for_forms(e);
    reveal_strlit("txt");
    reveal_strlit("text");
    reveal_strlit("csv");
    assert("txt"@ =~= seq!['t', 'x', 't']);
    assert("text"@ =~= seq!['t', 'e', 'x', 't']);
    assert("csv"@ =~= seq!['c', 's', 'v']);
}

/// Of two layers the first that gives a value counts, so that layers can be put together in any
/// grouping; a default only counts where none gives one.
pub proof fn law_layers<T>(a: Option<T>, b: Option<T>, c: Option<T>, default: T, x: T)
    ensures
        opt_or(Some(x), b) == Some(x),
        opt_or(None, b) == b,
        opt_or(a, opt_or(b, c)) == opt_or(opt_or(a, b), c),
        given_or(Some(x), default) == x,
        given_or(None, default) == default,
        given_or(opt_or(a, b), default) == given_or(a, given_or(b, default)),
{
}

/// Texts go by the same layers.
pub proof fn law_text_layers(a: String, b: Option<String>, c: String, default: Seq<char>)
    ensures
        text_or(Some(a), b, default) == a@,
        text_or(None, Some(c), default) == c@,
        text_or(None, None, default) == default,
{
}

/// The targets of the command line stand behind those of a file; without a file they stand alone.
pub proof fn law_targets_of_layers(listed: Seq<String>, given: Seq<String>, i: int)
    ensures
        all_targets(false, listed, given) == given,
        all_targets(true, listed, given).len() == listed.len() + given.len(),
        0 <= i < listed.len() ==> all_targets(true, listed, given)[i] == listed[i],
        0 <= i < given.len() ==> all_targets(true, listed, given)[listed.len() + i] == given[i],
{
}

/// A switch of a detection is on exactly where a layer turns it on.
pub proof fn law_switches(r: ConfigFile, base: ConfigFile, global: GlobalArgs, detect: DetectArgs)
    requires
        is_detect_merge(r, base, global, detect),
    ensures
        r.adaptive <==> base.adaptive || detect.adaptive,
        r.progress <==> base.progress || detect.progress,
        r.speedtest <==> base.speedtest || detect.speedtest,
        r.fast <==> base.fast || detect.fast,
        r.governor_report <==> base.governor_report || detect.governor_report,
        r.no_governor <==> base.no_governor || detect.no_governor,
        r.speedtest_0rtt <==> base.speedtest_0rtt || detect.enable_0rtt,
        r.bench <==> base.bench || detect.bench,
        r.bench_quick <==> base.bench_quick || detect.bench_quick,
        r.speedtest_only <==> base.speedtest_only,
        global.config is Some ==> r.targets@ == base.targets@ + detect.targets@,
        global.config is None ==> r.targets@ == detect.targets@,
{
}

/// A speed test always measures throughput and nothing else; what it has no setting for stays as
/// the other layers say.
pub proof fn law_speedtest_settings(
    r: ConfigFile,
    base: ConfigFile,
    global: GlobalArgs,
    st: SpeedTestArgs,
)
    requires
        is_speed_merge(r, base, global, st),
    ensures
        r.speedtest && r.speedtest_only,
        r.progress <==> base.progress || st.progress,
        r.speedtest_0rtt <==> base.speedtest_0rtt || st.enable_0rtt,
        r.concurrency == base.concurrency,
        r.adaptive == base.adaptive,
        r.a_min == base.a_min,
        r.a_max == base.a_max,
        r.a_initial == base.a_initial,
        r.a_window == base.a_window,
        r.fast == base.fast,
        r.probe_timeout_secs == base.probe_timeout_secs,
        r.governor_report == base.governor_report,
        r.no_governor == base.no_governor,
        r.bench == base.bench,
        r.bench_quick == base.bench_quick,
        global.config is Some ==> r.targets@ == base.targets@ + st.targets@,
        global.config is None ==> r.targets@ == st.targets@,
{
}

/// A scan keeps the files, the targets and the switches that it has no setting for; without a
/// speed test of its own, the settings of that stay too.
pub proof fn law_scan_settings(
    r: ConfigFile,
    base: ConfigFile,
    global: GlobalArgs,
    detect: ScanDetectArgs,
    st: Option<ScanSpeedTestArgs>,
)
    requires
        is_scan_merge(r, base, global, detect, st),
    ensures
        r.input == base.input,
        r.output == base.output,
        r.format == base.format,
        r.targets == base.targets,
        r.fast == base.fast,
        r.speedtest_0rtt == base.speedtest_0rtt,
        r.speedtest_only == base.speedtest_only,
        r.bench == base.bench,
        r.bench_quick == base.bench_quick,
        r.adaptive <==> base.adaptive || detect.adaptive,
        r.progress <==> base.progress || detect.progress,
        r.governor_report <==> base.governor_report || detect.governor_report,
        r.no_governor <==> base.no_governor || detect.no_governor,
        r.speedtest <==> base.speedtest || st is Some && st->0.enabled,
        st is None ==> r.speedtest_threads == base.speedtest_threads && r.speedtest_timeout_secs
            == base.speedtest_timeout_secs && r.speedtest_concurrency == base.speedtest_concurrency
            && r.speedtest_url_path == base.speedtest_url_path,
{
}

/// The settings of the scan itself go by three layers: the command line, then the file, then the
/// defaults.
pub proof fn law_engine_layers(base: EngineConfig, flags: EngineFlags, r: ScanEngineArgs)
    requires
        call_ensures(merge_engine_config, (base, flags), r),
    ensures
        flags.rate is Some ==> r.rate == flags.rate->0,
        flags.rate is None && base.rate is Some ==> r.rate == base.rate->0,
        flags.rate is None && base.rate is None ==> r.rate == 10_000,
        flags.wait_seconds is Some ==> r.wait_seconds == flags.wait_seconds->0,
        flags.wait_seconds is None && base.wait_seconds is Some ==> r.wait_seconds
            == base.wait_seconds->0,
        flags.wait_seconds is None && base.wait_seconds is None ==> r.wait_seconds == 3,
        flags.interface is Some ==> r.interface == flags.interface,
        flags.interface is None ==> r.interface == base.interface,
        r.masscan_binary == flags.masscan_binary,
        flags.asn_cache_dir is Some ==> r.asn_cache_dir@ == flags.asn_cache_dir->0@,
        flags.asn_cache_dir is None && base.asn_cache_dir is Some ==> r.asn_cache_dir@
            == base.asn_cache_dir->0@,
        flags.asn_cache_dir is None && base.asn_cache_dir is None ==> r.asn_cache_dir@ == "asn"@,
        flags.iface_setting_file is Some ==> r.iface_setting_file@ == flags.iface_setting_file->0@,
        flags.iface_setting_file is None ==> r.iface_setting_file@ == "setting.txt"@,
        flags.output_dir is Some ==> r.output_dir@ == flags.output_dir->0@,
        flags.output_dir is None ==> r.output_dir@ == "."@,
{
}

/// The probes at a time of a pipeline: what the command line gives holds, even zero; else they are
/// at least a hundred, and what the settings hold where that is more.
pub proof fn law_pipeline_concurrency(given: usize, merged: usize)
    ensures
        pipeline_concurrency(Some(given), merged) == given,
        pipeline_concurrency(None, merged) >= 100,
        pipeline_concurrency(None, merged) >= merged,
        pipeline_concurrency(None, merged) == 100 || pipeline_concurrency(None, merged) == merged,
{
}

/// A pipeline measures throughput where the settings or the caller ask for it, and takes the rest
/// of its settings over as they are.
pub proof fn law_pipeline_settings(
    engine: ScanEngineArgs,
    detect: ScanDetectArgs,
    cfg: ConfigFile,
    force: bool,
    r: PipelineOptions,
)
    requires
        call_ensures(build_pipeline_options, (&engine, &detect, &cfg, force), r),
    ensures
        r.speedtest <==> cfg.speedtest || force,
        detect.concurrency is Some ==> r.concurrency == detect.concurrency->0,
        detect.concurrency is None && cfg.concurrency >= 100 ==> r.concurrency == cfg.concurrency,
        detect.concurrency is None && cfg.concurrency < 100 ==> r.concurrency == 100,
        r.speedtest_threads == cfg.speedtest_threads,
        r.speedtest_concurrency == cfg.speedtest_concurrency,
        r.speedtest_url_path@ == cfg.speedtest_url_path@,
        r.output_dir@ == engine.output_dir@,
        r.adaptive_min == cfg.a_min,
        r.adaptive_max == cfg.a_max,
        r.probe_timeout_secs == cfg.probe_timeout_secs,
        r.tls_session_cache == cfg.tls_session_cache,
{
}

/// A detection probes as many targets at a time as the settings say, but at least one, and the
/// governor is told the same; it works unless it is turned off, and keeps an eighth of the
/// sessions, but at least 32, free of descriptors.
pub proof fn law_detection_settings(cfg: ConfigFile, r: DetectorConfig)
    requires
        call_ensures(build_detector_config, (&cfg,), r),
    ensures
        cfg.concurrency > 0 ==> r.max_concurrency == cfg.concurrency,
        cfg.concurrency == 0 ==> r.max_concurrency == 1,
        r.governor.user_max_concurrency == r.max_concurrency,
        r.governor_enabled <==> !cfg.no_governor,
        r.governor.fd_safety_headroom >= 32,
        r.governor.fd_safety_headroom == 32 || r.governor.fd_safety_headroom * 8
            <= cfg.tls_session_cache < (r.governor.fd_safety_headroom + 1) * 8,
        cfg.tls_session_cache >= 256 ==> r.governor.fd_safety_headroom * 8 > cfg.tls_session_cache
            - 8,
        r.probe.request_timeout.nanos == cfg.probe_timeout_secs * 1_000_000_000,
        r.probe.connect_timeout.nanos == 2 * 1_000_000_000,
        r.probe.tls_session_cache_size == cfg.tls_session_cache,
        r.probe.allow_0rtt_speedtest == cfg.speedtest_0rtt,
{
}

/// A throughput test works with at least one download and one target at a time, and keeps at least
/// 128 sessions; a request may take as long as the whole test.
pub proof fn law_throughput_settings(
    cfg: ConfigFile,
    connect_timeout: Duration,
    test: SpeedTestConfig,
    client: PinnedClientConfig,
    host: String,
    path: String,
)
    requires
        call_ensures(build_speedtest_config, (&cfg, connect_timeout), (test, client, host, path)),
    ensures
        cfg.speedtest_threads > 0 ==> test.threads_per_target == cfg.speedtest_threads,
        cfg.speedtest_threads == 0 ==> test.threads_per_target == 1,
        cfg.speedtest_concurrency > 0 ==> test.concurrency == cfg.speedtest_concurrency,
        cfg.speedtest_concurrency == 0 ==> test.concurrency == 1,
        test.timeout.nanos == cfg.speedtest_timeout_secs * 1_000_000_000,
        client.request_timeout == test.timeout,
        client.connect_timeout == connect_timeout,
        client.tls_session_cache_size >= 128,
        client.tls_session_cache_size >= cfg.tls_session_cache,
        client.tls_session_cache_size == 128 || client.tls_session_cache_size
            == cfg.tls_session_cache,
        client.tls_session_cache_max_entries == client.tls_session_cache_size,
        client.enable_0rtt == cfg.speedtest_0rtt,
        cfg.domain is Some ==> host@ == cfg.domain->0@,
        cfg.domain is None ==> host@ == "www.cloudflare.com"@,
        path@ == cfg.speedtest_url_path@,
{
}

/// How adaptive mode is set up is what the settings say of it.
pub proof fn law_adaptive_settings(cfg: ConfigFile, r: AdaptiveConfig)
    requires
        call_ensures(build_adaptive_config, (&cfg,), r),
    ensures
        r == (AdaptiveConfig {
            enabled: cfg.adaptive,
            initial: cfg.a_initial,
            min: cfg.a_min,
            max: cfg.a_max,
            window: cfg.a_window,
        }),
{
}

/// No target leads nowhere, in every mode. Without a batch one target is probed at once, and more
/// are refused with the words of the check on their number; with one they are a batch.
pub proof fn law_plans(cfg: ConfigFile, count: usize, plan: RunPlan, check: Result<(), String>)
    requires
        call_ensures(plan_run, (&cfg, count), plan),
        call_ensures(check_fast, (count,), check),
    ensures
        plan is Nothing <==> count == 0,
        plan is Single <==> cfg.fast && count == 1,
        plan is Batch <==> !cfg.fast && count >= 1,
        plan is Refused <==> cfg.fast && count >= 2,
        check is Ok <==> count == 1,
        plan matches RunPlan::Refused(m) ==> check matches Err(e) && m@ == e@,
{
}

} // verus!
