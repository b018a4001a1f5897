//! Port scans with masscan: what is asked of the scanner, how it is called, and what its
//! files and its sources hold.

use vstd::prelude::*;
use vstd::slice::slice_subrange;

use crate::error::DetectorError;
use crate::net;
use crate::net::IpAddr;
use crate::numeral;
use crate::text;

verus! {

/// What a scan covers.
#[derive(Clone, Copy, Debug, PartialEq, Eq, Structural)]
pub enum ScanMode {
    SingleAsn,
    BatchAsn,
    SingleIp,
    BatchIp,
}

impl Default for ScanMode {
    fn default() -> (r: Self)
        ensures
            r == ScanMode::SingleAsn,
    {
        ScanMode::SingleAsn
    }
}

/// An autonomous system to scan, with the ports and whether they speak TLS.
#[derive(Clone, Debug)]
pub struct AsnTask {
    pub asn: u32,
    pub ports: String,
    pub tls: bool,
}

/// The words for yes.
pub open spec fn is_yes(s: Seq<char>) -> bool {
    s == "1"@ || s == "true"@ || s == "True"@ || s == "TRUE"@ || s == "yes"@ || s == "YES"@ || s
        == "Y"@ || s == "y"@
}

fn says_yes(s: &[char]) -> (r: bool)
    ensures
        r == is_yes(s@),
{
    text::is_str(s, "1") || text::is_str(s, "true") || text::is_str(s, "True") || text::is_str(
        s,
        "TRUE",
    ) || text::is_str(s, "yes") || text::is_str(s, "YES") || text::is_str(s, "Y") || text::is_str(
        s,
        "y",
    )
}

/// Whether a line has the parts of a task: something before a first colon, something behind
/// a last one, and the ports between the two.
pub open spec fn has_task_parts(line: Seq<char>) -> bool {
    text::position(line, ':') < text::last_position(line, ':')
}

/// What stands before the first colon.
pub open spec fn task_number(line: Seq<char>) -> Seq<char> {
    line.take(text::position(line, ':'))
}

/// What stands between the first colon and the last; it may hold colons itself.
pub open spec fn task_ports(line: Seq<char>) -> Seq<char> {
    line.subrange(text::position(line, ':') + 1, text::last_position(line, ':'))
}

/// What stands behind the last colon.
pub open spec fn task_flag(line: Seq<char>) -> Seq<char> {
    line.skip(text::last_position(line, ':') + 1)
}

/// The number of the system that a task line names.
pub open spec fn task_asn(line: Seq<char>) -> Option<int> {
    numeral::unsigned_value(task_number(line), 10, u32::MAX as int)
}

/// Whether this is the task that a line stands for.
pub open spec fn is_task(t: AsnTask, line: Seq<char>) -> bool {
    &&& has_task_parts(line)
    &&& task_asn(line) == Some(t.asn as int)
    &&& t.ports@ == task_ports(line)
    &&& t.tls == is_yes(text::trimmed(task_flag(line)))
}

/// Whether a line stands for a task.
pub open spec fn names_task(line: Seq<char>) -> bool {
    has_task_parts(line) && task_asn(line) is Some
}

impl AsnTask {
    /// Reads a line of the form `ASN:PORTS:TLS`, where the ports may hold colons.
    pub fn parse_line(line: &str) -> (r: Result<Self, DetectorError>)
        ensures
            match r {
                Ok(t) => is_task(t, line@),
                Err(e) => {
                    &&& e is InvalidTarget
                    &&& if !has_task_parts(line@) {
                        e->InvalidTarget_0@ == "invalid ASN task line: "@ + line@
                            + ", expected format ASN:PORT:TLS"@
                    } else {
                        task_asn(line@) is None && e->InvalidTarget_0@ == "invalid ASN number: "@
                            + task_number(line@)
                    }
                },
            },
    {
        let cs = text::to_chars(line);
        let first: usize = text::find_char(&cs, ':');
        let last: usize = match text::rfind_char(&cs, ':') {
            Some(n) => n,
            None => 0,
        };
        if first >= last {
            let mut m = text::owned("invalid ASN task line: ");
            m.append(line);
            m.append(", expected format ASN:PORT:TLS");
            return Err(DetectorError::InvalidTarget(m));
        }
        let number = slice_subrange(&cs, 0, first);
        let flag = slice_subrange(&cs, last + 1, cs.len());
        proof {
            assert(number@ =~= task_number(line@));
            assert(flag@ =~= task_flag(line@));
        }
        match numeral::read_unsigned(number, 10, u32::MAX as u64) {
            Some(n) => Ok(
                AsnTask {
                    asn: n as u32,
                    ports: text::from_chars(slice_subrange(&cs, first + 1, last)),
                    tls: says_yes(text::trim(flag)),
                },
            ),
            None => {
                let mut m = text::owned("invalid ASN number: ");
                let s = text::from_chars(number);
                m.append(s.as_str());
                Err(DetectorError::InvalidTarget(m))
            },
        }
    }
}

/// The parts of a task line are what it was put together from, whatever the ports hold.
pub proof fn law_task_parts(number: Seq<char>, ports: Seq<char>, flag: Seq<char>)
    requires
        !number.contains(':'),
        !flag.contains(':'),
    ensures
        ({
            let line = number.push(':') + ports.push(':') + flag;
            &&& has_task_parts(line)
            &&& task_number(line) == number
            &&& task_ports(line) == ports
            &&& task_flag(line) == flag
        }),
{
    let line = number.push(':') + ports.push(':') + flag;
    let first = number.len() as int;
    let last = first + 1 + ports.len();
    assert forall|j: int| 0 <= j < first implies line[j] != ':' by {
        assert(line[j] == number[j]);
        assert(number.contains(number[j]));
    }
    text::lemma_find_at(line, ':', 0, first);
    assert forall|j: int| last < j < line.len() implies line[j] != ':' by {
        assert(line[j] == flag[j - last - 1]);
        assert(flag.contains(flag[j - last - 1]));
    }
    text::lemma_last_at(line, ':', line.len() as int, last);
    assert(task_number(line) =~= number);
    assert(task_ports(line) =~= ports);
    assert(task_flag(line) =~= flag);
}

/// A port that was found open.
#[derive(Clone, Copy, Debug, PartialEq, Eq, Structural)]
pub struct OpenPort {
    pub ip: IpAddr,
    pub port: u16,
}

/// How masscan is run.
#[derive(Clone, Debug)]
pub struct MasscanConfig {
    pub interface: Option<String>,
    /// Packets per second.
    pub rate: u64,
    /// Seconds to wait for late answers.
    pub wait_seconds: u64,
    pub masscan_binary_path: Option<String>,
    pub asn_cache_dir: String,
    pub iface_setting_file: String,
    pub user_agent: String,
}

impl MasscanConfig {
    pub fn new() -> (r: Self)
        ensures
            r.interface is None,
            r.rate == 10000,
            r.wait_seconds == 3,
            r.masscan_binary_path is None,
            r.asn_cache_dir@ == "asn"@,
            r.iface_setting_file@ == "setting.txt"@,
            r.user_agent@
                == "Mozilla/5.0 (Windows NT 10.0; Win64; x64) AppleWebKit/537.36 (KHTML, like Gecko) Chrome/110.0.0.0 Safari/537.36"@,
    {
        MasscanConfig {
            interface: None,
            rate: 10000,
            wait_seconds: 3,
            masscan_binary_path: None,
            asn_cache_dir: text::owned("asn"),
            iface_setting_file: text::owned("setting.txt"),
            user_agent: text::owned(
                "Mozilla/5.0 (Windows NT 10.0; Win64; x64) AppleWebKit/537.36 (KHTML, like Gecko) Chrome/110.0.0.0 Safari/537.36",
            ),
        }
    }
}

impl Default for MasscanConfig {
    fn default() -> (r: Self)
        ensures
            r.interface is None,
            r.rate == 0,
            r.wait_seconds == 0,
            r.masscan_binary_path is None,
            r.asn_cache_dir@ == Seq::<char>::empty(),
            r.iface_setting_file@ == Seq::<char>::empty(),
            r.user_agent@ == Seq::<char>::empty(),
    {
        MasscanConfig {
            interface: None,
            rate: 0,
            wait_seconds: 0,
            masscan_binary_path: None,
            asn_cache_dir: String::new(),
            iface_setting_file: String::new(),
            user_agent: String::new(),
        }
    }
}

/// A network interface.
#[derive(Clone, Debug)]
pub struct NetworkInterface {
    pub name: String,
}

/// Runs masscan.
#[derive(Clone, Debug)]
pub struct MasscanScanner {
    pub cfg: MasscanConfig,
}

/// `Path::exists`: whether there is such a file at the moment. Nothing is claimed of the
/// answer.
#[verifier::external_body]
fn path_exists(path: &str) -> (r: bool) {
    std::path::Path::new(path).exists()
}

/// Whether this may have been the answer to whether there is such a file.
pub closed spec fn was_told(path: &str, answer: bool) -> bool {
    call_ensures(path_exists, (path,), answer)
}

/// The command to run: the configured one if it is there, else one in the current
/// directory if it is there, else one on the search path.
pub open spec fn chosen_command(
    configured: Option<Seq<char>>,
    configured_exists: bool,
    local_exists: bool,
) -> Seq<char> {
    if configured is Some && configured_exists {
        configured->0
    } else if local_exists {
        "./masscan"@
    } else {
        "masscan"@
    }
}

/// Chooses the command to run.
pub fn choose_command(
    configured: &Option<String>,
    configured_exists: bool,
    local_exists: bool,
) -> (r: String)
    ensures
        r@ == chosen_command(text::opt_text(*configured), configured_exists, local_exists),
{
    if let Some(p) = configured {
        if configured_exists {
            return p.clone();
        }
    }
    if local_exists {
        text::owned("./masscan")
    } else {
        text::owned("masscan")
    }
}

/// Tells whether a command can be run: it is there, or it is on the search path and
/// answers.
pub fn check_command(cmd: String, found: bool, answers: bool) -> (r: Result<String, DetectorError>)
    ensures
        match r {
            Ok(c) => c == cmd && (found || cmd@ == "masscan"@ && answers),
            Err(e) => !found && !(cmd@ == "masscan"@ && answers) && e is DataSource
                && e->DataSource_0@
                == "masscan binary not found. Please install masscan or place it at "@ + cmd@,
        },
{
    if found {
        return Ok(cmd);
    }
    if answers && text::same_str(cmd.as_str(), "masscan") {
        return Ok(cmd);
    }
    let mut m = text::owned("masscan binary not found. Please install masscan or place it at ");
    m.append(cmd.as_str());
    Err(DetectorError::DataSource(m))
}

// What `format!` with `{:?}` writes for a list of strings.
pub uninterp spec fn debug_list(names: Seq<Seq<char>>) -> Seq<char>;

/// The `Debug` form of a list of strings, as `format!` writes it: how the strings are
/// quoted and escaped is left to the name `debug_list`.
#[verifier::external_body]
fn show_list(names: &Vec<String>) -> (r: String)
    ensures
        r@ == debug_list(text::strings(names@)),
{
    format!("{:?}", names)
}

/// The names of interfaces.
pub open spec fn interface_names(v: Seq<NetworkInterface>) -> Seq<Seq<char>> {
    v.map_values(|x: NetworkInterface| x.name@)
}

/// The interface that a line of the kernel's table names; the loopback does not count.
pub open spec fn interface_of(line: Seq<char>) -> Option<Seq<char>> {
    let p = text::position(line, ':');
    if p < line.len() {
        let name = text::trimmed(line.take(p));
        if name.len() > 0 && name != "lo"@ {
            Some(name)
        } else {
            None
        }
    } else {
        None
    }
}

/// The interfaces that lines name, in order.
pub open spec fn interfaces_of(lines: Seq<Seq<char>>) -> Seq<Seq<char>>
    decreases lines.len(),
{
    if lines.len() == 0 {
        lines
    } else {
        match interface_of(lines.last()) {
            Some(n) => interfaces_of(lines.drop_last()).push(n),
            None => interfaces_of(lines.drop_last()),
        }
    }
}

/// The lines behind the two of the heading.
pub open spec fn behind_heading(lines: Seq<Seq<char>>) -> Seq<Seq<char>> {
    if lines.len() > 2 {
        lines.skip(2)
    } else {
        Seq::empty()
    }
}

/// Reads the kernel's table of interfaces.
pub fn parse_interfaces(content: &str) -> (r: Vec<NetworkInterface>)
    ensures
        interface_names(r@) == interfaces_of(behind_heading(text::lines(content@))),
{
    let cs = text::to_chars(content);
    let ls = text::split_lines(&cs);
    let ghost v = text::views(ls@);
    let mut r: Vec<NetworkInterface> = Vec::new();
    proof {
        assert(interface_names(r@) =~= Seq::<Seq<char>>::empty());
    }
    if ls.len() <= 2 {
        return r;
    }
    let ghost body = v.skip(2);
    let mut i: usize = 2;
    proof {
        assert(body.take(0) =~= Seq::<Seq<char>>::empty());
    }
    while i < ls.len()
        invariant
            v == text::views(ls@),
            body == v.skip(2),
            2 <= i <= ls@.len(),
            interface_names(r@) == interfaces_of(body.take(i - 2)),
        decreases ls@.len() - i,
    {
        let line = ls[i];
        proof {
            assert(body.take(i - 1).drop_last() =~= body.take(i - 2));
            assert(body.take(i - 1).last() == line@);
        }
        let p: usize = text::find_char(line, ':');
        if p < line.len() {
            assert(line@.subrange(0, p as int) =~= line@.take(p as int));
            let name = text::trim(slice_subrange(line, 0, p));
            if name.len() > 0 && !text::is_str(name, "lo") {
                let ghost before = r@;
                r.push(NetworkInterface { name: text::from_chars(name) });
                proof {
                    assert(interface_names(r@) =~= interface_names(before).push(name@));
                }
            }
        }
        i += 1;
    }
    proof {
        assert(body.take(i - 2) =~= body);
    }
    r
}

fn interface_names_vec(v: &Vec<NetworkInterface>) -> (r: Vec<String>)
    ensures
        text::strings(r@) == interface_names(v@),
{
    let mut r: Vec<String> = Vec::new();
    let mut i: usize = 0;
    while i < v.len()
        invariant
            i <= v@.len(),
            text::strings(r@) == interface_names(v@.take(i as int)),
        decreases v@.len() - i,
    {
        let ghost before = r@;
        r.push(v[i].name.clone());
        proof {
            assert(text::strings(r@) =~= text::strings(before).push(v@[i as int].name@));
            assert(interface_names(v@.take(i + 1)) =~= interface_names(v@.take(i as int)).push(
                v@[i as int].name@,
            ));
        }
        i += 1;
    }
    proof {
        assert(v@.take(i as int) =~= v@);
    }
    r
}

impl MasscanScanner {
    pub fn new(cfg: MasscanConfig) -> (r: Self)
        ensures
            r.cfg == cfg,
    {
        MasscanScanner { cfg }
    }

    /// Finds the command to run: it asks whether the configured one and the one in the current
    /// directory are there, and goes by the answers. Which files are there is not known here.
    pub fn resolve_masscan_cmd(&self) -> (r: String)
        ensures
            exists|configured: &str, local: &str, configured_exists: bool, local_exists: bool|
                #![trigger was_told(configured, configured_exists), was_told(local, local_exists)]
                {
                    &&& self.cfg.masscan_binary_path matches Some(c) ==> configured@ == c@
                        && was_told(configured, configured_exists)
                    &&& local@ == "./masscan"@
                    &&& was_told(local, local_exists)
                    &&& r@ == chosen_command(
                        text::opt_text(self.cfg.masscan_binary_path),
                        configured_exists,
                        local_exists,
                    )
                },
    {
        let local: &str = "./masscan";
        let local_exists = path_exists(local);
        assert(was_told(local, local_exists));
        let configured_exists = match &self.cfg.masscan_binary_path {
            Some(p) => {
                let configured: &str = p.as_str();
                let there = path_exists(configured);
                assert(was_told(configured, there));
                there
            },
            None => false,
        };
        choose_command(&self.cfg.masscan_binary_path, configured_exists, local_exists)
    }

    /// The interface that the configuration or the setting file names.
    pub fn configured_interface(&self, setting: Option<&str>) -> (r: Option<String>)
        ensures
            text::opt_text(r) == (match self.cfg.interface {
                Some(i) => Some(i@),
                None => match setting {
                    Some(s) => if text::trimmed(s@).len() > 0 {
                        Some(text::trimmed(s@))
                    } else {
                        None
                    },
                    None => None,
                },
            }),
    {
        if let Some(i) = &self.cfg.interface {
            return Some(i.clone());
        }
        match setting {
            Some(s) => {
                let cs = text::to_chars(s);
                let t = text::trim(&cs);
                if t.len() > 0 {
                    Some(text::from_chars(t))
                } else {
                    None
                }
            },
            None => None,
        }
    }

    /// The interface to use where none is configured: the only one there is.
    pub fn only_interface(&self, interfaces: &Vec<NetworkInterface>) -> (r: Result<
        String,
        DetectorError,
    >)
        ensures
            match r {
                Ok(name) => interfaces@.len() == 1 && name@ == interfaces@[0].name@,
                Err(e) => {
                    &&& interfaces@.len() != 1
                    &&& e is DataSource
                    &&& e->DataSource_0@ == (if interfaces@.len() == 0 {
                        "no network interfaces detected"@
                    } else {
                        "multiple network interfaces detected ("@ + debug_list(
                            interface_names(interfaces@),
                        ) + "); please set --interface or write the name to "@
                            + self.cfg.iface_setting_file@
                    })
                },
            },
    {
        if interfaces.len() == 0 {
            return Err(DetectorError::DataSource(text::owned("no network interfaces detected")));
        }
        if interfaces.len() == 1 {
            return Ok(interfaces[0].name.clone());
        }
        let names = interface_names_vec(interfaces);
        let list = show_list(&names);
        let mut m = text::owned("multiple network interfaces detected (");
        m.append(list.as_str());
        m.append("); please set --interface or write the name to ");
        m.append(self.cfg.iface_setting_file.as_str());
        Err(DetectorError::DataSource(m))
    }

    /// The arguments of a scan: of the addresses in a file, or else of a single one.
    pub fn masscan_args(
        &self,
        list_path: Option<&str>,
        single_target: Option<&str>,
        ports: &str,
        output_path: &str,
        interface: &str,
    ) -> (r: Vec<String>)
        ensures
            text::strings(r@) == seq!["-p"@, ports@] + (match list_path {
                Some(p) => seq!["-iL"@, p@],
                None => match single_target {
                    Some(t) => seq![t@],
                    None => Seq::empty(),
                },
            }) + seq![
                "--wait"@,
                numeral::decimal(self.cfg.wait_seconds as nat),
                "--rate"@,
                numeral::decimal(self.cfg.rate as nat),
                "-oL"@,
                output_path@,
                "--interface"@,
                interface@,
            ],
    {
        let mut r: Vec<String> = Vec::new();
        r.push(text::owned("-p"));
        r.push(text::owned(ports));
        let ghost head = seq!["-p"@, ports@];
        proof {
            assert(text::strings(r@) =~= head);
        }
        if let Some(p) = list_path {
            r.push(text::owned("-iL"));
            r.push(text::owned(p));
            proof {
                assert(text::strings(r@) =~= head + seq!["-iL"@, p@]);
            }
        } else if let Some(t) = single_target {
            r.push(text::owned(t));
            proof {
                assert(text::strings(r@) =~= head + seq![t@]);
            }
        } else {
            proof {
                assert(text::strings(r@) =~= head + Seq::<Seq<char>>::empty());
            }
        }
        let ghost mid = text::strings(r@);
        r.push(text::owned("--wait"));
        r.push(numeral::to_decimal(self.cfg.wait_seconds as u128));
        r.push(text::owned("--rate"));
        r.push(numeral::to_decimal(self.cfg.rate as u128));
        r.push(text::owned("-oL"));
        r.push(text::owned(output_path));
        r.push(text::owned("--interface"));
        r.push(text::owned(interface));
        proof {
            assert(text::strings(r@) =~= mid + seq![
                "--wait"@,
                numeral::decimal(self.cfg.wait_seconds as nat),
                "--rate"@,
                numeral::decimal(self.cfg.rate as nat),
                "-oL"@,
                output_path@,
                "--interface"@,
                interface@,
            ]);
        }
        r
    }
}

/// A whole number in decimal digits, with a minus sign where it is negative.
pub open spec fn signed_decimal(n: int) -> Seq<char> {
    if n < 0 {
        "-"@ + numeral::decimal((-n) as nat)
    } else {
        numeral::decimal(n as nat)
    }
}

/// The error of a scan that failed.
pub fn exit_error(code: Option<i32>) -> (r: DetectorError)
    ensures
        r is Http,
        r->Http_0@ == "masscan exited with status "@ + (match code {
            Some(c) => "Some("@ + signed_decimal(c as int) + ")"@,
            None => "None"@,
        }),
{
    let mut m = text::owned("masscan exited with status ");
    let ghost base = m@;
    match code {
        Some(c) => {
            m.append("Some(");
            if c < 0 {
                m.append("-");
                numeral::push_numeral(&mut m, (-(c as i64)) as u128, 10);
            } else {
                numeral::push_numeral(&mut m, c as u128, 10);
            }
            m.append(")");
            proof {
                assert(m@ =~= base + ("Some("@ + signed_decimal(c as int) + ")"@));
            }
        },
        None => {
            m.append("None");
        },
    }
    DetectorError::Http(m)
}

/// The page that lists the prefixes of a system.
pub fn asn_url(asn: u32) -> (r: String)
    ensures
        r@ == "https://whois.ipip.net/AS"@ + numeral::decimal(asn as nat),
{
    let mut r = text::owned("https://whois.ipip.net/AS");
    numeral::push_numeral(&mut r, asn as u128, 10);
    r
}

/// The texts without white space at their ends that are not empty, in order.
pub open spec fn nonempty_trimmed(lines: Seq<Seq<char>>) -> Seq<Seq<char>>
    decreases lines.len(),
{
    if lines.len() == 0 {
        lines
    } else {
        let t = text::trimmed(lines.last());
        if t.len() > 0 {
            nonempty_trimmed(lines.drop_last()).push(t)
        } else {
            nonempty_trimmed(lines.drop_last())
        }
    }
}

/// Reads a kept list of prefixes.
pub fn parse_cidr_file(content: &str) -> (r: Vec<String>)
    ensures
        text::strings(r@) == nonempty_trimmed(text::lines(content@)),
{
    let cs = text::to_chars(content);
    let ls = text::split_lines(&cs);
    let ghost v = text::views(ls@);
    let mut r: Vec<String> = Vec::new();
    let mut i: usize = 0;
    proof {
        assert(v.take(0) =~= Seq::<Seq<char>>::empty());
        assert(text::strings(r@) =~= Seq::<Seq<char>>::empty());
    }
    while i < ls.len()
        invariant
            v == text::views(ls@),
            i <= ls@.len(),
            text::strings(r@) == nonempty_trimmed(v.take(i as int)),
        decreases ls@.len() - i,
    {
        proof {
            assert(v.take(i + 1).drop_last() =~= v.take(i as int));
            assert(v.take(i + 1).last() == ls@[i as int]@);
        }
        let t = text::trim(ls[i]);
        if t.len() > 0 {
            let ghost before = r@;
            r.push(text::from_chars(t));
            proof {
                assert(text::strings(r@) =~= text::strings(before).push(t@));
            }
        }
        i += 1;
    }
    proof {
        assert(v.take(i as int) =~= v);
    }
    r
}

/// A line without its comment and without white space at its ends.
pub open spec fn uncommented(line: Seq<char>) -> Seq<char> {
    text::trimmed(line.take(text::position(line, '#')))
}

/// Takes a line without its comment.
pub fn strip_comment(line: &[char]) -> (r: &[char])
    ensures
        r@ == uncommented(line@),
{
    proof {
        text::lemma_find_from(line@, '#', 0);
    }
    let p: usize = text::find_char(line, '#');
    assert(line@.subrange(0, p as int) =~= line@.take(p as int));
    text::trim(slice_subrange(line, 0, p))
}

/// The addresses that lines name, up to the first line that names none; lines that are
/// empty but for a comment do not count.
pub open spec fn addresses_of(lines: Seq<Seq<char>>, i: int) -> Result<Seq<IpAddr>, Seq<char>>
    decreases lines.len() - i,
{
    if i < 0 || i >= lines.len() {
        Ok(Seq::empty())
    } else {
        let t = uncommented(lines[i]);
        if t.len() == 0 {
            addresses_of(lines, i + 1)
        } else {
            match net::ip_text(t) {
                Some(ip) => match addresses_of(lines, i + 1) {
                    Ok(rest) => Ok(seq![ip] + rest),
                    Err(e) => Err(e),
                },
                None => Err(t),
            }
        }
    }
}

/// Reads a list of addresses, one to a line.
pub fn read_ip_list_file(content: &str) -> (r: Result<Vec<IpAddr>, DetectorError>)
    ensures
        match r {
            Ok(v) => addresses_of(text::lines(content@), 0) == Ok::<Seq<IpAddr>, Seq<char>>(v@),
            Err(e) => e is InvalidIp && addresses_of(text::lines(content@), 0) == Err::<
                Seq<IpAddr>,
                Seq<char>,
            >(e->InvalidIp_0@),
        },
{
    let cs = text::to_chars(content);
    let ls = text::split_lines(&cs);
    let ghost v = text::views(ls@);
    let mut r: Vec<IpAddr> = Vec::new();
    let mut i: usize = 0;
    proof {
        if let Ok(rest) = addresses_of(v, 0) {
            assert(r@ + rest =~= rest);
        }
    }
    while i < ls.len()
        invariant
            v == text::views(ls@),
            v == text::lines(content@),
            i <= ls@.len(),
            match addresses_of(v, i as int) {
                Ok(rest) => addresses_of(v, 0) == Ok::<Seq<IpAddr>, Seq<char>>(r@ + rest),
                Err(e) => addresses_of(v, 0) == Err::<Seq<IpAddr>, Seq<char>>(e),
            },
        decreases ls@.len() - i,
    {
        proof {
            assert(v[i as int] == ls@[i as int]@);
        }
        let t = strip_comment(ls[i]);
        if t.len() > 0 {
            match net::parse_ip_chars(t) {
                Some(ip) => {
                    let ghost before = r@;
                    r.push(ip);
                    proof {
                        if let Ok(rest) = addresses_of(v, i + 1) {
                            assert(before + (seq![ip] + rest) =~= r@ + rest);
                        }
                    }
                },
                None => {
                    return Err(DetectorError::InvalidIp(text::from_chars(t)));
                },
            }
        }
        i += 1;
    }
    proof {
        assert(r@ + Seq::<IpAddr>::empty() =~= r@);
    }
    Ok(r)
}

/// The lines that stand for tasks, without their comments, in order.
pub open spec fn task_lines(lines: Seq<Seq<char>>) -> Seq<Seq<char>>
    decreases lines.len(),
{
    if lines.len() == 0 {
        lines
    } else {
        let t = uncommented(lines.last());
        if t.len() > 0 && names_task(t) {
            task_lines(lines.drop_last()).push(t)
        } else {
            task_lines(lines.drop_last())
        }
    }
}

/// Whether these are the tasks of the lines.
pub open spec fn are_tasks(tasks: Seq<AsnTask>, lines: Seq<Seq<char>>) -> bool {
    &&& tasks.len() == lines.len()
    &&& forall|i: int| 0 <= i < lines.len() ==> is_task(#[trigger] tasks[i], lines[i])
}

/// Reads a list of tasks, one to a line; lines that stand for none are left out.
pub fn read_asn_task_file(content: &str) -> (r: Vec<AsnTask>)
    ensures
        are_tasks(r@, task_lines(text::lines(content@))),
{
    let cs = text::to_chars(content);
    let ls = text::split_lines(&cs);
    let ghost v = text::views(ls@);
    let mut r: Vec<AsnTask> = Vec::new();
    let mut i: usize = 0;
    proof {
        assert(v.take(0) =~= Seq::<Seq<char>>::empty());
    }
    while i < ls.len()
        invariant
            v == text::views(ls@),
            i <= ls@.len(),
            are_tasks(r@, task_lines(v.take(i as int))),
        decreases ls@.len() - i,
    {
        proof {
            assert(v.take(i + 1).drop_last() =~= v.take(i as int));
            assert(v.take(i + 1).last() == ls@[i as int]@);
        }
        let t = strip_comment(ls[i]);
        if t.len() > 0 {
            let line = text::from_chars(t);
            match AsnTask::parse_line(line.as_str()) {
                Ok(task) => {
                    r.push(task);
                },
                Err(_) => {},
            }
        }
        i += 1;
    }
    proof {
        assert(v.take(i as int) =~= v);
    }
    r
}

/// The open port that a line of a scan's output tells.
pub open spec fn open_port_of(line: Seq<char>) -> Option<OpenPort> {
    let t = text::trimmed(line);
    let w = text::words(t);
    if t.len() > 0 && t[0] != '#' && w.len() >= 4 && w[0] == "open"@ && w[1] == "tcp"@ {
        match (numeral::unsigned_value(w[2], 10, 0xffff), net::ip_text(w[3])) {
            (Some(p), Some(ip)) => Some(OpenPort { ip, port: p as u16 }),
            _ => None,
        }
    } else {
        None
    }
}

/// The open ports that lines tell, in order.
pub open spec fn open_ports_of(lines: Seq<Seq<char>>) -> Seq<OpenPort>
    decreases lines.len(),
{
    if lines.len() == 0 {
        Seq::empty()
    } else {
        match open_port_of(lines.last()) {
            Some(p) => open_ports_of(lines.drop_last()).push(p),
            None => open_ports_of(lines.drop_last()),
        }
    }
}

fn parse_output_line(line: &[char]) -> (r: Option<OpenPort>)
    ensures
        r == open_port_of(line@),
{
    let t = text::trim(line);
    if t.len() == 0 || t[0] == '#' {
        return None;
    }
    let w = text::split_words(t);
    let ghost v = text::views(w@);
    proof {
        assert(v.len() == w@.len());
    }
    if w.len() < 4 {
        return None;
    }
    proof {
        assert(v[0] == w@[0]@ && v[1] == w@[1]@ && v[2] == w@[2]@ && v[3] == w@[3]@);
    }
    if !text::is_str(w[0], "open") || !text::is_str(w[1], "tcp") {
        return None;
    }
    match (numeral::read_unsigned(w[2], 10, 0xffff), net::parse_ip_chars(w[3])) {
        (Some(p), Some(ip)) => Some(OpenPort { ip, port: p as u16 }),
        _ => None,
    }
}

/// Reads the output of a scan; lines that tell of no open port are left out.
pub fn parse_masscan_output(content: &str) -> (r: Vec<OpenPort>)
    ensures
        r@ == open_ports_of(text::lines(content@)),
{
    let cs = text::to_chars(content);
    let ls = text::split_lines(&cs);
    let ghost v = text::views(ls@);
    let mut r: Vec<OpenPort> = Vec::new();
    let mut i: usize = 0;
    proof {
        assert(v.take(0) =~= Seq::<Seq<char>>::empty());
    }
    while i < ls.len()
        invariant
            v == text::views(ls@),
            i <= ls@.len(),
            r@ == open_ports_of(v.take(i as int)),
        decreases ls@.len() - i,
    {
        proof {
            assert(v.take(i + 1).drop_last() =~= v.take(i as int));
            assert(v.take(i + 1).last() == ls@[i as int]@);
        }
        if let Some(p) = parse_output_line(ls[i]) {
            r.push(p);
        }
        i += 1;
    }
    proof {
        assert(v.take(i as int) =~= v);
    }
    r
}

/// The configuration of a scan and of what follows it.
#[derive(Clone, Debug)]
pub struct ScanPipelineConfig {
    pub masscan: MasscanConfig,
    pub detector_concurrency: usize,
    pub speedtest: bool,
    pub speedtest_threads: usize,
    pub output_dir: String,
}

impl Default for ScanPipelineConfig {
    fn default() -> (r: Self)
        ensures
            r.masscan.interface is None,
            r.masscan.rate == 10000,
            r.masscan.wait_seconds == 3,
            r.masscan.masscan_binary_path is None,
            r.masscan.asn_cache_dir@ == "asn"@,
            r.masscan.iface_setting_file@ == "setting.txt"@,
            r.masscan.user_agent@
                == "Mozilla/5.0 (Windows NT 10.0; Win64; x64) AppleWebKit/537.36 (KHTML, like Gecko) Chrome/110.0.0.0 Safari/537.36"@,
            r.detector_concurrency == 100,
            !r.speedtest,
            r.speedtest_threads == 3,
            r.output_dir@ == "."@,
    {
        ScanPipelineConfig {
            masscan: MasscanConfig::new(),
            detector_concurrency: 100,
            speedtest: false,
            speedtest_threads: 3,
            output_dir: text::owned("."),
        }
    }
}

// ---------------------------------------------------------------------------
// Laws

/// The line that a scan writes of an open port, with whatever follows the address.
pub open spec fn port_line(p: OpenPort, rest: Seq<char>) -> Seq<char> {
    "open tcp "@ + numeral::decimal(p.port as nat) + seq![' '] + net::show_ip(p.ip) + seq![' ']
        + rest
}

/// The output of a scan: a line for each open port.
pub open spec fn scan_output(ports: Seq<OpenPort>, rest: Seq<char>) -> Seq<char>
    decreases ports.len(),
{
    if ports.len() == 0 {
        Seq::empty()
    } else {
        port_line(ports[0], rest) + seq!['\n'] + scan_output(ports.skip(1), rest)
    }
}

proof fn lemma_plain_word(w: Seq<char>)
    requires
        w.len() > 0,
        forall|i: int| 0 <= i < w.len() ==> !text::is_space(#[trigger] w[i]),
    ensures
        text::words(w) == seq![w],
{
    text::law_words(w, ' ', Seq::empty());
}

proof fn lemma_line_words(number: Seq<char>, address: Seq<char>, rest: Seq<char>)
    requires
        number.len() > 0,
        address.len() > 0,
        forall|i: int| 0 <= i < number.len() ==> !text::is_space(#[trigger] number[i]),
        forall|i: int| 0 <= i < address.len() ==> !text::is_space(#[trigger] address[i]),
    ensures
        text::words("open tcp "@ + number + seq![' '] + address + seq![' '] + rest) == seq![
            "open"@,
            "tcp"@,
            number,
            address,
        ] + text::words(rest),
{
    reveal_strlit("open tcp ");
    reveal_strlit("open");
    reveal_strlit("tcp");
    let (open, tcp, blank) = ("open"@, "tcp"@, seq![' ']);
    let c = address + blank + rest;
    let b = number + blank + c;
    let a = tcp + blank + b;
    assert("open tcp "@ + number + blank + address + blank + rest =~= open + blank + a);
    lemma_plain_word(open);
    lemma_plain_word(tcp);
    lemma_plain_word(number);
    lemma_plain_word(address);
    text::law_words(open, ' ', a);
    text::law_words(tcp, ' ', b);
    text::law_words(number, ' ', c);
    text::law_words(address, ' ', rest);
    assert(seq![open] + (seq![tcp] + (seq![number] + (seq![address] + text::words(rest)))) =~= seq![
        open,
        tcp,
        number,
        address,
    ] + text::words(rest));
}

/// A line of an open port tells the port and the address that stand in it, whatever the port,
/// the address and what follows; a number that is no port tells nothing.
pub proof fn law_open_port_is_read(ip: IpAddr, number: nat, rest: Seq<char>)
    ensures
        open_port_of(
            "open tcp "@ + numeral::decimal(number) + seq![' '] + net::show_ip(ip) + seq![' ']
                + rest,
        ) == (if number <= 0xffff {
            Some(OpenPort { ip, port: number as u16 })
        } else {
            None
        }),
{
    let d = numeral::decimal(number);
    let a = net::show_ip(ip);
    let line = "open tcp "@ + d + seq![' '] + a + seq![' '] + rest;
    numeral::lemma_numeral(number, 10);
    assert forall|i: int| 0 <= i < d.len() implies !text::is_space(#[trigger] d[i]) by {
        assert(text::digit_value(d[i], 10) is Some);
    }
    assert(text::digit_value(d[0], 10) is Some);
    net::lemma_address_plain(ip);
    net::law_read_written_address(ip);
    lemma_line_words(d, a, rest);
    text::law_trimmed_words(line);
    reveal_strlit("open");
}

/// A line that does not begin with the words of an open port, or is too short for one, tells
/// nothing; so does every comment.
pub proof fn law_other_lines_tell_nothing(line: Seq<char>)
    requires
        text::words(line).len() < 4 || text::words(line)[0] != "open"@ || text::words(line)[1]
            != "tcp"@,
    ensures
        open_port_of(line) is None,
{
    text::law_trimmed_words(line);
}

/// The open ports of a scan are those that its lines tell, in their order.
pub proof fn law_open_ports(a: Seq<Seq<char>>, b: Seq<Seq<char>>, one: Seq<char>)
    ensures
        open_ports_of(a + b) == open_ports_of(a) + open_ports_of(b),
        open_ports_of(seq![one]) == (match open_port_of(one) {
            Some(p) => seq![p],
            None => Seq::empty(),
        }),
    decreases b.len(),
{
    let none = Seq::<Seq<char>>::empty();
    assert(seq![one].drop_last() =~= none);
    assert(open_ports_of(none) =~= Seq::<OpenPort>::empty());
    assert(open_ports_of(seq![one]) =~= (match open_port_of(one) {
        Some(p) => seq![p],
        None => Seq::empty(),
    }));
    if b.len() == 0 {
        assert(a + b =~= a);
        assert(open_ports_of(a) + open_ports_of(b) =~= open_ports_of(a));
    } else {
        assert((a + b).drop_last() =~= a + b.drop_last());
        law_open_ports(a, b.drop_last(), one);
        assert(open_ports_of(a + b) =~= open_ports_of(a) + open_ports_of(b));
    }
}

/// Every open port that a scan wrote is read back, in order.
pub proof fn law_scan_output_is_read(ports: Seq<OpenPort>, rest: Seq<char>)
    requires
        forall|i: int| 0 <= i < rest.len() ==> !text::is_space(#[trigger] rest[i]),
    ensures
        open_ports_of(text::lines(scan_output(ports, rest))) == ports,
    decreases ports.len(),
{
    if ports.len() == 0 {
        text::law_lines(Seq::empty(), Seq::empty());
        assert(open_ports_of(Seq::empty()) =~= ports);
    } else {
        let p = ports[0];
        let line = port_line(p, rest);
        let others = scan_output(ports.skip(1), rest);
        let d = numeral::decimal(p.port as nat);
        let a = net::show_ip(p.ip);
        numeral::lemma_numeral(p.port as nat, 10);
        net::lemma_address_plain(p.ip);
        reveal_strlit("open tcp ");
        assert forall|i: int| 0 <= i < line.len() implies line[i] != '\n' && line[i] != '\r' by {
            let n = 9 + d.len();
            if i < 9 {
                assert(line[i] == "open tcp "@[i]);
            } else if i < n {
                assert(line[i] == d[i - 9]);
                assert(text::digit_value(d[i - 9], 10) is Some);
            } else if i == n {
            } else if i < n + 1 + a.len() {
                assert(line[i] == a[i - n - 1]);
            } else if i == n + 1 + a.len() {
            } else {
                assert(line[i] == rest[i - n - 2 - a.len()]);
            }
        }
        text::law_lines(line, others);
        law_open_port_is_read(p.ip, p.port as nat, rest);
        law_scan_output_is_read(ports.skip(1), rest);
        law_open_ports(seq![line], text::lines(others), line);
        assert(seq![p] + ports.skip(1) =~= ports);
    }
}

/// A line of the kernel's table names what stands before its first colon, without the white
/// space around it; neither the loopback nor an empty name counts.
pub proof fn law_interface_line(before: Seq<char>, name: Seq<char>, rest: Seq<char>)
    requires
        forall|i: int| 0 <= i < before.len() ==> text::is_space(#[trigger] before[i]),
        name.len() > 0 ==> !text::is_space(name[0]) && !text::is_space(name.last()),
        !name.contains(':'),
    ensures
        interface_of(before + name + seq![':'] + rest) == (if name.len() == 0 || name == seq![
            'l',
            'o',
        ] {
            None
        } else {
            Some(name)
        }),
        interface_of(name) is None,
{
    let line = before + name + seq![':'] + rest;
    let n = before.len() + name.len();
    assert forall|j: int| 0 <= j < n implies line[j] != ':' by {
        if j < before.len() {
            assert(line[j] == before[j]);
        } else {
            assert(line[j] == name[j - before.len()]);
            assert(name.contains(name[j - before.len()]));
        }
    }
    text::lemma_find_at(line, ':', 0, n as int);
    let none = Seq::<char>::empty();
    text::law_trimmed_space(before, name, none);
    assert(line.take(n as int) =~= before + name + none);
    reveal_strlit("lo");
    assert("lo"@ =~= seq!['l', 'o']);
    assert forall|j: int| 0 <= j < name.len() implies name[j] != ':' by {
        assert(name.contains(name[j]));
    }
    text::lemma_find_at(name, ':', 0, name.len() as int);
}

/// The interfaces are those of the lines behind the two of the heading, in order.
pub proof fn law_interfaces(a: Seq<Seq<char>>, b: Seq<Seq<char>>, one: Seq<char>, two: Seq<char>)
    ensures
        behind_heading(seq![one, two] + a) == a,
        interfaces_of(a + b) == interfaces_of(a) + interfaces_of(b),
        interfaces_of(seq![one]) == (match interface_of(one) {
            Some(n) => seq![n],
            None => Seq::empty(),
        }),
    decreases b.len(),
{
    let none = Seq::<Seq<char>>::empty();
    assert(behind_heading(seq![one, two] + a) =~= a);
    assert(seq![one].drop_last() =~= none);
    assert(interfaces_of(none) =~= none);
    assert(interfaces_of(seq![one]) =~= (match interface_of(one) {
        Some(n) => seq![n],
        None => Seq::empty(),
    }));
    if b.len() == 0 {
        assert(a + b =~= a);
        assert(interfaces_of(a) + interfaces_of(b) =~= interfaces_of(a));
    } else {
        assert((a + b).drop_last() =~= a + b.drop_last());
        law_interfaces(a, b.drop_last(), one, two);
        assert(interfaces_of(a + b) =~= interfaces_of(a) + interfaces_of(b));
    }
}

/// The prefixes of a kept list are its lines without the white space around them, in order;
/// empty lines are left out.
pub proof fn law_kept_prefixes(a: Seq<Seq<char>>, b: Seq<Seq<char>>, one: Seq<char>)
    ensures
        nonempty_trimmed(a + b) == nonempty_trimmed(a) + nonempty_trimmed(b),
        nonempty_trimmed(seq![one]) == (if text::trimmed(one).len() > 0 {
            seq![text::trimmed(one)]
        } else {
            Seq::empty()
        }),
    decreases b.len(),
{
    let none = Seq::<Seq<char>>::empty();
    assert(seq![one].drop_last() =~= none);
    assert(nonempty_trimmed(none) =~= none);
    assert(nonempty_trimmed(seq![one]) =~= (if text::trimmed(one).len() > 0 {
        seq![text::trimmed(one)]
    } else {
        Seq::empty()
    }));
    if b.len() == 0 {
        assert(a + b =~= a);
        assert(nonempty_trimmed(a) + nonempty_trimmed(b) =~= nonempty_trimmed(a));
    } else {
        assert((a + b).drop_last() =~= a + b.drop_last());
        law_kept_prefixes(a, b.drop_last(), one);
        assert(nonempty_trimmed(a + b) =~= nonempty_trimmed(a) + nonempty_trimmed(b));
    }
}

/// What follows a number sign does not count, and white space around the rest does not either.
pub proof fn law_comments_do_not_count(
    before: Seq<char>,
    t: Seq<char>,
    behind: Seq<char>,
    comment: Seq<char>,
)
    requires
        forall|i: int| 0 <= i < before.len() ==> text::is_space(#[trigger] before[i]),
        forall|i: int| 0 <= i < behind.len() ==> text::is_space(#[trigger] behind[i]),
        t.len() > 0 ==> !text::is_space(t[0]) && !text::is_space(t.last()),
        !t.contains('#'),
    ensures
        uncommented(before + t + behind) == t,
        uncommented(before + t + behind + seq!['#'] + comment) == t,
{
    let s = before + t + behind;
    assert forall|j: int| 0 <= j < s.len() implies s[j] != '#' by {
        if j < before.len() {
            assert(s[j] == before[j]);
        } else if j < before.len() + t.len() {
            assert(s[j] == t[j - before.len()]);
            assert(t.contains(t[j - before.len()]));
        } else {
            assert(s[j] == behind[j - before.len() - t.len()]);
        }
    }
    text::law_trimmed_space(before, t, behind);
    text::lemma_find_at(s, '#', 0, s.len() as int);
    assert(s.take(s.len() as int) =~= s);
    let c = s + seq!['#'] + comment;
    text::lemma_find_at(c, '#', 0, s.len() as int);
    assert(c.take(s.len() as int) =~= s);
}

/// A list of addresses that was written is read back in order, whatever comments and white
/// space stand around; the first line that is none of these ends the reading with its text.
pub proof fn law_address_list(
    lines: Seq<Seq<char>>,
    i: int,
    ip: IpAddr,
    rest: Result<Seq<IpAddr>, Seq<char>>,
)
    requires
        0 <= i < lines.len(),
        addresses_of(lines, i + 1) == rest,
    ensures
        uncommented(lines[i]) == net::show_ip(ip) ==> addresses_of(lines, i) == (match rest {
            Ok(ips) => Ok::<Seq<IpAddr>, Seq<char>>(seq![ip] + ips),
            Err(e) => Err(e),
        }),
        uncommented(lines[i]).len() == 0 ==> addresses_of(lines, i) == rest,
        uncommented(lines[i]).len() > 0 && net::ip_text(uncommented(lines[i])) is None
            ==> addresses_of(lines, i) == Err::<Seq<IpAddr>, Seq<char>>(uncommented(lines[i])),
        addresses_of(lines, lines.len() as int) == Ok::<Seq<IpAddr>, Seq<char>>(Seq::empty()),
{
    net::law_read_written_address(ip);
    net::lemma_address_plain(ip);
}

/// Addresses one to a line are all read, in order.
pub proof fn law_written_addresses_are_read(lines: Seq<Seq<char>>, ips: Seq<IpAddr>, i: int)
    requires
        lines.len() == ips.len(),
        0 <= i <= lines.len(),
        forall|j: int|
            0 <= j < lines.len() ==> #[trigger] lines[j] == net::show_ip(ips[j]),
    ensures
        addresses_of(lines, i) == Ok::<Seq<IpAddr>, Seq<char>>(ips.skip(i)),
    decreases lines.len() - i,
{
    if i < lines.len() {
        law_written_addresses_are_read(lines, ips, i + 1);
        let t = lines[i];
        net::lemma_address_plain(ips[i]);
        net::lemma_address_unmarked(ips[i]);
        let none = Seq::<char>::empty();
        assert(none + t + none =~= t);
        law_comments_do_not_count(none, t, none, none);
        law_address_list(lines, i, ips[i], addresses_of(lines, i + 1));
        assert(seq![ips[i]] + ips.skip(i + 1) =~= ips.skip(i));
    } else {
        assert(ips.skip(i) =~= Seq::<IpAddr>::empty());
    }
}

/// A task line that was put together of a number, ports and a flag stands for that task, and
/// speaks TLS exactly where the flag is one of the words for yes.
#[verifier::rlimit(40)]
pub proof fn law_task_is_read(asn: u32, ports: Seq<char>, flag: Seq<char>, t: AsnTask)
    requires
        !flag.contains(':'),
        is_task(t, numeral::decimal(asn as nat).push(':') + ports.push(':') + flag),
    ensures
        t.asn == asn,
        t.ports@ == ports,
        flag == "1"@ || flag == "true"@ || flag == "True"@ || flag == "TRUE"@ || flag == "yes"@
            || flag == "YES"@ || flag == "Y"@ || flag == "y"@ ==> t.tls,
        flag == "0"@ || flag == "false"@ || flag == "no"@ || flag == "n"@ || flag.len() == 0
            ==> !t.tls,
{
    let number = numeral::decimal(asn as nat);
    numeral::lemma_numeral(asn as nat, 10);
    numeral::lemma_read_numeral(asn as nat, 10, u32::MAX as int);
    assert forall|i: int| 0 <= i < number.len() implies number[i] != ':' by {
        assert(text::digit_value(number[i], 10) is Some);
    }
    law_task_parts(number, ports, flag);
    reveal_strlit("1");
    reveal_strlit("true");
    reveal_strlit("True");
    reveal_strlit("TRUE");
    reveal_strlit("yes");
    reveal_strlit("YES");
    reveal_strlit("Y");
    reveal_strlit("y");
    reveal_strlit("0");
    reveal_strlit("false");
    reveal_strlit("no");
    reveal_strlit("n");
    if flag == "1"@ || flag == "true"@ || flag == "True"@ || flag == "TRUE"@ || flag == "yes"@ || flag
        == "YES"@ || flag == "Y"@ || flag == "y"@ || flag == "0"@ || flag == "false"@ || flag == "no"@
        || flag == "n"@ || flag.len() == 0 {
        text::lemma_trim_keeps(flag, text::space_fn());
    }
}

/// A number and two colons make a task.
pub proof fn law_written_task_counts(asn: u32, ports: Seq<char>, flag: Seq<char>)
    requires
        !flag.contains(':'),
    ensures
        names_task(numeral::decimal(asn as nat).push(':') + ports.push(':') + flag),
{
    let number = numeral::decimal(asn as nat);
    numeral::lemma_numeral(asn as nat, 10);
    numeral::lemma_read_numeral(asn as nat, 10, u32::MAX as int);
    assert forall|i: int| 0 <= i < number.len() implies number[i] != ':' by {
        assert(text::digit_value(number[i], 10) is Some);
    }
    law_task_parts(number, ports, flag);
}

/// The tasks of a list are those of its lines, in order; lines that stand for none are left
/// out.
pub proof fn law_task_lines(a: Seq<Seq<char>>, b: Seq<Seq<char>>, one: Seq<char>)
    ensures
        task_lines(a + b) == task_lines(a) + task_lines(b),
        task_lines(seq![one]) == (if names_task(uncommented(one)) {
            seq![uncommented(one)]
        } else {
            Seq::empty()
        }),
    decreases b.len(),
{
    let none = Seq::<Seq<char>>::empty();
    let t = uncommented(one);
    assert(seq![one].drop_last() =~= none);
    assert(task_lines(none) =~= none);
    if names_task(t) {
        assert(t.len() > 0) by {
            if t.len() == 0 {
                text::lemma_find_at(t, ':', 0, 0);
            }
        }
    }
    assert(task_lines(seq![one]) =~= (if names_task(t) {
        seq![t]
    } else {
        Seq::empty()
    }));
    if b.len() == 0 {
        assert(a + b =~= a);
        assert(task_lines(a) + task_lines(b) =~= task_lines(a));
    } else {
        assert((a + b).drop_last() =~= a + b.drop_last());
        law_task_lines(a, b.drop_last(), one);
        assert(task_lines(a + b) =~= task_lines(a) + task_lines(b));
    }
}

/// The configured command is run where it is there, and only there; else the one in the current
/// directory where that is there; else the one on the search path.
pub proof fn law_command_is_there(configured: Seq<char>, there: bool, local: bool)
    ensures
        chosen_command(Some(configured), true, local) == configured,
        chosen_command(Some(configured), false, true) == "./masscan"@,
        chosen_command(Some(configured), false, false) == "masscan"@,
        chosen_command(None, there, true) == "./masscan"@,
        chosen_command(None, there, false) == "masscan"@,
{
}

/// A line with fewer than two colons names no task.
pub proof fn law_lines_without_a_task(line: Seq<char>, i: int)
    requires
        forall|j: int| 0 <= j < line.len() && j != i ==> line[j] != ':',
    ensures
        !names_task(line),
{
    text::lemma_find_from(line, ':', 0);
    lemma_last_colon(line, line.len() as int, i);
}

proof fn lemma_last_colon(s: Seq<char>, n: int, i: int)
    requires
        0 <= n <= s.len(),
        forall|j: int| 0 <= j < s.len() && j != i ==> s[j] != ':',
    ensures
        text::last_before(s, ':', n) == -1 || text::last_before(s, ':', n) == i,
        text::last_before(s, ':', n) == i && i >= 0 ==> i < n && s[i] == ':',
    decreases n,
{
    if n > 0 {
        lemma_last_colon(s, n - 1, i);
    }
}

/// A line whose first part is no number names no task.
pub proof fn law_task_needs_a_number(word: Seq<char>, ports: Seq<char>, flag: Seq<char>)
    requires
        !word.contains(':'),
        !flag.contains(':'),
        word.len() > 0 ==> !text::is_space(word[0]) && !text::is_space(word.last()),
        word.len() == 0 || text::digit_value(word[0], 10) is None && word[0] != '+',
    ensures
        !names_task(word.push(':') + ports.push(':') + flag),
{
    law_task_parts(word, ports, flag);
    text::lemma_trim_keeps(word, text::space_fn());
    if word.len() > 0 {
        assert(text::digit_value(word[0], 10) is None);
    }
}

/// A number below zero is written as the numeral of its opposite behind a minus sign; every other
/// one as its numeral.
pub proof fn law_signed_decimal(n: nat)
    ensures
        signed_decimal(n as int) == numeral::decimal(n),
        n > 0 ==> signed_decimal(-(n as int)) == seq!['-'] + numeral::decimal(n),
{
    reveal_strlit("-");
    assert("-"@ =~= seq!['-']);
}

/// Tasks are read line by line, in order: each stands for the line in its place.
pub proof fn law_tasks_of_lines(tasks: Seq<AsnTask>, lines: Seq<Seq<char>>, i: int)
    requires
        are_tasks(tasks, lines),
        0 <= i < lines.len(),
    ensures
        tasks.len() == lines.len(),
        task_asn(lines[i]) == Some(tasks[i].asn as int),
        tasks[i].ports@ == task_ports(lines[i]),
        tasks[i].tls == is_yes(text::trimmed(task_flag(lines[i]))),
        has_task_parts(lines[i]),
{
    assert(is_task(tasks[i], lines[i]));
}

} // verus!
