//! Targets as users give them: on the command line, in the environment, in files.

use vstd::prelude::*;
use vstd::slice::slice_subrange;

use crate::masscan;
use crate::model::Target;
use crate::net;
use crate::net::IpAddr;
use crate::numeral;
use crate::text;

verus! {

/// The port of a target that names none.
pub const DEFAULT_PORT: u16 = 443;

/// What is wrong with a target.
#[derive(Clone, Copy, Debug, PartialEq, Eq, Structural)]
pub enum InputFault {
    /// No address stands before the last colon.
    Address,
    /// No port stands behind the last colon.
    Port,
    /// There is no colon, and the whole is no address.
    Form,
    /// An address of a list of objects or rows is none.
    ListedAddress,
    /// The list is neither one of objects nor one of texts.
    List,
}

/// A target that could not be read, and the text at fault.
#[derive(Clone, Debug)]
pub struct InputError {
    pub fault: InputFault,
    pub text: String,
}

/// The characters that may surround an address.
pub open spec fn brackets() -> Seq<char> {
    seq!['[', ']']
}

/// The target that a text stands for; none for an empty one.
pub open spec fn user_target(raw: Seq<char>, default_port: u16) -> Result<Option<Target>, InputFault> {
    let s = text::trimmed(raw);
    let colon = text::last_position(s, ':');
    if s.len() == 0 {
        Ok(None)
    } else {
        match net::socket_text(s) {
            Some((ip, port)) => Ok(Some(Target { ip, port })),
            None => match net::ip_text(s) {
                Some(ip) => Ok(Some(Target { ip, port: default_port })),
                None => if colon >= 0 {
                    match net::ip_text(text::trim_by(s.take(colon), text::member_fn(brackets()))) {
                        Some(ip) => match numeral::unsigned_value(s.skip(colon + 1), 10, 0xffff) {
                            Some(p) => Ok(Some(Target { ip, port: p as u16 })),
                            None => Err(InputFault::Port),
                        },
                        None => Err(InputFault::Address),
                    }
                } else {
                    Err(InputFault::Form)
                },
            },
        }
    }
}

fn parse_user_target(raw: &[char], default_port: u16) -> (r: Result<Option<Target>, InputError>)
    ensures
        match r {
            Ok(t) => user_target(raw@, default_port) == Ok::<Option<Target>, InputFault>(t),
            Err(e) => user_target(raw@, default_port) == Err::<Option<Target>, InputFault>(e.fault)
                && e.text@ == text::trimmed(raw@),
        },
{
    let s = text::trim(raw);
    if s.len() == 0 {
        return Ok(None);
    }
    if let Some((ip, port)) = net::parse_socket(s) {
        return Ok(Some(Target::new(ip, port)));
    }
    if let Some(ip) = net::parse_ip_chars(s) {
        return Ok(Some(Target::new(ip, default_port)));
    }
    if let Some(colon) = text::rfind_char(s, ':') {
        assert(s@.len() == s.len());
        assert(s@.subrange(0, colon as int) =~= s@.take(colon as int));
        assert(s@.subrange(colon + 1, s@.len() as int) =~= s@.skip(colon + 1));
        let marks: Vec<char> = vec!['[', ']'];
        proof {
            assert(marks@ =~= brackets());
        }
        let inner = text::trim_set(slice_subrange(s, 0, colon), &marks);
        return match net::parse_ip_chars(inner) {
            Some(ip) => match numeral::read_unsigned(
                slice_subrange(s, colon + 1, s.len()),
                10,
                0xffff,
            ) {
                Some(p) => Ok(Some(Target::new(ip, p as u16))),
                None => Err(InputError { fault: InputFault::Port, text: text::from_chars(s) }),
            },
            None => Err(InputError { fault: InputFault::Address, text: text::from_chars(s) }),
        };
    }
    Err(InputError { fault: InputFault::Form, text: text::from_chars(s) })
}

/// Reads a target as a user gives it.
pub fn parse_target(raw: &str, default_port: u16) -> (r: Result<Option<Target>, InputError>)
    ensures
        match r {
            Ok(t) => user_target(raw@, default_port) == Ok::<Option<Target>, InputFault>(t),
            Err(e) => user_target(raw@, default_port) == Err::<Option<Target>, InputFault>(e.fault)
                && e.text@ == text::trimmed(raw@),
        },
{
    let cs = text::to_chars(raw);
    parse_user_target(&cs, default_port)
}

/// A fault and the text at fault.
pub type Fault = (InputFault, Seq<char>);

/// The targets that texts stand for, from index `i` on, or the first fault among them;
/// empty texts do not count.
pub open spec fn targets_from(texts: Seq<Seq<char>>, i: int, default_port: u16) -> Result<
    Seq<Target>,
    Fault,
>
    decreases texts.len() - i,
{
    if i < 0 || i >= texts.len() {
        Ok(Seq::empty())
    } else {
        match user_target(texts[i], default_port) {
            Ok(t) => match targets_from(texts, i + 1, default_port) {
                Ok(rest) => match t {
                    Some(x) => Ok(seq![x] + rest),
                    None => Ok(rest),
                },
                Err(e) => Err(e),
            },
            Err(f) => Err((f, text::trimmed(texts[i]))),
        }
    }
}

/// The targets that texts stand for, or the first fault among them.
pub open spec fn targets_of(texts: Seq<Seq<char>>, default_port: u16) -> Result<Seq<Target>, Fault> {
    targets_from(texts, 0, default_port)
}

/// Whether a reading gives what it should.
pub open spec fn reads_as(
    r: Result<Vec<Target>, InputError>,
    want: Result<Seq<Target>, Fault>,
) -> bool {
    match (r, want) {
        (Ok(v), Ok(s)) => v@ == s,
        (Err(e), Err(f)) => e.fault == f.0 && e.text@ == f.1,
        _ => false,
    }
}

fn read_slices(texts: &Vec<&[char]>, default_port: u16) -> (r: Result<Vec<Target>, InputError>)
    ensures
        reads_as(r, targets_of(text::views(texts@), default_port)),
{
    let ghost v = text::views(texts@);
    let mut out: Vec<Target> = Vec::new();
    let mut i: usize = 0;
    proof {
        if let Ok(rest) = targets_from(v, 0, default_port) {
            assert(out@ + rest =~= rest);
        }
    }
    while i < texts.len()
        invariant
            v == text::views(texts@),
            i <= texts@.len(),
            match targets_from(v, i as int, default_port) {
                Ok(rest) => targets_of(v, default_port) == Ok::<Seq<Target>, Fault>(out@ + rest),
                Err(e) => targets_of(v, default_port) == Err::<Seq<Target>, Fault>(e),
            },
        decreases texts@.len() - i,
    {
        proof {
            assert(v[i as int] == texts@[i as int]@);
        }
        match parse_user_target(texts[i], default_port) {
            Ok(Some(t)) => {
                let ghost before = out@;
                out.push(t);
                proof {
                    if let Ok(rest) = targets_from(v, i + 1, default_port) {
                        assert(before + (seq![t] + rest) =~= out@ + rest);
                    }
                }
            },
            Ok(None) => {},
            Err(e) => {
                return Err(e);
            },
        }
        i += 1;
    }
    proof {
        assert(out@ + Seq::<Target>::empty() =~= out@);
    }
    Ok(out)
}

/// Reads a list of targets.
pub fn collect_listed(texts: &Vec<String>, default_port: u16) -> (r: Result<Vec<Target>, InputError>)
    ensures
        reads_as(r, targets_of(text::strings(texts@), default_port)),
{
    let ghost v = text::strings(texts@);
    let mut out: Vec<Target> = Vec::new();
    let mut i: usize = 0;
    proof {
        if let Ok(rest) = targets_from(v, 0, default_port) {
            assert(out@ + rest =~= rest);
        }
    }
    while i < texts.len()
        invariant
            v == text::strings(texts@),
            i <= texts@.len(),
            match targets_from(v, i as int, default_port) {
                Ok(rest) => targets_of(v, default_port) == Ok::<Seq<Target>, Fault>(out@ + rest),
                Err(e) => targets_of(v, default_port) == Err::<Seq<Target>, Fault>(e),
            },
        decreases texts@.len() - i,
    {
        proof {
            assert(v[i as int] == texts@[i as int]@);
        }
        match parse_target(texts[i].as_str(), default_port) {
            Ok(Some(t)) => {
                let ghost before = out@;
                out.push(t);
                proof {
                    if let Ok(rest) = targets_from(v, i + 1, default_port) {
                        assert(before + (seq![t] + rest) =~= out@ + rest);
                    }
                }
            },
            Ok(None) => {},
            Err(e) => {
                return Err(e);
            },
        }
        i += 1;
    }
    proof {
        assert(out@ + Seq::<Target>::empty() =~= out@);
    }
    Ok(out)
}

/// The text with every comma as a space.
pub open spec fn commas_as_spaces(s: Seq<char>) -> Seq<char> {
    s.map_values(
        |c: char|
            if c == ',' {
                ' '
            } else {
                c
            },
    )
}

/// Reads targets with commas or white space between them.
pub fn collect_separated(value: &str, default_port: u16) -> (r: Result<Vec<Target>, InputError>)
    ensures
        reads_as(r, targets_of(text::words(commas_as_spaces(value@)), default_port)),
{
    let mut cs: Vec<char> = Vec::new();
    let raw = text::to_chars(value);
    let mut i: usize = 0;
    while i < raw.len()
        invariant
            raw@ == value@,
            i <= raw@.len(),
            cs@ == commas_as_spaces(raw@.take(i as int)),
        decreases raw@.len() - i,
    {
        let c = if raw[i] == ',' {
            ' '
        } else {
            raw[i]
        };
        cs.push(c);
        proof {
            assert(commas_as_spaces(raw@.take(i + 1)) =~= commas_as_spaces(raw@.take(i as int)).push(c));
        }
        i += 1;
    }
    proof {
        assert(raw@.take(i as int) =~= raw@);
    }
    let ws = text::split_words(&cs);
    read_slices(&ws, default_port)
}

/// The lines of a text without their comments.
pub open spec fn uncommented_lines(s: Seq<char>) -> Seq<Seq<char>> {
    text::lines(s).map_values(|l: Seq<char>| masscan::uncommented(l))
}

/// Reads a file with one target to a line.
pub fn collect_lines(data: &str, default_port: u16) -> (r: Result<Vec<Target>, InputError>)
    ensures
        reads_as(r, targets_of(uncommented_lines(data@), default_port)),
{
    let cs = text::to_chars(data);
    let ls = text::split_lines(&cs);
    let ghost v = text::views(ls@);
    let mut stripped: Vec<&[char]> = Vec::new();
    let mut i: usize = 0;
    while i < ls.len()
        invariant
            v == text::views(ls@),
            i <= ls@.len(),
            text::views(stripped@) == v.take(i as int).map_values(
                |l: Seq<char>| masscan::uncommented(l),
            ),
        decreases ls@.len() - i,
    {
        let t = masscan::strip_comment(ls[i]);
        let ghost before = stripped@;
        stripped.push(t);
        proof {
            assert(text::views(stripped@) =~= text::views(before).push(t@));
            assert(v[i as int] == ls@[i as int]@);
            assert(v.take(i + 1).map_values(|l: Seq<char>| masscan::uncommented(l)) =~= v.take(
                i as int,
            ).map_values(|l: Seq<char>| masscan::uncommented(l)).push(t@));
        }
        i += 1;
    }
    proof {
        assert(v.take(i as int) =~= v);
    }
    read_slices(&stripped, default_port)
}

/// A target of a list of objects.
#[derive(Clone, Debug)]
pub struct InputTarget {
    pub ip: String,
    pub port: u16,
}

/// The targets of a list of objects, from index `i` on, or the first address that is none.
pub open spec fn objects_from(items: Seq<InputTarget>, i: int) -> Result<Seq<Target>, Fault>
    decreases items.len() - i,
{
    if i < 0 || i >= items.len() {
        Ok(Seq::empty())
    } else {
        match net::ip_text(items[i].ip@) {
            Some(ip) => match objects_from(items, i + 1) {
                Ok(rest) => Ok(seq![Target { ip, port: items[i].port }] + rest),
                Err(e) => Err(e),
            },
            None => Err((InputFault::ListedAddress, items[i].ip@)),
        }
    }
}

/// Takes the targets of a list of objects.
pub fn collect_objects(items: &Vec<InputTarget>) -> (r: Result<Vec<Target>, InputError>)
    ensures
        reads_as(r, objects_from(items@, 0)),
{
    let mut out: Vec<Target> = Vec::new();
    let mut i: usize = 0;
    proof {
        if let Ok(rest) = objects_from(items@, 0) {
            assert(out@ + rest =~= rest);
        }
    }
    while i < items.len()
        invariant
            i <= items@.len(),
            match objects_from(items@, i as int) {
                Ok(rest) => objects_from(items@, 0) == Ok::<Seq<Target>, Fault>(out@ + rest),
                Err(e) => objects_from(items@, 0) == Err::<Seq<Target>, Fault>(e),
            },
        decreases items@.len() - i,
    {
        match net::parse_ip(items[i].ip.as_str()) {
            Some(ip) => {
                let ghost before = out@;
                let t = Target::new(ip, items[i].port);
                out.push(t);
                proof {
                    if let Ok(rest) = objects_from(items@, i + 1) {
                        assert(before + (seq![t] + rest) =~= out@ + rest);
                    }
                }
            },
            None => {
                return Err(
                    InputError { fault: InputFault::ListedAddress, text: items[i].ip.clone() },
                );
            },
        }
        i += 1;
    }
    proof {
        assert(out@ + Seq::<Target>::empty() =~= out@);
    }
    Ok(out)
}

// What `serde_json::from_str` reads as a list of strings; none where the text is not one.
pub uninterp spec fn json_strings(s: Seq<char>) -> Option<Seq<Seq<char>>>;

/// `serde_json::from_str` into a list of strings: the strings of a JSON array that holds
/// nothing else. What JSON is, is left to the name `json_strings`.
#[verifier::external_body]
fn parse_json_strings(s: &str) -> (r: Option<Vec<String>>)
    ensures
        match r {
            Some(v) => json_strings(s@) == Some(text::strings(v@)),
            None => json_strings(s@) is None,
        },
{
    serde_json::from_str(s).ok()
}

/// The targets of a JSON file that is no list of objects, given the strings that it
/// lists, if it lists any.
pub open spec fn json_targets(
    data: Seq<char>,
    strings: Option<Seq<Seq<char>>>,
    default_port: u16,
) -> Result<Seq<Target>, Fault> {
    match strings {
        Some(list) => targets_of(list, default_port),
        None => Err((InputFault::List, data)),
    }
}

/// Takes the strings that a JSON file lists, if it lists any.
pub fn collect_strings(data: &str, strings: &Option<Vec<String>>, default_port: u16) -> (r: Result<
    Vec<Target>,
    InputError,
>)
    ensures
        reads_as(
            r,
            json_targets(
                data@,
                match *strings {
                    Some(v) => Some(text::strings(v@)),
                    None => None,
                },
                default_port,
            ),
        ),
{
    match strings {
        Some(list) => collect_listed(list, default_port),
        None => Err(InputError { fault: InputFault::List, text: text::owned(data) }),
    }
}

/// Reads a JSON file: a list of objects, as far as it is one, or else a list of strings.
pub fn collect_json(
    data: &str,
    objects: &Option<Vec<InputTarget>>,
    default_port: u16,
) -> (r: Result<Vec<Target>, InputError>)
    ensures
        match *objects {
            Some(items) => reads_as(r, objects_from(items@, 0)),
            None => reads_as(
                r,
                json_targets(
                    text::trimmed(data@),
                    json_strings(text::trimmed(data@)),
                    default_port,
                ),
            ),
        },
{
    if let Some(items) = objects {
        return collect_objects(items);
    }
    let cs = text::to_chars(data);
    let t = text::from_chars(text::trim(&cs));
    let strings = parse_json_strings(t.as_str());
    collect_strings(t.as_str(), &strings, default_port)
}

/// A row of a table of targets.
#[derive(Clone, Debug)]
pub struct CsvInputRow {
    pub ip: String,
    pub port: Option<u16>,
}

/// The targets of the rows that could be read, from index `i` on, or the first row whose
/// address is none, by its number.
pub open spec fn rows_from(rows: Seq<Option<CsvInputRow>>, i: int, default_port: u16) -> Result<
    Seq<Target>,
    int,
>
    decreases rows.len() - i,
{
    if i < 0 || i >= rows.len() {
        Ok(Seq::empty())
    } else {
        match rows[i] {
            Some(row) => match net::ip_text(row.ip@) {
                Some(ip) => match rows_from(rows, i + 1, default_port) {
                    Ok(rest) => Ok(
                        seq![
                            Target {
                                ip,
                                port: match row.port {
                                    Some(p) => p,
                                    None => default_port,
                                },
                            },
                        ] + rest,
                    ),
                    Err(e) => Err(e),
                },
                None => Err(i),
            },
            None => rows_from(rows, i + 1, default_port),
        }
    }
}

/// Takes the targets of a table; rows that could not be read are left out.
pub fn collect_rows(rows: &Vec<Option<CsvInputRow>>, default_port: u16) -> (r: Result<
    Vec<Target>,
    usize,
>)
    ensures
        match (r, rows_from(rows@, 0, default_port)) {
            (Ok(v), Ok(s)) => v@ == s,
            (Err(n), Err(m)) => n == m,
            _ => false,
        },
{
    let mut out: Vec<Target> = Vec::new();
    let mut i: usize = 0;
    proof {
        if let Ok(rest) = rows_from(rows@, 0, default_port) {
            assert(out@ + rest =~= rest);
        }
    }
    while i < rows.len()
        invariant
            i <= rows@.len(),
            match rows_from(rows@, i as int, default_port) {
                Ok(rest) => rows_from(rows@, 0, default_port) == Ok::<Seq<Target>, int>(
                    out@ + rest,
                ),
                Err(e) => rows_from(rows@, 0, default_port) == Err::<Seq<Target>, int>(e),
            },
        decreases rows@.len() - i,
    {
        if let Some(row) = &rows[i] {
            match net::parse_ip(row.ip.as_str()) {
                Some(ip) => {
                    let ghost before = out@;
                    let port: u16 = match row.port {
                        Some(p) => p,
                        None => default_port,
                    };
                    let t = Target::new(ip, port);
                    out.push(t);
                    proof {
                        if let Ok(rest) = rows_from(rows@, i + 1, default_port) {
                            assert(before + (seq![t] + rest) =~= out@ + rest);
                        }
                    }
                },
                None => {
                    return Err(i);
                },
            }
        }
        i += 1;
    }
    proof {
        assert(out@ + Seq::<Target>::empty() =~= out@);
    }
    Ok(out)
}

// ---------------------------------------------------------------------------
// All sources together

/// What an input file holds.
#[derive(Clone, Debug)]
pub enum InputFile {
    /// JSON, and the objects that it lists, if it lists objects.
    Json { data: String, objects: Option<Vec<InputTarget>> },
    /// The rows of a table; none stands for a row that could not be read.
    Rows(Vec<Option<CsvInputRow>>),
    /// A target to a line.
    Lines(String),
}

/// Why targets could not be collected.
#[derive(Clone, Debug)]
pub enum CollectError {
    Target(InputError),
    /// The address of the row of that number is none.
    Row(usize),
}

/// What to tell of a target that could not be read, where `from` names the file it stands in.
pub open spec fn fault_text(fault: InputFault, shown: Seq<char>, from: Seq<char>) -> Seq<char> {
    match fault {
        InputFault::Address => "invalid ip in target: "@ + shown,
        InputFault::Port => "invalid port in target: "@ + shown,
        InputFault::Form => "invalid target: "@ + shown,
        InputFault::ListedAddress => "invalid ip "@ + shown + " in "@ + from,
        InputFault::List => "invalid JSON input format in "@ + from,
    }
}

impl CollectError {
    /// What to tell the user, where `from` names the file that was read.
    pub fn message(&self, from: &str) -> (r: String)
        ensures
            r@ == match *self {
                CollectError::Target(e) => fault_text(e.fault, e.text@, from@),
                CollectError::Row(n) => "csv row "@ + numeral::decimal(n as nat) + " invalid ip"@,
            },
    {
        match self {
            CollectError::Target(e) => match e.fault {
                InputFault::Address => {
                    let mut m = text::owned("invalid ip in target: ");
                    m.append(e.text.as_str());
                    m
                },
                InputFault::Port => {
                    let mut m = text::owned("invalid port in target: ");
                    m.append(e.text.as_str());
                    m
                },
                InputFault::Form => {
                    let mut m = text::owned("invalid target: ");
                    m.append(e.text.as_str());
                    m
                },
                InputFault::ListedAddress => {
                    let mut m = text::owned("invalid ip ");
                    m.append(e.text.as_str());
                    m.append(" in ");
                    m.append(from);
                    m
                },
                InputFault::List => {
                    let mut m = text::owned("invalid JSON input format in ");
                    m.append(from);
                    m
                },
            },
            CollectError::Row(n) => {
                let mut m = text::owned("csv row ");
                numeral::push_numeral(&mut m, *n as u128, 10);
                m.append(" invalid ip");
                m
            },
        }
    }
}

/// Why targets could not be collected.
pub enum Trouble {
    Target(Fault),
    Row(int),
}

/// A reading of texts as part of a collection.
pub open spec fn as_part(r: Result<Seq<Target>, Fault>) -> Result<Seq<Target>, Trouble> {
    match r {
        Ok(s) => Ok(s),
        Err(f) => Err(Trouble::Target(f)),
    }
}

/// The targets of a file.
pub open spec fn file_targets(file: InputFile, default_port: u16) -> Result<Seq<Target>, Trouble> {
    match file {
        InputFile::Json { data, objects } => as_part(
            match objects {
                Some(items) => objects_from(items@, 0),
                None => json_targets(
                    text::trimmed(data@),
                    json_strings(text::trimmed(data@)),
                    default_port,
                ),
            },
        ),
        InputFile::Rows(rows) => match rows_from(rows@, 0, default_port) {
            Ok(s) => Ok(s),
            Err(n) => Err(Trouble::Row(n)),
        },
        InputFile::Lines(data) => as_part(targets_of(uncommented_lines(data@), default_port)),
    }
}

/// One part of a collection behind another; the first trouble counts.
pub open spec fn followed_by(
    a: Result<Seq<Target>, Trouble>,
    b: Result<Seq<Target>, Trouble>,
) -> Result<Seq<Target>, Trouble> {
    match a {
        Ok(x) => match b {
            Ok(y) => Ok(x + y),
            Err(e) => Err(e),
        },
        Err(e) => Err(e),
    }
}

/// All targets: those of the list, those of a text with separators, those of the file.
pub open spec fn all_targets(
    listed: Seq<Seq<char>>,
    separated: Option<Seq<char>>,
    file: Option<InputFile>,
    default_port: u16,
) -> Result<Seq<Target>, Trouble> {
    let a = as_part(targets_of(listed, default_port));
    let b = match separated {
        Some(s) => as_part(targets_of(text::words(commas_as_spaces(s)), default_port)),
        None => Ok(Seq::empty()),
    };
    let c = match file {
        Some(f) => file_targets(f, default_port),
        None => Ok(Seq::empty()),
    };
    followed_by(followed_by(a, b), c)
}

/// Whether a collection gives what it should.
pub open spec fn collects_as(
    r: Result<Vec<Target>, CollectError>,
    want: Result<Seq<Target>, Trouble>,
) -> bool {
    match (r, want) {
        (Ok(v), Ok(s)) => v@ == s,
        (Err(CollectError::Target(e)), Err(Trouble::Target(f))) => e.fault == f.0 && e.text@ == f.1,
        (Err(CollectError::Row(n)), Err(Trouble::Row(m))) => n == m,
        _ => false,
    }
}

fn as_collected(r: Result<Vec<Target>, InputError>) -> (c: Result<Vec<Target>, CollectError>)
    ensures
        forall|want: Result<Seq<Target>, Fault>| #[trigger]
            reads_as(r, want) ==> collects_as(c, as_part(want)),
{
    match r {
        Ok(v) => Ok(v),
        Err(e) => Err(CollectError::Target(e)),
    }
}

/// Takes the targets of a file.
pub fn collect_file(file: &InputFile, default_port: u16) -> (r: Result<Vec<Target>, CollectError>)
    ensures
        collects_as(r, file_targets(*file, default_port)),
{
    match file {
        InputFile::Json { data, objects } => as_collected(
            collect_json(data.as_str(), objects, default_port),
        ),
        InputFile::Rows(rows) => match collect_rows(rows, default_port) {
            Ok(v) => Ok(v),
            Err(n) => Err(CollectError::Row(n)),
        },
        InputFile::Lines(data) => as_collected(collect_lines(data.as_str(), default_port)),
    }
}

/// Collects all targets: those of the list, those of a text with separators, those of the
/// file, in this order.
pub fn collect_targets(
    listed: &Vec<String>,
    separated: Option<&str>,
    file: &Option<InputFile>,
    default_port: u16,
) -> (r: Result<Vec<Target>, CollectError>)
    ensures
        collects_as(
            r,
            all_targets(
                text::strings(listed@),
                match separated {
                    Some(s) => Some(s@),
                    None => None,
                },
                *file,
                default_port,
            ),
        ),
{
    let mut out = match as_collected(collect_listed(listed, default_port)) {
        Ok(v) => v,
        Err(e) => {
            return Err(e);
        },
    };
    let ghost a = out@;
    proof {
        assert(a + Seq::<Target>::empty() =~= a);
    }
    if let Some(s) = separated {
        match as_collected(collect_separated(s, default_port)) {
            Ok(v) => {
                let mut more = v;
                out.append(&mut more);
            },
            Err(e) => {
                return Err(e);
            },
        }
    }
    let ghost b = out@;
    proof {
        assert(b + Seq::<Target>::empty() =~= b);
    }
    if let Some(f) = file {
        match collect_file(f, default_port) {
            Ok(v) => {
                let mut more = v;
                out.append(&mut more);
            },
            Err(e) => {
                return Err(e);
            },
        }
    }
    Ok(out)
}

// ---------------------------------------------------------------------------
// File names

/// The last part of a path that names a file: empty parts and those for the directory
/// itself do not count.
pub open spec fn last_name(parts: Seq<Seq<char>>) -> Option<Seq<char>>
    decreases parts.len(),
{
    if parts.len() == 0 {
        None
    } else if parts.last().len() == 0 || parts.last() == "."@ {
        last_name(parts.drop_last())
    } else if parts.last() == ".."@ {
        None
    } else {
        Some(parts.last())
    }
}

/// The extension of a file name: what stands behind its last dot, unless the name starts
/// with that dot.
pub open spec fn extension_of(path: Seq<char>) -> Option<Seq<char>> {
    match last_name(text::pieces(path, '/')) {
        Some(name) => {
            let dot = text::last_position(name, '.');
            if dot > 0 {
                Some(name.skip(dot + 1))
            } else {
                None
            }
        },
        None => None,
    }
}

/// Finds the extension of a file name.
pub fn extension(path: &str) -> (r: Option<Vec<char>>)
    ensures
        match r {
            Some(e) => extension_of(path@) == Some(e@),
            None => extension_of(path@) is None,
        },
{
    let cs = text::to_chars(path);
    let parts = text::split(&cs, '/');
    let ghost v = text::views(parts@);
    let mut n: usize = parts.len();
    proof {
        assert(v.take(n as int) =~= v);
    }
    while n > 0
        invariant
            v == text::views(parts@),
            n <= parts@.len(),
            last_name(v) == last_name(v.take(n as int)),
            v == text::pieces(path@, '/'),
        decreases n,
    {
        let name = parts[n - 1];
        proof {
            assert(v.take(n as int).drop_last() =~= v.take(n - 1));
            assert(v.take(n as int).last() == name@);
        }
        if name.len() == 0 || text::is_str(name, ".") {
            n -= 1;
        } else if text::is_str(name, "..") {
            return None;
        } else {
            return match text::rfind_char(name, '.') {
                Some(dot) => if dot > 0 {
                    assert(name@.len() == name.len());
                    let e = slice_subrange(name, dot + 1, name.len());
                    proof {
                        assert(name@.subrange(dot + 1, name@.len() as int) =~= name@.skip(dot + 1));
                    }
                    let s = text::from_chars(e);
                    Some(text::to_chars(s.as_str()))
                } else {
                    None
                },
                None => None,
            };
        }
    }
    None
}

/// The kinds of input files.
#[derive(Clone, Copy, Debug, PartialEq, Eq, Structural)]
pub enum InputKind {
    Json,
    Csv,
    Lines,
}

/// Tells the kind of an input file from its name.
pub fn input_kind(path: &str) -> (r: InputKind)
    ensures
        r == (match extension_of(path@) {
            Some(e) => if text::lower(e) == "json"@ {
                InputKind::Json
            } else if text::lower(e) == "csv"@ {
                InputKind::Csv
            } else {
                InputKind::Lines
            },
            None => InputKind::Lines,
        }),
{
    match extension(path) {
        Some(e) => {
            let l = text::to_lower(&e);
            if text::is_str(&l, "json") {
                InputKind::Json
            } else if text::is_str(&l, "csv") {
                InputKind::Csv
            } else {
                InputKind::Lines
            }
        },
        None => InputKind::Lines,
    }
}

/// The text of a target is read back as a user's target, whatever the default port.
pub proof fn law_user_reads_written_target(t: Target, default_port: u16)
    ensures
        user_target(t.show(), default_port) == Ok::<Option<Target>, InputFault>(Some(t)),
{
    let s = t.show();
    net::lemma_socket_plain(t.ip, t.port);
    text::lemma_trim_keeps(s, text::space_fn());
    net::law_read_written_socket(t.ip, t.port);
}

/// The texts of targets.
pub open spec fn written(ts: Seq<Target>) -> Seq<Seq<char>> {
    ts.map_values(|t: Target| t.show())
}

/// A list of targets that was written is read back, in order, whatever the default port.
pub proof fn law_written_list_is_read(ts: Seq<Target>, default_port: u16)
    ensures
        targets_of(written(ts), default_port) == Ok::<Seq<Target>, Fault>(ts),
{
    lemma_written_list(ts, 0, default_port);
    assert(ts.skip(0) =~= ts);
}

proof fn lemma_written_list(ts: Seq<Target>, i: int, default_port: u16)
    requires
        0 <= i <= ts.len(),
    ensures
        targets_from(written(ts), i, default_port) == Ok::<Seq<Target>, Fault>(ts.skip(i)),
    decreases ts.len() - i,
{
    if i < ts.len() {
        law_user_reads_written_target(ts[i], default_port);
        assert(written(ts)[i] == ts[i].show());
        lemma_written_list(ts, i + 1, default_port);
        assert(seq![ts[i]] + ts.skip(i + 1) =~= ts.skip(i));
    } else {
        assert(ts.skip(i) =~= Seq::<Target>::empty());
    }
}

/// White space around a target does not count: the text of a target is read back, the text of an
/// address alone takes the default port, and white space alone stands for no target.
pub proof fn law_space_around_targets(
    before: Seq<char>,
    t: Target,
    behind: Seq<char>,
    default_port: u16,
)
    requires
        forall|i: int| 0 <= i < before.len() ==> text::is_space(#[trigger] before[i]),
        forall|i: int| 0 <= i < behind.len() ==> text::is_space(#[trigger] behind[i]),
    ensures
        user_target(before + t.show() + behind, default_port) == Ok::<Option<Target>, InputFault>(
            Some(t),
        ),
        user_target(before + net::show_ip(t.ip) + behind, default_port) == Ok::<
            Option<Target>,
            InputFault,
        >(Some(Target { ip: t.ip, port: default_port })),
        user_target(before, default_port) == Ok::<Option<Target>, InputFault>(None),
{
    let none = Seq::<char>::empty();
    net::lemma_socket_plain(t.ip, t.port);
    net::law_read_written_socket(t.ip, t.port);
    text::law_trimmed_space(before, t.show(), behind);
    net::lemma_address_plain(t.ip);
    net::law_read_written_address(t.ip);
    net::law_address_is_no_socket(t.ip);
    text::law_trimmed_space(before, net::show_ip(t.ip), behind);
    text::law_trimmed_space(before, none, none);
    assert(before + none + none =~= before);
}

/// A text without a colon that is no address has the wrong form.
pub proof fn law_word_is_no_target(s: Seq<char>, i: int, default_port: u16)
    requires
        0 <= i < s.len(),
        !text::is_space(s[0]) && !text::is_space(s.last()),
        !('0' <= s[i] <= '9'),
        !('a' <= s[i] <= 'f'),
        !('A' <= s[i] <= 'F'),
        s[i] != '.',
        !s.contains(':'),
    ensures
        user_target(s, default_port) == Err::<Option<Target>, InputFault>(InputFault::Form),
{
    text::lemma_trim_keeps(s, text::space_fn());
    assert forall|j: int| 0 <= j < s.len() implies s[j] != ':' by {
        assert(s.contains(s[j]));
    }
    net::law_no_address(s, i);
    text::lemma_find_at(s, ':', 0, s.len() as int);
    net::lemma_no_colon_no_socket(s);
    lemma_no_last(s, s.len() as int);
}

proof fn lemma_no_last(s: Seq<char>, n: int)
    requires
        0 <= n <= s.len(),
        forall|j: int| 0 <= j < s.len() ==> s[j] != ':',
    ensures
        text::last_before(s, ':', n) == -1,
    decreases n,
{
    if n > 0 {
        lemma_no_last(s, n - 1);
    }
}

proof fn lemma_targets_shift(a: Seq<Seq<char>>, b: Seq<Seq<char>>, i: int, default_port: u16)
    requires
        0 <= i <= b.len(),
    ensures
        targets_from(a + b, a.len() + i, default_port) == targets_from(b, i, default_port),
    decreases b.len() - i,
{
    if i < b.len() {
        assert((a + b)[a.len() + i] == b[i]);
        lemma_targets_shift(a, b, i + 1, default_port);
    }
}

proof fn lemma_targets_split(a: Seq<Seq<char>>, b: Seq<Seq<char>>, i: int, default_port: u16)
    requires
        0 <= i <= a.len(),
    ensures
        targets_from(a + b, i, default_port) == (match targets_from(a, i, default_port) {
            Ok(x) => match targets_of(b, default_port) {
                Ok(y) => Ok::<Seq<Target>, Fault>(x + y),
                Err(e) => Err(e),
            },
            Err(e) => Err(e),
        }),
    decreases a.len() - i,
{
    if i == a.len() {
        lemma_targets_shift(a, b, 0, default_port);
        if let Ok(y) = targets_of(b, default_port) {
            assert(Seq::<Target>::empty() + y =~= y);
        }
    } else {
        assert((a + b)[i] == a[i]);
        lemma_targets_split(a, b, i + 1, default_port);
        if let Ok(t) = user_target(a[i], default_port) {
            if let (Ok(x), Ok(y)) = (
                targets_from(a, i + 1, default_port),
                targets_of(b, default_port),
            ) {
                if let Some(z) = t {
                    assert(seq![z] + (x + y) =~= (seq![z] + x) + y);
                }
            }
        }
    }
}

/// A list of targets is read one after the other, and the first fault counts; a text that stands
/// for no target adds none.
pub proof fn law_lists_are_read_in_order(
    a: Seq<Seq<char>>,
    b: Seq<Seq<char>>,
    one: Seq<char>,
    default_port: u16,
)
    ensures
        targets_of(a + b, default_port) == (match targets_of(a, default_port) {
            Ok(x) => match targets_of(b, default_port) {
                Ok(y) => Ok::<Seq<Target>, Fault>(x + y),
                Err(e) => Err(e),
            },
            Err(e) => Err(e),
        }),
        targets_of(seq![one], default_port) == (match user_target(one, default_port) {
            Ok(Some(t)) => Ok::<Seq<Target>, Fault>(seq![t]),
            Ok(None) => Ok(Seq::empty()),
            Err(f) => Err((f, text::trimmed(one))),
        }),
{
    lemma_targets_split(a, b, 0, default_port);
    assert(seq![one][0] == one);
    assert(targets_from(seq![one], 1, default_port) == Ok::<Seq<Target>, Fault>(Seq::empty()));
    if let Ok(Some(t)) = user_target(one, default_port) {
        assert(seq![t] + Seq::<Target>::empty() =~= seq![t]);
    }
}

/// Commas separate targets as blanks do.
pub proof fn law_commas_separate(a: Seq<char>, b: Seq<char>)
    ensures
        text::words(commas_as_spaces(a + seq![','] + b)) == text::words(commas_as_spaces(a))
            + text::words(commas_as_spaces(b)),
        !a.contains(',') ==> commas_as_spaces(a) == a,
{
    assert(commas_as_spaces(a + seq![','] + b) =~= commas_as_spaces(a) + seq![' ']
        + commas_as_spaces(b));
    text::law_words(commas_as_spaces(a), ' ', commas_as_spaces(b));
    if !a.contains(',') {
        assert forall|i: int| 0 <= i < a.len() implies a[i] != ',' by {
            assert(a.contains(a[i]));
        }
        assert(commas_as_spaces(a) =~= a);
    }
}

/// Objects stand for their addresses at their own ports, in order.
pub proof fn law_objects_are_read(items: Seq<InputTarget>, ips: Seq<IpAddr>, i: int)
    requires
        items.len() == ips.len(),
        0 <= i <= items.len(),
        forall|j: int| 0 <= j < items.len() ==> (#[trigger] items[j]).ip@ == net::show_ip(ips[j]),
    ensures
        objects_from(items, i) matches Ok(ts) && ts.len() == items.len() - i && forall|j: int|
            0 <= j < ts.len() ==> (#[trigger] ts[j]) == (Target {
                ip: ips[i + j],
                port: items[i + j].port,
            }),
    decreases items.len() - i,
{
    if i < items.len() {
        law_objects_are_read(items, ips, i + 1);
        net::law_read_written_address(ips[i]);
        assert(items[i].ip@ == net::show_ip(ips[i]));
    }
}

/// The first object whose address is none ends the reading with its text.
pub proof fn law_faulty_object(items: Seq<InputTarget>, i: int)
    requires
        0 <= i < items.len(),
        net::ip_text(items[i].ip@) is None,
    ensures
        objects_from(items, i) == Err::<Seq<Target>, Fault>(
            (InputFault::ListedAddress, items[i].ip@),
        ),
{
}

/// A row stands for its address at its own port, or at the default one where it has none; rows
/// that could not be read do not count, and the first whose address is none ends the reading
/// with its number.
pub proof fn law_rows_are_read(
    rows: Seq<Option<CsvInputRow>>,
    i: int,
    ip: IpAddr,
    default_port: u16,
)
    requires
        0 <= i < rows.len(),
    ensures
        rows[i] is None ==> rows_from(rows, i, default_port) == rows_from(
            rows,
            i + 1,
            default_port,
        ),
        rows[i] is Some && rows[i]->0.ip@ == net::show_ip(ip) ==> rows_from(rows, i, default_port)
            == (match rows_from(rows, i + 1, default_port) {
            Ok(ts) => Ok::<Seq<Target>, int>(
                seq![
                    Target {
                        ip,
                        port: if rows[i]->0.port is Some {
                            rows[i]->0.port->0
                        } else {
                            default_port
                        },
                    },
                ] + ts,
            ),
            Err(n) => Err(n),
        }),
        rows[i] is Some && net::ip_text(rows[i]->0.ip@) is None ==> rows_from(rows, i, default_port)
            == Err::<Seq<Target>, int>(i),
        rows_from(rows, rows.len() as int, default_port) == Ok::<Seq<Target>, int>(Seq::empty()),
{
    net::law_read_written_address(ip);
}

/// All targets are those of the list, then those of the text with separators, then those of the
/// file; the first trouble among them counts.
pub proof fn law_sources_in_order(
    listed: Seq<Seq<char>>,
    separated: Seq<char>,
    file: InputFile,
    default_port: u16,
    a: Seq<Target>,
    b: Seq<Target>,
    c: Seq<Target>,
)
    requires
        targets_of(listed, default_port) == Ok::<Seq<Target>, Fault>(a),
        targets_of(text::words(commas_as_spaces(separated)), default_port) == Ok::<
            Seq<Target>,
            Fault,
        >(b),
        file_targets(file, default_port) == Ok::<Seq<Target>, Trouble>(c),
    ensures
        all_targets(listed, Some(separated), Some(file), default_port) == Ok::<
            Seq<Target>,
            Trouble,
        >(a + b + c),
        all_targets(listed, None, Some(file), default_port) == Ok::<Seq<Target>, Trouble>(a + c),
        all_targets(listed, Some(separated), None, default_port) == Ok::<Seq<Target>, Trouble>(
            a + b,
        ),
        all_targets(listed, None, None, default_port) == Ok::<Seq<Target>, Trouble>(a),
{
    let none = Seq::<Target>::empty();
    assert(a + none =~= a);
    assert(a + b + none =~= a + b);
}

/// A file holds what its kind says: lines one target each, rows one target each, and JSON the
/// objects that it lists or else the strings.
pub proof fn law_files_by_kind(
    data: String,
    objects: Vec<InputTarget>,
    rows: Vec<Option<CsvInputRow>>,
    default_port: u16,
)
    ensures
        file_targets(InputFile::Lines(data), default_port) == as_part(
            targets_of(uncommented_lines(data@), default_port),
        ),
        objects_from(objects@, 0) matches Ok(ts) ==> file_targets(
            InputFile::Json { data, objects: Some(objects) },
            default_port,
        ) == Ok::<Seq<Target>, Trouble>(ts),
        rows_from(rows@, 0, default_port) matches Ok(ts) ==> file_targets(
            InputFile::Rows(rows),
            default_port,
        ) == Ok::<Seq<Target>, Trouble>(ts),
        rows_from(rows@, 0, default_port) matches Err(n) ==> file_targets(
            InputFile::Rows(rows),
            default_port,
        ) == Err::<Seq<Target>, Trouble>(Trouble::Row(n)),
        json_strings(text::trimmed(data@)) matches Some(list) ==> file_targets(
            InputFile::Json { data, objects: None },
            default_port,
        ) == as_part(targets_of(list, default_port)),
        json_strings(text::trimmed(data@)) is None ==> file_targets(
            InputFile::Json { data, objects: None },
            default_port,
        ) == Err::<Seq<Target>, Trouble>(
            Trouble::Target((InputFault::List, text::trimmed(data@))),
        ),
{
}

/// The extension of a file is what stands behind the last dot of its name; a name that only
/// begins with a dot, or has none, has no extension.
#[verifier::rlimit(40)]
pub proof fn law_extension(directory: Seq<char>, stem: Seq<char>, e: Seq<char>)
    requires
        stem.len() > 0,
        !stem.contains('/'),
        !e.contains('/'),
        !e.contains('.'),
        e.len() > 0,
    ensures
        extension_of(directory + seq!['/'] + stem + seq!['.'] + e) == Some(e),
        extension_of(stem + seq!['.'] + e) == Some(e),
        extension_of(seq!['.'] + e) is None,
        extension_of(e) is None,
{
    let name = stem + seq!['.'] + e;
    let n = stem.len() as int;
    if name.contains('/') {
        let j = choose|j: int| 0 <= j < name.len() && name[j] == '/';
        if j < n {
            assert(name[j] == stem[j]);
            assert(stem.contains('/'));
        } else if j > n {
            assert(name[j] == e[j - n - 1]);
            assert(e.contains('/'));
        }
    }
    lemma_last_piece(directory, name);
    assert(directory + seq!['/'] + stem + seq!['.'] + e =~= directory + seq!['/'] + name);
    text::lemma_pieces_count(name, '/');
    let hidden = seq!['.'] + e;
    if hidden.contains('/') {
        let j = choose|j: int| 0 <= j < hidden.len() && hidden[j] == '/';
        assert(hidden[j] == e[j - 1]);
        assert(e.contains('/'));
    }
    text::lemma_pieces_count(hidden, '/');
    text::lemma_pieces_count(e, '/');
    assert forall|j: int| 0 <= j < e.len() implies e[j] != '.' by {
        assert(e.contains(e[j]));
    }
    assert forall|j: int| n < j < name.len() implies name[j] != '.' by {
        assert(name[j] == e[j - n - 1]);
    }
    text::lemma_last_at(name, '.', name.len() as int, n);
    assert(name.skip(n + 1) =~= e);
    text::lemma_last_at(hidden, '.', hidden.len() as int, 0);
    lemma_no_dot(e, e.len() as int);
    reveal_strlit(".");
    reveal_strlit("..");
    assert(name.len() >= 3);
    assert(name != "."@ && name != ".."@);
    assert(hidden != "."@);
    assert(hidden != ".."@) by {
        assert(hidden[1] == e[0]);
    }
    assert(e != "."@) by {
        assert(e[0] != '.');
    }
    assert(e != ".."@) by {
        assert(e[0] != '.');
    }
    assert(seq![name].last() == name && seq![hidden].last() == hidden && seq![e].last() == e);
}

proof fn lemma_no_dot(s: Seq<char>, n: int)
    requires
        0 <= n <= s.len(),
        forall|j: int| 0 <= j < s.len() ==> s[j] != '.',
    ensures
        text::last_before(s, '.', n) == -1,
    decreases n,
{
    if n > 0 {
        lemma_no_dot(s, n - 1);
    }
}

proof fn lemma_last_piece(directory: Seq<char>, name: Seq<char>)
    requires
        !name.contains('/'),
    ensures
        text::pieces(directory + seq!['/'] + name, '/').len() > 0,
        text::pieces(directory + seq!['/'] + name, '/').last() == name,
    decreases directory.len(),
{
    let s = directory + seq!['/'] + name;
    text::lemma_find_from(directory, '/', 0);
    let p = text::position(directory, '/');
    text::lemma_pieces_count(name, '/');
    if p < directory.len() {
        let rest = directory.skip(p + 1);
        lemma_last_piece(rest, name);
        assert forall|j: int| 0 <= j < p implies s[j] != '/' by {
            assert(s[j] == directory[j]);
        }
        assert(s[p] == directory[p]);
        text::lemma_find_at(s, '/', 0, p);
        assert(s.skip(p + 1) =~= rest + seq!['/'] + name);
    } else {
        assert forall|j: int| 0 <= j < directory.len() implies s[j] != '/' by {
            assert(s[j] == directory[j]);
        }
        text::lemma_find_at(s, '/', 0, directory.len() as int);
        assert(s.skip(directory.len() as int + 1) =~= name);
    }
}

/// What is told of a faulty target: what is wrong with it, its text, and, of a file, where it
/// stands.
pub proof fn law_fault_texts(shown: Seq<char>, from: Seq<char>)
    ensures
        fault_text(InputFault::Address, shown, from) == "invalid ip in target: "@ + shown,
        fault_text(InputFault::Port, shown, from) == "invalid port in target: "@ + shown,
        fault_text(InputFault::Form, shown, from) == "invalid target: "@ + shown,
        fault_text(InputFault::ListedAddress, shown, from) == "invalid ip "@ + shown + " in "@ + from,
        fault_text(InputFault::List, shown, from) == "invalid JSON input format in "@ + from,
{
}

} // verus!
