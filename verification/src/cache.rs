//! Files that keep downloads: their names, and which of them still serve.

use vstd::prelude::*;

use crate::numeral;
use crate::text;
use crate::time::Duration;

verus! {

/// Where downloads are kept, and for how long.
#[derive(Clone, Debug)]
pub struct CacheConfig {
    pub directory: String,
    pub max_age: Duration,
}

impl Default for CacheConfig {
    fn default() -> (r: Self)
        ensures
            r.directory@ == "data/cfrpdata"@,
            r.max_age.nanos == 7 * 24 * 3600 * 1_000_000_000,
    {
        CacheConfig {
            directory: text::owned("data/cfrpdata"),
            max_age: Duration::from_secs(7 * 24 * 3600),
        }
    }
}

/// A directory of downloads.
#[derive(Clone, Debug)]
pub struct FileCache {
    pub cfg: CacheConfig,
}

impl FileCache {
    pub fn new(cfg: CacheConfig) -> (r: Self)
        ensures
            r.cfg == cfg,
    {
        FileCache { cfg }
    }
}

/// Something to download: where it is published, under which names it is kept, and for how
/// long it serves.
#[derive(Clone, Debug)]
pub struct Download {
    pub url: String,
    pub prefix: String,
    pub extension: String,
    pub max_age: Duration,
}

/// A file of the directory: its name, and when it was written, in nanoseconds from
/// the start of 1970.
#[derive(Clone, Debug)]
pub struct CacheEntry {
    pub name: String,
    pub modified: i64,
}

/// Whether a file keeps a download of the given kind.
pub open spec fn is_kept(name: Seq<char>, prefix: Seq<char>, extension: Seq<char>) -> bool {
    text::starts_with(name, prefix.push('-')) && text::ends_with(name, extension)
}

/// Tells whether a file keeps a download of the given kind.
pub fn keeps(name: &str, prefix: &str, extension: &str) -> (r: bool)
    ensures
        r == is_kept(name@, prefix@, extension@),
{
    let n = text::to_chars(name);
    let mut p = text::to_chars(prefix);
    p.push('-');
    let e = text::to_chars(extension);
    text::has_prefix(&n, &p) && text::has_suffix(&n, &e)
}

/// The index of the first of the latest files of a kind.
pub open spec fn latest(entries: Seq<CacheEntry>, prefix: Seq<char>, extension: Seq<char>) -> Option<
    int,
>
    decreases entries.len(),
{
    if entries.len() == 0 {
        None
    } else {
        let rest = latest(entries.drop_last(), prefix, extension);
        if !is_kept(entries.last().name@, prefix, extension) {
            rest
        } else {
            match rest {
                Some(k) => if entries.last().modified > entries[k].modified {
                    Some(entries.len() - 1)
                } else {
                    rest
                },
                None => Some(entries.len() - 1),
            }
        }
    }
}

/// The longest time that a clock tells: of a file written after `now`, the age.
pub const LONGEST_NANOS: u128 = 18_446_744_073_709_551_615_999_999_999;

/// Whether a file written at `modified` is at most `max_age` old at `now`.
pub open spec fn is_fresh(modified: i64, now: i64, max_age: Duration) -> bool {
    if modified <= now {
        now - modified <= max_age.nanos
    } else {
        LONGEST_NANOS <= max_age.nanos
    }
}

/// The index of the latest file of a kind, if it still serves.
pub open spec fn fresh(
    entries: Seq<CacheEntry>,
    prefix: Seq<char>,
    extension: Seq<char>,
    now: i64,
    max_age: Duration,
) -> Option<int> {
    match latest(entries, prefix, extension) {
        Some(k) => if is_fresh(entries[k].modified, now, max_age) {
            Some(k)
        } else {
            None
        },
        None => None,
    }
}

/// Tells whether a file written at `modified` is at most `max_age` old at `now`.
pub fn serves(modified: i64, now: i64, max_age: Duration) -> (r: bool)
    ensures
        r == is_fresh(modified, now, max_age),
{
    let age: u128 = if modified <= now {
        (now as i128 - modified as i128) as u128
    } else {
        LONGEST_NANOS
    };
    age <= max_age.nanos
}

/// Finds the latest file of a kind, however old: what is left to read where a download is due
/// and fails.
pub fn find_latest(entries: &Vec<CacheEntry>, prefix: &str, extension: &str) -> (r: Option<usize>)
    ensures
        match r {
            Some(k) => latest(entries@, prefix@, extension@) == Some(k as int) && k
                < entries@.len(),
            None => latest(entries@, prefix@, extension@) is None,
        },
{
    let mut best: Option<usize> = None;
    let mut i: usize = 0;
    while i < entries.len()
        invariant
            i <= entries@.len(),
            match best {
                Some(k) => k < i && latest(entries@.take(i as int), prefix@, extension@) == Some(
                    k as int,
                ),
                None => latest(entries@.take(i as int), prefix@, extension@) is None,
            },
        decreases entries@.len() - i,
    {
        proof {
            let t = entries@.take(i + 1);
            assert(t.drop_last() =~= entries@.take(i as int));
            assert(t.last() == entries@[i as int]);
        }
        if keeps(entries[i].name.as_str(), prefix, extension) {
            match best {
                Some(k) => {
                    if entries[i].modified > entries[k].modified {
                        best = Some(i);
                    }
                },
                None => {
                    best = Some(i);
                },
            }
        }
        i += 1;
    }
    proof {
        assert(entries@.take(i as int) =~= entries@);
    }
    best
}

/// Finds the latest file of a kind, if it still serves.
pub fn find_fresh(
    entries: &Vec<CacheEntry>,
    prefix: &str,
    extension: &str,
    now: i64,
    max_age: Duration,
) -> (r: Option<usize>)
    ensures
        match r {
            Some(k) => fresh(entries@, prefix@, extension@, now, max_age) == Some(k as int) && k
                < entries@.len(),
            None => fresh(entries@, prefix@, extension@, now, max_age) is None,
        },
{
    match find_latest(entries, prefix, extension) {
        Some(k) => if serves(entries[k].modified, now, max_age) {
            Some(k)
        } else {
            None
        },
        None => None,
    }
}

/// The file found is of the kind, and no file of the kind is later.
pub proof fn law_latest_is_latest(entries: Seq<CacheEntry>, prefix: Seq<char>, extension: Seq<char>)
    ensures
        match latest(entries, prefix, extension) {
            Some(k) => {
                &&& 0 <= k < entries.len()
                &&& is_kept(entries[k].name@, prefix, extension)
                &&& forall|i: int|
                    0 <= i < entries.len() && is_kept(
                        (#[trigger] entries[i]).name@,
                        prefix,
                        extension,
                    ) ==> entries[i].modified <= entries[k].modified
            },
            None => forall|i: int|
                0 <= i < entries.len() ==> !is_kept((#[trigger] entries[i]).name@, prefix, extension),
        },
    decreases entries.len(),
{
    if entries.len() > 0 {
        let rest = entries.drop_last();
        law_latest_is_latest(rest, prefix, extension);
        assert forall|i: int| 0 <= i < rest.len() implies rest[i] == #[trigger] entries[i] by {}
    }
}

/// The names of the files of a kind other than the one to keep, in order.
pub open spec fn stale(
    names: Seq<Seq<char>>,
    prefix: Seq<char>,
    extension: Seq<char>,
    keep: Seq<char>,
) -> Seq<Seq<char>>
    decreases names.len(),
{
    if names.len() == 0 {
        names
    } else {
        let rest = stale(names.drop_last(), prefix, extension, keep);
        if is_kept(names.last(), prefix, extension) && names.last() != keep {
            rest.push(names.last())
        } else {
            rest
        }
    }
}

/// Finds the files that a new download replaces.
pub fn cleanup(names: &Vec<String>, prefix: &str, extension: &str, keep: &str) -> (r: Vec<String>)
    ensures
        text::strings(r@) == stale(text::strings(names@), prefix@, extension@, keep@),
{
    let mut r: Vec<String> = Vec::new();
    let mut i: usize = 0;
    let ghost v = text::strings(names@);
    while i < names.len()
        invariant
            v == text::strings(names@),
            i <= names@.len(),
            text::strings(r@) == stale(v.take(i as int), prefix@, extension@, keep@),
        decreases names@.len() - i,
    {
        proof {
            assert(v.take(i + 1).drop_last() =~= v.take(i as int));
            assert(v.take(i + 1).last() == names@[i as int]@);
        }
        if keeps(names[i].as_str(), prefix, extension) && !text::same_str(names[i].as_str(), keep) {
            let ghost before = r@;
            r.push(names[i].clone());
            proof {
                assert(text::strings(r@) =~= text::strings(before).push(names@[i as int]@));
            }
        }
        i += 1;
    }
    proof {
        assert(v.take(i as int) =~= v);
    }
    r
}

/// The files that a new download replaces are those of its kind but itself: when they are
/// gone, it alone is left of its kind.
pub proof fn law_cleanup_leaves_one(
    names: Seq<Seq<char>>,
    prefix: Seq<char>,
    extension: Seq<char>,
    keep: Seq<char>,
    name: Seq<char>,
)
    ensures
        stale(names, prefix, extension, keep).contains(name) <==> names.contains(name) && is_kept(
            name,
            prefix,
            extension,
        ) && name != keep,
    decreases names.len(),
{
    if names.len() > 0 {
        let d = names.drop_last();
        let rest = stale(d, prefix, extension, keep);
        let all = stale(names, prefix, extension, keep);
        law_cleanup_leaves_one(d, prefix, extension, keep, name);
        if names.contains(name) {
            let i = choose|i: int| 0 <= i < names.len() && names[i] == name;
            if i < d.len() {
                assert(d[i] == name);
            }
        }
        if d.contains(name) {
            let i = choose|i: int| 0 <= i < d.len() && d[i] == name;
            assert(names[i] == name);
        }
        if names.last() == name {
            assert(names[names.len() - 1] == name);
        }
        if rest.contains(name) {
            let i = choose|i: int| 0 <= i < rest.len() && rest[i] == name;
            assert(all[i] == name);
        }
        if all.contains(name) {
            let i = choose|i: int| 0 <= i < all.len() && all[i] == name;
            if i < rest.len() {
                assert(rest[i] == name);
            }
        }
        if is_kept(names.last(), prefix, extension) && names.last() != keep {
            assert(all[all.len() - 1] == names.last());
        }
    }
}

/// A download that was kept at most `max_age` ago, with no later one of its kind, serves.
pub proof fn law_kept_download_serves(
    entries: Seq<CacheEntry>,
    prefix: Seq<char>,
    extension: Seq<char>,
    now: i64,
    max_age: Duration,
    k: int,
)
    requires
        0 <= k < entries.len(),
        is_kept(entries[k].name@, prefix, extension),
        entries[k].modified <= now,
        now - entries[k].modified <= max_age.nanos,
        forall|i: int|
            0 <= i < entries.len() && is_kept((#[trigger] entries[i]).name@, prefix, extension)
                ==> entries[i].modified <= entries[k].modified,
    ensures
        fresh(entries, prefix, extension, now, max_age) is Some,
{
    law_latest_is_latest(entries, prefix, extension);
}

/// The name of the file that keeps a download.
pub fn file_name(prefix: &str, date: &str, extension: &str) -> (r: String)
    ensures
        r@ == prefix@ + "-"@ + date@ + extension@,
{
    let mut r = text::owned(prefix);
    r.append("-");
    r.append(date);
    r.append(extension);
    r
}

/// A file name made for a kind is one of that kind.
pub proof fn law_file_name_is_kept(prefix: Seq<char>, date: Seq<char>, extension: Seq<char>)
    ensures
        is_kept(prefix + "-"@ + date + extension, prefix, extension),
{
    let name = prefix + "-"@ + date + extension;
    reveal_strlit("-");
    assert(name.subrange(0, (prefix.len() + 1) as int) =~= prefix.push('-'));
    assert(name.subrange(name.len() - extension.len(), name.len() as int) =~= extension);
}

/// The day that a moment belongs to, counted from the start of 1970.
pub open spec fn date_text(unix_secs: u64) -> Seq<char> {
    "day-"@ + numeral::decimal((unix_secs / 86_400) as nat)
}

/// Names the day of a moment.
pub fn date_name(unix_secs: u64) -> (r: String)
    ensures
        r@ == date_text(unix_secs),
{
    let mut r = text::owned("day-");
    numeral::push_numeral(&mut r, (unix_secs / 86_400) as u128, 10);
    r
}

/// `SystemTime::elapsed` on the start of 1970: the seconds since then, or zero where
/// the clock stands before it. Nothing is claimed of the value.
#[verifier::external_body]
fn unix_seconds() -> (r: u64) {
    std::time::UNIX_EPOCH.elapsed().unwrap_or_default().as_secs()
}

/// Whether the clock may have told so many seconds since the start of 1970.
pub closed spec fn clock_told(unix_secs: u64) -> bool {
    call_ensures(unix_seconds, (), unix_secs)
}

/// Names the day that the clock tells.
pub fn chrono_like_date() -> (r: String)
    ensures
        exists|unix_secs: u64| #[trigger] clock_told(unix_secs) && r@ == date_text(unix_secs),
{
    let secs: u64 = unix_seconds();
    assert(clock_told(secs));
    date_name(secs)
}

/// A file serves for as long as it is no older than it may be, to the nanosecond; one that was
/// written after the present moment does not serve, whatever age up to that of the clock is
/// allowed.
pub proof fn law_freshness(modified: i64, now: i64, max_age: Duration)
    ensures
        modified <= now ==> (is_fresh(modified, now, max_age) <==> now - modified <= max_age.nanos),
        modified > now && max_age.nanos < 18_446_744_073_709_551_615_999_999_999
            ==> !is_fresh(modified, now, max_age),
{
}

/// A file that is served is of the kind, the first of the latest of its kind, and no older than
/// it may be; where the latest is older, none is served.
pub proof fn law_served_download(
    entries: Seq<CacheEntry>,
    prefix: Seq<char>,
    extension: Seq<char>,
    now: i64,
    max_age: Duration,
)
    ensures
        match fresh(entries, prefix, extension, now, max_age) {
            Some(k) => {
                &&& 0 <= k < entries.len()
                &&& is_kept(entries[k].name@, prefix, extension)
                &&& entries[k].modified <= now ==> now - entries[k].modified <= max_age.nanos
                &&& forall|i: int|
                    0 <= i < entries.len() && is_kept(
                        (#[trigger] entries[i]).name@,
                        prefix,
                        extension,
                    ) ==> entries[i].modified <= entries[k].modified
            },
            None => forall|i: int|
                0 <= i < entries.len() && is_kept(
                    (#[trigger] entries[i]).name@,
                    prefix,
                    extension,
                ) && (forall|j: int|
                    0 <= j < entries.len() && is_kept(
                        (#[trigger] entries[j]).name@,
                        prefix,
                        extension,
                    ) ==> entries[j].modified <= entries[i].modified) ==> entries[i].modified > now
                    || now - entries[i].modified > max_age.nanos,
        },
{
    law_latest_is_latest(entries, prefix, extension);
    if fresh(entries, prefix, extension, now, max_age) is None {
        assert forall|i: int|
            0 <= i < entries.len() && is_kept((#[trigger] entries[i]).name@, prefix, extension)
                && (forall|j: int|
                0 <= j < entries.len() && is_kept((#[trigger] entries[j]).name@, prefix, extension)
                    ==> entries[j].modified <= entries[i].modified) implies entries[i].modified > now
            || now - entries[i].modified > max_age.nanos by {
            law_latest_is_latest(entries, prefix, extension);
            let k = latest(entries, prefix, extension)->0;
            assert(entries[k].modified <= entries[i].modified);
            assert(entries[i].modified <= entries[k].modified);
        }
    }
}

/// Of files of one kind that were written at once the first is found.
pub proof fn law_first_of_the_latest(
    entries: Seq<CacheEntry>,
    prefix: Seq<char>,
    extension: Seq<char>,
    i: int,
)
    requires
        latest(entries, prefix, extension) is Some,
        0 <= i < latest(entries, prefix, extension)->0,
        is_kept(entries[i].name@, prefix, extension),
    ensures
        entries[i].modified < entries[latest(entries, prefix, extension)->0].modified,
    decreases entries.len(),
{
    let rest = entries.drop_last();
    law_latest_is_latest(entries, prefix, extension);
    law_latest_is_latest(rest, prefix, extension);
    let k = latest(entries, prefix, extension)->0;
    if k < entries.len() - 1 {
        assert(rest[i] == entries[i] && rest[k] == entries[k]);
        law_first_of_the_latest(rest, prefix, extension, i);
    } else {
        assert(rest[i] == entries[i]);
        let m = latest(rest, prefix, extension)->0;
        assert(rest[m] == entries[m]);
    }
}

/// A file keeps a download of a kind where its name begins with that of the kind and a hyphen,
/// and ends with the extension.
pub proof fn law_kept_names(name: Seq<char>, prefix: Seq<char>, extension: Seq<char>)
    ensures
        is_kept(name, prefix, extension) <==> name.len() > prefix.len() && name.take(
            prefix.len() as int,
        ) == prefix && name[prefix.len() as int] == '-' && name.len() >= extension.len()
            && name.skip(name.len() - extension.len()) == extension,
{
    let p = prefix.push('-');
    if name.len() > prefix.len() {
        let n = prefix.len() as int;
        assert(name.subrange(0, n + 1) =~= name.take(n).push(name[n]));
        if name.subrange(0, n + 1) == p {
            assert(name.take(n) =~= p.drop_last());
            assert(p.drop_last() =~= prefix);
            assert(name[n] == p[n]);
        }
    }
    if name.len() >= extension.len() {
        let k = name.len() - extension.len();
        assert(name.subrange(k, name.len() as int) =~= name.skip(k));
    }
}

/// A moment belongs to the day that it lies in: days have 86400 seconds, and the first is day
/// zero.
pub proof fn law_days(unix_secs: u64, day: nat)
    requires
        86_400 * day <= unix_secs < 86_400 * (day + 1),
    ensures
        date_text(unix_secs) == "day-"@ + numeral::decimal(day),
{
    assert((unix_secs / 86_400) as nat == day);
}

} // verus!
