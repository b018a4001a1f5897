//! Where the edges stand: from the code of a data centre to its place.

use vstd::prelude::*;

use crate::cache::Download;
use crate::text;
use crate::time::Duration;

verus! {

/// The published list of data centres.
pub const LOCATIONS_URL: &'static str = "https://raw.githubusercontent.com/Netrvin/cloudflare-colo-list/main/locations.json";

/// The download of the data centres; it serves for three days.
pub fn locations_download() -> (r: Download)
    ensures
        r.url@
            == "https://raw.githubusercontent.com/Netrvin/cloudflare-colo-list/main/locations.json"@,
        r.prefix@ == "locations"@,
        r.extension@ == ".json"@,
        r.max_age.nanos == 3 * 24 * 3600 * 1_000_000_000,
{
    Download {
        url: text::owned(LOCATIONS_URL),
        prefix: text::owned("locations"),
        extension: text::owned(".json"),
        max_age: Duration::from_secs(3 * 24 * 3600),
    }
}

/// A data centre.
#[derive(Clone, Debug)]
pub struct CfLocation {
    /// The three-letter code.
    pub iata: String,
    /// The latitude in degrees, as the bits of a double-precision number.
    pub lat_bits: u64,
    /// The longitude in degrees, as the bits of a double-precision number.
    pub lon_bits: u64,
    pub city: String,
    pub region: String,
    /// The two-letter code of the country.
    pub cca2: String,
}

impl CfLocation {
    pub fn copy(&self) -> (r: Self)
        ensures
            r == *self,
    {
        CfLocation {
            iata: self.iata.clone(),
            lat_bits: self.lat_bits,
            lon_bits: self.lon_bits,
            city: self.city.clone(),
            region: self.region.clone(),
            cca2: self.cca2.clone(),
        }
    }
}

/// A source of places. Codes are compared without regard to case.
pub trait LocationSource {
    fn lookup(&self, colo: &str) -> Option<CfLocation>;
}

/// The last of the entries whose code has the given upper-case form.
pub open spec fn last_with_code(entries: Seq<CfLocation>, code: Seq<char>) -> Option<CfLocation>
    decreases entries.len(),
{
    if entries.len() == 0 {
        None
    } else if text::upper(entries.last().iata@) == code {
        Some(entries.last())
    } else {
        last_with_code(entries.drop_last(), code)
    }
}

/// The place of a code; of several entries for a code, the last one counts.
pub open spec fn place_of(entries: Seq<CfLocation>, colo: Seq<char>) -> Option<CfLocation> {
    last_with_code(entries, text::upper(colo))
}

/// The places of the data centres.
#[derive(Clone, Debug)]
pub struct LocationStore {
    entries: Vec<CfLocation>,
}

impl LocationStore {
    pub closed spec fn entries(self) -> Seq<CfLocation> {
        self.entries@
    }

    pub fn empty() -> (r: Self)
        ensures
            r.entries() == Seq::<CfLocation>::empty(),
    {
        LocationStore { entries: Vec::new() }
    }

    pub fn from_locations(locations: Vec<CfLocation>) -> (r: Self)
        ensures
            r.entries() == locations@,
    {
        LocationStore { entries: locations }
    }
}

impl LocationSource for LocationStore {
    fn lookup(&self, colo: &str) -> (r: Option<CfLocation>)
        ensures
            r == place_of(self.entries(), colo@),
    {
        let cs = text::to_chars(colo);
        let key = text::to_upper(&cs);
        let mut n: usize = self.entries.len();
        proof {
            assert(self.entries@.take(n as int) =~= self.entries@);
        }
        while n > 0
            invariant
                n <= self.entries@.len(),
                key@ == text::upper(colo@),
                place_of(self.entries@, colo@) == last_with_code(
                    self.entries@.take(n as int),
                    key@,
                ),
            decreases n,
        {
            let ghost t = self.entries@.take(n as int);
            proof {
                assert(t.drop_last() =~= self.entries@.take(n - 1));
                assert(t.last() == self.entries@[n - 1]);
            }
            let code = text::to_chars(self.entries[n - 1].iata.as_str());
            let up = text::to_upper(&code);
            if text::same(&up, &key) {
                return Some(self.entries[n - 1].copy());
            }
            n -= 1;
        }
        None
    }
}

/// Codes that differ in case alone have the same place.
pub proof fn law_lookup_ignores_case(entries: Seq<CfLocation>, a: Seq<char>, b: Seq<char>)
    requires
        text::upper(a) == text::upper(b),
    ensures
        place_of(entries, a) == place_of(entries, b),
        place_of(entries, a) == place_of(entries, text::upper(a)),
{
    text::lemma_upper_idempotent(a);
}

/// A place is found under its own code, and the entry found bears the code that was
/// asked for; none is found where no entry bears it.
pub proof fn law_lookup_finds_code(entries: Seq<CfLocation>, colo: Seq<char>)
    ensures
        match place_of(entries, colo) {
            Some(l) => entries.contains(l) && text::upper(l.iata@) == text::upper(colo),
            None => forall|i: int|
                0 <= i < entries.len() ==> text::upper((#[trigger] entries[i]).iata@)
                    != text::upper(colo),
        },
    decreases entries.len(),
{
    if entries.len() > 0 {
        let rest = entries.drop_last();
        law_lookup_finds_code(rest, colo);
        assert(entries.contains(entries[entries.len() - 1]));
        if let Some(l) = place_of(rest, colo) {
            let i = choose|i: int| 0 <= i < rest.len() && rest[i] == l;
            assert(entries[i] == l);
        } else {
            assert forall|i: int| 0 <= i < entries.len() && place_of(entries, colo) is None implies text::upper(
                (#[trigger] entries[i]).iata@,
            ) != text::upper(colo) by {
                if i < rest.len() {
                    assert(rest[i] == entries[i]);
                }
            }
        }
    }
}

/// Of several entries for a code the last one counts, and entries for other codes change
/// nothing.
pub proof fn law_last_entry_counts(entries: Seq<CfLocation>, l: CfLocation, colo: Seq<char>)
    ensures
        text::upper(l.iata@) == text::upper(colo) ==> place_of(entries.push(l), colo) == Some(l),
        text::upper(l.iata@) != text::upper(colo) ==> place_of(entries.push(l), colo) == place_of(
            entries,
            colo,
        ),
        place_of(Seq::empty(), colo) is None,
{
    assert(entries.push(l).drop_last() =~= entries);
}

} // verus!
