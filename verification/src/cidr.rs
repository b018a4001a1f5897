//! Ranges of addresses, and membership in them.

use vstd::arithmetic::power2::pow2;
use vstd::prelude::*;
use vstd::slice::slice_subrange;

use crate::cache::Download;
use crate::net;
use crate::net::{IpAddr, Ipv4Addr, Ipv6Addr};
use crate::numeral;
use crate::text;
use crate::time::Duration;

verus! {

/// The published lists of ranges.
pub const IPV4_URL: &'static str = "https://www.cloudflare.com/ips-v4";

pub const IPV6_URL: &'static str = "https://www.cloudflare.com/ips-v6";

/// The download of the ranges of version 4; it serves for seven days.
pub fn ipv4_download() -> (r: Download)
    ensures
        r.url@ == "https://www.cloudflare.com/ips-v4"@,
        r.prefix@ == "ips-v4"@,
        r.extension@ == ".txt"@,
        r.max_age.nanos == 7 * 24 * 3600 * 1_000_000_000,
{
    Download {
        url: text::owned(IPV4_URL),
        prefix: text::owned("ips-v4"),
        extension: text::owned(".txt"),
        max_age: Duration::from_secs(7 * 24 * 3600),
    }
}

/// The download of the ranges of version 6; it serves for seven days.
pub fn ipv6_download() -> (r: Download)
    ensures
        r.url@ == "https://www.cloudflare.com/ips-v6"@,
        r.prefix@ == "ips-v6"@,
        r.extension@ == ".txt"@,
        r.max_age.nanos == 7 * 24 * 3600 * 1_000_000_000,
{
    Download {
        url: text::owned(IPV6_URL),
        prefix: text::owned("ips-v6"),
        extension: text::owned(".txt"),
        max_age: Duration::from_secs(7 * 24 * 3600),
    }
}

/// A source of ranges.
pub trait CidrSource {
    fn contains(&self, ip: IpAddr) -> bool;
}

/// The texts of ranges, as they are published.
#[derive(Clone, Debug)]
pub struct CloudflareCidrs {
    pub fetched_at: Option<u64>,
    pub source: String,
    pub ipv4: Vec<String>,
    pub ipv6: Vec<String>,
}

impl Default for CloudflareCidrs {
    fn default() -> (r: Self)
        ensures
            r.fetched_at is None,
            r.source@ == Seq::<char>::empty(),
            r.ipv4@ == Seq::<String>::empty(),
            r.ipv6@ == Seq::<String>::empty(),
    {
        CloudflareCidrs {
            fetched_at: None,
            source: String::new(),
            ipv4: Vec::new(),
            ipv6: Vec::new(),
        }
    }
}

/// An address and the number of its leading bits that count.
#[derive(Clone, Copy, Debug, PartialEq, Eq, Structural)]
pub enum IpNetLike {
    V4(Ipv4Addr, u8),
    V6(Ipv6Addr, u8),
}

/// Whether two numbers of `width` bits agree in their leading `bits`.
pub open spec fn same_prefix(x: int, y: int, width: int, bits: int) -> bool {
    bits == 0 || x / (pow2((width - bits) as nat) as int) == y / (pow2((width - bits) as nat) as int)
}

/// Whether a range covers an address.
pub open spec fn covers(net: IpNetLike, ip: IpAddr) -> bool {
    match (net, ip) {
        (IpNetLike::V4(n, bits), IpAddr::V4(v)) => same_prefix(
            n.number(),
            v.number(),
            32,
            bits as int,
        ),
        (IpNetLike::V6(n, bits), IpAddr::V6(v)) => same_prefix(
            n.number(),
            v.number(),
            128,
            bits as int,
        ),
        _ => false,
    }
}

/// The range that a text stands for: an address, a slash and a number of bits.
pub open spec fn net_text(s: Seq<char>) -> Option<IpNetLike> {
    let t = text::trimmed(s);
    let p = text::position(t, '/');
    if p < t.len() {
        match (numeral::unsigned_value(t.skip(p + 1), 10, 255), net::ip_text(t.take(p))) {
            (Some(bits), Some(IpAddr::V4(v))) => if bits <= 32 {
                Some(IpNetLike::V4(v, bits as u8))
            } else {
                None
            },
            (Some(bits), Some(IpAddr::V6(v))) => if bits <= 128 {
                Some(IpNetLike::V6(v, bits as u8))
            } else {
                None
            },
            _ => None,
        }
    } else {
        None
    }
}

impl IpNetLike {
    /// The number of bits fits the family.
    pub open spec fn wf(self) -> bool {
        match self {
            IpNetLike::V4(_, bits) => bits <= 32,
            IpNetLike::V6(_, bits) => bits <= 128,
        }
    }

    fn parse_chars(s: &[char]) -> (r: Option<Self>)
        ensures
            r == net_text(s@),
            r is Some ==> r->0.wf(),
    {
        let t = text::trim(s);
        let p: usize = text::find_char(t, '/');
        if p >= t.len() {
            return None;
        }
        assert(t@.subrange(p + 1, t@.len() as int) =~= t@.skip(p + 1));
        assert(t@.subrange(0, p as int) =~= t@.take(p as int));
        let bits: u8 = match numeral::read_unsigned(slice_subrange(t, p + 1, t.len()), 10, 255) {
            Some(n) => n as u8,
            None => {
                return None;
            },
        };
        match net::parse_ip_chars(slice_subrange(t, 0, p)) {
            Some(IpAddr::V4(v)) => if bits <= 32 {
                Some(IpNetLike::V4(v, bits))
            } else {
                None
            },
            Some(IpAddr::V6(v)) => if bits <= 128 {
                Some(IpNetLike::V6(v, bits))
            } else {
                None
            },
            None => None,
        }
    }

    /// Reads a range.
    pub fn parse(s: &str) -> (r: Option<Self>)
        ensures
            r == net_text(s@),
            r is Some ==> r->0.wf(),
    {
        let cs = text::to_chars(s);
        Self::parse_chars(&cs)
    }

    /// Whether the range covers the address.
    pub fn contains(&self, ip: IpAddr) -> (r: bool)
        requires
            self.wf(),
        ensures
            r == covers(*self, ip),
    {
        match (*self, ip) {
            (IpNetLike::V4(n, bits), IpAddr::V4(v)) => {
                if bits == 0 {
                    return true;
                }
                let shift: u32 = 32 - bits as u32;
                let x: u32 = n.to_u32();
                let y: u32 = v.to_u32();
                proof {
                    vstd::bits::lemma_u32_shr_is_div(x, shift);
                    vstd::bits::lemma_u32_shr_is_div(y, shift);
                }
                x >> shift == y >> shift
            },
            (IpNetLike::V6(n, bits), IpAddr::V6(v)) => {
                if bits == 0 {
                    return true;
                }
                let shift: u128 = 128 - bits as u128;
                let x: u128 = n.to_u128();
                let y: u128 = v.to_u128();
                proof {
                    vstd::bits::lemma_u128_shr_is_div(x, shift);
                    vstd::bits::lemma_u128_shr_is_div(y, shift);
                }
                x >> shift == y >> shift
            },
            _ => false,
        }
    }
}

/// The ranges among some texts, in order; texts that stand for none are left out.
pub open spec fn nets_of(texts: Seq<Seq<char>>) -> Seq<IpNetLike>
    decreases texts.len(),
{
    if texts.len() == 0 {
        Seq::empty()
    } else {
        match net_text(texts.last()) {
            Some(n) => nets_of(texts.drop_last()).push(n),
            None => nets_of(texts.drop_last()),
        }
    }
}

pub open spec fn all_wf(nets: Seq<IpNetLike>) -> bool {
    forall|i: int| 0 <= i < nets.len() ==> (#[trigger] nets[i]).wf()
}

/// Whether one of the ranges covers the address.
pub open spec fn any_covers(nets: Seq<IpNetLike>, ip: IpAddr) -> bool {
    exists|i: int| 0 <= i < nets.len() && covers(#[trigger] nets[i], ip)
}

fn parse_all(texts: &Vec<String>) -> (r: Vec<IpNetLike>)
    ensures
        r@ == nets_of(text::strings(texts@)),
        all_wf(r@),
{
    let mut r: Vec<IpNetLike> = Vec::new();
    let mut i: usize = 0;
    while i < texts.len()
        invariant
            i <= texts@.len(),
            r@ == nets_of(text::strings(texts@).take(i as int)),
            all_wf(r@),
        decreases texts@.len() - i,
    {
        proof {
            let t = text::strings(texts@).take(i + 1);
            assert(t.drop_last() =~= text::strings(texts@).take(i as int));
            assert(t.last() == texts@[i as int]@);
        }
        if let Some(n) = IpNetLike::parse(texts[i].as_str()) {
            r.push(n);
        }
        i += 1;
    }
    proof {
        assert(text::strings(texts@).take(i as int) =~= text::strings(texts@));
    }
    r
}

/// Reads the ranges of a downloaded list, one to a line.
pub fn parse_list(data: &[u8]) -> (r: Vec<IpNetLike>)
    ensures
        r@ == nets_of(text::lines(text::lossy_text(data@))),
        all_wf(r@),
{
    let decoded = text::decode_lossy(data);
    let cs = text::to_chars(decoded.as_str());
    let ls = text::split_lines(&cs);
    let ghost v = text::views(ls@);
    let mut r: Vec<IpNetLike> = Vec::new();
    let mut i: usize = 0;
    while i < ls.len()
        invariant
            v == text::views(ls@),
            i <= ls@.len(),
            r@ == nets_of(v.take(i as int)),
            all_wf(r@),
        decreases ls@.len() - i,
    {
        proof {
            let t = v.take(i + 1);
            assert(t.drop_last() =~= v.take(i as int));
            assert(t.last() == ls@[i as int]@);
        }
        if let Some(n) = IpNetLike::parse_chars(ls[i]) {
            r.push(n);
        }
        i += 1;
    }
    proof {
        assert(v.take(i as int) =~= v);
    }
    r
}

fn any_contains(nets: &Vec<IpNetLike>, ip: IpAddr) -> (r: bool)
    requires
        all_wf(nets@),
    ensures
        r == any_covers(nets@, ip),
{
    let mut i: usize = 0;
    while i < nets.len()
        invariant
            all_wf(nets@),
            i <= nets@.len(),
            forall|j: int| 0 <= j < i ==> !covers(#[trigger] nets@[j], ip),
        decreases nets@.len() - i,
    {
        if nets[i].contains(ip) {
            return true;
        }
        i += 1;
    }
    false
}

/// The ranges of the network, by family.
#[derive(Debug)]
pub struct CloudflareRanges {
    v4: Vec<IpNetLike>,
    v6: Vec<IpNetLike>,
}

impl CloudflareRanges {
    #[verifier::type_invariant]
    spec fn valid(self) -> bool {
        all_wf(self.v4@) && all_wf(self.v6@)
    }

    /// The ranges that are searched for an IPv4 address.
    pub closed spec fn nets4(self) -> Seq<IpNetLike> {
        self.v4@
    }

    /// The ranges that are searched for an IPv6 address.
    pub closed spec fn nets6(self) -> Seq<IpNetLike> {
        self.v6@
    }

    /// Whether the address belongs to the network.
    pub open spec fn covers(self, ip: IpAddr) -> bool {
        match ip {
            IpAddr::V4(_) => any_covers(self.nets4(), ip),
            IpAddr::V6(_) => any_covers(self.nets6(), ip),
        }
    }

    pub fn empty() -> (r: Self)
        ensures
            r.nets4() == Seq::<IpNetLike>::empty(),
            r.nets6() == Seq::<IpNetLike>::empty(),
    {
        CloudflareRanges { v4: Vec::new(), v6: Vec::new() }
    }

    /// Takes the published lists; texts that stand for no range are left out.
    pub fn from_cidrs(cidrs: CloudflareCidrs) -> (r: Self)
        ensures
            r.nets4() == nets_of(text::strings(cidrs.ipv4@)),
            r.nets6() == nets_of(text::strings(cidrs.ipv6@)),
    {
        CloudflareRanges { v4: parse_all(&cidrs.ipv4), v6: parse_all(&cidrs.ipv6) }
    }

    /// Takes the two downloaded lists.
    pub fn from_lists(ipv4: &[u8], ipv6: &[u8]) -> (r: Self)
        ensures
            r.nets4() == nets_of(text::lines(text::lossy_text(ipv4@))),
            r.nets6() == nets_of(text::lines(text::lossy_text(ipv6@))),
    {
        CloudflareRanges { v4: parse_list(ipv4), v6: parse_list(ipv6) }
    }
}

fn copy_nets(nets: &Vec<IpNetLike>) -> (r: Vec<IpNetLike>)
    ensures
        r@ == nets@,
{
    let mut r: Vec<IpNetLike> = Vec::new();
    let mut i: usize = 0;
    while i < nets.len()
        invariant
            i <= nets@.len(),
            r@ == nets@.take(i as int),
        decreases nets@.len() - i,
    {
        r.push(nets[i]);
        i += 1;
    }
    proof {
        assert(nets@.take(i as int) =~= nets@);
    }
    r
}

impl Clone for CloudflareRanges {
    fn clone(&self) -> (r: Self)
        ensures
            r.nets4() == self.nets4(),
            r.nets6() == self.nets6(),
    {
        proof {
            use_type_invariant(self);
        }
        CloudflareRanges { v4: copy_nets(&self.v4), v6: copy_nets(&self.v6) }
    }
}

/// The ranges of one family, in order.
pub open spec fn of_family(nets: Seq<IpNetLike>, v4: bool) -> Seq<IpNetLike>
    decreases nets.len(),
{
    if nets.len() == 0 {
        nets
    } else if (nets.last() is V4) == v4 {
        of_family(nets.drop_last(), v4).push(nets.last())
    } else {
        of_family(nets.drop_last(), v4)
    }
}

impl vstd::std_specs::convert::FromSpecImpl<Vec<String>> for CloudflareRanges {
    open spec fn obeys_from_spec() -> bool {
        false
    }

    open spec fn from_spec(v: Vec<String>) -> Self {
        arbitrary()
    }
}

impl From<Vec<String>> for CloudflareRanges {
    fn from(value: Vec<String>) -> (r: Self)
        ensures
            r.nets4() == of_family(nets_of(text::strings(value@)), true),
            r.nets6() == of_family(nets_of(text::strings(value@)), false),
    {
        let nets = parse_all(&value);
        let mut v4: Vec<IpNetLike> = Vec::new();
        let mut v6: Vec<IpNetLike> = Vec::new();
        let mut i: usize = 0;
        while i < nets.len()
            invariant
                i <= nets@.len(),
                all_wf(nets@),
                all_wf(v4@),
                all_wf(v6@),
                v4@ == of_family(nets@.take(i as int), true),
                v6@ == of_family(nets@.take(i as int), false),
            decreases nets@.len() - i,
        {
            proof {
                assert(nets@.take(i + 1).drop_last() =~= nets@.take(i as int));
            }
            match nets[i] {
                IpNetLike::V4(_, _) => v4.push(nets[i]),
                IpNetLike::V6(_, _) => v6.push(nets[i]),
            }
            i += 1;
        }
        proof {
            assert(nets@.take(i as int) =~= nets@);
        }
        CloudflareRanges { v4, v6 }
    }
}

impl CidrSource for CloudflareRanges {
    fn contains(&self, ip: IpAddr) -> (r: bool)
        ensures
            r == self.covers(ip),
    {
        proof {
            use_type_invariant(self);
        }
        match ip {
            IpAddr::V4(_) => any_contains(&self.v4, ip),
            IpAddr::V6(_) => any_contains(&self.v6, ip),
        }
    }
}

impl Default for CloudflareRanges {
    fn default() -> (r: Self)
        ensures
            r.nets4() == Seq::<IpNetLike>::empty(),
            r.nets6() == Seq::<IpNetLike>::empty(),
    {
        CloudflareRanges::empty()
    }
}

/// A range of no bits covers every address of its family.
pub proof fn law_zero_bits_cover_family(n4: Ipv4Addr, v4: Ipv4Addr, n6: Ipv6Addr, v6: Ipv6Addr)
    ensures
        covers(IpNetLike::V4(n4, 0), IpAddr::V4(v4)),
        covers(IpNetLike::V6(n6, 0), IpAddr::V6(v6)),
{
}

proof fn lemma_high_low(x: Ipv6Addr, y: Ipv6Addr)
    requires
        x.number() == y.number(),
    ensures
        x.high() == y.high(),
        x.low() == y.low(),
{
    assert(0 <= x.low() < 0x1_0000_0000_0000_0000);
    assert(0 <= y.low() < 0x1_0000_0000_0000_0000);
}

proof fn lemma_one_v6(x: Ipv6Addr, y: Ipv6Addr)
    requires
        x.number() == y.number(),
    ensures
        x == y,
{
    lemma_high_low(x, y);
    assert(x.s0 == y.s0 && x.s1 == y.s1 && x.s2 == y.s2 && x.s3 == y.s3);
    assert(x.s4 == y.s4 && x.s5 == y.s5 && x.s6 == y.s6 && x.s7 == y.s7);
}

proof fn lemma_one_v4(x: Ipv4Addr, y: Ipv4Addr)
    requires
        x.number() == y.number(),
    ensures
        x == y,
{
    let (p, q) = (x.a * 0x100 + x.b, x.c * 0x100 + x.d);
    let (u, v) = (y.a * 0x100 + y.b, y.c * 0x100 + y.d);
    assert(p * 0x1_0000 + q == u * 0x1_0000 + v);
    assert(0 <= q < 0x1_0000 && 0 <= v < 0x1_0000);
    assert(p == u && q == v);
    assert(x.a == y.a && x.b == y.b);
    assert(x.c == y.c && x.d == y.d);
}

/// A range of all bits covers its own address and no other.
pub proof fn law_all_bits_cover_one(n4: Ipv4Addr, v4: Ipv4Addr, n6: Ipv6Addr, v6: Ipv6Addr)
    ensures
        covers(IpNetLike::V4(n4, 32), IpAddr::V4(v4)) <==> n4 == v4,
        covers(IpNetLike::V6(n6, 128), IpAddr::V6(v6)) <==> n6 == v6,
{
    vstd::arithmetic::power2::lemma2_to64();
    assert(pow2((32 - 32) as nat) == 1 && pow2((128 - 128) as nat) == 1);
    vstd::arithmetic::div_mod::lemma_div_basics(n4.number());
    vstd::arithmetic::div_mod::lemma_div_basics(v4.number());
    vstd::arithmetic::div_mod::lemma_div_basics(n6.number());
    vstd::arithmetic::div_mod::lemma_div_basics(v6.number());
    if covers(IpNetLike::V4(n4, 32), IpAddr::V4(v4)) {
        assert(n4.number() == v4.number());
        lemma_one_v4(n4, v4);
    }
    if covers(IpNetLike::V6(n6, 128), IpAddr::V6(v6)) {
        assert(n6.number() == v6.number());
        lemma_one_v6(n6, v6);
    }
}

/// A range covers its own address, whatever the number of bits.
pub proof fn law_covers_own_address(n4: Ipv4Addr, n6: Ipv6Addr, bits: u8)
    ensures
        covers(IpNetLike::V4(n4, bits), IpAddr::V4(n4)),
        covers(IpNetLike::V6(n6, bits), IpAddr::V6(n6)),
{
}

/// A range covers no address of the other family.
pub proof fn law_families_are_apart(n4: Ipv4Addr, v4: Ipv4Addr, n6: Ipv6Addr, v6: Ipv6Addr, bits: u8)
    ensures
        !covers(IpNetLike::V4(n4, bits), IpAddr::V6(v6)),
        !covers(IpNetLike::V6(n6, bits), IpAddr::V4(v4)),
{
}

proof fn lemma_prefix_is_interval(x: int, y: int, width: int, bits: int, size: int)
    requires
        0 <= bits <= width,
        size == pow2((width - bits) as nat),
        bits == 0 ==> 0 <= x < size && 0 <= y < size,
        0 <= x,
        0 <= y,
    ensures
        same_prefix(x, y, width, bits) <==> x - x % size <= y < x - x % size + size,
{
    vstd::arithmetic::power2::lemma_pow2_pos((width - bits) as nat);
    assert(x / size == y / size <==> x - x % size <= y < x - x % size + size) by (nonlinear_arith)
        requires
            size > 0,
            0 <= x,
            0 <= y,
    {
        assert(x == size * (x / size) + x % size);
        assert(y == size * (y / size) + y % size);
        assert(0 <= x % size < size);
        assert(0 <= y % size < size);
    }
    if bits == 0 {
        assert(x % size == x) by (nonlinear_arith)
            requires
                0 <= x < size,
        ;
    }
}

/// A range of version 4 covers the addresses from its first on, as many as the bits that do not
/// count make, and no others. Its first address is its own with those bits cleared.
pub proof fn law_covers_interval_v4(n: Ipv4Addr, bits: u8, v: Ipv4Addr)
    requires
        bits <= 32,
    ensures
        ({
            let size = pow2((32 - bits) as nat) as int;
            let first = n.number() - n.number() % size;
            covers(IpNetLike::V4(n, bits), IpAddr::V4(v)) <==> first <= v.number() < first + size
        }),
{
    vstd::arithmetic::power2::lemma2_to64();
    assert(pow2(32) == 0x1_0000_0000);
    lemma_prefix_is_interval(
        n.number(),
        v.number(),
        32,
        bits as int,
        pow2((32 - bits) as nat) as int,
    );
}

/// A range of version 6 covers the addresses from its first on, as many as the bits that do not
/// count make, and no others. Its first address is its own with those bits cleared.
pub proof fn law_covers_interval_v6(n: Ipv6Addr, bits: u8, v: Ipv6Addr)
    requires
        bits <= 128,
    ensures
        ({
            let size = pow2((128 - bits) as nat) as int;
            let first = n.number() - n.number() % size;
            covers(IpNetLike::V6(n, bits), IpAddr::V6(v)) <==> first <= v.number() < first + size
        }),
{
    vstd::arithmetic::power2::lemma2_to64();
    vstd::arithmetic::power2::lemma_pow2_adds(64, 64);
    assert(pow2(128) == 0x1_0000_0000_0000_0000 * 0x1_0000_0000_0000_0000);
    assert(0 <= n.high() < 0x1_0000_0000_0000_0000 && 0 <= n.low() < 0x1_0000_0000_0000_0000);
    assert(0 <= v.high() < 0x1_0000_0000_0000_0000 && 0 <= v.low() < 0x1_0000_0000_0000_0000);
    lemma_prefix_is_interval(
        n.number(),
        v.number(),
        128,
        bits as int,
        pow2((128 - bits) as nat) as int,
    );
}

/// A range of whole octets covers the addresses that begin with the same octets.
pub proof fn law_whole_octets_count(n: Ipv4Addr, v: Ipv4Addr)
    ensures
        covers(IpNetLike::V4(n, 8), IpAddr::V4(v)) <==> n.a == v.a,
        covers(IpNetLike::V4(n, 16), IpAddr::V4(v)) <==> n.a == v.a && n.b == v.b,
        covers(IpNetLike::V4(n, 24), IpAddr::V4(v)) <==> n.a == v.a && n.b == v.b && n.c == v.c,
{
    vstd::arithmetic::power2::lemma2_to64();
    assert(pow2(24) == 0x100_0000 && pow2(16) == 0x1_0000 && pow2(8) == 0x100);
    let (x, y) = (n.number(), v.number());
    assert(x / 0x100_0000 == n.a && y / 0x100_0000 == v.a);
    assert(x / 0x1_0000 == n.a * 0x100 + n.b && y / 0x1_0000 == v.a * 0x100 + v.b);
    assert(x / 0x100 == n.a * 0x1_0000 + n.b * 0x100 + n.c);
    assert(y / 0x100 == v.a * 0x1_0000 + v.b * 0x100 + v.c);
}

proof fn lemma_halves(v: Ipv6Addr, e: nat)
    requires
        e <= 48,
    ensures
        v.number() / (pow2(64 + e) as int) == v.high() / (pow2(e) as int),
        v.number() / (pow2(64) as int) == v.high(),
{
    vstd::arithmetic::power2::lemma2_to64();
    vstd::arithmetic::power2::lemma_pow2_adds(64, e);
    vstd::arithmetic::power2::lemma_pow2_pos(e);
    assert(0 <= v.low() < 0x1_0000_0000_0000_0000);
    assert(v.number() / 0x1_0000_0000_0000_0000 == v.high());
    vstd::arithmetic::div_mod::lemma_div_denominator(
        v.number(),
        pow2(64) as int,
        pow2(e) as int,
    );
}

proof fn lemma_low_groups(n: Ipv6Addr, v: Ipv6Addr)
    ensures
        n.number() / 0x1_0000_0000_0000 == v.number() / 0x1_0000_0000_0000 <==> n.high() == v.high()
            && n.s4 == v.s4,
        n.number() / 0x1_0000_0000 == v.number() / 0x1_0000_0000 <==> n.high() == v.high() && n.s4
            == v.s4 && n.s5 == v.s5,
        n.number() / 0x1_0000 == v.number() / 0x1_0000 <==> n.high() == v.high() && n.s4 == v.s4
            && n.s5 == v.s5 && n.s6 == v.s6,
        n.high() == v.high() <==> n.s0 == v.s0 && n.s1 == v.s1 && n.s2 == v.s2 && n.s3 == v.s3,
{
    assert(n.number() / 0x1_0000_0000_0000 == n.high() * 0x1_0000 + n.s4);
    assert(v.number() / 0x1_0000_0000_0000 == v.high() * 0x1_0000 + v.s4);
    assert(n.number() / 0x1_0000_0000 == n.high() * 0x1_0000_0000 + n.s4 * 0x1_0000 + n.s5);
    assert(v.number() / 0x1_0000_0000 == v.high() * 0x1_0000_0000 + v.s4 * 0x1_0000 + v.s5);
    assert(n.number() / 0x1_0000 == n.high() * 0x1_0000_0000_0000 + n.s4 * 0x1_0000_0000 + n.s5
        * 0x1_0000 + n.s6);
    assert(v.number() / 0x1_0000 == v.high() * 0x1_0000_0000_0000 + v.s4 * 0x1_0000_0000 + v.s5
        * 0x1_0000 + v.s6);
}

/// A range of whole groups covers the addresses that begin with the same groups.
pub proof fn law_whole_groups_count(n: Ipv6Addr, v: Ipv6Addr)
    ensures
        covers(IpNetLike::V6(n, 16), IpAddr::V6(v)) <==> n.s0 == v.s0,
        covers(IpNetLike::V6(n, 32), IpAddr::V6(v)) <==> n.s0 == v.s0 && n.s1 == v.s1,
        covers(IpNetLike::V6(n, 48), IpAddr::V6(v)) <==> n.s0 == v.s0 && n.s1 == v.s1 && n.s2
            == v.s2,
        covers(IpNetLike::V6(n, 64), IpAddr::V6(v)) <==> n.s0 == v.s0 && n.s1 == v.s1 && n.s2 == v.s2
            && n.s3 == v.s3,
        covers(IpNetLike::V6(n, 80), IpAddr::V6(v)) <==> n.s0 == v.s0 && n.s1 == v.s1 && n.s2 == v.s2
            && n.s3 == v.s3 && n.s4 == v.s4,
        covers(IpNetLike::V6(n, 96), IpAddr::V6(v)) <==> n.s0 == v.s0 && n.s1 == v.s1 && n.s2 == v.s2
            && n.s3 == v.s3 && n.s4 == v.s4 && n.s5 == v.s5,
        covers(IpNetLike::V6(n, 112), IpAddr::V6(v)) <==> n.s0 == v.s0 && n.s1 == v.s1 && n.s2
            == v.s2 && n.s3 == v.s3 && n.s4 == v.s4 && n.s5 == v.s5 && n.s6 == v.s6,
{
    vstd::arithmetic::power2::lemma2_to64();
    vstd::arithmetic::power2::lemma2_to64_rest();
    lemma_low_groups(n, v);
    lemma_halves(n, 48);
    lemma_halves(v, 48);
    lemma_halves(n, 32);
    lemma_halves(v, 32);
    lemma_halves(n, 16);
    lemma_halves(v, 16);
    assert(pow2(48) == 0x1_0000_0000_0000 && pow2(32) == 0x1_0000_0000 && pow2(16) == 0x1_0000);
    let (x, y) = (n.high(), v.high());
    assert(x / 0x1_0000_0000_0000 == n.s0 && y / 0x1_0000_0000_0000 == v.s0);
    assert(x / 0x1_0000_0000 == n.s0 * 0x1_0000 + n.s1);
    assert(y / 0x1_0000_0000 == v.s0 * 0x1_0000 + v.s1);
    assert(x / 0x1_0000 == n.s0 * 0x1_0000_0000 + n.s1 * 0x1_0000 + n.s2);
    assert(y / 0x1_0000 == v.s0 * 0x1_0000_0000 + v.s1 * 0x1_0000 + v.s2);
}

/// A range that was written is read back, with or without white space around it; one with more
/// bits than its family has is none.
pub proof fn law_written_range_is_read(ip: IpAddr, bits: u8, before: Seq<char>, behind: Seq<char>)
    requires
        forall|i: int| 0 <= i < before.len() ==> text::is_space(#[trigger] before[i]),
        forall|i: int| 0 <= i < behind.len() ==> text::is_space(#[trigger] behind[i]),
    ensures
        net_text(
            before + (net::show_ip(ip) + seq!['/'] + numeral::decimal(bits as nat)) + behind,
        ) == (match ip {
            IpAddr::V4(v) => if bits <= 32 {
                Some(IpNetLike::V4(v, bits))
            } else {
                None
            },
            IpAddr::V6(v) => if bits <= 128 {
                Some(IpNetLike::V6(v, bits))
            } else {
                None
            },
        }),
{
    let a = net::show_ip(ip);
    let d = numeral::decimal(bits as nat);
    let t = a + seq!['/'] + d;
    net::lemma_address_plain(ip);
    net::law_read_written_address(ip);
    numeral::lemma_numeral(bits as nat, 10);
    numeral::lemma_read_numeral(bits as nat, 10, 255);
    assert(text::digit_value(d[d.len() - 1], 10) is Some);
    assert(t[0] == a[0] && t.last() == d[d.len() - 1]);
    text::law_trimmed_space(before, t, behind);
    assert forall|j: int| 0 <= j < a.len() implies t[j] != '/' by {
        assert(t[j] == a[j]);
    }
    text::lemma_find_at(t, '/', 0, a.len() as int);
    assert(t.take(a.len() as int) =~= a);
    assert(t.skip(a.len() as int + 1) =~= d);
}

/// The ranges of a list are those that its texts stand for, each in its turn; texts that stand
/// for none are left out.
pub proof fn law_ranges_of_a_list(a: Seq<Seq<char>>, b: Seq<Seq<char>>, one: Seq<char>)
    ensures
        nets_of(a + b) == nets_of(a) + nets_of(b),
        nets_of(seq![one]) == (match net_text(one) {
            Some(n) => seq![n],
            None => Seq::empty(),
        }),
    decreases b.len(),
{
    let none = Seq::<Seq<char>>::empty();
    assert(seq![one].drop_last() =~= none);
    assert(nets_of(none) =~= Seq::<IpNetLike>::empty());
    assert(nets_of(seq![one]) =~= (match net_text(one) {
        Some(n) => seq![n],
        None => Seq::empty(),
    }));
    if b.len() == 0 {
        assert(a + b =~= a);
        assert(nets_of(a) + nets_of(b) =~= nets_of(a));
    } else {
        assert((a + b).drop_last() =~= a + b.drop_last());
        law_ranges_of_a_list(a, b.drop_last(), one);
        assert(nets_of(a + b) =~= nets_of(a) + nets_of(b));
    }
}

/// Ranges cover the addresses that one of them covers.
pub proof fn law_ranges_cover_together(a: Seq<IpNetLike>, b: Seq<IpNetLike>, one: IpNetLike, ip: IpAddr)
    ensures
        any_covers(a + b, ip) <==> any_covers(a, ip) || any_covers(b, ip),
        any_covers(seq![one], ip) <==> covers(one, ip),
        !any_covers(Seq::empty(), ip),
{
    if any_covers(a, ip) {
        let i = choose|i: int| 0 <= i < a.len() && covers(#[trigger] a[i], ip);
        assert((a + b)[i] == a[i]);
    }
    if any_covers(b, ip) {
        let i = choose|i: int| 0 <= i < b.len() && covers(#[trigger] b[i], ip);
        assert((a + b)[a.len() + i] == b[i]);
    }
    if any_covers(a + b, ip) {
        let i = choose|i: int| 0 <= i < (a + b).len() && covers(#[trigger] (a + b)[i], ip);
        if i < a.len() {
            assert((a + b)[i] == a[i]);
        } else {
            assert((a + b)[i] == b[i - a.len()]);
        }
    }
    if covers(one, ip) {
        assert(seq![one][0] == one);
    }
}

/// Ranges of both families that are sorted by family cover what they covered before.
pub proof fn law_families_keep_ranges(nets: Seq<IpNetLike>, ip: IpAddr)
    ensures
        any_covers(of_family(nets, ip is V4), ip) <==> any_covers(nets, ip),
    decreases nets.len(),
{
    if nets.len() > 0 {
        let (rest, one) = (nets.drop_last(), nets.last());
        law_families_keep_ranges(rest, ip);
        assert(nets =~= rest + seq![one]);
        law_ranges_cover_together(rest, seq![one], one, ip);
        let f = of_family(rest, ip is V4);
        law_ranges_cover_together(f, seq![one], one, ip);
        assert(f.push(one) =~= f + seq![one]);
    }
}

/// The ranges of each family are searched for the addresses of that family.
pub proof fn law_addresses_are_sought_in_their_family(r: CloudflareRanges, ip: IpAddr)
    ensures
        ip is V4 ==> (r.covers(ip) <==> exists|i: int|
            0 <= i < r.nets4().len() && covers(#[trigger] r.nets4()[i], ip)),
        ip is V6 ==> (r.covers(ip) <==> exists|i: int|
            0 <= i < r.nets6().len() && covers(#[trigger] r.nets6()[i], ip)),
{
}

/// A range fixes at most as many bits as an address of its family has.
pub proof fn law_fixed_bits(nets: Seq<IpNetLike>, i: int)
    requires
        all_wf(nets),
        0 <= i < nets.len(),
    ensures
        nets[i] matches IpNetLike::V4(_, bits) ==> bits <= 32,
        nets[i] matches IpNetLike::V6(_, bits) ==> bits <= 128,
{
    assert(nets[i].wf());
}

} // verus!
