//! Internet addresses: the values, and the texts that stand for them.

use vstd::prelude::*;
use vstd::slice::slice_subrange;

use crate::numeral;
use crate::text;

verus! {

/// An IPv4 address, as its four octets.
#[derive(Clone, Copy, Debug, PartialEq, Eq, PartialOrd, Ord, Hash, Structural)]
pub struct Ipv4Addr {
    pub a: u8,
    pub b: u8,
    pub c: u8,
    pub d: u8,
}

/// An IPv6 address, as its eight groups of sixteen bits.
#[derive(Clone, Copy, Debug, PartialEq, Eq, PartialOrd, Ord, Hash, Structural)]
pub struct Ipv6Addr {
    pub s0: u16,
    pub s1: u16,
    pub s2: u16,
    pub s3: u16,
    pub s4: u16,
    pub s5: u16,
    pub s6: u16,
    pub s7: u16,
}

/// An address of either family.
#[derive(Clone, Copy, Debug, PartialEq, Eq, PartialOrd, Ord, Hash, Structural)]
pub enum IpAddr {
    V4(Ipv4Addr),
    V6(Ipv6Addr),
}

impl Ipv4Addr {
    pub fn new(a: u8, b: u8, c: u8, d: u8) -> (r: Self)
        ensures
            r == (Ipv4Addr { a, b, c, d }),
    {
        Ipv4Addr { a, b, c, d }
    }

    /// The address as one number, the first octet leading.
    pub open spec fn number(self) -> int {
        self.a * 0x100_0000 + self.b * 0x1_0000 + self.c * 0x100 + self.d
    }

    pub fn to_u32(self) -> (r: u32)
        ensures
            r == self.number(),
    {
        self.a as u32 * 0x100_0000 + self.b as u32 * 0x1_0000 + self.c as u32 * 0x100
            + self.d as u32
    }
}

impl Ipv6Addr {
    pub fn new(
        s0: u16,
        s1: u16,
        s2: u16,
        s3: u16,
        s4: u16,
        s5: u16,
        s6: u16,
        s7: u16,
    ) -> (r: Self)
        ensures
            r == (Ipv6Addr { s0, s1, s2, s3, s4, s5, s6, s7 }),
    {
        Ipv6Addr { s0, s1, s2, s3, s4, s5, s6, s7 }
    }

    /// The groups in order.
    pub open spec fn groups(self) -> Seq<u16> {
        seq![self.s0, self.s1, self.s2, self.s3, self.s4, self.s5, self.s6, self.s7]
    }

    pub fn segments(self) -> (r: Vec<u16>)
        ensures
            r@ == self.groups(),
    {
        vec![self.s0, self.s1, self.s2, self.s3, self.s4, self.s5, self.s6, self.s7]
    }

    /// The upper and the lower half of the address, each as one number.
    pub open spec fn high(self) -> int {
        self.s0 * 0x1_0000_0000_0000 + self.s1 * 0x1_0000_0000 + self.s2 * 0x1_0000 + self.s3
    }

    pub open spec fn low(self) -> int {
        self.s4 * 0x1_0000_0000_0000 + self.s5 * 0x1_0000_0000 + self.s6 * 0x1_0000 + self.s7
    }

    /// The address as one number, the first group leading.
    pub open spec fn number(self) -> int {
        self.high() * 0x1_0000_0000_0000_0000 + self.low()
    }

    pub fn to_u128(self) -> (r: u128)
        ensures
            r == self.number(),
    {
        let high: u64 = self.s0 as u64 * 0x1_0000_0000_0000 + self.s1 as u64 * 0x1_0000_0000
            + self.s2 as u64 * 0x1_0000 + self.s3 as u64;
        let low: u64 = self.s4 as u64 * 0x1_0000_0000_0000 + self.s5 as u64 * 0x1_0000_0000
            + self.s6 as u64 * 0x1_0000 + self.s7 as u64;
        high as u128 * 0x1_0000_0000_0000_0000 + low as u128
    }
}

/// The address with the given groups.
pub open spec fn from_groups(g: Seq<u16>) -> Ipv6Addr {
    Ipv6Addr {
        s0: g[0],
        s1: g[1],
        s2: g[2],
        s3: g[3],
        s4: g[4],
        s5: g[5],
        s6: g[6],
        s7: g[7],
    }
}

// ---------------------------------------------------------------------------
// Reading

/// A decimal number up to 255 without a needless zero in front.
pub open spec fn octet_text(s: Seq<char>) -> Option<int> {
    if s.len() > 1 && s[0] == '0' {
        None
    } else {
        numeral::digits_value(s, 10, 255)
    }
}

/// Four octets with dots between them.
#[verifier::opaque]
pub open spec fn ipv4_text(s: Seq<char>) -> Option<Ipv4Addr> {
    let p = text::pieces(s, '.');
    if p.len() == 4 && octet_text(p[0]) is Some && octet_text(p[1]) is Some && octet_text(p[2])
        is Some && octet_text(p[3]) is Some {
        Some(
            Ipv4Addr {
                a: octet_text(p[0])->0 as u8,
                b: octet_text(p[1])->0 as u8,
                c: octet_text(p[2])->0 as u8,
                d: octet_text(p[3])->0 as u8,
            },
        )
    } else {
        None
    }
}

/// One to four hexadecimal digits.
pub open spec fn group_text(s: Seq<char>) -> Option<int> {
    if s.len() <= 4 {
        numeral::digits_value(s, 16, 0xffff)
    } else {
        None
    }
}

/// The groups that the parts of an IPv6 address stand for. Where `tail` holds, the
/// last part may be an IPv4 address, which stands for two groups.
pub open spec fn groups_of(parts: Seq<Seq<char>>, tail: bool) -> Option<Seq<u16>>
    decreases parts.len(),
{
    if parts.len() == 0 {
        Some(Seq::empty())
    } else if parts.len() == 1 && tail && ipv4_text(parts[0]) is Some {
        let v = ipv4_text(parts[0])->0;
        Some(seq![(v.a * 0x100 + v.b) as u16, (v.c * 0x100 + v.d) as u16])
    } else {
        match (group_text(parts[0]), groups_of(parts.skip(1), tail)) {
            (Some(g), Some(rest)) => Some(seq![g as u16] + rest),
            _ => None,
        }
    }
}

/// The groups of a run of parts with colons between them; none for an empty text.
pub open spec fn groups_text(s: Seq<char>, tail: bool) -> Option<Seq<u16>> {
    if s.len() == 0 {
        Some(Seq::empty())
    } else {
        groups_of(text::pieces(s, ':'), tail)
    }
}

pub open spec fn double_colon() -> Seq<char> {
    seq![':', ':']
}

pub open spec fn zeros(n: int) -> Seq<u16> {
    Seq::new(n as nat, |i: int| 0u16)
}

/// Eight groups with colons between them; the first double colon, if there is one,
/// stands for one or more groups of zero.
#[verifier::opaque]
pub open spec fn ipv6_text(s: Seq<char>) -> Option<Ipv6Addr> {
    match text::find_seq_from(s, double_colon(), 0) {
        Some(i) => {
            match (groups_text(s.take(i), false), groups_text(s.skip(i + 2), true)) {
                (Some(h), Some(t)) => {
                    if h.len() + t.len() <= 7 {
                        Some(from_groups(h + zeros(8 - h.len() - t.len()) + t))
                    } else {
                        None
                    }
                },
                _ => None,
            }
        },
        None => {
            match groups_text(s, true) {
                Some(g) => if g.len() == 8 {
                    Some(from_groups(g))
                } else {
                    None
                },
                None => None,
            }
        },
    }
}

/// An address of either family.
pub open spec fn ip_text(s: Seq<char>) -> Option<IpAddr> {
    match ipv4_text(s) {
        Some(v) => Some(IpAddr::V4(v)),
        None => match ipv6_text(s) {
            Some(v) => Some(IpAddr::V6(v)),
            None => None,
        },
    }
}

/// A port number: decimal digits only.
pub open spec fn port_text(s: Seq<char>) -> Option<int> {
    numeral::digits_value(s, 10, 0xffff)
}

/// An IPv6 address, which a percent sign and a decimal scope number may follow.
pub open spec fn scoped_text(s: Seq<char>) -> Option<Ipv6Addr> {
    let p = text::position(s, '%');
    if p < s.len() {
        if numeral::digits_value(s.skip(p + 1), 10, 0xffff_ffff) is Some {
            ipv6_text(s.take(p))
        } else {
            None
        }
    } else {
        ipv6_text(s)
    }
}

/// An IPv4 address, a colon and a port.
pub open spec fn socket_v4_text(s: Seq<char>) -> Option<(IpAddr, u16)> {
    let p = text::position(s, ':');
    if p < s.len() && ipv4_text(s.take(p)) is Some && port_text(s.skip(p + 1)) is Some {
        Some((IpAddr::V4(ipv4_text(s.take(p))->0), port_text(s.skip(p + 1))->0 as u16))
    } else {
        None
    }
}

/// An IPv6 address in square brackets, a colon and a port.
pub open spec fn socket_v6_text(s: Seq<char>) -> Option<(IpAddr, u16)> {
    let q = text::position(s, ']');
    if s.len() > 0 && s[0] == '[' && q + 1 < s.len() && s[q + 1] == ':' && scoped_text(
        s.subrange(1, q),
    ) is Some && port_text(s.skip(q + 2)) is Some {
        Some((IpAddr::V6(scoped_text(s.subrange(1, q))->0), port_text(s.skip(q + 2))->0 as u16))
    } else {
        None
    }
}

/// An address and a port.
pub open spec fn socket_text(s: Seq<char>) -> Option<(IpAddr, u16)> {
    match socket_v4_text(s) {
        Some(x) => Some(x),
        None => socket_v6_text(s),
    }
}

fn read_octet(s: &[char]) -> (r: Option<u8>)
    ensures
        match r {
            Some(n) => octet_text(s@) == Some(n as int),
            None => octet_text(s@) is None,
        },
{
    if s.len() > 1 && s[0] == '0' {
        return None;
    }
    match numeral::read_digits(s, 10, 255) {
        Some(n) => Some(n as u8),
        None => None,
    }
}

pub fn parse_ipv4(s: &[char]) -> (r: Option<Ipv4Addr>)
    ensures
        r == ipv4_text(s@),
{
    proof {
        reveal(ipv4_text);
    }
    let p = text::split(s, '.');
    let ghost v = text::views(p@);
    proof {
        assert(v == text::pieces(s@, '.'));
        assert(v.len() == p@.len());
    }
    if p.len() != 4 {
        return None;
    }
    proof {
        assert(v[0] == p@[0]@ && v[1] == p@[1]@ && v[2] == p@[2]@ && v[3] == p@[3]@);
    }
    match (read_octet(p[0]), read_octet(p[1]), read_octet(p[2]), read_octet(p[3])) {
        (Some(a), Some(b), Some(c), Some(d)) => Some(Ipv4Addr { a, b, c, d }),
        _ => None,
    }
}

fn read_group(s: &[char]) -> (r: Option<u16>)
    ensures
        match r {
            Some(n) => group_text(s@) == Some(n as int),
            None => group_text(s@) is None,
        },
{
    if s.len() > 4 {
        return None;
    }
    match numeral::read_digits(s, 16, 0xffff) {
        Some(n) => Some(n as u16),
        None => None,
    }
}

fn read_groups(s: &[char], tail: bool) -> (r: Option<Vec<u16>>)
    ensures
        match r {
            Some(g) => groups_text(s@, tail) == Some(g@),
            None => groups_text(s@, tail) is None,
        },
{
    let mut out: Vec<u16> = Vec::new();
    if s.len() == 0 {
        return Some(out);
    }
    let parts = text::split(s, ':');
    let ghost v = text::views(parts@);
    let mut i: usize = 0;
    proof {
        assert(v.skip(0) =~= v);
        text::lemma_pieces_count(s@, ':');
    }
    while i < parts.len()
        invariant
            v == text::views(parts@),
            v == text::pieces(s@, ':'),
            s@.len() > 0,
            i <= parts@.len(),
            match groups_of(v.skip(i as int), tail) {
                Some(rest) => groups_text(s@, tail) == Some(out@ + rest),
                None => groups_text(s@, tail) is None,
            },
        decreases parts@.len() - i,
    {
        proof {
            assert(v.skip(i as int).skip(1) =~= v.skip(i + 1));
            assert(v.skip(i as int)[0] == parts@[i as int]@);
        }
        if tail && i == parts.len() - 1 {
            if let Some(a) = parse_ipv4(parts[i]) {
                let ghost before = out@;
                let hi: u16 = a.a as u16 * 0x100 + a.b as u16;
                let lo: u16 = a.c as u16 * 0x100 + a.d as u16;
                out.push(hi);
                out.push(lo);
                proof {
                    assert(out@ =~= before + seq![hi, lo]);
                }
                return Some(out);
            }
        }
        match read_group(parts[i]) {
            Some(g) => {
                let ghost before = out@;
                out.push(g);
                proof {
                    if let Some(rest) = groups_of(v.skip(i + 1), tail) {
                        assert(before + (seq![g] + rest) =~= out@ + rest);
                    }
                }
            },
            None => {
                return None;
            },
        }
        i += 1;
    }
    proof {
        assert(v.skip(i as int) =~= Seq::<Seq<char>>::empty());
        assert(out@ + Seq::<u16>::empty() =~= out@);
    }
    Some(out)
}

fn join_groups(g: &Vec<u16>) -> (r: Ipv6Addr)
    requires
        g@.len() == 8,
    ensures
        r == from_groups(g@),
{
    Ipv6Addr {
        s0: g[0],
        s1: g[1],
        s2: g[2],
        s3: g[3],
        s4: g[4],
        s5: g[5],
        s6: g[6],
        s7: g[7],
    }
}

pub fn parse_ipv6(s: &[char]) -> (r: Option<Ipv6Addr>)
    ensures
        r == ipv6_text(s@),
{
    proof {
        reveal(ipv6_text);
    }
    let colons: Vec<char> = vec![':', ':'];
    proof {
        assert(colons@ =~= double_colon());
    }
    match text::find_seq(s, &colons) {
        Some(i) => {
            assert(s@.len() == s.len());
            assert(s@.subrange(0, i as int) =~= s@.take(i as int));
            assert(s@.subrange(i + 2, s@.len() as int) =~= s@.skip(i + 2));
            let head = read_groups(slice_subrange(s, 0, i), false);
            let rest = read_groups(slice_subrange(s, i + 2, s.len()), true);
            match (head, rest) {
                (Some(h), Some(t)) => {
                    if h.len() > 7 || t.len() > 7 || h.len() + t.len() > 7 {
                        return None;
                    }
                    let ghost want = h@ + zeros(8 - h@.len() - t@.len()) + t@;
                    let ghost head_groups = h@;
                    let n: usize = 8 - h.len() - t.len();
                    let mut g = h;
                    let mut k: usize = 0;
                    while k < n
                        invariant
                            k <= n,
                            g@ == head_groups + zeros(k as int),
                        decreases n - k,
                    {
                        g.push(0);
                        proof {
                            assert(g@ =~= head_groups + zeros(k + 1));
                        }
                        k += 1;
                    }
                    let mut k: usize = 0;
                    while k < t.len()
                        invariant
                            k <= t@.len(),
                            g@ == head_groups + zeros(n as int) + t@.take(k as int),
                        decreases t@.len() - k,
                    {
                        g.push(t[k]);
                        proof {
                            assert(g@ =~= head_groups + zeros(n as int) + t@.take(k + 1));
                        }
                        k += 1;
                    }
                    proof {
                        assert(g@ =~= want);
                    }
                    Some(join_groups(&g))
                },
                _ => None,
            }
        },
        None => {
            match read_groups(s, true) {
                Some(g) => if g.len() == 8 {
                    Some(join_groups(&g))
                } else {
                    None
                },
                None => None,
            }
        },
    }
}

pub fn parse_ip_chars(s: &[char]) -> (r: Option<IpAddr>)
    ensures
        r == ip_text(s@),
{
    match parse_ipv4(s) {
        Some(v) => Some(IpAddr::V4(v)),
        None => match parse_ipv6(s) {
            Some(v) => Some(IpAddr::V6(v)),
            None => None,
        },
    }
}

/// Reads an address of either family.
pub fn parse_ip(s: &str) -> (r: Option<IpAddr>)
    ensures
        r == ip_text(s@),
{
    let cs = text::to_chars(s);
    parse_ip_chars(&cs)
}

fn read_port(s: &[char]) -> (r: Option<u16>)
    ensures
        match r {
            Some(n) => port_text(s@) == Some(n as int),
            None => port_text(s@) is None,
        },
{
    match numeral::read_digits(s, 10, 0xffff) {
        Some(n) => Some(n as u16),
        None => None,
    }
}

fn parse_scoped(s: &[char]) -> (r: Option<Ipv6Addr>)
    ensures
        r == scoped_text(s@),
{
    let p: usize = text::find_char(s, '%');
    if p < s.len() {
        assert(s@.subrange(p + 1, s@.len() as int) =~= s@.skip(p + 1));
        assert(s@.subrange(0, p as int) =~= s@.take(p as int));
        match numeral::read_digits(slice_subrange(s, p + 1, s.len()), 10, 0xffff_ffff) {
            Some(_) => parse_ipv6(slice_subrange(s, 0, p)),
            None => None,
        }
    } else {
        parse_ipv6(s)
    }
}

/// Reads an address and a port.
pub fn parse_socket(s: &[char]) -> (r: Option<(IpAddr, u16)>)
    ensures
        r == socket_text(s@),
{
    proof {
        text::lemma_find_from(s@, ':', 0);
        text::lemma_find_from(s@, ']', 0);
    }
    let p: usize = text::find_char(s, ':');
    if p < s.len() {
        assert(s@.subrange(p + 1, s@.len() as int) =~= s@.skip(p + 1));
        assert(s@.subrange(0, p as int) =~= s@.take(p as int));
        let ip = parse_ipv4(slice_subrange(s, 0, p));
        let port = read_port(slice_subrange(s, p + 1, s.len()));
        if let (Some(ip), Some(port)) = (ip, port) {
            return Some((IpAddr::V4(ip), port));
        }
    }
    let q: usize = text::find_char(s, ']');
    if s.len() > 0 && s[0] == '[' && q < s.len() - 1 && s[q + 1] == ':' {
        assert(s@.subrange(q + 2, s@.len() as int) =~= s@.skip(q + 2));
        let ip = parse_scoped(slice_subrange(s, 1, q));
        let port = read_port(slice_subrange(s, q + 2, s.len()));
        if let (Some(ip), Some(port)) = (ip, port) {
            return Some((IpAddr::V6(ip), port));
        }
    }
    None
}

// ---------------------------------------------------------------------------
// Writing

pub open spec fn octets(v: Ipv4Addr) -> Seq<Seq<char>> {
    seq![
        numeral::decimal(v.a as nat),
        numeral::decimal(v.b as nat),
        numeral::decimal(v.c as nat),
        numeral::decimal(v.d as nat),
    ]
}

/// The text of an IPv4 address.
#[verifier::opaque]
pub open spec fn show_ipv4(v: Ipv4Addr) -> Seq<char> {
    text::joined(octets(v), seq!['.'])
}

/// The number of groups of zero from index `i` on.
pub open spec fn run_len(g: Seq<u16>, i: int) -> int
    decreases g.len() - i,
{
    if 0 <= i < g.len() && g[i] == 0 {
        1 + run_len(g, i + 1)
    } else {
        0
    }
}

/// Start and length of the first of the longest runs of zero from index `i` on.
pub open spec fn best_run(g: Seq<u16>, i: int) -> (int, int)
    decreases g.len() - i,
{
    if i < 0 || i >= g.len() {
        (0, 0)
    } else {
        let rest = best_run(g, i + 1);
        let n = run_len(g, i);
        if n > 0 && n >= rest.1 {
            (i, n)
        } else {
            rest
        }
    }
}

pub open spec fn hex(x: u16) -> Seq<char> {
    numeral::numeral(x as nat, 16)
}

pub open spec fn hexes(g: Seq<u16>) -> Seq<Seq<char>> {
    g.map_values(|x: u16| hex(x))
}

/// Groups in hexadecimal with colons between them.
pub open spec fn show_groups(g: Seq<u16>) -> Seq<char> {
    text::joined(hexes(g), seq![':'])
}

/// Whether the address stands for an IPv4 address.
pub open spec fn is_mapped(v: Ipv6Addr) -> bool {
    v.s0 == 0 && v.s1 == 0 && v.s2 == 0 && v.s3 == 0 && v.s4 == 0 && v.s5 == 0xffff
}

pub open spec fn mapped(v: Ipv6Addr) -> Ipv4Addr {
    Ipv4Addr {
        a: (v.s6 / 0x100) as u8,
        b: (v.s6 % 0x100) as u8,
        c: (v.s7 / 0x100) as u8,
        d: (v.s7 % 0x100) as u8,
    }
}

/// The text of an IPv6 address: the first of the longest runs of two or more groups
/// of zero is written as a double colon.
#[verifier::opaque]
pub open spec fn show_ipv6(v: Ipv6Addr) -> Seq<char> {
    let g = v.groups();
    let (start, len) = best_run(g, 0);
    if is_mapped(v) {
        seq![':', ':', 'f', 'f', 'f', 'f', ':'] + show_ipv4(mapped(v))
    } else if len > 1 {
        show_groups(g.take(start)) + double_colon() + show_groups(g.skip(start + len))
    } else {
        show_groups(g)
    }
}

/// The text of an address.
pub open spec fn show_ip(ip: IpAddr) -> Seq<char> {
    match ip {
        IpAddr::V4(v) => show_ipv4(v),
        IpAddr::V6(v) => show_ipv6(v),
    }
}

fn write_ipv4(v: Ipv4Addr) -> (r: String)
    ensures
        r@ == show_ipv4(v),
{
    proof {
        reveal(show_ipv4);
    }
    let parts: Vec<String> = vec![
        numeral::to_decimal(v.a as u128),
        numeral::to_decimal(v.b as u128),
        numeral::to_decimal(v.c as u128),
        numeral::to_decimal(v.d as u128),
    ];
    proof {
        reveal_strlit(".");
        assert(text::strings(parts@) =~= octets(v));
        assert("."@ =~= seq!['.']);
    }
    text::join(&parts, ".")
}

fn write_groups(g: &[u16]) -> (r: String)
    ensures
        r@ == show_groups(g@),
{
    let mut parts: Vec<String> = Vec::new();
    let mut i: usize = 0;
    while i < g.len()
        invariant
            i <= g@.len(),
            text::strings(parts@) == hexes(g@.take(i as int)),
        decreases g@.len() - i,
    {
        let mut s = String::new();
        numeral::push_numeral(&mut s, g[i] as u128, 16);
        proof {
            assert(s@ =~= hex(g@[i as int]));
        }
        let ghost before = parts@;
        parts.push(s);
        proof {
            assert(text::strings(parts@) =~= text::strings(before).push(hex(g@[i as int])));
            assert(hexes(g@.take(i + 1)) =~= hexes(g@.take(i as int)).push(hex(g@[i as int])));
        }
        i += 1;
    }
    proof {
        assert(g@.take(i as int) =~= g@);
        reveal_strlit(":");
        assert(":"@ =~= seq![':']);
    }
    text::join(&parts, ":")
}

fn find_run(g: &Vec<u16>) -> (r: (usize, usize))
    ensures
        (r.0 as int, r.1 as int) == best_run(g@, 0),
{
    let mut i: usize = g.len();
    let mut start: usize = 0;
    let mut len: usize = 0;
    let mut cur: usize = 0;
    while i > 0
        invariant
            i <= g@.len(),
            (start as int, len as int) == best_run(g@, i as int),
            cur == run_len(g@, i as int),
            cur <= g@.len() - i,
        decreases i,
    {
        i -= 1;
        assert(g@.len() == g.len());
        if g[i] == 0 {
            cur += 1;
        } else {
            cur = 0;
        }
        if cur > 0 && cur >= len {
            start = i;
            len = cur;
        }
    }
    (start, len)
}

proof fn lemma_best_run(g: Seq<u16>, i: int)
    requires
        0 <= i <= g.len(),
    ensures
        best_run(g, i).1 >= 0,
        best_run(g, i).1 > 0 ==> i <= best_run(g, i).0,
        0 <= best_run(g, i).0,
        best_run(g, i).0 + best_run(g, i).1 <= g.len(),
        forall|j: int|
            best_run(g, i).0 <= j < best_run(g, i).0 + best_run(g, i).1 ==> g[j] == 0,
    decreases g.len() - i,
{
    if i < g.len() {
        lemma_best_run(g, i + 1);
        lemma_run_len(g, i);
    }
}

proof fn lemma_run_len(g: Seq<u16>, i: int)
    requires
        0 <= i <= g.len(),
    ensures
        0 <= run_len(g, i) <= g.len() - i,
        forall|j: int| i <= j < i + run_len(g, i) ==> g[j] == 0,
    decreases g.len() - i,
{
    if i < g.len() && g[i] == 0 {
        lemma_run_len(g, i + 1);
    }
}

fn write_ipv6(v: Ipv6Addr) -> (r: String)
    ensures
        r@ == show_ipv6(v),
{
    proof {
        reveal(show_ipv6);
    }
    if v.s0 == 0 && v.s1 == 0 && v.s2 == 0 && v.s3 == 0 && v.s4 == 0 && v.s5 == 0xffff {
        let mut r = text::owned("::ffff:");
        let m = Ipv4Addr {
            a: (v.s6 / 0x100) as u8,
            b: (v.s6 % 0x100) as u8,
            c: (v.s7 / 0x100) as u8,
            d: (v.s7 % 0x100) as u8,
        };
        let t = write_ipv4(m);
        r.append(t.as_str());
        proof {
            reveal_strlit("::ffff:");
            assert("::ffff:"@ =~= seq![':', ':', 'f', 'f', 'f', 'f', ':']);
        }
        return r;
    }
    let g = v.segments();
    let (start, len) = find_run(&g);
    proof {
        lemma_best_run(g@, 0);
    }
    if len > 1 {
        assert(g@.subrange(0, start as int) =~= g@.take(start as int));
        assert(g@.subrange(start + len, 8) =~= g@.skip(start + len));
        let mut r = write_groups(slice_subrange(g.as_slice(), 0, start));
        r.append("::");
        let t = write_groups(slice_subrange(g.as_slice(), start + len, g.len()));
        r.append(t.as_str());
        proof {
            reveal_strlit("::");
            assert("::"@ =~= double_colon());
        }
        r
    } else {
        write_groups(g.as_slice())
    }
}

impl IpAddr {
    /// The text of the address.
    pub fn to_string(&self) -> (r: String)
        ensures
            r@ == show_ip(*self),
    {
        match self {
            IpAddr::V4(v) => write_ipv4(*v),
            IpAddr::V6(v) => write_ipv6(*v),
        }
    }
}

// ---------------------------------------------------------------------------
// Reading what was written

/// The characters that texts of addresses are made of.
pub open spec fn is_address_char(c: char) -> bool {
    text::digit_value(c, 16) is Some || c == ':' || c == '.'
}

pub open spec fn address_fn() -> spec_fn(char) -> bool {
    |c: char| is_address_char(c)
}

pub open spec fn dotted_fn() -> spec_fn(char) -> bool {
    |c: char| text::digit_value(c, 10) is Some || c == '.'
}

pub open spec fn coloned_fn() -> spec_fn(char) -> bool {
    |c: char| text::digit_value(c, 16) is Some || c == ':'
}

proof fn lemma_octet(n: nat)
    requires
        n <= 255,
    ensures
        octet_text(numeral::decimal(n)) == Some(n as int),
        numeral::decimal(n).len() > 0,
        !numeral::decimal(n).contains('.'),
        text::all(numeral::decimal(n), dotted_fn()),
{
    let s = numeral::decimal(n);
    numeral::lemma_numeral(n, 10);
    numeral::lemma_read_numeral(n, 10, 255);
    assert forall|i: int| 0 <= i < s.len() implies dotted_fn()(#[trigger] s[i]) by {
        assert(text::digit_value(s[i], 10) is Some);
    }
    if s.contains('.') {
        let i = choose|i: int| 0 <= i < s.len() && s[i] == '.';
        assert(text::digit_value(s[i], 10) is Some);
    }
}

proof fn lemma_show_ipv4(v: Ipv4Addr)
    ensures
        ipv4_text(show_ipv4(v)) == Some(v),
        text::all(show_ipv4(v), dotted_fn()),
        show_ipv4(v).len() > 0,
{
    reveal(ipv4_text);
    reveal(show_ipv4);
    let parts = octets(v);
    lemma_octet(v.a as nat);
    lemma_octet(v.b as nat);
    lemma_octet(v.c as nat);
    lemma_octet(v.d as nat);
    assert forall|i: int| 0 <= i < parts.len() implies !(#[trigger] parts[i]).contains('.')
        && text::all(parts[i], dotted_fn()) by {
        assert(i == 0 || i == 1 || i == 2 || i == 3);
    }
    text::lemma_pieces_joined(parts, '.');
    text::lemma_joined_all(parts, seq!['.'], dotted_fn());
    text::lemma_joined_cons(parts, seq!['.']);
}

proof fn lemma_not_ipv4(s: Seq<char>, i: int)
    requires
        0 <= i < s.len(),
        text::digit_value(s[i], 10) is None,
        s[i] != '.',
    ensures
        ipv4_text(s) is None,
{
    reveal(ipv4_text);
    let p = text::pieces(s, '.');
    let k = text::lemma_pieces_cover(s, '.', i);
    if p.len() == 4 {
        assert(k == 0 || k == 1 || k == 2 || k == 3);
        let j = choose|j: int| 0 <= j < p[k].len() && p[k][j] == s[i];
        assert(text::digit_value(p[k][j], 10) is None);
        assert(octet_text(p[k]) is None);
    }
}

proof fn lemma_undotted_not_ipv4(s: Seq<char>)
    requires
        !s.contains('.'),
    ensures
        ipv4_text(s) is None,
{
    reveal(ipv4_text);
    text::lemma_pieces_count(s, '.');
}

proof fn lemma_hex(x: u16)
    ensures
        group_text(hex(x)) == Some(x as int),
        hex(x).len() > 0,
        !hex(x).contains(':'),
        !hex(x).contains('.'),
        text::all(hex(x), coloned_fn()),
        hex(x)[0] != ':',
        hex(x).last() != ':',
        ipv4_text(hex(x)) is None,
{
    let s = hex(x);
    numeral::lemma_numeral(x as nat, 16);
    numeral::lemma_read_numeral(x as nat, 16, 0xffff);
    numeral::lemma_hex_len(x as nat);
    assert forall|i: int| 0 <= i < s.len() implies coloned_fn()(#[trigger] s[i]) && s[i] != ':'
        && s[i] != '.' by {
        assert(text::digit_value(s[i], 16) is Some);
    }
    assert(s[0] != ':');
    assert(s[s.len() - 1] != ':');
    lemma_undotted_not_ipv4(s);
}

proof fn lemma_groups_of(g: Seq<u16>, tail: bool)
    ensures
        groups_of(hexes(g), tail) == Some(g),
    decreases g.len(),
{
    if g.len() > 0 {
        lemma_hex(g[0]);
        lemma_groups_of(g.skip(1), tail);
        assert(hexes(g).skip(1) =~= hexes(g.skip(1)));
        assert(seq![g[0]] + g.skip(1) =~= g);
    } else {
        assert(g =~= Seq::<u16>::empty());
    }
}

/// No two colons stand side by side.
pub open spec fn no_double(s: Seq<char>) -> bool {
    forall|j: int| !(#[trigger] text::occurs_at(s, double_colon(), j))
}

proof fn lemma_double_at(s: Seq<char>, j: int)
    ensures
        text::occurs_at(s, double_colon(), j) <==> (0 <= j && j + 1 < s.len() && s[j] == ':' && s[j
            + 1] == ':'),
{
    if 0 <= j && j + 2 <= s.len() {
        let t = s.subrange(j, j + 2);
        assert(t[0] == s[j] && t[1] == s[j + 1]);
        if s[j] == ':' && s[j + 1] == ':' {
            assert(t =~= double_colon());
        }
    }
}

proof fn lemma_show_groups(g: Seq<u16>)
    requires
        g.len() > 0,
    ensures
        show_groups(g).len() > 0,
        show_groups(g)[0] != ':',
        show_groups(g).last() != ':',
        no_double(show_groups(g)),
    decreases g.len(),
{
    let s = show_groups(g);
    let h = hex(g.last());
    lemma_hex(g.last());
    if g.len() == 1 {
        assert(hexes(g) =~= seq![h]);
        assert(s == h);
        assert forall|j: int| !(#[trigger] text::occurs_at(s, double_colon(), j)) by {
            lemma_double_at(s, j);
            if 0 <= j < s.len() {
                assert(s.contains(s[j]));
            }
        }
    } else {
        lemma_show_groups(g.drop_last());
        let prev = show_groups(g.drop_last());
        assert(hexes(g).drop_last() =~= hexes(g.drop_last()));
        assert(s == prev + seq![':'] + h);
        assert(s[0] == prev[0]);
        assert(s.last() == h.last());
        assert forall|j: int| !(#[trigger] text::occurs_at(s, double_colon(), j)) by {
            lemma_double_at(s, j);
            lemma_double_at(prev, j);
            assert(!text::occurs_at(prev, double_colon(), j));
            let n = prev.len() as int;
            if 0 <= j && j + 1 < s.len() {
                if j + 1 < n {
                    assert(s[j] == prev[j] && s[j + 1] == prev[j + 1]);
                } else if j + 1 == n {
                    assert(s[j] == prev.last());
                } else if j == n {
                    assert(s[j + 1] == h[0]);
                } else {
                    assert(s[j] == h[j - n - 1]);
                    assert(h.contains(h[j - n - 1]));
                }
            }
        }
    }
}

proof fn lemma_read_groups(g: Seq<u16>, tail: bool)
    ensures
        groups_text(show_groups(g), tail) == Some(g),
        text::all(show_groups(g), coloned_fn()),
{
    let parts = hexes(g);
    assert forall|i: int| 0 <= i < parts.len() implies !(#[trigger] parts[i]).contains(':')
        && text::all(parts[i], coloned_fn()) by {
        lemma_hex(g[i]);
    }
    text::lemma_joined_all(parts, seq![':'], coloned_fn());
    if g.len() > 0 {
        lemma_show_groups(g);
        text::lemma_pieces_joined(parts, ':');
        lemma_groups_of(g, tail);
    } else {
        assert(g =~= Seq::<u16>::empty());
    }
}

/// Two runs of groups with a double colon between them.
proof fn lemma_read_gap(a: Seq<char>, b: Seq<char>, h: Seq<u16>, t: Seq<u16>)
    requires
        groups_text(a, false) == Some(h),
        groups_text(b, true) == Some(t),
        h.len() + t.len() <= 7,
        no_double(a),
        a.len() > 0 ==> a.last() != ':',
    ensures
        ipv6_text(a + double_colon() + b) == Some(
            from_groups(h + zeros(8 - h.len() - t.len()) + t),
        ),
{
    reveal(ipv6_text);
    let s = a + double_colon() + b;
    let n = a.len() as int;
    assert(s[n] == ':' && s[n + 1] == ':');
    lemma_double_at(s, n);
    assert forall|j: int| 0 <= j < n implies !text::occurs_at(s, double_colon(), j) by {
        lemma_double_at(s, j);
        lemma_double_at(a, j);
        assert(!text::occurs_at(a, double_colon(), j));
        if j + 1 < n {
            assert(s[j] == a[j] && s[j + 1] == a[j + 1]);
        } else {
            assert(s[j] == a.last());
        }
    }
    text::lemma_find_seq_at(s, double_colon(), 0, n);
    assert(s.take(n) =~= a);
    assert(s.skip(n + 2) =~= b);
}

proof fn lemma_empty_groups()
    ensures
        no_double(Seq::<char>::empty()),
        groups_text(Seq::<char>::empty(), false) == Some(Seq::<u16>::empty()),
{
    assert forall|j: int| !(#[trigger] text::occurs_at(Seq::<char>::empty(), double_colon(), j)) by {
        lemma_double_at(Seq::<char>::empty(), j);
    }
}

spec fn ffff() -> Seq<char> {
    seq!['f', 'f', 'f', 'f']
}

proof fn lemma_ffff()
    ensures
        group_text(ffff()) == Some(0xffffint),
        ipv4_text(ffff()) is None,
        !ffff().contains(':'),
{
    let f = ffff();
    let f3 = f.drop_last();
    let f2 = f3.drop_last();
    let f1 = f2.drop_last();
    assert(f1.drop_last() =~= Seq::<char>::empty());
    assert(text::digit_value('f', 16) == Some(15nat));
    assert(numeral::value(f1.drop_last(), 16) == 0);
    assert(numeral::value(f1, 16) == 15);
    assert(numeral::value(f2, 16) == 255);
    assert(numeral::value(f3, 16) == 4095);
    assert(numeral::value(f, 16) == 0xffff);
    assert(numeral::is_numeral(f, 16));
    lemma_undotted_not_ipv4(f);
}

proof fn lemma_mapped_tail(m: Ipv4Addr)
    ensures
        groups_text(ffff() + seq![':'] + show_ipv4(m), true) == Some(
            seq![0xffffu16, (m.a * 0x100 + m.b) as u16, (m.c * 0x100 + m.d) as u16],
        ),
{
    let t = show_ipv4(m);
    let f = ffff();
    let rest = f + seq![':'] + t;
    let parts = seq![f, t];
    lemma_show_ipv4(m);
    lemma_ffff();
    assert(parts.drop_last() =~= seq![f]);
    assert(text::joined(parts.drop_last(), seq![':']) == f);
    assert(text::joined(parts, seq![':']) == rest);
    if t.contains(':') {
        let j = choose|j: int| 0 <= j < t.len() && t[j] == ':';
        assert(dotted_fn()(t[j]));
    }
    assert forall|i: int| 0 <= i < parts.len() implies !(#[trigger] parts[i]).contains(':') by {
        assert(i == 0 || i == 1);
    }
    text::lemma_pieces_joined(parts, ':');
    assert(parts.skip(1) =~= seq![t]);
    let pair = seq![(m.a * 0x100 + m.b) as u16, (m.c * 0x100 + m.d) as u16];
    assert(groups_of(parts.skip(1), true) == Some(pair));
    assert(groups_of(parts, true) == Some(seq![0xffffu16] + pair));
    assert(seq![0xffffu16] + pair =~= seq![
        0xffffu16,
        (m.a * 0x100 + m.b) as u16,
        (m.c * 0x100 + m.d) as u16,
    ]);
}

proof fn lemma_show_mapped(v: Ipv6Addr)
    requires
        is_mapped(v),
    ensures
        ipv6_text(show_ipv6(v)) == Some(v),
        text::all(show_ipv6(v), address_fn()),
        show_ipv6(v)[0] == ':',
{
    reveal(show_ipv6);
    let m = mapped(v);
    let t = show_ipv4(m);
    let s = show_ipv6(v);
    let rest = ffff() + seq![':'] + t;
    let none = Seq::<char>::empty();
    lemma_mapped_tail(m);
    lemma_empty_groups();
    let g = seq![0xffffu16, (m.a * 0x100 + m.b) as u16, (m.c * 0x100 + m.d) as u16];
    lemma_read_gap(none, rest, Seq::<u16>::empty(), g);
    assert(s =~= none + double_colon() + rest);
    assert(g[1] == v.s6 && g[2] == v.s7);
    assert(Seq::<u16>::empty() + zeros(5) + g =~= v.groups());
    lemma_show_ipv4(m);
    assert forall|i: int| 0 <= i < s.len() implies address_fn()(#[trigger] s[i]) by {
        if i >= 7 {
            assert(s[i] == t[i - 7]);
            assert(dotted_fn()(t[i - 7]));
        }
    }
}

proof fn lemma_gap_groups(g: Seq<u16>, start: int, len: int)
    requires
        g.len() == 8,
        0 <= start,
        len > 1,
        start + len <= 8,
        forall|j: int| start <= j < start + len ==> g[j] == 0,
    ensures
        g.take(start) + zeros(8 - g.take(start).len() - g.skip(start + len).len()) + g.skip(
            start + len,
        ) == g,
        g.take(start).len() + g.skip(start + len).len() <= 7,
{
    assert(g.take(start) + zeros(len) + g.skip(start + len) =~= g);
}

proof fn lemma_gap_chars(a: Seq<char>, b: Seq<char>)
    requires
        text::all(a, coloned_fn()),
        text::all(b, coloned_fn()),
    ensures
        text::all(a + double_colon() + b, coloned_fn()),
{
    let s = a + double_colon() + b;
    let n = a.len() as int;
    assert forall|i: int| 0 <= i < s.len() implies coloned_fn()(#[trigger] s[i]) by {
        if i < n {
            assert(s[i] == a[i]);
        } else if i >= n + 2 {
            assert(s[i] == b[i - n - 2]);
        }
    }
}

proof fn lemma_show_compressed(g: Seq<u16>, start: int, len: int)
    requires
        g.len() == 8,
        0 <= start,
        len > 1,
        start + len <= 8,
        forall|j: int| start <= j < start + len ==> g[j] == 0,
    ensures
        ipv6_text(show_groups(g.take(start)) + double_colon() + show_groups(g.skip(start + len)))
            == Some(from_groups(g)),
        text::all(
            show_groups(g.take(start)) + double_colon() + show_groups(g.skip(start + len)),
            coloned_fn(),
        ),
{
    let h = g.take(start);
    let t = g.skip(start + len);
    let a = show_groups(h);
    let b = show_groups(t);
    lemma_read_groups(h, false);
    lemma_read_groups(t, true);
    if h.len() > 0 {
        lemma_show_groups(h);
    } else {
        lemma_empty_groups();
        assert(a =~= Seq::<char>::empty());
    }
    lemma_gap_groups(g, start, len);
    lemma_gap_chars(a, b);
    lemma_read_gap(a, b, h, t);
}

proof fn lemma_show_plain(g: Seq<u16>)
    requires
        g.len() == 8,
    ensures
        ipv6_text(show_groups(g)) == Some(from_groups(g)),
        text::all(show_groups(g), coloned_fn()),
        show_groups(g).contains(':'),
{
    reveal(ipv6_text);
    let s = show_groups(g);
    lemma_read_groups(g, true);
    lemma_show_groups(g);
    text::lemma_find_seq_none(s, double_colon(), 0);
    text::lemma_joined_cons(hexes(g), seq![':']);
    assert(s[hexes(g)[0].len() as int] == ':');
}

/// Reading the text of an IPv6 address gives the address back; the part of the text
/// before its first colon is no IPv4 address.
proof fn lemma_show_ipv6(v: Ipv6Addr)
    ensures
        ipv6_text(show_ipv6(v)) == Some(v),
        text::all(show_ipv6(v), address_fn()),
        show_ipv6(v).contains(':'),
        ipv4_text(show_ipv6(v).take(text::position(show_ipv6(v), ':'))) is None,
{
    reveal(show_ipv6);
    let g = v.groups();
    let s = show_ipv6(v);
    if is_mapped(v) {
        lemma_show_mapped(v);
        assert(s.contains(s[0]));
        text::lemma_find_at(s, ':', 0, 0);
        assert(s.take(0) =~= Seq::<char>::empty());
        lemma_undotted_not_ipv4(s.take(0));
    } else {
        lemma_best_run(g, 0);
        let start = best_run(g, 0).0;
        let len = best_run(g, 0).1;
        if len > 1 {
            lemma_show_compressed(g, start, len);
            let n = show_groups(g.take(start)).len() as int;
            assert(s[n] == ':');
        } else {
            lemma_show_plain(g);
        }
        assert(text::all(s, coloned_fn()));
        assert forall|i: int| 0 <= i < s.len() implies address_fn()(#[trigger] s[i]) by {
            assert(coloned_fn()(s[i]));
        }
        text::lemma_find_from(s, ':', 0);
        let x = s.take(text::position(s, ':'));
        if x.contains('.') {
            let j = choose|j: int| 0 <= j < x.len() && x[j] == '.';
            assert(coloned_fn()(s[j]));
        }
        lemma_undotted_not_ipv4(x);
    }
}

/// Reading the text of an address gives the address back.
pub proof fn law_read_written_address(ip: IpAddr)
    ensures
        ip_text(show_ip(ip)) == Some(ip),
{
    match ip {
        IpAddr::V4(v) => {
            lemma_show_ipv4(v);
        },
        IpAddr::V6(v) => {
            lemma_show_ipv6(v);
            let s = show_ipv6(v);
            let i = choose|i: int| 0 <= i < s.len() && s[i] == ':';
            lemma_not_ipv4(s, i);
        },
    }
}

/// The text of an address and a port.
pub open spec fn show_socket(ip: IpAddr, port: u16) -> Seq<char> {
    match ip {
        IpAddr::V4(v) => show_ipv4(v) + seq![':'] + numeral::decimal(port as nat),
        IpAddr::V6(v) => seq!['['] + show_ipv6(v) + seq![']', ':'] + numeral::decimal(port as nat),
    }
}

proof fn lemma_socket_v4(v: Ipv4Addr, t: Seq<char>, d: Seq<char>, port: u16)
    requires
        ipv4_text(t) == Some(v),
        text::all(t, dotted_fn()),
        port_text(d) == Some(port as int),
    ensures
        socket_text(t + seq![':'] + d) == Some((IpAddr::V4(v), port)),
{
    let s = t + seq![':'] + d;
    let p = t.len() as int;
    assert forall|j: int| 0 <= j < p implies s[j] != ':' by {
        assert(s[j] == t[j]);
        assert(dotted_fn()(t[j]));
    }
    text::lemma_find_at(s, ':', 0, p);
    assert(s.take(p) =~= t);
    assert(s.skip(p + 1) =~= d);
}

proof fn lemma_socket_v6(v: Ipv6Addr, t: Seq<char>, d: Seq<char>, port: u16)
    requires
        ipv6_text(t) == Some(v),
        text::all(t, address_fn()),
        port_text(d) == Some(port as int),
    ensures
        socket_text(seq!['['] + t + seq![']', ':'] + d) == Some((IpAddr::V6(v), port)),
{
    let s = seq!['['] + t + seq![']', ':'] + d;
    let q = 1 + t.len() as int;
    text::lemma_find_from(s, ':', 0);
    let p = text::position(s, ':');
    assert(s[0] == '[');
    assert(s[q] == ']' && s[q + 1] == ':');
    if p < s.len() {
        assert(s.take(p)[0] == '[');
        lemma_not_ipv4(s.take(p), 0);
    }
    assert(socket_v4_text(s) is None);
    assert forall|j: int| 0 <= j < q implies s[j] != ']' by {
        if j > 0 {
            assert(s[j] == t[j - 1]);
            assert(address_fn()(t[j - 1]));
        }
    }
    text::lemma_find_at(s, ']', 0, q);
    assert(s.subrange(1, q) =~= t);
    assert(s.skip(q + 2) =~= d);
    assert forall|j: int| 0 <= j < t.len() implies t[j] != '%' by {
        assert(address_fn()(t[j]));
    }
    text::lemma_find_at(t, '%', 0, t.len() as int);
}

/// Reading the text of an address and a port gives both back.
pub proof fn law_read_written_socket(ip: IpAddr, port: u16)
    ensures
        socket_text(show_socket(ip, port)) == Some((ip, port)),
{
    let d = numeral::decimal(port as nat);
    numeral::lemma_read_numeral(port as nat, 10, 0xffff);
    match ip {
        IpAddr::V4(v) => {
            let t = show_ipv4(v);
            assert(ipv4_text(t) == Some(v) && text::all(t, dotted_fn())) by {
                lemma_show_ipv4(v);
            }
            lemma_socket_v4(v, t, d, port);
        },
        IpAddr::V6(v) => {
            let t = show_ipv6(v);
            assert(ipv6_text(t) == Some(v) && text::all(t, address_fn())) by {
                lemma_show_ipv6(v);
            }
            lemma_socket_v6(v, t, d, port);
        },
    }
}

/// The text of an address and a port is not empty and holds no white space.
pub proof fn lemma_socket_plain(ip: IpAddr, port: u16)
    ensures
        show_socket(ip, port).len() > 0,
        forall|i: int|
            0 <= i < show_socket(ip, port).len() ==> !text::is_space(
                #[trigger] show_socket(ip, port)[i],
            ),
{
    let s = show_socket(ip, port);
    let d = numeral::decimal(port as nat);
    numeral::lemma_numeral(port as nat, 10);
    match ip {
        IpAddr::V4(v) => {
            let t = show_ipv4(v);
            lemma_show_ipv4(v);
            assert forall|i: int| 0 <= i < s.len() implies !text::is_space(#[trigger] s[i]) by {
                if i < t.len() {
                    assert(s[i] == t[i]);
                    assert(dotted_fn()(t[i]));
                } else if i > t.len() {
                    assert(s[i] == d[i - t.len() - 1]);
                    assert(text::digit_value(d[i - t.len() - 1], 10) is Some);
                }
            }
        },
        IpAddr::V6(v) => {
            let t = show_ipv6(v);
            assert(text::all(t, address_fn())) by {
                lemma_show_ipv6(v);
            }
            let n = t.len() as int;
            assert forall|i: int| 0 <= i < s.len() implies !text::is_space(#[trigger] s[i]) by {
                if 1 <= i <= n {
                    assert(s[i] == t[i - 1]);
                    assert(address_fn()(t[i - 1]));
                } else if i > n + 2 {
                    assert(s[i] == d[i - n - 3]);
                    assert(text::digit_value(d[i - n - 3], 10) is Some);
                } else if i == 0 {
                    assert(s[i] == '[');
                } else if i == n + 1 {
                    assert(s[i] == ']');
                } else {
                    assert(s[i] == ':');
                }
            }
        },
    }
}

/// The text of an address alone is no text of an address and a port.
pub proof fn law_address_is_no_socket(ip: IpAddr)
    ensures
        socket_text(show_ip(ip)) is None,
{
    let s = show_ip(ip);
    match ip {
        IpAddr::V4(v) => {
            lemma_show_ipv4(v);
            assert forall|j: int| 0 <= j < s.len() implies s[j] != ':' && s[j] != '[' by {
                assert(dotted_fn()(s[j]));
            }
            text::lemma_find_at(s, ':', 0, s.len() as int);
        },
        IpAddr::V6(v) => {
            lemma_show_ipv6(v);
            assert forall|j: int| 0 <= j < s.len() implies s[j] != '[' by {
                assert(address_fn()(s[j]));
            }
        },
    }
}

/// The text of an address is not empty, and holds neither white space nor a slash.
pub proof fn lemma_address_plain(ip: IpAddr)
    ensures
        show_ip(ip).len() > 0,
        forall|i: int|
            0 <= i < show_ip(ip).len() ==> !text::is_space(#[trigger] show_ip(ip)[i]) && show_ip(
                ip,
            )[i] != '/',
{
    let s = show_ip(ip);
    match ip {
        IpAddr::V4(v) => {
            lemma_show_ipv4(v);
            assert forall|i: int| 0 <= i < s.len() implies !text::is_space(#[trigger] s[i]) && s[i]
                != '/' by {
                assert(dotted_fn()(s[i]));
            }
        },
        IpAddr::V6(v) => {
            lemma_show_ipv6(v);
            let k = choose|i: int| 0 <= i < s.len() && s[i] == ':';
            assert(s.len() > 0);
            assert forall|i: int| 0 <= i < s.len() implies !text::is_space(#[trigger] s[i]) && s[i]
                != '/' by {
                assert(address_fn()(s[i]));
            }
        },
    }
}

/// An address of version 4 is written as its octets in decimal, the first one first, with dots
/// between them.
pub proof fn law_dotted_text(v: Ipv4Addr)
    ensures
        show_ip(IpAddr::V4(v)) == numeral::decimal(v.a as nat) + seq!['.'] + numeral::decimal(
            v.b as nat,
        ) + seq!['.'] + numeral::decimal(v.c as nat) + seq!['.'] + numeral::decimal(v.d as nat),
{
    reveal(show_ipv4);
    let p = octets(v);
    let dot = seq!['.'];
    assert(p.drop_last() =~= seq![p[0], p[1], p[2]]);
    assert(p.drop_last().drop_last() =~= seq![p[0], p[1]]);
    assert(p.drop_last().drop_last().drop_last() =~= seq![p[0]]);
    assert(text::joined(seq![p[0]], dot) == p[0]);
    assert(text::joined(p.drop_last().drop_last(), dot) == p[0] + dot + p[1]);
    assert(text::joined(p.drop_last(), dot) == p[0] + dot + p[1] + dot + p[2]);
}

/// The text of an address holds no number sign.
pub proof fn lemma_address_unmarked(ip: IpAddr)
    ensures
        !show_ip(ip).contains('#'),
{
    let s = show_ip(ip);
    if s.contains('#') {
        let i = choose|i: int| 0 <= i < s.len() && s[i] == '#';
        match ip {
            IpAddr::V4(v) => {
                lemma_show_ipv4(v);
                assert(dotted_fn()(s[i]));
            },
            IpAddr::V6(v) => {
                lemma_show_ipv6(v);
                assert(address_fn()(s[i]));
            },
        }
    }
}

proof fn lemma_octet_is_decimal(s: Seq<char>)
    requires
        octet_text(s) is Some,
    ensures
        0 <= octet_text(s)->0 <= 255,
        s == numeral::decimal(octet_text(s)->0 as nat),
{
    numeral::law_digits_are_the_numeral(s);
}

/// A text is an address of version 4 only where it is what that address is written as: four
/// numbers up to 255 in decimal digits, without needless zeros, with dots between them.
pub proof fn law_only_dotted_texts_are_read(s: Seq<char>)
    ensures
        ipv4_text(s) matches Some(v) ==> s == show_ip(IpAddr::V4(v)),
{
    reveal(ipv4_text);
    reveal(show_ipv4);
    if let Some(v) = ipv4_text(s) {
        let p = text::pieces(s, '.');
        text::law_pieces_make_the_text(s, '.');
        lemma_octet_is_decimal(p[0]);
        lemma_octet_is_decimal(p[1]);
        lemma_octet_is_decimal(p[2]);
        lemma_octet_is_decimal(p[3]);
        assert(p =~= octets(v));
    }
}

proof fn lemma_no_groups(parts: Seq<Seq<char>>, tail: bool, k: int, i: int)
    requires
        0 <= k < parts.len(),
        0 <= i < parts[k].len(),
        text::digit_value(parts[k][i], 16) is None,
        parts[k][i] != '.',
    ensures
        groups_of(parts, tail) is None,
    decreases parts.len(),
{
    let c = parts[k][i];
    assert(text::digit_value(c, 10) is None);
    if k == 0 {
        lemma_not_ipv4(parts[0], i);
        assert(!numeral::is_numeral(parts[0], 16)) by {
            assert(text::digit_value(parts[0][i], 16) is None);
        }
    } else {
        assert(parts.skip(1)[k - 1] == parts[k]);
        lemma_no_groups(parts.skip(1), tail, k - 1, i);
    }
}

proof fn lemma_no_groups_text(s: Seq<char>, tail: bool, i: int)
    requires
        0 <= i < s.len(),
        text::digit_value(s[i], 16) is None,
        s[i] != '.',
        s[i] != ':',
    ensures
        groups_text(s, tail) is None,
{
    let k = text::lemma_pieces_cover(s, ':', i);
    let p = text::pieces(s, ':');
    let j = choose|j: int| 0 <= j < p[k].len() && p[k][j] == s[i];
    lemma_no_groups(p, tail, k, j);
}

/// A text that holds anything but hexadecimal digits, colons and dots is no address.
pub proof fn law_no_address(s: Seq<char>, i: int)
    requires
        0 <= i < s.len(),
        !('0' <= s[i] <= '9'),
        !('a' <= s[i] <= 'f'),
        !('A' <= s[i] <= 'F'),
        s[i] != '.',
        s[i] != ':',
    ensures
        ip_text(s) is None,
{
    lemma_not_ipv4(s, i);
    reveal(ipv6_text);
    text::lemma_find_seq_from(s, double_colon(), 0);
    match text::find_seq_from(s, double_colon(), 0) {
        Some(p) => {
            let m = s.subrange(p, p + 2);
            assert(m == double_colon());
            assert(m[0] == s[p] && m[1] == s[p + 1]);
            if i < p {
                assert(s.take(p)[i] == s[i]);
                lemma_no_groups_text(s.take(p), false, i);
            } else {
                assert(s.skip(p + 2)[i - p - 2] == s[i]);
                lemma_no_groups_text(s.skip(p + 2), true, i - p - 2);
            }
        },
        None => {
            lemma_no_groups_text(s, true, i);
        },
    }
}

/// An address of version 6 that is written in full, its eight groups in hexadecimal digits with
/// colons between them, is read as that address.
pub proof fn law_full_groups_are_read(v: Ipv6Addr)
    ensures
        ip_text(show_groups(v.groups())) == Some(IpAddr::V6(v)),
{
    let g = v.groups();
    let s = show_groups(g);
    lemma_show_plain(g);
    assert(from_groups(g) == v);
    let i = choose|i: int| 0 <= i < s.len() && s[i] == ':';
    lemma_not_ipv4(s, i);
}

/// A double colon stands for as many groups of zero as are missing, one at least.
pub proof fn law_double_colon_is_read(front: Seq<u16>, back: Seq<u16>, v: Ipv6Addr)
    requires
        front.len() + back.len() <= 7,
        v.groups() == front + Seq::new((8 - front.len() - back.len()) as nat, |i: int| 0u16) + back,
    ensures
        ip_text(show_groups(front) + seq![':', ':'] + show_groups(back)) == Some(IpAddr::V6(v)),
{
    let (a, b) = (show_groups(front), show_groups(back));
    lemma_read_groups(front, false);
    lemma_read_groups(back, true);
    if front.len() > 0 {
        lemma_show_groups(front);
    } else {
        lemma_empty_groups();
        assert(a =~= Seq::<char>::empty());
    }
    lemma_read_gap(a, b, front, back);
    let s = a + seq![':', ':'] + b;
    assert(s[a.len() as int] == ':');
    lemma_not_ipv4(s, a.len() as int);
    let z = zeros(8 - front.len() - back.len());
    assert(z =~= Seq::new((8 - front.len() - back.len()) as nat, |i: int| 0u16));
    assert(from_groups(v.groups()) == v);
}

/// The text of an address and a port: an address of version 6 stands in square brackets.
pub proof fn law_socket_text(ip: IpAddr, port: u16)
    ensures
        ip is V4 ==> show_socket(ip, port) == show_ip(ip) + seq![':'] + numeral::decimal(
            port as nat,
        ),
        ip is V6 ==> show_socket(ip, port) == seq!['['] + show_ip(ip) + seq![']', ':']
            + numeral::decimal(port as nat),
{
}

/// The text of an address holds no square bracket and no percent sign.
pub proof fn lemma_address_unbracketed(ip: IpAddr)
    ensures
        forall|i: int|
            0 <= i < show_ip(ip).len() ==> (#[trigger] show_ip(ip)[i]) != '[' && show_ip(ip)[i]
                != ']' && show_ip(ip)[i] != '%',
{
    let s = show_ip(ip);
    match ip {
        IpAddr::V4(v) => {
            lemma_show_ipv4(v);
            assert forall|i: int| 0 <= i < s.len() implies (#[trigger] s[i]) != '[' && s[i] != ']'
                && s[i] != '%' by {
                assert(dotted_fn()(s[i]));
            }
        },
        IpAddr::V6(v) => {
            lemma_show_ipv6(v);
            assert forall|i: int| 0 <= i < s.len() implies (#[trigger] s[i]) != '[' && s[i] != ']'
                && s[i] != '%' by {
                assert(address_fn()(s[i]));
            }
        },
    }
}

/// A text that begins with a square bracket is no address of version 4 with a port.
pub proof fn lemma_bracket_is_no_plain_socket(s: Seq<char>)
    requires
        s.len() > 0,
        s[0] == '[',
    ensures
        socket_v4_text(s) is None,
{
    text::lemma_find_from(s, ':', 0);
    let p = text::position(s, ':');
    if p < s.len() {
        assert(p > 0);
        assert(s.take(p)[0] == '[');
        lemma_not_ipv4(s.take(p), 0);
    }
}

/// What is read of a text in square brackets with a port is the address between them.
pub proof fn lemma_scoped_only_v6(ip: IpAddr, t: Seq<char>, n: int)
    requires
        text::position(t, ']') == n,
        n >= 1,
        t.subrange(1, n) == show_ip(ip),
        socket_v4_text(t) is None,
        socket_text(t) is Some,
    ensures
        socket_text(t) matches Some((read, port)) && read == ip && port_text(t.skip(n + 2)) == Some(
            port as int,
        ),
{
    let a = show_ip(ip);
    lemma_address_unbracketed(ip);
    text::lemma_find_at(a, '%', 0, a.len() as int);
    law_read_written_address(ip);
    match ip {
        IpAddr::V4(v) => {
            lemma_dotted_is_no_ipv6(v);
        },
        IpAddr::V6(v) => {
            lemma_show_ipv6(v);
            numeral::lemma_value_prefix(t.skip(n + 2), 0, 10);
        },
    }
}

proof fn lemma_dotted_is_no_ipv6(v: Ipv4Addr)
    ensures
        ipv6_text(show_ipv4(v)) is None,
{
    let s = show_ipv4(v);
    lemma_show_ipv4(v);
    reveal(ipv6_text);
    assert forall|j: int| 0 <= j < s.len() implies s[j] != ':' by {
        assert(dotted_fn()(s[j]));
    }
    assert forall|j: int| 0 <= j implies !text::occurs_at(s, double_colon(), j) by {
        lemma_double_at(s, j);
    }
    text::lemma_find_seq_none(s, double_colon(), 0);
    if s.contains(':') {
        let j = choose|j: int| 0 <= j < s.len() && s[j] == ':';
        assert(s[j] != ':');
    }
    text::lemma_pieces_count(s, ':');
    assert(text::pieces(s, ':') == seq![s]);
}

/// A text without a colon is no address with a port.
pub proof fn lemma_no_colon_no_socket(s: Seq<char>)
    requires
        forall|j: int| 0 <= j < s.len() ==> s[j] != ':',
    ensures
        socket_text(s) is None,
{
    text::lemma_find_at(s, ':', 0, s.len() as int);
    text::lemma_find_from(s, ']', 0);
}

} // verus!
