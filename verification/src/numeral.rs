//! Numerals: reading and writing unsigned numbers in a radix.

use vstd::prelude::*;
use vstd::slice::slice_subrange;

use crate::text;

verus! {

/// The number that a run of digits stands for.
pub open spec fn value(s: Seq<char>, radix: int) -> int
    decreases s.len(),
{
    if s.len() == 0 {
        0
    } else {
        value(s.drop_last(), radix) * radix + (match text::digit_value(s.last(), radix) {
            Some(d) => d as int,
            None => 0,
        })
    }
}

/// Whether a text is a non-empty run of digits.
pub open spec fn is_numeral(s: Seq<char>, radix: int) -> bool {
    s.len() > 0 && forall|i: int|
        0 <= i < s.len() ==> (#[trigger] text::digit_value(s[i], radix)) is Some
}

/// The number that a run of digits stands for, if the text is one and the number
/// does not exceed `max`.
pub open spec fn digits_value(s: Seq<char>, radix: int, max: int) -> Option<int> {
    if is_numeral(s, radix) && value(s, radix) <= max {
        Some(value(s, radix))
    } else {
        None
    }
}

/// The number that a text stands for: digits, which one plus sign may precede.
pub open spec fn unsigned_value(s: Seq<char>, radix: int, max: int) -> Option<int> {
    if s.len() > 0 && s[0] == '+' {
        digits_value(s.skip(1), radix, max)
    } else {
        digits_value(s, radix, max)
    }
}

/// The value of a run of digits is no smaller than that of its front.
pub proof fn lemma_value_prefix(s: Seq<char>, n: int, radix: int)
    requires
        0 <= n <= s.len(),
        radix >= 1,
    ensures
        0 <= value(s.take(n), radix) <= value(s, radix),
    decreases s.len() + n,
{
    if n == s.len() {
        assert(s.take(n) =~= s);
        if n > 0 {
            lemma_value_prefix(s.drop_last(), n - 1, radix);
            assert(s.drop_last().take(n - 1) =~= s.drop_last());
            let v = value(s.drop_last(), radix);
            assert(v * radix >= 0) by (nonlinear_arith)
                requires
                    v >= 0,
                    radix >= 1,
            ;
        }
    } else {
        lemma_value_prefix(s.drop_last(), n, radix);
        assert(s.drop_last().take(n) =~= s.take(n));
        let v = value(s.drop_last(), radix);
        assert(v * radix >= v) by (nonlinear_arith)
            requires
                v >= 0,
                radix >= 1,
        ;
    }
}

/// Reads a run of digits.
pub fn read_digits(s: &[char], radix: u32, max: u64) -> (r: Option<u64>)
    requires
        2 <= radix <= 16,
    ensures
        match r {
            Some(n) => digits_value(s@, radix as int, max as int) == Some(n as int),
            None => digits_value(s@, radix as int, max as int) is None,
        },
{
    if s.len() == 0 {
        return None;
    }
    let mut v: u64 = 0;
    let mut i: usize = 0;
    while i < s.len()
        invariant
            2 <= radix <= 16,
            i <= s@.len(),
            v <= max,
            v == value(s@.take(i as int), radix as int),
            forall|j: int|
                0 <= j < i ==> (#[trigger] text::digit_value(s@[j], radix as int)) is Some,
        decreases s@.len() - i,
    {
        proof {
            assert(s@.take(i + 1).drop_last() =~= s@.take(i as int));
            lemma_value_prefix(s@, i + 1, radix as int);
            assert(v * radix <= 0xffff_ffff_ffff_ffff * 16) by (nonlinear_arith)
                requires
                    v <= 0xffff_ffff_ffff_ffff,
                    radix <= 16,
            ;
            assert(v * radix >= 0) by (nonlinear_arith);
        }
        match text::char_to_digit(s[i], radix) {
            Some(d) => {
                let next: u128 = v as u128 * radix as u128 + d as u128;
                if next > max as u128 {
                    return None;
                }
                v = next as u64;
            },
            None => {
                return None;
            },
        }
        i += 1;
    }
    proof {
        assert(s@.take(i as int) =~= s@);
    }
    Some(v)
}

/// Reads digits that one plus sign may precede.
pub fn read_unsigned(s: &[char], radix: u32, max: u64) -> (r: Option<u64>)
    requires
        2 <= radix <= 16,
    ensures
        match r {
            Some(n) => unsigned_value(s@, radix as int, max as int) == Some(n as int),
            None => unsigned_value(s@, radix as int, max as int) is None,
        },
{
    if s.len() > 0 && s[0] == '+' {
        proof {
            assert(s@.subrange(1, s@.len() as int) =~= s@.skip(1));
        }
        read_digits(slice_subrange(s, 1, s.len()), radix, max)
    } else {
        read_digits(s, radix, max)
    }
}

/// The digit for a value below sixteen; letters are in lower case.
pub open spec fn digit_char(d: int) -> char {
    if d < 10 {
        ('0' as int + d) as char
    } else {
        ('a' as int + d - 10) as char
    }
}

/// The shortest numeral of a number.
pub open spec fn numeral(n: nat, radix: nat) -> Seq<char>
    decreases n,
{
    if radix < 2 || n < radix {
        seq![digit_char(n as int)]
    } else {
        proof {
            assert(n / radix < n) by (nonlinear_arith)
                requires
                    n >= radix,
                    radix >= 2,
            ;
        }
        numeral(n / radix, radix).push(digit_char((n % radix) as int))
    }
}

/// The decimal numeral of a number.
pub open spec fn decimal(n: nat) -> Seq<char> {
    numeral(n, 10)
}

/// Appends the numeral of a number.
pub fn push_numeral(out: &mut String, n: u128, radix: u32)
    requires
        2 <= radix <= 16,
    ensures
        final(out)@ == old(out)@ + numeral(n as nat, radix as nat),
    decreases n,
{
    let ghost before = out@;
    if n >= radix as u128 {
        proof {
            assert(n / (radix as u128) < n) by (nonlinear_arith)
                requires
                    n >= radix,
                    radix >= 2,
            ;
        }
        push_numeral(out, n / (radix as u128), radix);
    }
    let ghost mid = out@;
    let d: u32 = (n % (radix as u128)) as u32;
    if d < 10 {
        out.push((48u8 + d as u8) as char);
    } else {
        out.push((97u8 + (d as u8 - 10)) as char);
    }
    proof {
        if n < radix {
            assert(n % (radix as u128) == n) by (nonlinear_arith)
                requires
                    n < radix,
            ;
            assert(out@ =~= before + numeral(n as nat, radix as nat));
        } else {
            assert((n / (radix as u128)) as nat == (n as nat) / (radix as nat));
            assert((n % (radix as u128)) as nat == (n as nat) % (radix as nat));
            assert(out@ =~= before + numeral(n as nat, radix as nat));
        }
    }
}

/// The decimal numeral of a number, as a string.
pub fn to_decimal(n: u128) -> (r: String)
    ensures
        r@ == decimal(n as nat),
{
    let mut r = String::new();
    push_numeral(&mut r, n, 10);
    proof {
        assert(r@ =~= decimal(n as nat));
    }
    r
}

/// A digit stands for the value it was made from.
pub proof fn lemma_digit_char(d: int, radix: int)
    requires
        0 <= d < radix,
        2 <= radix <= 16,
    ensures
        text::digit_value(digit_char(d), radix) == Some(d as nat),
        d > 0 ==> digit_char(d) != '0',
{
}

/// The numeral of a number stands for that number, and starts with a zero only
/// where the number is zero.
pub proof fn lemma_numeral(n: nat, radix: nat)
    requires
        2 <= radix <= 16,
    ensures
        is_numeral(numeral(n, radix), radix as int),
        value(numeral(n, radix), radix as int) == n,
        n > 0 ==> numeral(n, radix)[0] != '0',
        n == 0 ==> numeral(n, radix) == seq!['0'],
    decreases n,
{
    let r = radix as int;
    let s = numeral(n, radix);
    if n < radix {
        lemma_digit_char(n as int, r);
        assert(s.drop_last() =~= Seq::<char>::empty());
        assert(value(s.drop_last(), r) == 0);
        assert(0 * r == 0) by (nonlinear_arith);
    } else {
        assert(0 < n / radix < n) by (nonlinear_arith)
            requires
                n >= radix,
                radix >= 2,
        ;
        assert(0 <= n % radix < radix) by (nonlinear_arith)
            requires
                radix >= 2,
        ;
        assert((n / radix) * radix + n % radix == n) by (nonlinear_arith)
            requires
                radix >= 2,
        ;
        lemma_numeral(n / radix, radix);
        lemma_digit_char((n % radix) as int, r);
        let t = numeral(n / radix, radix);
        assert(s.drop_last() =~= t);
        assert(s[0] == t[0]);
        assert forall|i: int| 0 <= i < s.len() implies (#[trigger] text::digit_value(s[i], r)) is Some by {
            if i < t.len() {
                assert(s[i] == t[i]);
            }
        }
    }
}

/// The digits of a numeral are decimal digits and letters in lower case.
pub proof fn lemma_lower_digits(n: nat, radix: nat, i: int)
    requires
        2 <= radix <= 16,
        0 <= i < numeral(n, radix).len(),
    ensures
        '0' <= numeral(n, radix)[i] <= '9' || 'a' <= numeral(n, radix)[i] <= 'f',
    decreases n,
{
    if n >= radix {
        assert(n / radix < n) by (nonlinear_arith)
            requires
                n >= radix,
                radix >= 2,
        ;
        assert(0 <= n % radix < radix) by (nonlinear_arith)
            requires
                radix >= 2,
        ;
        let t = numeral(n / radix, radix);
        if i < t.len() {
            lemma_lower_digits(n / radix, radix, i);
        }
    }
}

/// Reading a numeral back gives the number.
pub proof fn lemma_read_numeral(n: nat, radix: nat, max: int)
    requires
        2 <= radix <= 16,
        n <= max,
    ensures
        digits_value(numeral(n, radix), radix as int, max) == Some(n as int),
        unsigned_value(numeral(n, radix), radix as int, max) == Some(n as int),
{
    lemma_numeral(n, radix);
    let s = numeral(n, radix);
    assert(text::digit_value(s[0], radix as int) is Some);
}

/// A number below 65536 takes at most four hexadecimal digits.
pub proof fn lemma_hex_len(n: nat)
    requires
        n < 0x10000,
    ensures
        numeral(n, 16).len() <= 4,
{
    reveal_with_fuel(numeral, 5);
}

/// The decimal numeral of a number: one digit for each number below ten, and a further digit
/// behind the others makes ten times the number and the digit.
pub proof fn law_decimal(n: nat, d: nat)
    requires
        d < 10,
    ensures
        decimal(d) == seq![(48 + d) as char],
        n > 0 ==> decimal(10 * n + d) == decimal(n).push((48 + d) as char),
{
    let m = 10 * n + d;
    assert(m / 10 == n && m % 10 == d);
    assert('0' as int == 48);
}

/// What a run of digits stands for: a further digit behind the others makes ten times the
/// number and the digit, and a text that holds anything else stands for none. Leading zeros
/// change nothing, and a number beyond the largest that is asked for is none.
pub proof fn law_digits_value(s: Seq<char>, c: char, max: int)
    requires
        max >= 0,
    ensures
        digits_value(seq![c], 10, max) == (if '0' <= c <= '9' && c as int - 48 <= max {
            Some(c as int - 48)
        } else {
            None
        }),
        s.len() > 0 ==> digits_value(s.push(c), 10, max) == (match digits_value(s, 10, max) {
            Some(n) => if '0' <= c <= '9' && 10 * n + (c as int - 48) <= max {
                Some(10 * n + (c as int - 48))
            } else {
                None
            },
            None => None,
        }),
        digits_value(Seq::empty(), 10, max) is None,
        unsigned_value(seq!['+'] + s, 10, max) == digits_value(s, 10, max),
{
    assert('0' as int == 48);
    let one = seq![c];
    assert(one.drop_last() =~= Seq::<char>::empty());
    assert(value(one.drop_last(), 10) == 0);
    assert(is_numeral(one, 10) <==> '0' <= c <= '9') by {
        assert(one[0] == c);
    }
    let t = s.push(c);
    assert(t.drop_last() =~= s);
    if s.len() > 0 {
        if is_numeral(t, 10) {
            assert forall|i: int| 0 <= i < s.len() implies (#[trigger] text::digit_value(
                s[i],
                10,
            )) is Some by {
                assert(t[i] == s[i]);
            }
            assert(t[s.len() as int] == c);
        }
        if is_numeral(s, 10) && '0' <= c <= '9' {
            assert forall|i: int| 0 <= i < t.len() implies (#[trigger] text::digit_value(
                t[i],
                10,
            )) is Some by {
                if i < s.len() {
                    assert(t[i] == s[i]);
                }
            }
        }
        lemma_value_prefix(s, 0, 10);
        assert(value(s.take(0), 10) >= 0);
    }
    assert((seq!['+'] + s).skip(1) =~= s);
}

/// A run of decimal digits without a needless zero in front is the numeral of the number that it
/// stands for.
pub proof fn law_digits_are_the_numeral(s: Seq<char>)
    requires
        is_numeral(s, 10),
        s.len() > 1 ==> s[0] != '0',
    ensures
        value(s, 10) >= 0,
        s == decimal(value(s, 10) as nat),
    decreases s.len(),
{
    let c = s.last();
    let t = s.drop_last();
    assert(text::digit_value(s[s.len() - 1], 10) is Some);
    let d = c as int - 48;
    assert('0' as int == 48);
    assert(text::digit_value(c, 10) == Some(d as nat));
    if s.len() == 1 {
        assert(t =~= Seq::<char>::empty());
        assert(value(t, 10) == 0);
        assert(s =~= seq![c]);
        assert(decimal(d as nat) =~= seq![c]);
    } else {
        assert forall|i: int| 0 <= i < t.len() implies (#[trigger] text::digit_value(t[i], 10))
            is Some by {
            assert(t[i] == s[i]);
        }
        assert(t[0] == s[0]);
        law_digits_are_the_numeral(t);
        let v = value(t, 10) as nat;
        lemma_numeral(v, 10);
        assert(v > 0);
        law_decimal(v, d as nat);
        assert(s =~= t.push(c));
    }
}

} // verus!
