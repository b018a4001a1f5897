//! Ratios of whole numbers, and exact scaling by them.

use vstd::prelude::*;

verus! {

/// A ratio; the denominator is not zero.
#[derive(Clone, Copy, Debug, PartialEq, Eq, Structural)]
pub struct Ratio {
    pub numer: u32,
    pub denom: u32,
}

impl Ratio {
    pub open spec fn wf(self) -> bool {
        self.denom > 0
    }

    pub fn new(numer: u32, denom: u32) -> (r: Self)
        requires
            denom > 0,
        ensures
            r == (Ratio { numer, denom }),
            r.wf(),
    {
        Ratio { numer, denom }
    }
}

/// `floor(c * a / b)`.
pub open spec fn scaled(c: int, a: int, b: int) -> int {
    (c * a) / b
}

proof fn lemma_step(h: int, o: int, a: int, b: int, q: int, r: int, extra: int, r2: int)
    requires
        h * a == q * b + r,
        2 * r + o * a == extra * b + r2,
    ensures
        (2 * h + o) * a == (2 * q + extra) * b + r2,
{
    assert((2 * h + o) * a == 2 * (h * a) + o * a) by (nonlinear_arith);
    assert((2 * q + extra) * b == 2 * (q * b) + extra * b) by (nonlinear_arith);
}

proof fn lemma_quotient_bound(c: int, a: int, b: int, q: int, r: int)
    requires
        c * a == q * b + r,
        r >= 0,
        0 <= a <= b,
        b > 0,
        c >= 0,
    ensures
        q <= c,
{
    assert(q <= c) by (nonlinear_arith)
        requires
            c * a == q * b + r,
            r >= 0,
            0 <= a <= b,
            b > 0,
            c >= 0,
    ;
}

/// Quotient and remainder of `c * a` by `b`.
fn mul_div_rem(c: u64, a: u128, b: u128) -> (r: (u64, u128))
    requires
        0 < b <= 0x1_0000_0000_0000_0000_0000_0000,
        a <= b,
    ensures
        c * a == r.0 * b + r.1,
        r.1 < b,
    decreases c,
{
    if c == 0 {
        proof {
            assert(0 * a == 0 && 0 * b == 0) by (nonlinear_arith);
        }
        return (0, 0);
    }
    let (q, r) = mul_div_rem(c / 2, a, b);
    let mut r2: u128 = r * 2;
    if c % 2 == 1 {
        r2 = r2 + a;
    }
    let ghost o: int = (c % 2) as int;
    let ghost sum: int = r2 as int;
    proof {
        assert(o * a == (if o == 1 {
            a as int
        } else {
            0
        })) by (nonlinear_arith)
            requires
                o == 0 || o == 1,
        ;
    }
    let mut extra: u64 = 0;
    if r2 >= b {
        r2 = r2 - b;
        extra = 1;
        if r2 >= b {
            r2 = r2 - b;
            extra = 2;
        }
    }
    proof {
        assert(extra * b == (if extra == 0 {
            0
        } else if extra == 1 {
            b as int
        } else {
            2 * b
        })) by (nonlinear_arith)
            requires
                extra <= 2,
        ;
        let h: int = (c / 2) as int;
        assert(c == 2 * h + o);
        lemma_step(h, o, a as int, b as int, q as int, r as int, extra as int, r2 as int);
        lemma_quotient_bound(c as int, a as int, b as int, 2 * q + extra, r2 as int);
    }
    (q * 2 + extra, r2)
}

/// Multiplies by `a`, then divides by `b`, with no loss in between.
pub fn mul_div(c: u64, a: u128, b: u128) -> (r: u64)
    requires
        0 < b <= 0x1_0000_0000_0000_0000_0000_0000,
        a <= b,
    ensures
        r == scaled(c as int, a as int, b as int),
        r <= c,
{
    let (q, rem) = mul_div_rem(c, a, b);
    proof {
        vstd::arithmetic::div_mod::lemma_fundamental_div_mod_converse(
            c * a,
            b as int,
            q as int,
            rem as int,
        );
        lemma_quotient_bound(c as int, a as int, b as int, q as int, rem as int);
    }
    q
}

/// Scaling rounds down: it is the greatest whole number whose `b`-fold does not exceed `c`
/// times `a`. It leaves a number as it is where the ratio is one, makes it nothing where the
/// ratio is nothing, and never turns the order of two numbers round.
pub proof fn law_scaling_rounds_down(c: int, d: int, a: int, b: int)
    requires
        0 <= c <= d,
        0 <= a,
        0 < b,
    ensures
        scaled(c, a, b) * b <= c * a < (scaled(c, a, b) + 1) * b,
        scaled(c, b, b) == c,
        scaled(c, 0, b) == 0,
        scaled(c, a, b) <= scaled(d, a, b),
{
    let x = c * a;
    let y = d * a;
    let q = x / b;
    assert(q * b <= x < (q + 1) * b) by (nonlinear_arith)
        requires
            b > 0,
            q == x / b,
    ;
    assert((c * b) / b == c) by (nonlinear_arith)
        requires
            b > 0,
    ;
    assert(c * 0 == 0);
    assert(0int / b == 0) by (nonlinear_arith)
        requires
            b > 0,
    ;
    assert(x <= y) by (nonlinear_arith)
        requires
            x == c * a,
            y == d * a,
            0 <= c <= d,
            0 <= a,
    ;
    assert(x / b <= y / b) by (nonlinear_arith)
        requires
            x <= y,
            b > 0,
    ;
}

} // verus!
