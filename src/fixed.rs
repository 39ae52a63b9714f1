//! Fixed-point arithmetic on integer parts.
//!
//! A price is a `u128` holding parts of `10^18` (so `3 * DIV` is the price 3).
//! A ratio such as a spread is a `u32` holding parts per million.
//! Multiplying an amount by a price truncates; multiplying an amount by a
//! ratio rounds to the nearest unit, a half rounding down.
use vstd::arithmetic::div_mod::{
    lemma_div_denominator, lemma_div_is_ordered, lemma_div_is_ordered_by_denominator,
    lemma_div_multiples_vanish, lemma_fundamental_div_mod,
    lemma_mod_bound,
    lemma_fundamental_div_mod_converse,
};
use vstd::prelude::*;

verus! {

/// Parts of one in a price.
pub const DIV: u128 = 1_000_000_000_000_000_000;

/// Parts of one in a ratio.
pub const PERMILL_ONE: u32 = 1_000_000;

/// `s` parts per million of `x`, rounded to nearest, a half rounding down.
pub open spec fn permill_of(s: int, x: int) -> int {
    (s * x + 499_999) / 1_000_000
}

/// Ask price: the mid price marked up by the spread.
pub open spec fn ask_of(p: int, s: int) -> int {
    p + permill_of(s, p)
}

/// Bid price: the mid price marked down by the spread.
pub open spec fn bid_of(p: int, s: int) -> int {
    p - permill_of(s, p)
}

/// An amount `a` valued at price `p`, truncated.
pub open spec fn value_of(a: int, p: int) -> int {
    a * p / DIV as int
}

/// How many units price `p` buys for amount `a`, truncated.
pub open spec fn units_of(a: int, p: int) -> int {
    a * DIV as int / p
}

/// `a * b / c`, truncated.
pub open spec fn mul_div_of(a: int, b: int, c: int) -> int {
    a * b / c
}

pub open spec fn fits_u128(x: int) -> bool {
    0 <= x <= u128::MAX
}

pub open spec fn two_pow(k: nat) -> nat
    decreases k,
{
    if k == 0 {
        1
    } else {
        2 * two_pow((k - 1) as nat)
    }
}

proof fn lemma_halve(b: int, pw: int)
    requires
        b >= 0,
        pw > 0,
    ensures
        b / pw == 2 * (b / (2 * pw)) + (b / pw) % 2,
        (b / pw) % 2 == 0 || (b / pw) % 2 == 1,
{
    lemma_div_denominator(b, pw, 2);
    assert(pw * 2 == 2 * pw) by (nonlinear_arith);
    lemma_fundamental_div_mod(b / pw, 2);
}

/// `ra * b / c` for `ra < c`, by binary long division; never overflows.
fn mul_div_below(ra: u128, b: u128, c: u128) -> (q: u128)
    requires
        c > 0,
        ra < c,
    ensures
        q as int == (ra as int * b as int) / c as int,
{
    let mut pw: u128 = 1;
    let ghost mut k: nat = 0;
    while pw <= b / 2
        invariant
            pw == two_pow(k),
            pw >= 1,
        decreases b - pw,
    {
        pw = pw * 2;
        proof {
            k = k + 1;
        }
    }
    assert(b as int / (2 * pw as int) == 0) by (nonlinear_arith)
        requires pw > b / 2, b >= 0, pw >= 1;
    let mut q: u128 = 0;
    let mut r: u128 = 0;
    loop
        invariant_except_break
            ra as int * (b as int / (2 * pw as int)) == q as int * c as int + r as int,
        invariant
            c > 0,
            ra < c,
            r < c,
            pw >= 1,
            pw == two_pow(k),
        ensures
            ra as int * b as int == q as int * c as int + r as int,
            r < c,
        decreases pw,
    {
        let ghost pre: int = b as int / (2 * pw as int);
        let ghost q0: int = q as int;
        let ghost r0: int = r as int;
        proof {
            lemma_halve(b as int, pw as int);
            assert(q0 <= pre) by (nonlinear_arith)
                requires
                    ra as int * pre == q0 * c as int + r0,
                    r0 >= 0,
                    ra < c,
                    pre >= 0,
            ;
            lemma_div_is_ordered_by_denominator(b as int, 2, 2 * pw as int);
        }
        let bit: u128 = (b / pw) % 2;
        if r >= c - r {
            r = r - (c - r);
            q = 2 * q + 1;
        } else {
            r = 2 * r;
            q = 2 * q;
        }
        let ghost q1: int = q as int;
        let ghost r1: int = r as int;
        proof {
            assert(q1 * c as int + r1 == 2 * (q0 * c as int + r0)) by (nonlinear_arith)
                requires
                    (q1 == 2 * q0 + 1 && r1 == 2 * r0 - c as int) || (q1 == 2 * q0 && r1 == 2 * r0),
            ;
        }
        if bit == 1 {
            if r >= c - ra {
                proof {
                    let w: int = b as int / pw as int;
                    assert(ra as int * w == q1 * c as int + r1 + ra as int) by (nonlinear_arith)
                        requires
                            w == 2 * pre + 1,
                            ra as int * pre == q0 * c as int + r0,
                            q1 * c as int + r1 == 2 * (q0 * c as int + r0),
                    ;
                    assert(q1 + 1 <= w) by (nonlinear_arith)
                        requires
                            ra as int * w == q1 * c as int + r1 + ra as int,
                            r1 + ra as int >= c as int,
                            ra < c,
                            w >= 0,
                    ;
                    assert(w <= b as int) by {
                        lemma_div_is_ordered_by_denominator(b as int, 1, pw as int);
                    }
                }
                r = r - (c - ra);
                q = q + 1;
                proof {
                    assert(q as int * c as int == q1 * c as int + c as int) by (nonlinear_arith)
                        requires q as int == q1 + 1;
                }
            } else {
                r = r + ra;
            }
        }
        proof {
            let w: int = b as int / pw as int;
            assert(ra as int * w == q as int * c as int + r as int) by (nonlinear_arith)
                requires
                    w == 2 * pre + bit as int,
                    ra as int * pre == q0 * c as int + r0,
                    q1 * c as int + r1 == 2 * (q0 * c as int + r0),
                    bit == 1 ==> q as int * c as int + r as int == q1 * c as int + r1 + ra as int,
                    bit != 1 ==> q as int == q1 && r as int == r1,
                    bit == 0 || bit == 1,
            ;
        }
        if pw == 1 {
            assert(b as int / 1int == b as int);
            break;
        }
        proof {
            assert(k > 0);
            assert(pw == 2 * two_pow((k - 1) as nat));
        }
        pw = pw / 2;
        proof {
            k = (k - 1) as nat;
            assert(2 * pw as int == pw as int * 2);
        }
    }
    proof {
        lemma_fundamental_div_mod_converse(ra as int * b as int, c as int, q as int, r as int);
    }
    q
}

/// `a * b / c`, truncated, or `None` where that does not fit in a `u128`.
pub fn mul_div(a: u128, b: u128, c: u128) -> (r: Option<u128>)
    requires
        c > 0,
    ensures
        r == (if fits_u128(mul_div_of(a as int, b as int, c as int)) {
            Some(mul_div_of(a as int, b as int, c as int) as u128)
        } else {
            None::<u128>
        }),
{
    let qa: u128 = a / c;
    let ra: u128 = a % c;
    let low: u128 = mul_div_below(ra, b, c);
    proof {
        let ab: int = a as int * b as int;
        let m: int = (ra as int * b as int) % c as int;
        lemma_fundamental_div_mod(a as int, c as int);
        lemma_fundamental_div_mod(ra as int * b as int, c as int);
        assert(0 <= m < c) by {
            lemma_mod_bound(ra as int * b as int, c as int);
        }
        assert(ab == (qa as int * b as int + low as int) * c as int + m) by (nonlinear_arith)
            requires
                a as int == c as int * qa as int + ra as int,
                ra as int * b as int == c as int * low as int + m,
                ab == a as int * b as int,
        ;
        lemma_fundamental_div_mod_converse(ab, c as int, qa as int * b as int + low as int, m);
        assert(low >= 0);
    }
    match qa.checked_mul(b) {
        None => None,
        Some(h) => h.checked_add(low),
    }
}

/// `s` parts per million of `x`, rounded to nearest, a half rounding down.
pub fn permill_mul(s: u32, x: u128) -> (r: u128)
    requires
        s <= PERMILL_ONE,
    ensures
        r as int == permill_of(s as int, x as int),
        r <= x,
{
    let q: u128 = x / 1_000_000;
    let rem: u128 = x % 1_000_000;
    assert(rem as int * s as int <= 1_000_000 * 1_000_000) by (nonlinear_arith)
        requires rem < 1_000_000, s <= 1_000_000;
    let t: u128 = (rem * s as u128 + 499_999) / 1_000_000;
    proof {
        lemma_fundamental_div_mod(x as int, 1_000_000);
        let u: int = (rem as int * s as int + 499_999) % 1_000_000;
        lemma_fundamental_div_mod(rem as int * s as int + 499_999, 1_000_000);
        lemma_mod_bound(rem as int * s as int + 499_999, 1_000_000);
        assert(s as int * x as int + 499_999 == (q as int * s as int + t as int) * 1_000_000 + u)
            by (nonlinear_arith)
            requires
                x as int == 1_000_000 * q as int + rem as int,
                rem as int * s as int + 499_999 == 1_000_000 * t as int + u,
        ;
        lemma_fundamental_div_mod_converse(
            s as int * x as int + 499_999,
            1_000_000,
            q as int * s as int + t as int,
            u,
        );
        assert(q as int * s as int + t as int <= x as int) by (nonlinear_arith)
            requires
                s as int * x as int + 499_999 == (q as int * s as int + t as int) * 1_000_000 + u,
                u >= 0,
                s <= 1_000_000,
                x >= 0,
        ;
        assert(q as int * s as int <= x as int) by (nonlinear_arith)
            requires
                q as int * s as int + t as int <= x as int,
                t >= 0,
        ;
    }
    q * s as u128 + t
}

/// The ask price for mid price `p` and spread `s`, or `None` on overflow.
pub fn ask_price(p: u128, s: u32) -> (r: Option<u128>)
    requires
        s <= PERMILL_ONE,
    ensures
        r == (if fits_u128(ask_of(p as int, s as int)) {
            Some(ask_of(p as int, s as int) as u128)
        } else {
            None::<u128>
        }),
{
    p.checked_add(permill_mul(s, p))
}

/// The bid price for mid price `p` and spread `s`.
pub fn bid_price(p: u128, s: u32) -> (r: u128)
    requires
        s <= PERMILL_ONE,
    ensures
        r as int == bid_of(p as int, s as int),
{
    p - permill_mul(s, p)
}

/// Amount `a` valued at price `p`, or `None` on overflow.
pub fn value_at(a: u128, p: u128) -> (r: Option<u128>)
    ensures
        r == (if fits_u128(value_of(a as int, p as int)) {
            Some(value_of(a as int, p as int) as u128)
        } else {
            None::<u128>
        }),
{
    mul_div(a, p, DIV)
}

/// Units that amount `a` buys at price `p`, or `None` on overflow.
pub fn units_at(a: u128, p: u128) -> (r: Option<u128>)
    requires
        p > 0,
    ensures
        r == (if fits_u128(units_of(a as int, p as int)) {
            Some(units_of(a as int, p as int) as u128)
        } else {
            None::<u128>
        }),
{
    mul_div(a, DIV, p)
}

/// The bid never exceeds the mid price and the ask never falls below it,
/// for every spread between zero and one.
pub proof fn lemma_prices_bracket_mid(p: int, s: int)
    requires
        p >= 0,
        0 <= s <= PERMILL_ONE,
    ensures
        0 <= bid_of(p, s) <= p <= ask_of(p, s),
{
    assert(0 <= s * p + 499_999 <= 1_000_000 * p + 499_999) by (nonlinear_arith)
        requires 0 <= s <= 1_000_000, p >= 0;
    lemma_div_is_ordered(0, s * p + 499_999, 1_000_000);
    lemma_div_is_ordered(s * p + 499_999, 1_000_000 * p + 499_999, 1_000_000);
    lemma_fundamental_div_mod_converse(1_000_000 * p + 499_999, 1_000_000, p, 499_999);
}

proof fn lemma_div_shift(n: int, k: int)
    ensures
        (n + 1_000_000 * k) / 1_000_000 == n / 1_000_000 + k,
{
    lemma_fundamental_div_mod(n, 1_000_000);
    lemma_mod_bound(n, 1_000_000);
    lemma_fundamental_div_mod_converse(
        n + 1_000_000 * k,
        1_000_000,
        n / 1_000_000 + k,
        n % 1_000_000,
    );
}

/// The ask price is strictly increasing in the mid price.
pub proof fn lemma_ask_strictly_increasing(p1: int, p2: int, s: int)
    requires
        0 <= p1 < p2,
        0 <= s <= PERMILL_ONE,
    ensures
        ask_of(p1, s) < ask_of(p2, s),
{
    assert(s * p1 + 499_999 <= s * p2 + 499_999) by (nonlinear_arith)
        requires 0 <= s, p1 < p2;
    lemma_div_is_ordered(s * p1 + 499_999, s * p2 + 499_999, 1_000_000);
}

/// The bid price never decreases as the mid price rises; it rises strictly
/// where the step in the mid price outweighs what rounding can take back.
pub proof fn lemma_bid_increasing(p1: int, p2: int, s: int)
    requires
        0 <= p1 <= p2,
        0 <= s <= PERMILL_ONE,
    ensures
        bid_of(p1, s) <= bid_of(p2, s),
        s * (p2 - p1) <= 1_000_000 * (p2 - p1 - 1) ==> bid_of(p1, s) < bid_of(p2, s),
{
    let d: int = p2 - p1;
    let n1: int = s * p1 + 499_999;
    assert(s * p2 + 499_999 == n1 + s * d) by (nonlinear_arith)
        requires d == p2 - p1, n1 == s * p1 + 499_999;
    assert(s * d <= 1_000_000 * d) by (nonlinear_arith)
        requires 0 <= s <= 1_000_000, d >= 0;
    lemma_div_is_ordered(n1 + s * d, n1 + 1_000_000 * d, 1_000_000);
    lemma_div_shift(n1, d);
    if s * d <= 1_000_000 * (d - 1) {
        lemma_div_is_ordered(n1 + s * d, n1 + 1_000_000 * (d - 1), 1_000_000);
        lemma_div_shift(n1, d - 1);
    }
}

/// Buying with an amount and at once selling what was bought, at one mid
/// price and spread, never returns more than the amount.
pub proof fn lemma_round_trip_never_gains(x: int, p: int, s: int)
    requires
        x >= 0,
        p > 0,
        0 <= s <= PERMILL_ONE,
    ensures
        value_of(units_of(x, ask_of(p, s)), bid_of(p, s)) <= x,
{
    lemma_prices_bracket_mid(p, s);
    let a: int = ask_of(p, s);
    let b: int = bid_of(p, s);
    let u: int = units_of(x, a);
    let d: int = DIV as int;
    lemma_fundamental_div_mod(x * d, a);
    lemma_mod_bound(x * d, a);
    assert(u >= 0) by {
        assert(x * d >= 0) by (nonlinear_arith) requires x >= 0, d >= 0;
        lemma_div_is_ordered(0, x * d, a);
    }
    assert(u * b <= x * d) by (nonlinear_arith)
        requires
            x * d == a * u + (x * d) % a,
            (x * d) % a >= 0,
            0 <= b <= a,
            u >= 0,
    ;
    lemma_div_is_ordered(u * b, x * d, d);
    lemma_div_multiples_vanish(x, d);
    assert(d * x == x * d) by (nonlinear_arith);
}

} // verus!
