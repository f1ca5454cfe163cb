//! Fixed-point scalar arithmetic.
//!
//! Every scalar in this crate is a signed fixed-point number: an `i128` whose
//! value is the stored integer divided by `FX_ONE` (2^16). Multiplication and
//! division rescale their results and truncate toward zero, as the hardware
//! operators do; square roots truncate toward zero as well. Division by zero
//! yields the largest representable scalar, a deliberate sentinel, so the
//! operations stay total where a quotient has no meaning.

use vstd::prelude::*;
use vstd::arithmetic::div_mod::{lemma_div_pos_is_pos, lemma_div_is_ordered_by_denominator, lemma_div_is_ordered};
use vstd::arithmetic::mul::lemma_mul_nonnegative;

verus! {

/// One in fixed-point representation: the scale factor 2^16.
pub const FX_ONE: i128 = 65536;

/// One half in fixed-point representation.
pub const FX_HALF: i128 = 32768;

/// Sentinel returned for a division by zero: the largest scalar.
pub const FX_SENTINEL: i128 = i128::MAX;

/// True when `x` is symmetric-representable as an `i128` (the most negative
/// value is left out so that every representable scalar has a negation).
pub open spec fn fits(x: int) -> bool {
    -i128::MAX <= x <= i128::MAX
}

/// Truncating division (quotient rounded toward zero), as the `/` operator
/// of the machine computes it; meaningful only for `b != 0`.
pub open spec fn tdiv(a: int, b: int) -> int {
    if a == 0 {
        0
    } else if a > 0 && b > 0 {
        a / b
    } else if a < 0 && b < 0 {
        (a * -1) / (b * -1)
    } else if a < 0 {
        ((a * -1) / b) * -1
    } else {
        (a / (b * -1)) * -1
    }
}

/// The fixed-point product: the wide integer product, rescaled.
pub open spec fn fx_mul_s(a: int, b: int) -> int {
    tdiv(a * b, FX_ONE as int)
}

/// The fixed-point quotient: the scaled dividend over the raw divisor;
/// division by zero gives the sentinel.
pub open spec fn fx_div_s(a: int, b: int) -> int {
    if b == 0 {
        FX_SENTINEL as int
    } else {
        tdiv(a * (FX_ONE as int), b)
    }
}

/// The integer square root: the greatest `r` with `r * r <= x`.
pub open spec fn isqrt_s(x: int) -> int
    decreases x,
{
    if x < 1 {
        0
    } else {
        let r = isqrt_s(x - 1);
        if (r + 1) * (r + 1) <= x {
            r + 1
        } else {
            r
        }
    }
}

/// The fixed-point square root: the scaled radicand's integer root.
pub open spec fn fx_sqrt_s(x: int) -> int {
    isqrt_s(x * (FX_ONE as int))
}

/// For a nonnegative radicand the integer root is the unique nonnegative `r`
/// with `r * r <= x < (r + 1) * (r + 1)`.
pub proof fn lemma_isqrt_bounds(x: int)
    requires
        x >= 0,
    ensures
        0 <= isqrt_s(x),
        isqrt_s(x) * isqrt_s(x) <= x,
        x < (isqrt_s(x) + 1) * (isqrt_s(x) + 1),
    decreases x,
{
    if x >= 1 {
        lemma_isqrt_bounds(x - 1);
        let r = isqrt_s(x - 1);
        if (r + 1) * (r + 1) <= x {
            assert(x < (r + 2) * (r + 2)) by (nonlinear_arith)
                requires x - 1 < (r + 1) * (r + 1) && r >= 0;
        }
    }
}

/// Any `r` meeting the square-root bounds is the integer root.
pub proof fn lemma_isqrt_unique(x: int, r: int)
    requires
        x >= 0,
        r >= 0,
        r * r <= x,
        x < (r + 1) * (r + 1),
    ensures
        r == isqrt_s(x),
{
    lemma_isqrt_bounds(x);
    let q = isqrt_s(x);
    if r < q {
        assert((r + 1) * (r + 1) <= q * q) by (nonlinear_arith)
            requires 0 <= r && r + 1 <= q;
        assert(false);
    }
    if q < r {
        assert((q + 1) * (q + 1) <= r * r) by (nonlinear_arith)
            requires 0 <= q && q + 1 <= r;
        assert(false);
    }
}

/// Truncating division by a positive divisor shrinks magnitudes and keeps signs.
pub proof fn lemma_tdiv_mag(a: int, b: int)
    requires
        b > 0,
    ensures
        a >= 0 ==> 0 <= tdiv(a, b) <= a,
        a < 0 ==> a <= tdiv(a, b) <= 0,
        tdiv(a, b) * b <= a || a < 0,
{
    if a > 0 {
        lemma_div_pos_is_pos(a, b);
        lemma_div_is_ordered_by_denominator(a, 1, b);
        vstd::arithmetic::div_mod::lemma_fundamental_div_mod(a, b);
        assert(tdiv(a, b) * b == b * (a / b)) by (nonlinear_arith)
            requires a > 0 && b > 0 && tdiv(a, b) == a / b;
        vstd::arithmetic::div_mod::lemma_mod_division_less_than_divisor(a, b);
    } else if a < 0 {
        lemma_div_pos_is_pos(a * -1, b);
        lemma_div_is_ordered_by_denominator(a * -1, 1, b);
    }
}

/// Truncating division by a positive divisor is monotone in the dividend.
pub proof fn lemma_tdiv_ordered(a1: int, a2: int, b: int)
    requires
        b > 0,
        a1 <= a2,
    ensures
        tdiv(a1, b) <= tdiv(a2, b),
{
    lemma_tdiv_mag(a1, b);
    lemma_tdiv_mag(a2, b);
    if a1 > 0 && a2 > 0 {
        lemma_div_is_ordered(a1, a2, b);
    } else if a1 < 0 && a2 < 0 {
        lemma_div_is_ordered(a2 * -1, a1 * -1, b);
    } else if a1 < 0 && a2 == 0 {
    } else if a1 == 0 {
        lemma_div_pos_is_pos(a2, b);
    } else if a1 < 0 && a2 > 0 {
    }
}

/// Bounds on magnitudes multiply through the fixed-point product.
pub proof fn lemma_fx_mul_mag(a: int, b: int, ma: int, mb: int)
    requires
        -ma <= a <= ma,
        -mb <= b <= mb,
    ensures
        -(ma * mb) <= a * b <= ma * mb,
        -(ma * mb) <= fx_mul_s(a, b) * (FX_ONE as int) <= ma * mb,
        -(ma * mb) / (FX_ONE as int) <= fx_mul_s(a, b) <= (ma * mb) / (FX_ONE as int),
{
    assert(-(ma * mb) <= a * b <= ma * mb) by (nonlinear_arith)
        requires -ma <= a <= ma && -mb <= b <= mb;
    let p = a * b;
    let one = FX_ONE as int;
    lemma_tdiv_mag(p, one);
    assert(-(ma * mb) <= fx_mul_s(a, b) * one <= ma * mb) by (nonlinear_arith)
        requires
            fx_mul_s(a, b) == tdiv(p, one),
            -(ma * mb) <= p <= ma * mb,
            one > 0,
            p >= 0 ==> 0 <= tdiv(p, one) <= p,
            p < 0 ==> p <= tdiv(p, one) <= 0,
            tdiv(p, one) * one <= p || p < 0;
    assert(-(ma * mb) / one <= fx_mul_s(a, b) <= (ma * mb) / one) by (nonlinear_arith)
        requires
            -(ma * mb) <= fx_mul_s(a, b) * one <= ma * mb,
            one > 0,
            ma * mb >= 0;
}

/// A fixed-point product of factors in the unit interval stays in the unit
/// interval and under either factor.
pub proof fn lemma_fx_mul_unit(a: int, b: int)
    requires
        0 <= a <= FX_ONE as int,
        0 <= b <= FX_ONE as int,
    ensures
        0 <= fx_mul_s(a, b) <= a,
        fx_mul_s(a, b) <= b,
{
    let one = FX_ONE as int;
    lemma_mul_nonnegative(a, b);
    lemma_tdiv_mag(a * b, one);
    assert(a * b <= a * one) by (nonlinear_arith)
        requires 0 <= a && 0 <= b <= one;
    assert(a * b <= b * one) by (nonlinear_arith)
        requires 0 <= b && 0 <= a <= one;
    lemma_tdiv_ordered(a * b, a * one, one);
    lemma_tdiv_ordered(a * b, b * one, one);
    vstd::arithmetic::div_mod::lemma_div_multiples_vanish(a, one);
    vstd::arithmetic::div_mod::lemma_div_multiples_vanish(b, one);
}

/// Fixed-point multiplication: the exact wide product, rescaled with
/// truncation toward zero.
pub fn fx_mul(a: i128, b: i128) -> (r: i128)
    requires
        fits(a * b),
    ensures
        r == fx_mul_s(a as int, b as int),
{
    proof {
        lemma_tdiv_mag(a as int * b as int, FX_ONE as int);
    }
    let p: i128 = a * b;
    match p.checked_div(FX_ONE) {
        Some(q) => q,
        None => {
            proof {
                assert(false);
            }
            0
        },
    }
}

/// Fixed-point division; a zero divisor yields the sentinel.
pub fn fx_div(a: i128, b: i128) -> (r: i128)
    requires
        fits(a * (FX_ONE as int)),
    ensures
        r == fx_div_s(a as int, b as int),
{
    if b == 0 {
        return FX_SENTINEL;
    }
    let num: i128 = a * FX_ONE;
    proof {
        if b > 0 {
            lemma_tdiv_mag(num as int, b as int);
        } else {
            lemma_tdiv_mag(num as int, b as int * -1);
            assert(tdiv(num as int, b as int) == tdiv(num as int, b as int * -1) * -1 || num == 0);
        }
    }
    match num.checked_div(b) {
        Some(q) => q,
        None => {
            proof {
                assert(false);
            }
            0
        },
    }
}

/// One more than the largest root the bisection can return: 2^64.
pub const ISQRT_ROOT_CAP: u128 = 0x10000000000000000;

/// Truncating integer division by a positive divisor (no fixed-point
/// rescaling).
pub fn fx_int_div(a: i128, b: i128) -> (r: i128)
    requires
        b > 0,
    ensures
        r == tdiv(a as int, b as int),
{
    proof {
        lemma_tdiv_mag(a as int, b as int);
    }
    match a.checked_div(b) {
        Some(q) => q,
        None => {
            proof {
                assert(false);
            }
            0
        },
    }
}

/// The integer square root of `x`, truncated toward zero, by bisection.
pub fn isqrt(x: u128) -> (r: u128)
    ensures
        r == isqrt_s(x as int),
        r * r <= x < (r + 1) * (r + 1),
        r < ISQRT_ROOT_CAP,
{
    let mut lo: u128 = 0;
    let mut hi: u128 = ISQRT_ROOT_CAP;
    while lo + 1 < hi
        invariant
            lo < hi <= ISQRT_ROOT_CAP,
            (lo as int) * (lo as int) <= x as int,
            (hi as int) * (hi as int) > x as int,
        decreases hi - lo,
    {
        let mid: u128 = lo + (hi - lo) / 2;
        proof {
            lemma_div_is_ordered(2, hi - lo, 2);
        }
        if mid <= x / mid {
            proof {
                vstd::arithmetic::div_mod::lemma_fundamental_div_mod(x as int, mid as int);
                vstd::arithmetic::div_mod::lemma_mod_division_less_than_divisor(x as int, mid as int);
                assert((mid as int) * (mid as int) <= x as int) by (nonlinear_arith)
                    requires
                        0 < mid as int <= (x as int) / (mid as int),
                        x as int == (mid as int) * ((x as int) / (mid as int)) + (x as int) % (mid as int),
                        0 <= (x as int) % (mid as int);
            }
            lo = mid;
        } else {
            proof {
                vstd::arithmetic::div_mod::lemma_fundamental_div_mod(x as int, mid as int);
                vstd::arithmetic::div_mod::lemma_mod_division_less_than_divisor(x as int, mid as int);
                lemma_div_pos_is_pos(x as int, mid as int);
                assert((mid as int) * (mid as int) > x as int) by (nonlinear_arith)
                    requires
                        0 <= (x as int) / (mid as int) < mid as int,
                        x as int == (mid as int) * ((x as int) / (mid as int)) + (x as int) % (mid as int),
                        (x as int) % (mid as int) < mid as int,
                        mid as int > 0;
            }
            hi = mid;
        }
    }
    proof {
        lemma_isqrt_unique(x as int, lo as int);
    }
    lo
}

/// The fixed-point square root of a nonnegative scalar.
pub fn fx_sqrt(x: i128) -> (r: i128)
    requires
        0 <= x,
        fits(x * (FX_ONE as int)),
    ensures
        r == fx_sqrt_s(x as int),
        0 <= r < ISQRT_ROOT_CAP,
{
    let wide: i128 = x * FX_ONE;
    let root: u128 = isqrt(wide as u128);
    root as i128
}

/// The fixed-point root of a positive scalar is positive (at least the root
/// of the smallest positive scalar).
pub proof fn lemma_fx_sqrt_pos(x: int)
    requires
        x >= 1,
    ensures
        fx_sqrt_s(x) >= 256,
{
    let one = FX_ONE as int;
    assert(x * one >= 65536) by (nonlinear_arith)
        requires x >= 1 && one == 65536;
    lemma_isqrt_bounds(x * one);
    let len = isqrt_s(x * one);
    assert(len >= 256) by (nonlinear_arith)
        requires
            (len + 1) * (len + 1) > x * one,
            x * one >= 65536,
            len >= 0;
}

/// Multiplying by a whole number (a multiple of one) is exact: no rounding.
pub proof fn lemma_fx_mul_whole(a: int, k: int)
    ensures
        fx_mul_s(a, k * (FX_ONE as int)) == a * k,
{
    let one = FX_ONE as int;
    assert(a * (k * one) == (a * k) * one) by (nonlinear_arith);
    let p = a * k;
    if p >= 0 {
        if p > 0 {
            assert(p * one > 0) by (nonlinear_arith)
                requires p > 0 && one > 0;
        }
        vstd::arithmetic::div_mod::lemma_div_multiples_vanish(p, one);
        assert(tdiv(p * one, one) == (one * p) / one || p == 0) by (nonlinear_arith)
            requires p >= 0 && one > 0 && (p > 0 ==> p * one > 0);
    } else {
        assert(p * one < 0) by (nonlinear_arith)
            requires p < 0 && one > 0;
        vstd::arithmetic::div_mod::lemma_div_multiples_vanish(-p, one);
        assert((p * one) * -1 == (-p) * one) by (nonlinear_arith);
        assert((-p) * one == one * (-p)) by (nonlinear_arith);
    }
}

/// A fixed-point quotient of a representable scaled dividend is itself
/// representable.
pub proof fn lemma_fx_div_mag(a: int, b: int)
    requires
        b != 0,
        fits(a * (FX_ONE as int)),
    ensures
        fits(fx_div_s(a, b)),
{
    let one = FX_ONE as int;
    let num = a * one;
    if b > 0 {
        lemma_tdiv_mag(num, b);
    } else {
        lemma_tdiv_mag(num, b * -1);
        assert(tdiv(num, b) == -tdiv(num, b * -1) || num == 0);
    }
}

/// A quotient keeps (for a positive divisor) or flips (for a negative one)
/// the dividend's sign, so the product of quotient and dividend carries the
/// divisor's sign.
pub proof fn lemma_fx_div_mul_sign(d: int, r: int)
    requires
        r != 0,
    ensures
        r > 0 ==> fx_mul_s(fx_div_s(d, r), d) >= 0,
        r < 0 ==> fx_mul_s(fx_div_s(d, r), d) <= 0,
{
    let one = FX_ONE as int;
    let q = fx_div_s(d, r);
    if r > 0 {
        lemma_tdiv_mag(d * one, r);
        assert(d >= 0 ==> d * one >= 0) by (nonlinear_arith)
            requires one > 0;
        assert(d < 0 ==> d * one < 0) by (nonlinear_arith)
            requires one > 0;
        assert(q * d >= 0) by (nonlinear_arith)
            requires (d >= 0 && q >= 0) || (d <= 0 && q <= 0);
        lemma_tdiv_mag(q * d, one);
    } else {
        let rp = r * -1;
        lemma_tdiv_mag(d * one, rp);
        assert(d >= 0 ==> d * one >= 0) by (nonlinear_arith)
            requires one > 0;
        assert(d < 0 ==> d * one < 0) by (nonlinear_arith)
            requires one > 0;
        assert(q == -tdiv(d * one, rp));
        assert(q * d <= 0) by (nonlinear_arith)
            requires (d >= 0 && q <= 0) || (d <= 0 && q >= 0);
        lemma_tdiv_mag(q * d, one);
    }
}

/// A fixed-point quotient with the dividend strictly smaller in magnitude
/// than the divisor lies strictly inside the unit interval.
pub proof fn lemma_fx_div_in_unit(a: int, b: int)
    requires
        b > 0,
        -b < a < b,
    ensures
        -(FX_ONE as int) < fx_div_s(a, b) < FX_ONE as int,
{
    let one = FX_ONE as int;
    assert(a * one <= (b - 1) * one && -((b - 1) * one) <= a * one) by (nonlinear_arith)
        requires -(b - 1) <= a <= b - 1 && one > 0;
    lemma_tdiv_mag(a * one, b);
    lemma_tdiv_ordered(a * one, (b - 1) * one, b);
    lemma_tdiv_ordered(-((b - 1) * one), a * one, b);
    let top = (b - 1) * one;
    assert((b - 1) * one >= 0) by (nonlinear_arith)
        requires b >= 1 && one > 0;
    vstd::arithmetic::div_mod::lemma_fundamental_div_mod(top, b);
    vstd::arithmetic::div_mod::lemma_mod_division_less_than_divisor(top, b);
    assert(tdiv(top, b) < one) by (nonlinear_arith)
        requires
            tdiv(top, b) == top / b,
            top == b * (top / b) + top % b,
            0 <= top % b,
            top == (b - 1) * one,
            b > 0,
            one > 0;
    assert(tdiv(-top, b) == -tdiv(top, b));
}

} // verus!
