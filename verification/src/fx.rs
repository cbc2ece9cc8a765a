//! Fixed-point scalar arithmetic.
//!
//! A scalar value `q` is stored as the `i64` count `q * SCALE`, rounded
//! toward zero.  Every operation clamps its result into
//! `[-FX_MAX, FX_MAX]`, so the bound plays the role an infinity plays for
//! floating point: once a computation leaves the representable range it
//! sticks to the bound instead of wrapping.

use vstd::arithmetic::div_mod::{
    lemma_div_is_ordered, lemma_div_pos_is_pos, lemma_fundamental_div_mod,
};
use vstd::prelude::*;

verus! {

/// Count of fraction steps per unit: the scalar `1.0` is stored as `SCALE`.
pub const SCALE: i64 = 16777216;

/// Largest representable scalar magnitude (about 4.19 million units).
pub const FX_MAX: i64 = 70368744177664;

/// Smallest representable scalar.
pub const FX_MIN: i64 = -FX_MAX;

/// Clamp an unbounded integer into the representable range.
pub open spec fn sat(x: int) -> int {
    if x > FX_MAX as int {
        FX_MAX as int
    } else if x < FX_MIN as int {
        FX_MIN as int
    } else {
        x
    }
}

/// Quotient of `n` by a positive `d`, rounded toward zero.
pub open spec fn tdiv(n: int, d: int) -> int
    recommends
        d > 0,
{
    if n >= 0 {
        n / d
    } else {
        -((-n) / d)
    }
}

/// Quotient rounded toward zero, for a divisor of either sign.
pub open spec fn tdiv_signed(n: int, d: int) -> int
    recommends
        d != 0,
{
    if d > 0 {
        tdiv(n, d)
    } else {
        -tdiv(n, -d)
    }
}

/// The sum of two scalars.
pub open spec fn spec_add(a: int, b: int) -> int {
    sat(a + b)
}

/// The difference of two scalars.
pub open spec fn spec_sub(a: int, b: int) -> int {
    sat(a - b)
}

/// The negation of a scalar.
pub open spec fn spec_neg(a: int) -> int {
    sat(-a)
}

/// The product of two scalars.
pub open spec fn spec_mul(a: int, b: int) -> int {
    sat(tdiv(a * b, SCALE as int))
}

/// The quotient of two scalars; division by zero saturates with the sign
/// of the numerator, the way a float quotient runs off to an infinity.
pub open spec fn spec_div(a: int, b: int) -> int {
    if b == 0 {
        if a >= 0 {
            FX_MAX as int
        } else {
            FX_MIN as int
        }
    } else {
        sat(tdiv_signed(a * SCALE, b))
    }
}

/// Integer square root, rounded down, by the classic base-4 recursion.
pub open spec fn sqrt_floor(n: int) -> int
    decreases n,
{
    if n < 1 {
        0
    } else {
        let s = sqrt_floor(n / 4);
        if (2 * s + 1) * (2 * s + 1) <= n {
            2 * s + 1
        } else {
            2 * s
        }
    }
}

/// The square root of a non-negative scalar: `sqrt(a/SCALE)` in scalar
/// representation is `floor(sqrt(a * SCALE))`.
pub open spec fn spec_sqrt(a: int) -> int {
    if a < 0 {
        0
    } else {
        sqrt_floor(a * SCALE)
    }
}

/// `sqrt_floor` is the rounded-down square root.
pub proof fn lemma_sqrt_floor_bounds(n: int)
    requires
        n >= 0,
    ensures
        sqrt_floor(n) >= 0,
        sqrt_floor(n) * sqrt_floor(n) <= n,
        n < (sqrt_floor(n) + 1) * (sqrt_floor(n) + 1),
    decreases n,
{
    if n < 1 {
    } else {
        lemma_sqrt_floor_bounds(n / 4);
        let s = sqrt_floor(n / 4);
        lemma_fundamental_div_mod(n, 4);
        assert(4 * (n / 4) <= n < 4 * (n / 4) + 4);
        assert((2 * s) * (2 * s) <= 4 * (n / 4)) by (nonlinear_arith)
            requires
                s * s <= n / 4,
        ;
        assert(4 * (n / 4) + 4 <= (2 * s + 2) * (2 * s + 2)) by (nonlinear_arith)
            requires
                n / 4 < (s + 1) * (s + 1),
        ;
    }
}

/// Any integer meeting the rounded-down square root bounds is `sqrt_floor`.
pub proof fn lemma_sqrt_unique(n: int, r: int)
    requires
        n >= 0,
        r >= 0,
        r * r <= n,
        n < (r + 1) * (r + 1),
    ensures
        r == sqrt_floor(n),
{
    lemma_sqrt_floor_bounds(n);
    let s = sqrt_floor(n);
    assert(r == s) by (nonlinear_arith)
        requires
            r >= 0,
            s >= 0,
            r * r <= n,
            n < (r + 1) * (r + 1),
            s * s <= n,
            n < (s + 1) * (s + 1),
    ;
}

/// Truncated division by a fixed positive divisor is monotone.
pub proof fn lemma_tdiv_mono(n1: int, n2: int, d: int)
    requires
        d > 0,
        n1 <= n2,
    ensures
        tdiv(n1, d) <= tdiv(n2, d),
{
    if n1 >= 0 {
        lemma_div_is_ordered(n1, n2, d);
    } else if n2 >= 0 {
        lemma_div_pos_is_pos(-n1, d);
        lemma_div_pos_is_pos(n2, d);
    } else {
        lemma_div_is_ordered(-n2, -n1, d);
    }
}

/// Truncated division never grows the magnitude (for a divisor at least 1).
pub proof fn lemma_tdiv_bounds(n: int, d: int)
    requires
        d >= 1,
    ensures
        n >= 0 ==> 0 <= tdiv(n, d) <= n,
        n < 0 ==> n <= tdiv(n, d) <= 0,
{
    if n >= 0 {
        lemma_div_pos_is_pos(n, d);
        vstd::arithmetic::div_mod::lemma_div_nonincreasing(n, d);
    } else {
        lemma_div_pos_is_pos(-n, d);
        vstd::arithmetic::div_mod::lemma_div_nonincreasing(-n, d);
    }
}

/// Scaling by `SCALE` and truncating the division back is exact.
pub proof fn lemma_tdiv_cancel(a: int)
    ensures
        tdiv(a * SCALE, SCALE as int) == a,
{
    if a >= 0 {
        vstd::arithmetic::div_mod::lemma_div_multiples_vanish(a, SCALE as int);
    } else {
        vstd::arithmetic::div_mod::lemma_div_multiples_vanish(-a, SCALE as int);
    }
}

/// Multiplying a scalar by zero gives exactly zero.
pub proof fn lemma_spec_mul_zero(a: int)
    ensures
        spec_mul(a, 0) == 0,
{
    assert(a * 0 == 0);
    vstd::arithmetic::div_mod::lemma_div_of0(SCALE as int);
    assert(tdiv(0, SCALE as int) == 0);
}

/// Clamp into the representable range.
pub(crate) fn sat_i128(x: i128) -> (r: i64)
    ensures
        r as int == sat(x as int),
{
    if x > FX_MAX as i128 {
        FX_MAX
    } else if x < FX_MIN as i128 {
        FX_MIN
    } else {
        x as i64
    }
}

/// Truncated division on `i128`, via unsigned division on magnitudes.
pub(crate) fn tdiv_i128(n: i128, d: i128) -> (r: i128)
    requires
        d > 0,
        n > i128::MIN,
    ensures
        r as int == tdiv(n as int, d as int),
{
    if n >= 0 {
        ((n as u128) / (d as u128)) as i128
    } else {
        let m = (-n) as u128;
        let q = m / (d as u128);
        proof {
            lemma_tdiv_bounds(m as int, d as int);
        }
        -(q as i128)
    }
}

/// Scalar addition.
pub fn fx_add(a: i64, b: i64) -> (r: i64)
    ensures
        r as int == spec_add(a as int, b as int),
{
    sat_i128(a as i128 + b as i128)
}

/// Scalar subtraction.
pub fn fx_sub(a: i64, b: i64) -> (r: i64)
    ensures
        r as int == spec_sub(a as int, b as int),
{
    sat_i128(a as i128 - b as i128)
}

/// Scalar negation.
pub fn fx_neg(a: i64) -> (r: i64)
    ensures
        r as int == spec_neg(a as int),
{
    sat_i128(-(a as i128))
}

/// Scalar multiplication.
pub fn fx_mul(a: i64, b: i64) -> (r: i64)
    ensures
        r as int == spec_mul(a as int, b as int),
{
    proof {
        assert(-(i128::MAX as int) <= (a as int) * (b as int) <= i128::MAX as int)
            by (nonlinear_arith)
            requires
                (i64::MIN as int) <= a as int <= (i64::MAX as int),
                (i64::MIN as int) <= b as int <= (i64::MAX as int),
        ;
    }
    let p = (a as i128) * (b as i128);
    sat_i128(tdiv_i128(p, SCALE as i128))
}

/// Scalar division.
pub fn fx_div(a: i64, b: i64) -> (r: i64)
    ensures
        r as int == spec_div(a as int, b as int),
{
    if b == 0 {
        if a >= 0 {
            FX_MAX
        } else {
            FX_MIN
        }
    } else {
        proof {
            assert(-(i128::MAX as int) <= (a as int) * (SCALE as int) <= i128::MAX as int)
                by (nonlinear_arith)
                requires
                    (i64::MIN as int) <= a as int <= (i64::MAX as int),
                    SCALE as int == 16777216,
            ;
        }
        let n = (a as i128) * (SCALE as i128);
        if b > 0 {
            sat_i128(tdiv_i128(n, b as i128))
        } else {
            let q = tdiv_i128(n, -(b as i128));
            proof {
                lemma_tdiv_bounds(n as int, -(b as int));
            }
            sat_i128(-q)
        }
    }
}

/// Rounded-down integer square root by binary search.
fn isqrt_u128(n: u128) -> (r: u128)
    ensures
        r as int * r as int <= n as int,
        (n as int) < (r as int + 1) * (r as int + 1),
{
    let mut lo: u128 = 0;
    let mut hi: u128 = 18446744073709551616u128;
    proof {
        assert((hi as int) * (hi as int) > u128::MAX as int) by (nonlinear_arith)
            requires
                hi as int == 18446744073709551616int,
        ;
    }
    while lo + 1 < hi
        invariant
            lo < hi <= 18446744073709551616u128,
            lo as int * lo as int <= n as int,
            (n as int) < hi as int * hi as int,
        decreases hi - lo,
    {
        let mid = lo + (hi - lo) / 2;
        proof {
            assert(lo < mid < hi);
            assert(mid as int * mid as int <= u128::MAX as int) by (nonlinear_arith)
                requires
                    0 <= mid as int <= 18446744073709551615int,
            ;
        }
        if mid * mid <= n {
            lo = mid;
        } else {
            hi = mid;
        }
    }
    lo
}

/// Scalar square root of a non-negative scalar.
pub fn fx_sqrt(a: i64) -> (r: i64)
    requires
        a >= 0,
    ensures
        r as int == spec_sqrt(a as int),
        0 <= r <= FX_MAX,
{
    proof {
        assert((a as int) * (SCALE as int) <= u128::MAX as int) by (nonlinear_arith)
            requires
                0 <= a as int <= (i64::MAX as int),
                SCALE as int == 16777216,
        ;
    }
    let n = (a as u128) * (SCALE as u128);
    let s = isqrt_u128(n);
    proof {
        lemma_sqrt_unique(n as int, s as int);
        assert(s as int * s as int <= n as int && (n as int) < (FX_MAX as int) * (FX_MAX as int)) by (nonlinear_arith)
            requires
                s as int * s as int <= n as int,
                n as int == a as int * SCALE as int,
                0 <= a as int <= (i64::MAX as int),
                SCALE as int == 16777216,
                FX_MAX as int == 70368744177664,
        ;
        assert(s as int <= FX_MAX as int) by (nonlinear_arith)
            requires
                s as int >= 0,
                (s as int * s as int) < (FX_MAX as int) * (FX_MAX as int),
        ;
    }
    s as i64
}

} // verus!
