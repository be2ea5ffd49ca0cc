//! Signed fixed-point arithmetic with 16 fractional bits.
//!
//! A quantity `x` represents the real number `x / SCALE`. Multiplication
//! and division truncate toward zero, as the corresponding wide integer
//! operations do; every operation's contract states the exact result.

use vstd::prelude::*;
use vstd::arithmetic::div_mod::*;

verus! {

/// Number of units per 1.0.
pub const SCALE: i64 = 65536;

/// The fixed-point value 1.0.
pub const ONE: i64 = 65536;

/// The fixed-point value 0.5.
pub const HALF: i64 = 32768;

pub open spec fn abs_i(a: int) -> int {
    if a >= 0 {
        a
    } else {
        -a
    }
}

/// Quotient truncated toward zero, the semantics of integer division
/// on the machine.
pub open spec fn div_tz(a: int, b: int) -> int {
    if (a >= 0) == (b >= 0) {
        abs_i(a) / abs_i(b)
    } else {
        -(abs_i(a) / abs_i(b))
    }
}

/// The exact value of a fixed-point product.
pub open spec fn fx_mul(a: int, b: int) -> int {
    div_tz(a * b, SCALE as int)
}

/// The exact value of a fixed-point quotient.
pub open spec fn fx_div(a: int, b: int) -> int {
    div_tz(a * (SCALE as int), b)
}

/// `div_tz` never exceeds the dividend in magnitude.
pub proof fn lemma_div_tz_le(a: int, b: int)
    requires
        b != 0,
    ensures
        abs_i(div_tz(a, b)) <= abs_i(a),
{
    let ua = abs_i(a);
    let ub = abs_i(b);
    lemma_div_pos_is_pos(ua, ub);
    lemma_div_nonincreasing(ua, ub);
}

/// The defining property of truncating division: the quotient times the
/// divisor falls within one divisor of the dividend, on the zero side.
pub proof fn lemma_div_tz_bounds(a: int, b: int)
    requires
        b > 0,
    ensures
        a >= 0 ==> b * div_tz(a, b) <= a < b * (div_tz(a, b) + 1),
        a < 0 ==> b * div_tz(a, b) >= a > b * (div_tz(a, b) - 1),
{
    let ua = abs_i(a);
    lemma_fundamental_div_mod(ua, b);
    lemma_mod_bound(ua, b);
    if a >= 0 {
        assert(b * div_tz(a, b) <= a < b * (div_tz(a, b) + 1)) by (nonlinear_arith)
            requires
                a == b * (a / b) + a % b,
                0 <= a % b < b,
                div_tz(a, b) == a / b,
                a >= 0,
                b > 0,
        {}
    } else {
        assert(b * div_tz(a, b) >= a > b * (div_tz(a, b) - 1)) by (nonlinear_arith)
            requires
                -a == b * ((-a) / b) + (-a) % b,
                0 <= (-a) % b < b,
                div_tz(a, b) == -((-a) / b),
                a < 0,
                b > 0,
        {}
    }
}

/// Truncating division acts on magnitudes.
pub proof fn lemma_div_tz_abs(a: int, b: int)
    requires
        b != 0,
    ensures
        abs_i(div_tz(a, b)) == abs_i(a) / abs_i(b),
{
    lemma_div_pos_is_pos(abs_i(a), abs_i(b));
}

/// A fixed-point product of bounded factors is bounded by the scaled
/// product of the bounds.
pub proof fn lemma_fx_mul_bound(a: int, b: int, aa: int, bb: int)
    requires
        abs_i(a) <= aa,
        abs_i(b) <= bb,
    ensures
        abs_i(fx_mul(a, b)) <= (aa * bb) / (SCALE as int),
        abs_i(fx_mul(a, b)) <= aa * bb,
        abs_i(fx_mul(a, b)) * (SCALE as int) <= aa * bb,
{
    lemma_abs_mul_le(a, b, aa, bb);
    lemma_div_tz_abs(a * b, SCALE as int);
    lemma_div_is_ordered(abs_i(a * b), aa * bb, SCALE as int);
    lemma_div_pos_is_pos(aa * bb, SCALE as int);
    lemma_div_nonincreasing(aa * bb, SCALE as int);
    lemma_fundamental_div_mod(abs_i(a * b), SCALE as int);
    lemma_mod_bound(abs_i(a * b), SCALE as int);
    assert(abs_i(fx_mul(a, b)) * (SCALE as int) <= abs_i(a * b)) by (nonlinear_arith)
        requires
            abs_i(fx_mul(a, b)) == abs_i(a * b) / (SCALE as int),
            abs_i(a * b) == (SCALE as int) * (abs_i(a * b) / (SCALE as int)) + abs_i(a * b) % (
            SCALE as int),
            abs_i(a * b) % (SCALE as int) >= 0,
    {}
}

/// A product is bounded by the product of the bounds.
pub proof fn lemma_abs_mul_le(a: int, b: int, aa: int, bb: int)
    requires
        abs_i(a) <= aa,
        abs_i(b) <= bb,
    ensures
        abs_i(a * b) <= aa * bb,
{
    assert(abs_i(a * b) <= aa * bb) by (nonlinear_arith)
        requires
            abs_i(a) <= aa,
            abs_i(b) <= bb,
    {}
}

/// Truncating division of wide integers, implemented over unsigned
/// magnitudes so that the result is pinned exactly.
pub fn div_trunc_i128(a: i128, b: i128) -> (r: i128)
    requires
        b != 0,
        a != i128::MIN,
        b != i128::MIN,
    ensures
        r == div_tz(a as int, b as int),
{
    let ua: u128 = if a >= 0 {
        a as u128
    } else {
        (-a) as u128
    };
    let ub: u128 = if b >= 0 {
        b as u128
    } else {
        (-b) as u128
    };
    let q: u128 = ua / ub;
    proof {
        lemma_div_pos_is_pos(ua as int, ub as int);
        lemma_div_nonincreasing(ua as int, ub as int);
    }
    if (a >= 0) == (b >= 0) {
        q as i128
    } else {
        -(q as i128)
    }
}

/// Fixed-point product, exact per `fx_mul`.
pub fn mul_fx(a: i64, b: i64) -> (r: i64)
    requires
        i64::MIN <= fx_mul(a as int, b as int) <= i64::MAX,
    ensures
        r == fx_mul(a as int, b as int),
{
    proof {
        lemma_abs_mul_le(a as int, b as int, 0x8000_0000_0000_0000, 0x8000_0000_0000_0000);
        lemma_div_tz_le(a * b, SCALE as int);
    }
    let wide: i128 = (a as i128) * (b as i128);
    let q: i128 = div_trunc_i128(wide, SCALE as i128);
    q as i64
}

/// Fixed-point quotient, exact per `fx_div`.
pub fn div_fx(a: i64, b: i64) -> (r: i64)
    requires
        b != 0,
        i64::MIN <= fx_div(a as int, b as int) <= i64::MAX,
    ensures
        r == fx_div(a as int, b as int),
{
    let wide: i128 = (a as i128) * (SCALE as i128);
    let q: i128 = div_trunc_i128(wide, b as i128);
    q as i64
}

/// Truncating division by a positive divisor is monotone in the
/// dividend.
pub proof fn lemma_div_tz_mono(x: int, y: int, d: int)
    requires
        x <= y,
        d >= 1,
    ensures
        div_tz(x, d) <= div_tz(y, d),
{
    if x >= 0 {
        lemma_div_is_ordered(x, y, d);
    } else if y >= 0 {
        lemma_div_pos_is_pos(-x, d);
        lemma_div_pos_is_pos(y, d);
    } else {
        lemma_div_is_ordered(-y, -x, d);
    }
}

/// Every natural number has a floor square root.
pub proof fn lemma_isqrt_exists(n: nat)
    ensures
        exists|r: nat| #[trigger] (r * r) <= n && n < (r + 1) * (r + 1),
    decreases n,
{
    if n == 0 {
        let z: nat = 0;
        assert((z * z) <= n && n < (z + 1) * (z + 1)) by (nonlinear_arith)
            requires
                n == 0nat && z == 0nat,
        {}
    } else {
        lemma_isqrt_exists((n - 1) as nat);
        let r = choose|r: nat| #[trigger] (r * r) <= n - 1 && n - 1 < (r + 1) * (r + 1);
        if (r + 1) * (r + 1) <= n {
            assert(((r + 1) * (r + 1)) <= n && n < (r + 1 + 1) * (r + 1 + 1)) by (nonlinear_arith)
                requires
                    n - 1 < (r + 1) * (r + 1) <= n,
            {}
        } else {
            assert((r * r) <= n && n < (r + 1) * (r + 1));
        }
    }
}

/// The floor of the square root.
pub open spec fn isqrt_spec(n: nat) -> nat {
    choose|r: nat| #[trigger] (r * r) <= n && n < (r + 1) * (r + 1)
}

/// The floor square root is unique, so anything satisfying its bounds is it.
pub proof fn lemma_isqrt_unique(n: nat, r: nat)
    requires
        r * r <= n,
        n < (r + 1) * (r + 1),
    ensures
        r == isqrt_spec(n),
{
    assert((r * r) <= n && n < (r + 1) * (r + 1));
    let s = isqrt_spec(n);
    assert((s * s) <= n && n < (s + 1) * (s + 1));
    assert(r == s) by (nonlinear_arith)
        requires
            r * r <= n < (r + 1) * (r + 1),
            s * s <= n < (s + 1) * (s + 1),
    {}
}

/// Floor square root by bisection.
pub fn isqrt_u128(n: u128) -> (r: u128)
    requires
        n < 0x4000_0000_0000_0000_0000_0000_0000_0000,
    ensures
        r == isqrt_spec(n as nat),
        r * r <= n,
        n < (r + 1) * (r + 1),
        r < 0x8000_0000_0000_0000,
{
    let mut lo: u128 = 0;
    let mut hi: u128 = 0x8000_0000_0000_0000;
    proof {
        assert((hi as int) * (hi as int) > n);
    }
    while lo + 1 < hi
        invariant
            lo < hi <= 0x8000_0000_0000_0000,
            (lo as int) * (lo as int) <= n,
            n < (hi as int) * (hi as int),
        decreases hi - lo,
    {
        let mid: u128 = lo + (hi - lo) / 2;
        proof {
            lemma_abs_mul_le(mid as int, mid as int, 0x8000_0000_0000_0000, 0x8000_0000_0000_0000);
        }
        let sq: u128 = mid * mid;
        if sq <= n {
            lo = mid;
        } else {
            hi = mid;
        }
    }
    proof {
        lemma_isqrt_unique(n as nat, lo as nat);
    }
    lo
}

/// Floor square root of a nonnegative wide value already carrying two
/// scale factors, as a discriminant does; the result carries one.
pub fn sqrt_wide(a: i128) -> (r: i64)
    requires
        0 <= a < 0x4000_0000_0000_0000_0000_0000_0000_0000,
    ensures
        r == isqrt_spec(a as nat),
        r >= 0,
        (r as int) * (r as int) <= a,
        a < (r + 1) * (r + 1),
{
    let u: u128 = isqrt_u128(a as u128);
    proof {
        assert(u * u <= a as u128);
        assert(u < 0x8000_0000_0000_0000u128);
    }
    u as i64
}

/// Square root of a fixed-point value: the exact floor square root of the
/// value with one extra scale factor attached.
pub fn sqrt_fx(a: i64) -> (r: i64)
    requires
        a >= 0,
    ensures
        r == isqrt_spec((a * SCALE) as nat),
        r >= 0,
{
    proof {
        assert(SCALE == 65536);
        assert((a as int) * 65536 >= 0 && (a as int) * 65536
            < 0x4000_0000_0000_0000_0000_0000_0000_0000) by (nonlinear_arith)
            requires
                0 <= a <= 0x7fff_ffff_ffff_ffff,
        {}
    }
    let wide: i128 = (a as i128) * (SCALE as i128);
    sqrt_wide(wide)
}

} // verus!
