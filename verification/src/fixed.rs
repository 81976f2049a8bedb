//! Fixed-point scalars.
//!
//! Every length, time, force and coefficient of the simulation is an `i64`
//! that counts raw units, of which [`ONE`] make a whole unit. Products are
//! divided back by [`ONE`]; every division rounds towards zero, so that
//! negating an operand negates the result.

use vstd::prelude::*;
use vstd::arithmetic::div_mod::*;
use vstd::arithmetic::mul::*;

verus! {

/// Number of raw units in one whole unit.
pub const ONE: i64 = 65536;

/// Absolute value.
pub open spec fn magnitude(x: int) -> int {
    if x < 0 { -x } else { x }
}

/// Quotient of `n` by `d`, rounded towards zero.
pub open spec fn trunc_div(n: int, d: int) -> int
    recommends
        d != 0,
{
    if d > 0 {
        if n >= 0 { n / d } else { -((-n) / d) }
    } else {
        if n >= 0 { -(n / (-d)) } else { (-n) / (-d) }
    }
}

/// Whether `r` is the integer part of the square root of `n`.
pub open spec fn is_sqrt_floor(n: int, r: int) -> bool {
    0 <= r && r * r <= n < (r + 1) * (r + 1)
}

/// Integer part of the square root of `n`.
pub open spec fn sqrt_floor(n: int) -> int
    recommends
        n >= 0,
{
    choose|r: int| is_sqrt_floor(n, r)
}

/// The absolute value of a product is the product of the absolute values.
pub proof fn lemma_magnitude_mul(x: int, y: int)
    ensures
        magnitude(x * y) == magnitude(x) * magnitude(y),
{
    assert(magnitude(x * y) == magnitude(x) * magnitude(y)) by (nonlinear_arith);
}

/// A truncated quotient, times the divisor, stays within one divisor of the
/// dividend and never passes it.
pub proof fn lemma_trunc_div_bounds(n: int, d: int)
    requires
        d != 0,
    ensures
        magnitude(trunc_div(n, d)) == magnitude(n) / magnitude(d),
        magnitude(trunc_div(n, d)) * magnitude(d) <= magnitude(n),
        magnitude(n) < (magnitude(trunc_div(n, d)) + 1) * magnitude(d),
        magnitude(trunc_div(n, d)) <= magnitude(n),
        n == 0 ==> trunc_div(n, d) == 0,
        trunc_div(-n, d) == -trunc_div(n, d),
{
    let an = magnitude(n);
    let ad = magnitude(d);
    let q = an / ad;
    lemma_fundamental_div_mod(an, ad);
    assert((q + 1) * ad == q * ad + ad) by (nonlinear_arith);
    assert(q <= an) by (nonlinear_arith)
        requires
            q * ad <= an,
            ad >= 1,
            q >= 0,
    ;
}

/// Multiplying by `y` and then dividing by `z` does not take `x` further from
/// zero than `y` is, as long as `x` is no further from zero than `z`.
pub proof fn lemma_trunc_div_scaled(x: int, y: int, z: int)
    requires
        z != 0,
        magnitude(x) <= magnitude(z),
    ensures
        magnitude(trunc_div(x * y, z)) <= magnitude(y),
{
    let ax = magnitude(x);
    let ay = magnitude(y);
    let az = magnitude(z);
    lemma_magnitude_mul(x, y);
    lemma_mul_inequality(ax, az, ay);
    lemma_div_is_ordered(ax * ay, ay * az, az);
    lemma_div_multiples_vanish(ay, az);
}

/// Dividing an exact multiple of the divisor gives the other factor back.
pub proof fn lemma_trunc_div_exact(q: int, d: int)
    requires
        d != 0,
    ensures
        trunc_div(q * d, d) == q,
{
    let aq = magnitude(q);
    let ad = magnitude(d);
    lemma_magnitude_mul(q, d);
    lemma_div_multiples_vanish(aq, ad);
    if q != 0 {
        assert(((q * d) < 0) == ((q < 0) != (d < 0))) by (nonlinear_arith)
            requires
                q != 0,
                d != 0,
        ;
    } else {
        assert(q * d == 0) by (nonlinear_arith)
            requires
                q == 0,
        ;
    }
}

/// Every natural number has an integer square root.
pub proof fn lemma_sqrt_floor_exists(n: int)
    requires
        n >= 0,
    ensures
        is_sqrt_floor(n, sqrt_floor(n)),
    decreases n,
{
    if n == 0 {
        assert(is_sqrt_floor(0, 0)) by (nonlinear_arith);
    } else {
        lemma_sqrt_floor_exists(n - 1);
        let r = sqrt_floor(n - 1);
        if (r + 1) * (r + 1) <= n {
            assert(is_sqrt_floor(n, r + 1)) by (nonlinear_arith)
                requires
                    0 <= r,
                    (r + 1) * (r + 1) <= n,
                    n - 1 < (r + 1) * (r + 1),
            ;
        } else {
            assert(is_sqrt_floor(n, r));
        }
    }
}

/// The integer part of a square root is unique.
pub proof fn lemma_sqrt_floor_unique(n: int, r: int)
    requires
        is_sqrt_floor(n, r),
    ensures
        sqrt_floor(n) == r,
{
    let s = sqrt_floor(n);
    if s < r {
        assert((s + 1) * (s + 1) <= r * r) by (nonlinear_arith)
            requires
                0 <= s < r,
        ;
    }
    if r < s {
        assert((r + 1) * (r + 1) <= s * s) by (nonlinear_arith)
            requires
                0 <= r < s,
        ;
    }
}

/// The integer part of a square root grows with its argument.
pub proof fn lemma_sqrt_floor_ordered(m: int, n: int, r: int, s: int)
    requires
        m <= n,
        is_sqrt_floor(m, r),
        is_sqrt_floor(n, s),
    ensures
        r <= s,
{
    if s < r {
        assert((s + 1) * (s + 1) <= r * r) by (nonlinear_arith)
            requires
                0 <= s < r,
        ;
    }
}

/// Absolute value of `x`.
pub fn abs_value(x: i128) -> (m: u128)
    ensures
        m == magnitude(x as int),
{
    if x < 0 {
        if x == i128::MIN {
            0x8000_0000_0000_0000_0000_0000_0000_0000u128
        } else {
            (-x) as u128
        }
    } else {
        x as u128
    }
}

/// The product of `x` and `y` divided by `z`, rounded towards zero.
///
/// The three operands are at most `u64::MAX` in absolute value, so that the
/// product of two of them fits the intermediate type.
pub fn mul_div(x: i128, y: i128, z: i128) -> (q: i128)
    requires
        magnitude(x as int) <= u64::MAX,
        magnitude(y as int) <= u64::MAX,
        0 < magnitude(z as int) <= u64::MAX,
        magnitude(trunc_div(x * y, z as int)) <= i128::MAX,
    ensures
        q == trunc_div(x * y, z as int),
{
    let ax = abs_value(x);
    let ay = abs_value(y);
    let az = abs_value(z);
    proof {
        lemma_magnitude_mul(x as int, y as int);
        assert(ax * ay <= u128::MAX) by (nonlinear_arith)
            requires
                ax <= u64::MAX,
                ay <= u64::MAX,
        ;
    }
    let m = (ax * ay) / az;
    let negative = ((x < 0) != (y < 0)) != (z < 0);
    proof {
        if x != 0 && y != 0 {
            assert((x * y < 0) == ((x < 0) != (y < 0))) by (nonlinear_arith)
                requires
                    x != 0,
                    y != 0,
            ;
        } else {
            assert(x * y == 0) by (nonlinear_arith)
                requires
                    x == 0 || y == 0,
            ;
        }
    }
    if negative {
        -(m as i128)
    } else {
        m as i128
    }
}

/// Integer part of the square root of `n`.
pub fn isqrt(n: u128) -> (r: u64)
    ensures
        r == sqrt_floor(n as int),
        is_sqrt_floor(n as int, r as int),
{
    let mut low: u128 = 0;
    let mut high: u128 = 0x1_0000_0000_0000_0000;
    assert(0x1_0000_0000_0000_0000int * 0x1_0000_0000_0000_0000int > u128::MAX)
        by (nonlinear_arith);
    while high - low > 1
        invariant
            low < high <= 0x1_0000_0000_0000_0000,
            low * low <= n < high * high,
        decreases high - low,
    {
        let mid: u128 = low + (high - low) / 2;
        assert(mid * mid <= u128::MAX) by (nonlinear_arith)
            requires
                0 <= mid <= 0xffff_ffff_ffff_ffff,
        ;
        if mid * mid <= n {
            low = mid;
        } else {
            high = mid;
        }
    }
    proof {
        lemma_sqrt_floor_unique(n as int, low as int);
    }
    low as u64
}

} // verus!
