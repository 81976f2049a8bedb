//! Two-dimensional vectors with fixed-point components.

use vstd::prelude::*;
use crate::fixed::{ONE, abs_value, is_sqrt_floor, isqrt, lemma_sqrt_floor_ordered,
    lemma_trunc_div_scaled, magnitude, mul_div, sqrt_floor, trunc_div};

verus! {

/// A position, a velocity or a pair of extents.
#[derive(Clone, Copy, Debug, PartialEq, Eq, Structural)]
pub struct Vec2 {
    pub x: i64,
    pub y: i64,
}

impl View for Vec2 {
    type V = (int, int);

    open spec fn view(&self) -> (int, int) {
        (self.x as int, self.y as int)
    }
}

/// The vector whose components are those of the pair `p`.
pub open spec fn vec_of(p: (int, int)) -> Vec2 {
    Vec2 { x: p.0 as i64, y: p.1 as i64 }
}

/// Squared Euclidean length.
pub open spec fn len_sq(v: (int, int)) -> int {
    v.0 * v.0 + v.1 * v.1
}

/// Euclidean length, rounded down to a whole number of raw units.
pub open spec fn length_of(v: (int, int)) -> int {
    sqrt_floor(len_sq(v))
}

/// The vector of length [`ONE`] that points the way `v` does, each component
/// rounded towards zero; the zero vector where `v` is shorter than one raw
/// unit.
pub open spec fn unit_of(v: (int, int)) -> (int, int) {
    let len = length_of(v);
    if len == 0 {
        (0, 0)
    } else {
        (trunc_div(v.0 * ONE, len), trunc_div(v.1 * ONE, len))
    }
}

/// The fixed-point product of `v` and the scalar `k`.
pub open spec fn scaled(v: (int, int), k: int) -> (int, int) {
    (trunc_div(v.0 * k, ONE as int), trunc_div(v.1 * k, ONE as int))
}

/// Component-wise sum.
pub open spec fn sum_of(a: (int, int), b: (int, int)) -> (int, int) {
    (a.0 + b.0, a.1 + b.1)
}

/// Whether both components of `v` are at most `bound` in absolute value.
pub open spec fn within(v: (int, int), bound: int) -> bool {
    magnitude(v.0) <= bound && magnitude(v.1) <= bound
}

/// Neither component of a vector is longer than the vector.
pub proof fn lemma_length_dominates(v: (int, int), len: int)
    requires
        is_sqrt_floor(len_sq(v), len),
    ensures
        within(v, len),
        len == 0 <==> v == (0int, 0int),
{
    let ax = magnitude(v.0);
    let ay = magnitude(v.1);
    assert(ax * ax == v.0 * v.0) by (nonlinear_arith)
        requires
            ax == magnitude(v.0),
    ;
    assert(ay * ay == v.1 * v.1) by (nonlinear_arith)
        requires
            ay == magnitude(v.1),
    ;
    assert(is_sqrt_floor(ax * ax, ax)) by (nonlinear_arith)
        requires
            ax >= 0,
    ;
    assert(is_sqrt_floor(ay * ay, ay)) by (nonlinear_arith)
        requires
            ay >= 0,
    ;
    lemma_sqrt_floor_ordered(ax * ax, len_sq(v), ax, len);
    lemma_sqrt_floor_ordered(ay * ay, len_sq(v), ay, len);
    if v == (0int, 0int) {
        assert(len == 0) by (nonlinear_arith)
            requires
                0 <= len,
                len * len <= 0,
        ;
    }
    if len == 0 {
        assert((len + 1) * (len + 1) == 1) by (nonlinear_arith)
            requires
                len == 0,
        ;
        assert(v.0 == 0 && v.1 == 0) by (nonlinear_arith)
            requires
                v.0 * v.0 + v.1 * v.1 < 1,
        ;
    }
}

/// A unit vector has no component beyond [`ONE`].
pub proof fn lemma_unit_within_one(v: (int, int))
    requires
        is_sqrt_floor(len_sq(v), length_of(v)),
    ensures
        within(unit_of(v), ONE as int),
{
    let len = length_of(v);
    lemma_length_dominates(v, len);
    if len != 0 {
        lemma_trunc_div_scaled(v.0, ONE as int, len);
        lemma_trunc_div_scaled(v.1, ONE as int, len);
    }
}

impl Vec2 {
    /// The vector with the given components.
    pub fn new(x: i64, y: i64) -> (v: Vec2)
        ensures
            v@ == (x as int, y as int),
    {
        Vec2 { x, y }
    }

    /// The vector with both components zero.
    pub fn zero() -> (v: Vec2)
        ensures
            v@ == (0int, 0int),
    {
        Vec2 { x: 0, y: 0 }
    }

    /// The two components, `x` first.
    pub fn to_array(&self) -> (a: [i64; 2])
        ensures
            a@ == seq![self.x, self.y],
    {
        [self.x, self.y]
    }

    /// Squared Euclidean length.
    pub fn length_squared(&self) -> (r: u128)
        ensures
            r == len_sq(self@),
    {
        let x = abs_value(self.x as i128);
        let y = abs_value(self.y as i128);
        assert(x * x == self.x * self.x && x * x <= 0x4000_0000_0000_0000_0000_0000_0000_0000)
            by (nonlinear_arith)
            requires
                x == magnitude(self.x as int),
                x <= 0x8000_0000_0000_0000,
        ;
        assert(y * y == self.y * self.y && y * y <= 0x4000_0000_0000_0000_0000_0000_0000_0000)
            by (nonlinear_arith)
            requires
                y == magnitude(self.y as int),
                y <= 0x8000_0000_0000_0000,
        ;
        x * x + y * y
    }

    /// Euclidean length, rounded down to a whole number of raw units.
    pub fn length(&self) -> (r: u64)
        ensures
            r == length_of(self@),
            is_sqrt_floor(len_sq(self@), r as int),
    {
        isqrt(self.length_squared())
    }

    /// The vector of length [`ONE`] that points the way `self` does, or the
    /// zero vector where `self` is zero.
    pub fn normalize_or_zero(&self) -> (r: Vec2)
        ensures
            r@ == unit_of(self@),
            within(r@, ONE as int),
    {
        let len = self.length();
        if len == 0 {
            Vec2 { x: 0, y: 0 }
        } else {
            proof {
                lemma_unit_within_one(self@);
            }
            let x = mul_div(self.x as i128, ONE as i128, len as i128);
            let y = mul_div(self.y as i128, ONE as i128, len as i128);
            Vec2 { x: x as i64, y: y as i64 }
        }
    }

    /// The fixed-point product of `self` and the scalar `k`.
    pub fn scale(&self, k: i64) -> (r: Vec2)
        requires
            within(scaled(self@, k as int), i64::MAX as int),
        ensures
            r@ == scaled(self@, k as int),
    {
        let x = mul_div(self.x as i128, k as i128, ONE as i128);
        let y = mul_div(self.y as i128, k as i128, ONE as i128);
        Vec2 { x: x as i64, y: y as i64 }
    }
}

} // verus!
