//! Affine remapping and arithmetic on a torus.

use vstd::prelude::*;
use vstd::arithmetic::div_mod::*;
use crate::fixed::{ONE, lemma_sqrt_floor_exists, lemma_trunc_div_bounds, lemma_trunc_div_exact,
    lemma_trunc_div_scaled, magnitude, mul_div, trunc_div};
use crate::rng::draw_fraction;
use crate::vec2::{Vec2, len_sq, length_of, vec_of};
use rand::rngs::ThreadRng;

verus! {

/// Largest extent, in raw units, that a wrap domain may have along one axis:
/// the difference of two points of the domain, shifted by one extent, still
/// fits a component.
pub const MAX_EXTENT: i64 = 0x2000_0000_0000_0000;

/// The point that lies as far along the way from `to_start` to `to_end` as
/// `value` lies along the way from `from_start` to `from_end`.
pub open spec fn remap_spec(
    value: int,
    from_start: int,
    from_end: int,
    to_start: int,
    to_end: int,
) -> int {
    trunc_div((value - from_start) * (to_end - to_start), from_end - from_start) + to_start
}

/// Whether `x` lies between `a` and `b`, both included, whichever is larger.
pub open spec fn between(a: int, x: int, b: int) -> bool {
    (a <= x <= b) || (b <= x <= a)
}

/// A remap sends the ends of the source interval to the ends of the target
/// interval exactly.
pub proof fn remap_hits_endpoints(from_start: int, from_end: int, to_start: int, to_end: int)
    requires
        from_start != from_end,
    ensures
        remap_spec(from_start, from_start, from_end, to_start, to_end) == to_start,
        remap_spec(from_end, from_start, from_end, to_start, to_end) == to_end,
{
    let width = from_end - from_start;
    lemma_trunc_div_exact(to_end - to_start, width);
    assert((from_end - from_start) * (to_end - to_start) == (to_end - to_start) * width)
        by (nonlinear_arith)
        requires
            width == from_end - from_start,
    ;
}

/// A remap is affine in `value` up to rounding: it differs from the exact
/// affine map by less than one raw unit, and towards `to_start`.
pub proof fn remap_is_affine(
    value: int,
    from_start: int,
    from_end: int,
    to_start: int,
    to_end: int,
)
    requires
        from_start != from_end,
    ensures
        ({
            let width = from_end - from_start;
            let exact = (value - from_start) * (to_end - to_start);
            let rise = remap_spec(value, from_start, from_end, to_start, to_end) - to_start;
            &&& magnitude(rise * width) <= magnitude(exact)
            &&& magnitude(exact - rise * width) < magnitude(width)
            &&& exact % width == 0 ==> rise * width == exact
        }),
{
    let width = from_end - from_start;
    let exact = (value - from_start) * (to_end - to_start);
    let rise = trunc_div(exact, width);
    lemma_trunc_div_bounds(exact, width);
    let q = magnitude(rise);
    let w = magnitude(width);
    assert((q + 1) * w == q * w + w) by (nonlinear_arith);
    assert(magnitude(rise * width) == q * w) by (nonlinear_arith)
        requires
            q == magnitude(rise),
            w == magnitude(width),
    ;
    if exact >= 0 {
        assert(rise * width >= 0) by (nonlinear_arith)
            requires
                (width > 0 ==> rise >= 0) && (width < 0 ==> rise <= 0),
        ;
    }
    if exact <= 0 {
        assert(rise * width <= 0) by (nonlinear_arith)
            requires
                (width > 0 ==> rise <= 0) && (width < 0 ==> rise >= 0),
        ;
    }
    if exact % width == 0 {
        lemma_fundamental_div_mod(exact, width);
        let k = exact / width;
        lemma_trunc_div_exact(k, width);
        assert(exact == k * width) by (nonlinear_arith)
            requires
                exact == width * k + 0,
        ;
    }
}

/// A value inside the source interval is remapped into the target interval.
pub proof fn remap_stays_between(
    value: int,
    from_start: int,
    from_end: int,
    to_start: int,
    to_end: int,
)
    requires
        from_start != from_end,
        between(from_start, value, from_end),
    ensures
        between(
            to_start,
            remap_spec(value, from_start, from_end, to_start, to_end),
            to_end,
        ),
{
    let width = from_end - from_start;
    let run = value - from_start;
    let height = to_end - to_start;
    lemma_trunc_div_scaled(run, height, width);
    assert(width > 0 && height >= 0 ==> run * height >= 0) by (nonlinear_arith)
        requires
            width > 0 ==> run >= 0,
    ;
    assert(width > 0 && height <= 0 ==> run * height <= 0) by (nonlinear_arith)
        requires
            width > 0 ==> run >= 0,
    ;
    assert(width < 0 && height >= 0 ==> run * height <= 0) by (nonlinear_arith)
        requires
            width < 0 ==> run <= 0,
    ;
    assert(width < 0 && height <= 0 ==> run * height >= 0) by (nonlinear_arith)
        requires
            width < 0 ==> run <= 0,
    ;
}

/// Maps `value` from the interval `from_start..from_end` onto the interval
/// `to_start..to_end`, rounding towards `to_start`.
pub fn remap(value: i64, from_start: i64, from_end: i64, to_start: i64, to_end: i64) -> (r: i64)
    requires
        from_start != from_end,
        i64::MIN <= remap_spec(
            value as int,
            from_start as int,
            from_end as int,
            to_start as int,
            to_end as int,
        ) <= i64::MAX,
    ensures
        r == remap_spec(
            value as int,
            from_start as int,
            from_end as int,
            to_start as int,
            to_end as int,
        ),
        value == from_start ==> r == to_start,
        value == from_end ==> r == to_end,
        between(from_start as int, value as int, from_end as int) ==> between(
            to_start as int,
            r as int,
            to_end as int,
        ),
{
    proof {
        remap_hits_endpoints(from_start as int, from_end as int, to_start as int, to_end as int);
        if between(from_start as int, value as int, from_end as int) {
            remap_stays_between(
                value as int,
                from_start as int,
                from_end as int,
                to_start as int,
                to_end as int,
            );
        }
    }
    let run = value as i128 - from_start as i128;
    let height = to_end as i128 - to_start as i128;
    let width = from_end as i128 - from_start as i128;
    let rise = mul_div(run, height, width);
    (rise + to_start as i128) as i64
}

/// A value inside the source interval and off its end is remapped off the
/// end of the target interval, unless the target interval is a single point.
pub proof fn remap_stops_short(
    value: int,
    from_start: int,
    from_end: int,
    to_start: int,
    to_end: int,
)
    requires
        from_start != from_end,
        between(from_start, value, from_end),
        value != from_end,
        to_start != to_end,
    ensures
        remap_spec(value, from_start, from_end, to_start, to_end) != to_end,
{
    let run = value - from_start;
    let height = to_end - to_start;
    let width = from_end - from_start;
    let rise = trunc_div(run * height, width);
    lemma_trunc_div_bounds(run * height, width);
    assert(magnitude(run * height) < magnitude(width) * magnitude(height)) by (nonlinear_arith)
        requires
            magnitude(run) < magnitude(width),
            height != 0,
    ;
    assert(magnitude(rise) < magnitude(height)) by (nonlinear_arith)
        requires
            magnitude(rise) * magnitude(width) <= magnitude(run * height),
            magnitude(run * height) < magnitude(width) * magnitude(height),
            magnitude(width) > 0,
    ;
}

/// Whether `r` is some fraction of the way from `from` to `to`: what a
/// fraction of at least zero and less than one is remapped to.
pub open spec fn is_draw(r: int, from: int, to: int) -> bool {
    exists|fraction: int| 0 <= fraction < ONE && r == remap_spec(fraction, 0, ONE as int, from, to)
}

/// A draw lies between its two ends, and off the second unless the two are
/// one.
pub proof fn lemma_draw_between(r: int, from: int, to: int)
    requires
        is_draw(r, from, to),
    ensures
        between(from, r, to),
        from != to ==> r != to,
{
    let fraction = choose|fraction: int|
        0 <= fraction < ONE && r == remap_spec(fraction, 0, ONE as int, from, to);
    remap_stays_between(fraction, 0, ONE as int, from, to);
    if from != to {
        remap_stops_short(fraction, 0, ONE as int, from, to);
    }
}

/// A value drawn from `rng` between `from` and `to`: a random fraction of the
/// way from the one to the other, `to` itself left out.
pub fn rand_map(rng: &mut ThreadRng, from: i64, to: i64) -> (r: i64)
    ensures
        is_draw(r as int, from as int, to as int),
        between(from as int, r as int, to as int),
        from != to ==> r != to,
{
    let fraction = draw_fraction(rng) as i64;
    proof {
        remap_stays_between(fraction as int, 0, ONE as int, from as int, to as int);
    }
    let r = remap(fraction, 0, ONE, from, to);
    proof {
        assert(0 <= fraction < ONE && r == remap_spec(
            fraction as int,
            0,
            ONE as int,
            from as int,
            to as int,
        ));
        lemma_draw_between(r as int, from as int, to as int);
    }
    r
}

/// The periodic image of `v` that lies in the domain `[0, w.0) x [0, w.1)`.
pub open spec fn wrap_point(v: (int, int), w: (int, int)) -> (int, int) {
    (v.0 % w.0, v.1 % w.1)
}

/// The `k`-th of the nine shifts by zero or one extent along each axis, in
/// the order in which the images of a point are tried.
pub open spec fn image_offset(w: (int, int), k: int) -> (int, int) {
    if k == 0 {
        (0, 0)
    } else if k == 1 {
        (w.0, 0)
    } else if k == 2 {
        (w.0, w.1)
    } else if k == 3 {
        (w.0, -w.1)
    } else if k == 4 {
        (0, w.1)
    } else if k == 5 {
        (0, -w.1)
    } else if k == 6 {
        (-w.0, 0)
    } else if k == 7 {
        (-w.0, w.1)
    } else {
        (-w.0, -w.1)
    }
}

/// The vector to the wrapped `a` from the `k`-th image of the wrapped `b`.
pub open spec fn separation(a: (int, int), b: (int, int), w: (int, int), k: int) -> (int, int) {
    let p = wrap_point(a, w);
    let q = wrap_point(b, w);
    let shift = image_offset(w, k);
    (p.0 - (q.0 + shift.0), p.1 - (q.1 + shift.1))
}

/// Index of the shortest of the separations `0..=k`; of the first of them
/// where several are equally short.
pub open spec fn nearest_image(a: (int, int), b: (int, int), w: (int, int), k: nat) -> nat
    decreases k,
{
    if k == 0 {
        0
    } else {
        let best = nearest_image(a, b, w, (k - 1) as nat);
        if len_sq(separation(a, b, w, k as int)) < len_sq(separation(a, b, w, best as int)) {
            k
        } else {
            best
        }
    }
}

/// The minimum-image vector to `a` from `b`: the shortest of the nine
/// separations, the first of them in the order of [`image_offset`] where
/// several are equally short.
pub open spec fn min_image(a: (int, int), b: (int, int), w: (int, int)) -> (int, int) {
    separation(a, b, w, nearest_image(a, b, w, 8) as int)
}

/// Whether `w` holds the extents of a wrap domain.
pub open spec fn domain_ok(w: (int, int)) -> bool {
    0 < w.0 <= MAX_EXTENT && 0 < w.1 <= MAX_EXTENT
}

/// Wrapping brings every point into the domain, and leaves a point of the
/// domain where it is.
pub proof fn wrap_is_idempotent(v: (int, int), w: (int, int))
    requires
        w.0 > 0,
        w.1 > 0,
    ensures
        wrap_point(wrap_point(v, w), w) == wrap_point(v, w),
        0 <= wrap_point(v, w).0 < w.0,
        0 <= wrap_point(v, w).1 < w.1,
{
    lemma_mod_twice(v.0, w.0);
    lemma_mod_twice(v.1, w.1);
}

/// Each separation is shorter than two extents along each axis.
pub proof fn lemma_separation_bounded(a: (int, int), b: (int, int), w: (int, int), k: int)
    requires
        domain_ok(w),
    ensures
        -2 * w.0 < separation(a, b, w, k).0 < 2 * w.0,
        -2 * w.1 < separation(a, b, w, k).1 < 2 * w.1,
        0 <= len_sq(separation(a, b, w, k)) < 0x2000_0000_0000_0000_0000_0000_0000_0000,
        length_of(separation(a, b, w, k)) < 0x8000_0000_0000_0000,
{
    let d = separation(a, b, w, k);
    assert(0 <= d.0 * d.0 < 0x1000_0000_0000_0000_0000_0000_0000_0000) by (nonlinear_arith)
        requires
            -0x4000_0000_0000_0000 < d.0 < 0x4000_0000_0000_0000,
    ;
    assert(0 <= d.1 * d.1 < 0x1000_0000_0000_0000_0000_0000_0000_0000) by (nonlinear_arith)
        requires
            -0x4000_0000_0000_0000 < d.1 < 0x4000_0000_0000_0000,
    ;
    lemma_sqrt_floor_exists(len_sq(d));
    let len = length_of(d);
    assert(len < 0x8000_0000_0000_0000) by (nonlinear_arith)
        requires
            0 <= len,
            len * len < 0x2000_0000_0000_0000_0000_0000_0000_0000,
    ;
}

/// Among the separations `0..=k`, the one that [`nearest_image`] picks is the
/// first of the shortest.
pub proof fn lemma_nearest_image(a: (int, int), b: (int, int), w: (int, int), k: nat)
    ensures
        nearest_image(a, b, w, k) <= k,
        forall|j: int|
            0 <= j <= k ==> len_sq(separation(a, b, w, nearest_image(a, b, w, k) as int)) <= len_sq(
                #[trigger] separation(a, b, w, j),
            ),
        forall|j: int|
            0 <= j < nearest_image(a, b, w, k) ==> len_sq(
                separation(a, b, w, nearest_image(a, b, w, k) as int),
            ) < len_sq(#[trigger] separation(a, b, w, j)),
    decreases k,
{
    if k > 0 {
        lemma_nearest_image(a, b, w, (k - 1) as nat);
    }
}

/// The minimum-image vector is one of the nine separations, no longer than
/// any of them, and shorter than each one that is tried before it.
pub proof fn min_image_is_first_shortest(a: (int, int), b: (int, int), w: (int, int))
    ensures
        0 <= nearest_image(a, b, w, 8) <= 8,
        min_image(a, b, w) == separation(a, b, w, nearest_image(a, b, w, 8) as int),
        forall|j: int|
            0 <= j <= 8 ==> len_sq(min_image(a, b, w)) <= len_sq(
                #[trigger] separation(a, b, w, j),
            ),
        forall|j: int|
            0 <= j < nearest_image(a, b, w, 8) ==> len_sq(min_image(a, b, w)) < len_sq(
                #[trigger] separation(a, b, w, j),
            ),
{
    lemma_nearest_image(a, b, w, 8);
}

/// Along one axis: of the three images of a gap `p` that lies within one
/// extent of zero, one that is no longer than the other two lies within half
/// an extent of zero.
proof fn lemma_axis_centered(p: int, w: int, d: int)
    requires
        w > 0,
        -w < p < w,
        d == p || d == p - w || d == p + w,
        d * d <= p * p,
        d * d <= (p - w) * (p - w),
        d * d <= (p + w) * (p + w),
    ensures
        -w <= 2 * d <= w,
{
    assert((p - w) * (p - w) == p * p - 2 * (p * w) + w * w) by (nonlinear_arith);
    assert((p + w) * (p + w) == p * p + 2 * (p * w) + w * w) by (nonlinear_arith);
    assert(2 * (p * w) <= w * w ==> 2 * p <= w) by (nonlinear_arith)
        requires
            w > 0,
    ;
    assert(-(w * w) <= 2 * (p * w) ==> -w <= 2 * p) by (nonlinear_arith)
        requires
            w > 0,
    ;
    assert(w * w <= 2 * (p * w) ==> w <= 2 * p) by (nonlinear_arith)
        requires
            w > 0,
    ;
    assert(2 * (p * w) <= -(w * w) ==> 2 * p <= -w) by (nonlinear_arith)
        requires
            w > 0,
    ;
}

/// Along one axis: a gap within half an extent of zero is no longer than any
/// of its periodic images.
proof fn lemma_axis_nearest(d: int, w: int, j: int)
    requires
        w > 0,
        -w <= 2 * d <= w,
    ensures
        d * d <= (d + j * w) * (d + j * w),
{
    assert(d * d <= (d + j * w) * (d + j * w)) by (nonlinear_arith)
        requires
            w > 0,
            -w <= 2 * d <= w,
    {
        assert((d + j * w) * (d + j * w) == d * d + (j * w) * (2 * d + j * w));
        if j >= 1 {
            assert(j * w >= w);
        } else if j <= -1 {
            assert(j * w <= -w);
        } else {
            assert(j * w == 0);
        }
    }
}

/// The minimum-image vector lies within half an extent of zero along each
/// axis, and differs from the plain difference by whole extents.
pub proof fn min_image_is_centered(a: (int, int), b: (int, int), w: (int, int))
    requires
        w.0 > 0,
        w.1 > 0,
    ensures
        -w.0 <= 2 * min_image(a, b, w).0 <= w.0,
        -w.1 <= 2 * min_image(a, b, w).1 <= w.1,
        (min_image(a, b, w).0 - (a.0 - b.0)) % w.0 == 0,
        (min_image(a, b, w).1 - (a.1 - b.1)) % w.1 == 0,
{
    min_image_is_first_shortest(a, b, w);
    let best = nearest_image(a, b, w, 8) as int;
    let d = min_image(a, b, w);
    let p = wrap_point(a, w);
    let q = wrap_point(b, w);
    let shift = image_offset(w, best);
    // The two images that share the shift along the other axis.
    let same_y = if shift.1 == 0 {
        (0int, 1int, 6int)
    } else if shift.1 == w.1 {
        (4int, 2int, 7int)
    } else {
        (5int, 3int, 8int)
    };
    let same_x = if shift.0 == 0 {
        (0int, 4int, 5int)
    } else if shift.0 == w.0 {
        (1int, 2int, 3int)
    } else {
        (6int, 7int, 8int)
    };
    assert(separation(a, b, w, same_y.0) == (p.0 - q.0, d.1));
    assert(separation(a, b, w, same_y.1) == (p.0 - q.0 - w.0, d.1));
    assert(separation(a, b, w, same_y.2) == (p.0 - q.0 + w.0, d.1));
    assert(separation(a, b, w, same_x.0) == (d.0, p.1 - q.1));
    assert(separation(a, b, w, same_x.1) == (d.0, p.1 - q.1 - w.1));
    assert(separation(a, b, w, same_x.2) == (d.0, p.1 - q.1 + w.1));
    lemma_axis_centered(p.0 - q.0, w.0, d.0);
    lemma_axis_centered(p.1 - q.1, w.1, d.1);
    lemma_fundamental_div_mod(a.0, w.0);
    lemma_fundamental_div_mod(b.0, w.0);
    lemma_fundamental_div_mod(a.1, w.1);
    lemma_fundamental_div_mod(b.1, w.1);
    let tx = b.0 / w.0 - a.0 / w.0 - (if shift.0 == 0 { 0int } else if shift.0 == w.0 { 1int } else { -1int });
    let ty = b.1 / w.1 - a.1 / w.1 - (if shift.1 == 0 { 0int } else if shift.1 == w.1 { 1int } else { -1int });
    assert(d.0 - (a.0 - b.0) == w.0 * tx) by (nonlinear_arith)
        requires
            d.0 == p.0 - q.0 - shift.0,
            a.0 == w.0 * (a.0 / w.0) + p.0,
            b.0 == w.0 * (b.0 / w.0) + q.0,
            tx == b.0 / w.0 - a.0 / w.0 - (if shift.0 == 0 { 0int } else if shift.0 == w.0 { 1int } else { -1int }),
            shift.0 == 0 || shift.0 == w.0 || shift.0 == -w.0,
            w.0 > 0,
    ;
    assert(d.1 - (a.1 - b.1) == w.1 * ty) by (nonlinear_arith)
        requires
            d.1 == p.1 - q.1 - shift.1,
            a.1 == w.1 * (a.1 / w.1) + p.1,
            b.1 == w.1 * (b.1 / w.1) + q.1,
            ty == b.1 / w.1 - a.1 / w.1 - (if shift.1 == 0 { 0int } else if shift.1 == w.1 { 1int } else { -1int }),
            shift.1 == 0 || shift.1 == w.1 || shift.1 == -w.1,
            w.1 > 0,
    ;
    lemma_mod_multiples_basic(tx, w.0);
    lemma_mod_multiples_basic(ty, w.1);
    vstd::arithmetic::mul::lemma_mul_is_commutative(w.0, tx);
    vstd::arithmetic::mul::lemma_mul_is_commutative(w.1, ty);
}

/// The minimum-image vector is no longer than the difference of any two
/// periodic images of the two points.
pub proof fn min_image_is_nearest(a: (int, int), b: (int, int), w: (int, int), m: int, n: int)
    requires
        w.0 > 0,
        w.1 > 0,
    ensures
        len_sq(min_image(a, b, w)) <= len_sq((a.0 - b.0 + m * w.0, a.1 - b.1 + n * w.1)),
{
    min_image_is_centered(a, b, w);
    let d = min_image(a, b, w);
    let gx = d.0 - (a.0 - b.0);
    let gy = d.1 - (a.1 - b.1);
    lemma_fundamental_div_mod(gx, w.0);
    lemma_fundamental_div_mod(gy, w.1);
    let jx = m - gx / w.0;
    let jy = n - gy / w.1;
    assert(a.0 - b.0 + m * w.0 == d.0 + jx * w.0) by (nonlinear_arith)
        requires
            gx == w.0 * (gx / w.0),
            gx == d.0 - (a.0 - b.0),
            jx == m - gx / w.0,
    ;
    assert(a.1 - b.1 + n * w.1 == d.1 + jy * w.1) by (nonlinear_arith)
        requires
            gy == w.1 * (gy / w.1),
            gy == d.1 - (a.1 - b.1),
            jy == n - gy / w.1,
    ;
    lemma_axis_nearest(d.0, w.0, jx);
    lemma_axis_nearest(d.1, w.1, jy);
}

/// Arithmetic on a torus whose extents are given by a value of the same type.
pub trait Wrapping: Sized {
    /// Whether `self` holds the extents of a wrap domain.
    spec fn is_domain(&self) -> bool;

    /// The periodic image of `self` that lies in the domain.
    spec fn wrapped_spec(self, wrap: Self) -> Self;

    /// The wrapped sum of `self` and `other`.
    spec fn wrap_add_spec(self, other: Self, wrap: Self) -> Self;

    /// The shortest vector to `self` from a periodic image of `other`.
    spec fn wrap_sub_spec(self, other: Self, wrap: Self) -> Self;

    /// Brings `self` into the domain.
    fn wrap(&mut self, wrap: &Self)
        requires
            wrap.is_domain(),
        ensures
            *final(self) == old(self).wrapped_spec(*wrap),
    ;

    /// `self`, brought into the domain.
    fn wrapped(self, wrap: &Self) -> (r: Self)
        requires
            wrap.is_domain(),
        ensures
            r == self.wrapped_spec(*wrap),
    {
        let mut moved = self;
        moved.wrap(wrap);
        moved
    }

    /// The sum of `self` and `other`, brought into the domain.
    fn wrap_add(&self, other: &Self, wrap: &Self) -> (r: Self)
        requires
            wrap.is_domain(),
        ensures
            r == self.wrap_add_spec(*other, *wrap),
    ;

    /// The shortest vector to `self` from a periodic image of `other`.
    fn wrap_sub(&self, other: &Self, wrap: &Self) -> (r: Self)
        requires
            wrap.is_domain(),
        ensures
            r == self.wrap_sub_spec(*other, *wrap),
    ;
}

/// `x` reduced into `[0, extent)`.
fn wrap_coord(x: i128, extent: i64) -> (r: i64)
    requires
        extent > 0,
    ensures
        r == (x as int) % (extent as int),
        0 <= r < extent,
{
    proof {
        lemma_mod_bound(x as int, extent as int);
    }
    x.checked_rem_euclid(extent as i128).unwrap() as i64
}

/// The `k`-th shift of [`image_offset`].
fn nth_offset(wrap: &Vec2, k: usize) -> (shift: Vec2)
    requires
        domain_ok(wrap@),
        k < 9,
    ensures
        shift@ == image_offset(wrap@, k as int),
{
    let x = if k == 0 || k == 4 || k == 5 {
        0
    } else if k <= 3 {
        wrap.x
    } else {
        -wrap.x
    };
    let y = if k == 0 || k == 1 || k == 6 {
        0
    } else if k == 2 || k == 4 || k == 7 {
        wrap.y
    } else {
        -wrap.y
    };
    Vec2 { x, y }
}

impl Wrapping for Vec2 {
    open spec fn is_domain(&self) -> bool {
        domain_ok(self@)
    }

    open spec fn wrapped_spec(self, wrap: Self) -> Self {
        vec_of(wrap_point(self@, wrap@))
    }

    open spec fn wrap_add_spec(self, other: Self, wrap: Self) -> Self {
        vec_of(wrap_point((self.x + other.x, self.y + other.y), wrap@))
    }

    open spec fn wrap_sub_spec(self, other: Self, wrap: Self) -> Self {
        vec_of(min_image(self@, other@, wrap@))
    }

    fn wrap(&mut self, wrap: &Self)
        ensures
            final(self)@ == wrap_point(old(self)@, wrap@),
            0 <= final(self).x < wrap.x,
            0 <= final(self).y < wrap.y,
    {
        self.x = wrap_coord(self.x as i128, wrap.x);
        self.y = wrap_coord(self.y as i128, wrap.y);
    }

    fn wrap_add(&self, other: &Self, wrap: &Self) -> (r: Self)
        ensures
            r@ == wrap_point((self.x + other.x, self.y + other.y), wrap@),
            0 <= r.x < wrap.x,
            0 <= r.y < wrap.y,
    {
        Vec2 {
            x: wrap_coord(self.x as i128 + other.x as i128, wrap.x),
            y: wrap_coord(self.y as i128 + other.y as i128, wrap.y),
        }
    }

    fn wrap_sub(&self, other: &Self, wrap: &Self) -> (r: Self)
        ensures
            r@ == min_image(self@, other@, wrap@),
            -wrap.x <= 2 * r.x <= wrap.x,
            -wrap.y <= 2 * r.y <= wrap.y,
            (r.x - (self.x - other.x)) % (wrap.x as int) == 0,
            (r.y - (self.y - other.y)) % (wrap.y as int) == 0,
    {
        proof {
            min_image_is_centered(self@, other@, wrap@);
        }
        let head = (*self).wrapped(wrap);
        let tail = (*other).wrapped(wrap);
        let mut best = Vec2 { x: head.x - tail.x, y: head.y - tail.y };
        let mut best_len = best.length_squared();
        let mut k: usize = 1;
        while k < 9
            invariant
                1 <= k <= 9,
                domain_ok(wrap@),
                head@ == wrap_point(self@, wrap@),
                tail@ == wrap_point(other@, wrap@),
                best@ == separation(
                    self@,
                    other@,
                    wrap@,
                    nearest_image(self@, other@, wrap@, (k - 1) as nat) as int,
                ),
                best_len == len_sq(best@),
            decreases 9 - k,
        {
            let shift = nth_offset(wrap, k);
            let image = Vec2 { x: head.x - (tail.x + shift.x), y: head.y - (tail.y + shift.y) };
            let image_len = image.length_squared();
            if image_len < best_len {
                best = image;
                best_len = image_len;
            }
            k += 1;
        }
        best
    }
}

} // verus!
