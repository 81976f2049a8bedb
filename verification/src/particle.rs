//! A particle, the pull of its neighbours on it, and its motion.

use vstd::prelude::*;
use crate::affinity::{AffinityTable, MAX_AFFINITY, ParticleKind};
use crate::fixed::{ONE, lemma_sqrt_floor_exists, lemma_trunc_div_scaled, magnitude, mul_div,
    trunc_div};
use crate::force::{REPULSION, REPULSION_RANGE, force_is_bounded, force_magnitude, force_spec};
use crate::helpers::{Wrapping, domain_ok, lemma_separation_bounded, min_image, wrap_point};
use crate::vec2::{Vec2, len_sq, length_of, lemma_unit_within_one, scaled, sum_of, unit_of,
    within};

verus! {

/// Longest time step, in raw units, that one sub-step may cover: a twentieth
/// of a whole unit.
pub const MAX_DT: i64 = 3277;

/// Factor by which every impulse is multiplied; it sets how briskly the
/// particles respond to the forces.
pub const RESPONSIVENESS: i64 = 10;

/// Largest absolute value of a component of one impulse.
pub const MAX_IMPULSE: i64 = 819250;

/// Largest absolute value of a velocity component onto which a further
/// impulse can be added.
pub const VELOCITY_LIMIT: i64 = 0x4000_0000_0000_0000;

/// A point particle.
#[derive(Debug, Clone, Copy, PartialEq, Eq, Structural)]
pub struct Particle {
    /// Where the particle is.
    pub pos: Vec2,
    /// The displacement gathered during the current sub-step; zero between
    /// sub-steps.
    pub vel: Vec2,
    /// The kind of the particle.
    pub kind: ParticleKind,
}

/// The displacement that a neighbour at `other_pos` adds, during a time step
/// `dt`, to the velocity of a particle at `own_pos`, where `coefficient` is
/// the affinity of the particle's kind for the neighbour's.
///
/// It points along the minimum-image vector from the particle to the
/// neighbour, towards the neighbour where the force at their distance is
/// positive.
pub open spec fn impulse(
    own_pos: (int, int),
    other_pos: (int, int),
    coefficient: int,
    dt: int,
    w: (int, int),
) -> (int, int) {
    let dir = min_image(other_pos, own_pos, w);
    let force = force_spec(coefficient, length_of(dir));
    scaled(unit_of(dir), push_of(force, dt))
}

/// The length of the displacement that `force` causes during a time step
/// `dt`: their fixed-point product, [`RESPONSIVENESS`] times over.
pub open spec fn push_of(force: int, dt: int) -> int {
    trunc_div(force * dt, ONE as int) * RESPONSIVENESS
}

/// No force of the force law pushes further than [`MAX_IMPULSE`] during one
/// time step.
pub proof fn lemma_push_bounded(force: int, dt: int)
    requires
        magnitude(force) <= -REPULSION,
        0 <= dt <= MAX_DT,
    ensures
        magnitude(push_of(force, dt)) <= MAX_IMPULSE,
        magnitude(trunc_div(force * dt, ONE as int)) * RESPONSIVENESS <= MAX_IMPULSE,
{
    assert(magnitude(force * dt) <= 1638400 * 3277) by (nonlinear_arith)
        requires
            magnitude(force) <= 1638400,
            0 <= dt <= 3277,
    ;
}

/// No impulse has a component beyond [`MAX_IMPULSE`].
pub proof fn lemma_impulse_bounded(
    own_pos: (int, int),
    other_pos: (int, int),
    coefficient: int,
    dt: int,
    w: (int, int),
)
    requires
        domain_ok(w),
        -MAX_AFFINITY <= coefficient <= MAX_AFFINITY,
        0 <= dt <= MAX_DT,
    ensures
        within(impulse(own_pos, other_pos, coefficient, dt, w), MAX_IMPULSE as int),
{
    let dir = min_image(other_pos, own_pos, w);
    let force = force_spec(coefficient, length_of(dir));
    let push = push_of(force, dt);
    lemma_separation_bounded(
        other_pos,
        own_pos,
        w,
        crate::helpers::nearest_image(other_pos, own_pos, w, 8) as int,
    );
    lemma_sqrt_floor_exists(len_sq(dir));
    lemma_unit_within_one(dir);
    force_is_bounded(coefficient, length_of(dir));
    lemma_push_bounded(force, dt);
    lemma_trunc_div_scaled(unit_of(dir).0, push, ONE as int);
    lemma_trunc_div_scaled(unit_of(dir).1, push, ONE as int);
}

/// Without affinity, a neighbour at or beyond [`REPULSION_RANGE`] adds
/// nothing.
pub proof fn lemma_no_affinity_no_impulse(
    own_pos: (int, int),
    other_pos: (int, int),
    dt: int,
    w: (int, int),
)
    requires
        length_of(min_image(other_pos, own_pos, w)) >= REPULSION_RANGE,
    ensures
        impulse(own_pos, other_pos, 0, dt, w) == (0int, 0int),
{
    let dir = min_image(other_pos, own_pos, w);
    let force = force_spec(0, length_of(dir));
    assert(force * dt == 0) by (nonlinear_arith)
        requires
            force == 0,
    ;
    let unit = unit_of(dir);
    assert(unit.0 * 0 == 0 && unit.1 * 0 == 0) by (nonlinear_arith);
}

impl Particle {
    /// A particle of the given kind at rest at `(x, y)`.
    pub fn new(x: i64, y: i64, kind: ParticleKind) -> (p: Particle)
        ensures
            p.pos@ == (x as int, y as int),
            p.vel@ == (0int, 0int),
            p.kind == kind,
    {
        Particle { pos: Vec2::new(x, y), vel: Vec2::zero(), kind }
    }

    /// Adds to the velocity of `self` the impulse that `other` gives it
    /// during a time step `dt`. The caller passes no particle as its own
    /// neighbour.
    pub fn accumulate_velocity(
        &mut self,
        other: &Particle,
        dt: i64,
        wrap: &Vec2,
        table: &AffinityTable,
    )
        requires
            wrap.is_domain(),
            table.wf(),
            0 <= dt <= MAX_DT,
            within(old(self).vel@, VELOCITY_LIMIT as int),
        ensures
            final(self).vel@ == sum_of(
                old(self).vel@,
                impulse(
                    old(self).pos@,
                    other.pos@,
                    table.coefficient(old(self).kind, other.kind),
                    dt as int,
                    wrap@,
                ),
            ),
            within(
                impulse(
                    old(self).pos@,
                    other.pos@,
                    table.coefficient(old(self).kind, other.kind),
                    dt as int,
                    wrap@,
                ),
                MAX_IMPULSE as int,
            ),
            final(self).pos == old(self).pos,
            final(self).kind == old(self).kind,
    {
        let coefficient = self.kind.attraction(&other.kind, table);
        proof {
            lemma_impulse_bounded(self.pos@, other.pos@, coefficient as int, dt as int, wrap@);
            lemma_separation_bounded(
                other.pos@,
                self.pos@,
                wrap@,
                crate::helpers::nearest_image(other.pos@, self.pos@, wrap@, 8) as int,
            );
        }
        let dir = other.pos.wrap_sub(&self.pos, wrap);
        let force = force_magnitude(coefficient, dir.length() as i64);
        let unit = dir.normalize_or_zero();
        proof {
            lemma_push_bounded(force as int, dt as int);
        }
        let push = (mul_div(force as i128, dt as i128, ONE as i128) as i64) * RESPONSIVENESS;
        let delta = unit.scale(push);
        self.vel = Vec2 { x: self.vel.x + delta.x, y: self.vel.y + delta.y };
    }

    /// Moves `self` by its velocity, wraps it into the domain, and brings it
    /// to rest.
    pub fn apply_velocity(&mut self, wrap: &Vec2)
        requires
            wrap.is_domain(),
        ensures
            final(self).pos@ == wrap_point(sum_of(old(self).pos@, old(self).vel@), wrap@),
            final(self).vel@ == (0int, 0int),
            final(self).kind == old(self).kind,
    {
        self.pos = self.pos.wrap_add(&self.vel, wrap);
        self.vel = Vec2::zero();
    }
}

} // verus!
