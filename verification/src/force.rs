//! The force that one particle exerts on another, by their distance.

use vstd::prelude::*;
use crate::fixed::magnitude;
use crate::helpers::{between, remap, remap_spec, remap_stays_between};

verus! {

/// Force between two particles that touch: twenty-five whole units, pushing
/// them apart.
pub const REPULSION: i64 = -1638400;

/// Distance below which two particles repel each other whatever their kinds:
/// twenty whole units.
pub const REPULSION_RANGE: i64 = 1310720;

/// Distance at which the affinity of two kinds acts in full: twenty-five
/// whole units.
pub const ATTRACTION_PEAK: i64 = 1638400;

/// Distance from which two particles no longer act on each other: sixty
/// whole units.
pub const ATTRACTION_RANGE: i64 = 3932160;

/// The force at `distance` between two particles of kinds whose affinity
/// coefficient is `attraction`; negative where it pushes them apart.
///
/// Four bands tile the distances: a ramp from [`REPULSION`] up to nothing,
/// a ramp from nothing to `attraction`, a ramp from `attraction` back to
/// nothing, and nothing from there on.
pub open spec fn force_spec(attraction: int, distance: int) -> int {
    if 0 <= distance < REPULSION_RANGE {
        remap_spec(distance, 0, REPULSION_RANGE as int, REPULSION as int, 0)
    } else if REPULSION_RANGE <= distance < ATTRACTION_PEAK {
        remap_spec(distance, REPULSION_RANGE as int, ATTRACTION_PEAK as int, 0, attraction)
    } else if ATTRACTION_PEAK <= distance < ATTRACTION_RANGE {
        remap_spec(distance, ATTRACTION_PEAK as int, ATTRACTION_RANGE as int, attraction, 0)
    } else {
        0
    }
}

/// At the edges of its bands the force takes the values that the ramps are
/// drawn between, whatever the affinity.
pub proof fn force_at_band_edges(attraction: int, distance: int)
    ensures
        force_spec(attraction, 0) == REPULSION,
        force_spec(attraction, REPULSION_RANGE as int) == 0,
        force_spec(attraction, ATTRACTION_PEAK as int) == attraction,
        force_spec(attraction, ATTRACTION_RANGE as int) == 0,
        distance >= ATTRACTION_RANGE ==> force_spec(attraction, distance) == 0,
        distance < 0 ==> force_spec(attraction, distance) == 0,
{
}

/// Below [`REPULSION_RANGE`] the force pushes apart and does not depend on
/// the affinity; from there on it lies between nothing and the affinity.
pub proof fn force_is_bounded(attraction: int, distance: int)
    ensures
        0 <= distance < REPULSION_RANGE ==> REPULSION <= force_spec(attraction, distance) < 0
            && force_spec(attraction, distance) == force_spec(0, distance),
        distance >= REPULSION_RANGE ==> between(0, force_spec(attraction, distance), attraction),
        magnitude(force_spec(attraction, distance)) <= magnitude(attraction)
            || magnitude(force_spec(attraction, distance)) <= -REPULSION,
{
    if REPULSION_RANGE <= distance < ATTRACTION_PEAK {
        remap_stays_between(
            distance,
            REPULSION_RANGE as int,
            ATTRACTION_PEAK as int,
            0,
            attraction,
        );
    } else if ATTRACTION_PEAK <= distance < ATTRACTION_RANGE {
        remap_stays_between(
            distance,
            ATTRACTION_PEAK as int,
            ATTRACTION_RANGE as int,
            attraction,
            0,
        );
    }
}

/// The force at `distance` between two particles of kinds whose affinity
/// coefficient is `attraction`.
pub fn force_magnitude(attraction: i64, distance: i64) -> (force: i64)
    ensures
        force == force_spec(attraction as int, distance as int),
        distance == 0 ==> force == REPULSION,
        distance == REPULSION_RANGE ==> force == 0,
        distance == ATTRACTION_PEAK ==> force == attraction,
        distance >= ATTRACTION_RANGE || distance < 0 ==> force == 0,
        0 <= distance < REPULSION_RANGE ==> REPULSION <= force < 0,
        distance >= REPULSION_RANGE ==> between(0, force as int, attraction as int),
{
    proof {
        force_is_bounded(attraction as int, distance as int);
    }
    if distance < 0 {
        0
    } else if distance < REPULSION_RANGE {
        remap(distance, 0, REPULSION_RANGE, REPULSION, 0)
    } else if distance < ATTRACTION_PEAK {
        remap(distance, REPULSION_RANGE, ATTRACTION_PEAK, 0, attraction)
    } else if distance < ATTRACTION_RANGE {
        remap(distance, ATTRACTION_PEAK, ATTRACTION_RANGE, attraction, 0)
    } else {
        0
    }
}

} // verus!
