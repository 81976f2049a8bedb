//! Particle-life dynamics: typed point particles on a plane whose opposite
//! edges are joined, each ordered pair of kinds with its own signed affinity.
//!
//! All quantities are fixed-point integers (see [`fixed`]), so that every
//! step of the simulation is exact and can be stated over the integers:
//!
//! - [`helpers`] holds the affine remap and the arithmetic on the torus:
//!   wrapping, wrapped addition and the minimum-image difference;
//! - [`affinity`] holds the kinds and the table of their affinities;
//! - [`force`] holds the force law, a function of affinity and distance;
//! - [`particle`] holds a particle, the impulse a neighbour gives it, and its
//!   motion;
//! - [`sim`] holds the population and its sub-steps: every particle of a
//!   sub-step is advanced from the same snapshot of the population;
//! - [`rng`] holds the calls into the random source, which are not proved.

pub mod affinity;
pub mod fixed;
pub mod force;
pub mod helpers;
pub mod particle;
pub mod rng;
pub mod sim;
pub mod vec2;
