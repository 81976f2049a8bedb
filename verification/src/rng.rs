//! The random source, and the calls that draw from it.
//!
//! Nothing in this file is proved: the contracts below are taken on trust
//! from the `rand` crate.

use vstd::prelude::*;
use rand::Rng;
use rand::rngs::ThreadRng;
use rand::seq::SliceRandom;
use crate::affinity::ParticleKind;

verus! {

/// `rand::rngs::ThreadRng`, the generator that every draw of the library
/// comes from. Its state is not modelled.
#[verifier::external_type_specification]
#[verifier::external_body]
pub struct ExThreadRng(rand::rngs::ThreadRng);

/// Calls `Rng::gen::<u16>`, which hands out sixteen uniformly random bits.
/// Nothing is claimed of the value beyond its type.
#[verifier::external_body]
pub(crate) fn draw_fraction(rng: &mut ThreadRng) -> (bits: u16) {
    rng.gen::<u16>()
}

/// Calls `SliceRandom::choose` on the five kinds. For a slice that is not
/// empty that function returns one of the slice's elements, and so `Some`;
/// which element is not claimed.
#[verifier::external_body]
pub(crate) fn choose_kind(rng: &mut ThreadRng, kinds: &[ParticleKind; 5]) -> (picked: Option<ParticleKind>)
    ensures
        picked.is_some(),
        kinds@.contains(picked.unwrap()),
{
    kinds.choose(rng).copied()
}

} // verus!
