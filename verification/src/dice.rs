//! The source of randomness of one generation run.
//!
//! The generator itself is the standard one of the `rand` crate. Nothing is
//! proved about the numbers it yields: what is stated here of its draws holds
//! whatever they turn out to be.

use vstd::prelude::*;
use rand::rngs::StdRng;
use rand::seq::SliceRandom;
use rand::{Rng, SeedableRng};
use crate::grid::HexPos;

verus! {

/// The generator of `rand`, carried through as an opaque value.
#[verifier::external_type_specification]
#[verifier::external_body]
pub struct ExStdRng(rand::rngs::StdRng);

/// `StdRng::seed_from_u64`: a fresh generator for the given seed. Nothing is
/// claimed of it.
#[verifier::external_body]
fn seed_from_u64(seed: u64) -> StdRng {
    StdRng::seed_from_u64(seed)
}

/// `Rng::random_ratio`: true with a chance of `numerator` in `denominator`.
/// The call panics on a zero denominator or a ratio above one, so both are
/// excluded. A ratio of one always gives true and a ratio of zero always
/// false; in between the outcome is open.
#[verifier::external_body]
fn random_ratio(rng: &mut StdRng, numerator: u32, denominator: u32) -> (hit: bool)
    requires
        0 < denominator,
        numerator <= denominator,
    ensures
        numerator == denominator ==> hit,
        numerator == 0 ==> !hit,
{
    rng.random_ratio(numerator, denominator)
}

/// `SliceRandom::shuffle`: reorders the positions in place by swapping pairs
/// of them, so the same positions are there afterwards, each as often as
/// before. Which order comes out is open.
#[verifier::external_body]
fn shuffle(rng: &mut StdRng, positions: &mut Vec<HexPos>)
    ensures
        final(positions)@.to_multiset() == old(positions)@.to_multiset(),
{
    positions.shuffle(rng)
}

/// The random generator of one run, seeded once.
pub struct Dice {
    rng: StdRng,
}

impl Dice {
    /// A generator for the given seed.
    pub fn new(seed: u64) -> Dice {
        Dice { rng: seed_from_u64(seed) }
    }

    /// Draws true with a chance of `numerator` in `denominator`: never for a
    /// chance of nothing, always for a chance of one.
    pub fn chance(&mut self, numerator: u32, denominator: u32) -> (hit: bool)
        requires
            0 < denominator,
            numerator <= denominator,
        ensures
            numerator == denominator ==> hit,
            numerator == 0 ==> !hit,
    {
        random_ratio(&mut self.rng, numerator, denominator)
    }

    /// Puts the positions into a random order. The result holds the same
    /// positions, each as often as before.
    pub fn shuffle(&mut self, positions: &mut Vec<HexPos>)
        ensures
            final(positions)@.to_multiset() == old(positions)@.to_multiset(),
            final(positions)@.len() == old(positions)@.len(),
            forall|q: HexPos| final(positions)@.contains(q) <==> old(positions)@.contains(q),
    {
        shuffle(&mut self.rng, positions);
        proof {
            let (before, after) = (old(positions)@, positions@);
            before.to_multiset_ensures();
            after.to_multiset_ensures();
            assert forall|q: HexPos| after.contains(q) <==> before.contains(q) by {
                assert(after.to_multiset().count(q) == before.to_multiset().count(q));
            }
        }
    }
}

} // verus!
