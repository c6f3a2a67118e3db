//! The Fiat-Shamir transcript that the verifier consumes.

use vstd::prelude::*;
use vstd::arithmetic::power2::pow2;

verus! {

/// A Fiat-Shamir transcript ("challenger"): a deterministic pseudorandom
/// generator seeded by prior protocol messages.
///
/// The trait is implemented by the embedding proof system; the verifier is
/// proved correct against the contracts below, which pin every operation down
/// to a specification function of the transcript's current state. An
/// implementation defines those specification functions for its own state
/// type, so that a whole transcript-driven run is a mathematical function of
/// the initial state and the observed messages.
///
/// `Cmt` is the commitment type observed between rounds, `F` an
/// extension-field element and `Wit` the proof-of-work witness type.
pub trait FriChallenger<Cmt, F, Wit>: Sized {
    /// The state reached after observing the commitment `c`.
    spec fn after_observe_commit(self, c: Cmt) -> Self;

    /// The state reached after observing the extension-field element `x`.
    spec fn after_observe_ext(self, x: F) -> Self;

    /// The extension-field element the current state samples.
    spec fn ext_sample(self) -> F;

    /// The state reached after sampling one extension-field element.
    spec fn after_sample_ext(self) -> Self;

    /// The `n`-bit index the current state samples.
    spec fn bits_sample(self, n: usize) -> usize;

    /// The state reached after sampling an `n`-bit index.
    spec fn after_sample_bits(self, n: usize) -> Self;

    /// Whether the witness `w` solves the current state's grinding puzzle at
    /// difficulty `bits`.
    spec fn witness_ok(self, bits: usize, w: Wit) -> bool;

    /// The state reached after checking a witness at difficulty `bits`.
    spec fn after_check_witness(self, bits: usize, w: Wit) -> Self;

    /// Absorb a commitment into the transcript.
    fn observe_commitment(&mut self, c: &Cmt)
        ensures
            *final(self) == old(self).after_observe_commit(*c),
    ;

    /// Absorb an extension-field element into the transcript.
    fn observe_ext_element(&mut self, x: &F)
        ensures
            *final(self) == old(self).after_observe_ext(*x),
    ;

    /// Draw one pseudorandom extension-field element.
    fn sample_ext_element(&mut self) -> (r: F)
        ensures
            r == old(self).ext_sample(),
            *final(self) == old(self).after_sample_ext(),
    ;

    /// Draw one pseudorandom index, uniform over `[0, 2^n)`.
    fn sample_bits(&mut self, n: usize) -> (r: usize)
        requires
            n < usize::BITS,
        ensures
            r == old(self).bits_sample(n),
            r < pow2(n as nat),
            *final(self) == old(self).after_sample_bits(n),
    ;

    /// Check a proof-of-work witness against the transcript's grinding puzzle
    /// at the given difficulty.
    fn check_witness(&mut self, bits: usize, w: &Wit) -> (r: bool)
        ensures
            r == old(self).witness_ok(bits, *w),
            *final(self) == old(self).after_check_witness(bits, *w),
    ;
}

} // verus!
