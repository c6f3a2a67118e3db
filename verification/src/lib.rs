//! Verifier side of a FRI (Fast Reed-Solomon IOP of Proximity) low-degree
//! test.
//!
//! The verifier replays a Fiat-Shamir transcript to regenerate the per-round
//! folding challenges, validates the shape of the untrusted proof, checks a
//! proof-of-work witness, and then, for every query, re-derives a sampled
//! index and walks the commit-phase rounds, verifying a batched opening and
//! folding the running evaluation at each round, terminating with a check
//! against the encoded final polynomial.
//!
//! The transcript, the vector-commitment scheme, the foldable linear code and
//! the input-opening callback are external collaborators: they are consumed
//! through the [`challenger::FriChallenger`] and [`scheme::FriScheme`] traits,
//! whose contracts pin every operation down to a per-implementation
//! specification function, so that the whole verification run is a
//! mathematical function of its inputs.

pub mod challenger;
pub mod config;
pub mod proof_data;
pub mod scheme;
pub mod poseidon2;
pub mod verification;
