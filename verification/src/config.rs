//! Configuration of one FRI verification context.

use vstd::prelude::*;

verus! {

/// Parameters of the FRI protocol instance.
///
/// The commitment scheme, code and transcript that the parameters govern are
/// passed to [`crate::verification::verify`] separately, as implementations of
/// [`crate::scheme::FriScheme`] and [`crate::challenger::FriChallenger`].
pub struct FriConfig {
    /// Log2 of the inverse of the code's rate: an oracle for a polynomial of
    /// `2^k` coefficients has `2^(k + log_blowup)` evaluations.
    pub log_blowup: usize,
    /// Number of queried positions a proof must answer for.
    pub num_queries: usize,
    /// Required number of leading zero bits in the transcript's grinding
    /// puzzle; the prover's `pow_witness` is checked against it.
    pub proof_of_work_bits: usize,
}

} // verus!
