//! The untrusted proof object that a FRI prover hands to the verifier.

use vstd::prelude::*;

verus! {

/// A complete FRI proof, produced wholly by an external prover. The verifier
/// treats every field as untrusted input.
///
/// Type parameters: `Cmt` is the commitment scheme's commitment, `F` an
/// extension-field element, `Wit` the transcript's proof-of-work witness,
/// `InputProof` the opaque token of the input-opening callback and
/// `OpeningProof` the commitment scheme's batch-opening proof.
pub struct FriProof<Cmt, F, Wit, InputProof, OpeningProof> {
    /// One commitment per folding round, outermost (highest-degree) round
    /// first.
    pub commit_phase_commits: Vec<Cmt>,
    /// One query proof per required query.
    pub query_proofs: Vec<QueryProof<F, InputProof, OpeningProof>>,
    /// Coefficients of the terminal low-degree polynomial; the length must be
    /// a power of two.
    pub final_poly: Vec<F>,
    /// Witness for the transcript's grinding puzzle.
    pub pow_witness: Wit,
}

/// The openings one query must answer for, one step per commit-phase round.
pub struct QueryProof<F, InputProof, OpeningProof> {
    /// One opening step per folding round, in round order.
    pub commit_phase_openings: Vec<CommitPhaseProofStep<F, OpeningProof>>,
    /// Opaque token handed to the input-opening callback.
    pub input_proof: InputProof,
}

/// One batched opening of a coset of sibling evaluations against one round's
/// commitment.
pub struct CommitPhaseProofStep<F, OpeningProof> {
    /// Log2 of how many evaluations collapse into one at this round.
    pub log_folding_arity: usize,
    /// The `2^log_folding_arity - 1` sibling evaluations that, together with
    /// the running folded evaluation, reconstruct the full coset.
    pub openings: Vec<F>,
    /// The commitment scheme's batch-opening proof for the coset.
    pub opening_proof: OpeningProof,
}

/// The folding-arity sequence a list of opening steps claims.
pub open spec fn arities_of<F, OpeningProof>(
    steps: Seq<CommitPhaseProofStep<F, OpeningProof>>,
) -> Seq<usize> {
    steps.map_values(|s: CommitPhaseProofStep<F, OpeningProof>| s.log_folding_arity)
}

impl<F, InputProof, OpeningProof> QueryProof<F, InputProof, OpeningProof> {
    /// The sequence of log folding arities this query's steps claim, in round
    /// order. Every query of a well-shaped proof claims the same sequence.
    pub open spec fn log_folding_arities(self) -> Seq<usize> {
        arities_of(self.commit_phase_openings@)
    }
}

} // verus!
