//! The commitment scheme, foldable linear code, field arithmetic and
//! input-opening callback that the verifier consumes.

use vstd::prelude::*;
use vstd::arithmetic::power2::pow2;

verus! {

/// Turns a `Result` holding a vector of reduced openings into one holding its
/// mathematical view.
pub open spec fn opened_view<F, E>(r: Result<Vec<(usize, F)>, E>) -> Result<
    Seq<(usize, F)>,
    E,
> {
    match r {
        Ok(v) => Ok(v@),
        Err(e) => Err(e),
    }
}

/// The pure collaborators of one FRI verification context: the batched
/// vector-commitment scheme, the foldable linear code with its field
/// arithmetic, and the embedding proof system's input-opening callback.
///
/// The trait is implemented by the embedding proof system; the verifier is
/// proved correct against the contracts below, which pin every operation down
/// to a specification function of the scheme instance and the arguments, so
/// that a whole verification run is a mathematical function of its inputs.
///
/// `F` is an extension-field element, `Cmt` a commitment, `InputProof` the
/// opaque input-opening token and `OpeningProof` a batch-opening proof.
pub trait FriScheme<F, Cmt, InputProof, OpeningProof>: Sized {
    /// The commitment scheme's own error for a failed batched opening.
    type MmcsError;

    /// The input-opening callback's own error.
    type InputError;

    /// The sum of two extension-field elements.
    spec fn add_spec(self, a: F, b: F) -> F;

    /// The exact outcome of verifying a batched opening of the row `row` of a
    /// committed matrix with `height` rows of width `width` against the
    /// commitment `comm`, where `opened` claims the row's contents.
    spec fn batch_check(
        self,
        comm: Cmt,
        width: nat,
        height: nat,
        row: nat,
        opened: Seq<F>,
        opening_proof: OpeningProof,
    ) -> Result<(), Self::MmcsError>;

    /// The codeword of the code with `2^log_len` evaluations and blow-up
    /// `2^log_blowup` for the polynomial with coefficient sequence `poly`.
    spec fn encode_spec(self, log_len: nat, log_blowup: nat, poly: Seq<F>) -> Seq<F>;

    /// The code's folding of the full coset `coset`, opened at row `row` of
    /// the domain of size `2^log_folded_height`, into one evaluation at the
    /// next (smaller) domain, under the folding challenge `beta`.
    spec fn fold_spec(self, row: nat, log_folded_height: nat, beta: F, coset: Seq<F>) -> F;

    /// The exact outcome of the input-opening callback at the sampled index
    /// `index`: a height-descending sequence of (log-height, reduced
    /// evaluation) pairs, or the callback's own error.
    spec fn open_input_spec(self, index: nat, input_proof: InputProof) -> Result<
        Seq<(usize, F)>,
        Self::InputError,
    >;

    /// Add two extension-field elements.
    fn add(&self, a: F, b: F) -> (r: F)
        ensures
            r == self.add_spec(a, b),
    ;

    /// Decide equality of two extension-field elements.
    fn challenge_eq(&self, a: &F, b: &F) -> (r: bool)
        ensures
            r == (*a == *b),
    ;

    /// Verify a batched opening of one matrix row against a commitment.
    fn verify_batch(
        &self,
        comm: &Cmt,
        width: usize,
        height: usize,
        row: usize,
        opened: &Vec<F>,
        opening_proof: &OpeningProof,
    ) -> (r: Result<(), Self::MmcsError>)
        ensures
            r == self.batch_check(
                *comm,
                width as nat,
                height as nat,
                row as nat,
                opened@,
                *opening_proof,
            ),
    ;

    /// Encode a polynomial of `2^(log_len - log_blowup)` coefficients into
    /// the codeword of length `2^log_len`.
    fn encode(&self, log_len: usize, log_blowup: usize, poly: &Vec<F>) -> (r: Vec<F>)
        requires
            log_blowup <= log_len,
            log_len < usize::BITS,
            poly@.len() == pow2((log_len - log_blowup) as nat),
        ensures
            r@ == self.encode_spec(log_len as nat, log_blowup as nat, poly@),
            r@.len() == pow2(log_len as nat),
    ;

    /// Fold a full coset of evaluations into one next-round evaluation.
    fn fold(&self, row: usize, log_folded_height: usize, beta: F, coset: &Vec<F>) -> (r: F)
        ensures
            r == self.fold_spec(row as nat, log_folded_height as nat, beta, coset@),
    ;

    /// Open the underlying input oracle at a sampled index, yielding the
    /// height-descending reduced openings for that index.
    fn open_input(&self, index: usize, input_proof: &InputProof) -> (r: Result<
        Vec<(usize, F)>,
        Self::InputError,
    >)
        ensures
            opened_view(r) == self.open_input_spec(index as nat, *input_proof),
    ;
}

} // verus!
