//! The FRI verifier: transcript replay, proof-shape validation,
//! proof-of-work gating, the per-query folding walk and the final-polynomial
//! check.
//!
//! The whole protocol is stated twice: once as a family of specification
//! functions (`spec_verify` and its helpers), which define the outcome of a
//! verification run as a mathematical function of the configuration, the
//! proof, the initial transcript state and the scheme; and once as executable
//! code (`verify`), proved to return exactly that outcome.

use vstd::prelude::*;
use vstd::arithmetic::power2::{pow2, lemma_pow2_adds, lemma_pow2_pos, lemma_pow2_strictly_increases};
use vstd::arithmetic::div_mod::{lemma_multiply_divide_lt, lemma_mod_division_less_than_divisor};
use vstd::layout::unsigned_int_max_values;

use crate::challenger::FriChallenger;
use crate::config::FriConfig;
use crate::proof_data::{arities_of, CommitPhaseProofStep, FriProof, QueryProof};
use crate::scheme::FriScheme;

verus! {

/// Why a FRI proof was rejected. Any error aborts the whole verification:
/// proof verification is all-or-nothing over one proof.
#[derive(Debug, PartialEq, Eq)]
pub enum FriError<CommitMmcsErr, InputError> {
    /// Structural mismatch: wrong query count, final polynomial length not a
    /// power of two, inconsistent per-query folding arities, a malformed
    /// coset opening, or leftover unconsumed reduced openings.
    InvalidProofShape,
    /// A batched opening failed verification against its round commitment.
    CommitPhaseMmcsError(CommitMmcsErr),
    /// The input-opening callback failed for a sampled index.
    InputError(InputError),
    /// The folded evaluation at the end of all rounds disagrees with the
    /// encoded final polynomial.
    FinalPolyMismatch,
    /// The proof-of-work witness fails the transcript's grinding check.
    InvalidPowWitness,
}

/// The transcript state after, for each commitment in order, observing it and
/// sampling one folding challenge.
pub open spec fn challenger_after_betas<Cmt, F, Wit, C: FriChallenger<Cmt, F, Wit>>(
    c: C,
    commits: Seq<Cmt>,
) -> C
    decreases commits.len(),
{
    if commits.len() == 0 {
        c
    } else {
        challenger_after_betas::<Cmt, F, Wit, C>(c, commits.drop_last()).after_observe_commit(
            commits.last(),
        ).after_sample_ext()
    }
}

/// The folding challenges ("betas"), one per commit-phase round: each is
/// sampled right after its round's commitment is observed.
pub open spec fn betas_of<Cmt, F, Wit, C: FriChallenger<Cmt, F, Wit>>(
    c: C,
    commits: Seq<Cmt>,
) -> Seq<F>
    decreases commits.len(),
{
    if commits.len() == 0 {
        Seq::empty()
    } else {
        betas_of::<Cmt, F, Wit, C>(c, commits.drop_last()).push(
            challenger_after_betas::<Cmt, F, Wit, C>(
                c,
                commits.drop_last(),
            ).after_observe_commit(commits.last()).ext_sample(),
        )
    }
}

/// The transcript state after observing a sequence of extension-field
/// elements in order.
pub open spec fn challenger_after_exts<Cmt, F, Wit, C: FriChallenger<Cmt, F, Wit>>(
    c: C,
    xs: Seq<F>,
) -> C
    decreases xs.len(),
{
    if xs.len() == 0 {
        c
    } else {
        challenger_after_exts::<Cmt, F, Wit, C>(c, xs.drop_last()).after_observe_ext(xs.last())
    }
}

/// Whether `n` is a power of two.
pub open spec fn is_power_of_two(n: nat) -> bool {
    exists|k: nat| pow2(k) == n
}

/// The log2 of a power of two.
pub open spec fn log2_of(n: nat) -> nat {
    choose|k: nat| pow2(k) == n
}

/// The sum of a sequence of folding arities.
pub open spec fn sum_arities(s: Seq<usize>) -> nat
    decreases s.len(),
{
    if s.len() == 0 {
        0
    } else {
        (sum_arities(s.drop_last()) + s.last()) as nat
    }
}

/// The structural requirements on a proof, checked before any cryptographic
/// work: the final polynomial's length is a power of two; the query count
/// matches the configuration; there is at least one query, and all queries
/// claim the same per-round folding-arity sequence, one arity per
/// commit-phase commitment; and the resulting maximum domain height fits the
/// machine's index width.
pub open spec fn shape_ok<Cmt, F, Wit, IP, OP>(
    config: FriConfig,
    proof: FriProof<Cmt, F, Wit, IP, OP>,
) -> bool {
    &&& is_power_of_two(proof.final_poly@.len())
    &&& proof.query_proofs@.len() == config.num_queries
    &&& proof.query_proofs@.len() > 0
    &&& forall|i: int|
        0 <= i < proof.query_proofs@.len() ==> #[trigger] proof.query_proofs@[i].log_folding_arities()
            == proof.query_proofs@[0].log_folding_arities()
    &&& proof.query_proofs@[0].log_folding_arities().len() == proof.commit_phase_commits@.len()
    &&& config.log_blowup + log2_of(proof.final_poly@.len()) + sum_arities(
        proof.query_proofs@[0].log_folding_arities(),
    ) < usize::BITS
}

/// The bit-width of the largest evaluation domain index a query must sample:
/// the log of the blown-up size of the outermost oracle.
pub open spec fn log_max_height_of<Cmt, F, Wit, IP, OP>(
    config: FriConfig,
    proof: FriProof<Cmt, F, Wit, IP, OP>,
) -> nat {
    (config.log_blowup + log2_of(proof.final_poly@.len()) + sum_arities(
        proof.query_proofs@[0].log_folding_arities(),
    )) as nat
}

/// Whether a sequence of reduced openings is strictly height-descending.
pub open spec fn ro_descending<F>(ro: Seq<(usize, F)>) -> bool {
    forall|i: int, j: int| 0 <= i < j < ro.len() ==> #[trigger] ro[i].0 > #[trigger] ro[j].0
}

/// The full coset of sibling evaluations at one round: the running folded
/// evaluation `eval` occupies slot `t`, and the remaining slots are filled
/// from the proof's `openings` in order.
pub open spec fn coset_of<F>(openings: Seq<F>, t: nat, eval: F) -> Seq<F> {
    Seq::new(
        openings.len() + 1,
        |j: int|
            if j == t {
                eval
            } else if j < t {
                openings[j]
            } else {
                openings[j - 1]
            },
    )
}

/// The per-query folding walk from round `i` on: at each round, reconstruct
/// the coset, verify its batched opening, fold it under the round's beta,
/// and fold in the reduced opening waiting at the new height, if any.
///
/// Returns the terminal domain index, the terminal folded evaluation, and the
/// position the reduced-openings cursor has reached; or the first error.
pub open spec fn query_rounds<F, Cmt, IP, OP, S: FriScheme<F, Cmt, IP, OP>>(
    s: S,
    steps: Seq<CommitPhaseProofStep<F, OP>>,
    commits: Seq<Cmt>,
    betas: Seq<F>,
    i: int,
    index: nat,
    log_height: nat,
    eval: F,
    ro: Seq<(usize, F)>,
    ro_pos: int,
) -> Result<(nat, F, int), FriError<S::MmcsError, S::InputError>>
    decreases steps.len() - i,
{
    if i < 0 || i >= steps.len() {
        Ok((index, eval, ro_pos))
    } else {
        let step = steps[i];
        let a = step.log_folding_arity as nat;
        if step.openings@.len() + 1 != pow2(a) {
            Err(FriError::InvalidProofShape)
        } else {
            let log_folded_height = if a <= log_height {
                (log_height - a) as nat
            } else {
                0
            };
            let t = index % pow2(a);
            let row = index / pow2(a);
            let coset = coset_of(step.openings@, t, eval);
            match s.batch_check(
                commits[i],
                pow2(a),
                pow2(log_folded_height),
                row,
                coset,
                step.opening_proof,
            ) {
                Err(e) => Err(FriError::CommitPhaseMmcsError(e)),
                Ok(()) => {
                    let folded = s.fold_spec(row, log_folded_height, betas[i], coset);
                    if ro_pos < ro.len() && ro[ro_pos].0 == log_folded_height {
                        query_rounds(
                            s,
                            steps,
                            commits,
                            betas,
                            i + 1,
                            row,
                            log_folded_height,
                            s.add_spec(folded, ro[ro_pos].1),
                            ro,
                            ro_pos + 1,
                        )
                    } else {
                        query_rounds(
                            s,
                            steps,
                            commits,
                            betas,
                            i + 1,
                            row,
                            log_folded_height,
                            folded,
                            ro,
                            ro_pos,
                        )
                    }
                },
            }
        }
    }
}

/// The outcome of one query once its reduced openings are in hand: the
/// openings must be nonempty, strictly height-descending and start at the
/// maximum height; the folding walk must succeed and consume every reduced
/// opening; and the terminal folded evaluation must match the encoded final
/// polynomial at the terminal index.
pub open spec fn query_open_check<F, Cmt, IP, OP, S: FriScheme<F, Cmt, IP, OP>>(
    s: S,
    steps: Seq<CommitPhaseProofStep<F, OP>>,
    commits: Seq<Cmt>,
    betas: Seq<F>,
    index: nat,
    log_max_height: nat,
    encoded: Seq<F>,
    ro: Seq<(usize, F)>,
) -> Result<(), FriError<S::MmcsError, S::InputError>> {
    if !(ro.len() > 0 && ro[0].0 == log_max_height && ro_descending(ro)) {
        Err(FriError::InvalidProofShape)
    } else {
        match query_rounds(s, steps, commits, betas, 0, index, log_max_height, ro[0].1, ro, 1) {
            Err(e) => Err(e),
            Ok((final_index, final_eval, ro_pos)) => {
                if ro_pos != ro.len() {
                    Err(FriError::InvalidProofShape)
                } else if encoded[final_index as int] == final_eval {
                    Ok(())
                } else {
                    Err(FriError::FinalPolyMismatch)
                }
            },
        }
    }
}

/// The outcome of one query: open the input oracle at the sampled index, then
/// run the folding walk over the openings.
pub open spec fn query_check<F, Cmt, IP, OP, S: FriScheme<F, Cmt, IP, OP>>(
    s: S,
    qp: QueryProof<F, IP, OP>,
    commits: Seq<Cmt>,
    betas: Seq<F>,
    index: nat,
    log_max_height: nat,
    encoded: Seq<F>,
) -> Result<(), FriError<S::MmcsError, S::InputError>> {
    match s.open_input_spec(index, qp.input_proof) {
        Err(e) => Err(FriError::InputError(e)),
        Ok(ro) => query_open_check(
            s,
            qp.commit_phase_openings@,
            commits,
            betas,
            index,
            log_max_height,
            encoded,
            ro,
        ),
    }
}

/// The outcome of the queries from `k` on, starting from transcript state
/// `c`: each query samples its index in order, and the first failing query
/// decides the outcome.
pub open spec fn queries_check<Cmt, F, Wit, IP, OP, C: FriChallenger<Cmt, F, Wit>, S: FriScheme<
    F,
    Cmt,
    IP,
    OP,
>>(
    c: C,
    s: S,
    proof: FriProof<Cmt, F, Wit, IP, OP>,
    betas: Seq<F>,
    log_max_height: nat,
    encoded: Seq<F>,
    k: int,
) -> Result<(), FriError<S::MmcsError, S::InputError>>
    decreases proof.query_proofs@.len() - k,
{
    if k < 0 || k >= proof.query_proofs@.len() {
        Ok(())
    } else {
        let n = log_max_height as usize;
        let index = c.bits_sample(n);
        let c_next = c.after_sample_bits(n);
        match query_check(
            s,
            proof.query_proofs@[k],
            proof.commit_phase_commits@,
            betas,
            index as nat,
            log_max_height,
            encoded,
        ) {
            Err(e) => Err(e),
            Ok(()) => queries_check(c_next, s, proof, betas, log_max_height, encoded, k + 1),
        }
    }
}

/// The outcome of a whole FRI verification run, as a mathematical function of
/// the configuration, the proof, the initial transcript state and the
/// scheme.
///
/// The transcript first absorbs each round's commitment and samples its
/// folding challenge, then absorbs the final polynomial; the proof's shape is
/// validated; the proof-of-work witness is checked against the transcript's
/// grinding puzzle; and every query is checked in order against the encoded
/// final polynomial.
pub open spec fn spec_verify<Cmt, F, Wit, IP, OP, C: FriChallenger<Cmt, F, Wit>, S: FriScheme<
    F,
    Cmt,
    IP,
    OP,
>>(
    config: FriConfig,
    proof: FriProof<Cmt, F, Wit, IP, OP>,
    c: C,
    s: S,
) -> Result<(), FriError<S::MmcsError, S::InputError>> {
    let betas = betas_of::<Cmt, F, Wit, C>(c, proof.commit_phase_commits@);
    let c_obs = challenger_after_exts::<Cmt, F, Wit, C>(
        challenger_after_betas::<Cmt, F, Wit, C>(c, proof.commit_phase_commits@),
        proof.final_poly@,
    );
    if !shape_ok(config, proof) {
        Err(FriError::InvalidProofShape)
    } else if !c_obs.witness_ok(config.proof_of_work_bits, proof.pow_witness) {
        Err(FriError::InvalidPowWitness)
    } else {
        let c_pow = c_obs.after_check_witness(config.proof_of_work_bits, proof.pow_witness);
        let log_final_poly_len = log2_of(proof.final_poly@.len());
        let encoded = s.encode_spec(
            (config.log_blowup + log_final_poly_len) as nat,
            config.log_blowup as nat,
            proof.final_poly@,
        );
        queries_check(
            c_pow,
            s,
            proof,
            betas,
            log_max_height_of(config, proof),
            encoded,
            0,
        )
    }
}

/// There is one folding challenge per commit-phase round.
proof fn lemma_betas_of_len<Cmt, F, Wit, C: FriChallenger<Cmt, F, Wit>>(c: C, commits: Seq<Cmt>)
    ensures
        betas_of::<Cmt, F, Wit, C>(c, commits).len() == commits.len(),
    decreases commits.len(),
{
    if commits.len() > 0 {
        lemma_betas_of_len::<Cmt, F, Wit, C>(c, commits.drop_last());
    }
}

/// Two equal powers of two have equal exponents.
proof fn lemma_pow2_injective(a: nat, b: nat)
    requires
        pow2(a) == pow2(b),
    ensures
        a == b,
{
    if a < b {
        lemma_pow2_strictly_increases(a, b);
    } else if b < a {
        lemma_pow2_strictly_increases(b, a);
    }
}

/// `log2_of` inverts `pow2`.
proof fn lemma_log2_of_pow2(k: nat)
    ensures
        log2_of(pow2(k)) == k,
{
    assert(is_power_of_two(pow2(k)));
    let k2 = choose|k2: nat| pow2(k2) == pow2(k);
    lemma_pow2_injective(k2, k);
}

/// Extending a prefix of a sequence by one element adds that element to the
/// prefix's arity sum.
proof fn lemma_sum_arities_take_step(s: Seq<usize>, i: int)
    requires
        0 <= i < s.len(),
    ensures
        sum_arities(s.take(i + 1)) == sum_arities(s.take(i)) + s[i],
{
    assert(s.take(i + 1).drop_last() =~= s.take(i));
    assert(s.take(i + 1).last() == s[i]);
}

/// The arity sum of a prefix never exceeds the whole sequence's.
proof fn lemma_sum_arities_take_le(s: Seq<usize>, i: int)
    requires
        0 <= i <= s.len(),
    ensures
        sum_arities(s.take(i)) <= sum_arities(s),
    decreases s.len() - i,
{
    if i == s.len() {
        assert(s.take(i) =~= s);
    } else {
        lemma_sum_arities_take_step(s, i);
        lemma_sum_arities_take_le(s, i + 1);
    }
}

/// Compute `2^n`.
fn pow2_usize(n: usize) -> (r: usize)
    requires
        n < usize::BITS,
    ensures
        r as nat == pow2(n as nat),
{
    let mut r: usize = 1;
    let mut i: usize = 0;
    proof {
        unsigned_int_max_values();
        assert(pow2(0) == 1) by {
            vstd::arithmetic::power2::lemma2_to64();
        }
    }
    while i < n
        invariant
            i <= n,
            n < usize::BITS,
            r as nat == pow2(i as nat),
        decreases n - i,
    {
        proof {
            lemma_pow2_adds(i as nat, 1);
            assert(pow2(1) == 2) by {
                vstd::arithmetic::power2::lemma2_to64();
            }
            lemma_pow2_strictly_increases((i + 1) as nat, usize::BITS as nat);
            unsigned_int_max_values();
        }
        r = r * 2;
        i = i + 1;
    }
    r
}

/// Decide whether `n` is a power of two, and of which exponent.
fn log2_exact(n: usize) -> (r: Option<usize>)
    ensures
        match r {
            Some(k) => n as nat == pow2(k as nat) && k < usize::BITS && k as nat == log2_of(n as nat),
            None => !is_power_of_two(n as nat),
        },
{
    let mut p: usize = 1;
    let mut k: usize = 0;
    proof {
        unsigned_int_max_values();
        assert(pow2(0) == 1) by {
            vstd::arithmetic::power2::lemma2_to64();
        }
    }
    while p < n
        invariant
            p as nat == pow2(k as nat),
            p >= 1,
            k < usize::BITS,
            k == 0 || pow2((k - 1) as nat) < n as nat,
        decreases usize::BITS - k,
    {
        if k + 1 >= usize::BITS as usize {
            // No larger power of two fits a usize, and n > p is no power of
            // two at or below 2^k.
            proof {
                unsigned_int_max_values();
                if is_power_of_two(n as nat) {
                    let j = choose|j: nat| pow2(j) == n as nat;
                    if j < k as nat {
                        lemma_pow2_strictly_increases(j, k as nat);
                    } else if j > k as nat {
                        if j > usize::BITS as nat {
                            lemma_pow2_strictly_increases(usize::BITS as nat, j);
                        }
                    }
                    assert(false);
                }
            }
            return None;
        }
        proof {
            lemma_pow2_adds(k as nat, 1);
            assert(pow2(1) == 2) by {
                vstd::arithmetic::power2::lemma2_to64();
            }
            unsigned_int_max_values();
            lemma_pow2_strictly_increases((k + 1) as nat, usize::BITS as nat);
        }
        p = p * 2;
        k = k + 1;
    }
    if p == n {
        proof {
            lemma_log2_of_pow2(k as nat);
        }
        Some(k)
    } else {
        proof {
            if is_power_of_two(n as nat) {
                let j = choose|j: nat| pow2(j) == n as nat;
                if j < k as nat {
                    if j < k as nat - 1 {
                        lemma_pow2_strictly_increases(j, (k - 1) as nat);
                    }
                } else if j > k as nat {
                    lemma_pow2_strictly_increases(k as nat, j);
                }
                assert(false);
            }
        }
        None
    }
}

/// Decide whether a sequence of reduced openings is strictly
/// height-descending.
fn check_descending<F>(ro: &Vec<(usize, F)>) -> (r: bool)
    ensures
        r == ro_descending(ro@),
{
    let n = ro.len();
    if n == 0 {
        return true;
    }
    let mut m: usize = 0;
    while m + 1 < n
        invariant
            m < n,
            n == ro@.len(),
            forall|i: int, j: int| 0 <= i < j <= m ==> #[trigger] ro@[i].0 > #[trigger] ro@[j].0,
        decreases n - m,
    {
        if ro[m].0 <= ro[m + 1].0 {
            assert(!ro_descending(ro@)) by {
                assert(!(ro@[m as int].0 > ro@[m + 1].0));
            }
            return false;
        }
        assert(forall|i: int, j: int|
            0 <= i < j <= m + 1 ==> #[trigger] ro@[i].0 > #[trigger] ro@[j].0);
        m = m + 1;
    }
    true
}

/// Decide whether a query claims the same folding-arity sequence as the
/// reference query.
fn same_arities<F, IP, OP>(qp0: &QueryProof<F, IP, OP>, qp: &QueryProof<F, IP, OP>) -> (r: bool)
    ensures
        r == (qp.log_folding_arities() == qp0.log_folding_arities()),
{
    let n = qp0.commit_phase_openings.len();
    if qp.commit_phase_openings.len() != n {
        assert(qp.log_folding_arities().len() != qp0.log_folding_arities().len());
        return false;
    }
    let mut i: usize = 0;
    while i < n
        invariant
            i <= n,
            n == qp0.commit_phase_openings@.len(),
            n == qp.commit_phase_openings@.len(),
            forall|j: int|
                0 <= j < i ==> #[trigger] qp.commit_phase_openings@[j].log_folding_arity
                    == qp0.commit_phase_openings@[j].log_folding_arity,
        decreases n - i,
    {
        if qp.commit_phase_openings[i].log_folding_arity
            != qp0.commit_phase_openings[i].log_folding_arity {
            assert(qp.log_folding_arities()[i as int] != qp0.log_folding_arities()[i as int]);
            return false;
        }
        i = i + 1;
    }
    assert(qp.log_folding_arities() =~= qp0.log_folding_arities());
    true
}

/// Compute the log of the maximum domain height, or report that it does not
/// fit the machine's index width.
fn checked_log_max_height<F, IP, OP>(
    log_blowup: usize,
    log_final_poly_len: usize,
    qp0: &QueryProof<F, IP, OP>,
) -> (r: Option<usize>)
    ensures
        match r {
            Some(h) => {
                &&& h as nat == log_blowup + log_final_poly_len + sum_arities(
                    qp0.log_folding_arities(),
                )
                &&& h < usize::BITS
            },
            None => log_blowup + log_final_poly_len + sum_arities(qp0.log_folding_arities())
                >= usize::BITS,
        },
{
    let bits: usize = usize::BITS as usize;
    let aseq = Ghost(qp0.log_folding_arities());
    if log_blowup >= bits || log_final_poly_len >= bits - log_blowup {
        proof {
            lemma_sum_arities_take_le(aseq@, 0);
            assert(aseq@.take(0) =~= Seq::<usize>::empty());
        }
        return None;
    }
    let mut acc: usize = log_blowup + log_final_poly_len;
    let n = qp0.commit_phase_openings.len();
    let mut i: usize = 0;
    while i < n
        invariant
            i <= n,
            n == qp0.commit_phase_openings@.len(),
            aseq@ == qp0.log_folding_arities(),
            aseq@.len() == n,
            bits == usize::BITS as usize,
            acc < usize::BITS,
            acc as nat == log_blowup + log_final_poly_len + sum_arities(aseq@.take(i as int)),
        decreases n - i,
    {
        let a = qp0.commit_phase_openings[i].log_folding_arity;
        proof {
            lemma_sum_arities_take_step(aseq@, i as int);
            lemma_sum_arities_take_le(aseq@, i + 1);
        }
        if a >= bits - acc {
            return None;
        }
        acc = acc + a;
        i = i + 1;
    }
    proof {
        assert(aseq@.take(n as int) =~= aseq@);
    }
    Some(acc)
}

/// Walk one query's commit-phase rounds: check that the reduced openings are
/// well-formed, then, round by round, reconstruct the coset, verify its
/// batched opening against the round's commitment, fold it under the round's
/// challenge, and fold in the reduced opening waiting at the new height;
/// finally require every reduced opening consumed and the terminal folded
/// evaluation to match the encoded final polynomial at the terminal index.
pub fn verify_query<F: Copy, Cmt, IP, OP, S: FriScheme<F, Cmt, IP, OP>>(
    scheme: &S,
    steps: &Vec<CommitPhaseProofStep<F, OP>>,
    commits: &Vec<Cmt>,
    betas: &Vec<F>,
    index: usize,
    log_max_height: usize,
    encoded: &Vec<F>,
    ro: &Vec<(usize, F)>,
) -> (r: Result<(), FriError<S::MmcsError, S::InputError>>)
    requires
        steps@.len() == commits@.len(),
        betas@.len() == commits@.len(),
        log_max_height < usize::BITS,
        index < pow2(log_max_height as nat),
        sum_arities(arities_of(steps@)) <= log_max_height,
        encoded@.len() == pow2((log_max_height - sum_arities(arities_of(steps@))) as nat),
    ensures
        r == query_open_check(
            *scheme,
            steps@,
            commits@,
            betas@,
            index as nat,
            log_max_height as nat,
            encoded@,
            ro@,
        ),
{
    if ro.len() == 0 {
        return Err(FriError::InvalidProofShape);
    }
    if ro[0].0 != log_max_height {
        return Err(FriError::InvalidProofShape);
    }
    if !check_descending(ro) {
        return Err(FriError::InvalidProofShape);
    }
    let ghost aseq = arities_of(steps@);
    let ghost full = query_rounds(
        *scheme,
        steps@,
        commits@,
        betas@,
        0,
        index as nat,
        log_max_height as nat,
        ro@[0].1,
        ro@,
        1,
    );
    let n = steps.len();
    let mut idx = index;
    let mut log_height = log_max_height;
    let mut eval = ro[0].1;
    let mut ro_pos: usize = 1;
    let mut i: usize = 0;
    proof {
        assert(aseq.take(0int) =~= Seq::<usize>::empty());
    }
    while i < n
        invariant
            i <= n,
            n == steps@.len(),
            n == commits@.len(),
            n == betas@.len(),
            1 <= ro_pos <= ro@.len(),
            ro@.len() > 0,
            ro@[0].0 == log_max_height,
            ro_descending(ro@),
            log_max_height < usize::BITS,
            aseq == arities_of(steps@),
            sum_arities(aseq) <= log_max_height,
            log_height as nat + sum_arities(aseq.take(i as int)) == log_max_height as nat,
            idx < pow2(log_height as nat),
            encoded@.len() == pow2((log_max_height - sum_arities(aseq)) as nat),
            query_rounds(
                *scheme,
                steps@,
                commits@,
                betas@,
                i as int,
                idx as nat,
                log_height as nat,
                eval,
                ro@,
                ro_pos as int,
            ) == full,
            full == query_rounds(
                *scheme,
                steps@,
                commits@,
                betas@,
                0,
                index as nat,
                log_max_height as nat,
                ro@[0].1,
                ro@,
                1,
            ),
        decreases n - i,
    {
        let a = steps[i].log_folding_arity;
        proof {
            assert(aseq[i as int] == a);
            lemma_sum_arities_take_step(aseq, i as int);
            lemma_sum_arities_take_le(aseq, i as int + 1);
        }
        let w = pow2_usize(a);
        proof {
            lemma_pow2_pos(a as nat);
        }
        if steps[i].openings.len() != w - 1 {
            return Err(FriError::InvalidProofShape);
        }
        let lf = log_height - a;
        let t = idx % w;
        let row = idx / w;
        proof {
            lemma_pow2_adds(lf as nat, a as nat);
            lemma_multiply_divide_lt(idx as int, w as int, pow2(lf as nat) as int);
            lemma_mod_division_less_than_divisor(idx as int, w as int);
        }
        let mut coset: Vec<F> = Vec::new();
        let mut j: usize = 0;
        while j < w
            invariant
                j <= w,
                t < w,
                coset@.len() == j,
                w as nat == steps@[i as int].openings@.len() + 1,
                i < steps@.len(),
                forall|jj: int|
                    0 <= jj < j ==> coset@[jj] == #[trigger] coset_of(
                        steps@[i as int].openings@,
                        t as nat,
                        eval,
                    )[jj],
            decreases w - j,
        {
            if j == t {
                coset.push(eval);
            } else if j < t {
                coset.push(steps[i].openings[j]);
            } else {
                coset.push(steps[i].openings[j - 1]);
            }
            j = j + 1;
        }
        proof {
            assert(coset@ =~= coset_of(steps@[i as int].openings@, t as nat, eval));
        }
        let h = pow2_usize(lf);
        match scheme.verify_batch(&commits[i], w, h, row, &coset, &steps[i].opening_proof) {
            Err(e) => {
                return Err(FriError::CommitPhaseMmcsError(e));
            },
            Ok(_) => {},
        }
        let mut folded = scheme.fold(row, lf, betas[i], &coset);
        if ro_pos < ro.len() && ro[ro_pos].0 == lf {
            folded = scheme.add(folded, ro[ro_pos].1);
            ro_pos = ro_pos + 1;
        }
        idx = row;
        log_height = lf;
        eval = folded;
        i = i + 1;
    }
    proof {
        assert(aseq.take(n as int) =~= aseq);
    }
    if ro_pos != ro.len() {
        return Err(FriError::InvalidProofShape);
    }
    let expected = encoded[idx];
    if scheme.challenge_eq(&expected, &eval) {
        Ok(())
    } else {
        Err(FriError::FinalPolyMismatch)
    }
}

/// Verify a FRI proof against a configuration, a Fiat-Shamir transcript and
/// a scheme instance.
///
/// Returns exactly the outcome that the protocol model [`spec_verify`]
/// assigns to these inputs: `Ok(())` when the proof is accepted, and the
/// first error the protocol encounters otherwise. Since the model is a
/// mathematical function of the configuration, the proof, the initial
/// transcript state and the scheme, verification is deterministic.
pub fn verify<Cmt, F: Copy, Wit, IP, OP, C, S>(
    config: &FriConfig,
    proof: &FriProof<Cmt, F, Wit, IP, OP>,
    challenger: &mut C,
    scheme: &S,
) -> (r: Result<(), FriError<S::MmcsError, S::InputError>>) where
    C: FriChallenger<Cmt, F, Wit>,
    S: FriScheme<F, Cmt, IP, OP>,
    ensures
        r == spec_verify(*config, *proof, *old(challenger), *scheme),
{
    let ghost c0 = *old(challenger);
    let ghost cs = proof.commit_phase_commits@;

    // Replay the commit phase: absorb each round's commitment and sample its
    // folding challenge.
    let ncommits = proof.commit_phase_commits.len();
    let mut betas: Vec<F> = Vec::new();
    let mut i: usize = 0;
    proof {
        assert(cs.take(0int) =~= Seq::<Cmt>::empty());
    }
    while i < ncommits
        invariant
            i <= ncommits,
            ncommits == cs.len(),
            cs == proof.commit_phase_commits@,
            *challenger == challenger_after_betas::<Cmt, F, Wit, C>(c0, cs.take(i as int)),
            betas@ == betas_of::<Cmt, F, Wit, C>(c0, cs.take(i as int)),
        decreases ncommits - i,
    {
        challenger.observe_commitment(&proof.commit_phase_commits[i]);
        let beta = challenger.sample_ext_element();
        betas.push(beta);
        proof {
            assert(cs.take(i as int + 1).drop_last() =~= cs.take(i as int));
            assert(cs.take(i as int + 1).last() == cs[i as int]);
        }
        i = i + 1;
    }
    proof {
        assert(cs.take(ncommits as int) =~= cs);
    }

    // Absorb the final polynomial.
    let ghost c_betas = *challenger;
    let ghost fp = proof.final_poly@;
    let nfinal = proof.final_poly.len();
    let mut j: usize = 0;
    proof {
        assert(fp.take(0int) =~= Seq::<F>::empty());
    }
    while j < nfinal
        invariant
            j <= nfinal,
            nfinal == fp.len(),
            fp == proof.final_poly@,
            *challenger == challenger_after_exts::<Cmt, F, Wit, C>(c_betas, fp.take(j as int)),
        decreases nfinal - j,
    {
        challenger.observe_ext_element(&proof.final_poly[j]);
        proof {
            assert(fp.take(j as int + 1).drop_last() =~= fp.take(j as int));
            assert(fp.take(j as int + 1).last() == fp[j as int]);
        }
        j = j + 1;
    }
    proof {
        assert(fp.take(nfinal as int) =~= fp);
    }

    // Validate the proof's shape before any cryptographic check.
    let log_final_poly_len = match log2_exact(proof.final_poly.len()) {
        None => {
            return Err(FriError::InvalidProofShape);
        },
        Some(k) => k,
    };
    if proof.query_proofs.len() != config.num_queries {
        return Err(FriError::InvalidProofShape);
    }
    let nq = proof.query_proofs.len();
    if nq == 0 {
        return Err(FriError::InvalidProofShape);
    }
    let mut k: usize = 1;
    while k < nq
        invariant
            1 <= k <= nq,
            nq == proof.query_proofs@.len(),
            forall|q: int|
                0 <= q < k ==> #[trigger] proof.query_proofs@[q].log_folding_arities()
                    == proof.query_proofs@[0].log_folding_arities(),
        decreases nq - k,
    {
        if !same_arities(&proof.query_proofs[0], &proof.query_proofs[k]) {
            return Err(FriError::InvalidProofShape);
        }
        k = k + 1;
    }
    if proof.query_proofs[0].commit_phase_openings.len() != ncommits {
        return Err(FriError::InvalidProofShape);
    }
    let log_max_height = match checked_log_max_height(
        config.log_blowup,
        log_final_poly_len,
        &proof.query_proofs[0],
    ) {
        None => {
            return Err(FriError::InvalidProofShape);
        },
        Some(h) => h,
    };
    proof {
        assert(shape_ok(*config, *proof));
    }

    // The proof-of-work witness gates all index sampling.
    if !challenger.check_witness(config.proof_of_work_bits, &proof.pow_witness) {
        return Err(FriError::InvalidPowWitness);
    }

    // Encode the final polynomial once; every query is checked against it.
    let encoded = scheme.encode(
        config.log_blowup + log_final_poly_len,
        config.log_blowup,
        &proof.final_poly,
    );

    // Re-derive each query's index and walk its folding rounds.
    proof {
        lemma_betas_of_len::<Cmt, F, Wit, C>(c0, proof.commit_phase_commits@);
    }
    let mut q: usize = 0;
    while q < nq
        invariant
            q <= nq,
            nq == proof.query_proofs@.len(),
            c0 == *old(challenger),
            shape_ok(*config, *proof),
            log_max_height < usize::BITS,
            log_max_height as nat == log_max_height_of(*config, *proof),
            log_final_poly_len as nat == log2_of(proof.final_poly@.len()),
            log_max_height as nat == config.log_blowup + log_final_poly_len + sum_arities(
                proof.query_proofs@[0].log_folding_arities(),
            ),
            betas@ == betas_of::<Cmt, F, Wit, C>(c0, proof.commit_phase_commits@),
            betas@.len() == proof.commit_phase_commits@.len(),
            encoded@.len() == pow2((config.log_blowup + log_final_poly_len) as nat),
            spec_verify(*config, *proof, c0, *scheme) == queries_check(
                *challenger,
                *scheme,
                *proof,
                betas@,
                log_max_height as nat,
                encoded@,
                q as int,
            ),
        decreases nq - q,
    {
        let ghost c_top = *challenger;
        let index = challenger.sample_bits(log_max_height);
        proof {
            assert(proof.query_proofs@[q as int].log_folding_arities()
                == proof.query_proofs@[0].log_folding_arities());
            assert(index == c_top.bits_sample(((log_max_height as nat) as usize)));
            assert(*challenger == c_top.after_sample_bits(((log_max_height as nat) as usize)));
        }
        match scheme.open_input(index, &proof.query_proofs[q].input_proof) {
            Err(e) => {
                proof {
                    assert(scheme.open_input_spec(
                        index as nat,
                        proof.query_proofs@[q as int].input_proof,
                    ) == Err::<Seq<(usize, F)>, S::InputError>(e));
                    assert(queries_check(
                        c_top,
                        *scheme,
                        *proof,
                        betas@,
                        log_max_height as nat,
                        encoded@,
                        q as int,
                    ) == Err::<(), FriError<S::MmcsError, S::InputError>>(FriError::InputError(e)));
                }
                return Err(FriError::InputError(e));
            },
            Ok(ro) => {
                let rq = verify_query(
                    scheme,
                    &proof.query_proofs[q].commit_phase_openings,
                    &proof.commit_phase_commits,
                    &betas,
                    index,
                    log_max_height,
                    &encoded,
                    &ro,
                );
                proof {
                    assert(scheme.open_input_spec(
                        index as nat,
                        proof.query_proofs@[q as int].input_proof,
                    ) == Ok::<Seq<(usize, F)>, S::InputError>(ro@));
                    assert(query_check(
                        *scheme,
                        proof.query_proofs@[q as int],
                        proof.commit_phase_commits@,
                        betas@,
                        index as nat,
                        log_max_height as nat,
                        encoded@,
                    ) == query_open_check(
                        *scheme,
                        proof.query_proofs@[q as int].commit_phase_openings@,
                        proof.commit_phase_commits@,
                        betas@,
                        index as nat,
                        log_max_height as nat,
                        encoded@,
                        ro@,
                    ));
                }
                match rq {
                    Err(e) => {
                        return Err(e);
                    },
                    Ok(_) => {},
                }
            },
        }
        q = q + 1;
    }
    Ok(())
}

/// A proof whose query count disagrees with the configuration is always
/// rejected as `InvalidProofShape`, whatever else it holds and whatever the
/// transcript and scheme are.
pub proof fn lemma_query_count_rejected<
    Cmt,
    F,
    Wit,
    IP,
    OP,
    C: FriChallenger<Cmt, F, Wit>,
    S: FriScheme<F, Cmt, IP, OP>,
>(config: FriConfig, proof: FriProof<Cmt, F, Wit, IP, OP>, c: C, s: S)
    requires
        proof.query_proofs@.len() != config.num_queries,
    ensures
        spec_verify(config, proof, c, s) == Err::<(), FriError<S::MmcsError, S::InputError>>(
            FriError::InvalidProofShape,
        ),
{
}

/// A proof whose final polynomial's length is not a power of two is always
/// rejected as `InvalidProofShape`, whatever else it holds and whatever the
/// transcript and scheme are.
pub proof fn lemma_final_poly_length_rejected<
    Cmt,
    F,
    Wit,
    IP,
    OP,
    C: FriChallenger<Cmt, F, Wit>,
    S: FriScheme<F, Cmt, IP, OP>,
>(config: FriConfig, proof: FriProof<Cmt, F, Wit, IP, OP>, c: C, s: S)
    requires
        !is_power_of_two(proof.final_poly@.len()),
    ensures
        spec_verify(config, proof, c, s) == Err::<(), FriError<S::MmcsError, S::InputError>>(
            FriError::InvalidProofShape,
        ),
{
}

/// Proof-of-work gating: a well-shaped proof whose witness fails the
/// transcript's grinding puzzle is always rejected as `InvalidPowWitness`,
/// independent of the validity of its openings, its final polynomial and its
/// queries. (A proof that fails the shape checks is rejected as
/// `InvalidProofShape` before its witness is looked at.)
pub proof fn lemma_pow_gating<
    Cmt,
    F,
    Wit,
    IP,
    OP,
    C: FriChallenger<Cmt, F, Wit>,
    S: FriScheme<F, Cmt, IP, OP>,
>(config: FriConfig, proof: FriProof<Cmt, F, Wit, IP, OP>, c: C, s: S)
    requires
        shape_ok(config, proof),
        !challenger_after_exts::<Cmt, F, Wit, C>(
            challenger_after_betas::<Cmt, F, Wit, C>(c, proof.commit_phase_commits@),
            proof.final_poly@,
        ).witness_ok(config.proof_of_work_bits, proof.pow_witness),
    ensures
        spec_verify(config, proof, c, s) == Err::<(), FriError<S::MmcsError, S::InputError>>(
            FriError::InvalidPowWitness,
        ),
{
}

/// Determinism: the outcome of a verification run is a mathematical function
/// of the configuration, the proof, the initial transcript state and the
/// scheme. Together with the contract of [`verify`], two calls on identical
/// inputs with identically-initialized transcripts return identical results.
pub proof fn lemma_verify_deterministic<
    Cmt,
    F,
    Wit,
    IP,
    OP,
    C: FriChallenger<Cmt, F, Wit>,
    S: FriScheme<F, Cmt, IP, OP>,
>(config: FriConfig, proof: FriProof<Cmt, F, Wit, IP, OP>, c1: C, c2: C, s: S)
    requires
        c1 == c2,
    ensures
        spec_verify(config, proof, c1, s) == spec_verify(config, proof, c2, s),
{
}

} // verus!
