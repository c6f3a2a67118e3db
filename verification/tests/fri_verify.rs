//! End-to-end tests of the FRI verifier against a small mock field, a mock
//! transcript and a mock commitment scheme.

use fri::challenger::FriChallenger;
use fri::config::FriConfig;
use fri::proof_data::{CommitPhaseProofStep, FriProof, QueryProof};
use fri::scheme::FriScheme;
use fri::verification::{verify, FriError};
use vstd::prelude::{nat, Seq};

/// A small prime modulus for the mock extension field.
const Q: u64 = 2013265921;

const MIX: u64 = 6364136223846793005;
const INC: u64 = 1442695040888963407;

/// A deterministic mock Fiat-Shamir transcript: a 64-bit mixing state.
#[derive(Clone, Copy, PartialEq, Eq, Debug)]
pub struct TestChallenger {
    pub state: u64,
}

impl TestChallenger {
    pub fn new(seed: u64) -> TestChallenger {
        TestChallenger { state: seed }
    }

    fn absorb(&mut self, x: u64) {
        self.state = self.state.wrapping_mul(MIX).wrapping_add(x ^ 0x9E3779B97F4A7C15);
    }

    fn next(&mut self) -> u64 {
        self.state = self.state.wrapping_mul(MIX).wrapping_add(INC);
        self.state
    }
}

impl FriChallenger<Vec<Vec<u64>>, u64, u64> for TestChallenger {
    // The specification functions of the trait are ghost: they are never
    // called at runtime, so an unverified implementation stubs them out.
    fn after_observe_commit(self, _: Vec<Vec<u64>>) -> Self {
        unreachable!()
    }

    fn after_observe_ext(self, _: u64) -> Self {
        unreachable!()
    }

    fn ext_sample(self) -> u64 {
        unreachable!()
    }

    fn after_sample_ext(self) -> Self {
        unreachable!()
    }

    fn bits_sample(self, _: usize) -> usize {
        unreachable!()
    }

    fn after_sample_bits(self, _: usize) -> Self {
        unreachable!()
    }

    fn witness_ok(self, _: usize, _: u64) -> bool {
        unreachable!()
    }

    fn after_check_witness(self, _: usize, _: u64) -> Self {
        unreachable!()
    }

    fn observe_commitment(&mut self, c: &Vec<Vec<u64>>) {
        self.absorb(c.len() as u64);
        for row in c {
            self.absorb(row.len() as u64);
            for &x in row {
                self.absorb(x);
            }
        }
    }

    fn observe_ext_element(&mut self, x: &u64) {
        self.absorb(*x);
    }

    fn sample_ext_element(&mut self) -> u64 {
        self.next() % Q
    }

    fn sample_bits(&mut self, n: usize) -> usize {
        let v: u64 = self.next();
        ((v >> 33) as usize) & ((1usize << n) - 1)
    }

    fn check_witness(&mut self, bits: usize, w: &u64) -> bool {
        let m: u64 = 1u64 << bits;
        let ok: bool = self.state.wrapping_add(*w) % m == 0;
        self.absorb(*w);
        ok
    }
}

/// A mock scheme: the "commitment" is the committed matrix itself, the code
/// is the coefficient-identity code (coefficients zero-padded to the domain
/// size), and folding takes the beta-weighted sum of a coset. The input
/// oracle is the full outer evaluation vector.
pub struct TestScheme;

fn pad_to(poly: &Vec<u64>, n: usize) -> Vec<u64> {
    let mut c = poly.clone();
    while c.len() < n {
        c.push(0u64);
    }
    c
}

fn fold_coset(coset: &Vec<u64>, beta: u64) -> u64 {
    let mut acc: u64 = 0;
    let mut pw: u64 = 1;
    for &x in coset {
        acc = (acc + pw * x % Q) % Q;
        pw = pw * beta % Q;
    }
    acc
}

impl FriScheme<u64, Vec<Vec<u64>>, Vec<Vec<u64>>, ()> for TestScheme {
    type MmcsError = u8;
    type InputError = u8;

    // The specification functions of the trait are ghost: they are never
    // called at runtime, so an unverified implementation stubs them out.
    fn add_spec(self, _: u64, _: u64) -> u64 {
        unreachable!()
    }

    fn batch_check(
        self,
        _: Vec<Vec<u64>>,
        _: nat,
        _: nat,
        _: nat,
        _: Seq<u64>,
        _: (),
    ) -> Result<(), u8> {
        unreachable!()
    }

    fn encode_spec(self, _: nat, _: nat, _: Seq<u64>) -> Seq<u64> {
        unreachable!()
    }

    fn fold_spec(self, _: nat, _: nat, _: u64, _: Seq<u64>) -> u64 {
        unreachable!()
    }

    fn open_input_spec(self, _: nat, _: Vec<Vec<u64>>) -> Result<Seq<(usize, u64)>, u8> {
        unreachable!()
    }

    fn add(&self, a: u64, b: u64) -> u64 {
        (a + b) % Q
    }

    fn challenge_eq(&self, a: &u64, b: &u64) -> bool {
        *a == *b
    }

    fn verify_batch(
        &self,
        comm: &Vec<Vec<u64>>,
        width: usize,
        height: usize,
        row: usize,
        opened: &Vec<u64>,
        _opening_proof: &(),
    ) -> Result<(), u8> {
        if comm.len() != height {
            return Err(1);
        }
        if row >= height {
            return Err(2);
        }
        if comm[row].len() != width || opened.len() != width {
            return Err(3);
        }
        if &comm[row] != opened {
            return Err(4);
        }
        Ok(())
    }

    fn encode(&self, log_len: usize, _log_blowup: usize, poly: &Vec<u64>) -> Vec<u64> {
        pad_to(poly, 1usize << log_len)
    }

    fn fold(&self, _row: usize, _log_folded_height: usize, beta: u64, coset: &Vec<u64>) -> u64 {
        fold_coset(coset, beta)
    }

    fn open_input(&self, index: usize, input_proof: &Vec<Vec<u64>>) -> Result<Vec<(usize, u64)>, u8> {
        if input_proof.is_empty() {
            return Err(9);
        }
        let lmh: usize = input_proof[0].len().trailing_zeros() as usize;
        let mut out: Vec<(usize, u64)> = Vec::new();
        for oracle in input_proof {
            if oracle.is_empty() || !oracle.len().is_power_of_two() {
                return Err(9);
            }
            let lh: usize = oracle.len().trailing_zeros() as usize;
            if lh > lmh {
                return Err(8);
            }
            if index >> (lmh - lh) >= oracle.len() {
                return Err(7);
            }
            out.push((lh, oracle[index >> (lmh - lh)]));
        }
        Ok(out)
    }
}

/// Build a valid proof for `poly` (coefficients, power-of-two length) under
/// the given per-round folding arities, replaying the same transcript the
/// verifier will replay.
fn prove(
    config: &FriConfig,
    poly: &Vec<u64>,
    extra_oracles: &Vec<Vec<u64>>,
    log_arities: &Vec<usize>,
    challenger: &mut TestChallenger,
) -> FriProof<Vec<Vec<u64>>, u64, u64, Vec<Vec<u64>>, ()> {
    let log_poly: usize = poly.len().trailing_zeros() as usize;
    assert_eq!(poly.len(), 1usize << log_poly);
    let mut sum_a: usize = 0;
    for &a in log_arities {
        sum_a += a;
    }
    let log_final: usize = log_poly - sum_a;
    let lmh: usize = config.log_blowup + log_poly;
    let input_oracle = pad_to(poly, 1usize << lmh);

    let mut o = input_oracle.clone();
    let mut commits: Vec<Vec<Vec<u64>>> = Vec::new();
    let mut matrices: Vec<Vec<Vec<u64>>> = Vec::new();
    for &a in log_arities {
        let w: usize = 1usize << a;
        let rows: usize = o.len() / w;
        let mut m: Vec<Vec<u64>> = Vec::new();
        for r in 0..rows {
            m.push(o[r * w..r * w + w].to_vec());
        }
        challenger.observe_commitment(&m);
        let beta: u64 = challenger.sample_ext_element();
        let mut o2: Vec<u64> = Vec::new();
        for r in 0..rows {
            o2.push(fold_coset(&m[r], beta));
        }
        for e in extra_oracles {
            if e.len() == o2.len() {
                for r in 0..rows {
                    o2[r] = (o2[r] + e[r]) % Q;
                }
            }
        }
        matrices.push(m.clone());
        commits.push(m);
        o = o2;
    }
    let final_poly: Vec<u64> = o[0..(1usize << log_final)].to_vec();
    for &x in &o[(1usize << log_final)..] {
        assert_eq!(x, 0u64);
    }
    for &x in &final_poly {
        challenger.observe_ext_element(&x);
    }
    let m: u64 = 1u64 << config.proof_of_work_bits;
    let w: u64 = (m - (challenger.state % m)) % m;
    assert!(challenger.check_witness(config.proof_of_work_bits, &w));
    let mut query_proofs: Vec<QueryProof<u64, Vec<Vec<u64>>, ()>> = Vec::new();
    for _q in 0..config.num_queries {
        let mut index: usize = challenger.sample_bits(lmh);
        let mut steps: Vec<CommitPhaseProofStep<u64, ()>> = Vec::new();
        for (i, &a) in log_arities.iter().enumerate() {
            let cw: usize = 1usize << a;
            let t: usize = index % cw;
            let row: usize = index / cw;
            let coset = &matrices[i][row];
            let mut openings: Vec<u64> = Vec::new();
            for j in 0..cw {
                if j != t {
                    openings.push(coset[j]);
                }
            }
            steps.push(CommitPhaseProofStep { log_folding_arity: a, openings, opening_proof: () });
            index = row;
        }
        let mut oracles: Vec<Vec<u64>> = vec![input_oracle.clone()];
        for e in extra_oracles {
            oracles.push(e.clone());
        }
        query_proofs.push(QueryProof { commit_phase_openings: steps, input_proof: oracles });
    }
    FriProof { commit_phase_commits: commits, query_proofs, final_poly, pow_witness: w }
}

fn config_16_to_4() -> FriConfig {
    FriConfig { log_blowup: 2, num_queries: 1, proof_of_work_bits: 4 }
}

fn proof_16_to_4(seed: u64) -> FriProof<Vec<Vec<u64>>, u64, u64, Vec<Vec<u64>>, ()> {
    let poly: Vec<u64> = vec![3, 1, 4, 1];
    let mut pc = TestChallenger::new(seed);
    prove(&config_16_to_4(), &poly, &vec![], &vec![2], &mut pc)
}

#[test]
fn accepts_valid_single_round_proof() {
    // Degree < 4 polynomial, oracle of length 16 (log_blowup = 2), one
    // folding round reducing 16 -> 4, terminal polynomial of length 1.
    let config = config_16_to_4();
    let proof = proof_16_to_4(42);
    let mut vc = TestChallenger::new(42);
    let res = verify(&config, &proof, &mut vc, &TestScheme);
    assert!(matches!(res, Ok(())));
}

#[test]
fn rejects_corrupted_sibling_opening() {
    let config = config_16_to_4();
    let mut proof = proof_16_to_4(42);
    proof.query_proofs[0].commit_phase_openings[0].openings[0] ^= 1;
    let mut vc = TestChallenger::new(42);
    let res = verify(&config, &proof, &mut vc, &TestScheme);
    assert!(matches!(res, Err(FriError::CommitPhaseMmcsError(_))));
}

#[test]
fn accepts_valid_multi_round_proof() {
    let config = FriConfig { log_blowup: 1, num_queries: 3, proof_of_work_bits: 3 };
    let poly: Vec<u64> = vec![7, 0, 2, 5, 1, 1, 3, 9];
    let mut pc = TestChallenger::new(7);
    let proof = prove(&config, &poly, &vec![], &vec![1, 2], &mut pc);
    let mut vc = TestChallenger::new(7);
    let res = verify(&config, &proof, &mut vc, &TestScheme);
    assert!(matches!(res, Ok(())));
}

#[test]
fn accepts_zero_round_proof() {
    let config = FriConfig { log_blowup: 2, num_queries: 2, proof_of_work_bits: 2 };
    let poly: Vec<u64> = vec![5, 6, 7, 8];
    let mut pc = TestChallenger::new(11);
    let proof = prove(&config, &poly, &vec![], &vec![], &mut pc);
    let mut vc = TestChallenger::new(11);
    let res = verify(&config, &proof, &mut vc, &TestScheme);
    assert!(matches!(res, Ok(())));
}

#[test]
fn rejects_wrong_query_count() {
    let proof = proof_16_to_4(42);
    let config = FriConfig { log_blowup: 2, num_queries: 2, proof_of_work_bits: 4 };
    let mut vc = TestChallenger::new(42);
    let res = verify(&config, &proof, &mut vc, &TestScheme);
    assert!(matches!(res, Err(FriError::InvalidProofShape)));
}

#[test]
fn rejects_truncated_query_list() {
    let config = config_16_to_4();
    let mut proof = proof_16_to_4(42);
    proof.query_proofs.pop();
    let mut vc = TestChallenger::new(42);
    let res = verify(&config, &proof, &mut vc, &TestScheme);
    assert!(matches!(res, Err(FriError::InvalidProofShape)));
}

#[test]
fn rejects_final_poly_of_non_power_of_two_length() {
    for len in [0usize, 3, 5, 6, 7] {
        let config = config_16_to_4();
        let mut proof = proof_16_to_4(42);
        proof.final_poly = vec![1u64; len];
        let mut vc = TestChallenger::new(42);
        let res = verify(&config, &proof, &mut vc, &TestScheme);
        assert!(matches!(res, Err(FriError::InvalidProofShape)));
    }
}

#[test]
fn rejects_bad_pow_witness() {
    let config = config_16_to_4();
    let mut proof = proof_16_to_4(42);
    proof.pow_witness = proof.pow_witness.wrapping_add(1);
    let mut vc = TestChallenger::new(42);
    let res = verify(&config, &proof, &mut vc, &TestScheme);
    assert!(matches!(res, Err(FriError::InvalidPowWitness)));
}

#[test]
fn rejects_inconsistent_arities() {
    let config = FriConfig { log_blowup: 2, num_queries: 2, proof_of_work_bits: 4 };
    let poly: Vec<u64> = vec![3, 1, 4, 1];
    let mut pc = TestChallenger::new(5);
    let mut proof = prove(&config, &poly, &vec![], &vec![2], &mut pc);
    proof.query_proofs[1].commit_phase_openings[0].log_folding_arity = 1;
    let mut vc = TestChallenger::new(5);
    let res = verify(&config, &proof, &mut vc, &TestScheme);
    assert!(matches!(res, Err(FriError::InvalidProofShape)));
}

#[test]
fn rejects_step_count_mismatch() {
    let config = config_16_to_4();
    let mut proof = proof_16_to_4(42);
    proof.query_proofs[0].commit_phase_openings.clear();
    let mut vc = TestChallenger::new(42);
    let res = verify(&config, &proof, &mut vc, &TestScheme);
    assert!(matches!(res, Err(FriError::InvalidProofShape)));
}

#[test]
fn rejects_failing_input_opening() {
    let config = config_16_to_4();
    let mut proof = proof_16_to_4(42);
    proof.query_proofs[0].input_proof = Vec::new();
    let mut vc = TestChallenger::new(42);
    let res = verify(&config, &proof, &mut vc, &TestScheme);
    assert!(matches!(res, Err(FriError::InputError(9))));
}

#[test]
fn rejects_tampered_final_poly() {
    // No folding rounds: the final polynomial is checked directly against
    // the queried oracle entries. Tamper every coefficient and re-grind the
    // witness, so that the shape and proof-of-work checks pass and the
    // mismatch itself is what rejects the proof.
    let config = FriConfig { log_blowup: 0, num_queries: 4, proof_of_work_bits: 2 };
    let poly: Vec<u64> = vec![5, 6, 7, 8];
    let tampered: Vec<u64> = vec![6, 7, 8, 9];
    let mut pc = TestChallenger::new(3);
    let honest = prove(&config, &poly, &vec![], &vec![], &mut pc);
    // Replay the transcript with the tampered final polynomial to pick up a
    // valid witness and the matching query indices.
    let mut pc2 = TestChallenger::new(3);
    let mut forged = prove(&config, &tampered, &vec![], &vec![], &mut pc2);
    for qp in &mut forged.query_proofs {
        qp.input_proof = honest.query_proofs[0].input_proof.clone();
    }
    let mut vc = TestChallenger::new(3);
    let res = verify(&config, &forged, &mut vc, &TestScheme);
    assert!(matches!(res, Err(FriError::FinalPolyMismatch)));
}

#[test]
fn deterministic_verification() {
    let config = config_16_to_4();
    let proof = proof_16_to_4(42);
    let mut vc1 = TestChallenger::new(42);
    let mut vc2 = TestChallenger::new(42);
    let r1 = verify(&config, &proof, &mut vc1, &TestScheme);
    let r2 = verify(&config, &proof, &mut vc2, &TestScheme);
    assert_eq!(r1, r2);
    let mut bad = proof_16_to_4(42);
    bad.query_proofs[0].commit_phase_openings[0].openings[1] ^= 2;
    let mut vc3 = TestChallenger::new(42);
    let mut vc4 = TestChallenger::new(42);
    let r3 = verify(&config, &bad, &mut vc3, &TestScheme);
    let r4 = verify(&config, &bad, &mut vc4, &TestScheme);
    assert_eq!(r3, r4);
}

#[test]
fn accepts_proof_with_mid_height_input() {
    // A second input oracle enters the folding walk at the height it
    // becomes relevant: its reduced opening is added to the running folded
    // evaluation after the round that reaches its height.
    let config = FriConfig { log_blowup: 1, num_queries: 3, proof_of_work_bits: 3 };
    let poly: Vec<u64> = vec![7, 0, 2, 5, 1, 1, 3, 9];
    let extra: Vec<u64> = vec![4, 13, 0, 0];
    let mut pc = TestChallenger::new(9);
    let proof = prove(&config, &poly, &vec![extra.clone()], &vec![2], &mut pc);
    let mut vc = TestChallenger::new(9);
    let res = verify(&config, &proof, &mut vc, &TestScheme);
    assert!(matches!(res, Ok(())));
}

#[test]
fn rejects_leftover_reduced_openings() {
    // An input oracle at a height the folding walk never reaches leaves its
    // reduced opening unconsumed, which is a shape violation.
    let config = config_16_to_4();
    let mut proof = proof_16_to_4(42);
    let stray: Vec<u64> = vec![1u64; 8];
    proof.query_proofs[0].input_proof.push(stray);
    let mut vc = TestChallenger::new(42);
    let res = verify(&config, &proof, &mut vc, &TestScheme);
    assert!(matches!(res, Err(FriError::InvalidProofShape)));
}

#[test]
fn rejects_duplicate_input_heights() {
    // Reduced openings must be strictly height-descending; a duplicated
    // height is a shape violation.
    let config = config_16_to_4();
    let mut proof = proof_16_to_4(42);
    let dup = proof.query_proofs[0].input_proof[0].clone();
    proof.query_proofs[0].input_proof.push(dup);
    let mut vc = TestChallenger::new(42);
    let res = verify(&config, &proof, &mut vc, &TestScheme);
    assert!(matches!(res, Err(FriError::InvalidProofShape)));
}
