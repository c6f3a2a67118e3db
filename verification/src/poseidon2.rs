//! Poseidon2 internal layers for 31-bit Montgomery-form prime fields.
//!
//! The permutation's internal rounds work over a 31-bit prime field whose
//! parameters — the prime, and the diffusion matrix `1 + Diag(vec)` of the
//! internal linear layer — are supplied by an implementation of
//! [`MontyParameters`] and [`InternalLayerBaseParameters`]. The round
//! structure itself (add a round constant to the first lane, raise it to a
//! small power, then multiply the state by the diffusion matrix) is
//! implemented and verified here, against a specification-level model of the
//! rounds.

use vstd::prelude::*;
use vstd::arithmetic::power::pow;
use vstd::arithmetic::div_mod::{
    lemma_fundamental_div_mod_converse_mod, lemma_mod_division_less_than_divisor,
    lemma_mul_mod_noop_left, lemma_small_mod,
};
use core::marker::PhantomData;
use vstd::pervasive::arbitrary;

verus! {

/// Parameters of a 31-bit prime field whose elements are held in Montgomery
/// form: the prime modulus. Implemented by the embedding crate, one
/// implementation per concrete field.
pub trait MontyParameters: Clone + Copy + Sized {
    /// The field's prime modulus.
    spec fn prime_spec() -> u32;

    /// The prime modulus as a runtime value. It fits 31 bits, so that two
    /// reduced values can be added without overflowing 32 bits.
    fn prime() -> (p: u32)
        ensures
            p == Self::prime_spec(),
            1 < p < 0x8000_0000,
    ;
}

/// Field parameters beyond the bare modulus; a marker refining
/// [`MontyParameters`] for types that describe a full field instance.
pub trait FieldParameters: MontyParameters {
}

/// One element of the field described by `MP`, kept reduced modulo the
/// prime.
#[derive(Clone, Copy)]
pub struct MontyField31<MP: MontyParameters> {
    /// The reduced representative.
    pub value: u32,
    /// The field the element belongs to.
    pub _marker: Ghost<MP>,
}

/// The mathematical values of a sequence of field elements.
pub open spec fn vals<MP: MontyParameters>(s: Seq<MontyField31<MP>>) -> Seq<nat> {
    s.map_values(|x: MontyField31<MP>| x.val())
}

/// Whether every element of a sequence is reduced.
pub open spec fn all_reduced<MP: MontyParameters>(s: Seq<MontyField31<MP>>) -> bool {
    forall|i: int| 0 <= i < s.len() ==> #[trigger] s[i].wf()
}

/// `b^e mod m`.
pub open spec fn pow_mod(b: nat, e: nat, m: nat) -> nat
    recommends
        m > 0,
{
    (pow(b as int, e) % m as int) as nat
}

/// The sum of a sequence of values, reduced modulo `m` after every addition,
/// as a left-to-right running sum computes it.
pub open spec fn sum_mod(s: Seq<nat>, m: nat) -> nat
    decreases s.len(),
{
    if s.len() == 0 {
        0
    } else {
        (sum_mod(s.drop_last(), m) + s.last()) % m
    }
}

impl<MP: MontyParameters> MontyField31<MP> {
    /// The mathematical value of the element.
    pub open spec fn val(self) -> nat {
        self.value as nat
    }

    /// Whether the representative is reduced.
    pub open spec fn wf(self) -> bool {
        self.value < MP::prime_spec()
    }

    /// Build the element of a reduced representative.
    pub fn new(value: u32) -> (r: Self)
        requires
            value < MP::prime_spec(),
        ensures
            r.wf(),
            r.val() == value,
    {
        MontyField31 { value, _marker: Ghost(arbitrary()) }
    }

    /// Field addition.
    pub fn add(self, other: Self) -> (r: Self)
        requires
            self.wf(),
            other.wf(),
        ensures
            r.wf(),
            r.val() == (self.val() + other.val()) % (MP::prime_spec() as nat),
    {
        let p = MP::prime();
        let s = self.value + other.value;
        let v = if s >= p {
            s - p
        } else {
            s
        };
        proof {
            if s >= p {
                lemma_fundamental_div_mod_converse_mod(s as int, p as int, 1int, (s - p) as int);
            } else {
                lemma_small_mod(s as nat, p as nat);
            }
        }
        MontyField31 { value: v, _marker: Ghost(arbitrary()) }
    }

    /// Field subtraction.
    pub fn sub(self, other: Self) -> (r: Self)
        requires
            self.wf(),
            other.wf(),
        ensures
            r.wf(),
            r.val() == ((self.val() + MP::prime_spec() - other.val()) % (MP::prime_spec() as int)) as nat,
    {
        let p = MP::prime();
        let v = if self.value >= other.value {
            self.value - other.value
        } else {
            self.value + p - other.value
        };
        proof {
            let d = self.val() + MP::prime_spec() - other.val();
            if self.value >= other.value {
                lemma_fundamental_div_mod_converse_mod(d as int, p as int, 1int, v as int);
            } else {
                lemma_small_mod(d as nat, p as nat);
            }
        }
        MontyField31 { value: v, _marker: Ghost(arbitrary()) }
    }

    /// Field multiplication.
    pub fn mul(self, other: Self) -> (r: Self)
        requires
            self.wf(),
            other.wf(),
        ensures
            r.wf(),
            r.val() == (self.val() * other.val()) % (MP::prime_spec() as nat),
    {
        let p = MP::prime();
        let a = self.value;
        let b = other.value;
        proof {
            assert((a as u64) * (b as u64) < 0x8000_0000u64 * 0x8000_0000u64) by (nonlinear_arith)
                requires
                    a < 0x8000_0000u32,
                    b < 0x8000_0000u32,
            ;
        }
        let prod = (a as u64) * (b as u64);
        let v = (prod % (p as u64)) as u32;
        proof {
            lemma_mod_division_less_than_divisor(prod as int, p as int);
        }
        MontyField31 { value: v, _marker: Ghost(arbitrary()) }
    }

    /// Raise the element to the constant power `D`.
    pub fn exp_const_u64<const D: u64>(self) -> (r: Self)
        requires
            self.wf(),
        ensures
            r.wf(),
            r.val() == pow_mod(self.val(), D as nat, MP::prime_spec() as nat),
    {
        let p = MP::prime();
        let mut acc = MontyField31::<MP>::new(1);
        let mut i: u64 = 0;
        proof {
            vstd::arithmetic::power::lemma_pow0(self.val() as int);
            lemma_small_mod(1nat, p as nat);
        }
        while i < D
            invariant
                i <= D,
                acc.wf(),
                self.wf(),
                acc.val() == pow_mod(self.val(), i as nat, MP::prime_spec() as nat),
            decreases D - i,
        {
            proof {
                let m = MP::prime_spec() as int;
                let b = self.val() as int;
                vstd::arithmetic::power::lemma_pow1(b);
                vstd::arithmetic::power::lemma_pow_adds(b, i as nat, 1nat);
                lemma_mul_mod_noop_left(pow(b, i as nat), b, m);
            }
            acc = acc.mul(self);
            i = i + 1;
        }
        acc
    }
}

/// Everything needed to multiply a Poseidon2 state by the internal diffusion
/// matrix `1 + Diag(vec)` of a `WIDTH`-lane instance over the field `MP`.
/// Implemented by the embedding crate, one implementation per field and
/// width; each implementation defines the specification functions below for
/// its own diagonal.
pub trait InternalLayerBaseParameters<MP: MontyParameters, const WIDTH: usize>: Sized {
    /// The state after the diffusion-matrix multiplication of the internal
    /// rounds. The first lane is handled by the caller and is left
    /// unchanged; each remaining lane is scaled by its diagonal entry and
    /// shifted by `sum`.
    spec fn mat_mul_spec(state: Seq<nat>, sum: nat) -> Seq<nat>;

    /// The state after the full internal linear layer, first lane included.
    spec fn linear_layer_spec(state: Seq<nat>) -> Seq<nat>;

    /// Multiply the state by the diffusion matrix, leaving the first lane
    /// untouched.
    fn internal_layer_mat_mul(state: &mut Vec<MontyField31<MP>>, sum: MontyField31<MP>)
        requires
            old(state)@.len() == WIDTH,
            all_reduced(old(state)@),
            sum.wf(),
        ensures
            final(state)@.len() == WIDTH,
            all_reduced(final(state)@),
            vals(final(state)@) == Self::mat_mul_spec(vals(old(state)@), sum.val()),
    ;

    /// Apply the full internal linear layer.
    fn generic_internal_linear_layer(state: &mut Vec<MontyField31<MP>>)
        requires
            old(state)@.len() == WIDTH,
            all_reduced(old(state)@),
        ensures
            final(state)@.len() == WIDTH,
            all_reduced(final(state)@),
            vals(final(state)@) == Self::linear_layer_spec(vals(old(state)@)),
    ;
}

/// Marker for internal-layer parameters usable on this target; a refinement
/// of [`InternalLayerBaseParameters`] with nothing further to supply.
pub trait InternalLayerParameters<FP: FieldParameters, const WIDTH: usize>:
    InternalLayerBaseParameters<FP, WIDTH> {
}

/// Marker for parameter sets that packed-field kernels can share helper
/// constants over; such kernels keep the Montgomery form of one around as
/// their multiplicative unit.
pub trait PackedFieldPoseidon2Helpers<MP: MontyParameters> {
}

/// One Poseidon2 internal round: add the round constant to the first lane,
/// raise that lane to the power `d`, replace it by the part sum minus it,
/// and multiply by the diffusion matrix under the full sum.
pub open spec fn internal_round_spec<
    MP: MontyParameters,
    ILP: InternalLayerBaseParameters<MP, WIDTH>,
    const WIDTH: usize,
>(state: Seq<nat>, rc: nat, d: u64) -> Seq<nat> {
    let p = MP::prime_spec() as nat;
    let s0 = pow_mod((state[0] + rc) % p, d as nat, p);
    let part_sum = sum_mod(state.subrange(1, WIDTH as int), p);
    let full_sum = (part_sum + s0) % p;
    let new0 = ((part_sum + p - s0) % (p as int)) as nat;
    ILP::mat_mul_spec(state.update(0, new0), full_sum)
}

/// The state after running one internal round per round constant, in order.
pub open spec fn internal_rounds_spec<
    MP: MontyParameters,
    ILP: InternalLayerBaseParameters<MP, WIDTH>,
    const WIDTH: usize,
>(consts: Seq<nat>, state: Seq<nat>, d: u64) -> Seq<nat>
    decreases consts.len(),
{
    if consts.len() == 0 {
        state
    } else {
        internal_rounds_spec::<MP, ILP, WIDTH>(
            consts.drop_first(),
            internal_round_spec::<MP, ILP, WIDTH>(state, consts.first(), d),
            d,
        )
    }
}

/// The internal layers of the Poseidon2 permutation for Monty31 fields: one
/// internal round per stored round constant.
pub struct Poseidon2InternalLayerMonty31<
    MP: MontyParameters,
    const WIDTH: usize,
    ILP: InternalLayerBaseParameters<MP, WIDTH>,
> {
    /// One round constant per internal round, in round order.
    pub internal_constants: Vec<MontyField31<MP>>,
    /// The diffusion-matrix parameters of this instance.
    pub _marker: PhantomData<ILP>,
}

impl<
    MP: MontyParameters,
    const WIDTH: usize,
    ILP: InternalLayerBaseParameters<MP, WIDTH>,
> Poseidon2InternalLayerMonty31<MP, WIDTH, ILP> {
    /// Whether every stored round constant is reduced.
    pub open spec fn wf(self) -> bool {
        all_reduced(self.internal_constants@)
    }

    /// Build the internal layers of one permutation instance from its round
    /// constants.
    pub fn new_from_constants(internal_constants: Vec<MontyField31<MP>>) -> (r: Self)
        ensures
            r.internal_constants == internal_constants,
    {
        Poseidon2InternalLayerMonty31 { internal_constants, _marker: PhantomData }
    }

    /// Compute the collection of Poseidon2 internal layers: one round per
    /// stored constant, each raising the first lane to the power `D`.
    pub fn permute_state<const D: u64>(&self, state: &mut Vec<MontyField31<MP>>)
        requires
            old(state)@.len() == WIDTH,
            all_reduced(old(state)@),
            self.wf(),
            WIDTH >= 2,
        ensures
            final(state)@.len() == WIDTH,
            all_reduced(final(state)@),
            vals(final(state)@) == internal_rounds_spec::<MP, ILP, WIDTH>(
                vals(self.internal_constants@),
                vals(old(state)@),
                D,
            ),
    {
        let ghost cvals = vals(self.internal_constants@);
        let ghost initial = vals(state@);
        let ghost goal = internal_rounds_spec::<MP, ILP, WIDTH>(cvals, initial, D);
        let nrounds = self.internal_constants.len();
        let mut i: usize = 0;
        proof {
            assert(cvals.skip(0int) =~= cvals);
        }
        while i < nrounds
            invariant
                i <= nrounds,
                nrounds == self.internal_constants@.len(),
                cvals == vals(self.internal_constants@),
                self.wf(),
                WIDTH >= 2,
                state@.len() == WIDTH,
                all_reduced(state@),
                goal == internal_rounds_spec::<MP, ILP, WIDTH>(cvals.skip(i as int), vals(state@), D),
            decreases nrounds - i,
        {
            let ghost before = vals(state@);
            let rc = self.internal_constants[i];
            let p = Ghost(MP::prime_spec() as nat);
            let s0 = state[0].add(rc).exp_const_u64::<D>();
            let mut part_sum = MontyField31::<MP>::new(0);
            proof {
                lemma_small_mod(0nat, p@);
                assert(before.subrange(1, 1int) =~= Seq::<nat>::empty());
            }
            let mut k: usize = 1;
            while k < WIDTH
                invariant
                    1 <= k <= WIDTH,
                    state@.len() == WIDTH,
                    all_reduced(state@),
                    before == vals(state@),
                    part_sum.wf(),
                    part_sum.val() == sum_mod(before.subrange(1, k as int), MP::prime_spec() as nat),
                decreases WIDTH - k,
            {
                proof {
                    assert(before.subrange(1, k as int + 1).drop_last() =~= before.subrange(
                        1,
                        k as int,
                    ));
                    assert(before.subrange(1, k as int + 1).last() == before[k as int]);
                }
                part_sum = part_sum.add(state[k]);
                k = k + 1;
            }
            let full_sum = part_sum.add(s0);
            let new0 = part_sum.sub(s0);
            state[0] = new0;
            proof {
                assert(vals(state@) =~= before.update(
                    0,
                    ((sum_mod(before.subrange(1, WIDTH as int), p@) + p@ - pow_mod(
                        (before[0] + rc.val()) % p@,
                        D as nat,
                        p@,
                    )) % (p@ as int)) as nat,
                ));
            }
            ILP::internal_layer_mat_mul(state, full_sum);
            proof {
                assert(vals(state@) == internal_round_spec::<MP, ILP, WIDTH>(before, cvals[i as int], D));
                assert(cvals.skip(i as int).first() == cvals[i as int]);
                assert(cvals.skip(i as int).drop_first() =~= cvals.skip(i as int + 1));
            }
            i = i + 1;
        }
        proof {
            assert(cvals.skip(nrounds as int) =~= Seq::<nat>::empty());
        }
    }
}

/// The external layers of the Poseidon2 permutation for Monty31 fields: the
/// per-round constants of the initial external rounds (before the internal
/// rounds) and of the terminal external rounds (after them), one `WIDTH`-lane
/// vector per round.
///
/// The external rounds themselves multiply the state by an MDS kernel that
/// is a platform primitive outside this crate's scope; this type carries the
/// constants those kernels consume.
pub struct Poseidon2ExternalLayerMonty31<MP: MontyParameters, const WIDTH: usize> {
    /// One constant vector per initial external round, in round order.
    pub initial_constants: Vec<Vec<MontyField31<MP>>>,
    /// One constant vector per terminal external round, in round order.
    pub terminal_constants: Vec<Vec<MontyField31<MP>>>,
}

impl<MP: MontyParameters, const WIDTH: usize> Poseidon2ExternalLayerMonty31<MP, WIDTH> {
    /// Whether every round's constant vector has one reduced constant per
    /// lane.
    pub open spec fn wf(self) -> bool {
        &&& forall|i: int|
            0 <= i < self.initial_constants@.len() ==> #[trigger] self.initial_constants@[i]@.len()
                == WIDTH && all_reduced(self.initial_constants@[i]@)
        &&& forall|i: int|
            0 <= i < self.terminal_constants@.len()
                ==> #[trigger] self.terminal_constants@[i]@.len() == WIDTH && all_reduced(
                self.terminal_constants@[i]@,
            )
    }

    /// Build the external layers of one permutation instance from its round
    /// constants.
    pub fn new_from_constants(
        initial_constants: Vec<Vec<MontyField31<MP>>>,
        terminal_constants: Vec<Vec<MontyField31<MP>>>,
    ) -> (r: Self)
        ensures
            r.initial_constants == initial_constants,
            r.terminal_constants == terminal_constants,
    {
        Poseidon2ExternalLayerMonty31 { initial_constants, terminal_constants }
    }

    /// The constants of the initial external rounds.
    pub fn get_initial_constants(&self) -> (r: &Vec<Vec<MontyField31<MP>>>)
        ensures
            r == self.initial_constants,
    {
        &self.initial_constants
    }

    /// The constants of the terminal external rounds.
    pub fn get_terminal_constants(&self) -> (r: &Vec<Vec<MontyField31<MP>>>)
        ensures
            r == self.terminal_constants,
    {
        &self.terminal_constants
    }
}

/// A generic wrapper supplying the Poseidon2 internal linear layer of a
/// Monty31 field to permutation code that is generic over the linear
/// layers.
pub struct GenericPoseidon2LinearLayersMonty31<FP, ILBP> {
    /// The field the layer works over.
    pub _phantom1: PhantomData<FP>,
    /// The diffusion-matrix parameters of the layer.
    pub _phantom2: PhantomData<ILBP>,
}

impl<FP: FieldParameters, ILBP> GenericPoseidon2LinearLayersMonty31<FP, ILBP> {
    /// Apply the internal linear layer of the instance described by `ILBP`.
    pub fn internal_linear_layer<const WIDTH: usize>(state: &mut Vec<MontyField31<FP>>)
        where ILBP: InternalLayerBaseParameters<FP, WIDTH>
        requires
            old(state)@.len() == WIDTH,
            all_reduced(old(state)@),
        ensures
            final(state)@.len() == WIDTH,
            all_reduced(final(state)@),
            vals(final(state)@) == ILBP::linear_layer_spec(vals(old(state)@)),
    {
        ILBP::generic_internal_linear_layer(state);
    }
}

} // verus!
