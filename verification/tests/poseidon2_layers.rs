//! Tests of the Poseidon2 internal layers over a small 31-bit prime field.

use fri::poseidon2::{
    FieldParameters, GenericPoseidon2LinearLayersMonty31, InternalLayerBaseParameters,
    InternalLayerParameters, MontyField31, MontyParameters, PackedFieldPoseidon2Helpers,
    Poseidon2InternalLayerMonty31,
};
use vstd::prelude::{nat, Seq};

/// The field of 97 elements.
#[derive(Clone, Copy)]
pub struct P97;

impl MontyParameters for P97 {
    // The specification function of the trait is ghost: it is never called
    // at runtime, so an unverified implementation stubs it out.
    fn prime_spec() -> u32 {
        unreachable!()
    }

    fn prime() -> u32 {
        97
    }
}

impl FieldParameters for P97 {}

/// Internal diffusion matrix `1 + Diag([-2, 2, 4, 8])` at width 4: the first
/// lane is handled by the round itself, each other lane is scaled by its
/// power of two and shifted by the round's sum.
#[derive(Clone, Copy)]
pub struct Diag4;

impl InternalLayerBaseParameters<P97, 4> for Diag4 {
    // The specification functions of the trait are ghost: they are never
    // called at runtime, so an unverified implementation stubs them out.
    fn mat_mul_spec(_: Seq<nat>, _: nat) -> Seq<nat> {
        unreachable!()
    }

    fn linear_layer_spec(_: Seq<nat>) -> Seq<nat> {
        unreachable!()
    }

    fn internal_layer_mat_mul(state: &mut Vec<MontyField31<P97>>, sum: MontyField31<P97>) {
        for i in 1..4usize {
            let d = MontyField31::<P97>::new(1u32 << i);
            state[i] = state[i].mul(d).add(sum);
        }
    }

    fn generic_internal_linear_layer(state: &mut Vec<MontyField31<P97>>) {
        let mut total = MontyField31::<P97>::new(0);
        for i in 0..4usize {
            total = total.add(state[i]);
        }
        state[0] = state[0].mul(MontyField31::<P97>::new(95)).add(total);
        for i in 1..4usize {
            let d = MontyField31::<P97>::new(1u32 << i);
            state[i] = state[i].mul(d).add(total);
        }
    }
}

impl InternalLayerParameters<P97, 4> for Diag4 {}

impl PackedFieldPoseidon2Helpers<P97> for Diag4 {}

fn elems(values: &[u32]) -> Vec<MontyField31<P97>> {
    let mut out: Vec<MontyField31<P97>> = Vec::new();
    for &v in values {
        out.push(MontyField31::<P97>::new(v));
    }
    out
}

fn values(state: &Vec<MontyField31<P97>>) -> Vec<u32> {
    let mut out: Vec<u32> = Vec::new();
    for x in state {
        out.push(x.value);
    }
    out
}

#[test]
fn field_arithmetic_mod_97() {
    let a = MontyField31::<P97>::new(5);
    let b = MontyField31::<P97>::new(95);
    assert_eq!(a.add(b).value, 3);
    assert_eq!(a.sub(b).value, 7);
    assert_eq!(b.sub(a).value, 90);
    let c = MontyField31::<P97>::new(10);
    let d = MontyField31::<P97>::new(20);
    assert_eq!(c.mul(d).value, 6);
    let e = MontyField31::<P97>::new(6);
    assert_eq!(e.exp_const_u64::<3>().value, 22);
    assert_eq!(e.exp_const_u64::<0>().value, 1);
}

#[test]
fn new_from_constants_stores_constants() {
    let constants = elems(&[5, 11]);
    let layer: Poseidon2InternalLayerMonty31<P97, 4, Diag4> =
        Poseidon2InternalLayerMonty31::new_from_constants(constants);
    assert_eq!(values(&layer.internal_constants), vec![5, 11]);
}

#[test]
fn internal_layer_single_round() {
    let layer: Poseidon2InternalLayerMonty31<P97, 4, Diag4> =
        Poseidon2InternalLayerMonty31::new_from_constants(elems(&[5]));
    let mut state = elems(&[1, 2, 3, 4]);
    layer.permute_state::<3>(&mut state);
    assert_eq!(values(&state), vec![84, 35, 43, 63]);
}

#[test]
fn internal_layer_two_rounds() {
    let layer: Poseidon2InternalLayerMonty31<P97, 4, Diag4> =
        Poseidon2InternalLayerMonty31::new_from_constants(elems(&[5, 11]));
    let mut state = elems(&[1, 2, 3, 4]);
    layer.permute_state::<3>(&mut state);
    assert_eq!(values(&state), vec![52, 9, 14, 55]);
}

#[test]
fn generic_internal_linear_layer_applies_diffusion() {
    let mut state = elems(&[1, 2, 3, 4]);
    GenericPoseidon2LinearLayersMonty31::<P97, Diag4>::internal_linear_layer::<4>(&mut state);
    assert_eq!(values(&state), vec![8, 14, 22, 42]);
}
