use apk_proofs::field::Fr;
use ark_ff::{Field, PrimeField};
use ark_std::{test_rng, UniformRand};

fn fr(x: ark_bls12_377::Fq) -> Fr {
    Fr::from_limbs(x.into_bigint().0).unwrap()
}

fn modulus_minus_one() -> Fr {
    Fr::from_limbs([
        0x8508c00000000000,
        0x170b5d4430000000,
        0x1ef3622fba094800,
        0x1a22d9f300f5138f,
        0xc63b05c06ca1493b,
        0x1ae3a4617c510ea,
    ])
    .unwrap()
}

#[test]
fn field_addition_wraps_at_the_modulus() {
    let two = Fr::from_u64(2);
    assert!(modulus_minus_one().add(&two).equals(&Fr::one()));
    assert!(Fr::from_u64(3).add(&Fr::from_u64(4)).equals(&Fr::from_u64(7)));
}

#[test]
fn field_subtraction_wraps_at_zero() {
    assert!(Fr::zero().sub(&Fr::one()).equals(&modulus_minus_one()));
    assert!(Fr::from_u64(9).sub(&Fr::from_u64(4)).equals(&Fr::from_u64(5)));
    assert!(Fr::one().neg().equals(&modulus_minus_one()));
}

#[test]
fn field_multiplication_reduces() {
    assert!(Fr::from_u64(6).mul(&Fr::from_u64(7)).equals(&Fr::from_u64(42)));
    assert!(modulus_minus_one().mul(&modulus_minus_one()).equals(&Fr::one()));
    assert!(modulus_minus_one().square().equals(&Fr::one()));
}

#[test]
fn field_operations_agree_with_the_field_library() {
    let rng = &mut test_rng();
    for _ in 0..20 {
        let a = ark_bls12_377::Fq::rand(rng);
        let b = ark_bls12_377::Fq::rand(rng);
        assert!(fr(a).add(&fr(b)).equals(&fr(a + b)));
        assert!(fr(a).sub(&fr(b)).equals(&fr(a - b)));
        assert!(fr(a).mul(&fr(b)).equals(&fr(a * b)));
        assert!(fr(a).inverse().unwrap().equals(&fr(a.inverse().unwrap())));
        assert!(fr(a).pow(5).equals(&fr(a.pow([5u64]))));
    }
}

#[test]
fn zero_has_no_inverse() {
    assert!(Fr::zero().inverse().is_none());
    let seven = Fr::from_u64(7);
    assert!(seven.inverse().unwrap().mul(&seven).equals(&Fr::one()));
    assert!(!seven.inverse().unwrap().equals(&seven));
}

#[test]
fn limbs_at_or_above_the_modulus_are_rejected() {
    let modulus = [
        0x8508c00000000001,
        0x170b5d4430000000,
        0x1ef3622fba094800,
        0x1a22d9f300f5138f,
        0xc63b05c06ca1493b,
        0x1ae3a4617c510ea,
    ];
    assert!(Fr::from_limbs(modulus).is_none());
    assert!(Fr::from_limbs([u64::MAX; 6]).is_none());
    let mut below = modulus;
    below[0] -= 1;
    assert_eq!(Fr::from_limbs(below).unwrap().limbs(), below);
}

#[test]
fn powers_and_small_values() {
    assert!(Fr::from_u64(2).pow(10).equals(&Fr::from_u64(1024)));
    assert!(Fr::from_u64(5).pow(0).equals(&Fr::one()));
    assert!(Fr::zero().is_zero());
    assert!(!Fr::one().is_zero());
    assert_eq!(Fr::from_u128_halves(3, 4).limbs(), [3, 4, 0, 0, 0, 0]);
}
