use apk_proofs::base_field::Fq;
use apk_proofs::bw6::G1Affine;
use apk_proofs::endo::{glv_endomorphism_proj, mul_by_u, omega, subgroup_check, U};
use apk_proofs::field::Fr;
use ark_ec::CurveGroup;
use ark_ff::{Field, PrimeField};
use ark_std::{test_rng, UniformRand};

/// lambda such that the endomorphism multiplies every point of G1 by it
fn lambda() -> Fr {
    Fr::from_limbs([
        0x8508c00000000001,
        0x452217cc90000000,
        0xc5ed1347970dec00,
        0x619aaf7d34594aab,
        0x9b3af05dd14f6ec,
        0x0,
    ])
    .unwrap()
}

fn fq(x: ark_bw6_761::Fq) -> Fq {
    Fq::from_limbs(x.into_bigint().0).unwrap()
}

fn from_ark(p: ark_bw6_761::G1Affine) -> G1Affine {
    G1Affine::new_unchecked(fq(p.x), fq(p.y))
}

fn glv_endomorphism_in_place(p: &mut G1Affine) {
    p.x = p.x.mul(&omega());
}

fn glv_endomorphism(p: &G1Affine) -> G1Affine {
    let mut p = *p;
    glv_endomorphism_in_place(&mut p);
    p
}

#[test]
fn test_omega() {
    assert!(omega().pow(3).is_one());
}

#[test]
fn omega_is_not_one() {
    assert!(!omega().is_one());
    assert!(!omega().pow(2).is_one());
}

#[test]
fn test_endo() {
    let rng = &mut test_rng();

    let p1 = from_ark(ark_bw6_761::G1Projective::rand(rng).into_affine());
    let mut p2 = p1;

    assert!(glv_endomorphism(&p1).equals(&p1.mul(&lambda())));
    glv_endomorphism_in_place(&mut p2);
    assert!(p2.equals(&p1.mul(&lambda())));
}

#[test]
fn test_endo_proj() {
    let rng = &mut test_rng();

    let p = from_ark(ark_bw6_761::G1Projective::rand(rng).into_affine());

    assert!(glv_endomorphism_proj(&p).equals(&p.mul(&lambda())));
}

#[test]
fn test_subgroup_check() {
    let rng = &mut test_rng();

    let p = from_ark(ark_bw6_761::G1Projective::rand(rng).into_affine());

    assert!(subgroup_check(&p));

    let point_not_in_g1 = loop {
        let x = ark_bw6_761::Fq::rand(rng);
        let p = ark_bw6_761::G1Affine::get_point_from_x_unchecked(x, false);
        if p.is_some() && !p.unwrap().is_in_correct_subgroup_assuming_on_curve() {
            break p.unwrap();
        }
    };

    assert!(point_not_in_g1.is_on_curve());
    assert!(!point_not_in_g1.is_in_correct_subgroup_assuming_on_curve());
    assert!(!subgroup_check(&from_ark(point_not_in_g1)));
}

#[test]
fn the_identity_is_in_the_subgroup() {
    assert!(subgroup_check(&G1Affine::identity()));
}

#[test]
fn mul_by_u_is_the_scalar_multiple() {
    let rng = &mut test_rng();
    let p = from_ark(ark_bw6_761::G1Projective::rand(rng).into_affine());
    assert!(mul_by_u(&p).equals(&p.mul(&Fr::from_u64(U))));
    assert!(!mul_by_u(&p).equals(&p));
}

#[test]
fn group_operations_agree_with_each_other() {
    let rng = &mut test_rng();
    let p = from_ark(ark_bw6_761::G1Projective::rand(rng).into_affine());
    let q = from_ark(ark_bw6_761::G1Projective::rand(rng).into_affine());
    assert!(p.double().equals(&p.add(&p)));
    assert!(!p.double().equals(&p));
    assert!(p.add(&q).sub(&q).equals(&p));
    assert!(!p.add(&q).equals(&p));
    assert!(!p.sub(&q).equals(&p));
    assert!(p.sub(&p).is_identity());
    assert!(p.mul(&Fr::from_u64(3)).equals(&p.double().add(&p)));
    assert!(p.add(&G1Affine::identity()).equals(&p));
}

#[test]
fn base_field_multiplication_reduces() {
    let two = Fq::one().mul(&Fq::from_limbs([2, 0, 0, 0, 0, 0, 0, 0, 0, 0, 0, 0]).unwrap());
    assert_eq!(two.limbs()[0], 2);
    let big = Fq::from_limbs([0, 0, 0, 0, 0, 0, 0, 0, 0, 0, 0, 0x100000000000000]).unwrap();
    let product = fq(ark_bw6_761::Fq::from(ark_ff::BigInt(big.limbs())).square());
    assert!(big.mul(&big).equals(&product));
    assert!(!big.mul(&big).equals(&big));
    assert!(Fq::from_limbs([
        0xf49d00000000008b,
        0xe6913e6870000082,
        0x160cf8aeeaf0a437,
        0x98a116c25667a8f8,
        0x71dcd3dc73ebff2e,
        0x8689c8ed12f9fd90,
        0x3cebaff25b42304,
        0x707ba638e584e919,
        0x528275ef8087be41,
        0xb926186a81d14688,
        0xd187c94004faff3e,
        0x122e824fb83ce0a,
    ])
    .is_none());
}
