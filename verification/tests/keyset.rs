use apk_proofs::base_field::Fq;
use apk_proofs::bw6;
use apk_proofs::curve::{hash_to_curve, point_in_g1_complement, G1Affine};
use apk_proofs::domains::generator;
use apk_proofs::field::Fr;
use apk_proofs::keyset::Keyset;
use apk_proofs::kzg::URS;
use apk_proofs::poly::{degree_of, evaluate};
use ark_ec::{AffineRepr, CurveGroup};
use ark_ff::PrimeField;
use ark_poly::DenseUVPolynomial;
use ark_std::rand::{Rng, SeedableRng};
use ark_std::{test_rng, UniformRand};
use blake2::Digest;
use w3f_pcs::pcs::{PcsParams, PCS};

fn fr(x: ark_bls12_377::Fq) -> Fr {
    Fr::from_limbs(x.into_bigint().0).unwrap()
}

fn fq(x: ark_bw6_761::Fq) -> Fq {
    Fq::from_limbs(x.into_bigint().0).unwrap()
}

fn to_ark(p: &G1Affine) -> ark_bls12_377::G1Affine {
    ark_bls12_377::G1Affine::new_unchecked(
        ark_ff::BigInt(p.x.limbs()).into(),
        ark_ff::BigInt(p.y.limbs()).into(),
    )
}

fn from_ark(p: ark_bls12_377::G1Affine) -> G1Affine {
    G1Affine::new_unchecked(fr(p.x), fr(p.y))
}

fn same(a: &G1Affine, b: &G1Affine) -> bool {
    a.x.equals(&b.x) && a.y.equals(&b.y)
}

fn random_pks<R: Rng>(n: usize, rng: &mut R) -> Vec<G1Affine> {
    (0..n).map(|_| from_ark(ark_bls12_377::G1Projective::rand(rng).into_affine())).collect()
}

#[test]
fn h_is_not_in_g1() {
    let h = to_ark(&point_in_g1_complement());
    assert!(h.is_on_curve());
    assert!(!h.is_in_correct_subgroup_assuming_on_curve());
}

#[test]
fn the_domain_is_the_smallest_with_room_for_the_accumulator() {
    let rng = &mut test_rng();
    for (m, log_n) in [(0usize, 0u32), (1, 1), (2, 2), (3, 2), (4, 3), (7, 3), (8, 4), (63, 6)] {
        let keyset = Keyset::new(random_pks(m, rng));
        assert_eq!(keyset.size(), m);
        assert_eq!(keyset.domain().log_size(), log_n);
        assert_eq!(keyset.domain().size(), 1 << log_n);
        let (x, y) = keyset.pks_polys();
        assert_eq!(x.len(), 1 << log_n);
        assert_eq!(y.len(), 1 << log_n);
        assert!(degree_of(x) < (1 << log_n));
        assert!(degree_of(y) < (1 << log_n));
    }
}

#[test]
fn the_polynomials_take_the_padded_coordinates_on_the_domain() {
    let rng = &mut test_rng();
    let pks = random_pks(5, rng);
    let keyset = Keyset::new(pks.clone());
    let padding = hash_to_curve(b"apk-proofs");
    let w = generator(3);
    let (x, y) = keyset.pks_polys();
    for i in 0..8 {
        let expected = if i < 5 { pks[i] } else { padding };
        assert!(evaluate(x, &w.pow(i as u64)).equals(&expected.x));
        assert!(evaluate(y, &w.pow(i as u64)).equals(&expected.y));
    }
}

#[test]
fn the_padding_key_is_sampled_from_the_digest() {
    let seed = blake2::Blake2s::digest(b"apk-proofs");
    let rng = &mut rand::rngs::StdRng::from_seed(seed.into());
    let expected = ark_bls12_377::G1Projective::rand(rng).into_affine();
    assert!(same(&hash_to_curve(b"apk-proofs"), &from_ark(expected)));
    assert!(to_ark(&hash_to_curve(b"apk-proofs")).is_in_correct_subgroup_assuming_on_curve());
    assert!(!same(&hash_to_curve(b"apk-proofs"), &hash_to_curve(b"apk-proof")));
}

#[test]
fn the_aggregate_is_the_sum_of_the_selected_keys() {
    let rng = &mut test_rng();
    let pks = random_pks(6, rng);
    let keyset = Keyset::new(pks.clone());
    let bits = [true, false, true, true, false, false];
    let expected = (to_ark(&pks[0]) + to_ark(&pks[2]) + to_ark(&pks[3])).into_affine();
    assert!(same(&keyset.aggregate(&bits), &from_ark(expected)));
    assert!(keyset.aggregate(&[false; 6]).is_identity());
    assert!(same(&keyset.aggregate(&[false, true, false, false, false, false]), &pks[1]));
    assert!(!same(&keyset.aggregate(&bits), &pks[0]));
}

#[test]
fn amplifying_keeps_the_set() {
    let rng = &mut test_rng();
    let pks = random_pks(3, rng);
    let mut keyset = Keyset::new(pks.clone());
    let before = keyset.pks_evals_x4();
    keyset.amplify();
    let after = keyset.pks_evals_x4();
    assert_eq!(after.0.len(), 16);
    for i in 0..16 {
        assert!(before.0[i].equals(&after.0[i]));
        assert!(before.1[i].equals(&after.1[i]));
    }
    // every fourth value is a coordinate of a key
    for i in 0..3 {
        assert!(after.0[4 * i].equals(&pks[i].x));
        assert!(after.1[4 * i].equals(&pks[i].y));
    }
    assert_eq!(keyset.size(), 3);
    let copy = keyset.clone();
    assert_eq!(copy.size(), 3);
    assert!(same(&copy.pks()[2], &pks[2]));
}

#[test]
fn the_commitment_is_that_of_the_commitment_scheme() {
    let rng = &mut test_rng();
    let keyset = Keyset::new(random_pks(7, rng));
    let ark_urs = w3f_pcs::pcs::kzg::urs::URS::<ark_bw6_761::BW6_761>::generate(8, 2, rng);
    let g1 = ark_urs
        .powers_in_g1
        .iter()
        .map(|p| bw6::G1Affine::new_unchecked(fq(p.x), fq(p.y)))
        .collect();
    let g2 = ark_urs
        .powers_in_g2
        .iter()
        .map(|p| bw6::G2Affine::new_unchecked(fq(p.x), fq(p.y)))
        .collect();
    let urs = URS::new(g1, g2).unwrap();
    let commitment = keyset.commit(&urs.ck());
    assert_eq!(commitment.log_domain_size, 3);
    let (x, y) = keyset.pks_polys();
    let ark_poly = |p: &Vec<Fr>| {
        ark_poly::univariate::DensePolynomial::from_coefficients_vec(
            p.iter().map(|c| ark_ff::BigInt(c.limbs()).into()).collect(),
        )
    };
    let cx = w3f_pcs::pcs::kzg::KZG::<ark_bw6_761::BW6_761>::commit(&ark_urs.ck(), &ark_poly(x))
        .unwrap()
        .0;
    let cy = w3f_pcs::pcs::kzg::KZG::<ark_bw6_761::BW6_761>::commit(&ark_urs.ck(), &ark_poly(y))
        .unwrap()
        .0;
    assert!(commitment.pks_comm.0.equals(&bw6::G1Affine::new_unchecked(fq(cx.x), fq(cx.y))));
    assert!(commitment.pks_comm.1.equals(&bw6::G1Affine::new_unchecked(fq(cy.x), fq(cy.y))));
    assert!(!commitment.pks_comm.0.equals(&commitment.pks_comm.1));
}

#[test]
fn the_sum_of_two_points_is_the_chord_s() {
    let rng = &mut test_rng();
    for _ in 0..10 {
        let pks = random_pks(2, rng);
        let (p, q) = (pks[0], pks[1]);
        let sum = p.add(&q);
        let slope = q.y.sub(&p.y).mul(&q.x.sub(&p.x).inverse().unwrap());
        assert!(slope.mul(&q.x.sub(&p.x)).equals(&q.y.sub(&p.y)));
        let x = slope.square().sub(&p.x).sub(&q.x);
        let y = slope.mul(&p.x.sub(&x)).sub(&p.y);
        assert!(sum.x.equals(&x));
        assert!(sum.y.equals(&y));
        // also for a point outside the group of the keys
        let h = point_in_g1_complement();
        let sum = h.add(&p);
        let slope = p.y.sub(&h.y).mul(&p.x.sub(&h.x).inverse().unwrap());
        let x = slope.square().sub(&h.x).sub(&p.x);
        assert!(sum.x.equals(&x));
        assert!(sum.y.equals(&slope.mul(&h.x.sub(&x)).sub(&h.y)));
    }
}

#[test]
fn group_addition_agrees_with_the_curve_library() {
    let rng = &mut test_rng();
    let pks = random_pks(2, rng);
    let expected = (to_ark(&pks[0]) + to_ark(&pks[1])).into_affine();
    assert!(same(&pks[0].add(&pks[1]), &from_ark(expected)));
    assert!(!same(&pks[0].add(&pks[1]), &pks[0]));
    assert!(same(&G1Affine::identity().add(&pks[0]), &pks[0]));
    assert!(G1Affine::identity().is_identity());
    assert!(!pks[0].is_identity());
    let h = point_in_g1_complement();
    assert!(h.x.is_zero() && h.y.equals(&Fr::one()));
    assert!(G1Affine::from_coordinates([0; 6], [1, 0, 0, 0, 0, 0]).is_some());
    assert!(G1Affine::from_coordinates([u64::MAX; 6], [1, 0, 0, 0, 0, 0]).is_none());
}
