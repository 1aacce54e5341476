use apk_proofs::base_field::Fq;
use apk_proofs::bw6;
use apk_proofs::field::Fr;
use apk_proofs::kzg::URS;
use apk_proofs::poly::evaluate;
use ark_ff::PrimeField;
use ark_std::test_rng;

fn fq(x: ark_bw6_761::Fq) -> Fq {
    Fq::from_limbs(x.into_bigint().0).unwrap()
}

fn urs(n1: usize) -> URS {
    let rng = &mut test_rng();
    let urs = w3f_pcs::pcs::kzg::urs::URS::<ark_bw6_761::BW6_761>::generate(n1, 2, rng);
    let g1 = urs
        .powers_in_g1
        .iter()
        .map(|p| bw6::G1Affine::new_unchecked(fq(p.x), fq(p.y)))
        .collect();
    let g2 = urs
        .powers_in_g2
        .iter()
        .map(|p| bw6::G2Affine::new_unchecked(fq(p.x), fq(p.y)))
        .collect();
    URS::new(g1, g2).unwrap()
}

fn poly(coeffs: &[u64]) -> Vec<Fr> {
    coeffs.iter().map(|c| Fr::from_u64(*c)).collect()
}

#[test]
fn an_opening_verifies_for_the_value_and_for_no_other() {
    let urs = urs(4);
    let ck = urs.ck();
    let vk = urs.raw_vk();
    let p = poly(&[5, 0, 7, 1]);
    let x = Fr::from_u64(11);
    let y = evaluate(&p, &x);
    let c = ck.commit(&p).unwrap();
    let proof = ck.open(&p, &x).unwrap();
    assert!(vk.verify(&c, &x, &y, &proof));
    assert!(!vk.verify(&c, &x, &y.add(&Fr::one()), &proof));
    assert!(!vk.verify(&c, &Fr::from_u64(12), &y, &proof));
    assert!(!vk.verify(&c.double(), &x, &y, &proof));
    assert!(!vk.verify(&c, &x, &y, &c));
}

#[test]
fn coordinates_that_are_no_points_are_rejected() {
    let urs = urs(4);
    let ck = urs.ck();
    let vk = urs.raw_vk();
    let p = poly(&[5, 0, 7, 1]);
    let x = Fr::from_u64(11);
    let y = evaluate(&p, &x);
    let c = ck.commit(&p).unwrap();
    let proof = ck.open(&p, &x).unwrap();
    let garbage = bw6::G1Affine::new_unchecked(Fq::one(), Fq::one());
    assert!(!garbage.is_valid());
    assert!(c.is_valid() && proof.is_valid() && vk.is_valid());
    assert!(bw6::G1Affine::identity().is_valid());
    assert!(!vk.verify(&garbage, &x, &y, &proof));
    assert!(!vk.verify(&c, &x, &y, &garbage));
    let mut bad_key = vk;
    bad_key.g2 = bw6::G2Affine::new_unchecked(Fq::one(), Fq::one());
    assert!(!bad_key.g2.is_valid());
    assert!(!bad_key.is_valid());
    assert!(!bad_key.verify(&c, &x, &y, &proof));
    // a point of G1 is no point of G2
    bad_key.g2 = bw6::G2Affine::new_unchecked(c.x, c.y);
    assert!(!bad_key.verify(&c, &x, &y, &proof));
}

#[test]
fn the_commitment_to_a_constant_is_a_multiple_of_the_generator() {
    let urs = urs(4);
    let ck = urs.ck();
    let vk = urs.raw_vk();
    let c = ck.commit(&poly(&[3])).unwrap();
    assert!(c.equals(&vk.g1.mul(&Fr::from_u64(3))));
    assert!(!c.equals(&vk.g1));
    assert!(ck.commit(&poly(&[])).unwrap().is_identity());
    assert!(ck.commit(&poly(&[0, 0])).unwrap().is_identity());
}

#[test]
fn commitments_are_additive() {
    let urs = urs(4);
    let ck = urs.ck();
    let a = ck.commit(&poly(&[1, 2, 3])).unwrap();
    let b = ck.commit(&poly(&[10, 20, 30, 40])).unwrap();
    let sum = ck.commit(&poly(&[11, 22, 33, 40])).unwrap();
    assert!(a.add(&b).equals(&sum));
}

#[test]
fn a_polynomial_beyond_the_key_is_refused() {
    let urs = urs(4);
    let ck = urs.ck();
    assert_eq!(ck.max_degree(), 3);
    assert!(ck.commit(&poly(&[1, 2, 3, 4])).is_some());
    assert!(ck.commit(&poly(&[1, 2, 3, 4, 5])).is_none());
    // trailing zeros do not count
    assert!(ck.commit(&poly(&[1, 2, 3, 4, 0, 0])).is_some());
    // the quotient of an opening has one coefficient less
    assert!(ck.open(&poly(&[1, 2, 3, 4, 5]), &Fr::one()).is_some());
    assert!(ck.open(&poly(&[1, 2, 3, 4, 5, 6]), &Fr::one()).is_none());
    assert!(ck.copy().commit(&poly(&[1, 2, 3, 4, 5])).is_none());
}

#[test]
fn a_reference_string_needs_both_generators() {
    let g1 = bw6::G1Affine::identity();
    let g2 = bw6::G2Affine::new_unchecked(Fq::zero(), Fq::zero());
    assert!(URS::new(vec![], vec![g2, g2]).is_none());
    assert!(URS::new(vec![g1], vec![g2]).is_none());
    assert!(URS::new(vec![g1], vec![g2, g2]).is_some());
}
