use apk_proofs::bitmask::{count_set_bits, Bitmask};
use apk_proofs::curve::G1Affine;
use apk_proofs::domains::{generator, Domains};
use apk_proofs::field::Fr;
use apk_proofs::piop::affine_addition::{compute_partial_sums, unit, AffineAdditionEvaluations};
use apk_proofs::piop::basic::AffineAdditionEvaluationsWithoutBitmask;
use apk_proofs::piop::counting::{compute_partial_counts, CountingEvaluations};
use apk_proofs::piop::packed::{
    chunk_width_of, compute_chunk_ends, BitmaskPackingRegisters,
    SuccinctAccountableRegisterEvaluations,
};
use apk_proofs::piop::RegisterEvaluations;
use apk_proofs::poly::evaluate;
use apk_proofs::public_input::{AccountablePublicInput, CountingPublicInput, PublicInput};
use apk_proofs::transcript::encode_key;
use apk_proofs::utils::{
    barycentric_eval_binary_at, inverse_or_zero, lagrange_evaluations, last_domain_element,
    square_times,
};
use ark_ec::CurveGroup;
use ark_ff::PrimeField;
use ark_std::{test_rng, UniformRand};

fn fr(x: ark_bls12_377::Fq) -> Fr {
    Fr::from_limbs(x.into_bigint().0).unwrap()
}

fn random_key() -> G1Affine {
    let p = ark_bls12_377::G1Projective::rand(&mut test_rng()).into_affine();
    G1Affine::new_unchecked(fr(p.x), fr(p.y))
}

#[test]
fn lagrange_values_are_those_of_the_basis_polynomials() {
    let d = Domains::new(8);
    let zeta = Fr::from_u64(12345);
    let e = lagrange_evaluations(&zeta, &d);
    assert!(e.vanishing_polynomial.equals(&zeta.pow(8).sub(&Fr::one())));
    let l_first = d.interpolate(&unit(0, 8));
    let l_last = d.interpolate(&unit(7, 8));
    assert!(e.l_first.equals(&evaluate(&l_first, &zeta)));
    assert!(e.l_last.equals(&evaluate(&l_last, &zeta)));
    assert!(e.zeta_minus_omega_inv.equals(&zeta.sub(&generator(3).pow(7))));
    assert!(last_domain_element(&d).equals(&generator(3).inverse().unwrap()));
    assert!(!e.l_first.equals(&e.l_last));
}

#[test]
fn the_bitmask_polynomial_at_a_point() {
    let d = Domains::new(8);
    let zeta = Fr::from_u64(987654321);
    let bits = vec![true, false, true, true, false];
    let as_scalars = Bitmask::from_bits(&bits).to_bits_as_field_elements();
    let poly = d.interpolate(&as_scalars);
    assert!(barycentric_eval_binary_at(&zeta, &bits, &d).equals(&evaluate(&poly, &zeta)));
    assert!(barycentric_eval_binary_at(&zeta, &vec![], &d).is_zero());
    assert!(barycentric_eval_binary_at(&zeta, &vec![true; 8], &d).equals(&Fr::one()));
}

#[test]
fn inverses_and_repeated_squares() {
    assert!(inverse_or_zero(&Fr::zero()).is_zero());
    assert!(inverse_or_zero(&Fr::from_u64(4)).mul(&Fr::from_u64(4)).equals(&Fr::one()));
    assert!(square_times(&Fr::from_u64(3), 0).equals(&Fr::from_u64(3)));
    assert!(square_times(&Fr::from_u64(3), 3).equals(&Fr::from_u64(6561)));
}

#[test]
fn counting_bits() {
    let bits = vec![true, false, true, true];
    let b = Bitmask::from_bits(&bits);
    assert_eq!(b.size(), 4);
    assert_eq!(b.count_ones(), 3);
    assert_eq!(b.to_bits(), bits);
    assert_eq!(b.clone(), b);
    assert_eq!(count_set_bits(&bits), 3);
    assert_eq!(Bitmask::from_bits(&[]).count_ones(), 0);
    assert_eq!(Bitmask::from_bits(&[false; 5]).count_ones(), 0);
    let scalars = b.to_bits_as_field_elements();
    assert!(scalars[0].equals(&Fr::one()) && scalars[1].is_zero() && scalars.len() == 4);
    let counts = compute_partial_counts(&bits, 8);
    let expected = [0u64, 1, 1, 2, 3, 3, 3, 3];
    for i in 0..8 {
        assert!(counts[i].equals(&Fr::from_u64(expected[i])));
    }
}

#[test]
fn partial_sums_start_outside_the_group() {
    let rng = &mut test_rng();
    let pks: Vec<G1Affine> = (0..3)
        .map(|_| ark_bls12_377::G1Projective::rand(rng).into_affine())
        .map(|p| G1Affine::new_unchecked(fr(p.x), fr(p.y)))
        .collect();
    let same = |a: &G1Affine, b: &G1Affine| a.x.equals(&b.x) && a.y.equals(&b.y);
    let h = apk_proofs::curve::point_in_g1_complement();
    let sums = compute_partial_sums(&pks, &vec![true, false, true], 4);
    assert_eq!(sums.len(), 4);
    assert!(same(&sums[0], &h));
    assert!(same(&sums[1], &h.add(&pks[0])));
    assert!(same(&sums[2], &sums[1]));
    assert!(same(&sums[3], &h.add(&pks[0]).add(&pks[2])));
}

#[test]
fn packing_coefficients_are_powers_of_two_in_a_chunk() {
    let d = Domains::new(8);
    assert_eq!(chunk_width_of(&d), 8);
    let r = Fr::from_u64(1000);
    let bits = vec![true, false, true, true];
    let p = BitmaskPackingRegisters::new(&d, &bits, &r);
    for i in 0..8 {
        assert!(p.coefficients[i].equals(&Fr::from_u64(1 << i)));
    }
    // 1 + 4 + 8
    assert!(p.total.equals(&Fr::from_u64(13)));
    let sums = [0u64, 1, 1, 5, 13, 13, 13, 13];
    for i in 0..8 {
        assert!(p.sums[i].equals(&Fr::from_u64(sums[i])));
    }
    for i in 0..7 {
        assert!(p.multipliers[i].equals(&Fr::from_u64(2)));
    }
    // 128 * (r / 128) = r
    assert!(p.multipliers[7].mul(&Fr::from_u64(128)).equals(&r));
    assert!(p.wrap.equals(&Fr::one().sub(&r)));
    assert_eq!(compute_chunk_ends(&d), vec![false, false, false, false, false, false, false, true]);
}

#[test]
fn packing_coefficients_across_chunks() {
    let d = Domains::new(512);
    assert_eq!(chunk_width_of(&d), 256);
    let r = Fr::from_u64(7);
    let mut bits = vec![false; 300];
    bits[1] = true;
    bits[257] = true;
    let p = BitmaskPackingRegisters::new(&d, &bits, &r);
    assert!(p.coefficients[0].equals(&Fr::one()));
    assert!(p.coefficients[255].equals(&Fr::from_u64(2).pow(255)));
    assert!(p.coefficients[256].equals(&r));
    assert!(p.coefficients[257].equals(&Fr::from_u64(14)));
    // 2 + 7 * 2
    assert!(p.total.equals(&Fr::from_u64(16)));
    assert!(p.wrap.equals(&Fr::one().sub(&Fr::from_u64(49))));
    for i in 0..511 {
        assert!(p.coefficients[i].mul(&p.multipliers[i]).equals(&p.coefficients[i + 1]));
    }
    let ends = compute_chunk_ends(&d);
    assert_eq!(ends.iter().filter(|e| **e).count(), 2);
    assert!(ends[255] && ends[511]);
}

#[test]
fn public_inputs_and_their_encodings() {
    let apk = random_key();
    let bitmask = Bitmask::from_bits(&[true, false, true]);
    let accountable = AccountablePublicInput::new(&apk, &bitmask);
    assert!(accountable.apk.x.equals(&apk.x));
    assert_eq!(accountable.bitmask.to_bits(), vec![true, false, true]);
    let mut expected = encode_key(&apk);
    expected.extend([1u8, 0, 1]);
    assert_eq!(accountable.to_bytes(), expected);

    let counting = CountingPublicInput::new(&apk, &bitmask);
    assert_eq!(counting.count, 2);
    let mut expected = encode_key(&apk);
    expected.extend(2u64.to_le_bytes());
    assert_eq!(counting.to_bytes(), expected);
}

#[test]
fn disclosed_values_come_in_the_order_of_the_openings() {
    let f = Fr::from_u64;
    let same = |v: Vec<Fr>, e: &[u64]| {
        v.len() == e.len() && v.iter().zip(e).all(|(x, y)| x.equals(&f(*y)))
    };
    let basic = AffineAdditionEvaluations {
        keyset: (f(1), f(2)),
        bitmask: f(5),
        partial_sums: (f(3), f(4)),
    };
    let e = AffineAdditionEvaluationsWithoutBitmask { keyset: (f(1), f(2)), partial_sums: (f(3), f(4)) };
    assert!(same(e.as_vec(), &[1, 2, 3, 4]));
    let e = CountingEvaluations { affine_addition: basic, partial_counts: f(6) };
    assert!(same(e.as_vec(), &[1, 2, 3, 4, 5, 6]));
    let e = SuccinctAccountableRegisterEvaluations { c: f(6), acc: f(7), basic_evaluations: basic };
    assert!(same(e.as_vec(), &[1, 2, 3, 4, 5, 6, 7]));
}
