use apk_proofs::bitmask::Bitmask;
use apk_proofs::curve::G1Affine;
use apk_proofs::domains::generator;
use apk_proofs::field::Fr;
use apk_proofs::keyset::Keyset;
use apk_proofs::piop::affine_addition::AffineAdditionRegisters;
use apk_proofs::piop::basic::BasicRegisterBuilder;
use apk_proofs::piop::counting::CountingScheme;
use apk_proofs::piop::packed::PackedRegisterBuilder;
use apk_proofs::piop::{ProverProtocol, RegisterEvaluations};
use apk_proofs::poly::{degree_of, evaluate};
use apk_proofs::utils::{divide_by_vanishing_polynomial, lagrange_evaluations};
use ark_ec::CurveGroup;
use ark_ff::PrimeField;
use ark_std::rand::Rng;
use ark_std::{test_rng, UniformRand};

fn fr(x: ark_bls12_377::Fq) -> Fr {
    Fr::from_limbs(x.into_bigint().0).unwrap()
}

fn random_pks<R: Rng>(n: usize, rng: &mut R) -> Vec<G1Affine> {
    (0..n)
        .map(|_| ark_bls12_377::G1Projective::rand(rng).into_affine())
        .map(|p| G1Affine::new_unchecked(fr(p.x), fr(p.y)))
        .collect()
}

fn a_keyset(size: usize) -> Keyset {
    let mut keyset = Keyset::new(random_pks(size, &mut test_rng()));
    keyset.amplify();
    keyset
}

fn bits() -> Vec<bool> {
    vec![true, false, true, true, false, false, true]
}

fn constraints_of<P: ProverProtocol>(challenge: &Fr) -> Vec<Vec<Fr>> {
    let keyset = a_keyset(7);
    let protocol = P::init(keyset.domain(), Bitmask::from_bits(&bits()), keyset);
    protocol.compute_constraint_polynomials(challenge)
}

#[test]
fn the_constraint_polynomials_vanish_on_the_domain() {
    let domains = a_keyset(7).domain();
    let challenge = Fr::from_u64(123456789);
    let basic = constraints_of::<BasicRegisterBuilder>(&challenge);
    assert_eq!(basic.len(), 5);
    let packed = constraints_of::<PackedRegisterBuilder>(&challenge);
    assert_eq!(packed.len(), 7);
    let counting = constraints_of::<CountingScheme>(&challenge);
    assert_eq!(counting.len(), 6);
    for c in basic.iter().chain(packed.iter()) {
        assert!(degree_of(c) > 0);
    }
    // the constraint of the counts is linear in registers of degree below
    // the size of the domain, and so vanishes everywhere
    assert!(counting[5].iter().all(|c| c.is_zero()));
    for c in basic.iter().chain(packed.iter()).chain(counting.iter()) {
        assert!(domains.is_zero(c));
        assert!(degree_of(c) <= 4 * 8 - 3);
        // the quotient by the vanishing polynomial is exact
        let q = divide_by_vanishing_polynomial(c, &domains);
        let x = Fr::from_u64(987654321);
        let z = lagrange_evaluations(&x, &domains).vanishing_polynomial;
        assert!(evaluate(&q, &x).mul(&z).equals(&evaluate(c, &x)));
    }
    // off the domain they do not vanish
    assert!(!evaluate(&basic[0], &Fr::from_u64(5)).is_zero());
}

#[test]
fn the_registers_of_the_rounds() {
    let keyset = a_keyset(7);
    let challenge = Fr::from_u64(55);
    let protocol = BasicRegisterBuilder::init(
        keyset.domain(),
        Bitmask::from_bits(&bits()),
        keyset.clone(),
    );
    assert_eq!(protocol.get_register_polynomials_to_commit1().len(), 2);
    assert_eq!(protocol.get_register_polynomials_to_commit2(&challenge).len(), 0);
    assert_eq!(protocol.get_register_polynomials_to_open(&challenge).len(), 4);
    let protocol = PackedRegisterBuilder::init(
        keyset.domain(),
        Bitmask::from_bits(&bits()),
        keyset.clone(),
    );
    assert_eq!(protocol.get_register_polynomials_to_commit1().len(), 3);
    assert_eq!(protocol.get_register_polynomials_to_commit2(&challenge).len(), 2);
    assert_eq!(protocol.get_register_polynomials_to_open(&challenge).len(), 7);
    let protocol =
        CountingScheme::init(keyset.domain(), Bitmask::from_bits(&bits()), keyset.clone());
    assert_eq!(protocol.get_register_polynomials_to_commit1().len(), 4);
    assert_eq!(protocol.get_register_polynomials_to_commit2(&challenge).len(), 0);
    assert_eq!(protocol.get_register_polynomials_to_open(&challenge).len(), 6);
}

#[test]
fn the_disclosed_values_are_those_of_the_opened_polynomials() {
    let keyset = a_keyset(7);
    let challenge = Fr::from_u64(55);
    let zeta = Fr::from_u64(777);
    let protocol =
        PackedRegisterBuilder::init(keyset.domain(), Bitmask::from_bits(&bits()), keyset);
    let opened = protocol.get_register_polynomials_to_open(&challenge);
    let values = protocol.evaluate_register_polynomials(&challenge, &zeta).as_vec();
    assert_eq!(values.len(), opened.len());
    for (p, v) in opened.iter().zip(values.iter()) {
        assert!(evaluate(p, &zeta).equals(v));
    }
}

#[test]
fn the_linearization_carries_the_moved_on_terms() {
    // on the domain moved by one position, the linearization polynomial
    // plus what is left of the constraints is the combined constraint
    let keyset = a_keyset(7);
    let domains = keyset.domain();
    let registers = AffineAdditionRegisters::new(&keyset, &bits());
    let zeta = Fr::from_u64(424242);
    let omega = generator(3);
    let lagrange = lagrange_evaluations(&zeta, &domains);
    let evals = registers.evaluate_register_polynomials(&zeta);
    let rests = evals.evaluate_constraint_polynomials(&registers.apk_plus_h(), &lagrange);
    let parts = registers.compute_constraints_linearized(&zeta);
    let constraints = registers.compute_constraint_polynomials();
    assert_eq!(rests.len(), 5);
    for i in 0..5 {
        let moved = evaluate(&parts[i], &zeta.mul(&omega));
        assert!(moved.add(&rests[i]).equals(&evaluate(&constraints[i], &zeta)));
    }
    assert!(parts[2].is_empty() && parts[3].is_empty() && parts[4].is_empty());
    assert!(!evaluate(&parts[0], &zeta).is_zero());
}
