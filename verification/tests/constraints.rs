use apk_proofs::bitmask::Bitmask;
use apk_proofs::constraints::{rotate_left, Constraints, Registers};
use apk_proofs::curve::G1Affine;
use apk_proofs::domains::Domains;
use apk_proofs::field::Fr;
use apk_proofs::poly::{degree_of, evaluate};
use ark_ec::CurveGroup;
use ark_ff::PrimeField;
use ark_std::rand::Rng;
use ark_std::{test_rng, UniformRand};

fn fr(x: ark_bls12_377::Fq) -> Fr {
    Fr::from_limbs(x.into_bigint().0).unwrap()
}

fn random_bits<R: Rng>(n: usize, density: f64, rng: &mut R) -> Vec<bool> {
    (0..n).map(|_| rng.gen_bool(density)).collect()
}

fn random_bitmask<R: Rng>(rng: &mut R, n: usize) -> Vec<Fr> {
    (0..n)
        .map(|_| rng.gen_bool(2.0 / 3.0))
        .map(|b| if b { Fr::one() } else { Fr::zero() })
        .collect()
}

fn random_pks<R: Rng>(n: usize, rng: &mut R) -> Vec<G1Affine> {
    (0..n)
        .map(|_| ark_bls12_377::G1Projective::rand(rng))
        .map(|p| p.into_affine())
        .map(|p| G1Affine::new_unchecked(fr(p.x), fr(p.y)))
        .collect()
}

fn dummy_registers(n: usize) -> (Vec<Fr>, Vec<Fr>) {
    (vec![Fr::zero(); n], vec![Fr::zero(); n])
}

#[test]
fn test_bitmask_booleanity_constraint() {
    let rng = &mut test_rng();
    let n = 64;
    let domains = Domains::new(n);

    let good_bitmask = Bitmask::from_bits(&random_bits(n, 0.5, rng));
    let registers = Registers::new(domains, &good_bitmask, random_pks(n, rng), dummy_registers(n));
    let constraint_poly = Constraints::compute_bitmask_booleanity_constraint_polynomial(&registers);
    assert_eq!(degree_of(&constraint_poly), 2 * (n - 1));
    assert!(domains.is_zero(&constraint_poly));

    let mut bad_bitmask = random_bitmask(rng, n);
    bad_bitmask[0] = fr(ark_bls12_377::Fq::rand(rng));
    let registers = Registers::new_unchecked(
        domains,
        bad_bitmask,
        dummy_registers(n),
        dummy_registers(n),
        dummy_registers(n),
    );
    let constraint_poly = Constraints::compute_bitmask_booleanity_constraint_polynomial(&registers);
    assert_eq!(degree_of(&constraint_poly), 2 * (n - 1));
    assert!(!domains.is_zero(&constraint_poly));
}

#[test]
fn booleanity_at_a_point() {
    assert!(Constraints::evaluate_bitmask_booleanity_constraint(Fr::zero()).is_zero());
    assert!(Constraints::evaluate_bitmask_booleanity_constraint(Fr::one()).is_zero());
    // 3 * (1 - 3) = -6
    assert!(Constraints::evaluate_bitmask_booleanity_constraint(Fr::from_u64(3))
        .equals(&Fr::from_u64(6).neg()));
}

#[test]
fn a_constant_bitmask_gives_the_zero_polynomial() {
    let n = 8;
    let domains = Domains::new(n);
    let registers = Registers::new_unchecked(
        domains,
        vec![Fr::one(); n],
        dummy_registers(n),
        dummy_registers(n),
        dummy_registers(n),
    );
    let constraint_poly = Constraints::compute_bitmask_booleanity_constraint_polynomial(&registers);
    assert_eq!(degree_of(&constraint_poly), 0);
    assert!(domains.is_zero(&constraint_poly));
}

/// The affine sum of two points with different x-coordinates.
fn affine_sum(p: (Fr, Fr), q: (Fr, Fr)) -> (Fr, Fr) {
    let lambda = q.1.sub(&p.1).mul(&q.0.sub(&p.0).inverse().unwrap());
    let x = lambda.square().sub(&p.0).sub(&q.0);
    let y = lambda.mul(&p.0.sub(&x)).sub(&p.1);
    (x, y)
}

#[test]
fn addition_constraints_vanish_on_an_honest_accumulation() {
    let rng = &mut test_rng();
    let n = 8;
    let domains = Domains::new(n);
    let bits = vec![true, false, true, true, false, false, true];
    let pks = random_pks(n, rng);
    let start = random_pks(1, rng)[0];
    let mut acc = vec![(start.x, start.y)];
    for i in 0..n - 1 {
        let last = acc[i];
        acc.push(if bits[i] { affine_sum(last, (pks[i].x, pks[i].y)) } else { last });
    }
    let acc_x: Vec<Fr> = acc.iter().map(|p| p.0).collect();
    let acc_y: Vec<Fr> = acc.iter().map(|p| p.1).collect();
    let registers = Registers::new(domains, &Bitmask::from_bits(&bits), pks, (acc_x, acc_y));
    let (c1, c2) =
        Constraints::compute_conditional_affine_addition_constraint_polynomials(&registers);
    assert!(degree_of(&c1) <= 4 * (n - 1));
    assert!(degree_of(&c2) <= 3 * (n - 1));
    let w = apk_proofs::domains::generator(3);
    for i in 0..n - 1 {
        assert!(evaluate(&c1, &w.pow(i as u64)).is_zero());
        assert!(evaluate(&c2, &w.pow(i as u64)).is_zero());
    }
    // the last row wraps around to the start of the accumulation
    assert!(!evaluate(&c1, &w.pow(7)).is_zero());
    assert!(!evaluate(&c2, &w.pow(7)).is_zero());
}

#[test]
fn addition_constraints_on_one_row() {
    // with b = 0 the constraints are y3 - y1 and x3 - x1
    let n = 2;
    let domains = Domains::new(n);
    let constant = |v: u64| vec![Fr::from_u64(v); n];
    let registers = Registers::new_unchecked(
        domains,
        constant(0),
        (constant(3), constant(4)),
        (constant(5), constant(6)),
        (constant(11), constant(13)),
    );
    let (c1, c2) =
        Constraints::compute_conditional_affine_addition_constraint_polynomials(&registers);
    assert!(evaluate(&c1, &Fr::one()).equals(&Fr::from_u64(7)));
    assert!(evaluate(&c2, &Fr::one()).equals(&Fr::from_u64(6)));
    // with b = 1, x1 = 5, y1 = 6, x2 = 3, y2 = 4, x3 = 11, y3 = 13:
    // C1 = (5 - 3)^2 * (5 + 3 + 11) - (4 - 6)^2 = 72
    // C2 = (5 - 3) * (13 + 6) - (4 - 6) * (11 - 5) = 50
    let registers = Registers::new_unchecked(
        domains,
        constant(1),
        (constant(3), constant(4)),
        (constant(5), constant(6)),
        (constant(11), constant(13)),
    );
    let (c1, c2) =
        Constraints::compute_conditional_affine_addition_constraint_polynomials(&registers);
    assert!(evaluate(&c1, &Fr::one()).equals(&Fr::from_u64(72)));
    assert!(evaluate(&c2, &Fr::one()).equals(&Fr::from_u64(50)));
}

#[test]
fn rotation_moves_the_first_entry_to_the_end() {
    let v: Vec<Fr> = (1..=4).map(Fr::from_u64).collect();
    let r = rotate_left(&v);
    let expected = [2, 3, 4, 1];
    for i in 0..4 {
        assert!(r[i].equals(&Fr::from_u64(expected[i])));
    }
}
