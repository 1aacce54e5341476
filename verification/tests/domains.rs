use apk_proofs::domains::{generator, pow2_usize, Domains};
use apk_proofs::field::Fr;
use apk_proofs::poly::evaluate;
use ark_ff::PrimeField;
use ark_poly::{EvaluationDomain, Radix2EvaluationDomain};
use ark_std::{test_rng, UniformRand};

fn fr(x: ark_bls12_377::Fq) -> Fr {
    Fr::from_limbs(x.into_bigint().0).unwrap()
}

fn scalars(v: &[u64]) -> Vec<Fr> {
    v.iter().map(|x| Fr::from_u64(*x)).collect()
}

#[test]
fn the_generators_are_those_of_the_polynomial_library() {
    for log_n in [0u32, 1, 2, 5, 10, 30] {
        let d = Radix2EvaluationDomain::<ark_bls12_377::Fq>::new(1 << log_n).unwrap();
        assert!(generator(log_n).equals(&fr(d.group_gen)));
    }
    assert!(generator(0).equals(&Fr::one()));
    assert!(generator(1).equals(&Fr::one().neg()));
    assert!(generator(46).pow(1 << 45).equals(&Fr::one().neg()));
}

#[test]
fn a_generator_has_the_order_of_its_domain() {
    let w = generator(4);
    assert!(w.pow(16).equals(&Fr::one()));
    assert!(!w.pow(8).equals(&Fr::one()));
    assert!(generator(6).pow(4).equals(&w));
}

#[test]
fn powers_of_two() {
    assert_eq!(pow2_usize(0), 1);
    assert_eq!(pow2_usize(10), 1024);
    assert_eq!(pow2_usize(30), 1 << 30);
}

#[test]
fn the_domain_is_the_smallest_that_fits() {
    for (size, log_n) in [(0usize, 0u32), (1, 0), (2, 1), (3, 2), (4, 2), (5, 3), (64, 6), (65, 7)] {
        let d = Domains::new(size);
        assert_eq!(d.log_size(), log_n);
        assert_eq!(d.size(), 1 << log_n);
        assert_eq!(d.size_4x(), 4 << log_n);
    }
    assert_eq!(Domains::from_log_size(5).unwrap().size(), 32);
    assert!(Domains::from_log_size(28).is_some());
    assert!(Domains::from_log_size(29).is_none());
}

#[test]
fn interpolation_takes_the_values_on_the_domain() {
    let d = Domains::new(4);
    let values = scalars(&[3, 1, 4, 1]);
    let poly = d.interpolate(&values);
    assert_eq!(poly.len(), 4);
    let w = generator(2);
    for i in 0..4 {
        assert!(evaluate(&poly, &w.pow(i as u64)).equals(&values[i]));
    }
    // a constant is interpolated by itself
    let constant = d.interpolate(&scalars(&[7, 7, 7, 7]));
    assert!(constant[0].equals(&Fr::from_u64(7)));
    assert!(constant[1].is_zero() && constant[2].is_zero() && constant[3].is_zero());
}

#[test]
fn short_and_long_vectors_are_fitted_to_the_domain() {
    let d = Domains::new(4);
    let fitted = d.fit(&scalars(&[1, 2]));
    assert_eq!(fitted.len(), 4);
    assert!(fitted[1].equals(&Fr::from_u64(2)) && fitted[2].is_zero() && fitted[3].is_zero());
    let fitted = d.fit(&scalars(&[1, 2, 3, 4, 5]));
    assert_eq!(fitted.len(), 4);
    assert!(fitted[3].equals(&Fr::from_u64(4)));
    let short = d.interpolate(&scalars(&[1, 2]));
    let padded = d.interpolate(&scalars(&[1, 2, 0, 0]));
    for i in 0..4 {
        assert!(short[i].equals(&padded[i]));
    }
}

#[test]
fn amplified_values_are_those_of_the_interpolating_polynomial() {
    let rng = &mut test_rng();
    let d = Domains::new(8);
    let values: Vec<Fr> = (0..8).map(|_| fr(ark_bls12_377::Fq::rand(rng))).collect();
    let poly = d.interpolate(&values);
    let amplified = d.amplify(&values);
    assert_eq!(amplified.len(), 32);
    let w4 = generator(5);
    for j in 0..32 {
        assert!(amplified[j].equals(&evaluate(&poly, &w4.pow(j as u64))));
    }
    for i in 0..8 {
        assert!(amplified[4 * i].equals(&values[i]));
    }
    let again = d.amplify_polynomial(&poly);
    for j in 0..32 {
        assert!(amplified[j].equals(&again[j]));
    }
    let back = d.interpolate_4x(&amplified);
    assert_eq!(back.len(), 32);
    for j in 0..32 {
        if j < 8 {
            assert!(back[j].equals(&poly[j]));
        } else {
            assert!(back[j].is_zero());
        }
    }
}

#[test]
fn a_short_polynomial_is_amplified_too() {
    // fewer coefficients than a quarter of the larger domain
    let d = Domains::new(8);
    let poly = scalars(&[1, 2, 3]);
    let amplified = d.amplify_polynomial(&poly);
    let w4 = generator(5);
    for j in 0..32 {
        assert!(amplified[j].equals(&evaluate(&poly, &w4.pow(j as u64))));
    }
    assert_eq!(d.amplify_polynomial(&vec![]).len(), 32);
    assert!(d.amplify_polynomial(&vec![])[5].is_zero());
}

#[test]
fn a_constant_over_the_larger_domain() {
    let d = Domains::new(4);
    let c = d.constant_4x(Fr::from_u64(9));
    assert_eq!(c.len(), 16);
    assert!(c.iter().all(|x| x.equals(&Fr::from_u64(9))));
}

#[test]
fn the_vanishing_polynomial_vanishes_on_the_domain() {
    let d = Domains::new(4);
    // X^4 - 1
    let mut z = scalars(&[0, 0, 0, 0, 1]);
    z[0] = Fr::one().neg();
    assert!(d.is_zero(&z));
    assert!(d.is_zero(&vec![]));
    assert!(!d.is_zero(&scalars(&[1])));
    // X - 1 vanishes at the first element only
    let mut l = scalars(&[0, 1]);
    l[0] = Fr::one().neg();
    assert!(!d.is_zero(&l));
}
