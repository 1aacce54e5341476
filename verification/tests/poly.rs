use apk_proofs::domains::Domains;
use apk_proofs::field::Fr;
use apk_proofs::piop::basic::randomize;
use apk_proofs::poly::{
    degree_of, evaluate, powers_of, scale, sum, sum_values_with_coeffs, sum_with_coeffs,
    times_linear,
};
use apk_proofs::utils::divide_by_vanishing_polynomial;

fn scalars(v: &[u64]) -> Vec<Fr> {
    v.iter().map(|x| Fr::from_u64(*x)).collect()
}

fn same(a: &[Fr], b: &[u64]) -> bool {
    a.len() == b.len() && a.iter().zip(b).all(|(x, y)| x.equals(&Fr::from_u64(*y)))
}

#[test]
fn evaluation_by_horner() {
    // 1 + 2x + 3x^2 at 5
    assert!(evaluate(&scalars(&[1, 2, 3]), &Fr::from_u64(5)).equals(&Fr::from_u64(86)));
    assert!(evaluate(&scalars(&[1, 2, 3]), &Fr::zero()).equals(&Fr::one()));
    assert!(evaluate(&vec![], &Fr::from_u64(5)).is_zero());
    assert!(evaluate(&scalars(&[4]), &Fr::from_u64(5)).equals(&Fr::from_u64(4)));
}

#[test]
fn the_degree_skips_trailing_zeros() {
    assert_eq!(degree_of(&scalars(&[1, 2, 3])), 2);
    assert_eq!(degree_of(&scalars(&[1, 2, 0, 0])), 1);
    assert_eq!(degree_of(&scalars(&[0, 0])), 0);
    assert_eq!(degree_of(&scalars(&[5])), 0);
    assert_eq!(degree_of(&vec![]), 0);
}

#[test]
fn sums_and_multiples() {
    assert!(same(&sum(&scalars(&[1, 2, 3]), &scalars(&[10, 20])), &[11, 22, 3]));
    assert!(same(&sum(&scalars(&[1]), &scalars(&[10, 20])), &[11, 20]));
    assert!(same(&sum(&vec![], &vec![]), &[]));
    assert!(same(&scale(&Fr::from_u64(3), &scalars(&[1, 2, 3])), &[3, 6, 9]));
    assert!(same(&powers_of(&Fr::from_u64(3), 4), &[1, 3, 9, 27]));
    assert!(same(&powers_of(&Fr::from_u64(3), 0), &[]));
}

#[test]
fn multiplication_by_a_linear_factor() {
    // (x - 2)(x + 3) = x^2 + x - 6
    let p = times_linear(&scalars(&[3, 1]), &Fr::from_u64(2));
    assert_eq!(p.len(), 3);
    assert!(p[0].equals(&Fr::from_u64(6).neg()));
    assert!(p[1].equals(&Fr::one()) && p[2].equals(&Fr::one()));
    assert!(evaluate(&p, &Fr::from_u64(2)).is_zero());
    assert!(evaluate(&p, &Fr::from_u64(5)).equals(&Fr::from_u64(24)));
}

#[test]
fn combinations_of_polynomials_and_values() {
    let polys = vec![scalars(&[1, 1]), scalars(&[0, 1, 1]), scalars(&[2])];
    // 1 * (1 + x) + 10 * (x + x^2) + 100 * 2
    assert!(same(&sum_with_coeffs(&polys, &scalars(&[1, 10, 100])), &[201, 11, 10]));
    // with the powers of 10
    assert!(same(&randomize(&Fr::from_u64(10), &polys), &[201, 11, 10]));
    assert!(same(&sum_with_coeffs(&vec![], &vec![]), &[]));
    assert!(sum_values_with_coeffs(&scalars(&[1, 2, 3]), &scalars(&[1, 10, 100]))
        .equals(&Fr::from_u64(321)));
    assert!(sum_values_with_coeffs(&vec![], &vec![]).is_zero());
}

#[test]
fn division_by_the_vanishing_polynomial() {
    let d = Domains::new(2);
    // (x^2 - 1)(3 + 2x + x^2) = -3 - 2x + 2x^2 + 2x^3 + x^4
    let mut p = scalars(&[0, 0, 2, 2, 1]);
    p[0] = Fr::from_u64(3).neg();
    p[1] = Fr::from_u64(2).neg();
    assert!(same(&divide_by_vanishing_polynomial(&p, &d), &[3, 2, 1]));
    // a remainder is dropped
    p[0] = Fr::from_u64(5);
    assert!(same(&divide_by_vanishing_polynomial(&p, &d), &[3, 2, 1]));
    assert!(same(&divide_by_vanishing_polynomial(&scalars(&[1]), &d), &[]));
    assert!(same(&divide_by_vanishing_polynomial(&scalars(&[1, 2]), &d), &[]));
    assert!(same(&divide_by_vanishing_polynomial(&scalars(&[1, 2, 3]), &d), &[3]));
}
