use apk_proofs::base_field::Fq;
use apk_proofs::bitmask::Bitmask;
use apk_proofs::bw6;
use apk_proofs::curve::G1Affine;
use apk_proofs::field::Fr;
use apk_proofs::keyset::Keyset;
use apk_proofs::kzg::URS;
use apk_proofs::prover::{InputError, Prover};
use apk_proofs::verification::Verifier;
use ark_ec::CurveGroup;
use ark_ff::PrimeField;
use ark_std::rand::Rng;
use ark_std::{test_rng, UniformRand};
use merlin::Transcript;

fn fr(x: ark_bls12_377::Fq) -> Fr {
    Fr::from_limbs(x.into_bigint().0).unwrap()
}

fn fq(x: ark_bw6_761::Fq) -> Fq {
    Fq::from_limbs(x.into_bigint().0).unwrap()
}

fn random_pks<R: Rng>(n: usize, rng: &mut R) -> Vec<G1Affine> {
    (0..n)
        .map(|_| ark_bls12_377::G1Projective::rand(rng).into_affine())
        .map(|p| G1Affine::new_unchecked(fr(p.x), fr(p.y)))
        .collect()
}

fn random_bits<R: Rng>(n: usize, density: f64, rng: &mut R) -> Vec<bool> {
    (0..n).map(|_| rng.gen_bool(density)).collect()
}

fn generate_urs<R: Rng>(n1: usize, rng: &mut R) -> URS {
    let urs = w3f_pcs::pcs::kzg::urs::URS::<ark_bw6_761::BW6_761>::generate(n1, 2, rng);
    let g1 = urs
        .powers_in_g1
        .iter()
        .map(|p| bw6::G1Affine::new_unchecked(fq(p.x), fq(p.y)))
        .collect();
    let g2 = urs
        .powers_in_g2
        .iter()
        .map(|p| bw6::G2Affine::new_unchecked(fq(p.x), fq(p.y)))
        .collect();
    URS::new(g1, g2).unwrap()
}

struct Setup {
    prover: Prover,
    verifier: Verifier,
    keyset_size: usize,
}

fn setup(log_domain_size: u32) -> Setup {
    let rng = &mut test_rng();
    let domain_size = 1usize << log_domain_size;
    let keyset_size = domain_size - 1;
    let keyset = Keyset::new(random_pks(keyset_size, rng));
    let urs = generate_urs(3 * domain_size + 1, rng);
    let ck = urs.ck();
    let vk = urs.raw_vk();
    let pks_comm = keyset.commit(&ck);
    let prover = Prover::new(keyset, &pks_comm, urs, Transcript::new(b"apk_proof"));
    let verifier = Verifier::new(pks_comm, vk, Transcript::new(b"apk_proof"));
    Setup { prover, verifier, keyset_size }
}

fn run_simple_scheme(log_domain_size: u32) {
    let s = setup(log_domain_size);
    let rng = &mut test_rng();
    let bits = random_bits(s.keyset_size, 2.0 / 3.0, rng);
    let b = Bitmask::from_bits(&bits);
    let (proof, public_input) = s.prover.prove_simple(b).unwrap();
    assert!(s.verifier.verify_simple(&public_input, &proof));
}

fn run_packed_scheme(log_domain_size: u32) {
    let s = setup(log_domain_size);
    let rng = &mut test_rng();
    let bits = random_bits(s.keyset_size, 2.0 / 3.0, rng);
    let b = Bitmask::from_bits(&bits);
    let (proof, public_input) = s.prover.prove_packed(b).unwrap();
    assert!(s.verifier.verify_packed(&public_input, &proof));
}

fn run_counting_scheme(log_domain_size: u32) {
    let s = setup(log_domain_size);
    let rng = &mut test_rng();
    let bits = random_bits(s.keyset_size, 2.0 / 3.0, rng);
    let b = Bitmask::from_bits(&bits);
    let (proof, public_input) = s.prover.prove_counting(b).unwrap();
    assert!(s.verifier.verify_counting(&public_input, &proof));
}

#[test]
fn test_packed_scheme() {
    run_packed_scheme(8);
}

#[test]
fn test_counting_scheme() {
    run_counting_scheme(8);
}

#[test]
fn packed_scheme_on_a_small_domain() {
    run_packed_scheme(3);
}

#[test]
fn packed_scheme_with_two_chunks() {
    run_packed_scheme(9);
}

#[test]
fn counting_scheme_on_a_small_domain() {
    run_counting_scheme(3);
}

#[test]
fn test_simple_scheme() {
    run_simple_scheme(8);
}

#[test]
fn simple_scheme_on_a_small_domain() {
    run_simple_scheme(3);
}

fn a_bitmask(keyset_size: usize) -> Vec<bool> {
    (0..keyset_size).map(|i| i % 3 != 1).collect()
}

fn same_fr(a: &Fr, b: &Fr) -> bool {
    a.equals(b)
}

#[test]
fn a_set_of_63_keys_takes_the_domain_of_64() {
    let s = setup(6);
    assert_eq!(s.keyset_size, 63);
    let rng = &mut test_rng();
    let mut bits = random_bits(s.keyset_size, 0.5, rng);
    bits[5] = true;
    let (proof, public_input) = s.prover.prove_simple(Bitmask::from_bits(&bits)).unwrap();
    assert!(s.verifier.verify_simple(&public_input, &proof));
    assert_eq!(proof.register_commitments.len(), 2);
    assert_eq!(proof.additional_commitments.len(), 0);

    // another bitmask, proved for its own aggregate, verifies as well
    bits[17] = !bits[17];
    let (proof, public_input) = s.prover.prove_simple(Bitmask::from_bits(&bits)).unwrap();
    assert_eq!(public_input.bitmask.to_bits(), bits);
    assert!(s.verifier.verify_simple(&public_input, &proof));
}

#[test]
fn a_corrupted_proof_is_rejected() {
    let s = setup(3);
    let bits = a_bitmask(s.keyset_size);
    let (proof, public_input) = s.prover.prove_simple(Bitmask::from_bits(&bits)).unwrap();
    assert!(s.verifier.verify_simple(&public_input, &proof));
    let make = || s.prover.prove_simple(Bitmask::from_bits(&bits)).unwrap().0;

    let mut p = make();
    p.register_commitments[0] = p.register_commitments[1];
    assert!(!s.verifier.verify_simple(&public_input, &p));

    let mut p = make();
    p.q_comm = p.q_comm.double();
    assert!(!s.verifier.verify_simple(&public_input, &p));

    let mut p = make();
    p.register_evaluations.keyset.0 = p.register_evaluations.keyset.0.add(&Fr::one());
    assert!(!s.verifier.verify_simple(&public_input, &p));

    let mut p = make();
    p.register_evaluations.partial_sums.1 = p.register_evaluations.partial_sums.1.add(&Fr::one());
    assert!(!s.verifier.verify_simple(&public_input, &p));

    let mut p = make();
    p.q_zeta = p.q_zeta.add(&Fr::one());
    assert!(!s.verifier.verify_simple(&public_input, &p));

    let mut p = make();
    p.r_zeta_omega = p.r_zeta_omega.add(&Fr::one());
    assert!(!s.verifier.verify_simple(&public_input, &p));

    let mut p = make();
    p.w_at_zeta_proof = p.w_at_zeta_proof.double();
    assert!(!s.verifier.verify_simple(&public_input, &p));

    let mut p = make();
    p.r_at_zeta_omega_proof = p.r_at_zeta_omega_proof.double();
    assert!(!s.verifier.verify_simple(&public_input, &p));

    let mut p = make();
    p.additional_commitments.push(p.q_comm);
    assert!(!s.verifier.verify_simple(&public_input, &p));

    let mut p = make();
    p.register_commitments.pop();
    assert!(!s.verifier.verify_simple(&public_input, &p));
}

#[test]
fn a_wrong_public_input_is_rejected() {
    let s = setup(3);
    let bits = a_bitmask(s.keyset_size);
    let (proof, mut public_input) = s.prover.prove_simple(Bitmask::from_bits(&bits)).unwrap();
    let mut other = bits.clone();
    other[0] = !other[0];
    public_input.bitmask = Bitmask::from_bits(&other);
    assert!(!s.verifier.verify_simple(&public_input, &proof));
    public_input.bitmask = Bitmask::from_bits(&bits);
    assert!(s.verifier.verify_simple(&public_input, &proof));
    public_input.apk = public_input.apk.add(&public_input.apk);
    assert!(!s.verifier.verify_simple(&public_input, &proof));
    // a bitmask that is as long as the domain fits no set of keys
    public_input.bitmask = Bitmask::from_bits(&vec![true; s.keyset_size + 1]);
    assert!(!s.verifier.verify_simple(&public_input, &proof));

    let (proof, mut public_input) = s.prover.prove_packed(Bitmask::from_bits(&bits)).unwrap();
    assert!(s.verifier.verify_packed(&public_input, &proof));
    public_input.bitmask = Bitmask::from_bits(&other);
    assert!(!s.verifier.verify_packed(&public_input, &proof));

    let (proof, mut public_input) = s.prover.prove_counting(Bitmask::from_bits(&bits)).unwrap();
    assert!(s.verifier.verify_counting(&public_input, &proof));
    public_input.count += 1;
    assert!(!s.verifier.verify_counting(&public_input, &proof));
}

#[test]
fn corrupted_proofs_of_the_other_protocols_are_rejected() {
    let s = setup(3);
    let bits = a_bitmask(s.keyset_size);

    let (mut p, public_input) = s.prover.prove_packed(Bitmask::from_bits(&bits)).unwrap();
    p.register_evaluations.c = p.register_evaluations.c.add(&Fr::one());
    assert!(!s.verifier.verify_packed(&public_input, &p));
    let (mut p, public_input) = s.prover.prove_packed(Bitmask::from_bits(&bits)).unwrap();
    p.register_evaluations.acc = p.register_evaluations.acc.add(&Fr::one());
    assert!(!s.verifier.verify_packed(&public_input, &p));
    let (mut p, public_input) = s.prover.prove_packed(Bitmask::from_bits(&bits)).unwrap();
    p.additional_commitments[1] = p.additional_commitments[0];
    assert!(!s.verifier.verify_packed(&public_input, &p));
    let (mut p, public_input) = s.prover.prove_packed(Bitmask::from_bits(&bits)).unwrap();
    p.register_evaluations.basic_evaluations.bitmask = Fr::from_u64(2);
    assert!(!s.verifier.verify_packed(&public_input, &p));

    let (mut p, public_input) = s.prover.prove_counting(Bitmask::from_bits(&bits)).unwrap();
    p.register_evaluations.partial_counts = p.register_evaluations.partial_counts.add(&Fr::one());
    assert!(!s.verifier.verify_counting(&public_input, &p));
    let (mut p, public_input) = s.prover.prove_counting(Bitmask::from_bits(&bits)).unwrap();
    p.register_commitments[3] = p.register_commitments[2];
    assert!(!s.verifier.verify_counting(&public_input, &p));
}

#[test]
fn the_three_protocols_state_the_same_aggregate() {
    let s = setup(4);
    let rng = &mut test_rng();
    let mut bits = random_bits(s.keyset_size, 0.5, rng);
    bits[0] = true;
    let weight = bits.iter().filter(|b| **b).count();
    let (_, simple) = s.prover.prove_simple(Bitmask::from_bits(&bits)).unwrap();
    let (_, packed) = s.prover.prove_packed(Bitmask::from_bits(&bits)).unwrap();
    let (_, counting) = s.prover.prove_counting(Bitmask::from_bits(&bits)).unwrap();
    assert!(same_fr(&simple.apk.x, &packed.apk.x) && same_fr(&simple.apk.y, &packed.apk.y));
    assert!(same_fr(&simple.apk.x, &counting.apk.x) && same_fr(&simple.apk.y, &counting.apk.y));
    assert_eq!(simple.bitmask.to_bits(), bits);
    assert_eq!(packed.bitmask.to_bits(), bits);
    assert_eq!(counting.count, weight);
    assert_eq!(counting.count, simple.bitmask.count_ones());
}

#[test]
fn a_proof_under_another_key_is_rejected() {
    let rng = &mut test_rng();
    let domain_size = 8;
    let keyset = Keyset::new(random_pks(domain_size - 1, rng));
    let urs = generate_urs(3 * domain_size + 1, rng);
    // another secret, drawn from the generator's next state
    let other_urs = generate_urs(3 * domain_size + 1, rng);
    let pks_comm = keyset.commit(&urs.ck());
    let verifier = Verifier::new(pks_comm, urs.raw_vk(), Transcript::new(b"apk_proof"));
    let bits = a_bitmask(domain_size - 1);

    let honest = Prover::new(keyset.clone(), &pks_comm, urs, Transcript::new(b"apk_proof"));
    let (proof, public_input) = honest.prove_simple(Bitmask::from_bits(&bits)).unwrap();
    assert!(verifier.verify_simple(&public_input, &proof));

    // the same prover but for the committer key
    let vk = other_urs.raw_vk();
    let other = Prover::new(keyset, &pks_comm, other_urs, Transcript::new(b"apk_proof"));
    let (proof, public_input) = other.prove_simple(Bitmask::from_bits(&bits)).unwrap();
    assert!(!verifier.verify_simple(&public_input, &proof));
    let (proof, public_input) = other.prove_packed(Bitmask::from_bits(&bits)).unwrap();
    assert!(!verifier.verify_packed(&public_input, &proof));
    let (proof, public_input) = other.prove_counting(Bitmask::from_bits(&bits)).unwrap();
    assert!(!verifier.verify_counting(&public_input, &proof));

    // and a verifier with the other key rejects the honest proof
    let other_verifier = Verifier::new(pks_comm, vk, Transcript::new(b"apk_proof"));
    let (proof, public_input) = honest.prove_simple(Bitmask::from_bits(&bits)).unwrap();
    assert!(!other_verifier.verify_simple(&public_input, &proof));
}

#[test]
fn a_proof_under_another_transcript_label_is_rejected() {
    let rng = &mut test_rng();
    let domain_size = 8;
    let keyset = Keyset::new(random_pks(domain_size - 1, rng));
    let urs = generate_urs(3 * domain_size + 1, rng);
    let pks_comm = keyset.commit(&urs.ck());
    let verifier = Verifier::new(pks_comm, urs.raw_vk(), Transcript::new(b"another protocol"));
    let prover = Prover::new(keyset, &pks_comm, urs, Transcript::new(b"apk_proof"));
    let bits = a_bitmask(domain_size - 1);
    let (proof, public_input) = prover.prove_simple(Bitmask::from_bits(&bits)).unwrap();
    assert!(!verifier.verify_simple(&public_input, &proof));
}

#[test]
fn proving_twice_gives_the_same_proof() {
    let s = setup(3);
    let bits = a_bitmask(s.keyset_size);
    let (p1, _) = s.prover.prove_packed(Bitmask::from_bits(&bits)).unwrap();
    let (p2, _) = s.prover.prove_packed(Bitmask::from_bits(&bits)).unwrap();
    assert!(p1.q_comm.equals(&p2.q_comm));
    assert!(p1.q_zeta.equals(&p2.q_zeta));
    assert!(p1.r_zeta_omega.equals(&p2.r_zeta_omega));
    assert!(p1.w_at_zeta_proof.equals(&p2.w_at_zeta_proof));
    assert!(p1.r_at_zeta_omega_proof.equals(&p2.r_at_zeta_omega_proof));
    assert!(p1.register_evaluations.c.equals(&p2.register_evaluations.c));
    for i in 0..3 {
        assert!(p1.register_commitments[i].equals(&p2.register_commitments[i]));
    }
    // and another bitmask gives another proof
    let mut other = bits.clone();
    other[2] = !other[2];
    let (p3, _) = s.prover.prove_packed(Bitmask::from_bits(&other)).unwrap();
    assert!(!p1.q_comm.equals(&p3.q_comm));
}

#[test]
fn a_bitmask_of_the_wrong_length_is_rejected() {
    let s = setup(3);
    let short = Bitmask::from_bits(&vec![true; s.keyset_size - 1]);
    assert_eq!(s.prover.prove_simple(short).err(), Some(InputError::BitmaskLengthMismatch));
    let long = Bitmask::from_bits(&vec![true; s.keyset_size + 1]);
    assert_eq!(s.prover.prove_packed(long).err(), Some(InputError::BitmaskLengthMismatch));
    let empty = Bitmask::from_bits(&[]);
    assert_eq!(s.prover.prove_counting(empty).err(), Some(InputError::BitmaskLengthMismatch));
}

#[test]
fn keys_that_sum_to_the_identity_are_rejected() {
    let rng = &mut test_rng();
    let p = ark_bls12_377::G1Projective::rand(rng).into_affine();
    let minus_p = -p;
    let mut pks = random_pks(5, rng);
    pks.push(G1Affine::new_unchecked(fr(p.x), fr(p.y)));
    pks.push(G1Affine::new_unchecked(fr(minus_p.x), fr(minus_p.y)));
    let keyset = Keyset::new(pks);
    let urs = generate_urs(25, rng);
    let pks_comm = keyset.commit(&urs.ck());
    let prover = Prover::new(keyset, &pks_comm, urs, Transcript::new(b"apk_proof"));
    let bits = vec![false, false, false, false, false, true, true];
    assert_eq!(
        prover.prove_simple(Bitmask::from_bits(&bits)).err(),
        Some(InputError::IdentityAggregate)
    );
    let bits = vec![false, false, false, false, true, true, true];
    assert!(prover.prove_simple(Bitmask::from_bits(&bits)).is_ok());
}

#[test]
fn a_single_key_is_its_own_aggregate() {
    let s = setup(2);
    let rng = &mut test_rng();
    let pks = random_pks(s.keyset_size, rng);
    let bits = vec![false, true, false];
    let (proof, public_input) = s.prover.prove_counting(Bitmask::from_bits(&bits)).unwrap();
    assert!(same_fr(&public_input.apk.x, &pks[1].x) && same_fr(&public_input.apk.y, &pks[1].y));
    assert_eq!(public_input.count, 1);
    assert!(s.verifier.verify_counting(&public_input, &proof));
}

#[test]
fn all_zero_bitmask_is_rejected() {
    let s = setup(3);
    let zeros = vec![false; s.keyset_size];
    assert_eq!(
        s.prover.prove_simple(Bitmask::from_bits(&zeros)).err(),
        Some(InputError::IdentityAggregate)
    );
    assert_eq!(
        s.prover.prove_packed(Bitmask::from_bits(&zeros)).err(),
        Some(InputError::IdentityAggregate)
    );
    assert_eq!(
        s.prover.prove_counting(Bitmask::from_bits(&zeros)).err(),
        Some(InputError::IdentityAggregate)
    );
}
