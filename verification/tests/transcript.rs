use apk_proofs::base_field::Fq;
use apk_proofs::bw6;
use apk_proofs::curve::G1Affine;
use apk_proofs::domains::Domains;
use apk_proofs::field::Fr;
use apk_proofs::kzg::RawKzgVerifierKey;
use apk_proofs::keyset::KeysetCommitment;
use apk_proofs::transcript::{
    append_bytes, append_evaluations, append_message, append_public_input,
    append_quotient_commitment, append_register_commitments, clone_transcript, encode_g1,
    encode_g1_list, encode_g2, encode_key, encode_scalar, encode_scalar_list,
    get_128_bit_challenge, get_128_bit_challenges, get_bitmask_aggregation_challenge,
    get_constraints_aggregation_challenge, get_evaluation_point, get_kzg_aggregation_challenges,
    scalar_from_challenge, set_keyset_commitment, set_protocol_params,
    append_2nd_round_register_commitments,
};
use ark_ec::{AffineRepr, CurveGroup};
use ark_ff::PrimeField;
use ark_serialize::CanonicalSerialize;
use ark_std::{test_rng, UniformRand};
use merlin::Transcript;

fn fr(x: ark_bls12_377::Fq) -> Fr {
    Fr::from_limbs(x.into_bigint().0).unwrap()
}

fn fq(x: ark_bw6_761::Fq) -> Fq {
    Fq::from_limbs(x.into_bigint().0).unwrap()
}

fn compressed<T: CanonicalSerialize>(t: &T) -> Vec<u8> {
    let mut v = Vec::new();
    t.serialize_compressed(&mut v).unwrap();
    v
}

#[test]
fn a_challenge_is_the_number_of_its_bytes() {
    let mut bytes = [0u8; 16];
    bytes[0] = 1;
    assert!(scalar_from_challenge(&bytes).equals(&Fr::one()));
    bytes[1] = 2;
    assert!(scalar_from_challenge(&bytes).equals(&Fr::from_u64(513)));
    let mut bytes = [0u8; 16];
    bytes[8] = 3;
    assert_eq!(scalar_from_challenge(&bytes).limbs(), [0, 3, 0, 0, 0, 0]);
    assert_eq!(
        scalar_from_challenge(&[0xff; 16]).limbs(),
        [u64::MAX, u64::MAX, 0, 0, 0, 0]
    );
    // as the field library reads them
    let bytes: [u8; 16] = [7, 1, 0, 9, 200, 3, 3, 3, 0, 0, 1, 2, 3, 4, 5, 250];
    let expected = ark_bls12_377::Fq::from_le_bytes_mod_order(&bytes);
    assert!(scalar_from_challenge(&bytes).equals(&fr(expected)));
}

#[test]
fn challenges_are_those_of_the_transcript() {
    let mut t = Transcript::new(b"test");
    let mut u = Transcript::new(b"test");
    append_message(&mut t, "label", &vec![1, 2, 3]);
    u.append_message(b"label", &[1, 2, 3]);
    let c = get_128_bit_challenge(&mut t, "challenge");
    let mut bytes = [0u8; 16];
    u.challenge_bytes(b"challenge", &mut bytes);
    assert!(c.equals(&scalar_from_challenge(&bytes)));
    // the challenge is absorbed: the next one differs
    let d = get_128_bit_challenge(&mut t, "challenge");
    u.challenge_bytes(b"challenge", &mut bytes);
    assert!(d.equals(&scalar_from_challenge(&bytes)));
    assert!(!c.equals(&d));
}

#[test]
fn challenges_depend_on_what_was_absorbed() {
    let challenge_after = |label: &'static str, message: Vec<u8>| {
        let mut t = Transcript::new(b"test");
        append_message(&mut t, label, &message);
        get_128_bit_challenge(&mut t, "c")
    };
    let a = challenge_after("m", vec![1]);
    assert!(a.equals(&challenge_after("m", vec![1])));
    assert!(!a.equals(&challenge_after("m", vec![2])));
    assert!(!a.equals(&challenge_after("n", vec![1])));
    assert!(!a.equals(&challenge_after("m", vec![1, 0])));
}

#[test]
fn a_copy_of_a_transcript_goes_its_own_way() {
    let mut t = Transcript::new(b"test");
    append_message(&mut t, "m", &vec![1]);
    let mut u = clone_transcript(&t);
    let mut v = clone_transcript(&t);
    append_message(&mut v, "m", &vec![2]);
    let a = get_128_bit_challenge(&mut t, "c");
    let b = get_128_bit_challenge(&mut u, "c");
    let c = get_128_bit_challenge(&mut v, "c");
    assert!(a.equals(&b));
    assert!(!a.equals(&c));
}

#[test]
fn several_challenges_are_drawn_one_after_the_other() {
    let mut t = Transcript::new(b"test");
    let mut u = Transcript::new(b"test");
    let cs = get_128_bit_challenges(&mut t, "kzg_aggregation", 3);
    assert_eq!(cs.len(), 3);
    for c in cs.iter() {
        assert!(c.equals(&get_128_bit_challenge(&mut u, "kzg_aggregation")));
    }
    assert!(!cs[0].equals(&cs[1]));
    let mut v = Transcript::new(b"test");
    let ds = get_kzg_aggregation_challenges(&mut v, 3);
    for i in 0..3 {
        assert!(cs[i].equals(&ds[i]));
    }
    assert_eq!(get_kzg_aggregation_challenges(&mut v, 0).len(), 0);
}

#[test]
fn the_protocol_labels_separate_the_challenges() {
    let mut t = Transcript::new(b"test");
    let a = get_bitmask_aggregation_challenge(&mut clone_transcript(&t));
    let b = get_constraints_aggregation_challenge(&mut clone_transcript(&t));
    let c = get_evaluation_point(&mut clone_transcript(&t));
    assert!(!a.equals(&b) && !a.equals(&c) && !b.equals(&c));
    let mut u = Transcript::new(b"test");
    let mut bytes = [0u8; 16];
    u.challenge_bytes(b"bitmask_aggregation", &mut bytes);
    assert!(a.equals(&scalar_from_challenge(&bytes)));
    append_public_input(&mut t, &vec![9, 9]);
    let d = get_evaluation_point(&mut t);
    assert!(!c.equals(&d));
}

#[test]
fn encodings_are_the_compressed_ones() {
    let rng = &mut test_rng();
    let x = ark_bls12_377::Fq::rand(rng);
    assert_eq!(encode_scalar(&fr(x)), compressed(&x));
    assert_eq!(encode_scalar(&Fr::one())[0], 1);
    assert_eq!(encode_scalar(&Fr::one()).len(), 48);

    for _ in 0..10 {
        let x = ark_bls12_377::Fq::rand(rng);
        assert_eq!(encode_scalar(&fr(x)), compressed(&x));
        let p = ark_bls12_377::G1Projective::rand(rng).into_affine();
        let key = G1Affine::new_unchecked(fr(p.x), fr(p.y));
        assert_eq!(encode_key(&key), compressed(&p));
        let p = ark_bw6_761::G1Projective::rand(rng).into_affine();
        assert_eq!(
            encode_g1(&bw6::G1Affine::new_unchecked(fq(p.x), fq(p.y))),
            compressed(&p)
        );
    }
    assert_eq!(encode_scalar(&Fr::from_u64(0x0102))[..3], [2u8, 1, 0]);
    // the point at infinity is all zero but for its flag
    let mut infinity = vec![0u8; 96];
    infinity[95] = 0x40;
    assert_eq!(encode_g1(&bw6::G1Affine::identity()), infinity);
    assert_eq!(
        encode_g2(&bw6::G2Affine::new_unchecked(Fq::zero(), Fq::zero())),
        compressed(&ark_bw6_761::G2Affine::identity())
    );
    // a point and its inverse differ in the sign flag only
    let p = ark_bls12_377::G1Projective::rand(rng).into_affine();
    let minus_p = -p;
    let a = encode_key(&G1Affine::new_unchecked(fr(p.x), fr(p.y)));
    let b = encode_key(&G1Affine::new_unchecked(fr(minus_p.x), fr(minus_p.y)));
    assert_eq!(a[..47], b[..47]);
    assert_eq!(a[47] ^ b[47], 0x80);
    let p = ark_bls12_377::G1Projective::rand(rng).into_affine();
    let key = G1Affine::new_unchecked(fr(p.x), fr(p.y));
    assert_eq!(encode_key(&key), compressed(&p));
    assert_eq!(encode_key(&key).len(), 48);
    assert_eq!(encode_key(&G1Affine::identity()), compressed(&ark_bls12_377::G1Affine::identity()));

    let p = ark_bw6_761::G1Projective::rand(rng).into_affine();
    let g1 = bw6::G1Affine::new_unchecked(fq(p.x), fq(p.y));
    assert_eq!(encode_g1(&g1), compressed(&p));
    assert_eq!(encode_g1(&g1).len(), 96);

    let q = ark_bw6_761::G2Projective::rand(rng).into_affine();
    let g2 = bw6::G2Affine::new_unchecked(fq(q.x), fq(q.y));
    assert_eq!(encode_g2(&g2), compressed(&q));
    assert_eq!(encode_g2(&g2).len(), 96);

    let mut both = encode_g1(&g1);
    both.extend(encode_g1(&g1.double()));
    assert_eq!(encode_g1_list(&vec![g1, g1.double()]), both);
    assert_eq!(encode_g1_list(&vec![]), Vec::<u8>::new());
    let mut both = encode_scalar(&Fr::one());
    both.extend(encode_scalar(&Fr::from_u64(2)));
    assert_eq!(encode_scalar_list(&vec![Fr::one(), Fr::from_u64(2)]), both);

    let mut v = vec![1u8, 2];
    append_bytes(&mut v, &vec![3, 4, 5]);
    assert_eq!(v, vec![1, 2, 3, 4, 5]);
}

#[test]
fn the_protocol_messages_are_absorbed_under_their_labels() {
    let rng = &mut test_rng();
    let p = ark_bw6_761::G1Projective::rand(rng).into_affine();
    let q = ark_bw6_761::G2Projective::rand(rng).into_affine();
    let g1 = bw6::G1Affine::new_unchecked(fq(p.x), fq(p.y));
    let g2 = bw6::G2Affine::new_unchecked(fq(q.x), fq(q.y));

    let mut t = Transcript::new(b"test");
    let mut u = Transcript::new(b"test");
    set_protocol_params(
        &mut t,
        &Domains::new(8),
        &RawKzgVerifierKey { g1, g2, tau_in_g2: g2 },
    );
    u.append_message(b"domain", &3u32.to_le_bytes());
    u.append_message(b"vk", &[compressed(&p), compressed(&q), compressed(&q)].concat());

    set_keyset_commitment(&mut t, &KeysetCommitment { pks_comm: (g1, g1), log_domain_size: 3 });
    u.append_message(
        b"keyset_commitment",
        &[compressed(&p), compressed(&p), 3u32.to_le_bytes().to_vec()].concat(),
    );

    append_register_commitments(&mut t, &vec![g1, g1]);
    u.append_message(b"register_commitments", &[compressed(&p), compressed(&p)].concat());
    append_2nd_round_register_commitments(&mut t, &vec![]);
    u.append_message(b"2nd_round_register_commitments", &[]);
    append_quotient_commitment(&mut t, &g1);
    u.append_message(b"quotient", &compressed(&p));
    append_evaluations(&mut t, &vec![Fr::one()], &Fr::from_u64(2), &Fr::from_u64(3));
    u.append_message(b"register_evaluations", &compressed(&ark_bls12_377::Fq::from(1u64)));
    u.append_message(b"quotient_evaluation", &compressed(&ark_bls12_377::Fq::from(2u64)));
    u.append_message(
        b"shifted_linearization_evaluation",
        &compressed(&ark_bls12_377::Fq::from(3u64)),
    );

    let mut bytes = [0u8; 16];
    u.challenge_bytes(b"evaluation_point", &mut bytes);
    assert!(get_evaluation_point(&mut t).equals(&scalar_from_challenge(&bytes)));
}
