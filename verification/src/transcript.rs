//! The Fiat-Shamir transcript: what the prover and the verifier absorb, in
//! which order and under which labels, and how challenges are drawn from it.
//!
//! The transcript itself is `merlin`'s. What it has taken in so far is a
//! sequence of entries; a challenge is a function of that sequence.
use vstd::prelude::*;
use ark_ff::BigInt;
use ark_serialize::CanonicalSerialize;
use vstd::arithmetic::power::pow;
use vstd::bytes::{spec_u32_to_le_bytes, u32_to_le_bytes};
use crate::bw6;
use crate::bw6::g1_points;
use crate::base_field::base_modulus;
use crate::curve::{identity_point, AffinePoint, G1Affine};
use crate::domains::Domains;
use crate::field::{modulus, values, Fr};
use crate::keyset::{KeysetCommitment, KeysetCommitmentValues};
use crate::kzg::{RawKzgVerifierKey, VerifierKeyPoints};

verus! {

/// `merlin`'s transcript, of which nothing is known but what the functions
/// below say.
#[verifier::external_type_specification]
#[verifier::external_body]
pub struct ExTranscript(merlin::Transcript);

/// One operation on a transcript.
pub enum TranscriptEntry {
    /// A message was absorbed under a label.
    Message { label: Seq<char>, message: Seq<u8> },
    /// A challenge of so many bytes was drawn under a label.
    Challenge { label: Seq<char>, length: nat },
}

/// The operations that a transcript has gone through since it was made.
pub uninterp spec fn transcript_entries(t: merlin::Transcript) -> Seq<TranscriptEntry>;

/// The bytes of the challenge that a transcript gives under `label` after it
/// has gone through `entries`.
pub uninterp spec fn challenge_bytes(
    entries: Seq<TranscriptEntry>,
    label: Seq<char>,
    length: nat,
) -> Seq<u8>;

/// The `i`-th byte of a number written with the lowest byte first.
pub open spec fn le_byte(x: nat, i: nat) -> u8 {
    ((x / (pow(256, i) as nat)) % 256) as u8
}

/// The compressed encoding of a scalar: its 48 bytes, the lowest first.
pub open spec fn scalar_encoding(x: nat) -> Seq<u8> {
    Seq::new(48, |i: int| le_byte(x, i as nat))
}

/// The flag that the compressed encoding of a point carries in the two
/// highest bits of its last byte: one bit for the point at infinity, and for
/// any other point one bit that tells whether `y` is the larger of `y` and
/// `-y`.
pub open spec fn point_flag(p: AffinePoint, modulus: nat) -> nat {
    if p == identity_point() {
        0x40
    } else if p.y > modulus - p.y {
        0x80
    } else {
        0
    }
}

/// The compressed encoding of a point in `len` bytes: the bytes of its
/// x-coordinate, the lowest first, with the flag added to the last byte.
pub open spec fn point_encoding(p: AffinePoint, len: nat, modulus: nat) -> Seq<u8> {
    Seq::new(
        len,
        |i: int|
            if i == len - 1 {
                (le_byte(p.x, i as nat) + point_flag(p, modulus)) as u8
            } else {
                le_byte(p.x, i as nat)
            },
    )
}

/// The compressed encoding of a point of G1 of BLS12-377.
pub open spec fn key_encoding(p: AffinePoint) -> Seq<u8> {
    point_encoding(p, 48, modulus())
}

/// The compressed encoding of a point of G1 of BW6-761.
pub open spec fn g1_encoding(p: AffinePoint) -> Seq<u8> {
    point_encoding(p, 96, base_modulus())
}

/// The compressed encoding of a point of G2 of BW6-761.
pub open spec fn g2_encoding(p: AffinePoint) -> Seq<u8> {
    point_encoding(p, 96, base_modulus())
}

/// The number of bytes of a challenge.
pub const CHALLENGE_LENGTH: usize = 16;

/// The entries after a message has been absorbed.
pub open spec fn absorbed(
    entries: Seq<TranscriptEntry>,
    label: Seq<char>,
    message: Seq<u8>,
) -> Seq<TranscriptEntry> {
    entries.push(TranscriptEntry::Message { label, message })
}

/// The entries after a challenge has been drawn.
pub open spec fn squeezed(entries: Seq<TranscriptEntry>, label: Seq<char>) -> Seq<TranscriptEntry> {
    entries.push(TranscriptEntry::Challenge { label, length: CHALLENGE_LENGTH as nat })
}

/// The number that sixteen little-endian bytes stand for.
pub open spec fn le_value(s: Seq<u8>) -> nat {
    (s[0] as nat)
        + (s[1] as nat) * 0x100nat
        + (s[2] as nat) * 0x10000nat
        + (s[3] as nat) * 0x1000000nat
        + (s[4] as nat) * 0x100000000nat
        + (s[5] as nat) * 0x10000000000nat
        + (s[6] as nat) * 0x1000000000000nat
        + (s[7] as nat) * 0x100000000000000nat
        + (s[8] as nat) * 0x10000000000000000nat
        + (s[9] as nat) * 0x1000000000000000000nat
        + (s[10] as nat) * 0x100000000000000000000nat
        + (s[11] as nat) * 0x10000000000000000000000nat
        + (s[12] as nat) * 0x1000000000000000000000000nat
        + (s[13] as nat) * 0x100000000000000000000000000nat
        + (s[14] as nat) * 0x10000000000000000000000000000nat
        + (s[15] as nat) * 0x1000000000000000000000000000000nat
}

/// The challenge drawn under `label` after `entries`, as a scalar.
pub open spec fn challenge(entries: Seq<TranscriptEntry>, label: Seq<char>) -> nat {
    le_value(challenge_bytes(entries, label, CHALLENGE_LENGTH as nat))
}

/// The entries after `count` challenges have been drawn under `label`.
pub open spec fn squeezed_times(
    entries: Seq<TranscriptEntry>,
    label: Seq<char>,
    count: nat,
) -> Seq<TranscriptEntry>
    decreases count,
{
    if count == 0 {
        entries
    } else {
        squeezed(squeezed_times(entries, label, (count - 1) as nat), label)
    }
}

/// The `count` challenges drawn one after the other under `label`.
pub open spec fn challenges(entries: Seq<TranscriptEntry>, label: Seq<char>, count: nat) -> Seq<nat> {
    Seq::new(count, |i: int| challenge(squeezed_times(entries, label, i as nat), label))
}

/// The scalar that sixteen challenge bytes stand for.
pub fn scalar_from_challenge(bytes: &[u8; 16]) -> (r: Fr)
    ensures
        r@ == le_value(bytes@),
{
    let lo: u64 = (bytes[0] as u64) + (bytes[1] as u64) * 0x100 + (bytes[2] as u64) * 0x1_0000
        + (bytes[3] as u64) * 0x100_0000 + (bytes[4] as u64) * 0x1_0000_0000 + (bytes[5] as u64)
        * 0x100_0000_0000 + (bytes[6] as u64) * 0x1_0000_0000_0000 + (bytes[7] as u64)
        * 0x100_0000_0000_0000;
    let hi: u64 = (bytes[8] as u64) + (bytes[9] as u64) * 0x100 + (bytes[10] as u64) * 0x1_0000
        + (bytes[11] as u64) * 0x100_0000 + (bytes[12] as u64) * 0x1_0000_0000 + (bytes[13] as u64)
        * 0x100_0000_0000 + (bytes[14] as u64) * 0x1_0000_0000_0000 + (bytes[15] as u64)
        * 0x100_0000_0000_0000;
    Fr::from_u128_halves(lo, hi)
}

/// Absorbs a message under a label.
pub fn append_message(t: &mut merlin::Transcript, label: &'static str, message: &Vec<u8>)
    requires
        message.len() <= u32::MAX,
    ensures
        transcript_entries(*final(t)) == absorbed(transcript_entries(*old(t)), label@, message@),
{
    transcript_append(t, label, message.as_slice());
}

/// Draws a challenge under a label.
pub fn get_128_bit_challenge(t: &mut merlin::Transcript, label: &'static str) -> (r: Fr)
    ensures
        r@ == challenge(transcript_entries(*old(t)), label@),
        transcript_entries(*final(t)) == squeezed(transcript_entries(*old(t)), label@),
{
    let bytes = transcript_challenge(t, label);
    scalar_from_challenge(&bytes)
}

/// Draws `count` challenges under a label, one after the other.
pub fn get_128_bit_challenges(t: &mut merlin::Transcript, label: &'static str, count: usize) -> (r:
    Vec<Fr>)
    ensures
        crate::field::values(r@) == challenges(transcript_entries(*old(t)), label@, count as nat),
        transcript_entries(*final(t)) == squeezed_times(
            transcript_entries(*old(t)),
            label@,
            count as nat,
        ),
{
    let mut r: Vec<Fr> = Vec::new();
    let mut i: usize = 0;
    while i < count
        invariant
            i <= count,
            r.len() == i,
            transcript_entries(*t) == squeezed_times(transcript_entries(*old(t)), label@, i as nat),
            forall|j: int|
                0 <= j < i ==> r@[j]@ == challenge(
                    squeezed_times(transcript_entries(*old(t)), label@, j as nat),
                    label@,
                ),
        decreases count - i,
    {
        let c = get_128_bit_challenge(t, label);
        r.push(c);
        i = i + 1;
    }
    proof {
        assert(crate::field::values(r@) =~= challenges(
            transcript_entries(*old(t)),
            label@,
            count as nat,
        ));
    }
    r
}

/// A copy of a transcript, which has gone through what the transcript has.
pub fn clone_transcript(t: &merlin::Transcript) -> (r: merlin::Transcript)
    ensures
        transcript_entries(r) == transcript_entries(*t),
{
    transcript_clone(t)
}

/// The compressed encoding of a scalar, 48 bytes long.
pub fn encode_scalar(x: &Fr) -> (r: Vec<u8>)
    ensures
        r@ == scalar_encoding(x@),
        r.len() == 48,
{
    serialize_scalar(x)
}

/// The compressed encoding of a point of G1 of BLS12-377, 48 bytes long.
pub fn encode_key(p: &G1Affine) -> (r: Vec<u8>)
    ensures
        r@ == key_encoding(p@),
        r.len() == 48,
{
    serialize_key(p)
}

/// The compressed encoding of a point of G1 of BW6-761, 96 bytes long.
pub fn encode_g1(p: &bw6::G1Affine) -> (r: Vec<u8>)
    ensures
        r@ == g1_encoding(p@),
        r.len() == 96,
{
    serialize_g1(p)
}

/// The compressed encoding of a point of G2 of BW6-761, 96 bytes long.
pub fn encode_g2(p: &bw6::G2Affine) -> (r: Vec<u8>)
    ensures
        r@ == g2_encoding(p@),
        r.len() == 96,
{
    serialize_g2(p)
}

/// The encodings of a sequence of points of G1 of BW6-761, one after the
/// other.
pub open spec fn g1_encodings(points: Seq<AffinePoint>) -> Seq<u8>
    decreases points.len(),
{
    if points.len() == 0 {
        Seq::empty()
    } else {
        g1_encodings(points.drop_last()) + g1_encoding(points.last())
    }
}

/// The encodings of a sequence of scalars, one after the other.
pub open spec fn scalar_encodings(vals: Seq<nat>) -> Seq<u8>
    decreases vals.len(),
{
    if vals.len() == 0 {
        Seq::empty()
    } else {
        scalar_encodings(vals.drop_last()) + scalar_encoding(vals.last())
    }
}

/// Appends the bytes of `src` to `dst`.
pub fn append_bytes(dst: &mut Vec<u8>, src: &Vec<u8>)
    ensures
        final(dst)@ == old(dst)@ + src@,
{
    let mut i: usize = 0;
    while i < src.len()
        invariant
            i <= src.len(),
            dst@ == old(dst)@ + src@.take(i as int),
        decreases src.len() - i,
    {
        dst.push(src[i]);
        proof {
            assert(src@.take(i + 1) =~= src@.take(i as int).push(src@[i as int]));
            assert(dst@ =~= old(dst)@ + src@.take(i + 1));
        }
        i = i + 1;
    }
    proof {
        assert(src@.take(src.len() as int) =~= src@);
    }
}

/// The encodings of the points, one after the other.
pub fn encode_g1_list(points: &Vec<bw6::G1Affine>) -> (r: Vec<u8>)
    ensures
        r@ == g1_encodings(g1_points(points@)),
        r.len() == 96 * points.len(),
{
    let mut r: Vec<u8> = Vec::new();
    let mut i: usize = 0;
    proof {
        assert(g1_points(points@).take(0) =~= Seq::<AffinePoint>::empty());
    }
    while i < points.len()
        invariant
            i <= points.len(),
            r@ == g1_encodings(g1_points(points@).take(i as int)),
            r.len() == 96 * i,
        decreases points.len() - i,
    {
        proof {
            assert(g1_points(points@).take(i + 1).drop_last() =~= g1_points(points@).take(
                i as int,
            ));
        }
        let e = encode_g1(&points[i]);
        append_bytes(&mut r, &e);
        i = i + 1;
    }
    proof {
        assert(g1_points(points@).take(points.len() as int) =~= g1_points(points@));
    }
    r
}

/// The encodings of the scalars, one after the other.
pub fn encode_scalar_list(vals: &Vec<Fr>) -> (r: Vec<u8>)
    ensures
        r@ == scalar_encodings(values(vals@)),
        r.len() == 48 * vals.len(),
{
    let mut r: Vec<u8> = Vec::new();
    let mut i: usize = 0;
    proof {
        assert(values(vals@).take(0) =~= Seq::<nat>::empty());
    }
    while i < vals.len()
        invariant
            i <= vals.len(),
            r@ == scalar_encodings(values(vals@).take(i as int)),
            r.len() == 48 * i,
        decreases vals.len() - i,
    {
        proof {
            assert(values(vals@).take(i + 1).drop_last() =~= values(vals@).take(i as int));
        }
        let e = encode_scalar(&vals[i]);
        append_bytes(&mut r, &e);
        i = i + 1;
    }
    proof {
        assert(values(vals@).take(vals.len() as int) =~= values(vals@));
    }
    r
}

/// The most commitments or values that one message of the protocol holds.
pub const MAX_MESSAGE_ITEMS: usize = 1024;

/// The entries after the parameters of the protocol have been absorbed: the
/// size of the domain and the verifier's key of the commitment scheme.
pub open spec fn with_protocol_params(
    entries: Seq<TranscriptEntry>,
    log_domain_size: u32,
    vk: VerifierKeyPoints,
) -> Seq<TranscriptEntry> {
    absorbed(
        absorbed(entries, "domain"@, spec_u32_to_le_bytes(log_domain_size)),
        "vk"@,
        g1_encoding(vk.g1) + g2_encoding(vk.g2) + g2_encoding(vk.tau_in_g2),
    )
}

/// The entries after the commitment to the set of keys has been absorbed.
pub open spec fn with_keyset_commitment(
    entries: Seq<TranscriptEntry>,
    commitment: KeysetCommitmentValues,
) -> Seq<TranscriptEntry> {
    absorbed(
        entries,
        "keyset_commitment"@,
        g1_encoding(commitment.pks_comm.0) + g1_encoding(commitment.pks_comm.1)
            + spec_u32_to_le_bytes(commitment.log_domain_size as u32),
    )
}

/// The entries after the three evaluation messages have been absorbed.
pub open spec fn with_evaluations(
    entries: Seq<TranscriptEntry>,
    evals: Seq<nat>,
    q_at_zeta: nat,
    r_at_zeta_omega: nat,
) -> Seq<TranscriptEntry> {
    absorbed(
        absorbed(
            absorbed(entries, "register_evaluations"@, scalar_encodings(evals)),
            "quotient_evaluation"@,
            scalar_encoding(q_at_zeta),
        ),
        "shifted_linearization_evaluation"@,
        scalar_encoding(r_at_zeta_omega),
    )
}

/// Absorbs the parameters of the protocol.
pub fn set_protocol_params(
    t: &mut merlin::Transcript,
    domain: &Domains,
    kzg_vk: &RawKzgVerifierKey,
)
    ensures
        transcript_entries(*final(t)) == with_protocol_params(
            transcript_entries(*old(t)),
            domain.spec_log_size() as u32,
            kzg_vk@,
        ),
{
    let size = u32_to_le_bytes(domain.log_size());
    append_message(t, "domain", &size);
    let mut vk = encode_g1(&kzg_vk.g1);
    append_bytes(&mut vk, &encode_g2(&kzg_vk.g2));
    append_bytes(&mut vk, &encode_g2(&kzg_vk.tau_in_g2));
    append_message(t, "vk", &vk);
}

/// Absorbs the commitment to the set of keys.
pub fn set_keyset_commitment(t: &mut merlin::Transcript, keyset_commitment: &KeysetCommitment)
    ensures
        transcript_entries(*final(t)) == with_keyset_commitment(
            transcript_entries(*old(t)),
            keyset_commitment@,
        ),
{
    let mut m = encode_g1(&keyset_commitment.pks_comm.0);
    append_bytes(&mut m, &encode_g1(&keyset_commitment.pks_comm.1));
    append_bytes(&mut m, &u32_to_le_bytes(keyset_commitment.log_domain_size));
    append_message(t, "keyset_commitment", &m);
}

/// Absorbs the public input, given by its encoding.
pub fn append_public_input(t: &mut merlin::Transcript, public_input: &Vec<u8>)
    requires
        public_input.len() <= u32::MAX,
    ensures
        transcript_entries(*final(t)) == absorbed(
            transcript_entries(*old(t)),
            "public_input"@,
            public_input@,
        ),
{
    append_message(t, "public_input", public_input);
}

/// Absorbs the commitments to the registers of the first round.
pub fn append_register_commitments(
    t: &mut merlin::Transcript,
    register_commitments: &Vec<bw6::G1Affine>,
)
    requires
        register_commitments.len() <= MAX_MESSAGE_ITEMS,
    ensures
        transcript_entries(*final(t)) == absorbed(
            transcript_entries(*old(t)),
            "register_commitments"@,
            g1_encodings(g1_points(register_commitments@)),
        ),
{
    let m = encode_g1_list(register_commitments);
    append_message(t, "register_commitments", &m);
}

/// Draws the challenge that the bitmask is packed with.
pub fn get_bitmask_aggregation_challenge(t: &mut merlin::Transcript) -> (r: Fr)
    ensures
        r@ == challenge(transcript_entries(*old(t)), "bitmask_aggregation"@),
        transcript_entries(*final(t)) == squeezed(
            transcript_entries(*old(t)),
            "bitmask_aggregation"@,
        ),
{
    get_128_bit_challenge(t, "bitmask_aggregation")
}

/// Absorbs the commitments to the registers of the second round.
pub fn append_2nd_round_register_commitments(
    t: &mut merlin::Transcript,
    register_commitments: &Vec<bw6::G1Affine>,
)
    requires
        register_commitments.len() <= MAX_MESSAGE_ITEMS,
    ensures
        transcript_entries(*final(t)) == absorbed(
            transcript_entries(*old(t)),
            "2nd_round_register_commitments"@,
            g1_encodings(g1_points(register_commitments@)),
        ),
{
    let m = encode_g1_list(register_commitments);
    append_message(t, "2nd_round_register_commitments", &m);
}

/// Draws the challenge that the constraints are combined with.
pub fn get_constraints_aggregation_challenge(t: &mut merlin::Transcript) -> (r: Fr)
    ensures
        r@ == challenge(transcript_entries(*old(t)), "constraints_aggregation"@),
        transcript_entries(*final(t)) == squeezed(
            transcript_entries(*old(t)),
            "constraints_aggregation"@,
        ),
{
    get_128_bit_challenge(t, "constraints_aggregation")
}

/// Absorbs the commitment to the quotient polynomial.
pub fn append_quotient_commitment(t: &mut merlin::Transcript, point: &bw6::G1Affine)
    ensures
        transcript_entries(*final(t)) == absorbed(
            transcript_entries(*old(t)),
            "quotient"@,
            g1_encoding(point@),
        ),
{
    let m = encode_g1(point);
    append_message(t, "quotient", &m);
}

/// Draws the point at which the polynomials are evaluated.
pub fn get_evaluation_point(t: &mut merlin::Transcript) -> (r: Fr)
    ensures
        r@ == challenge(transcript_entries(*old(t)), "evaluation_point"@),
        transcript_entries(*final(t)) == squeezed(
            transcript_entries(*old(t)),
            "evaluation_point"@,
        ),
{
    get_128_bit_challenge(t, "evaluation_point")
}

/// Absorbs the values of the registers, of the quotient and of the
/// linearization polynomial.
pub fn append_evaluations(
    t: &mut merlin::Transcript,
    evals: &Vec<Fr>,
    q_at_zeta: &Fr,
    r_at_zeta_omega: &Fr,
)
    requires
        evals.len() <= MAX_MESSAGE_ITEMS,
    ensures
        transcript_entries(*final(t)) == with_evaluations(
            transcript_entries(*old(t)),
            values(evals@),
            q_at_zeta@,
            r_at_zeta_omega@,
        ),
{
    let m = encode_scalar_list(evals);
    append_message(t, "register_evaluations", &m);
    append_message(t, "quotient_evaluation", &encode_scalar(q_at_zeta));
    append_message(t, "shifted_linearization_evaluation", &encode_scalar(r_at_zeta_omega));
}

/// Draws the challenges that the openings are combined with.
pub fn get_kzg_aggregation_challenges(t: &mut merlin::Transcript, n: usize) -> (r: Vec<Fr>)
    ensures
        values(r@) == challenges(transcript_entries(*old(t)), "kzg_aggregation"@, n as nat),
        r.len() == n,
        transcript_entries(*final(t)) == squeezed_times(
            transcript_entries(*old(t)),
            "kzg_aggregation"@,
            n as nat,
        ),
{
    let r = get_128_bit_challenges(t, "kzg_aggregation", n);
    proof {
        assert(values(r@).len() == r.len());
    }
    r
}

/// `merlin`'s `Transcript::append_message` with the label's bytes: the
/// transcript has gone through one more entry, the message under the label.
#[verifier::external_body]
fn transcript_append(t: &mut merlin::Transcript, label: &'static str, message: &[u8])
    requires
        message@.len() <= u32::MAX,
    ensures
        transcript_entries(*final(t)) == absorbed(transcript_entries(*old(t)), label@, message@),
{
    t.append_message(label.as_bytes(), message);
}

/// `merlin`'s `Transcript::challenge_bytes` with the label's bytes and room
/// for sixteen bytes: the bytes are named after what the transcript had gone
/// through, and the transcript has gone through one more entry, the challenge.
#[verifier::external_body]
fn transcript_challenge(t: &mut merlin::Transcript, label: &'static str) -> (r: [u8; 16])
    ensures
        r@ == challenge_bytes(transcript_entries(*old(t)), label@, CHALLENGE_LENGTH as nat),
        transcript_entries(*final(t)) == squeezed(transcript_entries(*old(t)), label@),
{
    let mut r = [0u8; 16];
    t.challenge_bytes(label.as_bytes(), &mut r);
    r
}

/// `merlin`'s `Clone` for a transcript: the copy has gone through what the
/// transcript has.
#[verifier::external_body]
pub(crate) fn transcript_clone(t: &merlin::Transcript) -> (r: merlin::Transcript)
    ensures
        transcript_entries(r) == transcript_entries(*t),
{
    t.clone()
}

/// `ark_serialize`'s compressed encoding of a scalar: the 48 bytes of its
/// canonical representative, the lowest first.
#[verifier::external_body]
pub(crate) fn serialize_scalar(x: &Fr) -> (r: Vec<u8>)
    ensures
        r@ == scalar_encoding(x@),
        r.len() == 48,
{
    let v: ark_bls12_377::Fq = BigInt(x.limbs()).into();
    let mut r = Vec::new();
    v.serialize_compressed(&mut r).unwrap();
    r
}

/// `ark_serialize`'s compressed encoding of a point of G1 of BLS12-377: the
/// 48 bytes of the x-coordinate, the lowest first, with the flag of the point
/// in the two highest bits of the last byte.
#[verifier::external_body]
pub(crate) fn serialize_key(p: &G1Affine) -> (r: Vec<u8>)
    ensures
        r@ == key_encoding(p@),
        r.len() == 48,
{
    let v = ark_bls12_377::G1Affine::new_unchecked(
        BigInt(p.x.limbs()).into(),
        BigInt(p.y.limbs()).into(),
    );
    let mut r = Vec::new();
    v.serialize_compressed(&mut r).unwrap();
    r
}

/// `ark_serialize`'s compressed encoding of a point of G1 of BW6-761: the
/// 96 bytes of the x-coordinate, the lowest first, with the flag of the point
/// in the two highest bits of the last byte.
#[verifier::external_body]
pub(crate) fn serialize_g1(p: &bw6::G1Affine) -> (r: Vec<u8>)
    ensures
        r@ == g1_encoding(p@),
        r.len() == 96,
{
    let v = ark_bw6_761::G1Affine::new_unchecked(
        BigInt(p.x.limbs()).into(),
        BigInt(p.y.limbs()).into(),
    );
    let mut r = Vec::new();
    v.serialize_compressed(&mut r).unwrap();
    r
}

/// `ark_serialize`'s compressed encoding of a point of G2 of BW6-761: the
/// 96 bytes of the x-coordinate, the lowest first, with the flag of the point
/// in the two highest bits of the last byte.
#[verifier::external_body]
pub(crate) fn serialize_g2(p: &bw6::G2Affine) -> (r: Vec<u8>)
    ensures
        r@ == g2_encoding(p@),
        r.len() == 96,
{
    let v = ark_bw6_761::G2Affine::new_unchecked(
        BigInt(p.x.limbs()).into(),
        BigInt(p.y.limbs()).into(),
    );
    let mut r = Vec::new();
    v.serialize_compressed(&mut r).unwrap();
    r
}

} // verus!
