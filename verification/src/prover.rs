//! The prover: the rounds of commitments, challenges and responses that make
//! a proof, in their one order.
//!
//! Every challenge is drawn from the transcript after everything that the
//! prover has sent so far has been absorbed, so that a proof is a function of
//! the set of keys, the committer key, the transcript that the prover was
//! made with, and the bitmask.
use vstd::prelude::*;
use vstd::arithmetic::power2::pow2;
use crate::bitmask::{count_ones, Bitmask};
use crate::bw6;
use crate::bw6::g1_points;
use crate::curve::{identity_point, AffinePoint};
use crate::domains::{
    domain_element, generator, root_of_unity, vanishes_on_domain, Domains,
};
use crate::field::{fmul, values, Fr};
use crate::keyset::{aggregate_key, Keyset, KeysetCommitment};
use crate::kzg::{kzg_commitment, kzg_opening, KzgCommitterKey, URS};
use crate::piop::affine_addition::{addition_values, AdditionValues};
use crate::piop::basic::{
    randomize, AffineAdditionEvaluationsWithoutBitmask, BasicRegisterBuilder,
};
use crate::piop::counting::{CountingEvaluations, CountingScheme};
use crate::piop::packed::{PackedRegisterBuilder, SuccinctAccountableRegisterEvaluations};
use crate::piop::{ProverProtocol, RegisterEvaluations};
use crate::poly::{
    combination, evaluate, lemma_combination_len, lemma_combination_vanishes_at,
    lemma_max_len_bounds, poly_eval, polys_values, powers, sum_with_coeffs,
};
use crate::public_input::{AccountablePublicInput, CountingPublicInput, PublicInput};
use crate::transcript::{
    absorbed, append_2nd_round_register_commitments, append_evaluations, append_public_input,
    append_quotient_commitment, append_register_commitments, challenge, challenges,
    clone_transcript, g1_encoding, g1_encodings, get_bitmask_aggregation_challenge,
    get_constraints_aggregation_challenge, get_evaluation_point, get_kzg_aggregation_challenges,
    set_keyset_commitment, set_protocol_params, squeezed, transcript_entries, with_evaluations,
    with_keyset_commitment, with_protocol_params, TranscriptEntry,
};
use crate::utils::{divide_by_vanishing_polynomial, vanishing_quotient};

verus! {

/// Why no proof was made.
#[derive(Clone, Copy, Debug, PartialEq, Eq)]
pub enum InputError {
    /// The bitmask does not have one bit for each key of the set.
    BitmaskLengthMismatch,
    /// The bitmask selects no key, or keys that sum to the identity of the
    /// group, which has no affine coordinates.
    IdentityAggregate,
}

/// A proof that a key is the aggregate of the keys that a bitmask selects
/// from a committed set.
#[derive(Debug)]
pub struct Proof<E: RegisterEvaluations> {
    /// The commitments to the registers of the first round.
    pub register_commitments: Vec<bw6::G1Affine>,
    /// The commitments to the registers of the second round, which the
    /// packed protocol has.
    pub additional_commitments: Vec<bw6::G1Affine>,
    /// The commitment to the quotient polynomial.
    pub q_comm: bw6::G1Affine,
    /// The values of the register polynomials at the evaluation point.
    pub register_evaluations: E,
    /// The value of the quotient polynomial at the evaluation point.
    pub q_zeta: Fr,
    /// The value of the linearization polynomial at the evaluation point
    /// moved on by one position of the domain.
    pub r_zeta_omega: Fr,
    /// The proof of the combined opening at the evaluation point.
    pub w_at_zeta_proof: bw6::G1Affine,
    /// The proof of the opening of the linearization polynomial.
    pub r_at_zeta_omega_proof: bw6::G1Affine,
}

/// A proof of the plain protocol.
pub type SimpleProof = Proof<AffineAdditionEvaluationsWithoutBitmask>;

/// A proof of the packed protocol.
pub type PackedProof = Proof<SuccinctAccountableRegisterEvaluations>;

/// A proof of the counting protocol.
pub type CountingProof = Proof<CountingEvaluations>;

/// A proof, as plain numbers.
pub struct ProofValues {
    pub register_commitments: Seq<AffinePoint>,
    pub additional_commitments: Seq<AffinePoint>,
    pub q_comm: AffinePoint,
    pub register_evaluations: Seq<nat>,
    pub q_zeta: nat,
    pub r_zeta_omega: nat,
    pub w_at_zeta_proof: AffinePoint,
    pub r_at_zeta_omega_proof: AffinePoint,
}

impl<E: RegisterEvaluations> Proof<E> {
    /// The proof as plain numbers.
    pub open spec fn values(&self) -> ProofValues {
        ProofValues {
            register_commitments: g1_points(self.register_commitments@),
            additional_commitments: g1_points(self.additional_commitments@),
            q_comm: self.q_comm@,
            register_evaluations: self.register_evaluations.spec_vec(),
            q_zeta: self.q_zeta@,
            r_zeta_omega: self.r_zeta_omega@,
            w_at_zeta_proof: self.w_at_zeta_proof@,
            r_at_zeta_omega_proof: self.r_at_zeta_omega_proof@,
        }
    }
}

/// The commitments to a sequence of polynomials.
pub open spec fn commitments(ck: Seq<AffinePoint>, polys: Seq<Seq<nat>>) -> Seq<AffinePoint> {
    polys.map_values(|p: Seq<nat>| kzg_commitment(ck, p))
}

/// The quotient polynomial: the combination of the constraint polynomials
/// with the powers of `phi`, divided by the vanishing polynomial of the
/// domain.
pub open spec fn quotient(constraints: Seq<Seq<nat>>, phi: nat, log_n: nat) -> Seq<nat> {
    vanishing_quotient(combination(constraints, powers(phi, constraints.len())), pow2(log_n))
}

/// The challenges of a proof and what the transcript has gone through when
/// the last of them is drawn.
pub struct Challenges {
    /// The challenge that the bitmask is packed with.
    pub r: nat,
    /// The challenge that the constraints are combined with.
    pub phi: nat,
    /// The evaluation point.
    pub zeta: nat,
    /// The challenges that the openings are combined with.
    pub nus: Seq<nat>,
}

/// The entries of the transcript after the public input and the commitments
/// of the first round.
pub open spec fn entries_after_round1(
    entries: Seq<TranscriptEntry>,
    public_input: Seq<u8>,
    register_commitments: Seq<AffinePoint>,
) -> Seq<TranscriptEntry> {
    absorbed(
        absorbed(entries, "public_input"@, public_input),
        "register_commitments"@,
        g1_encodings(register_commitments),
    )
}

/// The entries of the transcript after the commitments of the second round.
pub open spec fn entries_after_round2(
    entries: Seq<TranscriptEntry>,
    additional_commitments: Seq<AffinePoint>,
) -> Seq<TranscriptEntry> {
    absorbed(
        squeezed(entries, "bitmask_aggregation"@),
        "2nd_round_register_commitments"@,
        g1_encodings(additional_commitments),
    )
}

/// The entries of the transcript after the commitment to the quotient.
pub open spec fn entries_after_quotient(
    entries: Seq<TranscriptEntry>,
    q_comm: AffinePoint,
) -> Seq<TranscriptEntry> {
    absorbed(squeezed(entries, "constraints_aggregation"@), "quotient"@, g1_encoding(q_comm))
}

/// The entries of the transcript after the evaluations.
pub open spec fn entries_after_evaluations(
    entries: Seq<TranscriptEntry>,
    evals: Seq<nat>,
    q_zeta: nat,
    r_zeta_omega: nat,
) -> Seq<TranscriptEntry> {
    with_evaluations(squeezed(entries, "evaluation_point"@), evals, q_zeta, r_zeta_omega)
}

/// The proof of the protocol `P` for the registers `s`, under the committer
/// key with the points `ck`, from a transcript that has gone through
/// `entries`, about the public input with the given encoding.
pub open spec fn proof_values<P: ProverProtocol>(
    s: AdditionValues,
    ck: Seq<AffinePoint>,
    entries: Seq<TranscriptEntry>,
    public_input: Seq<u8>,
) -> ProofValues {
    let register_commitments = commitments(ck, P::spec_commit1(s));
    let t1 = entries_after_round1(entries, public_input, register_commitments);
    let r = challenge(t1, "bitmask_aggregation"@);
    let additional_commitments = commitments(ck, P::spec_commit2(s, r));
    let t2 = entries_after_round2(t1, additional_commitments);
    let phi = challenge(t2, "constraints_aggregation"@);
    let q = quotient(P::spec_constraints(s, r), phi, s.log_n);
    let q_comm = kzg_commitment(ck, q);
    let t3 = entries_after_quotient(t2, q_comm);
    let zeta = challenge(t3, "evaluation_point"@);
    let register_evaluations = P::spec_evaluations(s, r, zeta);
    let q_zeta = poly_eval(q, zeta);
    let zeta_omega = fmul(zeta, root_of_unity(s.log_n));
    let r_poly = P::spec_linearization(s, r, phi, zeta);
    let r_zeta_omega = poly_eval(r_poly, zeta_omega);
    let t4 = entries_after_evaluations(t3, register_evaluations, q_zeta, r_zeta_omega);
    let opened = P::spec_open(s, r).push(q);
    let nus = challenges(t4, "kzg_aggregation"@, opened.len());
    let w_poly = combination(opened, nus);
    ProofValues {
        register_commitments,
        additional_commitments,
        q_comm,
        register_evaluations,
        q_zeta,
        r_zeta_omega,
        w_at_zeta_proof: kzg_opening(ck, w_poly, zeta),
        r_at_zeta_omega_proof: kzg_opening(ck, r_poly, zeta_omega),
    }
}

/// The commitments to the polynomials, none of which has more coefficients
/// than the key has powers.
pub fn commit_all(ck: &KzgCommitterKey, polys: &Vec<Vec<Fr>>) -> (r: Vec<bw6::G1Affine>)
    requires
        forall|i: int| 0 <= i < polys.len() ==> (#[trigger] polys@[i]).len() <= ck@.len(),
    ensures
        g1_points(r@) == commitments(ck@, polys_values(polys@)),
        r.len() == polys.len(),
{
    let mut r: Vec<bw6::G1Affine> = Vec::new();
    let mut i: usize = 0;
    while i < polys.len()
        invariant
            i <= polys.len(),
            r.len() == i,
            forall|j: int| 0 <= j < polys.len() ==> (#[trigger] polys@[j]).len() <= ck@.len(),
            forall|j: int| 0 <= j < i ==> r@[j]@ == kzg_commitment(ck@, values(polys@[j]@)),
        decreases polys.len() - i,
    {
        r.push(ck.commit_within(&polys[i]));
        i = i + 1;
    }
    proof {
        assert(g1_points(r@) =~= commitments(ck@, polys_values(polys@)));
    }
    r
}

/// The quotient polynomial of the constraint polynomials, none of which has
/// more than `4n + 1` coefficients, so that the quotient has no more than
/// `3n + 1`.
pub fn compute_quotient_polynomial(constraints: &Vec<Vec<Fr>>, phi: &Fr, domains: &Domains) -> (r:
    Vec<Fr>)
    requires
        forall|i: int|
            0 <= i < constraints.len() ==> (#[trigger] constraints@[i]).len() <= 4
                * domains.spec_size() + 1,
    ensures
        values(r@) == quotient(polys_values(constraints@), phi@, domains.spec_log_size()),
        r.len() <= 3 * domains.spec_size() + 1,
{
    let w = randomize(phi, constraints);
    let r = divide_by_vanishing_polynomial(&w, domains);
    proof {
        lemma_max_len_bounds(polys_values(constraints@), 4 * domains.spec_size() + 1);
        lemma_combination_len(
            polys_values(constraints@),
            powers(phi@, constraints.len() as nat),
        );
        assert(values(w@).len() == w.len());
        assert(values(r@).len() == r.len());
    }
    r
}

/// Makes proofs about one set of keys.
pub struct Prover {
    domains: Domains,
    keyset: Keyset,
    kzg_pk: KzgCommitterKey,
    preprocessed_transcript: merlin::Transcript,
}

impl Prover {
    #[verifier::type_invariant]
    spec fn inv(self) -> bool {
        &&& self.keyset.spec_domain() == self.domains
        &&& self.kzg_pk@.len() >= 3 * self.domains.spec_size() + 1
    }

    /// The set of keys that the prover makes proofs about.
    pub closed spec fn spec_keyset(&self) -> Keyset {
        self.keyset
    }

    /// The points of the committer key.
    pub closed spec fn spec_ck(&self) -> Seq<AffinePoint> {
        self.kzg_pk@
    }

    /// What the transcript that every proof starts from has gone through.
    pub closed spec fn spec_entries(&self) -> Seq<TranscriptEntry> {
        transcript_entries(self.preprocessed_transcript)
    }

    /// The registers that a proof about `bits` is made from.
    pub open spec fn spec_registers(&self, bits: Seq<bool>) -> AdditionValues {
        addition_values(
            self.spec_keyset().spec_domain().spec_log_size(),
            self.spec_keyset().spec_polys(),
            self.spec_keyset().spec_pks(),
            bits,
        )
    }

    /// A prover for a set of keys. The reference string must hold three
    /// times as many powers, and one more, as the domain of the set has
    /// elements. The parameters of the protocol and the commitment to the set
    /// are absorbed into the transcript, once for all proofs.
    pub fn new(
        keyset: Keyset,
        keyset_comm: &KeysetCommitment,
        kzg_params: URS,
        empty_transcript: merlin::Transcript,
    ) -> (r: Prover)
        requires
            kzg_params.spec_powers_in_g1().len() >= 3 * keyset.spec_domain().spec_size() + 1,
        ensures
            r.spec_keyset().spec_pks() == keyset.spec_pks(),
            r.spec_keyset().spec_domain() == keyset.spec_domain(),
            r.spec_keyset().spec_polys() == keyset.spec_polys(),
            r.spec_ck() == kzg_params.spec_powers_in_g1(),
            r.spec_entries() == with_keyset_commitment(
                with_protocol_params(
                    transcript_entries(empty_transcript),
                    keyset.spec_domain().spec_log_size() as u32,
                    kzg_params.spec_raw_vk(),
                ),
                keyset_comm@,
            ),
    {
        let mut keyset = keyset;
        let mut transcript = empty_transcript;
        let domains = keyset.domain();
        set_protocol_params(&mut transcript, &domains, &kzg_params.raw_vk());
        set_keyset_commitment(&mut transcript, keyset_comm);
        keyset.amplify();
        Prover { domains, keyset, kzg_pk: kzg_params.ck(), preprocessed_transcript: transcript }
    }

    /// A proof of the plain protocol, with the aggregate key and the bitmask
    /// as public input.
    pub fn prove_simple(&self, bitmask: Bitmask) -> (r: Result<
        (SimpleProof, AccountablePublicInput),
        InputError,
    >)
        ensures
            self.proves::<BasicRegisterBuilder>(bitmask@, r),
            r is Ok ==> r->Ok_0.1.apk@ == aggregate_key(self.spec_keyset().spec_pks(), bitmask@)
                && r->Ok_0.1.bitmask@ == bitmask@,
    {
        self.prove::<BasicRegisterBuilder>(bitmask)
    }

    /// A proof of the packed protocol, with the aggregate key and the bitmask
    /// as public input.
    pub fn prove_packed(&self, bitmask: Bitmask) -> (r: Result<
        (PackedProof, AccountablePublicInput),
        InputError,
    >)
        ensures
            self.proves::<PackedRegisterBuilder>(bitmask@, r),
            r is Ok ==> r->Ok_0.1.apk@ == aggregate_key(self.spec_keyset().spec_pks(), bitmask@)
                && r->Ok_0.1.bitmask@ == bitmask@,
    {
        self.prove::<PackedRegisterBuilder>(bitmask)
    }

    /// A proof of the counting protocol, with the aggregate key and the number
    /// of keys that it sums as public input.
    pub fn prove_counting(&self, bitmask: Bitmask) -> (r: Result<
        (CountingProof, CountingPublicInput),
        InputError,
    >)
        ensures
            self.proves::<CountingScheme>(bitmask@, r),
            r is Ok ==> r->Ok_0.1.apk@ == aggregate_key(self.spec_keyset().spec_pks(), bitmask@)
                && r->Ok_0.1.count == count_ones(bitmask@),
    {
        self.prove::<CountingScheme>(bitmask)
    }

    /// What `prove` owes for a bitmask: an error exactly where the bitmask
    /// does not fit the set or selects an aggregate without affine
    /// coordinates, and else the public input for the aggregate key and the
    /// proof of the protocol.
    pub open spec fn proves<P: ProverProtocol>(
        &self,
        bits: Seq<bool>,
        r: Result<(Proof<P::E>, P::PI), InputError>,
    ) -> bool {
        let pks = self.spec_keyset().spec_pks();
        match r {
            Err(InputError::BitmaskLengthMismatch) => bits.len() != pks.len(),
            Err(InputError::IdentityAggregate) => bits.len() == pks.len() && (count_ones(bits) == 0
                || aggregate_key(pks, bits) == identity_point()),
            Ok((made, public_input)) => {
                &&& bits.len() == pks.len()
                &&& count_ones(bits) > 0
                &&& aggregate_key(pks, bits) != identity_point()
                &&& public_input.matches(aggregate_key(pks, bits), bits)
                &&& made.values() == proof_values::<P>(
                    self.spec_registers(bits),
                    self.spec_ck(),
                    self.spec_entries(),
                    P::PI::spec_encoding(aggregate_key(pks, bits), bits),
                )
            },
        }
    }

    /// A proof of the protocol `P` about the keys that the bitmask selects.
    /// The input is checked before anything is committed to; after that,
    /// every round succeeds.
    pub fn prove<P: ProverProtocol>(&self, bitmask: Bitmask) -> (r: Result<
        (Proof<P::E>, P::PI),
        InputError,
    >)
        ensures
            self.proves::<P>(bitmask@, r),
    {
        proof {
            use_type_invariant(self);
        }
        if bitmask.size() != self.keyset.size() {
            return Err(InputError::BitmaskLengthMismatch);
        }
        if bitmask.count_ones() == 0 {
            return Err(InputError::IdentityAggregate);
        }
        let bits = bitmask.to_bits();
        let apk = self.keyset.aggregate(bits.as_slice());
        if apk.is_identity() {
            return Err(InputError::IdentityAggregate);
        }
        let mut transcript = clone_transcript(&self.preprocessed_transcript);
        let public_input = P::PI::new(&apk, &bitmask);
        let n = self.domains.size();
        let log_n = self.domains.log_size();
        append_public_input(&mut transcript, &public_input.to_bytes());

        // 1. Commit to the registers of the first round.
        let protocol = P::init(self.domains, bitmask, self.keyset.clone());
        let partial_sums_polynomials = protocol.get_register_polynomials_to_commit1();
        let partial_sums_commitments = commit_all(&self.kzg_pk, &partial_sums_polynomials);
        append_register_commitments(&mut transcript, &partial_sums_commitments);

        // 2. Draw the challenge that the bitmask is packed with, and commit to
        // the registers that depend on it.
        let r = get_bitmask_aggregation_challenge(&mut transcript);
        let acc_register_polynomials = protocol.get_register_polynomials_to_commit2(&r);
        let acc_register_commitments = commit_all(&self.kzg_pk, &acc_register_polynomials);
        append_2nd_round_register_commitments(&mut transcript, &acc_register_commitments);

        // 3. Draw the challenge that the constraints are combined with, and
        // commit to the quotient polynomial.
        let phi = get_constraints_aggregation_challenge(&mut transcript);
        let constraints = protocol.compute_constraint_polynomials(&r);
        let q_poly = compute_quotient_polynomial(&constraints, &phi, &self.domains);
        let q_comm = self.kzg_pk.commit_within(&q_poly);
        append_quotient_commitment(&mut transcript, &q_comm);

        // 4. Draw the evaluation point, and evaluate the register polynomials
        // and the quotient polynomial there, and the linearization polynomial
        // at the point moved on by one position of the domain.
        let zeta = get_evaluation_point(&mut transcript);
        let register_evaluations = protocol.evaluate_register_polynomials(&r, &zeta);
        let q_zeta = evaluate(&q_poly, &zeta);
        let zeta_omega = zeta.mul(&generator(log_n));
        let r_poly = protocol.compute_linearization_polynomial(&r, &phi, &zeta);
        let r_zeta_omega = evaluate(&r_poly, &zeta_omega);
        append_evaluations(&mut transcript, &register_evaluations.as_vec(), &q_zeta, &r_zeta_omega);

        // 5. Draw the challenges that the openings are combined with, and
        // open the combined polynomial and the linearization polynomial.
        let mut register_polynomials = protocol.get_register_polynomials_to_open(&r);
        let ghost opened = polys_values(register_polynomials@);
        register_polynomials.push(q_poly);
        proof {
            assert(polys_values(register_polynomials@) =~= opened.push(values(q_poly@)));
        }
        let nus = get_kzg_aggregation_challenges(&mut transcript, register_polynomials.len());
        let w_poly = sum_with_coeffs(&register_polynomials, &nus);
        proof {
            lemma_max_len_bounds(polys_values(register_polynomials@), 3 * pow2(log_n as nat) + 1);
            lemma_combination_len(polys_values(register_polynomials@), values(nus@));
            assert(values(w_poly@).len() == w_poly.len());
        }
        let w_at_zeta_proof = self.kzg_pk.open_within(&w_poly, &zeta);
        let r_at_zeta_omega_proof = self.kzg_pk.open_within(&r_poly, &zeta_omega);

        let made = Proof {
            register_commitments: partial_sums_commitments,
            additional_commitments: acc_register_commitments,
            q_comm,
            register_evaluations,
            q_zeta,
            r_zeta_omega,
            w_at_zeta_proof,
            r_at_zeta_omega_proof,
        };
        Ok((made, public_input))
    }
}

/// What the prover divides by the vanishing polynomial of the domain, the
/// combination of the constraint polynomials with the powers of `phi`,
/// vanishes on the domain where every constraint polynomial does: for a
/// regular accumulation, no remainder is left out of the proof.
pub proof fn lemma_combined_constraints_vanish(log_n: nat, constraints: Seq<Seq<nat>>, phi: nat)
    requires
        forall|k: int|
            0 <= k < constraints.len() ==> vanishes_on_domain(log_n, #[trigger] constraints[k]),
    ensures
        vanishes_on_domain(log_n, combination(constraints, powers(phi, constraints.len()))),
{
    assert forall|i: nat| i < pow2(log_n) implies poly_eval(
        combination(constraints, powers(phi, constraints.len())),
        #[trigger] domain_element(log_n, i),
    ) == 0 by {
        let x = domain_element(log_n, i);
        assert forall|k: int| 0 <= k < constraints.len() implies poly_eval(
            #[trigger] constraints[k],
            x,
        ) == 0 by {
            assert(vanishes_on_domain(log_n, constraints[k]));
        }
        lemma_combination_vanishes_at(constraints, powers(phi, constraints.len()), x);
    }
}

/// On one set of keys and one bitmask, the three protocols make a proof or
/// fail together; where they make one, they state the same aggregate key, the
/// plain and the packed protocol state the bitmask, and the counting protocol
/// states the number of its set bits.
pub proof fn lemma_protocols_agree(
    prover: Prover,
    bits: Seq<bool>,
    simple: Result<(SimpleProof, AccountablePublicInput), InputError>,
    packed: Result<(PackedProof, AccountablePublicInput), InputError>,
    counting: Result<(CountingProof, CountingPublicInput), InputError>,
)
    requires
        prover.proves::<BasicRegisterBuilder>(bits, simple),
        prover.proves::<PackedRegisterBuilder>(bits, packed),
        prover.proves::<CountingScheme>(bits, counting),
    ensures
        simple is Ok <==> packed is Ok,
        simple is Ok <==> counting is Ok,
        simple is Ok ==> {
            &&& simple->Ok_0.1.apk@ == packed->Ok_0.1.apk@
            &&& simple->Ok_0.1.apk@ == counting->Ok_0.1.apk@
            &&& simple->Ok_0.1.bitmask@ == bits
            &&& packed->Ok_0.1.bitmask@ == bits
            &&& counting->Ok_0.1.count == count_ones(bits)
        },
        simple is Err ==> simple->Err_0 == packed->Err_0 && simple->Err_0 == counting->Err_0,
{
}

/// A proof is a function of the prover and the bitmask: two runs of a
/// protocol on the same bitmask give the same proof, number by number.
pub proof fn lemma_proof_is_determined<P: ProverProtocol>(
    prover: Prover,
    bits: Seq<bool>,
    first: Result<(Proof<P::E>, P::PI), InputError>,
    second: Result<(Proof<P::E>, P::PI), InputError>,
)
    requires
        prover.proves::<P>(bits, first),
        prover.proves::<P>(bits, second),
    ensures
        first is Ok <==> second is Ok,
        first is Ok ==> first->Ok_0.0.values() == second->Ok_0.0.values(),
        first is Err ==> first->Err_0 == second->Err_0,
{
}

/// No proof is made for a bitmask without a set bit.
pub proof fn lemma_empty_bitmask_is_rejected<P: ProverProtocol>(
    prover: Prover,
    bits: Seq<bool>,
    r: Result<(Proof<P::E>, P::PI), InputError>,
)
    requires
        prover.proves::<P>(bits, r),
        forall|i: int| 0 <= i < bits.len() ==> !bits[i],
    ensures
        r is Err,
{
    crate::bitmask::lemma_count_ones_zero(bits);
}

} // verus!
