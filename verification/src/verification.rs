//! The verifier: it draws the challenges as the prover did, from the same
//! messages in the same order, checks the identity of the constraints at the
//! evaluation point and the two openings, and accepts or rejects.
use vstd::prelude::*;
use vstd::arithmetic::power2::pow2;
use crate::bw6;
use crate::bw6::{bw6_product, bw6_sum, g1_points};
use crate::curve::{complement_point, g1_sum, identity_point, point_in_g1_complement, AffinePoint};
use crate::domains::{generator, root_of_unity, Domains, MAX_LOG_SIZE};
use crate::field::{fadd, fmul, fpow, fsub, values, Fr};
use crate::keyset::{KeysetCommitment, KeysetCommitmentValues};
use crate::kzg::{opening_accepted, RawKzgVerifierKey, VerifierKeyPoints};
use crate::piop::affine_addition::{AffineAdditionEvaluations, EvaluationValues};
use crate::piop::basic::AffineAdditionEvaluationsWithoutBitmask;
use crate::piop::counting::{count_constraint_rest, CountingEvaluations};
use crate::piop::packed::{
    chunk_ends, chunk_step, chunk_width, chunk_width_of, coefficient_constraint_rest,
    compute_chunk_ends, packing_values, sum_constraint_rest, BitmaskPackingRegisters,
    SuccinctAccountableRegisterEvaluations,
};
use crate::piop::RegisterEvaluations;
use crate::poly::{inner_product, powers, powers_of, sum_values_with_coeffs};
use crate::prover::{
    entries_after_evaluations, entries_after_quotient, entries_after_round1,
    entries_after_round2, Challenges, Proof, ProofValues,
};
use crate::public_input::{
    accountable_encoding, counting_encoding, AccountablePublicInput, CountingPublicInput,
    PublicInput,
};
use crate::transcript::{
    append_2nd_round_register_commitments, append_evaluations, append_public_input,
    append_quotient_commitment, append_register_commitments, challenge, challenges,
    clone_transcript, get_bitmask_aggregation_challenge, get_constraints_aggregation_challenge,
    get_evaluation_point, get_kzg_aggregation_challenges, set_keyset_commitment,
    set_protocol_params, transcript_entries, with_keyset_commitment, with_protocol_params,
    TranscriptEntry, MAX_MESSAGE_ITEMS,
};
use crate::utils::{
    barycentric_eval_binary_at, bitmask_at, inverse_or_zero, lagrange_evaluations,
    lagrange_values,
};

verus! {

/// The sum of the points, each multiplied by its coefficient, taken from the
/// first on.
pub open spec fn combined_points(points: Seq<AffinePoint>, coeffs: Seq<nat>) -> AffinePoint
    decreases points.len(),
{
    if points.len() == 0 {
        identity_point()
    } else {
        bw6_sum(
            combined_points(points.drop_last(), coeffs.drop_last()),
            bw6_product(points.last(), coeffs.last()),
        )
    }
}

/// The sum of the points, each multiplied by its coefficient.
pub fn combine_points(points: &Vec<bw6::G1Affine>, coeffs: &Vec<Fr>) -> (r: bw6::G1Affine)
    requires
        points.len() == coeffs.len(),
    ensures
        r@ == combined_points(g1_points(points@), values(coeffs@)),
{
    let mut r = bw6::G1Affine::identity();
    let mut i: usize = 0;
    proof {
        assert(g1_points(points@).take(0) =~= Seq::<AffinePoint>::empty());
    }
    while i < points.len()
        invariant
            i <= points.len(),
            points.len() == coeffs.len(),
            r@ == combined_points(
                g1_points(points@).take(i as int),
                values(coeffs@).take(i as int),
            ),
        decreases points.len() - i,
    {
        proof {
            assert(g1_points(points@).take(i + 1).drop_last() =~= g1_points(points@).take(
                i as int,
            ));
            assert(values(coeffs@).take(i + 1).drop_last() =~= values(coeffs@).take(i as int));
        }
        r = r.add(&points[i].mul(&coeffs[i]));
        i = i + 1;
    }
    proof {
        assert(g1_points(points@).take(points.len() as int) =~= g1_points(points@));
        assert(values(coeffs@).take(points.len() as int) =~= values(coeffs@));
    }
    r
}

/// The challenges that the prover of a proof has drawn, from what the
/// transcript had gone through before the proof and the public input's
/// encoding, where `opened` polynomials are opened at the evaluation point.
pub open spec fn restored_challenges(
    entries: Seq<TranscriptEntry>,
    public_input: Seq<u8>,
    p: ProofValues,
    opened: nat,
) -> Challenges {
    let t1 = entries_after_round1(entries, public_input, p.register_commitments);
    let t2 = entries_after_round2(t1, p.additional_commitments);
    let t3 = entries_after_quotient(t2, p.q_comm);
    let t4 = entries_after_evaluations(t3, p.register_evaluations, p.q_zeta, p.r_zeta_omega);
    Challenges {
        r: challenge(t1, "bitmask_aggregation"@),
        phi: challenge(t2, "constraints_aggregation"@),
        zeta: challenge(t3, "evaluation_point"@),
        nus: challenges(t4, "kzg_aggregation"@, opened),
    }
}

/// The challenges of a proof.
pub struct RestoredChallenges {
    pub r: Fr,
    pub phi: Fr,
    pub zeta: Fr,
    pub nus: Vec<Fr>,
}

impl View for RestoredChallenges {
    type V = Challenges;

    open spec fn view(&self) -> Challenges {
        Challenges { r: self.r@, phi: self.phi@, zeta: self.zeta@, nus: values(self.nus@) }
    }
}

/// Whether the two openings of a proof verify: that of the combination with
/// `nus` of the commitments, which takes the value that is the combination of
/// `evaluations` at `zeta`, and that of the linearization polynomial with the
/// commitment `r_comm`, which takes the value `r_zeta_omega` at `zeta * w`.
pub open spec fn openings_verify(
    vk: VerifierKeyPoints,
    log_n: nat,
    opened_commitments: Seq<AffinePoint>,
    evaluations: Seq<nat>,
    r_comm: AffinePoint,
    c: Challenges,
    p: ProofValues,
) -> bool {
    &&& opening_accepted(
        vk,
        combined_points(opened_commitments, c.nus),
        c.zeta,
        inner_product(evaluations, c.nus),
        p.w_at_zeta_proof,
    )
    &&& opening_accepted(
        vk,
        r_comm,
        fmul(c.zeta, root_of_unity(log_n)),
        p.r_zeta_omega,
        p.r_at_zeta_omega_proof,
    )
}

/// Whether the identity of the constraints holds at the evaluation point:
/// the value of the linearization polynomial plus the combination with the
/// powers of `phi` of what is left of the constraints is the value of the
/// quotient times that of the vanishing polynomial.
pub open spec fn identity_holds(
    constraint_values: Seq<nat>,
    phi: nat,
    vanishing: nat,
    p: ProofValues,
) -> bool {
    fadd(
        p.r_zeta_omega,
        inner_product(constraint_values, powers(phi, constraint_values.len())),
    ) == fmul(p.q_zeta, vanishing)
}

/// The commitment to the linearization polynomial of the plain protocol, from
/// the commitments to the two polynomials of the partial sums.
pub open spec fn basic_linearization_commitment(
    e: EvaluationValues,
    zeta_minus_last: nat,
    phi: nat,
    acc_x: AffinePoint,
    acc_y: AffinePoint,
) -> AffinePoint {
    let c1 = e.c1_coefficients(zeta_minus_last);
    let c2 = e.c2_coefficients(zeta_minus_last);
    bw6_sum(
        bw6_product(acc_x, fadd(c1.x, fmul(phi, c2.x))),
        bw6_product(acc_y, fadd(c1.y, fmul(phi, c2.y))),
    )
}

/// Whether the verifier of the plain protocol accepts a proof.
pub open spec fn accepts_simple(
    vk: VerifierKeyPoints,
    commitment: KeysetCommitmentValues,
    entries: Seq<TranscriptEntry>,
    apk: AffinePoint,
    bits: Seq<bool>,
    p: ProofValues,
) -> bool {
    let log_n = commitment.log_domain_size;
    let c = restored_challenges(entries, accountable_encoding(apk, bits), p, 5);
    let lagrange = lagrange_values(log_n, c.zeta);
    let e = EvaluationValues {
        keyset: (p.register_evaluations[0], p.register_evaluations[1]),
        bitmask: bitmask_at(bits, log_n, c.zeta),
        partial_sums: (p.register_evaluations[2], p.register_evaluations[3]),
    };
    &&& bits.len() < pow2(log_n)
    &&& p.register_commitments.len() == 2
    &&& p.additional_commitments.len() == 0
    &&& p.register_evaluations.len() == 4
    &&& openings_verify(
        vk,
        log_n,
        seq![
            commitment.pks_comm.0,
            commitment.pks_comm.1,
            p.register_commitments[0],
            p.register_commitments[1],
            p.q_comm,
        ],
        p.register_evaluations.push(p.q_zeta),
        basic_linearization_commitment(
            e,
            lagrange.zeta_minus_omega_inv,
            c.phi,
            p.register_commitments[0],
            p.register_commitments[1],
        ),
        c,
        p,
    )
    &&& identity_holds(
        e.constraint_values(g1_sum(complement_point(), apk), lagrange),
        c.phi,
        lagrange.vanishing_polynomial,
        p,
    )
}

/// Whether the verifier of the counting protocol accepts a proof.
pub open spec fn accepts_counting(
    vk: VerifierKeyPoints,
    commitment: KeysetCommitmentValues,
    entries: Seq<TranscriptEntry>,
    apk: AffinePoint,
    count: u64,
    p: ProofValues,
) -> bool {
    let log_n = commitment.log_domain_size;
    let c = restored_challenges(entries, counting_encoding(apk, count), p, 7);
    let lagrange = lagrange_values(log_n, c.zeta);
    let e = EvaluationValues {
        keyset: (p.register_evaluations[0], p.register_evaluations[1]),
        bitmask: p.register_evaluations[4],
        partial_sums: (p.register_evaluations[2], p.register_evaluations[3]),
    };
    &&& p.register_commitments.len() == 4
    &&& p.additional_commitments.len() == 0
    &&& p.register_evaluations.len() == 6
    &&& openings_verify(
        vk,
        log_n,
        seq![
            commitment.pks_comm.0,
            commitment.pks_comm.1,
            p.register_commitments[0],
            p.register_commitments[1],
            p.register_commitments[2],
            p.register_commitments[3],
            p.q_comm,
        ],
        p.register_evaluations.push(p.q_zeta),
        bw6_sum(
            basic_linearization_commitment(
                e,
                lagrange.zeta_minus_omega_inv,
                c.phi,
                p.register_commitments[0],
                p.register_commitments[1],
            ),
            bw6_product(p.register_commitments[3], fpow(c.phi, 5)),
        ),
        c,
        p,
    )
    &&& identity_holds(
        e.constraint_values(g1_sum(complement_point(), apk), lagrange).push(
            count_constraint_rest(
                p.register_evaluations[5],
                e.bitmask,
                lagrange.l_last,
                count as nat,
            ),
        ),
        c.phi,
        lagrange.vanishing_polynomial,
        p,
    )
}

/// Whether the verifier of the packed protocol accepts a proof.
pub open spec fn accepts_packed(
    vk: VerifierKeyPoints,
    commitment: KeysetCommitmentValues,
    entries: Seq<TranscriptEntry>,
    apk: AffinePoint,
    bits: Seq<bool>,
    p: ProofValues,
) -> bool {
    let log_n = commitment.log_domain_size;
    let n = pow2(log_n);
    let w = chunk_width(n);
    let c = restored_challenges(entries, accountable_encoding(apk, bits), p, 8);
    let lagrange = lagrange_values(log_n, c.zeta);
    let e = EvaluationValues {
        keyset: (p.register_evaluations[0], p.register_evaluations[1]),
        bitmask: p.register_evaluations[4],
        partial_sums: (p.register_evaluations[2], p.register_evaluations[3]),
    };
    let packing = packing_values(log_n, bits, c.r);
    let multiplier = fadd(
        2,
        fmul(fsub(chunk_step(c.r, w), 2), bitmask_at(chunk_ends(n, w), log_n, c.zeta)),
    );
    &&& bits.len() < n
    &&& p.register_commitments.len() == 3
    &&& p.additional_commitments.len() == 2
    &&& p.register_evaluations.len() == 7
    &&& openings_verify(
        vk,
        log_n,
        seq![
            commitment.pks_comm.0,
            commitment.pks_comm.1,
            p.register_commitments[0],
            p.register_commitments[1],
            p.register_commitments[2],
            p.additional_commitments[0],
            p.additional_commitments[1],
            p.q_comm,
        ],
        p.register_evaluations.push(p.q_zeta),
        bw6_sum(
            bw6_sum(
                basic_linearization_commitment(
                    e,
                    lagrange.zeta_minus_omega_inv,
                    c.phi,
                    p.register_commitments[0],
                    p.register_commitments[1],
                ),
                bw6_product(p.additional_commitments[0], fpow(c.phi, 5)),
            ),
            bw6_product(p.additional_commitments[1], fpow(c.phi, 6)),
        ),
        c,
        p,
    )
    &&& identity_holds(
        e.constraint_values(g1_sum(complement_point(), apk), lagrange).push(
            coefficient_constraint_rest(
                p.register_evaluations[5],
                multiplier,
                lagrange.l_last,
                packing.wrap,
            ),
        ).push(
            sum_constraint_rest(
                p.register_evaluations[6],
                e.bitmask,
                p.register_evaluations[5],
                lagrange.l_last,
                packing.total,
            ),
        ),
        c.phi,
        lagrange.vanishing_polynomial,
        p,
    )
}

/// Checks proofs about one committed set of keys.
pub struct Verifier {
    domain: Domains,
    kzg_vk: RawKzgVerifierKey,
    pks_comm: KeysetCommitment,
    preprocessed_transcript: merlin::Transcript,
}

impl Verifier {
    #[verifier::type_invariant]
    spec fn inv(self) -> bool {
        self.domain.spec_log_size() == self.pks_comm.log_domain_size
    }

    /// The verifier's key of the commitment scheme.
    pub closed spec fn spec_vk(&self) -> VerifierKeyPoints {
        self.kzg_vk@
    }

    /// The commitment to the set of keys.
    pub closed spec fn spec_commitment(&self) -> KeysetCommitmentValues {
        self.pks_comm@
    }

    /// What the transcript that every verification starts from has gone
    /// through.
    pub closed spec fn spec_entries(&self) -> Seq<TranscriptEntry> {
        transcript_entries(self.preprocessed_transcript)
    }

    /// A verifier for a committed set of keys, whose domain must be of a
    /// supported size. The parameters of the protocol and the commitment are
    /// absorbed into the transcript, once for all proofs.
    pub fn new(
        pks_comm: KeysetCommitment,
        kzg_vk: RawKzgVerifierKey,
        empty_transcript: merlin::Transcript,
    ) -> (r: Verifier)
        requires
            pks_comm.log_domain_size <= MAX_LOG_SIZE,
        ensures
            r.spec_vk() == kzg_vk@,
            r.spec_commitment() == pks_comm@,
            r.spec_entries() == with_keyset_commitment(
                with_protocol_params(
                    transcript_entries(empty_transcript),
                    pks_comm.log_domain_size,
                    kzg_vk@,
                ),
                pks_comm@,
            ),
    {
        let mut transcript = empty_transcript;
        let domain = Domains::from_log_size(pks_comm.log_domain_size).unwrap();
        set_protocol_params(&mut transcript, &domain, &kzg_vk);
        set_keyset_commitment(&mut transcript, &pks_comm);
        Verifier { domain, kzg_vk, pks_comm, preprocessed_transcript: transcript }
    }

    /// The challenges that the prover of a proof has drawn.
    pub fn restore_challenges<E: RegisterEvaluations>(
        &self,
        public_input: &Vec<u8>,
        made: &Proof<E>,
        batch_size: usize,
    ) -> (r: RestoredChallenges)
        requires
            public_input.len() <= u32::MAX,
            made.register_commitments.len() <= MAX_MESSAGE_ITEMS,
            made.additional_commitments.len() <= MAX_MESSAGE_ITEMS,
        ensures
            r@ == restored_challenges(
                self.spec_entries(),
                public_input@,
                made.values(),
                batch_size as nat,
            ),
            r.nus.len() == batch_size,
    {
        let mut transcript = clone_transcript(&self.preprocessed_transcript);
        append_public_input(&mut transcript, public_input);
        append_register_commitments(&mut transcript, &made.register_commitments);
        let r = get_bitmask_aggregation_challenge(&mut transcript);
        append_2nd_round_register_commitments(&mut transcript, &made.additional_commitments);
        let phi = get_constraints_aggregation_challenge(&mut transcript);
        append_quotient_commitment(&mut transcript, &made.q_comm);
        let zeta = get_evaluation_point(&mut transcript);
        append_evaluations(
            &mut transcript,
            &made.register_evaluations.as_vec(),
            &made.q_zeta,
            &made.r_zeta_omega,
        );
        let nus = get_kzg_aggregation_challenges(&mut transcript, batch_size);
        RestoredChallenges { r, phi, zeta, nus }
    }

    /// Whether the two openings of a proof verify.
    pub fn validate_evaluations<E: RegisterEvaluations>(
        &self,
        made: &Proof<E>,
        opened_commitments: &Vec<bw6::G1Affine>,
        evaluations: &Vec<Fr>,
        r_comm: &bw6::G1Affine,
        challenges: &RestoredChallenges,
    ) -> (r: bool)
        requires
            opened_commitments.len() == challenges.nus.len(),
            evaluations.len() == challenges.nus.len(),
        ensures
            r == openings_verify(
                self.spec_vk(),
                self.spec_commitment().log_domain_size,
                g1_points(opened_commitments@),
                values(evaluations@),
                r_comm@,
                challenges@,
                made.values(),
            ),
    {
        proof {
            use_type_invariant(self);
        }
        let w_comm = combine_points(opened_commitments, &challenges.nus);
        let w_at_zeta = sum_values_with_coeffs(evaluations, &challenges.nus);
        let zeta_omega = challenges.zeta.mul(&generator(self.domain.log_size()));
        let first = self.kzg_vk.verify(&w_comm, &challenges.zeta, &w_at_zeta, &made.w_at_zeta_proof);
        let second = self.kzg_vk.verify(
            r_comm,
            &zeta_omega,
            &made.r_zeta_omega,
            &made.r_at_zeta_omega_proof,
        );
        first && second
    }

    /// Whether the identity of the constraints holds at the evaluation point.
    pub fn check_identity<E: RegisterEvaluations>(
        made: &Proof<E>,
        constraint_values: &Vec<Fr>,
        phi: &Fr,
        vanishing: &Fr,
    ) -> (r: bool)
        ensures
            r == identity_holds(values(constraint_values@), phi@, vanishing@, made.values()),
    {
        let coeffs = powers_of(phi, constraint_values.len());
        let w = sum_values_with_coeffs(constraint_values, &coeffs);
        proof {
            assert(values(constraint_values@).len() == constraint_values.len());
        }
        made.r_zeta_omega.add(&w).equals(&made.q_zeta.mul(vanishing))
    }

    /// Whether a proof of the plain protocol shows that `public_input.apk` is
    /// the sum of the keys of the committed set that `public_input.bitmask`
    /// selects.
    pub fn verify_simple(
        &self,
        public_input: &AccountablePublicInput,
        made: &Proof<AffineAdditionEvaluationsWithoutBitmask>,
    ) -> (r: bool)
        ensures
            r == accepts_simple(
                self.spec_vk(),
                self.spec_commitment(),
                self.spec_entries(),
                public_input.apk@,
                public_input.bitmask@,
                made.values(),
            ),
    {
        proof {
            use_type_invariant(self);
        }
        let n = self.domain.size();
        if public_input.bitmask.size() >= n || made.register_commitments.len() != 2
            || made.additional_commitments.len() != 0 {
            return false;
        }
        let bytes = public_input.to_bytes();
        assert(bytes@.len() == 48 + public_input.bitmask@.len());
        let challenges = self.restore_challenges(&bytes, made, 5);
        let evals_at_zeta = lagrange_evaluations(&challenges.zeta, &self.domain);
        let bits = public_input.bitmask.to_bits();
        let b_at_zeta = barycentric_eval_binary_at(&challenges.zeta, &bits, &self.domain);
        let e = AffineAdditionEvaluations {
            keyset: made.register_evaluations.keyset,
            bitmask: b_at_zeta,
            partial_sums: made.register_evaluations.partial_sums,
        };
        let mut opened: Vec<bw6::G1Affine> = Vec::new();
        opened.push(self.pks_comm.pks_comm.0);
        opened.push(self.pks_comm.pks_comm.1);
        opened.push(made.register_commitments[0]);
        opened.push(made.register_commitments[1]);
        opened.push(made.q_comm);
        let mut evaluations = made.register_evaluations.as_vec();
        evaluations.push(made.q_zeta);
        let r_comm = linearization_commitment(
            &e,
            &evals_at_zeta.zeta_minus_omega_inv,
            &challenges.phi,
            &made.register_commitments[0],
            &made.register_commitments[1],
        );
        proof {
            assert(g1_points(opened@) =~= seq![
                self.spec_commitment().pks_comm.0,
                self.spec_commitment().pks_comm.1,
                made.values().register_commitments[0],
                made.values().register_commitments[1],
                made.values().q_comm,
            ]);
            assert(values(evaluations@) =~= made.values().register_evaluations.push(
                made.values().q_zeta,
            ));
        }
        let openings = self.validate_evaluations(made, &opened, &evaluations, &r_comm, &challenges);
        let apk_plus_h = point_in_g1_complement().add(&public_input.apk);
        let constraint_values = e.evaluate_constraint_polynomials(&apk_plus_h, &evals_at_zeta);
        let identity = Self::check_identity(
            made,
            &constraint_values,
            &challenges.phi,
            &evals_at_zeta.vanishing_polynomial,
        );
        openings && identity
    }

    /// Whether a proof of the packed protocol shows that `public_input.apk` is
    /// the sum of the keys of the committed set that `public_input.bitmask`
    /// selects.
    pub fn verify_packed(
        &self,
        public_input: &AccountablePublicInput,
        made: &Proof<SuccinctAccountableRegisterEvaluations>,
    ) -> (r: bool)
        ensures
            r == accepts_packed(
                self.spec_vk(),
                self.spec_commitment(),
                self.spec_entries(),
                public_input.apk@,
                public_input.bitmask@,
                made.values(),
            ),
    {
        proof {
            use_type_invariant(self);
        }
        let n = self.domain.size();
        if public_input.bitmask.size() >= n || made.register_commitments.len() != 3
            || made.additional_commitments.len() != 2 {
            return false;
        }
        let bytes = public_input.to_bytes();
        assert(bytes@.len() == 48 + public_input.bitmask@.len());
        let challenges = self.restore_challenges(&bytes, made, 8);
        let evals_at_zeta = lagrange_evaluations(&challenges.zeta, &self.domain);
        let e = made.register_evaluations.basic_evaluations;
        let bits = public_input.bitmask.to_bits();
        let packing = BitmaskPackingRegisters::new(&self.domain, &bits, &challenges.r);
        let w = chunk_width_of(&self.domain);
        let two = Fr::from_u64(2);
        let step = challenges.r.mul(&inverse_or_zero(&two.pow((w - 1) as u64)));
        let ends = compute_chunk_ends(&self.domain);
        let aux = barycentric_eval_binary_at(&challenges.zeta, &ends, &self.domain);
        let multiplier = two.add(&step.sub(&two).mul(&aux));
        let mut opened: Vec<bw6::G1Affine> = Vec::new();
        opened.push(self.pks_comm.pks_comm.0);
        opened.push(self.pks_comm.pks_comm.1);
        opened.push(made.register_commitments[0]);
        opened.push(made.register_commitments[1]);
        opened.push(made.register_commitments[2]);
        opened.push(made.additional_commitments[0]);
        opened.push(made.additional_commitments[1]);
        opened.push(made.q_comm);
        let mut evaluations = made.register_evaluations.as_vec();
        evaluations.push(made.q_zeta);
        let r_comm = linearization_commitment(
            &e,
            &evals_at_zeta.zeta_minus_omega_inv,
            &challenges.phi,
            &made.register_commitments[0],
            &made.register_commitments[1],
        ).add(&made.additional_commitments[0].mul(&challenges.phi.pow(5))).add(
            &made.additional_commitments[1].mul(&challenges.phi.pow(6)),
        );
        proof {
            assert(g1_points(opened@) =~= seq![
                self.spec_commitment().pks_comm.0,
                self.spec_commitment().pks_comm.1,
                made.values().register_commitments[0],
                made.values().register_commitments[1],
                made.values().register_commitments[2],
                made.values().additional_commitments[0],
                made.values().additional_commitments[1],
                made.values().q_comm,
            ]);
            assert(values(evaluations@) =~= made.values().register_evaluations.push(
                made.values().q_zeta,
            ));
        }
        let openings = self.validate_evaluations(made, &opened, &evaluations, &r_comm, &challenges);
        let apk_plus_h = point_in_g1_complement().add(&public_input.apk);
        let mut constraint_values = e.evaluate_constraint_polynomials(&apk_plus_h, &evals_at_zeta);
        let ghost shared = values(constraint_values@);
        let zero = Fr::zero();
        let c = made.register_evaluations.c;
        let rest6 = zero.sub(&c.mul(&multiplier)).sub(&packing.wrap.mul(&evals_at_zeta.l_last));
        let rest7 = zero.sub(&made.register_evaluations.acc).sub(&e.bitmask.mul(&c)).add(
            &packing.total.mul(&evals_at_zeta.l_last),
        );
        constraint_values.push(rest6);
        constraint_values.push(rest7);
        proof {
            assert(values(constraint_values@) =~= shared.push(rest6@).push(rest7@));
        }
        let identity = Self::check_identity(
            made,
            &constraint_values,
            &challenges.phi,
            &evals_at_zeta.vanishing_polynomial,
        );
        openings && identity
    }

    /// Whether a proof of the counting protocol shows that `public_input.apk`
    /// is the sum of `public_input.count` keys of the committed set.
    pub fn verify_counting(
        &self,
        public_input: &CountingPublicInput,
        made: &Proof<CountingEvaluations>,
    ) -> (r: bool)
        ensures
            r == accepts_counting(
                self.spec_vk(),
                self.spec_commitment(),
                self.spec_entries(),
                public_input.apk@,
                public_input.count as u64,
                made.values(),
            ),
    {
        proof {
            use_type_invariant(self);
        }
        if made.register_commitments.len() != 4 || made.additional_commitments.len() != 0 {
            return false;
        }
        let bytes = public_input.to_bytes();
        proof {
            vstd::bytes::lemma_auto_spec_u64_to_from_le_bytes();
            assert(bytes@.len() == 48 + 8);
        }
        let challenges = self.restore_challenges(&bytes, made, 7);
        let evals_at_zeta = lagrange_evaluations(&challenges.zeta, &self.domain);
        let e = made.register_evaluations.affine_addition;
        let mut opened: Vec<bw6::G1Affine> = Vec::new();
        opened.push(self.pks_comm.pks_comm.0);
        opened.push(self.pks_comm.pks_comm.1);
        opened.push(made.register_commitments[0]);
        opened.push(made.register_commitments[1]);
        opened.push(made.register_commitments[2]);
        opened.push(made.register_commitments[3]);
        opened.push(made.q_comm);
        let mut evaluations = made.register_evaluations.as_vec();
        evaluations.push(made.q_zeta);
        let r_comm = linearization_commitment(
            &e,
            &evals_at_zeta.zeta_minus_omega_inv,
            &challenges.phi,
            &made.register_commitments[0],
            &made.register_commitments[1],
        ).add(&made.register_commitments[3].mul(&challenges.phi.pow(5)));
        proof {
            assert(g1_points(opened@) =~= seq![
                self.spec_commitment().pks_comm.0,
                self.spec_commitment().pks_comm.1,
                made.values().register_commitments[0],
                made.values().register_commitments[1],
                made.values().register_commitments[2],
                made.values().register_commitments[3],
                made.values().q_comm,
            ]);
            assert(values(evaluations@) =~= made.values().register_evaluations.push(
                made.values().q_zeta,
            ));
        }
        let openings = self.validate_evaluations(made, &opened, &evaluations, &r_comm, &challenges);
        let apk_plus_h = point_in_g1_complement().add(&public_input.apk);
        let mut constraint_values = e.evaluate_constraint_polynomials(&apk_plus_h, &evals_at_zeta);
        let ghost shared = values(constraint_values@);
        let count = Fr::from_u64(public_input.count as u64);
        let rest = Fr::zero().sub(&made.register_evaluations.partial_counts).sub(&e.bitmask).add(
            &count.mul(&evals_at_zeta.l_last),
        );
        constraint_values.push(rest);
        proof {
            assert(values(constraint_values@) =~= shared.push(rest@));
        }
        let identity = Self::check_identity(
            made,
            &constraint_values,
            &challenges.phi,
            &evals_at_zeta.vanishing_polynomial,
        );
        openings && identity
    }
}

/// The commitment to the linearization polynomial of the plain protocol, from
/// the commitments to the two polynomials of the partial sums.
pub fn linearization_commitment(
    e: &AffineAdditionEvaluations,
    zeta_minus_last: &Fr,
    phi: &Fr,
    acc_x: &bw6::G1Affine,
    acc_y: &bw6::G1Affine,
) -> (r: bw6::G1Affine)
    ensures
        r@ == basic_linearization_commitment(e@, zeta_minus_last@, phi@, acc_x@, acc_y@),
{
    let one = Fr::one();
    let b = e.bitmask;
    let x1 = e.partial_sums.0;
    let y1 = e.partial_sums.1;
    let x2 = e.keyset.0;
    let y2 = e.keyset.1;
    let d = *zeta_minus_last;
    let dx = x1.sub(&x2);
    let one_minus_b = one.sub(&b);
    let c1x = d.mul(&b.mul(&dx.mul(&dx)));
    let c1y = d.mul(&one_minus_b);
    let c2x = d.mul(&one_minus_b.sub(&b.mul(&y2.sub(&y1))));
    let c2y = d.mul(&b.mul(&dx));
    acc_x.mul(&c1x.add(&phi.mul(&c2x))).add(&acc_y.mul(&c1y.add(&phi.mul(&c2y))))
}

} // verus!
