//! The counting protocol: the public input holds the number of keys that were
//! summed, not the bitmask. The bitmask is committed to, and one more
//! register counts its set bits row by row, so that the last count is tied to
//! the public input.
use vstd::prelude::*;
use vstd::arithmetic::power2::pow2;
use crate::bitmask::{bit_values, count_ones, lemma_count_ones_bounded, Bitmask};
use crate::constraints::{lemma_on_domain, rotate_left, rotated};
use crate::domains::{amplified, domain_element, fitted, interpolation, Domains};
use crate::field::{
    fadd, fmul, fsub, lemma_congruent_add, lemma_congruent_sub, lemma_congruent_zero,
    lemma_fadd_congruent, lemma_fadd_zero, lemma_field_ops_bounded, lemma_fmul_congruent,
    lemma_fmul_zero, lemma_fsub_congruent, values, Fr,
};
use crate::keyset::Keyset;
use crate::piop::affine_addition::{
    AdditionValues, AffineAdditionEvaluations, AffineAdditionRegisters, EvaluationValues,
};
use crate::piop::basic::randomize;
use crate::piop::{ProverProtocol, RegisterEvaluations};
use crate::poly::{
    combination, evaluate, lemma_combination_len, lemma_max_len_bounds, poly_eval, polys_values,
    powers,
};
use crate::public_input::CountingPublicInput;

verus! {

/// The number of set bits among the first `i` bits.
pub open spec fn partial_count(bits: Seq<bool>, i: nat) -> nat {
    if i <= bits.len() {
        count_ones(bits.take(i as int))
    } else {
        count_ones(bits)
    }
}

/// The first `n` partial counts of the bits.
pub open spec fn partial_counts(bits: Seq<bool>, n: nat) -> Seq<nat> {
    Seq::new(n, |i: int| partial_count(bits, i as nat))
}

/// The values of the constraint of the counts, row by row:
/// `c(w X) - c(X) - b(X) + count * L_last(X)`.
pub open spec fn count_constraint_values(
    counts_shifted: Seq<nat>,
    counts: Seq<nat>,
    bitmask: Seq<nat>,
    l_last: Seq<nat>,
    count: nat,
) -> Seq<nat> {
    Seq::new(
        counts.len(),
        |j: int|
            fadd(fsub(fsub(counts_shifted[j], counts[j]), bitmask[j]), fmul(count, l_last[j])),
    )
}

/// What is left of the constraint of the counts at the point once the term in
/// the moved-on counts is taken out: `count * L_last - c - b`.
pub open spec fn count_constraint_rest(counts: nat, bitmask: nat, l_last: nat, count: nat) -> nat {
    fadd(fsub(fsub(0, counts), bitmask), fmul(count, l_last))
}

/// Adding a bit to the bits that were counted adds it to the count.
pub proof fn lemma_partial_count_step(bits: Seq<bool>, i: nat)
    ensures
        partial_count(bits, i + 1) == partial_count(bits, i) + crate::piop::packed::bit_at(bits, i),
{
    if i < bits.len() {
        assert(bits.take((i + 1) as int).drop_last() =~= bits.take(i as int));
    } else if i == bits.len() {
        assert(bits.take(i as int) =~= bits);
    }
}

/// The constraint of the counts holds on every row: on all but the last the
/// next count is the count plus the bit, and on the last, where the bitmask
/// has no bit, the count is that of all the set bits.
pub proof fn lemma_count_row_is_satisfied(bits: Seq<bool>, n: nat, i: nat)
    requires
        i < n,
        bits.len() < n,
        n <= pow2(crate::domains::MAX_LOG_SIZE as nat),
    ensures
        fadd(
            fsub(
                fsub(rotated(partial_counts(bits, n))[i as int], partial_counts(bits, n)[i as int]),
                fitted(bit_values(bits), n)[i as int],
            ),
            fmul(
                count_ones(bits),
                crate::piop::affine_addition::unit_vector((n - 1) as nat, n)[i as int],
            ),
        ) == 0,
{
    let c = partial_count(bits, i);
    let b = fitted(bit_values(bits), n)[i as int];
    let total = count_ones(bits);
    vstd::arithmetic::power2::lemma2_to64();
    lemma_count_ones_bounded(bits);
    lemma_partial_count_step(bits, i);
    if i + 1 < n {
        vstd::arithmetic::div_mod::lemma_small_mod(i + 1, n);
        let next = partial_count(bits, i + 1);
        assert(rotated(partial_counts(bits, n))[i as int] == next);
        assert(b == crate::piop::packed::bit_at(bits, i));
        lemma_fsub_congruent(next, c);
        lemma_fsub_congruent(fsub(next, c), b);
        lemma_congruent_sub(fsub(next, c) as int, next - c, b as int, b as int);
        lemma_field_ops_bounded(fsub(next, c), b);
        lemma_congruent_zero(fsub(fsub(next, c), b));
        lemma_fmul_zero(total);
        lemma_fadd_zero();
    } else {
        vstd::arithmetic::div_mod::lemma_mod_self_0(n as int);
        assert(bits.take(0) =~= Seq::<bool>::empty());
        assert(rotated(partial_counts(bits, n))[i as int] == 0);
        assert(c == total) by {
            if i == bits.len() {
                assert(bits.take(i as int) =~= bits);
            }
        }
        assert(b == 0);
        let t = fsub(fsub(0, total), 0);
        lemma_fsub_congruent(0, total);
        lemma_fsub_congruent(fsub(0, total), 0);
        lemma_congruent_sub(fsub(0, total) as int, 0 - total, 0, 0);
        lemma_fmul_congruent(total, 1);
        lemma_fadd_congruent(t, fmul(total, 1));
        lemma_congruent_add(t as int, 0 - total, fmul(total, 1) as int, (total * 1) as int);
        lemma_field_ops_bounded(t, fmul(total, 1));
        lemma_congruent_zero(fadd(t, fmul(total, 1)));
    }
}

impl AdditionValues {
    /// The partial counts of the bitmask, one for each row.
    pub open spec fn counts(self) -> Seq<nat> {
        partial_counts(self.bits, pow2(self.log_n))
    }

    /// The polynomial of the partial counts.
    pub open spec fn counts_polynomial(self) -> Seq<nat> {
        interpolation(self.log_n, fitted(self.counts(), pow2(self.log_n)))
    }

    /// The constraint polynomial of the counts.
    pub open spec fn count_constraint_polynomial(self) -> Seq<nat> {
        interpolation(
            self.log_n + 2,
            count_constraint_values(
                amplified(self.log_n, rotated(self.counts())),
                amplified(self.log_n, self.counts()),
                self.registers.bitmask,
                self.l_last_x4(),
                count_ones(self.bits),
            ),
        )
    }
}

/// The values that a proof of the counting protocol discloses.
#[derive(Clone, Copy, Debug)]
pub struct CountingEvaluations {
    pub affine_addition: AffineAdditionEvaluations,
    pub partial_counts: Fr,
}

/// The disclosed values in the order in which the registers are opened.
pub open spec fn counting_values(e: EvaluationValues, counts: nat) -> Seq<nat> {
    seq![e.keyset.0, e.keyset.1, e.partial_sums.0, e.partial_sums.1, e.bitmask, counts]
}

impl RegisterEvaluations for CountingEvaluations {
    open spec fn spec_vec(&self) -> Seq<nat> {
        counting_values(self.affine_addition@, self.partial_counts@)
    }

    fn as_vec(&self) -> (r: Vec<Fr>) {
        let mut r: Vec<Fr> = Vec::new();
        r.push(self.affine_addition.keyset.0);
        r.push(self.affine_addition.keyset.1);
        r.push(self.affine_addition.partial_sums.0);
        r.push(self.affine_addition.partial_sums.1);
        r.push(self.affine_addition.bitmask);
        r.push(self.partial_counts);
        proof {
            assert(values(r@) =~= self.spec_vec());
        }
        r
    }
}

/// The first `n` partial counts of the bits, as field elements.
pub fn compute_partial_counts(bits: &Vec<bool>, n: usize) -> (r: Vec<Fr>)
    ensures
        values(r@) == partial_counts(bits@, n as nat),
        r.len() == n,
{
    let mut r: Vec<Fr> = Vec::new();
    let mut count: usize = 0;
    let mut i: usize = 0;
    proof {
        assert(bits@.take(0) =~= Seq::<bool>::empty());
    }
    while i < n
        invariant
            i <= n,
            r.len() == i,
            count == partial_count(bits@, i as nat),
            count <= i,
            forall|j: int| 0 <= j < i ==> r@[j]@ == partial_count(bits@, j as nat),
        decreases n - i,
    {
        r.push(Fr::from_u64(count as u64));
        proof {
            if i < bits.len() {
                assert(bits@.take(i + 1).drop_last() =~= bits@.take(i as int));
            } else if i == bits.len() {
                assert(bits@.take(i as int) =~= bits@);
            }
        }
        if i < bits.len() && bits[i] {
            count = count + 1;
        }
        i = i + 1;
    }
    proof {
        assert(values(r@) =~= partial_counts(bits@, n as nat));
    }
    r
}

/// The values of the constraint of the counts, row by row.
fn compute_count_constraint_values(
    counts_shifted: &Vec<Fr>,
    counts: &Vec<Fr>,
    bitmask: &Vec<Fr>,
    l_last: &Vec<Fr>,
    count: &Fr,
) -> (r: Vec<Fr>)
    requires
        counts_shifted.len() == counts.len(),
        bitmask.len() == counts.len(),
        l_last.len() == counts.len(),
    ensures
        values(r@) == count_constraint_values(
            values(counts_shifted@),
            values(counts@),
            values(bitmask@),
            values(l_last@),
            count@,
        ),
        r.len() == counts.len(),
{
    let mut r: Vec<Fr> = Vec::new();
    let mut j: usize = 0;
    while j < counts.len()
        invariant
            j <= counts.len(),
            counts_shifted.len() == counts.len(),
            bitmask.len() == counts.len(),
            l_last.len() == counts.len(),
            r.len() == j,
            forall|t: int|
                0 <= t < j ==> r@[t]@ == count_constraint_values(
                    values(counts_shifted@),
                    values(counts@),
                    values(bitmask@),
                    values(l_last@),
                    count@,
                )[t],
        decreases counts.len() - j,
    {
        let v = counts_shifted[j].sub(&counts[j]).sub(&bitmask[j]).add(&count.mul(&l_last[j]));
        r.push(v);
        j = j + 1;
    }
    proof {
        assert(values(r@) =~= count_constraint_values(
            values(counts_shifted@),
            values(counts@),
            values(bitmask@),
            values(l_last@),
            count@,
        ));
    }
    r
}

/// Builds the registers of the counting protocol.
pub struct CountingScheme {
    registers: AffineAdditionRegisters,
    counts: Vec<Fr>,
    counts_poly: Vec<Fr>,
}

impl CountingScheme {
    #[verifier::type_invariant]
    spec fn inv(self) -> bool {
        &&& values(self.counts@) == self.registers@.counts()
        &&& values(self.counts_poly@) == self.registers@.counts_polynomial()
        &&& self.counts_poly.len() == pow2(self.registers@.log_n)
        &&& self.counts.len() == pow2(self.registers@.log_n)
    }
}

impl ProverProtocol for CountingScheme {
    type E = CountingEvaluations;

    type PI = CountingPublicInput;

    closed spec fn state(&self) -> AdditionValues {
        self.registers@
    }

    open spec fn spec_commit1(s: AdditionValues) -> Seq<Seq<nat>> {
        seq![
            s.polys.partial_sums.0,
            s.polys.partial_sums.1,
            s.polys.bitmask,
            s.counts_polynomial(),
        ]
    }

    open spec fn spec_commit2(s: AdditionValues, challenge: nat) -> Seq<Seq<nat>> {
        Seq::empty()
    }

    open spec fn spec_open(s: AdditionValues, challenge: nat) -> Seq<Seq<nat>> {
        seq![
            s.polys.keyset.0,
            s.polys.keyset.1,
            s.polys.partial_sums.0,
            s.polys.partial_sums.1,
            s.polys.bitmask,
            s.counts_polynomial(),
        ]
    }

    open spec fn spec_constraints(s: AdditionValues, challenge: nat) -> Seq<Seq<nat>> {
        s.constraint_polynomials().push(s.count_constraint_polynomial())
    }

    open spec fn spec_evaluations(s: AdditionValues, challenge: nat, zeta: nat) -> Seq<nat> {
        counting_values(s.evaluations_at(zeta), poly_eval(s.counts_polynomial(), zeta))
    }

    open spec fn spec_linearization(s: AdditionValues, challenge: nat, phi: nat, zeta: nat) -> Seq<
        nat,
    > {
        combination(s.linearization_parts(zeta).push(s.counts_polynomial()), powers(phi, 6))
    }

    fn init(domains: Domains, bitmask: Bitmask, keyset: Keyset) -> (r: Self) {
        let bits = bitmask.to_bits();
        let registers = AffineAdditionRegisters::new(&keyset, &bits);
        let n = domains.size();
        let counts = compute_partial_counts(&bits, n);
        let counts_poly = domains.interpolate(&counts);
        CountingScheme { registers, counts, counts_poly }
    }

    fn get_register_polynomials_to_commit1(&self) -> (r: Vec<Vec<Fr>>) {
        proof {
            use_type_invariant(self);
        }
        let partial_sums = self.registers.partial_sums_polynomials();
        let mut r: Vec<Vec<Fr>> = Vec::new();
        r.push(partial_sums.0);
        r.push(partial_sums.1);
        r.push(self.registers.bitmask_polynomial());
        let counts_poly = self.counts_poly.clone();
        proof {
            assert(counts_poly@ =~= self.counts_poly@);
        }
        r.push(counts_poly);
        proof {
            assert(polys_values(r@) =~= Self::spec_commit1(self.state()));
        }
        r
    }

    fn get_register_polynomials_to_commit2(&self, verifier_challenge: &Fr) -> (r: Vec<Vec<Fr>>) {
        let r: Vec<Vec<Fr>> = Vec::new();
        proof {
            assert(polys_values(r@) =~= Self::spec_commit2(self.state(), verifier_challenge@));
        }
        r
    }

    fn get_register_polynomials_to_open(&self, verifier_challenge: &Fr) -> (r: Vec<Vec<Fr>>) {
        proof {
            use_type_invariant(self);
        }
        let keyset = self.registers.keyset_polynomials();
        let partial_sums = self.registers.partial_sums_polynomials();
        let mut r: Vec<Vec<Fr>> = Vec::new();
        r.push(keyset.0);
        r.push(keyset.1);
        r.push(partial_sums.0);
        r.push(partial_sums.1);
        r.push(self.registers.bitmask_polynomial());
        let counts_poly = self.counts_poly.clone();
        proof {
            assert(counts_poly@ =~= self.counts_poly@);
        }
        r.push(counts_poly);
        proof {
            assert(polys_values(r@) =~= Self::spec_open(self.state(), verifier_challenge@));
        }
        r
    }

    fn compute_constraint_polynomials(&self, verifier_challenge: &Fr) -> (r: Vec<Vec<Fr>>) {
        proof {
            use_type_invariant(self);
            vstd::arithmetic::power2::lemma_pow2_pos(self.registers@.log_n);
        }
        let domains = self.registers.domains();
        let n = domains.size();
        let mut r = self.registers.compute_constraint_polynomials();
        let ghost shared = polys_values(r@);
        let counts_x4 = domains.amplify(&self.counts);
        let counts_shifted_x4 = domains.amplify(&rotate_left(&self.counts));
        let l_last = domains.amplify(&crate::piop::affine_addition::unit(n - 1, n));
        let bits = self.registers.bits();
        let count = crate::bitmask::count_set_bits(bits);
        let row_values = compute_count_constraint_values(
            &counts_shifted_x4,
            &counts_x4,
            self.registers.registers().bitmask(),
            &l_last,
            &Fr::from_u64(count as u64),
        );
        let a6 = domains.interpolate_4x(&row_values);
        let log_n = domains.log_size();
        let shared_registers = self.registers.registers();
        let registers_domains = shared_registers.domains();
        proof {
            let k = domains.spec_log_size();
            vstd::arithmetic::power2::lemma2_to64();
            if log_n < crate::domains::MAX_LOG_SIZE {
                vstd::arithmetic::power2::lemma_pow2_strictly_increases(
                    k,
                    crate::domains::MAX_LOG_SIZE as nat,
                );
            }
            assert forall|i: nat| i < pow2(k) implies poly_eval(
                values(a6@),
                #[trigger] domain_element(k, i),
            ) == 0 by {
                lemma_on_domain(k, values(a6@), i);
                lemma_count_row_is_satisfied(bits@, n as nat, i);
                let j = 4 * (i as int);
                assert(counts_x4@[j]@ == fitted(values(self.counts@), n as nat)[i as int]);
                assert(counts_shifted_x4@[j]@ == fitted(
                    rotated(values(self.counts@)),
                    n as nat,
                )[i as int]);
                assert(l_last@[j]@ == fitted(
                    crate::piop::affine_addition::unit_vector((n - 1) as nat, n as nat),
                    n as nat,
                )[i as int]);
                assert(shared_registers@.bitmask[j] == shared_registers.base().bitmask[i as int]);
            }
        }
        r.push(a6);
        proof {
            assert(polys_values(r@) =~= shared.push(self.state().count_constraint_polynomial()));
        }
        r
    }

    fn evaluate_register_polynomials(&self, verifier_challenge: &Fr, point: &Fr) -> (r: Self::E) {
        proof {
            use_type_invariant(self);
        }
        CountingEvaluations {
            affine_addition: self.registers.evaluate_register_polynomials(point),
            partial_counts: evaluate(&self.counts_poly, point),
        }
    }

    fn compute_linearization_polynomial(&self, verifier_challenge: &Fr, phi: &Fr, zeta: &Fr) -> (r:
        Vec<Fr>) {
        proof {
            use_type_invariant(self);
        }
        let mut parts = self.registers.compute_constraints_linearized(zeta);
        let ghost shared = polys_values(parts@);
        let counts_poly = self.counts_poly.clone();
        proof {
            assert(counts_poly@ =~= self.counts_poly@);
        }
        parts.push(counts_poly);
        proof {
            assert(polys_values(parts@) =~= shared.push(self.state().counts_polynomial()));
        }
        let r = randomize(phi, &parts);
        proof {
            lemma_max_len_bounds(polys_values(parts@), pow2(self.state().log_n));
            lemma_combination_len(polys_values(parts@), powers(phi@, 6));
            assert(values(r@).len() == r.len());
        }
        r
    }
}

} // verus!
