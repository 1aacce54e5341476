//! The plain protocol: the partial sums are committed to and opened along
//! with the keys; the bitmask is public, and the verifier evaluates its
//! polynomial itself.
use vstd::prelude::*;
use vstd::arithmetic::power2::pow2;
use crate::bitmask::Bitmask;
use crate::domains::Domains;
use crate::field::{values, Fr};
use crate::keyset::Keyset;
use crate::piop::affine_addition::{AdditionValues, AffineAdditionRegisters, EvaluationValues};
use crate::piop::{ProverProtocol, RegisterEvaluations};
use crate::poly::{
    combination, lemma_combination_len, lemma_max_len_bounds, polys_values, powers, powers_of,
    sum_with_coeffs,
};
use crate::public_input::AccountablePublicInput;

verus! {

/// The values that a proof of the plain protocol discloses: those of the key
/// polynomials and of the polynomials of the partial sums. The value of the
/// bitmask polynomial is left out, as the verifier computes it.
#[derive(Clone, Copy, Debug)]
pub struct AffineAdditionEvaluationsWithoutBitmask {
    pub keyset: (Fr, Fr),
    pub partial_sums: (Fr, Fr),
}

/// The disclosed values among all the values of the registers.
pub open spec fn without_bitmask(e: EvaluationValues) -> Seq<nat> {
    seq![e.keyset.0, e.keyset.1, e.partial_sums.0, e.partial_sums.1]
}

impl RegisterEvaluations for AffineAdditionEvaluationsWithoutBitmask {
    open spec fn spec_vec(&self) -> Seq<nat> {
        seq![self.keyset.0@, self.keyset.1@, self.partial_sums.0@, self.partial_sums.1@]
    }

    fn as_vec(&self) -> (r: Vec<Fr>) {
        let mut r: Vec<Fr> = Vec::new();
        r.push(self.keyset.0);
        r.push(self.keyset.1);
        r.push(self.partial_sums.0);
        r.push(self.partial_sums.1);
        proof {
            assert(values(r@) =~= self.spec_vec());
        }
        r
    }
}

/// Builds the registers of the plain protocol.
pub struct BasicRegisterBuilder {
    registers: AffineAdditionRegisters,
}

impl ProverProtocol for BasicRegisterBuilder {
    type E = AffineAdditionEvaluationsWithoutBitmask;

    type PI = AccountablePublicInput;

    closed spec fn state(&self) -> AdditionValues {
        self.registers@
    }

    open spec fn spec_commit1(s: AdditionValues) -> Seq<Seq<nat>> {
        seq![s.polys.partial_sums.0, s.polys.partial_sums.1]
    }

    open spec fn spec_commit2(s: AdditionValues, challenge: nat) -> Seq<Seq<nat>> {
        Seq::empty()
    }

    open spec fn spec_open(s: AdditionValues, challenge: nat) -> Seq<Seq<nat>> {
        seq![s.polys.keyset.0, s.polys.keyset.1, s.polys.partial_sums.0, s.polys.partial_sums.1]
    }

    open spec fn spec_constraints(s: AdditionValues, challenge: nat) -> Seq<Seq<nat>> {
        s.constraint_polynomials()
    }

    open spec fn spec_evaluations(s: AdditionValues, challenge: nat, zeta: nat) -> Seq<nat> {
        without_bitmask(s.evaluations_at(zeta))
    }

    open spec fn spec_linearization(s: AdditionValues, challenge: nat, phi: nat, zeta: nat) -> Seq<
        nat,
    > {
        combination(s.linearization_parts(zeta), powers(phi, 5))
    }

    fn init(domains: Domains, bitmask: Bitmask, keyset: Keyset) -> (r: Self) {
        let bits = bitmask.to_bits();
        BasicRegisterBuilder { registers: AffineAdditionRegisters::new(&keyset, &bits) }
    }

    fn get_register_polynomials_to_commit1(&self) -> (r: Vec<Vec<Fr>>) {
        let polys = self.registers.partial_sums_polynomials();
        let mut r: Vec<Vec<Fr>> = Vec::new();
        r.push(polys.0);
        r.push(polys.1);
        proof {
            assert(polys_values(r@) =~= Self::spec_commit1(self.state()));
        }
        r
    }

    fn get_register_polynomials_to_commit2(&self, verifier_challenge: &Fr) -> (r: Vec<Vec<Fr>>) {
        let r: Vec<Vec<Fr>> = Vec::new();
        proof {
            assert(polys_values(r@) =~= Self::spec_commit2(self.state(), verifier_challenge@));
        }
        r
    }

    fn get_register_polynomials_to_open(&self, verifier_challenge: &Fr) -> (r: Vec<Vec<Fr>>) {
        let keyset = self.registers.keyset_polynomials();
        let partial_sums = self.registers.partial_sums_polynomials();
        let mut r: Vec<Vec<Fr>> = Vec::new();
        r.push(keyset.0);
        r.push(keyset.1);
        r.push(partial_sums.0);
        r.push(partial_sums.1);
        proof {
            assert(polys_values(r@) =~= Self::spec_open(self.state(), verifier_challenge@));
        }
        r
    }

    fn compute_constraint_polynomials(&self, verifier_challenge: &Fr) -> (r: Vec<Vec<Fr>>) {
        self.registers.compute_constraint_polynomials()
    }

    fn evaluate_register_polynomials(&self, verifier_challenge: &Fr, point: &Fr) -> (r: Self::E) {
        let evals = self.registers.evaluate_register_polynomials(point);
        let r = AffineAdditionEvaluationsWithoutBitmask {
            keyset: evals.keyset,
            partial_sums: evals.partial_sums,
        };
        proof {
            assert(r.spec_vec() =~= without_bitmask(self.state().evaluations_at(point@)));
        }
        r
    }

    fn compute_linearization_polynomial(&self, verifier_challenge: &Fr, phi: &Fr, zeta: &Fr) -> (r:
        Vec<Fr>) {
        let parts = self.registers.compute_constraints_linearized(zeta);
        let r = randomize(phi, &parts);
        proof {
            lemma_max_len_bounds(polys_values(parts@), pow2(self.state().log_n));
            lemma_combination_len(polys_values(parts@), powers(phi@, 5));
            assert(values(r@).len() == r.len());
        }
        r
    }
}

/// The sum of the polynomials, the `i`-th multiplied by `phi^i`.
pub fn randomize(phi: &Fr, polys: &Vec<Vec<Fr>>) -> (r: Vec<Fr>)
    ensures
        values(r@) == combination(polys_values(polys@), powers(phi@, polys.len() as nat)),
{
    let coeffs = powers_of(phi, polys.len());
    sum_with_coeffs(polys, &coeffs)
}

} // verus!
