//! The three protocols that share the register system: what each of them
//! commits to, opens and constrains, behind one interface that the prover
//! drives.
use vstd::prelude::*;
use vstd::arithmetic::power2::pow2;
use crate::bitmask::Bitmask;
use crate::domains::{vanishes_on_domain, Domains};
use crate::field::{values, Fr};
use crate::keyset::Keyset;
use crate::piop::affine_addition::{addition_values, AdditionValues};
use crate::poly::polys_values;
use crate::public_input::PublicInput;

pub mod affine_addition;
pub mod basic;
pub mod counting;
pub mod packed;

verus! {

/// The most registers that a protocol commits to or opens in one round, and
/// the most constraints that it has.
pub const MAX_REGISTERS: usize = 16;

/// The values of the registers that a proof discloses.
pub trait RegisterEvaluations {
    /// The values, in the order in which the registers are opened.
    spec fn spec_vec(&self) -> Seq<nat>;

    /// The values, in the order in which the registers are opened.
    fn as_vec(&self) -> (r: Vec<Fr>)
        ensures
            values(r@) == self.spec_vec(),
            r.len() <= MAX_REGISTERS,
    ;
}

/// What a protocol contributes to a proof. Each round's output is a function
/// of the registers and of the challenges drawn so far.
pub trait ProverProtocol: Sized {
    /// The values of the registers that a proof discloses.
    type E: RegisterEvaluations;

    /// The public input of the protocol.
    type PI: PublicInput;

    /// The registers that the protocol was started with.
    spec fn state(&self) -> AdditionValues;

    /// The polynomials committed to in the first round.
    spec fn spec_commit1(s: AdditionValues) -> Seq<Seq<nat>>;

    /// The polynomials committed to in the second round, which depend on the
    /// challenge that the bitmask is packed with.
    spec fn spec_commit2(s: AdditionValues, challenge: nat) -> Seq<Seq<nat>>;

    /// The polynomials opened at the evaluation point.
    spec fn spec_open(s: AdditionValues, challenge: nat) -> Seq<Seq<nat>>;

    /// The constraint polynomials.
    spec fn spec_constraints(s: AdditionValues, challenge: nat) -> Seq<Seq<nat>>;

    /// The values of the registers at `zeta` that the proof discloses.
    spec fn spec_evaluations(s: AdditionValues, challenge: nat, zeta: nat) -> Seq<nat>;

    /// The linearization polynomial: the combination with the powers of
    /// `phi` of the linearizations of the constraints at `zeta`.
    spec fn spec_linearization(s: AdditionValues, challenge: nat, phi: nat, zeta: nat) -> Seq<nat>;

    /// Starts the protocol for a set of keys and a bitmask with one bit for
    /// each key of the set.
    fn init(domains: Domains, bitmask: Bitmask, keyset: Keyset) -> (r: Self)
        requires
            bitmask@.len() == keyset.spec_pks().len(),
            domains == keyset.spec_domain(),
        ensures
            r.state() == addition_values(
                domains.spec_log_size(),
                keyset.spec_polys(),
                keyset.spec_pks(),
                bitmask@,
            ),
    ;

    /// The polynomials to commit to in the first round.
    fn get_register_polynomials_to_commit1(&self) -> (r: Vec<Vec<Fr>>)
        ensures
            polys_values(r@) == Self::spec_commit1(self.state()),
            r.len() <= MAX_REGISTERS,
            forall|i: int| 0 <= i < r.len() ==> (#[trigger] r@[i]).len() <= pow2(self.state().log_n),
    ;

    /// The polynomials to commit to in the second round.
    fn get_register_polynomials_to_commit2(&self, verifier_challenge: &Fr) -> (r: Vec<Vec<Fr>>)
        ensures
            polys_values(r@) == Self::spec_commit2(self.state(), verifier_challenge@),
            r.len() <= MAX_REGISTERS,
            forall|i: int| 0 <= i < r.len() ==> (#[trigger] r@[i]).len() <= pow2(self.state().log_n),
    ;

    /// The polynomials to open at the evaluation point.
    fn get_register_polynomials_to_open(&self, verifier_challenge: &Fr) -> (r: Vec<Vec<Fr>>)
        ensures
            polys_values(r@) == Self::spec_open(self.state(), verifier_challenge@),
            r.len() <= MAX_REGISTERS,
            forall|i: int| 0 <= i < r.len() ==> (#[trigger] r@[i]).len() <= pow2(self.state().log_n),
    ;

    /// The constraint polynomials. Where the accumulation is regular, every
    /// one of them vanishes on the whole domain.
    fn compute_constraint_polynomials(&self, verifier_challenge: &Fr) -> (r: Vec<Vec<Fr>>)
        ensures
            polys_values(r@) == Self::spec_constraints(self.state(), verifier_challenge@),
            r.len() <= MAX_REGISTERS,
            forall|i: int|
                0 <= i < r.len() ==> (#[trigger] r@[i]).len() <= 4 * pow2(self.state().log_n) + 1,
            self.state().is_regular() ==> forall|k: int|
                0 <= k < r.len() ==> vanishes_on_domain(
                    self.state().log_n,
                    #[trigger] polys_values(r@)[k],
                ),
    ;

    /// The values of the registers at `point` that the proof discloses.
    fn evaluate_register_polynomials(&self, verifier_challenge: &Fr, point: &Fr) -> (r: Self::E)
        ensures
            r.spec_vec() == Self::spec_evaluations(self.state(), verifier_challenge@, point@),
    ;

    /// The linearization polynomial.
    fn compute_linearization_polynomial(&self, verifier_challenge: &Fr, phi: &Fr, zeta: &Fr) -> (r:
        Vec<Fr>)
        ensures
            values(r@) == Self::spec_linearization(
                self.state(),
                verifier_challenge@,
                phi@,
                zeta@,
            ),
            r.len() <= pow2(self.state().log_n),
    ;
}

} // verus!
