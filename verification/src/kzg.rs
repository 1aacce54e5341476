//! The polynomial commitment scheme: KZG over BW6-761, as `w3f-pcs` has it.
//!
//! The library holds the keys as plain points and hands them, with the
//! polynomial or the opening, to the scheme, whose results are named.
use vstd::prelude::*;
use ark_ff::BigInt;
use ark_ff::PrimeField;
use ark_poly::DenseUVPolynomial;
use ark_poly::univariate::DensePolynomial;
use ark_bw6_761::BW6_761;
use w3f_pcs::pcs::kzg::KZG;
use w3f_pcs::pcs::kzg::urs::URS as Srs;
use w3f_pcs::pcs::kzg::params::RawKzgVerifierKey as RawKey;
use w3f_pcs::pcs::PcsParams;
use w3f_pcs::pcs::RawVerifierKey;
use w3f_pcs::pcs::PCS;
use w3f_pcs::pcs::commitment::WrappedAffine;
use crate::bw6::{bw6_g1_valid, bw6_g2_valid, g1_points, G1Affine, G2Affine};
use crate::curve::AffinePoint;
use crate::field::{values, Fr};
use crate::poly::{degree, lemma_degree_bounded};

verus! {

/// The verifier's key as plain numbers.
pub struct VerifierKeyPoints {
    pub g1: AffinePoint,
    pub g2: AffinePoint,
    pub tau_in_g2: AffinePoint,
}

/// The commitment that the scheme gives to the polynomial with coefficients
/// `poly` under the committer key with the points `ck`.
pub uninterp spec fn kzg_commitment(ck: Seq<AffinePoint>, poly: Seq<nat>) -> AffinePoint;

/// The proof that the scheme gives of the value at `x` of the polynomial with
/// coefficients `poly`, under the committer key with the points `ck`.
pub uninterp spec fn kzg_opening(ck: Seq<AffinePoint>, poly: Seq<nat>, x: nat) -> AffinePoint;

/// Whether the scheme, under the verifier's key `vk`, accepts `proof` as a
/// proof that the polynomial committed to by `c` takes the value `y` at `x`.
pub uninterp spec fn kzg_accepts(
    vk: VerifierKeyPoints,
    c: AffinePoint,
    x: nat,
    y: nat,
    proof: AffinePoint,
) -> bool;

impl VerifierKeyPoints {
    /// Whether the three points of the key are points of their groups.
    pub open spec fn valid(self) -> bool {
        bw6_g1_valid(self.g1) && bw6_g2_valid(self.g2) && bw6_g2_valid(self.tau_in_g2)
    }
}

/// Whether an opening is accepted under the verifier's key `vk`: the key, the
/// commitment and the proof are points of their groups, and the scheme
/// accepts the proof.
pub open spec fn opening_accepted(
    vk: VerifierKeyPoints,
    c: AffinePoint,
    x: nat,
    y: nat,
    proof: AffinePoint,
) -> bool {
    vk.valid() && bw6_g1_valid(c) && bw6_g1_valid(proof) && kzg_accepts(vk, c, x, y, proof)
}

/// The key to commit with and to open with: the powers of the secret in G1,
/// `g, tau g, tau^2 g, ...`.
#[derive(Debug)]
pub struct KzgCommitterKey {
    powers_in_g1: Vec<G1Affine>,
}

impl View for KzgCommitterKey {
    type V = Seq<AffinePoint>;

    closed spec fn view(&self) -> Seq<AffinePoint> {
        g1_points(self.powers_in_g1@)
    }
}

/// The key to verify openings with.
#[derive(Clone, Copy, Debug)]
pub struct RawKzgVerifierKey {
    pub g1: G1Affine,
    pub g2: G2Affine,
    pub tau_in_g2: G2Affine,
}

impl View for RawKzgVerifierKey {
    type V = VerifierKeyPoints;

    open spec fn view(&self) -> VerifierKeyPoints {
        VerifierKeyPoints { g1: self.g1@, g2: self.g2@, tau_in_g2: self.tau_in_g2@ }
    }
}

/// The reference string of the scheme: the powers of the secret in G1 and in
/// G2.
#[derive(Debug)]
pub struct URS {
    powers_in_g1: Vec<G1Affine>,
    powers_in_g2: Vec<G2Affine>,
}

/// A copy of a vector of points.
fn copy_points(v: &Vec<G1Affine>) -> (r: Vec<G1Affine>)
    ensures
        r@ == v@,
{
    let mut r: Vec<G1Affine> = Vec::new();
    let mut i: usize = 0;
    while i < v.len()
        invariant
            i <= v.len(),
            r@ == v@.take(i as int),
        decreases v.len() - i,
    {
        r.push(v[i]);
        proof {
            assert(v@.take(i + 1) =~= v@.take(i as int).push(v@[i as int]));
        }
        i = i + 1;
    }
    proof {
        assert(v@.take(v.len() as int) =~= v@);
    }
    r
}

impl URS {
    #[verifier::type_invariant]
    spec fn inv(self) -> bool {
        self.powers_in_g1.len() >= 1 && self.powers_in_g2.len() >= 2
    }

    /// The powers in G1, as plain numbers.
    pub closed spec fn spec_powers_in_g1(&self) -> Seq<AffinePoint> {
        g1_points(self.powers_in_g1@)
    }

    /// The verifier's key, as plain numbers.
    pub closed spec fn spec_raw_vk(&self) -> VerifierKeyPoints {
        VerifierKeyPoints {
            g1: self.powers_in_g1@[0]@,
            g2: self.powers_in_g2@[0]@,
            tau_in_g2: self.powers_in_g2@[1]@,
        }
    }

    /// The reference string with the given powers, which must hold a
    /// generator of G1 and, in G2, a generator and its multiple by the secret.
    pub fn new(powers_in_g1: Vec<G1Affine>, powers_in_g2: Vec<G2Affine>) -> (r: Option<URS>)
        ensures
            r.is_some() <==> powers_in_g1.len() >= 1 && powers_in_g2.len() >= 2,
            r.is_some() ==> r.unwrap().spec_powers_in_g1() == g1_points(powers_in_g1@)
                && r.unwrap().spec_raw_vk() == (VerifierKeyPoints {
                g1: powers_in_g1@[0]@,
                g2: powers_in_g2@[0]@,
                tau_in_g2: powers_in_g2@[1]@,
            }),
    {
        if powers_in_g1.len() >= 1 && powers_in_g2.len() >= 2 {
            Some(URS { powers_in_g1, powers_in_g2 })
        } else {
            None
        }
    }

    /// The number of powers in G1.
    pub fn size(&self) -> (r: usize)
        ensures
            r == self.spec_powers_in_g1().len(),
            r >= 1,
    {
        proof {
            use_type_invariant(self);
        }
        self.powers_in_g1.len()
    }

    /// The committer key: the powers in G1.
    pub fn ck(&self) -> (r: KzgCommitterKey)
        ensures
            r@ == self.spec_powers_in_g1(),
            r@.len() >= 1,
    {
        proof {
            use_type_invariant(self);
        }
        KzgCommitterKey { powers_in_g1: copy_points(&self.powers_in_g1) }
    }

    /// The verifier's key: the generators and the secret's multiple in G2.
    pub fn raw_vk(&self) -> (r: RawKzgVerifierKey)
        ensures
            r@ == self.spec_raw_vk(),
    {
        proof {
            use_type_invariant(self);
        }
        RawKzgVerifierKey {
            g1: self.powers_in_g1[0],
            g2: self.powers_in_g2[0],
            tau_in_g2: self.powers_in_g2[1],
        }
    }
}

impl KzgCommitterKey {
    #[verifier::type_invariant]
    spec fn inv(self) -> bool {
        self.powers_in_g1.len() >= 1
    }

    /// The highest degree of a polynomial that the key commits to.
    pub fn max_degree(&self) -> (r: usize)
        ensures
            r == self@.len() - 1,
    {
        proof {
            use_type_invariant(self);
        }
        self.powers_in_g1.len() - 1
    }

    /// A copy of the key.
    pub fn copy(&self) -> (r: KzgCommitterKey)
        ensures
            r@ == self@,
    {
        proof {
            use_type_invariant(self);
        }
        KzgCommitterKey { powers_in_g1: copy_points(&self.powers_in_g1) }
    }

    /// The commitment to a polynomial, which the key gives for every
    /// polynomial of a degree within its reach.
    pub fn commit(&self, poly: &Vec<Fr>) -> (r: Option<G1Affine>)
        ensures
            r.is_some() <==> degree(values(poly@)) <= self@.len() - 1,
            r.is_some() ==> r.unwrap()@ == kzg_commitment(self@, values(poly@)),
    {
        proof {
            use_type_invariant(self);
        }
        kzg_commit(&self.powers_in_g1, poly)
    }

    /// The commitment to a polynomial with no more coefficients than the key
    /// has powers.
    pub fn commit_within(&self, poly: &Vec<Fr>) -> (r: G1Affine)
        requires
            poly.len() <= self@.len(),
        ensures
            r@ == kzg_commitment(self@, values(poly@)),
    {
        proof {
            use_type_invariant(self);
            lemma_degree_bounded(values(poly@));
        }
        let c = self.commit(poly);
        c.unwrap()
    }

    /// The proof of the value of a polynomial at `x`, which the key gives for
    /// every polynomial of a degree within its reach and one beyond.
    pub fn open(&self, poly: &Vec<Fr>, x: &Fr) -> (r: Option<G1Affine>)
        ensures
            r.is_some() <==> degree(values(poly@)) <= self@.len(),
            r.is_some() ==> r.unwrap()@ == kzg_opening(self@, values(poly@), x@),
    {
        proof {
            use_type_invariant(self);
        }
        kzg_open(&self.powers_in_g1, poly, x)
    }

    /// The proof of the value at `x` of a polynomial with no more coefficients
    /// than the key has powers.
    pub fn open_within(&self, poly: &Vec<Fr>, x: &Fr) -> (r: G1Affine)
        requires
            poly.len() <= self@.len(),
        ensures
            r@ == kzg_opening(self@, values(poly@), x@),
    {
        proof {
            use_type_invariant(self);
            lemma_degree_bounded(values(poly@));
        }
        let c = self.open(poly, x);
        c.unwrap()
    }
}

impl RawKzgVerifierKey {
    /// Whether the three points of the key are points of their groups.
    pub fn is_valid(&self) -> (r: bool)
        ensures
            r == self@.valid(),
    {
        self.g1.is_valid() && self.g2.is_valid() && self.tau_in_g2.is_valid()
    }

    /// Whether `proof` shows that the polynomial committed to by `c` takes
    /// the value `y` at `x`. Coordinates that are not those of points of the
    /// groups are rejected before the scheme sees them.
    pub fn verify(&self, c: &G1Affine, x: &Fr, y: &Fr, proof: &G1Affine) -> (r: bool)
        ensures
            r == opening_accepted(self@, c@, x@, y@, proof@),
    {
        self.is_valid() && c.is_valid() && proof.is_valid() && kzg_verify(self, c, x, y, proof)
    }
}

/// `w3f_pcs`'s `KZG::commit` over BW6-761 with the committer key that
/// `URS::ck` makes of the given powers: an error where the polynomial's degree
/// is above the number of powers less one, and else the commitment, which is
/// named.
#[verifier::external_body]
fn kzg_commit(powers: &Vec<G1Affine>, poly: &Vec<Fr>) -> (r: Option<G1Affine>)
    requires
        powers.len() >= 1,
    ensures
        r.is_some() <==> degree(values(poly@)) <= powers.len() - 1,
        r.is_some() ==> r.unwrap()@ == kzg_commitment(g1_points(powers@), values(poly@)),
{
    let p = |a: &G1Affine|
        ark_bw6_761::G1Affine::new_unchecked(
            BigInt(a.x.limbs()).into(),
            BigInt(a.y.limbs()).into(),
        );
    let ck = Srs::<BW6_761> { powers_in_g1: powers.iter().map(p).collect(), powers_in_g2: Vec::new() }.ck();
    let f = DensePolynomial::from_coefficients_vec(
        poly.iter().map(|x| BigInt(x.limbs()).into()).collect(),
    );
    KZG::<BW6_761>::commit(&ck, &f).ok().and_then(
        |c| G1Affine::from_coordinates(c.0.x.into_bigint().0, c.0.y.into_bigint().0),
    )
}

/// `w3f_pcs`'s `KZG::open` over BW6-761 with the committer key that `URS::ck`
/// makes of the given powers: an error where the degree of the quotient by
/// `X - x` is above the number of powers less one, and else the proof, which
/// is named.
#[verifier::external_body]
fn kzg_open(powers: &Vec<G1Affine>, poly: &Vec<Fr>, x: &Fr) -> (r: Option<G1Affine>)
    requires
        powers.len() >= 1,
    ensures
        r.is_some() <==> degree(values(poly@)) <= powers.len(),
        r.is_some() ==> r.unwrap()@ == kzg_opening(g1_points(powers@), values(poly@), x@),
{
    let p = |a: &G1Affine|
        ark_bw6_761::G1Affine::new_unchecked(
            BigInt(a.x.limbs()).into(),
            BigInt(a.y.limbs()).into(),
        );
    let ck = Srs::<BW6_761> { powers_in_g1: powers.iter().map(p).collect(), powers_in_g2: Vec::new() }.ck();
    let f = DensePolynomial::from_coefficients_vec(
        poly.iter().map(|x| BigInt(x.limbs()).into()).collect(),
    );
    KZG::<BW6_761>::open(&ck, &f, BigInt(x.limbs()).into()).ok().and_then(
        |c| G1Affine::from_coordinates(c.x.into_bigint().0, c.y.into_bigint().0),
    )
}

/// `w3f_pcs`'s `KZG::verify` over BW6-761 with the key that
/// `RawVerifierKey::prepare` makes of the given one: whether the pairing check
/// of the opening passes, which is named. The pairing is defined for points
/// of the groups only.
#[verifier::external_body]
fn kzg_verify(vk: &RawKzgVerifierKey, c: &G1Affine, x: &Fr, y: &Fr, proof: &G1Affine) -> (r: bool)
    requires
        vk@.valid(),
        bw6_g1_valid(c@),
        bw6_g1_valid(proof@),
    ensures
        r == kzg_accepts(vk@, c@, x@, y@, proof@),
{
    let p = |a: &G1Affine|
        ark_bw6_761::G1Affine::new_unchecked(
            BigInt(a.x.limbs()).into(),
            BigInt(a.y.limbs()).into(),
        );
    let q = |a: &G2Affine|
        ark_bw6_761::G2Affine::new_unchecked(
            BigInt(a.x.limbs()).into(),
            BigInt(a.y.limbs()).into(),
        );
    let key = RawKey::<BW6_761> { g1: p(&vk.g1), g2: q(&vk.g2), tau_in_g2: q(&vk.tau_in_g2) }.prepare();
    KZG::<BW6_761>::verify(&key, WrappedAffine(p(c)), BigInt(x.limbs()).into(), BigInt(y.limbs()).into(), p(proof)).is_ok()
}

} // verus!
