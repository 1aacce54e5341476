//! Points of the groups G1 and G2 of BW6-761, in which the commitments, the
//! opening proofs and the keys of the commitment scheme live.
//!
//! A point is held by its affine coordinates in the base field. The group law
//! itself is `ark-ec`'s.
use vstd::prelude::*;
use ark_ec::AffineRepr;
use ark_ec::CurveGroup;
use ark_ec::AdditiveGroup;
use ark_ff::BigInt;
use ark_ff::PrimeField;
use ark_serialize::Valid;
use crate::base_field::{base_modulus, wide_limbs_value, Fq};
use crate::curve::AffinePoint;
use crate::field::Fr;

verus! {

/// A point of G1 of BW6-761 in affine coordinates. The pair `(0, 0)` stands
/// for the identity of the group.
#[derive(Clone, Copy, Debug, PartialEq, Eq)]
pub struct G1Affine {
    pub x: Fq,
    pub y: Fq,
}

/// A point of G2 of BW6-761 in affine coordinates. The pair `(0, 0)` stands
/// for the identity of the group.
#[derive(Clone, Copy, Debug, PartialEq, Eq)]
pub struct G2Affine {
    pub x: Fq,
    pub y: Fq,
}

impl View for G1Affine {
    type V = AffinePoint;

    open spec fn view(&self) -> AffinePoint {
        AffinePoint { x: self.x@, y: self.y@ }
    }
}

impl View for G2Affine {
    type V = AffinePoint;

    open spec fn view(&self) -> AffinePoint {
        AffinePoint { x: self.x@, y: self.y@ }
    }
}

/// The views of a sequence of points of G1.
pub open spec fn g1_points(s: Seq<G1Affine>) -> Seq<AffinePoint> {
    s.map_values(|p: G1Affine| p@)
}

/// Whether a pair of coordinates is a point of G1 of BW6-761: on the curve
/// and in the subgroup of prime order, or the identity.
pub uninterp spec fn bw6_g1_valid(p: AffinePoint) -> bool;

/// Whether a pair of coordinates is a point of G2 of BW6-761: on the curve
/// and in the subgroup of prime order, or the identity.
pub uninterp spec fn bw6_g2_valid(p: AffinePoint) -> bool;

/// The sum of two points under the group law of G1 of BW6-761, as `ark-ec`
/// computes it from their coordinates.
pub uninterp spec fn bw6_sum(a: AffinePoint, b: AffinePoint) -> AffinePoint;

/// The difference of two points of G1 of BW6-761, as `ark-ec` computes it.
pub uninterp spec fn bw6_difference(a: AffinePoint, b: AffinePoint) -> AffinePoint;

/// The double of a point of G1 of BW6-761, as `ark-ec` computes it.
pub uninterp spec fn bw6_double(a: AffinePoint) -> AffinePoint;

/// The multiple of a point of G1 of BW6-761 by a scalar, as `ark-ec` computes
/// it.
pub uninterp spec fn bw6_product(a: AffinePoint, scalar: nat) -> AffinePoint;

impl G1Affine {
    /// The point with the given coordinates.
    pub fn new_unchecked(x: Fq, y: Fq) -> (r: G1Affine)
        ensures
            r@ == (AffinePoint { x: x@, y: y@ }),
    {
        G1Affine { x, y }
    }

    /// The point whose coordinates have the given limbs, if both stand for
    /// numbers below the modulus.
    pub fn from_coordinates(x: [u64; 12], y: [u64; 12]) -> (r: Option<G1Affine>)
        ensures
            r.is_some() <==> wide_limbs_value(x@) < base_modulus() && wide_limbs_value(y@)
                < base_modulus(),
            r.is_some() ==> r.unwrap()@ == (AffinePoint {
                x: wide_limbs_value(x@),
                y: wide_limbs_value(y@),
            }),
    {
        match (Fq::from_limbs(x), Fq::from_limbs(y)) {
            (Some(x), Some(y)) => Some(G1Affine { x, y }),
            _ => None,
        }
    }

    /// The identity of the group.
    pub fn identity() -> (r: G1Affine)
        ensures
            r@ == crate::curve::identity_point(),
    {
        G1Affine { x: Fq::zero(), y: Fq::zero() }
    }

    /// Whether the point is the identity of the group.
    pub fn is_identity(&self) -> (r: bool)
        ensures
            r == (self@ == crate::curve::identity_point()),
    {
        self.x.equals(&Fq::zero()) && self.y.equals(&Fq::zero())
    }

    /// Whether the coordinates are those of a point of G1.
    pub fn is_valid(&self) -> (r: bool)
        ensures
            r == bw6_g1_valid(self@),
    {
        g1_check(self)
    }

    /// Whether two points are the same.
    pub fn equals(&self, other: &G1Affine) -> (r: bool)
        ensures
            r == (self@ == other@),
    {
        self.x.equals(&other.x) && self.y.equals(&other.y)
    }

    /// The sum of two points.
    pub fn add(&self, other: &G1Affine) -> (r: G1Affine)
        ensures
            r@ == bw6_sum(self@, other@),
    {
        g1_add(self, other)
    }

    /// The difference of two points.
    pub fn sub(&self, other: &G1Affine) -> (r: G1Affine)
        ensures
            r@ == bw6_difference(self@, other@),
    {
        g1_sub(self, other)
    }

    /// The double of the point.
    pub fn double(&self) -> (r: G1Affine)
        ensures
            r@ == bw6_double(self@),
    {
        g1_double(self)
    }

    /// The multiple of the point by a scalar.
    pub fn mul(&self, scalar: &Fr) -> (r: G1Affine)
        ensures
            r@ == bw6_product(self@, scalar@),
    {
        g1_mul(self, scalar)
    }
}

impl G2Affine {
    /// The point with the given coordinates.
    pub fn new_unchecked(x: Fq, y: Fq) -> (r: G2Affine)
        ensures
            r@ == (AffinePoint { x: x@, y: y@ }),
    {
        G2Affine { x, y }
    }

    /// Whether the coordinates are those of a point of G2.
    pub fn is_valid(&self) -> (r: bool)
        ensures
            r == bw6_g2_valid(self@),
    {
        g2_check(self)
    }
}

/// `ark_serialize`'s `Valid::check` for a point of G1 of BW6-761: whether the
/// point is on the curve and in the subgroup of prime order.
#[verifier::external_body]
fn g1_check(a: &G1Affine) -> (r: bool)
    ensures
        r == bw6_g1_valid(a@),
{
    let p = ark_bw6_761::G1Affine::new_unchecked(
        BigInt(a.x.limbs()).into(),
        BigInt(a.y.limbs()).into(),
    );
    p.check().is_ok()
}

/// `ark_serialize`'s `Valid::check` for a point of G2 of BW6-761: whether the
/// point is on the curve and in the subgroup of prime order.
#[verifier::external_body]
fn g2_check(a: &G2Affine) -> (r: bool)
    ensures
        r == bw6_g2_valid(a@),
{
    let p = ark_bw6_761::G2Affine::new_unchecked(
        BigInt(a.x.limbs()).into(),
        BigInt(a.y.limbs()).into(),
    );
    p.check().is_ok()
}

/// `ark_ec`'s addition in G1 of BW6-761, brought back to affine coordinates:
/// the result is named, not spelled out.
#[verifier::external_body]
fn g1_add(a: &G1Affine, b: &G1Affine) -> (r: G1Affine)
    ensures
        r@ == bw6_sum(a@, b@),
{
    let p = |a: &G1Affine|
        ark_bw6_761::G1Affine::new_unchecked(
            BigInt(a.x.limbs()).into(),
            BigInt(a.y.limbs()).into(),
        );
    let s = (p(a) + p(b)).into_affine();
    G1Affine::from_coordinates(s.x.into_bigint().0, s.y.into_bigint().0).unwrap()
}

/// `ark_ec`'s subtraction in G1 of BW6-761, brought back to affine
/// coordinates: the result is named, not spelled out.
#[verifier::external_body]
fn g1_sub(a: &G1Affine, b: &G1Affine) -> (r: G1Affine)
    ensures
        r@ == bw6_difference(a@, b@),
{
    let p = |a: &G1Affine|
        ark_bw6_761::G1Affine::new_unchecked(
            BigInt(a.x.limbs()).into(),
            BigInt(a.y.limbs()).into(),
        );
    let s = (p(a) - p(b)).into_affine();
    G1Affine::from_coordinates(s.x.into_bigint().0, s.y.into_bigint().0).unwrap()
}

/// `ark_ec`'s doubling in G1 of BW6-761, brought back to affine coordinates:
/// the result is named, not spelled out.
#[verifier::external_body]
fn g1_double(a: &G1Affine) -> (r: G1Affine)
    ensures
        r@ == bw6_double(a@),
{
    let p = ark_bw6_761::G1Affine::new_unchecked(
        BigInt(a.x.limbs()).into(),
        BigInt(a.y.limbs()).into(),
    );
    let s = p.into_group().double().into_affine();
    G1Affine::from_coordinates(s.x.into_bigint().0, s.y.into_bigint().0).unwrap()
}

/// `ark_ec`'s multiplication of a point of G1 of BW6-761 by a scalar, brought
/// back to affine coordinates: the result is named, not spelled out.
#[verifier::external_body]
fn g1_mul(a: &G1Affine, scalar: &Fr) -> (r: G1Affine)
    ensures
        r@ == bw6_product(a@, scalar@),
{
    let p = ark_bw6_761::G1Affine::new_unchecked(
        BigInt(a.x.limbs()).into(),
        BigInt(a.y.limbs()).into(),
    );
    let k: ark_bw6_761::Fr = BigInt(scalar.limbs()).into();
    let s = (p * k).into_affine();
    G1Affine::from_coordinates(s.x.into_bigint().0, s.y.into_bigint().0).unwrap()
}

} // verus!
