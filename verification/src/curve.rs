//! Points of the group G1 of BLS12-377, in which the public keys live.
//!
//! A point is held by its affine coordinates, which are elements of the
//! scalar field of BW6-761. The group law itself is `ark-ec`'s.
use vstd::prelude::*;
use ark_ec::CurveGroup;
use ark_ff::PrimeField;
use ark_ff::BigInt;
use ark_std::UniformRand;
use blake2::Digest;
use rand::SeedableRng;
use crate::field::{fmul, fsub, limbs_value, modulus, Fr};

verus! {

/// A point in affine coordinates, as plain numbers. The pair `(0, 0)`, which
/// is on none of the curves used here, stands for the point at infinity.
pub struct AffinePoint {
    pub x: nat,
    pub y: nat,
}

/// A point of G1 of BLS12-377 in affine coordinates. The pair `(0, 0)` stands
/// for the identity of the group.
#[derive(Clone, Copy, Debug, PartialEq, Eq)]
pub struct G1Affine {
    pub x: Fr,
    pub y: Fr,
}

impl View for G1Affine {
    type V = AffinePoint;

    open spec fn view(&self) -> AffinePoint {
        AffinePoint { x: self.x@, y: self.y@ }
    }
}

/// The views of a sequence of points.
pub open spec fn points(s: Seq<G1Affine>) -> Seq<AffinePoint> {
    s.map_values(|p: G1Affine| p@)
}

/// The sum of two points under the group law of the curve, as `ark-ec`
/// computes it from their coordinates.
pub uninterp spec fn g1_sum(a: AffinePoint, b: AffinePoint) -> AffinePoint;

/// Whether `(x3, y3)` is the point that the chord through `(x1, y1)` and
/// `(x2, y2)` meets the curve in, mirrored: with a slope `l` of the chord,
/// so that `l * (x2 - x1) = y2 - y1`, it is `x3 = l^2 - x1 - x2` and
/// `y3 = l * (x1 - x3) - y1`.
pub open spec fn on_chord(x1: nat, y1: nat, x2: nat, y2: nat, x3: nat, y3: nat) -> bool {
    exists|l: nat| #[trigger]
        fmul(l, fsub(x2, x1)) == fsub(y2, y1) && x3 == fsub(fsub(fmul(l, l), x1), x2) && y3
            == fsub(fmul(l, fsub(x1, x3)), y1)
}

/// Whether the sum of `a` and `b` is the chord's: neither is the identity,
/// and they differ in their x-coordinates.
pub open spec fn chord_applies(a: AffinePoint, b: AffinePoint) -> bool {
    a != identity_point() && b != identity_point() && a.x != b.x
}

/// The BLAKE2s digest of a message.
pub uninterp spec fn blake2s(message: Seq<u8>) -> Seq<u8>;

/// The point of G1 that `ark-ec` samples from the standard generator of
/// `rand` seeded with `seed`.
pub uninterp spec fn g1_sample(seed: Seq<u8>) -> AffinePoint;

/// The identity of the group as plain numbers.
pub open spec fn identity_point() -> AffinePoint {
    AffinePoint { x: 0, y: 0 }
}

/// The point `(0, 1)`, which lies on the curve and outside G1.
pub open spec fn complement_point() -> AffinePoint {
    AffinePoint { x: 0, y: 1 }
}

impl G1Affine {
    /// The point with the given coordinates.
    pub fn new_unchecked(x: Fr, y: Fr) -> (r: G1Affine)
        ensures
            r@ == (AffinePoint { x: x@, y: y@ }),
    {
        G1Affine { x, y }
    }

    /// The point whose coordinates have the given limbs, if both stand for
    /// numbers below the modulus.
    pub fn from_coordinates(x: [u64; 6], y: [u64; 6]) -> (r: Option<G1Affine>)
        ensures
            r.is_some() <==> limbs_value(x@) < modulus() && limbs_value(y@) < modulus(),
            r.is_some() ==> r.unwrap()@ == (AffinePoint { x: limbs_value(x@), y: limbs_value(y@) }),
    {
        match (Fr::from_limbs(x), Fr::from_limbs(y)) {
            (Some(x), Some(y)) => Some(G1Affine { x, y }),
            _ => None,
        }
    }

    /// The identity of the group.
    pub fn identity() -> (r: G1Affine)
        ensures
            r@ == identity_point(),
    {
        G1Affine { x: Fr::zero(), y: Fr::zero() }
    }

    /// Whether the point is the identity of the group.
    pub fn is_identity(&self) -> (r: bool)
        ensures
            r == (self@ == identity_point()),
    {
        self.x.is_zero() && self.y.is_zero()
    }

    /// Whether two points are the same.
    pub fn equals(&self, other: &G1Affine) -> (r: bool)
        ensures
            r == (self@ == other@),
    {
        self.x.equals(&other.x) && self.y.equals(&other.y)
    }

    /// The sum of two points. Where neither is the identity and they differ
    /// in their x-coordinates, it is the sum by the chord rule.
    pub fn add(&self, other: &G1Affine) -> (r: G1Affine)
        ensures
            r@ == g1_sum(self@, other@),
            chord_applies(self@, other@) ==> on_chord(
                self@.x,
                self@.y,
                other@.x,
                other@.y,
                r@.x,
                r@.y,
            ),
    {
        g1_add(self, other)
    }
}

/// A point with unknown discrete logarithm, derived from a message: the point
/// sampled from the generator that the message's digest seeds.
pub fn hash_to_curve(message: &[u8]) -> (r: G1Affine)
    ensures
        r@ == g1_sample(blake2s(message@)),
{
    let seed = blake2s_digest(message);
    g1_from_seed(&seed)
}

/// A point on the curve that is not in G1: the accumulator of the partial
/// sums starts there, so that no partial sum is the identity.
pub fn point_in_g1_complement() -> (r: G1Affine)
    ensures
        r@ == complement_point(),
{
    G1Affine::new_unchecked(Fr::zero(), Fr::one())
}

/// `ark_ec`'s addition on the short Weierstrass curve of BLS12-377, brought
/// back to affine coordinates: the result is named. For two points that are
/// not the identity and differ in their x-coordinates, the formulas of the
/// mixed addition give the coordinates of the chord rule.
#[verifier::external_body]
fn g1_add(a: &G1Affine, b: &G1Affine) -> (r: G1Affine)
    ensures
        r@ == g1_sum(a@, b@),
        chord_applies(a@, b@) ==> on_chord(a@.x, a@.y, b@.x, b@.y, r@.x, r@.y),
{
    let p = |a: &G1Affine|
        ark_bls12_377::G1Affine::new_unchecked(
            BigInt(a.x.limbs()).into(),
            BigInt(a.y.limbs()).into(),
        );
    let s = (p(a) + p(b)).into_affine();
    G1Affine::from_coordinates(s.x.into_bigint().0, s.y.into_bigint().0).unwrap()
}

/// The `Digest::digest` of `blake2`'s BLAKE2s: the 32 bytes of the digest of
/// the message.
#[verifier::external_body]
fn blake2s_digest(message: &[u8]) -> (r: [u8; 32])
    ensures
        r@ == blake2s(message@),
{
    blake2::Blake2s::digest(message).into()
}

/// `ark_std`'s `UniformRand::rand` for a point of G1, drawn from `rand`'s
/// `StdRng` as `SeedableRng::from_seed` makes it from the seed.
#[verifier::external_body]
fn g1_from_seed(seed: &[u8; 32]) -> (r: G1Affine)
    ensures
        r@ == g1_sample(seed@),
{
    let rng = &mut rand::rngs::StdRng::from_seed(*seed);
    let s = ark_bls12_377::G1Projective::rand(rng).into_affine();
    G1Affine::from_coordinates(s.x.into_bigint().0, s.y.into_bigint().0).unwrap()
}

} // verus!
