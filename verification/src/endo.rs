//! A fast test for membership in G1 of BW6-761, by the endomorphism
//! `(x, y) -> (omega * x, y)` of the curve, for a cube root of unity `omega`.
//!
//! With `u` the parameter of BLS12-377, a point `P` of the curve lies in G1
//! exactly if `u P + P + phi(u^3 P - u^2 P + P)` is the identity.
use vstd::prelude::*;
use crate::base_field::{qmul, wide_limbs_value, Fq};
use crate::bw6::{bw6_difference, bw6_double, bw6_sum, G1Affine};
use crate::curve::{identity_point, AffinePoint};

verus! {

/// The parameter `u` of BLS12-377.
pub const U: u64 = 0x8508c00000000001;

/// The cube root of unity that the endomorphism multiplies by.
pub open spec fn omega_value() -> nat {
    1968985824090209297278610739700577151397666382303825728450741611566800370218827257750865013421937292370006175842381275743914023380727582819905021229583192207421122272650305267822868639090213645505120388400344940985710520836292650nat
}

/// Whether the `i`-th binary digit of `u` is set, counted from the lowest.
pub open spec fn u_bit(i: u64) -> bool {
    (U >> i) & 1 == 1
}

/// The multiple of `p` by the number that the highest `k` binary digits of
/// `u` stand for, by doubling and adding.
pub open spec fn multiple_by_leading_digits(p: AffinePoint, k: nat) -> AffinePoint
    decreases k,
{
    if k == 0 || k > 64 {
        identity_point()
    } else {
        let doubled = bw6_double(multiple_by_leading_digits(p, (k - 1) as nat));
        if u_bit((64 - k) as u64) {
            bw6_sum(doubled, p)
        } else {
            doubled
        }
    }
}

/// The multiple of `p` by `u`.
pub open spec fn multiple_by_u(p: AffinePoint) -> AffinePoint {
    multiple_by_leading_digits(p, 64)
}

/// The image of a point under the endomorphism.
pub open spec fn endomorphism(p: AffinePoint) -> AffinePoint {
    AffinePoint { x: qmul(p.x, omega_value()), y: p.y }
}

/// The point that is the identity exactly for the points of G1.
pub open spec fn subgroup_relation(p: AffinePoint) -> AffinePoint {
    let up = multiple_by_u(p);
    let u2p = multiple_by_u(up);
    let u3p = multiple_by_u(u2p);
    bw6_sum(bw6_sum(up, p), endomorphism(bw6_sum(bw6_difference(u3p, u2p), p)))
}

/// The cube root of unity that the endomorphism multiplies by.
pub fn omega() -> (r: Fq)
    ensures
        r@ == omega_value(),
{
    let limbs: [u64; 12] = [
        0x962140000000002a,
        0xc547ba8a4000002f,
        0xb6290012d96f8819,
        0xf2f082d4dcb5e37c,
        0xc65759fc45183151,
        0x8e0a235a0a398300,
        0xab5e57926fa70184,
        0xee4a737f73b6f952,
        0x2d17be416c5e4426,
        0x6c1f31e53bd9603c,
        0xaa846c61024e4cca,
        0x531dc16c6ecd27,
    ];
    assert(wide_limbs_value(limbs@) == omega_value());
    let r = Fq::from_limbs(limbs);
    r.unwrap()
}

/// The multiple of a point by `u`.
pub fn mul_by_u(p: &G1Affine) -> (r: G1Affine)
    ensures
        r@ == multiple_by_u(p@),
{
    let mut res = G1Affine::identity();
    let mut k: u64 = 0;
    while k < 64
        invariant
            k <= 64,
            res@ == multiple_by_leading_digits(p@, k as nat),
        decreases 64 - k,
    {
        res = res.double();
        if (U >> (63 - k)) & 1 == 1 {
            res = res.add(p);
        }
        k = k + 1;
    }
    res
}

/// The image of a point under the endomorphism.
pub fn glv_endomorphism_proj(p: &G1Affine) -> (r: G1Affine)
    ensures
        r@ == endomorphism(p@),
{
    G1Affine::new_unchecked(p.x.mul(&omega()), p.y)
}

/// Whether a point of the curve lies in G1.
pub fn subgroup_check(p: &G1Affine) -> (r: bool)
    ensures
        r == (subgroup_relation(p@) == identity_point()),
{
    let up = mul_by_u(p);
    let u2p = mul_by_u(&up);
    let u3p = mul_by_u(&u2p);
    up.add(p).add(&glv_endomorphism_proj(&u3p.sub(&u2p).add(p))).is_identity()
}

} // verus!
