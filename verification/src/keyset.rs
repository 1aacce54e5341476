//! The set of public keys that proofs are made about, and the commitment to
//! it that a verifier holds.
//!
//! The keys are padded up to the size of the domain with a point of unknown
//! discrete logarithm, and the two coordinate vectors of the padded keys are
//! interpolated over the domain. One slot of the domain is kept for the
//! initial value of the accumulator, so a set of `m` keys takes the smallest
//! domain with more than `m` elements.
use vstd::prelude::*;
use vstd::arithmetic::power2::pow2;
use crate::bw6;
use crate::constraints::{embeds, lemma_on_domain, xs, ys};
use crate::curve::{
    blake2s, g1_sample, g1_sum, hash_to_curve, identity_point, points, AffinePoint, G1Affine,
};
use crate::domains::{evaluations, interpolation, Domains, MAX_LOG_SIZE};
use crate::field::{values, Fr};
use crate::kzg::{kzg_commitment, KzgCommitterKey};
use crate::poly::{degree, lemma_degree_bounded};

verus! {

/// The message that the padding key is derived from.
pub open spec fn padding_message() -> Seq<u8> {
    seq![97u8, 112u8, 107u8, 45u8, 112u8, 114u8, 111u8, 111u8, 102u8, 115u8]
}

/// The key that the set is padded with.
pub open spec fn padding_key() -> AffinePoint {
    g1_sample(blake2s(padding_message()))
}

/// The keys, padded to `n` keys.
pub open spec fn padded_keys(pks: Seq<AffinePoint>, n: nat) -> Seq<AffinePoint> {
    Seq::new(
        n,
        |i: int|
            if i < pks.len() {
                pks[i]
            } else {
                padding_key()
            },
    )
}

/// The sum of the keys that the bits select, taken from the first key on.
pub open spec fn aggregate_key(pks: Seq<AffinePoint>, bits: Seq<bool>) -> AffinePoint
    decreases pks.len(),
{
    if pks.len() == 0 {
        identity_point()
    } else {
        let rest = aggregate_key(pks.drop_last(), bits.drop_last());
        if bits.last() {
            g1_sum(rest, pks.last())
        } else {
            rest
        }
    }
}

/// The commitment to a set of keys: the commitments to the two coordinate
/// polynomials of the padded keys, and the size of the domain they were
/// interpolated over.
#[derive(Clone, Copy, Debug, PartialEq, Eq)]
pub struct KeysetCommitment {
    /// The commitments to the x- and to the y-coordinates of the keys.
    pub pks_comm: (bw6::G1Affine, bw6::G1Affine),
    /// The binary logarithm of the size of the domain.
    pub log_domain_size: u32,
}

/// A commitment to a set of keys, as plain numbers.
pub struct KeysetCommitmentValues {
    pub pks_comm: (AffinePoint, AffinePoint),
    pub log_domain_size: nat,
}

impl View for KeysetCommitment {
    type V = KeysetCommitmentValues;

    open spec fn view(&self) -> KeysetCommitmentValues {
        KeysetCommitmentValues {
            pks_comm: (self.pks_comm.0@, self.pks_comm.1@),
            log_domain_size: self.log_domain_size as nat,
        }
    }
}

impl KeysetCommitment {
    /// Whether two commitments are the same, number by number.
    pub fn equals(&self, other: &KeysetCommitment) -> (r: bool)
        ensures
            r == (self@ == other@),
    {
        self.pks_comm.0.equals(&other.pks_comm.0) && self.pks_comm.1.equals(&other.pks_comm.1)
            && self.log_domain_size == other.log_domain_size
    }
}

/// A set of public keys with what a prover derives from it.
pub struct Keyset {
    /// The keys themselves, without the padding.
    pks: Vec<G1Affine>,
    /// The polynomials that interpolate the coordinates of the padded keys.
    pks_polys: (Vec<Fr>, Vec<Fr>),
    /// The domain that the polynomials were interpolated over.
    domain: Domains,
    /// The values of the polynomials over the larger domain, once computed.
    pks_evals_x4: Option<(Vec<Fr>, Vec<Fr>)>,
}

/// The smallest number of keys that no domain holds.
pub open spec fn max_keys() -> nat {
    pow2(MAX_LOG_SIZE as nat)
}

impl Keyset {
    #[verifier::type_invariant]
    spec fn inv(self) -> bool {
        &&& self.pks.len() < self.domain.spec_size()
        &&& self.pks_polys.0.len() == self.domain.spec_size()
        &&& self.pks_polys.1.len() == self.domain.spec_size()
        &&& values(self.pks_polys.0@) == interpolation(
            self.domain.spec_log_size(),
            xs(padded_keys(points(self.pks@), self.domain.spec_size())),
        )
        &&& values(self.pks_polys.1@) == interpolation(
            self.domain.spec_log_size(),
            ys(padded_keys(points(self.pks@), self.domain.spec_size())),
        )
        &&& evaluations(self.domain.spec_log_size(), values(self.pks_polys.0@)) == xs(
            padded_keys(points(self.pks@), self.domain.spec_size()),
        )
        &&& evaluations(self.domain.spec_log_size(), values(self.pks_polys.1@)) == ys(
            padded_keys(points(self.pks@), self.domain.spec_size()),
        )
        &&& match self.pks_evals_x4 {
            Some(e) => {
                &&& values(e.0@) == evaluations(
                    self.domain.spec_log_size() + 2,
                    values(self.pks_polys.0@),
                )
                &&& values(e.1@) == evaluations(
                    self.domain.spec_log_size() + 2,
                    values(self.pks_polys.1@),
                )
            },
            None => true,
        }
    }

    /// The keys, without the padding.
    pub closed spec fn spec_pks(&self) -> Seq<AffinePoint> {
        points(self.pks@)
    }

    /// The domain of the set.
    pub closed spec fn spec_domain(&self) -> Domains {
        self.domain
    }

    /// The coefficients of the two coordinate polynomials.
    pub closed spec fn spec_polys(&self) -> (Seq<nat>, Seq<nat>) {
        (values(self.pks_polys.0@), values(self.pks_polys.1@))
    }

    /// Whether the values over the larger domain have been computed.
    pub closed spec fn is_amplified(&self) -> bool {
        self.pks_evals_x4.is_some()
    }

    /// The padded keys: as many as the domain has elements.
    pub open spec fn spec_padded(&self) -> Seq<AffinePoint> {
        padded_keys(self.spec_pks(), self.spec_domain().spec_size())
    }

    /// The coordinate polynomials are what the inverse transform gives for
    /// the coordinates of the padded keys.
    pub open spec fn polys_interpolate(&self) -> bool {
        &&& self.spec_polys().0 == interpolation(
            self.spec_domain().spec_log_size(),
            xs(self.spec_padded()),
        )
        &&& self.spec_polys().1 == interpolation(
            self.spec_domain().spec_log_size(),
            ys(self.spec_padded()),
        )
        &&& self.spec_polys().0.len() == self.spec_domain().spec_size()
        &&& self.spec_polys().1.len() == self.spec_domain().spec_size()
    }

    /// The set of the given keys. Its domain is the smallest with more
    /// elements than there are keys; the padded keys are as many as the domain
    /// has elements; each coordinate polynomial has as many coefficients, so a
    /// degree below the size of the domain, and takes on the domain the
    /// coordinates of the padded keys.
    pub fn new(pks: Vec<G1Affine>) -> (r: Keyset)
        requires
            pks.len() < max_keys(),
        ensures
            r.spec_pks() == points(pks@),
            r.spec_domain().spec_size() > pks.len(),
            r.spec_domain().spec_log_size() == 0 || pow2(
                (r.spec_domain().spec_log_size() - 1) as nat,
            ) <= pks.len(),
            r.spec_padded().len() == r.spec_domain().spec_size(),
            r.polys_interpolate(),
            degree(r.spec_polys().0) < r.spec_domain().spec_size(),
            degree(r.spec_polys().1) < r.spec_domain().spec_size(),
            evaluations(r.spec_domain().spec_log_size(), r.spec_polys().0) == xs(r.spec_padded()),
            evaluations(r.spec_domain().spec_log_size(), r.spec_polys().1) == ys(r.spec_padded()),
            !r.is_amplified(),
    {
        proof {
            vstd::arithmetic::power2::lemma2_to64();
        }
        let min_domain_size = pks.len() + 1;
        let domain = Domains::new(min_domain_size);
        let n = domain.size();
        let message: [u8; 10] = [97, 112, 107, 45, 112, 114, 111, 111, 102, 115];
        let padding_pk = hash_to_curve(message.as_slice());
        assert(message@ =~= padding_message());
        let mut pks_x: Vec<Fr> = Vec::new();
        let mut pks_y: Vec<Fr> = Vec::new();
        let mut i: usize = 0;
        while i < n
            invariant
                i <= n,
                n == domain.spec_size(),
                padding_pk@ == padding_key(),
                pks_x.len() == i,
                pks_y.len() == i,
                forall|j: int|
                    0 <= j < i ==> pks_x@[j]@ == padded_keys(points(pks@), n as nat)[j].x
                        && pks_y@[j]@ == padded_keys(points(pks@), n as nat)[j].y,
            decreases n - i,
        {
            if i < pks.len() {
                pks_x.push(pks[i].x);
                pks_y.push(pks[i].y);
            } else {
                pks_x.push(padding_pk.x);
                pks_y.push(padding_pk.y);
            }
            i = i + 1;
        }
        proof {
            assert(values(pks_x@) =~= xs(padded_keys(points(pks@), n as nat)));
            assert(values(pks_y@) =~= ys(padded_keys(points(pks@), n as nat)));
            assert(crate::domains::fitted(values(pks_x@), n as nat) =~= values(pks_x@));
            assert(crate::domains::fitted(values(pks_y@), n as nat) =~= values(pks_y@));
        }
        let pks_x_poly = domain.interpolate(&pks_x);
        let pks_y_poly = domain.interpolate(&pks_y);
        proof {
            lemma_degree_bounded(values(pks_x_poly@));
            lemma_degree_bounded(values(pks_y_poly@));
        }
        Keyset { pks, pks_polys: (pks_x_poly, pks_y_poly), domain, pks_evals_x4: None }
    }

    /// The number of keys, without the padding.
    pub fn size(&self) -> (r: usize)
        ensures
            r == self.spec_pks().len(),
            r < self.spec_domain().spec_size(),
    {
        proof {
            use_type_invariant(self);
        }
        self.pks.len()
    }

    /// The domain of the set.
    pub fn domain(&self) -> (r: Domains)
        ensures
            r == self.spec_domain(),
            self.polys_interpolate(),
    {
        proof {
            use_type_invariant(self);
        }
        self.domain
    }

    /// Computes the values of the coordinate polynomials over the larger
    /// domain, which a prover fills its registers with.
    pub fn amplify(&mut self)
        ensures
            final(self).spec_pks() == old(self).spec_pks(),
            final(self).spec_domain() == old(self).spec_domain(),
            final(self).spec_polys() == old(self).spec_polys(),
            final(self).is_amplified(),
    {
        proof {
            use_type_invariant(&*self);
        }
        let e0 = self.domain.amplify_polynomial(&self.pks_polys.0);
        let e1 = self.domain.amplify_polynomial(&self.pks_polys.1);
        self.pks_evals_x4 = Some((e0, e1));
    }

    /// The commitment to the set under the given committer key, which must
    /// have as many powers as the domain has elements.
    pub fn commit(&self, kzg_pk: &KzgCommitterKey) -> (r: KeysetCommitment)
        requires
            self.spec_domain().spec_size() <= kzg_pk@.len(),
        ensures
            r@ == (KeysetCommitmentValues {
                pks_comm: (
                    kzg_commitment(kzg_pk@, self.spec_polys().0),
                    kzg_commitment(kzg_pk@, self.spec_polys().1),
                ),
                log_domain_size: self.spec_domain().spec_log_size(),
            }),
    {
        proof {
            use_type_invariant(self);
        }
        let pks_x_comm = kzg_pk.commit_within(&self.pks_polys.0);
        let pks_y_comm = kzg_pk.commit_within(&self.pks_polys.1);
        KeysetCommitment {
            pks_comm: (pks_x_comm, pks_y_comm),
            log_domain_size: self.domain.log_size(),
        }
    }

    /// The sum of the keys that the bitmask selects, which has one bit for
    /// each key of the set. The padding takes no part in it.
    pub fn aggregate(&self, bitmask: &[bool]) -> (r: G1Affine)
        requires
            bitmask@.len() == self.spec_pks().len(),
        ensures
            r@ == aggregate_key(self.spec_pks(), bitmask@),
    {
        let mut acc = G1Affine::identity();
        let mut i: usize = 0;
        while i < self.pks.len()
            invariant
                i <= self.pks.len(),
                bitmask@.len() == self.pks.len(),
                acc@ == aggregate_key(points(self.pks@).take(i as int), bitmask@.take(i as int)),
            decreases self.pks.len() - i,
        {
            proof {
                assert(points(self.pks@).take(i + 1).drop_last() =~= points(self.pks@).take(
                    i as int,
                ));
                assert(bitmask@.take(i + 1).drop_last() =~= bitmask@.take(i as int));
            }
            if bitmask[i] {
                acc = acc.add(&self.pks[i]);
            }
            i = i + 1;
        }
        proof {
            assert(points(self.pks@).take(self.pks.len() as int) =~= points(self.pks@));
            assert(bitmask@.take(self.pks.len() as int) =~= bitmask@);
        }
        acc
    }

    /// The keys, without the padding.
    pub fn pks(&self) -> (r: &Vec<G1Affine>)
        ensures
            points(r@) == self.spec_pks(),
    {
        &self.pks
    }

    /// The two coordinate polynomials.
    pub fn pks_polys(&self) -> (r: (&Vec<Fr>, &Vec<Fr>))
        ensures
            values(r.0@) == self.spec_polys().0,
            values(r.1@) == self.spec_polys().1,
            self.polys_interpolate(),
    {
        proof {
            use_type_invariant(self);
        }
        (&self.pks_polys.0, &self.pks_polys.1)
    }

    /// The values of the coordinate polynomials over the larger domain.
    pub fn pks_evals_x4(&self) -> (r: (Vec<Fr>, Vec<Fr>))
        ensures
            values(r.0@) == evaluations(
                self.spec_domain().spec_log_size() + 2,
                self.spec_polys().0,
            ),
            values(r.1@) == evaluations(
                self.spec_domain().spec_log_size() + 2,
                self.spec_polys().1,
            ),
            r.0.len() == 4 * self.spec_domain().spec_size(),
            r.1.len() == 4 * self.spec_domain().spec_size(),
            embeds(values(r.0@), xs(self.spec_padded())),
            embeds(values(r.1@), ys(self.spec_padded())),
    {
        let log_n = self.domain.log_size();
        proof {
            use_type_invariant(self);
            let k = self.domain.spec_log_size();
            let px = xs(self.spec_padded());
            let py = ys(self.spec_padded());
            assert forall|i: int| 0 <= i < px.len() implies #[trigger] evaluations(
                k + 2,
                values(self.pks_polys.0@),
            )[4 * i] == px[i] by {
                lemma_on_domain(k, values(self.pks_polys.0@), i as nat);
                assert(evaluations(k, values(self.pks_polys.0@))[i] == px[i]);
            }
            assert forall|i: int| 0 <= i < py.len() implies #[trigger] evaluations(
                k + 2,
                values(self.pks_polys.1@),
            )[4 * i] == py[i] by {
                lemma_on_domain(k, values(self.pks_polys.1@), i as nat);
                assert(evaluations(k, values(self.pks_polys.1@))[i] == py[i]);
            }
        }
        match &self.pks_evals_x4 {
            Some(e) => {
                let r = (e.0.clone(), e.1.clone());
                proof {
                    assert(r.0@ =~= e.0@);
                    assert(r.1@ =~= e.1@);
                    vstd::arithmetic::power2::lemma_pow2_unfold(
                        self.domain.spec_log_size() + 2,
                    );
                    vstd::arithmetic::power2::lemma_pow2_unfold(
                        self.domain.spec_log_size() + 1,
                    );
                    assert(values(r.0@).len() == r.0.len());
                    assert(values(r.1@).len() == r.1.len());
                }
                r
            },
            None => (
                self.domain.amplify_polynomial(&self.pks_polys.0),
                self.domain.amplify_polynomial(&self.pks_polys.1),
            ),
        }
    }
}

impl Clone for Keyset {
    fn clone(&self) -> (r: Keyset)
        ensures
            r.spec_pks() == self.spec_pks(),
            r.spec_domain() == self.spec_domain(),
            r.spec_polys() == self.spec_polys(),
            r.is_amplified() == self.is_amplified(),
    {
        proof {
            use_type_invariant(self);
        }
        let pks = self.pks.clone();
        let p0 = self.pks_polys.0.clone();
        let p1 = self.pks_polys.1.clone();
        let evals = match &self.pks_evals_x4 {
            Some(e) => {
                let e0 = e.0.clone();
                let e1 = e.1.clone();
                proof {
                    assert(e0@ =~= e.0@);
                    assert(e1@ =~= e.1@);
                }
                Some((e0, e1))
            },
            None => None,
        };
        proof {
            assert(pks@ =~= self.pks@);
            assert(p0@ =~= self.pks_polys.0@);
            assert(p1@ =~= self.pks_polys.1@);
        }
        Keyset { pks, pks_polys: (p0, p1), domain: self.domain, pks_evals_x4: evals }
    }
}

} // verus!
