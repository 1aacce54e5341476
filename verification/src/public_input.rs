//! What a proof is about: the aggregate key, and either the bitmask of the
//! keys that it sums or only their number.
use vstd::prelude::*;
use vstd::bytes::{spec_u64_to_le_bytes, u64_to_le_bytes};
use crate::bitmask::{count_ones, Bitmask};
use crate::curve::{AffinePoint, G1Affine};
use crate::transcript::{append_bytes, encode_key, key_encoding};

verus! {

/// The byte that stands for a bit.
pub open spec fn bit_byte(b: bool) -> u8 {
    if b {
        1
    } else {
        0
    }
}

/// The encoding of a bitmask: one byte for each bit.
pub open spec fn bits_encoding(bits: Seq<bool>) -> Seq<u8> {
    bits.map_values(|b: bool| bit_byte(b))
}

/// The encoding of a public input with a bitmask.
pub open spec fn accountable_encoding(apk: AffinePoint, bits: Seq<bool>) -> Seq<u8> {
    key_encoding(apk) + bits_encoding(bits)
}

/// The encoding of a public input with a count.
pub open spec fn counting_encoding(apk: AffinePoint, count: u64) -> Seq<u8> {
    key_encoding(apk) + spec_u64_to_le_bytes(count)
}

/// What the prover states and the verifier checks: made from an aggregate key
/// and the bitmask of the keys that it sums.
pub trait PublicInput: Sized {
    /// Whether this is the public input for the aggregate key and the bitmask.
    spec fn matches(&self, apk: AffinePoint, bits: Seq<bool>) -> bool;

    /// The encoding that the transcript absorbs.
    spec fn encoding(&self) -> Seq<u8>;

    /// The encoding of the public input for the aggregate key and the bitmask.
    spec fn spec_encoding(apk: AffinePoint, bits: Seq<bool>) -> Seq<u8>;

    /// The public input for an aggregate key and a bitmask.
    fn new(apk: &G1Affine, bitmask: &Bitmask) -> (r: Self)
        ensures
            r.matches(apk@, bitmask@),
            r.encoding() == Self::spec_encoding(apk@, bitmask@),
            r.encoding().len() <= 64 + bitmask@.len(),
    ;

    /// The encoding that the transcript absorbs.
    fn to_bytes(&self) -> (r: Vec<u8>)
        ensures
            r@ == self.encoding(),
    ;
}

/// The public input of the protocols that disclose the bitmask.
#[derive(Debug)]
pub struct AccountablePublicInput {
    pub apk: G1Affine,
    pub bitmask: Bitmask,
}

/// The public input of the protocol that discloses only how many keys were
/// summed.
#[derive(Clone, Copy, Debug)]
pub struct CountingPublicInput {
    pub apk: G1Affine,
    pub count: usize,
}

impl PublicInput for AccountablePublicInput {
    open spec fn matches(&self, apk: AffinePoint, bits: Seq<bool>) -> bool {
        self.apk@ == apk && self.bitmask@ == bits
    }

    open spec fn encoding(&self) -> Seq<u8> {
        accountable_encoding(self.apk@, self.bitmask@)
    }

    open spec fn spec_encoding(apk: AffinePoint, bits: Seq<bool>) -> Seq<u8> {
        accountable_encoding(apk, bits)
    }

    fn new(apk: &G1Affine, bitmask: &Bitmask) -> (r: Self) {
        let bits = bitmask.to_bits();
        AccountablePublicInput { apk: *apk, bitmask: Bitmask::from_bits(bits.as_slice()) }
    }

    fn to_bytes(&self) -> (r: Vec<u8>) {
        let mut r = encode_key(&self.apk);
        let bits = self.bitmask.to_bits();
        let mut m: Vec<u8> = Vec::new();
        let mut i: usize = 0;
        while i < bits.len()
            invariant
                i <= bits.len(),
                m.len() == i,
                forall|j: int| 0 <= j < i ==> m@[j] == bit_byte(bits@[j]),
            decreases bits.len() - i,
        {
            if bits[i] {
                m.push(1u8);
            } else {
                m.push(0u8);
            }
            i = i + 1;
        }
        proof {
            assert(m@ =~= bits_encoding(bits@));
        }
        append_bytes(&mut r, &m);
        r
    }
}

impl PublicInput for CountingPublicInput {
    open spec fn matches(&self, apk: AffinePoint, bits: Seq<bool>) -> bool {
        self.apk@ == apk && self.count == count_ones(bits)
    }

    open spec fn encoding(&self) -> Seq<u8> {
        counting_encoding(self.apk@, self.count as u64)
    }

    open spec fn spec_encoding(apk: AffinePoint, bits: Seq<bool>) -> Seq<u8> {
        counting_encoding(apk, count_ones(bits) as u64)
    }

    fn new(apk: &G1Affine, bitmask: &Bitmask) -> (r: Self) {
        let count = bitmask.count_ones();
        proof {
            vstd::bytes::lemma_auto_spec_u64_to_from_le_bytes();
            assert(spec_u64_to_le_bytes(count as u64).len() == 8);
        }
        CountingPublicInput { apk: *apk, count }
    }

    fn to_bytes(&self) -> (r: Vec<u8>) {
        let mut r = encode_key(&self.apk);
        append_bytes(&mut r, &u64_to_le_bytes(self.count as u64));
        r
    }
}

} // verus!
