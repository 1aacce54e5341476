//! The base field of BW6-761, over which the commitments' coordinates are
//! taken.
//!
//! An element is held as twelve little-endian 64-bit limbs of its canonical
//! representative and is viewed as the natural number below the modulus that
//! it stands for. The arithmetic itself is done by `ark-ff`.
use vstd::prelude::*;
use ark_ff::PrimeField;

verus! {

/// The modulus of the field.
pub open spec fn base_modulus() -> nat {
    6891450384315732539396789682275657542479668912536150109513790160209623422243491736087683183289411687640864567753786613451161759120554247759349511699125301598951605099378508850372543631423596795951899700429969112842764913119068299nat
}

/// The number that twelve little-endian 64-bit limbs stand for.
pub open spec fn wide_limbs_value(l: Seq<u64>) -> nat {
    (l[0] as nat)
        + (l[1] as nat) * 0x1_0000_0000_0000_0000nat
        + (l[2] as nat) * 0x1_0000_0000_0000_0000_0000_0000_0000_0000nat
        + (l[3] as nat) * 0x1_0000_0000_0000_0000_0000_0000_0000_0000_0000_0000_0000_0000nat
        + (l[4] as nat) * 0x1_0000_0000_0000_0000_0000_0000_0000_0000_0000_0000_0000_0000_0000_0000_0000_0000nat
        + (l[5] as nat) * 0x1_0000_0000_0000_0000_0000_0000_0000_0000_0000_0000_0000_0000_0000_0000_0000_0000_0000_0000_0000_0000nat
        + (l[6] as nat) * 0x1_0000_0000_0000_0000_0000_0000_0000_0000_0000_0000_0000_0000_0000_0000_0000_0000_0000_0000_0000_0000_0000_0000_0000_0000nat
        + (l[7] as nat) * 0x1_0000_0000_0000_0000_0000_0000_0000_0000_0000_0000_0000_0000_0000_0000_0000_0000_0000_0000_0000_0000_0000_0000_0000_0000_0000_0000_0000_0000nat
        + (l[8] as nat) * 0x1_0000_0000_0000_0000_0000_0000_0000_0000_0000_0000_0000_0000_0000_0000_0000_0000_0000_0000_0000_0000_0000_0000_0000_0000_0000_0000_0000_0000_0000_0000_0000_0000nat
        + (l[9] as nat) * 0x1_0000_0000_0000_0000_0000_0000_0000_0000_0000_0000_0000_0000_0000_0000_0000_0000_0000_0000_0000_0000_0000_0000_0000_0000_0000_0000_0000_0000_0000_0000_0000_0000_0000_0000_0000_0000nat
        + (l[10] as nat) * 0x1_0000_0000_0000_0000_0000_0000_0000_0000_0000_0000_0000_0000_0000_0000_0000_0000_0000_0000_0000_0000_0000_0000_0000_0000_0000_0000_0000_0000_0000_0000_0000_0000_0000_0000_0000_0000_0000_0000_0000_0000nat
        + (l[11] as nat) * 0x1_0000_0000_0000_0000_0000_0000_0000_0000_0000_0000_0000_0000_0000_0000_0000_0000_0000_0000_0000_0000_0000_0000_0000_0000_0000_0000_0000_0000_0000_0000_0000_0000_0000_0000_0000_0000_0000_0000_0000_0000_0000_0000_0000_0000nat
}

/// Product of two elements of the base field.
#[verifier::opaque]
pub open spec fn qmul(a: nat, b: nat) -> nat {
    (a * b) % base_modulus()
}

/// `x` raised to the power `e` in the base field.
pub open spec fn qpow(x: nat, e: nat) -> nat
    decreases e,
{
    if e == 0 {
        1
    } else {
        qmul(x, qpow(x, (e - 1) as nat))
    }
}

/// If `a0 + B * ta == b0 + B * tb` with both `a0` and `b0` below `B`, the
/// digits and the tails agree.
proof fn lemma_digit_unique(a0: int, ta: int, b0: int, tb: int)
    requires
        0 <= a0 < 0x1_0000_0000_0000_0000,
        0 <= b0 < 0x1_0000_0000_0000_0000,
        a0 + 0x1_0000_0000_0000_0000 * ta == b0 + 0x1_0000_0000_0000_0000 * tb,
    ensures
        a0 == b0,
        ta == tb,
{
    if ta < tb {
        assert(0x1_0000_0000_0000_0000 * tb >= 0x1_0000_0000_0000_0000 * ta + 0x1_0000_0000_0000_0000);
    } else if tb < ta {
        assert(0x1_0000_0000_0000_0000 * ta >= 0x1_0000_0000_0000_0000 * tb + 0x1_0000_0000_0000_0000);
    }
}

/// Two limb sequences that stand for the same number are the same, limb by limb.
pub proof fn lemma_wide_limbs_injective(a: Seq<u64>, b: Seq<u64>)
    requires
        wide_limbs_value(a) == wide_limbs_value(b),
    ensures
        a[0] == b[0],
        a[1] == b[1],
        a[2] == b[2],
        a[3] == b[3],
        a[4] == b[4],
        a[5] == b[5],
        a[6] == b[6],
        a[7] == b[7],
        a[8] == b[8],
        a[9] == b[9],
        a[10] == b[10],
        a[11] == b[11],
{
    let a10 = a[10] + 0x1_0000_0000_0000_0000 * (a[11] as int);
    let a9 = a[9] + 0x1_0000_0000_0000_0000 * (a10);
    let a8 = a[8] + 0x1_0000_0000_0000_0000 * (a9);
    let a7 = a[7] + 0x1_0000_0000_0000_0000 * (a8);
    let a6 = a[6] + 0x1_0000_0000_0000_0000 * (a7);
    let a5 = a[5] + 0x1_0000_0000_0000_0000 * (a6);
    let a4 = a[4] + 0x1_0000_0000_0000_0000 * (a5);
    let a3 = a[3] + 0x1_0000_0000_0000_0000 * (a4);
    let a2 = a[2] + 0x1_0000_0000_0000_0000 * (a3);
    let a1 = a[1] + 0x1_0000_0000_0000_0000 * (a2);
    let b10 = b[10] + 0x1_0000_0000_0000_0000 * (b[11] as int);
    let b9 = b[9] + 0x1_0000_0000_0000_0000 * (b10);
    let b8 = b[8] + 0x1_0000_0000_0000_0000 * (b9);
    let b7 = b[7] + 0x1_0000_0000_0000_0000 * (b8);
    let b6 = b[6] + 0x1_0000_0000_0000_0000 * (b7);
    let b5 = b[5] + 0x1_0000_0000_0000_0000 * (b6);
    let b4 = b[4] + 0x1_0000_0000_0000_0000 * (b5);
    let b3 = b[3] + 0x1_0000_0000_0000_0000 * (b4);
    let b2 = b[2] + 0x1_0000_0000_0000_0000 * (b3);
    let b1 = b[1] + 0x1_0000_0000_0000_0000 * (b2);
    assert(wide_limbs_value(a) == a[0] + 0x1_0000_0000_0000_0000 * a1);
    assert(wide_limbs_value(b) == b[0] + 0x1_0000_0000_0000_0000 * b1);
    lemma_digit_unique(a[0] as int, a1, b[0] as int, b1);
    lemma_digit_unique(a[1] as int, a2, b[1] as int, b2);
    lemma_digit_unique(a[2] as int, a3, b[2] as int, b3);
    lemma_digit_unique(a[3] as int, a4, b[3] as int, b4);
    lemma_digit_unique(a[4] as int, a5, b[4] as int, b5);
    lemma_digit_unique(a[5] as int, a6, b[5] as int, b6);
    lemma_digit_unique(a[6] as int, a7, b[6] as int, b7);
    lemma_digit_unique(a[7] as int, a8, b[7] as int, b8);
    lemma_digit_unique(a[8] as int, a9, b[8] as int, b9);
    lemma_digit_unique(a[9] as int, a10, b[9] as int, b10);
    lemma_digit_unique(a[10] as int, a[11] as int, b[10] as int, b[11] as int);
}

/// An element of the base field.
#[derive(Clone, Copy, Debug, PartialEq, Eq)]
pub struct Fq {
    limbs: [u64; 12],
}

impl View for Fq {
    type V = nat;

    closed spec fn view(&self) -> nat {
        wide_limbs_value(self.limbs@)
    }
}

impl Fq {
    #[verifier::type_invariant]
    spec fn canonical(self) -> bool {
        wide_limbs_value(self.limbs@) < base_modulus()
    }

    /// Brings into scope that the element is below the modulus.
    pub fn bound(&self)
        ensures
            self@ < base_modulus(),
    {
        proof {
            use_type_invariant(self);
        }
    }

    /// The additive identity.
    pub fn zero() -> (r: Fq)
        ensures
            r@ == 0,
    {
        Fq { limbs: [0, 0, 0, 0, 0, 0, 0, 0, 0, 0, 0, 0] }
    }

    /// The multiplicative identity.
    pub fn one() -> (r: Fq)
        ensures
            r@ == 1,
    {
        Fq { limbs: [1, 0, 0, 0, 0, 0, 0, 0, 0, 0, 0, 0] }
    }

    /// The element with the given limbs, if they stand for a number below the
    /// modulus.
    pub fn from_limbs(limbs: [u64; 12]) -> (r: Option<Fq>)
        ensures
            r.is_some() <==> wide_limbs_value(limbs@) < base_modulus(),
            r.is_some() ==> r.unwrap()@ == wide_limbs_value(limbs@),
    {
        let below =
        if limbs[11] != 0x122e824fb83ce0a {
            limbs[11] < 0x122e824fb83ce0a
        } else if limbs[10] != 0xd187c94004faff3e {
            limbs[10] < 0xd187c94004faff3e
        } else if limbs[9] != 0xb926186a81d14688 {
            limbs[9] < 0xb926186a81d14688
        } else if limbs[8] != 0x528275ef8087be41 {
            limbs[8] < 0x528275ef8087be41
        } else if limbs[7] != 0x707ba638e584e919 {
            limbs[7] < 0x707ba638e584e919
        } else if limbs[6] != 0x3cebaff25b42304 {
            limbs[6] < 0x3cebaff25b42304
        } else if limbs[5] != 0x8689c8ed12f9fd90 {
            limbs[5] < 0x8689c8ed12f9fd90
        } else if limbs[4] != 0x71dcd3dc73ebff2e {
            limbs[4] < 0x71dcd3dc73ebff2e
        } else if limbs[3] != 0x98a116c25667a8f8 {
            limbs[3] < 0x98a116c25667a8f8
        } else if limbs[2] != 0x160cf8aeeaf0a437 {
            limbs[2] < 0x160cf8aeeaf0a437
        } else if limbs[1] != 0xe6913e6870000082 {
            limbs[1] < 0xe6913e6870000082
        } else {
            limbs[0] < 0xf49d00000000008b
        };
        if below {
            Some(Fq { limbs })
        } else {
            None
        }
    }

    /// The limbs of the canonical representative.
    pub fn limbs(&self) -> (r: [u64; 12])
        ensures
            wide_limbs_value(r@) == self@,
    {
        self.limbs
    }

    /// Whether two elements are the same.
    pub fn equals(&self, other: &Fq) -> (r: bool)
        ensures
            r == (self@ == other@),
    {
        proof {
            if self@ == other@ {
                lemma_wide_limbs_injective(self.limbs@, other.limbs@);
            } else {
                assert(self.limbs@ != other.limbs@);
            }
        }
        self.limbs[0] == other.limbs[0] && self.limbs[1] == other.limbs[1] && self.limbs[2] == other.limbs[2] && self.limbs[3] == other.limbs[3] && self.limbs[4] == other.limbs[4] && self.limbs[5] == other.limbs[5] && self.limbs[6] == other.limbs[6] && self.limbs[7] == other.limbs[7] && self.limbs[8] == other.limbs[8] && self.limbs[9] == other.limbs[9] && self.limbs[10] == other.limbs[10] && self.limbs[11] == other.limbs[11]
    }

    /// Whether the element is one.
    pub fn is_one(&self) -> (r: bool)
        ensures
            r == (self@ == 1),
    {
        self.equals(&Fq::one())
    }

    /// `self * other` in the field.
    pub fn mul(&self, other: &Fq) -> (r: Fq)
        ensures
            r@ == qmul(self@, other@),
    {
        fq_mul(self, other)
    }

    /// `self` raised to the power `e`.
    pub fn pow(&self, e: u64) -> (r: Fq)
        ensures
            r@ == qpow(self@, e as nat),
    {
        let mut acc = Fq::one();
        let mut i: u64 = 0;
        while i < e
            invariant
                i <= e,
                acc@ == qpow(self@, i as nat),
            decreases e - i,
        {
            acc = self.mul(&acc);
            i = i + 1;
        }
        acc
    }
}

/// `ark_ff`'s multiplication of two elements of the base field: the product
/// of the two canonical representatives, reduced by the modulus.
#[verifier::external_body]
fn fq_mul(a: &Fq, b: &Fq) -> (r: Fq)
    ensures
        r@ == qmul(a@, b@),
{
    let x = ark_bw6_761::Fq::from_bigint(ark_ff::BigInt::new(a.limbs)).unwrap();
    let y = ark_bw6_761::Fq::from_bigint(ark_ff::BigInt::new(b.limbs)).unwrap();
    Fq { limbs: (x * y).into_bigint().0 }
}

} // verus!
