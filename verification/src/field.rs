//! The scalar field of BW6-761, which is also the base field of BLS12-377.
//!
//! An element is held as six little-endian 64-bit limbs of its canonical
//! representative and is viewed as the natural number below the modulus that
//! it stands for. The arithmetic itself is done by `ark-ff`.
use vstd::prelude::*;
use ark_ff::PrimeField;
use ark_ff::Field;

verus! {

/// The modulus of the field.
pub open spec fn modulus() -> nat {
    258664426012969094010652733694893533536393512754914660539884262666720468348340822774968888139573360124440321458177nat
}

/// The number that six little-endian 64-bit limbs stand for.
pub open spec fn limbs_value(l: Seq<u64>) -> nat {
    (l[0] as nat) + (l[1] as nat) * 0x1_0000_0000_0000_0000nat + (l[2] as nat)
        * 0x1_0000_0000_0000_0000_0000_0000_0000_0000nat + (l[3] as nat)
        * 0x1_0000_0000_0000_0000_0000_0000_0000_0000_0000_0000_0000_0000nat + (l[4] as nat)
        * 0x1_0000_0000_0000_0000_0000_0000_0000_0000_0000_0000_0000_0000_0000_0000_0000_0000nat
        + (l[5] as nat)
        * 0x1_0000_0000_0000_0000_0000_0000_0000_0000_0000_0000_0000_0000_0000_0000_0000_0000_0000_0000_0000_0000nat
}

/// Sum of two field elements.
#[verifier::opaque]
pub open spec fn fadd(a: nat, b: nat) -> nat {
    (a + b) % modulus()
}

/// Difference of two field elements.
#[verifier::opaque]
pub open spec fn fsub(a: nat, b: nat) -> nat {
    ((a + modulus() - b) % (modulus() as int)) as nat
}

/// Product of two field elements.
#[verifier::opaque]
pub open spec fn fmul(a: nat, b: nat) -> nat {
    (a * b) % modulus()
}

/// The additive inverse of a field element.
pub open spec fn fneg(a: nat) -> nat {
    fsub(0, a)
}

/// The multiplicative inverse of a nonzero field element: the element whose
/// product with `a` is one.
pub open spec fn finv(a: nat) -> nat {
    choose|r: nat| r < modulus() && fmul(a, r) == 1
}

/// `x` raised to the power `e` in the field.
pub open spec fn fpow(x: nat, e: nat) -> nat
    decreases e,
{
    if e == 0 {
        1
    } else {
        fmul(x, fpow(x, (e - 1) as nat))
    }
}

/// If `a0 + B * ta == b0 + B * tb` with both `a0` and `b0` below `B`, the
/// digits and the tails agree.
proof fn lemma_digit_unique(a0: int, ta: int, b0: int, tb: int)
    requires
        0 <= a0 < 0x1_0000_0000_0000_0000,
        0 <= b0 < 0x1_0000_0000_0000_0000,
        a0 + 0x1_0000_0000_0000_0000 * ta == b0 + 0x1_0000_0000_0000_0000 * tb,
    ensures
        a0 == b0,
        ta == tb,
{
    if ta < tb {
        assert(0x1_0000_0000_0000_0000 * tb >= 0x1_0000_0000_0000_0000 * ta
            + 0x1_0000_0000_0000_0000);
    } else if tb < ta {
        assert(0x1_0000_0000_0000_0000 * ta >= 0x1_0000_0000_0000_0000 * tb
            + 0x1_0000_0000_0000_0000);
    }
}

/// Two limb sequences that stand for the same number are the same, limb by limb.
pub proof fn lemma_limbs_injective(a: Seq<u64>, b: Seq<u64>)
    requires
        limbs_value(a) == limbs_value(b),
    ensures
        a[0] == b[0],
        a[1] == b[1],
        a[2] == b[2],
        a[3] == b[3],
        a[4] == b[4],
        a[5] == b[5],
{
    let a4 = a[4] + 0x1_0000_0000_0000_0000 * a[5];
    let a3 = a[3] + 0x1_0000_0000_0000_0000 * a4;
    let a2 = a[2] + 0x1_0000_0000_0000_0000 * a3;
    let a1 = a[1] + 0x1_0000_0000_0000_0000 * a2;
    let b4 = b[4] + 0x1_0000_0000_0000_0000 * b[5];
    let b3 = b[3] + 0x1_0000_0000_0000_0000 * b4;
    let b2 = b[2] + 0x1_0000_0000_0000_0000 * b3;
    let b1 = b[1] + 0x1_0000_0000_0000_0000 * b2;
    assert(limbs_value(a) == a[0] + 0x1_0000_0000_0000_0000 * a1);
    assert(limbs_value(b) == b[0] + 0x1_0000_0000_0000_0000 * b1);
    lemma_digit_unique(a[0] as int, a1, b[0] as int, b1);
    lemma_digit_unique(a[1] as int, a2, b[1] as int, b2);
    lemma_digit_unique(a[2] as int, a3, b[2] as int, b3);
    lemma_digit_unique(a[3] as int, a4, b[3] as int, b4);
    lemma_digit_unique(a[4] as int, a[5] as int, b[4] as int, b[5] as int);
}

/// A sum, a difference and a product of field elements are below the modulus.
pub proof fn lemma_field_ops_bounded(a: nat, b: nat)
    ensures
        fadd(a, b) < modulus(),
        fsub(a, b) < modulus(),
        fmul(a, b) < modulus(),
{
    reveal(fadd);
    reveal(fsub);
    reveal(fmul);
}

/// Multiplication in the field is associative.
pub proof fn lemma_fmul_associative(a: nat, b: nat, c: nat)
    ensures
        fmul(fmul(a, b), c) == fmul(a, fmul(b, c)),
{
    reveal(fmul);
    let m = modulus() as int;
    vstd::arithmetic::div_mod::lemma_mul_mod_noop_left((a * b) as int, c as int, m);
    vstd::arithmetic::div_mod::lemma_mul_mod_noop_right(a as int, (b * c) as int, m);
    vstd::arithmetic::mul::lemma_mul_is_associative(a as int, b as int, c as int);
}

/// One is the identity of the multiplication.
pub proof fn lemma_fmul_one(a: nat)
    requires
        a < modulus(),
    ensures
        fmul(a, 1) == a,
        fmul(1, a) == a,
{
    reveal(fmul);
    vstd::arithmetic::div_mod::lemma_small_mod(a, modulus());
}

/// Zero annihilates.
pub proof fn lemma_fmul_zero(a: nat)
    ensures
        fmul(a, 0) == 0,
        fmul(0, a) == 0,
{
    reveal(fmul);
}

/// `b * (1 - b)` vanishes for `b` zero or one.
pub proof fn lemma_boolean_vanishes(b: nat)
    requires
        b == 0 || b == 1,
    ensures
        fmul(b, fsub(1, b)) == 0,
{
    reveal(fmul);
    reveal(fsub);
    if b == 0 {
        assert(b * fsub(1, b) == 0) by (nonlinear_arith)
            requires
                b == 0,
        ;
    } else {
        let m = modulus() as int;
        assert((1 + m - 1) % m == 0) by {
            vstd::arithmetic::div_mod::lemma_mod_self_0(m);
        }
        assert(fsub(1, b) == 0);
        assert(b * fsub(1, b) == 0) by (nonlinear_arith)
            requires
                fsub(1, b) == 0,
        ;
    }
}

/// Powers are below the modulus.
pub proof fn lemma_fpow_bounded(x: nat, e: nat)
    ensures
        fpow(x, e) < modulus(),
    decreases e,
{
    if e > 0 {
        lemma_field_ops_bounded(x, fpow(x, (e - 1) as nat));
    }
}

/// `x^(a+b) == x^a * x^b`.
pub proof fn lemma_fpow_adds(x: nat, a: nat, b: nat)
    ensures
        fpow(x, a + b) == fmul(fpow(x, a), fpow(x, b)),
    decreases a,
{
    if a == 0 {
        lemma_fpow_bounded(x, b);
        lemma_fmul_one(fpow(x, b));
    } else {
        lemma_fpow_adds(x, (a - 1) as nat, b);
        lemma_fmul_associative(x, fpow(x, (a - 1) as nat), fpow(x, b));
        assert((a + b - 1) as nat == (a - 1) as nat + b);
    }
}

/// `(x^a)^b == x^(a*b)`.
pub proof fn lemma_fpow_multiplies(x: nat, a: nat, b: nat)
    ensures
        fpow(fpow(x, a), b) == fpow(x, a * b),
    decreases b,
{
    if b == 0 {
        assert(a * b == 0) by (nonlinear_arith)
            requires
                b == 0,
        ;
    } else {
        lemma_fpow_multiplies(x, a, (b - 1) as nat);
        lemma_fpow_adds(x, a, a * ((b - 1) as nat));
        assert(a * b == a + a * ((b - 1) as nat)) by (nonlinear_arith)
            requires
                b > 0,
        ;
    }
}

/// Whether two integers stand for the same field element.
pub open spec fn congruent(a: int, b: int) -> bool {
    a % (modulus() as int) == b % (modulus() as int)
}

/// A sum in the field stands for the sum of the integers.
pub proof fn lemma_fadd_congruent(a: nat, b: nat)
    ensures
        congruent(fadd(a, b) as int, (a + b) as int),
{
    reveal(fadd);
    vstd::arithmetic::div_mod::lemma_mod_twice((a + b) as int, modulus() as int);
}

/// A difference in the field stands for the difference of the integers.
pub proof fn lemma_fsub_congruent(a: nat, b: nat)
    ensures
        congruent(fsub(a, b) as int, a - b),
{
    reveal(fsub);
    let m = modulus() as int;
    vstd::arithmetic::div_mod::lemma_mod_twice(a + m - b, m);
    vstd::arithmetic::div_mod::lemma_mod_add_multiples_vanish(a - b, m);
}

/// A product in the field stands for the product of the integers.
pub proof fn lemma_fmul_congruent(a: nat, b: nat)
    ensures
        congruent(fmul(a, b) as int, (a * b) as int),
{
    reveal(fmul);
    vstd::arithmetic::div_mod::lemma_mod_twice((a * b) as int, modulus() as int);
}

/// Sums of integers that stand for the same field elements do so too.
pub proof fn lemma_congruent_add(a: int, b: int, c: int, d: int)
    requires
        congruent(a, b),
        congruent(c, d),
    ensures
        congruent(a + c, b + d),
{
    let m = modulus() as int;
    vstd::arithmetic::div_mod::lemma_add_mod_noop(a, c, m);
    vstd::arithmetic::div_mod::lemma_add_mod_noop(b, d, m);
}

/// Differences of integers that stand for the same field elements do so too.
pub proof fn lemma_congruent_sub(a: int, b: int, c: int, d: int)
    requires
        congruent(a, b),
        congruent(c, d),
    ensures
        congruent(a - c, b - d),
{
    let m = modulus() as int;
    vstd::arithmetic::div_mod::lemma_sub_mod_noop(a, c, m);
    vstd::arithmetic::div_mod::lemma_sub_mod_noop(b, d, m);
}

/// Products of integers that stand for the same field elements do so too.
pub proof fn lemma_congruent_mul(a: int, b: int, c: int, d: int)
    requires
        congruent(a, b),
        congruent(c, d),
    ensures
        congruent(a * c, b * d),
{
    let m = modulus() as int;
    vstd::arithmetic::div_mod::lemma_mul_mod_noop_general(a, c, m);
    vstd::arithmetic::div_mod::lemma_mul_mod_noop_general(b, d, m);
}

/// A field element less itself is zero.
pub proof fn lemma_fsub_self(a: nat)
    ensures
        fsub(a, a) == 0,
{
    reveal(fsub);
    vstd::arithmetic::div_mod::lemma_mod_self_0(modulus() as int);
}

/// Zero plus zero is zero.
pub proof fn lemma_fadd_zero()
    ensures
        fadd(0, 0) == 0,
{
    reveal(fadd);
}

/// Field elements that stand for the same are the same.
pub proof fn lemma_congruent_equal(a: nat, b: nat)
    requires
        a < modulus(),
        b < modulus(),
        congruent(a as int, b as int),
    ensures
        a == b,
{
    vstd::arithmetic::div_mod::lemma_small_mod(a, modulus());
    vstd::arithmetic::div_mod::lemma_small_mod(b, modulus());
}

/// The one field element that stands for zero is zero.
pub proof fn lemma_congruent_zero(a: nat)
    requires
        a < modulus(),
        congruent(a as int, 0),
    ensures
        a == 0,
{
    vstd::arithmetic::div_mod::lemma_small_mod(a, modulus());
}

/// The views of a sequence of field elements.
pub open spec fn values(s: Seq<Fr>) -> Seq<nat> {
    s.map_values(|x: Fr| x@)
}

/// An element of the field.
#[derive(Clone, Copy, Debug, PartialEq, Eq)]
pub struct Fr {
    limbs: [u64; 6],
}

impl View for Fr {
    type V = nat;

    closed spec fn view(&self) -> nat {
        limbs_value(self.limbs@)
    }
}

impl Fr {
    #[verifier::type_invariant]
    spec fn canonical(self) -> bool {
        limbs_value(self.limbs@) < modulus()
    }

    /// Brings into scope that the element is below the modulus.
    pub fn bound(&self)
        ensures
            self@ < modulus(),
    {
        proof {
            use_type_invariant(self);
        }
    }

    /// The additive identity.
    pub fn zero() -> (r: Fr)
        ensures
            r@ == 0,
    {
        Fr { limbs: [0, 0, 0, 0, 0, 0] }
    }

    /// The multiplicative identity.
    pub fn one() -> (r: Fr)
        ensures
            r@ == 1,
    {
        Fr { limbs: [1, 0, 0, 0, 0, 0] }
    }

    /// The element that stands for a 64-bit integer.
    pub fn from_u64(x: u64) -> (r: Fr)
        ensures
            r@ == x,
    {
        Fr { limbs: [x, 0, 0, 0, 0, 0] }
    }

    /// The element that stands for a 128-bit integer given by its two halves.
    pub fn from_u128_halves(lo: u64, hi: u64) -> (r: Fr)
        ensures
            r@ == lo + hi * 0x1_0000_0000_0000_0000nat,
    {
        Fr { limbs: [lo, hi, 0, 0, 0, 0] }
    }

    /// The element with the given limbs, if they stand for a number below the
    /// modulus.
    pub fn from_limbs(limbs: [u64; 6]) -> (r: Option<Fr>)
        ensures
            r.is_some() <==> limbs_value(limbs@) < modulus(),
            r.is_some() ==> r.unwrap()@ == limbs_value(limbs@),
    {
        let below = if limbs[5] != 0x1ae3a4617c510ea {
            limbs[5] < 0x1ae3a4617c510ea
        } else if limbs[4] != 0xc63b05c06ca1493b {
            limbs[4] < 0xc63b05c06ca1493b
        } else if limbs[3] != 0x1a22d9f300f5138f {
            limbs[3] < 0x1a22d9f300f5138f
        } else if limbs[2] != 0x1ef3622fba094800 {
            limbs[2] < 0x1ef3622fba094800
        } else if limbs[1] != 0x170b5d4430000000 {
            limbs[1] < 0x170b5d4430000000
        } else {
            limbs[0] < 0x8508c00000000001
        };
        if below {
            Some(Fr { limbs })
        } else {
            None
        }
    }

    /// The limbs of the canonical representative.
    pub fn limbs(&self) -> (r: [u64; 6])
        ensures
            limbs_value(r@) == self@,
    {
        self.limbs
    }

    /// Whether two elements are the same.
    pub fn equals(&self, other: &Fr) -> (r: bool)
        ensures
            r == (self@ == other@),
    {
        proof {
            if self@ == other@ {
                lemma_limbs_injective(self.limbs@, other.limbs@);
            } else {
                assert(self.limbs@ != other.limbs@);
            }
        }
        self.limbs[0] == other.limbs[0] && self.limbs[1] == other.limbs[1] && self.limbs[2]
            == other.limbs[2] && self.limbs[3] == other.limbs[3] && self.limbs[4] == other.limbs[4]
            && self.limbs[5] == other.limbs[5]
    }

    /// Whether the element is zero.
    pub fn is_zero(&self) -> (r: bool)
        ensures
            r == (self@ == 0),
    {
        self.equals(&Fr::zero())
    }

    /// `self + other` in the field.
    pub fn add(&self, other: &Fr) -> (r: Fr)
        ensures
            r@ == fadd(self@, other@),
    {
        fr_add(self, other)
    }

    /// `self - other` in the field.
    pub fn sub(&self, other: &Fr) -> (r: Fr)
        ensures
            r@ == fsub(self@, other@),
    {
        fr_sub(self, other)
    }

    /// `self * other` in the field.
    pub fn mul(&self, other: &Fr) -> (r: Fr)
        ensures
            r@ == fmul(self@, other@),
    {
        fr_mul(self, other)
    }

    /// `-self` in the field.
    pub fn neg(&self) -> (r: Fr)
        ensures
            r@ == fneg(self@),
    {
        fr_sub(&Fr::zero(), self)
    }

    /// `self * self` in the field.
    pub fn square(&self) -> (r: Fr)
        ensures
            r@ == fmul(self@, self@),
    {
        fr_mul(self, self)
    }

    /// The multiplicative inverse, which every element but zero has.
    pub fn inverse(&self) -> (r: Option<Fr>)
        ensures
            r.is_some() <==> self@ != 0,
            r.is_some() ==> r.unwrap()@ == finv(self@) && fmul(self@, r.unwrap()@) == 1,
    {
        fr_inverse(self)
    }

    /// `self` raised to the power `e`, by squaring and multiplying.
    pub fn pow(&self, e: u64) -> (r: Fr)
        ensures
            r@ == fpow(self@, e as nat),
    {
        let mut result = Fr::one();
        let mut base = *self;
        let mut k: u64 = e;
        proof {
            lemma_fpow_bounded(self@, e as nat);
            lemma_fmul_one(fpow(self@, e as nat));
        }
        while k > 0
            invariant
                fmul(result@, fpow(base@, k as nat)) == fpow(self@, e as nat),
            decreases k,
        {
            base.bound();
            result.bound();
            proof {
                let q = (k / 2) as nat;
                let squares = fpow(fmul(base@, base@), q);
                assert(fpow(base@, 2) == fmul(base@, base@)) by {
                    reveal_with_fuel(fpow, 3);
                    lemma_fmul_one(base@);
                }
                lemma_fpow_multiplies(base@, 2, q);
                lemma_fpow_bounded(fmul(base@, base@), q);
                if k % 2 == 1 {
                    assert(k as nat == 1 + 2 * q);
                    lemma_fpow_adds(base@, 1, 2 * q);
                    assert(fpow(base@, 1) == base@) by {
                        reveal_with_fuel(fpow, 2);
                        lemma_fmul_one(base@);
                    }
                    lemma_fmul_associative(result@, base@, squares);
                } else {
                    assert(k as nat == 2 * q);
                }
            }
            if k % 2 == 1 {
                result = result.mul(&base);
            }
            base = base.square();
            k = k / 2;
        }
        proof {
            lemma_fpow_bounded(self@, e as nat);
        }
        result.bound();
        proof {
            lemma_fmul_one(result@);
        }
        result
    }
}

/// `ark_ff`'s addition of two elements of the field: the sum of the two
/// canonical representatives, reduced by the modulus.
#[verifier::external_body]
fn fr_add(a: &Fr, b: &Fr) -> (r: Fr)
    ensures
        r@ == fadd(a@, b@),
{
    let x = ark_bls12_377::Fq::from_bigint(ark_ff::BigInt::new(a.limbs)).unwrap();
    let y = ark_bls12_377::Fq::from_bigint(ark_ff::BigInt::new(b.limbs)).unwrap();
    Fr { limbs: (x + y).into_bigint().0 }
}

/// `ark_ff`'s subtraction of two elements of the field: the difference of the
/// two canonical representatives, brought back below the modulus.
#[verifier::external_body]
fn fr_sub(a: &Fr, b: &Fr) -> (r: Fr)
    ensures
        r@ == fsub(a@, b@),
{
    let x = ark_bls12_377::Fq::from_bigint(ark_ff::BigInt::new(a.limbs)).unwrap();
    let y = ark_bls12_377::Fq::from_bigint(ark_ff::BigInt::new(b.limbs)).unwrap();
    Fr { limbs: (x - y).into_bigint().0 }
}

/// `ark_ff`'s multiplication of two elements of the field: the product of the
/// two canonical representatives, reduced by the modulus.
#[verifier::external_body]
fn fr_mul(a: &Fr, b: &Fr) -> (r: Fr)
    ensures
        r@ == fmul(a@, b@),
{
    let x = ark_bls12_377::Fq::from_bigint(ark_ff::BigInt::new(a.limbs)).unwrap();
    let y = ark_bls12_377::Fq::from_bigint(ark_ff::BigInt::new(b.limbs)).unwrap();
    Fr { limbs: (x * y).into_bigint().0 }
}

/// `ark_ff`'s `Field::inverse`: nothing for zero, and for any other element
/// the one element whose product with it is one.
#[verifier::external_body]
fn fr_inverse(a: &Fr) -> (r: Option<Fr>)
    ensures
        r.is_some() <==> a@ != 0,
        r.is_some() ==> r.unwrap()@ == finv(a@) && fmul(a@, r.unwrap()@) == 1,
{
    let x = ark_bls12_377::Fq::from_bigint(ark_ff::BigInt::new(a.limbs)).unwrap();
    x.inverse().map(|i| Fr { limbs: i.into_bigint().0 })
}

} // verus!
