//! Evaluation domains: the multiplicative subgroup of size `n = 2^k` over which
//! the registers are interpolated, and the subgroup of size `4n` over which
//! the constraint polynomials, of degree up to `4(n - 1)`, are represented by
//! their values.
use vstd::prelude::*;
use vstd::arithmetic::power2::{pow2, lemma_pow2_unfold, lemma_pow2_strictly_increases, lemma2_to64};
use ark_ff::PrimeField;
use ark_poly::EvaluationDomain;
use crate::field::{
    fmul, fpow, values, Fr, limbs_value, modulus, lemma_fpow_multiplies, lemma_fmul_one,
    lemma_fmul_associative, lemma_field_ops_bounded,
};
use crate::poly::{poly_eval, evaluate};

verus! {

/// The largest power of two that divides the order of the field's
/// multiplicative group.
pub const TWO_ADICITY: u32 = 46;

/// The binary logarithm of the largest supported domain size.
pub const MAX_LOG_SIZE: u32 = 28;

/// A generator of the subgroup of order `2^46`: the field's multiplicative
/// generator 15 raised to the odd part of the group order.
pub open spec fn two_adic_root() -> nat {
    32863578547254505029601261939868325669770508939375122462904745766352256812585773382134936404344547323199885654433nat
}

/// The generator of the subgroup of order `2^log_n` that the domains use: the
/// generator of the subgroup of order `2^46`, squared `46 - log_n` times.
pub open spec fn root_of_unity(log_n: nat) -> nat
    decreases 46 - log_n,
{
    if log_n >= 46 {
        two_adic_root()
    } else {
        fmul(root_of_unity(log_n + 1), root_of_unity(log_n + 1))
    }
}

/// The `i`-th element of the domain of size `2^log_n`.
pub open spec fn domain_element(log_n: nat, i: nat) -> nat {
    fpow(root_of_unity(log_n), i)
}

/// The values that the polynomial with coefficients `coeffs` takes on the
/// domain of size `2^log_n`, in the order of the domain's elements.
pub open spec fn evaluations(log_n: nat, coeffs: Seq<nat>) -> Seq<nat> {
    Seq::new(pow2(log_n), |i: int| poly_eval(coeffs, domain_element(log_n, i as nat)))
}

/// The coefficients, `2^log_n` of them, of the polynomial that the inverse
/// transform over the domain of size `2^log_n` gives for the values `evals`.
pub uninterp spec fn interpolation(log_n: nat, evals: Seq<nat>) -> Seq<nat>;

/// `s` cut or filled up with zeros to the length `n`.
pub open spec fn fitted(s: Seq<nat>, n: nat) -> Seq<nat> {
    Seq::new(n, |i: int| if i < s.len() { s[i] } else { 0 })
}

/// The values over the domain of size `4 * 2^log_n` of the polynomial that
/// interpolates `evals`, fitted to the domain of size `2^log_n`, over that
/// domain.
pub open spec fn amplified(log_n: nat, evals: Seq<nat>) -> Seq<nat> {
    evaluations(log_n + 2, interpolation(log_n, fitted(evals, pow2(log_n))))
}

/// Whether the polynomial with coefficients `coeffs` vanishes on the whole
/// domain of size `2^log_n`.
pub open spec fn vanishes_on_domain(log_n: nat, coeffs: Seq<nat>) -> bool {
    forall|i: nat|
        i < pow2(log_n) ==> poly_eval(coeffs, #[trigger] domain_element(log_n, i)) == 0
}

/// Every fourth element of the domain of size `4n` is an element of the domain
/// of size `n`.
pub proof fn lemma_domain_embeds(log_n: nat, i: nat)
    requires
        log_n + 2 <= 46,
    ensures
        domain_element(log_n + 2, 4 * i) == domain_element(log_n, i),
{
    let w4 = root_of_unity(log_n + 2);
    let w2 = root_of_unity(log_n + 1);
    let w = root_of_unity(log_n);
    assert(w2 == fmul(w4, w4));
    assert(w == fmul(w2, w2));
    lemma_root_bounded(log_n + 2);
    assert(fpow(w4, 4) == w) by {
        reveal_with_fuel(fpow, 5);
        lemma_fmul_one(w4);
        lemma_fmul_associative(w4, w4, w4);
        lemma_fmul_associative(w4, w4, fmul(w4, w4));
        lemma_fmul_associative(w4, w4, w2);
    }
    lemma_fpow_multiplies(w4, 4, i);
}

/// The roots of unity are below the modulus.
pub proof fn lemma_root_bounded(log_n: nat)
    ensures
        root_of_unity(log_n) < modulus(),
{
    if log_n < 46 {
        lemma_field_ops_bounded(root_of_unity(log_n + 1), root_of_unity(log_n + 1));
    }
}

/// `2^k` for `k` up to 30.
pub fn pow2_usize(k: u32) -> (r: usize)
    requires
        k <= 30,
    ensures
        r == pow2(k as nat),
        r <= 0x4000_0000,
{
    let mut r: usize = 1;
    let mut i: u32 = 0;
    proof {
        lemma2_to64();
    }
    while i < k
        invariant
            i <= k,
            k <= 30,
            r == pow2(i as nat),
            pow2(30) == 0x4000_0000,
        decreases k - i,
    {
        proof {
            lemma_pow2_unfold((i + 1) as nat);
            if i + 1 < 30 {
                lemma_pow2_strictly_increases((i + 1) as nat, 30);
            }
        }
        r = r * 2;
        i = i + 1;
    }
    proof {
        if k < 30 {
            lemma_pow2_strictly_increases(k as nat, 30);
        }
    }
    r
}

/// The generator of the subgroup of order `2^46`.
fn two_adic_root_of_unity() -> (r: Fr)
    ensures
        r@ == two_adic_root(),
{
    let limbs: [u64; 6] = [
        0x7eca603cc563b9a1,
        0x6df0a4306fe0bc3,
        0xb44d994a0ddff8c6,
        0x40fbe05b4512a3d4,
        0x30f152488aeffc9b,
        0x36a92e05198a80,
    ];
    assert(limbs_value(limbs@) == two_adic_root());
    let r = Fr::from_limbs(limbs);
    r.unwrap()
}

/// The generator of the domain of size `2^log_n`.
pub fn generator(log_n: u32) -> (r: Fr)
    requires
        log_n <= TWO_ADICITY,
    ensures
        r@ == root_of_unity(log_n as nat),
{
    let mut acc = two_adic_root_of_unity();
    let mut j: u32 = TWO_ADICITY;
    while j > log_n
        invariant
            log_n <= j <= TWO_ADICITY,
            acc@ == root_of_unity(j as nat),
        decreases j,
    {
        acc = acc.square();
        j = j - 1;
    }
    acc
}

/// `ark_poly`'s transform over the radix-2 domain of the given size: the
/// values of the polynomial with coefficients `coeffs` at the powers of the
/// domain's generator, in order.
#[verifier::external_body]
fn fft(log_n: u32, size: usize, coeffs: &Vec<Fr>) -> (r: Vec<Fr>)
    requires
        log_n <= TWO_ADICITY,
        size == pow2(log_n as nat),
        coeffs.len() <= size,
    ensures
        values(r@) == evaluations(log_n as nat, values(coeffs@)),
{
    let d = ark_poly::Radix2EvaluationDomain::<ark_bls12_377::Fq>::new(size).unwrap();
    let c: Vec<ark_bls12_377::Fq> = coeffs.iter().map(
        |x| ark_bls12_377::Fq::from_bigint(ark_ff::BigInt::new(x.limbs())).unwrap(),
    ).collect();
    d.fft(&c).iter().map(|x| Fr::from_limbs(x.into_bigint().0).unwrap()).collect()
}

/// `ark_poly`'s inverse transform over the radix-2 domain of the given size:
/// as many coefficients as the domain has elements, of the polynomial that
/// takes the values `evals` at the powers of the domain's generator, in order.
#[verifier::external_body]
fn ifft(log_n: u32, size: usize, evals: &Vec<Fr>) -> (r: Vec<Fr>)
    requires
        log_n <= TWO_ADICITY,
        size == pow2(log_n as nat),
        evals.len() == size,
    ensures
        values(r@) == interpolation(log_n as nat, values(evals@)),
        r.len() == size,
        evaluations(log_n as nat, values(r@)) == values(evals@),
{
    let d = ark_poly::Radix2EvaluationDomain::<ark_bls12_377::Fq>::new(size).unwrap();
    let e: Vec<ark_bls12_377::Fq> = evals.iter().map(
        |x| ark_bls12_377::Fq::from_bigint(ark_ff::BigInt::new(x.limbs())).unwrap(),
    ).collect();
    d.ifft(&e).iter().map(|x| Fr::from_limbs(x.into_bigint().0).unwrap()).collect()
}

/// The domain of size `n` and the domain of size `4n`.
#[derive(Clone, Copy, Debug)]
pub struct Domains {
    log_size: u32,
    size: usize,
}

impl Domains {
    /// The invariant of the pair of domains.
    #[verifier::type_invariant]
    spec fn inv(self) -> bool {
        &&& self.log_size <= MAX_LOG_SIZE
        &&& self.size == pow2(self.log_size as nat)
    }

    /// The binary logarithm of the size of the smaller domain.
    pub closed spec fn spec_log_size(&self) -> nat {
        self.log_size as nat
    }

    /// The size of the smaller domain.
    pub open spec fn spec_size(&self) -> nat {
        pow2(self.spec_log_size())
    }

    /// The pair of domains whose smaller one is the smallest domain with at
    /// least `domain_size` elements.
    pub fn new(domain_size: usize) -> (r: Domains)
        requires
            domain_size <= pow2(MAX_LOG_SIZE as nat),
        ensures
            r.spec_size() >= domain_size,
            r.spec_log_size() == 0 || pow2((r.spec_log_size() - 1) as nat) < domain_size,
    {
        let mut k: u32 = 0;
        let mut n: usize = 1;
        proof {
            lemma2_to64();
        }
        while n < domain_size
            invariant
                n >= 1,
                n == pow2(k as nat),
                k <= MAX_LOG_SIZE,
                domain_size <= pow2(MAX_LOG_SIZE as nat),
                pow2(MAX_LOG_SIZE as nat) == 0x1000_0000,
                k == 0 || pow2((k - 1) as nat) < domain_size,
            decreases MAX_LOG_SIZE - k,
        {
            proof {
                lemma_pow2_unfold((k + 1) as nat);
                assert(k < MAX_LOG_SIZE);
                if k + 1 < MAX_LOG_SIZE {
                    lemma_pow2_strictly_increases((k + 1) as nat, MAX_LOG_SIZE as nat);
                }
            }
            n = n * 2;
            k = k + 1;
        }
        Domains { log_size: k, size: n }
    }

    /// The pair of domains whose smaller one has `2^log_size` elements, if that
    /// is a supported size.
    pub fn from_log_size(log_size: u32) -> (r: Option<Domains>)
        ensures
            r.is_some() <==> log_size <= MAX_LOG_SIZE,
            r.is_some() ==> r.unwrap().spec_log_size() == log_size,
    {
        if log_size <= MAX_LOG_SIZE {
            Some(Domains { log_size, size: pow2_usize(log_size) })
        } else {
            None
        }
    }

    /// The size of the larger domain.
    pub fn size_4x(&self) -> (r: usize)
        ensures
            r == 4 * self.spec_size(),
            r == pow2(self.spec_log_size() + 2),
            r <= 0x4000_0000,
    {
        let n = self.size();
        proof {
            lemma_pow2_unfold(self.spec_log_size() + 2);
            lemma_pow2_unfold(self.spec_log_size() + 1);
        }
        4 * n
    }

    /// `v` cut or filled up with zeros to the size of the smaller domain.
    pub fn fit(&self, v: &Vec<Fr>) -> (r: Vec<Fr>)
        ensures
            values(r@) == fitted(values(v@), self.spec_size()),
            r.len() == self.spec_size(),
    {
        let n = self.size();
        let mut r: Vec<Fr> = Vec::new();
        let mut i: usize = 0;
        while i < n
            invariant
                i <= n,
                n == self.spec_size(),
                r.len() == i,
                forall|j: int| 0 <= j < i ==> r@[j]@ == fitted(values(v@), self.spec_size())[j],
            decreases n - i,
        {
            if i < v.len() {
                r.push(v[i]);
            } else {
                r.push(Fr::zero());
            }
            i = i + 1;
        }
        assert(values(r@) =~= fitted(values(v@), self.spec_size()));
        r
    }

    /// The coefficients of the polynomial that takes the values `evals`,
    /// fitted to the domain, on the smaller domain.
    pub fn interpolate(&self, evals: &Vec<Fr>) -> (r: Vec<Fr>)
        ensures
            values(r@) == interpolation(
                self.spec_log_size(),
                fitted(values(evals@), self.spec_size()),
            ),
            r.len() == self.spec_size(),
            evaluations(self.spec_log_size(), values(r@)) == fitted(
                values(evals@),
                self.spec_size(),
            ),
    {
        let e = self.fit(evals);
        ifft(self.log_size(), self.size(), &e)
    }

    /// The coefficients of the polynomial that takes the values `evals` on the
    /// larger domain.
    pub fn interpolate_4x(&self, evals: &Vec<Fr>) -> (r: Vec<Fr>)
        requires
            evals.len() == 4 * self.spec_size(),
        ensures
            values(r@) == interpolation(self.spec_log_size() + 2, values(evals@)),
            r.len() == 4 * self.spec_size(),
            evaluations(self.spec_log_size() + 2, values(r@)) == values(evals@),
    {
        ifft(self.log_size() + 2, self.size_4x(), evals)
    }

    /// The values of a polynomial on the larger domain.
    pub fn amplify_polynomial(&self, poly: &Vec<Fr>) -> (r: Vec<Fr>)
        requires
            poly.len() <= 4 * self.spec_size(),
        ensures
            values(r@) == evaluations(self.spec_log_size() + 2, values(poly@)),
            r.len() == 4 * self.spec_size(),
    {
        let r = fft(self.log_size() + 2, self.size_4x(), poly);
        assert(r.len() == values(r@).len());
        r
    }

    /// The values on the larger domain of the polynomial that interpolates
    /// `evals` over the smaller one. Every fourth of them is one of `evals`.
    pub fn amplify(&self, evals: &Vec<Fr>) -> (r: Vec<Fr>)
        ensures
            values(r@) == amplified(self.spec_log_size(), values(evals@)),
            r.len() == 4 * self.spec_size(),
            forall|i: int|
                0 <= i < self.spec_size() ==> (#[trigger] r@[4 * i])@ == fitted(
                    values(evals@),
                    self.spec_size(),
                )[i],
    {
        let p = self.interpolate(evals);
        let r = self.amplify_polynomial(&p);
        proof {
            use_type_invariant(self);
            let k = self.spec_log_size();
            let e = fitted(values(evals@), self.spec_size());
            lemma_pow2_unfold(k + 2);
            lemma_pow2_unfold(k + 1);
            assert forall|i: int| 0 <= i < self.spec_size() implies (#[trigger] r@[4 * i])@
                == e[i] by {
                lemma_domain_embeds(k, i as nat);
                assert(values(r@)[4 * i] == poly_eval(
                    values(p@),
                    domain_element(k + 2, (4 * i) as nat),
                ));
                assert(evaluations(k, values(p@))[i] == poly_eval(
                    values(p@),
                    domain_element(k, i as nat),
                ));
            }
        }
        r
    }

    /// The values of a constant polynomial on the larger domain.
    pub fn constant_4x(&self, c: Fr) -> (r: Vec<Fr>)
        ensures
            r.len() == 4 * self.spec_size(),
            forall|j: int| 0 <= j < r.len() ==> r@[j] == c,
    {
        let n4 = self.size_4x();
        let mut r: Vec<Fr> = Vec::new();
        let mut i: usize = 0;
        while i < n4
            invariant
                i <= n4,
                r.len() == i,
                forall|j: int| 0 <= j < i ==> r@[j] == c,
            decreases n4 - i,
        {
            r.push(c);
            i = i + 1;
        }
        r
    }

    /// Whether a polynomial vanishes on the whole smaller domain.
    pub fn is_zero(&self, poly: &Vec<Fr>) -> (r: bool)
        ensures
            r == vanishes_on_domain(self.spec_log_size(), values(poly@)),
    {
        let n = self.size();
        let w = generator(self.log_size());
        let mut x = Fr::one();
        let mut i: usize = 0;
        while i < n
            invariant
                i <= n,
                n == self.spec_size(),
                w@ == root_of_unity(self.spec_log_size()),
                x@ == domain_element(self.spec_log_size(), i as nat),
                forall|j: nat|
                    j < i ==> poly_eval(
                        values(poly@),
                        #[trigger] domain_element(self.spec_log_size(), j),
                    ) == 0,
            decreases n - i,
        {
            let y = evaluate(poly, &x);
            if !y.is_zero() {
                assert(poly_eval(values(poly@), domain_element(self.spec_log_size(), i as nat))
                    != 0);
                return false;
            }
            x = w.mul(&x);
            i = i + 1;
        }
        true
    }

    /// The binary logarithm of the size of the smaller domain.
    pub fn log_size(&self) -> (r: u32)
        ensures
            r == self.spec_log_size(),
            r <= MAX_LOG_SIZE,
    {
        proof {
            use_type_invariant(self);
        }
        self.log_size
    }

    /// The size of the smaller domain.
    pub fn size(&self) -> (r: usize)
        ensures
            r == self.spec_size(),
            r <= 0x1000_0000,
    {
        proof {
            use_type_invariant(self);
            lemma2_to64();
            if self.log_size < MAX_LOG_SIZE {
                lemma_pow2_strictly_increases(self.log_size as nat, MAX_LOG_SIZE as nat);
            }
        }
        self.size
    }
}

} // verus!
