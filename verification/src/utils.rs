//! What the prover and the verifier share: values of the Lagrange basis and of
//! the vanishing polynomial at a point, the quotient by the vanishing
//! polynomial, and the value of a bitmask polynomial at a point.
use vstd::prelude::*;
use vstd::arithmetic::power2::{lemma_pow2_unfold, pow2};
use crate::domains::{domain_element, generator, root_of_unity, Domains};
use crate::field::{
    fadd, finv, fmul, fpow, fsub, lemma_fpow_adds, values, Fr,
};

verus! {

/// The multiplicative inverse of a field element, and zero for zero.
pub open spec fn finv_or_zero(a: nat) -> nat {
    if a == 0 {
        0
    } else {
        finv(a)
    }
}

/// `x` squared `k` times over: `x^(2^k)`.
pub open spec fn squared_times(x: nat, k: nat) -> nat
    decreases k,
{
    if k == 0 {
        x
    } else {
        fmul(squared_times(x, (k - 1) as nat), squared_times(x, (k - 1) as nat))
    }
}

/// Squaring `k` times raises to the power `2^k`.
pub proof fn lemma_squared_times_is_power(x: nat, k: nat)
    requires
        x < crate::field::modulus(),
    ensures
        squared_times(x, k) == fpow(x, pow2(k)),
    decreases k,
{
    if k == 0 {
        vstd::arithmetic::power2::lemma2_to64();
        reveal_with_fuel(fpow, 2);
        crate::field::lemma_fmul_one(x);
    } else {
        lemma_squared_times_is_power(x, (k - 1) as nat);
        lemma_pow2_unfold(k);
        lemma_fpow_adds(x, pow2((k - 1) as nat), pow2((k - 1) as nat));
    }
}

/// The values at a point that the verifier's identity needs.
pub struct LagrangeValues {
    /// The vanishing polynomial of the domain, `X^n - 1`.
    pub vanishing_polynomial: nat,
    /// The Lagrange basis polynomial of the first element of the domain.
    pub l_first: nat,
    /// The Lagrange basis polynomial of the last element of the domain.
    pub l_last: nat,
    /// `X - w^(n-1)`, which vanishes at the last element of the domain.
    pub zeta_minus_omega_inv: nat,
}

/// The values at `zeta` of the vanishing polynomial and of two Lagrange basis
/// polynomials of the domain of size `n = 2^log_n`: `L_i(X) = (X^n - 1) * w^i
/// / (n * (X - w^i))`. Where a denominator vanishes, the quotient is taken to
/// be zero.
pub open spec fn lagrange_values(log_n: nat, zeta: nat) -> LagrangeValues {
    let z = fsub(squared_times(zeta, log_n), 1);
    let z_n = fmul(z, finv_or_zero(pow2(log_n)));
    let last = domain_element(log_n, (pow2(log_n) - 1) as nat);
    LagrangeValues {
        vanishing_polynomial: z,
        l_first: fmul(z_n, finv_or_zero(fsub(zeta, 1))),
        l_last: fmul(fmul(z_n, last), finv_or_zero(fsub(zeta, last))),
        zeta_minus_omega_inv: fsub(zeta, last),
    }
}

/// The values at a point that the verifier's identity needs.
#[derive(Clone, Copy, Debug)]
pub struct LagrangeEvaluations {
    pub vanishing_polynomial: Fr,
    pub l_first: Fr,
    pub l_last: Fr,
    pub zeta_minus_omega_inv: Fr,
}

impl View for LagrangeEvaluations {
    type V = LagrangeValues;

    open spec fn view(&self) -> LagrangeValues {
        LagrangeValues {
            vanishing_polynomial: self.vanishing_polynomial@,
            l_first: self.l_first@,
            l_last: self.l_last@,
            zeta_minus_omega_inv: self.zeta_minus_omega_inv@,
        }
    }
}

/// The multiplicative inverse of a field element, and zero for zero.
pub fn inverse_or_zero(a: &Fr) -> (r: Fr)
    ensures
        r@ == finv_or_zero(a@),
{
    match a.inverse() {
        Some(i) => i,
        None => Fr::zero(),
    }
}

/// `x` squared `k` times over.
pub fn square_times(x: &Fr, k: u32) -> (r: Fr)
    ensures
        r@ == squared_times(x@, k as nat),
{
    let mut acc = *x;
    let mut i: u32 = 0;
    while i < k
        invariant
            i <= k,
            acc@ == squared_times(x@, i as nat),
        decreases k - i,
    {
        acc = acc.square();
        i = i + 1;
    }
    acc
}

/// The last element of the smaller domain.
pub fn last_domain_element(domains: &Domains) -> (r: Fr)
    ensures
        r@ == domain_element(
            domains.spec_log_size(),
            (pow2(domains.spec_log_size()) - 1) as nat,
        ),
{
    let n = domains.size();
    let w = generator(domains.log_size());
    proof {
        vstd::arithmetic::power2::lemma_pow2_pos(domains.spec_log_size());
    }
    w.pow((n - 1) as u64)
}

/// The values at `zeta` of the vanishing polynomial and of the Lagrange basis
/// polynomials of the first and of the last element of the smaller domain.
pub fn lagrange_evaluations(zeta: &Fr, domains: &Domains) -> (r: LagrangeEvaluations)
    ensures
        r@ == lagrange_values(domains.spec_log_size(), zeta@),
{
    let n = domains.size();
    let one = Fr::one();
    let z = square_times(zeta, domains.log_size()).sub(&one);
    let n_inv = inverse_or_zero(&Fr::from_u64(n as u64));
    let z_n = z.mul(&n_inv);
    let last = last_domain_element(domains);
    let zeta_minus_last = zeta.sub(&last);
    LagrangeEvaluations {
        vanishing_polynomial: z,
        l_first: z_n.mul(&inverse_or_zero(&zeta.sub(&one))),
        l_last: z_n.mul(&last).mul(&inverse_or_zero(&zeta_minus_last)),
        zeta_minus_omega_inv: zeta_minus_last,
    }
}

/// The `j`-th coefficient of the quotient of `p` by `X^n - 1`: the sum of the
/// coefficients of `p` at `j + n`, `j + 2n` and so on.
pub open spec fn quotient_coeff(p: Seq<nat>, n: nat, j: int) -> nat
    decreases p.len() - j,
{
    if n == 0 || j < 0 || j + n >= p.len() {
        0
    } else {
        fadd(p[j + n], quotient_coeff(p, n, j + n))
    }
}

/// The quotient of the division of `p` by the vanishing polynomial `X^n - 1`.
pub open spec fn vanishing_quotient(p: Seq<nat>, n: nat) -> Seq<nat> {
    Seq::new(
        if p.len() >= n {
            (p.len() - n) as nat
        } else {
            0
        },
        |j: int| quotient_coeff(p, n, j),
    )
}

/// The quotient of the division of a polynomial by the vanishing polynomial
/// of the smaller domain.
pub fn divide_by_vanishing_polynomial(p: &Vec<Fr>, domains: &Domains) -> (r: Vec<Fr>)
    ensures
        values(r@) == vanishing_quotient(values(p@), domains.spec_size()),
{
    let n = domains.size();
    proof {
        vstd::arithmetic::power2::lemma_pow2_pos(domains.spec_log_size());
    }
    if p.len() < n {
        let r: Vec<Fr> = Vec::new();
        proof {
            assert(values(r@) =~= vanishing_quotient(values(p@), domains.spec_size()));
        }
        return r;
    }
    let len = p.len() - n;
    let mut r: Vec<Fr> = Vec::new();
    let mut i: usize = 0;
    while i < len
        invariant
            i <= len,
            r.len() == i,
        decreases len - i,
    {
        r.push(Fr::zero());
        i = i + 1;
    }
    let mut j: usize = len;
    while j > 0
        invariant
            j <= len,
            n >= 1,
            len == p.len() - n,
            r.len() == len,
            forall|t: int| j <= t < len ==> r@[t]@ == quotient_coeff(values(p@), n as nat, t),
        decreases j,
    {
        j = j - 1;
        let carried = if j + n < len {
            r[j + n]
        } else {
            Fr::zero()
        };
        let v = p[j + n].add(&carried);
        let ghost before = r@;
        r.set(j, v);
        proof {
            assert(carried@ == quotient_coeff(values(p@), n as nat, (j + n) as int));
            assert(values(p@)[(j + n) as int] == p@[(j + n) as int]@);
            assert(quotient_coeff(values(p@), n as nat, j as int) == fadd(
                values(p@)[(j + n) as int],
                quotient_coeff(values(p@), n as nat, (j + n) as int),
            ));
            assert forall|t: int| j <= t < len implies r@[t]@ == quotient_coeff(
                values(p@),
                n as nat,
                t,
            ) by {
                if t > j {
                    assert(r@[t] == before[t]);
                }
            }
        }
    }
    proof {
        assert(values(r@) =~= vanishing_quotient(values(p@), domains.spec_size()));
    }
    r
}

/// The sum over the set bits of `w^i / (zeta - w^i)`, taken from the first
/// bit on.
pub open spec fn barycentric_sum(bits: Seq<bool>, log_n: nat, zeta: nat) -> nat
    decreases bits.len(),
{
    if bits.len() == 0 {
        0
    } else {
        let i = (bits.len() - 1) as nat;
        let rest = barycentric_sum(bits.drop_last(), log_n, zeta);
        if bits.last() {
            fadd(
                rest,
                fmul(
                    domain_element(log_n, i),
                    finv_or_zero(fsub(zeta, domain_element(log_n, i))),
                ),
            )
        } else {
            rest
        }
    }
}

/// The value at `zeta` of the polynomial that interpolates the bits, filled
/// up with zeros, over the domain of size `n = 2^log_n`: the sum over the set
/// bits of `L_i(zeta) = (zeta^n - 1) / n * w^i / (zeta - w^i)`.
pub open spec fn bitmask_at(bits: Seq<bool>, log_n: nat, zeta: nat) -> nat {
    fmul(
        fmul(fsub(squared_times(zeta, log_n), 1), finv_or_zero(pow2(log_n))),
        barycentric_sum(bits, log_n, zeta),
    )
}

/// The value at `zeta` of the polynomial that interpolates the bits over the
/// smaller domain, in as many steps as there are bits.
pub fn barycentric_eval_binary_at(zeta: &Fr, bits: &Vec<bool>, domains: &Domains) -> (r: Fr)
    ensures
        r@ == bitmask_at(bits@, domains.spec_log_size(), zeta@),
{
    let n = domains.size();
    let one = Fr::one();
    let z = square_times(zeta, domains.log_size()).sub(&one);
    let n_inv = inverse_or_zero(&Fr::from_u64(n as u64));
    let w = generator(domains.log_size());
    let mut x = Fr::one();
    let mut acc = Fr::zero();
    let mut i: usize = 0;
    proof {
        assert(bits@.take(0) =~= Seq::<bool>::empty());
    }
    while i < bits.len()
        invariant
            i <= bits.len(),
            w@ == root_of_unity(domains.spec_log_size()),
            x@ == domain_element(domains.spec_log_size(), i as nat),
            acc@ == barycentric_sum(bits@.take(i as int), domains.spec_log_size(), zeta@),
        decreases bits.len() - i,
    {
        proof {
            assert(bits@.take(i + 1).drop_last() =~= bits@.take(i as int));
        }
        if bits[i] {
            acc = acc.add(&x.mul(&inverse_or_zero(&zeta.sub(&x))));
        }
        x = w.mul(&x);
        i = i + 1;
    }
    proof {
        assert(bits@.take(bits.len() as int) =~= bits@);
    }
    z.mul(&n_inv).mul(&acc)
}

} // verus!
