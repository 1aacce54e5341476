//! The packed protocol: the bitmask is committed to, and the verifier checks
//! the commitment against the public bitmask by one inner product.
//!
//! The bits are taken in chunks of `w` bits. With a challenge `r` that is
//! drawn after the commitment to the bitmask, the `i`-th bit gets the
//! coefficient `a_i = r^(i / w) * 2^(i % w)`, so that the inner product of the
//! bits and the coefficients is the sum of the chunks, read as numbers, times
//! the powers of `r`. One register holds the coefficients and one the partial
//! inner products; their constraints are
//!
//! ```text
//! a(w X) - a(X) * m(X) - (1 - r^(n/w)) * L_last(X)
//! s(w X) - s(X) - b(X) * a(X) + sum * L_last(X)
//! ```
//!
//! where `m` is 2 on every row but the last of a chunk, on which it is
//! `r / 2^(w-1)`.
use vstd::prelude::*;
use vstd::arithmetic::power2::pow2;
use crate::bitmask::Bitmask;
use crate::constraints::{lemma_on_domain, rotate_left, rotated};
use crate::domains::{amplified, domain_element, fitted, interpolation, Domains};
use crate::field::{
    congruent, fadd, fmul, fpow, fsub, lemma_congruent_add, lemma_congruent_equal,
    lemma_congruent_mul, lemma_congruent_sub, lemma_congruent_zero, lemma_fadd_congruent,
    lemma_field_ops_bounded, lemma_fmul_congruent, lemma_fmul_one, lemma_fmul_zero,
    lemma_fpow_bounded, lemma_fsub_congruent, modulus, values, Fr,
};
use crate::keyset::Keyset;
use crate::piop::affine_addition::{
    unit, unit_vector, AdditionValues, AffineAdditionEvaluations, AffineAdditionRegisters,
    EvaluationValues,
};
use crate::piop::basic::randomize;
use crate::piop::{ProverProtocol, RegisterEvaluations};
use crate::poly::{
    combination, evaluate, lemma_combination_len, lemma_max_len_bounds, poly_eval, polys_values,
    powers,
};
use crate::public_input::AccountablePublicInput;
use crate::utils::{finv_or_zero, inverse_or_zero};

verus! {

/// The most bits that a chunk of the bitmask holds.
pub const BITS_IN_CHUNK: usize = 256;

/// The number of bits in a chunk for a domain of `n` elements: the chunks
/// hold 256 bits, and all the bits where there are fewer.
pub open spec fn chunk_width(n: nat) -> nat {
    if n < BITS_IN_CHUNK {
        n
    } else {
        BITS_IN_CHUNK as nat
    }
}

/// The coefficient of the `i`-th bit: `r^(i / w) * 2^(i % w)`.
pub open spec fn packing_coefficient(r: nat, w: nat, i: nat) -> nat {
    fmul(fpow(r, i / w), fpow(2, i % w))
}

/// The field element that the `i`-th bit stands for; the bitmask is filled up
/// with zeros.
pub open spec fn bit_at(bits: Seq<bool>, i: nat) -> nat {
    if i < bits.len() && bits[i as int] {
        1
    } else {
        0
    }
}

/// The inner product of the first `i` bits and their coefficients.
pub open spec fn packed_sum(bits: Seq<bool>, r: nat, w: nat, i: nat) -> nat
    decreases i,
{
    if i == 0 {
        0
    } else {
        fadd(
            packed_sum(bits, r, w, (i - 1) as nat),
            fmul(bit_at(bits, (i - 1) as nat), packing_coefficient(r, w, (i - 1) as nat)),
        )
    }
}

/// The factor that takes a chunk's last coefficient to the first of the next
/// chunk: `r / 2^(w-1)`.
pub open spec fn chunk_step(r: nat, w: nat) -> nat {
    fmul(r, finv_or_zero(fpow(2, (w - 1) as nat)))
}

/// The factor from the coefficient of row `i` to that of the next row.
pub open spec fn multiplier(r: nat, w: nat, i: nat) -> nat {
    if i % w == w - 1 {
        chunk_step(r, w)
    } else {
        2
    }
}

/// Whether row `i` is the last of its chunk, for each of `n` rows.
pub open spec fn chunk_ends(n: nat, w: nat) -> Seq<bool> {
    Seq::new(n, |i: int| i % (w as int) == w - 1)
}

/// The values of the constraint of the coefficients, row by row.
pub open spec fn coefficient_constraint_values(
    shifted: Seq<nat>,
    coefficients: Seq<nat>,
    multipliers: Seq<nat>,
    l_last: Seq<nat>,
    wrap: nat,
) -> Seq<nat> {
    Seq::new(
        coefficients.len(),
        |j: int|
            fsub(fsub(shifted[j], fmul(coefficients[j], multipliers[j])), fmul(wrap, l_last[j])),
    )
}

/// The values of the constraint of the partial inner products, row by row.
pub open spec fn sum_constraint_values(
    shifted: Seq<nat>,
    sums: Seq<nat>,
    bitmask: Seq<nat>,
    coefficients: Seq<nat>,
    l_last: Seq<nat>,
    total: nat,
) -> Seq<nat> {
    Seq::new(
        sums.len(),
        |j: int|
            fadd(
                fsub(fsub(shifted[j], sums[j]), fmul(bitmask[j], coefficients[j])),
                fmul(total, l_last[j]),
            ),
    )
}

/// What is left of the constraint of the coefficients at the point once the
/// term in the moved-on coefficients is taken out.
pub open spec fn coefficient_constraint_rest(
    coefficient: nat,
    multiplier: nat,
    l_last: nat,
    wrap: nat,
) -> nat {
    fsub(fsub(0, fmul(coefficient, multiplier)), fmul(wrap, l_last))
}

/// What is left of the constraint of the partial inner products at the point
/// once the term in the moved-on sums is taken out.
pub open spec fn sum_constraint_rest(
    sum: nat,
    bitmask: nat,
    coefficient: nat,
    l_last: nat,
    total: nat,
) -> nat {
    fadd(fsub(fsub(0, sum), fmul(bitmask, coefficient)), fmul(total, l_last))
}

/// Every power of two has a multiplicative inverse in the field, as two is
/// the inverse of half the modulus rounded up.
pub proof fn lemma_power_of_two_is_invertible(k: nat)
    ensures
        fmul(fpow(2, k), finv_or_zero(fpow(2, k))) == 1,
{
    let half = ((modulus() + 1) / 2) as nat;
    assert(fmul(2, half) == 1) by {
        reveal(fmul);
    }
    lemma_inverse_of_power(2, half, k);
    lemma_fpow_bounded(half, k);
    let x = fpow(2, k);
    let witness = fpow(half, k);
    assert(witness < modulus() && fmul(x, witness) == 1);
    if x == 0 {
        lemma_fmul_zero(witness);
    }
}

/// The powers of an inverse are the inverses of the powers.
proof fn lemma_inverse_of_power(x: nat, y: nat, k: nat)
    requires
        fmul(x, y) == 1,
    ensures
        fmul(fpow(x, k), fpow(y, k)) == 1,
    decreases k,
{
    if k == 0 {
        lemma_fmul_one(1);
    } else {
        let a = fpow(x, (k - 1) as nat);
        let b = fpow(y, (k - 1) as nat);
        lemma_inverse_of_power(x, y, (k - 1) as nat);
        // (x * a) * (y * b) stands for (x * y) * (a * b)
        lemma_fmul_congruent(x, a);
        lemma_fmul_congruent(y, b);
        lemma_fmul_congruent(fmul(x, a), fmul(y, b));
        lemma_congruent_mul(fmul(x, a) as int, (x * a) as int, fmul(y, b) as int, (y * b) as int);
        lemma_fmul_congruent(x, y);
        lemma_fmul_congruent(a, b);
        lemma_congruent_mul((x * y) as int, 1, (a * b) as int, 1);
        assert((x * a) * (y * b) == (x * y) * (a * b)) by (nonlinear_arith);
        lemma_field_ops_bounded(fmul(x, a), fmul(y, b));
        vstd::arithmetic::div_mod::lemma_small_mod(1, modulus());
        lemma_congruent_equal(fmul(fmul(x, a), fmul(y, b)), 1);
    }
}

/// The constraint of the coefficients holds on every row: within a chunk the
/// next coefficient is twice the coefficient, from one chunk to the next it
/// is the next power of `r`, and from the last row to the first it is one.
pub proof fn lemma_coefficient_row_is_satisfied(r: nat, n: nat, w: nat, i: nat)
    requires
        i < n,
        1 <= w <= n,
        n % w == 0,
    ensures
        fsub(
            fsub(
                packing_coefficient(r, w, (i + 1) % n),
                fmul(packing_coefficient(r, w, i), multiplier(r, w, i)),
            ),
            fmul(fsub(1, fpow(r, n / w)), unit_vector((n - 1) as nat, n)[i as int]),
        ) == 0,
{
    let q = i / w;
    let t = i % w;
    let rq = fpow(r, q);
    let a = packing_coefficient(r, w, i);
    let m = multiplier(r, w, i);
    let next = packing_coefficient(r, w, (i + 1) % n);
    let wrap = fsub(1, fpow(r, n / w));
    let e = unit_vector((n - 1) as nat, n)[i as int];
    vstd::arithmetic::div_mod::lemma_fundamental_div_mod(i as int, w as int);
    vstd::arithmetic::div_mod::lemma_fundamental_div_mod(n as int, w as int);
    assert(i == w * q + t);
    lemma_fmul_congruent(rq, fpow(2, t));
    lemma_fmul_congruent(a, m);
    lemma_congruent_mul(a as int, (rq * fpow(2, t)) as int, m as int, m as int);
    lemma_fsub_congruent(next, fmul(a, m));
    lemma_fmul_congruent(wrap, e);
    lemma_fsub_congruent(fsub(next, fmul(a, m)), fmul(wrap, e));
    lemma_field_ops_bounded(fsub(next, fmul(a, m)), fmul(wrap, e));
    if t + 1 < w {
        // within a chunk
        assert(i + 1 < n) by {
            if i + 1 == n {
                vstd::arithmetic::div_mod::lemma_fundamental_div_mod_converse(
                    n as int,
                    w as int,
                    q as int,
                    (t + 1) as int,
                );
            }
        }
        vstd::arithmetic::div_mod::lemma_small_mod(i + 1, n);
        assert(w * q == q * w) by (nonlinear_arith);
        vstd::arithmetic::div_mod::lemma_fundamental_div_mod_converse(
            (i + 1) as int,
            w as int,
            q as int,
            (t + 1) as int,
        );
        assert(next == fmul(rq, fpow(2, t + 1)));
        assert(fpow(2, t + 1) == fmul(2, fpow(2, t)));
        assert(m == 2);
        assert(e == 0);
        lemma_fmul_congruent(2, fpow(2, t));
        lemma_fmul_congruent(rq, fpow(2, t + 1));
        lemma_congruent_mul(
            rq as int,
            rq as int,
            fpow(2, t + 1) as int,
            (2 * fpow(2, t)) as int,
        );
        assert(rq * (2 * fpow(2, t)) == (rq * fpow(2, t)) * 2) by (nonlinear_arith);
        lemma_congruent_sub(
            next as int,
            ((rq * fpow(2, t)) * 2) as int,
            fmul(a, m) as int,
            ((rq * fpow(2, t)) * m) as int,
        );
        assert(wrap * 0 == 0) by (nonlinear_arith);
        lemma_congruent_sub(fsub(next, fmul(a, m)) as int, 0, fmul(wrap, e) as int, 0);
        lemma_congruent_zero(fsub(fsub(next, fmul(a, m)), fmul(wrap, e)));
    } else {
        // the last row of a chunk
        let two = fpow(2, (w - 1) as nat);
        let inv = finv_or_zero(two);
        lemma_power_of_two_is_invertible((w - 1) as nat);
        assert(t == w - 1);
        assert(m == fmul(r, inv));
        lemma_fmul_congruent(r, inv);
        lemma_fmul_congruent(two, inv);
        // a * m stands for r * r^q
        lemma_congruent_mul(
            (rq * two) as int,
            (rq * two) as int,
            m as int,
            (r * inv) as int,
        );
        assert((rq * two) * (r * inv) == (r * rq) * (two * inv)) by (nonlinear_arith);
        lemma_congruent_mul((r * rq) as int, (r * rq) as int, (two * inv) as int, 1);
        assert(congruent(fmul(a, m) as int, (r * rq) as int));
        lemma_fmul_congruent(r, rq);
        assert(fpow(r, q + 1) == fmul(r, rq));
        if i + 1 < n {
            vstd::arithmetic::div_mod::lemma_small_mod(i + 1, n);
            assert((q + 1) * w == q * w + w) by (nonlinear_arith);
            assert(w * q == q * w) by (nonlinear_arith);
            vstd::arithmetic::div_mod::lemma_fundamental_div_mod_converse(
                (i + 1) as int,
                w as int,
                (q + 1) as int,
                0,
            );
            assert(next == fmul(fpow(r, q + 1), fpow(2, 0)));
            lemma_fpow_bounded(r, q + 1);
            lemma_fmul_one(fpow(r, q + 1));
            assert(next == fmul(r, rq));
            assert(e == 0);
            lemma_congruent_sub(
                next as int,
                (r * rq) as int,
                fmul(a, m) as int,
                (r * rq) as int,
            );
            assert(wrap * 0 == 0) by (nonlinear_arith);
            lemma_congruent_sub(fsub(next, fmul(a, m)) as int, 0, fmul(wrap, e) as int, 0);
            lemma_congruent_zero(fsub(fsub(next, fmul(a, m)), fmul(wrap, e)));
        } else {
            // the last row of the domain
            vstd::arithmetic::div_mod::lemma_mod_self_0(n as int);
            vstd::arithmetic::div_mod::lemma_small_mod(0, w);
            vstd::arithmetic::div_mod::lemma_div_basics(w as int);
            assert(0nat / w == 0 && 0nat % w == 0) by {
                vstd::arithmetic::div_mod::lemma_fundamental_div_mod_converse(0, w as int, 0, 0);
            }
            assert(next == fmul(fpow(r, 0), fpow(2, 0)));
            lemma_fmul_one(1);
            assert(next == 1);
            assert(e == 1);
            assert((q + 1) * w == q * w + w) by (nonlinear_arith);
            assert(w * q == q * w) by (nonlinear_arith);
            vstd::arithmetic::div_mod::lemma_fundamental_div_mod_converse(
                n as int,
                w as int,
                (q + 1) as int,
                0,
            );
            assert(n / w == q + 1);
            lemma_fsub_congruent(1, fpow(r, q + 1));
            lemma_congruent_sub(1, 1, fpow(r, q + 1) as int, (r * rq) as int);
            lemma_congruent_mul(wrap as int, 1 - r * rq, 1, 1);
            lemma_congruent_sub(1, 1, fmul(a, m) as int, (r * rq) as int);
            lemma_congruent_sub(
                fsub(next, fmul(a, m)) as int,
                1 - r * rq,
                fmul(wrap, e) as int,
                (1 - r * rq) * 1,
            );
            assert((1 - r * rq) - (1 - r * rq) * 1 == 0) by (nonlinear_arith);
            lemma_congruent_zero(fsub(fsub(next, fmul(a, m)), fmul(wrap, e)));
        }
    }
}

/// The constraint of the partial inner products holds on every row: on all
/// but the last the next sum is the sum plus the bit's coefficient where the
/// bit is set, and from the last row to the first the sum falls from the
/// total to zero.
pub proof fn lemma_sum_row_is_satisfied(bits: Seq<bool>, r: nat, n: nat, w: nat, i: nat)
    requires
        i < n,
    ensures
        fadd(
            fsub(
                fsub(packed_sum(bits, r, w, (i + 1) % n), packed_sum(bits, r, w, i)),
                fmul(bit_at(bits, i), packing_coefficient(r, w, i)),
            ),
            fmul(packed_sum(bits, r, w, n), unit_vector((n - 1) as nat, n)[i as int]),
        ) == 0,
{
    let s = packed_sum(bits, r, w, i);
    let next = packed_sum(bits, r, w, (i + 1) % n);
    let term = fmul(bit_at(bits, i), packing_coefficient(r, w, i));
    let total = packed_sum(bits, r, w, n);
    let e = unit_vector((n - 1) as nat, n)[i as int];
    let after = packed_sum(bits, r, w, i + 1);
    assert(after == fadd(s, term));
    lemma_fadd_congruent(s, term);
    lemma_fsub_congruent(next, s);
    lemma_fsub_congruent(fsub(next, s), term);
    lemma_fmul_congruent(total, e);
    lemma_fadd_congruent(fsub(fsub(next, s), term), fmul(total, e));
    lemma_field_ops_bounded(fsub(fsub(next, s), term), fmul(total, e));
    if i + 1 < n {
        vstd::arithmetic::div_mod::lemma_small_mod(i + 1, n);
        lemma_congruent_sub(next as int, (s + term) as int, s as int, s as int);
        lemma_congruent_sub(fsub(next, s) as int, s + term - s, term as int, term as int);
        assert(total * 0 == 0) by (nonlinear_arith);
        lemma_congruent_add(fsub(fsub(next, s), term) as int, 0, fmul(total, e) as int, 0);
    } else {
        vstd::arithmetic::div_mod::lemma_mod_self_0(n as int);
        assert(next == 0);
        assert(total == after);
        lemma_congruent_sub(0, 0, s as int, s as int);
        lemma_congruent_sub(fsub(next, s) as int, 0 - s, term as int, term as int);
        lemma_congruent_mul(total as int, (s + term) as int, 1, 1);
        lemma_congruent_add(
            fsub(fsub(next, s), term) as int,
            0 - s - term,
            fmul(total, e) as int,
            ((s + term) * 1) as int,
        );
        assert(0 - s - term + (s + term) * 1 == 0) by (nonlinear_arith);
    }
    lemma_congruent_zero(fadd(fsub(fsub(next, s), term), fmul(total, e)));
}

/// The registers of the second round, as plain numbers.
pub struct PackingValues {
    /// The coefficients of the bits, row by row.
    pub coefficients: Seq<nat>,
    /// The partial inner products, row by row.
    pub sums: Seq<nat>,
    /// The factors from each row's coefficient to the next.
    pub multipliers: Seq<nat>,
    /// The inner product of all the bits and their coefficients.
    pub total: nat,
    /// What the constraint of the coefficients is off by on the last row:
    /// `1 - r^(n/w)`.
    pub wrap: nat,
}

/// The registers of the second round for a bitmask and a challenge.
pub open spec fn packing_values(log_n: nat, bits: Seq<bool>, r: nat) -> PackingValues {
    let n = pow2(log_n);
    let w = chunk_width(n);
    PackingValues {
        coefficients: Seq::new(n, |i: int| packing_coefficient(r, w, i as nat)),
        sums: Seq::new(n, |i: int| packed_sum(bits, r, w, i as nat)),
        multipliers: Seq::new(n, |i: int| multiplier(r, w, i as nat)),
        total: packed_sum(bits, r, w, n),
        wrap: fsub(1, fpow(r, n / w)),
    }
}

impl AdditionValues {
    /// The registers of the second round.
    pub open spec fn packing(self, r: nat) -> PackingValues {
        packing_values(self.log_n, self.bits, r)
    }

    /// The polynomial of the coefficients.
    pub open spec fn coefficients_polynomial(self, r: nat) -> Seq<nat> {
        interpolation(self.log_n, fitted(self.packing(r).coefficients, pow2(self.log_n)))
    }

    /// The polynomial of the partial inner products.
    pub open spec fn sums_polynomial(self, r: nat) -> Seq<nat> {
        interpolation(self.log_n, fitted(self.packing(r).sums, pow2(self.log_n)))
    }

    /// The constraint polynomial of the coefficients.
    pub open spec fn coefficient_constraint_polynomial(self, r: nat) -> Seq<nat> {
        let p = self.packing(r);
        interpolation(
            self.log_n + 2,
            coefficient_constraint_values(
                amplified(self.log_n, rotated(p.coefficients)),
                amplified(self.log_n, p.coefficients),
                amplified(self.log_n, p.multipliers),
                self.l_last_x4(),
                p.wrap,
            ),
        )
    }

    /// The constraint polynomial of the partial inner products.
    pub open spec fn sum_constraint_polynomial(self, r: nat) -> Seq<nat> {
        let p = self.packing(r);
        interpolation(
            self.log_n + 2,
            sum_constraint_values(
                amplified(self.log_n, rotated(p.sums)),
                amplified(self.log_n, p.sums),
                self.registers.bitmask,
                amplified(self.log_n, p.coefficients),
                self.l_last_x4(),
                p.total,
            ),
        )
    }
}

/// The registers of the second round.
pub struct BitmaskPackingRegisters {
    pub coefficients: Vec<Fr>,
    pub sums: Vec<Fr>,
    pub multipliers: Vec<Fr>,
    pub total: Fr,
    pub wrap: Fr,
}

impl View for BitmaskPackingRegisters {
    type V = PackingValues;

    open spec fn view(&self) -> PackingValues {
        PackingValues {
            coefficients: values(self.coefficients@),
            sums: values(self.sums@),
            multipliers: values(self.multipliers@),
            total: self.total@,
            wrap: self.wrap@,
        }
    }
}

/// The number of bits in a chunk for the domain.
pub fn chunk_width_of(domains: &Domains) -> (r: usize)
    ensures
        r == chunk_width(domains.spec_size()),
        1 <= r <= domains.spec_size(),
        domains.spec_size() % (r as nat) == 0,
{
    let n = domains.size();
    let log_n = domains.log_size();
    proof {
        vstd::arithmetic::power2::lemma_pow2_pos(domains.spec_log_size());
        vstd::arithmetic::power2::lemma2_to64();
        if n >= BITS_IN_CHUNK {
            if log_n < 8 {
                vstd::arithmetic::power2::lemma_pow2_strictly_increases(log_n as nat, 8);
            }
            vstd::arithmetic::power2::lemma_pow2_adds(8, (log_n - 8) as nat);
            vstd::arithmetic::div_mod::lemma_mod_multiples_basic(
                pow2((log_n - 8) as nat) as int,
                256,
            );
            assert(pow2(8) * pow2((log_n - 8) as nat) == pow2((log_n - 8) as nat) * 256)
                by (nonlinear_arith)
                requires
                    pow2(8) == 256,
            ;
        } else {
            vstd::arithmetic::div_mod::lemma_mod_self_0(n as int);
        }
    }
    if n < BITS_IN_CHUNK {
        n
    } else {
        BITS_IN_CHUNK
    }
}

impl BitmaskPackingRegisters {
    /// The registers of the second round for a bitmask and a challenge.
    pub fn new(domains: &Domains, bits: &Vec<bool>, r: &Fr) -> (res: BitmaskPackingRegisters)
        ensures
            res@ == packing_values(domains.spec_log_size(), bits@, r@),
            res.coefficients.len() == domains.spec_size(),
            res.sums.len() == domains.spec_size(),
            res.multipliers.len() == domains.spec_size(),
    {
        let n = domains.size();
        let w = chunk_width_of(domains);
        let two = Fr::from_u64(2);
        let step = r.mul(&inverse_or_zero(&two.pow((w - 1) as u64)));
        let mut coefficients: Vec<Fr> = Vec::new();
        let mut sums: Vec<Fr> = Vec::new();
        let mut multipliers: Vec<Fr> = Vec::new();
        let mut sum = Fr::zero();
        let mut chunk_power = Fr::one();
        let mut bit_power = Fr::one();
        let mut chunk: usize = 0;
        let mut t: usize = 0;
        let mut i: usize = 0;
        while i < n
            invariant
                i <= n,
                1 <= w,
                t < w,
                i == chunk * w + t,
                two@ == 2,
                step@ == chunk_step(r@, w as nat),
                chunk_power@ == fpow(r@, chunk as nat),
                bit_power@ == fpow(2, t as nat),
                sum@ == packed_sum(bits@, r@, w as nat, i as nat),
                coefficients.len() == i,
                sums.len() == i,
                multipliers.len() == i,
                forall|j: int|
                    0 <= j < i ==> coefficients@[j]@ == packing_coefficient(r@, w as nat, j as nat),
                forall|j: int| 0 <= j < i ==> sums@[j]@ == packed_sum(bits@, r@, w as nat, j as nat),
                forall|j: int| 0 <= j < i ==> multipliers@[j]@ == multiplier(r@, w as nat, j as nat),
            decreases n - i,
        {
            proof {
                vstd::arithmetic::div_mod::lemma_fundamental_div_mod_converse(
                    i as int,
                    w as int,
                    chunk as int,
                    t as int,
                );
            }
            let a = chunk_power.mul(&bit_power);
            coefficients.push(a);
            sums.push(sum);
            let bit = if i < bits.len() && bits[i] {
                Fr::one()
            } else {
                Fr::zero()
            };
            sum = sum.add(&bit.mul(&a));
            if t + 1 == w {
                multipliers.push(step);
                chunk_power = r.mul(&chunk_power);
                bit_power = Fr::one();
                assert((chunk + 1) * w == chunk * w + w) by (nonlinear_arith);
                chunk = chunk + 1;
                t = 0;
            } else {
                multipliers.push(two);
                bit_power = two.mul(&bit_power);
                t = t + 1;
            }
            i = i + 1;
        }
        proof {
            assert(n as nat % (w as nat) == 0);
            vstd::arithmetic::div_mod::lemma_fundamental_div_mod_converse(
                n as int,
                w as int,
                chunk as int,
                t as int,
            );
        }
        let wrap = Fr::one().sub(&chunk_power);
        let res = BitmaskPackingRegisters { coefficients, sums, multipliers, total: sum, wrap };
        proof {
            let p = packing_values(domains.spec_log_size(), bits@, r@);
            assert(res@.coefficients =~= p.coefficients);
            assert(res@.sums =~= p.sums);
            assert(res@.multipliers =~= p.multipliers);
        }
        res
    }
}

/// Whether each of the rows of the domain is the last of its chunk.
pub fn compute_chunk_ends(domains: &Domains) -> (r: Vec<bool>)
    ensures
        r@ == chunk_ends(domains.spec_size(), chunk_width(domains.spec_size())),
{
    let n = domains.size();
    let w = chunk_width_of(domains);
    let mut r: Vec<bool> = Vec::new();
    let mut chunk: usize = 0;
    let mut t: usize = 0;
    let mut i: usize = 0;
    while i < n
        invariant
            i <= n,
            1 <= w,
            t < w,
            i == chunk * w + t,
            r.len() == i,
            forall|j: int| 0 <= j < i ==> r@[j] == (j % (w as int) == w - 1),
        decreases n - i,
    {
        proof {
            vstd::arithmetic::div_mod::lemma_fundamental_div_mod_converse(
                i as int,
                w as int,
                chunk as int,
                t as int,
            );
        }
        r.push(t + 1 == w);
        if t + 1 == w {
            assert((chunk + 1) * w == chunk * w + w) by (nonlinear_arith);
            chunk = chunk + 1;
            t = 0;
        } else {
            t = t + 1;
        }
        i = i + 1;
    }
    proof {
        assert(r@ =~= chunk_ends(domains.spec_size(), chunk_width(domains.spec_size())));
    }
    r
}

/// The values of the constraint of the coefficients, row by row.
fn compute_coefficient_constraint_values(
    shifted: &Vec<Fr>,
    coefficients: &Vec<Fr>,
    multipliers: &Vec<Fr>,
    l_last: &Vec<Fr>,
    wrap: &Fr,
) -> (r: Vec<Fr>)
    requires
        shifted.len() == coefficients.len(),
        multipliers.len() == coefficients.len(),
        l_last.len() == coefficients.len(),
    ensures
        values(r@) == coefficient_constraint_values(
            values(shifted@),
            values(coefficients@),
            values(multipliers@),
            values(l_last@),
            wrap@,
        ),
        r.len() == coefficients.len(),
{
    let mut r: Vec<Fr> = Vec::new();
    let mut j: usize = 0;
    while j < coefficients.len()
        invariant
            j <= coefficients.len(),
            shifted.len() == coefficients.len(),
            multipliers.len() == coefficients.len(),
            l_last.len() == coefficients.len(),
            r.len() == j,
            forall|t: int|
                0 <= t < j ==> r@[t]@ == coefficient_constraint_values(
                    values(shifted@),
                    values(coefficients@),
                    values(multipliers@),
                    values(l_last@),
                    wrap@,
                )[t],
        decreases coefficients.len() - j,
    {
        let v = shifted[j].sub(&coefficients[j].mul(&multipliers[j])).sub(&wrap.mul(&l_last[j]));
        r.push(v);
        j = j + 1;
    }
    proof {
        assert(values(r@) =~= coefficient_constraint_values(
            values(shifted@),
            values(coefficients@),
            values(multipliers@),
            values(l_last@),
            wrap@,
        ));
    }
    r
}

/// The values of the constraint of the partial inner products, row by row.
fn compute_sum_constraint_values(
    shifted: &Vec<Fr>,
    sums: &Vec<Fr>,
    bitmask: &Vec<Fr>,
    coefficients: &Vec<Fr>,
    l_last: &Vec<Fr>,
    total: &Fr,
) -> (r: Vec<Fr>)
    requires
        shifted.len() == sums.len(),
        bitmask.len() == sums.len(),
        coefficients.len() == sums.len(),
        l_last.len() == sums.len(),
    ensures
        values(r@) == sum_constraint_values(
            values(shifted@),
            values(sums@),
            values(bitmask@),
            values(coefficients@),
            values(l_last@),
            total@,
        ),
        r.len() == sums.len(),
{
    let mut r: Vec<Fr> = Vec::new();
    let mut j: usize = 0;
    while j < sums.len()
        invariant
            j <= sums.len(),
            shifted.len() == sums.len(),
            bitmask.len() == sums.len(),
            coefficients.len() == sums.len(),
            l_last.len() == sums.len(),
            r.len() == j,
            forall|t: int|
                0 <= t < j ==> r@[t]@ == sum_constraint_values(
                    values(shifted@),
                    values(sums@),
                    values(bitmask@),
                    values(coefficients@),
                    values(l_last@),
                    total@,
                )[t],
        decreases sums.len() - j,
    {
        let v = shifted[j].sub(&sums[j]).sub(&bitmask[j].mul(&coefficients[j])).add(
            &total.mul(&l_last[j]),
        );
        r.push(v);
        j = j + 1;
    }
    proof {
        assert(values(r@) =~= sum_constraint_values(
            values(shifted@),
            values(sums@),
            values(bitmask@),
            values(coefficients@),
            values(l_last@),
            total@,
        ));
    }
    r
}

/// The values that a proof of the packed protocol discloses.
#[derive(Clone, Copy, Debug)]
pub struct SuccinctAccountableRegisterEvaluations {
    pub c: Fr,
    pub acc: Fr,
    pub basic_evaluations: AffineAdditionEvaluations,
}

/// The disclosed values in the order in which the registers are opened.
pub open spec fn packed_values(e: EvaluationValues, c: nat, acc: nat) -> Seq<nat> {
    seq![e.keyset.0, e.keyset.1, e.partial_sums.0, e.partial_sums.1, e.bitmask, c, acc]
}

impl RegisterEvaluations for SuccinctAccountableRegisterEvaluations {
    open spec fn spec_vec(&self) -> Seq<nat> {
        packed_values(self.basic_evaluations@, self.c@, self.acc@)
    }

    fn as_vec(&self) -> (r: Vec<Fr>) {
        let mut r: Vec<Fr> = Vec::new();
        r.push(self.basic_evaluations.keyset.0);
        r.push(self.basic_evaluations.keyset.1);
        r.push(self.basic_evaluations.partial_sums.0);
        r.push(self.basic_evaluations.partial_sums.1);
        r.push(self.basic_evaluations.bitmask);
        r.push(self.c);
        r.push(self.acc);
        proof {
            assert(values(r@) =~= self.spec_vec());
        }
        r
    }
}

/// Builds the registers of the packed protocol.
pub struct PackedRegisterBuilder {
    affine_addition_registers: AffineAdditionRegisters,
}

impl PackedRegisterBuilder {
    /// The polynomials of the first round: those of the partial sums and
    /// that of the bitmask.
    pub fn get_1st_round_register_polynomials(&self) -> (r: Vec<Vec<Fr>>)
        ensures
            polys_values(r@) == Self::spec_commit1(self.state()),
            r.len() == 3,
            forall|i: int| 0 <= i < r.len() ==> (#[trigger] r@[i]).len() <= pow2(self.state().log_n),
    {
        let partial_sums = self.affine_addition_registers.partial_sums_polynomials();
        let mut r: Vec<Vec<Fr>> = Vec::new();
        r.push(partial_sums.0);
        r.push(partial_sums.1);
        r.push(self.affine_addition_registers.bitmask_polynomial());
        proof {
            assert(polys_values(r@) =~= Self::spec_commit1(self.state()));
        }
        r
    }

    /// The polynomials of the second round, for the challenge that the
    /// bitmask is packed with: that of the coefficients and that of the
    /// partial inner products.
    pub fn get_2nd_round_register_polynomials(
        &self,
        bitmask_chunks_aggregation_challenge: &Fr,
    ) -> (r: Vec<Vec<Fr>>)
        ensures
            polys_values(r@) == Self::spec_commit2(
                self.state(),
                bitmask_chunks_aggregation_challenge@,
            ),
            r.len() == 2,
            forall|i: int| 0 <= i < r.len() ==> (#[trigger] r@[i]).len() <= pow2(self.state().log_n),
    {
        let polys = self.packing_polynomials(bitmask_chunks_aggregation_challenge);
        let mut r: Vec<Vec<Fr>> = Vec::new();
        r.push(polys.0);
        r.push(polys.1);
        proof {
            assert(polys_values(r@) =~= Self::spec_commit2(
                self.state(),
                bitmask_chunks_aggregation_challenge@,
            ));
        }
        r
    }

    /// All the register polynomials, in the order in which they are opened.
    pub fn get_all_register_polynomials(&self, bitmask_chunks_aggregation_challenge: &Fr) -> (r:
        Vec<Vec<Fr>>)
        ensures
            polys_values(r@) == Self::spec_open(
                self.state(),
                bitmask_chunks_aggregation_challenge@,
            ),
            r.len() == 7,
            forall|i: int| 0 <= i < r.len() ==> (#[trigger] r@[i]).len() <= pow2(self.state().log_n),
    {
        let keyset = self.affine_addition_registers.keyset_polynomials();
        let partial_sums = self.affine_addition_registers.partial_sums_polynomials();
        let polys = self.packing_polynomials(bitmask_chunks_aggregation_challenge);
        let mut r: Vec<Vec<Fr>> = Vec::new();
        r.push(keyset.0);
        r.push(keyset.1);
        r.push(partial_sums.0);
        r.push(partial_sums.1);
        r.push(self.affine_addition_registers.bitmask_polynomial());
        r.push(polys.0);
        r.push(polys.1);
        proof {
            assert(polys_values(r@) =~= Self::spec_open(
                self.state(),
                bitmask_chunks_aggregation_challenge@,
            ));
        }
        r
    }

    /// The two polynomials of the second round.
    fn packing_polynomials(&self, r: &Fr) -> (res: (Vec<Fr>, Vec<Fr>))
        ensures
            values(res.0@) == self.state().coefficients_polynomial(r@),
            values(res.1@) == self.state().sums_polynomial(r@),
            res.0.len() == pow2(self.state().log_n),
            res.1.len() == pow2(self.state().log_n),
    {
        let domains = self.affine_addition_registers.domains();
        let packing = BitmaskPackingRegisters::new(
            &domains,
            self.affine_addition_registers.bits(),
            r,
        );
        (domains.interpolate(&packing.coefficients), domains.interpolate(&packing.sums))
    }
}

impl ProverProtocol for PackedRegisterBuilder {
    type E = SuccinctAccountableRegisterEvaluations;

    type PI = AccountablePublicInput;

    closed spec fn state(&self) -> AdditionValues {
        self.affine_addition_registers@
    }

    open spec fn spec_commit1(s: AdditionValues) -> Seq<Seq<nat>> {
        seq![s.polys.partial_sums.0, s.polys.partial_sums.1, s.polys.bitmask]
    }

    open spec fn spec_commit2(s: AdditionValues, challenge: nat) -> Seq<Seq<nat>> {
        seq![s.coefficients_polynomial(challenge), s.sums_polynomial(challenge)]
    }

    open spec fn spec_open(s: AdditionValues, challenge: nat) -> Seq<Seq<nat>> {
        seq![
            s.polys.keyset.0,
            s.polys.keyset.1,
            s.polys.partial_sums.0,
            s.polys.partial_sums.1,
            s.polys.bitmask,
            s.coefficients_polynomial(challenge),
            s.sums_polynomial(challenge),
        ]
    }

    open spec fn spec_constraints(s: AdditionValues, challenge: nat) -> Seq<Seq<nat>> {
        s.constraint_polynomials().push(s.coefficient_constraint_polynomial(challenge)).push(
            s.sum_constraint_polynomial(challenge),
        )
    }

    open spec fn spec_evaluations(s: AdditionValues, challenge: nat, zeta: nat) -> Seq<nat> {
        packed_values(
            s.evaluations_at(zeta),
            poly_eval(s.coefficients_polynomial(challenge), zeta),
            poly_eval(s.sums_polynomial(challenge), zeta),
        )
    }

    open spec fn spec_linearization(s: AdditionValues, challenge: nat, phi: nat, zeta: nat) -> Seq<
        nat,
    > {
        combination(
            s.linearization_parts(zeta).push(s.coefficients_polynomial(challenge)).push(
                s.sums_polynomial(challenge),
            ),
            powers(phi, 7),
        )
    }

    fn init(domains: Domains, bitmask: Bitmask, keyset: Keyset) -> (r: Self) {
        let bits = bitmask.to_bits();
        PackedRegisterBuilder {
            affine_addition_registers: AffineAdditionRegisters::new(&keyset, &bits),
        }
    }

    fn get_register_polynomials_to_commit1(&self) -> (r: Vec<Vec<Fr>>) {
        self.get_1st_round_register_polynomials()
    }

    fn get_register_polynomials_to_commit2(&self, verifier_challenge: &Fr) -> (r: Vec<Vec<Fr>>) {
        self.get_2nd_round_register_polynomials(verifier_challenge)
    }

    fn get_register_polynomials_to_open(&self, verifier_challenge: &Fr) -> (r: Vec<Vec<Fr>>) {
        self.get_all_register_polynomials(verifier_challenge)
    }

    fn compute_constraint_polynomials(&self, verifier_challenge: &Fr) -> (r: Vec<Vec<Fr>>) {
        proof {
            vstd::arithmetic::power2::lemma_pow2_pos(self.state().log_n);
        }
        let domains = self.affine_addition_registers.domains();
        let n = domains.size();
        let mut r = self.affine_addition_registers.compute_constraint_polynomials();
        let ghost shared = polys_values(r@);
        let packing = BitmaskPackingRegisters::new(
            &domains,
            self.affine_addition_registers.bits(),
            verifier_challenge,
        );
        let c_x4 = domains.amplify(&packing.coefficients);
        let c_shifted_x4 = domains.amplify(&rotate_left(&packing.coefficients));
        let m_x4 = domains.amplify(&packing.multipliers);
        let s_x4 = domains.amplify(&packing.sums);
        let s_shifted_x4 = domains.amplify(&rotate_left(&packing.sums));
        let l_last = domains.amplify(&unit(n - 1, n));
        let v6 = compute_coefficient_constraint_values(
            &c_shifted_x4,
            &c_x4,
            &m_x4,
            &l_last,
            &packing.wrap,
        );
        let v7 = compute_sum_constraint_values(
            &s_shifted_x4,
            &s_x4,
            self.affine_addition_registers.registers().bitmask(),
            &c_x4,
            &l_last,
            &packing.total,
        );
        let a6 = domains.interpolate_4x(&v6);
        let a7 = domains.interpolate_4x(&v7);
        let log_n = domains.log_size();
        let w = chunk_width_of(&domains);
        let bits = self.affine_addition_registers.bits();
        let shared_registers = self.affine_addition_registers.registers();
        let registers_domains = shared_registers.domains();
        proof {
            let k = domains.spec_log_size();
            let challenge = verifier_challenge@;
            assert forall|i: nat| i < pow2(k) implies poly_eval(
                values(a6@),
                #[trigger] domain_element(k, i),
            ) == 0 && poly_eval(values(a7@), domain_element(k, i)) == 0 by {
                lemma_on_domain(k, values(a6@), i);
                lemma_on_domain(k, values(a7@), i);
                lemma_coefficient_row_is_satisfied(challenge, n as nat, w as nat, i);
                lemma_sum_row_is_satisfied(bits@, challenge, n as nat, w as nat, i);
                let j = 4 * (i as int);
                assert(c_x4@[j]@ == fitted(packing@.coefficients, n as nat)[i as int]);
                assert(c_shifted_x4@[j]@ == fitted(rotated(packing@.coefficients), n as nat)[
                    i as int
                ]);
                assert(m_x4@[j]@ == fitted(packing@.multipliers, n as nat)[i as int]);
                assert(s_x4@[j]@ == fitted(packing@.sums, n as nat)[i as int]);
                assert(s_shifted_x4@[j]@ == fitted(rotated(packing@.sums), n as nat)[i as int]);
                assert(l_last@[j]@ == fitted(unit_vector((n - 1) as nat, n as nat), n as nat)[
                    i as int
                ]);
                assert(shared_registers@.bitmask[j] == shared_registers.base().bitmask[i as int]);
            }
        }
        r.push(a6);
        r.push(a7);
        proof {
            assert(polys_values(r@) =~= shared.push(
                self.state().coefficient_constraint_polynomial(verifier_challenge@),
            ).push(self.state().sum_constraint_polynomial(verifier_challenge@)));
        }
        r
    }

    fn evaluate_register_polynomials(&self, verifier_challenge: &Fr, point: &Fr) -> (r: Self::E) {
        let polys = self.packing_polynomials(verifier_challenge);
        SuccinctAccountableRegisterEvaluations {
            c: evaluate(&polys.0, point),
            acc: evaluate(&polys.1, point),
            basic_evaluations: self.affine_addition_registers.evaluate_register_polynomials(point),
        }
    }

    fn compute_linearization_polynomial(&self, verifier_challenge: &Fr, phi: &Fr, zeta: &Fr) -> (r:
        Vec<Fr>) {
        let mut parts = self.affine_addition_registers.compute_constraints_linearized(zeta);
        let ghost shared = polys_values(parts@);
        let polys = self.packing_polynomials(verifier_challenge);
        parts.push(polys.0);
        parts.push(polys.1);
        proof {
            assert(polys_values(parts@) =~= shared.push(
                self.state().coefficients_polynomial(verifier_challenge@),
            ).push(self.state().sums_polynomial(verifier_challenge@)));
        }
        let r = randomize(phi, &parts);
        proof {
            lemma_max_len_bounds(polys_values(parts@), pow2(self.state().log_n));
            lemma_combination_len(polys_values(parts@), powers(phi@, 7));
            assert(values(r@).len() == r.len());
        }
        r
    }
}

} // verus!
