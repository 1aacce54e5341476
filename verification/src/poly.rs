//! Polynomials over the scalar field, in coefficient form.
//!
//! A polynomial is the sequence of its coefficients, the constant term first.
use vstd::prelude::*;
use crate::field::{
    congruent, fadd, fmul, fpow, fsub, lemma_congruent_add, lemma_congruent_equal,
    lemma_congruent_mul, lemma_congruent_sub, lemma_fadd_congruent, lemma_field_ops_bounded,
    lemma_fmul_congruent, lemma_fsub_congruent, values, Fr,
};

verus! {

/// The value at `x` of the polynomial with coefficients `c`.
pub open spec fn poly_eval(c: Seq<nat>, x: nat) -> nat
    decreases c.len(),
{
    if c.len() == 0 {
        0
    } else {
        fadd(c[0], fmul(x, poly_eval(c.skip(1), x)))
    }
}

/// The degree of the polynomial with coefficients `c`: the index of the last
/// coefficient that is not zero, and zero for the zero polynomial.
pub open spec fn degree(c: Seq<nat>) -> nat
    decreases c.len(),
{
    if c.len() == 0 {
        0
    } else if c.last() != 0 {
        (c.len() - 1) as nat
    } else {
        degree(c.drop_last())
    }
}

/// The degree is below the number of coefficients.
pub proof fn lemma_degree_bounded(c: Seq<nat>)
    ensures
        degree(c) < c.len() || (degree(c) == 0 && c.len() == 0),
    decreases c.len(),
{
    if c.len() > 0 && c.last() == 0 {
        lemma_degree_bounded(c.drop_last());
    }
}

/// The degree of a polynomial.
pub fn degree_of(coeffs: &Vec<Fr>) -> (r: usize)
    ensures
        r == degree(values(coeffs@)),
{
    let mut i: usize = coeffs.len();
    proof {
        assert(values(coeffs@).take(i as int) =~= values(coeffs@));
    }
    while i > 0
        invariant
            i <= coeffs.len(),
            degree(values(coeffs@)) == degree(values(coeffs@).take(i as int)),
        decreases i,
    {
        if !coeffs[i - 1].is_zero() {
            return i - 1;
        }
        proof {
            assert(values(coeffs@).take(i as int).drop_last() =~= values(coeffs@).take(i - 1));
        }
        i = i - 1;
    }
    0
}

/// Evaluates the polynomial with the given coefficients at `point`.
pub fn evaluate(coeffs: &Vec<Fr>, point: &Fr) -> (r: Fr)
    ensures
        r@ == poly_eval(values(coeffs@), point@),
{
    let mut acc = Fr::zero();
    let mut i: usize = coeffs.len();
    assert(values(coeffs@).skip(i as int) =~= Seq::<nat>::empty());
    while i > 0
        invariant
            i <= coeffs.len(),
            acc@ == poly_eval(values(coeffs@).skip(i as int), point@),
        decreases i,
    {
        i = i - 1;
        let t = point.mul(&acc);
        acc = coeffs[i].add(&t);
        proof {
            let s = values(coeffs@).skip(i as int);
            assert(s.skip(1) =~= values(coeffs@).skip(i + 1));
            assert(s[0] == coeffs@[i as int]@);
        }
    }
    assert(values(coeffs@).skip(0) =~= values(coeffs@));
    acc
}

/// The `i`-th coefficient of a polynomial, zero beyond its last one.
pub open spec fn coeff(p: Seq<nat>, i: int) -> nat {
    if 0 <= i < p.len() {
        p[i]
    } else {
        0
    }
}

/// The sum of two polynomials.
pub open spec fn poly_sum(a: Seq<nat>, b: Seq<nat>) -> Seq<nat> {
    Seq::new(
        if a.len() >= b.len() {
            a.len()
        } else {
            b.len()
        },
        |i: int| fadd(coeff(a, i), coeff(b, i)),
    )
}

/// The polynomial `p` with every coefficient multiplied by `c`.
pub open spec fn poly_scaled(c: nat, p: Seq<nat>) -> Seq<nat> {
    Seq::new(p.len(), |i: int| fmul(c, p[i]))
}

/// The product `(X - a) * p`.
pub open spec fn poly_times_linear(p: Seq<nat>, a: nat) -> Seq<nat> {
    Seq::new(p.len() + 1, |i: int| fsub(coeff(p, i - 1), fmul(a, coeff(p, i))))
}

/// The value of a polynomial stands for its constant term plus `x` times the
/// value of the polynomial of the other terms.
proof fn lemma_poly_eval_congruent(c: Seq<nat>, x: nat)
    requires
        c.len() > 0,
    ensures
        congruent(poly_eval(c, x) as int, (c[0] + x * poly_eval(c.skip(1), x)) as int),
{
    let rest = poly_eval(c.skip(1), x);
    lemma_fmul_congruent(x, rest);
    lemma_fadd_congruent(c[0], fmul(x, rest));
    lemma_congruent_add(c[0] as int, c[0] as int, fmul(x, rest) as int, (x * rest) as int);
}

/// The value of `(X - a) * p` at `x` stands for `x - a` times the value of
/// `p`.
proof fn lemma_times_linear_congruent(p: Seq<nat>, a: nat, x: nat)
    ensures
        congruent(poly_eval(poly_times_linear(p, a), x) as int, (x - a) * poly_eval(p, x)),
    decreases p.len(),
{
    let q = poly_times_linear(p, a);
    lemma_poly_eval_congruent(q, x);
    if p.len() == 0 {
        assert(q.skip(1) =~= Seq::<nat>::empty());
        lemma_fmul_congruent(a, 0);
        lemma_fsub_congruent(0, fmul(a, 0));
        lemma_congruent_sub(0, 0, fmul(a, 0) as int, 0);
        assert((x - a) * 0 == 0) by (nonlinear_arith);
        assert(x * 0 == 0) by (nonlinear_arith);
    } else {
        let tail = p.skip(1);
        let p0 = p[0];
        let c1 = coeff(p, 1);
        let r = q.skip(1);
        let t = poly_times_linear(tail, a);
        let e = poly_eval(tail, x) as int;
        lemma_times_linear_congruent(tail, a, x);
        assert(coeff(tail, 0) == c1);
        assert(r.skip(1) =~= t.skip(1)) by {
            assert forall|i: int| 0 <= i < r.skip(1).len() implies r.skip(1)[i] == t.skip(1)[i] by {
                assert(coeff(tail, i) == coeff(p, i + 1));
                assert(coeff(tail, i + 1) == coeff(p, i + 2));
            }
        }
        let shared = x * poly_eval(r.skip(1), x);
        lemma_poly_eval_congruent(r, x);
        lemma_poly_eval_congruent(t, x);
        // the first coefficients of the two differ by p0
        lemma_fmul_congruent(a, c1);
        lemma_fsub_congruent(p0, fmul(a, c1));
        lemma_congruent_sub(p0 as int, p0 as int, fmul(a, c1) as int, (a * c1) as int);
        lemma_fsub_congruent(0, fmul(a, c1));
        lemma_congruent_sub(0, 0, fmul(a, c1) as int, (a * c1) as int);
        lemma_congruent_add(r[0] as int, p0 - a * c1, shared as int, shared as int);
        lemma_congruent_add(t[0] as int, 0 - a * c1, shared as int, shared as int);
        // so the value of r stands for that of t plus p0
        lemma_congruent_add(
            (0 - a * c1) + shared,
            poly_eval(t, x) as int,
            p0 as int,
            p0 as int,
        );
        assert(congruent(poly_eval(r, x) as int, (x - a) * e + p0)) by {
            lemma_congruent_add(poly_eval(t, x) as int, (x - a) * e, p0 as int, p0 as int);
        }
        // the value of q
        lemma_fmul_congruent(a, p0);
        lemma_fsub_congruent(0, fmul(a, p0));
        lemma_congruent_sub(0, 0, fmul(a, p0) as int, (a * p0) as int);
        lemma_congruent_mul(x as int, x as int, poly_eval(r, x) as int, (x - a) * e + p0);
        lemma_congruent_add(
            q[0] as int,
            0 - a * p0,
            (x * poly_eval(r, x)) as int,
            x * ((x - a) * e + p0),
        );
        // the value of p
        lemma_poly_eval_congruent(p, x);
        lemma_congruent_mul(x - a, x - a, poly_eval(p, x) as int, p0 + x * e);
        assert((0 - a * p0) + x * ((x - a) * e + p0) == (x - a) * (p0 + x * e))
            by (nonlinear_arith);
    }
}

/// The value of `(X - a) * p` at `x` is `x - a` times the value of `p`.
pub proof fn lemma_times_linear_eval(p: Seq<nat>, a: nat, x: nat)
    ensures
        poly_eval(poly_times_linear(p, a), x) == fmul(fsub(x, a), poly_eval(p, x)),
{
    lemma_times_linear_congruent(p, a, x);
    lemma_fsub_congruent(x, a);
    lemma_fmul_congruent(fsub(x, a), poly_eval(p, x));
    lemma_congruent_mul(
        fsub(x, a) as int,
        x - a,
        poly_eval(p, x) as int,
        poly_eval(p, x) as int,
    );
    let q = poly_times_linear(p, a);
    lemma_field_ops_bounded(q[0], fmul(x, poly_eval(q.skip(1), x)));
    lemma_field_ops_bounded(fsub(x, a), poly_eval(p, x));
    lemma_congruent_equal(poly_eval(q, x), fmul(fsub(x, a), poly_eval(p, x)));
}

/// A polynomial without its constant term, divided by `X`.
pub open spec fn shifted_down(p: Seq<nat>) -> Seq<nat> {
    if p.len() == 0 {
        p
    } else {
        p.skip(1)
    }
}

/// The value of a polynomial stands for its constant term, zero for the
/// empty polynomial, plus `x` times the value of the other terms.
proof fn lemma_poly_eval_unfolds(p: Seq<nat>, x: nat)
    ensures
        congruent(
            poly_eval(p, x) as int,
            (coeff(p, 0) + x * poly_eval(shifted_down(p), x)) as int,
        ),
{
    if p.len() == 0 {
        assert(x * 0 == 0) by (nonlinear_arith);
    } else {
        lemma_poly_eval_congruent(p, x);
    }
}

/// The value of a sum of polynomials stands for the sum of their values.
proof fn lemma_poly_sum_congruent(a: Seq<nat>, b: Seq<nat>, x: nat)
    ensures
        congruent(poly_eval(poly_sum(a, b), x) as int, (poly_eval(a, x) + poly_eval(b, x)) as int),
    decreases a.len() + b.len(),
{
    let s = poly_sum(a, b);
    if s.len() > 0 {
        let a1 = shifted_down(a);
        let b1 = shifted_down(b);
        assert(s.skip(1) =~= poly_sum(a1, b1)) by {
            assert forall|i: int| 0 <= i < s.skip(1).len() implies s.skip(1)[i] == poly_sum(
                a1,
                b1,
            )[i] by {
                assert(coeff(a1, i) == coeff(a, i + 1));
                assert(coeff(b1, i) == coeff(b, i + 1));
            }
        }
        lemma_poly_sum_congruent(a1, b1, x);
        lemma_poly_eval_congruent(s, x);
        lemma_poly_eval_unfolds(a, x);
        lemma_poly_eval_unfolds(b, x);
        let ea = poly_eval(a1, x) as int;
        let eb = poly_eval(b1, x) as int;
        lemma_fadd_congruent(coeff(a, 0), coeff(b, 0));
        lemma_congruent_mul(
            x as int,
            x as int,
            poly_eval(poly_sum(a1, b1), x) as int,
            ea + eb,
        );
        lemma_congruent_add(
            s[0] as int,
            (coeff(a, 0) + coeff(b, 0)) as int,
            (x * poly_eval(s.skip(1), x)) as int,
            x * (ea + eb),
        );
        lemma_congruent_add(
            poly_eval(a, x) as int,
            coeff(a, 0) + x * ea,
            poly_eval(b, x) as int,
            coeff(b, 0) + x * eb,
        );
        assert((coeff(a, 0) + coeff(b, 0)) + x * (ea + eb) == (coeff(a, 0) + x * ea) + (coeff(b, 0)
            + x * eb)) by (nonlinear_arith);
    }
}

/// The value of a multiple of a polynomial stands for the multiple of its
/// value.
proof fn lemma_poly_scaled_congruent(c: nat, p: Seq<nat>, x: nat)
    ensures
        congruent(poly_eval(poly_scaled(c, p), x) as int, (c * poly_eval(p, x)) as int),
    decreases p.len(),
{
    let s = poly_scaled(c, p);
    if p.len() == 0 {
        assert(c * 0 == 0) by (nonlinear_arith);
    } else {
        let rest = p.skip(1);
        assert(s.skip(1) =~= poly_scaled(c, rest));
        lemma_poly_scaled_congruent(c, rest, x);
        lemma_poly_eval_congruent(s, x);
        lemma_poly_eval_congruent(p, x);
        let e = poly_eval(rest, x) as int;
        lemma_fmul_congruent(c, p[0]);
        lemma_congruent_mul(x as int, x as int, poly_eval(poly_scaled(c, rest), x) as int, c * e);
        lemma_congruent_add(
            s[0] as int,
            (c * p[0]) as int,
            (x * poly_eval(s.skip(1), x)) as int,
            x * (c * e),
        );
        lemma_congruent_mul(c as int, c as int, poly_eval(p, x) as int, p[0] + x * e);
        assert(c * p[0] + x * (c * e) == c * (p[0] + x * e)) by (nonlinear_arith);
    }
}

/// The value of a polynomial is below the modulus.
pub proof fn lemma_poly_eval_bounded(p: Seq<nat>, x: nat)
    ensures
        poly_eval(p, x) < crate::field::modulus(),
{
    if p.len() > 0 {
        lemma_field_ops_bounded(p[0], fmul(x, poly_eval(p.skip(1), x)));
    }
}

/// The value of a sum of polynomials is the sum of their values.
pub proof fn lemma_poly_sum_eval(a: Seq<nat>, b: Seq<nat>, x: nat)
    ensures
        poly_eval(poly_sum(a, b), x) == fadd(poly_eval(a, x), poly_eval(b, x)),
{
    lemma_poly_sum_congruent(a, b, x);
    lemma_fadd_congruent(poly_eval(a, x), poly_eval(b, x));
    lemma_poly_eval_bounded(poly_sum(a, b), x);
    lemma_field_ops_bounded(poly_eval(a, x), poly_eval(b, x));
    lemma_congruent_equal(poly_eval(poly_sum(a, b), x), fadd(poly_eval(a, x), poly_eval(b, x)));
}

/// The value of a multiple of a polynomial is the multiple of its value.
pub proof fn lemma_poly_scaled_eval(c: nat, p: Seq<nat>, x: nat)
    ensures
        poly_eval(poly_scaled(c, p), x) == fmul(c, poly_eval(p, x)),
{
    lemma_poly_scaled_congruent(c, p, x);
    lemma_fmul_congruent(c, poly_eval(p, x));
    lemma_poly_eval_bounded(poly_scaled(c, p), x);
    lemma_field_ops_bounded(c, poly_eval(p, x));
    lemma_congruent_equal(poly_eval(poly_scaled(c, p), x), fmul(c, poly_eval(p, x)));
}

/// A combination of polynomials that vanish at `x` vanishes at `x`.
pub proof fn lemma_combination_vanishes_at(polys: Seq<Seq<nat>>, coeffs: Seq<nat>, x: nat)
    requires
        forall|k: int| 0 <= k < polys.len() ==> poly_eval(#[trigger] polys[k], x) == 0,
    ensures
        poly_eval(combination(polys, coeffs), x) == 0,
    decreases polys.len(),
{
    if polys.len() > 0 {
        let init = polys.drop_last();
        assert forall|k: int| 0 <= k < init.len() implies poly_eval(#[trigger] init[k], x)
            == 0 by {
            assert(init[k] == polys[k]);
        }
        lemma_combination_vanishes_at(init, coeffs.drop_last(), x);
        assert(polys.last() == polys[polys.len() - 1]);
        lemma_poly_scaled_eval(coeffs.last(), polys.last(), x);
        lemma_poly_sum_eval(
            combination(init, coeffs.drop_last()),
            poly_scaled(coeffs.last(), polys.last()),
            x,
        );
        crate::field::lemma_fmul_zero(coeffs.last());
        crate::field::lemma_fadd_zero();
    }
}

/// The sum of the polynomials, each multiplied by its coefficient, taken from
/// the first on.
pub open spec fn combination(polys: Seq<Seq<nat>>, coeffs: Seq<nat>) -> Seq<nat>
    decreases polys.len(),
{
    if polys.len() == 0 {
        Seq::empty()
    } else {
        poly_sum(
            combination(polys.drop_last(), coeffs.drop_last()),
            poly_scaled(coeffs.last(), polys.last()),
        )
    }
}

/// The sum of the values, each multiplied by its coefficient, taken from the
/// first on.
pub open spec fn inner_product(vals: Seq<nat>, coeffs: Seq<nat>) -> nat
    decreases vals.len(),
{
    if vals.len() == 0 {
        0
    } else {
        fadd(
            inner_product(vals.drop_last(), coeffs.drop_last()),
            fmul(coeffs.last(), vals.last()),
        )
    }
}

/// The first `n` powers of `x`, from `x^0` on.
pub open spec fn powers(x: nat, n: nat) -> Seq<nat> {
    Seq::new(n, |i: int| fpow(x, i as nat))
}

/// The coefficient sequences of a sequence of polynomials.
pub open spec fn polys_values(s: Seq<Vec<Fr>>) -> Seq<Seq<nat>> {
    s.map_values(|v: Vec<Fr>| values(v@))
}

/// The largest number of coefficients among the polynomials.
pub open spec fn max_len(polys: Seq<Seq<nat>>) -> nat
    decreases polys.len(),
{
    if polys.len() == 0 {
        0
    } else {
        let rest = max_len(polys.drop_last());
        if rest >= polys.last().len() {
            rest
        } else {
            polys.last().len()
        }
    }
}

/// A combination has as many coefficients as the longest of the polynomials.
pub proof fn lemma_combination_len(polys: Seq<Seq<nat>>, coeffs: Seq<nat>)
    ensures
        combination(polys, coeffs).len() == max_len(polys),
    decreases polys.len(),
{
    if polys.len() > 0 {
        lemma_combination_len(polys.drop_last(), coeffs.drop_last());
    }
}

/// No polynomial is longer than the longest.
pub proof fn lemma_max_len_bounds(polys: Seq<Seq<nat>>, bound: nat)
    requires
        forall|i: int| 0 <= i < polys.len() ==> (#[trigger] polys[i]).len() <= bound,
    ensures
        max_len(polys) <= bound,
    decreases polys.len(),
{
    if polys.len() > 0 {
        assert forall|i: int| 0 <= i < polys.drop_last().len() implies (#[trigger] polys.drop_last()[i]).len()
            <= bound by {
            assert(polys.drop_last()[i] == polys[i]);
        }
        lemma_max_len_bounds(polys.drop_last(), bound);
        assert(polys.last() == polys[polys.len() - 1]);
    }
}

/// The sum of two polynomials.
pub fn sum(a: &Vec<Fr>, b: &Vec<Fr>) -> (r: Vec<Fr>)
    ensures
        values(r@) == poly_sum(values(a@), values(b@)),
{
    let n = if a.len() >= b.len() {
        a.len()
    } else {
        b.len()
    };
    let mut r: Vec<Fr> = Vec::new();
    let mut i: usize = 0;
    while i < n
        invariant
            i <= n,
            n == if a.len() >= b.len() {
                a.len()
            } else {
                b.len()
            },
            r.len() == i,
            forall|j: int| 0 <= j < i ==> r@[j]@ == poly_sum(values(a@), values(b@))[j],
        decreases n - i,
    {
        let x = if i < a.len() {
            a[i]
        } else {
            Fr::zero()
        };
        let y = if i < b.len() {
            b[i]
        } else {
            Fr::zero()
        };
        r.push(x.add(&y));
        i = i + 1;
    }
    proof {
        assert(values(r@) =~= poly_sum(values(a@), values(b@)));
    }
    r
}

/// The polynomial `p` with every coefficient multiplied by `c`.
pub fn scale(c: &Fr, p: &Vec<Fr>) -> (r: Vec<Fr>)
    ensures
        values(r@) == poly_scaled(c@, values(p@)),
{
    let mut r: Vec<Fr> = Vec::new();
    let mut i: usize = 0;
    while i < p.len()
        invariant
            i <= p.len(),
            r.len() == i,
            forall|j: int| 0 <= j < i ==> r@[j]@ == fmul(c@, p@[j]@),
        decreases p.len() - i,
    {
        r.push(c.mul(&p[i]));
        i = i + 1;
    }
    proof {
        assert(values(r@) =~= poly_scaled(c@, values(p@)));
    }
    r
}

/// The product `(X - a) * p`.
pub fn times_linear(p: &Vec<Fr>, a: &Fr) -> (r: Vec<Fr>)
    requires
        p.len() < usize::MAX,
    ensures
        values(r@) == poly_times_linear(values(p@), a@),
{
    let n = p.len() + 1;
    let mut r: Vec<Fr> = Vec::new();
    let mut i: usize = 0;
    while i < n
        invariant
            i <= n,
            n == p.len() + 1,
            r.len() == i,
            forall|j: int| 0 <= j < i ==> r@[j]@ == poly_times_linear(values(p@), a@)[j],
        decreases n - i,
    {
        let lower = if i >= 1 {
            p[i - 1]
        } else {
            Fr::zero()
        };
        let upper = if i < p.len() {
            p[i]
        } else {
            Fr::zero()
        };
        r.push(lower.sub(&a.mul(&upper)));
        i = i + 1;
    }
    proof {
        assert(values(r@) =~= poly_times_linear(values(p@), a@));
    }
    r
}

/// The first `n` powers of `x`, from `x^0` on.
pub fn powers_of(x: &Fr, n: usize) -> (r: Vec<Fr>)
    ensures
        values(r@) == powers(x@, n as nat),
        r.len() == n,
{
    let mut r: Vec<Fr> = Vec::new();
    let mut acc = Fr::one();
    let mut i: usize = 0;
    while i < n
        invariant
            i <= n,
            r.len() == i,
            acc@ == fpow(x@, i as nat),
            forall|j: int| 0 <= j < i ==> r@[j]@ == fpow(x@, j as nat),
        decreases n - i,
    {
        r.push(acc);
        acc = x.mul(&acc);
        i = i + 1;
    }
    proof {
        assert(values(r@) =~= powers(x@, n as nat));
    }
    r
}

/// The sum of the polynomials, each multiplied by its coefficient.
pub fn sum_with_coeffs(polys: &Vec<Vec<Fr>>, coeffs: &Vec<Fr>) -> (r: Vec<Fr>)
    requires
        polys.len() == coeffs.len(),
    ensures
        values(r@) == combination(polys_values(polys@), values(coeffs@)),
{
    let mut r: Vec<Fr> = Vec::new();
    let mut i: usize = 0;
    proof {
        assert(polys_values(polys@).take(0) =~= Seq::<Seq<nat>>::empty());
        assert(values(r@) =~= Seq::<nat>::empty());
    }
    while i < polys.len()
        invariant
            i <= polys.len(),
            polys.len() == coeffs.len(),
            values(r@) == combination(
                polys_values(polys@).take(i as int),
                values(coeffs@).take(i as int),
            ),
        decreases polys.len() - i,
    {
        proof {
            assert(polys_values(polys@).take(i + 1).drop_last() =~= polys_values(polys@).take(
                i as int,
            ));
            assert(values(coeffs@).take(i + 1).drop_last() =~= values(coeffs@).take(i as int));
        }
        let t = scale(&coeffs[i], &polys[i]);
        r = sum(&r, &t);
        i = i + 1;
    }
    proof {
        assert(polys_values(polys@).take(polys.len() as int) =~= polys_values(polys@));
        assert(values(coeffs@).take(polys.len() as int) =~= values(coeffs@));
    }
    r
}

/// The sum of the values, each multiplied by its coefficient.
pub fn sum_values_with_coeffs(vals: &Vec<Fr>, coeffs: &Vec<Fr>) -> (r: Fr)
    requires
        vals.len() == coeffs.len(),
    ensures
        r@ == inner_product(values(vals@), values(coeffs@)),
{
    let mut r = Fr::zero();
    let mut i: usize = 0;
    proof {
        assert(values(vals@).take(0) =~= Seq::<nat>::empty());
    }
    while i < vals.len()
        invariant
            i <= vals.len(),
            vals.len() == coeffs.len(),
            r@ == inner_product(values(vals@).take(i as int), values(coeffs@).take(i as int)),
        decreases vals.len() - i,
    {
        proof {
            assert(values(vals@).take(i + 1).drop_last() =~= values(vals@).take(i as int));
            assert(values(coeffs@).take(i + 1).drop_last() =~= values(coeffs@).take(i as int));
        }
        r = r.add(&coeffs[i].mul(&vals[i]));
        i = i + 1;
    }
    proof {
        assert(values(vals@).take(vals.len() as int) =~= values(vals@));
        assert(values(coeffs@).take(vals.len() as int) =~= values(coeffs@));
    }
    r
}

} // verus!
