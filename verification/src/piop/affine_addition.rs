//! The registers that all three protocols share: the bitmask, the keys and
//! the partial sums of the aggregate, with their constraint polynomials, their
//! values at a point and the linearization of the constraints.
//!
//! The partial sums start at a point outside G1 and add the keys that the
//! bitmask selects one by one, so that the last of them is that point plus
//! the aggregate key. The two constraints of the addition hold on every row
//! but the last, and are multiplied by `X - w^(n-1)` for that. Two more
//! constraints tie the first and the last partial sum to the public input.
use vstd::prelude::*;
use vstd::arithmetic::power2::pow2;
use crate::bitmask::{bit_value, bit_values};
use crate::constraints::{
    booleanity, lemma_chord_satisfies_addition, lemma_idle_row_satisfies_addition,
    lemma_on_domain, rotate_left, rotated, xs, ys, Constraints, RegisterValues, Registers,
};
use crate::curve::{
    chord_applies, complement_point, g1_sum, on_chord, point_in_g1_complement, points,
    AffinePoint, G1Affine,
};
use crate::domains::{
    amplified, domain_element, evaluations, fitted, interpolation, vanishes_on_domain, Domains,
};
use crate::field::{
    fadd, fmul, fsub, lemma_fadd_zero, lemma_fmul_zero, lemma_fsub_self, values, Fr,
};
use crate::keyset::{padded_keys, Keyset};
use crate::poly::{
    evaluate, lemma_times_linear_eval, poly_eval, poly_scaled, poly_sum, poly_times_linear,
    polys_values, scale, sum, times_linear,
};
use crate::utils::{last_domain_element, LagrangeEvaluations, LagrangeValues};

verus! {

/// The `i`-th partial sum: the starting point plus the keys among the first
/// `i` that the bits select.
pub open spec fn partial_sum(pks: Seq<AffinePoint>, bits: Seq<bool>, i: nat) -> AffinePoint
    decreases i,
{
    if i == 0 {
        complement_point()
    } else {
        let prev = partial_sum(pks, bits, (i - 1) as nat);
        if i - 1 < pks.len() && i - 1 < bits.len() && bits[i - 1] {
            g1_sum(prev, pks[i - 1])
        } else {
            prev
        }
    }
}

/// The first `n` partial sums.
pub open spec fn partial_sums(pks: Seq<AffinePoint>, bits: Seq<bool>, n: nat) -> Seq<AffinePoint> {
    Seq::new(n, |i: int| partial_sum(pks, bits, i as nat))
}

/// The vector of `n` entries that is one at `i` and zero elsewhere.
pub open spec fn unit_vector(i: nat, n: nat) -> Seq<nat> {
    Seq::new(
        n,
        |j: int|
            if j == i {
                1nat
            } else {
                0nat
            },
    )
}

/// The values of a constraint that ties the first entry of a register to
/// `first` and its last entry to `last`, row by row:
/// `(col - first) * L_first + (col - last) * L_last`.
pub open spec fn public_input_values(
    col: Seq<nat>,
    l_first: Seq<nat>,
    l_last: Seq<nat>,
    first: nat,
    last: nat,
) -> Seq<nat> {
    Seq::new(
        col.len(),
        |j: int|
            fadd(fmul(fsub(col[j], first), l_first[j]), fmul(fsub(col[j], last), l_last[j])),
    )
}

/// The register polynomials, by their coefficients.
pub struct PolynomialValues {
    pub bitmask: Seq<nat>,
    pub keyset: (Seq<nat>, Seq<nat>),
    pub partial_sums: (Seq<nat>, Seq<nat>),
}

/// The values of the register polynomials at a point.
pub struct EvaluationValues {
    pub keyset: (nat, nat),
    pub bitmask: nat,
    pub partial_sums: (nat, nat),
}

/// What the shared registers hold, as plain numbers.
pub struct AdditionValues {
    /// The binary logarithm of the size of the domain.
    pub log_n: nat,
    /// The bits of the bitmask, one for each key of the set.
    pub bits: Seq<bool>,
    /// The register polynomials.
    pub polys: PolynomialValues,
    /// The registers over the domain, row by row.
    pub rows: RegisterValues,
    /// The registers over the larger domain.
    pub registers: RegisterValues,
    /// The last partial sum: the starting point plus the aggregate key.
    pub apk_plus_h: AffinePoint,
}

/// What the shared registers hold for a set of keys, given by its keys and
/// its two coordinate polynomials, and a bitmask.
pub open spec fn addition_values(
    log_n: nat,
    keyset_polys: (Seq<nat>, Seq<nat>),
    pks: Seq<AffinePoint>,
    bits: Seq<bool>,
) -> AdditionValues {
    let n = pow2(log_n);
    let acc = partial_sums(pks, bits, n);
    AdditionValues {
        log_n,
        bits,
        polys: PolynomialValues {
            bitmask: interpolation(log_n, fitted(bit_values(bits), n)),
            keyset: keyset_polys,
            partial_sums: (
                interpolation(log_n, fitted(xs(acc), n)),
                interpolation(log_n, fitted(ys(acc), n)),
            ),
        },
        rows: RegisterValues {
            bitmask: fitted(bit_values(bits), n),
            pks_x: xs(padded_keys(pks, n)),
            pks_y: ys(padded_keys(pks, n)),
            apk_acc_x: xs(acc),
            apk_acc_y: ys(acc),
            apk_acc_x_shifted: rotated(xs(acc)),
            apk_acc_y_shifted: rotated(ys(acc)),
        },
        registers: RegisterValues {
            bitmask: amplified(log_n, bit_values(bits)),
            pks_x: evaluations(log_n + 2, keyset_polys.0),
            pks_y: evaluations(log_n + 2, keyset_polys.1),
            apk_acc_x: amplified(log_n, xs(acc)),
            apk_acc_y: amplified(log_n, ys(acc)),
            apk_acc_x_shifted: amplified(log_n, rotated(xs(acc))),
            apk_acc_y_shifted: amplified(log_n, rotated(ys(acc))),
        },
        apk_plus_h: acc[n - 1],
    }
}

/// The coefficients with which the two polynomials of the partial sums enter
/// the linearization of one constraint.
pub struct LinearizationCoefficients {
    pub x: nat,
    pub y: nat,
}

impl EvaluationValues {
    /// The coefficients of the linearization of the first constraint of the
    /// addition: the terms of `C1` in the moved-on accumulator are
    /// `b * (x1 - x2)^2 * x3 + (1 - b) * y3`.
    pub open spec fn c1_coefficients(self, zeta_minus_last: nat) -> LinearizationCoefficients {
        let b = self.bitmask;
        let x1 = self.partial_sums.0;
        let x2 = self.keyset.0;
        LinearizationCoefficients {
            x: fmul(zeta_minus_last, fmul(b, fmul(fsub(x1, x2), fsub(x1, x2)))),
            y: fmul(zeta_minus_last, fsub(1, b)),
        }
    }

    /// The coefficients of the linearization of the second constraint of the
    /// addition: the terms of `C2` in the moved-on accumulator are
    /// `b * (x1 - x2) * y3 + ((1 - b) - b * (y2 - y1)) * x3`.
    pub open spec fn c2_coefficients(self, zeta_minus_last: nat) -> LinearizationCoefficients {
        let b = self.bitmask;
        let x1 = self.partial_sums.0;
        let y1 = self.partial_sums.1;
        let x2 = self.keyset.0;
        let y2 = self.keyset.1;
        LinearizationCoefficients {
            x: fmul(zeta_minus_last, fsub(fsub(1, b), fmul(b, fsub(y2, y1)))),
            y: fmul(zeta_minus_last, fmul(b, fsub(x1, x2))),
        }
    }

    /// What is left of `C1` at the point once the terms in the moved-on
    /// accumulator are taken out:
    /// `(zeta - w^(n-1)) * (b * ((x1 - x2)^2 * (x1 + x2) - (y2 - y1)^2) - (1 - b) * y1)`.
    pub open spec fn c1_rest(self, zeta_minus_last: nat) -> nat {
        let b = self.bitmask;
        let x1 = self.partial_sums.0;
        let y1 = self.partial_sums.1;
        let x2 = self.keyset.0;
        let y2 = self.keyset.1;
        fmul(
            zeta_minus_last,
            fsub(
                fmul(
                    b,
                    fsub(
                        fmul(fmul(fsub(x1, x2), fsub(x1, x2)), fadd(x1, x2)),
                        fmul(fsub(y2, y1), fsub(y2, y1)),
                    ),
                ),
                fmul(fsub(1, b), y1),
            ),
        )
    }

    /// What is left of `C2` at the point once the terms in the moved-on
    /// accumulator are taken out:
    /// `(zeta - w^(n-1)) * (b * ((x1 - x2) * y1 + (y2 - y1) * x1) - (1 - b) * x1)`.
    pub open spec fn c2_rest(self, zeta_minus_last: nat) -> nat {
        let b = self.bitmask;
        let x1 = self.partial_sums.0;
        let y1 = self.partial_sums.1;
        let x2 = self.keyset.0;
        let y2 = self.keyset.1;
        fmul(
            zeta_minus_last,
            fsub(
                fmul(b, fadd(fmul(fsub(x1, x2), y1), fmul(fsub(y2, y1), x1))),
                fmul(fsub(1, b), x1),
            ),
        )
    }

    /// The values at the point of the five constraints, without the terms in
    /// the moved-on accumulator, which the linearization polynomial carries.
    pub open spec fn constraint_values(
        self,
        apk_plus_h: AffinePoint,
        lagrange: LagrangeValues,
    ) -> Seq<nat> {
        let h = complement_point();
        let x1 = self.partial_sums.0;
        let y1 = self.partial_sums.1;
        seq![
            self.c1_rest(lagrange.zeta_minus_omega_inv),
            self.c2_rest(lagrange.zeta_minus_omega_inv),
            booleanity(self.bitmask),
            fadd(
                fmul(fsub(x1, h.x), lagrange.l_first),
                fmul(fsub(x1, apk_plus_h.x), lagrange.l_last),
            ),
            fadd(
                fmul(fsub(y1, h.y), lagrange.l_first),
                fmul(fsub(y1, apk_plus_h.y), lagrange.l_last),
            ),
        ]
    }
}

impl RegisterValues {
    /// Whether row `i` leaves the accumulator as it is, or adds to it a key
    /// that the chord rule applies to.
    pub open spec fn row_is_regular(self, i: int) -> bool {
        self.bitmask[i] == 0 || chord_applies(
            AffinePoint { x: self.apk_acc_x[i], y: self.apk_acc_y[i] },
            AffinePoint { x: self.pks_x[i], y: self.pks_y[i] },
        )
    }

    /// Whether the two constraints of the addition hold on row `i`.
    pub open spec fn row_is_satisfied(self, i: int) -> bool {
        self.c1_at(i) == 0 && self.c2_at(i) == 0
    }
}

impl AdditionValues {
    /// Whether every row but the last leaves the accumulator as it is or adds
    /// to it a key that the chord rule applies to: the partial sum and the
    /// key are not the identity and differ in their x-coordinates. The
    /// partial sums start outside the group of the keys for that.
    pub open spec fn is_regular(self) -> bool {
        forall|i: int| 0 <= i && i + 1 < pow2(self.log_n) ==> #[trigger] self.rows.row_is_regular(i)
    }

    /// The last element of the domain.
    pub open spec fn last_element(self) -> nat {
        domain_element(self.log_n, (pow2(self.log_n) - 1) as nat)
    }

    /// The Lagrange basis polynomial of the first element of the domain, over
    /// the larger domain.
    pub open spec fn l_first_x4(self) -> Seq<nat> {
        amplified(self.log_n, unit_vector(0, pow2(self.log_n)))
    }

    /// The Lagrange basis polynomial of the last element of the domain, over
    /// the larger domain.
    pub open spec fn l_last_x4(self) -> Seq<nat> {
        amplified(self.log_n, unit_vector((pow2(self.log_n) - 1) as nat, pow2(self.log_n)))
    }

    /// The five constraint polynomials: the two of the addition, each times
    /// `X - w^(n-1)`, the booleanity of the bitmask, and the two that tie the
    /// partial sums to the public input.
    pub open spec fn constraint_polynomials(self) -> Seq<Seq<nat>> {
        let h = complement_point();
        seq![
            poly_times_linear(
                interpolation(self.log_n + 2, self.registers.c1_values()),
                self.last_element(),
            ),
            poly_times_linear(
                interpolation(self.log_n + 2, self.registers.c2_values()),
                self.last_element(),
            ),
            interpolation(self.log_n + 2, self.registers.booleanity_values()),
            interpolation(
                self.log_n + 2,
                public_input_values(
                    self.registers.apk_acc_x,
                    self.l_first_x4(),
                    self.l_last_x4(),
                    h.x,
                    self.apk_plus_h.x,
                ),
            ),
            interpolation(
                self.log_n + 2,
                public_input_values(
                    self.registers.apk_acc_y,
                    self.l_first_x4(),
                    self.l_last_x4(),
                    h.y,
                    self.apk_plus_h.y,
                ),
            ),
        ]
    }

    /// The values of the register polynomials at `zeta`.
    pub open spec fn evaluations_at(self, zeta: nat) -> EvaluationValues {
        EvaluationValues {
            keyset: (poly_eval(self.polys.keyset.0, zeta), poly_eval(self.polys.keyset.1, zeta)),
            bitmask: poly_eval(self.polys.bitmask, zeta),
            partial_sums: (
                poly_eval(self.polys.partial_sums.0, zeta),
                poly_eval(self.polys.partial_sums.1, zeta),
            ),
        }
    }

    /// The two polynomials of the partial sums, combined with the given
    /// coefficients.
    pub open spec fn linearized(self, c: LinearizationCoefficients) -> Seq<nat> {
        poly_sum(
            poly_scaled(c.x, self.polys.partial_sums.0),
            poly_scaled(c.y, self.polys.partial_sums.1),
        )
    }

    /// The linearizations of the five constraints at `zeta`: polynomials
    /// whose values at `zeta * w` are the terms of the constraints in the
    /// moved-on accumulator. The last three constraints have no such terms.
    pub open spec fn linearization_parts(self, zeta: nat) -> Seq<Seq<nat>> {
        let e = self.evaluations_at(zeta);
        let d = fsub(zeta, self.last_element());
        seq![
            self.linearized(e.c1_coefficients(d)),
            self.linearized(e.c2_coefficients(d)),
            Seq::empty(),
            Seq::empty(),
            Seq::empty(),
        ]
    }
}

/// Whether each partial sum that adds a key which the chord rule applies to
/// is the sum by the chord rule.
pub open spec fn follows_chords(pks: Seq<AffinePoint>, bits: Seq<bool>, acc: Seq<AffinePoint>) -> bool {
    forall|i: int|
        0 <= i && i + 1 < acc.len() && i < pks.len() && i < bits.len() && bits[i] && chord_applies(
            acc[i],
            pks[i],
        ) ==> on_chord(
            acc[i].x,
            acc[i].y,
            pks[i].x,
            pks[i].y,
            (#[trigger] acc[i + 1]).x,
            acc[i + 1].y,
        )
}

/// On the rows of an accumulation, the bitmask holds bits only, and the two
/// constraints of the addition hold on every row but the last that leaves the
/// accumulator as it is or adds a key by the chord rule.
pub proof fn lemma_rows_are_satisfied(
    pks: Seq<AffinePoint>,
    bits: Seq<bool>,
    n: nat,
    acc: Seq<AffinePoint>,
    rows: RegisterValues,
)
    requires
        n >= 1,
        bits.len() == pks.len(),
        acc == partial_sums(pks, bits, n),
        follows_chords(pks, bits, acc),
        rows == (RegisterValues {
            bitmask: fitted(bit_values(bits), n),
            pks_x: xs(padded_keys(pks, n)),
            pks_y: ys(padded_keys(pks, n)),
            apk_acc_x: xs(acc),
            apk_acc_y: ys(acc),
            apk_acc_x_shifted: rotated(xs(acc)),
            apk_acc_y_shifted: rotated(ys(acc)),
        }),
    ensures
        rows.bitmask_is_boolean(),
        rows.apk_acc_x[0] == complement_point().x,
        rows.apk_acc_y[0] == complement_point().y,
        forall|i: int|
            0 <= i && i + 1 < n && #[trigger] rows.row_is_regular(i) ==> rows.row_is_satisfied(i),
{
    assert forall|i: int| 0 <= i && i + 1 < n && #[trigger] rows.row_is_regular(
        i,
    ) implies rows.row_is_satisfied(i) by {
        vstd::arithmetic::div_mod::lemma_small_mod((i + 1) as nat, n);
        assert(rows.apk_acc_x_shifted[i] == acc[i + 1].x);
        assert(rows.apk_acc_y_shifted[i] == acc[i + 1].y);
        assert(acc[i + 1] == partial_sum(pks, bits, (i + 1) as nat));
        assert(acc[i] == partial_sum(pks, bits, i as nat));
        if i < bits.len() && bits[i] {
            assert(rows.bitmask[i] == 1);
            assert(rows.pks_x[i] == pks[i].x && rows.pks_y[i] == pks[i].y);
            lemma_chord_satisfies_addition(
                acc[i].x,
                acc[i].y,
                pks[i].x,
                pks[i].y,
                acc[i + 1].x,
                acc[i + 1].y,
            );
        } else {
            assert(rows.bitmask[i] == 0);
            assert(acc[i + 1] == acc[i]);
            lemma_idle_row_satisfies_addition(acc[i].x, acc[i].y, rows.pks_x[i], rows.pks_y[i]);
        }
    }
}

/// A polynomial that vanishes on every element of the domain but the last
/// vanishes on the whole domain once it is multiplied by `X - w^(n-1)`.
pub proof fn lemma_excluding_the_last_row(log_n: nat, c: Seq<nat>, last: nat)
    requires
        last == domain_element(log_n, (pow2(log_n) - 1) as nat),
        forall|i: nat| i + 1 < pow2(log_n) ==> poly_eval(c, #[trigger] domain_element(log_n, i)) == 0,
    ensures
        vanishes_on_domain(log_n, poly_times_linear(c, last)),
{
    assert forall|i: nat| i < pow2(log_n) implies poly_eval(
        poly_times_linear(c, last),
        #[trigger] domain_element(log_n, i),
    ) == 0 by {
        let x = domain_element(log_n, i);
        lemma_times_linear_eval(c, last, x);
        if i + 1 < pow2(log_n) {
            lemma_fmul_zero(fsub(x, last));
        } else {
            lemma_fsub_self(x);
            lemma_fmul_zero(poly_eval(c, x));
        }
    }
}

/// The polynomial of a constraint that ties the first entry of a register to
/// `first` and its last entry to `last` vanishes on the domain where the
/// register has these entries.
pub proof fn lemma_public_input_vanishes(
    log_n: nat,
    rows: Seq<nat>,
    col: Seq<nat>,
    l_first: Seq<nat>,
    l_last: Seq<nat>,
    first: nat,
    last: nat,
    poly: Seq<nat>,
)
    requires
        log_n <= crate::domains::MAX_LOG_SIZE,
        rows.len() == pow2(log_n),
        col.len() == 4 * pow2(log_n),
        l_first.len() == col.len(),
        l_last.len() == col.len(),
        crate::constraints::embeds(col, rows),
        crate::constraints::embeds(l_first, unit_vector(0, pow2(log_n))),
        crate::constraints::embeds(l_last, unit_vector((pow2(log_n) - 1) as nat, pow2(log_n))),
        rows[0] == first,
        rows[pow2(log_n) - 1] == last,
        evaluations(log_n + 2, poly) == public_input_values(col, l_first, l_last, first, last),
    ensures
        vanishes_on_domain(log_n, poly),
{
    let n = pow2(log_n);
    assert forall|i: nat| i < n implies poly_eval(poly, #[trigger] domain_element(log_n, i))
        == 0 by {
        lemma_on_domain(log_n, poly, i);
        let j = 4 * (i as int);
        assert(col[j] == rows[i as int]);
        assert(l_first[j] == unit_vector(0, n)[i as int]);
        assert(l_last[j] == unit_vector((n - 1) as nat, n)[i as int]);
        assert(evaluations(log_n + 2, poly)[j] == fadd(
            fmul(fsub(col[j], first), l_first[j]),
            fmul(fsub(col[j], last), l_last[j]),
        ));
        lemma_fsub_self(first);
        lemma_fsub_self(last);
        lemma_fmul_zero(fsub(col[j], first));
        lemma_fmul_zero(fsub(col[j], last));
        lemma_fmul_zero(l_first[j]);
        lemma_fmul_zero(l_last[j]);
        lemma_fadd_zero();
    }
}

/// The first `n` partial sums of the keys that the bits select. Where the
/// chord rule applies, a sum is the chord's.
pub fn compute_partial_sums(pks: &Vec<G1Affine>, bits: &Vec<bool>, n: usize) -> (r: Vec<G1Affine>)
    ensures
        points(r@) == partial_sums(points(pks@), bits@, n as nat),
        r.len() == n,
        follows_chords(points(pks@), bits@, points(r@)),
{
    let mut r: Vec<G1Affine> = Vec::new();
    let mut acc = point_in_g1_complement();
    let mut i: usize = 0;
    while i < n
        invariant
            i <= n,
            r.len() == i,
            acc@ == partial_sum(points(pks@), bits@, i as nat),
            forall|j: int| 0 <= j < i ==> r@[j]@ == partial_sum(points(pks@), bits@, j as nat),
            forall|j: int|
                0 <= j && j < i && j < pks.len() && j < bits.len() && bits@[j] && chord_applies(
                    partial_sum(points(pks@), bits@, j as nat),
                    pks@[j]@,
                ) ==> on_chord(
                    partial_sum(points(pks@), bits@, j as nat).x,
                    partial_sum(points(pks@), bits@, j as nat).y,
                    pks@[j]@.x,
                    pks@[j]@.y,
                    (#[trigger] partial_sum(points(pks@), bits@, (j + 1) as nat)).x,
                    partial_sum(points(pks@), bits@, (j + 1) as nat).y,
                ),
        decreases n - i,
    {
        r.push(acc);
        if i < pks.len() && i < bits.len() && bits[i] {
            acc = acc.add(&pks[i]);
        }
        i = i + 1;
    }
    proof {
        assert(points(r@) =~= partial_sums(points(pks@), bits@, n as nat));
        assert forall|j: int|
            0 <= j && j + 1 < points(r@).len() && j < points(pks@).len() && j < bits@.len()
                && bits@[j] && chord_applies(points(r@)[j], points(pks@)[j]) implies on_chord(
            points(r@)[j].x,
            points(r@)[j].y,
            points(pks@)[j].x,
            points(pks@)[j].y,
            (#[trigger] points(r@)[j + 1]).x,
            points(r@)[j + 1].y,
        ) by {
            assert(points(r@)[j + 1] == partial_sum(points(pks@), bits@, (j + 1) as nat));
        }
    }
    r
}

/// The vector of `n` entries that is one at `i` and zero elsewhere.
pub fn unit(i: usize, n: usize) -> (r: Vec<Fr>)
    ensures
        values(r@) == unit_vector(i as nat, n as nat),
        r.len() == n,
{
    let mut r: Vec<Fr> = Vec::new();
    let mut j: usize = 0;
    while j < n
        invariant
            j <= n,
            r.len() == j,
            forall|t: int| 0 <= t < j ==> r@[t]@ == unit_vector(i as nat, n as nat)[t],
        decreases n - j,
    {
        if j == i {
            r.push(Fr::one());
        } else {
            r.push(Fr::zero());
        }
        j = j + 1;
    }
    proof {
        assert(values(r@) =~= unit_vector(i as nat, n as nat));
    }
    r
}

/// The values of a public input constraint, row by row.
fn compute_public_input_values(
    col: &Vec<Fr>,
    l_first: &Vec<Fr>,
    l_last: &Vec<Fr>,
    first: &Fr,
    last: &Fr,
) -> (r: Vec<Fr>)
    requires
        l_first.len() == col.len(),
        l_last.len() == col.len(),
    ensures
        values(r@) == public_input_values(
            values(col@),
            values(l_first@),
            values(l_last@),
            first@,
            last@,
        ),
        r.len() == col.len(),
{
    let mut r: Vec<Fr> = Vec::new();
    let mut j: usize = 0;
    while j < col.len()
        invariant
            j <= col.len(),
            l_first.len() == col.len(),
            l_last.len() == col.len(),
            r.len() == j,
            forall|t: int|
                0 <= t < j ==> r@[t]@ == public_input_values(
                    values(col@),
                    values(l_first@),
                    values(l_last@),
                    first@,
                    last@,
                )[t],
        decreases col.len() - j,
    {
        let v = col[j].sub(first).mul(&l_first[j]).add(&col[j].sub(last).mul(&l_last[j]));
        r.push(v);
        j = j + 1;
    }
    proof {
        assert(values(r@) =~= public_input_values(
            values(col@),
            values(l_first@),
            values(l_last@),
            first@,
            last@,
        ));
    }
    r
}

/// The values of the register polynomials at a point.
#[derive(Clone, Copy, Debug)]
pub struct AffineAdditionEvaluations {
    pub keyset: (Fr, Fr),
    pub bitmask: Fr,
    pub partial_sums: (Fr, Fr),
}

impl View for AffineAdditionEvaluations {
    type V = EvaluationValues;

    open spec fn view(&self) -> EvaluationValues {
        EvaluationValues {
            keyset: (self.keyset.0@, self.keyset.1@),
            bitmask: self.bitmask@,
            partial_sums: (self.partial_sums.0@, self.partial_sums.1@),
        }
    }
}

impl AffineAdditionEvaluations {
    /// The values at the point of the five constraints, without the terms in
    /// the moved-on accumulator.
    pub fn evaluate_constraint_polynomials(
        &self,
        apk_plus_h: &G1Affine,
        evals_at_zeta: &LagrangeEvaluations,
    ) -> (r: Vec<Fr>)
        ensures
            values(r@) == self@.constraint_values(apk_plus_h@, evals_at_zeta@),
            r.len() == 5,
    {
        let one = Fr::one();
        let b = self.bitmask;
        let x1 = self.partial_sums.0;
        let y1 = self.partial_sums.1;
        let x2 = self.keyset.0;
        let y2 = self.keyset.1;
        let d = evals_at_zeta.zeta_minus_omega_inv;
        let h = point_in_g1_complement();
        let dx = x1.sub(&x2);
        let dy = y2.sub(&y1);
        let one_minus_b = one.sub(&b);
        let c1 = d.mul(
            &b.mul(&dx.mul(&dx).mul(&x1.add(&x2)).sub(&dy.mul(&dy))).sub(&one_minus_b.mul(&y1)),
        );
        let c2 = d.mul(&b.mul(&dx.mul(&y1).add(&dy.mul(&x1))).sub(&one_minus_b.mul(&x1)));
        let c3 = Constraints::evaluate_bitmask_booleanity_constraint(b);
        let c4 = x1.sub(&h.x).mul(&evals_at_zeta.l_first).add(
            &x1.sub(&apk_plus_h.x).mul(&evals_at_zeta.l_last),
        );
        let c5 = y1.sub(&h.y).mul(&evals_at_zeta.l_first).add(
            &y1.sub(&apk_plus_h.y).mul(&evals_at_zeta.l_last),
        );
        let mut r: Vec<Fr> = Vec::new();
        r.push(c1);
        r.push(c2);
        r.push(c3);
        r.push(c4);
        r.push(c5);
        proof {
            assert(values(r@) =~= self@.constraint_values(apk_plus_h@, evals_at_zeta@));
        }
        r
    }
}

/// The registers that all three protocols share.
pub struct AffineAdditionRegisters {
    domains: Domains,
    bits: Vec<bool>,
    registers: Registers,
    bitmask_poly: Vec<Fr>,
    keyset_polys: (Vec<Fr>, Vec<Fr>),
    partial_sums_polys: (Vec<Fr>, Vec<Fr>),
    apk_plus_h: G1Affine,
}

impl View for AffineAdditionRegisters {
    type V = AdditionValues;

    closed spec fn view(&self) -> AdditionValues {
        AdditionValues {
            log_n: self.domains.spec_log_size(),
            bits: self.bits@,
            polys: PolynomialValues {
                bitmask: values(self.bitmask_poly@),
                keyset: (values(self.keyset_polys.0@), values(self.keyset_polys.1@)),
                partial_sums: (
                    values(self.partial_sums_polys.0@),
                    values(self.partial_sums_polys.1@),
                ),
            },
            rows: self.registers.base(),
            registers: self.registers@,
            apk_plus_h: self.apk_plus_h@,
        }
    }
}

impl AffineAdditionRegisters {
    #[verifier::type_invariant]
    spec fn inv(self) -> bool {
        &&& self.registers.spec_domains() == self.domains
        &&& self.bitmask_poly.len() == self.domains.spec_size()
        &&& self.keyset_polys.0.len() == self.domains.spec_size()
        &&& self.keyset_polys.1.len() == self.domains.spec_size()
        &&& self.partial_sums_polys.0.len() == self.domains.spec_size()
        &&& self.partial_sums_polys.1.len() == self.domains.spec_size()
        &&& self.bits.len() < self.domains.spec_size()
        &&& self.registers.base().bitmask == fitted(bit_values(self.bits@), self.domains.spec_size())
        &&& self.registers.base().bitmask_is_boolean()
        &&& self.registers.base().apk_acc_x[0] == complement_point().x
        &&& self.registers.base().apk_acc_y[0] == complement_point().y
        &&& self.registers.base().apk_acc_x[self.domains.spec_size() - 1] == self.apk_plus_h@.x
        &&& self.registers.base().apk_acc_y[self.domains.spec_size() - 1] == self.apk_plus_h@.y
        &&& forall|i: int|
            0 <= i && i + 1 < self.domains.spec_size() && #[trigger] self.registers.base().row_is_regular(
                i,
            ) ==> self.registers.base().row_is_satisfied(i)
    }

    /// The domains of the registers.
    pub closed spec fn spec_domains(&self) -> Domains {
        self.domains
    }

    /// The registers for a set of keys and a bitmask with one bit for each
    /// key of the set.
    pub fn new(keyset: &Keyset, bitmask: &Vec<bool>) -> (r: AffineAdditionRegisters)
        requires
            bitmask.len() == keyset.spec_pks().len(),
        ensures
            r.spec_domains() == keyset.spec_domain(),
            r@ == addition_values(
                keyset.spec_domain().spec_log_size(),
                keyset.spec_polys(),
                keyset.spec_pks(),
                bitmask@,
            ),
    {
        let domains = keyset.domain();
        let n = domains.size();
        let keys = keyset.size();
        let bits = bitmask.clone();
        proof {
            vstd::arithmetic::power2::lemma_pow2_pos(domains.spec_log_size());
            assert(bits@ =~= bitmask@);
        }
        let acc = compute_partial_sums(keyset.pks(), bitmask, n);
        let mut acc_x: Vec<Fr> = Vec::new();
        let mut acc_y: Vec<Fr> = Vec::new();
        let mut bit_scalars: Vec<Fr> = Vec::new();
        let mut i: usize = 0;
        while i < n
            invariant
                i <= n,
                acc.len() == n,
                acc_x.len() == i,
                acc_y.len() == i,
                forall|j: int| 0 <= j < i ==> acc_x@[j]@ == acc@[j]@.x && acc_y@[j]@ == acc@[j]@.y,
            decreases n - i,
        {
            acc_x.push(acc[i].x);
            acc_y.push(acc[i].y);
            i = i + 1;
        }
        let mut t: usize = 0;
        while t < bitmask.len()
            invariant
                t <= bitmask.len(),
                bit_scalars.len() == t,
                forall|j: int| 0 <= j < t ==> bit_scalars@[j]@ == bit_value(bitmask@[j]),
            decreases bitmask.len() - t,
        {
            if bitmask[t] {
                bit_scalars.push(Fr::one());
            } else {
                bit_scalars.push(Fr::zero());
            }
            t = t + 1;
        }
        proof {
            assert(values(acc_x@) =~= xs(points(acc@)));
            assert(values(acc_y@) =~= ys(points(acc@)));
            assert(values(bit_scalars@) =~= bit_values(bitmask@));
        }
        let bitmask_poly = domains.interpolate(&bit_scalars);
        let acc_x_poly = domains.interpolate(&acc_x);
        let acc_y_poly = domains.interpolate(&acc_y);
        let acc_x_shifted = rotate_left(&acc_x);
        let acc_y_shifted = rotate_left(&acc_y);
        let pks_x4 = keyset.pks_evals_x4();
        let registers = Registers::with_amplified_keys(
            domains,
            bit_scalars,
            pks_x4,
            Ghost((xs(keyset.spec_padded()), ys(keyset.spec_padded()))),
            (acc_x, acc_y),
            (acc_x_shifted, acc_y_shifted),
        );
        let polys = keyset.pks_polys();
        let kx = polys.0.clone();
        let ky = polys.1.clone();
        proof {
            assert(kx@ =~= polys.0@);
            assert(ky@ =~= polys.1@);
            let rows = addition_values(
                domains.spec_log_size(),
                keyset.spec_polys(),
                keyset.spec_pks(),
                bitmask@,
            ).rows;
            let base = registers.base();
            assert(base.apk_acc_x =~= rows.apk_acc_x);
            assert(base.apk_acc_y =~= rows.apk_acc_y);
            assert(base.apk_acc_x_shifted =~= rows.apk_acc_x_shifted);
            assert(base.apk_acc_y_shifted =~= rows.apk_acc_y_shifted);
            assert(base == rows);
            lemma_rows_are_satisfied(keyset.spec_pks(), bitmask@, n as nat, points(acc@), rows);
        }
        AffineAdditionRegisters {
            domains,
            bits,
            registers,
            bitmask_poly,
            keyset_polys: (kx, ky),
            partial_sums_polys: (acc_x_poly, acc_y_poly),
            apk_plus_h: acc[n - 1],
        }
    }

    /// The domains of the registers.
    pub fn domains(&self) -> (r: Domains)
        ensures
            r == self.spec_domains(),
            r.spec_log_size() == self@.log_n,
    {
        self.domains
    }

    /// The bits of the bitmask, which are fewer than the domain has elements.
    pub fn bits(&self) -> (r: &Vec<bool>)
        ensures
            r@ == self@.bits,
            r.len() < pow2(self@.log_n),
            self@.rows.bitmask == fitted(bit_values(r@), pow2(self@.log_n)),
    {
        proof {
            use_type_invariant(self);
        }
        &self.bits
    }

    /// The last partial sum: the starting point plus the aggregate key.
    pub fn apk_plus_h(&self) -> (r: G1Affine)
        ensures
            r@ == self@.apk_plus_h,
    {
        self.apk_plus_h
    }

    /// The polynomial of the bitmask.
    pub fn bitmask_polynomial(&self) -> (r: Vec<Fr>)
        ensures
            values(r@) == self@.polys.bitmask,
            r.len() == pow2(self@.log_n),
    {
        proof {
            use_type_invariant(self);
        }
        let r = self.bitmask_poly.clone();
        proof {
            assert(r@ =~= self.bitmask_poly@);
        }
        r
    }

    /// The two coordinate polynomials of the keys.
    pub fn keyset_polynomials(&self) -> (r: (Vec<Fr>, Vec<Fr>))
        ensures
            values(r.0@) == self@.polys.keyset.0,
            values(r.1@) == self@.polys.keyset.1,
            r.0.len() == pow2(self@.log_n),
            r.1.len() == pow2(self@.log_n),
    {
        proof {
            use_type_invariant(self);
        }
        let r = (self.keyset_polys.0.clone(), self.keyset_polys.1.clone());
        proof {
            assert(r.0@ =~= self.keyset_polys.0@);
            assert(r.1@ =~= self.keyset_polys.1@);
        }
        r
    }

    /// The two coordinate polynomials of the partial sums.
    pub fn partial_sums_polynomials(&self) -> (r: (Vec<Fr>, Vec<Fr>))
        ensures
            values(r.0@) == self@.polys.partial_sums.0,
            values(r.1@) == self@.polys.partial_sums.1,
            r.0.len() == pow2(self@.log_n),
            r.1.len() == pow2(self@.log_n),
    {
        proof {
            use_type_invariant(self);
        }
        let r = (self.partial_sums_polys.0.clone(), self.partial_sums_polys.1.clone());
        proof {
            assert(r.0@ =~= self.partial_sums_polys.0@);
            assert(r.1@ =~= self.partial_sums_polys.1@);
        }
        r
    }

    /// The registers over the larger domain.
    pub fn registers(&self) -> (r: &Registers)
        ensures
            r@ == self@.registers,
            r.base() == self@.rows,
            r.spec_domains() == self.spec_domains(),
    {
        proof {
            use_type_invariant(self);
        }
        &self.registers
    }

    /// The five constraint polynomials, none with more coefficients than the
    /// larger domain has elements, and one. Where the accumulation is
    /// regular, every one of them vanishes on the whole domain.
    pub fn compute_constraint_polynomials(&self) -> (r: Vec<Vec<Fr>>)
        ensures
            polys_values(r@) == self@.constraint_polynomials(),
            r.len() == 5,
            forall|i: int| 0 <= i < r.len() ==> (#[trigger] r@[i]).len() <= 4 * pow2(self@.log_n) + 1,
            self@.is_regular() ==> forall|k: int|
                0 <= k < 5 ==> vanishes_on_domain(self@.log_n, #[trigger] polys_values(r@)[k]),
    {
        proof {
            use_type_invariant(self);
            vstd::arithmetic::power2::lemma_pow2_pos(self.domains.spec_log_size());
        }
        let domains = self.domains;
        let n = domains.size();
        let last = last_domain_element(&domains);
        let (c1, c2) = Constraints::compute_conditional_affine_addition_constraint_polynomials(
            &self.registers,
        );
        let a1 = times_linear(&c1, &last);
        let a2 = times_linear(&c2, &last);
        let a3 = Constraints::compute_bitmask_booleanity_constraint_polynomial(&self.registers);
        let l_first = domains.amplify(&unit(0, n));
        let l_last = domains.amplify(&unit(n - 1, n));
        let h = point_in_g1_complement();
        let acc = self.registers.apk_acc();
        let v4 = compute_public_input_values(acc.0, &l_first, &l_last, &h.x, &self.apk_plus_h.x);
        let v5 = compute_public_input_values(acc.1, &l_first, &l_last, &h.y, &self.apk_plus_h.y);
        let a4 = domains.interpolate_4x(&v4);
        let a5 = domains.interpolate_4x(&v5);
        let log_n = domains.log_size();
        let registers_domains = self.registers.domains();
        proof {
            assert(values(a1@).len() == a1.len());
            assert(values(a2@).len() == a2.len());
            let k = domains.spec_log_size();
            let rows = self.registers.base();
            assert(self@.rows == rows);
            assert(self@.log_n == k);
            if self@.is_regular() {
                assert forall|i: nat| i + 1 < pow2(k) implies poly_eval(
                    values(c1@),
                    #[trigger] domain_element(k, i),
                ) == 0 && poly_eval(values(c2@), domain_element(k, i)) == 0 by {
                    assert(rows.row_is_regular(i as int));
                    assert(rows.row_is_satisfied(i as int));
                }
                lemma_excluding_the_last_row(k, values(c1@), last@);
                lemma_excluding_the_last_row(k, values(c2@), last@);
            }
            lemma_public_input_vanishes(
                k,
                rows.apk_acc_x,
                values(acc.0@),
                values(l_first@),
                values(l_last@),
                h@.x,
                self.apk_plus_h@.x,
                values(a4@),
            );
            lemma_public_input_vanishes(
                k,
                rows.apk_acc_y,
                values(acc.1@),
                values(l_first@),
                values(l_last@),
                h@.y,
                self.apk_plus_h@.y,
                values(a5@),
            );
        }
        let mut r: Vec<Vec<Fr>> = Vec::new();
        r.push(a1);
        r.push(a2);
        r.push(a3);
        r.push(a4);
        r.push(a5);
        proof {
            assert(polys_values(r@) =~= self@.constraint_polynomials());
        }
        r
    }

    /// The values of the register polynomials at a point.
    pub fn evaluate_register_polynomials(&self, point: &Fr) -> (r: AffineAdditionEvaluations)
        ensures
            r@ == self@.evaluations_at(point@),
    {
        AffineAdditionEvaluations {
            keyset: (
                evaluate(&self.keyset_polys.0, point),
                evaluate(&self.keyset_polys.1, point),
            ),
            bitmask: evaluate(&self.bitmask_poly, point),
            partial_sums: (
                evaluate(&self.partial_sums_polys.0, point),
                evaluate(&self.partial_sums_polys.1, point),
            ),
        }
    }

    /// The two polynomials of the partial sums, combined with the given
    /// coefficients.
    fn linearize(&self, cx: &Fr, cy: &Fr) -> (r: Vec<Fr>)
        ensures
            values(r@) == self@.linearized(LinearizationCoefficients { x: cx@, y: cy@ }),
            r.len() == pow2(self@.log_n),
    {
        proof {
            use_type_invariant(self);
        }
        let a = scale(cx, &self.partial_sums_polys.0);
        let b = scale(cy, &self.partial_sums_polys.1);
        let r = sum(&a, &b);
        proof {
            assert(values(a@).len() == a.len());
            assert(values(b@).len() == b.len());
            assert(values(r@).len() == r.len());
        }
        r
    }

    /// The linearizations of the five constraints at `zeta`, none with more
    /// coefficients than the domain has elements.
    pub fn compute_constraints_linearized(&self, zeta: &Fr) -> (r: Vec<Vec<Fr>>)
        ensures
            polys_values(r@) == self@.linearization_parts(zeta@),
            r.len() == 5,
            forall|i: int| 0 <= i < r.len() ==> (#[trigger] r@[i]).len() <= pow2(self@.log_n),
    {
        let one = Fr::one();
        let e = self.evaluate_register_polynomials(zeta);
        let last = last_domain_element(&self.domains);
        let d = zeta.sub(&last);
        let b = e.bitmask;
        let x1 = e.partial_sums.0;
        let y1 = e.partial_sums.1;
        let x2 = e.keyset.0;
        let y2 = e.keyset.1;
        let dx = x1.sub(&x2);
        let one_minus_b = one.sub(&b);
        let c1x = d.mul(&b.mul(&dx.mul(&dx)));
        let c1y = d.mul(&one_minus_b);
        let c2x = d.mul(&one_minus_b.sub(&b.mul(&y2.sub(&y1))));
        let c2y = d.mul(&b.mul(&dx));
        let r1 = self.linearize(&c1x, &c1y);
        let r2 = self.linearize(&c2x, &c2y);
        let mut r: Vec<Vec<Fr>> = Vec::new();
        r.push(r1);
        r.push(r2);
        r.push(Vec::new());
        r.push(Vec::new());
        r.push(Vec::new());
        proof {
            assert(values(r@[2]@) =~= Seq::<nat>::empty());
            assert(values(r@[3]@) =~= Seq::<nat>::empty());
            assert(values(r@[4]@) =~= Seq::<nat>::empty());
            assert(polys_values(r@) =~= self@.linearization_parts(zeta@));
        }
        r
    }
}

} // verus!
