//! The registers of the accumulation of an aggregate key and the constraint
//! polynomials that vanish on the domain where the accumulation is correct.
//!
//! With bitmask `b`, key coordinates `(x2, y2)`, accumulator `(x1, y1)` and
//! the accumulator moved on by one position `(x3, y3)`, the two constraints of
//! the conditional affine addition are
//!
//! ```text
//! C1 = b * ((x1 - x2)^2 * (x1 + x2 + x3) - (y2 - y1)^2) + (1 - b) * (y3 - y1)
//! C2 = b * ((x1 - x2) * (y3 + y1) - (y2 - y1) * (x3 - x1)) + (1 - b) * (x3 - x1)
//! ```
//!
//! and the constraint that the bitmask holds bits only is `b * (1 - b)`.
use vstd::prelude::*;
use crate::bitmask::{bit_values, Bitmask};
use crate::curve::{on_chord, points, AffinePoint, G1Affine};
use crate::domains::{
    amplified, domain_element, evaluations, fitted, interpolation, lemma_domain_embeds, Domains,
    vanishes_on_domain, MAX_LOG_SIZE,
};
use crate::field::{
    congruent, fadd, fmul, fsub, lemma_boolean_vanishes, lemma_congruent_add,
    lemma_congruent_mul, lemma_congruent_sub, lemma_congruent_zero, lemma_fadd_congruent,
    lemma_field_ops_bounded, lemma_fmul_congruent, lemma_fsub_congruent, values, Fr,
};
use crate::poly::poly_eval;
use vstd::arithmetic::power2::{lemma_pow2_unfold, pow2};

verus! {

/// The value of the booleanity constraint for a bitmask entry `b`.
pub open spec fn booleanity(b: nat) -> nat {
    fmul(b, fsub(1, b))
}

/// The value of the first constraint of the conditional affine addition.
pub open spec fn affine_addition_c1(
    b: nat,
    x1: nat,
    y1: nat,
    x2: nat,
    y2: nat,
    x3: nat,
    y3: nat,
) -> nat {
    fadd(
        fmul(
            b,
            fsub(
                fmul(fmul(fsub(x1, x2), fsub(x1, x2)), fadd(fadd(x1, x2), x3)),
                fmul(fsub(y2, y1), fsub(y2, y1)),
            ),
        ),
        fmul(fsub(1, b), fsub(y3, y1)),
    )
}

/// The value of the second constraint of the conditional affine addition.
pub open spec fn affine_addition_c2(
    b: nat,
    x1: nat,
    y1: nat,
    x2: nat,
    y2: nat,
    x3: nat,
    y3: nat,
) -> nat {
    fadd(
        fmul(
            b,
            fsub(fmul(fsub(x1, x2), fadd(y3, y1)), fmul(fsub(y2, y1), fsub(x3, x1))),
        ),
        fmul(fsub(1, b), fsub(x3, x1)),
    )
}

/// The two constraints of the addition hold on a row that adds a key to the
/// accumulator by the chord rule.
pub proof fn lemma_chord_satisfies_addition(x1: nat, y1: nat, x2: nat, y2: nat, x3: nat, y3: nat)
    requires
        on_chord(x1, y1, x2, y2, x3, y3),
    ensures
        affine_addition_c1(1, x1, y1, x2, y2, x3, y3) == 0,
        affine_addition_c2(1, x1, y1, x2, y2, x3, y3) == 0,
{
    let l = choose|l: nat| #[trigger]
        fmul(l, fsub(x2, x1)) == fsub(y2, y1) && x3 == fsub(fsub(fmul(l, l), x1), x2) && y3
            == fsub(fmul(l, fsub(x1, x3)), y1);
    let li = l as int;
    let dx = x1 - x2;
    let dy = y2 - y1;
    // the slope: l * (x2 - x1) stands for y2 - y1
    lemma_fsub_congruent(x2, x1);
    lemma_fsub_congruent(y2, y1);
    lemma_fmul_congruent(l, fsub(x2, x1));
    lemma_congruent_mul(li, li, fsub(x2, x1) as int, x2 - x1);
    assert(congruent(li * (x2 - x1), dy));
    // x3 stands for l^2 - x1 - x2
    lemma_fmul_congruent(l, l);
    lemma_fsub_congruent(fmul(l, l), x1);
    lemma_congruent_sub(fmul(l, l) as int, li * li, x1 as int, x1 as int);
    lemma_fsub_congruent(fsub(fmul(l, l), x1), x2);
    lemma_congruent_sub(fsub(fmul(l, l), x1) as int, li * li - x1, x2 as int, x2 as int);
    let x3i = li * li - x1 - x2;
    assert(congruent(x3 as int, x3i));
    // y3 stands for l * (x1 - x3) - y1
    lemma_fsub_congruent(x1, x3);
    lemma_congruent_sub(x1 as int, x1 as int, x3 as int, x3i);
    lemma_fmul_congruent(l, fsub(x1, x3));
    lemma_congruent_mul(li, li, fsub(x1, x3) as int, x1 - x3i);
    lemma_fsub_congruent(fmul(l, fsub(x1, x3)), y1);
    lemma_congruent_sub(
        fmul(l, fsub(x1, x3)) as int,
        li * (x1 - x3i),
        y1 as int,
        y1 as int,
    );
    let y3i = li * (x1 - x3i) - y1;
    assert(congruent(y3 as int, y3i));
    // the common terms of the two constraints
    lemma_fsub_congruent(x1, x2);
    lemma_fsub_congruent(1, 1);
    lemma_fmul_congruent(fsub(y2, y1), fsub(y2, y1));
    lemma_congruent_mul(fsub(y2, y1) as int, dy, fsub(y2, y1) as int, dy);

    // C1
    let d2 = fmul(fsub(x1, x2), fsub(x1, x2));
    lemma_fmul_congruent(fsub(x1, x2), fsub(x1, x2));
    lemma_congruent_mul(fsub(x1, x2) as int, dx, fsub(x1, x2) as int, dx);
    lemma_fadd_congruent(x1, x2);
    lemma_fadd_congruent(fadd(x1, x2), x3);
    lemma_congruent_add(fadd(x1, x2) as int, (x1 + x2) as int, x3 as int, x3i);
    let s = fadd(fadd(x1, x2), x3);
    lemma_fmul_congruent(d2, s);
    lemma_congruent_mul(d2 as int, dx * dx, s as int, x1 + x2 + x3i);
    let t1 = fsub(fmul(d2, s), fmul(fsub(y2, y1), fsub(y2, y1)));
    lemma_fsub_congruent(fmul(d2, s), fmul(fsub(y2, y1), fsub(y2, y1)));
    lemma_congruent_sub(
        fmul(d2, s) as int,
        (dx * dx) * (x1 + x2 + x3i),
        fmul(fsub(y2, y1), fsub(y2, y1)) as int,
        dy * dy,
    );
    // (x1 - x2)^2 * l^2 is (l * (x2 - x1))^2, which stands for (y2 - y1)^2
    lemma_congruent_mul(li * (x2 - x1), dy, li * (x2 - x1), dy);
    assert((dx * dx) * (x1 + x2 + x3i) == (li * (x2 - x1)) * (li * (x2 - x1)))
        by (nonlinear_arith)
        requires
            dx == x1 - x2,
            x3i == li * li - x1 - x2,
    ;
    lemma_congruent_sub((li * (x2 - x1)) * (li * (x2 - x1)), dy * dy, dy * dy, dy * dy);
    assert(congruent(t1 as int, 0));
    lemma_fmul_congruent(1, t1);
    lemma_congruent_mul(1, 1, t1 as int, 0);
    let u1 = fmul(fsub(1, 1), fsub(y3, y1));
    lemma_fmul_congruent(fsub(1, 1), fsub(y3, y1));
    lemma_congruent_mul(fsub(1, 1) as int, 0, fsub(y3, y1) as int, fsub(y3, y1) as int);
    lemma_fadd_congruent(fmul(1, t1), u1);
    lemma_congruent_add(fmul(1, t1) as int, 0, u1 as int, 0);
    lemma_field_ops_bounded(fmul(1, t1), u1);
    lemma_congruent_zero(fadd(fmul(1, t1), u1));

    // C2
    lemma_fadd_congruent(y3, y1);
    lemma_congruent_add(y3 as int, y3i, y1 as int, y1 as int);
    lemma_fmul_congruent(fsub(x1, x2), fadd(y3, y1));
    lemma_congruent_mul(fsub(x1, x2) as int, dx, fadd(y3, y1) as int, y3i + y1);
    lemma_fsub_congruent(x3, x1);
    lemma_congruent_sub(x3 as int, x3i, x1 as int, x1 as int);
    lemma_fmul_congruent(fsub(y2, y1), fsub(x3, x1));
    lemma_congruent_mul(fsub(y2, y1) as int, li * (x2 - x1), fsub(x3, x1) as int, x3i - x1);
    let p = fmul(fsub(x1, x2), fadd(y3, y1));
    let q = fmul(fsub(y2, y1), fsub(x3, x1));
    lemma_fsub_congruent(p, q);
    lemma_congruent_sub(p as int, dx * (y3i + y1), q as int, (li * (x2 - x1)) * (x3i - x1));
    assert(dx * (y3i + y1) - (li * (x2 - x1)) * (x3i - x1) == 0) by (nonlinear_arith)
        requires
            dx == x1 - x2,
            y3i == li * (x1 - x3i) - y1,
    ;
    let t2 = fsub(p, q);
    assert(congruent(t2 as int, 0));
    lemma_fmul_congruent(1, t2);
    lemma_congruent_mul(1, 1, t2 as int, 0);
    let u2 = fmul(fsub(1, 1), fsub(x3, x1));
    lemma_fmul_congruent(fsub(1, 1), fsub(x3, x1));
    lemma_congruent_mul(fsub(1, 1) as int, 0, fsub(x3, x1) as int, fsub(x3, x1) as int);
    lemma_fadd_congruent(fmul(1, t2), u2);
    lemma_congruent_add(fmul(1, t2) as int, 0, u2 as int, 0);
    lemma_field_ops_bounded(fmul(1, t2), u2);
    lemma_congruent_zero(fadd(fmul(1, t2), u2));
}

/// The two constraints of the addition hold on a row that leaves the
/// accumulator as it is.
pub proof fn lemma_idle_row_satisfies_addition(x1: nat, y1: nat, x2: nat, y2: nat)
    ensures
        affine_addition_c1(0, x1, y1, x2, y2, x1, y1) == 0,
        affine_addition_c2(0, x1, y1, x2, y2, x1, y1) == 0,
{
    let a1 = fsub(
        fmul(fmul(fsub(x1, x2), fsub(x1, x2)), fadd(fadd(x1, x2), x1)),
        fmul(fsub(y2, y1), fsub(y2, y1)),
    );
    let a2 = fsub(fmul(fsub(x1, x2), fadd(y1, y1)), fmul(fsub(y2, y1), fsub(x1, x1)));
    crate::field::lemma_fmul_zero(a1);
    crate::field::lemma_fmul_zero(a2);
    lemma_fsub_congruent(y1, y1);
    lemma_fsub_congruent(x1, x1);
    lemma_field_ops_bounded(y1, y1);
    lemma_field_ops_bounded(x1, x1);
    lemma_congruent_zero(fsub(y1, y1));
    lemma_congruent_zero(fsub(x1, x1));
    crate::field::lemma_fmul_zero(fsub(1, 0));
    lemma_fadd_congruent(0, 0);
    lemma_field_ops_bounded(0, 0);
    lemma_congruent_zero(fadd(0, 0));
}

/// The x-coordinates of a sequence of points.
pub open spec fn xs(s: Seq<AffinePoint>) -> Seq<nat> {
    s.map_values(|p: AffinePoint| p.x)
}

/// The y-coordinates of a sequence of points.
pub open spec fn ys(s: Seq<AffinePoint>) -> Seq<nat> {
    s.map_values(|p: AffinePoint| p.y)
}

/// `s` turned by one position to the left: the first entry becomes the last.
pub open spec fn rotated(s: Seq<nat>) -> Seq<nat> {
    Seq::new(s.len(), |i: int| s[(i + 1) % (s.len() as int)])
}

/// The columns of the registers, as plain numbers.
pub struct RegisterValues {
    pub bitmask: Seq<nat>,
    pub pks_x: Seq<nat>,
    pub pks_y: Seq<nat>,
    pub apk_acc_x: Seq<nat>,
    pub apk_acc_y: Seq<nat>,
    pub apk_acc_x_shifted: Seq<nat>,
    pub apk_acc_y_shifted: Seq<nat>,
}

impl RegisterValues {
    /// Every column has `n` entries.
    pub open spec fn has_len(self, n: nat) -> bool {
        &&& self.bitmask.len() == n
        &&& self.pks_x.len() == n
        &&& self.pks_y.len() == n
        &&& self.apk_acc_x.len() == n
        &&& self.apk_acc_y.len() == n
        &&& self.apk_acc_x_shifted.len() == n
        &&& self.apk_acc_y_shifted.len() == n
    }

    /// The columns, each fitted to `2^log_n` entries and amplified.
    pub open spec fn amplified(self, log_n: nat) -> RegisterValues {
        RegisterValues {
            bitmask: amplified(log_n, self.bitmask),
            pks_x: amplified(log_n, self.pks_x),
            pks_y: amplified(log_n, self.pks_y),
            apk_acc_x: amplified(log_n, self.apk_acc_x),
            apk_acc_y: amplified(log_n, self.apk_acc_y),
            apk_acc_x_shifted: amplified(log_n, self.apk_acc_x_shifted),
            apk_acc_y_shifted: amplified(log_n, self.apk_acc_y_shifted),
        }
    }

    /// The columns, each cut or filled up with zeros to `n` entries.
    pub open spec fn fitted(self, n: nat) -> RegisterValues {
        RegisterValues {
            bitmask: fitted(self.bitmask, n),
            pks_x: fitted(self.pks_x, n),
            pks_y: fitted(self.pks_y, n),
            apk_acc_x: fitted(self.apk_acc_x, n),
            apk_acc_y: fitted(self.apk_acc_y, n),
            apk_acc_x_shifted: fitted(self.apk_acc_x_shifted, n),
            apk_acc_y_shifted: fitted(self.apk_acc_y_shifted, n),
        }
    }

    /// The value of the booleanity constraint in row `j`.
    pub open spec fn booleanity_at(self, j: int) -> nat {
        booleanity(self.bitmask[j])
    }

    /// The value of the first constraint of the addition in row `j`.
    pub open spec fn c1_at(self, j: int) -> nat {
        affine_addition_c1(
            self.bitmask[j],
            self.apk_acc_x[j],
            self.apk_acc_y[j],
            self.pks_x[j],
            self.pks_y[j],
            self.apk_acc_x_shifted[j],
            self.apk_acc_y_shifted[j],
        )
    }

    /// The value of the second constraint of the addition in row `j`.
    pub open spec fn c2_at(self, j: int) -> nat {
        affine_addition_c2(
            self.bitmask[j],
            self.apk_acc_x[j],
            self.apk_acc_y[j],
            self.pks_x[j],
            self.pks_y[j],
            self.apk_acc_x_shifted[j],
            self.apk_acc_y_shifted[j],
        )
    }

    /// The values of the booleanity constraint, row by row.
    pub open spec fn booleanity_values(self) -> Seq<nat> {
        Seq::new(self.bitmask.len(), |j: int| self.booleanity_at(j))
    }

    /// The values of the first constraint of the addition, row by row.
    pub open spec fn c1_values(self) -> Seq<nat> {
        Seq::new(self.bitmask.len(), |j: int| self.c1_at(j))
    }

    /// The values of the second constraint of the addition, row by row.
    pub open spec fn c2_values(self) -> Seq<nat> {
        Seq::new(self.bitmask.len(), |j: int| self.c2_at(j))
    }

    /// Whether the bitmask column holds nothing but zeros and ones.
    pub open spec fn bitmask_is_boolean(self) -> bool {
        forall|i: int| 0 <= i < self.bitmask.len() ==> self.bitmask[i] == 0 || self.bitmask[i] == 1
    }
}

/// Register polynomials in evaluation form over the larger domain, so that
/// constraints of degree up to `4n` can be computed row by row.
pub struct Registers {
    domains: Domains,
    bitmask: Vec<Fr>,
    pks_x: Vec<Fr>,
    pks_y: Vec<Fr>,
    apk_acc_x: Vec<Fr>,
    apk_acc_y: Vec<Fr>,
    apk_acc_x_shifted: Vec<Fr>,
    apk_acc_y_shifted: Vec<Fr>,
    base: Ghost<RegisterValues>,
}

impl View for Registers {
    type V = RegisterValues;

    /// The columns over the larger domain.
    closed spec fn view(&self) -> RegisterValues {
        RegisterValues {
            bitmask: values(self.bitmask@),
            pks_x: values(self.pks_x@),
            pks_y: values(self.pks_y@),
            apk_acc_x: values(self.apk_acc_x@),
            apk_acc_y: values(self.apk_acc_y@),
            apk_acc_x_shifted: values(self.apk_acc_x_shifted@),
            apk_acc_y_shifted: values(self.apk_acc_y_shifted@),
        }
    }
}

/// Whether every fourth entry of `column` is the entry of `base` it came from.
pub open spec fn embeds(column: Seq<nat>, base: Seq<nat>) -> bool {
    forall|i: int| 0 <= i < base.len() ==> #[trigger] column[4 * i] == base[i]
}

impl Registers {
    #[verifier::type_invariant]
    spec fn inv(self) -> bool {
        &&& self@.has_len(4 * self.domains.spec_size())
        &&& self.base@.has_len(self.domains.spec_size())
        &&& embeds(self@.bitmask, self.base@.bitmask)
        &&& embeds(self@.pks_x, self.base@.pks_x)
        &&& embeds(self@.pks_y, self.base@.pks_y)
        &&& embeds(self@.apk_acc_x, self.base@.apk_acc_x)
        &&& embeds(self@.apk_acc_y, self.base@.apk_acc_y)
        &&& embeds(self@.apk_acc_x_shifted, self.base@.apk_acc_x_shifted)
        &&& embeds(self@.apk_acc_y_shifted, self.base@.apk_acc_y_shifted)
    }

    /// The domains that the registers live on.
    pub closed spec fn spec_domains(&self) -> Domains {
        self.domains
    }

    /// The columns over the smaller domain, which the columns over the larger
    /// one interpolate.
    pub closed spec fn base(&self) -> RegisterValues {
        self.base@
    }

    /// The registers for a bitmask, the keys of the set padded to the domain,
    /// and the partial sums of the aggregate. The bitmask is filled up with
    /// zeros, and the partial sums moved on by one position are added.
    pub fn new(domains: Domains, bitmask: &Bitmask, pks: Vec<G1Affine>, apk_acc: (Vec<Fr>, Vec<Fr>)) -> (r: Registers)
        requires
            apk_acc.0.len() >= 1,
            apk_acc.1.len() >= 1,
        ensures
            r.spec_domains() == domains,
            r.base() == (RegisterValues {
                bitmask: bit_values(bitmask@),
                pks_x: xs(points(pks@)),
                pks_y: ys(points(pks@)),
                apk_acc_x: values(apk_acc.0@),
                apk_acc_y: values(apk_acc.1@),
                apk_acc_x_shifted: rotated(values(apk_acc.0@)),
                apk_acc_y_shifted: rotated(values(apk_acc.1@)),
            }).fitted(domains.spec_size()),
            r@ == (RegisterValues {
                bitmask: bit_values(bitmask@),
                pks_x: xs(points(pks@)),
                pks_y: ys(points(pks@)),
                apk_acc_x: values(apk_acc.0@),
                apk_acc_y: values(apk_acc.1@),
                apk_acc_x_shifted: rotated(values(apk_acc.0@)),
                apk_acc_y_shifted: rotated(values(apk_acc.1@)),
            }).amplified(domains.spec_log_size()),
    {
        let bits = bitmask.to_bits_as_field_elements();
        let mut pks_x: Vec<Fr> = Vec::new();
        let mut pks_y: Vec<Fr> = Vec::new();
        let mut i: usize = 0;
        while i < pks.len()
            invariant
                i <= pks.len(),
                pks_x.len() == i,
                pks_y.len() == i,
                forall|j: int| 0 <= j < i ==> pks_x@[j]@ == pks@[j]@.x && pks_y@[j]@ == pks@[j]@.y,
            decreases pks.len() - i,
        {
            pks_x.push(pks[i].x);
            pks_y.push(pks[i].y);
            i = i + 1;
        }
        proof {
            assert(values(pks_x@) =~= xs(points(pks@)));
            assert(values(pks_y@) =~= ys(points(pks@)));
        }
        let apk_acc_x_shifted = rotate_left(&apk_acc.0);
        let apk_acc_y_shifted = rotate_left(&apk_acc.1);
        Self::new_unchecked(
            domains,
            bits,
            (pks_x, pks_y),
            apk_acc,
            (apk_acc_x_shifted, apk_acc_y_shifted),
        )
    }

    /// The registers with the given columns, each of which is cut or filled up
    /// with zeros to the size of the domain; nothing is asked of the columns.
    pub fn new_unchecked(
        domains: Domains,
        bitmask: Vec<Fr>,
        pks: (Vec<Fr>, Vec<Fr>),
        apk_acc: (Vec<Fr>, Vec<Fr>),
        apk_acc_shifted: (Vec<Fr>, Vec<Fr>),
    ) -> (r: Registers)
        ensures
            r.spec_domains() == domains,
            r.base() == (RegisterValues {
                bitmask: values(bitmask@),
                pks_x: values(pks.0@),
                pks_y: values(pks.1@),
                apk_acc_x: values(apk_acc.0@),
                apk_acc_y: values(apk_acc.1@),
                apk_acc_x_shifted: values(apk_acc_shifted.0@),
                apk_acc_y_shifted: values(apk_acc_shifted.1@),
            }).fitted(domains.spec_size()),
            r@ == (RegisterValues {
                bitmask: values(bitmask@),
                pks_x: values(pks.0@),
                pks_y: values(pks.1@),
                apk_acc_x: values(apk_acc.0@),
                apk_acc_y: values(apk_acc.1@),
                apk_acc_x_shifted: values(apk_acc_shifted.0@),
                apk_acc_y_shifted: values(apk_acc_shifted.1@),
            }).amplified(domains.spec_log_size()),
    {
        let ghost base = (RegisterValues {
            bitmask: values(bitmask@),
            pks_x: values(pks.0@),
            pks_y: values(pks.1@),
            apk_acc_x: values(apk_acc.0@),
            apk_acc_y: values(apk_acc.1@),
            apk_acc_x_shifted: values(apk_acc_shifted.0@),
            apk_acc_y_shifted: values(apk_acc_shifted.1@),
        }).fitted(domains.spec_size());
        Registers {
            domains,
            bitmask: domains.amplify(&bitmask),
            pks_x: domains.amplify(&pks.0),
            pks_y: domains.amplify(&pks.1),
            apk_acc_x: domains.amplify(&apk_acc.0),
            apk_acc_y: domains.amplify(&apk_acc.1),
            apk_acc_x_shifted: domains.amplify(&apk_acc_shifted.0),
            apk_acc_y_shifted: domains.amplify(&apk_acc_shifted.1),
            base: Ghost(base),
        }
    }

    /// The registers with key columns that are given by their values over
    /// the larger domain, every fourth of which is an entry of `pks_base`,
    /// which has as many entries as the smaller domain. The other columns are
    /// cut or filled up with zeros to the size of the smaller domain.
    pub fn with_amplified_keys(
        domains: Domains,
        bitmask: Vec<Fr>,
        pks_x4: (Vec<Fr>, Vec<Fr>),
        pks_base: Ghost<(Seq<nat>, Seq<nat>)>,
        apk_acc: (Vec<Fr>, Vec<Fr>),
        apk_acc_shifted: (Vec<Fr>, Vec<Fr>),
    ) -> (r: Registers)
        requires
            pks_x4.0.len() == 4 * domains.spec_size(),
            pks_x4.1.len() == 4 * domains.spec_size(),
            pks_base@.0.len() == domains.spec_size(),
            pks_base@.1.len() == domains.spec_size(),
            embeds(values(pks_x4.0@), pks_base@.0),
            embeds(values(pks_x4.1@), pks_base@.1),
        ensures
            r.spec_domains() == domains,
            r.base() == (RegisterValues {
                bitmask: fitted(values(bitmask@), domains.spec_size()),
                pks_x: pks_base@.0,
                pks_y: pks_base@.1,
                apk_acc_x: fitted(values(apk_acc.0@), domains.spec_size()),
                apk_acc_y: fitted(values(apk_acc.1@), domains.spec_size()),
                apk_acc_x_shifted: fitted(values(apk_acc_shifted.0@), domains.spec_size()),
                apk_acc_y_shifted: fitted(values(apk_acc_shifted.1@), domains.spec_size()),
            }),
            r@ == (RegisterValues {
                bitmask: amplified(domains.spec_log_size(), values(bitmask@)),
                pks_x: values(pks_x4.0@),
                pks_y: values(pks_x4.1@),
                apk_acc_x: amplified(domains.spec_log_size(), values(apk_acc.0@)),
                apk_acc_y: amplified(domains.spec_log_size(), values(apk_acc.1@)),
                apk_acc_x_shifted: amplified(
                    domains.spec_log_size(),
                    values(apk_acc_shifted.0@),
                ),
                apk_acc_y_shifted: amplified(
                    domains.spec_log_size(),
                    values(apk_acc_shifted.1@),
                ),
            }),
    {
        let ghost base = RegisterValues {
            bitmask: fitted(values(bitmask@), domains.spec_size()),
            pks_x: pks_base@.0,
            pks_y: pks_base@.1,
            apk_acc_x: fitted(values(apk_acc.0@), domains.spec_size()),
            apk_acc_y: fitted(values(apk_acc.1@), domains.spec_size()),
            apk_acc_x_shifted: fitted(values(apk_acc_shifted.0@), domains.spec_size()),
            apk_acc_y_shifted: fitted(values(apk_acc_shifted.1@), domains.spec_size()),
        };
        Registers {
            domains,
            bitmask: domains.amplify(&bitmask),
            pks_x: pks_x4.0,
            pks_y: pks_x4.1,
            apk_acc_x: domains.amplify(&apk_acc.0),
            apk_acc_y: domains.amplify(&apk_acc.1),
            apk_acc_x_shifted: domains.amplify(&apk_acc_shifted.0),
            apk_acc_y_shifted: domains.amplify(&apk_acc_shifted.1),
            base: Ghost(base),
        }
    }

    /// The bitmask column over the larger domain.
    pub fn bitmask(&self) -> (r: &Vec<Fr>)
        ensures
            values(r@) == self@.bitmask,
            r.len() == 4 * self.spec_domains().spec_size(),
    {
        proof {
            use_type_invariant(self);
        }
        &self.bitmask
    }

    /// The two columns of the accumulator over the larger domain.
    pub fn apk_acc(&self) -> (r: (&Vec<Fr>, &Vec<Fr>))
        ensures
            values(r.0@) == self@.apk_acc_x,
            values(r.1@) == self@.apk_acc_y,
            r.0.len() == 4 * self.spec_domains().spec_size(),
            r.1.len() == 4 * self.spec_domains().spec_size(),
    {
        proof {
            use_type_invariant(self);
        }
        (&self.apk_acc_x, &self.apk_acc_y)
    }

    /// The domains that the registers live on.
    pub fn domains(&self) -> (r: Domains)
        ensures
            r == self.spec_domains(),
            self@.has_len(4 * r.spec_size()),
            self.base().has_len(r.spec_size()),
            self.rows_embed(),
    {
        proof {
            use_type_invariant(self);
        }
        self.domains
    }

    /// Every fourth row over the larger domain is a row over the smaller one.
    pub open spec fn rows_embed(&self) -> bool {
        &&& embeds(self@.bitmask, self.base().bitmask)
        &&& embeds(self@.pks_x, self.base().pks_x)
        &&& embeds(self@.pks_y, self.base().pks_y)
        &&& embeds(self@.apk_acc_x, self.base().apk_acc_x)
        &&& embeds(self@.apk_acc_y, self.base().apk_acc_y)
        &&& embeds(self@.apk_acc_x_shifted, self.base().apk_acc_x_shifted)
        &&& embeds(self@.apk_acc_y_shifted, self.base().apk_acc_y_shifted)
    }

    /// The constraints take on row `4i` over the larger domain the values
    /// that they take on row `i` over the smaller one.
    pub proof fn lemma_row_embeds(&self, i: int)
        requires
            self.rows_embed(),
            self.base().has_len(self.spec_domains().spec_size()),
            0 <= i < self.spec_domains().spec_size(),
        ensures
            self@.booleanity_at(4 * i) == self.base().booleanity_at(i),
            self@.c1_at(4 * i) == self.base().c1_at(i),
            self@.c2_at(4 * i) == self.base().c2_at(i),
    {
        assert(self@.bitmask[4 * i] == self.base().bitmask[i]);
        assert(self@.pks_x[4 * i] == self.base().pks_x[i]);
        assert(self@.pks_y[4 * i] == self.base().pks_y[i]);
        assert(self@.apk_acc_x[4 * i] == self.base().apk_acc_x[i]);
        assert(self@.apk_acc_y[4 * i] == self.base().apk_acc_y[i]);
        assert(self@.apk_acc_x_shifted[4 * i] == self.base().apk_acc_x_shifted[i]);
        assert(self@.apk_acc_y_shifted[4 * i] == self.base().apk_acc_y_shifted[i]);
    }
}

/// `v` turned by one position to the left.
pub fn rotate_left(v: &Vec<Fr>) -> (r: Vec<Fr>)
    requires
        v.len() >= 1,
    ensures
        values(r@) == rotated(values(v@)),
{
    let mut r: Vec<Fr> = Vec::new();
    let mut i: usize = 1;
    while i < v.len()
        invariant
            1 <= i <= v.len(),
            r.len() == i - 1,
            forall|j: int| 0 <= j < i - 1 ==> r@[j] == v@[j + 1],
        decreases v.len() - i,
    {
        r.push(v[i]);
        i = i + 1;
    }
    r.push(v[0]);
    proof {
        let n = v.len() as int;
        assert forall|j: int| 0 <= j < n implies values(r@)[j] == rotated(values(v@))[j] by {
            if j + 1 < n {
                vstd::arithmetic::div_mod::lemma_small_mod((j + 1) as nat, n as nat);
            } else {
                vstd::arithmetic::div_mod::lemma_mod_self_0(n);
            }
        }
        assert(values(r@) =~= rotated(values(v@)));
    }
    r
}

/// The constraints on the registers.
pub struct Constraints {}

impl Constraints {
    /// The polynomial `b * (1 - b)` for the bitmask register `b`, from its
    /// values over the larger domain. On the smaller domain it takes the
    /// values `b_i * (1 - b_i)`, and so vanishes there if the bitmask holds
    /// zeros and ones only.
    pub fn compute_bitmask_booleanity_constraint_polynomial(registers: &Registers) -> (r: Vec<Fr>)
        ensures
            values(r@) == interpolation(
                registers.spec_domains().spec_log_size() + 2,
                registers@.booleanity_values(),
            ),
            r.len() == 4 * registers.spec_domains().spec_size(),
            evaluations(registers.spec_domains().spec_log_size() + 2, values(r@))
                == registers@.booleanity_values(),
            forall|i: nat|
                i < registers.spec_domains().spec_size() ==> poly_eval(
                    values(r@),
                    #[trigger] domain_element(registers.spec_domains().spec_log_size(), i),
                ) == registers.base().booleanity_at(i as int),
            registers.base().bitmask_is_boolean() ==> vanishes_on_domain(
                registers.spec_domains().spec_log_size(),
                values(r@),
            ),
    {
        let domains = registers.domains();
        let n4 = domains.size_4x();
        let log_n = domains.log_size();
        let one = Fr::one();
        let mut evals: Vec<Fr> = Vec::new();
        let mut j: usize = 0;
        proof {
            use_type_invariant(registers);
        }
        while j < n4
            invariant
                j <= n4,
                n4 == 4 * registers.spec_domains().spec_size(),
                registers@.has_len(n4 as nat),
                registers.bitmask@.len() == n4,
                values(registers.bitmask@) == registers@.bitmask,
                one@ == 1,
                evals.len() == j,
                forall|t: int| 0 <= t < j ==> evals@[t]@ == registers@.booleanity_at(t),
            decreases n4 - j,
        {
            let b = registers.bitmask[j];
            let one_minus_b = one.sub(&b);
            evals.push(b.mul(&one_minus_b));
            j = j + 1;
        }
        proof {
            assert(values(evals@) =~= registers@.booleanity_values());
        }
        let r = domains.interpolate_4x(&evals);
        proof {
            let k = domains.spec_log_size();
            lemma_pow2_unfold(k + 2);
            lemma_pow2_unfold(k + 1);
            assert forall|i: nat| i < domains.spec_size() implies poly_eval(
                values(r@),
                #[trigger] domain_element(k, i),
            ) == registers.base().booleanity_at(i as int) by {
                lemma_on_domain(k, values(r@), i);
                assert(registers@.bitmask[4 * (i as int)] == registers.base().bitmask[i as int]);
            }
            if registers.base().bitmask_is_boolean() {
                assert forall|i: nat| i < pow2(k) implies poly_eval(
                    values(r@),
                    #[trigger] domain_element(k, i),
                ) == 0 by {
                    lemma_boolean_vanishes(registers.base().bitmask[i as int]);
                }
            }
        }
        r
    }

    /// The two polynomials of the conditional affine addition, from the values
    /// of the registers over the larger domain. On the smaller domain they
    /// take the values of `C1` and `C2` on the registers' rows.
    pub fn compute_conditional_affine_addition_constraint_polynomials(registers: &Registers) -> (r: (
        Vec<Fr>,
        Vec<Fr>,
    ))
        ensures
            values(r.0@) == interpolation(
                registers.spec_domains().spec_log_size() + 2,
                registers@.c1_values(),
            ),
            values(r.1@) == interpolation(
                registers.spec_domains().spec_log_size() + 2,
                registers@.c2_values(),
            ),
            r.0.len() == 4 * registers.spec_domains().spec_size(),
            r.1.len() == 4 * registers.spec_domains().spec_size(),
            evaluations(registers.spec_domains().spec_log_size() + 2, values(r.0@))
                == registers@.c1_values(),
            evaluations(registers.spec_domains().spec_log_size() + 2, values(r.1@))
                == registers@.c2_values(),
            forall|i: nat|
                i < registers.spec_domains().spec_size() ==> poly_eval(
                    values(r.0@),
                    #[trigger] domain_element(registers.spec_domains().spec_log_size(), i),
                ) == registers.base().c1_at(i as int),
            forall|i: nat|
                i < registers.spec_domains().spec_size() ==> poly_eval(
                    values(r.1@),
                    #[trigger] domain_element(registers.spec_domains().spec_log_size(), i),
                ) == registers.base().c2_at(i as int),
    {
        let domains = registers.domains();
        let n4 = domains.size_4x();
        let log_n = domains.log_size();
        let one = Fr::one();
        let mut c1: Vec<Fr> = Vec::new();
        let mut c2: Vec<Fr> = Vec::new();
        let mut j: usize = 0;
        proof {
            use_type_invariant(registers);
        }
        while j < n4
            invariant
                j <= n4,
                n4 == 4 * registers.spec_domains().spec_size(),
                registers@.has_len(n4 as nat),
                registers.bitmask@.len() == n4,
                registers.pks_x@.len() == n4,
                registers.pks_y@.len() == n4,
                registers.apk_acc_x@.len() == n4,
                registers.apk_acc_y@.len() == n4,
                registers.apk_acc_x_shifted@.len() == n4,
                registers.apk_acc_y_shifted@.len() == n4,
                values(registers.bitmask@) == registers@.bitmask,
                values(registers.pks_x@) == registers@.pks_x,
                values(registers.pks_y@) == registers@.pks_y,
                values(registers.apk_acc_x@) == registers@.apk_acc_x,
                values(registers.apk_acc_y@) == registers@.apk_acc_y,
                values(registers.apk_acc_x_shifted@) == registers@.apk_acc_x_shifted,
                values(registers.apk_acc_y_shifted@) == registers@.apk_acc_y_shifted,
                one@ == 1,
                c1.len() == j,
                c2.len() == j,
                forall|t: int| 0 <= t < j ==> c1@[t]@ == registers@.c1_at(t),
                forall|t: int| 0 <= t < j ==> c2@[t]@ == registers@.c2_at(t),
            decreases n4 - j,
        {
            let b = registers.bitmask[j];
            let one_minus_b = one.sub(&b);
            let x1 = registers.apk_acc_x[j];
            let y1 = registers.apk_acc_y[j];
            let x2 = registers.pks_x[j];
            let y2 = registers.pks_y[j];
            let x3 = registers.apk_acc_x_shifted[j];
            let y3 = registers.apk_acc_y_shifted[j];
            let dx = x1.sub(&x2);
            let dy = y2.sub(&y1);
            let v1 = b.mul(&dx.mul(&dx).mul(&x1.add(&x2).add(&x3)).sub(&dy.mul(&dy))).add(
                &one_minus_b.mul(&y3.sub(&y1)),
            );
            let v2 = b.mul(&dx.mul(&y3.add(&y1)).sub(&dy.mul(&x3.sub(&x1)))).add(
                &one_minus_b.mul(&x3.sub(&x1)),
            );
            c1.push(v1);
            c2.push(v2);
            j = j + 1;
        }
        proof {
            assert(values(c1@) =~= registers@.c1_values());
            assert(values(c2@) =~= registers@.c2_values());
        }
        let p1 = domains.interpolate_4x(&c1);
        let p2 = domains.interpolate_4x(&c2);
        proof {
            let k = domains.spec_log_size();
            assert forall|i: nat| i < domains.spec_size() implies poly_eval(
                values(p1@),
                #[trigger] domain_element(k, i),
            ) == registers.base().c1_at(i as int) by {
                lemma_on_domain(k, values(p1@), i);
                registers.lemma_row_embeds(i as int);
            }
            assert forall|i: nat| i < domains.spec_size() implies poly_eval(
                values(p2@),
                #[trigger] domain_element(k, i),
            ) == registers.base().c2_at(i as int) by {
                lemma_on_domain(k, values(p2@), i);
                registers.lemma_row_embeds(i as int);
            }
        }
        (p1, p2)
    }

    /// The value of the booleanity constraint where the bitmask polynomial
    /// takes the value `bitmask_at_zeta`.
    pub fn evaluate_bitmask_booleanity_constraint(bitmask_at_zeta: Fr) -> (r: Fr)
        ensures
            r@ == booleanity(bitmask_at_zeta@),
    {
        bitmask_at_zeta.mul(&Fr::one().sub(&bitmask_at_zeta))
    }
}

/// The value at the `i`-th element of the smaller domain of a polynomial
/// given over the larger domain is its `4i`-th value there.
pub proof fn lemma_on_domain(log_n: nat, coeffs: Seq<nat>, i: nat)
    requires
        log_n <= MAX_LOG_SIZE,
        i < pow2(log_n),
    ensures
        4 * i < pow2(log_n + 2),
        poly_eval(coeffs, domain_element(log_n, i)) == evaluations(log_n + 2, coeffs)[4 * (i as int)],
{
    lemma_pow2_unfold(log_n + 2);
    lemma_pow2_unfold(log_n + 1);
    lemma_domain_embeds(log_n, i);
}

} // verus!
