//! Exact rational scalars over `i128`.
//!
//! A `Rat` holds a numerator and a positive denominator. Every arithmetic
//! operation first combines the fractions exactly with overflow-checked
//! machine arithmetic and then divides both parts by their greatest common
//! divisor, so a chain of operations either returns the mathematically exact
//! value or reports that it no longer fits. The ghost type `Ratv` mirrors the
//! representation in `int` arithmetic; every executable operation is proved
//! to return exactly what its ghost counterpart computes, which makes whole
//! computations over `Rat` deterministic functions of their inputs.

use vstd::prelude::*;
use vstd::arithmetic::div_mod::{
    lemma_div_multiples_vanish, lemma_div_nonincreasing, lemma_div_pos_is_pos,
};
use crate::arith::{divides, gcd, gcd_u, lemma_gcd_divides};

verus! {

/// Ghost image of a rational: numerator and denominator as unbounded ints.
pub struct Ratv {
    pub n: int,
    pub d: int,
}

impl Ratv {
    /// A representation the executable type can hold: positive denominator,
    /// both parts within `i128` range, and `i128::MIN` excluded so that
    /// negation never overflows.
    pub open spec fn wf(self) -> bool {
        1 <= self.d <= i128::MAX && -i128::MAX <= self.n <= i128::MAX
    }
}

/// `x` fits the executable numerator range (symmetric around zero).
pub open spec fn rv_fits(x: int) -> bool {
    -i128::MAX <= x <= i128::MAX
}

/// Two representations denote the same rational value.
pub open spec fn rv_eqv(a: Ratv, b: Ratv) -> bool {
    a.n * b.d == b.n * a.d
}

/// Absolute value of an int, as a nat.
pub open spec fn rv_abs(n: int) -> nat {
    if n >= 0 {
        n as nat
    } else {
        (-n) as nat
    }
}

/// The representation produced by dividing numerator and denominator by
/// their greatest common divisor; this is what every operation returns.
pub open spec fn rv_norm(n: int, d: int) -> Ratv
    recommends
        rv_fits(n),
        1 <= d,
{
    let g = gcd(rv_abs(n), d as nat) as int;
    if n >= 0 {
        Ratv { n: n / g, d: d / g }
    } else {
        Ratv { n: -((-n) / g), d: d / g }
    }
}

/// Exact (unreduced, unchecked) value-level operations, used to state laws.
pub open spec fn rq_add(a: Ratv, b: Ratv) -> Ratv {
    Ratv { n: a.n * b.d + b.n * a.d, d: a.d * b.d }
}

pub open spec fn rq_mul(a: Ratv, b: Ratv) -> Ratv {
    Ratv { n: a.n * b.n, d: a.d * b.d }
}

pub open spec fn rq_div(a: Ratv, b: Ratv) -> Ratv {
    Ratv { n: a.n * b.d, d: a.d * b.n }
}

pub open spec fn rv_neg(a: Ratv) -> Ratv {
    Ratv { n: -a.n, d: a.d }
}

pub open spec fn rq_zero() -> Ratv {
    Ratv { n: 0, d: 1 }
}

/// Checked addition: exact cross sum, reduced, or `None` if any machine
/// product or sum leaves `i128` range.
pub open spec fn rv_add(a: Ratv, b: Ratv) -> Option<Ratv>
    recommends
        a.wf(),
        b.wf(),
{
    let p = a.n * b.d;
    let q = b.n * a.d;
    let d0 = a.d * b.d;
    if rv_fits(p) && rv_fits(q) && rv_fits(p + q) && d0 <= i128::MAX {
        Some(rv_norm(p + q, d0))
    } else {
        None
    }
}

/// Checked subtraction, defined as addition of the negation.
pub open spec fn rv_sub(a: Ratv, b: Ratv) -> Option<Ratv>
    recommends
        a.wf(),
        b.wf(),
{
    rv_add(a, rv_neg(b))
}

/// Checked multiplication.
pub open spec fn rv_mul(a: Ratv, b: Ratv) -> Option<Ratv>
    recommends
        a.wf(),
        b.wf(),
{
    let n0 = a.n * b.n;
    let d0 = a.d * b.d;
    if rv_fits(n0) && d0 <= i128::MAX {
        Some(rv_norm(n0, d0))
    } else {
        None
    }
}

/// Checked division; `None` on a zero divisor or when a product leaves
/// `i128` range.
pub open spec fn rv_div(a: Ratv, b: Ratv) -> Option<Ratv>
    recommends
        a.wf(),
        b.wf(),
{
    if b.n == 0 {
        None
    } else {
        let p = a.n * b.d;
        let n0 = if b.n > 0 {
            p
        } else {
            -p
        };
        let d0 = if b.n > 0 {
            a.d * b.n
        } else {
            a.d * -b.n
        };
        if rv_fits(p) && d0 <= i128::MAX {
            Some(rv_norm(n0, d0))
        } else {
            None
        }
    }
}

/// Ghost image of an optional executable rational.
pub open spec fn opt_rat_v(r: Option<Rat>) -> Option<Ratv> {
    match r {
        Some(v) => Some(v@),
        None => None,
    }
}

/// Reduction keeps the value, the sign, and well-formedness.
pub proof fn lemma_norm(n: int, d: int)
    requires
        rv_fits(n),
        1 <= d <= i128::MAX,
    ensures
        rv_norm(n, d).wf(),
        rv_eqv(rv_norm(n, d), Ratv { n, d }),
        rv_norm(n, d).n > 0 <==> n > 0,
        rv_norm(n, d).n == 0 <==> n == 0,
{
    let a = rv_abs(n);
    let g = gcd(a, d as nat);
    lemma_gcd_divides(a, d as nat);
    let kn = choose|k: nat| a == #[trigger] (g * k);
    let kd = choose|k: nat| d as nat == #[trigger] (g * k);
    assert(1 <= g <= d);
    lemma_div_multiples_vanish(kn as int, g as int);
    lemma_div_multiples_vanish(kd as int, g as int);
    assert((g * kn) as int == g as int * kn as int) by (nonlinear_arith) {}
    assert((g * kd) as int == g as int * kd as int) by (nonlinear_arith) {}
    assert(a as int / g as int == kn as int);
    assert(d / g as int == kd as int);
    assert(kd >= 1) by {
        if kd == 0 {
            assert(g * kd == 0) by (nonlinear_arith)
                requires kd == 0,
            {}
        }
    }
    assert(kd as int <= d) by (nonlinear_arith)
        requires
            d == g as int * kd as int,
            g >= 1,
            kd >= 0,
    {}
    assert(kn as int <= a as int) by (nonlinear_arith)
        requires
            a as int == g as int * kn as int,
            g >= 1,
            kn >= 0,
    {}
    // sign of the reduced numerator
    if n == 0 {
        assert(a == 0);
        assert(kn == 0) by (nonlinear_arith)
            requires
                0 == g as int * kn as int,
                g >= 1,
                kn >= 0,
        {}
    } else {
        assert(a >= 1);
        assert(kn >= 1) by {
            if kn == 0 {
                assert(g * kn == 0) by (nonlinear_arith)
                    requires kn == 0,
                {}
            }
        }
    }
    // value preservation: cross multiplication
    if n >= 0 {
        assert(rv_norm(n, d).n == kn as int);
        assert(rv_norm(n, d).d == kd as int);
        assert(kn as int * d == n * kd as int) by (nonlinear_arith)
            requires
                n == g as int * kn as int,
                d == g as int * kd as int,
        {}
    } else {
        assert((-n) / g as int == kn as int);
        assert(rv_norm(n, d).n == -(kn as int));
        assert(rv_norm(n, d).d == kd as int);
        assert(-(kn as int) * d == n * kd as int) by (nonlinear_arith)
            requires
                -n == g as int * kn as int,
                d == g as int * kd as int,
        {}
    }
}

/// Reduction commutes with negation of the numerator.
pub proof fn lemma_norm_neg(n: int, d: int)
    requires
        rv_fits(n),
        1 <= d <= i128::MAX,
    ensures
        rv_norm(-n, d) == rv_neg(rv_norm(n, d)),
{
    assert(rv_abs(-n) == rv_abs(n));
    let g = gcd(rv_abs(n), d as nat) as int;
    lemma_gcd_divides(rv_abs(n), d as nat);
    if n == 0 {
        assert(0int / g == 0) by {
            vstd::arithmetic::div_mod::lemma_div_of0(g);
        }
        assert(rv_norm(-n, d) == rv_neg(rv_norm(n, d)));
    } else if n > 0 {
        assert(rv_norm(-n, d).n == -((n) / g));
        assert(rv_neg(rv_norm(n, d)).n == -(n / g));
        assert(rv_norm(-n, d) == rv_neg(rv_norm(n, d)));
    } else {
        assert(rv_norm(-n, d).n == (-n) / g);
        assert(rv_neg(rv_norm(n, d)).n == -(-((-n) / g)));
        assert(rv_norm(-n, d) == rv_neg(rv_norm(n, d)));
    }
}

/// Value equality is transitive when the middle denominator is nonzero.
pub proof fn lemma_eqv_trans(a: Ratv, b: Ratv, c: Ratv)
    requires
        rv_eqv(a, b),
        rv_eqv(b, c),
        b.d != 0,
    ensures
        rv_eqv(a, c),
{
    assert(a.n * c.d == c.n * a.d) by (nonlinear_arith)
        requires
            a.n * b.d == b.n * a.d,
            b.n * c.d == c.n * b.d,
            b.d != 0,
    {}
}

/// Addition of values respects value equality.
pub proof fn lemma_rq_add_congr(a: Ratv, a2: Ratv, b: Ratv, b2: Ratv)
    requires
        rv_eqv(a, a2),
        rv_eqv(b, b2),
    ensures
        rv_eqv(rq_add(a, b), rq_add(a2, b2)),
{
    assert(a.n * b.d * (a2.d * b2.d) == (a2.n * b2.d) * (a.d * b.d)) by (nonlinear_arith)
        requires
            a.n * a2.d == a2.n * a.d,
    {}
    assert(b.n * a.d * (a2.d * b2.d) == (b2.n * a2.d) * (a.d * b.d)) by (nonlinear_arith)
        requires
            b.n * b2.d == b2.n * b.d,
    {}
    assert((a.n * b.d + b.n * a.d) * (a2.d * b2.d) == (a2.n * b2.d + b2.n * a2.d) * (a.d * b.d))
        by (nonlinear_arith)
        requires
            a.n * b.d * (a2.d * b2.d) == (a2.n * b2.d) * (a.d * b.d),
            b.n * a.d * (a2.d * b2.d) == (b2.n * a2.d) * (a.d * b.d),
    {}
}

/// Multiplication of values respects value equality.
pub proof fn lemma_rq_mul_congr(a: Ratv, a2: Ratv, b: Ratv, b2: Ratv)
    requires
        rv_eqv(a, a2),
        rv_eqv(b, b2),
    ensures
        rv_eqv(rq_mul(a, b), rq_mul(a2, b2)),
{
    assert((a.n * b.n) * (a2.d * b2.d) == (a2.n * b2.n) * (a.d * b.d)) by (nonlinear_arith)
        requires
            a.n * a2.d == a2.n * a.d,
            b.n * b2.d == b2.n * b.d,
    {}
}

/// A checked sum, when it exists, has the exact value of the sum.
pub proof fn lemma_rv_add_value(a: Ratv, b: Ratv)
    requires
        a.wf(),
        b.wf(),
        rv_add(a, b) is Some,
    ensures
        rv_add(a, b)->Some_0.wf(),
        rv_eqv(rv_add(a, b)->Some_0, rq_add(a, b)),
{
    assert(1 <= a.d * b.d) by (nonlinear_arith)
        requires
            a.d >= 1,
            b.d >= 1,
    {}
    lemma_norm(a.n * b.d + b.n * a.d, a.d * b.d);
}

/// A checked product, when it exists, has the exact value of the product.
pub proof fn lemma_rv_mul_value(a: Ratv, b: Ratv)
    requires
        a.wf(),
        b.wf(),
        rv_mul(a, b) is Some,
    ensures
        rv_mul(a, b)->Some_0.wf(),
        rv_eqv(rv_mul(a, b)->Some_0, rq_mul(a, b)),
{
    assert(1 <= a.d * b.d) by (nonlinear_arith)
        requires
            a.d >= 1,
            b.d >= 1,
    {}
    lemma_norm(a.n * b.n, a.d * b.d);
}

/// A checked quotient, when it exists, has the exact value of the quotient.
pub proof fn lemma_rv_div_value(a: Ratv, b: Ratv)
    requires
        a.wf(),
        b.wf(),
        rv_div(a, b) is Some,
    ensures
        rv_div(a, b)->Some_0.wf(),
        rv_eqv(rv_div(a, b)->Some_0, rq_div(a, b)),
{
    let p = a.n * b.d;
    if b.n > 0 {
        assert(1 <= a.d * b.n) by (nonlinear_arith)
            requires
                a.d >= 1,
                b.n >= 1,
        {}
        lemma_norm(p, a.d * b.n);
    } else {
        assert(1 <= a.d * -b.n) by (nonlinear_arith)
            requires
                a.d >= 1,
                -b.n >= 1,
        {}
        let d0 = a.d * -b.n;
        lemma_norm(-p, d0);
        let m = rv_norm(-p, d0);
        assert(m.n * (a.d * b.n) == (a.n * b.d) * m.d) by (nonlinear_arith)
            requires
                m.n * (a.d * -b.n) == -p * m.d,
                p == a.n * b.d,
        {}
    }
}

/// An exact rational scalar.
#[derive(Clone, Copy, Debug)]
pub struct Rat {
    num: i128,
    den: i128,
}

impl View for Rat {
    type V = Ratv;

    closed spec fn view(&self) -> Ratv {
        Ratv { n: self.num as int, d: self.den as int }
    }
}

/// Checked `i128` product with `i128::MIN` excluded.
fn mul_i(a: i128, b: i128) -> (r: Option<i128>)
    ensures
        rv_fits(a as int * b as int) ==> r == Some((a as int * b as int) as i128),
        !rv_fits(a as int * b as int) ==> r is None,
{
    match a.checked_mul(b) {
        Some(p) => {
            if p == i128::MIN {
                None
            } else {
                Some(p)
            }
        },
        None => None,
    }
}

/// Checked `i128` sum with `i128::MIN` excluded.
fn add_i(a: i128, b: i128) -> (r: Option<i128>)
    ensures
        rv_fits(a as int + b as int) ==> r == Some((a as int + b as int) as i128),
        !rv_fits(a as int + b as int) ==> r is None,
{
    match a.checked_add(b) {
        Some(p) => {
            if p == i128::MIN {
                None
            } else {
                Some(p)
            }
        },
        None => None,
    }
}

/// Divide numerator and denominator by their greatest common divisor.
fn norm_exec(n0: i128, d0: i128) -> (r: Rat)
    requires
        -i128::MAX <= n0,
        1 <= d0,
    ensures
        r@ == rv_norm(n0 as int, d0 as int),
        r@.wf(),
{
    proof {
        lemma_norm(n0 as int, d0 as int);
    }
    let neg = n0 < 0;
    let na: u128 = if neg {
        (-n0) as u128
    } else {
        n0 as u128
    };
    let da: u128 = d0 as u128;
    let g = gcd_u(na, da);
    proof {
        lemma_gcd_divides(na as nat, da as nat);
        lemma_div_pos_is_pos(na as int, g as int);
        lemma_div_nonincreasing(na as int, g as int);
        lemma_div_pos_is_pos(da as int, g as int);
        lemma_div_nonincreasing(da as int, g as int);
    }
    let nr = na / g;
    let dr = da / g;
    proof {
        let kd = choose|k: nat| da as nat == #[trigger] (gcd(na as nat, da as nat) * k);
        lemma_div_multiples_vanish(kd as int, g as int);
        assert((gcd(na as nat, da as nat) * kd) as int == g as int * kd as int)
            by (nonlinear_arith)
            requires g == gcd(na as nat, da as nat),
        {}
        assert(dr == kd);
        assert(kd >= 1) by {
            if kd == 0 {
                assert(gcd(na as nat, da as nat) * kd == 0) by (nonlinear_arith)
                    requires kd == 0,
                {}
            }
        }
        assert(rv_abs(n0 as int) == na as nat);
    }
    if neg {
        Rat { num: -(nr as i128), den: dr as i128 }
    } else {
        Rat { num: nr as i128, den: dr as i128 }
    }
}

impl Rat {
    /// Build a rational from a numerator and a positive denominator; the
    /// stored representation is reduced. Returns `None` when the denominator
    /// is not positive or either part is `i128::MIN`.
    pub fn new(num: i128, den: i128) -> (r: Option<Rat>)
        ensures
            (1 <= den as int && -i128::MAX <= num as int) ==> (r matches Some(v) && v@
                == rv_norm(num as int, den as int) && v@.wf()),
            !(1 <= den as int && -i128::MAX <= num as int) ==> r is None,
    {
        if den < 1 || num == i128::MIN {
            None
        } else {
            Some(norm_exec(num, den))
        }
    }

    /// The integer `i` as a rational.
    pub fn from_int(i: i128) -> (r: Option<Rat>)
        ensures
            i as int != i128::MIN as int ==> (r matches Some(v) && v@ == (Ratv {
                n: i as int,
                d: 1,
            }) && v@.wf()),
            i as int == i128::MIN as int ==> r is None,
    {
        if i == i128::MIN {
            None
        } else {
            Some(Rat { num: i, den: 1 })
        }
    }

    /// A rational from parts already known to be in range; not reduced.
    pub(crate) fn from_raw(num: i128, den: i128) -> (r: Rat)
        requires
            1 <= den as int,
            -i128::MAX <= num as int,
        ensures
            r@ == (Ratv { n: num as int, d: den as int }),
            r@.wf(),
    {
        Rat { num, den }
    }

    /// Reduced numerator of the stored representation.
    pub fn num(&self) -> (r: i128)
        ensures
            r as int == self@.n,
    {
        self.num
    }

    /// Positive denominator of the stored representation.
    pub fn den(&self) -> (r: i128)
        ensures
            r as int == self@.d,
    {
        self.den
    }

    /// The value is strictly positive.
    pub fn is_positive(&self) -> (r: bool)
        requires
            self@.wf(),
        ensures
            r == (self@.n > 0),
    {
        self.num > 0
    }

    /// The value is exactly zero.
    pub fn is_zero(&self) -> (r: bool)
        ensures
            r == (self@.n == 0),
    {
        self.num == 0
    }

    /// Exact negation; never overflows thanks to the representation range.
    pub fn neg(&self) -> (r: Rat)
        requires
            self@.wf(),
        ensures
            r@ == rv_neg(self@),
            r@.wf(),
    {
        Rat { num: -self.num, den: self.den }
    }

    /// Checked exact addition.
    pub fn add(&self, other: &Rat) -> (r: Option<Rat>)
        requires
            self@.wf(),
            other@.wf(),
        ensures
            opt_rat_v(r) == rv_add(self@, other@),
            r matches Some(v) ==> v@.wf(),
    {
        proof {
            assert(1 <= self@.d * other@.d) by (nonlinear_arith)
                requires
                    self@.d >= 1,
                    other@.d >= 1,
            {}
        }
        let p = match mul_i(self.num, other.den) {
            Some(x) => x,
            None => {
                return None;
            },
        };
        let q = match mul_i(other.num, self.den) {
            Some(x) => x,
            None => {
                return None;
            },
        };
        let n0 = match add_i(p, q) {
            Some(x) => x,
            None => {
                return None;
            },
        };
        let d0 = match mul_i(self.den, other.den) {
            Some(x) => x,
            None => {
                return None;
            },
        };
        Some(norm_exec(n0, d0))
    }

    /// Checked exact subtraction.
    pub fn sub(&self, other: &Rat) -> (r: Option<Rat>)
        requires
            self@.wf(),
            other@.wf(),
        ensures
            opt_rat_v(r) == rv_sub(self@, other@),
            r matches Some(v) ==> v@.wf(),
    {
        self.add(&other.neg())
    }

    /// Checked exact multiplication.
    pub fn mul(&self, other: &Rat) -> (r: Option<Rat>)
        requires
            self@.wf(),
            other@.wf(),
        ensures
            opt_rat_v(r) == rv_mul(self@, other@),
            r matches Some(v) ==> v@.wf(),
    {
        proof {
            assert(1 <= self@.d * other@.d) by (nonlinear_arith)
                requires
                    self@.d >= 1,
                    other@.d >= 1,
            {}
        }
        let n0 = match mul_i(self.num, other.num) {
            Some(x) => x,
            None => {
                return None;
            },
        };
        let d0 = match mul_i(self.den, other.den) {
            Some(x) => x,
            None => {
                return None;
            },
        };
        Some(norm_exec(n0, d0))
    }

    /// Checked exact division; `None` on a zero divisor.
    pub fn div(&self, other: &Rat) -> (r: Option<Rat>)
        requires
            self@.wf(),
            other@.wf(),
        ensures
            opt_rat_v(r) == rv_div(self@, other@),
            r matches Some(v) ==> v@.wf(),
    {
        if other.num == 0 {
            return None;
        }
        let p = match mul_i(self.num, other.den) {
            Some(x) => x,
            None => {
                return None;
            },
        };
        if other.num > 0 {
            proof {
                assert(1 <= self@.d * other@.n) by (nonlinear_arith)
                    requires
                        self@.d >= 1,
                        other@.n >= 1,
                {}
            }
            let d0 = match mul_i(self.den, other.num) {
                Some(x) => x,
                None => {
                    return None;
                },
            };
            Some(norm_exec(p, d0))
        } else {
            proof {
                assert(1 <= self@.d * -other@.n) by (nonlinear_arith)
                    requires
                        self@.d >= 1,
                        -other@.n >= 1,
                {}
            }
            let d0 = match mul_i(self.den, -other.num) {
                Some(x) => x,
                None => {
                    return None;
                },
            };
            Some(norm_exec(-p, d0))
        }
    }

    /// Whether two rationals denote the same value; `None` when the cross
    /// products needed for the comparison do not fit in `i128`.
    pub fn value_eq(&self, other: &Rat) -> (r: Option<bool>)
        requires
            self@.wf(),
            other@.wf(),
        ensures
            r matches Some(b) ==> b == rv_eqv(self@, other@),
    {
        let p = match mul_i(self.num, other.den) {
            Some(x) => x,
            None => {
                return None;
            },
        };
        let q = match mul_i(other.num, self.den) {
            Some(x) => x,
            None => {
                return None;
            },
        };
        Some(p == q)
    }
}

} // verus!
