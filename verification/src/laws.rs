//! The physical laws the simulation obeys, stated over the ghost model and
//! proved once and for all.

use vstd::prelude::*;
use crate::body::{BodyV, SimError};
use crate::rat::{
    lemma_norm, lemma_norm_neg, lemma_rv_add_value, lemma_rv_mul_value, rq_add, rq_mul, rq_zero,
    rv_add, rv_eqv, rv_mul, rv_neg, rv_sub, Ratv,
};
use crate::sim::{all_wf, forces_v, net_force, pair_force, step_v};
use crate::vec3::{rv3_neg, rv3_norm2, rv3_scale, rv3_sub, v3_zero, V3v};

verus! {

/// Subtraction is antisymmetric: `b - a` exists exactly when `a - b` does,
/// and is its exact negation, representation included.
pub proof fn lemma_rv_sub_antisym(a: Ratv, b: Ratv)
    requires
        a.wf(),
        b.wf(),
    ensures
        rv_sub(a, b) is Some <==> rv_sub(b, a) is Some,
        rv_sub(a, b) matches Some(v) ==> rv_sub(b, a) == Some(rv_neg(v)),
{
    assert(b.n * a.d == -((-b.n) * a.d)) by (nonlinear_arith) {}
    assert((-a.n) * b.d == -(a.n * b.d)) by (nonlinear_arith) {}
    assert(b.d * a.d == a.d * b.d) by (nonlinear_arith) {}
    if rv_sub(a, b) is Some {
        assert(1 <= a.d * b.d) by (nonlinear_arith)
            requires
                a.d >= 1,
                b.d >= 1,
        {}
        lemma_norm_neg(a.n * b.d + (-b.n) * a.d, a.d * b.d);
    }
}

/// Squaring ignores the sign of the representation.
pub proof fn lemma_rv_square_neg(a: Ratv)
    ensures
        rv_mul(rv_neg(a), rv_neg(a)) == rv_mul(a, a),
{
    assert((-a.n) * (-a.n) == a.n * a.n) by (nonlinear_arith) {}
}

/// Scaling a negated value negates the result, representation included.
pub proof fn lemma_rv_mul_neg_left(a: Ratv, k: Ratv)
    requires
        a.wf(),
        k.wf(),
    ensures
        rv_mul(rv_neg(a), k) is Some <==> rv_mul(a, k) is Some,
        rv_mul(a, k) matches Some(v) ==> rv_mul(rv_neg(a), k) == Some(rv_neg(v)),
{
    assert((-a.n) * k.n == -(a.n * k.n)) by (nonlinear_arith) {}
    if rv_mul(a, k) is Some {
        assert(1 <= a.d * k.d) by (nonlinear_arith)
            requires
                a.d >= 1,
                k.d >= 1,
        {}
        lemma_norm_neg(a.n * k.n, a.d * k.d);
    }
}

/// Newton's third law: whenever the force on body `i` from body `j` is
/// defined, so is the force on `j` from `i`, and the two are exact
/// negations of one another — equal in magnitude, opposite in direction.
pub proof fn lemma_newton_third_law<A>(g: Ratv, bs: Seq<BodyV<A>>, i: int, j: int)
    requires
        g.wf(),
        all_wf(bs),
        0 <= i < bs.len(),
        0 <= j < bs.len(),
        i != j,
        pair_force(g, bs, i, j) is Ok,
    ensures
        pair_force(g, bs, j, i) is Ok,
        pair_force(g, bs, j, i)->Ok_0 == rv3_neg(pair_force(g, bs, i, j)->Ok_0),
{
    let bi = bs[i];
    let bj = bs[j];
    assert(bi.wf());
    assert(bj.wf());
    lemma_rv_sub_antisym(bj.position.x, bi.position.x);
    lemma_rv_sub_antisym(bj.position.y, bi.position.y);
    lemma_rv_sub_antisym(bj.position.z, bi.position.z);
    lemma_rv_add_value(bj.position.x, rv_neg(bi.position.x));
    lemma_rv_add_value(bj.position.y, rv_neg(bi.position.y));
    lemma_rv_add_value(bj.position.z, rv_neg(bi.position.z));
    let disp = rv3_sub(bj.position, bi.position)->Some_0;
    assert(disp.wf());
    assert(rv3_sub(bi.position, bj.position) == Some(rv3_neg(disp)));
    lemma_rv_square_neg(disp.x);
    lemma_rv_square_neg(disp.y);
    lemma_rv_square_neg(disp.z);
    assert(rv3_norm2(rv3_neg(disp)) == rv3_norm2(disp));
    crate::sim::lemma_norm2_nonneg(disp);
    let d2 = rv3_norm2(disp)->Some_0;
    let q = (d2.n * crate::sim::DIST_SCALE_SQ as int) / d2.d;
    assert(q >= 0) by {
        vstd::arithmetic::div_mod::lemma_div_pos_is_pos(
            d2.n * crate::sim::DIST_SCALE_SQ as int, d2.d,
        );
        assert(d2.n * crate::sim::DIST_SCALE_SQ as int >= 0) by (nonlinear_arith)
            requires d2.n >= 0,
        {}
    }
    assert(q <= d2.n * crate::sim::DIST_SCALE_SQ as int) by {
        vstd::arithmetic::div_mod::lemma_div_nonincreasing(
            d2.n * crate::sim::DIST_SCALE_SQ as int, d2.d,
        );
    }
    let s = crate::arith::isqrt(q as nat) as int;
    crate::arith::lemma_isqrt_bounds(q as nat);
    assert(s <= 0xFFFF_FFFF_FFFF_FFFFu64 as int) by (nonlinear_arith)
        requires
            s * s <= q,
            q <= u128::MAX as int,
            s >= 0,
    {}
    let inv_dist = Ratv { n: crate::sim::DIST_SCALE as int, d: s };
    let mlo = if i <= j {
        bi.mass
    } else {
        bj.mass
    };
    let mhi = if i <= j {
        bj.mass
    } else {
        bi.mass
    };
    assert(inv_dist.wf());
    lemma_rv_mul_value(g, mlo);
    let gm = rv_mul(g, mlo)->Some_0;
    lemma_rv_mul_value(gm, mhi);
    let gmm = rv_mul(gm, mhi)->Some_0;
    crate::rat::lemma_rv_div_value(gmm, d2);
    let mag = crate::rat::rv_div(gmm, d2)->Some_0;
    lemma_rv_mul_value(mag, inv_dist);
    let k = rv_mul(mag, inv_dist)->Some_0;
    lemma_rv_mul_neg_left(disp.x, k);
    lemma_rv_mul_neg_left(disp.y, k);
    lemma_rv_mul_neg_left(disp.z, k);
    let f = rv3_scale(disp, k)->Some_0;
    assert(rv3_scale(rv3_neg(disp), k) == Some(rv3_neg(f)));
    assert(pair_force(g, bs, j, i) == Ok::<V3v, SimError>(rv3_neg(f)));
}

/// A zero value times anything well formed is exactly the zero value.
pub proof fn lemma_rv_mul_zero_left(k: Ratv)
    requires
        k.wf(),
    ensures
        rv_mul(rq_zero(), k) == Some(rq_zero()),
{
    assert(0 * k.n == 0 && 1 * k.d == k.d) by (nonlinear_arith) {}
    lemma_norm_zero(k.d);
}

/// Reducing `0 / d` gives exactly `0 / 1`.
pub proof fn lemma_norm_zero(d: int)
    requires
        1 <= d <= i128::MAX,
    ensures
        crate::rat::rv_norm(0, d) == rq_zero(),
{
    assert(crate::arith::gcd(0nat, d as nat) == d as nat) by {
        assert(crate::arith::gcd(d as nat, 0nat) == d as nat);
        assert(0nat % (d as nat) == 0nat);
    }
    vstd::arithmetic::div_mod::lemma_div_of0(d);
    vstd::arithmetic::div_mod::lemma_div_by_self(d);
}

/// Adding the zero value returns the (reduced) other operand: it always
/// succeeds and keeps the value.
pub proof fn lemma_rv_add_zero_left(x: Ratv)
    requires
        x.wf(),
    ensures
        rv_add(rq_zero(), x) is Some,
        rv_add(rq_zero(), x) matches Some(v) ==> v.wf() && rv_eqv(v, x),
{
    assert(0 * x.d == 0 && x.n * 1 == x.n && 1 * x.d == x.d) by (nonlinear_arith) {}
    lemma_norm(x.n, x.d);
}

/// The mirror image: `x + 0` always succeeds and keeps the value.
pub proof fn lemma_rv_add_zero_right(x: Ratv)
    requires
        x.wf(),
    ensures
        rv_add(x, rq_zero()) is Some,
        rv_add(x, rq_zero()) matches Some(v) ==> v.wf() && rv_eqv(v, x),
{
    assert(0 * x.d == 0 && x.n * 1 == x.n && x.d * 1 == x.d) by (nonlinear_arith) {}
    lemma_norm(x.n, x.d);
}

/// Dividing the zero value by a positive value gives exactly zero.
pub proof fn lemma_rv_div_zero(m: Ratv)
    requires
        m.wf(),
        m.n > 0,
    ensures
        crate::rat::rv_div(rq_zero(), m) == Some(rq_zero()),
{
    assert(0 * m.d == 0 && 1 * m.n == m.n) by (nonlinear_arith) {}
    lemma_norm_zero(m.n);
}

/// In a configuration with exactly one body the net force is exactly zero.
pub proof fn lemma_isolated_body_force<A>(g: Ratv, bs: Seq<BodyV<A>>)
    requires
        g.wf(),
        all_wf(bs),
        bs.len() == 1,
    ensures
        forces_v(g, bs) == Ok::<Seq<V3v>, SimError>(seq![v3_zero()]),
        net_force(g, bs, 0) == Ok::<V3v, SimError>(v3_zero()),
{
    assert(net_force_upto_law(g, bs, 0, 0) == Ok::<V3v, SimError>(v3_zero()));
    assert(net_force_upto_law(g, bs, 0, 1) == Ok::<V3v, SimError>(v3_zero()));
    assert(net_force(g, bs, 0) == Ok::<V3v, SimError>(v3_zero()));
    assert(forces_upto_law(g, bs, 0) == Ok::<Seq<V3v>, SimError>(Seq::empty()));
    assert(forces_upto_law(g, bs, 1) == Ok::<Seq<V3v>, SimError>(Seq::empty().push(v3_zero())));
    assert(forces_v(g, bs) == Ok::<Seq<V3v>, SimError>(Seq::empty().push(v3_zero())));
    assert(Seq::empty().push(v3_zero()) =~= seq![v3_zero()]);
}

/// Shorthand used to unfold the recursive force accumulation.
pub open spec fn net_force_upto_law<A>(g: Ratv, bs: Seq<BodyV<A>>, i: int, j: int) -> Result<
    V3v,
    SimError,
> {
    crate::sim::net_force_upto(g, bs, i, j)
}

/// Shorthand used to unfold the recursive force table.
pub open spec fn forces_upto_law<A>(g: Ratv, bs: Seq<BodyV<A>>, i: int) -> Result<
    Seq<V3v>,
    SimError,
> {
    crate::sim::forces_upto(g, bs, i)
}

/// One step of a single isolated body: the velocity is unchanged in value,
/// and each position component advances by exactly
/// `velocity * (dt * time_scale)`.
pub proof fn lemma_isolated_body_step<A>(g: Ratv, ts: Ratv, bs: Seq<BodyV<A>>, dt: Ratv)
    requires
        g.wf(),
        ts.wf(),
        dt.wf(),
        all_wf(bs),
        bs.len() == 1,
        step_v(g, ts, bs, dt) is Ok,
    ensures
        step_v(g, ts, bs, dt)->Ok_0.len() == 1,
        v3_eqv_law(step_v(g, ts, bs, dt)->Ok_0[0].velocity, bs[0].velocity),
        position_advanced_by(
            step_v(g, ts, bs, dt)->Ok_0[0].position,
            bs[0].position,
            bs[0].velocity,
            rq_mul(dt, ts),
        ),
{
    lemma_isolated_body_force(g, bs);
    let dte = rv_mul(dt, ts)->Some_0;
    lemma_rv_mul_value(dt, ts);
    let kk = rq_mul(dt, ts);
    assert(kk.d >= 1) by (nonlinear_arith)
        requires
            dt.d >= 1,
            ts.d >= 1,
            kk.d == dt.d * ts.d,
    {}
    let b = bs[0];
    assert(b.wf());
    let fs = forces_v(g, bs)->Ok_0;
    assert(fs[0] == v3_zero());
    assert(crate::sim::integrate_upto(bs, fs, dte, 0) == Ok::<Seq<BodyV<A>>, SimError>(
        Seq::empty(),
    ));
    let nb = crate::sim::integrate_body(b, v3_zero(), dte);
    assert(nb is Ok);
    assert(step_v(g, ts, bs, dt)->Ok_0 == Seq::empty().push(nb->Ok_0));
    lemma_isolated_component(b.mass, b.velocity.x, b.position.x, dte, kk);
    lemma_isolated_component(b.mass, b.velocity.y, b.position.y, dte, kk);
    lemma_isolated_component(b.mass, b.velocity.z, b.position.z, dte, kk);
}

/// Component-level core of the isolated-body law: with a zero force the
/// velocity keeps its value and the position gains `v * k` where `k` is the
/// value of the effective time step.
proof fn lemma_isolated_component(m: Ratv, v: Ratv, p: Ratv, dte: Ratv, kk: Ratv)
    requires
        m.wf(),
        m.n > 0,
        v.wf(),
        p.wf(),
        dte.wf(),
        kk.d >= 1,
        rv_eqv(dte, kk),
    ensures
        crate::rat::rv_div(rq_zero(), m) == Some(rq_zero()),
        rv_mul(rq_zero(), dte) == Some(rq_zero()),
        rv_add(v, rq_zero()) is Some,
        rv_add(v, rq_zero()) matches Some(v1) ==> v1.wf() && rv_eqv(v1, v) && (rv_mul(v1, dte)
            matches Some(dp) ==> dp.wf() && rv_eqv(dp, rq_mul(v, kk)) && (rv_add(p, dp)
            matches Some(p1) ==> rv_eqv(p1, rq_add(p, rq_mul(v, kk))))),
{
    lemma_rv_div_zero(m);
    lemma_rv_mul_zero_left(dte);
    lemma_rv_add_zero_right(v);
    let v1 = rv_add(v, rq_zero())->Some_0;
    if rv_mul(v1, dte) is Some {
        lemma_rv_mul_value(v1, dte);
        let dp = rv_mul(v1, dte)->Some_0;
        crate::rat::lemma_rq_mul_congr(v1, v, dte, kk);
        assert(v1.d * dte.d >= 1) by (nonlinear_arith)
            requires
                v1.d >= 1,
                dte.d >= 1,
        {}
        crate::rat::lemma_eqv_trans(dp, rq_mul(v1, dte), rq_mul(v, kk));
        if rv_add(p, dp) is Some {
            lemma_rv_add_value(p, dp);
            let p1 = rv_add(p, dp)->Some_0;
            assert(rv_eqv(p, p));
            crate::rat::lemma_rq_add_congr(p, p, dp, rq_mul(v, kk));
            assert(p.d * dp.d >= 1) by (nonlinear_arith)
                requires
                    p.d >= 1,
                    dp.d >= 1,
            {}
            crate::rat::lemma_eqv_trans(p1, rq_add(p, dp), rq_add(p, rq_mul(v, kk)));
        }
    }
}

/// A whole run: the states reached by applying `step_v` for each entry of
/// `dts` in order, stopping at the first error.
pub open spec fn run_v<A>(g: Ratv, ts: Ratv, bs: Seq<BodyV<A>>, dts: Seq<Ratv>) -> Result<
    Seq<BodyV<A>>,
    SimError,
>
    decreases dts.len(),
{
    if dts.len() == 0 {
        Ok(bs)
    } else {
        match step_v(g, ts, bs, dts[0]) {
            Err(e) => Err(e),
            Ok(nb) => run_v(g, ts, nb, dts.skip(1)),
        }
    }
}

/// Determinism: a run is a pure function of the initial configuration and
/// the sequence of time steps — two runs from identical state through
/// identical steps end in identical states. Together with `step`'s
/// contract, which pins the executable step to `step_v` exactly, this
/// extends to the executable simulation.
pub proof fn lemma_determinism<A>(
    g1: Ratv,
    ts1: Ratv,
    bs1: Seq<BodyV<A>>,
    dts1: Seq<Ratv>,
    g2: Ratv,
    ts2: Ratv,
    bs2: Seq<BodyV<A>>,
    dts2: Seq<Ratv>,
)
    requires
        g1 == g2,
        ts1 == ts2,
        bs1 == bs2,
        dts1 == dts2,
    ensures
        run_v(g1, ts1, bs1, dts1) == run_v(g2, ts2, bs2, dts2),
{
}

/// Both vectors denote the same value, component by component.
pub open spec fn v3_eqv_law(a: V3v, b: V3v) -> bool {
    rv_eqv(a.x, b.x) && rv_eqv(a.y, b.y) && rv_eqv(a.z, b.z)
}

/// `p1` is `p0 + v * dte` in value, component by component.
pub open spec fn position_advanced_by(p1: V3v, p0: V3v, v: V3v, dte: Ratv) -> bool {
    rv_eqv(p1.x, rq_add(p0.x, rq_mul(v.x, dte))) && rv_eqv(p1.y, rq_add(p0.y, rq_mul(v.y, dte)))
        && rv_eqv(p1.z, rq_add(p0.z, rq_mul(v.z, dte)))
}

} // verus!
