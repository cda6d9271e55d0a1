//! The simulation: body storage, the pairwise gravitational force model, and
//! the semi-implicit Euler integrator.
//!
//! Every executable operation is proved to return exactly what the ghost
//! model (`pair_force`, `net_force`, `forces_v`, `step_v`) computes, so a
//! step is a deterministic function of the prior state and the time step. A
//! step either fully applies or reports an error and leaves every body
//! untouched.

use vstd::prelude::*;
use crate::arith::{isqrt, isqrt_u, lemma_isqrt_bounds};
use crate::body::{Body, BodyV, SimError};
use crate::rat::{lemma_norm, rv_add, rv_div, rv_mul, Rat, Ratv};
use crate::vec3::{rv3_add, rv3_div, rv3_norm2, rv3_scale, rv3_sub, v3_zero, V3v, Vec3};

verus! {

/// Distance resolution: distances are approximated as integer multiples of
/// `1 / DIST_SCALE`.
pub const DIST_SCALE: i128 = 1_000_000_000;

/// `DIST_SCALE * DIST_SCALE`, the factor applied to a squared distance
/// before taking the integer square root.
pub const DIST_SCALE_SQ: u128 = 1_000_000_000_000_000_000;

/// Ghost image of a body sequence.
pub open spec fn bodies_v<A>(s: Seq<Body<A>>) -> Seq<BodyV<A>> {
    Seq::new(s.len(), |k: int| s[k]@)
}

/// Every body in the sequence is well formed.
pub open spec fn all_wf<A>(bs: Seq<BodyV<A>>) -> bool {
    forall|k: int| 0 <= k < bs.len() ==> (#[trigger] bs[k]).wf()
}

/// Ghost image of an executable force-vector result.
pub open spec fn res_v3(r: Result<Vec3, SimError>) -> Result<V3v, SimError> {
    match r {
        Ok(f) => Ok(f@),
        Err(e) => Err(e),
    }
}

/// The gravitational force exerted on body `i` by body `j`.
///
/// The displacement, its squared norm, the magnitude `g * m_i * m_j / d2`
/// and the final scaling are exact rational arithmetic; only the distance
/// itself is approximated, by the integer square root of the squared norm
/// scaled to resolution `1 / DIST_SCALE`. The mass product is always taken
/// in index order, so the whole computation is symmetric in `i` and `j` up
/// to the sign of the displacement.
pub open spec fn pair_force<A>(g: Ratv, bs: Seq<BodyV<A>>, i: int, j: int) -> Result<
    V3v,
    SimError,
>
    recommends
        0 <= i < bs.len(),
        0 <= j < bs.len(),
        i != j,
{
    match rv3_sub(bs[j].position, bs[i].position) {
        None => Err(SimError::NumericOverflow),
        Some(disp) => match rv3_norm2(disp) {
            None => Err(SimError::NumericOverflow),
            Some(d2) => if d2.n == 0 {
                Err(SimError::DegenerateConfiguration)
            } else if d2.n * DIST_SCALE_SQ as int > u128::MAX as int {
                Err(SimError::NumericOverflow)
            } else {
                let s = isqrt(((d2.n * DIST_SCALE_SQ as int) / d2.d) as nat) as int;
                if s == 0 {
                    Err(SimError::DegenerateConfiguration)
                } else {
                    let inv_dist = Ratv { n: DIST_SCALE as int, d: s };
                    let mlo = if i <= j {
                        bs[i].mass
                    } else {
                        bs[j].mass
                    };
                    let mhi = if i <= j {
                        bs[j].mass
                    } else {
                        bs[i].mass
                    };
                    match rv_mul(g, mlo) {
                        None => Err(SimError::NumericOverflow),
                        Some(gm) => match rv_mul(gm, mhi) {
                            None => Err(SimError::NumericOverflow),
                            Some(gmm) => match rv_div(gmm, d2) {
                                None => Err(SimError::NumericOverflow),
                                Some(mag) => match rv_mul(mag, inv_dist) {
                                    None => Err(SimError::NumericOverflow),
                                    Some(k) => match rv3_scale(disp, k) {
                                        None => Err(SimError::NumericOverflow),
                                        Some(f) => Ok(f),
                                    },
                                },
                            },
                        },
                    }
                }
            },
        },
    }
}

/// Net force on body `i` accumulated over the partners `0 .. j`.
pub open spec fn net_force_upto<A>(g: Ratv, bs: Seq<BodyV<A>>, i: int, j: int) -> Result<
    V3v,
    SimError,
>
    decreases j,
{
    if j <= 0 {
        Ok(v3_zero())
    } else {
        match net_force_upto(g, bs, i, j - 1) {
            Err(e) => Err(e),
            Ok(acc) => if i == j - 1 {
                Ok(acc)
            } else {
                match pair_force(g, bs, i, j - 1) {
                    Err(e) => Err(e),
                    Ok(f) => match rv3_add(acc, f) {
                        None => Err(SimError::NumericOverflow),
                        Some(s) => Ok(s),
                    },
                }
            },
        }
    }
}

/// Net force on body `i` from every other body.
pub open spec fn net_force<A>(g: Ratv, bs: Seq<BodyV<A>>, i: int) -> Result<V3v, SimError> {
    net_force_upto(g, bs, i, bs.len() as int)
}

/// Net forces for the bodies `0 .. i`, index-aligned with the body sequence.
pub open spec fn forces_upto<A>(g: Ratv, bs: Seq<BodyV<A>>, i: int) -> Result<Seq<V3v>, SimError>
    decreases i,
{
    if i <= 0 {
        Ok(Seq::empty())
    } else {
        match forces_upto(g, bs, i - 1) {
            Err(e) => Err(e),
            Ok(fs) => match net_force(g, bs, i - 1) {
                Err(e) => Err(e),
                Ok(f) => Ok(fs.push(f)),
            },
        }
    }
}

/// One net force vector per body.
pub open spec fn forces_v<A>(g: Ratv, bs: Seq<BodyV<A>>) -> Result<Seq<V3v>, SimError> {
    forces_upto(g, bs, bs.len() as int)
}

/// Semi-implicit Euler update of one body: the velocity advances first, and
/// the position then advances with the already-updated velocity.
pub open spec fn integrate_body<A>(b: BodyV<A>, f: V3v, dte: Ratv) -> Result<BodyV<A>, SimError> {
    match rv3_div(f, b.mass) {
        None => Err(SimError::NumericOverflow),
        Some(acc) => match rv3_scale(acc, dte) {
            None => Err(SimError::NumericOverflow),
            Some(dv) => match rv3_add(b.velocity, dv) {
                None => Err(SimError::NumericOverflow),
                Some(v1) => match rv3_scale(v1, dte) {
                    None => Err(SimError::NumericOverflow),
                    Some(dp) => match rv3_add(b.position, dp) {
                        None => Err(SimError::NumericOverflow),
                        Some(p1) => Ok(
                            BodyV { mass: b.mass, position: p1, velocity: v1, attrs: b.attrs },
                        ),
                    },
                },
            },
        },
    }
}

/// Integrated states for the bodies `0 .. i`.
pub open spec fn integrate_upto<A>(
    bs: Seq<BodyV<A>>,
    fs: Seq<V3v>,
    dte: Ratv,
    i: int,
) -> Result<Seq<BodyV<A>>, SimError>
    decreases i,
{
    if i <= 0 {
        Ok(Seq::empty())
    } else {
        match integrate_upto(bs, fs, dte, i - 1) {
            Err(e) => Err(e),
            Ok(nb) => match integrate_body(bs[i - 1], fs[i - 1], dte) {
                Err(e) => Err(e),
                Ok(b1) => Ok(nb.push(b1)),
            },
        }
    }
}

/// One full step: the effective time step is `dt * time_scale`, forces are
/// computed for the whole configuration first, and only then is every body
/// advanced.
pub open spec fn step_v<A>(g: Ratv, ts: Ratv, bs: Seq<BodyV<A>>, dt: Ratv) -> Result<
    Seq<BodyV<A>>,
    SimError,
> {
    match rv_mul(dt, ts) {
        None => Err(SimError::NumericOverflow),
        Some(dte) => match forces_v(g, bs) {
            Err(e) => Err(e),
            Ok(fs) => integrate_upto(bs, fs, dte, bs.len() as int),
        },
    }
}

/// An error in the net-force accumulation persists to every later partner.
pub proof fn lemma_net_force_err_persists<A>(g: Ratv, bs: Seq<BodyV<A>>, i: int, j1: int, j2: int)
    requires
        0 <= j1 <= j2,
        net_force_upto(g, bs, i, j1) is Err,
    ensures
        net_force_upto(g, bs, i, j2) == net_force_upto(g, bs, i, j1),
    decreases j2 - j1,
{
    if j2 > j1 {
        lemma_net_force_err_persists(g, bs, i, j1, j2 - 1);
    }
}

/// An error in the force table persists to every later body.
pub proof fn lemma_forces_err_persists<A>(g: Ratv, bs: Seq<BodyV<A>>, i1: int, i2: int)
    requires
        0 <= i1 <= i2,
        forces_upto(g, bs, i1) is Err,
    ensures
        forces_upto(g, bs, i2) == forces_upto(g, bs, i1),
    decreases i2 - i1,
{
    if i2 > i1 {
        lemma_forces_err_persists(g, bs, i1, i2 - 1);
    }
}

/// An error in the integration persists to every later body.
pub proof fn lemma_integrate_err_persists<A>(
    bs: Seq<BodyV<A>>,
    fs: Seq<V3v>,
    dte: Ratv,
    i1: int,
    i2: int,
)
    requires
        0 <= i1 <= i2,
        integrate_upto(bs, fs, dte, i1) is Err,
    ensures
        integrate_upto(bs, fs, dte, i2) == integrate_upto(bs, fs, dte, i1),
    decreases i2 - i1,
{
    if i2 > i1 {
        lemma_integrate_err_persists(bs, fs, dte, i1, i2 - 1);
    }
}

/// Each entry of a successful integration comes from `integrate_body` on the
/// matching body and force.
pub proof fn lemma_integrate_upto_index<A>(
    bs: Seq<BodyV<A>>,
    fs: Seq<V3v>,
    dte: Ratv,
    i: int,
    k: int,
)
    requires
        integrate_upto(bs, fs, dte, i) is Ok,
        0 <= k < i,
    ensures
        integrate_body(bs[k], fs[k], dte) is Ok,
        integrate_upto(bs, fs, dte, i)->Ok_0[k] == integrate_body(bs[k], fs[k], dte)->Ok_0,
        integrate_upto(bs, fs, dte, i)->Ok_0.len() == i,
    decreases i,
{
    if i == 1 {
        assert(integrate_upto(bs, fs, dte, 0) == Ok::<Seq<BodyV<A>>, SimError>(Seq::empty()));
    } else {
        lemma_integrate_upto_index(bs, fs, dte, i - 1, 0);
        if k < i - 1 {
            lemma_integrate_upto_index(bs, fs, dte, i - 1, k);
        }
    }
}

/// A successful body update keeps the mass and the opaque payload.
pub proof fn lemma_integrate_body_fields<A>(b: BodyV<A>, f: V3v, dte: Ratv)
    requires
        integrate_body(b, f, dte) is Ok,
    ensures
        integrate_body(b, f, dte)->Ok_0.mass == b.mass,
        integrate_body(b, f, dte)->Ok_0.attrs == b.attrs,
{
}

/// A checked square, when it exists, is nonnegative and well formed.
proof fn lemma_square_nonneg(a: Ratv)
    requires
        a.wf(),
        rv_mul(a, a) is Some,
    ensures
        rv_mul(a, a)->Some_0.n >= 0,
        rv_mul(a, a)->Some_0.wf(),
{
    assert(a.n * a.n >= 0) by (nonlinear_arith) {}
    assert(1 <= a.d * a.d) by (nonlinear_arith)
        requires a.d >= 1,
    {}
    lemma_norm(a.n * a.n, a.d * a.d);
}

/// A checked sum of nonnegative values, when it exists, is nonnegative and
/// well formed.
proof fn lemma_add_nonneg(a: Ratv, b: Ratv)
    requires
        a.wf(),
        b.wf(),
        a.n >= 0,
        b.n >= 0,
        rv_add(a, b) is Some,
    ensures
        rv_add(a, b)->Some_0.n >= 0,
        rv_add(a, b)->Some_0.wf(),
{
    assert(a.n * b.d >= 0 && b.n * a.d >= 0 && 1 <= a.d * b.d) by (nonlinear_arith)
        requires
            a.n >= 0,
            b.n >= 0,
            a.d >= 1,
            b.d >= 1,
    {}
    lemma_norm(a.n * b.d + b.n * a.d, a.d * b.d);
}

/// A well-formed squared norm, when it exists, is nonnegative.
pub proof fn lemma_norm2_nonneg(v: V3v)
    requires
        v.wf(),
        rv3_norm2(v) is Some,
    ensures
        rv3_norm2(v)->Some_0.n >= 0,
        rv3_norm2(v)->Some_0.wf(),
{
    lemma_square_nonneg(v.x);
    lemma_square_nonneg(v.y);
    lemma_square_nonneg(v.z);
    let xx = rv_mul(v.x, v.x)->Some_0;
    let yy = rv_mul(v.y, v.y)->Some_0;
    let zz = rv_mul(v.z, v.z)->Some_0;
    lemma_add_nonneg(xx, yy);
    lemma_add_nonneg(rv_add(xx, yy)->Some_0, zz);
}

/// Executable counterpart of `pair_force`: the force on body `i` from body
/// `j`, or the error the ghost model assigns to the pair.
fn pair_force_exec<A>(g: &Rat, bodies: &Vec<Body<A>>, i: usize, j: usize) -> (r: Result<
    Vec3,
    SimError,
>)
    requires
        g@.wf(),
        all_wf(bodies_v(bodies@)),
        i < bodies@.len(),
        j < bodies@.len(),
        i != j,
    ensures
        res_v3(r) == pair_force(g@, bodies_v(bodies@), i as int, j as int),
        r matches Ok(f) ==> f@.wf(),
{
    let ghost bs = bodies_v(bodies@);
    proof {
        assert(bs[i as int].wf());
        assert(bs[j as int].wf());
    }
    let pi = self_body_position(bodies, i);
    let pj = self_body_position(bodies, j);
    let disp = match pj.sub(&pi) {
        Some(d) => d,
        None => {
            return Err(SimError::NumericOverflow);
        },
    };
    let d2 = match disp.norm2() {
        Some(d) => d,
        None => {
            return Err(SimError::NumericOverflow);
        },
    };
    if d2.is_zero() {
        return Err(SimError::DegenerateConfiguration);
    }
    proof {
        lemma_norm2_nonneg(disp@);
    }
    let nu: u128 = d2.num() as u128;
    let q: u128 = match nu.checked_mul(DIST_SCALE_SQ) {
        Some(q) => q,
        None => {
            return Err(SimError::NumericOverflow);
        },
    };
    let du: u128 = d2.den() as u128;
    let qq: u128 = q / du;
    let s: u128 = isqrt_u(qq);
    if s == 0 {
        return Err(SimError::DegenerateConfiguration);
    }
    proof {
        lemma_isqrt_bounds(qq as nat);
        assert(s as int <= 0xFFFF_FFFF_FFFF_FFFFu64 as int) by (nonlinear_arith)
            requires
                (s as int) * (s as int) <= qq as int,
                qq as int <= u128::MAX as int,
                s as int >= 1,
        {}
    }
    let inv_dist = Rat::from_raw(DIST_SCALE, s as i128);
    let mi = self_body_mass(bodies, i);
    let mj = self_body_mass(bodies, j);
    let (mlo, mhi) = if i <= j {
        (mi, mj)
    } else {
        (mj, mi)
    };
    let gm = match g.mul(&mlo) {
        Some(v) => v,
        None => {
            return Err(SimError::NumericOverflow);
        },
    };
    let gmm = match gm.mul(&mhi) {
        Some(v) => v,
        None => {
            return Err(SimError::NumericOverflow);
        },
    };
    let mag = match gmm.div(&d2) {
        Some(v) => v,
        None => {
            return Err(SimError::NumericOverflow);
        },
    };
    let k = match mag.mul(&inv_dist) {
        Some(v) => v,
        None => {
            return Err(SimError::NumericOverflow);
        },
    };
    match disp.scale(&k) {
        Some(f) => Ok(f),
        None => Err(SimError::NumericOverflow),
    }
}

/// Position of one body, read through the public getter.
fn self_body_position<A>(bodies: &Vec<Body<A>>, i: usize) -> (r: Vec3)
    requires
        i < bodies@.len(),
    ensures
        r@ == bodies_v(bodies@)[i as int].position,
{
    bodies[i].position()
}

/// Mass of one body, read through the public getter.
fn self_body_mass<A>(bodies: &Vec<Body<A>>, i: usize) -> (r: Rat)
    requires
        i < bodies@.len(),
    ensures
        r@ == bodies_v(bodies@)[i as int].mass,
{
    bodies[i].mass()
}

/// Ghost image of a simulation.
pub struct SimV<A> {
    pub g: Ratv,
    pub time_scale: Ratv,
    pub bodies: Seq<BodyV<A>>,
}

impl<A> SimV<A> {
    pub open spec fn wf(self) -> bool {
        self.g.wf() && self.time_scale.wf() && all_wf(self.bodies)
    }
}

/// The N-body simulation: a gravitational constant fixed at construction, a
/// mutable time-scale multiplier, and the ordered body collection.
pub struct Simulation<A> {
    g: Rat,
    time_scale: Rat,
    bodies: Vec<Body<A>>,
}

impl<A> View for Simulation<A> {
    type V = SimV<A>;

    closed spec fn view(&self) -> SimV<A> {
        SimV { g: self.g@, time_scale: self.time_scale@, bodies: bodies_v(self.bodies@) }
    }
}

impl<A> Simulation<A> {
    /// An empty simulation with the given gravitational constant and a time
    /// scale of one.
    pub fn new(g: Rat) -> (r: Simulation<A>)
        requires
            g@.wf(),
        ensures
            r@.g == g@,
            r@.time_scale == (Ratv { n: 1, d: 1 }),
            r@.bodies.len() == 0,
            r@.wf(),
    {
        let one = Rat::from_int(1).unwrap();
        Simulation { g, time_scale: one, bodies: Vec::new() }
    }

    /// The gravitational constant.
    pub fn gravitational_constant(&self) -> (r: Rat)
        ensures
            r@ == self@.g,
    {
        self.g
    }

    /// The current time-scale multiplier.
    pub fn time_scale(&self) -> (r: Rat)
        ensures
            r@ == self@.time_scale,
    {
        self.time_scale
    }

    /// Replace the time-scale multiplier. No bound is enforced: a zero or
    /// negative factor freezes or reverses simulated time, and the caller
    /// owns that policy.
    pub fn set_time_scale(&mut self, factor: Rat)
        requires
            old(self)@.wf(),
            factor@.wf(),
        ensures
            final(self)@.time_scale == factor@,
            final(self)@.g == old(self)@.g,
            final(self)@.bodies == old(self)@.bodies,
            final(self)@.wf(),
    {
        self.time_scale = factor;
    }

    /// Number of bodies.
    pub fn body_count(&self) -> (r: usize)
        ensures
            r == self@.bodies.len(),
    {
        self.bodies.len()
    }

    /// Read-only access to one body.
    pub fn body(&self, i: usize) -> (r: &Body<A>)
        requires
            i < self@.bodies.len(),
        ensures
            r@ == self@.bodies[i as int],
    {
        &self.bodies[i]
    }

    /// Read-only ordered view of all bodies.
    pub fn bodies(&self) -> (r: &Vec<Body<A>>)
        ensures
            r@.len() == self@.bodies.len(),
            forall|k: int| 0 <= k < r@.len() ==> (#[trigger] r@[k])@ == self@.bodies[k],
    {
        &self.bodies
    }

    /// Append a body; its index is its stable identity for the whole run.
    pub fn add_body(&mut self, body: Body<A>) -> (id: usize)
        requires
            old(self)@.wf(),
            body@.wf(),
        ensures
            id == old(self)@.bodies.len(),
            final(self)@.bodies == old(self)@.bodies.push(body@),
            final(self)@.g == old(self)@.g,
            final(self)@.time_scale == old(self)@.time_scale,
            final(self)@.wf(),
    {
        let id = self.bodies.len();
        self.bodies.push(body);
        proof {
            assert(bodies_v(self.bodies@) =~= bodies_v(old(self).bodies@).push(body@));
        }
        id
    }

    /// One net gravitational force vector per body, index-aligned with the
    /// body collection; the configuration itself is never mutated.
    pub fn compute_forces(&self) -> (r: Result<Vec<Vec3>, SimError>)
        requires
            self@.wf(),
        ensures
            match r {
                Ok(fv) => forces_v(self@.g, self@.bodies) matches Ok(fs) && fv@.len() == fs.len()
                    && fs.len() == self@.bodies.len() && (forall|k: int|
                    0 <= k < fs.len() ==> (#[trigger] fv@[k])@ == fs[k] && fv@[k]@.wf()),
                Err(e) => forces_v(self@.g, self@.bodies) == Err::<Seq<V3v>, SimError>(e),
            },
    {
        let ghost bs = self@.bodies;
        let n = self.bodies.len();
        let mut forces: Vec<Vec3> = Vec::new();
        let mut i: usize = 0;
        while i < n
            invariant
                self@.wf(),
                n == bs.len(),
                bs == bodies_v(self.bodies@),
                i <= n,
                forces@.len() == i,
                forces_upto(self@.g, bs, i as int) matches Ok(fs) && fs.len() == i && (forall|
                    k: int,
                |
                    0 <= k < i ==> (#[trigger] forces@[k])@ == fs[k] && forces@[k]@.wf()),
            decreases n - i,
        {
            let mut acc = Vec3::zero();
            let mut j: usize = 0;
            while j < n
                invariant
                    self@.wf(),
                    n == bs.len(),
                    bs == bodies_v(self.bodies@),
                    i < n,
                    j <= n,
                    forces@.len() == i,
                    forces_upto(self@.g, bs, i as int) is Ok,
                    net_force_upto(self@.g, bs, i as int, j as int) == Ok::<V3v, SimError>(acc@),
                    acc@.wf(),
                decreases n - j,
            {
                if i != j {
                    let f = match pair_force_exec(&self.g, &self.bodies, i, j) {
                        Ok(f) => f,
                        Err(e) => {
                            proof {
                                assert(net_force_upto(self@.g, bs, i as int, j as int + 1)
                                    == Err::<V3v, SimError>(e));
                                lemma_net_force_err_persists(
                                    self@.g, bs, i as int, j as int + 1, n as int,
                                );
                                assert(forces_upto(self@.g, bs, i as int + 1) == Err::<
                                    Seq<V3v>,
                                    SimError,
                                >(e));
                                lemma_forces_err_persists(self@.g, bs, i as int + 1, n as int);
                            }
                            return Err(e);
                        },
                    };
                    acc = match acc.add(&f) {
                        Some(a) => a,
                        None => {
                            proof {
                                assert(net_force_upto(self@.g, bs, i as int, j as int + 1)
                                    == Err::<V3v, SimError>(SimError::NumericOverflow));
                                lemma_net_force_err_persists(
                                    self@.g, bs, i as int, j as int + 1, n as int,
                                );
                                assert(forces_upto(self@.g, bs, i as int + 1) == Err::<
                                    Seq<V3v>,
                                    SimError,
                                >(SimError::NumericOverflow));
                                lemma_forces_err_persists(self@.g, bs, i as int + 1, n as int);
                            }
                            return Err(SimError::NumericOverflow);
                        },
                    };
                }
                j += 1;
            }
            forces.push(acc);
            i += 1;
        }
        Ok(forces)
    }

    /// Advance the whole configuration by `dt * time_scale` with one
    /// semi-implicit Euler step. On any failure no body is modified.
    pub fn step(&mut self, dt: &Rat) -> (r: Result<(), SimError>)
        requires
            old(self)@.wf(),
            dt@.wf(),
        ensures
            final(self)@.g == old(self)@.g,
            final(self)@.time_scale == old(self)@.time_scale,
            final(self)@.wf(),
            match step_v(old(self)@.g, old(self)@.time_scale, old(self)@.bodies, dt@) {
                Ok(nb) => r is Ok && final(self)@.bodies == nb,
                Err(e) => (r matches Err(e2) && e2 == e) && final(self)@.bodies == old(
                    self,
                )@.bodies,
            },
    {
        let ghost bs = old(self)@.bodies;
        let dte = match dt.mul(&self.time_scale) {
            Some(d) => d,
            None => {
                return Err(SimError::NumericOverflow);
            },
        };
        let forces = match self.compute_forces() {
            Ok(f) => f,
            Err(e) => {
                return Err(e);
            },
        };
        let ghost fs = forces_v(old(self)@.g, bs)->Ok_0;
        let n = self.bodies.len();
        let mut news: Vec<(Vec3, Vec3)> = Vec::new();
        let mut i: usize = 0;
        while i < n
            invariant
                self@ == old(self)@,
                self@.wf(),
                dte@.wf(),
                bs == self@.bodies,
                n == bs.len(),
                forces@.len() == n,
                fs.len() == n,
                forall|k: int| 0 <= k < n ==> (#[trigger] forces@[k])@ == fs[k] && fs[k].wf(),
                i <= n,
                news@.len() == i,
                rv_mul(dt@, old(self)@.time_scale) == Some(dte@),
                forces_v(old(self)@.g, bs) == Ok::<Seq<V3v>, SimError>(fs),
                integrate_upto(bs, fs, dte@, i as int) matches Ok(nbs) && nbs.len() == i && (
                forall|k: int|
                    0 <= k < i ==> (#[trigger] news@[k]).0@ == nbs[k].position && news@[k].1@
                        == nbs[k].velocity && news@[k].0@.wf() && news@[k].1@.wf()),
            decreases n - i,
        {
            proof {
                assert(bs[i as int].wf());
            }
            let b = &self.bodies[i];
            let fi = forces[i];
            let m = b.mass();
            let acc = match fi.div_by(&m) {
                Some(a) => a,
                None => {
                    proof {
                        lemma_integrate_err_persists(bs, fs, dte@, i + 1, n as int);
                    }
                    return Err(SimError::NumericOverflow);
                },
            };
            let dv = match acc.scale(&dte) {
                Some(v) => v,
                None => {
                    proof {
                        lemma_integrate_err_persists(bs, fs, dte@, i + 1, n as int);
                    }
                    return Err(SimError::NumericOverflow);
                },
            };
            let v1 = match b.velocity().add(&dv) {
                Some(v) => v,
                None => {
                    proof {
                        lemma_integrate_err_persists(bs, fs, dte@, i + 1, n as int);
                    }
                    return Err(SimError::NumericOverflow);
                },
            };
            let dp = match v1.scale(&dte) {
                Some(v) => v,
                None => {
                    proof {
                        lemma_integrate_err_persists(bs, fs, dte@, i + 1, n as int);
                    }
                    return Err(SimError::NumericOverflow);
                },
            };
            let p1 = match b.position().add(&dp) {
                Some(v) => v,
                None => {
                    proof {
                        lemma_integrate_err_persists(bs, fs, dte@, i + 1, n as int);
                    }
                    return Err(SimError::NumericOverflow);
                },
            };
            news.push((p1, v1));
            i += 1;
        }
        let ghost nbs = integrate_upto(bs, fs, dte@, n as int)->Ok_0;
        let ghost bodies0 = self.bodies@;
        proof {
            assert forall|k: int| 0 <= k < n implies (#[trigger] nbs[k]).mass == bs[k].mass
                && nbs[k].attrs == bs[k].attrs by {
                lemma_integrate_upto_index(bs, fs, dte@, n as int, k);
                lemma_integrate_body_fields(bs[k], fs[k], dte@);
            }
        }
        let mut updated: Vec<Body<A>> = Vec::new();
        while self.bodies.len() > 0
            invariant
                self@.g == old(self)@.g,
                self@.time_scale == old(self)@.time_scale,
                news@.len() == n,
                nbs.len() == n,
                bs == bodies_v(bodies0),
                bs.len() == n,
                updated@.len() + self.bodies@.len() == n,
                self.bodies@ == bodies0.skip(updated@.len() as int),
                dt@.wf(),
                rv_mul(dt@, old(self)@.time_scale) == Some(dte@),
                forces_v(old(self)@.g, bs) == Ok::<Seq<V3v>, SimError>(fs),
                integrate_upto(bs, fs, dte@, n as int) == Ok::<Seq<BodyV<A>>, SimError>(nbs),
                forall|k: int|
                    0 <= k < n ==> (#[trigger] nbs[k]).mass == bs[k].mass && nbs[k].attrs
                        == bs[k].attrs && nbs[k].position == news@[k].0@ && nbs[k].velocity
                        == news@[k].1@,
                forall|k: int| 0 <= k < updated@.len() ==> (#[trigger] updated@[k])@ == nbs[k],
            decreases self.bodies@.len(),
        {
            let idx = updated.len();
            let b = self.bodies.remove(0);
            proof {
                assert(bodies0.skip(idx as int).remove(0) =~= bodies0.skip(idx + 1));
                assert(b@ == bs[idx as int]);
            }
            let pv = news[idx];
            updated.push(b.with_state(pv.0, pv.1));
            proof {
                assert(updated@[idx as int]@ == nbs[idx as int]);
            }
        }
        self.bodies = updated;
        proof {
            assert(bodies_v(self.bodies@) =~= nbs);
            assert forall|k: int| 0 <= k < n implies (#[trigger] nbs[k]).wf() by {
                assert(bs[k].wf());
            }
        }
        Ok(())
    }
}

} // verus!
