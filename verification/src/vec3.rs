//! Three-component vectors of exact rationals, with the checked component
//! arithmetic the force model and the integrator are built from.

use vstd::prelude::*;
use crate::rat::{
    opt_rat_v, rv_add, rv_div, rv_eqv, rv_mul, rv_neg, rq_zero, Rat, Ratv,
};

verus! {

/// Ghost image of a vector: three exact rational representations.
pub struct V3v {
    pub x: Ratv,
    pub y: Ratv,
    pub z: Ratv,
}

impl V3v {
    pub open spec fn wf(self) -> bool {
        self.x.wf() && self.y.wf() && self.z.wf()
    }
}

/// The zero vector.
pub open spec fn v3_zero() -> V3v {
    V3v { x: rq_zero(), y: rq_zero(), z: rq_zero() }
}

/// Both vectors denote the same value component-wise.
pub open spec fn v3_eqv(a: V3v, b: V3v) -> bool {
    rv_eqv(a.x, b.x) && rv_eqv(a.y, b.y) && rv_eqv(a.z, b.z)
}

/// Checked component-wise addition.
pub open spec fn rv3_add(a: V3v, b: V3v) -> Option<V3v> {
    match (rv_add(a.x, b.x), rv_add(a.y, b.y), rv_add(a.z, b.z)) {
        (Some(x), Some(y), Some(z)) => Some(V3v { x, y, z }),
        _ => None,
    }
}

/// Exact component-wise negation.
pub open spec fn rv3_neg(a: V3v) -> V3v {
    V3v { x: rv_neg(a.x), y: rv_neg(a.y), z: rv_neg(a.z) }
}

/// Checked component-wise subtraction.
pub open spec fn rv3_sub(a: V3v, b: V3v) -> Option<V3v> {
    rv3_add(a, rv3_neg(b))
}

/// Checked scaling: each component times the scalar `k`.
pub open spec fn rv3_scale(a: V3v, k: Ratv) -> Option<V3v> {
    match (rv_mul(a.x, k), rv_mul(a.y, k), rv_mul(a.z, k)) {
        (Some(x), Some(y), Some(z)) => Some(V3v { x, y, z }),
        _ => None,
    }
}

/// Checked division of each component by the scalar `k`.
pub open spec fn rv3_div(a: V3v, k: Ratv) -> Option<V3v> {
    match (rv_div(a.x, k), rv_div(a.y, k), rv_div(a.z, k)) {
        (Some(x), Some(y), Some(z)) => Some(V3v { x, y, z }),
        _ => None,
    }
}

/// Checked squared Euclidean norm: `x*x + y*y + z*z`.
pub open spec fn rv3_norm2(a: V3v) -> Option<Ratv> {
    match rv_mul(a.x, a.x) {
        None => None,
        Some(xx) => match rv_mul(a.y, a.y) {
            None => None,
            Some(yy) => match rv_mul(a.z, a.z) {
                None => None,
                Some(zz) => match rv_add(xx, yy) {
                    None => None,
                    Some(s) => rv_add(s, zz),
                },
            },
        },
    }
}

/// Ghost image of an optional executable vector.
pub open spec fn opt_v3_v(r: Option<Vec3>) -> Option<V3v> {
    match r {
        Some(v) => Some(v@),
        None => None,
    }
}

/// A vector of three exact rationals.
#[derive(Clone, Copy, Debug)]
pub struct Vec3 {
    x: Rat,
    y: Rat,
    z: Rat,
}

impl View for Vec3 {
    type V = V3v;

    closed spec fn view(&self) -> V3v {
        V3v { x: self.x@, y: self.y@, z: self.z@ }
    }
}

impl Vec3 {
    pub fn new(x: Rat, y: Rat, z: Rat) -> (r: Vec3)
        ensures
            r@ == (V3v { x: x@, y: y@, z: z@ }),
    {
        Vec3 { x, y, z }
    }

    /// The zero vector.
    pub fn zero() -> (r: Vec3)
        ensures
            r@ == v3_zero(),
            r@.wf(),
    {
        let zx = Rat::from_int(0).unwrap();
        let zy = Rat::from_int(0).unwrap();
        let zz = Rat::from_int(0).unwrap();
        Vec3 { x: zx, y: zy, z: zz }
    }

    pub fn x(&self) -> (r: Rat)
        ensures
            r@ == self@.x,
    {
        self.x
    }

    pub fn y(&self) -> (r: Rat)
        ensures
            r@ == self@.y,
    {
        self.y
    }

    pub fn z(&self) -> (r: Rat)
        ensures
            r@ == self@.z,
    {
        self.z
    }

    /// Checked component-wise addition.
    pub fn add(&self, other: &Vec3) -> (r: Option<Vec3>)
        requires
            self@.wf(),
            other@.wf(),
        ensures
            opt_v3_v(r) == rv3_add(self@, other@),
            r matches Some(v) ==> v@.wf(),
    {
        let x = match self.x.add(&other.x) {
            Some(c) => c,
            None => {
                return None;
            },
        };
        let y = match self.y.add(&other.y) {
            Some(c) => c,
            None => {
                return None;
            },
        };
        let z = match self.z.add(&other.z) {
            Some(c) => c,
            None => {
                return None;
            },
        };
        Some(Vec3 { x, y, z })
    }

    /// Exact component-wise negation.
    pub fn neg(&self) -> (r: Vec3)
        requires
            self@.wf(),
        ensures
            r@ == rv3_neg(self@),
            r@.wf(),
    {
        Vec3 { x: self.x.neg(), y: self.y.neg(), z: self.z.neg() }
    }

    /// Checked component-wise subtraction.
    pub fn sub(&self, other: &Vec3) -> (r: Option<Vec3>)
        requires
            self@.wf(),
            other@.wf(),
        ensures
            opt_v3_v(r) == rv3_sub(self@, other@),
            r matches Some(v) ==> v@.wf(),
    {
        self.add(&other.neg())
    }

    /// Checked scaling by `k`.
    pub fn scale(&self, k: &Rat) -> (r: Option<Vec3>)
        requires
            self@.wf(),
            k@.wf(),
        ensures
            opt_v3_v(r) == rv3_scale(self@, k@),
            r matches Some(v) ==> v@.wf(),
    {
        let x = match self.x.mul(k) {
            Some(c) => c,
            None => {
                return None;
            },
        };
        let y = match self.y.mul(k) {
            Some(c) => c,
            None => {
                return None;
            },
        };
        let z = match self.z.mul(k) {
            Some(c) => c,
            None => {
                return None;
            },
        };
        Some(Vec3 { x, y, z })
    }

    /// Checked division of every component by `k`.
    pub fn div_by(&self, k: &Rat) -> (r: Option<Vec3>)
        requires
            self@.wf(),
            k@.wf(),
        ensures
            opt_v3_v(r) == rv3_div(self@, k@),
            r matches Some(v) ==> v@.wf(),
    {
        let x = match self.x.div(k) {
            Some(c) => c,
            None => {
                return None;
            },
        };
        let y = match self.y.div(k) {
            Some(c) => c,
            None => {
                return None;
            },
        };
        let z = match self.z.div(k) {
            Some(c) => c,
            None => {
                return None;
            },
        };
        Some(Vec3 { x, y, z })
    }

    /// Checked squared Euclidean norm.
    pub fn norm2(&self) -> (r: Option<Rat>)
        requires
            self@.wf(),
        ensures
            opt_rat_v(r) == rv3_norm2(self@),
            r matches Some(v) ==> v@.wf(),
    {
        let xx = match self.x.mul(&self.x) {
            Some(c) => c,
            None => {
                return None;
            },
        };
        let yy = match self.y.mul(&self.y) {
            Some(c) => c,
            None => {
                return None;
            },
        };
        let zz = match self.z.mul(&self.z) {
            Some(c) => c,
            None => {
                return None;
            },
        };
        let s = match xx.add(&yy) {
            Some(c) => c,
            None => {
                return None;
            },
        };
        s.add(&zz)
    }
}

} // verus!
