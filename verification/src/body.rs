//! The per-body record: positive mass, position, velocity, and an opaque
//! display payload the physics never reads.

use vstd::prelude::*;
use crate::rat::{Rat, Ratv};
use crate::vec3::{V3v, Vec3};

verus! {

/// Failure conditions of the simulation core.
#[derive(Clone, Copy, Debug, PartialEq, Eq, Structural)]
pub enum SimError {
    /// A body was given a mass that is not strictly positive.
    InvalidMass,
    /// Two distinct bodies occupy the same position, or lie closer together
    /// than the distance resolution, so the force direction is undefined.
    DegenerateConfiguration,
    /// An exact intermediate value left the representable range.
    NumericOverflow,
}

/// Ghost image of a body.
pub struct BodyV<A> {
    pub mass: Ratv,
    pub position: V3v,
    pub velocity: V3v,
    pub attrs: A,
}

impl<A> BodyV<A> {
    /// Well-formed physical state: representable components and a strictly
    /// positive mass.
    pub open spec fn wf(self) -> bool {
        self.mass.wf() && self.mass.n > 0 && self.position.wf() && self.velocity.wf()
    }
}

/// One simulated mass. `A` is an opaque payload (a label, a colour) carried
/// for a presentation layer and never read by the physics.
#[derive(Clone, Copy, Debug)]
pub struct Body<A> {
    mass: Rat,
    position: Vec3,
    velocity: Vec3,
    attrs: A,
}

impl<A> View for Body<A> {
    type V = BodyV<A>;

    closed spec fn view(&self) -> BodyV<A> {
        BodyV {
            mass: self.mass@,
            position: self.position@,
            velocity: self.velocity@,
            attrs: self.attrs,
        }
    }
}

impl<A> Body<A> {
    /// Construct a body; rejects a mass that is not strictly positive.
    pub fn new(mass: Rat, position: Vec3, velocity: Vec3, attrs: A) -> (r: Result<
        Body<A>,
        SimError,
    >)
        requires
            mass@.wf(),
            position@.wf(),
            velocity@.wf(),
        ensures
            mass@.n > 0 ==> (r matches Ok(b) && b@ == (BodyV {
                mass: mass@,
                position: position@,
                velocity: velocity@,
                attrs,
            }) && b@.wf()),
            mass@.n <= 0 ==> (r matches Err(e) && e == SimError::InvalidMass),
    {
        if mass.is_positive() {
            Ok(Body { mass, position, velocity, attrs })
        } else {
            Err(SimError::InvalidMass)
        }
    }

    pub fn mass(&self) -> (r: Rat)
        ensures
            r@ == self@.mass,
    {
        self.mass
    }

    pub fn position(&self) -> (r: Vec3)
        ensures
            r@ == self@.position,
    {
        self.position
    }

    pub fn velocity(&self) -> (r: Vec3)
        ensures
            r@ == self@.velocity,
    {
        self.velocity
    }

    pub fn attrs(&self) -> (r: &A)
        ensures
            *r == self@.attrs,
    {
        &self.attrs
    }

    /// The same body with new position and velocity; mass and payload are
    /// carried over untouched.
    pub(crate) fn with_state(self, position: Vec3, velocity: Vec3) -> (r: Body<A>)
        ensures
            r@ == (BodyV {
                mass: self@.mass,
                position: position@,
                velocity: velocity@,
                attrs: self@.attrs,
            }),
    {
        Body { mass: self.mass, position, velocity, attrs: self.attrs }
    }
}

} // verus!
