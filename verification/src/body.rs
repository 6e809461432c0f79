//! Point masses and the store that holds them.
//!
//! The store is a plain `Vec<Body<S>>`. Bodies are never added or removed
//! once a run has started, and index `i` names the same body throughout:
//! every function that takes the store mutably says so in its contract.
use vstd::prelude::*;
use crate::scalar::Scalar;
use crate::vector::Vec3;

verus! {

/// One point mass. Its mass is meant to be positive; nothing the engine
/// computes depends on that, and no function changes a mass.
pub struct Body<S: Scalar> {
    pub mass: S,
    pub position: Vec3<S>,
    pub velocity: Vec3<S>,
    /// Acceleration at the current step; overwritten by every force evaluation.
    pub acceleration: Vec3<S>,
    /// Acceleration at the step before, as the leapfrog scheme needs it.
    pub previous_acceleration: Vec3<S>,
}

impl<S: Scalar> Body<S> {
    /// A body as it stands before the first force evaluation: both
    /// accelerations are zero.
    pub open spec fn at_rest(mass: S, position: Vec3<S>, velocity: Vec3<S>) -> Self {
        Body {
            mass,
            position,
            velocity,
            acceleration: Vec3::zero_value(),
            previous_acceleration: Vec3::zero_value(),
        }
    }

    /// The mass is strictly positive.
    pub open spec fn has_positive_mass(self) -> bool {
        S::zero_value().below(self.mass)
    }

    /// Makes a body from its initial state, with both accelerations zero.
    pub fn new(mass: S, position: Vec3<S>, velocity: Vec3<S>) -> (b: Self)
        ensures
            b == Self::at_rest(mass, position, velocity),
    {
        Body {
            mass,
            position,
            velocity,
            acceleration: Vec3::zero(),
            previous_acceleration: Vec3::zero(),
        }
    }

    /// Tells whether the mass is strictly positive.
    pub fn positive_mass(&self) -> (r: bool)
        ensures
            r == self.has_positive_mass(),
    {
        S::zero().lt(self.mass)
    }
}

/// `a` and `b` hold the same bodies: as many, with the same masses, index
/// by index.
pub open spec fn same_population<S: Scalar>(a: Seq<Body<S>>, b: Seq<Body<S>>) -> bool {
    &&& a.len() == b.len()
    &&& forall|i: int| 0 <= i < a.len() ==> (#[trigger] a[i]).mass == b[i].mass
}

/// `a` and `b` hold the same bodies in the same places with the same
/// velocities; their accelerations may differ.
pub open spec fn same_motion<S: Scalar>(a: Seq<Body<S>>, b: Seq<Body<S>>) -> bool {
    &&& same_population(a, b)
    &&& forall|i: int|
        0 <= i < a.len() ==> (#[trigger] a[i]).position == b[i].position && a[i].velocity
            == b[i].velocity
}

impl<S: Scalar> Clone for Body<S> {
    fn clone(&self) -> (r: Self)
        ensures
            r == *self,
    {
        *self
    }
}

impl<S: Scalar> Copy for Body<S> {

}

} // verus!
