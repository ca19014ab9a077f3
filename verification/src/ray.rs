//! Rays: a starting point and a direction.

use crate::scalar::Scalar;
use crate::vec3::Vector3;
use vstd::prelude::*;

verus! {

/// A ray. The direction need not have length one.
#[derive(Clone, Copy, Debug, PartialEq, Eq, Structural)]
pub struct Ray {
    pub origin: Vector3,
    pub direction: Vector3,
}

impl Ray {
    /// The point reached from the origin after `t` times the direction.
    pub open spec fn at_spec(self, t: Scalar) -> Vector3 {
        self.origin.plus(self.direction.scaled(t))
    }

    /// The ray from `origin` along `direction`.
    pub fn new(origin: Vector3, direction: Vector3) -> (ray: Ray)
        ensures
            ray == (Ray { origin, direction }),
    {
        Ray { origin, direction }
    }

    /// The point reached from the origin after `t` times the direction.
    pub fn at(self: &Self, t: Scalar) -> (point: Vector3)
        ensures
            point == self.at_spec(t),
    {
        self.origin + self.direction * t
    }
}

} // verus!
