//! Rays: an origin and a direction.
use vstd::prelude::*;

use crate::vector::{Point3D, Vector3D};

verus! {

/// A half-line `origin + t * direction`. The direction is kept as given, not normalised.
#[derive(Clone, Copy, Debug, PartialEq, Eq, Structural)]
pub struct Ray {
    pub origin: Point3D,
    pub direction: Vector3D,
}

impl Ray {
    /// The point at parameter `t` (a fixed-point scalar).
    pub open spec fn at_spec(self, t: int) -> Point3D {
        self.origin.add_spec(self.direction.scale_spec(t))
    }

    pub fn new(origin: Point3D, direction: Vector3D) -> (r: Ray)
        ensures
            r.origin == origin,
            r.direction == direction,
    {
        Ray { origin, direction }
    }

    /// The point `origin + pos * direction`; any `pos`, negative ones included.
    pub fn at(&self, pos: i64) -> (r: Point3D)
        ensures
            r == self.at_spec(pos as int),
    {
        self.origin.add(&self.direction.mul_by(pos))
    }
}

} // verus!
