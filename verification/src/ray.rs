//! Rays: an origin plus a direction.

use vstd::prelude::*;
use crate::fixed::Fx;
use crate::vec3::{v3_add, v3_scale, Point3, Vec3, V3};

verus! {

/// A ray in space, parameterized by distance along its direction.
#[derive(Clone, Copy, Debug, PartialEq, Eq, Structural)]
pub struct Ray {
    /// The origin of the ray.
    pub origin: Point3,
    /// The direction of the ray; its length is immaterial to the
    /// intersection math except through the interval epsilons.
    pub direction: Vec3,
}

/// The point `origin + t * direction` in fixed-point arithmetic.
pub open spec fn ray_at3(origin: V3, direction: V3, t: int) -> V3 {
    v3_add(origin, v3_scale(direction, t))
}

impl Ray {
    /// The ray with the given origin and direction.
    pub fn new(origin: Point3, direction: Vec3) -> (r: Ray)
        ensures
            r.origin == origin,
            r.direction == direction,
    {
        Ray { origin, direction }
    }

    /// The point at distance `t` along the ray.
    pub fn at(self, t: Fx) -> (r: Point3)
        ensures
            r@ == ray_at3(self.origin@, self.direction@, t@),
    {
        self.origin.add(self.direction.scale(t))
    }
}

} // verus!
