//! Rays: an origin and a direction, with the parametric point evaluator.
//!
//! The direction is not required to be normalized.

use crate::fixed::{fx_mul, FX_LIM};
use crate::vec3::Vec3;
use vstd::prelude::*;

verus! {

#[derive(Clone, Copy, Debug, PartialEq, Eq, Structural)]
pub struct Ray {
    pub origin: Vec3,
    pub direction: Vec3,
}

/// The x component of the point the ray reaches at parameter `t`.
pub open spec fn at_x(r: Ray, t: int) -> int {
    r.origin.x + fx_mul(r.direction.x as int, t)
}

/// The y component of the point the ray reaches at parameter `t`.
pub open spec fn at_y(r: Ray, t: int) -> int {
    r.origin.y + fx_mul(r.direction.y as int, t)
}

/// The z component of the point the ray reaches at parameter `t`.
pub open spec fn at_z(r: Ray, t: int) -> int {
    r.origin.z + fx_mul(r.direction.z as int, t)
}

impl Ray {
    pub fn new(origin: &Vec3, direction: &Vec3) -> (r: Ray)
        ensures
            r.origin == *origin,
            r.direction == *direction,
    {
        Ray { origin: *origin, direction: *direction }
    }

    pub fn origin(&self) -> (r: Vec3)
        ensures
            r == self.origin,
    {
        self.origin
    }

    pub fn direction(&self) -> (r: Vec3)
        ensures
            r == self.direction,
    {
        self.direction
    }

    /// The point `origin + t * direction`.
    pub fn point_at_parameter(&self, t: i64) -> (p: Vec3)
        requires
            -FX_LIM <= t <= FX_LIM,
            self.direction.in_range(FX_LIM as int),
            i64::MIN <= at_x(*self, t as int) <= i64::MAX,
            i64::MIN <= at_y(*self, t as int) <= i64::MAX,
            i64::MIN <= at_z(*self, t as int) <= i64::MAX,
        ensures
            p.x == at_x(*self, t as int),
            p.y == at_y(*self, t as int),
            p.z == at_z(*self, t as int),
    {
        self.origin.add(self.direction.scale(t))
    }
}

} // verus!
