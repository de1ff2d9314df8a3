//! Spheres and the quadratic ray-sphere intersection.
//!
//! Substituting the ray into `|p - center|^2 = radius^2` gives the
//! quadratic `a t^2 + b t + c = 0`; the discriminant decides whether the
//! ray hits, and the smaller root is tried first so that the nearest
//! surface wins.  The whole computation is pinned by the spec functions
//! below, stated over the fixed-point model.

use crate::fixed::{
    div_trunc, div_trunc_i128, fx_div, fx_mul, isqrt_u128, lemma_fx_mul_bound, sqrt_floor, SCALE,
};
use crate::hit::HitRecord;
use crate::ray::{at_x, at_y, at_z, Ray};
use crate::vec3::{dot3, Vec3};
use vstd::prelude::*;

verus! {

/// Magnitude bound on scene coordinates, radii and query intervals; the
/// intersection arithmetic stays inside the machine integers under it.
pub const GEOM_LIM: i64 = 0x4000_0000;

#[derive(Clone, Copy, Debug, PartialEq, Eq, Structural)]
pub struct Sphere {
    pub center: Vec3,
    pub radius: i64,
}

/// Quadratic coefficient `a = direction . direction`.
pub open spec fn quad_a(r: Ray) -> int {
    dot3(
        r.direction.x as int,
        r.direction.y as int,
        r.direction.z as int,
        r.direction.x as int,
        r.direction.y as int,
        r.direction.z as int,
    )
}

/// Quadratic coefficient `b = 2 (origin - center) . direction`.
pub open spec fn quad_b(s: Sphere, r: Ray) -> int {
    2 * dot3(
        r.origin.x - s.center.x,
        r.origin.y - s.center.y,
        r.origin.z - s.center.z,
        r.direction.x as int,
        r.direction.y as int,
        r.direction.z as int,
    )
}

/// Quadratic coefficient `c = (origin - center) . (origin - center) - radius^2`.
pub open spec fn quad_c(s: Sphere, r: Ray) -> int {
    dot3(
        r.origin.x - s.center.x,
        r.origin.y - s.center.y,
        r.origin.z - s.center.z,
        r.origin.x - s.center.x,
        r.origin.y - s.center.y,
        r.origin.z - s.center.z,
    ) - fx_mul(s.radius as int, s.radius as int)
}

/// Discriminant `b^2 - 4 a c`, carried at the doubled scale.
pub open spec fn discrim(s: Sphere, r: Ray) -> int {
    quad_b(s, r) * quad_b(s, r) - 4 * (quad_a(r) * quad_c(s, r))
}

/// The smaller root `(-b - sqrt(discriminant)) / (2 a)`.
pub open spec fn root_near(s: Sphere, r: Ray) -> int {
    div_trunc((-quad_b(s, r) - sqrt_floor(discrim(s, r))) * (SCALE as int), 2 * quad_a(r))
}

/// The larger root `(-b + sqrt(discriminant)) / (2 a)`.
pub open spec fn root_far(s: Sphere, r: Ray) -> int {
    div_trunc((-quad_b(s, r) + sqrt_floor(discrim(s, r))) * (SCALE as int), 2 * quad_a(r))
}

/// The parametric distance at which the ray first hits the sphere strictly
/// inside `(t_min, t_max)`: the smaller root is tried first, then the
/// larger; a degenerate direction (`a == 0`) or a negative discriminant
/// hits nothing.
pub open spec fn hit_t(s: Sphere, r: Ray, t_min: int, t_max: int) -> Option<int> {
    if quad_a(r) == 0 {
        None
    } else if discrim(s, r) < 0 {
        None
    } else if t_min < root_near(s, r) && root_near(s, r) < t_max {
        Some(root_near(s, r))
    } else if t_min < root_far(s, r) && root_far(s, r) < t_max {
        Some(root_far(s, r))
    } else {
        None
    }
}

/// The x component of the outward normal at parameter `t`:
/// `(point - center) / radius`.
pub open spec fn norm_x(s: Sphere, r: Ray, t: int) -> int {
    fx_div(at_x(r, t) - s.center.x, s.radius as int)
}

/// The y component of the outward normal at parameter `t`.
pub open spec fn norm_y(s: Sphere, r: Ray, t: int) -> int {
    fx_div(at_y(r, t) - s.center.y, s.radius as int)
}

/// The z component of the outward normal at parameter `t`.
pub open spec fn norm_z(s: Sphere, r: Ray, t: int) -> int {
    fx_div(at_z(r, t) - s.center.z, s.radius as int)
}

/// The full intersection result: the first root in range together with the
/// point the ray reaches there and the surface normal.
pub open spec fn sphere_hit(s: Sphere, r: Ray, t_min: int, t_max: int) -> Option<HitRecord> {
    match hit_t(s, r, t_min, t_max) {
        None => None,
        Some(t) => Some(
            HitRecord {
                t: t as i64,
                point: Vec3 { x: at_x(r, t) as i64, y: at_y(r, t) as i64, z: at_z(r, t) as i64 },
                normal: Vec3 {
                    x: norm_x(s, r, t) as i64,
                    y: norm_y(s, r, t) as i64,
                    z: norm_z(s, r, t) as i64,
                },
            },
        ),
    }
}

/// A successful hit lies strictly inside the queried interval, its point
/// is the ray's point at the hit parameter, and its normal is the offset
/// from the center divided by the radius.
pub proof fn lemma_sphere_hit_fields(s: Sphere, r: Ray, t_min: int, t_max: int)
    requires
        s.wf(),
        ray_in_range(r),
        -0x4000_0000 <= t_min,
        t_max <= 0x4000_0000,
    ensures
        match sphere_hit(s, r, t_min, t_max) {
            Some(h) => {
                &&& t_min < h.t < t_max
                &&& hit_t(s, r, t_min, t_max) == Some(h.t as int)
                &&& h.point.x as int == at_x(r, h.t as int)
                &&& h.point.y as int == at_y(r, h.t as int)
                &&& h.point.z as int == at_z(r, h.t as int)
                &&& h.normal.x as int == norm_x(s, r, h.t as int)
                &&& h.normal.y as int == norm_y(s, r, h.t as int)
                &&& h.normal.z as int == norm_z(s, r, h.t as int)
            },
            None => hit_t(s, r, t_min, t_max) is None,
        },
{
    match hit_t(s, r, t_min, t_max) {
        None => {
        },
        Some(t) => {
            assert(t_min < t < t_max);
            lemma_fx_mul_bound(r.direction.x as int, t);
            lemma_fx_mul_bound(r.direction.y as int, t);
            lemma_fx_mul_bound(r.direction.z as int, t);
            crate::fixed::lemma_div_trunc_bound(
                (at_x(r, t) - s.center.x) * 65536,
                s.radius as int,
                0x4001_0000_8000_0000,
            );
            crate::fixed::lemma_div_trunc_bound(
                (at_y(r, t) - s.center.y) * 65536,
                s.radius as int,
                0x4001_0000_8000_0000,
            );
            crate::fixed::lemma_div_trunc_bound(
                (at_z(r, t) - s.center.z) * 65536,
                s.radius as int,
                0x4001_0000_8000_0000,
            );
        },
    }
}

/// The roots are ordered: the near root never exceeds the far root.
pub proof fn lemma_roots_ordered(s: Sphere, r: Ray)
    requires
        quad_a(r) != 0,
        discrim(s, r) >= 0,
    ensures
        root_near(s, r) <= root_far(s, r),
{
    assert(quad_a(r) == crate::vec3::dot_v(r.direction, r.direction));
    crate::vec3::lemma_dot_self_nonneg(r.direction);
    crate::fixed::lemma_sqrt_floor(discrim(s, r));
    let b = quad_b(s, r);
    let sd = sqrt_floor(discrim(s, r));
    crate::fixed::lemma_div_trunc_monotone(
        (-b - sd) * (SCALE as int),
        (-b + sd) * (SCALE as int),
        2 * quad_a(r),
    );
}

/// Narrowing the upper end of the query interval keeps exactly the hits
/// whose parameter falls under the narrower bound: the incremental
/// closest-hit algorithm may shrink `t_max` without losing a nearer hit.
pub proof fn lemma_sphere_hit_narrow(s: Sphere, r: Ray, t_min: int, t_hi: int, t_hi2: int)
    requires
        t_hi2 <= t_hi,
        -0x4000_0000 <= t_min,
        t_hi <= 0x4000_0000,
    ensures
        sphere_hit(s, r, t_min, t_hi2) == match sphere_hit(s, r, t_min, t_hi) {
            Some(h) => if (h.t as int) < t_hi2 {
                Some(h)
            } else {
                None::<HitRecord>
            },
            None => None::<HitRecord>,
        },
{
    if quad_a(r) != 0 && discrim(s, r) >= 0 {
        lemma_roots_ordered(s, r);
        let t1 = root_near(s, r);
        let t2 = root_far(s, r);
        if t_min < t1 && t1 < t_hi {
            if t1 < t_hi2 {
                assert(hit_t(s, r, t_min, t_hi2) == Some(t1));
            } else {
                assert(!(t2 < t_hi2));
                assert(hit_t(s, r, t_min, t_hi2) is None);
            }
        } else if t_min < t2 && t2 < t_hi {
            assert(t1 <= t_min || t1 >= t_hi);
            if t2 < t_hi2 {
                assert(hit_t(s, r, t_min, t_hi2) == Some(t2));
            } else {
                assert(hit_t(s, r, t_min, t_hi2) is None);
            }
        } else {
            assert(hit_t(s, r, t_min, t_hi2) is None);
        }
    }
}

/// A ray whose origin and direction lie within the scene bound.
pub open spec fn ray_in_range(r: Ray) -> bool {
    &&& r.origin.in_range(GEOM_LIM as int)
    &&& r.direction.in_range(GEOM_LIM as int)
}

impl Sphere {
    /// A sphere the intersection can work on: coordinates within the scene
    /// bound and a nonzero radius (the normal divides by the radius).
    pub open spec fn wf(self) -> bool {
        &&& self.center.in_range(GEOM_LIM as int)
        &&& self.radius != 0
        &&& -GEOM_LIM <= self.radius <= GEOM_LIM
    }

    pub fn new(center: Vec3, radius: i64) -> (s: Sphere)
        ensures
            s == (Sphere { center, radius }),
    {
        Sphere { center, radius }
    }

    pub fn center(&self) -> (r: Vec3)
        ensures
            r == self.center,
    {
        self.center
    }

    pub fn radius(&self) -> (r: i64)
        ensures
            r == self.radius,
    {
        self.radius
    }

    /// The hit record at parameter `t`: the ray's point there and the
    /// outward normal `(point - center) / radius`.
    fn record_at(&self, ray: &Ray, t: i64) -> (h: HitRecord)
        requires
            self.wf(),
            ray_in_range(*ray),
            -GEOM_LIM < t < GEOM_LIM,
        ensures
            h.t == t,
            h.point.x as int == at_x(*ray, t as int),
            h.point.y as int == at_y(*ray, t as int),
            h.point.z as int == at_z(*ray, t as int),
            h.normal.x as int == norm_x(*self, *ray, t as int),
            h.normal.y as int == norm_y(*self, *ray, t as int),
            h.normal.z as int == norm_z(*self, *ray, t as int),
    {
        proof {
            lemma_fx_mul_bound(ray.direction.x as int, t as int);
            lemma_fx_mul_bound(ray.direction.y as int, t as int);
            lemma_fx_mul_bound(ray.direction.z as int, t as int);
        }
        let point = ray.point_at_parameter(t);
        let diff = point.sub(self.center);
        let normal = diff.div_scalar(self.radius);
        HitRecord { t, point, normal }
    }

    /// The closest intersection of the ray with this sphere strictly
    /// inside `(t_min, t_max)`, if any.
    pub fn is_hit(&self, ray: &Ray, t_min: i64, t_max: i64) -> (res: Option<HitRecord>)
        requires
            self.wf(),
            ray_in_range(*ray),
            -GEOM_LIM <= t_min <= GEOM_LIM,
            -GEOM_LIM <= t_max <= GEOM_LIM,
        ensures
            res == sphere_hit(*self, *ray, t_min as int, t_max as int),
    {
        let dir = ray.direction;
        let a: i64 = dir.dot(dir);
        proof {
            crate::vec3::lemma_dot_self_nonneg(dir);
            assert(a as int == quad_a(*ray));
        }
        if a == 0 {
            return None;
        }
        let oc = ray.origin.sub(self.center);
        let half: i64 = oc.dot(dir);
        let b: i64 = 2 * half;
        let c: i64 = oc.dot(oc) - crate::fixed::mul_fx(self.radius, self.radius);
        proof {
            crate::vec3::lemma_dot_self_nonneg(oc);
            assert(b as int == quad_b(*self, *ray));
            assert(c as int == quad_c(*self, *ray));
        }
        proof {
            assert(0 <= (b as int) * (b as int) <= 0x4_0000_0000_0000_0000_0000_0000)
                by (nonlinear_arith)
                requires
                    -0x2_0000_0000_0000 <= b as int <= 0x2_0000_0000_0000;
            assert(-0x4_0000_0000_0000_0000_0000_0000 <= 4 * ((a as int) * (c as int))
                <= 0x4_0000_0000_0000_0000_0000_0000) by (nonlinear_arith)
                requires
                    0 <= a as int <= 0x1_0000_0000_0000,
                    -0x1_0000_0000_0000 <= c as int <= 0x1_0000_0000_0000;
        }
        let bb: i128 = (b as i128) * (b as i128);
        let fourac: i128 = 4 * ((a as i128) * (c as i128));
        let disc: i128 = bb - fourac;
        proof {
            assert(disc as int == discrim(*self, *ray));
        }
        if disc < 0 {
            return None;
        }
        let sd: i128 = isqrt_u128(disc as u128) as i128;
        proof {
            crate::fixed::lemma_sqrt_floor(disc as int);
            assert(sd as int == sqrt_floor(discrim(*self, *ray)));
            assert(sd < 0x8_0000_0000_0000) by (nonlinear_arith)
                requires
                    (sd as int) * (sd as int) <= disc as int,
                    sd >= 0,
                    disc as int <= 0x8_0000_0000_0000_0000_0000_0000;
        }
        let denom: i128 = 2 * (a as i128);
        let num_near: i128 = -(b as i128) - sd;
        let t_near: i128 = div_trunc_i128(num_near * 65536, denom);
        proof {
            assert(t_near as int == root_near(*self, *ray));
        }
        if (t_min as i128) < t_near && t_near < (t_max as i128) {
            let h = self.record_at(ray, t_near as i64);
            proof {
                assert(hit_t(*self, *ray, t_min as int, t_max as int)
                    == Some(t_near as int));
            }
            return Some(h);
        }
        let num_far: i128 = -(b as i128) + sd;
        let t_far: i128 = div_trunc_i128(num_far * 65536, denom);
        proof {
            assert(t_far as int == root_far(*self, *ray));
        }
        if (t_min as i128) < t_far && t_far < (t_max as i128) {
            let h = self.record_at(ray, t_far as i64);
            proof {
                assert(hit_t(*self, *ray, t_min as int, t_max as int)
                    == Some(t_far as int));
            }
            return Some(h);
        }
        None
    }
}

} // verus!
