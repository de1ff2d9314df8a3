//! Shading of a single camera ray: the closest hit coloured by its
//! surface normal, or the sky gradient on a miss.

use crate::fixed::{fx_mul, lemma_fx_mul_within, FX_LIM};
use crate::hit::{list_hit, HitRecord, HittableList};
use crate::ray::Ray;
use crate::sphere::{ray_in_range, GEOM_LIM};
use crate::vec3::{dot_v, unit_y, Vec3};
use vstd::prelude::*;

verus! {

/// The sky-blend factor: half of one plus the y of the unit direction.
pub open spec fn sky_t(r: Ray) -> int {
    fx_mul(unit_y(r.direction) + 65536, 32768)
}

/// One channel of the sky gradient: white blended toward the horizon
/// colour `c` by the factor `t`.
pub open spec fn sky_channel(t: int, c: int) -> int {
    65536 - t + fx_mul(t, c)
}

/// The sky gradient a missing ray is coloured with.
pub open spec fn sky_color_s(r: Ray) -> Vec3 {
    let t = sky_t(r);
    Vec3 {
        x: sky_channel(t, 32768) as i64,
        y: sky_channel(t, 45875) as i64,
        z: sky_channel(t, 65536) as i64,
    }
}

/// The normal-shading of a hit: half of the normal shifted up by one, per
/// channel.
pub open spec fn shade_s(h: HitRecord) -> Vec3 {
    Vec3 {
        x: fx_mul(h.normal.x + 65536, 32768) as i64,
        y: fx_mul(h.normal.y + 65536, 32768) as i64,
        z: fx_mul(h.normal.z + 65536, 32768) as i64,
    }
}

/// The colour of a camera ray against the scene: the closest hit shaded
/// by its normal, the sky gradient on a miss.
pub open spec fn color_s(ms: Seq<crate::sphere::Sphere>, r: Ray) -> Vec3 {
    match list_hit(ms, r, 0, GEOM_LIM as int) {
        Some(h) => shade_s(h),
        None => sky_color_s(r),
    }
}

/// The sky gradient for a ray that hits nothing.
pub fn sky_color(ray: &Ray) -> (c: Vec3)
    requires
        ray.direction.in_range(FX_LIM as int),
        dot_v(ray.direction, ray.direction) >= 65536,
    ensures
        c == sky_color_s(*ray),
{
    let unit_direction = ray.direction.unit_vector();
    let base = unit_direction.y + 65536;
    proof {
        assert(-(0x4_0000 * 65536) <= (base as int) * 32768 <= 0x4_0000 * 65536)
            by (nonlinear_arith)
            requires
                -0x3_0000 <= base as int <= 0x3_0000;
        lemma_fx_mul_within(base as int, 32768, 0x4_0000);
    }
    let t = crate::fixed::mul_fx(base, 32768);
    let x = 65536 - t + crate::fixed::mul_fx(t, 32768);
    let y = 65536 - t + crate::fixed::mul_fx(t, 45875);
    let z = 65536 - t + crate::fixed::mul_fx(t, 65536);
    Vec3::new(x, y, z)
}

/// The normal-shading of a hit record.
pub fn shade_hit(h: &HitRecord) -> (c: Vec3)
    requires
        h.normal.in_range(0x2_0000),
    ensures
        c == shade_s(*h),
{
    let x = crate::fixed::mul_fx(h.normal.x + 65536, 32768);
    let y = crate::fixed::mul_fx(h.normal.y + 65536, 32768);
    let z = crate::fixed::mul_fx(h.normal.z + 65536, 32768);
    Vec3::new(x, y, z)
}

/// The colour of one camera ray: query the scene over `(0, GEOM_LIM)`,
/// shade the closest hit by its normal, or fall back to the sky gradient.
pub fn color(ray: &Ray, world: &HittableList) -> (c: Vec3)
    requires
        world.wf(),
        ray_in_range(*ray),
        dot_v(ray.direction, ray.direction) >= 65536,
        match list_hit(world.members(), *ray, 0, GEOM_LIM as int) {
            Some(h) => h.normal.in_range(0x2_0000),
            None => true,
        },
    ensures
        c == color_s(world.members(), *ray),
{
    let hit = world.is_hit(ray, 0, GEOM_LIM);
    match hit {
        Some(h) => shade_hit(&h),
        None => sky_color(ray),
    }
}

} // verus!
