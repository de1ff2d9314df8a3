//! Material scattering: diffuse, reflective with fuzz, and dielectric
//! refraction with Fresnel-style reflectance.
//!
//! Every model is deterministic given the sampled randomness, so each has
//! a `*_sampled` entry that takes the sample as an argument and carries the
//! exact contract; the plain `scatter` entries draw the sample from the
//! shared random source and promise what holds of every draw.

use crate::fixed::{
    div_trunc_i128, fx_div, fx_mul, fx_sqrt, lemma_div_of_zero, lemma_div_trunc_denom,
    lemma_fx_mul_within, mul_fx, FX_LIM,
};
use crate::hit::HitRecord;
use crate::ray::Ray;
use crate::rng::random_unit_fraction;
use crate::vec3::{dot_v, len_v, unit_of, unit_x, unit_y, unit_z, Vec3};
use vstd::prelude::*;

verus! {

/// A point that rejection sampling can hand out: strictly inside the unit
/// sphere, components within one scale unit.
pub open spec fn valid_sample(p: Vec3) -> bool {
    &&& dot_v(p, p) < 65536
    &&& p.in_range(65536)
}

/// A point uniformly sampled inside the unit sphere, by rejection: draw a
/// point of the centered cube until its squared length is below one.  The
/// draw succeeds with probability over one half, so after 64 rejections in
/// a row (an astronomically unlikely run) the center is returned instead,
/// which also lies inside the sphere.
pub fn random_in_unit_sphere() -> (p: Vec3)
    ensures
        valid_sample(p),
{
    let mut attempts: u32 = 0;
    while attempts < 64
        invariant
            attempts <= 64,
        decreases 64 - attempts,
    {
        let rx = 2 * random_unit_fraction() - 65536;
        let ry = 2 * random_unit_fraction() - 65536;
        let rz = 2 * random_unit_fraction() - 65536;
        let cand = Vec3::new(rx, ry, rz);
        let sq = cand.squared_length();
        if sq < 65536 {
            return cand;
        }
        attempts = attempts + 1;
    }
    let center = Vec3::new(0, 0, 0);
    proof {
        lemma_div_of_zero(65536);
    }
    center
}

/// What a material hands back when the ray survives: the colour
/// attenuation and the scattered ray.
#[derive(Clone, Copy, Debug, PartialEq, Eq, Structural)]
pub struct ScatterResult {
    pub attenuation: Vec3,
    pub scattered: Ray,
}

impl ScatterResult {
    pub fn new(attenuation: Vec3, scattered: Ray) -> (r: ScatterResult)
        ensures
            r == (ScatterResult { attenuation, scattered }),
    {
        ScatterResult { attenuation, scattered }
    }

    pub fn attenuation(&self) -> (r: Vec3)
        ensures
            r == self.attenuation,
    {
        self.attenuation
    }

    pub fn scattered(&self) -> (r: Ray)
        ensures
            r == self.scattered,
    {
        self.scattered
    }
}

/// The x component of `v` reflected about the normal `n`:
/// `v - 2 (v . n) n`.
pub open spec fn reflect_x(v: Vec3, n: Vec3) -> int {
    v.x - fx_mul(n.x as int, 2 * dot_v(v, n))
}

/// The y component of `v` reflected about the normal `n`.
pub open spec fn reflect_y(v: Vec3, n: Vec3) -> int {
    v.y - fx_mul(n.y as int, 2 * dot_v(v, n))
}

/// The z component of `v` reflected about the normal `n`.
pub open spec fn reflect_z(v: Vec3, n: Vec3) -> int {
    v.z - fx_mul(n.z as int, 2 * dot_v(v, n))
}

/// Reflection of `v` about the normal `n`: `v - 2 (v . n) n`.
pub fn reflect(v: &Vec3, n: &Vec3) -> (r: Vec3)
    requires
        v.in_range(0x40_0000),
        n.in_range(0x2_0000),
    ensures
        r.x == reflect_x(*v, *n),
        r.y == reflect_y(*v, *n),
        r.z == reflect_z(*v, *n),
        r.in_range(0x1000_0000),
{
    let d = v.dot(*n);
    proof {
        assert(-(0x80_0000 * 65536) <= (v.x as int) * (n.x as int) <= 0x80_0000 * 65536)
            by (nonlinear_arith)
            requires
                -0x40_0000 <= v.x as int <= 0x40_0000,
                -0x2_0000 <= n.x as int <= 0x2_0000;
        assert(-(0x80_0000 * 65536) <= (v.y as int) * (n.y as int) <= 0x80_0000 * 65536)
            by (nonlinear_arith)
            requires
                -0x40_0000 <= v.y as int <= 0x40_0000,
                -0x2_0000 <= n.y as int <= 0x2_0000;
        assert(-(0x80_0000 * 65536) <= (v.z as int) * (n.z as int) <= 0x80_0000 * 65536)
            by (nonlinear_arith)
            requires
                -0x40_0000 <= v.z as int <= 0x40_0000,
                -0x2_0000 <= n.z as int <= 0x2_0000;
        lemma_fx_mul_within(v.x as int, n.x as int, 0x80_0000);
        lemma_fx_mul_within(v.y as int, n.y as int, 0x80_0000);
        lemma_fx_mul_within(v.z as int, n.z as int, 0x80_0000);
    }
    let k = 2 * d;
    let s = n.scale(k);
    proof {
        assert(-(0x800_0000 * 65536) <= (n.x as int) * (k as int) <= 0x800_0000 * 65536)
            by (nonlinear_arith)
            requires
                -0x2_0000 <= n.x as int <= 0x2_0000,
                -0x300_0000 <= k as int <= 0x300_0000;
        assert(-(0x800_0000 * 65536) <= (n.y as int) * (k as int) <= 0x800_0000 * 65536)
            by (nonlinear_arith)
            requires
                -0x2_0000 <= n.y as int <= 0x2_0000,
                -0x300_0000 <= k as int <= 0x300_0000;
        assert(-(0x800_0000 * 65536) <= (n.z as int) * (k as int) <= 0x800_0000 * 65536)
            by (nonlinear_arith)
            requires
                -0x2_0000 <= n.z as int <= 0x2_0000,
                -0x300_0000 <= k as int <= 0x300_0000;
        lemma_fx_mul_within(n.x as int, k as int, 0x800_0000);
        lemma_fx_mul_within(n.y as int, k as int, 0x800_0000);
        lemma_fx_mul_within(n.z as int, k as int, 0x800_0000);
    }
    v.sub(s)
}

/// Diffuse material: always scatters toward a random point of the unit
/// sphere centered at the tip of the normal; attenuation is the albedo.
#[derive(Clone, Copy, Debug, PartialEq, Eq, Structural)]
pub struct Lambertian {
    pub albedo: Vec3,
}

/// What Lambertian scattering produces for the sampled point: a ray from
/// the hit point toward `normal + sample`, attenuated by the albedo; the
/// ray always survives.
pub open spec fn lambertian_scatter(l: Lambertian, h: HitRecord, sample: Vec3) -> Option<
    ScatterResult,
> {
    Some(
        ScatterResult {
            attenuation: l.albedo,
            scattered: Ray {
                origin: h.point,
                direction: Vec3 {
                    x: (h.normal.x + sample.x) as i64,
                    y: (h.normal.y + sample.y) as i64,
                    z: (h.normal.z + sample.z) as i64,
                },
            },
        },
    )
}

impl Lambertian {
    pub fn new(albedo: Vec3) -> (l: Lambertian)
        ensures
            l.albedo == albedo,
    {
        Lambertian { albedo }
    }

    pub fn albedo(&self) -> (r: Vec3)
        ensures
            r == self.albedo,
    {
        self.albedo
    }

    /// Deterministic core of the diffuse bounce, for a given sampled
    /// point.
    pub fn scatter_sampled(&self, hit_record: &HitRecord, sample: Vec3) -> (res: Option<
        ScatterResult,
    >)
        requires
            hit_record.point.in_range(0x1_0000_0000_0000),
            hit_record.normal.in_range(0x1_0000_0000_0000),
            sample.in_range(65536),
        ensures
            res == lambertian_scatter(*self, *hit_record, sample),
    {
        let target = hit_record.point.add(hit_record.normal).add(sample);
        let scattered = Ray::new(&hit_record.point, &target.sub(hit_record.point));
        Some(ScatterResult { attenuation: self.albedo, scattered })
    }

    /// The diffuse bounce: always scatters; the scattered ray starts at
    /// the hit point and the attenuation is the albedo, whatever point was
    /// sampled.
    pub fn scatter(&self, _ray_in: &Ray, hit_record: &HitRecord) -> (res: Option<ScatterResult>)
        requires
            hit_record.point.in_range(0x1_0000_0000_0000),
            hit_record.normal.in_range(0x1_0000_0000_0000),
        ensures
            exists|p: Vec3|
                #[trigger] valid_sample(p) && res == lambertian_scatter(*self, *hit_record, p),
            res is Some,
            res matches Some(sr) ==> sr.scattered.origin == hit_record.point && sr.attenuation
                == self.albedo,
    {
        let sample = random_in_unit_sphere();
        let res = self.scatter_sampled(hit_record, sample);
        proof {
            assert(valid_sample(sample) && res == lambertian_scatter(
                *self,
                *hit_record,
                sample,
            ));
        }
        res
    }
}

/// Specular material: mirrors the incoming direction, roughened by a fuzz
/// offset; absorbs rays that would scatter into the surface.
#[derive(Clone, Copy, Debug, PartialEq, Eq, Structural)]
pub struct Metal {
    pub albedo: Vec3,
    pub fuzz: i64,
}

/// What metal scattering produces for the sampled point: the unit
/// incoming direction mirrored about the normal, offset by `fuzz *
/// sample`; the ray survives only if the result points away from the
/// surface.
pub open spec fn metal_scatter(m: Metal, r: Ray, h: HitRecord, sample: Vec3) -> Option<
    ScatterResult,
> {
    let uv = unit_of(r.direction);
    let dirv = Vec3 {
        x: (reflect_x(uv, h.normal) + fx_mul(sample.x as int, m.fuzz as int)) as i64,
        y: (reflect_y(uv, h.normal) + fx_mul(sample.y as int, m.fuzz as int)) as i64,
        z: (reflect_z(uv, h.normal) + fx_mul(sample.z as int, m.fuzz as int)) as i64,
    };
    if dot_v(dirv, h.normal) > 0 {
        Some(
            ScatterResult {
                attenuation: m.albedo,
                scattered: Ray { origin: h.point, direction: dirv },
            },
        )
    } else {
        None
    }
}

impl Metal {
    /// A fuzz below zero is silently raised to zero; no upper clamp is
    /// applied.
    pub fn new(albedo: Vec3, fuzz: i64) -> (m: Metal)
        ensures
            m.albedo == albedo,
            m.fuzz == if fuzz < 0 { 0 as i64 } else { fuzz },
    {
        let fuzz = if fuzz < 0 { 0 } else { fuzz };
        Metal { albedo, fuzz }
    }

    pub fn albedo(&self) -> (r: Vec3)
        ensures
            r == self.albedo,
    {
        self.albedo
    }

    pub fn fuzz(&self) -> (r: i64)
        ensures
            r == self.fuzz,
    {
        self.fuzz
    }

    /// Deterministic core of the metal bounce, for a given sampled point.
    pub fn scatter_sampled(&self, ray_in: &Ray, hit_record: &HitRecord, sample: Vec3) -> (res:
        Option<ScatterResult>)
        requires
            0 <= self.fuzz <= 0x4000_0000,
            ray_in.direction.in_range(FX_LIM as int),
            dot_v(ray_in.direction, ray_in.direction) >= 65536,
            hit_record.point.in_range(0x1_0000_0000_0000),
            hit_record.normal.in_range(0x2_0000),
            sample.in_range(65536),
        ensures
            res == metal_scatter(*self, *ray_in, *hit_record, sample),
    {
        let uv = ray_in.direction.unit_vector();
        let reflected = reflect(&uv, &hit_record.normal);
        let offs = sample.scale(self.fuzz);
        proof {
            assert(-(0x4000_0000 * 65536) <= (sample.x as int) * (self.fuzz as int) <= 0x4000_0000
                * 65536) by (nonlinear_arith)
                requires
                    -65536 <= sample.x as int <= 65536,
                    0 <= self.fuzz as int <= 0x4000_0000;
            assert(-(0x4000_0000 * 65536) <= (sample.y as int) * (self.fuzz as int) <= 0x4000_0000
                * 65536) by (nonlinear_arith)
                requires
                    -65536 <= sample.y as int <= 65536,
                    0 <= self.fuzz as int <= 0x4000_0000;
            assert(-(0x4000_0000 * 65536) <= (sample.z as int) * (self.fuzz as int) <= 0x4000_0000
                * 65536) by (nonlinear_arith)
                requires
                    -65536 <= sample.z as int <= 65536,
                    0 <= self.fuzz as int <= 0x4000_0000;
            lemma_fx_mul_within(sample.x as int, self.fuzz as int, 0x4000_0000);
            lemma_fx_mul_within(sample.y as int, self.fuzz as int, 0x4000_0000);
            lemma_fx_mul_within(sample.z as int, self.fuzz as int, 0x4000_0000);
        }
        let dirv = reflected.add(offs);
        let gate = dirv.dot(hit_record.normal);
        if gate > 0 {
            Some(
                ScatterResult {
                    attenuation: self.albedo,
                    scattered: Ray::new(&hit_record.point, &dirv),
                },
            )
        } else {
            None
        }
    }

    /// The metal bounce: whatever point was sampled, a surviving ray
    /// starts at the hit point and is attenuated by the albedo.
    pub fn scatter(&self, ray_in: &Ray, hit_record: &HitRecord) -> (res: Option<ScatterResult>)
        requires
            0 <= self.fuzz <= 0x4000_0000,
            ray_in.direction.in_range(FX_LIM as int),
            dot_v(ray_in.direction, ray_in.direction) >= 65536,
            hit_record.point.in_range(0x1_0000_0000_0000),
            hit_record.normal.in_range(0x2_0000),
        ensures
            exists|p: Vec3|
                #[trigger] valid_sample(p) && res == metal_scatter(*self, *ray_in, *hit_record, p),
            res matches Some(sr) ==> sr.scattered.origin == hit_record.point && sr.attenuation
                == self.albedo,
    {
        let sample = random_in_unit_sphere();
        let res = self.scatter_sampled(ray_in, hit_record, sample);
        proof {
            assert(valid_sample(sample) && res == metal_scatter(
                *self,
                *ray_in,
                *hit_record,
                sample,
            ));
        }
        res
    }
}

/// With fuzz zero the metal bounce is an exact mirror: the sampled point
/// does not enter the result at all.
pub proof fn lemma_metal_mirror(m: Metal, r: Ray, h: HitRecord, sample: Vec3)
    requires
        m.fuzz == 0,
        r.direction.in_range(FX_LIM as int),
        dot_v(r.direction, r.direction) >= 65536,
        h.normal.in_range(0x2_0000),
    ensures
        metal_scatter(m, r, h, sample) == metal_scatter(m, r, h, Vec3 { x: 0, y: 0, z: 0 }),
        metal_scatter(m, r, h, sample) matches Some(sr) ==> sr.scattered.direction.x as int
            == reflect_x(unit_of(r.direction), h.normal) && sr.scattered.direction.y as int
            == reflect_y(unit_of(r.direction), h.normal) && sr.scattered.direction.z as int
            == reflect_z(unit_of(r.direction), h.normal),
{
    crate::fixed::lemma_fx_mul_zero(sample.x as int);
    crate::fixed::lemma_fx_mul_zero(sample.y as int);
    crate::fixed::lemma_fx_mul_zero(sample.z as int);
    crate::fixed::lemma_fx_mul_zero(0);
    crate::vec3::lemma_unit_in_range(r.direction);
    let uv = unit_of(r.direction);
    lemma_reflect_in_range(uv, h.normal);
}

/// Reflection of a vector with components within `2 * SCALE` about a
/// normal of the same magnitude stays well within the representable range.
pub proof fn lemma_reflect_in_range(v: Vec3, n: Vec3)
    requires
        v.in_range(0x2_0000),
        n.in_range(0x2_0000),
    ensures
        -0x80_0000 <= reflect_x(v, n) <= 0x80_0000,
        -0x80_0000 <= reflect_y(v, n) <= 0x80_0000,
        -0x80_0000 <= reflect_z(v, n) <= 0x80_0000,
{
    assert(-(0x4_0000 * 65536) <= (v.x as int) * (n.x as int) <= 0x4_0000 * 65536)
        by (nonlinear_arith)
        requires
            -0x2_0000 <= v.x as int <= 0x2_0000,
            -0x2_0000 <= n.x as int <= 0x2_0000;
    assert(-(0x4_0000 * 65536) <= (v.y as int) * (n.y as int) <= 0x4_0000 * 65536)
        by (nonlinear_arith)
        requires
            -0x2_0000 <= v.y as int <= 0x2_0000,
            -0x2_0000 <= n.y as int <= 0x2_0000;
    assert(-(0x4_0000 * 65536) <= (v.z as int) * (n.z as int) <= 0x4_0000 * 65536)
        by (nonlinear_arith)
        requires
            -0x2_0000 <= v.z as int <= 0x2_0000,
            -0x2_0000 <= n.z as int <= 0x2_0000;
    lemma_fx_mul_within(v.x as int, n.x as int, 0x4_0000);
    lemma_fx_mul_within(v.y as int, n.y as int, 0x4_0000);
    lemma_fx_mul_within(v.z as int, n.z as int, 0x4_0000);
    let k = 2 * dot_v(v, n);
    assert(-(0x40_0000 * 65536) <= (n.x as int) * k <= 0x40_0000 * 65536) by (nonlinear_arith)
        requires
            -0x2_0000 <= n.x as int <= 0x2_0000,
            -0x18_0000 <= k <= 0x18_0000;
    assert(-(0x40_0000 * 65536) <= (n.y as int) * k <= 0x40_0000 * 65536) by (nonlinear_arith)
        requires
            -0x2_0000 <= n.y as int <= 0x2_0000,
            -0x18_0000 <= k <= 0x18_0000;
    assert(-(0x40_0000 * 65536) <= (n.z as int) * k <= 0x40_0000 * 65536) by (nonlinear_arith)
        requires
            -0x2_0000 <= n.z as int <= 0x2_0000,
            -0x18_0000 <= k <= 0x18_0000;
    lemma_fx_mul_within(n.x as int, k, 0x40_0000);
    lemma_fx_mul_within(n.y as int, k, 0x40_0000);
    lemma_fx_mul_within(n.z as int, k, 0x40_0000);
}

/// Schlick's approximation of the Fresnel reflectance:
/// `r0 + (1 - r0) (1 - cosine)^5` with `r0 = ((1 - n) / (1 + n))^2`.
pub open spec fn schlick_s(cosine: int, ref_idx: int) -> int {
    let r0 = fx_div(65536 - ref_idx, 65536 + ref_idx);
    let r0s = fx_mul(r0, r0);
    let om = 65536 - cosine;
    let p2 = fx_mul(om, om);
    let p4 = fx_mul(p2, p2);
    let p5 = fx_mul(p4, om);
    r0s + fx_mul(65536 - r0s, p5)
}

/// Schlick's reflectance probability, as a fixed-point scalar.
pub fn schlick(cosine: i64, ref_idx: i64) -> (r: i64)
    requires
        0x1000 <= ref_idx <= 0x10_0000,
        -0x2_0000 <= cosine <= 0x2_0000,
    ensures
        r as int == schlick_s(cosine as int, ref_idx as int),
{
    let r0 = crate::fixed::div_fx(65536 - ref_idx, 65536 + ref_idx);
    proof {
        lemma_div_trunc_denom(
            (65536 - ref_idx as int) * 65536,
            65536 + ref_idx as int,
            0x20_0000_0000,
            65536,
        );
        assert(0x20_0000_0000int / 65536 == 0x20_0000);
        assert(-(0x400_0000 * 65536) <= (r0 as int) * (r0 as int) <= 0x400_0000 * 65536)
            by (nonlinear_arith)
            requires
                -0x20_0000 <= r0 as int <= 0x20_0000;
        lemma_fx_mul_within(r0 as int, r0 as int, 0x400_0000);
    }
    let r0s = mul_fx(r0, r0);
    let om = 65536 - cosine;
    proof {
        assert(0 <= (om as int) * (om as int) <= 0x10_0000 * 65536) by (nonlinear_arith)
            requires
                -0x3_0000 <= om as int <= 0x3_0000;
        lemma_fx_mul_within(om as int, om as int, 0x10_0000);
    }
    let p2 = mul_fx(om, om);
    proof {
        assert(0 <= (p2 as int) * (p2 as int) <= 0x100_0000 * 65536) by (nonlinear_arith)
            requires
                0 <= p2 as int <= 0x10_0000;
        lemma_fx_mul_within(p2 as int, p2 as int, 0x100_0000);
    }
    let p4 = mul_fx(p2, p2);
    proof {
        assert(-(0x400_0000 * 65536) <= (p4 as int) * (om as int) <= 0x400_0000 * 65536)
            by (nonlinear_arith)
            requires
                0 <= p4 as int <= 0x100_0000,
                -0x3_0000 <= om as int <= 0x3_0000;
        lemma_fx_mul_within(p4 as int, om as int, 0x400_0000);
    }
    let p5 = mul_fx(p4, om);
    let base = 65536 - r0s;
    let tail = mul_fx(base, p5);
    r0s + tail
}

/// Snell refraction in vector form, over the unit incoming direction:
/// available exactly when the discriminant
/// `1 - ni_over_nt^2 (1 - dt^2)` is positive.
pub open spec fn refract_s(v: Vec3, n: Vec3, ni_over_nt: int) -> Option<Vec3> {
    let uv = unit_of(v);
    let dt = dot_v(uv, n);
    let disc = 65536 - fx_mul(fx_mul(ni_over_nt, ni_over_nt), 65536 - fx_mul(dt, dt));
    if disc > 0 {
        Some(
            Vec3 {
                x: (fx_mul(uv.x - fx_mul(n.x as int, dt), ni_over_nt) - fx_mul(
                    n.x as int,
                    fx_sqrt(disc),
                )) as i64,
                y: (fx_mul(uv.y - fx_mul(n.y as int, dt), ni_over_nt) - fx_mul(
                    n.y as int,
                    fx_sqrt(disc),
                )) as i64,
                z: (fx_mul(uv.z - fx_mul(n.z as int, dt), ni_over_nt) - fx_mul(
                    n.z as int,
                    fx_sqrt(disc),
                )) as i64,
            },
        )
    } else {
        None
    }
}

/// Attempts refraction of `v` about the outward normal `n` with the given
/// index ratio; `None` means total internal reflection.
pub fn refract(v: &Vec3, n: &Vec3, ni_over_nt: i64) -> (res: Option<Vec3>)
    requires
        v.in_range(FX_LIM as int),
        dot_v(*v, *v) >= 65536,
        n.in_range(0x2_0000),
        0 <= ni_over_nt <= 0x10_0000,
    ensures
        res == refract_s(*v, *n, ni_over_nt as int),
        res matches Some(w) ==> w.in_range(0x4000_0000),
{
    let uv = v.unit_vector();
    let dt = uv.dot(*n);
    proof {
        assert(-(0x4_0000 * 65536) <= (uv.x as int) * (n.x as int) <= 0x4_0000 * 65536)
            by (nonlinear_arith)
            requires
                -0x2_0000 <= uv.x as int <= 0x2_0000,
                -0x2_0000 <= n.x as int <= 0x2_0000;
        assert(-(0x4_0000 * 65536) <= (uv.y as int) * (n.y as int) <= 0x4_0000 * 65536)
            by (nonlinear_arith)
            requires
                -0x2_0000 <= uv.y as int <= 0x2_0000,
                -0x2_0000 <= n.y as int <= 0x2_0000;
        assert(-(0x4_0000 * 65536) <= (uv.z as int) * (n.z as int) <= 0x4_0000 * 65536)
            by (nonlinear_arith)
            requires
                -0x2_0000 <= uv.z as int <= 0x2_0000,
                -0x2_0000 <= n.z as int <= 0x2_0000;
        lemma_fx_mul_within(uv.x as int, n.x as int, 0x4_0000);
        lemma_fx_mul_within(uv.y as int, n.y as int, 0x4_0000);
        lemma_fx_mul_within(uv.z as int, n.z as int, 0x4_0000);
    }
    proof {
        assert(0 <= (dt as int) * (dt as int) <= 0x400_0000 * 65536) by (nonlinear_arith)
            requires
                -0xC_0000 <= dt as int <= 0xC_0000;
        lemma_fx_mul_within(dt as int, dt as int, 0x400_0000);
    }
    let dt2 = mul_fx(dt, dt);
    let inner = 65536 - dt2;
    proof {
        assert(0 <= (ni_over_nt as int) * (ni_over_nt as int) <= 0x100_0000 * 65536)
            by (nonlinear_arith)
            requires
                0 <= ni_over_nt as int <= 0x10_0000;
        lemma_fx_mul_within(ni_over_nt as int, ni_over_nt as int, 0x100_0000);
    }
    let nn = mul_fx(ni_over_nt, ni_over_nt);
    proof {
        assert(-(0x8_0000_0000 * 65536) <= (nn as int) * (inner as int) <= 0x8_0000_0000
            * 65536) by (nonlinear_arith)
            requires
                0 <= nn as int <= 0x100_0000,
                -0x800_0000 <= inner as int <= 0x800_0000;
        lemma_fx_mul_within(nn as int, inner as int, 0x8_0000_0000);
    }
    let prod = mul_fx(nn, inner);
    let disc = 65536 - prod;
    if disc > 0 {
        let sq = crate::fixed::sqrt_fx(disc);
        proof {
            crate::fixed::lemma_sqrt_floor(disc as int * 65536);
            assert(sq < 0x400_0000) by (nonlinear_arith)
                requires
                    (sq as int) * (sq as int) <= disc as int * 65536,
                    sq >= 0,
                    (disc as int) < 0x10_0000_0000;
        }
        let ndt = n.scale(dt);
        proof {
            assert(-(0x40_0000 * 65536) <= (n.x as int) * (dt as int) <= 0x40_0000 * 65536)
                by (nonlinear_arith)
                requires
                    -0x2_0000 <= n.x as int <= 0x2_0000,
                    -0xC_0000 <= dt as int <= 0xC_0000;
            assert(-(0x40_0000 * 65536) <= (n.y as int) * (dt as int) <= 0x40_0000 * 65536)
                by (nonlinear_arith)
                requires
                    -0x2_0000 <= n.y as int <= 0x2_0000,
                    -0xC_0000 <= dt as int <= 0xC_0000;
            assert(-(0x40_0000 * 65536) <= (n.z as int) * (dt as int) <= 0x40_0000 * 65536)
                by (nonlinear_arith)
                requires
                    -0x2_0000 <= n.z as int <= 0x2_0000,
                    -0xC_0000 <= dt as int <= 0xC_0000;
            lemma_fx_mul_within(n.x as int, dt as int, 0x40_0000);
            lemma_fx_mul_within(n.y as int, dt as int, 0x40_0000);
            lemma_fx_mul_within(n.z as int, dt as int, 0x40_0000);
        }
        let w1 = uv.sub(ndt);
        proof {
            assert(-(0x1000_0000 * 65536) <= (w1.x as int) * (ni_over_nt as int) <= 0x1000_0000
                * 65536) by (nonlinear_arith)
                requires
                    -0x80_0000 <= w1.x as int <= 0x80_0000,
                    0 <= ni_over_nt as int <= 0x10_0000;
            assert(-(0x1000_0000 * 65536) <= (w1.y as int) * (ni_over_nt as int) <= 0x1000_0000
                * 65536) by (nonlinear_arith)
                requires
                    -0x80_0000 <= w1.y as int <= 0x80_0000,
                    0 <= ni_over_nt as int <= 0x10_0000;
            assert(-(0x1000_0000 * 65536) <= (w1.z as int) * (ni_over_nt as int) <= 0x1000_0000
                * 65536) by (nonlinear_arith)
                requires
                    -0x80_0000 <= w1.z as int <= 0x80_0000,
                    0 <= ni_over_nt as int <= 0x10_0000;
            lemma_fx_mul_within(w1.x as int, ni_over_nt as int, 0x1000_0000);
            lemma_fx_mul_within(w1.y as int, ni_over_nt as int, 0x1000_0000);
            lemma_fx_mul_within(w1.z as int, ni_over_nt as int, 0x1000_0000);
        }
        let w2 = w1.scale(ni_over_nt);
        proof {
            assert(-(0x1000_0000 * 65536) <= (n.x as int) * (sq as int) <= 0x1000_0000 * 65536)
                by (nonlinear_arith)
                requires
                    -0x2_0000 <= n.x as int <= 0x2_0000,
                    0 <= sq as int <= 0x400_0000;
            assert(-(0x1000_0000 * 65536) <= (n.y as int) * (sq as int) <= 0x1000_0000 * 65536)
                by (nonlinear_arith)
                requires
                    -0x2_0000 <= n.y as int <= 0x2_0000,
                    0 <= sq as int <= 0x400_0000;
            assert(-(0x1000_0000 * 65536) <= (n.z as int) * (sq as int) <= 0x1000_0000 * 65536)
                by (nonlinear_arith)
                requires
                    -0x2_0000 <= n.z as int <= 0x2_0000,
                    0 <= sq as int <= 0x400_0000;
            lemma_fx_mul_within(n.x as int, sq as int, 0x1000_0000);
            lemma_fx_mul_within(n.y as int, sq as int, 0x1000_0000);
            lemma_fx_mul_within(n.z as int, sq as int, 0x1000_0000);
        }
        let w3 = n.scale(sq);
        Some(w2.sub(w3))
    } else {
        None
    }
}

/// Refractive glass: reflects or refracts by Schlick's probability;
/// absorbs nothing.
#[derive(Clone, Copy, Debug, PartialEq, Eq, Structural)]
pub struct Dielectric {
    pub ref_idx: i64,
}

/// What dielectric scattering produces for the uniform draw `u`: the side
/// the ray comes from picks the outward normal, the index ratio and the
/// Fresnel cosine; if refraction is possible the draw chooses between the
/// reflected and the refracted ray by Schlick's probability, otherwise
/// (total internal reflection) the ray is always reflected.  The ray
/// always survives and the attenuation is white.
pub open spec fn dielectric_scatter(d: Dielectric, r: Ray, h: HitRecord, u: int) -> Option<
    ScatterResult,
> {
    let refl = Vec3 {
        x: reflect_x(r.direction, h.normal) as i64,
        y: reflect_y(r.direction, h.normal) as i64,
        z: reflect_z(r.direction, h.normal) as i64,
    };
    let ddn = dot_v(r.direction, h.normal);
    let l = len_v(r.direction);
    let outw = if ddn > 0 {
        Vec3 {
            x: (-(h.normal.x as int)) as i64,
            y: (-(h.normal.y as int)) as i64,
            z: (-(h.normal.z as int)) as i64,
        }
    } else {
        h.normal
    };
    let ni = if ddn > 0 {
        d.ref_idx as int
    } else {
        fx_div(65536, d.ref_idx as int)
    };
    let cosine = if ddn > 0 {
        fx_div(fx_mul(d.ref_idx as int, ddn), l)
    } else {
        fx_div(-ddn, l)
    };
    let white = Vec3 { x: 65536, y: 65536, z: 65536 };
    match refract_s(r.direction, outw, ni) {
        None => Some(
            ScatterResult {
                attenuation: white,
                scattered: Ray { origin: h.point, direction: refl },
            },
        ),
        Some(w) => {
            let prob = schlick_s(cosine, d.ref_idx as int);
            if u < prob {
                Some(
                    ScatterResult {
                        attenuation: white,
                        scattered: Ray { origin: h.point, direction: refl },
                    },
                )
            } else {
                Some(
                    ScatterResult {
                        attenuation: white,
                        scattered: Ray { origin: h.point, direction: w },
                    },
                )
            }
        },
    }
}

/// Schlick's reflectance for the full cosine range the scattering code can
/// produce; the value can exceed any `i64`, so it is carried as an `i128`.
fn schlick_probability(cosine: i64, ref_idx: i64) -> (p: i128)
    requires
        0x1000 <= ref_idx <= 0x10_0000,
        -0x2000_0000 <= cosine <= 0x2000_0000,
    ensures
        p as int == schlick_s(cosine as int, ref_idx as int),
{
    let r0 = crate::fixed::div_fx(65536 - ref_idx, 65536 + ref_idx);
    proof {
        lemma_div_trunc_denom(
            (65536 - ref_idx as int) * 65536,
            65536 + ref_idx as int,
            0x20_0000_0000,
            65536,
        );
        assert(0x20_0000_0000int / 65536 == 0x20_0000);
        assert(-(0x400_0000 * 65536) <= (r0 as int) * (r0 as int) <= 0x400_0000 * 65536)
            by (nonlinear_arith)
            requires
                -0x20_0000 <= r0 as int <= 0x20_0000;
        lemma_fx_mul_within(r0 as int, r0 as int, 0x400_0000);
    }
    let r0s = mul_fx(r0, r0);
    let om: i128 = 65536 - (cosine as i128);
    proof {
        assert(0 <= (om as int) * (om as int) <= 0x2000_0000_0000 * 65536) by (nonlinear_arith)
            requires
                -0x2001_0000 <= om as int <= 0x2001_0000;
    }
    let p2: i128 = div_trunc_i128(om * om, 65536);
    proof {
        crate::fixed::lemma_div_trunc_scaled((om as int) * (om as int), 65536, 0x2000_0000_0000);
        assert(0 <= (p2 as int) * (p2 as int) <= 0x4000_0000_0000_0000_0000int * 65536)
            by (nonlinear_arith)
            requires
                0 <= p2 as int <= 0x2000_0000_0000;
    }
    let p4: i128 = div_trunc_i128(p2 * p2, 65536);
    proof {
        crate::fixed::lemma_div_trunc_scaled(
            (p2 as int) * (p2 as int),
            65536,
            0x4000_0000_0000_0000_0000int,
        );
        assert(-(0x1_0000_0000_0000_0000_0000_0000int * 65536) <= (p4 as int) * (om as int)
            <= 0x1_0000_0000_0000_0000_0000_0000int * 65536) by (nonlinear_arith)
            requires
                0 <= p4 as int <= 0x4000_0000_0000_0000_0000int,
                -0x2001_0000 <= om as int <= 0x2001_0000;
    }
    let p5: i128 = div_trunc_i128(p4 * om, 65536);
    proof {
        crate::fixed::lemma_div_trunc_scaled(
            (p4 as int) * (om as int),
            65536,
            0x1_0000_0000_0000_0000_0000_0000int,
        );
    }
    let base: i128 = 65536 - (r0s as i128);
    proof {
        assert(-0x4010000000000000000000000000000int <= (base as int) * (p5 as int) <= 0x4010000000000000000000000000000int)
            by (nonlinear_arith)
            requires
                -0x401_0000 <= base as int <= 0x401_0000,
                -0x1_0000_0000_0000_0000_0000_0000int <= p5 as int
                    <= 0x1_0000_0000_0000_0000_0000_0000int;
        assert(0x401000000000000000000000000int * 65536 == 0x4010000000000000000000000000000int);
    }
    let tail: i128 = div_trunc_i128(base * p5, 65536);
    proof {
        crate::fixed::lemma_div_trunc_scaled(
            (base as int) * (p5 as int),
            65536,
            0x401000000000000000000000000int,
        );
    }
    (r0s as i128) + tail
}

impl Dielectric {
    pub fn new(ref_idx: i64) -> (d: Dielectric)
        ensures
            d.ref_idx == ref_idx,
    {
        Dielectric { ref_idx }
    }

    /// Deterministic core of the glass bounce, for a given uniform draw.
    /// Refraction can fail only where the draw picks reflection anyway, so
    /// the "refraction expected but unavailable" state is unreachable and
    /// the bounce always produces a ray.
    pub fn scatter_sampled(&self, ray_in: &Ray, hit_record: &HitRecord, u: i64) -> (res: Option<
        ScatterResult,
    >)
        requires
            0 <= u < 65536,
            0x1000 <= self.ref_idx <= 0x10_0000,
            ray_in.direction.in_range(0x40_0000),
            dot_v(ray_in.direction, ray_in.direction) >= 65536,
            hit_record.point.in_range(0x1_0000_0000_0000),
            hit_record.normal.in_range(0x2_0000),
        ensures
            res == dielectric_scatter(*self, *ray_in, *hit_record, u as int),
            res is Some,
    {
        let reflected = reflect(&ray_in.direction, &hit_record.normal);
        let ddn = ray_in.direction.dot(hit_record.normal);
        proof {
            assert(-(0x80_0000 * 65536) <= (ray_in.direction.x as int) * (hit_record.normal.x
                as int) <= 0x80_0000 * 65536) by (nonlinear_arith)
                requires
                    -0x40_0000 <= ray_in.direction.x as int <= 0x40_0000,
                    -0x2_0000 <= hit_record.normal.x as int <= 0x2_0000;
            assert(-(0x80_0000 * 65536) <= (ray_in.direction.y as int) * (hit_record.normal.y
                as int) <= 0x80_0000 * 65536) by (nonlinear_arith)
                requires
                    -0x40_0000 <= ray_in.direction.y as int <= 0x40_0000,
                    -0x2_0000 <= hit_record.normal.y as int <= 0x2_0000;
            assert(-(0x80_0000 * 65536) <= (ray_in.direction.z as int) * (hit_record.normal.z
                as int) <= 0x80_0000 * 65536) by (nonlinear_arith)
                requires
                    -0x40_0000 <= ray_in.direction.z as int <= 0x40_0000,
                    -0x2_0000 <= hit_record.normal.z as int <= 0x2_0000;
            lemma_fx_mul_within(
                ray_in.direction.x as int,
                hit_record.normal.x as int,
                0x80_0000,
            );
            lemma_fx_mul_within(
                ray_in.direction.y as int,
                hit_record.normal.y as int,
                0x80_0000,
            );
            lemma_fx_mul_within(
                ray_in.direction.z as int,
                hit_record.normal.z as int,
                0x80_0000,
            );
        }
        let l = ray_in.direction.length();
        let entering = ddn > 0;
        let outward = if entering {
            hit_record.normal.neg()
        } else {
            hit_record.normal
        };
        let ni = if entering {
            self.ref_idx
        } else {
            crate::fixed::div_fx(65536, self.ref_idx)
        };
        proof {
            if !entering {
                lemma_div_trunc_denom(0x1_0000_0000int, self.ref_idx as int, 0x1_0000_0000, 0x1000);
                assert(0x1_0000_0000int / 0x1000 == 0x10_0000);
                vstd::arithmetic::div_mod::lemma_div_pos_is_pos(
                    vstd::math::abs(0x1_0000_0000int) as int,
                    vstd::math::abs(self.ref_idx as int) as int,
                );
            }
        }
        proof {
            crate::vec3::lemma_unit_in_range(ray_in.direction);
        }
        let cosine = if entering {
            let t1 = crate::fixed::mul_fx(self.ref_idx, ddn);
            proof {
                assert(-(0x1800_0000 * 65536) <= (self.ref_idx as int) * (ddn as int)
                    <= 0x1800_0000 * 65536) by (nonlinear_arith)
                    requires
                        0 <= self.ref_idx as int <= 0x10_0000,
                        -0x180_0000 <= ddn as int <= 0x180_0000;
                lemma_fx_mul_within(self.ref_idx as int, ddn as int, 0x1800_0000);
            }
            let c = crate::fixed::div_fx(t1, l);
            proof {
                lemma_div_trunc_denom((t1 as int) * 65536, l as int, 0x1800_0000_0000, 65536);
                assert(0x1800_0000_0000int / 65536 == 0x1800_0000);
            }
            c
        } else {
            let c = crate::fixed::div_fx(-ddn, l);
            proof {
                lemma_div_trunc_denom((-(ddn as int)) * 65536, l as int, 0x180_0000_0000, 65536);
                assert(0x180_0000_0000int / 65536 == 0x180_0000);
            }
            c
        };
        let refr = refract(&ray_in.direction, &outward, ni);
        let white = Vec3::new(65536, 65536, 65536);
        match refr {
            None => Some(
                ScatterResult {
                    attenuation: white,
                    scattered: Ray::new(&hit_record.point, &reflected),
                },
            ),
            Some(w) => {
                let prob = schlick_probability(cosine, self.ref_idx);
                if (u as i128) < prob {
                    Some(
                        ScatterResult {
                            attenuation: white,
                            scattered: Ray::new(&hit_record.point, &reflected),
                        },
                    )
                } else {
                    Some(
                        ScatterResult {
                            attenuation: white,
                            scattered: Ray::new(&hit_record.point, &w),
                        },
                    )
                }
            },
        }
    }

    /// The glass bounce: whatever was drawn, the ray survives, starts at
    /// the hit point, and is attenuated by white (glass absorbs nothing).
    pub fn scatter(&self, ray_in: &Ray, hit_record: &HitRecord) -> (res: Option<ScatterResult>)
        requires
            0x1000 <= self.ref_idx <= 0x10_0000,
            ray_in.direction.in_range(0x40_0000),
            dot_v(ray_in.direction, ray_in.direction) >= 65536,
            hit_record.point.in_range(0x1_0000_0000_0000),
            hit_record.normal.in_range(0x2_0000),
        ensures
            exists|u: int|
                0 <= u < 65536 && res == #[trigger] dielectric_scatter(
                    *self,
                    *ray_in,
                    *hit_record,
                    u,
                ),
            res is Some,
            res matches Some(sr) ==> sr.scattered.origin == hit_record.point && sr.attenuation
                == (Vec3 { x: 65536, y: 65536, z: 65536 }),
    {
        let u = random_unit_fraction();
        let res = self.scatter_sampled(ray_in, hit_record, u);
        proof {
            assert(0 <= (u as int) < 65536 && res == dielectric_scatter(
                *self,
                *ray_in,
                *hit_record,
                u as int,
            ));
        }
        res
    }
}

/// The closed set of materials a surface can carry.
#[derive(Clone, Copy, Debug, PartialEq, Eq, Structural)]
pub enum Material {
    Lambertian(Lambertian),
    Metal(Metal),
    Dielectric(Dielectric),
}

impl Material {
    /// What each scattering model needs of its inputs so that the
    /// fixed-point arithmetic stays inside the machine integers.
    pub open spec fn scatter_req(self, r: Ray, h: HitRecord) -> bool {
        match self {
            Material::Lambertian(_) => {
                &&& h.point.in_range(0x1_0000_0000_0000)
                &&& h.normal.in_range(0x1_0000_0000_0000)
            },
            Material::Metal(m) => {
                &&& 0 <= m.fuzz <= 0x4000_0000
                &&& r.direction.in_range(FX_LIM as int)
                &&& dot_v(r.direction, r.direction) >= 65536
                &&& h.point.in_range(0x1_0000_0000_0000)
                &&& h.normal.in_range(0x2_0000)
            },
            Material::Dielectric(d) => {
                &&& 0x1000 <= d.ref_idx <= 0x10_0000
                &&& r.direction.in_range(0x40_0000)
                &&& dot_v(r.direction, r.direction) >= 65536
                &&& h.point.in_range(0x1_0000_0000_0000)
                &&& h.normal.in_range(0x2_0000)
            },
        }
    }

    /// Dispatches to the variant's scattering model; `None` means the ray
    /// was absorbed.
    pub fn scatter(&self, ray_in: &Ray, hit_record: &HitRecord) -> (res: Option<ScatterResult>)
        requires
            self.scatter_req(*ray_in, *hit_record),
        ensures
            match *self {
                Material::Lambertian(lam) => exists|p: Vec3|
                    #[trigger] valid_sample(p) && res == lambertian_scatter(lam, *hit_record, p),
                Material::Metal(m) => exists|p: Vec3|
                    #[trigger] valid_sample(p) && res == metal_scatter(m, *ray_in, *hit_record, p),
                Material::Dielectric(d) => exists|u: int|
                    0 <= u < 65536 && res == #[trigger] dielectric_scatter(
                        d,
                        *ray_in,
                        *hit_record,
                        u,
                    ),
            },
            res matches Some(sr) ==> sr.scattered.origin == hit_record.point,
    {
        match self {
            Material::Lambertian(lam) => lam.scatter(ray_in, hit_record),
            Material::Metal(m) => m.scatter(ray_in, hit_record),
            Material::Dielectric(d) => d.scatter(ray_in, hit_record),
        }
    }
}

} // verus!
