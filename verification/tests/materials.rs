//! Scattering models and shading on concrete fixed-point values.

use raytracer::hit::{HitRecord, HittableList};
use raytracer::material::{
    random_in_unit_sphere, reflect, schlick, Dielectric, Lambertian, Material, Metal,
    ScatterResult,
};
use raytracer::ray::Ray;
use raytracer::render::color;
use raytracer::sphere::Sphere;
use raytracer::vec3::Vec3;

const ONE: i64 = 65536;
const HALF: i64 = 32768;

fn head_on_hit() -> HitRecord {
    // the P4 scenario's record: hit at (0,0,-0.5), outward normal +z
    HitRecord { t: HALF, point: Vec3::new(0, 0, -HALF), normal: Vec3::new(0, 0, ONE) }
}

#[test]
fn lambertian_always_scatters_from_hit_point() {
    let lam = Lambertian::new(Vec3::new(HALF, HALF, HALF));
    assert_eq!(lam.albedo(), Vec3::new(HALF, HALF, HALF));
    let ray = Ray::new(&Vec3::new(0, 0, 0), &Vec3::new(0, 0, -ONE));
    let hit = head_on_hit();
    for _ in 0..32 {
        let sr = lam.scatter(&ray, &hit).expect("lambertian always scatters");
        assert_eq!(sr.scattered().origin(), hit.point);
        assert_eq!(sr.attenuation(), Vec3::new(HALF, HALF, HALF));
    }
}

#[test]
fn lambertian_sampled_direction_is_normal_plus_sample() {
    let lam = Lambertian::new(Vec3::new(ONE, 0, 0));
    let hit = head_on_hit();
    let sample = Vec3::new(100, -200, 300);
    let sr = lam.scatter_sampled(&hit, sample).expect("always scatters");
    let d = sr.scattered().direction();
    assert_eq!((d.x, d.y, d.z), (100, -200, ONE + 300));
}

#[test]
fn metal_mirrors_normal_incidence_exactly() {
    // fuzz 0: the sampled point cannot enter the result
    let metal = Metal::new(Vec3::new(ONE, ONE, ONE), 0);
    assert_eq!(metal.fuzz(), 0);
    let ray = Ray::new(&Vec3::new(0, 0, 0), &Vec3::new(0, 0, -ONE));
    let hit = head_on_hit();
    for sample in [Vec3::new(0, 0, 0), Vec3::new(5000, -6000, 7000)] {
        let sr = metal.scatter_sampled(&ray, &hit, sample).expect("reflects");
        let d = sr.scattered().direction();
        assert_eq!((d.x, d.y, d.z), (0, 0, ONE));
        assert_eq!(sr.scattered().origin(), hit.point);
    }
}

#[test]
fn metal_absorbs_backward_reflection() {
    // a ray leaving along the normal reflects back into the surface and
    // fails the positivity gate
    let metal = Metal::new(Vec3::new(ONE, ONE, ONE), 0);
    let ray = Ray::new(&Vec3::new(0, 0, 0), &Vec3::new(0, 0, ONE));
    let hit = head_on_hit();
    let res = metal.scatter_sampled(&ray, &hit, Vec3::new(0, 0, 0));
    assert!(res.is_none());
}

#[test]
fn metal_fuzz_is_clamped_below_zero_only() {
    let m = Metal::new(Vec3::new(ONE, 0, 0), -5 * ONE);
    assert_eq!(m.fuzz(), 0);
    let m2 = Metal::new(Vec3::new(ONE, 0, 0), 3 * ONE);
    assert_eq!(m2.fuzz(), 3 * ONE);
    assert_eq!(m2.albedo(), Vec3::new(ONE, 0, 0));
}

#[test]
fn reflect_is_exact_on_axis() {
    let r = reflect(&Vec3::new(0, 0, -ONE), &Vec3::new(0, 0, ONE));
    assert_eq!((r.x, r.y, r.z), (0, 0, ONE));
}

#[test]
fn schlick_at_normal_incidence_is_four_percent() {
    // r0 = ((1 - 1.5) / (1 + 1.5))^2 = 0.04, and cosine 1 kills the tail
    let p = schlick(ONE, 98304);
    assert_eq!(p, 2621);
    assert!((p - 2621).abs() < 66); // within 0.001 of 0.04
}

#[test]
fn dielectric_normal_incidence_refracts_straight_through() {
    // entering perpendicular: refraction is available (no total internal
    // reflection), and a draw at or above the 4% reflectance refracts
    let glass = Dielectric::new(98304);
    let ray = Ray::new(&Vec3::new(0, 0, 0), &Vec3::new(0, 0, -ONE));
    let hit = head_on_hit();
    let sr = glass.scatter_sampled(&ray, &hit, 30000).expect("always scatters");
    let d = sr.scattered().direction();
    assert_eq!((d.x, d.y, d.z), (0, 0, -ONE));
    assert_eq!(sr.attenuation(), Vec3::new(ONE, ONE, ONE));
    // a draw under the reflectance probability reflects instead
    let sr2 = glass.scatter_sampled(&ray, &hit, 0).expect("always scatters");
    let d2 = sr2.scattered().direction();
    assert_eq!((d2.x, d2.y, d2.z), (0, 0, ONE));
}

#[test]
fn dielectric_high_index_exit_always_refracts() {
    // exiting a dense medium perpendicular to the surface: the cosine is
    // the full refractive index (3.0), Schlick's value is negative, and
    // every draw refracts straight through -- none reflects
    let dense = Dielectric::new(3 * ONE);
    let ray = Ray::new(&Vec3::new(0, 0, 0), &Vec3::new(0, 0, ONE));
    let hit = HitRecord { t: HALF, point: Vec3::new(0, 0, HALF), normal: Vec3::new(0, 0, ONE) };
    for u in [0, 2620, 60293, 65535] {
        let sr = dense.scatter_sampled(&ray, &hit, u).expect("always scatters");
        let d = sr.scattered().direction();
        assert_eq!((d.x, d.y, d.z), (0, 0, ONE));
    }
}

#[test]
fn sky_channels_stay_in_unit_range() {
    // directions of length at least one: each channel lies in [0, 1]
    let mut world = HittableList::new();
    world.push(Sphere::new(Vec3::new(0, 0, -ONE), HALF));
    let cases = [
        (Vec3::new(0, -ONE, 0), (ONE, ONE, ONE)),
        (Vec3::new(3000, -2000, -ONE), (49651, 56005, ONE)),
        (Vec3::new(ONE, ONE, ONE), (39693, 50030, ONE)),
    ];
    for (dir, expect) in cases {
        let ray = Ray::new(&Vec3::new(0, ONE, ONE), &dir);
        let c = world.is_hit(&ray, 0, 0x4000_0000).map(|_| Vec3::new(0, 0, 0)).unwrap_or_else(
            || raytracer::render::sky_color(&ray),
        );
        assert_eq!((c.x, c.y, c.z), expect);
        assert!(0 <= c.x && c.x <= ONE && 0 <= c.y && c.y <= ONE && 0 <= c.z && c.z <= ONE);
    }
}

#[test]
fn dielectric_always_scatters() {
    let glass = Dielectric::new(98304);
    let ray = Ray::new(&Vec3::new(0, 0, 0), &Vec3::new(0, 0, -ONE));
    let hit = head_on_hit();
    for _ in 0..32 {
        let sr = glass.scatter(&ray, &hit).expect("glass never absorbs");
        assert_eq!(sr.attenuation(), Vec3::new(ONE, ONE, ONE));
        assert_eq!(sr.scattered().origin(), hit.point);
    }
}

#[test]
fn material_dispatch_matches_variants() {
    let ray = Ray::new(&Vec3::new(0, 0, 0), &Vec3::new(0, 0, -ONE));
    let hit = head_on_hit();
    let lam = Material::Lambertian(Lambertian::new(Vec3::new(HALF, 0, 0)));
    let sr = lam.scatter(&ray, &hit).expect("lambertian scatters");
    assert_eq!(sr.attenuation(), Vec3::new(HALF, 0, 0));
    let metal = Material::Metal(Metal::new(Vec3::new(0, HALF, 0), 0));
    let sr = metal.scatter(&ray, &hit).expect("head-on metal reflects");
    assert_eq!(sr.attenuation(), Vec3::new(0, HALF, 0));
    let glass = Material::Dielectric(Dielectric::new(98304));
    let sr = glass.scatter(&ray, &hit).expect("glass scatters");
    assert_eq!(sr.attenuation(), Vec3::new(ONE, ONE, ONE));
}

#[test]
fn random_points_lie_inside_unit_sphere() {
    for _ in 0..256 {
        let p = random_in_unit_sphere();
        assert!(p.squared_length() < ONE);
        assert!(p.x.abs() <= ONE && p.y.abs() <= ONE && p.z.abs() <= ONE);
    }
}

#[test]
fn scatter_result_echoes_parts() {
    let att = Vec3::new(1, 2, 3);
    let ray = Ray::new(&Vec3::new(4, 5, 6), &Vec3::new(7, 8, 9));
    let sr = ScatterResult::new(att, ray);
    assert_eq!(sr.attenuation(), att);
    assert_eq!(sr.scattered(), ray);
}

#[test]
fn color_shades_hit_by_normal_and_miss_by_sky() {
    let mut world = HittableList::new();
    world.push(Sphere::new(Vec3::new(0, 0, -ONE), HALF));
    world.push(Sphere::new(Vec3::new(0, -6586368, -ONE), 100 * ONE));
    // head-on hit: normal (0,0,1) shades to (0.5, 0.5, 1)
    let ray = Ray::new(&Vec3::new(0, 0, 0), &Vec3::new(0, 0, -ONE));
    let c = color(&ray, &world);
    assert_eq!((c.x, c.y, c.z), (HALF, HALF, ONE));
    // straight up misses: the sky gradient at its blue end
    let up = Ray::new(&Vec3::new(0, 0, 0), &Vec3::new(0, ONE, 0));
    let c = color(&up, &world);
    assert_eq!((c.x, c.y, c.z), (HALF, 45875, ONE));
}
