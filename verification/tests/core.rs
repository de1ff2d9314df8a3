//! Vector algebra, ray-sphere intersection and scene-list behaviour, on
//! concrete fixed-point values (the scale is 65536).

use raytracer::hit::{HitRecord, HittableList};
use raytracer::ray::Ray;
use raytracer::sphere::Sphere;
use raytracer::vec3::Vec3;

const ONE: i64 = 65536;
const HALF: i64 = 32768;

fn two_sphere_world() -> HittableList {
    let mut world = HittableList::new();
    world.push(Sphere::new(Vec3::new(0, 0, -ONE), HALF));
    world.push(Sphere::new(Vec3::new(0, -6586368, -ONE), 100 * ONE));
    world
}

#[test]
fn unit_vector_has_unit_length() {
    // axis-aligned: exact
    let v = Vec3::new(0, 0, -ONE);
    let u = v.unit_vector();
    assert_eq!(u.x, 0);
    assert_eq!(u.y, 0);
    assert_eq!(u.z, -ONE);
    assert_eq!(u.length(), ONE);
    // skew vectors: within the proved band of a few ulps around one
    for v in [
        Vec3::new(ONE, 2 * ONE, 3 * ONE),
        Vec3::new(-5 * ONE, ONE / 2, 7),
        Vec3::new(123456, -654321, 777777),
    ] {
        let len = v.unit_vector().length();
        assert!(ONE - 8 <= len && len <= ONE + 2, "unit length {} for {:?}", len, v);
    }
}

#[test]
fn scaled_axis_hit_lies_on_sphere() {
    // radius 1 sphere two units away along -z: everything exact
    let s = Sphere::new(Vec3::new(0, 0, -2 * ONE), ONE);
    let ray = Ray::new(&Vec3::new(0, 0, 0), &Vec3::new(0, 0, -ONE));
    let h = s.is_hit(&ray, 0, 100 * ONE).expect("hit");
    assert_eq!(h.t, ONE);
    assert_eq!((h.point.x, h.point.y, h.point.z), (0, 0, -ONE));
    // |point - center| equals the radius
    let d = h.point.sub(s.center());
    assert_eq!(d.length(), ONE);
    // normal is (point - center) / radius, unit length
    assert_eq!((h.normal.x, h.normal.y, h.normal.z), (0, 0, ONE));
    assert_eq!(h.normal.length(), ONE);
}

#[test]
fn aimed_ray_hits_half_radius_sphere() {
    // sphere of radius 0.5 at (0,0,-1), ray from the origin along -z
    let s = Sphere::new(Vec3::new(0, 0, -ONE), HALF);
    let ray = Ray::new(&Vec3::new(0, 0, 0), &Vec3::new(0, 0, -ONE));
    let h = s.is_hit(&ray, 0, 0x4000_0000).expect("hit");
    assert_eq!(h.t, HALF);
    assert_eq!((h.point.x, h.point.y, h.point.z), (0, 0, -HALF));
    assert_eq!((h.normal.x, h.normal.y, h.normal.z), (0, 0, ONE));
}

#[test]
fn miss_returns_none() {
    // a ray straight up misses both spheres of the scene
    let world = two_sphere_world();
    let ray = Ray::new(&Vec3::new(0, 0, 0), &Vec3::new(0, ONE, 0));
    assert!(world.is_hit(&ray, 0, 0x4000_0000).is_none());
}

#[test]
fn closest_hit_is_insertion_order_invariant() {
    // two disjoint spheres along -z; the nearer one wins in either order
    let near = Sphere::new(Vec3::new(0, 0, -2 * ONE), HALF);
    let far = Sphere::new(Vec3::new(0, 0, -6 * ONE), HALF);
    let ray = Ray::new(&Vec3::new(0, 0, 0), &Vec3::new(0, 0, -ONE));

    let mut w1 = HittableList::new();
    w1.push(near);
    w1.push(far);
    let mut w2 = HittableList::new();
    w2.push(far);
    w2.push(near);

    let h1 = w1.is_hit(&ray, 0, 0x4000_0000).expect("hit");
    let h2 = w2.is_hit(&ray, 0, 0x4000_0000).expect("hit");
    assert_eq!(h1, h2);
    // and it is the nearer sphere's surface: t = 1.5
    assert_eq!(h1.t, ONE + HALF);
}

#[test]
fn repeated_queries_are_bit_identical() {
    let world = two_sphere_world();
    let ray = Ray::new(&Vec3::new(0, 0, 0), &Vec3::new(3000, -2000, -ONE));
    let a = world.is_hit(&ray, 0, 0x4000_0000);
    let b = world.is_hit(&ray, 0, 0x4000_0000);
    assert_eq!(a, b);
}

#[test]
fn narrowed_interval_excludes_far_hit() {
    // with t_max below the only root the sphere reports nothing
    let s = Sphere::new(Vec3::new(0, 0, -2 * ONE), ONE);
    let ray = Ray::new(&Vec3::new(0, 0, 0), &Vec3::new(0, 0, -ONE));
    assert!(s.is_hit(&ray, 0, ONE).is_none());
    assert!(s.is_hit(&ray, 0, ONE + 1).is_some());
}

#[test]
fn camera_inside_sphere_uses_far_root() {
    // from the center both roots are +-radius; the forward one is taken
    let s = Sphere::new(Vec3::new(0, 0, 0), ONE);
    let ray = Ray::new(&Vec3::new(0, 0, 0), &Vec3::new(0, 0, -ONE));
    let h = s.is_hit(&ray, 0, 100 * ONE).expect("hit");
    assert_eq!(h.t, ONE);
    assert_eq!((h.point.x, h.point.y, h.point.z), (0, 0, -ONE));
}

#[test]
fn degenerate_direction_hits_nothing() {
    // a direction so small that its squared length truncates to zero
    let s = Sphere::new(Vec3::new(0, 0, -2 * ONE), ONE);
    let ray = Ray::new(&Vec3::new(0, 0, 0), &Vec3::new(0, 0, -255));
    assert!(s.is_hit(&ray, 0, 100 * ONE).is_none());
}

#[test]
fn point_at_parameter_walks_the_ray() {
    let ray = Ray::new(&Vec3::new(ONE, 2 * ONE, -ONE), &Vec3::new(0, -ONE, 2 * ONE));
    let p = ray.point_at_parameter(3 * ONE);
    assert_eq!((p.x, p.y, p.z), (ONE, -ONE, 5 * ONE));
    let o = ray.origin();
    let d = ray.direction();
    assert_eq!((o.x, o.y, o.z), (ONE, 2 * ONE, -ONE));
    assert_eq!((d.x, d.y, d.z), (0, -ONE, 2 * ONE));
}

#[test]
fn vector_algebra_is_exact() {
    let a = Vec3::new(ONE, -2 * ONE, 3 * ONE);
    let b = Vec3::new(4 * ONE, 5 * ONE, -6 * ONE);
    let s = a.add(b);
    assert_eq!((s.x, s.y, s.z), (5 * ONE, 3 * ONE, -3 * ONE));
    let d = a.sub(b);
    assert_eq!((d.x, d.y, d.z), (-3 * ONE, -7 * ONE, 9 * ONE));
    let n = a.neg();
    assert_eq!((n.x, n.y, n.z), (-ONE, 2 * ONE, -3 * ONE));
    // dot: 4 - 10 - 18 = -24
    assert_eq!(a.dot(b), -24 * ONE);
    assert_eq!(a.squared_length(), 14 * ONE);
    let t = a.scale(HALF);
    assert_eq!((t.x, t.y, t.z), (HALF, -ONE, ONE + HALF));
    let q = a.div_scalar(2 * ONE);
    assert_eq!((q.x, q.y, q.z), (HALF, -ONE, ONE + HALF));
}

#[test]
fn component_and_colour_accessors_agree() {
    let v = Vec3::new(1, 2, 3);
    assert_eq!((v.x(), v.y(), v.z()), (1, 2, 3));
    assert_eq!((v.r(), v.g(), v.b()), (1, 2, 3));
}

#[test]
fn hit_record_accessors_echo_fields() {
    let h = HitRecord { t: 7, point: Vec3::new(1, 2, 3), normal: Vec3::new(4, 5, 6) };
    assert_eq!(h.t(), 7);
    assert_eq!(h.point(), Vec3::new(1, 2, 3));
    assert_eq!(h.normal(), Vec3::new(4, 5, 6));
}

#[test]
fn list_len_counts_members() {
    let mut world = HittableList::new();
    assert_eq!(world.len(), 0);
    world.push(Sphere::new(Vec3::new(0, 0, 0), ONE));
    assert_eq!(world.len(), 1);
    let s = Sphere::new(Vec3::new(ONE, 0, 0), HALF);
    assert_eq!(s.center(), Vec3::new(ONE, 0, 0));
    assert_eq!(s.radius(), HALF);
}
