//! Tests of the fixed-point scalar, vector and primitive geometry.

use ray_tracer::aabb::{surrounding_box, AABB};
use ray_tracer::color::Color;
use ray_tracer::fx::{clamp, isqrt, SCALE};
use ray_tracer::material::{Lambertian, Material};
use ray_tracer::primitives::{Primitive, RectangleXY, RectangleXZ, RectangleYZ, Sphere};
use ray_tracer::ray::Ray;
use ray_tracer::vec3::Vec3;

fn gray() -> Material {
    Material::Lambertian(Lambertian::new(Color::new(SCALE / 2, SCALE / 2, SCALE / 2)))
}

#[test]
fn isqrt_exact_values() {
    assert_eq!(isqrt(0), 0);
    assert_eq!(isqrt(1), 1);
    assert_eq!(isqrt(3), 1);
    assert_eq!(isqrt(4), 2);
    assert_eq!(isqrt(65536 * 65536), 65536);
    assert_eq!(isqrt(1 << 64), 1 << 32);
    assert_eq!(isqrt((1 << 64) - 1), (1 << 32) - 1);
}

#[test]
fn clamp_range() {
    assert_eq!(clamp(-5, 0, 255), 0);
    assert_eq!(clamp(300, 0, 255), 255);
    assert_eq!(clamp(123, 0, 255), 123);
}

#[test]
fn vec3_ops_exact() {
    let a = Vec3::new(SCALE, -SCALE, 0);
    let b = Vec3::new(0, SCALE, 0);
    let s = a.add(&b);
    assert_eq!((s.x, s.y, s.z), (SCALE, 0, 0));
    let d = a.dot(&b);
    assert_eq!(d, -SCALE);
    let n = a.norm();
    // |(1, -1, 0)| = sqrt(2): floor(65536 * sqrt(2)) = 92681
    assert_eq!(n, 92681);
}

#[test]
fn reflect_exact() {
    let v = Vec3::new(SCALE, -SCALE, 0);
    let n = Vec3::new(0, SCALE, 0);
    let r = Vec3::reflect(&v, &n);
    assert_eq!((r.x, r.y, r.z), (SCALE, SCALE, 0));
}

#[test]
fn near_zero_detects_zero() {
    assert!(Vec3::new(0, 0, 0).near_zero());
    assert!(!Vec3::new(1, 0, 0).near_zero());
}

// A sphere hit lands on the sphere: |hit - center| is the radius within
// fixed-point tolerance, and the normal is oriented against the ray.
#[test]
fn sphere_hit_on_surface() {
    let radius = 2 * SCALE;
    let sphere = Sphere::new(Vec3::new(0, 0, -5 * SCALE), radius, gray());
    let ray = Ray::new(Vec3::new(0, 0, 0), Vec3::new(SCALE / 3, 0, -SCALE));
    let hit = sphere.hit(&ray, 1, 1 << 40).expect("the ray points at the sphere");
    let dx = hit.position.x - sphere.center.x;
    let dy = hit.position.y - sphere.center.y;
    let dz = hit.position.z - sphere.center.z;
    let dist2 = dx * dx + dy * dy + dz * dz;
    let target = radius * radius;
    let err = (dist2 - target).abs();
    // within 1% of radius^2
    assert!(err <= target / 100, "distance error too large: {}", err);
    let dot = hit.normal.x * hit.incoming.x + hit.normal.y * hit.incoming.y
        + hit.normal.z * hit.incoming.z;
    assert!(dot <= 0);
    assert!(hit.t > 0);
}

#[test]
fn sphere_miss_returns_none() {
    let sphere = Sphere::new(Vec3::new(0, 0, -5 * SCALE), SCALE, gray());
    let ray = Ray::new(Vec3::new(0, 0, 0), Vec3::new(0, 0, SCALE));
    assert!(sphere.hit(&ray, 1, 1 << 40).is_none());
}

// A ray parallel to a rectangle's plane reports no intersection.
#[test]
fn rectangle_parallel_ray_misses() {
    let rect_xy = RectangleXY::new(-SCALE, SCALE, -SCALE, SCALE, -2 * SCALE, gray());
    let parallel = Ray::new(Vec3::new(0, 0, 0), Vec3::new(SCALE, SCALE, 0));
    assert!(rect_xy.hit(&parallel, 1, 1 << 40).is_none());

    let rect_xz = RectangleXZ::new(-SCALE, SCALE, -SCALE, SCALE, -2 * SCALE, gray());
    let parallel_y = Ray::new(Vec3::new(0, 0, 0), Vec3::new(SCALE, 0, SCALE));
    assert!(rect_xz.hit(&parallel_y, 1, 1 << 40).is_none());

    let rect_yz = RectangleYZ::new(-SCALE, SCALE, -SCALE, SCALE, -2 * SCALE, gray());
    let parallel_x = Ray::new(Vec3::new(0, 0, 0), Vec3::new(0, SCALE, SCALE));
    assert!(rect_yz.hit(&parallel_x, 1, 1 << 40).is_none());
}

#[test]
fn rectangle_straight_hit() {
    let rect = RectangleXY::new(-SCALE, SCALE, -SCALE, SCALE, -2 * SCALE, gray());
    let ray = Ray::new(Vec3::new(0, 0, 0), Vec3::new(0, 0, -SCALE));
    let hit = rect.hit(&ray, 1, 1 << 40).expect("the ray crosses the plane inside the bounds");
    assert_eq!(hit.t, 2 * SCALE);
    assert_eq!((hit.position.x, hit.position.y, hit.position.z), (0, 0, -2 * SCALE));
    // normal oriented against the ray: +z
    assert_eq!((hit.normal.x, hit.normal.y, hit.normal.z), (0, 0, SCALE));
    assert!(hit.front_face);
}

// A ray outside the box on one axis and pointed away misses; a ray through
// the box's center hits with the full parameter window.
#[test]
fn aabb_away_misses_through_center_hits() {
    let b = AABB::new(Vec3::new(0, 0, 0), Vec3::new(SCALE, SCALE, SCALE));
    let away = Ray::new(
        Vec3::new(2 * SCALE, 2 * SCALE, 2 * SCALE),
        Vec3::new(SCALE, 0, 0),
    );
    let mut t0: i128 = 1;
    let mut t1: i128 = 1 << 40;
    assert!(!b.hit(&away, &mut t0, &mut t1));

    let through = Ray::new(
        Vec3::new(-SCALE, SCALE / 2, SCALE / 2),
        Vec3::new(SCALE, 0, 0),
    );
    let mut u0: i128 = 0;
    let mut u1: i128 = 1 << 40;
    assert!(b.hit(&through, &mut u0, &mut u1));
}

// An away-pointed ray misses even with the window starting at zero, and an
// already-empty window never reports a hit, whatever the direction.
#[test]
fn aabb_boundary_windows() {
    let b = AABB::new(Vec3::new(0, 0, 0), Vec3::new(SCALE, SCALE, SCALE));
    // outside on x, pointing away, window [0, +inf)
    let away = Ray::new(
        Vec3::new(SCALE + SCALE / 4, SCALE / 2, SCALE / 2),
        Vec3::new(SCALE / 3, 0, 0),
    );
    let mut t0: i128 = 0;
    let mut t1: i128 = 1 << 40;
    assert!(!b.hit(&away, &mut t0, &mut t1));

    // one step outside with a steep direction: the crossing parameter is a
    // tiny negative fraction, which must not round up into the window
    let grazing = Ray::new(
        Vec3::new(SCALE + 1, SCALE / 2, SCALE / 2),
        Vec3::new(0x1000_0000, 0, 0),
    );
    let mut g0: i128 = 0;
    let mut g1: i128 = 1 << 40;
    assert!(!b.hit(&grazing, &mut g0, &mut g1));

    // empty initial window, parallel ray between all slab planes
    let inside = Ray::new(Vec3::new(SCALE / 2, SCALE / 2, SCALE / 2), Vec3::new(0, 0, 0));
    let mut u0: i128 = 5;
    let mut u1: i128 = 1;
    assert!(!b.hit(&inside, &mut u0, &mut u1));

    // a hit leaves a valid narrowed window
    let through = Ray::new(
        Vec3::new(-SCALE, SCALE / 2, SCALE / 2),
        Vec3::new(SCALE, 0, 0),
    );
    let mut w0: i128 = 0;
    let mut w1: i128 = 1 << 40;
    assert!(b.hit(&through, &mut w0, &mut w1));
    assert!(w0 <= w1);
}

// A hollow shell (negative radius) presents its normal inward: the first
// crossing is a back face.
#[test]
fn hollow_sphere_inward_normal() {
    let shell = Sphere::new(Vec3::new(0, 0, -5 * SCALE), -2 * SCALE, gray());
    let ray = Ray::new(Vec3::new(0, 0, 0), Vec3::new(0, 0, -SCALE));
    let hit = shell.hit(&ray, 1, 1 << 40).expect("the ray crosses the shell");
    assert!(!hit.front_face, "an inward-facing surface is entered from behind");
    // the oriented normal still points against the ray
    let dot = hit.normal.x * hit.incoming.x + hit.normal.y * hit.incoming.y
        + hit.normal.z * hit.incoming.z;
    assert!(dot <= 0);
}

// A translated back face keeps the child's front-face flag.
#[test]
fn translate_keeps_front_face() {
    let rect = RectangleXY::new(-SCALE, SCALE, -SCALE, SCALE, -2 * SCALE, gray());
    let translated = ray_tracer::primitives::Translate::new(
        Box::new(Primitive::RectangleXY(rect)),
        Vec3::new(0, 0, 0),
    );
    let p = Primitive::Translate(translated);
    // approach the rectangle from behind: front_face must be false
    let from_behind = Ray::new(Vec3::new(0, 0, -4 * SCALE), Vec3::new(0, 0, SCALE));
    let hit = p.hit(&from_behind, 1, 1 << 40).expect("the ray crosses the plane");
    assert!(!hit.front_face);
    let direct = rect.hit(&from_behind, 1, 1 << 40).unwrap();
    assert_eq!(hit.front_face, direct.front_face);
}

#[test]
fn surrounding_box_is_componentwise_union() {
    let a = AABB::new(Vec3::new(0, 0, 0), Vec3::new(SCALE, SCALE, SCALE));
    let b = AABB::new(
        Vec3::new(-SCALE, SCALE / 2, 0),
        Vec3::new(0, 3 * SCALE, SCALE / 2),
    );
    let u = surrounding_box(Some(a), Some(b)).unwrap();
    assert_eq!((u.minimum.x, u.minimum.y, u.minimum.z), (-SCALE, 0, 0));
    assert_eq!((u.maximum.x, u.maximum.y, u.maximum.z), (SCALE, 3 * SCALE, SCALE));
    let only = surrounding_box(None, Some(a)).unwrap();
    assert_eq!(only.minimum.x, a.minimum.x);
    assert!(surrounding_box(None, None).is_none());
}

#[test]
fn sphere_list_bounding_box() {
    let s1 = Sphere::new(Vec3::new(0, 0, 0), SCALE, gray());
    let s2 = Sphere::new(Vec3::new(4 * SCALE, 0, 0), SCALE, gray());
    let world = vec![s1, s2];
    let b = ray_tracer::aabb::bounding_box(&world).unwrap();
    assert_eq!(b.minimum.x, -SCALE);
    assert_eq!(b.maximum.x, 5 * SCALE);
    let empty: Vec<Sphere> = Vec::new();
    assert!(ray_tracer::aabb::bounding_box(&empty).is_none());
}

#[test]
fn cuboid_closest_face_wins() {
    let cuboid = ray_tracer::primitives::RectangularCuboid::new(
        Vec3::new(-SCALE, -SCALE, -3 * SCALE),
        Vec3::new(SCALE, SCALE, -2 * SCALE),
        gray(),
    );
    let ray = Ray::new(Vec3::new(0, 0, 0), Vec3::new(0, 0, -SCALE));
    let hit = cuboid.hit(&ray, 1, 1 << 40).expect("the ray enters the box front face");
    // the nearer face is at z = -2
    assert_eq!(hit.t, 2 * SCALE);
}

#[test]
fn translate_shifts_hit() {
    let sphere = Sphere::new(Vec3::new(0, 0, -5 * SCALE), SCALE, gray());
    let translated = ray_tracer::primitives::Translate::new(
        Box::new(Primitive::Sphere(sphere)),
        Vec3::new(3 * SCALE, 0, 0),
    );
    let p = Primitive::Translate(translated);
    let miss = Ray::new(Vec3::new(0, 0, 0), Vec3::new(0, 0, -SCALE));
    assert!(p.hit(&miss, 1, 1 << 40).is_none());
    let hit_ray = Ray::new(Vec3::new(3 * SCALE, 0, 0), Vec3::new(0, 0, -SCALE));
    let hit = p.hit(&hit_ray, 1, 1 << 40).expect("the moved ray meets the sphere");
    assert_eq!(hit.position.x, 3 * SCALE);
    assert_eq!(hit.t, 4 * SCALE);
}

#[test]
fn rotate_y_quarter_turn() {
    // rotate the world by 90 degrees: sin = 1, cos = 0
    let sphere = Sphere::new(Vec3::new(5 * SCALE, 0, 0), SCALE, gray());
    let rotated = ray_tracer::primitives::RotateY::new(
        SCALE,
        0,
        Box::new(Primitive::Sphere(sphere)),
    );
    let p = Primitive::RotateY(rotated);
    // the local frame maps (x, z) to (c*x - s*z, s*x + c*z) = (-z, x):
    // a ray along -z has local direction (SCALE, 0, 0), toward the sphere
    let ray = Ray::new(Vec3::new(0, 0, 0), Vec3::new(0, 0, -SCALE));
    let hit = p.hit(&ray, 1, 1 << 40).expect("the rotated frame points the ray at the sphere");
    assert_eq!(hit.t, 4 * SCALE);
}
