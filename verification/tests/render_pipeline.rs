//! Tests of the integrator, the sampling pipeline and the image output.

use ray_tracer::bhv::BHV;
use ray_tracer::camera::Camera;
use ray_tracer::color::Color;
use ray_tracer::config::Config;
use ray_tracer::fx::SCALE;
use ray_tracer::material::{Lambertian, Light, Material};
use ray_tracer::primitives::{Primitive, RectangleXY, Sphere};
use ray_tracer::ray::Ray;
use ray_tracer::render::{
    assemble, dec_string, hit_world, ppm_string, ray_color, render, tone_map_channel,
};
use ray_tracer::rng::seed_rng;
use ray_tracer::vec3::Vec3;

fn forward_camera() -> Camera {
    Camera::new(
        Vec3::new(0, 0, 0),
        Vec3::new(0, 0, -SCALE),
        Vec3::new(0, SCALE, 0),
        SCALE,
        SCALE,
    )
    .expect("a straight-ahead camera basis is not degenerate")
}

fn empty_scene(width: usize, height: usize) -> Config {
    Config {
        width,
        height,
        samples_per_pixel: 1,
        camera: forward_camera(),
        objects: Vec::new(),
        depth: 1,
        background: Color::black(),
    }
}

#[test]
fn test_camera() {
    // vertical field of view of 90 degrees: half height tan(45) = 1;
    // aspect ratio 4/3: half width 4/3.
    let camera = Camera::new(
        Vec3::new(0, 0, 0),
        Vec3::new(0, 0, -SCALE),
        Vec3::new(0, SCALE, 0),
        4 * SCALE / 3,
        SCALE,
    )
    .unwrap();
    assert_eq!(camera.origin.x, 0);
    assert_eq!(camera.origin.y, 0);
    assert_eq!(camera.origin.z, 0);
    assert_eq!(camera.lower_left_corner.x, -(4 * SCALE / 3));
    assert_eq!(camera.lower_left_corner.y, -SCALE);
    assert_eq!(camera.lower_left_corner.z, -SCALE);
}

#[test]
fn test_camera_get_ray() {
    // the eye at (-4, 4, 1) looking at (0, 0, -1) with a 160-degree field:
    // the viewport's center ray leaves along the gaze, (2/3, -2/3, -1/3)
    // within fixed-point tolerance
    let half = 371681; // tan(80 degrees) as a fixed-point value
    let camera = Camera::new(
        Vec3::new(-4 * SCALE, 4 * SCALE, SCALE),
        Vec3::new(0, 0, -SCALE),
        Vec3::new(0, SCALE, 0),
        half,
        half,
    )
    .unwrap();
    let ray = camera.get_ray(SCALE / 2, SCALE / 2);
    assert_eq!(ray.origin.x, -4 * SCALE);
    assert_eq!(ray.origin.y, 4 * SCALE);
    assert_eq!(ray.origin.z, SCALE);
    let tol = 8;
    assert!((ray.direction.x - 2 * SCALE / 3).abs() <= tol);
    assert!((ray.direction.y + 2 * SCALE / 3).abs() <= tol);
    assert!((ray.direction.z + SCALE / 3).abs() <= tol);
}

#[test]
fn camera_center_ray_forward() {
    let camera = forward_camera();
    let ray = camera.get_ray(SCALE / 2, SCALE / 2);
    assert_eq!(ray.origin.x, 0);
    assert_eq!(ray.origin.y, 0);
    assert_eq!(ray.origin.z, 0);
    // the center of the viewport lies straight ahead
    assert_eq!(ray.direction.x, 0);
    assert_eq!(ray.direction.y, 0);
    assert_eq!(ray.direction.z, -SCALE);
}

#[test]
fn camera_degenerate_basis_is_rejected() {
    // zero view direction
    assert!(
        Camera::new(
            Vec3::new(0, 0, 0),
            Vec3::new(0, 0, 0),
            Vec3::new(0, SCALE, 0),
            SCALE,
            SCALE,
        )
        .is_none()
    );
    // up vector parallel to the view direction
    assert!(
        Camera::new(
            Vec3::new(0, 0, 0),
            Vec3::new(0, SCALE, 0),
            Vec3::new(0, SCALE, 0),
            SCALE,
            SCALE,
        )
        .is_none()
    );
}

#[test]
fn hit_world_returns_nearest() {
    let far = Sphere::new(
        Vec3::new(0, 0, -9 * SCALE),
        SCALE,
        Material::Lambertian(Lambertian::new(Color::new(SCALE, 0, 0))),
    );
    let near = Sphere::new(
        Vec3::new(0, 0, -5 * SCALE),
        SCALE,
        Material::Lambertian(Lambertian::new(Color::new(0, SCALE, 0))),
    );
    let world = vec![Primitive::Sphere(far), Primitive::Sphere(near)];
    let ray = Ray::new(Vec3::new(0, 0, 0), Vec3::new(0, 0, -SCALE));
    let hit = hit_world(&world, &ray, 1, 1 << 40).expect("both spheres lie on the ray");
    assert_eq!(hit.t, 4 * SCALE);
}

// The integrator at depth zero contributes nothing, whatever the scene.
#[test]
fn ray_color_depth_zero_is_black() {
    let scene = empty_scene(2, 2);
    let ray = Ray::new(Vec3::new(0, 0, 0), Vec3::new(0, 0, -SCALE));
    let mut rng = seed_rng(3);
    let c = ray_color(&ray, &scene, 0, &mut rng);
    assert_eq!((c.r, c.g, c.b), (0, 0, 0));
}

#[test]
fn ray_color_miss_returns_background() {
    let mut scene = empty_scene(2, 2);
    scene.background = Color::new(SCALE / 4, SCALE / 2, SCALE);
    let ray = Ray::new(Vec3::new(0, 0, 0), Vec3::new(0, 0, -SCALE));
    let mut rng = seed_rng(3);
    let c = ray_color(&ray, &scene, 5, &mut rng);
    assert_eq!((c.r, c.g, c.b), (SCALE / 4, SCALE / 2, SCALE));
}

// One Lambertian ground sphere, depth one: one scatter then termination, so
// every covered pixel is black with no bounce contribution.
#[test]
fn ground_sphere_depth_one_renders_uniform() {
    let ground = Sphere::new(
        Vec3::new(0, -1000 * SCALE, 0),
        1000 * SCALE,
        Material::Lambertian(Lambertian::new(Color::new(SCALE / 2, SCALE / 2, SCALE / 2))),
    );
    let camera = Camera::new(
        Vec3::new(0, SCALE, 0),
        Vec3::new(0, 0, 0),
        Vec3::new(0, 0, SCALE),
        SCALE,
        SCALE,
    )
    .expect("a downward camera basis is not degenerate");
    let scene = Config {
        width: 4,
        height: 4,
        samples_per_pixel: 2,
        camera,
        objects: vec![Primitive::Sphere(ground)],
        depth: 1,
        background: Color::new(SCALE / 4, SCALE / 4, SCALE / 4),
    };
    let image = ray_tracer::render::render_image(&scene, 5);
    assert_eq!(image.len(), 16);
    for px in image {
        assert_eq!(px, (0, 0, 0), "one bounce then termination leaves no radiance");
    }
}

// A scene holding only an emitter: pixels covering it show exactly its
// emission, pixels missing everything show the background.
#[test]
fn light_rectangle_renders_emission_and_background() {
    let light = Material::Light(Light::new(Color::new(SCALE, SCALE, SCALE)));
    let rect = RectangleXY::new(-4 * SCALE, 4 * SCALE, -4 * SCALE, 4 * SCALE, -2 * SCALE, light);
    let lit = Config {
        width: 3,
        height: 3,
        samples_per_pixel: 1,
        camera: forward_camera(),
        objects: vec![Primitive::RectangleXY(rect)],
        depth: 4,
        background: Color::black(),
    };
    let image = ray_tracer::render::render_image(&lit, 9);
    assert_eq!(image.len(), 9);
    for px in image {
        assert_eq!(px, (255, 255, 255), "every ray reaches the emitter");
    }

    let dark = empty_scene(3, 3);
    let image = ray_tracer::render::render_image(&dark, 9);
    for px in image {
        assert_eq!(px, (0, 0, 0), "every ray escapes to the black background");
    }
}

// Rendering twice with the same seed is bit-identical; an all-emitter scene
// is even seed-independent, so different seeds agree within sampling noise.
#[test]
fn fixed_seed_renders_identically() {
    let ground = Sphere::new(
        Vec3::new(0, -1000 * SCALE, 0),
        1000 * SCALE,
        Material::Lambertian(Lambertian::new(Color::new(SCALE / 2, SCALE / 2, SCALE / 2))),
    );
    let camera = Camera::new(
        Vec3::new(0, SCALE, 0),
        Vec3::new(0, 0, 0),
        Vec3::new(0, 0, SCALE),
        SCALE,
        SCALE,
    )
    .unwrap();
    let scene = Config {
        width: 3,
        height: 3,
        samples_per_pixel: 1,
        camera,
        objects: vec![Primitive::Sphere(ground)],
        depth: 3,
        background: Color::new(SCALE / 4, SCALE / 2, SCALE),
    };
    let a = render(&scene, 42);
    let b = render(&scene, 42);
    assert_eq!(a, b, "the same seed must reproduce the image bit for bit");

    let light = Material::Light(Light::new(Color::new(SCALE, SCALE, SCALE)));
    let rect = RectangleXY::new(-4 * SCALE, 4 * SCALE, -4 * SCALE, 4 * SCALE, -2 * SCALE, light);
    let lit = Config {
        width: 3,
        height: 3,
        samples_per_pixel: 1,
        camera: forward_camera(),
        objects: vec![Primitive::RectangleXY(rect)],
        depth: 2,
        background: Color::black(),
    };
    let s1 = render(&lit, 1);
    let s2 = render(&lit, 2);
    assert_eq!(s1, s2, "an emitter-only image carries no sampling noise");
}

// A two-by-two all-black render produces exactly the documented bytes.
#[test]
fn black_scene_exact_file_contents() {
    let scene = empty_scene(2, 2);
    let out = render(&scene, 0);
    assert_eq!(out, "P3\n2 2\n255\n0 0 0\n0 0 0\n0 0 0\n0 0 0\n");
}

#[test]
fn tone_map_exact_values() {
    assert_eq!(tone_map_channel(0, 1), 0);
    assert_eq!(tone_map_channel(SCALE, 1), 255);
    // a quarter radiance maps through the square root to about half range
    assert_eq!(tone_map_channel(SCALE / 4, 1), 127);
    // the average of two samples
    assert_eq!(tone_map_channel(2 * SCALE, 2), 255);
    // values beyond one clamp
    assert_eq!(tone_map_channel(100 * SCALE, 1), 255);
}

#[test]
fn dec_string_renders_decimal() {
    assert_eq!(dec_string(0).as_str(), "0");
    assert_eq!(dec_string(9).as_str(), "9");
    assert_eq!(dec_string(10).as_str(), "10");
    assert_eq!(dec_string(255).as_str(), "255");
    assert_eq!(dec_string(40960).as_str(), "40960");
}

#[test]
fn ppm_string_exact_layout() {
    let image = vec![(0u8, 0u8, 0u8), (255u8, 0u8, 0u8), (0u8, 255u8, 0u8), (1u8, 2u8, 3u8)];
    let out = ppm_string(2, 2, &image);
    assert_eq!(out, "P3\n2 2\n255\n0 0 0\n255 0 0\n0 255 0\n1 2 3\n");
}

#[test]
fn assemble_places_pixels_by_key() {
    let messages = vec![
        ((0usize, 1usize), (9u8, 9u8, 9u8)),
        ((1usize, 0usize), (1u8, 2u8, 3u8)),
        ((5usize, 0usize), (7u8, 7u8, 7u8)),  // out of range: ignored
        ((0usize, 1usize), (4u8, 5u8, 6u8)),  // later message wins
    ];
    let image = assemble(2, 2, &messages);
    assert_eq!(image.len(), 4);
    assert_eq!(image[0], (0, 0, 0));
    assert_eq!(image[1], (4, 5, 6));
    assert_eq!(image[2], (1, 2, 3));
    assert_eq!(image[3], (0, 0, 0));
}

// The hierarchy's root box is the union of its children's boxes, and a
// built tree finds the same nearest hit as the flat scan.
#[test]
fn bhv_build_and_hit() {
    let red = Material::Lambertian(Lambertian::new(Color::new(SCALE, 0, 0)));
    let s1 = Sphere::new(Vec3::new(0, 0, -5 * SCALE), SCALE, red);
    let s2 = Sphere::new(Vec3::new(4 * SCALE, 0, -9 * SCALE), SCALE, red);
    let world = vec![Primitive::Sphere(s1), Primitive::Sphere(s2)];
    let mut rng = seed_rng(99);
    let (tree, leftover) = BHV::new(world, &mut rng);
    assert!(leftover.is_empty());
    let tree = tree.expect("two boxed primitives build a tree");
    let root_box = tree.bounding_box().expect("the tree has a box");
    // the union of the two sphere boxes
    assert_eq!(root_box.minimum.x, -SCALE);
    assert_eq!(root_box.minimum.z, -10 * SCALE);
    assert_eq!(root_box.maximum.x, 5 * SCALE);
    assert_eq!(root_box.maximum.z, -4 * SCALE);

    let ray = Ray::new(Vec3::new(0, 0, 0), Vec3::new(0, 0, -SCALE));
    let hit = tree.hit(&ray, 1, 1 << 40).expect("the ray meets the first sphere");
    assert_eq!(hit.t, 4 * SCALE);

    let away = Ray::new(Vec3::new(0, 0, 0), Vec3::new(0, 0, SCALE));
    assert!(tree.hit(&away, 1, 1 << 40).is_none());
}

// Traversal through a larger tree agrees with the flat scan.
#[test]
fn bhv_agrees_with_flat_scan() {
    let red = Material::Lambertian(Lambertian::new(Color::new(SCALE, 0, 0)));
    let mut world: Vec<Primitive> = Vec::new();
    for i in 0..5i128 {
        world.push(Primitive::Sphere(Sphere::new(
            Vec3::new((i - 2) * 2 * SCALE, 0, -(4 + i) * SCALE),
            SCALE / 2,
            red,
        )));
    }
    let mut rng = seed_rng(7);
    let flat: Vec<Primitive> = (0..5i128)
        .map(|i| {
            Primitive::Sphere(Sphere::new(
                Vec3::new((i - 2) * 2 * SCALE, 0, -(4 + i) * SCALE),
                SCALE / 2,
                red,
            ))
        })
        .collect();
    let (tree, leftover) = BHV::new(world, &mut rng);
    assert!(leftover.is_empty());
    let tree = tree.unwrap();
    for dx in [-4i128, -2, 0, 2, 4] {
        for dy in [-1i128, 0, 1] {
            let ray = Ray::new(
                Vec3::new(0, 0, 0),
                Vec3::new(dx * SCALE / 4, dy * SCALE / 8, -SCALE),
            );
            let from_tree = tree.hit(&ray, 1, 1 << 40).map(|h| h.t);
            let from_scan = hit_world(&flat, &ray, 1, 1 << 40).map(|h| h.t);
            assert_eq!(from_tree, from_scan, "tree and scan disagree at ({}, {})", dx, dy);
        }
    }
}

#[test]
fn blue_sky_blends_with_height() {
    let up = Ray::new(Vec3::new(0, 0, 0), Vec3::new(0, SCALE, 0));
    let c = ray_tracer::render::blue_sky(&up);
    // straight up: t = 1, pure blue
    assert_eq!((c.r, c.g, c.b), (32768, 45875, 65536));
    let down = Ray::new(Vec3::new(0, 0, 0), Vec3::new(0, -SCALE, 0));
    let d = ray_tracer::render::blue_sky(&down);
    // straight down: t = 0, pure white
    assert_eq!((d.r, d.g, d.b), (SCALE, SCALE, SCALE));
}
