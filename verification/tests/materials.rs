//! Tests of the material scattering models.

use ray_tracer::color::Color;
use ray_tracer::fx::SCALE;
use ray_tracer::material::{Dielectric, Lambertian, Light, Material, Metal, Scatterable};
use ray_tracer::primitives::{Primitive, Sphere};
use ray_tracer::ray::Ray;
use ray_tracer::rng::seed_rng;
use ray_tracer::vec3::Vec3;

fn head_on_hit(sphere: &Sphere, origin: Vec3) -> ray_tracer::ray::HitRecord {
    let ray = Ray::new(origin, Vec3::new(0, 0, -SCALE));
    sphere.hit(&ray, 1, 1 << 40).expect("the ray points at the sphere")
}

#[test]
fn light_never_scatters_and_emits_its_color() {
    let light = Light::new(Color::new(SCALE, SCALE / 2, 0));
    let sphere = Sphere::new(Vec3::new(0, 0, -6 * SCALE), 2 * SCALE, Material::Light(light));
    let hit = head_on_hit(&sphere, Vec3::new(0, 0, 0));
    let ray = Ray::new(Vec3::new(0, 0, 0), Vec3::new(0, 0, -SCALE));
    let mut rng = seed_rng(7);
    assert!(light.scatter(&ray, &hit, &mut rng).is_none());
    let e = light.emitted();
    assert_eq!((e.r, e.g, e.b), (SCALE, SCALE / 2, 0));
}

#[test]
fn lambertian_always_scatters_with_albedo() {
    let albedo = Color::new(SCALE / 2, SCALE / 4, SCALE / 8);
    let mat = Lambertian::new(albedo);
    let sphere = Sphere::new(
        Vec3::new(0, 0, -6 * SCALE),
        2 * SCALE,
        Material::Lambertian(mat),
    );
    let hit = head_on_hit(&sphere, Vec3::new(0, 0, 0));
    let ray = Ray::new(Vec3::new(0, 0, 0), Vec3::new(0, 0, -SCALE));
    let mut rng = seed_rng(11);
    for _ in 0..32 {
        let (scattered, attenuation) = mat.scatter(&ray, &hit, &mut rng).expect(
            "a diffuse surface always scatters",
        );
        assert_eq!((attenuation.r, attenuation.g, attenuation.b), (albedo.r, albedo.g, albedo.b));
        assert_eq!(
            (scattered.origin.x, scattered.origin.y, scattered.origin.z),
            (hit.position.x, hit.position.y, hit.position.z),
        );
    }
}

#[test]
fn metal_scatter_leaves_surface_or_absorbs() {
    let mat = Metal::new(Color::new(SCALE, SCALE, SCALE), SCALE / 2);
    let sphere = Sphere::new(Vec3::new(0, 0, -6 * SCALE), 2 * SCALE, Material::Metal(mat));
    let hit = head_on_hit(&sphere, Vec3::new(0, 0, 0));
    let ray = Ray::new(Vec3::new(0, 0, 0), Vec3::new(0, 0, -SCALE));
    let mut rng = seed_rng(13);
    for _ in 0..32 {
        if let Some((scattered, _)) = mat.scatter(&ray, &hit, &mut rng) {
            let dot = scattered.direction.x * hit.normal.x + scattered.direction.y * hit.normal.y
                + scattered.direction.z * hit.normal.z;
            assert!(dot > 0, "a scattered reflection must leave the surface");
        }
    }
}

// A head-on refraction at refractive-index ratio one changes nothing.
#[test]
fn refract_matched_head_on_is_identity() {
    let n = Vec3::new(0, 0, SCALE);
    let uv = Vec3::new(0, 0, -SCALE);
    let r = Vec3::refract(&uv, &n, SCALE);
    assert_eq!((r.x, r.y, r.z), (uv.x, uv.y, uv.z));
}

// A ray entering and then exiting a sphere of refraction index one passes
// through with no net direction change.
#[test]
fn dielectric_matched_round_trip() {
    let mat = Dielectric::new(SCALE);
    let sphere = Sphere::new(
        Vec3::new(0, 0, -6 * SCALE),
        2 * SCALE,
        Material::Dielectric(mat),
    );
    let mut rng = seed_rng(17);

    // entering
    let ray_in = Ray::new(Vec3::new(0, 0, 0), Vec3::new(0, 0, -SCALE));
    let hit_in = sphere.hit(&ray_in, 1, 1 << 40).expect("the ray enters the sphere");
    assert!(hit_in.front_face);
    let (through, att) = mat.scatter(&ray_in, &hit_in, &mut rng).expect(
        "a dielectric always scatters",
    );
    assert_eq!((att.r, att.g, att.b), (SCALE, SCALE, SCALE));
    assert_eq!((through.direction.x, through.direction.y, through.direction.z), (0, 0, -SCALE));

    // exiting
    let hit_out = sphere.hit(&through, 1, 1 << 40).expect("the ray crosses to the far side");
    assert!(!hit_out.front_face);
    let (out, _) = mat.scatter(&through, &hit_out, &mut rng).expect(
        "a dielectric always scatters",
    );
    assert_eq!((out.direction.x, out.direction.y, out.direction.z), (0, 0, -SCALE));
}

#[test]
fn material_dispatch_emits() {
    let m = Material::Lambertian(Lambertian::new(Color::new(SCALE, 0, 0)));
    let e = m.emitted();
    assert_eq!((e.r, e.g, e.b), (0, 0, 0));
    let l = Material::Light(Light::new(Color::new(1, 2, 3)));
    let le = l.emitted();
    assert_eq!((le.r, le.g, le.b), (1, 2, 3));
}

#[test]
fn sampling_helpers_stay_in_range() {
    let mut rng = seed_rng(23);
    for _ in 0..16 {
        let v = Vec3::random(-SCALE, SCALE, &mut rng);
        assert!(-SCALE <= v.x && v.x <= SCALE);
        assert!(-SCALE <= v.y && v.y <= SCALE);
        assert!(-SCALE <= v.z && v.z <= SCALE);
        let p = Vec3::random_in_unit_sphere(&mut rng);
        let raw = p.x * p.x + p.y * p.y + p.z * p.z;
        assert!(1 <= raw && raw < SCALE * SCALE);
        let u = Vec3::random_unit_vector(&mut rng);
        assert!(u.x.abs() <= SCALE && u.y.abs() <= SCALE && u.z.abs() <= SCALE);
        let h = Vec3::random_in_hemisphere(&Vec3::new(0, SCALE, 0), &mut rng);
        assert!(h.x.abs() <= SCALE && h.y.abs() <= SCALE && h.z.abs() <= SCALE);
        let c = Color::random(&mut rng);
        assert!(0 <= c.r && c.r < SCALE);
    }
}
