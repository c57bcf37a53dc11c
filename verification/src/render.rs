//! The light-transport integrator and the sampling pipeline.

use vstd::prelude::*;

verus! {

use crate::color::{lemma_attenuate, Color, C3};
use crate::config::{objects_wf, Config};
use crate::fx::{iabs, sqrt_floor, tz_div, tzdiv, SCALE, T_MAX_BOUND};
use crate::material::{Material, Scatterable, EMIT_MAX};
use crate::parameters::{EPSILON, T_INF};
use crate::primitives::{closer, cur_max, Primitive};
use crate::ray::{as_h3, HitRecord, Ray, H3, R3};
use vstd::string::StringExecFns;

/// The closest hit over a list of primitives, scanned in order with the
/// best parameter found so far as each successive upper window bound.
pub open spec fn hit_world_spec(objects: Seq<Primitive>, r: R3, t_min: int, t_max: int) -> Option<
    H3,
>
    decreases objects.len(),
{
    if objects.len() == 0 {
        None
    } else {
        let prev = hit_world_spec(objects.drop_last(), r, t_min, t_max);
        closer(prev, objects.last().hit_spec(r, t_min, cur_max(prev, t_max)))
    }
}

/// The closest qualifying intersection of `ray` with the scene.
pub fn hit_world(world: &Vec<Primitive>, ray: &Ray, t_min: i128, t_max: i128) -> (res: Option<
    HitRecord,
>)
    requires
        objects_wf(world@),
        ray@.bounded(),
        iabs(t_min as int) <= T_MAX_BOUND as int,
        iabs(t_max as int) <= T_MAX_BOUND as int,
    ensures
        as_h3(res) == hit_world_spec(world@, ray@, t_min as int, t_max as int),
        res matches Some(h) ==> h.wf() && t_min <= h.t <= t_max && h.material.wf(),
{
    let mut closest_so_far = t_max;
    let mut hit_record: Option<HitRecord> = None;
    let mut i: usize = 0;
    proof {
        assert(world@.take(0) =~= Seq::<Primitive>::empty());
    }
    while i < world.len()
        invariant
            objects_wf(world@),
            ray@.bounded(),
            iabs(t_min as int) <= T_MAX_BOUND as int,
            iabs(t_max as int) <= T_MAX_BOUND as int,
            i <= world.len(),
            as_h3(hit_record) == hit_world_spec(world@.take(i as int), ray@, t_min as int, t_max as int),
            closest_so_far as int == cur_max(as_h3(hit_record), t_max as int),
            iabs(closest_so_far as int) <= T_MAX_BOUND as int,
            hit_record matches Some(h) ==> h.wf() && t_min <= h.t <= t_max && h.material.wf(),
        decreases world.len() - i,
    {
        if let Some(h) = world[i].hit(ray, t_min, closest_so_far) {
            closest_so_far = h.t;
            hit_record = Some(h);
        }
        proof {
            assert(world@.take(i + 1).drop_last() =~= world@.take(i as int));
            assert(world@.take(i + 1).last() == world@[i as int]);
        }
        i = i + 1;
    }
    proof {
        assert(world@.take(world@.len() as int) =~= world@);
    }
    hit_record
}

/// A ray that the fixed-point pipeline can trace: within bounds, with a
/// direction that does not round to zero.
pub open spec fn ray_ok(r: R3) -> bool {
    r.bounded() && r.direction.dot_raw(r.direction) >= 1
}

/// The emitter color of the nearest hit, where the nearest hit within the
/// integrator's window is a pure light source.
pub open spec fn light_hit(objects: Seq<Primitive>, r: R3) -> Option<Color> {
    match hit_world_spec(objects, r, EPSILON as int, T_INF as int) {
        Some(h) => match h.material {
            Material::Light(l) => Some(l.color),
            _ => None,
        },
        None => None,
    }
}

/// The radiance bound after `depth` remaining bounces.
pub open spec fn radiance_bound(depth: int) -> int {
    (depth + 1) * (EMIT_MAX as int)
}

/// The recursive light-transport evaluator.
///
/// At depth zero the path ends with no contribution.  Otherwise the nearest
/// hit scatters (recursing one level shallower, combining as
/// `emitted + attenuation * incoming`) or terminates with its emission;
/// a ray that misses everything returns the scene's background radiance, as
/// does one the fixed-point representation cannot trace.
pub fn ray_color(ray: &Ray, scene: &Config, depth: usize, rng: &mut rand::rngs::StdRng) -> (c:
    Color)
    requires
        scene.wf(),
        depth <= 1024,
    ensures
        c@.nonneg(),
        c@.bounded(radiance_bound(depth as int)),
        depth == 0 ==> c@ == C3::black(),
        depth > 0 && !ray_ok(ray@) ==> c@ == scene.background@,
        depth > 0 && ray_ok(ray@) && hit_world_spec(
            scene.objects@,
            ray@,
            EPSILON as int,
            T_INF as int,
        ) is None ==> c@ == scene.background@,
        depth > 0 && ray_ok(ray@) && light_hit(scene.objects@, ray@) is Some ==> c@ == light_hit(
            scene.objects@,
            ray@,
        )->Some_0@,
        depth > 0 && ray_ok(ray@) ==> (hit_world_spec(
            scene.objects@,
            ray@,
            EPSILON as int,
            T_INF as int,
        ) matches Some(h3) ==> exists|hr: HitRecord, out: Option<(Ray, Color)>, rec: C3|
            #![trigger hr.material.scatter_post(*ray, hr, out), rec.nonneg()]
            {
                &&& hr@ == h3
                &&& hr.material.scatter_post(*ray, hr, out)
                &&& match out {
                    None => c@ == hr.material.emitted_spec(),
                    Some(p) => {
                        &&& c@ == hr.material.emitted_spec().add(p.1@.mul(rec))
                        &&& rec.nonneg()
                        &&& rec.bounded(radiance_bound(depth as int - 1))
                    },
                }
            }),
    decreases depth,
{
    if depth == 0 {
        return Color::black();
    }
    let dir_ok = ray.direction.is_bounded(crate::fx::COORD_MAX);
    let org_ok = ray.origin.is_bounded(crate::ray::ORIGIN_MAX);
    if !dir_ok || !org_ok {
        return scene.background;
    }
    proof {
        crate::vec3::lemma_bounded_norm_inf(ray.direction@, crate::fx::COORD_MAX as int);
        crate::vec3::lemma_mul_le(
            ray.direction@.norm_inf(),
            ray.direction@.norm_inf(),
            crate::fx::COORD_MAX as int,
            crate::fx::COORD_MAX as int,
        );
    }
    if ray.direction.dot_raw(&ray.direction) < 1 {
        return scene.background;
    }
    let hit = hit_world(&scene.objects, ray, EPSILON, T_INF);
    match hit {
        Some(hit_record) => {
            let scatter = hit_record.material.scatter(ray, &hit_record, rng);
            let emitted = hit_record.material.emitted();
            match scatter {
                Some((scattered_ray, attenuation)) => {
                    let incoming = ray_color(&scattered_ray, scene, depth - 1, rng);
                    proof {
                        lemma_radiance_bound_monotone(depth as int - 1);
                        lemma_attenuation_range(
                            hit_record.material,
                            *ray,
                            hit_record,
                            scatter,
                            attenuation,
                        );
                        lemma_attenuate(
                            attenuation@,
                            incoming@,
                            radiance_bound(depth as int - 1),
                        );
                    }
                    let bounce = attenuation.mul(&incoming);
                    let c = emitted.add(&bounce);
                    proof {
                        assert(hit_record@ == as_h3(hit)->Some_0
                            && hit_record.material.scatter_post(*ray, hit_record, scatter) && c@
                            == hit_record.material.emitted_spec().add(
                            attenuation@.mul(incoming@),
                        ));
                        assert(incoming@.nonneg());
                    }
                    c
                },
                None => {
                    proof {
                        assert(hit_record@ == as_h3(hit)->Some_0
                            && hit_record.material.scatter_post(*ray, hit_record, scatter)
                            && emitted@ == hit_record.material.emitted_spec());
                        assert(C3::black().nonneg());
                    }
                    emitted
                },
            }
        },
        None => scene.background,
    }
}

/// The radiance bound grows with remaining depth.
proof fn lemma_radiance_bound_monotone(depth: int)
    requires
        0 <= depth <= 1024,
    ensures
        0 <= radiance_bound(depth) <= 0x1_0000_0000_0000_0000,
        radiance_bound(depth) + EMIT_MAX as int <= radiance_bound(depth + 1),
{
    assert(0 <= (depth + 1) * (EMIT_MAX as int) <= 1025 * (EMIT_MAX as int)) by (nonlinear_arith)
        requires
            0 <= depth <= 1024,
    ;
    assert((depth + 1) * (EMIT_MAX as int) + EMIT_MAX as int == (depth + 2) * (EMIT_MAX as int))
        by (nonlinear_arith);
}

/// The sky-gradient background policy: white at the horizon blending to
/// blue upward, by the height of the unit direction.
pub open spec fn blue_sky_spec(r: R3) -> C3 {
    let unit_direction = r.direction.unit();
    let t = tzdiv(unit_direction.y + SCALE as int, 2);
    let blue = C3 { r: 32768, g: 45875, b: 65536 };
    C3::white().scale(SCALE as int - t).add(blue.scale(t))
}

/// A vertical sky gradient, usable as a background policy.
pub fn blue_sky(ray: &Ray) -> (c: Color)
    requires
        ray@.bounded(),
        ray@.direction.dot_raw(ray@.direction) >= 1,
    ensures
        c@ == blue_sky_spec(ray@),
        c@.nonneg(),
        c@.bounded(2 * SCALE as int),
{
    proof {
        crate::vec3::lemma_bounded_norm_inf(ray.direction@, crate::fx::COORD_MAX as int);
        crate::vec3::lemma_mul_le(
            ray.direction@.norm_inf(),
            ray.direction@.norm_inf(),
            crate::fx::COORD_MAX as int,
            crate::fx::COORD_MAX as int,
        );
        crate::vec3::lemma_mul_le(
            ray.direction@.norm_inf(),
            SCALE as int,
            crate::fx::COORD_MAX as int,
            SCALE as int,
        );
    }
    let unit_direction = ray.direction.unit();
    let t = tz_div(unit_direction.y + SCALE, 2);
    proof {
        vstd::arithmetic::div_mod::lemma_div_pos_is_pos(unit_direction.y + SCALE as int, 2);
        crate::fx::lemma_tzdiv_le_bound(unit_direction.y as int + SCALE as int, 2, 2 * SCALE as int);
        crate::fx::lemma_fx_mul_unit_range(SCALE as int - t as int, SCALE as int);
        crate::fx::lemma_fx_mul_unit_range(t as int, 32768);
        crate::fx::lemma_fx_mul_unit_range(t as int, 45875);
        crate::fx::lemma_fx_mul_unit_range(t as int, SCALE as int);
        crate::fx::lemma_abs_mul_bound(SCALE as int - t as int, SCALE as int, SCALE as int, SCALE as int);
        crate::fx::lemma_abs_mul_bound(t as int, SCALE as int, SCALE as int, SCALE as int);
    }
    let white = Color::white();
    let blue = Color { r: 32768, g: 45875, b: 65536 };
    let a = white.scale(SCALE - t);
    let b = blue.scale(t);
    a.add(&b)
}

/// The gamma-2 tone map: average the accumulated samples, take the square
/// root, scale to the 8-bit channel range and clamp.
pub open spec fn tone_map_spec(sum: int, spp: int) -> int {
    let mean = tzdiv(sum, spp);
    let g = sqrt_floor((mean * SCALE as int) as nat) as int;
    crate::fx::clamp_spec(tzdiv(g * 255, SCALE as int), 0, 255)
}

/// Tone-maps one accumulated channel to an 8-bit value.
pub fn tone_map_channel(sum: i128, spp: i128) -> (r: u8)
    requires
        1 <= spp,
        0 <= sum <= 0x1_0000_0000_0000_0000_0000,
    ensures
        r as int == tone_map_spec(sum as int, spp as int),
{
    let mean = tz_div(sum, spp);
    proof {
        vstd::arithmetic::div_mod::lemma_div_pos_is_pos(sum as int, spp as int);
        assert(mean == sum as int / spp as int);
    }
    let squ = crate::fx::isqrt((mean * SCALE) as u128);
    proof {
        assert(squ <= 0x1_0000_0000_0000) by (nonlinear_arith)
            requires
                squ * squ <= mean * SCALE,
                0 <= mean * SCALE <= 0x1_0000_0000_0000_0000_0000_0000,
        ;
    }
    let g = squ as i128;
    let scaled = tz_div(g * 255, SCALE);
    let c = crate::fx::clamp(scaled, 0, 255);
    c as u8
}

/// The pixel every sample of which saw only the background: each channel
/// is the tone-mapped accumulation of the background radiance.
pub open spec fn background_pixel_spec(scene: Config) -> (u8, u8, u8) {
    let spp = scene.samples_per_pixel as int;
    (
        (tone_map_spec(spp * scene.background@.r, spp) as u8),
        (tone_map_spec(spp * scene.background@.g, spp) as u8),
        (tone_map_spec(spp * scene.background@.b, spp) as u8),
    )
}

/// A black background tone-maps to the zero pixel.
pub proof fn lemma_black_background_pixel(scene: Config)
    requires
        scene.wf(),
        scene.background@ == C3::black(),
    ensures
        background_pixel_spec(scene) == (0u8, 0u8, 0u8),
{
    let spp = scene.samples_per_pixel as int;
    assert(spp * 0 == 0) by (nonlinear_arith);
    vstd::arithmetic::div_mod::lemma_div_of0(spp);
    assert(tzdiv(0, spp) == 0);
    assert(sqrt_floor(0) == 0);
    vstd::arithmetic::div_mod::lemma_div_of0(SCALE as int);
    assert(tzdiv(0int * 255, SCALE as int) == 0);
    assert(tone_map_spec(0, spp) == 0);
}

/// A deterministic per-pixel seed derived from the render seed and the
/// pixel's coordinates, so that samples are independent of the order in
/// which pixels are computed.
fn pixel_seed(seed: u64, row: usize, col: usize) -> u64 {
    let r = (row as u64).wrapping_mul(0x9E3779B97F4A7C15);
    let c = (col as u64).wrapping_mul(0xC2B2AE3D27D4EB4F);
    seed ^ r.wrapping_add(c)
}

/// The pixel's viewport fraction with jitter: `(index + jitter) / extent`
/// as a fixed-point fraction in `[0, 1]`.
fn pixel_fraction(index: usize, extent: usize, jitter: i128) -> (u: i128)
    requires
        1 <= extent <= 4096,
        index < extent,
        0 <= jitter < SCALE,
    ensures
        0 <= u <= SCALE,
{
    let a: i128 = (index as i128) * SCALE + jitter;
    let b: i128 = (extent as i128) * SCALE;
    let u = crate::fx::fx_div(a, b);
    proof {
        vstd::arithmetic::div_mod::lemma_div_pos_is_pos(a as int * SCALE as int, b as int);
        vstd::arithmetic::div_mod::lemma_div_is_ordered(
            a as int * SCALE as int,
            b as int * SCALE as int,
            b as int,
        );
        vstd::arithmetic::div_mod::lemma_hoist_over_denominator(0, SCALE as int, b as nat);
        assert(b as int * SCALE as int / b as int == SCALE as int) by {
            vstd::arithmetic::div_mod::lemma_div_multiples_vanish(SCALE as int, b as int);
        };
        assert(a as int * SCALE as int <= b as int * SCALE as int) by (nonlinear_arith)
            requires
                a <= b,
        ;
        assert(u == tzdiv(a as int * SCALE as int, b as int));
    }
    u
}

/// One pixel: `samples_per_pixel` jittered samples through the camera,
/// averaged and tone-mapped to 8-bit channels.  Each channel is the tone
/// map of some accumulated nonnegative radiance; with no geometry at all,
/// every sample sees the background, so the pixel is fully determined.
pub fn render_pixel(scene: &Config, row: usize, col: usize, seed: u64) -> (px: (u8, u8, u8))
    requires
        scene.wf(),
        row < scene.height,
        col < scene.width,
    ensures
        exists|sum: C3|
            {
                &&& sum.nonneg()
                &&& sum.bounded(scene.samples_per_pixel as int * 0x1_0000_0000_0000_0000)
                &&& px.0 as int == #[trigger] tone_map_spec(sum.r, scene.samples_per_pixel as int)
                &&& px.1 as int == tone_map_spec(sum.g, scene.samples_per_pixel as int)
                &&& px.2 as int == tone_map_spec(sum.b, scene.samples_per_pixel as int)
            },
        scene.objects@.len() == 0 ==> px == background_pixel_spec(*scene),
{
    let mut rng = crate::rng::seed_rng(pixel_seed(seed, row, col));
    let mut color = Color::black();
    let mut s: usize = 0;
    while s < scene.samples_per_pixel
        invariant
            scene.wf(),
            row < scene.height,
            col < scene.width,
            s <= scene.samples_per_pixel,
            color@.nonneg(),
            color@.bounded(s as int * 0x1_0000_0000_0000_0000),
            scene.objects@.len() == 0 ==> color@ == (C3 {
                r: s as int * scene.background@.r,
                g: s as int * scene.background@.g,
                b: s as int * scene.background@.b,
            }),
        decreases scene.samples_per_pixel - s,
    {
        let uj = crate::rng::rand_unit_fx(&mut rng);
        let vj = crate::rng::rand_unit_fx(&mut rng);
        let u = pixel_fraction(col, scene.width, uj);
        let v = pixel_fraction(row, scene.height, vj);
        let r = scene.camera.get_ray(u, v);
        let sample = ray_color(&r, scene, scene.depth, &mut rng);
        proof {
            lemma_radiance_bound_monotone(scene.depth as int);
            assert(radiance_bound(scene.depth as int) <= 0x1_0000_0000_0000_0000);
            assert((s + 1) * 0x1_0000_0000_0000_0000int == s * 0x1_0000_0000_0000_0000int
                + 0x1_0000_0000_0000_0000) by (nonlinear_arith);
            assert(s * 0x1_0000_0000_0000_0000int <= 0x10000 * 0x1_0000_0000_0000_0000int)
                by (nonlinear_arith)
                requires
                    0 <= s <= 0x10000,
            ;
            if scene.objects@.len() == 0 {
                assert(sample@ == scene.background@);
                assert((s + 1) as int * scene.background@.r == s as int * scene.background@.r
                    + scene.background@.r) by (nonlinear_arith);
                assert((s + 1) as int * scene.background@.g == s as int * scene.background@.g
                    + scene.background@.g) by (nonlinear_arith);
                assert((s + 1) as int * scene.background@.b == s as int * scene.background@.b
                    + scene.background@.b) by (nonlinear_arith);
            }
        }
        color = color.add(&sample);
        s = s + 1;
    }
    proof {
        assert(scene.samples_per_pixel as int * 0x1_0000_0000_0000_0000int <= 0x10000
            * 0x1_0000_0000_0000_0000int) by (nonlinear_arith)
            requires
                0 <= scene.samples_per_pixel <= 0x10000,
        ;
    }
    let spp = scene.samples_per_pixel as i128;
    let px = (
        tone_map_channel(color.r, spp),
        tone_map_channel(color.g, spp),
        tone_map_channel(color.b, spp),
    );
    proof {
        assert(px.0 as int == tone_map_spec(color@.r, scene.samples_per_pixel as int) && px.1 as int
            == tone_map_spec(color@.g, scene.samples_per_pixel as int) && px.2 as int
            == tone_map_spec(color@.b, scene.samples_per_pixel as int));
    }
    px
}

/// One full image row of pixels, at the given camera row.
pub fn render_row(scene: &Config, row: usize, seed: u64) -> (pixels: Vec<(u8, u8, u8)>)
    requires
        scene.wf(),
        row < scene.height,
    ensures
        pixels@.len() == scene.width,
        scene.objects@.len() == 0 ==> forall|j: int|
            0 <= j < pixels@.len() ==> #[trigger] pixels@[j] == background_pixel_spec(*scene),
{
    let mut pixels: Vec<(u8, u8, u8)> = Vec::new();
    let mut j: usize = 0;
    while j < scene.width
        invariant
            scene.wf(),
            row < scene.height,
            j <= scene.width,
            pixels@.len() == j,
            scene.objects@.len() == 0 ==> forall|n: int|
                0 <= n < pixels@.len() ==> #[trigger] pixels@[n] == background_pixel_spec(*scene),
        decreases scene.width - j,
    {
        let px = render_pixel(scene, row, j, seed);
        pixels.push(px);
        j = j + 1;
    }
    pixels
}

/// The whole raster in file order: top row first, while the camera indexes
/// rows bottom to top.
pub fn render_image(scene: &Config, seed: u64) -> (image: Vec<(u8, u8, u8)>)
    requires
        scene.wf(),
    ensures
        image@.len() == scene.width * scene.height,
        scene.objects@.len() == 0 ==> forall|n: int|
            0 <= n < image@.len() ==> #[trigger] image@[n] == background_pixel_spec(*scene),
{
    let mut image: Vec<(u8, u8, u8)> = Vec::new();
    let mut i: usize = 0;
    proof {
        assert(scene.width * scene.height <= 4096 * 4096) by (nonlinear_arith)
            requires
                1 <= scene.width <= 4096,
                1 <= scene.height <= 4096,
        ;
    }
    while i < scene.height
        invariant
            scene.wf(),
            i <= scene.height,
            image@.len() == i * scene.width,
            scene.objects@.len() == 0 ==> forall|n: int|
                0 <= n < image@.len() ==> #[trigger] image@[n] == background_pixel_spec(*scene),
        decreases scene.height - i,
    {
        let cam_row = scene.height - 1 - i;
        let mut row = render_row(scene, cam_row, seed);
        proof {
            assert((i + 1) * scene.width as int == i * scene.width as int + scene.width as int)
                by (nonlinear_arith);
        }
        image.append(&mut row);
        i = i + 1;
    }
    proof {
        assert(scene.height as int * scene.width as int == scene.width as int
            * scene.height as int) by (nonlinear_arith);
    }
    image
}

/// Writes each keyed pixel into its addressed slot of a black raster:
/// the fan-in step of the parallel driver, indifferent to arrival order.
pub fn assemble(width: usize, height: usize, messages: &Vec<((usize, usize), (u8, u8, u8))>) -> (image:
    Vec<(u8, u8, u8)>)
    requires
        width * height <= 0x100_0000,
    ensures
        image@ == assemble_spec(width as int, height as int, messages@),
{
    let total = width * height;
    let mut image: Vec<(u8, u8, u8)> = Vec::new();
    let mut k: usize = 0;
    while k < total
        invariant
            k <= total,
            image@.len() == k,
            forall|n: int| 0 <= n < k ==> image@[n] == (0u8, 0u8, 0u8),
        decreases total - k,
    {
        image.push((0, 0, 0));
        k = k + 1;
    }
    proof {
        assert(image@ =~= blank_spec(width as int * height as int));
        assert(messages@.take(0) =~= Seq::<((usize, usize), (u8, u8, u8))>::empty());
    }
    let mut m: usize = 0;
    while m < messages.len()
        invariant
            width * height <= 0x100_0000,
            image@.len() == width * height,
            m <= messages.len(),
            image@ == fold_messages(
                width as int,
                height as int,
                blank_spec(width as int * height as int),
                messages@.take(m as int),
            ),
        decreases messages.len() - m,
    {
        let ((row, col), px) = messages[m];
        if row < height && col < width {
            proof {
                assert(row * width + col < width * height) by (nonlinear_arith)
                    requires
                        row < height,
                        col < width,
                        0 <= width,
                        0 <= height,
                ;
            }
            let idx = row * width + col;
            image.set(idx, px);
        }
        proof {
            assert(messages@.take(m + 1).drop_last() =~= messages@.take(m as int));
            assert(messages@.take(m + 1).last() == messages@[m as int]);
        }
        m = m + 1;
    }
    proof {
        assert(messages@.take(messages@.len() as int) =~= messages@);
    }
    image
}

/// An all-black raster of the given size.
pub open spec fn blank_spec(total: int) -> Seq<(u8, u8, u8)> {
    Seq::new(total as nat, |n: int| (0u8, 0u8, 0u8))
}

/// Messages folded left to right: each in-range key overwrites its slot.
pub open spec fn fold_messages(
    width: int,
    height: int,
    image: Seq<(u8, u8, u8)>,
    messages: Seq<((usize, usize), (u8, u8, u8))>,
) -> Seq<(u8, u8, u8)>
    decreases messages.len(),
{
    if messages.len() == 0 {
        image
    } else {
        let prev = fold_messages(width, height, image, messages.drop_last());
        let ((row, col), px) = messages.last();
        if row < height && col < width {
            prev.update(row * width + col, px)
        } else {
            prev
        }
    }
}

/// The assembled raster: every message written into its slot of a black
/// image.
pub open spec fn assemble_spec(
    width: int,
    height: int,
    messages: Seq<((usize, usize), (u8, u8, u8))>,
) -> Seq<(u8, u8, u8)> {
    fold_messages(width, height, blank_spec(width * height), messages)
}

/// Every scattering outcome hands back an attenuation in the unit color
/// range.
proof fn lemma_attenuation_range(
    m: Material,
    ray: Ray,
    hit_record: HitRecord,
    scatter: Option<(Ray, Color)>,
    attenuation: Color,
)
    requires
        m.wf(),
        m.scatter_post(ray, hit_record, scatter),
        scatter matches Some(p) && p.1 == attenuation,
    ensures
        attenuation@.nonneg(),
        attenuation@.bounded(SCALE as int),
{
    match m {
        Material::Lambertian(l) => {},
        Material::Metal(mt) => {},
        Material::Dielectric(d) => {},
        Material::Light(l) => {},
    }
}

/// The character for one decimal digit.
pub open spec fn digit_char(d: int) -> char {
    if d == 0 {
        '0'
    } else if d == 1 {
        '1'
    } else if d == 2 {
        '2'
    } else if d == 3 {
        '3'
    } else if d == 4 {
        '4'
    } else if d == 5 {
        '5'
    } else if d == 6 {
        '6'
    } else if d == 7 {
        '7'
    } else if d == 8 {
        '8'
    } else {
        '9'
    }
}

/// The decimal rendering of a nonnegative integer, most significant digit
/// first.
pub open spec fn dec_spec(n: int) -> Seq<char>
    recommends
        n >= 0,
    decreases n,
{
    if n <= 9 {
        seq![digit_char(n)]
    } else {
        dec_spec(n / 10).push(digit_char(n % 10))
    }
}

fn digit_str(d: u64) -> (s: &'static str)
    requires
        d <= 9,
    ensures
        s@ == seq![digit_char(d as int)],
{
    proof {
        reveal_strlit("0");
        reveal_strlit("1");
        reveal_strlit("2");
        reveal_strlit("3");
        reveal_strlit("4");
        reveal_strlit("5");
        reveal_strlit("6");
        reveal_strlit("7");
        reveal_strlit("8");
        reveal_strlit("9");
    }
    let s = match d {
        0 => "0",
        1 => "1",
        2 => "2",
        3 => "3",
        4 => "4",
        5 => "5",
        6 => "6",
        7 => "7",
        8 => "8",
        _ => "9",
    };
    proof {
        assert(s@ =~= seq![digit_char(d as int)]);
    }
    s
}

/// Renders a number in decimal.
pub fn dec_string(n: u64) -> (s: String)
    ensures
        s@ == dec_spec(n as int),
    decreases n,
{
    if n <= 9 {
        let mut s = String::new();
        s.append(digit_str(n));
        proof {
            assert(s@ =~= dec_spec(n as int));
        }
        s
    } else {
        let mut s = dec_string(n / 10);
        s.append(digit_str(n % 10));
        proof {
            assert(s@ =~= dec_spec(n as int));
        }
        s
    }
}

/// One raster line: the three channels separated by spaces.
pub open spec fn pixel_line_spec(p: (u8, u8, u8)) -> Seq<char> {
    dec_spec(p.0 as int) + seq![' '] + dec_spec(p.1 as int) + seq![' '] + dec_spec(p.2 as int)
        + seq!['\n']
}

/// All raster lines, in image order.
pub open spec fn pixel_lines_spec(image: Seq<(u8, u8, u8)>) -> Seq<char>
    decreases image.len(),
{
    if image.len() == 0 {
        Seq::<char>::empty()
    } else {
        pixel_lines_spec(image.drop_last()) + pixel_line_spec(image.last())
    }
}

/// The plain-text raster format: the fixed header, the dimensions, the
/// channel maximum, then one line per pixel in row-major order.
pub open spec fn ppm_spec(width: int, height: int, image: Seq<(u8, u8, u8)>) -> Seq<char> {
    seq!['P', '3', '\n'] + dec_spec(width) + seq![' '] + dec_spec(height) + seq!['\n', '2', '5', '5', '\n']
        + pixel_lines_spec(image)
}

/// Serializes a raster to the plain-text image format.
pub fn ppm_string(width: usize, height: usize, image: &Vec<(u8, u8, u8)>) -> (out: String)
    requires
        width <= 0xFFFF_FFFF,
        height <= 0xFFFF_FFFF,
    ensures
        out@ == ppm_spec(width as int, height as int, image@),
{
    let mut out = String::new();
    out.append("P3\n");
    let ws = dec_string(width as u64);
    out.append(ws.as_str());
    out.append(" ");
    let hs = dec_string(height as u64);
    out.append(hs.as_str());
    out.append("\n255\n");
    proof {
        reveal_strlit("P3\n");
        reveal_strlit(" ");
        reveal_strlit("\n255\n");
        assert(out@ =~= seq!['P', '3', '\n'] + dec_spec(width as int) + seq![' '] + dec_spec(
            height as int,
        ) + seq!['\n', '2', '5', '5', '\n']);
        assert(image@.take(0) =~= Seq::<(u8, u8, u8)>::empty());
        assert(out@ =~= ppm_spec(width as int, height as int, image@.take(0)));
    }
    let ghost header = out@;
    let mut i: usize = 0;
    while i < image.len()
        invariant
            out@ == ppm_spec(width as int, height as int, image@.take(i as int)),
            i <= image.len(),
        decreases image.len() - i,
    {
        let p = image[i];
        let rs = dec_string(p.0 as u64);
        out.append(rs.as_str());
        out.append(" ");
        let gs = dec_string(p.1 as u64);
        out.append(gs.as_str());
        out.append(" ");
        let bs = dec_string(p.2 as u64);
        out.append(bs.as_str());
        out.append("\n");
        proof {
            reveal_strlit(" ");
            reveal_strlit("\n");
            assert(image@.take(i + 1).drop_last() =~= image@.take(i as int));
            assert(image@.take(i + 1).last() == image@[i as int]);
            assert(out@ =~= ppm_spec(width as int, height as int, image@.take(i + 1)));
        }
        i = i + 1;
    }
    proof {
        assert(image@.take(image@.len() as int) =~= image@);
    }
    out
}

/// Renders the scene to the plain-text image format: the sequential driver
/// over rows, columns and samples.
pub fn render(scene: &Config, seed: u64) -> (out: String)
    requires
        scene.wf(),
    ensures
        exists|image: Seq<(u8, u8, u8)>|
            image.len() == scene.width * scene.height && out@ == ppm_spec(
                scene.width as int,
                scene.height as int,
                image,
            ),
        scene.objects@.len() == 0 ==> out@ == ppm_spec(
            scene.width as int,
            scene.height as int,
            Seq::new((scene.width * scene.height) as nat, |n: int| background_pixel_spec(*scene)),
        ),
{
    let image = render_image(scene, seed);
    let out = ppm_string(scene.width, scene.height, &image);
    proof {
        assert(image@.len() == scene.width * scene.height && out@ == ppm_spec(
            scene.width as int,
            scene.height as int,
            image@,
        ));
        if scene.objects@.len() == 0 {
            assert(image@ =~= Seq::new(
                (scene.width * scene.height) as nat,
                |n: int| background_pixel_spec(*scene),
            ));
        }
    }
    out
}

} // verus!
