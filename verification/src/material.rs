//! Materials: how surfaces scatter and emit light.
//!
//! A closed variant set: diffuse (`Lambertian`), specular (`Metal`),
//! refractive (`Dielectric`) and purely emissive (`Light`).  Scattering draws
//! randomness from the generator; each implementation's contract states what
//! holds of every possible outcome.

use vstd::prelude::*;

verus! {

use crate::color::{Color, C3};
use crate::fx::{fx_div, fx_div_spec, fx_mul, fx_mul_spec, iabs, sqrt_floor, tzdiv, SCALE};
use crate::ray::{HitRecord, Ray, NORMAL_MAX};
use crate::vec3::{Vec3, V3};

/// Bound on the components of an emitted color.
pub const EMIT_MAX: i128 = 0x100_0000_0000;

/// The scattering capability: given an incoming ray and a hit, a material
/// either produces a scattered ray with an attenuation color, or absorbs the
/// path.
pub trait Scatterable {
    /// The material's internal invariant.
    spec fn wf(&self) -> bool;

    /// What `scatter` guarantees, for every outcome of the random draws.
    spec fn scatter_post(&self, ray: Ray, hit_record: HitRecord, r: Option<(Ray, Color)>) -> bool;

    /// The color the material emits on its own.
    spec fn emitted_spec(&self) -> C3;

    fn scatter(&self, ray: &Ray, hit_record: &HitRecord, rng: &mut rand::rngs::StdRng) -> (r:
        Option<(Ray, Color)>)
        requires
            self.wf(),
            hit_record.wf(),
            ray.direction@.bounded(crate::fx::COORD_MAX as int),
            ray.direction@.dot_raw(ray.direction@) >= 1,
        ensures
            self.scatter_post(*ray, *hit_record, r),
    ;

    fn emitted(&self) -> (c: Color)
        requires
            self.wf(),
        ensures
            c@ == self.emitted_spec(),
            c@.nonneg(),
            c@.bounded(EMIT_MAX as int),
    ;
}

/// A purely emissive material: terminates every path that hits it.
#[derive(Clone, Copy, Debug, PartialEq, Eq, Structural)]
pub struct Light {
    pub color: Color,
}

impl Light {
    pub fn new(color: Color) -> (l: Light)
        ensures
            l.color == color,
    {
        Light { color }
    }
}

impl Scatterable for Light {
    open spec fn wf(&self) -> bool {
        self.color@.nonneg() && self.color@.bounded(EMIT_MAX as int)
    }

    open spec fn scatter_post(&self, ray: Ray, hit_record: HitRecord, r: Option<(Ray, Color)>) -> bool {
        r is None
    }

    open spec fn emitted_spec(&self) -> C3 {
        self.color@
    }

    fn scatter(&self, ray: &Ray, hit_record: &HitRecord, rng: &mut rand::rngs::StdRng) -> Option<
        (Ray, Color),
    > {
        None
    }

    fn emitted(&self) -> Color {
        self.color
    }
}

/// A diffuse material: always scatters near the surface normal.
#[derive(Clone, Copy, Debug, PartialEq, Eq, Structural)]
pub struct Lambertian {
    pub albedo: Color,
}

impl Lambertian {
    pub fn new(albedo: Color) -> (l: Lambertian)
        ensures
            l.albedo == albedo,
    {
        Lambertian { albedo }
    }
}

impl Scatterable for Lambertian {
    open spec fn wf(&self) -> bool {
        self.albedo@.nonneg() && self.albedo@.bounded(SCALE as int)
    }

    open spec fn scatter_post(&self, ray: Ray, hit_record: HitRecord, r: Option<(Ray, Color)>) -> bool {
        &&& r matches Some((sc, att))
        &&& {
            let (sc, att) = r->Some_0;
            &&& att == self.albedo
            &&& sc.origin == hit_record.position
            &&& (sc.direction@ == hit_record.normal@ || sc.direction@.sub(
                hit_record.normal@,
            ).bounded(SCALE as int))
            &&& !sc.direction@.near_zero()
        }
    }

    open spec fn emitted_spec(&self) -> C3 {
        C3::black()
    }

    fn scatter(&self, ray: &Ray, hit_record: &HitRecord, rng: &mut rand::rngs::StdRng) -> Option<
        (Ray, Color),
    > {
        let ruv = Vec3::random_unit_vector(rng);
        let mut scatter_direction = hit_record.normal.add(&ruv);
        if scatter_direction.near_zero() {
            scatter_direction = hit_record.normal;
            proof {
                assert(!hit_record.normal@.near_zero()) by {
                    if hit_record.normal@.near_zero() {
                        assert(hit_record.normal@.dot_raw(hit_record.normal@) == 0)
                            by (nonlinear_arith)
                            requires
                                hit_record.normal@.x == 0,
                                hit_record.normal@.y == 0,
                                hit_record.normal@.z == 0,
                        ;
                    }
                };
            }
        }
        let scattered = Ray::new(hit_record.position, scatter_direction);
        Some((scattered, self.albedo))
    }

    fn emitted(&self) -> Color {
        Color::black()
    }
}

/// A specular material: mirror reflection perturbed by `fuzz`, absorbing
/// grazing reflections that end up inside the surface.
#[derive(Clone, Copy, Debug, PartialEq, Eq, Structural)]
pub struct Metal {
    pub albedo: Color,
    pub fuzz: i128,
}

impl Metal {
    pub fn new(albedo: Color, fuzz: i128) -> (m: Metal)
        ensures
            m.albedo == albedo,
            m.fuzz == fuzz,
    {
        Metal { albedo, fuzz }
    }
}

impl Scatterable for Metal {
    open spec fn wf(&self) -> bool {
        &&& self.albedo@.nonneg()
        &&& self.albedo@.bounded(SCALE as int)
        &&& 0 <= self.fuzz <= SCALE
    }

    open spec fn scatter_post(&self, ray: Ray, hit_record: HitRecord, r: Option<(Ray, Color)>) -> bool {
        &&& (r matches Some((sc, att)) ==> {
            &&& att == self.albedo
            &&& sc.origin == hit_record.position
            &&& sc.direction@.dot_raw(hit_record.normal@) > 0
            &&& sc.direction@.sub(ray.direction@.reflect(hit_record.normal@)).bounded(
                SCALE as int,
            )
        })
        &&& (self.fuzz == 0 && ray.direction@.reflect(hit_record.normal@).dot_raw(
            hit_record.normal@,
        ) > 0 ==> r is Some)
    }

    open spec fn emitted_spec(&self) -> C3 {
        C3::black()
    }

    fn scatter(&self, ray: &Ray, hit_record: &HitRecord, rng: &mut rand::rngs::StdRng) -> Option<
        (Ray, Color),
    > {
        let reflected = Vec3::reflect(&ray.direction, &hit_record.normal);
        let ball = Vec3::random_in_unit_sphere(rng);
        proof {
            crate::vec3::lemma_smul_bound(ball@, self.fuzz as int, SCALE as int, SCALE as int);
        }
        let fz = ball.smul(self.fuzz);
        proof {
            if self.fuzz == 0 {
                crate::vec3::lemma_smul_zero(ball@);
            }
        }
        let dir = reflected.add(&fz);
        let scattered = Ray::new(hit_record.position, dir);
        proof {
            crate::vec3::lemma_bounded_norm_inf(dir@, 0x40_0000_0000_0000);
            crate::vec3::lemma_bounded_norm_inf(hit_record.normal@, NORMAL_MAX as int);
            crate::vec3::lemma_mul_le(
                dir@.norm_inf(),
                hit_record.normal@.norm_inf(),
                0x40_0000_0000_0000,
                NORMAL_MAX as int,
            );
        }
        if scattered.direction.dot_raw(&hit_record.normal) > 0 {
            Some((scattered, self.albedo))
        } else {
            None
        }
    }

    fn emitted(&self) -> Color {
        Color::black()
    }
}

/// A refractive material: always scatters, choosing between reflection and
/// Snell refraction by total internal reflection and the Schlick reflectance
/// approximation.
#[derive(Clone, Copy, Debug, PartialEq, Eq, Structural)]
pub struct Dielectric {
    pub index_of_refraction: i128,
}

impl Dielectric {
    pub fn new(index_of_refraction: i128) -> (d: Dielectric)
        ensures
            d.index_of_refraction == index_of_refraction,
    {
        Dielectric { index_of_refraction }
    }

    /// The refractive-index ratio for a hit: inverted when entering the
    /// medium from outside.
    pub open spec fn eta_spec(&self, front_face: bool) -> int {
        if front_face {
            fx_div_spec(SCALE as int, self.index_of_refraction as int)
        } else {
            self.index_of_refraction as int
        }
    }

    /// The cosine of the incoming angle, clamped to at most one.
    pub open spec fn cos_spec(unit_direction: V3, normal: V3) -> int {
        -vstd::math::min(unit_direction.dot(normal), SCALE as int)
    }

    /// The sine of the incoming angle, from `sqrt(1 - cos^2)`.
    pub open spec fn sin_spec(cos: int) -> int {
        if (SCALE as int) * (SCALE as int) - cos * cos <= 0 {
            0
        } else {
            sqrt_floor(((SCALE as int) * (SCALE as int) - cos * cos) as nat) as int
        }
    }

    /// Snell's law has no real solution: the ray must reflect.
    pub open spec fn cannot_refract_spec(eta: int, sin: int) -> bool {
        fx_mul_spec(eta, sin) > SCALE as int
    }
}

impl Scatterable for Dielectric {
    open spec fn wf(&self) -> bool {
        256 <= self.index_of_refraction <= 0x100_0000
    }

    open spec fn scatter_post(&self, ray: Ray, hit_record: HitRecord, r: Option<(Ray, Color)>) -> bool {
        &&& r matches Some((sc, att))
        &&& {
            let (sc, att) = r->Some_0;
            let unit_direction = ray.direction@.unit();
            let eta = self.eta_spec(hit_record.front_face);
            let cos = Dielectric::cos_spec(unit_direction, hit_record.normal@);
            let sin = Dielectric::sin_spec(cos);
            &&& att@ == C3::white()
            &&& sc.origin == hit_record.position
            &&& (sc.direction@ == unit_direction.reflect(hit_record.normal@) || sc.direction@
                == unit_direction.refract(hit_record.normal@, eta))
            &&& (Dielectric::cannot_refract_spec(eta, sin) ==> sc.direction@
                == unit_direction.reflect(hit_record.normal@))
        }
    }

    open spec fn emitted_spec(&self) -> C3 {
        C3::black()
    }

    fn scatter(&self, ray: &Ray, hit_record: &HitRecord, rng: &mut rand::rngs::StdRng) -> Option<
        (Ray, Color),
    > {
        let attenuation = Color::white();
        let etai_over_etat = if hit_record.front_face {
            fx_div(SCALE, self.index_of_refraction)
        } else {
            self.index_of_refraction
        };
        proof {
            if hit_record.front_face {
                lemma_eta_range(self.index_of_refraction as int);
            }
        }
        proof {
            crate::vec3::lemma_bounded_norm_inf(ray.direction@, crate::fx::COORD_MAX as int);
            crate::vec3::lemma_mul_le(
                ray.direction@.norm_inf(),
                ray.direction@.norm_inf(),
                crate::fx::COORD_MAX as int,
                crate::fx::COORD_MAX as int,
            );
            crate::vec3::lemma_mul_le(
                ray.direction@.norm_inf(),
                SCALE as int,
                crate::fx::COORD_MAX as int,
                SCALE as int,
            );
        }
        let unit_direction = ray.direction.unit();
        proof {
            crate::vec3::lemma_bounded_norm_inf(unit_direction@, SCALE as int);
            crate::vec3::lemma_bounded_norm_inf(hit_record.normal@, NORMAL_MAX as int);
            crate::vec3::lemma_mul_le(
                unit_direction@.norm_inf(),
                hit_record.normal@.norm_inf(),
                SCALE as int,
                NORMAL_MAX as int,
            );
        }
        let dt = unit_direction.dot(&hit_record.normal);
        proof {
            crate::vec3::lemma_dot_product_bound(unit_direction@, hit_record.normal@);
            crate::fx::lemma_tzdiv_le_bound(
                unit_direction@.dot_raw(hit_record.normal@),
                SCALE as int,
                3 * (SCALE as int) * (NORMAL_MAX as int),
            );
        }
        let m = if dt < SCALE {
            dt
        } else {
            SCALE
        };
        let cos_theta = -m;
        proof {
            crate::fx::lemma_abs_mul_bound(cos_theta as int, cos_theta as int, 0xC_0000, 0xC_0000);
        }
        let cc = cos_theta * cos_theta;
        proof {
            assert(cc >= 0) by (nonlinear_arith)
                requires
                    cc == (cos_theta as int) * (cos_theta as int),
            ;
        }
        let d2 = SCALE * SCALE - cc;
        let sin_theta = if d2 <= 0 {
            0
        } else {
            let sq = crate::fx::isqrt(d2 as u128);
            proof {
                assert(sq <= 0x1_0000) by (nonlinear_arith)
                    requires
                        sq * sq <= d2,
                        d2 <= 0x1_0000_0000,
                ;
            }
            sq as i128
        };
        proof {
            crate::fx::lemma_abs_mul_bound(
                etai_over_etat as int,
                sin_theta as int,
                0x100_0000,
                0x1_0000,
            );
        }
        let cannot_refract = fx_mul(etai_over_etat, sin_theta) > SCALE;
        let draw = crate::rng::rand_unit_fx(rng);
        if cannot_refract || reflectance(cos_theta, etai_over_etat) > draw {
            let reflected = Vec3::reflect(&unit_direction, &hit_record.normal);
            let scattered = Ray::new(hit_record.position, reflected);
            Some((scattered, attenuation))
        } else {
            let refracted = Vec3::refract(&unit_direction, &hit_record.normal, etai_over_etat);
            let scattered = Ray::new(hit_record.position, refracted);
            Some((scattered, attenuation))
        }
    }

    fn emitted(&self) -> Color {
        Color::black()
    }
}

/// Schlick's approximation for reflectance.
pub open spec fn reflectance_spec(cosine: int, ref_idx: int) -> int {
    let r0a = fx_div_spec(SCALE as int - ref_idx, SCALE as int + ref_idx);
    let r0 = fx_mul_spec(r0a, r0a);
    let om = SCALE as int - cosine;
    let om2 = fx_mul_spec(om, om);
    let om4 = fx_mul_spec(om2, om2);
    let om5 = fx_mul_spec(om4, om);
    r0 + fx_mul_spec(SCALE as int - r0, om5)
}

/// Schlick's approximation for reflectance.  For a cosine in the unit
/// range it is a probability: a fixed-point value in `[0, 1]`.
fn reflectance(cosine: i128, ref_idx: i128) -> (r: i128)
    requires
        iabs(cosine as int) <= 0x100_0000,
        1 <= ref_idx <= 0x100_0000,
    ensures
        r == reflectance_spec(cosine as int, ref_idx as int),
        0 <= cosine <= SCALE ==> 0 <= r <= SCALE,
{
    let r0a = fx_div(SCALE - ref_idx, SCALE + ref_idx);
    proof {
        lemma_refl_product(r0a as int, r0a as int, 0x100_0000_0000, 0x100_0000_0000);
    }
    let r0 = fx_mul(r0a, r0a);
    let om = SCALE - cosine;
    proof {
        lemma_refl_product(om as int, om as int, 0x200_0000, 0x200_0000);
    }
    let om2 = fx_mul(om, om);
    proof {
        lemma_refl_product(om2 as int, om2 as int, 0x4_0000_0000, 0x4_0000_0000);
    }
    let om4 = fx_mul(om2, om2);
    proof {
        lemma_refl_product(om4 as int, om as int, 0x10_0000_0000_0000, 0x200_0000);
    }
    let om5 = fx_mul(om4, om);
    proof {
        lemma_refl_product(
            SCALE as int - r0 as int,
            om5 as int,
            0x2_0000_0000_0000_0000,
            0x2000_0000_0000_0000,
        );
        if 0 <= cosine <= SCALE {
            lemma_probability_range(
                cosine as int,
                ref_idx as int,
                r0a as int,
                r0 as int,
                om as int,
                om2 as int,
                om4 as int,
                om5 as int,
            );
        }
    }
    r0 + fx_mul(SCALE - r0, om5)
}

/// In the unit cosine range, every Schlick term stays within `[0, 1]`, so
/// the blend does too.
proof fn lemma_probability_range(
    cosine: int,
    ref_idx: int,
    r0a: int,
    r0: int,
    om: int,
    om2: int,
    om4: int,
    om5: int,
)
    requires
        0 <= cosine <= SCALE as int,
        1 <= ref_idx,
        r0a == fx_div_spec(SCALE as int - ref_idx, SCALE as int + ref_idx),
        r0 == fx_mul_spec(r0a, r0a),
        om == SCALE as int - cosine,
        om2 == fx_mul_spec(om, om),
        om4 == fx_mul_spec(om2, om2),
        om5 == fx_mul_spec(om4, om),
    ensures
        0 <= r0 + fx_mul_spec(SCALE as int - r0, om5) <= SCALE as int,
{
    let s = SCALE as int;
    let den = s + ref_idx;
    // |r0a| < 1: the numerator's magnitude is below the denominator's
    assert(iabs((s - ref_idx) * s) == iabs(s - ref_idx) * s) by (nonlinear_arith)
        requires
            s == SCALE as int,
    ;
    assert(iabs(s - ref_idx) * s <= (den - 1) * s) by (nonlinear_arith)
        requires
            iabs(s - ref_idx) <= den - 1,
            s >= 1,
    ;
    assert((den - 1) * s < den * s) by (nonlinear_arith)
        requires
            s >= 1,
    ;
    vstd::arithmetic::div_mod::lemma_multiply_divide_lt((den - 1) * s, den, s);
    vstd::arithmetic::div_mod::lemma_div_is_ordered(iabs(s - ref_idx) * s, (den - 1) * s, den);
    assert(iabs(r0a) == iabs((s - ref_idx) * s) / den);
    assert(iabs(r0a) <= s - 1);
    // r0 = r0a^2 (scaled) lies in [0, 1)
    assert(r0a * r0a == iabs(r0a) * iabs(r0a)) by (nonlinear_arith);
    assert(iabs(r0a) * iabs(r0a) <= (s - 1) * s) by (nonlinear_arith)
        requires
            0 <= iabs(r0a) <= s - 1,
            s >= 1,
    ;
    vstd::arithmetic::div_mod::lemma_div_pos_is_pos(r0a * r0a, s);
    vstd::arithmetic::div_mod::lemma_div_is_ordered(r0a * r0a, (s - 1) * s, s);
    assert(((s - 1) * s) / s == s - 1) by {
        vstd::arithmetic::div_mod::lemma_div_by_multiple(s - 1, s);
    };
    assert(0 <= r0 <= s - 1);
    // each power of (1 - cosine) stays in [0, 1]
    crate::fx::lemma_fx_mul_unit_range(om, om);
    crate::fx::lemma_fx_mul_unit_range(om2, om2);
    crate::fx::lemma_fx_mul_unit_range(om4, om);
    // the blend r0 + (1 - r0) * om5 stays within [0, 1]
    assert(fx_mul_spec(s - r0, om5) == fx_mul_spec(om5, s - r0)) by {
        assert((s - r0) * om5 == om5 * (s - r0)) by (nonlinear_arith);
    };
    crate::fx::lemma_fx_mul_unit_range(om5, s - r0);
}

/// For a well-formed refractive index, the inverted ratio stays within the
/// working range `[1, 2^24]`.
proof fn lemma_eta_range(ir: int)
    requires
        256 <= ir <= 0x100_0000,
    ensures
        1 <= fx_div_spec(SCALE as int, ir) <= 0x100_0000,
{
    let x = (SCALE as int) * (SCALE as int);
    vstd::arithmetic::div_mod::lemma_div_pos_is_pos(x, ir);
    vstd::arithmetic::div_mod::lemma_div_is_ordered_by_denominator(x, 256, ir);
    vstd::arithmetic::div_mod::lemma_div_is_ordered_by_denominator(x, ir, 0x100_0000);
    assert(fx_div_spec(SCALE as int, ir) == x / ir);
}

/// Helper: two magnitude bounds make a fixed-point product safe, and bound
/// its result.
proof fn lemma_refl_product(a: int, b: int, ba: int, bb: int)
    requires
        iabs(a) <= ba,
        iabs(b) <= bb,
        0 <= ba,
        0 <= bb,
    ensures
        iabs(a) * iabs(b) <= ba * bb,
        iabs(fx_mul_spec(a, b)) <= ba * bb / (SCALE as int),
{
    crate::vec3::lemma_mul_le(iabs(a), iabs(b), ba, bb);
    assert(iabs(a * b) == iabs(a) * iabs(b)) by (nonlinear_arith);
    crate::fx::lemma_tzdiv_le_bound(a * b, SCALE as int, ba * bb);
}

/// Bounds of a color checked at run time: nonnegative channels within the
/// given magnitude.
fn check_color(c: &Color, bound: i128) -> (r: bool)
    requires
        bound >= 0,
    ensures
        r == (c@.nonneg() && c@.bounded(bound as int)),
{
    0 <= c.r && c.r <= bound && 0 <= c.g && c.g <= bound && 0 <= c.b && c.b <= bound
}

/// The closed set of materials, dispatching by variant.
#[derive(Clone, Copy, Debug, PartialEq, Eq, Structural)]
pub enum Material {
    Lambertian(Lambertian),
    Metal(Metal),
    Dielectric(Dielectric),
    Light(Light),
}

impl Scatterable for Material {
    open spec fn wf(&self) -> bool {
        match self {
            Material::Lambertian(l) => l.wf(),
            Material::Metal(m) => m.wf(),
            Material::Dielectric(d) => d.wf(),
            Material::Light(l) => l.wf(),
        }
    }

    open spec fn scatter_post(&self, ray: Ray, hit_record: HitRecord, r: Option<(Ray, Color)>) -> bool {
        match self {
            Material::Lambertian(l) => l.scatter_post(ray, hit_record, r),
            Material::Metal(m) => m.scatter_post(ray, hit_record, r),
            Material::Dielectric(d) => d.scatter_post(ray, hit_record, r),
            Material::Light(l) => l.scatter_post(ray, hit_record, r),
        }
    }

    open spec fn emitted_spec(&self) -> C3 {
        match self {
            Material::Lambertian(l) => l.emitted_spec(),
            Material::Metal(m) => m.emitted_spec(),
            Material::Dielectric(d) => d.emitted_spec(),
            Material::Light(l) => l.emitted_spec(),
        }
    }

    fn scatter(&self, ray: &Ray, hit_record: &HitRecord, rng: &mut rand::rngs::StdRng) -> Option<
        (Ray, Color),
    > {
        match self {
            Material::Lambertian(l) => l.scatter(ray, hit_record, rng),
            Material::Metal(m) => m.scatter(ray, hit_record, rng),
            Material::Dielectric(d) => d.scatter(ray, hit_record, rng),
            Material::Light(l) => l.scatter(ray, hit_record, rng),
        }
    }

    fn emitted(&self) -> Color {
        match self {
            Material::Lambertian(l) => l.emitted(),
            Material::Metal(m) => m.emitted(),
            Material::Dielectric(d) => d.emitted(),
            Material::Light(l) => l.emitted(),
        }
    }
}

impl Material {
    /// Decides the material's invariant at run time, for callers outside
    /// the verified core.
    pub fn check_wf(&self) -> (r: bool)
        ensures
            r == self.wf(),
    {
        match self {
            Material::Lambertian(l) => check_color(&l.albedo, SCALE),
            Material::Metal(m) => check_color(&m.albedo, SCALE) && 0 <= m.fuzz && m.fuzz <= SCALE,
            Material::Dielectric(d) => 256 <= d.index_of_refraction && d.index_of_refraction
                <= 0x100_0000,
            Material::Light(l) => check_color(&l.color, EMIT_MAX),
        }
    }
}

} // verus!
