//! Pseudo-random sampling.
//!
//! The generator itself comes from the `rand` crate and is opaque here: the
//! trusted declarations below give it a type and two operations, and promise
//! nothing about the values drawn.  Every function that consumes random draws
//! is verified for all possible outcomes.

use vstd::prelude::*;

verus! {

use crate::color::Color;
use crate::fx::{fx_mul, fx_mul_spec, iabs, SCALE};
use crate::vec3::{Vec3, V3};

#[verifier::external_type_specification]
#[verifier::external_body]
pub struct ExStdRng(rand::rngs::StdRng);

/// Relies on rand's `SeedableRng::seed_from_u64`: constructs a generator
/// from a 64-bit seed.  Nothing about its output stream is assumed.
#[verifier::external_body]
pub fn seed_rng(seed: u64) -> rand::rngs::StdRng {
    <rand::rngs::StdRng as rand::SeedableRng>::seed_from_u64(seed)
}

/// Relies on rand's `Rng::next_u32`: draws the generator's next 32-bit
/// value.  Nothing about the value is assumed.
#[verifier::external_body]
pub fn next_u32(rng: &mut rand::rngs::StdRng) -> u32 {
    <rand::rngs::StdRng as rand::Rng>::next_u32(rng)
}

/// A fixed-point draw in `[0, 1)`, i.e. an integer in `[0, SCALE)`.
pub fn rand_unit_fx(rng: &mut rand::rngs::StdRng) -> (r: i128)
    ensures
        0 <= r < SCALE,
{
    let raw = next_u32(rng);
    (raw % (SCALE as u32)) as i128
}

/// A fixed-point draw in `[-1, 1]`, i.e. an integer in `[-SCALE, SCALE]`.
pub fn rand_symmetric_fx(rng: &mut rand::rngs::StdRng) -> (r: i128)
    ensures
        -SCALE <= r <= SCALE,
{
    let raw = next_u32(rng);
    let m = (raw % (2 * SCALE as u32 + 1)) as i128;
    m - SCALE
}

impl Vec3 {
    /// A vector whose components are independent uniform draws in
    /// `[min, max]`.
    pub fn random(min: i128, max: i128, rng: &mut rand::rngs::StdRng) -> (v: Vec3)
        requires
            min <= max,
            iabs(min as int) <= crate::fx::T_MAX_BOUND,
            iabs(max as int) <= crate::fx::T_MAX_BOUND,
        ensures
            v@.bounded(vstd::math::max(iabs(min as int), iabs(max as int))),
            min <= v@.x <= max,
            min <= v@.y <= max,
            min <= v@.z <= max,
    {
        let d = max - min;
        let ux = rand_unit_fx(rng);
        let uy = rand_unit_fx(rng);
        let uz = rand_unit_fx(rng);
        proof {
            crate::fx::lemma_fx_mul_unit_range(ux as int, d as int);
            crate::fx::lemma_fx_mul_unit_range(uy as int, d as int);
            crate::fx::lemma_fx_mul_unit_range(uz as int, d as int);
            crate::fx::lemma_abs_mul_bound(ux as int, d as int, SCALE as int, 2 * crate::fx::T_MAX_BOUND as int);
            crate::fx::lemma_abs_mul_bound(uy as int, d as int, SCALE as int, 2 * crate::fx::T_MAX_BOUND as int);
            crate::fx::lemma_abs_mul_bound(uz as int, d as int, SCALE as int, 2 * crate::fx::T_MAX_BOUND as int);
        }
        Vec3 { x: min + fx_mul(ux, d), y: min + fx_mul(uy, d), z: min + fx_mul(uz, d) }
    }

    /// A uniform draw from the strict interior of the unit ball, rejected
    /// and redrawn when it falls outside (or too close to the origin for
    /// fixed-point normalization); falls back to a fixed interior vector
    /// when every attempt is rejected.
    pub fn random_in_unit_sphere(rng: &mut rand::rngs::StdRng) -> (v: Vec3)
        ensures
            v@.bounded(SCALE as int),
            1 <= v@.dot_raw(v@),
            v@.dot_raw(v@) < (SCALE as int) * (SCALE as int),
    {
        let mut tries: u32 = 64;
        while tries > 0
            invariant
                true,
            decreases tries,
        {
            let x = rand_symmetric_fx(rng);
            let y = rand_symmetric_fx(rng);
            let z = rand_symmetric_fx(rng);
            let p = Vec3 { x, y, z };
            proof {
                crate::vec3::lemma_bounded_norm_inf(p@, SCALE as int);
                crate::vec3::lemma_mul_le(p@.norm_inf(), p@.norm_inf(), SCALE as int, SCALE as int);
            }
            let raw = p.dot_raw(&p);
            if 1 <= raw && raw < SCALE * SCALE {
                proof {
                    lemma_ball_bounded(p@);
                }
                return p;
            }
            tries = tries - 1;
        }
        proof {
            assert(1 <= (SCALE as int / 2) * (SCALE as int / 2) < (SCALE as int) * (
            SCALE as int)) by (nonlinear_arith);
            assert(0int * 0 == 0) by (nonlinear_arith);
        }
        Vec3 { x: SCALE / 2, y: 0, z: 0 }
    }

    /// A unit vector in a uniformly random direction: the normalization of
    /// a nonzero draw from the interior of the unit ball.
    pub fn random_unit_vector(rng: &mut rand::rngs::StdRng) -> (v: Vec3)
        ensures
            v@.bounded(SCALE as int),
            exists|p: V3|
                {
                    &&& 1 <= #[trigger] p.dot_raw(p) < (SCALE as int) * (SCALE as int)
                    &&& v@ == p.unit()
                },
    {
        let p = Vec3::random_in_unit_sphere(rng);
        proof {
            lemma_ball_norm_inf(p@);
        }
        let u = p.unit();
        proof {
            assert(1 <= p@.dot_raw(p@) < (SCALE as int) * (SCALE as int) && u@ == p@.unit());
        }
        u
    }

    /// A unit vector in the hemisphere around `normal`.
    pub fn random_in_hemisphere(normal: &Vec3, rng: &mut rand::rngs::StdRng) -> (v: Vec3)
        requires
            normal@.bounded(crate::ray::NORMAL_MAX as int),
        ensures
            v@.bounded(SCALE as int),
    {
        let in_unit_sphere = Vec3::random_unit_vector(rng);
        proof {
            crate::vec3::lemma_bounded_norm_inf(in_unit_sphere@, SCALE as int);
            crate::vec3::lemma_bounded_norm_inf(normal@, crate::ray::NORMAL_MAX as int);
            crate::vec3::lemma_mul_le(
                in_unit_sphere@.norm_inf(),
                normal@.norm_inf(),
                SCALE as int,
                crate::ray::NORMAL_MAX as int,
            );
        }
        if in_unit_sphere.dot_raw(normal) > 0 {
            in_unit_sphere
        } else {
            in_unit_sphere.neg()
        }
    }
}

proof fn lemma_ball_bounded(p: V3)
    requires
        p.dot_raw(p) < (SCALE as int) * (SCALE as int),
    ensures
        p.bounded(SCALE as int),
{
    crate::vec3::lemma_dot_raw_self_nonneg(p);
    assert(iabs(p.x) <= SCALE as int) by (nonlinear_arith)
        requires
            p.x * p.x < (SCALE as int) * (SCALE as int),
    ;
    assert(iabs(p.y) <= SCALE as int) by (nonlinear_arith)
        requires
            p.y * p.y < (SCALE as int) * (SCALE as int),
    ;
    assert(iabs(p.z) <= SCALE as int) by (nonlinear_arith)
        requires
            p.z * p.z < (SCALE as int) * (SCALE as int),
    ;
}

proof fn lemma_ball_norm_inf(p: V3)
    requires
        p.bounded(SCALE as int),
    ensures
        p.norm_inf() <= SCALE as int,
        p.norm_inf() * p.norm_inf() < i128::MAX / 4,
        p.norm_inf() * (SCALE as int) < i128::MAX,
{
    assert(p.norm_inf() * p.norm_inf() <= (SCALE as int) * (SCALE as int)) by (nonlinear_arith)
        requires
            0 <= p.norm_inf() <= SCALE as int,
    ;
}

impl Color {
    /// A color with independent uniform channels in `[0, 1)`.
    pub fn random(rng: &mut rand::rngs::StdRng) -> (c: Color)
        ensures
            c@.nonneg(),
            c@.bounded(SCALE as int),
    {
        Color { r: rand_unit_fx(rng), g: rand_unit_fx(rng), b: rand_unit_fx(rng) }
    }
}

} // verus!
