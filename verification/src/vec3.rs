//! Three-component fixed-point vectors.
//!
//! `Vec3` is the executable type; its view `V3` carries the same three
//! components as unbounded integers, and every vector operation is specified
//! exactly over `V3`.

use vstd::prelude::*;

verus! {

use crate::fx::{fx_div, fx_mul, fx_mul_spec, iabs, isqrt, sqrt_floor, tz_div, tzdiv, SCALE};

/// Mathematical model of a vector: three unbounded integers.
pub ghost struct V3 {
    pub x: int,
    pub y: int,
    pub z: int,
}

impl V3 {
    pub open spec fn add(self, o: V3) -> V3 {
        V3 { x: self.x + o.x, y: self.y + o.y, z: self.z + o.z }
    }

    pub open spec fn sub(self, o: V3) -> V3 {
        V3 { x: self.x - o.x, y: self.y - o.y, z: self.z - o.z }
    }

    pub open spec fn neg(self) -> V3 {
        V3 { x: -self.x, y: -self.y, z: -self.z }
    }

    /// Fixed-point scaling: each component becomes `component * s / SCALE`.
    pub open spec fn smul(self, s: int) -> V3 {
        V3 {
            x: fx_mul_spec(self.x, s),
            y: fx_mul_spec(self.y, s),
            z: fx_mul_spec(self.z, s),
        }
    }

    /// The raw inner product, in `SCALE^2` units; its sign is exact.
    pub open spec fn dot_raw(self, o: V3) -> int {
        self.x * o.x + self.y * o.y + self.z * o.z
    }

    /// The fixed-point inner product: `dot_raw / SCALE`, rounded toward zero.
    pub open spec fn dot(self, o: V3) -> int {
        tzdiv(self.dot_raw(o), SCALE as int)
    }

    /// The fixed-point length: `floor(SCALE * |v|)`.
    pub open spec fn norm(self) -> int {
        sqrt_floor(self.dot_raw(self) as nat) as int
    }

    /// The unit vector in the direction of `self` (fixed-point rounding).
    pub open spec fn unit(self) -> V3 {
        V3 {
            x: tzdiv(self.x * SCALE as int, self.norm()),
            y: tzdiv(self.y * SCALE as int, self.norm()),
            z: tzdiv(self.z * SCALE as int, self.norm()),
        }
    }

    /// All components have magnitude at most `b`.
    pub open spec fn bounded(self, b: int) -> bool {
        iabs(self.x) <= b && iabs(self.y) <= b && iabs(self.z) <= b
    }

    /// The largest component magnitude.
    pub open spec fn norm_inf(self) -> int {
        vstd::math::max(iabs(self.x), vstd::math::max(iabs(self.y), iabs(self.z)))
    }

    /// The fixed-point cross product.
    pub open spec fn cross(self, o: V3) -> V3 {
        V3 {
            x: fx_mul_spec(self.y, o.z) - fx_mul_spec(self.z, o.y),
            y: fx_mul_spec(self.z, o.x) - fx_mul_spec(self.x, o.z),
            z: fx_mul_spec(self.x, o.y) - fx_mul_spec(self.y, o.x),
        }
    }

    /// Mirror reflection of `self` about the normal `n`.
    pub open spec fn reflect(self, n: V3) -> V3 {
        self.sub(n.smul(2 * self.dot(n)))
    }

    /// Snell refraction of `self` through a surface with normal `n` and
    /// refractive-index ratio `eta` (fixed-point), by the standard
    /// perpendicular/parallel decomposition.
    pub open spec fn refract(self, n: V3, eta: int) -> V3 {
        let c = -vstd::math::min(self.dot(n), SCALE as int);
        let perp = self.add(n.smul(c)).smul(eta);
        let ns = perp.dot(perp);
        let k = if ns >= SCALE as int {
            0
        } else {
            (SCALE as int - ns) * SCALE as int
        };
        perp.sub(n.smul(sqrt_floor(k as nat) as int))
    }

    /// Whether the vector is indistinguishable from zero at fixed-point
    /// resolution.
    pub open spec fn near_zero(self) -> bool {
        self.x == 0 && self.y == 0 && self.z == 0
    }
}

/// An executable fixed-point vector.
#[derive(Clone, Copy, Debug, PartialEq, Eq, Structural)]
pub struct Vec3 {
    pub x: i128,
    pub y: i128,
    pub z: i128,
}

impl View for Vec3 {
    type V = V3;

    open spec fn view(&self) -> V3 {
        V3 { x: self.x as int, y: self.y as int, z: self.z as int }
    }
}

impl Vec3 {
    pub fn new(x: i128, y: i128, z: i128) -> (r: Vec3)
        ensures
            r@ == (V3 { x: x as int, y: y as int, z: z as int }),
    {
        Vec3 { x, y, z }
    }

    pub fn add(&self, o: &Vec3) -> (r: Vec3)
        requires
            iabs(self@.x + o@.x) <= i128::MAX,
            iabs(self@.y + o@.y) <= i128::MAX,
            iabs(self@.z + o@.z) <= i128::MAX,
        ensures
            r@ == self@.add(o@),
    {
        Vec3 { x: self.x + o.x, y: self.y + o.y, z: self.z + o.z }
    }

    pub fn sub(&self, o: &Vec3) -> (r: Vec3)
        requires
            iabs(self@.x - o@.x) <= i128::MAX,
            iabs(self@.y - o@.y) <= i128::MAX,
            iabs(self@.z - o@.z) <= i128::MAX,
        ensures
            r@ == self@.sub(o@),
    {
        Vec3 { x: self.x - o.x, y: self.y - o.y, z: self.z - o.z }
    }

    pub fn neg(&self) -> (r: Vec3)
        requires
            self@.x > i128::MIN,
            self@.y > i128::MIN,
            self@.z > i128::MIN,
        ensures
            r@ == self@.neg(),
    {
        Vec3 { x: -self.x, y: -self.y, z: -self.z }
    }

    pub fn smul(&self, s: i128) -> (r: Vec3)
        requires
            self@.norm_inf() * iabs(s as int) < i128::MAX,
        ensures
            r@ == self@.smul(s as int),
    {
        proof {
            lemma_norm_inf_mul(self@, s as int);
        }
        Vec3 { x: fx_mul(self.x, s), y: fx_mul(self.y, s), z: fx_mul(self.z, s) }
    }

    /// The raw inner product; exact, so its sign can be trusted.
    pub fn dot_raw(&self, o: &Vec3) -> (r: i128)
        requires
            self@.norm_inf() * o@.norm_inf() < i128::MAX / 4,
        ensures
            r == self@.dot_raw(o@),
    {
        proof {
            lemma_dot_product_bound(self@, o@);
        }
        self.x * o.x + self.y * o.y + self.z * o.z
    }

    /// The fixed-point inner product.
    pub fn dot(&self, o: &Vec3) -> (r: i128)
        requires
            self@.norm_inf() * o@.norm_inf() < i128::MAX / 4,
        ensures
            r == self@.dot(o@),
            iabs(r as int) * (SCALE as int) <= iabs(self@.dot_raw(o@)),
    {
        proof {
            lemma_dot_product_bound(self@, o@);
        }
        let raw = self.dot_raw(o);
        let r = tz_div(raw, SCALE);
        proof {
            lemma_tzdiv_scaled_bound(raw as int, SCALE as int);
        }
        r
    }

    /// The squared length in fixed-point units: `dot(self, self)`.
    pub fn norm_squared(&self) -> (r: i128)
        requires
            self@.norm_inf() * self@.norm_inf() < i128::MAX / 4,
        ensures
            r == self@.dot(self@),
            r >= 0,
    {
        proof {
            lemma_dot_raw_self_nonneg(self@);
            vstd::arithmetic::div_mod::lemma_div_pos_is_pos(self@.dot_raw(self@), SCALE as int);
        }
        self.dot(self)
    }

    /// The fixed-point length `floor(SCALE * |v|)`.
    pub fn norm(&self) -> (r: i128)
        requires
            self@.norm_inf() * self@.norm_inf() < i128::MAX / 4,
        ensures
            r == self@.norm(),
            r >= 0,
    {
        let raw = self.dot_raw(self);
        proof {
            lemma_dot_raw_self_nonneg(self@);
            crate::fx::lemma_sqrt_floor_bounds(raw as nat);
            assert(sqrt_floor(raw as nat) * sqrt_floor(raw as nat) <= raw as nat);
            assert(sqrt_floor(raw as nat) <= i128::MAX) by (nonlinear_arith)
                requires
                    sqrt_floor(raw as nat) * sqrt_floor(raw as nat) <= raw <= i128::MAX,
        ;
        }
        isqrt(raw as u128) as i128
    }

    /// The unit vector in the direction of `self`.
    pub fn unit(&self) -> (r: Vec3)
        requires
            self@.dot_raw(self@) >= 1,
            self@.norm_inf() * self@.norm_inf() < i128::MAX / 4,
            self@.norm_inf() * (SCALE as int) < i128::MAX,
        ensures
            r@ == self@.unit(),
            r@.bounded(SCALE as int),
    {
        let len = self.norm();
        proof {
            lemma_unit_bounded(self@);
            assert(len >= 1) by {
                crate::fx::lemma_sqrt_floor_bounds(self@.dot_raw(self@) as nat);
            };
            lemma_norm_inf_mul(self@, SCALE as int);
        }
        Vec3 {
            x: tz_div(self.x * SCALE, len),
            y: tz_div(self.y * SCALE, len),
            z: tz_div(self.z * SCALE, len),
        }
    }

    /// The fixed-point cross product.
    pub fn cross(&self, o: &Vec3) -> (r: Vec3)
        requires
            self@.bounded(0x100_0000_0000),
            o@.bounded(0x100_0000_0000),
        ensures
            r@ == self@.cross(o@),
            r@.bounded(0x2_0000_0000_0000_0000),
    {
        proof {
            lemma_cross_bound(self@, o@, 0x100_0000_0000, 0x100_0000_0000);
        }
        Vec3 {
            x: fx_mul(self.y, o.z) - fx_mul(self.z, o.y),
            y: fx_mul(self.z, o.x) - fx_mul(self.x, o.z),
            z: fx_mul(self.x, o.y) - fx_mul(self.y, o.x),
        }
    }

    /// Whether the vector rounds to zero at fixed-point resolution.
    pub fn near_zero(&self) -> (r: bool)
        ensures
            r == self@.near_zero(),
    {
        self.x == 0 && self.y == 0 && self.z == 0
    }

    /// Mirror reflection about the normal `n`.
    pub fn reflect(v: &Vec3, n: &Vec3) -> (r: Vec3)
        requires
            v@.bounded(0x100_0000_0000),
            n@.bounded(0x10_0000),
        ensures
            r@ == v@.reflect(n@),
            r@.bounded(0x20_0000_0000_0000),
    {
        proof {
            lemma_bounded_norm_inf(v@, 0x100_0000_0000);
            lemma_bounded_norm_inf(n@, 0x10_0000);
            lemma_mul_le(v@.norm_inf(), n@.norm_inf(), 0x100_0000_0000, 0x10_0000);
        }
        let d = v.dot(n);
        proof {
            lemma_dot_product_bound(v@, n@);
            crate::fx::lemma_tzdiv_le_bound(
                v@.dot_raw(n@),
                SCALE as int,
                3 * 0x100_0000_0000int * 0x10_0000,
            );
            lemma_smul_bound(n@, 2 * (d as int), 0x10_0000, 0x1_0000_0000_0000);
        }
        let scaled = n.smul(2 * d);
        v.sub(&scaled)
    }

    /// Snell refraction with refractive-index ratio `eta`.
    pub fn refract(uv: &Vec3, n: &Vec3, eta: i128) -> (r: Vec3)
        requires
            uv@.bounded(0x8_0000),
            n@.bounded(0x8_0000),
            0 <= eta <= 0x100_0000,
        ensures
            r@ == uv@.refract(n@, eta as int),
            r@.bounded(0x20_0000_0000),
    {
        proof {
            lemma_bounded_norm_inf(uv@, 0x8_0000);
            lemma_bounded_norm_inf(n@, 0x8_0000);
            lemma_mul_le(uv@.norm_inf(), n@.norm_inf(), 0x8_0000, 0x8_0000);
        }
        let d = uv.dot(n);
        proof {
            lemma_dot_product_bound(uv@, n@);
            crate::fx::lemma_tzdiv_le_bound(uv@.dot_raw(n@), SCALE as int, 3 * 0x8_0000int * 0x8_0000);
        }
        let c = if d < SCALE {
            -d
        } else {
            -SCALE
        };
        proof {
            lemma_smul_bound(n@, c as int, 0x8_0000, 0xC0_0000);
        }
        let cn = n.smul(c);
        let inner = uv.add(&cn);
        proof {
            lemma_smul_bound(inner@, eta as int, 0x800_0000, 0x100_0000);
            lemma_bounded_norm_inf(inner@.smul(eta as int), 0x8_0000_0000);
            lemma_mul_le(
                inner@.smul(eta as int).norm_inf(),
                inner@.smul(eta as int).norm_inf(),
                0x8_0000_0000,
                0x8_0000_0000,
            );
        }
        let perp = inner.smul(eta);
        let ns = perp.norm_squared();
        let k: i128 = if ns >= SCALE {
            0
        } else {
            (SCALE - ns) * SCALE
        };
        let squ = crate::fx::isqrt(k as u128);
        proof {
            assert(squ <= 0x1_0000) by (nonlinear_arith)
                requires
                    squ * squ <= k,
                    k <= 0x1_0000_0000,
            ;
        }
        let sq = squ as i128;
        proof {
            lemma_smul_bound(n@, sq as int, 0x8_0000, 0x1_0000);
        }
        let pn = n.smul(sq);
        perp.sub(&pn)
    }

    /// Whether every component's magnitude is at most `b`.
    pub fn is_bounded(&self, b: i128) -> (r: bool)
        requires
            b >= 0,
        ensures
            r == self@.bounded(b as int),
    {
        let bx = if self.x >= 0 { self.x <= b } else { self.x >= -b };
        let by = if self.y >= 0 { self.y <= b } else { self.y >= -b };
        let bz = if self.z >= 0 { self.z <= b } else { self.z >= -b };
        bx && by && bz
    }
}

/// Fixed-point scaling by zero yields the zero vector.
pub proof fn lemma_smul_zero(v: V3)
    ensures
        v.smul(0) == (V3 { x: 0, y: 0, z: 0 }),
{
    lemma_fx_mul_zero(v.x);
    lemma_fx_mul_zero(v.y);
    lemma_fx_mul_zero(v.z);
}

proof fn lemma_fx_mul_zero(x: int)
    ensures
        fx_mul_spec(x, 0) == 0,
{
    assert(x * 0 == 0) by (nonlinear_arith);
    vstd::arithmetic::div_mod::lemma_div_of0(SCALE as int);
}

/// Fixed-point scaling by one is the identity.
pub proof fn lemma_smul_scale_identity(v: V3)
    ensures
        v.smul(SCALE as int) == v,
{
    lemma_fx_mul_scale(v.x);
    lemma_fx_mul_scale(v.y);
    lemma_fx_mul_scale(v.z);
}

pub proof fn lemma_fx_mul_scale(x: int)
    ensures
        fx_mul_spec(x, SCALE as int) == x,
{
    assert(iabs(x * SCALE as int) == iabs(x) * SCALE as int) by (nonlinear_arith);
    vstd::arithmetic::div_mod::lemma_div_by_multiple(iabs(x), SCALE as int);
}

/// A law of refraction at matched media: with a refractive-index ratio of
/// one, a ray meeting the surface head on passes through with its direction
/// unchanged.
pub proof fn lemma_refract_matched_head_on(n: V3)
    requires
        n.dot_raw(n) == (SCALE as int) * (SCALE as int),
    ensures
        n.neg().refract(n, SCALE as int) == n.neg(),
{
    let s = SCALE as int;
    let uv = n.neg();
    lemma_dot_raw_neg(n, n);
    assert(uv.dot_raw(n) == -(s * s));
    assert(uv.dot(n) == -s) by {
        assert(iabs(-(s * s)) == iabs(s) * s) by (nonlinear_arith)
            requires
                s == SCALE as int,
        ;
        vstd::arithmetic::div_mod::lemma_div_by_multiple(iabs(s), s);
    };
    let c = -vstd::math::min(uv.dot(n), s);
    assert(c == s);
    lemma_smul_scale_identity(n);
    assert(n.smul(c) == n);
    let inner = uv.add(n.smul(c));
    assert(inner == (V3 { x: 0, y: 0, z: 0 }));
    lemma_smul_scale_identity(inner);
    let perp = inner.smul(s);
    assert(perp == inner);
    assert(perp.dot_raw(perp) == 0) by (nonlinear_arith)
        requires
            perp.x == 0,
            perp.y == 0,
            perp.z == 0,
    ;
    assert(perp.dot(perp) == 0) by {
        assert(iabs(0) / iabs(s) == 0) by {
            vstd::arithmetic::div_mod::lemma_div_of0(iabs(s));
        };
    };
    let ns = perp.dot(perp);
    let k = (s - ns) * s;
    assert(k == s * s);
    assert(sqrt_floor((s * s) as nat) == s) by {
        assert(s * s < (s + 1) * (s + 1)) by (nonlinear_arith)
            requires
                s == SCALE as int,
        ;
        crate::fx::lemma_sqrt_floor_unique((s * s) as nat, s as nat);
    };
    assert(perp.sub(n.smul(s)) == uv);
}

/// Bounds a cross product: components stay within `2 * ba * bb / SCALE`.
pub proof fn lemma_cross_bound(a: V3, b: V3, ba: int, bb: int)
    requires
        a.bounded(ba),
        b.bounded(bb),
        0 <= ba,
        0 <= bb,
    ensures
        iabs(a.y) * iabs(b.z) <= ba * bb,
        iabs(a.z) * iabs(b.y) <= ba * bb,
        iabs(a.z) * iabs(b.x) <= ba * bb,
        iabs(a.x) * iabs(b.z) <= ba * bb,
        iabs(a.x) * iabs(b.y) <= ba * bb,
        iabs(a.y) * iabs(b.x) <= ba * bb,
        a.cross(b).bounded(2 * (ba * bb / (SCALE as int))),
{
    crate::fx::lemma_abs_mul_bound(a.y, b.z, ba, bb);
    crate::fx::lemma_abs_mul_bound(a.z, b.y, ba, bb);
    crate::fx::lemma_abs_mul_bound(a.z, b.x, ba, bb);
    crate::fx::lemma_abs_mul_bound(a.x, b.z, ba, bb);
    crate::fx::lemma_abs_mul_bound(a.x, b.y, ba, bb);
    crate::fx::lemma_abs_mul_bound(a.y, b.x, ba, bb);
    crate::fx::lemma_tzdiv_le_bound(a.y * b.z, SCALE as int, ba * bb);
    crate::fx::lemma_tzdiv_le_bound(a.z * b.y, SCALE as int, ba * bb);
    crate::fx::lemma_tzdiv_le_bound(a.z * b.x, SCALE as int, ba * bb);
    crate::fx::lemma_tzdiv_le_bound(a.x * b.z, SCALE as int, ba * bb);
    crate::fx::lemma_tzdiv_le_bound(a.x * b.y, SCALE as int, ba * bb);
    crate::fx::lemma_tzdiv_le_bound(a.y * b.x, SCALE as int, ba * bb);
}

pub proof fn lemma_dot_raw_comm(a: V3, b: V3)
    ensures
        a.dot_raw(b) == b.dot_raw(a),
{
    assert(a.x * b.x == b.x * a.x) by (nonlinear_arith);
    assert(a.y * b.y == b.y * a.y) by (nonlinear_arith);
    assert(a.z * b.z == b.z * a.z) by (nonlinear_arith);
}

pub proof fn lemma_dot_raw_neg(a: V3, b: V3)
    ensures
        a.neg().dot_raw(b) == -a.dot_raw(b),
        b.dot_raw(a.neg()) == -b.dot_raw(a),
        a.neg().dot_raw(a.neg()) == a.dot_raw(a),
{
    assert((-a.x) * (-a.x) == a.x * a.x) by (nonlinear_arith);
    assert((-a.y) * (-a.y) == a.y * a.y) by (nonlinear_arith);
    assert((-a.z) * (-a.z) == a.z * a.z) by (nonlinear_arith);
    assert((-a.x) * b.x == -(a.x * b.x)) by (nonlinear_arith);
    assert((-a.y) * b.y == -(a.y * b.y)) by (nonlinear_arith);
    assert((-a.z) * b.z == -(a.z * b.z)) by (nonlinear_arith);
    assert(b.x * (-a.x) == -(b.x * a.x)) by (nonlinear_arith);
    assert(b.y * (-a.y) == -(b.y * a.y)) by (nonlinear_arith);
    assert(b.z * (-a.z) == -(b.z * a.z)) by (nonlinear_arith);
}

pub proof fn lemma_bounded_norm_inf(v: V3, b: int)
    requires
        v.bounded(b),
    ensures
        0 <= v.norm_inf() <= b,
        v.bounded(v.norm_inf()),
{
}

pub proof fn lemma_mul_le(a: int, b: int, ca: int, cb: int)
    requires
        0 <= a <= ca,
        0 <= b <= cb,
    ensures
        a * b <= ca * cb,
{
    assert(a * b <= ca * cb) by (nonlinear_arith)
        requires
            0 <= a <= ca,
            0 <= b <= cb,
    ;
}

/// Bounds a fixed-point scaling: if `v` is bounded by `bv` and `|s| <= bs`,
/// the scaled vector is bounded by `bv * bs / SCALE`.
pub proof fn lemma_smul_bound(v: V3, s: int, bv: int, bs: int)
    requires
        v.bounded(bv),
        iabs(s) <= bs,
        0 <= bv,
        0 <= bs,
    ensures
        v.norm_inf() * iabs(s) <= bv * bs,
        v.smul(s).bounded(bv * bs / (SCALE as int)),
{
    lemma_bounded_norm_inf(v, bv);
    lemma_mul_le(v.norm_inf(), iabs(s), bv, bs);
    assert(iabs(v.x * s) == iabs(v.x) * iabs(s)) by (nonlinear_arith);
    assert(iabs(v.y * s) == iabs(v.y) * iabs(s)) by (nonlinear_arith);
    assert(iabs(v.z * s) == iabs(v.z) * iabs(s)) by (nonlinear_arith);
    lemma_mul_le(iabs(v.x), iabs(s), bv, bs);
    lemma_mul_le(iabs(v.y), iabs(s), bv, bs);
    lemma_mul_le(iabs(v.z), iabs(s), bv, bs);
    crate::fx::lemma_tzdiv_le_bound(v.x * s, SCALE as int, bv * bs);
    crate::fx::lemma_tzdiv_le_bound(v.y * s, SCALE as int, bv * bs);
    crate::fx::lemma_tzdiv_le_bound(v.z * s, SCALE as int, bv * bs);
}

pub proof fn lemma_norm_inf_mul(v: V3, s: int)
    ensures
        iabs(v.x * s) <= v.norm_inf() * iabs(s),
        iabs(v.y * s) <= v.norm_inf() * iabs(s),
        iabs(v.z * s) <= v.norm_inf() * iabs(s),
        iabs(v.x) * iabs(s) <= v.norm_inf() * iabs(s),
        iabs(v.y) * iabs(s) <= v.norm_inf() * iabs(s),
        iabs(v.z) * iabs(s) <= v.norm_inf() * iabs(s),
{
    assert(iabs(v.x * s) == iabs(v.x) * iabs(s)) by (nonlinear_arith);
    assert(iabs(v.y * s) == iabs(v.y) * iabs(s)) by (nonlinear_arith);
    assert(iabs(v.z * s) == iabs(v.z) * iabs(s)) by (nonlinear_arith);
    assert(iabs(v.x) * iabs(s) <= v.norm_inf() * iabs(s)) by (nonlinear_arith)
        requires
            iabs(v.x) <= v.norm_inf(),
            iabs(s) >= 0,
    ;
    assert(iabs(v.y) * iabs(s) <= v.norm_inf() * iabs(s)) by (nonlinear_arith)
        requires
            iabs(v.y) <= v.norm_inf(),
            iabs(s) >= 0,
    ;
    assert(iabs(v.z) * iabs(s) <= v.norm_inf() * iabs(s)) by (nonlinear_arith)
        requires
            iabs(v.z) <= v.norm_inf(),
            iabs(s) >= 0,
    ;
}

/// Each summand of a dot product is bounded by the product of the largest
/// component magnitudes.
pub proof fn lemma_dot_product_bound(a: V3, b: V3)
    ensures
        iabs(a.x * b.x) <= a.norm_inf() * b.norm_inf(),
        iabs(a.y * b.y) <= a.norm_inf() * b.norm_inf(),
        iabs(a.z * b.z) <= a.norm_inf() * b.norm_inf(),
        iabs(a.dot_raw(b)) <= 3 * (a.norm_inf() * b.norm_inf()),
{
    assert(iabs(a.x * b.x) <= a.norm_inf() * b.norm_inf()) by (nonlinear_arith)
        requires
            iabs(a.x) <= a.norm_inf(),
            iabs(b.x) <= b.norm_inf(),
    ;
    assert(iabs(a.y * b.y) <= a.norm_inf() * b.norm_inf()) by (nonlinear_arith)
        requires
            iabs(a.y) <= a.norm_inf(),
            iabs(b.y) <= b.norm_inf(),
    ;
    assert(iabs(a.z * b.z) <= a.norm_inf() * b.norm_inf()) by (nonlinear_arith)
        requires
            iabs(a.z) <= a.norm_inf(),
            iabs(b.z) <= b.norm_inf(),
    ;
}

pub proof fn lemma_dot_raw_self_nonneg(v: V3)
    ensures
        v.dot_raw(v) >= 0,
        v.x * v.x <= v.dot_raw(v),
        v.y * v.y <= v.dot_raw(v),
        v.z * v.z <= v.dot_raw(v),
{
    assert(v.x * v.x >= 0) by (nonlinear_arith);
    assert(v.y * v.y >= 0) by (nonlinear_arith);
    assert(v.z * v.z >= 0) by (nonlinear_arith);
}

/// `|tzdiv(a, d)| * d <= |a|` for positive `d`.
pub proof fn lemma_tzdiv_scaled_bound(a: int, d: int)
    requires
        d >= 1,
    ensures
        iabs(tzdiv(a, d)) * d <= iabs(a),
        iabs(tzdiv(a, d)) <= iabs(a),
{
    let q = iabs(a) / d;
    vstd::arithmetic::div_mod::lemma_div_pos_is_pos(iabs(a), d);
    vstd::arithmetic::div_mod::lemma_fundamental_div_mod(iabs(a), d);
    vstd::arithmetic::div_mod::lemma_mod_division_less_than_divisor(iabs(a), d);
    assert(q * d <= iabs(a));
    vstd::arithmetic::div_mod::lemma_div_nonincreasing(iabs(a), d);
    assert(iabs(tzdiv(a, d)) == q);
}

/// Components of a unit vector stay within `SCALE`.
pub proof fn lemma_unit_bounded(v: V3)
    requires
        v.dot_raw(v) >= 1,
    ensures
        v.unit().bounded(SCALE as int),
        v.norm() >= 1,
{
    let raw = v.dot_raw(v);
    let len = v.norm();
    crate::fx::lemma_sqrt_floor_bounds(raw as nat);
    assert(len * len <= raw);
    assert(raw < (len + 1) * (len + 1));
    assert(len >= 1) by (nonlinear_arith)
        requires
            len >= 0,
            raw >= 1,
            raw < (len + 1) * (len + 1),
    ;
    lemma_dot_raw_self_nonneg(v);
    lemma_unit_component(v.x, raw, len);
    lemma_unit_component(v.y, raw, len);
    lemma_unit_component(v.z, raw, len);
}

proof fn lemma_unit_component(c: int, raw: int, len: int)
    requires
        len >= 1,
        c * c <= raw,
        raw < (len + 1) * (len + 1),
    ensures
        iabs(tzdiv(c * SCALE as int, len)) <= SCALE as int,
{
    assert(iabs(c) <= len) by (nonlinear_arith)
        requires
            len >= 1,
            c * c <= raw,
            raw < (len + 1) * (len + 1),
    ;
    let num = iabs(c * SCALE as int);
    assert(num == iabs(c) * (SCALE as int)) by (nonlinear_arith)
        requires
            num == iabs(c * SCALE as int),
    ;
    assert(num <= len * (SCALE as int)) by (nonlinear_arith)
        requires
            iabs(c) <= len,
            num == iabs(c) * (SCALE as int),
    ;
    vstd::arithmetic::div_mod::lemma_div_multiples_vanish(SCALE as int, len);
    vstd::arithmetic::div_mod::lemma_div_is_ordered(num, len * (SCALE as int), len);
    assert(num / len <= SCALE as int);
    assert(iabs(tzdiv(c * SCALE as int, len)) == num / len);
}

} // verus!
